use vstd::prelude::*;

use crate::model::{
    find_mosaic, first_with_id, has_id, index_of_id, regions_view, ExportSettings, MosaicRegion,
    RegionView,
};

verus! {

/// An edit that can be undone, holding what is needed to reverse it.
#[derive(Debug)]
#[allow(inconsistent_fields)]
pub enum EditAction {
    AddMosaic(MosaicRegion),
    RemoveMosaic { index: usize, region: MosaicRegion },
    UpdateMosaic { index: usize, before: MosaicRegion, after: MosaicRegion },
    UpdateExport { before: ExportSettings, after: ExportSettings },
}

/// The value of an edit, with its regions as views.
#[allow(inconsistent_fields)]
pub enum ActionView {
    AddMosaic(RegionView),
    RemoveMosaic { index: usize, region: RegionView },
    UpdateMosaic { index: usize, before: RegionView, after: RegionView },
    UpdateExport { before: ExportSettings, after: ExportSettings },
}

impl View for EditAction {
    type V = ActionView;

    open spec fn view(&self) -> ActionView {
        match self {
            EditAction::AddMosaic(r) => ActionView::AddMosaic(r@),
            EditAction::RemoveMosaic { index, region } => ActionView::RemoveMosaic {
                index: *index,
                region: region@,
            },
            EditAction::UpdateMosaic { index, before, after } => ActionView::UpdateMosaic {
                index: *index,
                before: before@,
                after: after@,
            },
            EditAction::UpdateExport { before, after } => ActionView::UpdateExport {
                before: *before,
                after: *after,
            },
        }
    }
}

/// The state of the edited project that actions apply to.
pub struct EditState {
    pub mosaics: Seq<RegionView>,
    pub export: ExportSettings,
}

/// Reversing `a` in state `s`: the state it leaves and the action that
/// reverses it in turn.
///  - Adding a region is reversed by removing the first region with its id (if
///    none has it, nothing changes and the action stays as it is).
///  - Removing is reversed by inserting the region back at its index, or at the
///    end where the list has become shorter.
///  - Updating a region is reversed by putting back its earlier value, where the
///    index is still in range (else nothing changes).
///  - Updating the export settings is reversed by putting back the earlier ones.
pub open spec fn reversed(a: ActionView, s: EditState) -> (EditState, ActionView) {
    let ms = s.mosaics;
    match a {
        ActionView::AddMosaic(r) => {
            if has_id(ms, r.id) {
                let i = index_of_id(ms, r.id);
                (
                    EditState { mosaics: ms.remove(i), export: s.export },
                    ActionView::RemoveMosaic { index: i as usize, region: ms[i] },
                )
            } else {
                (s, ActionView::AddMosaic(r))
            }
        },
        ActionView::RemoveMosaic { index, region } => {
            let idx = if index < ms.len() {
                index as int
            } else {
                ms.len() as int
            };
            (
                EditState { mosaics: ms.insert(idx, region), export: s.export },
                ActionView::AddMosaic(region),
            )
        },
        ActionView::UpdateMosaic { index, before, after } => {
            if index < ms.len() {
                (
                    EditState { mosaics: ms.update(index as int, before), export: s.export },
                    ActionView::UpdateMosaic { index, before: ms[index as int], after: before },
                )
            } else {
                (s, a)
            }
        },
        ActionView::UpdateExport { before, after } => (
            EditState { mosaics: ms, export: before },
            ActionView::UpdateExport { before: s.export, after: before },
        ),
    }
}

/// The state that the edit recorded by `a` leads to from `s`.
pub open spec fn applied(a: ActionView, s: EditState) -> EditState {
    match a {
        ActionView::AddMosaic(r) => EditState { mosaics: s.mosaics.push(r), export: s.export },
        ActionView::RemoveMosaic { index, region } => EditState {
            mosaics: s.mosaics.remove(index as int),
            export: s.export,
        },
        ActionView::UpdateMosaic { index, before, after } => EditState {
            mosaics: s.mosaics.update(index as int, after),
            export: s.export,
        },
        ActionView::UpdateExport { before, after } => EditState { mosaics: s.mosaics, export: after },
    }
}

/// `a` faithfully records an edit made in state `s`: an added region has an id
/// that no region had, a removed region is the first with its id, and the
/// `before` of an update is what the state held.
pub open spec fn records_edit_in(a: ActionView, s: EditState) -> bool {
    match a {
        ActionView::AddMosaic(r) => !has_id(s.mosaics, r.id),
        ActionView::RemoveMosaic { index, region } => {
            &&& first_with_id(s.mosaics, index as int, region.id)
            &&& s.mosaics[index as int] == region
        },
        ActionView::UpdateMosaic { index, before, after } => {
            &&& index < s.mosaics.len()
            &&& s.mosaics[index as int] == before
        },
        ActionView::UpdateExport { before, after } => s.export == before,
    }
}

proof fn lemma_first_with_id_is_index(ms: Seq<RegionView>, i: int, id: Seq<char>)
    requires
        first_with_id(ms, i, id),
    ensures
        has_id(ms, id),
        index_of_id(ms, id) == i,
{
    let c = choose|c: int| first_with_id(ms, c, id);
    if c < i {
        assert(ms[c].id != id);
    } else if c > i {
        assert(ms[i].id != id);
    }
}

proof fn lemma_first_with_id_exists(ms: Seq<RegionView>, id: Seq<char>, k: int)
    requires
        0 <= k < ms.len(),
        ms[k].id == id,
    ensures
        first_with_id(ms, index_of_id(ms, id), id),
    decreases k,
{
    if exists|j: int| 0 <= j < k && #[trigger] ms[j].id == id {
        let j = choose|j: int| 0 <= j < k && #[trigger] ms[j].id == id;
        lemma_first_with_id_exists(ms, id, j);
    } else {
        assert(first_with_id(ms, k, id));
    }
}

/// Undoing an edit right after it was made gives back the state before it, and
/// redoing it then gives back the edited state.
pub proof fn lemma_undo_then_redo(a: ActionView, s: EditState)
    requires
        records_edit_in(a, s),
        s.mosaics.len() < usize::MAX,
    ensures
        reversed(a, applied(a, s)).0 == s,
        reversed(reversed(a, applied(a, s)).1, s).0 == applied(a, s),
{
    let t = applied(a, s);
    match a {
        ActionView::AddMosaic(r) => {
            let n = s.mosaics.len() as int;
            assert(t.mosaics[n] == r);
            assert forall|j: int| 0 <= j < n implies #[trigger] t.mosaics[j].id != r.id by {
                assert(t.mosaics[j] == s.mosaics[j]);
            }
            lemma_first_with_id_is_index(t.mosaics, n, r.id);
            assert(t.mosaics.remove(n) =~= s.mosaics);
            assert(s.mosaics.insert(n, r) =~= t.mosaics);
        },
        ActionView::RemoveMosaic { index, region } => {
            let i = index as int;
            assert(t.mosaics.insert(i, region) =~= s.mosaics);
            lemma_first_with_id_is_index(s.mosaics, i, region.id);
        },
        ActionView::UpdateMosaic { index, before, after } => {
            assert(t.mosaics.update(index as int, before) =~= s.mosaics);
            assert(s.mosaics.update(index as int, after) =~= t.mosaics);
        },
        ActionView::UpdateExport { before, after } => {},
    }
}

/// Redoing right after an undo (or undoing right after a redo) gives back the
/// state from before, unless a removal is being reversed into a list that
/// already holds another region with the removed region's id.
pub proof fn lemma_reverse_twice(a: ActionView, s: EditState)
    requires
        a matches ActionView::RemoveMosaic { region, .. } ==> !has_id(s.mosaics, region.id),
        s.mosaics.len() < usize::MAX,
    ensures
        reversed(reversed(a, s).1, reversed(a, s).0).0 == s,
{
    let (t, b) = reversed(a, s);
    match a {
        ActionView::AddMosaic(r) => {
            if has_id(s.mosaics, r.id) {
                let i = index_of_id(s.mosaics, r.id);
                let k = choose|k: int| 0 <= k < s.mosaics.len() && s.mosaics[k].id == r.id;
                lemma_first_with_id_exists(s.mosaics, r.id, k);
                assert(t.mosaics.insert(i, s.mosaics[i]) =~= s.mosaics);
            }
        },
        ActionView::RemoveMosaic { index, region } => {
            let idx = if index < s.mosaics.len() {
                index as int
            } else {
                s.mosaics.len() as int
            };
            assert forall|j: int| 0 <= j < idx implies #[trigger] t.mosaics[j].id != region.id by {
                assert(t.mosaics[j] == s.mosaics[j]);
            }
            lemma_first_with_id_is_index(t.mosaics, idx, region.id);
            assert(t.mosaics.remove(idx) =~= s.mosaics);
        },
        ActionView::UpdateMosaic { index, before, after } => {
            if index < s.mosaics.len() {
                assert(t.mosaics.update(index as int, s.mosaics[index as int]) =~= s.mosaics);
            }
        },
        ActionView::UpdateExport { before, after } => {},
    }
}

/// Applies the reverse of `action` and returns the action that reverses that.
fn apply_action_reverse(
    action: EditAction,
    mosaics: &mut Vec<MosaicRegion>,
    export: &mut ExportSettings,
) -> (r: EditAction)
    ensures
        (EditState { mosaics: regions_view(final(mosaics)@), export: *final(export) }, r@)
            == reversed(action@, EditState { mosaics: regions_view(old(mosaics)@), export: *old(export) }),
{
    let ghost ms = regions_view(mosaics@);
    match action {
        EditAction::AddMosaic(region) => {
            match find_mosaic(mosaics, &region.id) {
                Some(i) => {
                    let removed = mosaics.remove(i);
                    assert(regions_view(mosaics@) =~= ms.remove(i as int));
                    EditAction::RemoveMosaic { index: i, region: removed }
                },
                None => EditAction::AddMosaic(region),
            }
        },
        EditAction::RemoveMosaic { index, region } => {
            let idx = if index < mosaics.len() {
                index
            } else {
                mosaics.len()
            };
            let copy = region.clone();
            mosaics.insert(idx, copy);
            assert(regions_view(mosaics@) =~= ms.insert(idx as int, region@));
            EditAction::AddMosaic(region)
        },
        EditAction::UpdateMosaic { index, before, after } => {
            if index < mosaics.len() {
                let current = mosaics[index].clone();
                let restored = before.clone();
                mosaics.set(index, restored);
                assert(regions_view(mosaics@) =~= ms.update(index as int, before@));
                EditAction::UpdateMosaic { index, before: current, after: before }
            } else {
                EditAction::UpdateMosaic { index, before, after }
            }
        },
        EditAction::UpdateExport { before, after } => {
            let current = *export;
            *export = before;
            EditAction::UpdateExport { before: current, after: before }
        },
    }
}


/// How many edits the history keeps; the oldest is dropped beyond this.
pub const MAX_HISTORY: usize = 100;

/// The edits of a list, as views.
pub open spec fn actions_view(s: Seq<EditAction>) -> Seq<ActionView> {
    s.map_values(|a: EditAction| a@)
}

/// A history after one more push: the oldest entry goes once it holds more
/// than `MAX_HISTORY`.
pub open spec fn capped(h: Seq<ActionView>) -> Seq<ActionView> {
    if h.len() > MAX_HISTORY {
        h.drop_first()
    } else {
        h
    }
}

/// The two stacks of an undo history, last entry on top.
pub struct UndoView {
    pub history: Seq<ActionView>,
    pub redo: Seq<ActionView>,
}

/// Undo and redo stacks of edits.
pub struct UndoStack {
    history: Vec<EditAction>,
    redo_stack: Vec<EditAction>,
    max_size: usize,
}

impl View for UndoStack {
    type V = UndoView;

    closed spec fn view(&self) -> UndoView {
        UndoView { history: actions_view(self.history@), redo: actions_view(self.redo_stack@) }
    }
}

impl UndoStack {
    /// Every entry of the redo stack came from an undo of the history, so the
    /// two together never hold more than the cap.
    #[verifier::type_invariant]
    spec fn inv(self) -> bool {
        &&& self.max_size == MAX_HISTORY
        &&& self.history.len() + self.redo_stack.len() <= self.max_size
    }

    pub fn new() -> (r: Self)
        ensures
            r@.history == Seq::<ActionView>::empty(),
            r@.redo == Seq::<ActionView>::empty(),
    {
        let r = UndoStack { history: Vec::new(), redo_stack: Vec::new(), max_size: MAX_HISTORY };
        assert(r@.history =~= Seq::<ActionView>::empty());
        assert(r@.redo =~= Seq::<ActionView>::empty());
        r
    }

    /// Records a new edit: the redo stack is cleared and the edit goes on top
    /// of the history, which then drops its oldest entry if it is over the cap.
    pub fn push(&mut self, action: EditAction)
        ensures
            final(self)@.redo == Seq::<ActionView>::empty(),
            final(self)@.history == capped(old(self)@.history.push(action@)),
            final(self)@.history.len() <= MAX_HISTORY,
    {
        proof {
            use_type_invariant(&*self);
        }
        let mut h: Vec<EditAction> = Vec::new();
        std::mem::swap(&mut h, &mut self.history);
        self.redo_stack = Vec::new();
        let ghost before = h@;
        h.push(action);
        assert(actions_view(h@) =~= actions_view(before).push(action@));
        if h.len() > self.max_size {
            let ghost pushed = h@;
            let _oldest = h.remove(0);
            assert(actions_view(h@) =~= actions_view(pushed).drop_first());
        }
        self.history = h;
        assert(self@.redo =~= Seq::<ActionView>::empty());
    }

    pub fn can_undo(&self) -> (r: bool)
        ensures
            r == (self@.history.len() > 0),
    {
        self.history.len() > 0
    }

    pub fn can_redo(&self) -> (r: bool)
        ensures
            r == (self@.redo.len() > 0),
    {
        self.redo_stack.len() > 0
    }

    /// Reverses the latest edit of the history and keeps its reverse for redo;
    /// `false`, with nothing changed, when the history is empty.
    pub fn undo(&mut self, mosaics: &mut Vec<MosaicRegion>, export: &mut ExportSettings) -> (r: bool)
        ensures
            r == (old(self)@.history.len() > 0),
            !r ==> final(self)@ == old(self)@ && final(mosaics)@ == old(mosaics)@ && *final(export)
                == *old(export),
            r ==> ({
                let (s, back) = reversed(
                    old(self)@.history.last(),
                    EditState { mosaics: regions_view(old(mosaics)@), export: *old(export) },
                );
                &&& final(self)@.history == old(self)@.history.drop_last()
                &&& final(self)@.redo == old(self)@.redo.push(back)
                &&& regions_view(final(mosaics)@) == s.mosaics
                &&& *final(export) == s.export
            }),
    {
        proof {
            use_type_invariant(&*self);
        }
        let ghost h0 = self.history@;
        let ghost r0 = self.redo_stack@;
        let mut h: Vec<EditAction> = Vec::new();
        let mut rs: Vec<EditAction> = Vec::new();
        std::mem::swap(&mut h, &mut self.history);
        std::mem::swap(&mut rs, &mut self.redo_stack);
        let done = match h.pop() {
            Some(action) => {
                let reverse = apply_action_reverse(action, mosaics, export);
                rs.push(reverse);
                assert(actions_view(h@) =~= actions_view(h0).drop_last());
                assert(actions_view(rs@) =~= actions_view(r0).push(reverse@));
                true
            },
            None => false,
        };
        self.history = h;
        self.redo_stack = rs;
        done
    }

    /// Reapplies the latest undone edit by reversing its reverse, and puts the
    /// result back on the history; `false`, with nothing changed, when there is
    /// nothing to redo.
    pub fn redo(&mut self, mosaics: &mut Vec<MosaicRegion>, export: &mut ExportSettings) -> (r: bool)
        ensures
            r == (old(self)@.redo.len() > 0),
            !r ==> final(self)@ == old(self)@ && final(mosaics)@ == old(mosaics)@ && *final(export)
                == *old(export),
            r ==> ({
                let (s, forward) = reversed(
                    old(self)@.redo.last(),
                    EditState { mosaics: regions_view(old(mosaics)@), export: *old(export) },
                );
                &&& final(self)@.redo == old(self)@.redo.drop_last()
                &&& final(self)@.history == old(self)@.history.push(forward)
                &&& regions_view(final(mosaics)@) == s.mosaics
                &&& *final(export) == s.export
            }),
    {
        proof {
            use_type_invariant(&*self);
        }
        let ghost h0 = self.history@;
        let ghost r0 = self.redo_stack@;
        let mut h: Vec<EditAction> = Vec::new();
        let mut rs: Vec<EditAction> = Vec::new();
        std::mem::swap(&mut h, &mut self.history);
        std::mem::swap(&mut rs, &mut self.redo_stack);
        let done = match rs.pop() {
            Some(action) => {
                let forward = apply_action_reverse(action, mosaics, export);
                h.push(forward);
                assert(actions_view(rs@) =~= actions_view(r0).drop_last());
                assert(actions_view(h@) =~= actions_view(h0).push(forward@));
                true
            },
            None => false,
        };
        self.history = h;
        self.redo_stack = rs;
        done
    }
}


/// Removes the region at `index` from the list and returns the edit that
/// records the removal.
pub fn remove_mosaic(mosaics: &mut Vec<MosaicRegion>, index: usize) -> (r: EditAction)
    requires
        index < old(mosaics)@.len(),
    ensures
        final(mosaics)@ == old(mosaics)@.remove(index as int),
        r@ == (ActionView::RemoveMosaic { index, region: old(mosaics)@[index as int]@ }),
{
    let region = mosaics.remove(index);
    EditAction::RemoveMosaic { index, region }
}

} // verus!
