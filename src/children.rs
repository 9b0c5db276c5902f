//! Scheduling of changes to a view's child list.
//!
//! Every change is validated against the reference graph of the siblings when it is
//! scheduled, and the references of the other siblings are rewritten at once, so that a
//! later change in the same batch sees the indices as they will be. The child list itself
//! changes when the scheduler is resolved.
use vstd::prelude::*;
use vstd::view::View as _;

use crate::extent::{ExtentController, ExtentUpdate, IndexShift, RefView};
use crate::extent::ValidateError as ExtentValidateError;
use crate::reference::{refs_can_shift, refs_name_index_in};
use crate::reference::lemma_validate_refs;
use crate::view::{Rect, View};

verus! {

/// The different operations to do on the child list
pub enum ChildrenScheduleOperation<S> {
    /// Push a view onto the end of the children list
    Push(Box<View<S>>),
    /// Insert a view into the children list at some position
    Insert(Box<View<S>>, usize),
    /// Move a view from one position to another, the first usize is the current position,
    /// the second is the new location. The new location is counted after the view was
    /// taken out of the list
    Move(usize, usize),
    /// Deletes a view from a specified position
    Delete(usize),
}

/// Why an operation cannot be scheduled
#[derive(Clone, Copy, Debug, PartialEq, Eq, Structural)]
pub enum ValidateError {
    /// The view cannot be inserted into position (first) of a list with length (second)
    OutOfRange(usize, usize),
    /// Position (first) of a list with length (second) does not exist
    InvalidPos(usize, usize),
    /// The view at this position references its previous sibling and would become first
    NoPrev(usize),
    /// The view at this position would end up before one of the siblings it references
    InvalidId(usize),
    /// The new view cannot be added because its description is invalid there
    InvalidNew(ExtentValidateError),
}

impl From<ExtentValidateError> for ValidateError {
    fn from(err: ExtentValidateError) -> (r: ValidateError)
        ensures
            r == ValidateError::InvalidNew(err),
    {
        ValidateError::InvalidNew(err)
    }
}

impl vstd::std_specs::convert::FromSpecImpl<ExtentValidateError> for ValidateError {
    open spec fn obeys_from_spec() -> bool {
        true
    }

    open spec fn from_spec(err: ExtentValidateError) -> ValidateError {
        ValidateError::InvalidNew(err)
    }
}

/// The descriptions held by a sequence of extent controllers
pub open spec fn views_of<S>(controllers: Seq<ExtentController<S>>) -> Seq<ExtentUpdate<S>> {
    controllers.map_values(|c: ExtentController<S>| c@)
}

/// Every description only references siblings before its own position, and never uses
/// ratio mode on both dimensions
pub open spec fn handles_wf<S>(handles: Seq<ExtentUpdate<S>>) -> bool {
    forall|i: int| 0 <= i < handles.len() ==> (#[trigger] handles[i]).validation(i as usize) is Ok
}

/// Every child is derived by a description that only references siblings before it
pub open spec fn children_wf<S>(list: Seq<Box<View<S>>>) -> bool {
    forall|i: int| 0 <= i < list.len() ==> (#[trigger] list[i]).descriptor().validation(i as usize) is Ok
}

/// Every view has a subtree shallower than `h`
pub open spec fn views_below<S>(views: Seq<Box<View<S>>>, h: nat) -> bool {
    forall|i: int| 0 <= i < views.len() ==> (#[trigger] views[i]).scheduler().height() < h
}

/// Every view added by the operations has a subtree shallower than `h`
pub open spec fn ops_below<S>(ops: Seq<ChildrenScheduleOperation<S>>, h: nat) -> bool {
    forall|k: int|
        0 <= k < ops.len() && (#[trigger] ops[k]).added() is Some ==> ops[k].added()->Some_0.scheduler().height() < h
}

/// Nothing is scheduled in the subtree of any of the views
pub open spec fn views_settled<S>(views: Seq<Box<View<S>>>) -> bool {
    forall|i: int| 0 <= i < views.len() ==> (#[trigger] views[i]).scheduler().is_settled()
}

/// Nothing is scheduled in the subtree of any view added by the operations
pub open spec fn ops_settled<S>(ops: Seq<ChildrenScheduleOperation<S>>) -> bool {
    forall|k: int|
        0 <= k < ops.len() && (#[trigger] ops[k]).added() is Some ==> ops[k].added()->Some_0.scheduler().is_settled()
}

/// Every description shifted by `shift`
pub open spec fn shift_all<S>(handles: Seq<ExtentUpdate<S>>, shift: IndexShift) -> Seq<
    ExtentUpdate<S>,
> {
    Seq::new(handles.len(), |i: int| handles[i].shifted(shift))
}

/// The first position in `[lo, hi)` whose description references the sibling at `target`
/// by its index
pub open spec fn first_dependent<S>(
    handles: Seq<ExtentUpdate<S>>,
    target: usize,
    lo: int,
    hi: int,
) -> Option<usize>
    decreases hi - lo,
{
    if lo >= hi {
        None
    } else if handles[lo].refs().contains(RefView::Id(target)) {
        Some(lo as usize)
    } else {
        first_dependent(handles, target, lo + 1, hi)
    }
}

impl<S> ChildrenScheduleOperation<S> {
    /// Why the operation cannot be applied to siblings described by `handles`, if it cannot.
    ///
    /// An operation is accepted only when afterwards every view still references siblings
    /// before it. A moved view keeps its references, which must therefore all lie before its
    /// new position: moved to the front it cannot use `Prev`, moved back it cannot reference
    /// an index it passes. A view moved forward passes the views in `(from, to]`, none of
    /// which may reference it by index, and the view that becomes first cannot use `Prev`.
    /// A deletion is refused when a later view references the deleted one by index, or when
    /// the view that becomes first uses `Prev`.
    pub open spec fn error_in(self, handles: Seq<ExtentUpdate<S>>) -> Option<ValidateError> {
        let n = handles.len();
        match self {
            ChildrenScheduleOperation::Push(view) => match view.descriptor().validation(
                n as usize,
            ) {
                Ok(()) => None,
                Err(e) => Some(ValidateError::InvalidNew(e)),
            },
            ChildrenScheduleOperation::Insert(view, pos) => if pos > n {
                Some(ValidateError::OutOfRange(pos, n as usize))
            } else {
                match view.descriptor().validation(pos) {
                    Ok(()) => None,
                    Err(e) => Some(ValidateError::InvalidNew(e)),
                }
            },
            ChildrenScheduleOperation::Move(from, to) => if to >= n {
                Some(ValidateError::OutOfRange(to, if n == 0 { 0 } else { (n - 1) as usize }))
            } else if from >= n {
                Some(ValidateError::InvalidPos(from, n as usize))
            } else if to < from {
                if to == 0 && handles[from as int].refs().contains(RefView::Prev) {
                    Some(ValidateError::NoPrev(from))
                } else if refs_name_index_in(handles[from as int].refs(), to, from) {
                    Some(ValidateError::InvalidId(from))
                } else {
                    None
                }
            } else if to > from {
                if from == 0 && handles[1].refs().contains(RefView::Prev) {
                    Some(ValidateError::NoPrev(1))
                } else {
                    match first_dependent(handles, from, from + 1, to + 1) {
                        Some(j) => Some(ValidateError::InvalidId(j)),
                        None => None,
                    }
                }
            } else {
                None
            },
            ChildrenScheduleOperation::Delete(pos) => if pos >= n {
                Some(ValidateError::InvalidPos(pos, n as usize))
            } else if pos == 0 && n > 1 && handles[1].refs().contains(RefView::Prev) {
                Some(ValidateError::NoPrev(1))
            } else {
                match first_dependent(handles, pos, pos + 1, n as int) {
                    Some(j) => Some(ValidateError::InvalidId(j)),
                    None => None,
                }
            },
        }
    }

    /// The descriptions of the siblings after the operation, with every reference rewritten
    /// to denote the same sibling as before
    pub open spec fn applied_to(self, handles: Seq<ExtentUpdate<S>>) -> Seq<ExtentUpdate<S>> {
        match self {
            ChildrenScheduleOperation::Push(view) => handles.push(view.descriptor()),
            ChildrenScheduleOperation::Insert(view, pos) => shift_all(
                handles,
                IndexShift::Insert(pos),
            ).insert(pos as int, view.descriptor()),
            ChildrenScheduleOperation::Move(from, to) => shift_all(
                handles.remove(from as int).insert(to as int, handles[from as int]),
                IndexShift::Move(from, to),
            ),
            ChildrenScheduleOperation::Delete(pos) => shift_all(
                handles.remove(pos as int),
                IndexShift::Delete(pos),
            ),
        }
    }

    /// Whether the operation adds a view that has operations scheduled in its own subtree
    pub open spec fn carries_pending(self) -> bool {
        match self {
            ChildrenScheduleOperation::Push(view) => view.scheduler().has_pending_spec(),
            ChildrenScheduleOperation::Insert(view, _) => view.scheduler().has_pending_spec(),
            _ => false,
        }
    }

    /// The view the operation adds to the list, if it adds one
    pub open spec fn added(self) -> Option<Box<View<S>>> {
        match self {
            ChildrenScheduleOperation::Push(view) => Some(view),
            ChildrenScheduleOperation::Insert(view, _) => Some(view),
            _ => None,
        }
    }

    /// The length of a list of `n` children after the operation, if it fits the list
    pub open spec fn len_after(self, n: nat) -> Option<nat> {
        match self {
            ChildrenScheduleOperation::Push(_) => Some(n + 1),
            ChildrenScheduleOperation::Insert(_, pos) => if pos <= n {
                Some(n + 1)
            } else {
                None
            },
            ChildrenScheduleOperation::Move(from, to) => if from < n && to < n {
                Some(n)
            } else {
                None
            },
            ChildrenScheduleOperation::Delete(pos) => if pos < n {
                Some((n - 1) as nat)
            } else {
                None
            },
        }
    }

    /// The child list after the operation
    pub open spec fn applied_to_list(self, list: Seq<Box<View<S>>>) -> Seq<Box<View<S>>> {
        match self {
            ChildrenScheduleOperation::Push(view) => list.push(view),
            ChildrenScheduleOperation::Insert(view, pos) => list.insert(pos as int, view),
            ChildrenScheduleOperation::Move(from, to) => list.remove(from as int).insert(
                to as int,
                list[from as int],
            ),
            ChildrenScheduleOperation::Delete(pos) => list.remove(pos as int),
        }
    }
}

/// The length of a list of `n` children after the operations in order, if they all fit
pub open spec fn len_after_all<S>(n: nat, ops: Seq<ChildrenScheduleOperation<S>>) -> Option<
    nat,
>
    decreases ops.len(),
{
    if ops.len() == 0 {
        Some(n)
    } else {
        match ops[0].len_after(n) {
            Some(m) => len_after_all(m, ops.drop_first()),
            None => None,
        }
    }
}

/// The child list after the operations in order
pub open spec fn applied_all<S>(
    list: Seq<Box<View<S>>>,
    ops: Seq<ChildrenScheduleOperation<S>>,
) -> Seq<Box<View<S>>>
    decreases ops.len(),
{
    if ops.len() == 0 {
        list
    } else {
        applied_all(ops[0].applied_to_list(list), ops.drop_first())
    }
}

/// Schedules changes to the children list
pub struct ChildrenScheduler<S> {
    /// The list of current children
    list: Vec<Box<View<S>>>,
    /// The schedule queue, the first element is the first operation which takes effect
    queue: Vec<ChildrenScheduleOperation<S>>,
    /// Whether operations are scheduled somewhere below the children
    child_queue_item: bool,
    /// The extent controllers of all the children, as they are once the queue is applied
    children_extent_controllers: Vec<ExtentController<S>>,
    /// A bound above the depth of every child's subtree, queued children included
    height: Ghost<nat>,
}

impl<S> ChildrenScheduler<S> {
    #[verifier::type_invariant]
    spec fn wf(self) -> bool {
        &&& handles_wf(views_of(self.children_extent_controllers@))
        &&& len_after_all(self.list@.len(), self.queue@) == Some(
            self.children_extent_controllers@.len(),
        )
        &&& children_wf(self.list@)
        &&& views_below(self.list@, self.height@)
        &&& ops_below(self.queue@, self.height@)
        &&& !self.child_queue_item ==> views_settled(self.list@) && ops_settled(self.queue@)
    }

    /// A bound above the depth of every child's subtree
    pub closed spec fn height(&self) -> nat {
        self.height@
    }

    /// Nothing is scheduled here nor anywhere below
    pub open spec fn is_settled(self) -> bool
        decreases self.height(),
    {
        &&& self.queue().len() == 0
        &&& !self.subtree_dirty()
        &&& forall|i: int|
            0 <= i < self.children().len() ==> {
                &&& (#[trigger] self.children()[i]).scheduler().height() < self.height()
                &&& self.children()[i].scheduler().is_settled()
            }
    }

    /// The descriptions of the children, as they are once the scheduled operations are applied
    pub closed spec fn handles(&self) -> Seq<ExtentUpdate<S>> {
        views_of(self.children_extent_controllers@)
    }

    /// The operations scheduled, first to be applied first
    pub closed spec fn queue(&self) -> Seq<ChildrenScheduleOperation<S>> {
        self.queue@
    }

    /// The current child list
    pub closed spec fn children(&self) -> Seq<Box<View<S>>> {
        self.list@
    }

    /// Whether operations are scheduled somewhere below the children
    pub closed spec fn subtree_dirty(&self) -> bool {
        self.child_queue_item
    }

    /// Whether operations are scheduled here or somewhere below the children
    pub open spec fn has_pending_spec(&self) -> bool {
        self.queue().len() > 0 || self.subtree_dirty()
    }

    /// A scheduler with no children and nothing scheduled
    pub open spec fn is_empty(&self) -> bool {
        &&& self.handles().len() == 0
        &&& self.queue().len() == 0
        &&& self.children().len() == 0
        &&& !self.subtree_dirty()
    }

}

impl<S: Copy> ChildrenScheduler<S> {
    /// Creates a new children scheduler
    pub fn new() -> (r: Self)
        ensures
            r.is_empty(),
    {
        let r = ChildrenScheduler {
            list: Vec::new(),
            queue: Vec::new(),
            child_queue_item: false,
            children_extent_controllers: Vec::new(),
            height: Ghost(0),
        };
        proof {
            assert(views_of(r.children_extent_controllers@) =~= Seq::empty());
        }
        r
    }
}

/// The first dependent found in a range lies in it; when there is none, no description in
/// the range references `target` by its index
proof fn lemma_first_dependent<S>(handles: Seq<ExtentUpdate<S>>, target: usize, lo: int, hi: int)
    requires
        0 <= lo,
        handles.len() <= usize::MAX,
        hi <= handles.len(),
    ensures
        match first_dependent(handles, target, lo, hi) {
            Some(j) => lo <= j < hi && handles[j as int].refs().contains(RefView::Id(target)),
            None => forall|k: int|
                lo <= k < hi ==> !(#[trigger] handles[k].refs()).contains(RefView::Id(target)),
        },
    decreases hi - lo,
{
    if lo < hi && !handles[lo].refs().contains(RefView::Id(target)) {
        lemma_first_dependent(handles, target, lo + 1, hi);
    }
}

/// A description valid at position `j` stays valid at position `i` after `shift`, when
/// each of its references that resolves at `j` still resolves at `i` once shifted
proof fn lemma_shift_keeps_valid<S>(d: ExtentUpdate<S>, j: usize, i: usize, shift: IndexShift)
    requires
        d.validation(j) is Ok,
        forall|m: int|
            0 <= m < d.refs().len() && (#[trigger] d.refs()[m]).is_valid_in(j) ==> d.refs()[m].shifted(
                shift,
            ).is_valid_in(i),
    ensures
        d.shifted(shift).validation(i) is Ok,
{
    lemma_validate_refs(d.refs(), j);
    d.lemma_shifted(shift);
    let rs = d.shifted(shift).refs();
    assert forall|m: int| 0 <= m < rs.len() implies (#[trigger] rs[m]).is_valid_in(i) by {
        assert(rs[m] == d.refs()[m].shifted(shift));
        assert(d.refs()[m].is_valid_in(j));
    }
    lemma_validate_refs(rs, i);
}

/// Pushing or inserting a valid description keeps every description referencing only
/// older siblings
proof fn lemma_insert_wf<S>(hs: Seq<ExtentUpdate<S>>, d: ExtentUpdate<S>, pos: usize)
    requires
        handles_wf(hs),
        hs.len() <= usize::MAX,
        pos <= hs.len(),
        d.validation(pos) is Ok,
    ensures
        handles_wf(shift_all(hs, IndexShift::Insert(pos)).insert(pos as int, d)),
{
    let shift = IndexShift::Insert(pos);
    let new = shift_all(hs, shift).insert(pos as int, d);
    assert forall|i: int| 0 <= i < new.len() implies (#[trigger] new[i]).validation(
        i as usize,
    ) is Ok by {
        if i < pos {
            assert(new[i] == hs[i].shifted(shift));
            assert(hs[i].validation(i as usize) is Ok);
            lemma_shift_keeps_valid(hs[i], i as usize, i as usize, shift);
        } else if i > pos {
            let j = i - 1;
            assert(new[i] == hs[j].shifted(shift));
            assert(hs[j].validation(j as usize) is Ok);
            lemma_shift_keeps_valid(hs[j], j as usize, i as usize, shift);
        }
    }
}

/// A move accepted by the scheduler keeps every description referencing only older
/// siblings
proof fn lemma_move_wf<S>(hs: Seq<ExtentUpdate<S>>, from: usize, to: usize)
    requires
        handles_wf(hs),
        hs.len() <= usize::MAX,
        ChildrenScheduleOperation::<S>::Move(from, to).error_in(hs) is None,
    ensures
        handles_wf(ChildrenScheduleOperation::<S>::Move(from, to).applied_to(hs)),
{
    let shift = IndexShift::Move(from, to);
    let new = ChildrenScheduleOperation::<S>::Move(from, to).applied_to(hs);
    if to > from {
        lemma_first_dependent(hs, from, from + 1, to + 1);
    }
    assert forall|i: int| 0 <= i < new.len() implies (#[trigger] new[i]).validation(
        i as usize,
    ) is Ok by {
        let j: int = if i == to {
            from as int
        } else if to < from && to < i <= from {
            i - 1
        } else if from < to && from <= i < to {
            i + 1
        } else {
            i
        };
        assert(new[i] == hs[j].shifted(shift));
        assert(hs[j].validation(j as usize) is Ok);
        lemma_shift_keeps_valid(hs[j], j as usize, i as usize, shift);
    }
}

/// A deletion accepted by the scheduler keeps every description referencing only older
/// siblings
proof fn lemma_delete_wf<S>(hs: Seq<ExtentUpdate<S>>, pos: usize)
    requires
        handles_wf(hs),
        hs.len() <= usize::MAX,
        ChildrenScheduleOperation::<S>::Delete(pos).error_in(hs) is None,
    ensures
        handles_wf(ChildrenScheduleOperation::<S>::Delete(pos).applied_to(hs)),
{
    let shift = IndexShift::Delete(pos);
    let new = ChildrenScheduleOperation::<S>::Delete(pos).applied_to(hs);
    lemma_first_dependent(hs, pos, pos + 1, hs.len() as int);
    assert forall|i: int| 0 <= i < new.len() implies (#[trigger] new[i]).validation(
        i as usize,
    ) is Ok by {
        let j: int = if i < pos {
            i
        } else {
            i + 1
        };
        assert(new[i] == hs[j].shifted(shift));
        assert(hs[j].validation(j as usize) is Ok);
        lemma_shift_keeps_valid(hs[j], j as usize, i as usize, shift);
    }
}

/// A scheduled operation keeps every description referencing only older siblings
proof fn lemma_applied_wf<S>(op: ChildrenScheduleOperation<S>, hs: Seq<ExtentUpdate<S>>)
    requires
        handles_wf(hs),
        hs.len() <= usize::MAX,
        op.error_in(hs) is None,
    ensures
        handles_wf(op.applied_to(hs)),
{
    match op {
        ChildrenScheduleOperation::Push(view) => {
            let new = hs.push(view.descriptor());
            assert forall|i: int| 0 <= i < new.len() implies (#[trigger] new[i]).validation(
                i as usize,
            ) is Ok by {
                if i < hs.len() {
                    assert(new[i] == hs[i]);
                }
            }
        },
        ChildrenScheduleOperation::Insert(view, pos) => lemma_insert_wf(hs, view.descriptor(), pos),
        ChildrenScheduleOperation::Move(from, to) => lemma_move_wf(hs, from, to),
        ChildrenScheduleOperation::Delete(pos) => lemma_delete_wf(hs, pos),
    }
}

/// A scheduler with nothing queued and no pending work below its children has nothing
/// scheduled anywhere in its subtree
proof fn lemma_idle_is_settled<S>(scheduler: ChildrenScheduler<S>)
    requires
        scheduler.wf(),
        !scheduler.has_pending_spec(),
    ensures
        scheduler.is_settled(),
{
    assert forall|i: int| 0 <= i < scheduler.children().len() implies {
        &&& (#[trigger] scheduler.children()[i]).scheduler().height() < scheduler.height()
        &&& scheduler.children()[i].scheduler().is_settled()
    } by {
        assert(scheduler.list@[i] == scheduler.children()[i]);
    }
}

/// Descriptions that only reference older siblings can all be shifted for an insertion
proof fn lemma_wf_can_insert<S>(hs: Seq<ExtentUpdate<S>>, pos: usize)
    requires
        handles_wf(hs),
        hs.len() <= usize::MAX,
    ensures
        forall|i: int| 0 <= i < hs.len() ==> refs_can_shift((#[trigger] hs[i]).refs(), IndexShift::Insert(pos)),
{
    assert forall|i: int| 0 <= i < hs.len() implies refs_can_shift(
        (#[trigger] hs[i]).refs(),
        IndexShift::Insert(pos),
    ) by {
        assert(hs[i].validation(i as usize) is Ok);
        lemma_validate_refs(hs[i].refs(), i as usize);
        assert forall|m: int| 0 <= m < hs[i].refs().len() implies (
        #[trigger] hs[i].refs()[m]).can_shift(IndexShift::Insert(pos)) by {
            assert(hs[i].refs()[m].is_valid_in(i as usize));
        }
    }
}

/// Scheduling one more operation extends the list length reached by the queue by one step
proof fn lemma_len_after_push<S>(
    n: nat,
    ops: Seq<ChildrenScheduleOperation<S>>,
    op: ChildrenScheduleOperation<S>,
)
    ensures
        len_after_all(n, ops.push(op)) == (match len_after_all(n, ops) {
            Some(m) => op.len_after(m),
            None => None,
        }),
    decreases ops.len(),
{
    reveal_with_fuel(len_after_all, 2);
    if ops.len() == 0 {
        assert(ops.push(op).drop_first() =~= Seq::<ChildrenScheduleOperation<S>>::empty());
    } else {
        assert(ops.push(op).drop_first() =~= ops.drop_first().push(op));
        assert(ops.push(op)[0] == ops[0]);
        if let Some(m) = ops[0].len_after(n) {
            lemma_len_after_push(m, ops.drop_first(), op);
        }
    }
}

/// The first position in `[lo, hi)` whose controller references `target` by its index
fn find_dependent<S>(controllers: &Vec<ExtentController<S>>, target: usize, lo: usize, hi: usize) -> (r:
    Option<usize>)
    requires
        lo <= hi <= controllers.len(),
    ensures
        r == first_dependent(views_of(controllers@), target, lo as int, hi as int),
{
    let ghost hs = views_of(controllers@);
    let mut j = lo;
    while j < hi
        invariant
            lo <= j <= hi,
            hi <= controllers.len(),
            hs == views_of(controllers@),
            first_dependent(hs, target, lo as int, hi as int) == first_dependent(
                hs,
                target,
                j as int,
                hi as int,
            ),
        decreases hi - j,
    {
        if controllers[j].check_id(target) {
            return Some(j);
        }
        j = j + 1;
    }
    None
}

/// Rewrites the references of every controller for a change of the sibling list
fn shift_controllers<S: Copy>(controllers: &mut Vec<ExtentController<S>>, shift: IndexShift)
    requires
        forall|i: int|
            0 <= i < old(controllers).len() ==> refs_can_shift(
                (#[trigger] old(controllers)@[i])@.refs(),
                shift,
            ),
    ensures
        views_of(final(controllers)@) == shift_all(views_of(old(controllers)@), shift),
{
    let n = controllers.len();
    let mut i: usize = 0;
    while i < n
        invariant
            controllers.len() == n,
            old(controllers).len() == n,
            i <= n,
            forall|k: int| 0 <= k < i ==> (#[trigger] controllers@[k])@ == old(controllers)@[k]@.shifted(shift),
            forall|k: int| i <= k < n ==> (#[trigger] controllers@[k]) == old(controllers)@[k],
            forall|k: int|
                0 <= k < n ==> refs_can_shift((#[trigger] old(controllers)@[k])@.refs(), shift),
        decreases n - i,
    {
        let mut c = controllers[i];
        match shift {
            IndexShift::Insert(pos) => c.update_insert(pos),
            IndexShift::Move(from, to) => c.update_move(from, to),
            IndexShift::Delete(pos) => c.update_delete(pos),
        }
        controllers.set(i, c);
        i = i + 1;
    }
    assert(views_of(controllers@) =~= shift_all(views_of(old(controllers)@), shift));
}

impl<S: Copy> ChildrenScheduleOperation<S> {
    /// Validates the operation against the controllers of the current siblings
    fn validate(&self, children_extent: &Vec<ExtentController<S>>) -> (r: Result<(), ValidateError>)
        ensures
            r == (match self.error_in(views_of(children_extent@)) {
                Some(e) => Err(e),
                None => Ok(()),
            }),
    {
        let n = children_extent.len();
        match self {
            ChildrenScheduleOperation::Push(view) => match view.validate(children_extent.as_slice()) {
                Ok(()) => Ok(()),
                Err(e) => Err(ValidateError::InvalidNew(e)),
            },
            ChildrenScheduleOperation::Insert(view, pos) => {
                if *pos > n {
                    return Err(ValidateError::OutOfRange(*pos, n));
                }
                let (older, _) = children_extent.as_slice().split_at(*pos);
                match view.validate(older) {
                    Ok(()) => Ok(()),
                    Err(e) => Err(ValidateError::InvalidNew(e)),
                }
            },
            ChildrenScheduleOperation::Move(from, to) => {
                let from = *from;
                let to = *to;
                if to >= n {
                    let last = if n == 0 {
                        0
                    } else {
                        n - 1
                    };
                    return Err(ValidateError::OutOfRange(to, last));
                }
                if from >= n {
                    return Err(ValidateError::InvalidPos(from, n));
                }
                if to < from {
                    if to == 0 && children_extent[from].check_prev() {
                        return Err(ValidateError::NoPrev(from));
                    }
                    if children_extent[from].check_id_range(to..from) {
                        return Err(ValidateError::InvalidId(from));
                    }
                } else if to > from {
                    if from == 0 && children_extent[1].check_prev() {
                        return Err(ValidateError::NoPrev(1));
                    }
                    if let Some(pos) = find_dependent(children_extent, from, from + 1, to + 1) {
                        return Err(ValidateError::InvalidId(pos));
                    }
                }
                Ok(())
            },
            ChildrenScheduleOperation::Delete(pos) => {
                let pos = *pos;
                if pos >= n {
                    return Err(ValidateError::InvalidPos(pos, n));
                }
                if pos == 0 && n > 1 && children_extent[1].check_prev() {
                    return Err(ValidateError::NoPrev(1));
                }
                if let Some(check_pos) = find_dependent(children_extent, pos, pos + 1, n) {
                    return Err(ValidateError::InvalidId(check_pos));
                }
                Ok(())
            },
        }
    }

    /// Rewrites the controllers of the siblings for the operation
    fn update(&self, children_extent: &mut Vec<ExtentController<S>>)
        requires
            handles_wf(views_of(old(children_extent)@)),
            self.error_in(views_of(old(children_extent)@)) is None,
        ensures
            views_of(final(children_extent)@) == self.applied_to(views_of(old(children_extent)@)),
    {
        let ghost hs = views_of(children_extent@);
        proof {
            assert(hs.len() == children_extent.len());
        }
        match self {
            ChildrenScheduleOperation::Push(view) => {
                children_extent.push(view.get_extent_controller());
                proof {
                    assert(views_of(children_extent@) =~= hs.push(view.descriptor()));
                }
            },
            ChildrenScheduleOperation::Insert(view, pos) => {
                proof {
                    lemma_wf_can_insert(hs, *pos);
                    assert forall|i: int| 0 <= i < children_extent.len() implies refs_can_shift(
                        (#[trigger] children_extent@[i])@.refs(),
                        IndexShift::Insert(*pos),
                    ) by {
                        assert(hs[i] == children_extent@[i]@);
                    }
                }
                shift_controllers(children_extent, IndexShift::Insert(*pos));
                let ghost shifted = children_extent@;
                proof {
                    assert(views_of(shifted).len() == shifted.len());
                }
                children_extent.insert(*pos, view.get_extent_controller());
                proof {
                    assert(views_of(children_extent@) =~= views_of(shifted).insert(
                        *pos as int,
                        view.descriptor(),
                    ));
                }
            },
            ChildrenScheduleOperation::Move(from, to) => {
                let c = children_extent.remove(*from);
                children_extent.insert(*to, c);
                proof {
                    assert(views_of(children_extent@) =~= hs.remove(*from as int).insert(
                        *to as int,
                        hs[*from as int],
                    ));
                }
                shift_controllers(children_extent, IndexShift::Move(*from, *to));
            },
            ChildrenScheduleOperation::Delete(pos) => {
                children_extent.remove(*pos);
                proof {
                    assert(views_of(children_extent@) =~= hs.remove(*pos as int));
                }
                shift_controllers(children_extent, IndexShift::Delete(*pos));
            },
        }
    }
}

impl<S: Copy> ChildrenScheduler<S> {
    /// Pushes an operation to the queue, after validating it against the current siblings
    /// and rewriting their references for it. A rejected operation changes nothing.
    ///
    /// # Parameters
    ///
    /// operation: The operation to push
    pub fn push_operation(&mut self, operation: ChildrenScheduleOperation<S>) -> (r: Result<
        (),
        ValidateError,
    >)
        ensures
            r == (match operation.error_in(old(self).handles()) {
                Some(e) => Err(e),
                None => Ok(()),
            }),
            r is Err ==> *final(self) == *old(self),
            r is Ok ==> {
                &&& final(self).handles() == operation.applied_to(old(self).handles())
                &&& final(self).queue() == old(self).queue().push(operation)
                &&& final(self).children() == old(self).children()
                &&& final(self).subtree_dirty() == (old(self).subtree_dirty()
                    || operation.carries_pending())
            },
            handles_wf(final(self).handles()),
    {
        proof {
            use_type_invariant(&*self);
        }
        match operation.validate(&self.children_extent_controllers) {
            Err(e) => return Err(e),
            Ok(()) => {},
        }
        let carries_pending = match &operation {
            ChildrenScheduleOperation::Push(view) => {
                let scheduler = view.children_scheduler();
                proof {
                    use_type_invariant(scheduler);
                }
                scheduler.has_pending()
            },
            ChildrenScheduleOperation::Insert(view, _) => {
                let scheduler = view.children_scheduler();
                proof {
                    use_type_invariant(scheduler);
                }
                scheduler.has_pending()
            },
            _ => false,
        };
        let mut taken = ChildrenScheduler::new();
        core::mem::swap(self, &mut taken);
        proof {
            use_type_invariant(&taken);
        }
        let ChildrenScheduler { list, mut queue, child_queue_item, children_extent_controllers, height } =
            taken;
        let child_queue_item = child_queue_item || carries_pending;
        let ghost new_height: nat = match operation.added() {
            Some(view) => if view.scheduler().height() + 1 > height@ {
                view.scheduler().height() + 1
            } else {
                height@
            },
            None => height@,
        };
        let mut controllers = children_extent_controllers;
        proof {
            assert(views_of(controllers@).len() == controllers.len());
            lemma_applied_wf(operation, views_of(controllers@));
            lemma_len_after_push(list@.len(), queue@, operation);
            if let Some(view) = operation.added() {
                if !carries_pending {
                    lemma_idle_is_settled(view.scheduler());
                }
            }
        }
        let ghost old_len = controllers@.len();
        let ghost old_queue = queue@;
        operation.update(&mut controllers);
        proof {
            assert(views_of(controllers@).len() == controllers@.len());
            assert(operation.len_after(old_len) == Some(controllers@.len()));
        }
        queue.push(operation);
        proof {
            assert forall|k: int| 0 <= k < queue@.len() - 1 implies #[trigger] queue@[k] == old_queue[k] by {}
            assert(queue@[queue@.len() - 1] == operation);
        }
        *self = ChildrenScheduler {
            list,
            queue,
            child_queue_item,
            children_extent_controllers: controllers,
            height: Ghost(new_height),
        };
        Ok(())
    }
}

impl<S: Copy> ChildrenScheduleOperation<S> {
    /// Applies the operation to the child list
    fn resolve(self, children: &mut Vec<Box<View<S>>>)
        requires
            self.len_after(old(children)@.len()) is Some,
        ensures
            final(children)@ == self.applied_to_list(old(children)@),
    {
        match self {
            ChildrenScheduleOperation::Push(view) => children.push(view),
            ChildrenScheduleOperation::Insert(view, pos) => children.insert(pos, view),
            ChildrenScheduleOperation::Move(from, to) => {
                let view = children.remove(from);
                children.insert(to, view);
            },
            ChildrenScheduleOperation::Delete(pos) => {
                children.remove(pos);
            },
        }
    }
}

impl<S> ChildrenScheduler<S> {
    /// This scheduler is `prev` with its queue applied to the child list, and every child
    /// derived by the description kept for its position
    pub open spec fn is_resolution_of(self, prev: Self) -> bool {
        let applied = applied_all(prev.children(), prev.queue());
        &&& self.lists_resolved_from(prev)
        &&& self.subtree_dirty() == prev.subtree_dirty()
        &&& forall|i: int|
            0 <= i < applied.len() ==> (#[trigger] self.children()[i]).scheduler()
                == applied[i].scheduler()
    }

    /// The child list of this scheduler is the one of `prev` with its queue applied, every
    /// child derived by the description kept for its position; the schedulers of the
    /// children may have changed
    pub open spec fn lists_resolved_from(self, prev: Self) -> bool {
        let applied = applied_all(prev.children(), prev.queue());
        &&& self.queue().len() == 0
        &&& self.handles() == prev.handles()
        &&& self.children().len() == applied.len()
        &&& forall|i: int|
            0 <= i < applied.len() ==> {
                &&& (#[trigger] self.children()[i]).descriptor() == self.handles()[i]
                &&& self.children()[i].rect() == applied[i].rect()
            }
    }
}

impl<S> ChildrenScheduler<S> {
    /// This scheduler is `prev` with a rectangle for every child, computed in order by
    /// `eval` from the child's description, the rectangles of the children before it and
    /// the rectangle `parent`, and with the children of every child laid out in the same way
    /// inside the child's rectangle
    pub open spec fn is_layout_of<F: Fn(&ExtentUpdate<S>, &[Rect<S>], Rect<S>) -> Rect<S>>(
        self,
        prev: Self,
        parent: Rect<S>,
        eval: F,
    ) -> bool
        decreases prev.height(),
    {
        &&& self.handles() == prev.handles()
        &&& self.queue() == prev.queue()
        &&& self.subtree_dirty() == prev.subtree_dirty()
        &&& self.height() == prev.height()
        &&& self.children().len() == prev.children().len()
        &&& forall|i: int|
            0 <= i < prev.children().len() ==> {
                &&& (#[trigger] self.children()[i]).descriptor() == prev.children()[i].descriptor()
                &&& self.children()[i].rect() is Some
                &&& exists|siblings: &[Rect<S>]|
                    {
                        &&& siblings@ == Seq::new(
                            i as nat,
                            |k: int| self.children()[k].rect()->Some_0,
                        )
                        &&& call_ensures(
                            eval,
                            (&self.children()[i].descriptor(), siblings, parent),
                            self.children()[i].rect()->Some_0,
                        )
                    }
                &&& prev.children()[i].scheduler().height() < prev.height()
                &&& self.children()[i].scheduler().is_layout_of(
                    prev.children()[i].scheduler(),
                    self.children()[i].rect()->Some_0,
                    eval,
                )
            }
    }
}

/// Laying out a subtree leaves what is scheduled in it as it was
proof fn lemma_layout_keeps_settled<S, F: Fn(&ExtentUpdate<S>, &[Rect<S>], Rect<S>) -> Rect<S>>(
    laid: ChildrenScheduler<S>,
    prev: ChildrenScheduler<S>,
    parent: Rect<S>,
    eval: F,
)
    requires
        laid.is_layout_of(prev, parent, eval),
        prev.is_settled(),
    ensures
        laid.is_settled(),
    decreases prev.height(),
{
    assert forall|i: int| 0 <= i < laid.children().len() implies {
        &&& (#[trigger] laid.children()[i]).scheduler().height() < laid.height()
        &&& laid.children()[i].scheduler().is_settled()
    } by {
        lemma_layout_keeps_settled(
            laid.children()[i].scheduler(),
            prev.children()[i].scheduler(),
            laid.children()[i].rect()->Some_0,
            eval,
        );
    }
}

/// Applying an operation to a list keeps a property that holds of every view in the list
/// and of the view the operation adds
proof fn lemma_applied_keeps<S>(
    op: ChildrenScheduleOperation<S>,
    list: Seq<Box<View<S>>>,
    p: spec_fn(Box<View<S>>) -> bool,
)
    requires
        op.len_after(list.len()) is Some,
        forall|i: int| 0 <= i < list.len() ==> p(#[trigger] list[i]),
        op.added() is Some ==> p(op.added()->Some_0),
    ensures
        forall|i: int|
            0 <= i < op.applied_to_list(list).len() ==> p(#[trigger] op.applied_to_list(list)[i]),
{
    let result = op.applied_to_list(list);
    assert forall|i: int| 0 <= i < result.len() implies p(#[trigger] result[i]) by {
        match op {
            ChildrenScheduleOperation::Push(view) => {
                if i < list.len() {
                    assert(result[i] == list[i]);
                }
            },
            ChildrenScheduleOperation::Insert(view, pos) => {
                if i < pos {
                    assert(result[i] == list[i]);
                } else if i > pos {
                    assert(result[i] == list[i - 1]);
                }
            },
            ChildrenScheduleOperation::Move(from, to) => {
                let removed = list.remove(from as int);
                if i < to {
                    assert(result[i] == removed[i]);
                } else if i > to {
                    assert(result[i] == removed[i - 1]);
                }
                assert forall|j: int| 0 <= j < removed.len() implies p(#[trigger] removed[j]) by {
                    if j < from {
                        assert(removed[j] == list[j]);
                    } else {
                        assert(removed[j] == list[j + 1]);
                    }
                }
            },
            ChildrenScheduleOperation::Delete(pos) => {
                if i < pos {
                    assert(result[i] == list[i]);
                } else {
                    assert(result[i] == list[i + 1]);
                }
            },
        }
    }
}

impl<S: Copy> ChildrenScheduler<S> {
    /// Applies the operations in the order they were pushed and clears the queue, leaving
    /// the schedulers of the children as they are
    fn apply_queue(&mut self)
        ensures
            final(self).is_resolution_of(*old(self)),
            final(self).height() == old(self).height(),
    {
        let mut taken = ChildrenScheduler::new();
        core::mem::swap(self, &mut taken);
        proof {
            use_type_invariant(&taken);
        }
        let ChildrenScheduler { list, queue, child_queue_item, children_extent_controllers, height } =
            taken;
        let mut list = list;
        let mut queue = queue;
        let ghost handles = views_of(children_extent_controllers@);
        let ghost applied = applied_all(list@, queue@);
        while queue.len() > 0
            invariant
                len_after_all(list@.len(), queue@) == Some(children_extent_controllers@.len()),
                applied_all(list@, queue@) == applied,
                views_below(list@, height@),
                ops_below(queue@, height@),
                !child_queue_item ==> views_settled(list@) && ops_settled(queue@),
            decreases queue.len(),
        {
            let ghost ops = queue@;
            let ghost before = list@;
            let op = queue.remove(0);
            proof {
                assert(queue@ =~= ops.drop_first());
                assert(ops[0] == op);
                assert forall|k: int|
                    0 <= k < queue@.len() implies #[trigger] queue@[k] == ops[k + 1] by {}
                lemma_applied_keeps(
                    op,
                    before,
                    |v: Box<View<S>>| v.scheduler().height() < height@,
                );
                if !child_queue_item {
                    lemma_applied_keeps(op, before, |v: Box<View<S>>| v.scheduler().is_settled());
                }
            }
            op.resolve(&mut list);
        }
        proof {
            assert(list@ == applied);
            assert(handles.len() == children_extent_controllers.len());
        }
        let n = list.len();
        let mut synced: Vec<Box<View<S>>> = Vec::new();
        let mut i: usize = 0;
        while i < n
            invariant
                n == children_extent_controllers.len(),
                n == applied.len(),
                i <= n,
                synced@.len() == i,
                list@ == applied.subrange(i as int, n as int),
                handles == views_of(children_extent_controllers@),
                views_below(applied, height@),
                !child_queue_item ==> views_settled(applied),
                forall|k: int|
                    0 <= k < i ==> {
                        &&& (#[trigger] synced@[k]).descriptor() == handles[k]
                        &&& synced@[k].scheduler() == applied[k].scheduler()
                        &&& synced@[k].rect() == applied[k].rect()
                    },
            decreases n - i,
        {
            let mut child = list.remove(0);
            proof {
                assert(list@ =~= applied.subrange(i + 1, n as int));
                assert(child == applied[i as int]);
            }
            child.set_descriptor(*children_extent_controllers[i].get_update_info());
            synced.push(child);
            i = i + 1;
        }
        proof {
            assert(queue@ =~= Seq::<ChildrenScheduleOperation<S>>::empty());
            assert(views_below(synced@, height@));
        }
        *self = ChildrenScheduler {
            list: synced,
            queue,
            child_queue_item,
            children_extent_controllers,
            height,
        };
    }

    /// Resolves all the operations in the order they were pushed and clears the queue; then,
    /// when operations were scheduled below the children, resolves every child in the same
    /// way. Afterwards nothing is scheduled anywhere in the subtree.
    pub fn resolve(&mut self)
        ensures
            final(self).lists_resolved_from(*old(self)),
            final(self).is_settled(),
            final(self).height() == old(self).height(),
            !old(self).subtree_dirty() ==> forall|i: int|
                0 <= i < final(self).children().len() ==> (#[trigger] final(self).children()[i]).scheduler()
                    == applied_all(old(self).children(), old(self).queue())[i].scheduler(),
            old(self).subtree_dirty() ==> forall|i: int|
                0 <= i < final(self).children().len() ==> (#[trigger] final(self).children()[i]).scheduler().lists_resolved_from(
                    applied_all(old(self).children(), old(self).queue())[i].scheduler(),
                ),
        decreases self.height(),
    {
        self.apply_queue();
        proof {
            use_type_invariant(&*self);
        }
        if !self.child_queue_item {
            proof {
                lemma_idle_is_settled(*self);
            }
            return;
        }
        let ghost resolved = *self;
        let mut taken = ChildrenScheduler::new();
        core::mem::swap(self, &mut taken);
        proof {
            use_type_invariant(&taken);
        }
        let ChildrenScheduler { list, queue, child_queue_item: _, children_extent_controllers, height } =
            taken;
        let mut list = list;
        let n = list.len();
        let mut done: Vec<Box<View<S>>> = Vec::new();
        let mut i: usize = 0;
        while i < n
            invariant
                n == resolved.children().len(),
                height@ == resolved.height(),
                height@ == old(self).height(),
                views_below(resolved.children(), height@),
                i <= n,
                done@.len() == i,
                list@ == resolved.children().subrange(i as int, n as int),
                forall|k: int|
                    0 <= k < i ==> {
                        &&& (#[trigger] done@[k]).descriptor() == resolved.children()[k].descriptor()
                        &&& done@[k].rect() == resolved.children()[k].rect()
                        &&& done@[k].scheduler().is_settled()
                        &&& done@[k].scheduler().height() == resolved.children()[k].scheduler().height()
                        &&& done@[k].scheduler().lists_resolved_from(
                            resolved.children()[k].scheduler(),
                        )
                    },
            decreases n - i,
        {
            let mut child = list.remove(0);
            proof {
                assert(list@ =~= resolved.children().subrange(i + 1, n as int));
                assert(child == resolved.children()[i as int]);
                assert(child.scheduler().height() < old(self).height());
            }
            child.get_children_scheduler().resolve();
            done.push(child);
            i = i + 1;
        }
        proof {
            assert(queue@ =~= Seq::<ChildrenScheduleOperation<S>>::empty());
            assert(views_below(done@, height@));
            assert(views_settled(done@));
        }
        *self = ChildrenScheduler {
            list: done,
            queue,
            child_queue_item: false,
            children_extent_controllers,
            height,
        };
    }

    /// Computes the rectangle of every child, in order, as `eval` gives it from the child's
    /// description, the rectangles of its older siblings and the rectangle of the parent;
    /// then lays out the children of every child inside the child's rectangle
    pub fn layout<F: Fn(&ExtentUpdate<S>, &[Rect<S>], Rect<S>) -> Rect<S>>(
        &mut self,
        parent: Rect<S>,
        eval: &F,
    )
        requires
            forall|d: &ExtentUpdate<S>, siblings: &[Rect<S>], p: Rect<S>|
                d.validation(siblings@.len() as usize) is Ok ==> #[trigger] call_requires(
                    *eval,
                    (d, siblings, p),
                ),
        ensures
            final(self).is_layout_of(*old(self), parent, *eval),
        decreases self.height(),
    {
        let ghost before = *self;
        let mut taken = ChildrenScheduler::new();
        core::mem::swap(self, &mut taken);
        proof {
            use_type_invariant(&taken);
        }
        let ChildrenScheduler { list, queue, child_queue_item, children_extent_controllers, height } =
            taken;
        let mut list = list;
        let n = list.len();
        let mut done: Vec<Box<View<S>>> = Vec::new();
        let mut rects: Vec<Rect<S>> = Vec::new();
        let mut i: usize = 0;
        while i < n
            invariant
                n == before.children().len(),
                height@ == before.height(),
                height@ == old(self).height(),
                views_below(before.children(), height@),
                !child_queue_item ==> views_settled(before.children()),
                child_queue_item == before.subtree_dirty(),
                i <= n,
                done@.len() == i,
                rects@.len() == i,
                list@ == before.children().subrange(i as int, n as int),
                children_wf(before.children()),
                forall|d: &ExtentUpdate<S>, siblings: &[Rect<S>], p: Rect<S>|
                    d.validation(siblings@.len() as usize) is Ok ==> #[trigger] call_requires(
                        *eval,
                        (d, siblings, p),
                    ),
                forall|k: int|
                    0 <= k < i ==> {
                        &&& (#[trigger] done@[k]).descriptor() == before.children()[k].descriptor()
                        &&& done@[k].rect() == Some(rects@[k])
                        &&& exists|siblings: &[Rect<S>]|
                            {
                                &&& siblings@ == rects@.subrange(0, k)
                                &&& call_ensures(
                                    *eval,
                                    (&done@[k].descriptor(), siblings, parent),
                                    rects@[k],
                                )
                            }
                        &&& done@[k].scheduler().is_layout_of(
                            before.children()[k].scheduler(),
                            rects@[k],
                            *eval,
                        )
                        &&& done@[k].scheduler().height() == before.children()[k].scheduler().height()
                        &&& !child_queue_item ==> done@[k].scheduler().is_settled()
                    },
            decreases n - i,
        {
            let mut child = list.remove(0);
            proof {
                assert(list@ =~= before.children().subrange(i + 1, n as int));
                assert(child == before.children()[i as int]);
                assert(child.descriptor().validation(i) is Ok);
            }
            let controller = child.get_extent_controller();
            let rect = eval(controller.get_update_info(), rects.as_slice(), parent);
            proof {
                assert(rects@ =~= rects@.subrange(0, i as int));
            }
            child.set_rect(rect);
            let ghost unlaid = child.scheduler();
            proof {
                assert(unlaid.height() < old(self).height());
            }
            child.get_children_scheduler().layout(rect, eval);
            proof {
                if !child_queue_item {
                    lemma_layout_keeps_settled(child.scheduler(), unlaid, rect, *eval);
                }
            }
            let ghost prior = rects@;
            done.push(child);
            rects.push(rect);
            proof {
                assert forall|k: int| 0 <= k <= i implies rects@.subrange(0, k) =~= prior.subrange(
                    0,
                    k,
                ) by {}
            }
            i = i + 1;
        }
        proof {
            assert(views_below(done@, height@));
            assert(children_wf(done@));
            if !child_queue_item {
                assert(views_settled(done@));
            }
        }
        *self = ChildrenScheduler {
            list: done,
            queue,
            child_queue_item,
            children_extent_controllers,
            height,
        };
        proof {
            assert forall|i: int| 0 <= i < n implies Seq::new(
                i as nat,
                |k: int| self.children()[k].rect()->Some_0,
            ) =~= rects@.subrange(0, i) by {}
        }
    }

}

impl<S> ChildrenScheduler<S> {
    /// Why `op` cannot be scheduled on the scheduler reached from this one through the
    /// current child lists by the positions in `path`, if it cannot
    pub open spec fn path_error(self, path: Seq<usize>, op: ChildrenScheduleOperation<S>) -> Option<
        ValidateError,
    >
        decreases path.len(),
    {
        if path.len() == 0 {
            op.error_in(self.handles())
        } else if path[0] >= self.children().len() {
            Some(ValidateError::InvalidPos(path[0], self.children().len() as usize))
        } else {
            self.children()[path[0] as int].scheduler().path_error(path.drop_first(), op)
        }
    }

    /// This scheduler is `prev` with `op` scheduled on the scheduler reached by `path`, and
    /// every scheduler on the way marked as having operations scheduled below its children
    pub open spec fn is_scheduled_at(
        self,
        prev: Self,
        path: Seq<usize>,
        op: ChildrenScheduleOperation<S>,
    ) -> bool
        decreases path.len(),
    {
        if path.len() == 0 {
            &&& self.handles() == op.applied_to(prev.handles())
            &&& self.queue() == prev.queue().push(op)
            &&& self.children() == prev.children()
            &&& self.subtree_dirty() == (prev.subtree_dirty() || op.carries_pending())
        } else {
            let i = path[0] as int;
            &&& self.handles() == prev.handles()
            &&& self.queue() == prev.queue()
            &&& self.subtree_dirty()
            &&& self.children().len() == prev.children().len()
            &&& 0 <= i < prev.children().len()
            &&& forall|j: int|
                0 <= j < prev.children().len() && j != i ==> #[trigger] self.children()[j]
                    == prev.children()[j]
            &&& self.children()[i].descriptor() == prev.children()[i].descriptor()
            &&& self.children()[i].rect() == prev.children()[i].rect()
            &&& self.children()[i].scheduler().is_scheduled_at(
                prev.children()[i].scheduler(),
                path.drop_first(),
                op,
            )
        }
    }
}

impl<S: Copy> ChildrenScheduler<S> {
    /// Why `operation` cannot be scheduled on the scheduler reached by `path`, if it cannot
    fn check_at(&self, path: &[usize], operation: &ChildrenScheduleOperation<S>) -> (r: Option<
        ValidateError,
    >)
        ensures
            r == self.path_error(path@, *operation),
        decreases path@.len(),
    {
        proof {
            use_type_invariant(self);
        }
        if path.len() == 0 {
            return match operation.validate(&self.children_extent_controllers) {
                Err(e) => Some(e),
                Ok(()) => None,
            };
        }
        let index = path[0];
        if index >= self.list.len() {
            return Some(ValidateError::InvalidPos(index, self.list.len()));
        }
        let (_, rest) = path.split_at(1);
        proof {
            assert(rest@ =~= path@.drop_first());
        }
        self.list[index].children_scheduler().check_at(rest, operation)
    }

    /// Pushes an operation to the queue of the scheduler reached from this one through the
    /// current child lists by the positions in `path` (this one when `path` is empty), and
    /// marks every scheduler on the way as having operations scheduled below its children.
    /// A rejected operation changes nothing.
    pub fn push_operation_at(&mut self, path: &[usize], operation: ChildrenScheduleOperation<S>) -> (r:
        Result<(), ValidateError>)
        ensures
            r == (match old(self).path_error(path@, operation) {
                Some(e) => Err(e),
                None => Ok(()),
            }),
            r is Err ==> *final(self) == *old(self),
            r is Ok ==> final(self).is_scheduled_at(*old(self), path@, operation),
        decreases path@.len(),
    {
        if let Some(e) = self.check_at(path, &operation) {
            return Err(e);
        }
        if path.len() == 0 {
            return self.push_operation(operation);
        }
        proof {
            use_type_invariant(&*self);
        }
        let index = path[0];
        let (_, rest) = path.split_at(1);
        proof {
            assert(rest@ =~= path@.drop_first());
        }
        let mut taken = ChildrenScheduler::new();
        core::mem::swap(self, &mut taken);
        proof {
            use_type_invariant(&taken);
        }
        let ghost prev = taken;
        let ChildrenScheduler { list, queue, child_queue_item: _, children_extent_controllers, height } =
            taken;
        let mut list = list;
        let mut child = list.remove(index);
        proof {
            assert(child == prev.children()[index as int]);
        }
        let r = child.get_children_scheduler().push_operation_at(rest, operation);
        let ghost child_height = child.scheduler().height();
        let ghost new_height: nat = if child_height + 1 > height@ {
            child_height + 1
        } else {
            height@
        };
        list.insert(index, child);
        proof {
            assert forall|j: int| 0 <= j < list@.len() && j != index implies #[trigger] list@[j]
                == prev.children()[j] by {}
            assert(children_wf(list@));
            assert(views_below(list@, new_height));
        }
        *self = ChildrenScheduler {
            list,
            queue,
            child_queue_item: true,
            children_extent_controllers,
            height: Ghost(new_height),
        };
        r
    }

    /// Records that operations were scheduled somewhere below the children; schedulers above
    /// this one are marked by `push_operation_at`, which walks down to the target
    pub fn child_received_item(&mut self)
        ensures
            final(self).subtree_dirty(),
            final(self).handles() == old(self).handles(),
            final(self).queue() == old(self).queue(),
            final(self).children() == old(self).children(),
    {
        proof {
            use_type_invariant(&*self);
        }
        self.child_queue_item = true;
    }

    /// The current child list
    pub fn get_children(&self) -> (r: &Vec<Box<View<S>>>)
        ensures
            r@ == self.children(),
    {
        &self.list
    }

    /// The controllers of the children, as they are once the scheduled operations are applied
    pub fn get_controllers(&self) -> (r: &Vec<ExtentController<S>>)
        ensures
            views_of(r@) == self.handles(),
    {
        &self.children_extent_controllers
    }

    /// Whether operations are scheduled here or somewhere below the children
    pub fn has_pending(&self) -> (r: bool)
        ensures
            r == self.has_pending_spec(),
    {
        self.queue.len() > 0 || self.child_queue_item
    }
}

/// Every description kept by a scheduler references only siblings before its own
/// position: evaluating the children in order never reaches a child that is not yet
/// evaluated
pub proof fn lemma_handles_point_back<S>(handles: Seq<ExtentUpdate<S>>)
    requires
        handles_wf(handles),
    ensures
        forall|i: int, m: int|
            0 <= i < handles.len() && 0 <= m < handles[i].refs().len() ==> 0 <= (
            #[trigger] handles[i].refs()[m]).target(i as usize) < i,
{
    assert forall|i: int, m: int|
        0 <= i < handles.len() && 0 <= m < handles[i].refs().len() implies 0 <= (
        #[trigger] handles[i].refs()[m]).target(i as usize) < i by {
        assert(handles[i].validation(i as usize) is Ok);
        lemma_validate_refs(handles[i].refs(), i as usize);
        assert(handles[i].refs()[m].is_valid_in(i as usize));
    }
}

/// Inserting a view at `pos` and then deleting the view at `pos` is accepted and gives
/// back every other description, references included, as it was before the insertion
pub proof fn lemma_insert_then_delete<S>(
    handles: Seq<ExtentUpdate<S>>,
    view: Box<View<S>>,
    pos: usize,
)
    requires
        handles_wf(handles),
        handles.len() < usize::MAX,
        ChildrenScheduleOperation::Insert(view, pos).error_in(handles) is None,
    ensures
        ChildrenScheduleOperation::<S>::Delete(pos).error_in(
            ChildrenScheduleOperation::Insert(view, pos).applied_to(handles),
        ) is None,
        ChildrenScheduleOperation::<S>::Delete(pos).applied_to(
            ChildrenScheduleOperation::Insert(view, pos).applied_to(handles),
        ) == handles,
{
    let ins = IndexShift::Insert(pos);
    let inserted = ChildrenScheduleOperation::Insert(view, pos).applied_to(handles);
    let n = handles.len();
    lemma_wf_can_insert(handles, pos);
    assert forall|j: int| pos < j < inserted.len() implies !(
    #[trigger] inserted[j].refs()).contains(RefView::Id(pos)) && (j == 1 ==> !inserted[j].refs().contains(RefView::Prev)) by {
        let d = handles[j - 1];
        assert(inserted[j] == d.shifted(ins));
        d.lemma_shifted(ins);
        assert(d.validation((j - 1) as usize) is Ok);
        lemma_validate_refs(d.refs(), (j - 1) as usize);
        if inserted[j].refs().contains(RefView::Id(pos)) {
            let m = choose|m: int|
                0 <= m < inserted[j].refs().len() && inserted[j].refs()[m] == RefView::Id(pos);
            assert(inserted[j].refs()[m] == d.refs()[m].shifted(ins));
        }
        if j == 1 && inserted[j].refs().contains(RefView::Prev) {
            let m = choose|m: int|
                0 <= m < inserted[j].refs().len() && inserted[j].refs()[m] == RefView::Prev;
            assert(inserted[j].refs()[m] == d.refs()[m].shifted(ins));
            assert(d.refs()[m].is_valid_in(0));
        }
    }
    lemma_first_dependent(inserted, pos, pos + 1, inserted.len() as int);
    let back = ChildrenScheduleOperation::<S>::Delete(pos).applied_to(inserted);
    assert forall|i: int| 0 <= i < n implies #[trigger] back[i] == handles[i] by {
        handles[i].lemma_insert_delete(pos);
    }
    assert(back =~= handles);
}

} // verus!
