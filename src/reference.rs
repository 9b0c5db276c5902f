//! References from a view's layout description to its older siblings, and
//! the bookkeeping that keeps them pointing at the same siblings when the
//! sibling list changes.
use core::ops::Range;
use vstd::prelude::*;

verus! {

/// The different ways to reference another view
#[derive(Clone, Copy, Debug, PartialEq, Eq, Structural)]
pub enum RefView {
    /// Use the previous sibling view, useful for lists
    Prev,
    /// Use the index of a sibling which is older than this one
    Id(usize),
}

/// Why a layout description cannot be evaluated against its older siblings
#[derive(Clone, Copy, Debug, PartialEq, Eq, Structural)]
pub enum ValidateError {
    /// A sibling index (first) is not below the number of older siblings (second)
    InvalidId(usize, usize),
    /// The previous sibling is referenced by a view that has no older sibling
    NoPrev,
    /// Both dimensions derive their size from the other one
    BothRatio,
}

/// A change of the sibling list that shifts the indices of siblings
#[derive(Clone, Copy, Debug, PartialEq, Eq, Structural)]
pub enum IndexShift {
    /// A sibling was inserted at this position
    Insert(usize),
    /// The sibling at the first position was moved to the second position
    Move(usize, usize),
    /// The sibling at this position was deleted
    Delete(usize),
}

impl RefView {
    /// Whether the reference can be resolved by a view with `n` older siblings
    pub open spec fn is_valid_in(self, n: usize) -> bool {
        match self {
            RefView::Prev => n > 0,
            RefView::Id(id) => id < n,
        }
    }

    /// The error reported for this reference when it cannot be resolved among `n` siblings
    pub open spec fn error_in(self, n: usize) -> ValidateError {
        match self {
            RefView::Prev => ValidateError::NoPrev,
            RefView::Id(id) => ValidateError::InvalidId(id, n),
        }
    }

    /// The index of the sibling this reference denotes for a view with `n` older siblings
    pub open spec fn target(self, n: usize) -> int {
        match self {
            RefView::Prev => n - 1,
            RefView::Id(id) => id as int,
        }
    }

    /// Whether the reference names an index in `[start, end)` explicitly
    pub open spec fn names_index_in(self, start: usize, end: usize) -> bool {
        match self {
            RefView::Prev => false,
            RefView::Id(id) => start <= id && id < end,
        }
    }

    /// Whether the reference can be shifted without leaving the range of `usize`
    pub open spec fn can_shift(self, shift: IndexShift) -> bool {
        match (self, shift) {
            (RefView::Id(id), IndexShift::Insert(pos)) => id >= pos ==> id < usize::MAX,
            _ => true,
        }
    }

    /// The reference after the sibling list changed by `shift`, so that it still denotes
    /// the same sibling
    pub open spec fn shifted(self, shift: IndexShift) -> RefView {
        match self {
            RefView::Prev => RefView::Prev,
            RefView::Id(id) => RefView::Id(shift_index(id, shift)),
        }
    }

    /// The references a single reference is made of: itself
    pub open spec fn refs(self) -> Seq<RefView> {
        seq![self]
    }

    /// Tests whether the reference view exists, returns an error in case of an invalid reference
    ///
    /// # Parameters
    ///
    /// siblings: A slice of all the previous siblings of this view
    pub fn validate<V>(&self, siblings: &[V]) -> (r: Result<(), ValidateError>)
        ensures
            r == validate_refs(self.refs(), siblings@.len() as usize),
    {
        proof {
            reveal_with_fuel(validate_refs, 2);
        }
        match *self {
            RefView::Id(index) => {
                if index >= siblings.len() {
                    Err(ValidateError::InvalidId(index, siblings.len()))
                } else {
                    Ok(())
                }
            },
            RefView::Prev => {
                if siblings.len() == 0 {
                    Err(ValidateError::NoPrev)
                } else {
                    Ok(())
                }
            },
        }
    }

    /// Checks if an ID in the range is being referenced
    pub fn check_id_range(&self, range: Range<usize>) -> (r: bool)
        ensures
            r == refs_name_index_in(self.refs(), range.start, range.end),
    {
        proof {
            assert(self.refs()[0] == *self);
        }
        match *self {
            RefView::Id(id) => range.start <= id && id < range.end,
            RefView::Prev => false,
        }
    }

    /// Checks if the ID is being referenced
    pub fn check_id(&self, id: usize) -> (r: bool)
        ensures
            r == self.refs().contains(RefView::Id(id)),
    {
        proof {
            assert(self.refs()[0] == *self);
        }
        match *self {
            RefView::Id(use_id) => use_id == id,
            RefView::Prev => false,
        }
    }

    /// Checks if this view references the previous sibling
    pub fn check_prev(&self) -> (r: bool)
        ensures
            r == self.refs().contains(RefView::Prev),
    {
        proof {
            assert(self.refs()[0] == *self);
        }
        match *self {
            RefView::Prev => true,
            RefView::Id(_) => false,
        }
    }

    /// The index of the sibling the reference denotes for a view with `n` older siblings
    pub fn resolve(&self, n: usize) -> (r: usize)
        requires
            self.is_valid_in(n),
        ensures
            r == self.target(n),
            r < n,
    {
        match *self {
            RefView::Prev => n - 1,
            RefView::Id(id) => id,
        }
    }

    /// Updates the reference on insertion of a sibling at `pos`
    pub fn update_insert(&mut self, pos: usize)
        requires
            old(self).can_shift(IndexShift::Insert(pos)),
        ensures
            *final(self) == old(self).shifted(IndexShift::Insert(pos)),
    {
        if let RefView::Id(id) = self {
            if *id >= pos {
                *id = *id + 1;
            }
        }
    }

    /// Updates the reference on movement of a sibling from `from` to `to`, where `to` is the
    /// position after the sibling was taken out of the list
    pub fn update_move(&mut self, from: usize, to: usize)
        ensures
            *final(self) == old(self).shifted(IndexShift::Move(from, to)),
    {
        if let RefView::Id(id) = self {
            if *id == from {
                *id = to;
            } else if from > to {
                if *id < from && *id >= to {
                    *id = *id + 1;
                }
            } else if *id > from && *id <= to {
                *id = *id - 1;
            }
        }
    }

    /// Updates the reference on deletion of the sibling at `pos`
    pub fn update_delete(&mut self, pos: usize)
        ensures
            *final(self) == old(self).shifted(IndexShift::Delete(pos)),
    {
        if let RefView::Id(id) = self {
            if *id > pos {
                *id = *id - 1;
            }
        }
    }
}

/// Where the sibling at index `id` stands after the list changed by `shift`
pub open spec fn shift_index(id: usize, shift: IndexShift) -> usize {
    match shift {
        IndexShift::Insert(pos) => if id >= pos {
            (id + 1) as usize
        } else {
            id
        },
        IndexShift::Move(from, to) => if id == from {
            to
        } else if from > to && to <= id && id < from {
            (id + 1) as usize
        } else if from < to && from < id && id <= to {
            (id - 1) as usize
        } else {
            id
        },
        IndexShift::Delete(pos) => if id > pos {
            (id - 1) as usize
        } else {
            id
        },
    }
}

/// The outcome of validating a sequence of references, in order, against `n` older
/// siblings: the error of the first one that cannot be resolved
pub open spec fn validate_refs(refs: Seq<RefView>, n: usize) -> Result<(), ValidateError>
    decreases refs.len(),
{
    if refs.len() == 0 {
        Ok(())
    } else if !refs[0].is_valid_in(n) {
        Err(refs[0].error_in(n))
    } else {
        validate_refs(refs.drop_first(), n)
    }
}

/// Whether some reference names an index in `[start, end)`
pub open spec fn refs_name_index_in(refs: Seq<RefView>, start: usize, end: usize) -> bool {
    exists|i: int| 0 <= i < refs.len() && (#[trigger] refs[i]).names_index_in(start, end)
}

/// Whether every reference resolves among `n` older siblings
pub open spec fn refs_valid_in(refs: Seq<RefView>, n: usize) -> bool {
    forall|i: int| 0 <= i < refs.len() ==> (#[trigger] refs[i]).is_valid_in(n)
}

/// Whether every reference can be shifted by `shift`
pub open spec fn refs_can_shift(refs: Seq<RefView>, shift: IndexShift) -> bool {
    forall|i: int| 0 <= i < refs.len() ==> (#[trigger] refs[i]).can_shift(shift)
}

/// Each reference shifted by `shift`
pub open spec fn shift_refs(refs: Seq<RefView>, shift: IndexShift) -> Seq<RefView> {
    Seq::new(refs.len(), |i: int| refs[i].shifted(shift))
}

/// Validating two sequences one after the other reports the first error of the first one
pub proof fn lemma_validate_concat(a: Seq<RefView>, b: Seq<RefView>, n: usize)
    ensures
        validate_refs(a + b, n) == (match validate_refs(a, n) {
            Ok(()) => validate_refs(b, n),
            Err(e) => Err(e),
        }),
    decreases a.len(),
{
    if a.len() == 0 {
        assert(a + b =~= b);
    } else {
        assert((a + b).drop_first() =~= a.drop_first() + b);
        lemma_validate_concat(a.drop_first(), b, n);
    }
}

/// Validation succeeds exactly when every reference resolves, and never reports
/// anything but an unresolvable reference
pub proof fn lemma_validate_refs(refs: Seq<RefView>, n: usize)
    ensures
        validate_refs(refs, n) is Ok <==> refs_valid_in(refs, n),
        validate_refs(refs, n) != Err::<(), ValidateError>(ValidateError::BothRatio),
    decreases refs.len(),
{
    if refs.len() > 0 {
        lemma_validate_refs(refs.drop_first(), n);
        if refs_valid_in(refs.drop_first(), n) && refs[0].is_valid_in(n) {
            assert forall|i: int| 0 <= i < refs.len() implies (#[trigger] refs[i]).is_valid_in(
                n,
            ) by {
                if i > 0 {
                    assert(refs[i] == refs.drop_first()[i - 1]);
                }
            }
        }
        if refs_valid_in(refs, n) {
            assert(refs[0].is_valid_in(n));
            assert forall|i: int| 0 <= i < refs.len() - 1 implies (
            #[trigger] refs.drop_first()[i]).is_valid_in(n) by {
                assert(refs.drop_first()[i] == refs[i + 1]);
            }
        }
    }
}

/// A reference is contained in two sequences one after the other iff it is in one of them
pub proof fn lemma_contains_concat(a: Seq<RefView>, b: Seq<RefView>, r: RefView)
    ensures
        (a + b).contains(r) <==> a.contains(r) || b.contains(r),
{
    if a.contains(r) {
        let i = choose|i: int| 0 <= i < a.len() && a[i] == r;
        assert((a + b)[i] == r);
    }
    if b.contains(r) {
        let i = choose|i: int| 0 <= i < b.len() && b[i] == r;
        assert((a + b)[a.len() + i] == r);
    }
    if (a + b).contains(r) {
        let i = choose|i: int| 0 <= i < (a + b).len() && (a + b)[i] == r;
        if i < a.len() {
            assert(a[i] == r);
        } else {
            assert(b[i - a.len()] == r);
        }
    }
}

/// An index range is named in two sequences one after the other iff it is named in one of them
pub proof fn lemma_names_index_in_concat(
    a: Seq<RefView>,
    b: Seq<RefView>,
    start: usize,
    end: usize,
)
    ensures
        refs_name_index_in(a + b, start, end) <==> refs_name_index_in(a, start, end)
            || refs_name_index_in(b, start, end),
{
    if refs_name_index_in(a, start, end) {
        let i = choose|i: int| 0 <= i < a.len() && (#[trigger] a[i]).names_index_in(start, end);
        assert((a + b)[i] == a[i]);
    }
    if refs_name_index_in(b, start, end) {
        let i = choose|i: int| 0 <= i < b.len() && (#[trigger] b[i]).names_index_in(start, end);
        assert((a + b)[a.len() + i] == b[i]);
    }
    if refs_name_index_in(a + b, start, end) {
        let i = choose|i: int|
            0 <= i < (a + b).len() && (#[trigger] (a + b)[i]).names_index_in(start, end);
        if i < a.len() {
            assert(a[i] == (a + b)[i]);
        } else {
            assert(b[i - a.len()] == (a + b)[i]);
        }
    }
}

/// Every reference of two sequences one after the other can be shifted iff it can in each
pub proof fn lemma_can_shift_concat(a: Seq<RefView>, b: Seq<RefView>, shift: IndexShift)
    ensures
        refs_can_shift(a + b, shift) <==> refs_can_shift(a, shift) && refs_can_shift(b, shift),
{
    if refs_can_shift(a + b, shift) {
        assert forall|i: int| 0 <= i < a.len() implies (#[trigger] a[i]).can_shift(shift) by {
            assert((a + b)[i] == a[i]);
        }
        assert forall|i: int| 0 <= i < b.len() implies (#[trigger] b[i]).can_shift(shift) by {
            assert((a + b)[a.len() + i] == b[i]);
        }
    }
    if refs_can_shift(a, shift) && refs_can_shift(b, shift) {
        assert forall|i: int| 0 <= i < (a + b).len() implies (#[trigger] (a + b)[i]).can_shift(
            shift,
        ) by {
            if i < a.len() {
                assert((a + b)[i] == a[i]);
            } else {
                assert((a + b)[i] == b[i - a.len()]);
            }
        }
    }
}

/// Shifting two sequences one after the other shifts each of them
pub proof fn lemma_shift_concat(a: Seq<RefView>, b: Seq<RefView>, shift: IndexShift)
    ensures
        shift_refs(a + b, shift) == shift_refs(a, shift) + shift_refs(b, shift),
{
    assert(shift_refs(a + b, shift) =~= shift_refs(a, shift) + shift_refs(b, shift));
}

/// Inserting a sibling at `pos` and deleting it again leaves every reference as it was
pub proof fn lemma_insert_delete_ref(r: RefView, pos: usize)
    requires
        r.can_shift(IndexShift::Insert(pos)),
    ensures
        r.shifted(IndexShift::Insert(pos)).shifted(IndexShift::Delete(pos)) == r,
{
}

} // verus!
