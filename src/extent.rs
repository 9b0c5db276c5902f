//! Layout descriptions: how each dimension of a view's extent is derived from
//! fixed values and from the extents of older siblings.
//!
//! The numeric parameters of a description have the scalar type `S`; the
//! reference bookkeeping here never reads them.
use core::ops::Range;
use vstd::prelude::*;

pub use crate::reference::{IndexShift, RefView, ValidateError};
use crate::reference::{
    lemma_can_shift_concat,
    lemma_insert_delete_ref,
    lemma_validate_refs,
    lemma_contains_concat,
    lemma_names_index_in_concat,
    lemma_shift_concat,
    lemma_validate_concat,
    refs_can_shift,
    refs_name_index_in,
    shift_refs,
    validate_refs,
};

verus! {

/// Defines how to get a point from another view
#[derive(Clone, Copy, Debug, PartialEq)]
pub struct AnchorPoint<S> {
    /// The view to get it from
    pub ref_view: RefView,
    /// Where on the view to anchor to, 0 is the lowest coordinate side and 1 is the highest,
    /// everything else is a linear interpolation
    pub ref_point: S,
}

/// The different ways to get a position
#[derive(Clone, Copy, Debug, PartialEq)]
pub enum PositionType<S> {
    /// Get the position relative from another view
    Anchor(AnchorPoint<S>),
    /// Use a static position
    Fixed(S),
}

/// Defines how to stretch between two points
#[derive(Clone, Copy, Debug, PartialEq)]
pub struct ExtentStretch<S> {
    /// Defines the position at the lowest coordinate
    pub pos1: PositionType<S>,
    /// Defines the position at the highest coordinate
    pub pos2: PositionType<S>,
}

impl<S> AnchorPoint<S> {
    /// The sibling references of the anchor, in evaluation order
    pub open spec fn refs(self) -> Seq<RefView> {
        self.ref_view.refs()
    }

    /// The anchor after the sibling list changed by `shift`
    pub open spec fn shifted(self, shift: IndexShift) -> Self {
        AnchorPoint { ref_view: self.ref_view.shifted(shift), ..self }
    }

    /// Shifting the anchor shifts each of its references
    pub proof fn lemma_shifted(self, shift: IndexShift)
        ensures
            self.shifted(shift).refs() == shift_refs(self.refs(), shift),
    {
        assert(self.shifted(shift).refs() =~= shift_refs(self.refs(), shift));
    }

    /// Tests whether the reference view exists, returns an error in case of an invalid reference
    pub fn validate<V>(&self, siblings: &[V]) -> (r: Result<(), ValidateError>)
        ensures
            r == validate_refs(self.refs(), siblings@.len() as usize),
    {
        self.ref_view.validate(siblings)
    }

    /// Checks if an ID in the range is being referenced
    pub fn check_id_range(&self, range: Range<usize>) -> (r: bool)
        ensures
            r == refs_name_index_in(self.refs(), range.start, range.end),
    {
        self.ref_view.check_id_range(range)
    }

    /// Checks if the ID is being referenced
    pub fn check_id(&self, id: usize) -> (r: bool)
        ensures
            r == self.refs().contains(RefView::Id(id)),
    {
        self.ref_view.check_id(id)
    }

    /// Checks if this view references the previous sibling
    pub fn check_prev(&self) -> (r: bool)
        ensures
            r == self.refs().contains(RefView::Prev),
    {
        self.ref_view.check_prev()
    }

    /// Updates possible references by ID on insertion of a sibling at `pos`
    pub fn update_insert(&mut self, pos: usize)
        requires
            refs_can_shift(old(self).refs(), IndexShift::Insert(pos)),
        ensures
            *final(self) == old(self).shifted(IndexShift::Insert(pos)),
    {
        proof {
            assert(old(self).refs()[0] == old(self).ref_view);
        }
        self.ref_view.update_insert(pos);
    }

    /// Updates possible references by ID on movement of a sibling from `from` to `to`
    pub fn update_move(&mut self, from: usize, to: usize)
        ensures
            *final(self) == old(self).shifted(IndexShift::Move(from, to)),
    {
        self.ref_view.update_move(from, to);
    }

    /// Updates possible references by ID on deletion of the sibling at `pos`
    pub fn update_delete(&mut self, pos: usize)
        ensures
            *final(self) == old(self).shifted(IndexShift::Delete(pos)),
    {
        self.ref_view.update_delete(pos);
    }
}

impl<S> PositionType<S> {
    /// The sibling references of the position, in evaluation order
    pub open spec fn refs(self) -> Seq<RefView> {
        match self {
            PositionType::Anchor(anchor) => anchor.refs(),
            PositionType::Fixed(_) => Seq::empty(),
        }
    }

    /// The position after the sibling list changed by `shift`
    pub open spec fn shifted(self, shift: IndexShift) -> Self {
        match self {
            PositionType::Anchor(anchor) => PositionType::Anchor(anchor.shifted(shift)),
            PositionType::Fixed(_) => self,
        }
    }

    /// Shifting the position shifts each of its references
    pub proof fn lemma_shifted(self, shift: IndexShift)
        ensures
            self.shifted(shift).refs() == shift_refs(self.refs(), shift),
    {
        match self {
            PositionType::Anchor(anchor) => anchor.lemma_shifted(shift),
            PositionType::Fixed(_) => {
                assert(shift_refs(self.refs(), shift) =~= Seq::empty());
            },
        }
    }

    /// Tests whether the possible reference views exist, returns an error in case of an
    /// invalid reference
    pub fn validate<V>(&self, siblings: &[V]) -> (r: Result<(), ValidateError>)
        ensures
            r == validate_refs(self.refs(), siblings@.len() as usize),
    {
        match self {
            PositionType::Anchor(anchor) => anchor.validate(siblings),
            PositionType::Fixed(_) => Ok(()),
        }
    }

    /// Checks if an ID in the range is being referenced
    pub fn check_id_range(&self, range: Range<usize>) -> (r: bool)
        ensures
            r == refs_name_index_in(self.refs(), range.start, range.end),
    {
        match self {
            PositionType::Anchor(anchor) => anchor.check_id_range(range),
            PositionType::Fixed(_) => false,
        }
    }

    /// Checks if the ID is being referenced
    pub fn check_id(&self, id: usize) -> (r: bool)
        ensures
            r == self.refs().contains(RefView::Id(id)),
    {
        match self {
            PositionType::Anchor(anchor) => anchor.check_id(id),
            PositionType::Fixed(_) => false,
        }
    }

    /// Checks if this view references the previous sibling
    pub fn check_prev(&self) -> (r: bool)
        ensures
            r == self.refs().contains(RefView::Prev),
    {
        match self {
            PositionType::Anchor(anchor) => anchor.check_prev(),
            PositionType::Fixed(_) => false,
        }
    }

    /// Updates possible references by ID on insertion of a sibling at `pos`
    pub fn update_insert(&mut self, pos: usize)
        requires
            refs_can_shift(old(self).refs(), IndexShift::Insert(pos)),
        ensures
            *final(self) == old(self).shifted(IndexShift::Insert(pos)),
    {
        match self {
            PositionType::Anchor(anchor) => anchor.update_insert(pos),
            PositionType::Fixed(_) => {},
        }
    }

    /// Updates possible references by ID on movement of a sibling from `from` to `to`
    pub fn update_move(&mut self, from: usize, to: usize)
        ensures
            *final(self) == old(self).shifted(IndexShift::Move(from, to)),
    {
        match self {
            PositionType::Anchor(anchor) => anchor.update_move(from, to),
            PositionType::Fixed(_) => {},
        }
    }

    /// Updates possible references by ID on deletion of the sibling at `pos`
    pub fn update_delete(&mut self, pos: usize)
        ensures
            *final(self) == old(self).shifted(IndexShift::Delete(pos)),
    {
        match self {
            PositionType::Anchor(anchor) => anchor.update_delete(pos),
            PositionType::Fixed(_) => {},
        }
    }
}

impl<S> ExtentStretch<S> {
    /// The sibling references of both positions, in evaluation order
    pub open spec fn refs(self) -> Seq<RefView> {
        self.pos1.refs() + self.pos2.refs()
    }

    /// The stretch after the sibling list changed by `shift`
    pub open spec fn shifted(self, shift: IndexShift) -> Self {
        ExtentStretch { pos1: self.pos1.shifted(shift), pos2: self.pos2.shifted(shift) }
    }

    /// Shifting the stretch shifts each of its references
    pub proof fn lemma_shifted(self, shift: IndexShift)
        ensures
            self.shifted(shift).refs() == shift_refs(self.refs(), shift),
    {
        self.pos1.lemma_shifted(shift);
        self.pos2.lemma_shifted(shift);
        lemma_shift_concat(self.pos1.refs(), self.pos2.refs(), shift);
    }

    /// Tests whether the possible reference views exist, returns an error in case of an
    /// invalid reference
    pub fn validate<V>(&self, siblings: &[V]) -> (r: Result<(), ValidateError>)
        ensures
            r == validate_refs(self.refs(), siblings@.len() as usize),
    {
        proof {
            lemma_validate_concat(self.pos1.refs(), self.pos2.refs(), siblings@.len() as usize);
        }
        match self.pos1.validate(siblings) {
            Ok(()) => self.pos2.validate(siblings),
            Err(e) => Err(e),
        }
    }

    /// Checks if an ID in the range is being referenced
    pub fn check_id_range(&self, range: Range<usize>) -> (r: bool)
        ensures
            r == refs_name_index_in(self.refs(), range.start, range.end),
    {
        proof {
            lemma_names_index_in_concat(self.pos1.refs(), self.pos2.refs(), range.start, range.end);
        }
        self.pos1.check_id_range(range.start..range.end) || self.pos2.check_id_range(range)
    }

    /// Checks if the ID is being referenced
    pub fn check_id(&self, id: usize) -> (r: bool)
        ensures
            r == self.refs().contains(RefView::Id(id)),
    {
        proof {
            lemma_contains_concat(self.pos1.refs(), self.pos2.refs(), RefView::Id(id));
        }
        self.pos1.check_id(id) || self.pos2.check_id(id)
    }

    /// Checks if this view references the previous sibling
    pub fn check_prev(&self) -> (r: bool)
        ensures
            r == self.refs().contains(RefView::Prev),
    {
        proof {
            lemma_contains_concat(self.pos1.refs(), self.pos2.refs(), RefView::Prev);
        }
        self.pos1.check_prev() || self.pos2.check_prev()
    }

    /// Updates possible references by ID on insertion of a sibling at `pos`
    pub fn update_insert(&mut self, pos: usize)
        requires
            refs_can_shift(old(self).refs(), IndexShift::Insert(pos)),
        ensures
            *final(self) == old(self).shifted(IndexShift::Insert(pos)),
    {
        proof {
            lemma_can_shift_concat(old(self).pos1.refs(), old(self).pos2.refs(), IndexShift::Insert(pos));
        }
        self.pos1.update_insert(pos);
        self.pos2.update_insert(pos);
    }

    /// Updates possible references by ID on movement of a sibling from `from` to `to`
    pub fn update_move(&mut self, from: usize, to: usize)
        ensures
            *final(self) == old(self).shifted(IndexShift::Move(from, to)),
    {
        self.pos1.update_move(from, to);
        self.pos2.update_move(from, to);
    }

    /// Updates possible references by ID on deletion of the sibling at `pos`
    pub fn update_delete(&mut self, pos: usize)
        ensures
            *final(self) == old(self).shifted(IndexShift::Delete(pos)),
    {
        self.pos1.update_delete(pos);
        self.pos2.update_delete(pos);
    }
}

/// The different ways to update the size
#[derive(Clone, Copy, Debug, PartialEq)]
pub enum SizeType<S> {
    /// Update size by stretching between two points
    Stretch(ExtentStretch<S>),
    /// Update the size by making it relative to another size
    Relative(RefView),
    /// Update the size by giving it a static value
    Fixed(S),
}

/// Defines how to update the extent in Locate mode
#[derive(Clone, Copy, Debug, PartialEq)]
pub struct ExtentLocate<S> {
    /// Defines how the position is updated
    pub pos: PositionType<S>,
    /// Defines how the size is updated
    pub size: SizeType<S>,
}

/// Defines how to update the extent when a fixed ratio between w and h is used
#[derive(Clone, Copy, Debug, PartialEq)]
pub struct ExtentRatio<S> {
    /// The position of the extent
    pub pos: PositionType<S>,
}

impl<S> SizeType<S> {
    /// The sibling references of the size, in evaluation order
    pub open spec fn refs(self) -> Seq<RefView> {
        match self {
            SizeType::Stretch(stretch) => stretch.refs(),
            SizeType::Relative(ref_view) => ref_view.refs(),
            SizeType::Fixed(_) => Seq::empty(),
        }
    }

    /// The size after the sibling list changed by `shift`
    pub open spec fn shifted(self, shift: IndexShift) -> Self {
        match self {
            SizeType::Stretch(stretch) => SizeType::Stretch(stretch.shifted(shift)),
            SizeType::Relative(ref_view) => SizeType::Relative(ref_view.shifted(shift)),
            SizeType::Fixed(_) => self,
        }
    }

    /// Shifting the size shifts each of its references
    pub proof fn lemma_shifted(self, shift: IndexShift)
        ensures
            self.shifted(shift).refs() == shift_refs(self.refs(), shift),
    {
        match self {
            SizeType::Stretch(stretch) => stretch.lemma_shifted(shift),
            SizeType::Relative(ref_view) => {
                assert(self.shifted(shift).refs() =~= shift_refs(self.refs(), shift));
            },
            SizeType::Fixed(_) => {
                assert(shift_refs(self.refs(), shift) =~= Seq::empty());
            },
        }
    }

    /// Tests whether the possible reference views exist, returns an error in case of an
    /// invalid reference
    pub fn validate<V>(&self, siblings: &[V]) -> (r: Result<(), ValidateError>)
        ensures
            r == validate_refs(self.refs(), siblings@.len() as usize),
    {
        match self {
            SizeType::Stretch(stretch) => stretch.validate(siblings),
            SizeType::Relative(ref_view) => ref_view.validate(siblings),
            SizeType::Fixed(_) => Ok(()),
        }
    }

    /// Checks if an ID in the range is being referenced
    pub fn check_id_range(&self, range: Range<usize>) -> (r: bool)
        ensures
            r == refs_name_index_in(self.refs(), range.start, range.end),
    {
        match self {
            SizeType::Stretch(stretch) => stretch.check_id_range(range),
            SizeType::Relative(ref_view) => ref_view.check_id_range(range),
            SizeType::Fixed(_) => false,
        }
    }

    /// Checks if the ID is being referenced
    pub fn check_id(&self, id: usize) -> (r: bool)
        ensures
            r == self.refs().contains(RefView::Id(id)),
    {
        match self {
            SizeType::Stretch(stretch) => stretch.check_id(id),
            SizeType::Relative(ref_view) => ref_view.check_id(id),
            SizeType::Fixed(_) => false,
        }
    }

    /// Checks if this view references the previous sibling
    pub fn check_prev(&self) -> (r: bool)
        ensures
            r == self.refs().contains(RefView::Prev),
    {
        match self {
            SizeType::Stretch(stretch) => stretch.check_prev(),
            SizeType::Relative(ref_view) => ref_view.check_prev(),
            SizeType::Fixed(_) => false,
        }
    }

    /// Updates possible references by ID on insertion of a sibling at `pos`
    pub fn update_insert(&mut self, pos: usize)
        requires
            refs_can_shift(old(self).refs(), IndexShift::Insert(pos)),
        ensures
            *final(self) == old(self).shifted(IndexShift::Insert(pos)),
    {
        match self {
            SizeType::Stretch(stretch) => stretch.update_insert(pos),
            SizeType::Relative(ref_view) => {
                proof {
                    assert(old(self).refs()[0] == *ref_view);
                }
                ref_view.update_insert(pos)
            },
            SizeType::Fixed(_) => {},
        }
    }

    /// Updates possible references by ID on movement of a sibling from `from` to `to`
    pub fn update_move(&mut self, from: usize, to: usize)
        ensures
            *final(self) == old(self).shifted(IndexShift::Move(from, to)),
    {
        match self {
            SizeType::Stretch(stretch) => stretch.update_move(from, to),
            SizeType::Relative(ref_view) => ref_view.update_move(from, to),
            SizeType::Fixed(_) => {},
        }
    }

    /// Updates possible references by ID on deletion of the sibling at `pos`
    pub fn update_delete(&mut self, pos: usize)
        ensures
            *final(self) == old(self).shifted(IndexShift::Delete(pos)),
    {
        match self {
            SizeType::Stretch(stretch) => stretch.update_delete(pos),
            SizeType::Relative(ref_view) => ref_view.update_delete(pos),
            SizeType::Fixed(_) => {},
        }
    }
}

impl<S> ExtentLocate<S> {
    /// The sibling references of the position and then the size
    pub open spec fn refs(self) -> Seq<RefView> {
        self.pos.refs() + self.size.refs()
    }

    /// The locate rule after the sibling list changed by `shift`
    pub open spec fn shifted(self, shift: IndexShift) -> Self {
        ExtentLocate { pos: self.pos.shifted(shift), size: self.size.shifted(shift) }
    }

    /// Shifting the locate rule shifts each of its references
    pub proof fn lemma_shifted(self, shift: IndexShift)
        ensures
            self.shifted(shift).refs() == shift_refs(self.refs(), shift),
    {
        self.pos.lemma_shifted(shift);
        self.size.lemma_shifted(shift);
        lemma_shift_concat(self.pos.refs(), self.size.refs(), shift);
    }

    /// Tests whether the possible reference views exist, returns an error in case of an
    /// invalid reference
    pub fn validate<V>(&self, siblings: &[V]) -> (r: Result<(), ValidateError>)
        ensures
            r == validate_refs(self.refs(), siblings@.len() as usize),
    {
        proof {
            lemma_validate_concat(self.pos.refs(), self.size.refs(), siblings@.len() as usize);
        }
        match self.pos.validate(siblings) {
            Ok(()) => self.size.validate(siblings),
            Err(e) => Err(e),
        }
    }

    /// Checks if an ID in the range is being referenced
    pub fn check_id_range(&self, range: Range<usize>) -> (r: bool)
        ensures
            r == refs_name_index_in(self.refs(), range.start, range.end),
    {
        proof {
            lemma_names_index_in_concat(self.pos.refs(), self.size.refs(), range.start, range.end);
        }
        self.pos.check_id_range(range.start..range.end) || self.size.check_id_range(range)
    }

    /// Checks if the ID is being referenced
    pub fn check_id(&self, id: usize) -> (r: bool)
        ensures
            r == self.refs().contains(RefView::Id(id)),
    {
        proof {
            lemma_contains_concat(self.pos.refs(), self.size.refs(), RefView::Id(id));
        }
        self.pos.check_id(id) || self.size.check_id(id)
    }

    /// Checks if this view references the previous sibling
    pub fn check_prev(&self) -> (r: bool)
        ensures
            r == self.refs().contains(RefView::Prev),
    {
        proof {
            lemma_contains_concat(self.pos.refs(), self.size.refs(), RefView::Prev);
        }
        self.pos.check_prev() || self.size.check_prev()
    }

    /// Updates possible references by ID on insertion of a sibling at `pos`
    pub fn update_insert(&mut self, pos: usize)
        requires
            refs_can_shift(old(self).refs(), IndexShift::Insert(pos)),
        ensures
            *final(self) == old(self).shifted(IndexShift::Insert(pos)),
    {
        proof {
            lemma_can_shift_concat(old(self).pos.refs(), old(self).size.refs(), IndexShift::Insert(pos));
        }
        self.pos.update_insert(pos);
        self.size.update_insert(pos);
    }

    /// Updates possible references by ID on movement of a sibling from `from` to `to`
    pub fn update_move(&mut self, from: usize, to: usize)
        ensures
            *final(self) == old(self).shifted(IndexShift::Move(from, to)),
    {
        self.pos.update_move(from, to);
        self.size.update_move(from, to);
    }

    /// Updates possible references by ID on deletion of the sibling at `pos`
    pub fn update_delete(&mut self, pos: usize)
        ensures
            *final(self) == old(self).shifted(IndexShift::Delete(pos)),
    {
        self.pos.update_delete(pos);
        self.size.update_delete(pos);
    }
}

impl<S> ExtentRatio<S> {
    /// The sibling references of the position
    pub open spec fn refs(self) -> Seq<RefView> {
        self.pos.refs()
    }

    /// The ratio rule after the sibling list changed by `shift`
    pub open spec fn shifted(self, shift: IndexShift) -> Self {
        ExtentRatio { pos: self.pos.shifted(shift) }
    }

    /// Shifting the ratio rule shifts each of its references
    pub proof fn lemma_shifted(self, shift: IndexShift)
        ensures
            self.shifted(shift).refs() == shift_refs(self.refs(), shift),
    {
        self.pos.lemma_shifted(shift);
    }

    /// Tests whether the possible reference views exist, returns an error in case of an
    /// invalid reference
    pub fn validate<V>(&self, siblings: &[V]) -> (r: Result<(), ValidateError>)
        ensures
            r == validate_refs(self.refs(), siblings@.len() as usize),
    {
        self.pos.validate(siblings)
    }

    /// Checks if an ID in the range is being referenced
    pub fn check_id_range(&self, range: Range<usize>) -> (r: bool)
        ensures
            r == refs_name_index_in(self.refs(), range.start, range.end),
    {
        self.pos.check_id_range(range)
    }

    /// Checks if the ID is being referenced
    pub fn check_id(&self, id: usize) -> (r: bool)
        ensures
            r == self.refs().contains(RefView::Id(id)),
    {
        self.pos.check_id(id)
    }

    /// Checks if this view references the previous sibling
    pub fn check_prev(&self) -> (r: bool)
        ensures
            r == self.refs().contains(RefView::Prev),
    {
        self.pos.check_prev()
    }

    /// Updates possible references by ID on insertion of a sibling at `pos`
    pub fn update_insert(&mut self, pos: usize)
        requires
            refs_can_shift(old(self).refs(), IndexShift::Insert(pos)),
        ensures
            *final(self) == old(self).shifted(IndexShift::Insert(pos)),
    {
        self.pos.update_insert(pos);
    }

    /// Updates possible references by ID on movement of a sibling from `from` to `to`
    pub fn update_move(&mut self, from: usize, to: usize)
        ensures
            *final(self) == old(self).shifted(IndexShift::Move(from, to)),
    {
        self.pos.update_move(from, to);
    }

    /// Updates possible references by ID on deletion of the sibling at `pos`
    pub fn update_delete(&mut self, pos: usize)
        ensures
            *final(self) == old(self).shifted(IndexShift::Delete(pos)),
    {
        self.pos.update_delete(pos);
    }
}

/// The different types of methods to update the extent
#[derive(Clone, Copy, Debug, PartialEq)]
pub enum ExtentUpdateType<S> {
    /// The extent is updated by stretching it between two points
    Stretch(ExtentStretch<S>),
    /// The extent is updated by giving it a position and a size
    Locate(ExtentLocate<S>),
    /// The size follows from the size of the other dimension and the parent's aspect ratio
    Ratio(ExtentRatio<S>),
}

/// Defines how a single dimension should update
///
/// The base position and size of `extent_type` are post-processed as
/// `pos + offset_abs + offset_rel * size` and `max(0, size * scale_rel + scale_abs)`.
#[derive(Clone, Copy, Debug, PartialEq)]
pub struct ExtentUpdateSingle<S> {
    /// Defines how the base extent should update
    pub extent_type: ExtentUpdateType<S>,
    /// Scales the size by a relative amount, 1 keeps the size the same
    pub scale_rel: S,
    /// Scales the size by an absolute amount, applied after relative scaling
    pub scale_abs: S,
    /// Offsets the position relative to the size, 1 moves the extent one size forward
    pub offset_rel: S,
    /// Offsets the position by a set amount
    pub offset_abs: S,
}

/// Defines how the entire extent should update
#[derive(Clone, Copy, Debug, PartialEq)]
pub struct ExtentUpdate<S> {
    /// Defines how the x-dimension should update
    pub x: ExtentUpdateSingle<S>,
    /// Defines how the y-dimension should update
    pub y: ExtentUpdateSingle<S>,
}

impl<S> ExtentUpdateType<S> {
    /// The sibling references of the rule, in evaluation order
    pub open spec fn refs(self) -> Seq<RefView> {
        match self {
            ExtentUpdateType::Stretch(stretch) => stretch.refs(),
            ExtentUpdateType::Locate(locate) => locate.refs(),
            ExtentUpdateType::Ratio(ratio) => ratio.refs(),
        }
    }

    /// The rule after the sibling list changed by `shift`
    pub open spec fn shifted(self, shift: IndexShift) -> Self {
        match self {
            ExtentUpdateType::Stretch(stretch) => ExtentUpdateType::Stretch(stretch.shifted(shift)),
            ExtentUpdateType::Locate(locate) => ExtentUpdateType::Locate(locate.shifted(shift)),
            ExtentUpdateType::Ratio(ratio) => ExtentUpdateType::Ratio(ratio.shifted(shift)),
        }
    }

    /// Shifting the rule shifts each of its references
    pub proof fn lemma_shifted(self, shift: IndexShift)
        ensures
            self.shifted(shift).refs() == shift_refs(self.refs(), shift),
    {
        match self {
            ExtentUpdateType::Stretch(stretch) => stretch.lemma_shifted(shift),
            ExtentUpdateType::Locate(locate) => locate.lemma_shifted(shift),
            ExtentUpdateType::Ratio(ratio) => ratio.lemma_shifted(shift),
        }
    }

    /// Tests whether the possible reference views exist, returns an error in case of an
    /// invalid reference
    pub fn validate<V>(&self, siblings: &[V]) -> (r: Result<(), ValidateError>)
        ensures
            r == validate_refs(self.refs(), siblings@.len() as usize),
    {
        match self {
            ExtentUpdateType::Stretch(stretch) => stretch.validate(siblings),
            ExtentUpdateType::Locate(locate) => locate.validate(siblings),
            ExtentUpdateType::Ratio(ratio) => ratio.validate(siblings),
        }
    }

    /// Checks if an ID in the range is being referenced
    pub fn check_id_range(&self, range: Range<usize>) -> (r: bool)
        ensures
            r == refs_name_index_in(self.refs(), range.start, range.end),
    {
        match self {
            ExtentUpdateType::Stretch(stretch) => stretch.check_id_range(range),
            ExtentUpdateType::Locate(locate) => locate.check_id_range(range),
            ExtentUpdateType::Ratio(ratio) => ratio.check_id_range(range),
        }
    }

    /// Checks if the ID is being referenced
    pub fn check_id(&self, id: usize) -> (r: bool)
        ensures
            r == self.refs().contains(RefView::Id(id)),
    {
        match self {
            ExtentUpdateType::Stretch(stretch) => stretch.check_id(id),
            ExtentUpdateType::Locate(locate) => locate.check_id(id),
            ExtentUpdateType::Ratio(ratio) => ratio.check_id(id),
        }
    }

    /// Checks if this view references the previous sibling
    pub fn check_prev(&self) -> (r: bool)
        ensures
            r == self.refs().contains(RefView::Prev),
    {
        match self {
            ExtentUpdateType::Stretch(stretch) => stretch.check_prev(),
            ExtentUpdateType::Locate(locate) => locate.check_prev(),
            ExtentUpdateType::Ratio(ratio) => ratio.check_prev(),
        }
    }

    /// Updates possible references by ID on insertion of a sibling at `pos`
    pub fn update_insert(&mut self, pos: usize)
        requires
            refs_can_shift(old(self).refs(), IndexShift::Insert(pos)),
        ensures
            *final(self) == old(self).shifted(IndexShift::Insert(pos)),
    {
        match self {
            ExtentUpdateType::Stretch(stretch) => stretch.update_insert(pos),
            ExtentUpdateType::Locate(locate) => locate.update_insert(pos),
            ExtentUpdateType::Ratio(ratio) => ratio.update_insert(pos),
        }
    }

    /// Updates possible references by ID on movement of a sibling from `from` to `to`
    pub fn update_move(&mut self, from: usize, to: usize)
        ensures
            *final(self) == old(self).shifted(IndexShift::Move(from, to)),
    {
        match self {
            ExtentUpdateType::Stretch(stretch) => stretch.update_move(from, to),
            ExtentUpdateType::Locate(locate) => locate.update_move(from, to),
            ExtentUpdateType::Ratio(ratio) => ratio.update_move(from, to),
        }
    }

    /// Updates possible references by ID on deletion of the sibling at `pos`
    pub fn update_delete(&mut self, pos: usize)
        ensures
            *final(self) == old(self).shifted(IndexShift::Delete(pos)),
    {
        match self {
            ExtentUpdateType::Stretch(stretch) => stretch.update_delete(pos),
            ExtentUpdateType::Locate(locate) => locate.update_delete(pos),
            ExtentUpdateType::Ratio(ratio) => ratio.update_delete(pos),
        }
    }
}

impl<S> ExtentUpdateSingle<S> {
    /// The sibling references of the dimension, in evaluation order
    pub open spec fn refs(self) -> Seq<RefView> {
        self.extent_type.refs()
    }

    /// The dimension rule after the sibling list changed by `shift`
    pub open spec fn shifted(self, shift: IndexShift) -> Self {
        ExtentUpdateSingle { extent_type: self.extent_type.shifted(shift), ..self }
    }

    /// Whether the dimension derives its size from the other dimension
    pub open spec fn is_ratio(self) -> bool {
        self.extent_type is Ratio
    }

    /// Shifting the dimension rule shifts each of its references and keeps its kind
    pub proof fn lemma_shifted(self, shift: IndexShift)
        ensures
            self.shifted(shift).refs() == shift_refs(self.refs(), shift),
            self.shifted(shift).is_ratio() == self.is_ratio(),
    {
        self.extent_type.lemma_shifted(shift);
    }

    /// Tests whether the possible reference views exist, returns an error in case of an
    /// invalid reference
    pub fn validate<V>(&self, siblings: &[V]) -> (r: Result<(), ValidateError>)
        ensures
            r == validate_refs(self.refs(), siblings@.len() as usize),
    {
        self.extent_type.validate(siblings)
    }

    /// Checks if an ID in the range is being referenced
    pub fn check_id_range(&self, range: Range<usize>) -> (r: bool)
        ensures
            r == refs_name_index_in(self.refs(), range.start, range.end),
    {
        self.extent_type.check_id_range(range)
    }

    /// Checks if the ID is being referenced
    pub fn check_id(&self, id: usize) -> (r: bool)
        ensures
            r == self.refs().contains(RefView::Id(id)),
    {
        self.extent_type.check_id(id)
    }

    /// Checks if this view references the previous sibling
    pub fn check_prev(&self) -> (r: bool)
        ensures
            r == self.refs().contains(RefView::Prev),
    {
        self.extent_type.check_prev()
    }

    /// Updates possible references by ID on insertion of a sibling at `pos`
    pub fn update_insert(&mut self, pos: usize)
        requires
            refs_can_shift(old(self).refs(), IndexShift::Insert(pos)),
        ensures
            *final(self) == old(self).shifted(IndexShift::Insert(pos)),
    {
        self.extent_type.update_insert(pos);
    }

    /// Updates possible references by ID on movement of a sibling from `from` to `to`
    pub fn update_move(&mut self, from: usize, to: usize)
        ensures
            *final(self) == old(self).shifted(IndexShift::Move(from, to)),
    {
        self.extent_type.update_move(from, to);
    }

    /// Updates possible references by ID on deletion of the sibling at `pos`
    pub fn update_delete(&mut self, pos: usize)
        ensures
            *final(self) == old(self).shifted(IndexShift::Delete(pos)),
    {
        self.extent_type.update_delete(pos);
    }
}

impl<S> ExtentUpdate<S> {
    /// The sibling references of the x and then the y dimension
    pub open spec fn refs(self) -> Seq<RefView> {
        self.x.refs() + self.y.refs()
    }

    /// The description after the sibling list changed by `shift`
    pub open spec fn shifted(self, shift: IndexShift) -> Self {
        ExtentUpdate { x: self.x.shifted(shift), y: self.y.shifted(shift) }
    }

    /// Whether both dimensions derive their size from the other one
    pub open spec fn both_ratio(self) -> bool {
        self.x.is_ratio() && self.y.is_ratio()
    }

    /// The outcome of validating the description for a view with `n` older siblings
    pub open spec fn validation(self, n: usize) -> Result<(), ValidateError> {
        if self.both_ratio() {
            Err(ValidateError::BothRatio)
        } else {
            validate_refs(self.refs(), n)
        }
    }

    /// Shifting the description shifts each of its references and keeps its kinds
    pub proof fn lemma_shifted(self, shift: IndexShift)
        ensures
            self.shifted(shift).refs() == shift_refs(self.refs(), shift),
            self.shifted(shift).both_ratio() == self.both_ratio(),
    {
        self.x.lemma_shifted(shift);
        self.y.lemma_shifted(shift);
        lemma_shift_concat(self.x.refs(), self.y.refs(), shift);
    }

    /// Tests whether the possible reference views exist and that at most one dimension uses
    /// ratio mode, returns an error otherwise
    ///
    /// # Parameters
    ///
    /// siblings: A slice of all the previous siblings of this view
    pub fn validate<V>(&self, siblings: &[V]) -> (r: Result<(), ValidateError>)
        ensures
            r == self.validation(siblings@.len() as usize),
    {
        if let ExtentUpdateType::Ratio(_) = self.x.extent_type {
            if let ExtentUpdateType::Ratio(_) = self.y.extent_type {
                return Err(ValidateError::BothRatio);
            }
        }
        proof {
            lemma_validate_concat(self.x.refs(), self.y.refs(), siblings@.len() as usize);
        }
        match self.x.validate(siblings) {
            Ok(()) => self.y.validate(siblings),
            Err(e) => Err(e),
        }
    }

    /// Whether the y dimension is evaluated before the x dimension: when x takes its size
    /// from the size of y. Otherwise x comes first and its size is handed to y.
    pub fn evaluates_y_first(&self) -> (r: bool)
        ensures
            r == self.x.is_ratio(),
    {
        match self.x.extent_type {
            ExtentUpdateType::Ratio(_) => true,
            _ => false,
        }
    }

    /// Checks if an ID in the range is being referenced
    pub fn check_id_range(&self, range: Range<usize>) -> (r: bool)
        ensures
            r == refs_name_index_in(self.refs(), range.start, range.end),
    {
        proof {
            lemma_names_index_in_concat(self.x.refs(), self.y.refs(), range.start, range.end);
        }
        self.x.check_id_range(range.start..range.end) || self.y.check_id_range(range)
    }

    /// Checks if the ID is being referenced
    pub fn check_id(&self, id: usize) -> (r: bool)
        ensures
            r == self.refs().contains(RefView::Id(id)),
    {
        proof {
            lemma_contains_concat(self.x.refs(), self.y.refs(), RefView::Id(id));
        }
        self.x.check_id(id) || self.y.check_id(id)
    }

    /// Checks if this view references the previous sibling
    pub fn check_prev(&self) -> (r: bool)
        ensures
            r == self.refs().contains(RefView::Prev),
    {
        proof {
            lemma_contains_concat(self.x.refs(), self.y.refs(), RefView::Prev);
        }
        self.x.check_prev() || self.y.check_prev()
    }

    /// Updates possible references by ID on insertion of a sibling at `pos`
    pub fn update_insert(&mut self, pos: usize)
        requires
            refs_can_shift(old(self).refs(), IndexShift::Insert(pos)),
        ensures
            *final(self) == old(self).shifted(IndexShift::Insert(pos)),
    {
        proof {
            lemma_can_shift_concat(old(self).x.refs(), old(self).y.refs(), IndexShift::Insert(pos));
        }
        self.x.update_insert(pos);
        self.y.update_insert(pos);
    }

    /// Updates possible references by ID on movement of a sibling from `from` to `to`
    pub fn update_move(&mut self, from: usize, to: usize)
        ensures
            *final(self) == old(self).shifted(IndexShift::Move(from, to)),
    {
        self.x.update_move(from, to);
        self.y.update_move(from, to);
    }

    /// Updates possible references by ID on deletion of the sibling at `pos`
    pub fn update_delete(&mut self, pos: usize)
        ensures
            *final(self) == old(self).shifted(IndexShift::Delete(pos)),
    {
        self.x.update_delete(pos);
        self.y.update_delete(pos);
    }
}

impl<S> AnchorPoint<S> {
    /// Inserting a sibling at `pos` and deleting it again leaves the anchor as it was
    pub proof fn lemma_insert_delete(self, pos: usize)
        requires
            refs_can_shift(self.refs(), IndexShift::Insert(pos)),
        ensures
            self.shifted(IndexShift::Insert(pos)).shifted(IndexShift::Delete(pos)) == self,
    {
        assert(self.refs()[0] == self.ref_view);
        lemma_insert_delete_ref(self.ref_view, pos);
    }
}

impl<S> PositionType<S> {
    /// Inserting a sibling at `pos` and deleting it again leaves the position as it was
    pub proof fn lemma_insert_delete(self, pos: usize)
        requires
            refs_can_shift(self.refs(), IndexShift::Insert(pos)),
        ensures
            self.shifted(IndexShift::Insert(pos)).shifted(IndexShift::Delete(pos)) == self,
    {
        if let PositionType::Anchor(anchor) = self {
            anchor.lemma_insert_delete(pos);
        }
    }
}

impl<S> ExtentStretch<S> {
    /// Inserting a sibling at `pos` and deleting it again leaves the stretch as it was
    pub proof fn lemma_insert_delete(self, pos: usize)
        requires
            refs_can_shift(self.refs(), IndexShift::Insert(pos)),
        ensures
            self.shifted(IndexShift::Insert(pos)).shifted(IndexShift::Delete(pos)) == self,
    {
        lemma_can_shift_concat(self.pos1.refs(), self.pos2.refs(), IndexShift::Insert(pos));
        self.pos1.lemma_insert_delete(pos);
        self.pos2.lemma_insert_delete(pos);
    }
}

impl<S> SizeType<S> {
    /// Inserting a sibling at `pos` and deleting it again leaves the size as it was
    pub proof fn lemma_insert_delete(self, pos: usize)
        requires
            refs_can_shift(self.refs(), IndexShift::Insert(pos)),
        ensures
            self.shifted(IndexShift::Insert(pos)).shifted(IndexShift::Delete(pos)) == self,
    {
        match self {
            SizeType::Stretch(stretch) => stretch.lemma_insert_delete(pos),
            SizeType::Relative(ref_view) => {
                assert(self.refs()[0] == ref_view);
                lemma_insert_delete_ref(ref_view, pos);
            },
            SizeType::Fixed(_) => {},
        }
    }
}

impl<S> ExtentLocate<S> {
    /// Inserting a sibling at `pos` and deleting it again leaves the locate rule as it was
    pub proof fn lemma_insert_delete(self, pos: usize)
        requires
            refs_can_shift(self.refs(), IndexShift::Insert(pos)),
        ensures
            self.shifted(IndexShift::Insert(pos)).shifted(IndexShift::Delete(pos)) == self,
    {
        lemma_can_shift_concat(self.pos.refs(), self.size.refs(), IndexShift::Insert(pos));
        self.pos.lemma_insert_delete(pos);
        self.size.lemma_insert_delete(pos);
    }
}

impl<S> ExtentUpdateType<S> {
    /// Inserting a sibling at `pos` and deleting it again leaves the rule as it was
    pub proof fn lemma_insert_delete(self, pos: usize)
        requires
            refs_can_shift(self.refs(), IndexShift::Insert(pos)),
        ensures
            self.shifted(IndexShift::Insert(pos)).shifted(IndexShift::Delete(pos)) == self,
    {
        match self {
            ExtentUpdateType::Stretch(stretch) => stretch.lemma_insert_delete(pos),
            ExtentUpdateType::Locate(locate) => locate.lemma_insert_delete(pos),
            ExtentUpdateType::Ratio(ratio) => ratio.pos.lemma_insert_delete(pos),
        }
    }
}

impl<S> ExtentUpdate<S> {
    /// Inserting a sibling at `pos` and deleting it again leaves the description as it was
    pub proof fn lemma_insert_delete(self, pos: usize)
        requires
            refs_can_shift(self.refs(), IndexShift::Insert(pos)),
        ensures
            self.shifted(IndexShift::Insert(pos)).shifted(IndexShift::Delete(pos)) == self,
    {
        lemma_can_shift_concat(self.x.refs(), self.y.refs(), IndexShift::Insert(pos));
        self.x.extent_type.lemma_insert_delete(pos);
        self.y.extent_type.lemma_insert_delete(pos);
    }
}

/// Every description accepted for a view with `n` older siblings has at most one
/// dimension in ratio mode, and validation reports `BothRatio` exactly when both are
pub proof fn lemma_ratio_exclusive<S>(update: ExtentUpdate<S>, n: usize)
    ensures
        update.validation(n) is Ok ==> !(update.x.is_ratio() && update.y.is_ratio()),
        update.validation(n) == Err::<(), ValidateError>(ValidateError::BothRatio) <==> (
        update.x.is_ratio() && update.y.is_ratio()),
{
    lemma_validate_refs(update.refs(), n);
}

/// Every reference of a description accepted for a view with `n` older siblings denotes
/// one of those siblings, so evaluation never reaches the view itself or a younger one
pub proof fn lemma_accepted_refs_point_back<S>(update: ExtentUpdate<S>, n: usize)
    requires
        update.validation(n) is Ok,
    ensures
        forall|i: int|
            0 <= i < update.refs().len() ==> 0 <= (#[trigger] update.refs()[i]).target(n) < n,
{
    lemma_validate_refs(update.refs(), n);
    assert forall|i: int| 0 <= i < update.refs().len() implies 0 <= (
    #[trigger] update.refs()[i]).target(n) < n by {
        assert(update.refs()[i].is_valid_in(n));
    }
}

/// A container for the extent update info of one view; the scheduler of the parent keeps
/// one for every child to reason about references between siblings
#[derive(Clone, Copy, Debug, PartialEq)]
pub struct ExtentController<S> {
    /// The update info
    update_info: ExtentUpdate<S>,
}

impl<S> vstd::view::View for ExtentController<S> {
    type V = ExtentUpdate<S>;

    closed spec fn view(&self) -> ExtentUpdate<S> {
        self.update_info
    }
}

impl<S> ExtentController<S> {
    /// Creates a new extent update container
    pub fn new(update_info: ExtentUpdate<S>) -> (r: Self)
        ensures
            r@ == update_info,
    {
        ExtentController { update_info }
    }

    /// The update info held by the container
    pub fn get_update_info(&self) -> (r: &ExtentUpdate<S>)
        ensures
            *r == self@,
    {
        &self.update_info
    }

    /// Checks whether the update info has any invalid references. Returns an error in case of
    /// an invalid reference.
    ///
    /// # Parameters
    ///
    /// siblings: A slice of all the previous siblings of this view
    pub fn validate<V>(&self, siblings: &[V]) -> (r: Result<(), ValidateError>)
        ensures
            r == self@.validation(siblings@.len() as usize),
    {
        self.update_info.validate(siblings)
    }

    /// Checks if an ID in the range is being referenced
    pub fn check_id_range(&self, range: Range<usize>) -> (r: bool)
        ensures
            r == refs_name_index_in(self@.refs(), range.start, range.end),
    {
        self.update_info.check_id_range(range)
    }

    /// Checks if the ID is being referenced
    pub fn check_id(&self, id: usize) -> (r: bool)
        ensures
            r == self@.refs().contains(RefView::Id(id)),
    {
        self.update_info.check_id(id)
    }

    /// Checks if this view references the previous sibling
    pub fn check_prev(&self) -> (r: bool)
        ensures
            r == self@.refs().contains(RefView::Prev),
    {
        self.update_info.check_prev()
    }

    /// Updates possible references by ID on insertion of a sibling at `pos`
    pub fn update_insert(&mut self, pos: usize)
        requires
            refs_can_shift(old(self)@.refs(), IndexShift::Insert(pos)),
        ensures
            final(self)@ == old(self)@.shifted(IndexShift::Insert(pos)),
    {
        self.update_info.update_insert(pos);
    }

    /// Updates possible references by ID on movement of a sibling from `from` to `to`
    pub fn update_move(&mut self, from: usize, to: usize)
        ensures
            final(self)@ == old(self)@.shifted(IndexShift::Move(from, to)),
    {
        self.update_info.update_move(from, to);
    }

    /// Updates possible references by ID on deletion of the sibling at `pos`
    pub fn update_delete(&mut self, pos: usize)
        ensures
            final(self)@ == old(self)@.shifted(IndexShift::Delete(pos)),
    {
        self.update_info.update_delete(pos);
    }
}

} // verus!
