//! Views: nodes of the tree, each with its extent and the scheduler of its child list.
use vstd::prelude::*;
use vstd::view::View as _;

use crate::children::{ChildrenScheduleOperation, ChildrenScheduler};
use crate::children::ValidateError as ChildValidateError;
use crate::extent::{
    ExtentController,
    ExtentLocate,
    ExtentUpdate,
    ExtentUpdateSingle,
    ExtentUpdateType,
    PositionType,
    SizeType,
    ValidateError,
};

verus! {

/// A rectangle relative to the parent: position and size on both axes
#[derive(Clone, Copy, Debug, PartialEq)]
pub struct Rect<S> {
    /// The x-position of the upper left corner
    pub x: S,
    /// The y-position of the upper left corner
    pub y: S,
    /// The width
    pub w: S,
    /// The height
    pub h: S,
}

/// Defines the extent of a view
pub struct Extent<S> {
    /// The rectangle computed at the last resolve, `None` before the first one
    rect: Option<Rect<S>>,
    /// The update information
    update_info: ExtentController<S>,
}

/// A view struct containing all the information of a single view
pub struct View<S> {
    /// The children of the view and the changes scheduled for them
    children: ChildrenScheduler<S>,
    /// The current extent of the view, relative to its parent
    extent: Extent<S>,
}

/// The description of a view at `origin` with size `unit` on both axes and an identity
/// post-processing, given the scalars zero and one: the root covers the whole window
pub open spec fn root_update<S>(zero: S, one: S) -> ExtentUpdate<S> {
    let single = ExtentUpdateSingle {
        extent_type: ExtentUpdateType::Locate(
            ExtentLocate { pos: PositionType::Fixed(zero), size: SizeType::Fixed(one) },
        ),
        scale_rel: one,
        scale_abs: zero,
        offset_rel: zero,
        offset_abs: zero,
    };
    ExtentUpdate { x: single, y: single }
}

impl<S> View<S> {
    /// How the extent of the view is derived
    pub closed spec fn descriptor(&self) -> ExtentUpdate<S> {
        self.extent.update_info@
    }

    /// The scheduler of the child list
    pub closed spec fn scheduler(&self) -> ChildrenScheduler<S> {
        self.children
    }

    /// The rectangle computed at the last resolve
    pub closed spec fn rect(&self) -> Option<Rect<S>> {
        self.extent.rect
    }

}

impl<S: Copy> View<S> {
    /// Creates a new root view, placed by fixed values: position `zero` and size `one` on both
    /// axes, so that it covers the entire window exactly
    pub fn new_root(zero: S, one: S) -> (r: Box<Self>)
        ensures
            r.descriptor() == root_update(zero, one),
            r.scheduler().is_empty(),
            r.rect() is None,
    {
        let locate = ExtentLocate { pos: PositionType::Fixed(zero), size: SizeType::Fixed(one) };
        let update_single = ExtentUpdateSingle {
            extent_type: ExtentUpdateType::Locate(locate),
            scale_rel: one,
            scale_abs: zero,
            offset_rel: zero,
            offset_abs: zero,
        };
        let update_info = ExtentUpdate { x: update_single, y: update_single };
        Self::new(update_info)
    }

    /// Creates a new view without children
    ///
    /// # Parameters
    ///
    /// update_info: The extent update info describing how the extent is constructed
    pub fn new(update_info: ExtentUpdate<S>) -> (r: Box<Self>)
        ensures
            r.descriptor() == update_info,
            r.scheduler().is_empty(),
            r.rect() is None,
    {
        let children = ChildrenScheduler::new();
        let extent = Extent { rect: None, update_info: ExtentController::new(update_info) };
        Box::new(View { children, extent })
    }

    /// Gets the extent controller
    pub fn get_extent_controller(&self) -> (r: ExtentController<S>)
        ensures
            r@ == self.descriptor(),
    {
        self.extent.update_info
    }

    /// Gets the children scheduler, through which changes of the child list are scheduled
    pub fn get_children_scheduler(&mut self) -> (r: &mut ChildrenScheduler<S>)
        ensures
            *r == old(self).scheduler(),
            final(self).scheduler() == *final(r),
            final(self).descriptor() == old(self).descriptor(),
            final(self).rect() == old(self).rect(),
    {
        &mut self.children
    }

    /// The children scheduler, read only
    pub fn children_scheduler(&self) -> (r: &ChildrenScheduler<S>)
        ensures
            *r == self.scheduler(),
    {
        &self.children
    }

    /// The rectangle computed at the last resolve, `None` before the first one
    pub fn get_rect(&self) -> (r: Option<Rect<S>>)
        ensures
            r == self.rect(),
    {
        self.extent.rect
    }

    /// Stores the rectangle computed for this view
    pub fn set_rect(&mut self, rect: Rect<S>)
        ensures
            final(self).rect() == Some(rect),
            final(self).descriptor() == old(self).descriptor(),
            final(self).scheduler() == old(self).scheduler(),
    {
        self.extent.rect = Some(rect);
    }

    /// Replaces the description of the extent, keeping everything else
    pub(crate) fn set_descriptor(&mut self, update_info: ExtentUpdate<S>)
        ensures
            final(self).descriptor() == update_info,
            final(self).scheduler() == old(self).scheduler(),
            final(self).rect() == old(self).rect(),
    {
        self.extent.update_info = ExtentController::new(update_info);
    }

    /// Applies all changes scheduled for the children of this view and, recursively, for
    /// every descendant (see `ChildrenScheduler::resolve`)
    pub fn resolve_children(&mut self)
        ensures
            final(self).scheduler().lists_resolved_from(old(self).scheduler()),
            final(self).scheduler().is_settled(),
            final(self).descriptor() == old(self).descriptor(),
            final(self).rect() == old(self).rect(),
    {
        self.children.resolve();
    }

    /// Stores the rectangle of this view and computes the rectangles of its descendants from
    /// it (see `ChildrenScheduler::layout`)
    pub fn update<F: Fn(&ExtentUpdate<S>, &[Rect<S>], Rect<S>) -> Rect<S>>(
        &mut self,
        rect: Rect<S>,
        eval: &F,
    )
        requires
            forall|d: &ExtentUpdate<S>, siblings: &[Rect<S>], p: Rect<S>|
                d.validation(siblings@.len() as usize) is Ok ==> #[trigger] call_requires(
                    *eval,
                    (d, siblings, p),
                ),
        ensures
            final(self).rect() == Some(rect),
            final(self).descriptor() == old(self).descriptor(),
            final(self).scheduler().is_layout_of(old(self).scheduler(), rect, *eval),
    {
        self.extent.rect = Some(rect);
        self.children.layout(rect, eval);
    }

    /// Schedules `child` to be attached at `position` among the children, after validating
    /// its description against the children before that position
    pub fn attach_child(&mut self, child: Box<View<S>>, position: usize) -> (r: Result<
        (),
        ChildValidateError,
    >)
        ensures
            r == (match ChildrenScheduleOperation::Insert(child, position).error_in(
                old(self).scheduler().handles(),
            ) {
                Some(e) => Err(e),
                None => Ok(()),
            }),
            r is Err ==> final(self).scheduler() == old(self).scheduler(),
            r is Ok ==> final(self).scheduler().handles() == ChildrenScheduleOperation::Insert(
                child,
                position,
            ).applied_to(old(self).scheduler().handles()),
            r is Ok ==> final(self).scheduler().queue() == old(self).scheduler().queue().push(
                ChildrenScheduleOperation::Insert(child, position),
            ),
            r is Ok ==> final(self).scheduler().children() == old(self).scheduler().children(),
            r is Ok ==> final(self).scheduler().subtree_dirty() == (old(
                self,
            ).scheduler().subtree_dirty() || ChildrenScheduleOperation::Insert(
                child,
                position,
            ).carries_pending()),
            final(self).descriptor() == old(self).descriptor(),
            final(self).rect() == old(self).rect(),
    {
        self.children.push_operation(ChildrenScheduleOperation::Insert(child, position))
    }

    /// Schedules `operation` on the children of the descendant reached through the current
    /// child lists by the positions in `path` (this view when `path` is empty), marking every
    /// view on the way (see `ChildrenScheduler::push_operation_at`)
    pub fn push_operation_at(&mut self, path: &[usize], operation: ChildrenScheduleOperation<S>) -> (r:
        Result<(), ChildValidateError>)
        ensures
            r == (match old(self).scheduler().path_error(path@, operation) {
                Some(e) => Err(e),
                None => Ok(()),
            }),
            r is Err ==> final(self).scheduler() == old(self).scheduler(),
            r is Ok ==> final(self).scheduler().is_scheduled_at(
                old(self).scheduler(),
                path@,
                operation,
            ),
            final(self).descriptor() == old(self).descriptor(),
            final(self).rect() == old(self).rect(),
    {
        self.children.push_operation_at(path, operation)
    }

    /// Validates the view against its older siblings
    pub fn validate<V>(&self, siblings: &[V]) -> (r: Result<(), ValidateError>)
        ensures
            r == self.descriptor().validation(siblings@.len() as usize),
    {
        self.extent.update_info.validate(siblings)
    }
}

} // verus!
