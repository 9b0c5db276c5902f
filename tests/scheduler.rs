use views::children::{ChildrenScheduleOperation, ChildrenScheduler, ValidateError};
use views::extent::{
    AnchorPoint, ExtentController, ExtentLocate, ExtentRatio, ExtentUpdate, ExtentUpdateSingle,
    ExtentUpdateType, PositionType, RefView, SizeType,
};
use views::extent::ValidateError as ExtentValidateError;
use views::view::{Rect, View};

fn single(extent_type: ExtentUpdateType<f32>) -> ExtentUpdateSingle<f32> {
    ExtentUpdateSingle { extent_type, scale_rel: 1.0, scale_abs: 0.0, offset_rel: 0.0, offset_abs: 0.0 }
}

fn fixed() -> ExtentUpdate<f32> {
    let locate = ExtentLocate { pos: PositionType::Fixed(0.0), size: SizeType::Fixed(1.0) };
    ExtentUpdate { x: single(ExtentUpdateType::Locate(locate)), y: single(ExtentUpdateType::Locate(locate)) }
}

/// A view whose x position is anchored to the sibling referenced by `ref_view`
fn anchored(ref_view: RefView) -> ExtentUpdate<f32> {
    let pos = PositionType::Anchor(AnchorPoint { ref_view, ref_point: 1.0 });
    let x = ExtentLocate { pos, size: SizeType::Fixed(0.5) };
    let y = ExtentLocate { pos: PositionType::Fixed(0.0), size: SizeType::Fixed(1.0) };
    ExtentUpdate { x: single(ExtentUpdateType::Locate(x)), y: single(ExtentUpdateType::Locate(y)) }
}

fn push(scheduler: &mut ChildrenScheduler<f32>, update: ExtentUpdate<f32>) -> Result<(), ValidateError> {
    scheduler.push_operation(ChildrenScheduleOperation::Push(View::new(update)))
}

fn descriptions(scheduler: &ChildrenScheduler<f32>) -> Vec<ExtentUpdate<f32>> {
    scheduler.get_controllers().iter().map(|c: &ExtentController<f32>| *c.get_update_info()).collect()
}

#[test]
fn mod_new() {
    let view = View::new(fixed());
    assert_eq!(fixed(), *view.get_extent_controller().get_update_info());
    assert!(view.get_rect().is_none());
    assert!(view.children_scheduler().get_children().is_empty());
    assert!(!view.children_scheduler().has_pending());
}

#[test]
fn new_root_covers_window() {
    let root = View::new_root(0.0f32, 1.0);
    assert_eq!(fixed(), *root.get_extent_controller().get_update_info());
    assert_eq!(Ok(()), root.validate::<View<f32>>(&[]));
}

#[test]
fn push_rejects_forward_reference() {
    let mut scheduler = ChildrenScheduler::new();
    assert_eq!(Err(ValidateError::InvalidNew(ExtentValidateError::NoPrev)), push(&mut scheduler, anchored(RefView::Prev)));
    assert_eq!(Ok(()), push(&mut scheduler, fixed()));
    assert_eq!(Err(ValidateError::InvalidNew(ExtentValidateError::InvalidId(1, 1))), push(&mut scheduler, anchored(RefView::Id(1))));
    assert_eq!(Ok(()), push(&mut scheduler, anchored(RefView::Prev)));
    assert_eq!(2, scheduler.get_controllers().len());
}

#[test]
fn push_rejects_both_ratio() {
    let mut scheduler = ChildrenScheduler::new();
    let ratio = single(ExtentUpdateType::Ratio(ExtentRatio { pos: PositionType::Fixed(0.0) }));
    let update = ExtentUpdate { x: ratio, y: ratio };
    assert_eq!(Err(ValidateError::InvalidNew(ExtentValidateError::BothRatio)), push(&mut scheduler, update));
    let one_ratio = ExtentUpdate { x: ratio, y: fixed().y };
    assert_eq!(Ok(()), push(&mut scheduler, one_ratio));
}

#[test]
fn insert_shifts_later_references() {
    // children: 0 fixed, 1 -> Id(0), 2 -> Id(1)
    let mut scheduler = ChildrenScheduler::new();
    push(&mut scheduler, fixed()).unwrap();
    push(&mut scheduler, anchored(RefView::Id(0))).unwrap();
    push(&mut scheduler, anchored(RefView::Id(1))).unwrap();
    assert_eq!(Ok(()), scheduler.push_operation(ChildrenScheduleOperation::Insert(View::new(fixed()), 1)));
    let after = descriptions(&scheduler);
    assert_eq!(4, after.len());
    assert_eq!(fixed(), after[1]);
    assert_eq!(anchored(RefView::Id(0)), after[2]);
    assert_eq!(anchored(RefView::Id(2)), after[3]);
}

#[test]
fn insert_rejects_out_of_range_and_invalid_view() {
    let mut scheduler = ChildrenScheduler::new();
    push(&mut scheduler, fixed()).unwrap();
    assert_eq!(Err(ValidateError::OutOfRange(2, 1)), scheduler.push_operation(ChildrenScheduleOperation::Insert(View::new(fixed()), 2)));
    assert_eq!(
        Err(ValidateError::InvalidNew(ExtentValidateError::NoPrev)),
        scheduler.push_operation(ChildrenScheduleOperation::Insert(View::new(anchored(RefView::Prev)), 0))
    );
    assert_eq!(Ok(()), scheduler.push_operation(ChildrenScheduleOperation::Insert(View::new(anchored(RefView::Prev)), 1)));
}

#[test]
fn insert_then_delete_restores_references() {
    let mut scheduler = ChildrenScheduler::new();
    push(&mut scheduler, fixed()).unwrap();
    push(&mut scheduler, anchored(RefView::Id(0))).unwrap();
    push(&mut scheduler, anchored(RefView::Id(1))).unwrap();
    push(&mut scheduler, anchored(RefView::Prev)).unwrap();
    let before = descriptions(&scheduler);
    for pos in 0..=before.len() {
        let mut copy = ChildrenScheduler::new();
        for d in before.iter() {
            push(&mut copy, *d).unwrap();
        }
        assert_eq!(Ok(()), copy.push_operation(ChildrenScheduleOperation::Insert(View::new(fixed()), pos)));
        assert_eq!(Ok(()), copy.push_operation(ChildrenScheduleOperation::Delete(pos)));
        assert_eq!(before, descriptions(&copy));
    }
}

#[test]
fn rejected_operation_changes_nothing() {
    let mut scheduler = ChildrenScheduler::new();
    push(&mut scheduler, fixed()).unwrap();
    push(&mut scheduler, anchored(RefView::Id(0))).unwrap();
    let before = descriptions(&scheduler);
    assert_eq!(Err(ValidateError::InvalidId(1)), scheduler.push_operation(ChildrenScheduleOperation::Delete(0)));
    assert_eq!(Err(ValidateError::InvalidPos(5, 2)), scheduler.push_operation(ChildrenScheduleOperation::Delete(5)));
    assert_eq!(before, descriptions(&scheduler));
    scheduler.resolve();
    assert_eq!(2, scheduler.get_children().len());
}

#[test]
fn delete_rejects_orphaned_prev() {
    let mut scheduler = ChildrenScheduler::new();
    push(&mut scheduler, fixed()).unwrap();
    push(&mut scheduler, anchored(RefView::Prev)).unwrap();
    assert_eq!(Err(ValidateError::NoPrev(1)), scheduler.push_operation(ChildrenScheduleOperation::Delete(0)));
    assert_eq!(Ok(()), scheduler.push_operation(ChildrenScheduleOperation::Delete(1)));
    assert_eq!(Ok(()), scheduler.push_operation(ChildrenScheduleOperation::Delete(0)));
    assert!(descriptions(&scheduler).is_empty());
}

#[test]
fn delete_rewrites_later_references() {
    let mut scheduler = ChildrenScheduler::new();
    push(&mut scheduler, fixed()).unwrap();
    push(&mut scheduler, fixed()).unwrap();
    push(&mut scheduler, anchored(RefView::Id(1))).unwrap();
    assert_eq!(Ok(()), scheduler.push_operation(ChildrenScheduleOperation::Delete(0)));
    assert_eq!(vec![fixed(), anchored(RefView::Id(0))], descriptions(&scheduler));
}

#[test]
fn move_forward_past_dependent_is_rejected() {
    // sibling 2 references sibling 0; moving 0 to position 2 would put it after its dependent
    let mut scheduler = ChildrenScheduler::new();
    push(&mut scheduler, fixed()).unwrap();
    push(&mut scheduler, fixed()).unwrap();
    push(&mut scheduler, anchored(RefView::Id(0))).unwrap();
    let before = descriptions(&scheduler);
    assert_eq!(Err(ValidateError::InvalidId(2)), scheduler.push_operation(ChildrenScheduleOperation::Move(0, 2)));
    assert_eq!(before, descriptions(&scheduler));
    assert_eq!(Ok(()), scheduler.push_operation(ChildrenScheduleOperation::Move(0, 1)));
    assert_eq!(vec![fixed(), fixed(), anchored(RefView::Id(1))], descriptions(&scheduler));
}

#[test]
fn move_backward_rewrites_references() {
    let mut scheduler = ChildrenScheduler::new();
    push(&mut scheduler, fixed()).unwrap();
    push(&mut scheduler, anchored(RefView::Id(0))).unwrap();
    push(&mut scheduler, fixed()).unwrap();
    push(&mut scheduler, anchored(RefView::Id(2))).unwrap();
    // the view at 2 references nothing, so it may move to the front
    assert_eq!(Ok(()), scheduler.push_operation(ChildrenScheduleOperation::Move(2, 0)));
    assert_eq!(
        vec![fixed(), fixed(), anchored(RefView::Id(1)), anchored(RefView::Id(0))],
        descriptions(&scheduler)
    );
    // the view at 2 references index 1, which it would move in front of
    assert_eq!(Err(ValidateError::InvalidId(2)), scheduler.push_operation(ChildrenScheduleOperation::Move(2, 1)));
}

#[test]
fn move_checks_positions_and_prev() {
    let mut scheduler = ChildrenScheduler::new();
    assert_eq!(Err(ValidateError::OutOfRange(0, 0)), scheduler.push_operation(ChildrenScheduleOperation::Move(0, 0)));
    push(&mut scheduler, fixed()).unwrap();
    push(&mut scheduler, anchored(RefView::Prev)).unwrap();
    assert_eq!(Err(ValidateError::OutOfRange(2, 1)), scheduler.push_operation(ChildrenScheduleOperation::Move(0, 2)));
    assert_eq!(Err(ValidateError::InvalidPos(3, 2)), scheduler.push_operation(ChildrenScheduleOperation::Move(3, 0)));
    // the target is checked first when both positions are out of range
    assert_eq!(Err(ValidateError::OutOfRange(4, 1)), scheduler.push_operation(ChildrenScheduleOperation::Move(3, 4)));
    assert_eq!(Err(ValidateError::NoPrev(1)), scheduler.push_operation(ChildrenScheduleOperation::Move(1, 0)));
    assert_eq!(Err(ValidateError::NoPrev(1)), scheduler.push_operation(ChildrenScheduleOperation::Move(0, 1)));
    assert_eq!(Ok(()), scheduler.push_operation(ChildrenScheduleOperation::Move(1, 1)));
}

#[test]
fn resolve_applies_queue_in_order() {
    let mut parent = View::new_root(0.0f32, 1.0);
    let scheduler = parent.get_children_scheduler();
    push(scheduler, fixed()).unwrap();
    push(scheduler, anchored(RefView::Id(0))).unwrap();
    scheduler.push_operation(ChildrenScheduleOperation::Insert(View::new(fixed()), 0)).unwrap();
    scheduler.push_operation(ChildrenScheduleOperation::Move(0, 2)).unwrap();
    assert!(scheduler.get_children().is_empty());
    assert!(scheduler.has_pending());
    parent.resolve_children();
    let scheduler = parent.children_scheduler();
    assert!(!scheduler.has_pending());
    let children: Vec<ExtentUpdate<f32>> =
        scheduler.get_children().iter().map(|v| *v.get_extent_controller().get_update_info()).collect();
    assert_eq!(descriptions(scheduler), children);
    assert_eq!(vec![fixed(), anchored(RefView::Id(0)), fixed()], children);
}

#[test]
fn resolve_ref_view_index() {
    assert_eq!(2, RefView::Prev.resolve(3));
    assert_eq!(1, RefView::Id(1).resolve(3));
}

#[test]
fn resolve_reaches_flagged_subtrees() {
    let mut child = View::new(fixed());
    push(child.get_children_scheduler(), fixed()).unwrap();
    push(child.get_children_scheduler(), anchored(RefView::Prev)).unwrap();
    let mut root = View::new_root(0.0f32, 1.0);
    root.get_children_scheduler().push_operation(ChildrenScheduleOperation::Push(child)).unwrap();
    root.get_children_scheduler().push_operation(ChildrenScheduleOperation::Push(View::new(fixed()))).unwrap();
    assert!(root.children_scheduler().has_pending());
    root.resolve_children();
    assert!(!root.children_scheduler().has_pending());
    let children = root.children_scheduler().get_children();
    assert_eq!(2, children.len());
    let grandchildren = children[0].children_scheduler().get_children();
    assert_eq!(2, grandchildren.len());
    assert_eq!(anchored(RefView::Prev), *grandchildren[1].get_extent_controller().get_update_info());
    assert!(!children[0].children_scheduler().has_pending());
}

#[test]
fn schedule_on_attached_descendants() {
    let mut root = View::new_root(0.0f32, 1.0);
    push(root.get_children_scheduler(), fixed()).unwrap();
    root.resolve_children();
    assert!(!root.children_scheduler().has_pending());
    // the child is attached: reach its scheduler through the path [0]
    assert_eq!(Ok(()), root.push_operation_at(&[0], ChildrenScheduleOperation::Push(View::new(fixed()))));
    assert!(root.children_scheduler().has_pending());
    assert!(root.children_scheduler().get_children()[0].children_scheduler().has_pending());
    assert_eq!(Ok(()), root.push_operation_at(&[0], ChildrenScheduleOperation::Push(View::new(anchored(RefView::Prev)))));
    // a bad position or an invalid operation is rejected and changes nothing
    assert_eq!(Err(ValidateError::InvalidPos(1, 1)), root.push_operation_at(&[1], ChildrenScheduleOperation::Delete(0)));
    assert_eq!(Err(ValidateError::InvalidPos(0, 0)), root.push_operation_at(&[0, 0], ChildrenScheduleOperation::Delete(0)));
    assert_eq!(Err(ValidateError::NoPrev(1)), root.push_operation_at(&[0], ChildrenScheduleOperation::Delete(0)));
    root.resolve_children();
    assert!(!root.children_scheduler().has_pending());
    let grandchildren = root.children_scheduler().get_children()[0].children_scheduler().get_children();
    assert_eq!(2, grandchildren.len());
    // one level further down
    assert_eq!(Ok(()), root.push_operation_at(&[0, 1], ChildrenScheduleOperation::Push(View::new(fixed()))));
    assert!(root.children_scheduler().has_pending());
    root.resolve_children();
    let child = &root.children_scheduler().get_children()[0];
    assert_eq!(1, child.children_scheduler().get_children()[1].children_scheduler().get_children().len());
    assert!(!root.children_scheduler().has_pending());
}

#[test]
fn update_lays_out_children_in_order() {
    let mut root = View::new_root(0.0f32, 1.0);
    push(root.get_children_scheduler(), fixed()).unwrap();
    push(root.get_children_scheduler(), anchored(RefView::Prev)).unwrap();
    push(root.get_children_scheduler(), anchored(RefView::Id(0))).unwrap();
    root.resolve_children();
    // each child is placed one unit after the sum of its older siblings' x positions
    let eval = |_d: &ExtentUpdate<f32>, siblings: &[Rect<f32>], parent: Rect<f32>| {
        let x = siblings.iter().map(|r| r.x).sum::<f32>() + 1.0;
        Rect { x, y: parent.y, w: siblings.len() as f32, h: parent.h }
    };
    let whole = Rect { x: 0.0, y: 0.0, w: 1.0, h: 1.0 };
    root.update(whole, &eval);
    assert_eq!(Some(whole), root.get_rect());
    let rects: Vec<Rect<f32>> = root.children_scheduler().get_children().iter().map(|c| c.get_rect().unwrap()).collect();
    assert_eq!(
        vec![
            Rect { x: 1.0, y: 0.0, w: 0.0, h: 1.0 },
            Rect { x: 2.0, y: 0.0, w: 1.0, h: 1.0 },
            Rect { x: 4.0, y: 0.0, w: 2.0, h: 1.0 },
        ],
        rects
    );
}

#[test]
fn prev_denotes_the_last_older_sibling() {
    let siblings = vec![
        Rect { x: 1.0f32, y: 2.0, w: 3.0, h: 4.0 },
        Rect { x: 5.0f32, y: 6.0, w: 7.0, h: 8.0 },
    ];
    let target = siblings[RefView::Prev.resolve(siblings.len())];
    assert_eq!((5.0, 7.0), (target.x, target.w));
    let first = siblings[RefView::Id(0).resolve(siblings.len())];
    assert_eq!((2.0, 4.0), (first.y, first.h));
}

#[test]
fn attach_child_validates_against_older_siblings() {
    let mut root = View::new_root(0.0f32, 1.0);
    assert_eq!(Err(ValidateError::InvalidNew(ExtentValidateError::NoPrev)), root.attach_child(View::new(anchored(RefView::Prev)), 0));
    assert_eq!(Ok(()), root.attach_child(View::new(fixed()), 0));
    assert_eq!(Err(ValidateError::OutOfRange(2, 1)), root.attach_child(View::new(fixed()), 2));
    assert_eq!(Ok(()), root.attach_child(View::new(anchored(RefView::Prev)), 1));
    root.resolve_children();
    assert_eq!(2, root.children_scheduler().get_children().len());
}
