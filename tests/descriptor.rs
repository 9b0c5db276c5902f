use views::extent::{
    AnchorPoint, ExtentLocate, ExtentStretch, ExtentUpdate, ExtentUpdateSingle, ExtentUpdateType,
    PositionType, RefView, SizeType,
};
use views::view::View;

#[test]
fn extent_update_validate() {
    let view_list: Vec<Box<View<f32>>> = Vec::new();
    let single_extent_success = ExtentUpdateSingle { extent_type: ExtentUpdateType::Stretch(ExtentStretch { pos1: PositionType::Fixed(0.0), pos2: PositionType::Fixed(0.0) }), scale_rel: 0.0, scale_abs: 0.0, offset_rel: 0.0, offset_abs: 0.0 };
    let single_extent_fail = ExtentUpdateSingle { extent_type: ExtentUpdateType::Locate(ExtentLocate {pos: PositionType::Fixed(0.0), size: SizeType::Relative(RefView::Prev)}), scale_rel: 0.0, scale_abs: 0.0, offset_rel: 0.0, offset_abs: 0.0 };

    assert!(ExtentUpdate { x: single_extent_success, y: single_extent_success }.validate(&view_list).is_ok());
    assert!(ExtentUpdate { x: single_extent_fail, y: single_extent_success }.validate(&view_list).is_err());
    assert!(ExtentUpdate { x: single_extent_success, y: single_extent_fail }.validate(&view_list).is_err());
    assert!(ExtentUpdate { x: single_extent_fail, y: single_extent_fail }.validate(&view_list).is_err());
}

#[test]
fn extent_update_single_validate() {
    let view_list: Vec<Box<View<f32>>> = Vec::new();

    assert!(ExtentUpdateSingle { extent_type: ExtentUpdateType::Stretch(ExtentStretch { pos1: PositionType::Fixed(0.0), pos2: PositionType::Fixed(0.0) }), scale_rel: 0.0, scale_abs: 0.0, offset_rel: 0.0, offset_abs: 0.0 }.validate(&view_list).is_ok());
    assert!(ExtentUpdateSingle { extent_type: ExtentUpdateType::Locate(ExtentLocate {pos: PositionType::Fixed(0.0), size: SizeType::Relative(RefView::Prev)}), scale_rel: 0.0, scale_abs: 0.0, offset_rel: 0.0, offset_abs: 0.0 }.validate(&view_list).is_err());
}

#[test]
fn extent_update_type_validate() {
    let view_list: Vec<Box<View<f32>>> = Vec::new();

    assert!(ExtentUpdateType::Stretch(ExtentStretch { pos1: PositionType::Fixed(0.0), pos2: PositionType::Fixed(0.0) }).validate(&view_list).is_ok());
    assert!(ExtentUpdateType::Stretch(ExtentStretch { pos1: PositionType::Anchor(AnchorPoint { ref_view: RefView::Prev, ref_point: 0.0 }), pos2: PositionType::Fixed(0.0) }).validate(&view_list).is_err());
    assert!(ExtentUpdateType::Locate(ExtentLocate {pos: PositionType::Fixed(0.0), size: SizeType::Fixed(0.0)}).validate(&view_list).is_ok());
    assert!(ExtentUpdateType::Locate(ExtentLocate {pos: PositionType::Fixed(0.0), size: SizeType::Relative(RefView::Prev)}).validate(&view_list).is_err());
}

#[test]
fn extent_locate_validate() {
    let view_list: Vec<Box<View<f32>>> = Vec::new();

    assert!(ExtentLocate {pos: PositionType::Fixed(0.0), size: SizeType::Fixed(0.0)}.validate(&view_list).is_ok());
    assert!(ExtentLocate {pos: PositionType::Anchor(AnchorPoint { ref_view: RefView::Prev, ref_point: 0.0 }), size: SizeType::Fixed(0.0)}.validate(&view_list).is_err());
    assert!(ExtentLocate {pos: PositionType::Fixed(0.0), size: SizeType::Relative(RefView::Prev)}.validate(&view_list).is_err());
    assert!(ExtentLocate {pos: PositionType::Anchor(AnchorPoint { ref_view: RefView::Prev, ref_point: 0.0 }), size: SizeType::Relative(RefView::Prev)}.validate(&view_list).is_err());
}

#[test]
fn size_type_validate() {
    let view_list: Vec<Box<View<f32>>> = Vec::new();

    assert!(SizeType::Stretch(ExtentStretch { pos1: PositionType::Fixed(0.0), pos2: PositionType::Fixed(0.0) }).validate(&view_list).is_ok());
    assert!(SizeType::Stretch(ExtentStretch { pos1: PositionType::Anchor(AnchorPoint { ref_view: RefView::Prev, ref_point: 0.0 }), pos2: PositionType::Fixed(0.0) }).validate(&view_list).is_err());
    assert!(SizeType::<f32>::Relative(RefView::Prev).validate(&view_list).is_err());
    assert!(SizeType::Fixed(0.0).validate(&view_list).is_ok());
}

#[test]
fn extent_stretch_validate() {
    let view_list: Vec<Box<View<f32>>> = Vec::new();

    assert!(ExtentStretch { pos1: PositionType::Fixed(0.0), pos2: PositionType::Fixed(0.0) }.validate(&view_list).is_ok());
    assert!(ExtentStretch { pos1: PositionType::Anchor(AnchorPoint { ref_view: RefView::Prev, ref_point: 0.0 }), pos2: PositionType::Fixed(0.0) }.validate(&view_list).is_err());
    assert!(ExtentStretch { pos1: PositionType::Fixed(0.0), pos2: PositionType::Anchor(AnchorPoint { ref_view: RefView::Prev, ref_point: 0.0 }) }.validate(&view_list).is_err());
    assert!(ExtentStretch { pos1: PositionType::Anchor(AnchorPoint { ref_view: RefView::Prev, ref_point: 0.0 }), pos2: PositionType::Anchor(AnchorPoint { ref_view: RefView::Prev, ref_point: 0.0 }) }.validate(&view_list).is_err());
}

#[test]
fn position_type_validate() {
    let view_list: Vec<Box<View<f32>>> = Vec::new();

    assert!(PositionType::Anchor(AnchorPoint { ref_view: RefView::Prev, ref_point: 0.0 }).validate(&view_list).is_err());
    assert!(PositionType::Fixed(0.0).validate(&view_list).is_ok());
}

#[test]
fn anchor_point_validate() {
    let mut view_list: Vec<Box<View<f32>>> = Vec::new();
    view_list.push(View::new_root(0.0, 1.0));

    assert!(AnchorPoint {ref_view: RefView::Id(0), ref_point: 0.0}.validate(&view_list).is_ok());
    assert!(AnchorPoint {ref_view: RefView::Id(1), ref_point: 0.0}.validate(&view_list).is_err());
}

#[test]
fn ref_view_validate() {
    let mut view_list: Vec<Box<View<f32>>> = Vec::new();
    let empty_view_list: Vec<Box<View<f32>>> = Vec::new();
    
    view_list.push(View::new_root(0.0, 1.0));
    view_list.push(View::new_root(0.0, 1.0));

    assert!(RefView::Prev.validate(&view_list).is_ok());
    assert!(RefView::Prev.validate(&empty_view_list).is_err());
    assert!(RefView::Id(1).validate(&view_list).is_ok());
    assert!(RefView::Id(2).validate(&view_list).is_err());
}

fn anchored_pair(first: RefView, second: RefView) -> ExtentUpdate<f32> {
    let stretch = ExtentStretch {
        pos1: PositionType::Anchor(AnchorPoint { ref_view: first, ref_point: 0.0 }),
        pos2: PositionType::Anchor(AnchorPoint { ref_view: second, ref_point: 1.0 }),
    };
    let single = ExtentUpdateSingle { extent_type: ExtentUpdateType::Stretch(stretch), scale_rel: 1.0, scale_abs: 0.0, offset_rel: 0.0, offset_abs: 0.0 };
    ExtentUpdate { x: single, y: single }
}

#[test]
fn update_insert_shifts_indices_from_position() {
    let mut update = anchored_pair(RefView::Id(1), RefView::Id(3));
    update.update_insert(2);
    assert_eq!(anchored_pair(RefView::Id(1), RefView::Id(4)), update);
    let mut prev = anchored_pair(RefView::Prev, RefView::Id(2));
    prev.update_insert(2);
    assert_eq!(anchored_pair(RefView::Prev, RefView::Id(3)), prev);
}

#[test]
fn update_delete_shifts_indices_after_position() {
    let mut update = anchored_pair(RefView::Id(1), RefView::Id(3));
    update.update_delete(2);
    assert_eq!(anchored_pair(RefView::Id(1), RefView::Id(2)), update);
    update.update_delete(1);
    assert_eq!(anchored_pair(RefView::Id(1), RefView::Id(1)), update);
}

#[test]
fn update_move_follows_the_moved_sibling() {
    // moved back: from 3 to 1, so 1 and 2 shift up
    let mut back = anchored_pair(RefView::Id(3), RefView::Id(1));
    back.update_move(3, 1);
    assert_eq!(anchored_pair(RefView::Id(1), RefView::Id(2)), back);
    // moved forward: from 1 to 3, so 2 and 3 shift down
    let mut forward = anchored_pair(RefView::Id(1), RefView::Id(3));
    forward.update_move(1, 3);
    assert_eq!(anchored_pair(RefView::Id(3), RefView::Id(2)), forward);
    let mut outside = anchored_pair(RefView::Id(0), RefView::Id(4));
    outside.update_move(1, 3);
    assert_eq!(anchored_pair(RefView::Id(0), RefView::Id(4)), outside);
}

#[test]
fn check_id_range_over_whole_description() {
    let update = anchored_pair(RefView::Prev, RefView::Id(3));
    assert!(update.check_id_range(2..4));
    assert!(!update.check_id_range(0..3));
    assert!(update.check_prev());
    assert!(update.check_id(3));
    assert!(!update.check_id(0));
}
