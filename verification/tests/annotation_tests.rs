use libsurfer::annotation::{
    dragged_arrow, dragged_rectangle, group_field_message, rename_message, AnnotationListMessage,
};
use std::collections::HashMap;

use libsurfer::annotation::{
    Annotation, AnnotationData, AnnotationList, ArrowAnnotation, ArrowDisplayMode, ArrowHeadMode,
    RectAnnotation, WavePoint,
};
use libsurfer::bignum::SignedBigInt;
use libsurfer::wave::{DisplayedItemRef, WaveData};
use num::BigInt;

fn big(v: i64) -> SignedBigInt {
    SignedBigInt { bytes: BigInt::from(v).to_signed_bytes_le() }
}

fn point(time: i64, item: Option<usize>) -> WavePoint {
    WavePoint { time: big(time), attached_item: item.map(DisplayedItemRef) }
}

fn arrow(id: u64, num: i32) -> ArrowAnnotation {
    ArrowAnnotation::new(id, point(10, Some(1)), point(21, Some(2)), ArrowHeadMode::End, num)
}

fn waves(annotations: Vec<Annotation>, groups: &[&str]) -> WaveData {
    WaveData {
        displayed_items: HashMap::new(),
        annotations,
        annotation_groups: groups.iter().map(|g| g.to_string()).collect(),
    }
}

#[test]
fn annotation_data_new_is_visible_and_ungrouped() {
    let d = AnnotationData::new(4, "n".to_string());
    assert_eq!(d.id, 4);
    assert_eq!(d.name, "n");
    assert_eq!(d.group_name, None);
    assert!(d.visible);
}

#[test]
fn new_arrow_is_named_and_drawn_in_full() {
    let a = arrow(1, 3);
    assert_eq!(a.annotation_data.name, "Arrow 3");
    assert_eq!(a.display_mode, ArrowDisplayMode::FullArrow);
    assert_eq!(a.head_mode, ArrowHeadMode::End);
    assert!(a.annotation_data.visible);
    assert_eq!(a.from.time, big(10));
    assert_eq!(a.to.attached_item, Some(DisplayedItemRef(2)));
    let b = ArrowAnnotation::new(2, point(0, None), point(0, None), ArrowHeadMode::Double, -4);
    assert_eq!(b.annotation_data.name, "Arrow -4");
}

#[test]
fn arrow_time_is_midpoint_rounded_toward_zero() {
    assert_eq!(arrow(1, 1).get_time_at_start(), big(15));
    let a = ArrowAnnotation::new(1, point(-5, None), point(2, None), ArrowHeadMode::End, 1);
    assert_eq!(a.get_time_at_start(), big(-1));
    let b = ArrowAnnotation::new(1, point(i64::MAX, None), point(i64::MAX, None), ArrowHeadMode::End, 1);
    assert_eq!(b.get_time_at_start(), big(i64::MAX));
    let huge: BigInt = BigInt::from(1) << 70usize;
    let c = ArrowAnnotation::new(
        1,
        WavePoint { time: SignedBigInt { bytes: huge.to_signed_bytes_le() }, attached_item: None },
        point(0, None),
        ArrowHeadMode::End,
        1,
    );
    let half: BigInt = BigInt::from(1) << 69usize;
    assert_eq!(c.get_time_at_start(), SignedBigInt { bytes: half.to_signed_bytes_le() });
    let d = ArrowAnnotation::new(1, point(-7, None), point(-8, None), ArrowHeadMode::End, 1);
    assert_eq!(d.get_time_at_start(), big(-7));
}

#[test]
fn toggle_arrow_visibility_switches_and_returns() {
    let mut a = arrow(1, 1);
    a.toggle_arrow_visibility();
    assert_eq!(a.display_mode, ArrowDisplayMode::Dot);
    assert!(!a.annotation_data.visible);
    a.toggle_arrow_visibility();
    assert_eq!(a.display_mode, ArrowDisplayMode::FullArrow);
    assert!(a.annotation_data.visible);
}

#[test]
fn hide_show_and_set_visibility() {
    let mut a = arrow(1, 1);
    a.hide_arrow();
    assert_eq!(a.display_mode, ArrowDisplayMode::Dot);
    assert!(a.annotation_data.visible);
    a.show();
    assert_eq!(a.display_mode, ArrowDisplayMode::FullArrow);
    a.set_visibility(false);
    assert_eq!(a.display_mode, ArrowDisplayMode::Dot);
    assert!(!a.annotation_data.visible);
    a.set_visibility(true);
    assert_eq!(a.display_mode, ArrowDisplayMode::FullArrow);
    assert!(a.annotation_data.visible);
}

#[test]
fn arrow_is_attached_to_its_target() {
    let a = arrow(1, 1);
    assert!(a.is_attached(&DisplayedItemRef(2)));
    assert!(!a.is_attached(&DisplayedItemRef(1)));
}

#[test]
fn rectangle_basics() {
    let r = RectAnnotation::new(7, big(10), big(30), Some(DisplayedItemRef(1)), None, 2);
    assert_eq!(r.annotation_data.name, "Rectangle 2");
    assert_eq!(r.get_id(), 7);
    assert_eq!(r.get_time_at_start(), big(20));
    assert_eq!(r.get_time_at_end(), big(30));
    assert!(r.is_attached(&DisplayedItemRef(1)));
    assert!(!r.is_attached(&DisplayedItemRef(2)));
    let r2 = RectAnnotation::new(8, big(0), big(5), None, Some(DisplayedItemRef(2)), 3);
    assert!(r2.is_attached(&DisplayedItemRef(2)));
    assert_eq!(r2.get_time_at_start(), big(2));
}

#[test]
fn annotation_accessors() {
    let mut a = Annotation::Arrow(arrow(5, 1));
    let mut r = Annotation::Rect(RectAnnotation::new(6, big(0), big(10), None, None, 1));
    assert_eq!(a.get_id(), 5);
    assert_eq!(r.get_id(), 6);
    assert_eq!(a.get_type(), "Arrow");
    assert_eq!(r.get_type(), "Rectangle");
    a.set_name("first".to_string());
    assert_eq!(a.get_name(), "first");
    r.set_group_name(Some("g".to_string()));
    assert_eq!(r.get_group_name(), Some("g".to_string()));
    assert_eq!(a.get_group_name(), None);
    r.set_visibility(false);
    assert!(!r.is_visible());
    a.set_visibility(false);
    assert!(!a.is_visible());
    assert!(matches!(&a, Annotation::Arrow(x) if x.display_mode == ArrowDisplayMode::Dot));
    assert_eq!(a.get_time_at_start(), big(15));
    assert_eq!(r.get_time_at_start(), big(5));
    assert!(a.is_attached(&DisplayedItemRef(2)));
    assert!(!r.is_attached(&DisplayedItemRef(2)));
}

#[test]
fn delete_annotation_removes_every_match() {
    let mut w = waves(
        vec![
            Annotation::Arrow(arrow(1, 1)),
            Annotation::Rect(RectAnnotation::new(2, big(0), big(1), None, None, 1)),
            Annotation::Rect(RectAnnotation::new(1, big(0), big(1), None, None, 2)),
            Annotation::Arrow(arrow(3, 2)),
        ],
        &[],
    );
    w.delete_annotation(1);
    let ids: Vec<u64> = w.annotations.iter().map(|a| a.get_id()).collect();
    assert_eq!(ids, vec![2, 3]);
    w.delete_annotation(1);
    assert_eq!(w.annotations.len(), 2);
    w.delete_annotation(42);
    assert_eq!(w.annotations.len(), 2);
}

fn grouped(id: u64, group: Option<&str>, visible: bool) -> Annotation {
    let mut a = Annotation::Rect(RectAnnotation::new(id, big(0), big(1), None, None, 1));
    a.set_group_name(group.map(|g| g.to_string()));
    a.set_visibility(visible);
    a
}

#[test]
fn sorted_group_names_are_unique_and_sorted() {
    let w = waves(vec![], &["b", "a", "b", "C"]);
    assert_eq!(w.sorted_group_names(), vec!["C".to_string(), "a".to_string(), "b".to_string()]);
}

#[test]
fn group_sections_of_annotation_list() {
    let w = waves(
        vec![grouped(1, Some("a"), true), grouped(2, None, false), grouped(3, Some("b"), false), grouped(4, Some("a"), false)],
        &["b", "a", "b"],
    );
    let a = w.group_section(&Some("a".to_string())).unwrap();
    assert_eq!(a.display_name, "a");
    assert_eq!(a.items, vec![0, 3]);
    assert!(a.any_visible);
    let none = w.group_section(&None).unwrap();
    assert_eq!(none.display_name, "Ungrouped");
    assert_eq!(none.items, vec![1]);
    assert!(!none.any_visible);

    let sections = w.annotation_group_sections();
    let names: Vec<&str> = sections.iter().map(|s| s.display_name.as_str()).collect();
    assert_eq!(names, vec!["a", "b", "Ungrouped"]);
    assert_eq!(sections[1].items, vec![2]);
    assert!(!sections[1].any_visible);
    assert_eq!(sections[1].group, Some("b".to_string()));
    assert_eq!(sections[2].group, None);
}

#[test]
fn empty_groups_are_listed_and_ungrouped_left_out() {
    let w = waves(vec![grouped(1, Some("a"), true)], &["a", "empty"]);
    assert!(w.group_section(&None).is_none());
    let sections = w.annotation_group_sections();
    assert_eq!(sections.len(), 2);
    assert_eq!(sections[1].display_name, "empty");
    assert!(sections[1].items.is_empty());
}

#[test]
fn annotation_list_default() {
    let _list: AnnotationList = AnnotationList::default();
}

#[test]
fn group_field_messages() {
    assert!(group_field_message("", false).is_none());
    assert!(matches!(
        group_field_message("  team ", false),
        Some(AnnotationListMessage::CreateAnnotationGroup(g)) if g == "team"
    ));
    assert!(matches!(
        group_field_message("team", true),
        Some(AnnotationListMessage::DeleteAnnotationGroup(g)) if g == "team"
    ));
    assert!(matches!(
        group_field_message("   ", false),
        Some(AnnotationListMessage::CreateAnnotationGroup(g)) if g.is_empty()
    ));
}

#[test]
fn rename_trims_name() {
    assert!(matches!(
        rename_message(9, " new name\t"),
        AnnotationListMessage::UpdateAnnotationName(9, n) if n == "new name"
    ));
}

#[test]
fn section_heading_and_buttons() {
    let w = waves(
        vec![grouped(1, Some("a"), true), grouped(2, None, false), grouped(3, Some("a"), false)],
        &["a"],
    );
    let a = w.group_section(&Some("a".to_string())).unwrap();
    assert_eq!(a.heading(), "a (2)");
    assert!(matches!(
        a.delete_all_message(),
        Some(AnnotationListMessage::DeleteAllAnnotationInGroup(g)) if g == "a"
    ));
    assert!(matches!(
        a.toggle_visibility_message(),
        AnnotationListMessage::SetGroupVisibility(Some(g), false) if g == "a"
    ));
    let none = w.group_section(&None).unwrap();
    assert_eq!(none.heading(), "Ungrouped (1)");
    assert!(none.delete_all_message().is_none());
    assert!(matches!(
        none.toggle_visibility_message(),
        AnnotationListMessage::SetGroupVisibility(None, true)
    ));
}

#[test]
fn dragged_rectangle_orders_times() {
    let r = dragged_rectangle(big(30), Some(DisplayedItemRef(1)), big(10), Some(DisplayedItemRef(2)));
    assert_eq!(r.time_at_start, big(10));
    assert_eq!(r.time_at_end, big(30));
    assert_eq!(r.wave_from, Some(DisplayedItemRef(2)));
    assert_eq!(r.wave_to, Some(DisplayedItemRef(1)));
    let s = dragged_rectangle(big(-3), None, big(4), Some(DisplayedItemRef(5)));
    assert_eq!(s.time_at_start, big(-3));
    assert_eq!(s.wave_to, Some(DisplayedItemRef(5)));
    let t = dragged_rectangle(big(7), Some(DisplayedItemRef(1)), big(7), None);
    assert_eq!(t.wave_from, None);
}

#[test]
fn dragged_arrow_needs_a_target() {
    assert!(dragged_arrow(point(0, Some(1)), point(5, None), false).is_none());
    let (from, to, head) = dragged_arrow(point(0, None), point(5, Some(3)), true).unwrap();
    assert_eq!(from.time, big(0));
    assert_eq!(to.attached_item, Some(DisplayedItemRef(3)));
    assert_eq!(head, ArrowHeadMode::Double);
    let (_, _, single) = dragged_arrow(point(0, None), point(5, Some(3)), false).unwrap();
    assert_eq!(single, ArrowHeadMode::End);
}
