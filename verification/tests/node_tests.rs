use html_table::Rgba;
use html_table::HTMLTableElementLayoutHelpers;
use html_table::attrcache::{AttrName, AttrValue};
use html_table::dimension::LengthOrPercentageOrAuto;
use html_table::node::{Child, ChildKind, HTMLTableElement};

fn caption_count(t: &HTMLTableElement) -> usize {
    let mut count = 0;
    let mut i = 0;
    while i < t.child_count() {
        if t.child_at(i).kind == ChildKind::Caption {
            count += 1;
        }
        i += 1;
    }
    count
}

#[test]
fn fresh_node_is_empty() {
    let t = HTMLTableElement::new();
    assert_eq!(t.child_count(), 0);
    assert_eq!(t.GetCaption(), None);
    assert_eq!(t.get_border(), None);
    assert_eq!(t.get_background_color(), None);
    assert_eq!(t.get_cellspacing(), None);
    assert!(matches!(t.get_width(), LengthOrPercentageOrAuto::Auto));
    assert_eq!(t.BgColor(), String::new());
    assert_eq!(t.Width(), String::new());
}

#[test]
fn set_caption_then_get() {
    let mut t = HTMLTableElement::new();
    t.append_child(ChildKind::Other);
    let c = t.CreateCaption();
    t.SetCaption(Some(c));
    assert_eq!(t.GetCaption(), Some(c));
    assert_eq!(t.child_at(0), c);
    t.SetCaption(None);
    assert_eq!(t.GetCaption(), None);
}

#[test]
fn create_caption_is_idempotent() {
    let mut t = HTMLTableElement::new();
    t.append_child(ChildKind::Other);
    let c1 = t.CreateCaption();
    let c2 = t.CreateCaption();
    assert_eq!(c1, c2);
    assert_eq!(t.child_at(0), c1);
    assert_eq!(t.child_count(), 2);
}

#[test]
fn delete_caption_removes_and_tolerates_absence() {
    let mut t = HTMLTableElement::new();
    let c = t.CreateCaption();
    assert_eq!(t.GetCaption(), Some(c));
    t.DeleteCaption();
    assert_eq!(t.GetCaption(), None);
    t.DeleteCaption();
    assert_eq!(t.GetCaption(), None);
    assert_eq!(t.child_count(), 0);
}

#[test]
fn three_tbodies_append_in_call_order() {
    let mut t = HTMLTableElement::new();
    let o = t.append_child(ChildKind::Other);
    let b1 = t.CreateTBody();
    let b2 = t.CreateTBody();
    let b3 = t.CreateTBody();
    assert_eq!(t.child_count(), 4);
    assert_eq!(t.child_at(0), o);
    assert_eq!(t.child_at(1), b1);
    assert_eq!(t.child_at(2), b2);
    assert_eq!(t.child_at(3), b3);
    assert_ne!(b1.id, b2.id);
    assert_ne!(b2.id, b3.id);
}

#[test]
fn tbody_inserts_after_section_run_not_at_end() {
    let mut t = HTMLTableElement::new();
    let b1 = t.CreateTBody();
    let o = t.append_child(ChildKind::Other);
    let b2 = t.CreateTBody();
    assert_eq!(t.child_count(), 3);
    assert_eq!(t.child_at(0), b1);
    assert_eq!(t.child_at(1), b2);
    assert_eq!(t.child_at(2), o);
}

#[test]
fn caption_singleton_over_mixed_sequences() {
    let mut t = HTMLTableElement::new();
    t.append_child(ChildKind::Other);
    let c1 = t.CreateCaption();
    assert_eq!(caption_count(&t), 1);
    let c2 = Child { id: c1.id, kind: ChildKind::Caption };
    t.SetCaption(Some(c2));
    assert_eq!(caption_count(&t), 1);
    t.CreateTBody();
    t.CreateCaption();
    assert_eq!(caption_count(&t), 1);
    t.DeleteCaption();
    assert_eq!(caption_count(&t), 0);
    t.CreateCaption();
    t.SetCaption(None);
    assert_eq!(caption_count(&t), 0);
}

#[test]
fn border_cache_follows_attribute() {
    let mut t = HTMLTableElement::new();
    t.set_attribute(AttrName::Border, String::from("xyz"));
    assert_eq!(t.get_border(), Some(1));
    t.set_attribute(AttrName::Border, String::from("12"));
    assert_eq!(t.get_border(), Some(12));
    assert_eq!(HTMLTableElementLayoutHelpers::get_border(&t), Some(12));
    t.remove_attribute(AttrName::Border);
    assert_eq!(t.get_border(), None);
}

#[test]
fn cellspacing_cache_follows_attribute() {
    let mut t = HTMLTableElement::new();
    t.set_attribute(AttrName::CellSpacing, String::from("5"));
    assert_eq!(t.get_cellspacing(), Some(5));
    t.set_attribute(AttrName::CellSpacing, String::from("abc"));
    assert_eq!(t.get_cellspacing(), None);
    t.set_attribute(AttrName::CellSpacing, String::from("9"));
    t.remove_attribute(AttrName::CellSpacing);
    assert_eq!(t.get_cellspacing(), None);
}

#[test]
fn background_color_cache_follows_attribute() {
    let mut t = HTMLTableElement::new();
    t.SetBgColor(String::from("lime"));
    assert_eq!(t.get_background_color(), Some(Rgba::new(0, 255, 0)));
    assert_eq!(t.BgColor(), "lime");
    t.SetBgColor(String::from("notacolor"));
    assert_eq!(t.get_background_color(), None);
    assert_eq!(t.BgColor(), "notacolor");
    t.set_attribute(AttrName::BgColor, String::from("#00ac00"));
    assert_eq!(t.get_background_color(), Some(Rgba::new(0, 172, 0)));
    t.remove_attribute(AttrName::BgColor);
    assert_eq!(t.get_background_color(), None);
}

#[test]
fn width_is_stored_as_nonzero_dimension() {
    let mut t = HTMLTableElement::new();
    t.SetWidth(String::from("50%"));
    match t.get_width() {
        LengthOrPercentageOrAuto::Percentage(p) => assert_eq!(p, "50"),
        _ => panic!("expected a percentage"),
    }
    t.SetWidth(String::from("  +12.5px"));
    match t.get_width() {
        LengthOrPercentageOrAuto::Length(p) => assert_eq!(p, "12.5"),
        _ => panic!("expected a length"),
    }
    assert_eq!(t.Width(), "  +12.5px");
    t.SetWidth(String::from("0"));
    assert!(matches!(t.get_width(), LengthOrPercentageOrAuto::Auto));
    t.SetWidth(String::from("junk"));
    assert!(matches!(t.get_width(), LengthOrPercentageOrAuto::Auto));
}

#[test]
fn parse_hook_materializes_typed_values() {
    let t = HTMLTableElement::new();
    match t.parse_plain_attribute(AttrName::Border, String::from("oops")) {
        AttrValue::UInt(raw, n) => {
            assert_eq!(raw, "oops");
            assert_eq!(n, 1);
        },
        _ => panic!("expected a typed integer"),
    }
    match t.parse_plain_attribute(AttrName::Width, String::from("30%")) {
        AttrValue::Dimension(raw, d) => {
            assert_eq!(raw, "30%");
            assert!(matches!(d, LengthOrPercentageOrAuto::Percentage(_)));
        },
        _ => panic!("expected a typed dimension"),
    }
    match t.parse_plain_attribute(AttrName::BgColor, String::from("red")) {
        AttrValue::Str(raw) => assert_eq!(raw, "red"),
        _ => panic!("expected a plain string"),
    }
}

#[test]
fn structural_ops_leave_attributes_alone() {
    let mut t = HTMLTableElement::new();
    t.SetBgColor(String::from("red"));
    t.set_attribute(AttrName::Border, String::from("3"));
    t.CreateCaption();
    t.CreateTBody();
    t.DeleteCaption();
    assert_eq!(t.get_background_color(), Some(Rgba::new(255, 0, 0)));
    assert_eq!(t.get_border(), Some(3));
}
