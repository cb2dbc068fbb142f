use std::collections::hash_map::DefaultHasher;
use std::hash::{Hash, Hasher};

use svg_shape::attribute::AttributeField;
use svg_shape::element::Element;
use svg_shape::style::ShapeStyle;

fn pairs(style: &ShapeStyle) -> Vec<(AttributeField, String)> {
    style.pairs()
}

fn attributes(element: &Element) -> Vec<(String, String)> {
    element.attribute_list()
}

fn hash_of<T: Hash>(value: &T) -> u64 {
    let mut hasher = DefaultHasher::new();
    value.hash(&mut hasher);
    hasher.finish()
}

#[test]
fn wire_names_are_fixed() {
    assert_eq!(AttributeField::StrokeWidth.to_attribute_string(), "stroke-width");
    assert_eq!(AttributeField::StrokeColor.to_attribute_string(), "stroke");
    assert_eq!(AttributeField::FillColor.to_attribute_string(), "fill");
}

#[test]
fn empty_style_has_no_pairs() {
    let style = ShapeStyle::new();
    assert_eq!(style.len(), 0);
    assert_eq!(style.get(AttributeField::StrokeWidth), None);
    assert_eq!(style.get(AttributeField::StrokeColor), None);
    assert_eq!(style.get(AttributeField::FillColor), None);
}

#[test]
fn default_style_has_three_pairs_in_order() {
    let style = ShapeStyle::new_from_default();
    assert_eq!(
        pairs(&style),
        vec![
            (AttributeField::StrokeWidth, "1".to_string()),
            (AttributeField::StrokeColor, "#000000".to_string()),
            (AttributeField::FillColor, "transparent".to_string()),
        ]
    );
}

#[test]
fn add_style_appends_new_field_at_end() {
    let mut style = ShapeStyle::new();
    style.add_style(AttributeField::FillColor, "blue".to_string());
    style.add_style(AttributeField::StrokeWidth, "4".to_string());
    assert_eq!(
        pairs(&style),
        vec![
            (AttributeField::FillColor, "blue".to_string()),
            (AttributeField::StrokeWidth, "4".to_string()),
        ]
    );
}

#[test]
fn add_style_replaces_in_place() {
    let mut style = ShapeStyle::new_from_default();
    style.add_style(AttributeField::StrokeColor, "red".to_string());
    assert_eq!(
        pairs(&style),
        vec![
            (AttributeField::StrokeWidth, "1".to_string()),
            (AttributeField::StrokeColor, "red".to_string()),
            (AttributeField::FillColor, "transparent".to_string()),
        ]
    );
}

#[test]
fn add_style_twice_keeps_position_and_takes_second_value() {
    let mut style = ShapeStyle::new();
    style.add_style(AttributeField::StrokeWidth, "1".to_string());
    style.add_style(AttributeField::FillColor, "green".to_string());
    let after_first = pairs(&style);
    style.add_style(AttributeField::FillColor, "yellow".to_string());
    let after_second = pairs(&style);
    assert_eq!(after_first.len(), after_second.len());
    assert_eq!(after_first[1].0, AttributeField::FillColor);
    assert_eq!(after_second[1], (AttributeField::FillColor, "yellow".to_string()));
    assert_eq!(after_second[0], after_first[0]);
    assert_eq!(style.get(AttributeField::FillColor), Some("yellow".to_string()));
}

#[test]
fn style_never_exceeds_three_pairs() {
    let fields = [
        AttributeField::StrokeColor,
        AttributeField::FillColor,
        AttributeField::StrokeColor,
        AttributeField::StrokeWidth,
        AttributeField::FillColor,
        AttributeField::StrokeWidth,
        AttributeField::StrokeWidth,
    ];
    let mut style = ShapeStyle::new();
    for round in 0..5 {
        for (i, field) in fields.iter().enumerate() {
            style.add_style(*field, format!("{}-{}", round, i));
            assert!(style.len() <= 3);
        }
    }
    assert_eq!(
        pairs(&style),
        vec![
            (AttributeField::StrokeColor, "4-2".to_string()),
            (AttributeField::FillColor, "4-4".to_string()),
            (AttributeField::StrokeWidth, "4-6".to_string()),
        ]
    );
}

#[test]
fn insertion_order_is_kept() {
    let mut a = ShapeStyle::new();
    a.add_style(AttributeField::StrokeWidth, "2".to_string());
    a.add_style(AttributeField::FillColor, "red".to_string());
    let mut b = ShapeStyle::new();
    b.add_style(AttributeField::FillColor, "red".to_string());
    b.add_style(AttributeField::StrokeWidth, "2".to_string());
    assert_ne!(pairs(&a), pairs(&b));
    assert_eq!(a.get(AttributeField::FillColor), b.get(AttributeField::FillColor));
    assert_eq!(a.get(AttributeField::StrokeWidth), b.get(AttributeField::StrokeWidth));
}

#[test]
fn clone_is_independent() {
    let mut base = ShapeStyle::new_from_default();
    let copy = base.clone();
    base.add_style(AttributeField::StrokeWidth, "9".to_string());
    assert_eq!(copy.get(AttributeField::StrokeWidth), Some("1".to_string()));
    assert_eq!(base.get(AttributeField::StrokeWidth), Some("9".to_string()));
    assert_eq!(copy.len(), 3);
}

#[test]
fn styles_built_alike_hash_alike() {
    let mut a = ShapeStyle::new();
    a.add_style(AttributeField::StrokeWidth, "2".to_string());
    a.add_style(AttributeField::FillColor, "red".to_string());
    let mut b = ShapeStyle::new();
    b.add_style(AttributeField::StrokeWidth, "2".to_string());
    b.add_style(AttributeField::FillColor, "red".to_string());
    assert_eq!(hash_of(&a), hash_of(&b));
    assert_eq!(hash_of(&a), hash_of(&a.clone()));
}

#[test]
fn element_set_and_get_attribute() {
    let mut element = Element::new("rect");
    assert_eq!(element.tag_name(), "rect");
    assert_eq!(element.attribute_count(), 0);
    assert_eq!(element.get_attribute("width"), None);
    element.set_attribute("width", "10");
    element.set_attribute("height", "20");
    element.set_attribute("width", "30");
    assert_eq!(
        attributes(&element),
        vec![
            ("width".to_string(), "30".to_string()),
            ("height".to_string(), "20".to_string()),
        ]
    );
    assert_eq!(element.get_attribute("width"), Some("30".to_string()));
    assert_eq!(element.get_attribute("height"), Some("20".to_string()));
    assert_eq!(element.get_attribute("depth"), None);
}

#[test]
fn field_set_attribute_writes_under_wire_name() {
    let mut element = Element::new("circle");
    AttributeField::StrokeColor.set_attribute(&mut element, "red");
    assert_eq!(element.get_attribute("stroke"), Some("red".to_string()));
    assert_eq!(element.attribute_count(), 1);
    AttributeField::StrokeColor.set_attribute(&mut element, "blue");
    assert_eq!(element.get_attribute("stroke"), Some("blue".to_string()));
    assert_eq!(element.attribute_count(), 1);
}

#[test]
fn defaults_on_fresh_circle_element() {
    let mut element = Element::new("circle");
    ShapeStyle::new_from_default().apply_style(&mut element);
    assert_eq!(
        attributes(&element),
        vec![
            ("stroke-width".to_string(), "1".to_string()),
            ("stroke".to_string(), "#000000".to_string()),
            ("fill".to_string(), "transparent".to_string()),
        ]
    );
}

#[test]
fn apply_style_keeps_other_attributes_and_overwrites_own() {
    let mut element = Element::new("circle");
    element.set_attribute("r", "5");
    element.set_attribute("fill", "old");
    let mut style = ShapeStyle::new();
    style.add_style(AttributeField::StrokeWidth, "3".to_string());
    style.add_style(AttributeField::FillColor, "new".to_string());
    style.apply_style(&mut element);
    assert_eq!(
        attributes(&element),
        vec![
            ("r".to_string(), "5".to_string()),
            ("fill".to_string(), "new".to_string()),
            ("stroke-width".to_string(), "3".to_string()),
        ]
    );
    assert_eq!(element.get_attribute("stroke"), None);
}

#[test]
fn empty_style_writes_nothing() {
    let mut element = Element::new("path");
    element.set_attribute("d", "M 0 0");
    ShapeStyle::new().apply_style(&mut element);
    assert_eq!(attributes(&element), vec![("d".to_string(), "M 0 0".to_string())]);
}
