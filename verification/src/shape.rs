//! A shape: one geometric primitive decorated with one style.

use crate::attribute::AttributeField;
use crate::element::Element;
use crate::entries::{has_key, lookup, unique_keys};
use crate::geometry::{point_x, point_y, CircleProps, PathProps};
use crate::style::{applied, lemma_applied_keeps_others, lemma_applied_reads_back, ShapeStyle};
use geom_2d::point::Point;
use vstd::prelude::*;

verus! {

/// Different kind of shapes.
#[derive(Debug, Hash)]
pub enum SubShape {
    Path(PathProps),
    Circle(CircleProps),
}

impl SubShape {
    /// The tag of the element this geometry becomes.
    pub open spec fn tag(self) -> Seq<char> {
        match self {
            SubShape::Path(_) => "path"@,
            SubShape::Circle(_) => "circle"@,
        }
    }

    /// The attributes of the bare element this geometry becomes at the
    /// offset `(x, y)`.
    pub open spec fn attributes_at(self, x: int, y: int) -> Seq<(Seq<char>, Seq<char>)> {
        match self {
            SubShape::Path(props) => props.attributes_at(x, y),
            SubShape::Circle(props) => props.attributes_at(x, y),
        }
    }

    /// The geometry as a bare element at `translation`, which is handed to
    /// the variant unchanged.
    pub fn to_element(&self, translation: Point) -> (element: Element)
        ensures
            element.tag() == self.tag(),
            element.attributes() == self.attributes_at(
                point_x(translation),
                point_y(translation),
            ),
    {
        match self {
            SubShape::Path(props) => props.to_element(translation),
            SubShape::Circle(props) => props.to_element(translation),
        }
    }
}

/// Shape used by a figure.
#[derive(Debug, Hash)]
pub struct Shape {
    style: ShapeStyle,
    subshape: SubShape,
}

impl Shape {
    /// The style the shape was made with.
    pub closed spec fn style(self) -> ShapeStyle {
        self.style
    }

    /// The geometry the shape was made with.
    pub closed spec fn subshape(self) -> SubShape {
        self.subshape
    }

    /// Create new shape.
    pub fn new(style: ShapeStyle, subshape: SubShape) -> (shape: Shape)
        ensures
            shape.style() == style,
            shape.subshape() == subshape,
    {
        Shape { style, subshape }
    }

    /// The shape as an element at `translation`: the geometry's bare
    /// element, with the pairs of the style written onto it in stored
    /// order. The shape itself does not change.
    pub fn to_styled_element(&self, translation: Point) -> (element: Element)
        ensures
            element.tag() == self.subshape().tag(),
            element.attributes() == applied(
                self.style()@,
                self.subshape().attributes_at(point_x(translation), point_y(translation)),
            ),
            forall|field: AttributeField|
                element.attribute(#[trigger] field.wire_name()) == self.style().value_of(field),
    {
        let mut element = self.subshape.to_element(translation);
        self.style.apply_style(&mut element);
        proof {
            use_type_invariant(&self.style);
            assert forall|field: AttributeField|
                element.attribute(#[trigger] field.wire_name()) == self.style().value_of(
                    field,
                ) by {
                lemma_styled_reads_back(
                    self.style@,
                    self.subshape,
                    point_x(translation),
                    point_y(translation),
                    field,
                );
            }
        }
        element
    }
}

/// The bare element of a geometry has each attribute name once and carries
/// no presentation attribute.
pub proof fn lemma_bare_element_unstyled(subshape: SubShape, x: int, y: int, field: AttributeField)
    ensures
        unique_keys(subshape.attributes_at(x, y)),
        !has_key(subshape.attributes_at(x, y), field.wire_name()),
{
    reveal_strlit("stroke-width");
    reveal_strlit("stroke");
    reveal_strlit("fill");
    reveal_strlit("cx");
    reveal_strlit("cy");
    reveal_strlit("r");
    reveal_strlit("d");
    reveal_strlit("transform");
    assert("cx"@[1] != "cy"@[1]);
    assert(field.wire_name().len() == 12 || field.wire_name().len() == 6 || field.wire_name().len()
        == 4);
    assert("cx"@.len() == 2 && "cy"@.len() == 2 && "r"@.len() == 1 && "d"@.len() == 1
        && "transform"@.len() == 9);
}

/// Read back from a rendered shape, the attribute of every field is what
/// the style holds for it: the style's value where the field is present,
/// and no attribute at all where it is absent.
pub proof fn lemma_styled_reads_back(
    style: Seq<(AttributeField, Seq<char>)>,
    subshape: SubShape,
    x: int,
    y: int,
    field: AttributeField,
)
    requires
        unique_keys(style),
    ensures
        lookup(applied(style, subshape.attributes_at(x, y)), field.wire_name()) == lookup(
            style,
            field,
        ),
{
    let bare = subshape.attributes_at(x, y);
    lemma_bare_element_unstyled(subshape, x, y, field);
    if has_key(style, field) {
        lemma_applied_reads_back(style, bare, field);
    } else {
        assert forall|other: AttributeField|
            other.wire_name() == field.wire_name() implies !has_key(style, other) by {
            crate::attribute::lemma_wire_names_distinct(other, field);
        }
        lemma_applied_keeps_others(style, bare, field.wire_name());
    }
}

} // verus!
