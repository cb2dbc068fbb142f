//! The geometric primitives a shape can decorate, and how each becomes a
//! bare element at a translation offset.

use crate::decimal::{decimal, decimal_string};
use crate::element::Element;
use crate::entries::has_key;
use geom_2d::point::Point;
use vstd::prelude::*;
use vstd::string::StringExecFns;

verus! {

/// `geom_2d::point::Point`, a pair of `i32` coordinates with private
/// fields. Verus sees nothing inside it; `point_x` and `point_y` name its
/// coordinates.
#[verifier::external_type_specification]
#[verifier::external_body]
pub struct ExPoint(geom_2d::point::Point);

/// The first coordinate of a point: what `Point::x` returns.
pub uninterp spec fn point_x(p: Point) -> int;

/// The second coordinate of a point: what `Point::y` returns.
pub uninterp spec fn point_y(p: Point) -> int;

/// `Point::x` of geom_2d returns the point's first field. The contract
/// only names that value.
pub assume_specification[ Point::x ](p: &Point) -> (x: i32)
    ensures
        x == point_x(*p),
;

/// `Point::y` of geom_2d returns the point's second field. The contract
/// only names that value.
pub assume_specification[ Point::y ](p: &Point) -> (y: i32)
    ensures
        y == point_y(*p),
;

/// The value of a `transform` attribute that moves an element by `(x, y)`.
pub open spec fn translate_value(x: int, y: int) -> Seq<char> {
    "translate("@ + decimal(x) + ","@ + decimal(y) + ")"@
}

/// Builds the value of a `transform` attribute that moves an element by
/// `(x, y)`.
pub fn translate_string(x: i32, y: i32) -> (value: String)
    ensures
        value@ == translate_value(x as int, y as int),
{
    let horizontal = decimal_string(x as i64);
    let vertical = decimal_string(y as i64);
    let mut value = "translate(".to_owned();
    value.append(horizontal.as_str());
    value.append(",");
    value.append(vertical.as_str());
    value.append(")");
    value
}

/// A circle of a given radius.
#[derive(Clone, Copy, Debug, Hash)]
pub struct CircleProps {
    radius: u32,
}

impl CircleProps {
    /// The circle's radius.
    pub closed spec fn radius(self) -> int {
        self.radius as int
    }

    /// The attributes of the circle as a bare element centered at
    /// `(x, y)`: center and radius, in decimal.
    pub open spec fn attributes_at(self, x: int, y: int) -> Seq<(Seq<char>, Seq<char>)> {
        seq![("cx"@, decimal(x)), ("cy"@, decimal(y)), ("r"@, decimal(self.radius()))]
    }

    /// A circle of radius `radius`.
    pub fn new(radius: u32) -> (circle: CircleProps)
        ensures
            circle.radius() == radius,
    {
        CircleProps { radius }
    }

    /// The circle as a bare element, centered at `(x, y)`.
    pub fn element_at(&self, x: i32, y: i32) -> (element: Element)
        ensures
            element.tag() == "circle"@,
            element.attributes() == self.attributes_at(x as int, y as int),
    {
        let cx = decimal_string(x as i64);
        let cy = decimal_string(y as i64);
        let r = decimal_string(self.radius as i64);
        let mut element = Element::new("circle");
        element.set_attribute("cx", cx.as_str());
        element.set_attribute("cy", cy.as_str());
        element.set_attribute("r", r.as_str());
        proof {
            reveal_strlit("cx");
            reveal_strlit("cy");
            reveal_strlit("r");
            let none = Seq::<(Seq<char>, Seq<char>)>::empty();
            let one = none.push(("cx"@, cx@));
            let two = one.push(("cy"@, cy@));
            assert("cx"@[1] != "cy"@[1]);
            assert("cx"@.len() != "r"@.len());
            assert("cy"@.len() != "r"@.len());
            assert(!has_key(none, "cx"@));
            assert(!has_key(one, "cy"@));
            assert(!has_key(two, "r"@));
            assert(element.attributes() =~= self.attributes_at(x as int, y as int));
        }
        element
    }

    /// The circle as a bare element, centered at `translation`.
    pub fn to_element(&self, translation: Point) -> (element: Element)
        ensures
            element.tag() == "circle"@,
            element.attributes() == self.attributes_at(
                point_x(translation),
                point_y(translation),
            ),
    {
        self.element_at(translation.x(), translation.y())
    }
}

/// A path given by its drawing commands, relative to its own origin.
#[derive(Debug, Hash)]
pub struct PathProps {
    data: String,
}

impl PathProps {
    /// The path's drawing commands.
    pub closed spec fn data(self) -> Seq<char> {
        self.data@
    }

    /// The attributes of the path as a bare element moved by `(x, y)`: its
    /// drawing commands and the transform that moves it to its place.
    pub open spec fn attributes_at(self, x: int, y: int) -> Seq<(Seq<char>, Seq<char>)> {
        seq![("d"@, self.data()), ("transform"@, translate_value(x, y))]
    }

    /// A path with the drawing commands `data`.
    pub fn new(data: String) -> (path: PathProps)
        ensures
            path.data() == data@,
    {
        PathProps { data }
    }

    /// The path as a bare element, moved by `(x, y)`.
    pub fn element_at(&self, x: i32, y: i32) -> (element: Element)
        ensures
            element.tag() == "path"@,
            element.attributes() == self.attributes_at(x as int, y as int),
    {
        let transform = translate_string(x, y);
        let mut element = Element::new("path");
        element.set_attribute("d", self.data.as_str());
        element.set_attribute("transform", transform.as_str());
        proof {
            reveal_strlit("d");
            reveal_strlit("transform");
            let none = Seq::<(Seq<char>, Seq<char>)>::empty();
            let one = none.push(("d"@, self.data@));
            assert("d"@.len() != "transform"@.len());
            assert(!has_key(none, "d"@));
            assert(!has_key(one, "transform"@));
            assert(element.attributes() =~= self.attributes_at(x as int, y as int));
        }
        element
    }

    /// The path as a bare element, moved by `translation`.
    pub fn to_element(&self, translation: Point) -> (element: Element)
        ensures
            element.tag() == "path"@,
            element.attributes() == self.attributes_at(
                point_x(translation),
                point_y(translation),
            ),
    {
        self.element_at(translation.x(), translation.y())
    }
}

} // verus!
