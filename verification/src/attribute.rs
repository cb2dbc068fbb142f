//! The closed set of presentation attributes a style can hold.

use crate::element::Element;
use vstd::prelude::*;

verus! {

/// Styling attributes.
#[derive(Clone, Copy, Debug, Hash, PartialEq, Eq, Structural)]
pub enum AttributeField {
    StrokeWidth,
    StrokeColor,
    FillColor,
}

impl AttributeField {
    /// The attribute name under which this field is written onto an element.
    pub open spec fn wire_name(self) -> Seq<char> {
        match self {
            AttributeField::StrokeWidth => "stroke-width"@,
            AttributeField::StrokeColor => "stroke"@,
            AttributeField::FillColor => "fill"@,
        }
    }

    /// The attribute name of this field.
    pub fn to_attribute_string(&self) -> (name: &'static str)
        ensures
            name@ == self.wire_name(),
    {
        match self {
            AttributeField::StrokeWidth => "stroke-width",
            AttributeField::StrokeColor => "stroke",
            AttributeField::FillColor => "fill",
        }
    }

    /// Writes `value` under this field's attribute name onto `element`:
    /// an attribute of that name has its value replaced where it stands,
    /// otherwise the attribute is added after the existing ones. Nothing
    /// else on the element changes.
    pub fn set_attribute(&self, element: &mut Element, value: &str)
        ensures
            final(element).tag() == old(element).tag(),
            final(element).attributes() == crate::entries::upsert(
                old(element).attributes(),
                self.wire_name(),
                value@,
            ),
    {
        element.set_attribute(self.to_attribute_string(), value);
    }
}

/// Distinct fields are written under distinct attribute names.
pub proof fn lemma_wire_names_distinct(a: AttributeField, b: AttributeField)
    ensures
        a.wire_name() == b.wire_name() <==> a == b,
{
    reveal_strlit("stroke-width");
    reveal_strlit("stroke");
    reveal_strlit("fill");
    assert("stroke-width"@.len() == 12);
    assert("stroke"@.len() == 6);
    assert("fill"@.len() == 4);
}

} // verus!
