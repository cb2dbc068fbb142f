//! The style of a shape: an ordered list of presentation attributes in
//! which each field occurs at most once.

use crate::attribute::{lemma_wire_names_distinct, AttributeField};
use crate::decimal::{decimal, decimal_string};
use crate::element::Element;
use crate::entries::{
    has_key, index_of, lemma_index_of_unique, lemma_upsert_all_lookup, lemma_upsert_all_unique,
    lemma_upsert_shape, lookup, unique_keys, upsert, upsert_all,
};
use vstd::prelude::*;

verus! {

/// The stroke width of the default style.
pub const DEFAULT_STROKE_WIDTH: u32 = 1;

/// The stroke color of the default style: opaque black.
pub const DEFAULT_STROKE_COLOR: &'static str = "#000000";

/// The fill color of the default style: no paint.
pub const DEFAULT_FILL_COLOR: &'static str = "transparent";

/// The stroke width of the default style, as text.
pub open spec fn default_stroke_width() -> Seq<char> {
    "1"@
}

/// The stroke color of the default style: opaque black.
pub open spec fn default_stroke_color() -> Seq<char> {
    "#000000"@
}

/// The fill color of the default style: no paint.
pub open spec fn default_fill_color() -> Seq<char> {
    "transparent"@
}

/// The pairs of a style as the attribute writes they stand for: each
/// field replaced by its attribute name.
pub open spec fn wire_pairs(style: Seq<(AttributeField, Seq<char>)>) -> Seq<
    (Seq<char>, Seq<char>),
> {
    style.map_values(|p: (AttributeField, Seq<char>)| (p.0.wire_name(), p.1))
}

/// What an element's attributes are after the pairs of `style` were
/// written onto `attributes` one by one, first pair first, each under the
/// attribute name of its field.
pub open spec fn applied(
    style: Seq<(AttributeField, Seq<char>)>,
    attributes: Seq<(Seq<char>, Seq<char>)>,
) -> Seq<(Seq<char>, Seq<char>)> {
    upsert_all(attributes, wire_pairs(style))
}

/// Style of shape.
#[derive(Debug, Hash)]
pub struct ShapeStyle {
    attributes: Vec<(AttributeField, String)>,
}

impl View for ShapeStyle {
    type V = Seq<(AttributeField, Seq<char>)>;

    closed spec fn view(&self) -> Seq<(AttributeField, Seq<char>)> {
        self.attributes@.map_values(|p: (AttributeField, String)| (p.0, p.1@))
    }
}

impl ShapeStyle {
    /// No field occurs twice.
    #[verifier::type_invariant]
    pub open spec fn wf(self) -> bool {
        unique_keys(self@)
    }

    /// The value the style holds for `field`, if any.
    pub open spec fn value_of(self, field: AttributeField) -> Option<Seq<char>> {
        lookup(self@, field)
    }

    /// Default style (black stroke, 1 stroke width, transparent fill).
    pub fn new_from_default() -> (style: ShapeStyle)
        ensures
            unique_keys(style@),
            style@ == seq![
                (AttributeField::StrokeWidth, default_stroke_width()),
                (AttributeField::StrokeColor, default_stroke_color()),
                (AttributeField::FillColor, default_fill_color()),
            ],
    {
        let mut attributes: Vec<(AttributeField, String)> = Vec::new();
        let width = decimal_string(DEFAULT_STROKE_WIDTH as i64);
        assert(width@ == default_stroke_width()) by {
            assert(decimal(1) == crate::decimal::decimal_nat(1));
        }
        attributes.push((AttributeField::StrokeWidth, width));
        attributes.push((AttributeField::StrokeColor, DEFAULT_STROKE_COLOR.to_owned()));
        attributes.push((AttributeField::FillColor, DEFAULT_FILL_COLOR.to_owned()));
        let style = ShapeStyle { attributes };
        assert(style@ =~= seq![
            (AttributeField::StrokeWidth, default_stroke_width()),
            (AttributeField::StrokeColor, default_stroke_color()),
            (AttributeField::FillColor, default_fill_color()),
        ]);
        style
    }

    /// Empty style.
    pub fn new() -> (style: ShapeStyle)
        ensures
            unique_keys(style@),
            style@ == Seq::<(AttributeField, Seq<char>)>::empty(),
    {
        let style = ShapeStyle { attributes: Vec::new() };
        assert(style@ =~= Seq::<(AttributeField, Seq<char>)>::empty());
        style
    }

    /// The position of `field` in the style, if the style holds it.
    fn find(&self, field: AttributeField) -> (found: Option<usize>)
        ensures
            match found {
                Some(i) => has_key(self@, field) && i == index_of(self@, field) && i
                    < self.attributes@.len(),
                None => !has_key(self@, field),
            },
    {
        proof {
            use_type_invariant(self);
        }
        let mut i: usize = 0;
        while i < self.attributes.len()
            invariant
                unique_keys(self@),
                i <= self.attributes@.len(),
                self@.len() == self.attributes@.len(),
                forall|j: int| 0 <= j < i ==> (#[trigger] self@[j]).0 != field,
            decreases self.attributes@.len() - i,
        {
            assert(self@[i as int].0 == self.attributes@[i as int].0);
            if self.attributes[i].0 == field {
                proof {
                    lemma_index_of_unique(self@, field, i as int);
                }
                return Some(i);
            }
            i += 1;
        }
        None
    }

    /// Adds/Adjusts a style attribute: where the style holds `attribute`,
    /// its value is replaced at its position; otherwise the pair is
    /// appended. The style never holds more than one pair per field, hence
    /// never more than three.
    pub fn add_style(&mut self, attribute: AttributeField, value: String)
        ensures
            unique_keys(final(self)@),
            final(self)@ == upsert(old(self)@, attribute, value@),
            final(self)@.len() <= 3,
    {
        proof {
            use_type_invariant(&*self);
            lemma_upsert_shape(self@, attribute, value@);
        }
        let found = self.find(attribute);
        // The list is taken out while it changes, so that the style holds
        // a well-formed list at every step.
        let mut attributes: Vec<(AttributeField, String)> = Vec::new();
        assert(attributes@.map_values(|p: (AttributeField, String)| (p.0, p.1@)) =~= Seq::<
            (AttributeField, Seq<char>),
        >::empty());
        core::mem::swap(&mut self.attributes, &mut attributes);
        match found {
            Some(i) => {
                attributes.set(i, (attribute, value));
            },
            None => {
                attributes.push((attribute, value));
            },
        }
        assert(attributes@.map_values(|p: (AttributeField, String)| (p.0, p.1@)) =~= upsert(
            old(self)@,
            attribute,
            value@,
        ));
        core::mem::swap(&mut self.attributes, &mut attributes);
        proof {
            lemma_at_most_three(self@);
        }
    }

    /// The number of pairs in the style.
    pub fn len(&self) -> (n: usize)
        ensures
            n == self@.len(),
    {
        self.attributes.len()
    }

    /// The value the style holds for `field`, or `None` if it holds none.
    pub fn get(&self, field: AttributeField) -> (value: Option<String>)
        ensures
            value.is_some() == self.value_of(field).is_some(),
            value.is_some() ==> value.unwrap()@ == self.value_of(field).unwrap(),
    {
        match self.find(field) {
            Some(i) => Some(self.attributes[i].1.clone()),
            None => None,
        }
    }

    /// The pairs of the style as a list, in stored order.
    pub fn pairs(&self) -> (list: Vec<(AttributeField, String)>)
        ensures
            list@.map_values(|p: (AttributeField, String)| (p.0, p.1@)) == self@,
    {
        let copy = self.clone();
        copy.attributes
    }

    /// Writes the pairs of the style onto `element`, in stored order.
    pub fn apply_style(&self, element: &mut Element)
        ensures
            final(element).tag() == old(element).tag(),
            final(element).attributes() == applied(self@, old(element).attributes()),
            forall|name: Seq<char>|
                (forall|field: AttributeField| field.wire_name() == name ==> !has_key(self@, field))
                    ==> final(element).attribute(name) == old(element).attribute(name),
            forall|field: AttributeField|
                has_key(self@, field) ==> final(element).attribute(field.wire_name())
                    == self.value_of(field),
    {
        proof {
            use_type_invariant(&*element);
        }
        let mut i: usize = 0;
        assert(wire_pairs(self@.take(0)) =~= Seq::<(Seq<char>, Seq<char>)>::empty());
        while i < self.attributes.len()
            invariant
                i <= self.attributes@.len(),
                self@.len() == self.attributes@.len(),
                element.tag() == old(element).tag(),
                unique_keys(element.attributes()),
                element.attributes() == applied(self@.take(i as int), old(element).attributes()),
            decreases self.attributes@.len() - i,
        {
            let field = self.attributes[i].0;
            let value = self.attributes[i].1.as_str();
            assert(self@[i as int] == (field, value@));
            assert(wire_pairs(self@.take(i + 1)).drop_last() =~= wire_pairs(self@.take(i as int)));
            assert(wire_pairs(self@.take(i + 1)).last() == (field.wire_name(), value@));
            field.set_attribute(element, value);
            i += 1;
        }
        assert(self@.take(i as int) =~= self@);
        proof {
            use_type_invariant(self);
            assert forall|name: Seq<char>|
                (forall|field: AttributeField| field.wire_name() == name ==> !has_key(self@, field))
            implies element.attribute(name) == old(element).attribute(name) by {
                lemma_applied_keeps_others(self@, old(element).attributes(), name);
            }
            assert forall|field: AttributeField| has_key(self@, field) implies element.attribute(
                field.wire_name(),
            ) == self.value_of(field) by {
                lemma_applied_reads_back(self@, old(element).attributes(), field);
            }
        }
    }
}

impl Clone for ShapeStyle {
    /// A deep copy: the same pairs in the same order.
    fn clone(&self) -> (copy: ShapeStyle)
        ensures
            copy@ == self@,
    {
        let mut attributes: Vec<(AttributeField, String)> = Vec::new();
        let mut i: usize = 0;
        while i < self.attributes.len()
            invariant
                i <= self.attributes@.len(),
                attributes@.len() == i,
                forall|j: int|
                    0 <= j < i ==> (#[trigger] attributes@[j]).0 == self.attributes@[j].0
                        && attributes@[j].1@ == self.attributes@[j].1@,
            decreases self.attributes@.len() - i,
        {
            attributes.push((self.attributes[i].0, self.attributes[i].1.clone()));
            i += 1;
        }
        proof {
            use_type_invariant(self);
            assert(attributes@.map_values(|p: (AttributeField, String)| (p.0, p.1@)) =~= self@);
        }
        let copy = ShapeStyle { attributes };
        copy
    }
}

/// A sequence of pairs with unique fields holds at most three pairs, there
/// being three fields.
pub proof fn lemma_at_most_three(s: Seq<(AttributeField, Seq<char>)>)
    requires
        unique_keys(s),
    ensures
        s.len() <= 3,
{
    if s.len() > 3 {
        let a = s[0].0;
        let b = s[1].0;
        let c = s[2].0;
        let d = s[3].0;
        assert(a != b && a != c && a != d && b != c && b != d && c != d);
    }
}

/// The attribute writes of a style with unique fields have unique names,
/// and a name is among them exactly when it is the name of a field the
/// style holds, with that field's value.
pub proof fn lemma_wire_pairs(style: Seq<(AttributeField, Seq<char>)>)
    requires
        unique_keys(style),
    ensures
        unique_keys(wire_pairs(style)),
        forall|field: AttributeField|
            has_key(style, field) == has_key(wire_pairs(style), #[trigger] field.wire_name()),
        forall|field: AttributeField|
            lookup(style, field) == lookup(wire_pairs(style), #[trigger] field.wire_name()),
        forall|name: Seq<char>|
            (forall|field: AttributeField| field.wire_name() == name ==> !has_key(style, field))
                ==> !has_key(wire_pairs(style), name),
{
    let w = wire_pairs(style);
    assert forall|i: int, j: int|
        0 <= i < w.len() && 0 <= j < w.len() && (#[trigger] w[i]).0 == (#[trigger] w[j]).0
    implies i == j by {
        lemma_wire_names_distinct(style[i].0, style[j].0);
    }
    assert forall|field: AttributeField|
        has_key(style, field) == has_key(w, #[trigger] field.wire_name()) && lookup(style, field)
            == lookup(w, field.wire_name()) by {
        if has_key(style, field) {
            let i = index_of(style, field);
            assert(w[i] == (field.wire_name(), style[i].1));
            lemma_index_of_unique(w, field.wire_name(), i);
        } else if has_key(w, field.wire_name()) {
            let i = index_of(w, field.wire_name());
            lemma_wire_names_distinct(style[i].0, field);
            assert(style[i].0 == field);
        }
    }
    assert forall|name: Seq<char>|
        (forall|field: AttributeField| field.wire_name() == name ==> !has_key(style, field))
    implies !has_key(w, name) by {
        if has_key(w, name) {
            let i = index_of(w, name);
            assert(style[i].0.wire_name() == name);
            assert(has_key(style, style[i].0));
        }
    }
}

/// Read back after a style was applied, the attribute of every field the
/// style holds has the style's value for that field.
pub proof fn lemma_applied_reads_back(
    style: Seq<(AttributeField, Seq<char>)>,
    attributes: Seq<(Seq<char>, Seq<char>)>,
    field: AttributeField,
)
    requires
        unique_keys(style),
        unique_keys(attributes),
        has_key(style, field),
    ensures
        unique_keys(applied(style, attributes)),
        lookup(applied(style, attributes), field.wire_name()) == lookup(style, field),
{
    lemma_wire_pairs(style);
    lemma_upsert_all_unique(attributes, wire_pairs(style));
    lemma_upsert_all_lookup(attributes, wire_pairs(style), field.wire_name());
}

/// Applying a style writes no attribute but those of the fields it holds:
/// under any other name the element has what it had before, or nothing.
pub proof fn lemma_applied_keeps_others(
    style: Seq<(AttributeField, Seq<char>)>,
    attributes: Seq<(Seq<char>, Seq<char>)>,
    name: Seq<char>,
)
    requires
        unique_keys(style),
        unique_keys(attributes),
        forall|field: AttributeField| field.wire_name() == name ==> !has_key(style, field),
    ensures
        lookup(applied(style, attributes), name) == lookup(attributes, name),
{
    lemma_wire_pairs(style);
    lemma_upsert_all_lookup(attributes, wire_pairs(style), name);
}

/// However many upserts are made, and with whatever repetition, a style
/// holds each field at most once and so never more than three pairs.
pub proof fn lemma_upserts_stay_within_three(
    style: Seq<(AttributeField, Seq<char>)>,
    calls: Seq<(AttributeField, Seq<char>)>,
)
    requires
        unique_keys(style),
    ensures
        unique_keys(upsert_all(style, calls)),
        upsert_all(style, calls).len() <= 3,
{
    lemma_upsert_all_unique(style, calls);
    lemma_at_most_three(upsert_all(style, calls));
}

} // verus!
