//! A description of a primitive element of the drawing surface: its tag and
//! the attributes written onto it so far.

use crate::entries::{has_key, index_of, lemma_index_of_unique, lemma_upsert_shape, lookup, unique_keys, upsert};
use vstd::prelude::*;

verus! {

/// A primitive element: a tag name and an ordered list of attributes, each
/// name at most once.
#[derive(Debug)]
pub struct Element {
    tag: String,
    attributes: Vec<(String, String)>,
}

impl Element {
    /// The element's tag name.
    pub closed spec fn tag(self) -> Seq<char> {
        self.tag@
    }

    /// The element's attributes as `(name, value)` pairs, in the order in
    /// which their names were first written.
    pub closed spec fn attributes(self) -> Seq<(Seq<char>, Seq<char>)> {
        self.attributes@.map_values(|p: (String, String)| (p.0@, p.1@))
    }

    /// No attribute name occurs twice.
    #[verifier::type_invariant]
    pub open spec fn wf(self) -> bool {
        unique_keys(self.attributes())
    }

    /// The value of the attribute `name`, if it was written.
    pub open spec fn attribute(self, name: Seq<char>) -> Option<Seq<char>> {
        lookup(self.attributes(), name)
    }

    /// A fresh element of the given tag, with no attributes.
    pub fn new(tag: &str) -> (element: Element)
        ensures
            element.tag() == tag@,
            element.attributes() == Seq::<(Seq<char>, Seq<char>)>::empty(),
    {
        let attributes: Vec<(String, String)> = Vec::new();
        assert(attributes@.map_values(|p: (String, String)| (p.0@, p.1@)) =~= Seq::<
            (Seq<char>, Seq<char>),
        >::empty());
        Element { tag: tag.to_owned(), attributes }
    }

    /// The tag name.
    pub fn tag_name(&self) -> (tag: &str)
        ensures
            tag@ == self.tag(),
    {
        self.tag.as_str()
    }

    /// The number of attributes on the element.
    pub fn attribute_count(&self) -> (n: usize)
        ensures
            n == self.attributes().len(),
    {
        self.attributes.len()
    }

    /// The position of the attribute `name`, if it is on the element.
    fn find(&self, name: &str) -> (found: Option<usize>)
        ensures
            match found {
                Some(i) => has_key(self.attributes(), name@) && i == index_of(
                    self.attributes(),
                    name@,
                ) && i < self.attributes@.len(),
                None => !has_key(self.attributes(), name@),
            },
    {
        proof {
            use_type_invariant(self);
        }
        let key: String = name.to_owned();
        let mut i: usize = 0;
        while i < self.attributes.len()
            invariant
                unique_keys(self.attributes()),
                key@ == name@,
                i <= self.attributes@.len(),
                self.attributes().len() == self.attributes@.len(),
                forall|j: int| 0 <= j < i ==> (#[trigger] self.attributes()[j]).0 != name@,
            decreases self.attributes@.len() - i,
        {
            assert(self.attributes()[i as int].0 == self.attributes@[i as int].0@);
            if self.attributes[i].0 == key {
                proof {
                    lemma_index_of_unique(self.attributes(), name@, i as int);
                }
                return Some(i);
            }
            i += 1;
        }
        None
    }

    /// Writes `value` under `name`: an attribute of that name has its value
    /// replaced where it stands, otherwise the attribute is added after the
    /// existing ones.
    pub fn set_attribute(&mut self, name: &str, value: &str)
        ensures
            unique_keys(final(self).attributes()),
            final(self).tag() == old(self).tag(),
            final(self).attributes() == upsert(old(self).attributes(), name@, value@),
    {
        proof {
            use_type_invariant(&*self);
            lemma_upsert_shape(self.attributes(), name@, value@);
        }
        let found = self.find(name);
        // The list is taken out while it changes, so that the element holds
        // a well-formed list at every step.
        let mut attributes: Vec<(String, String)> = Vec::new();
        assert(attributes@.map_values(|p: (String, String)| (p.0@, p.1@)) =~= Seq::<
            (Seq<char>, Seq<char>),
        >::empty());
        core::mem::swap(&mut self.attributes, &mut attributes);
        match found {
            Some(i) => {
                attributes.set(i, (name.to_owned(), value.to_owned()));
            },
            None => {
                attributes.push((name.to_owned(), value.to_owned()));
            },
        }
        assert(attributes@.map_values(|p: (String, String)| (p.0@, p.1@)) =~= upsert(
            old(self).attributes(),
            name@,
            value@,
        ));
        core::mem::swap(&mut self.attributes, &mut attributes);
    }

    /// The value of the attribute `name`, or `None` if no such attribute
    /// was written.
    pub fn get_attribute(&self, name: &str) -> (value: Option<String>)
        ensures
            value.is_some() == self.attribute(name@).is_some(),
            value.is_some() ==> value.unwrap()@ == self.attribute(name@).unwrap(),
    {
        match self.find(name) {
            Some(i) => Some(self.attributes[i].1.clone()),
            None => None,
        }
    }

    /// The attributes as a list of `(name, value)` pairs, in order.
    pub fn attribute_list(&self) -> (list: Vec<(String, String)>)
        ensures
            list@.map_values(|p: (String, String)| (p.0@, p.1@)) == self.attributes(),
    {
        let mut list: Vec<(String, String)> = Vec::new();
        let mut i: usize = 0;
        while i < self.attributes.len()
            invariant
                i <= self.attributes@.len(),
                list@.len() == i,
                forall|j: int|
                    0 <= j < i ==> (#[trigger] list@[j]).0@ == self.attributes@[j].0@
                        && list@[j].1@ == self.attributes@[j].1@,
            decreases self.attributes@.len() - i,
        {
            list.push((self.attributes[i].0.clone(), self.attributes[i].1.clone()));
            i += 1;
        }
        assert(list@.map_values(|p: (String, String)| (p.0@, p.1@)) =~= self.attributes());
        list
    }
}

} // verus!
