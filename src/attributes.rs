//! Attribute names, values and lists.
use vstd::prelude::*;

verus! {

pub open spec fn is_ascii_alpha(c: char) -> bool {
    ('a' <= c && c <= 'z') || ('A' <= c && c <= 'Z')
}

pub open spec fn is_ascii_digit(c: char) -> bool {
    '0' <= c && c <= '9'
}

/// A valid attribute name starts with an ASCII letter and goes on with ASCII
/// letters, digits, `-` and `_`.
pub open spec fn valid_attribute_name(s: Seq<char>) -> bool {
    &&& s.len() > 0
    &&& is_ascii_alpha(s[0])
    &&& forall|i: int|
        1 <= i < s.len() ==> #[trigger] is_ascii_alpha(s[i]) || is_ascii_digit(s[i]) || s[i]
            == '-' || s[i] == '_'
}

/// Tells whether the given string is a valid attribute name.
pub fn is_valid_attribute_name(name: &str) -> (r: bool)
    ensures
        r == valid_attribute_name(name@),
{
    let len = name.unicode_len();
    if len == 0 {
        return false;
    }
    let first = name.get_char(0);
    if !(('a' <= first && first <= 'z') || ('A' <= first && first <= 'Z')) {
        return false;
    }
    let mut i: usize = 1;
    while i < len
        invariant
            len == name@.len(),
            1 <= i <= len,
            forall|j: int|
                1 <= j < i ==> #[trigger] is_ascii_alpha(name@[j]) || is_ascii_digit(name@[j])
                    || name@[j] == '-' || name@[j] == '_',
        decreases len - i,
    {
        let c = name.get_char(i);
        let ok = ('a' <= c && c <= 'z') || ('A' <= c && c <= 'Z') || ('0' <= c && c <= '9') || c
            == '-' || c == '_';
        if !ok {
            assert(!(is_ascii_alpha(name@[i as int]) || is_ascii_digit(name@[i as int])
                || name@[i as int] == '-' || name@[i as int] == '_'));
            return false;
        }
        i = i + 1;
    }
    true
}

/// One attribute of a tag: a name and, unless it is a bare attribute, a value.
#[derive(Debug, Clone)]
pub struct Attribute {
    pub name: String,
    pub value: Option<String>,
}

} // verus!

verus! {

/// An attribute as plain values: its name and its value, if any.
pub type AttributePair = (Seq<char>, Option<Seq<char>>);

pub open spec fn attribute_pair(a: Attribute) -> AttributePair {
    (
        a.name@,
        match a.value {
            Some(v) => Some(v@),
            None => None,
        },
    )
}

pub open spec fn attribute_pairs(s: Seq<Attribute>) -> Seq<AttributePair> {
    s.map_values(|a: Attribute| attribute_pair(a))
}

pub open spec fn valid_pairs(s: Seq<AttributePair>) -> bool {
    forall|i: int| 0 <= i < s.len() ==> valid_attribute_name(#[trigger] s[i].0)
}

/// Something that stands for a name of an attribute.
pub trait AttributeName: Sized {
    spec fn name_view(&self) -> Seq<char>;

    /// Tells whether the attribute name is valid.
    fn is_valid_attribute_name(&self) -> (r: bool)
        ensures
            r == valid_attribute_name(self.name_view()),
    ;

    /// The name as an owned string.
    fn into_attribute_name(self) -> (r: String)
        ensures
            r@ == self.name_view(),
    ;
}

impl<'a> AttributeName for &'a str {
    open spec fn name_view(&self) -> Seq<char> {
        (*self)@
    }

    fn is_valid_attribute_name(&self) -> (r: bool) {
        is_valid_attribute_name(*self)
    }

    fn into_attribute_name(self) -> (r: String) {
        String::from_str(self)
    }
}

impl AttributeName for String {
    open spec fn name_view(&self) -> Seq<char> {
        self@
    }

    fn is_valid_attribute_name(&self) -> (r: bool) {
        is_valid_attribute_name(self.as_str())
    }

    fn into_attribute_name(self) -> (r: String) {
        self
    }
}

/// Something that stands for the value of an attribute, or for no value.
pub trait AttributeValue: Sized {
    /// The value; `None` for a bare attribute.
    spec fn value_view(&self) -> Option<Seq<char>>;

    /// Tells whether this is the marker of no value, which is not written.
    fn is_unit(&self) -> (r: bool)
        ensures
            r == (self.value_view() is None),
    ;

    /// The value as an owned string, if any.
    fn into_attribute_value(self) -> (r: Option<String>)
        ensures
            match r {
                Some(v) => self.value_view() == Some(v@),
                None => self.value_view() is None,
            },
    ;
}

impl<'a> AttributeValue for &'a str {
    open spec fn value_view(&self) -> Option<Seq<char>> {
        Some((*self)@)
    }

    fn is_unit(&self) -> (r: bool) {
        false
    }

    fn into_attribute_value(self) -> (r: Option<String>) {
        Some(String::from_str(self))
    }
}

impl AttributeValue for String {
    open spec fn value_view(&self) -> Option<Seq<char>> {
        Some(self@)
    }

    fn is_unit(&self) -> (r: bool) {
        false
    }

    fn into_attribute_value(self) -> (r: Option<String>) {
        Some(self)
    }
}

impl AttributeValue for () {
    open spec fn value_view(&self) -> Option<Seq<char>> {
        None
    }

    fn is_unit(&self) -> (r: bool) {
        true
    }

    fn into_attribute_value(self) -> (r: Option<String>) {
        None
    }
}

/// A list of attributes.
pub trait Attributes: Sized {
    spec fn pairs(&self) -> Seq<AttributePair>;

    /// The attributes, in order.
    fn into_attributes(self) -> (r: Vec<Attribute>)
        ensures
            attribute_pairs(r@) == self.pairs(),
    ;
}

impl Attributes for crate::html_trait::Empty {
    open spec fn pairs(&self) -> Seq<AttributePair> {
        Seq::empty()
    }

    fn into_attributes(self) -> (r: Vec<Attribute>) {
        let r: Vec<Attribute> = Vec::new();
        assert(attribute_pairs(r@) =~= Seq::<AttributePair>::empty());
        r
    }
}

impl<A: Attributes, B: Attributes> Attributes for crate::html_trait::Sum<A, B> {
    open spec fn pairs(&self) -> Seq<AttributePair> {
        self.0.pairs() + self.1.pairs()
    }

    fn into_attributes(self) -> (r: Vec<Attribute>) {
        let mut a = self.0.into_attributes();
        let mut b = self.1.into_attributes();
        let ghost av = a@;
        a.append(&mut b);
        assert(attribute_pairs(a@) =~= attribute_pairs(av) + self.1.pairs());
        a
    }
}

impl Attributes for Vec<Attribute> {
    open spec fn pairs(&self) -> Seq<AttributePair> {
        attribute_pairs(self@)
    }

    fn into_attributes(self) -> (r: Vec<Attribute>) {
        self
    }
}

} // verus!
