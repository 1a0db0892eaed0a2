//! A validation error on a named field.
use vstd::prelude::*;
use crate::text::push_str;

verus! {

#[derive(Debug)]
pub struct FieldError {
    pub field: String,
    pub message: String,
}

impl View for FieldError {
    type V = (Seq<char>, Seq<char>);

    open spec fn view(&self) -> (Seq<char>, Seq<char>) {
        (self.field@, self.message@)
    }
}

/// `field: message`.
pub open spec fn field_error_display(e: (Seq<char>, Seq<char>)) -> Seq<char> {
    e.0 + ": "@ + e.1
}

impl FieldError {
    pub fn new(field: &str, message: &str) -> (r: FieldError)
        ensures
            r@ == (field@, message@),
    {
        FieldError { field: field.to_owned(), message: message.to_owned() }
    }

    /// The error's display text, `field: message`.
    pub fn to_display_string(&self) -> (r: String)
        ensures
            r@ == field_error_display(self@),
    {
        let mut s = self.field.clone();
        push_str(&mut s, ": ");
        push_str(&mut s, self.message.as_str());
        s
    }

    /// A copy.
    pub fn duplicate(&self) -> (r: FieldError)
        ensures
            r@ == self@,
    {
        FieldError { field: self.field.clone(), message: self.message.clone() }
    }
}

impl Clone for FieldError {
    fn clone(&self) -> (r: FieldError)
        ensures
            r@ == self@,
    {
        self.duplicate()
    }
}

impl PartialEq for FieldError {
    fn eq(&self, other: &FieldError) -> (r: bool) {
        crate::text::str_equal(self.field.as_str(), other.field.as_str())
            && crate::text::str_equal(self.message.as_str(), other.message.as_str())
    }
}

impl vstd::std_specs::cmp::PartialEqSpecImpl for FieldError {
    open spec fn obeys_eq_spec() -> bool {
        true
    }

    open spec fn eq_spec(&self, other: &FieldError) -> bool {
        self@ == other@
    }
}

} // verus!
