//! Validation rules applied to a field's string value.
use vstd::prelude::*;
use vstd::string::StrSliceExecFns;
use crate::text::{
    blank, chars_of, contains_chars, contains_seq, decimal, find_char_from, find_from, is_blank, occurs_at,
    push_decimal, push_str,
};

verus! {

pub open spec fn opt_string_view(o: Option<String>) -> Option<Seq<char>> {
    match o {
        Some(s) => Some(s@),
        None => None,
    }
}

/// A validation rule that can be applied to a string value. The built-in
/// rules below state exactly what they return; an app may implement its own.
pub trait Validator: Send + Sync {
    /// Returns `None` if valid, or an error message if invalid.
    fn validate(&self, value: &str) -> Option<String>;

    /// Human-readable name for this rule.
    fn name(&self) -> &'static str;
}

/// Field value must be non-empty after trimming white space.
#[derive(Debug, Clone, Copy)]
pub struct Required;

/// Minimum length, in characters.
#[derive(Debug, Clone, Copy)]
pub struct MinLength(pub usize);

/// Maximum length, in characters.
#[derive(Debug, Clone, Copy)]
pub struct MaxLength(pub usize);

/// The value must contain this substring.
#[derive(Debug, Clone, Copy)]
pub struct Contains(pub &'static str);

/// Email-like: an `@`, and a `.` between it and the next `@` (or the end).
#[derive(Debug, Clone, Copy)]
pub struct Email;

pub open spec fn required_rule(value: Seq<char>) -> Option<Seq<char>> {
    if is_blank(value) { Some("This field is required."@) } else { None }
}

pub open spec fn min_length_rule(n: usize, value: Seq<char>) -> Option<Seq<char>> {
    if value.len() < n { Some("Must be at least "@ + decimal(n as nat) + " characters."@) } else { None }
}

pub open spec fn max_length_rule(n: usize, value: Seq<char>) -> Option<Seq<char>> {
    if value.len() > n { Some("Must be no more than "@ + decimal(n as nat) + " characters."@) } else { None }
}

pub open spec fn contains_rule(pat: Seq<char>, value: Seq<char>) -> Option<Seq<char>> {
    if !contains_seq(value, pat) { Some("Must contain '"@ + pat + "'."@) } else { None }
}

/// There is an `@`, and the text between the first `@` and the next one
/// (or the end) contains a `.`.
pub open spec fn email_ok(v: Seq<char>) -> bool {
    let at = find_from(v, '@', 0);
    at < v.len() && contains_seq(v.subrange(at + 1, find_from(v, '@', at + 1)), seq!['.'])
}

proof fn lemma_find_from(v: Seq<char>, c: char, from: int)
    requires
        0 <= from <= v.len(),
    ensures
        from <= find_from(v, c, from) <= v.len(),
        find_from(v, c, from) < v.len() ==> v[find_from(v, c, from)] == c,
        forall|j: int| from <= j < find_from(v, c, from) ==> v[j] != c,
    decreases v.len() - from,
{
    if from < v.len() && v[from] != c {
        lemma_find_from(v, c, from + 1);
    }
}

/// Email validity looks only at the text after the first `@`, up to the next
/// `@` or the end: a value is accepted exactly when it has an `@` and a `.`
/// follows its first `@` with no `@` in between. Whatever precedes the first
/// `@` makes no difference.
pub proof fn law_email_looks_after_first_at(v: Seq<char>)
    ensures
        email_ok(v) <==> exists|a: int, d: int|
            #![trigger v[a], v[d]]
            0 <= a < d < v.len() && v[a] == '@' && v[d] == '.' && (forall|j: int| 0 <= j < a ==> v[j] != '@') && (
            forall|j: int| a < j < d ==> v[j] != '@'),
{
    let at = find_from(v, '@', 0);
    lemma_find_from(v, '@', 0);
    if at < v.len() {
        lemma_find_from(v, '@', at + 1);
    }
    let end = find_from(v, '@', at + 1);
    if email_ok(v) {
        let seg = v.subrange(at + 1, end);
        let i = choose|i: int| occurs_at(seg, seq!['.'], i);
        assert(seg.subrange(i, i + 1)[0] == '.');
        let d = at + 1 + i;
        assert(v[d] == seg[i]);
        assert(v[at] == '@' && v[d] == '.');
    }
    if exists|a: int, d: int|
        #![trigger v[a], v[d]]
        0 <= a < d < v.len() && v[a] == '@' && v[d] == '.' && (forall|j: int| 0 <= j < a ==> v[j] != '@') && (
        forall|j: int| a < j < d ==> v[j] != '@') {
        let (a, d) = choose|a: int, d: int|
            #![trigger v[a], v[d]]
            0 <= a < d < v.len() && v[a] == '@' && v[d] == '.' && (forall|j: int| 0 <= j < a ==> v[j] != '@') && (
            forall|j: int| a < j < d ==> v[j] != '@');
        if at < a {
            assert(v[at] == '@');
        }
        if at > a {
            assert(v[a] != '@');
        }
        assert(at == a);
        if end <= d {
            assert(v[end] == '@');
        }
        assert(end > d);
        let seg = v.subrange(at + 1, end);
        let i = d - at - 1;
        assert(seg.subrange(i, i + 1) =~= seq!['.']);
        assert(occurs_at(seg, seq!['.'], i));
    }
}

pub open spec fn email_rule(value: Seq<char>) -> Option<Seq<char>> {
    if email_ok(value) { None } else { Some("Must be a valid email address."@) }
}

fn owned(s: &str) -> (r: String)
    ensures
        r@ == s@,
{
    s.to_owned()
}

impl Validator for Required {
    fn validate(&self, value: &str) -> (r: Option<String>)
        ensures
            opt_string_view(r) == required_rule(value@),
    {
        if blank(value) { Some(owned("This field is required.")) } else { None }
    }

    fn name(&self) -> (r: &'static str)
        ensures
            r@ == "Required"@,
    {
        "Required"
    }
}

impl Validator for MinLength {
    fn validate(&self, value: &str) -> (r: Option<String>)
        ensures
            opt_string_view(r) == min_length_rule(self.0, value@),
    {
        if value.unicode_len() < self.0 {
            let mut s = String::new();
            push_str(&mut s, "Must be at least ");
            push_decimal(&mut s, self.0 as u64);
            push_str(&mut s, " characters.");
            proof {
                assert((self.0 as u64) as nat == self.0 as nat);
                assert(s@ =~= min_length_rule(self.0, value@)->0);
            }
            Some(s)
        } else {
            None
        }
    }

    fn name(&self) -> (r: &'static str)
        ensures
            r@ == "MinLength"@,
    {
        "MinLength"
    }
}

impl Validator for MaxLength {
    fn validate(&self, value: &str) -> (r: Option<String>)
        ensures
            opt_string_view(r) == max_length_rule(self.0, value@),
    {
        if value.unicode_len() > self.0 {
            let mut s = String::new();
            push_str(&mut s, "Must be no more than ");
            push_decimal(&mut s, self.0 as u64);
            push_str(&mut s, " characters.");
            proof {
                assert((self.0 as u64) as nat == self.0 as nat);
                assert(s@ =~= max_length_rule(self.0, value@)->0);
            }
            Some(s)
        } else {
            None
        }
    }

    fn name(&self) -> (r: &'static str)
        ensures
            r@ == "MaxLength"@,
    {
        "MaxLength"
    }
}

impl Validator for Contains {
    fn validate(&self, value: &str) -> (r: Option<String>)
        ensures
            opt_string_view(r) == contains_rule(self.0@, value@),
    {
        let hay = chars_of(value);
        let needle = chars_of(self.0);
        if !contains_chars(&hay, &needle) {
            let mut s = String::new();
            push_str(&mut s, "Must contain '");
            push_str(&mut s, self.0);
            push_str(&mut s, "'.");
            Some(s)
        } else {
            None
        }
    }

    fn name(&self) -> (r: &'static str)
        ensures
            r@ == "Contains"@,
    {
        "Contains"
    }
}

/// Whether `value` passes the email check.
pub fn email_valid(value: &str) -> (r: bool)
    ensures
        r == email_ok(value@),
{
    let cs = chars_of(value);
    let at = find_char_from(&cs, '@', 0);
    if at == cs.len() {
        return false;
    }
    let end = find_char_from(&cs, '@', at + 1);
    let mut seg: Vec<char> = Vec::new();
    let mut k: usize = at + 1;
    while k < end
        invariant
            at + 1 <= k <= end,
            end <= cs.len(),
            seg@ == cs@.subrange(at + 1, k as int),
        decreases end - k,
    {
        seg.push(cs[k]);
        proof {
            assert(seg@ =~= cs@.subrange(at + 1, k + 1));
        }
        k = k + 1;
    }
    let mut dot: Vec<char> = Vec::new();
    dot.push('.');
    proof {
        assert(dot@ =~= seq!['.']);
    }
    contains_chars(&seg, &dot)
}

impl Validator for Email {
    fn validate(&self, value: &str) -> (r: Option<String>)
        ensures
            opt_string_view(r) == email_rule(value@),
    {
        if email_valid(value) { None } else { Some(owned("Must be a valid email address.")) }
    }

    fn name(&self) -> (r: &'static str)
        ensures
            r@ == "Email"@,
    {
        "Email"
    }
}


/// Any of the built-in rules.
#[derive(Debug, Clone, Copy)]
pub enum Rule {
    Required,
    MinLength(usize),
    MaxLength(usize),
    Contains(&'static str),
    Email,
}

impl Rule {
    /// What the rule reports for `value`: `None` if it passes, else the
    /// message.
    pub open spec fn outcome(self, value: Seq<char>) -> Option<Seq<char>> {
        match self {
            Rule::Required => required_rule(value),
            Rule::MinLength(n) => min_length_rule(n, value),
            Rule::MaxLength(n) => max_length_rule(n, value),
            Rule::Contains(p) => contains_rule(p@, value),
            Rule::Email => email_rule(value),
        }
    }

    /// The rule's name.
    pub open spec fn title(self) -> Seq<char> {
        match self {
            Rule::Required => "Required"@,
            Rule::MinLength(_) => "MinLength"@,
            Rule::MaxLength(_) => "MaxLength"@,
            Rule::Contains(_) => "Contains"@,
            Rule::Email => "Email"@,
        }
    }
}

impl Validator for Rule {
    fn validate(&self, value: &str) -> (r: Option<String>)
        ensures
            opt_string_view(r) == self.outcome(value@),
    {
        match self {
            Rule::Required => Required.validate(value),
            Rule::MinLength(n) => MinLength(*n).validate(value),
            Rule::MaxLength(n) => MaxLength(*n).validate(value),
            Rule::Contains(p) => Contains(*p).validate(value),
            Rule::Email => Email.validate(value),
        }
    }

    fn name(&self) -> (r: &'static str)
        ensures
            r@ == self.title(),
    {
        match self {
            Rule::Required => Required.name(),
            Rule::MinLength(n) => MinLength(*n).name(),
            Rule::MaxLength(n) => MaxLength(*n).name(),
            Rule::Contains(p) => Contains(*p).name(),
            Rule::Email => Email.name(),
        }
    }
}

/// A rule attached to a form field: a built-in one, or one of the app's own
/// validators of type `C`.
#[derive(Debug, Clone, Copy)]
pub enum FieldRule<C> {
    Builtin(Rule),
    Custom(C),
}

impl<C: Validator> Validator for FieldRule<C> {
    fn validate(&self, value: &str) -> (r: Option<String>)
        ensures
            self matches FieldRule::Builtin(b) ==> opt_string_view(r) == b.outcome(value@),
    {
        match self {
            FieldRule::Builtin(b) => b.validate(value),
            FieldRule::Custom(c) => c.validate(value),
        }
    }

    fn name(&self) -> (r: &'static str)
        ensures
            self matches FieldRule::Builtin(b) ==> r@ == b.title(),
    {
        match self {
            FieldRule::Builtin(b) => b.name(),
            FieldRule::Custom(c) => c.name(),
        }
    }
}

/// A rule that can be attached to a form field whose own validators are of
/// type `C`: any built-in rule, or a [`FieldRule`].
pub trait IntoRule<C> {
    spec fn as_rule(&self) -> FieldRule<C>;

    fn into_rule(self) -> (r: FieldRule<C>)
        ensures
            r == self.as_rule();
}

impl<C> IntoRule<C> for Required {
    open spec fn as_rule(&self) -> FieldRule<C> {
        FieldRule::Builtin(Rule::Required)
    }

    fn into_rule(self) -> (r: FieldRule<C>) {
        FieldRule::Builtin(Rule::Required)
    }
}

impl<C> IntoRule<C> for MinLength {
    open spec fn as_rule(&self) -> FieldRule<C> {
        FieldRule::Builtin(Rule::MinLength(self.0))
    }

    fn into_rule(self) -> (r: FieldRule<C>) {
        FieldRule::Builtin(Rule::MinLength(self.0))
    }
}

impl<C> IntoRule<C> for MaxLength {
    open spec fn as_rule(&self) -> FieldRule<C> {
        FieldRule::Builtin(Rule::MaxLength(self.0))
    }

    fn into_rule(self) -> (r: FieldRule<C>) {
        FieldRule::Builtin(Rule::MaxLength(self.0))
    }
}

impl<C> IntoRule<C> for Contains {
    open spec fn as_rule(&self) -> FieldRule<C> {
        FieldRule::Builtin(Rule::Contains(self.0))
    }

    fn into_rule(self) -> (r: FieldRule<C>) {
        FieldRule::Builtin(Rule::Contains(self.0))
    }
}

impl<C> IntoRule<C> for Email {
    open spec fn as_rule(&self) -> FieldRule<C> {
        FieldRule::Builtin(Rule::Email)
    }

    fn into_rule(self) -> (r: FieldRule<C>) {
        FieldRule::Builtin(Rule::Email)
    }
}

impl<C> IntoRule<C> for Rule {
    open spec fn as_rule(&self) -> FieldRule<C> {
        FieldRule::Builtin(*self)
    }

    fn into_rule(self) -> (r: FieldRule<C>) {
        FieldRule::Builtin(self)
    }
}

impl<C> IntoRule<C> for FieldRule<C> {
    open spec fn as_rule(&self) -> FieldRule<C> {
        *self
    }

    fn into_rule(self) -> (r: FieldRule<C>) {
        self
    }
}

} // verus!
