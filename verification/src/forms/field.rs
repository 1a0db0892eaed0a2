//! A form field: a name, validation rules, and a value/errors/touched state
//! shared by every clone of the field.
use vstd::prelude::*;
use std::sync::Arc;
use vstd::rwlock::{RwLock, RwLockPredicate};
use crate::forms::error::FieldError;
use crate::forms::validator::{opt_string_view, FieldRule, IntoRule, Rule, Validator};

verus! {

/// The mutable half of a field, shared by every clone.
#[derive(Debug)]
pub struct FieldData {
    pub value: String,
    /// Errors of the last validation.
    pub errors: Vec<FieldError>,
    /// Whether the field has been interacted with.
    pub touched: bool,
}

/// Model of [`FieldData`].
pub struct FieldDataV {
    pub value: Seq<char>,
    pub errors: Seq<(Seq<char>, Seq<char>)>,
    pub touched: bool,
}

pub open spec fn errors_view(v: Seq<FieldError>) -> Seq<(Seq<char>, Seq<char>)> {
    v.map_values(|e: FieldError| e@)
}

impl View for FieldData {
    type V = FieldDataV;

    open spec fn view(&self) -> FieldDataV {
        FieldDataV { value: self.value@, errors: errors_view(self.errors@), touched: self.touched }
    }
}

pub open spec fn opt_strings_view(v: Seq<Option<String>>) -> Seq<Option<Seq<char>>> {
    v.map_values(|o: Option<String>| opt_string_view(o))
}

/// The errors for the rules' outcomes `outcomes`, in order: one naming
/// `field` for every outcome that is a message.
pub open spec fn collected(field: Seq<char>, outcomes: Seq<Option<Seq<char>>>) -> Seq<(Seq<char>, Seq<char>)>
    decreases outcomes.len(),
{
    if outcomes.len() == 0 {
        Seq::empty()
    } else {
        let prev = collected(field, outcomes.drop_last());
        match outcomes.last() {
            Some(m) => prev.push((field, m)),
            None => prev,
        }
    }
}

/// `outs` can be the outcomes of `rules` on `value`: one per rule, in rule
/// order; a built-in rule's is exactly its own, and an app's rule's is one
/// its `validate` can return for `value`.
pub open spec fn outcomes_fit<C: Validator>(rules: Seq<FieldRule<C>>, value: &str, outs: Seq<Option<String>>) -> bool {
    &&& outs.len() == rules.len()
    &&& forall|i: int| 0 <= i < rules.len() ==> match #[trigger] rules[i] {
        FieldRule::Builtin(b) => opt_string_view(outs[i]) == b.outcome(value@),
        FieldRule::Custom(c) => call_ensures(C::validate, (&c, value), outs[i]),
    }
}

/// The errors for the rules' outcomes `outcomes`, in order: one naming
/// `field`, with the outcome's message, for every outcome that is a message.
pub fn collect_errors(field: &str, outcomes: &Vec<Option<String>>) -> (r: Vec<FieldError>)
    ensures
        errors_view(r@) == collected(field@, opt_strings_view(outcomes@)),
{
    let ghost os = opt_strings_view(outcomes@);
    let mut out: Vec<FieldError> = Vec::new();
    let mut i: usize = 0;
    while i < outcomes.len()
        invariant
            i <= outcomes.len(),
            os == opt_strings_view(outcomes@),
            errors_view(out@) == collected(field@, os.take(i as int)),
        decreases outcomes.len() - i,
    {
        proof {
            assert(os.take(i as int + 1).drop_last() =~= os.take(i as int));
            assert(os.take(i as int + 1).last() == opt_string_view(outcomes@[i as int]));
        }
        match &outcomes[i] {
            Some(msg) => {
                let ghost before = errors_view(out@);
                out.push(FieldError::new(field, msg.as_str()));
                proof {
                    assert(errors_view(out@) =~= before.push((field@, msg@)));
                }
            },
            None => {},
        }
        i = i + 1;
    }
    proof {
        assert(os.take(i as int) =~= os);
    }
    out
}

impl FieldData {
    /// Empty value, no errors, untouched.
    pub fn new() -> (r: FieldData)
        ensures
            r@ == (FieldDataV { value: Seq::empty(), errors: Seq::empty(), touched: false }),
    {
        let r = FieldData { value: String::new(), errors: Vec::new(), touched: false };
        proof {
            assert(r@.errors =~= Seq::<(Seq<char>, Seq<char>)>::empty());
        }
        r
    }

    /// A copy.
    pub fn duplicate(&self) -> (r: FieldData)
        ensures
            r@ == self@,
    {
        FieldData { value: self.value.clone(), errors: copy_errors(&self.errors), touched: self.touched }
    }
}

/// A copy of a list of errors.
pub fn copy_errors(v: &Vec<FieldError>) -> (r: Vec<FieldError>)
    ensures
        errors_view(r@) == errors_view(v@),
{
    let mut out: Vec<FieldError> = Vec::new();
    let mut i: usize = 0;
    while i < v.len()
        invariant
            i <= v.len(),
            out.len() == i,
            forall|j: int| 0 <= j < i ==> (#[trigger] out@[j])@ == v@[j]@,
        decreases v.len() - i,
    {
        out.push(v[i].duplicate());
        i = i + 1;
    }
    proof {
        assert(errors_view(out@) =~= errors_view(v@));
    }
    out
}

/// The shared state admits every value: any clone may write any value.
pub struct AnyState;

impl RwLockPredicate<FieldData> for AnyState {
    open spec fn inv(self, v: FieldData) -> bool {
        true
    }
}

/// Told when a field's value, touched flag or errors change: the widget
/// that shows the field (to repaint) and the app (to react).
pub trait FieldListener {
    fn changed(&self);
}

/// A listener that does nothing: the listener type of a field nobody
/// observes.
#[derive(Clone, Copy, Debug)]
pub struct Unobserved;

impl FieldListener for Unobserved {
    fn changed(&self) {
    }
}

/// The listeners installed on a field: the repaint one (`bind`) and the app
/// one (`on_change`).
pub struct Listeners<L> {
    repaint: Option<L>,
    notify: Option<L>,
}

/// Any listeners may be installed.
pub struct AnyListeners;

impl<L> RwLockPredicate<Listeners<L>> for AnyListeners {
    open spec fn inv(self, v: Listeners<L>) -> bool {
        true
    }
}

/// A named field with validation rules. Cloning a field is cheap and shares
/// its value, errors, touched flag and listeners: every clone reads and
/// writes the same state. Every change to the state tells the listeners,
/// outside the state's lock, so a listener may read the field back.
pub struct FormField<L = Unobserved, C = Rule> {
    pub name: String,
    validators: Vec<FieldRule<C>>,
    state: Arc<RwLock<FieldData, AnyState>>,
    listeners: Arc<RwLock<Listeners<L>, AnyListeners>>,
}

impl<L, C: Clone> Clone for FormField<L, C> {
    fn clone(&self) -> (r: FormField<L, C>) {
        FormField {
            name: self.name.clone(),
            validators: self.validators.clone(),
            state: Arc::clone(&self.state),
            listeners: Arc::clone(&self.listeners),
        }
    }
}

impl FormField<Unobserved> {
    /// A field with no rules, an empty value, no errors, untouched, and no
    /// listeners.
    pub fn new(name: &str) -> (r: FormField<Unobserved>)
        ensures
            r.label() == name@,
            r.rules() == Seq::<FieldRule<Rule>>::empty(),
    {
        FormField::observed(name)
    }
}

impl<L, C> FormField<L, C> {
    /// The rules attached to this field, in order.
    pub closed spec fn rules(&self) -> Seq<FieldRule<C>> {
        self.validators@
    }

    /// The field's name.
    pub closed spec fn label(&self) -> Seq<char> {
        self.name@
    }
}

impl<L: FieldListener + Clone, C: Validator> FormField<L, C> {
    /// A field whose listeners are of type `L` and whose own validators are
    /// of type `C`: no rules, an empty value, no errors, untouched, and no
    /// listener installed yet.
    pub fn observed(name: &str) -> (r: FormField<L, C>)
        ensures
            r.label() == name@,
            r.rules() == Seq::<FieldRule<C>>::empty(),
    {
        let lock = RwLock::new(FieldData::new(), Ghost(AnyState));
        let ls = RwLock::new(Listeners { repaint: None, notify: None }, Ghost(AnyListeners));
        let r = FormField { name: name.to_owned(), validators: Vec::new(), state: Arc::new(lock), listeners: Arc::new(ls) };
        proof {
            assert(r.validators@ =~= Seq::<FieldRule<C>>::empty());
        }
        r
    }

    /// Installs the app's listener, told of every change.
    pub fn on_change(&self, f: L) {
        let (mut ls, w) = self.listeners.acquire_write();
        ls.notify = Some(f);
        w.release_write(ls);
    }

    /// Installs the repaint listener of the widget showing this field.
    pub fn bind(&self, f: L) {
        let (mut ls, w) = self.listeners.acquire_write();
        ls.repaint = Some(f);
        w.release_write(ls);
    }

    /// Tells the listeners of a change: repaint first, then the app. Both
    /// are taken out of the lock before either is called.
    fn invalidate(&self) {
        let h = self.listeners.acquire_read();
        let repaint = h.borrow().repaint.clone();
        let notify = h.borrow().notify.clone();
        h.release_read();
        match repaint {
            Some(f) => f.changed(),
            None => {},
        }
        match notify {
            Some(f) => f.changed(),
            None => {},
        }
    }

    /// Sets the value (not marking the field touched).
    pub fn with_value(self, v: &str) -> (r: FormField<L, C>)
        ensures
            r.label() == self.label(),
            r.rules() == self.rules(),
    {
        let (mut d, w) = self.state.acquire_write();
        d.value = v.to_owned();
        w.release_write(d);
        self.invalidate();
        self
    }

    /// Adds a validation rule, checked after the existing ones.
    pub fn rule<V: IntoRule<C>>(self, v: V) -> (r: FormField<L, C>)
        ensures
            r.label() == self.label(),
            r.rules() == self.rules().push(v.as_rule()),
    {
        let mut me = self;
        me.validators.push(v.into_rule());
        me
    }

    /// Each rule's outcome on `value`, in rule order.
    pub fn outcomes(&self, value: &str) -> (r: Vec<Option<String>>)
        ensures
            outcomes_fit(self.rules(), value, r@),
    {
        let mut out: Vec<Option<String>> = Vec::new();
        let mut i: usize = 0;
        while i < self.validators.len()
            invariant
                i <= self.validators.len(),
                out.len() == i,
                forall|j: int| 0 <= j < i ==> match #[trigger] self.validators@[j] {
                    FieldRule::Builtin(b) => opt_string_view(out@[j]) == b.outcome(value@),
                    FieldRule::Custom(c) => call_ensures(C::validate, (&c, value), out@[j]),
                },
            decreases self.validators.len() - i,
        {
            let o = match &self.validators[i] {
                FieldRule::Builtin(b) => b.validate(value),
                FieldRule::Custom(c) => c.validate(value),
            };
            out.push(o);
            i = i + 1;
        }
        out
    }

    /// The errors the field's rules report for `value`, in rule order, each
    /// naming the field.
    pub fn check(&self, value: &str) -> (r: Vec<FieldError>)
        ensures
            exists|outs: Seq<Option<String>>|
                outcomes_fit(self.rules(), value, outs) && errors_view(r@) == collected(
                    self.label(),
                    opt_strings_view(outs),
                ),
    {
        let outs = self.outcomes(value);
        let r = collect_errors(self.name.as_str(), &outs);
        proof {
            assert(outcomes_fit(self.rules(), value, outs@) && errors_view(r@) == collected(
                self.label(),
                opt_strings_view(outs@),
            ));
        }
        r
    }

    /// Current value.
    pub fn get(&self) -> (r: String) {
        let h = self.state.acquire_read();
        let v = h.borrow().value.clone();
        h.release_read();
        v
    }

    /// Sets the value and marks the field touched.
    pub fn set(&self, v: &str) {
        let (mut d, w) = self.state.acquire_write();
        d.touched = true;
        w.release_write(d);
        self.invalidate();
        let (mut d, w) = self.state.acquire_write();
        d.value = v.to_owned();
        w.release_write(d);
        self.invalidate();
    }

    /// Runs every rule against the current value, records the errors, and
    /// returns whether there were none.
    pub fn validate(&self) -> (r: bool)
        ensures
            exists|v: &str, outs: Seq<Option<String>>|
                outcomes_fit(self.rules(), v, outs) && r == (collected(self.label(), opt_strings_view(outs)).len() == 0),
    {
        let val = self.get();
        let vs = val.as_str();
        let errs = self.check(vs);
        let ok = errs.len() == 0;
        let ghost ev = errors_view(errs@);
        let (mut d, w) = self.state.acquire_write();
        d.errors = errs;
        w.release_write(d);
        self.invalidate();
        proof {
            let outs = choose|outs: Seq<Option<String>>|
                outcomes_fit(self.rules(), vs, outs) && ev == collected(self.label(), opt_strings_view(outs));
            assert(outcomes_fit(self.rules(), vs, outs) && ok == (collected(self.label(), opt_strings_view(outs)).len() == 0));
        }
        ok
    }

    /// Errors recorded by the last `validate()`.
    pub fn errors(&self) -> (r: Vec<FieldError>) {
        let h = self.state.acquire_read();
        let e = copy_errors(&h.borrow().errors);
        h.release_read();
        e
    }

    /// No errors recorded (true before the first `validate()`).
    pub fn is_valid(&self) -> (r: bool) {
        let h = self.state.acquire_read();
        let ok = h.borrow().errors.len() == 0;
        h.release_read();
        ok
    }

    /// Whether `set` has been called since creation or the last reset.
    pub fn is_touched(&self) -> (r: bool) {
        let h = self.state.acquire_read();
        let t = h.borrow().touched;
        h.release_read();
        t
    }

    /// Clears value, errors and touched state.
    pub fn reset(&self) {
        let (mut d, w) = self.state.acquire_write();
        d.value = String::new();
        w.release_write(d);
        self.invalidate();
        let (mut d, w) = self.state.acquire_write();
        d.errors = Vec::new();
        w.release_write(d);
        self.invalidate();
        let (mut d, w) = self.state.acquire_write();
        d.touched = false;
        w.release_write(d);
        self.invalidate();
    }
}

} // verus!
