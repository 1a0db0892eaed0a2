//! Applying a hot-swap: the one place the diff safety gate meets the live
//! registry.
use vstd::prelude::*;
use crate::template::descriptor::{Template, TemplateV};
use crate::template::diff::{diff, diff_spec, EscalationReason, TemplateDiff};
use crate::template::registry::{get, law_register_lookup, lookup, register, registered, unique_keys, TemplateRegistry};

verus! {

/// The result of trying to apply an edited template to the running app.
#[derive(Debug, Clone, PartialEq, Eq, Structural)]
pub enum SwapOutcome {
    /// Safe data edit — the registry entry was replaced.
    Applied,
    /// The edit did not change the shape.
    Unchanged,
    /// The edit touched compiled logic; the registry is left as it was.
    Escalate(EscalationReason),
    /// No running template for this site key.
    UnknownSite,
}

/// Outcome and resulting registry of swapping `new` into `reg`.
pub open spec fn swap_spec(reg: Seq<TemplateV>, new: TemplateV) -> (SwapOutcome, Seq<TemplateV>) {
    match lookup(reg, new.key) {
        None => (SwapOutcome::UnknownSite, reg),
        Some(running) => match diff_spec(running, new) {
            TemplateDiff::Unchanged => (SwapOutcome::Unchanged, reg),
            TemplateDiff::Swappable => (SwapOutcome::Applied, registered(reg, new)),
            TemplateDiff::Escalate(reason) => (SwapOutcome::Escalate(reason), reg),
        },
    }
}

/// Diffs an edited template against the running one for its key and, when
/// it is a safe data swap, installs it.
pub fn apply_swap(registry: &mut TemplateRegistry, new: Template) -> (r: SwapOutcome)
    ensures
        (r, final(registry)@) == swap_spec(old(registry)@, new@),
{
    match get(registry, &new.key) {
        None => SwapOutcome::UnknownSite,
        Some(running) => match diff(&running, &new) {
            TemplateDiff::Unchanged => SwapOutcome::Unchanged,
            TemplateDiff::Swappable => {
                register(registry, new);
                SwapOutcome::Applied
            },
            TemplateDiff::Escalate(reason) => SwapOutcome::Escalate(reason),
        },
    }
}


/// A swap changes the registry only when it is applied, and an applied
/// swap makes the edit what its key looks up — a refused edit leaves the
/// running descriptor untouched.
pub proof fn law_swap_registry(reg: Seq<TemplateV>, new: TemplateV)
    requires
        unique_keys(reg),
    ensures
        swap_spec(reg, new).0 != SwapOutcome::Applied ==> swap_spec(reg, new).1 == reg,
        swap_spec(reg, new).0 == SwapOutcome::Applied ==> lookup(swap_spec(reg, new).1, new.key) == Some(new),
        unique_keys(swap_spec(reg, new).1),
{
    law_register_lookup(reg, new);
}

} // verus!
