//! The reload runtime: given the `view!` sites of an edited file, match each
//! to its running site, diff it, and apply safe swaps to the registry.
use vstd::prelude::*;
use crate::template::descriptor::{node_extent, template_of, KeyV, Template, TemplateV};
use crate::template::diff::EscalationReason;
use crate::template::parse::{
    elem_holes, parse_error_display, site_key, templates_from_sites, to_node_spec, ParseError, ViewSite,
};
use crate::template::registry::{find_running, first_running, TemplateRegistry};
use crate::template::swap::{apply_swap, swap_spec, SwapOutcome};

verus! {

/// Outcome of reloading one edited file.
#[derive(Debug)]
pub struct ReloadReport {
    /// Sites hot-swapped (shape changed, safely).
    pub applied: usize,
    /// Sites whose shape did not change.
    pub unchanged: usize,
    /// `view!` sites with no running counterpart — new compiled code.
    pub unknown: usize,
    /// Sites whose change needs compiled code.
    pub escalations: Vec<EscalationReason>,
    /// The file did not parse (mid-edit): the display text of the error.
    pub parse_error: Option<String>,
}

/// Model of a [`ReloadReport`].
pub struct ReportV {
    pub applied: nat,
    pub unchanged: nat,
    pub unknown: nat,
    pub escalations: Seq<EscalationReason>,
    pub parse_error: Option<Seq<char>>,
}

impl View for ReloadReport {
    type V = ReportV;

    open spec fn view(&self) -> ReportV {
        ReportV {
            applied: self.applied as nat,
            unchanged: self.unchanged as nat,
            unknown: self.unknown as nat,
            escalations: self.escalations@,
            parse_error: match self.parse_error {
                Some(s) => Some(s@),
                None => None,
            },
        }
    }
}

pub open spec fn empty_report() -> ReportV {
    ReportV { applied: 0, unchanged: 0, unknown: 0, escalations: Seq::empty(), parse_error: None }
}

/// Every site counted once: applied, unchanged, unknown or escalated.
pub open spec fn report_total(r: ReportV) -> nat {
    r.applied + r.unchanged + r.unknown + r.escalations.len()
}

pub open spec fn spec_needs_restart(r: ReportV) -> bool {
    r.escalations.len() > 0 || r.unknown > 0
}

pub open spec fn spec_hot_swapped(r: ReportV) -> bool {
    r.applied > 0 && !spec_needs_restart(r) && r.parse_error is None
}

/// The report after one swap outcome.
pub open spec fn count_outcome(r: ReportV, o: SwapOutcome) -> ReportV {
    match o {
        SwapOutcome::Applied => ReportV { applied: r.applied + 1, ..r },
        SwapOutcome::Unchanged => ReportV { unchanged: r.unchanged + 1, ..r },
        SwapOutcome::Escalate(reason) => ReportV { escalations: r.escalations.push(reason), ..r },
        SwapOutcome::UnknownSite => ReportV { unknown: r.unknown + 1, ..r },
    }
}

/// Registry and report after handling one edited site: an unmatched site is
/// unknown; a matched one is re-keyed to the running site's key and swapped.
pub open spec fn reload_site(reg: Seq<TemplateV>, rep: ReportV, file: Seq<char>, site: TemplateV) -> (Seq<TemplateV>, ReportV) {
    match first_running(reg, file, site.key.line) {
        None => (reg, ReportV { unknown: rep.unknown + 1, ..rep }),
        Some(running) => {
            let (o, reg2) = swap_spec(reg, template_of(running.key, site.root));
            (reg2, count_outcome(rep, o))
        },
    }
}

/// The sites handled in file order.
pub open spec fn reload_sites(reg: Seq<TemplateV>, file: Seq<char>, ts: Seq<TemplateV>) -> (Seq<TemplateV>, ReportV)
    decreases ts.len(),
{
    if ts.len() == 0 {
        (reg, empty_report())
    } else {
        let p = reload_sites(reg, file, ts.drop_last());
        reload_site(p.0, p.1, file, ts.last())
    }
}

/// The templates of a file's parsed `view!` sites.
pub open spec fn scanned_templates(file: Seq<char>, sites: Seq<ViewSite>) -> Seq<TemplateV> {
    Seq::new(
        sites.len(),
        |i: int| template_of(site_key(file, sites[i].line, sites[i].column), to_node_spec(sites[i].element@, 0)),
    )
}

/// Registry and report after reloading `file`, given what its parse gave.
pub open spec fn reload_spec(reg: Seq<TemplateV>, file: Seq<char>, scanned: Result<Seq<ViewSite>, ParseError>) -> (Seq<TemplateV>, ReportV) {
    match scanned {
        Err(e) => (reg, ReportV { parse_error: Some(parse_error_display(e)), ..empty_report() }),
        Ok(sites) => reload_sites(reg, file, scanned_templates(file, sites)),
    }
}

impl ReloadReport {
    /// A report with nothing counted.
    pub fn new() -> (r: ReloadReport)
        ensures
            r@ == empty_report(),
    {
        let r = ReloadReport { applied: 0, unchanged: 0, unknown: 0, escalations: Vec::new(), parse_error: None };
        proof {
            assert(r@.escalations =~= Seq::<EscalationReason>::empty());
        }
        r
    }

    /// A safe data reload happened — repaint, don't restart.
    pub fn hot_swapped(&self) -> (r: bool)
        ensures
            r == spec_hot_swapped(self@),
    {
        self.applied > 0 && !self.needs_restart() && self.parse_error.is_none()
    }

    /// Something needs compiled code — fall back to a rebuild and restart.
    pub fn needs_restart(&self) -> (r: bool)
        ensures
            r == spec_needs_restart(self@),
    {
        !self.escalations.is_empty() || self.unknown > 0
    }

    /// The edit could not be parsed (likely mid-typing) — ignore it.
    pub fn ignored(&self) -> (r: bool)
        ensures
            r == (self@.parse_error is Some),
    {
        self.parse_error.is_some()
    }
}

impl Default for ReloadReport {
    fn default() -> (r: ReloadReport)
        ensures
            r@ == empty_report(),
    {
        ReloadReport::new()
    }
}

pub open spec fn sites_ok(sites: Seq<ViewSite>) -> bool {
    forall|i: int| 0 <= i < sites.len() ==> elem_holes((#[trigger] sites[i]).element@) < usize::MAX
}

pub open spec fn scanned_view(scanned: Result<Vec<ViewSite>, ParseError>) -> Result<Seq<ViewSite>, ParseError> {
    match scanned {
        Ok(v) => Ok(v@),
        Err(e) => Err(e),
    }
}

/// Every site of a reload is counted exactly once.
pub proof fn lemma_reload_counts(reg: Seq<TemplateV>, file: Seq<char>, ts: Seq<TemplateV>)
    ensures
        report_total(reload_sites(reg, file, ts).1) == ts.len(),
        reload_sites(reg, file, ts).1.parse_error is None,
    decreases ts.len(),
{
    if ts.len() > 0 {
        lemma_reload_counts(reg, file, ts.drop_last());
    }
}

/// Re-reads an edited file's `view!` sites and applies the safe swaps to
/// the registry. `scanned` is what parsing the file gave: its sites, or the
/// syntax error.
pub fn apply_reload(registry: &mut TemplateRegistry, file: &str, scanned: Result<Vec<ViewSite>, ParseError>) -> (r: ReloadReport)
    requires
        scanned matches Ok(sites) ==> sites_ok(sites@),
    ensures
        (final(registry)@, r@) == reload_spec(old(registry)@, file@, scanned_view(scanned)),
        scanned matches Ok(sites) ==> report_total(r@) == sites.len() && r@.parse_error is None,
        scanned is Err ==> final(registry)@ == old(registry)@ && report_total(r@) == 0,
{
    let mut report = ReloadReport::new();
    let sites = match scanned {
        Ok(v) => v,
        Err(e) => {
            report.parse_error = Some(e.to_display_string());
            return report;
        },
    };
    let ghost reg0 = registry@;
    let ts = templates_from_sites(&sites, file);
    let ghost tsv = scanned_templates(file@, sites@);
    proof {
        assert forall|i: int| 0 <= i < ts.len() implies (#[trigger] ts@[i])@ == tsv[i] by {}
        assert forall|q: int| 0 <= q < ts.len() implies node_extent((#[trigger] tsv[q]).root) < usize::MAX by {
            crate::template::parse::lemma_to_node_extent(sites@[q].element@, 0);
        }
    }
    let mut i: usize = 0;
    while i < ts.len()
        invariant
            i <= ts.len(),
            ts.len() == sites.len(),
            tsv.len() == ts.len(),
            forall|q: int| 0 <= q < ts.len() ==> (#[trigger] ts@[q])@ == tsv[q],
            sites_ok(sites@),
            forall|q: int| 0 <= q < ts.len() ==> node_extent((#[trigger] tsv[q]).root) < usize::MAX,
            (registry@, report@) == reload_sites(reg0, file@, tsv.take(i as int)),
            report_total(report@) == i,
        decreases ts.len() - i,
    {
        proof {
            assert(tsv.take(i as int + 1).drop_last() =~= tsv.take(i as int));
            assert(tsv.take(i as int + 1).last() == tsv[i as int]);
        }
        let site = &ts[i];
        match find_running(registry, file, site.key.line) {
            None => {
                report.unknown = report.unknown + 1;
            },
            Some(running) => {
                let candidate = Template::new(running.key, site.root.duplicate());
                let outcome = apply_swap(registry, candidate);
                match outcome {
                    SwapOutcome::Applied => {
                        report.applied = report.applied + 1;
                    },
                    SwapOutcome::Unchanged => {
                        report.unchanged = report.unchanged + 1;
                    },
                    SwapOutcome::Escalate(reason) => {
                        report.escalations.push(reason);
                    },
                    SwapOutcome::UnknownSite => {
                        report.unknown = report.unknown + 1;
                    },
                }
            },
        }
        proof {
            assert(report@.escalations =~= reload_sites(reg0, file@, tsv.take(i as int + 1)).1.escalations);
        }
        i = i + 1;
    }
    proof {
        assert(tsv.take(ts.len() as int) =~= tsv);
        lemma_reload_counts(reg0, file@, tsv);
    }
    report
}

} // verus!
