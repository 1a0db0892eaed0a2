//! Template diffing: decide whether an edited template can be hot-swapped as
//! data, or must escalate to a rebuild.
//!
//! A hole's *site* is the `(widget kind, prop name)` it fills; positional
//! argument holes use the prop name `$arg<position>`. A swap is safe only when
//! every hole index keeps its site.
use vstd::prelude::*;
use crate::template::descriptor::{
    args_eq, children_eq, is_nan_bits, props_eq, prop_eq, static_eq, StaticV, float_bits_eq,
    lemma_take_full, law_node_eq_literals, node_eq, prop_pair_view, same_value, NodeV, PropV, PropValue, Template,
    TemplateNode, TemplateV,
};
use crate::text::{decimal, push_decimal, push_str, str_equal};

verus! {

/// Why a diff cannot be hot-swapped as data.
#[derive(Debug, Clone, Copy, PartialEq, Eq, Structural)]
pub enum EscalationReason {
    /// Diffing two different `view!` sites.
    KeyMismatch,
    /// A hole was added or removed.
    HoleCountChanged { old: usize, new: usize },
    /// Hole `index` now feeds a different site than the running binary
    /// compiled it for.
    HoleSlotRetargeted { index: usize },
}

/// The verdict for one edited `view!` site.
#[derive(Debug, Clone, Copy, PartialEq, Eq, Structural)]
pub enum TemplateDiff {
    Unchanged,
    Swappable,
    Escalate(EscalationReason),
}

/// One recorded hole site: `(hole index, widget kind, prop name)`.
pub type Site = (usize, String, String);

/// Model of a [`Site`].
pub type SiteV = (usize, Seq<char>, Seq<char>);

pub open spec fn site_view(s: Site) -> SiteV {
    (s.0, s.1@, s.2@)
}

/// The prop name recorded for the positional argument at `pos`.
pub open spec fn arg_site_name(pos: nat) -> Seq<char> {
    "$arg"@ + decimal(pos)
}

/// Hole sites of a node's positional args, in order.
pub open spec fn arg_sites(widget: Seq<char>, args: Seq<PropV>) -> Seq<SiteV>
    decreases args.len(),
{
    if args.len() == 0 {
        Seq::empty()
    } else {
        let prev = arg_sites(widget, args.drop_last());
        match args.last() {
            PropV::Hole(i) => prev.push((i, widget, arg_site_name((args.len() - 1) as nat))),
            PropV::Static(_) => prev,
        }
    }
}

/// Hole sites of a node's named props, in order.
pub open spec fn prop_sites(widget: Seq<char>, props: Seq<(Seq<char>, PropV)>) -> Seq<SiteV>
    decreases props.len(),
{
    if props.len() == 0 {
        Seq::empty()
    } else {
        let prev = prop_sites(widget, props.drop_last());
        match props.last().1 {
            PropV::Hole(i) => prev.push((i, widget, props.last().0)),
            PropV::Static(_) => prev,
        }
    }
}

/// Every hole site of a subtree in walk order: args, then props, then the
/// children depth-first.
pub open spec fn node_sites(n: NodeV) -> Seq<SiteV>
    decreases n,
{
    arg_sites(n.widget, n.args) + prop_sites(n.widget, n.props) + children_sites(n.children)
}

pub open spec fn children_sites(s: Seq<NodeV>) -> Seq<SiteV>
    decreases s,
{
    if s.len() == 0 { Seq::empty() } else { children_sites(s.drop_last()) + node_sites(s.last()) }
}

/// Hole index → site, a later record for the same index replacing an
/// earlier one.
pub open spec fn slot_map(l: Seq<SiteV>) -> Map<usize, (Seq<char>, Seq<char>)>
    decreases l.len(),
{
    if l.len() == 0 {
        Map::empty()
    } else {
        slot_map(l.drop_last()).insert(l.last().0, (l.last().1, l.last().2))
    }
}

/// The site each hole index of a tree feeds.
pub open spec fn hole_slots(n: NodeV) -> Map<usize, (Seq<char>, Seq<char>)> {
    slot_map(node_sites(n))
}

/// Hole `i` of `old` no longer feeds the same site in `new`.
pub open spec fn retargeted(old: Map<usize, (Seq<char>, Seq<char>)>, new: Map<usize, (Seq<char>, Seq<char>)>, i: usize) -> bool {
    old.contains_key(i) && !(new.contains_key(i) && new[i] == old[i])
}

/// The lowest retargeted hole index.
pub open spec fn first_retargeted(old: Map<usize, (Seq<char>, Seq<char>)>, new: Map<usize, (Seq<char>, Seq<char>)>) -> usize {
    choose|i: usize| retargeted(old, new, i) && forall|j: usize| j < i ==> !retargeted(old, new, j)
}

/// The verdict of diffing the running template `old` against an edit `new`.
pub open spec fn diff_spec(old: TemplateV, new: TemplateV) -> TemplateDiff {
    if old.key != new.key {
        TemplateDiff::Escalate(EscalationReason::KeyMismatch)
    } else if node_eq(old.root, new.root) {
        TemplateDiff::Unchanged
    } else if old.hole_count != new.hole_count {
        TemplateDiff::Escalate(EscalationReason::HoleCountChanged { old: old.hole_count, new: new.hole_count })
    } else if exists|i: usize| retargeted(hole_slots(old.root), hole_slots(new.root), i) {
        TemplateDiff::Escalate(
            EscalationReason::HoleSlotRetargeted { index: first_retargeted(hole_slots(old.root), hole_slots(new.root)) },
        )
    } else {
        TemplateDiff::Swappable
    }
}

// ───────────────────────── lemmas on slot maps ─────────────────────────

pub proof fn lemma_slot_map_domain(l: Seq<SiteV>, idx: usize)
    ensures
        slot_map(l).contains_key(idx) <==> exists|j: int| 0 <= j < l.len() && (#[trigger] l[j]).0 == idx,
    decreases l.len(),
{
    if l.len() > 0 {
        lemma_slot_map_domain(l.drop_last(), idx);
        if slot_map(l).contains_key(idx) {
            if l.last().0 != idx {
                let j = choose|j: int| 0 <= j < l.drop_last().len() && (#[trigger] l.drop_last()[j]).0 == idx;
                assert(l[j] == l.drop_last()[j]);
            } else {
                assert(l[l.len() - 1].0 == idx);
            }
        }
        if exists|j: int| 0 <= j < l.len() && (#[trigger] l[j]).0 == idx {
            let j = choose|j: int| 0 <= j < l.len() && (#[trigger] l[j]).0 == idx;
            if j < l.len() - 1 {
                assert(l.drop_last()[j] == l[j]);
            }
        }
    }
}

pub proof fn lemma_slot_map_last(l: Seq<SiteV>, k: int)
    requires
        0 <= k < l.len(),
        forall|j: int| k < j < l.len() ==> (#[trigger] l[j]).0 != l[k].0,
    ensures
        slot_map(l).contains_key(l[k].0),
        slot_map(l)[l[k].0] == (l[k].1, l[k].2),
    decreases l.len(),
{
    if k < l.len() - 1 {
        assert(l.last().0 != l[k].0) by {
            assert(l[l.len() - 1] == l.last());
        }
        assert forall|j: int| k < j < l.drop_last().len() implies (#[trigger] l.drop_last()[j]).0 != l.drop_last()[k].0 by {
            assert(l.drop_last()[j] == l[j]);
        }
        lemma_slot_map_last(l.drop_last(), k);
    }
}

// ───────────────────────── collecting sites ─────────────────────────

pub open spec fn sites_view(v: Seq<Site>) -> Seq<SiteV> {
    v.map_values(|s: Site| site_view(s))
}

fn push_site(out: &mut Vec<Site>, i: usize, widget: &String, prop: String)
    ensures
        sites_view(final(out)@) == sites_view(old(out)@).push((i, widget@, prop@)),
{
    out.push((i, widget.clone(), prop));
    proof {
        assert(sites_view(final(out)@) =~= sites_view(old(out)@).push((i, widget@, prop@)));
    }
}

/// The `$arg<pos>` site name.
fn arg_name(pos: usize) -> (r: String)
    ensures
        r@ == arg_site_name(pos as nat),
{
    let mut s = String::new();
    push_str(&mut s, "$arg");
    push_decimal(&mut s, pos as u64);
    s
}

/// Appends every hole site of `node` to `out`, in walk order.
fn collect_sites(node: &TemplateNode, out: &mut Vec<Site>)
    ensures
        sites_view(final(out)@) == sites_view(old(out)@) + node_sites(node@),
    decreases node,
{
    let ghost v = node@;
    let ghost start = sites_view(out@);
    let mut i: usize = 0;
    while i < node.args.len()
        invariant
            i <= node.args.len(),
            v == node@,
            sites_view(out@) == start + arg_sites(v.widget, v.args.take(i as int)),
        decreases node.args.len() - i,
    {
        proof {
            assert(v.args.take(i as int + 1).drop_last() =~= v.args.take(i as int));
            assert(v.args[i as int] == node.args@[i as int]@);
        }
        match &node.args[i] {
            PropValue::Hole(h) => {
                let name = arg_name(i);
                push_site(out, *h, &node.widget, name);
                proof {
                    assert(start + arg_sites(v.widget, v.args.take(i as int + 1)) =~= (start + arg_sites(v.widget, v.args.take(i as int))).push((*h, v.widget, arg_site_name(i as nat))));
                }
            },
            PropValue::Static(_) => {},
        }
        i = i + 1;
    }
    proof {
        lemma_take_full(v.args);
    }
    let ghost mid = sites_view(out@);
    let mut i: usize = 0;
    while i < node.props.len()
        invariant
            i <= node.props.len(),
            v == node@,
            sites_view(out@) == mid + prop_sites(v.widget, v.props.take(i as int)),
        decreases node.props.len() - i,
    {
        proof {
            assert(v.props.take(i as int + 1).drop_last() =~= v.props.take(i as int));
            assert(v.props[i as int] == prop_pair_view(node.props@[i as int]));
        }
        match &node.props[i].1 {
            PropValue::Hole(h) => {
                let name = node.props[i].0.clone();
                push_site(out, *h, &node.widget, name);
                proof {
                    assert(mid + prop_sites(v.widget, v.props.take(i as int + 1)) =~= (mid + prop_sites(v.widget, v.props.take(i as int))).push((*h, v.widget, v.props[i as int].0)));
                }
            },
            PropValue::Static(_) => {},
        }
        i = i + 1;
    }
    proof {
        lemma_take_full(v.props);
    }
    let ghost mid2 = sites_view(out@);
    let mut i: usize = 0;
    while i < node.children.len()
        invariant
            i <= node.children.len(),
            v == node@,
            v.children.len() == node.children.len(),
            sites_view(out@) == mid2 + children_sites(v.children.take(i as int)),
        decreases node.children.len() - i,
    {
        proof {
            assert(v.children.take(i as int + 1).drop_last() =~= v.children.take(i as int));
        }
        collect_sites(&node.children[i], out);
        proof {
            assert(mid2 + children_sites(v.children.take(i as int + 1)) =~= mid2 + children_sites(v.children.take(i as int)) + node_sites(v.children[i as int]));
        }
        i = i + 1;
    }
    proof {
        lemma_take_full(v.children);
        assert(start + node_sites(v) =~= start + arg_sites(v.widget, v.args) + prop_sites(v.widget, v.props) + children_sites(v.children));
    }
}

/// Position of the last record of hole `idx` in `l`, if any.
fn last_record(l: &Vec<Site>, idx: usize) -> (r: Option<usize>)
    ensures
        match r {
            Some(k) => k < l.len() && l@[k as int].0 == idx && forall|j: int| k < j < l.len() ==> (#[trigger] l@[j]).0 != idx,
            None => forall|j: int| 0 <= j < l.len() ==> (#[trigger] l@[j]).0 != idx,
        },
{
    let mut i: usize = l.len();
    while i > 0
        invariant
            i <= l.len(),
            forall|j: int| i <= j < l.len() ==> (#[trigger] l@[j]).0 != idx,
        decreases i,
    {
        i = i - 1;
        if l[i].0 == idx {
            return Some(i);
        }
    }
    None
}

/// The lowest hole index of `old` whose site differs in `new`, if any.
fn find_retargeted(old: &Vec<Site>, new: &Vec<Site>) -> (r: Option<usize>)
    ensures
        match r {
            Some(m) => retargeted(slot_map(sites_view(old@)), slot_map(sites_view(new@)), m)
                && forall|j: usize| j < m ==> !retargeted(slot_map(sites_view(old@)), slot_map(sites_view(new@)), j),
            None => forall|j: usize| !retargeted(slot_map(sites_view(old@)), slot_map(sites_view(new@)), j),
        },
{
    let ghost ol = sites_view(old@);
    let ghost nl = sites_view(new@);
    let ghost om = slot_map(ol);
    let ghost nm = slot_map(nl);
    let mut best: Option<usize> = None;
    let mut j: usize = 0;
    while j < old.len()
        invariant
            j <= old.len(),
            ol == sites_view(old@),
            nl == sites_view(new@),
            om == slot_map(ol),
            nm == slot_map(nl),
            match best {
                Some(m) => retargeted(om, nm, m) && forall|q: int| 0 <= q < j && retargeted(om, nm, (#[trigger] ol[q]).0) ==> m <= ol[q].0,
                None => forall|q: int| 0 <= q < j ==> !retargeted(om, nm, (#[trigger] ol[q]).0),
            },
        decreases old.len() - j,
    {
        let idx = old[j].0;
        let ko = last_record(old, idx);
        let k = match ko {
            Some(k) => k,
            None => { assert(false); 0 },
        };
        proof {
            assert(ol[j as int].0 == idx);
            assert(ol[k as int].0 == idx);
            assert forall|q: int| k < q < ol.len() implies (#[trigger] ol[q]).0 != ol[k as int].0 by {
                assert(ol[q] == site_view(old@[q]));
            }
            lemma_slot_map_last(ol, k as int);
        }
        let kn = last_record(new, idx);
        let hit = match kn {
            None => {
                proof {
                    assert forall|q: int| 0 <= q < nl.len() implies (#[trigger] nl[q]).0 != idx by {
                        assert(nl[q] == site_view(new@[q]));
                    }
                    lemma_slot_map_domain(nl, idx);
                }
                true
            },
            Some(kk) => {
                proof {
                    assert(nl[kk as int].0 == idx);
                    assert forall|q: int| kk < q < nl.len() implies (#[trigger] nl[q]).0 != nl[kk as int].0 by {
                        assert(nl[q] == site_view(new@[q]));
                    }
                    lemma_slot_map_last(nl, kk as int);
                }
                let same = str_equal(old[k].1.as_str(), new[kk].1.as_str())
                    && str_equal(old[k].2.as_str(), new[kk].2.as_str());
                !same
            },
        };
        proof {
            assert(hit == retargeted(om, nm, idx));
        }
        if hit {
            match best {
                Some(m) => {
                    if idx < m {
                        best = Some(idx);
                    }
                },
                None => {
                    best = Some(idx);
                },
            }
        }
        j = j + 1;
    }
    proof {
        assert forall|i: usize| retargeted(om, nm, i) implies (match best { Some(m) => m <= i, None => false }) by {
            lemma_slot_map_domain(ol, i);
            let q = choose|q: int| 0 <= q < ol.len() && (#[trigger] ol[q]).0 == i;
        }
    }
    best
}

/// Diffs the currently running template `old` against an edited one `new`.
pub fn diff(old: &Template, new: &Template) -> (r: TemplateDiff)
    ensures
        r == diff_spec(old@, new@),
{
    if !old.key.equals(&new.key) {
        return TemplateDiff::Escalate(EscalationReason::KeyMismatch);
    }
    if old.root.equals(&new.root) {
        return TemplateDiff::Unchanged;
    }
    if old.hole_count != new.hole_count {
        return TemplateDiff::Escalate(EscalationReason::HoleCountChanged { old: old.hole_count, new: new.hole_count });
    }
    let mut old_sites: Vec<Site> = Vec::new();
    collect_sites(&old.root, &mut old_sites);
    let mut new_sites: Vec<Site> = Vec::new();
    collect_sites(&new.root, &mut new_sites);
    proof {
        assert(sites_view(old_sites@) =~= node_sites(old.root@));
        assert(sites_view(new_sites@) =~= node_sites(new.root@));
    }
    match find_retargeted(&old_sites, &new_sites) {
        Some(index) => {
            proof {
                let om = hole_slots(old.root@);
                let nm = hole_slots(new.root@);
                let c = first_retargeted(om, nm);
                assert(retargeted(om, nm, index));
                assert(retargeted(om, nm, c) && forall|j: usize| j < c ==> !retargeted(om, nm, j));
                if c < index {
                } else if index < c {
                }
                assert(c == index);
            }
            TemplateDiff::Escalate(EscalationReason::HoleSlotRetargeted { index })
        },
        None => TemplateDiff::Swappable,
    }
}


// ───────────────────────── laws ─────────────────────────

/// A literal that is not a NaN float.
pub open spec fn static_nan_free(v: StaticV) -> bool {
    match v {
        StaticV::Float(f) => !is_nan_bits(f),
        _ => true,
    }
}

pub open spec fn prop_nan_free(p: PropV) -> bool {
    match p {
        PropV::Static(v) => static_nan_free(v),
        PropV::Hole(_) => true,
    }
}

/// No literal anywhere in the tree is a NaN float.
pub open spec fn node_nan_free(n: NodeV) -> bool
    decreases n,
{
    &&& forall|i: int| 0 <= i < n.args.len() ==> prop_nan_free(#[trigger] n.args[i])
    &&& forall|i: int| 0 <= i < n.props.len() ==> prop_nan_free((#[trigger] n.props[i]).1)
    &&& children_nan_free(n.children)
}

pub open spec fn children_nan_free(s: Seq<NodeV>) -> bool
    decreases s,
{
    s.len() == 0 || (children_nan_free(s.drop_last()) && node_nan_free(s.last()))
}

pub proof fn lemma_node_eq_refl(n: NodeV)
    requires
        node_nan_free(n),
    ensures
        node_eq(n, n),
    decreases n,
{
    assert forall|i: int| 0 <= i < n.args.len() implies prop_eq(#[trigger] n.args[i], n.args[i]) by {
        assert(prop_nan_free(n.args[i]));
    }
    assert forall|i: int| 0 <= i < n.props.len() implies (#[trigger] n.props[i]).0 == n.props[i].0 && prop_eq(n.props[i].1, n.props[i].1) by {
        assert(prop_nan_free(n.props[i].1));
    }
    lemma_children_eq_refl(n.children);
}

pub proof fn lemma_children_eq_refl(s: Seq<NodeV>)
    requires
        children_nan_free(s),
    ensures
        children_eq(s, s),
    decreases s,
{
    if s.len() > 0 {
        lemma_children_eq_refl(s.drop_last());
        lemma_node_eq_refl(s.last());
    }
}

/// Diffing a template against itself reports it unchanged, provided no
/// literal in it is a NaN (a NaN literal is unequal to itself, exactly as
/// `f64`'s `==` says).
pub proof fn law_diff_reflexive(t: TemplateV)
    requires
        node_nan_free(t.root),
    ensures
        diff_spec(t, t) == TemplateDiff::Unchanged,
{
    lemma_node_eq_refl(t.root);
}

/// A hot-swappable verdict keeps the key and the hole count, and every hole
/// of the running template still feeds the same site in the edit.
pub proof fn law_swappable_preserves_sites(old: TemplateV, new: TemplateV)
    requires
        diff_spec(old, new) == TemplateDiff::Swappable,
    ensures
        old.key == new.key,
        old.hole_count == new.hole_count,
        forall|i: usize| #[trigger] hole_slots(old.root).contains_key(i) ==> hole_slots(new.root).contains_key(i)
            && hole_slots(new.root)[i] == hole_slots(old.root)[i],
{
    assert forall|i: usize| #[trigger] hole_slots(old.root).contains_key(i) implies hole_slots(new.root).contains_key(i)
        && hole_slots(new.root)[i] == hole_slots(old.root)[i] by {
        assert(!retargeted(hole_slots(old.root), hole_slots(new.root), i));
    }
}

/// A change in hole count always escalates (for the same site with a
/// changed shape).
pub proof fn law_hole_count_change_escalates(old: TemplateV, new: TemplateV)
    requires
        old.key == new.key,
        old.hole_count != new.hole_count,
        !node_eq(old.root, new.root),
    ensures
        diff_spec(old, new) == TemplateDiff::Escalate(EscalationReason::HoleCountChanged { old: old.hole_count, new: new.hole_count }),
{
}

/// An edit is reported unchanged only when it keeps the key and its tree
/// equals the running one literal for literal: the same root widget, the
/// same arguments and props (a changed literal, such as `8` to `16`, is a
/// change), and pairwise equal children.
pub proof fn law_unchanged_means_same_literals(old: TemplateV, new: TemplateV)
    requires
        diff_spec(old, new) == TemplateDiff::Unchanged,
    ensures
        old.key == new.key,
        node_eq(old.root, new.root),
        old.root.widget == new.root.widget,
        old.root.args.len() == new.root.args.len(),
        forall|i: int| 0 <= i < old.root.args.len() ==> same_value(#[trigger] old.root.args[i], new.root.args[i]),
        old.root.props.len() == new.root.props.len(),
        forall|i: int| 0 <= i < old.root.props.len() ==> (#[trigger] old.root.props[i]).0 == new.root.props[i].0
            && same_value(old.root.props[i].1, new.root.props[i].1),
{
    law_node_eq_literals(old.root, new.root);
}

} // verus!
