//! Turning a parsed `view!` body into a [`Template`].
//!
//! The syntax itself is read by the `view!` grammar crate; what it hands
//! over is the element tree below, with every argument and prop either a
//! literal or an expression. Literals become static values; every
//! expression becomes the next hole, numbered in walk order (a node's
//! positional args, then its props, then its children depth-first) — the
//! same order the compile-time macro assigns, so the running binary's hole
//! array lines up slot for slot.
use vstd::prelude::*;
use crate::template::descriptor::{
    node_extent, prop_pair_view, template_of, NodeV, PropV, PropValue, StaticV, StaticValue, Template,
    TemplateKey, TemplateNode, TemplateV, KeyV,
};
use crate::text::push_str;

verus! {

/// Why parsing a `view!` body failed.
#[derive(Debug, Clone, PartialEq, Eq)]
pub enum ParseError {
    /// The body did not parse as `view!` syntax (the grammar's message).
    Syntax(String),
}

/// `view! parse error: <message>`.
pub open spec fn parse_error_display(e: ParseError) -> Seq<char> {
    match e {
        ParseError::Syntax(m) => "view! parse error: "@ + m@,
    }
}

impl ParseError {
    /// The error's display text.
    pub fn to_display_string(&self) -> (r: String)
        ensures
            r@ == parse_error_display(*self),
    {
        match self {
            ParseError::Syntax(m) => {
                let mut s = String::new();
                push_str(&mut s, "view! parse error: ");
                push_str(&mut s, m.as_str());
                s
            },
        }
    }
}

/// A literal as the grammar reads it (`Float` holds the `f64` bit pattern).
#[derive(Debug, Clone)]
pub enum ViewLiteral {
    Bool(bool),
    Int(i64),
    Float(u64),
    Str(String),
}

impl View for ViewLiteral {
    type V = StaticV;

    open spec fn view(&self) -> StaticV {
        match self {
            ViewLiteral::Bool(b) => StaticV::Bool(*b),
            ViewLiteral::Int(i) => StaticV::Int(*i),
            ViewLiteral::Float(f) => StaticV::Float(*f),
            ViewLiteral::Str(s) => StaticV::Str(s@),
        }
    }
}

/// A positional constructor argument: a literal, or `None` for an expression.
#[derive(Debug, Clone)]
pub struct ViewArg {
    pub literal: Option<ViewLiteral>,
}

/// A `name: value` prop: a literal, or `None` for an expression.
#[derive(Debug, Clone)]
pub struct ViewProp {
    pub name: String,
    pub literal: Option<ViewLiteral>,
}

/// One element of a parsed `view!` body.
#[derive(Debug)]
pub struct ViewElement {
    pub name: String,
    pub args: Vec<ViewArg>,
    pub props: Vec<ViewProp>,
    pub children: Vec<ViewElement>,
}

/// One `view!` site found in a source file, with its 1-based line and the
/// column of its `view` token.
#[derive(Debug)]
pub struct ViewSite {
    pub line: usize,
    pub column: usize,
    pub element: ViewElement,
}

/// Model of a [`ViewElement`].
pub struct ElemV {
    pub name: Seq<char>,
    pub args: Seq<Option<StaticV>>,
    pub props: Seq<(Seq<char>, Option<StaticV>)>,
    pub children: Seq<ElemV>,
}

pub open spec fn lit_view(l: Option<ViewLiteral>) -> Option<StaticV> {
    match l {
        Some(x) => Some(x@),
        None => None,
    }
}

pub open spec fn empty_elem_v() -> ElemV {
    ElemV { name: Seq::empty(), args: Seq::empty(), props: Seq::empty(), children: Seq::empty() }
}

pub open spec fn elem_view(e: ViewElement) -> ElemV
    decreases e,
{
    ElemV {
        name: e.name@,
        args: e.args@.map_values(|a: ViewArg| lit_view(a.literal)),
        props: e.props@.map_values(|p: ViewProp| (p.name@, lit_view(p.literal))),
        children: Seq::new(
            e.children.len() as nat,
            |i: int| if 0 <= i < e.children.len() { elem_view(e.children@[i]) } else { empty_elem_v() },
        ),
    }
}

impl View for ViewElement {
    type V = ElemV;

    open spec fn view(&self) -> ElemV {
        elem_view(*self)
    }
}

// ───────────────────────── hole numbering ─────────────────────────

/// Expressions among positional args.
pub open spec fn arg_holes(s: Seq<Option<StaticV>>) -> nat
    decreases s.len(),
{
    if s.len() == 0 { 0 } else { arg_holes(s.drop_last()) + if s.last() is None { 1nat } else { 0nat } }
}

/// Expressions among props.
pub open spec fn prop_holes(s: Seq<(Seq<char>, Option<StaticV>)>) -> nat
    decreases s.len(),
{
    if s.len() == 0 { 0 } else { prop_holes(s.drop_last()) + if s.last().1 is None { 1nat } else { 0nat } }
}

/// Expressions in a whole subtree — the holes it takes.
pub open spec fn elem_holes(e: ElemV) -> nat
    decreases e,
{
    arg_holes(e.args) + prop_holes(e.props) + children_holes(e.children)
}

pub open spec fn children_holes(s: Seq<ElemV>) -> nat
    decreases s,
{
    if s.len() == 0 { 0 } else { children_holes(s.drop_last()) + elem_holes(s.last()) }
}

/// A literal stays a literal; an expression takes hole `h`.
pub open spec fn slot_for(l: Option<StaticV>, h: nat) -> PropV {
    match l {
        Some(v) => PropV::Static(v),
        None => PropV::Hole(h as usize),
    }
}

/// The template tree of `e` when its first expression takes hole `h`.
pub open spec fn to_node_spec(e: ElemV, h: nat) -> NodeV
    decreases e,
{
    let na = arg_holes(e.args);
    let np = prop_holes(e.props);
    NodeV {
        widget: e.name,
        args: Seq::new(e.args.len(), |i: int| slot_for(e.args[i], h + arg_holes(e.args.take(i)))),
        props: Seq::new(
            e.props.len(),
            |i: int| (e.props[i].0, slot_for(e.props[i].1, h + na + prop_holes(e.props.take(i)))),
        ),
        children: Seq::new(
            e.children.len(),
            |j: int|
                if 0 <= j < e.children.len() {
                    to_node_spec(e.children[j], h + na + np + children_holes(e.children.take(j)))
                } else {
                    crate::template::descriptor::empty_node_v()
                },
        ),
    }
}

fn literal_value(l: &ViewLiteral) -> (r: StaticValue)
    ensures
        r@ == l@,
{
    match l {
        ViewLiteral::Bool(b) => StaticValue::Bool(*b),
        ViewLiteral::Int(i) => StaticValue::Int(*i),
        ViewLiteral::Float(f) => StaticValue::Float(*f),
        ViewLiteral::Str(s) => StaticValue::Str(s.clone()),
    }
}

pub proof fn lemma_take_step<A>(s: Seq<A>, i: int)
    requires
        0 <= i < s.len(),
    ensures
        s.take(i + 1).drop_last() == s.take(i),
        s.take(i + 1).last() == s[i],
{
    assert(s.take(i + 1).drop_last() =~= s.take(i));
}

/// Builds the template tree of `el`, numbering its expressions from `*hole`
/// on and leaving `*hole` past the last one.
fn to_node(el: &ViewElement, hole: &mut usize) -> (r: TemplateNode)
    requires
        *old(hole) + elem_holes(el@) <= usize::MAX,
    ensures
        r@ == to_node_spec(el@, *old(hole) as nat),
        *final(hole) == *old(hole) + elem_holes(el@),
    decreases el,
{
    let ghost e = el@;
    let ghost h0 = *hole as nat;
    let ghost na = arg_holes(e.args);
    let ghost np = prop_holes(e.props);
    let ghost target = to_node_spec(e, h0);
    let mut node = TemplateNode::new(el.name.as_str());
    let mut i: usize = 0;
    while i < el.args.len()
        invariant
            i <= el.args.len(),
            e == el@,
            h0 + elem_holes(e) <= usize::MAX,
            target == to_node_spec(e, h0),
            *hole == h0 + arg_holes(e.args.take(i as int)),
            node@.widget == e.name,
            node@.args == target.args.take(i as int),
            node@.props.len() == 0,
            node@.children.len() == 0,
        decreases el.args.len() - i,
    {
        proof {
            lemma_take_step(e.args, i as int);
            assert(e.args[i as int] == lit_view(el.args@[i as int].literal));
            crate::template::parse::lemma_arg_holes_prefix(e.args, i as int + 1);
        }
        match &el.args[i].literal {
            Some(lit) => {
                node = node.with_arg_static(literal_value(lit));
            },
            None => {
                let idx = *hole;
                *hole = *hole + 1;
                node = node.with_arg_hole(idx);
            },
        }
        proof {
            assert(node@.args =~= target.args.take(i as int + 1));
        }
        i = i + 1;
    }
    proof {
        assert(e.args.take(e.args.len() as int) =~= e.args);
        assert(target.args.take(e.args.len() as int) =~= target.args);
    }
    let mut i: usize = 0;
    while i < el.props.len()
        invariant
            i <= el.props.len(),
            e == el@,
            h0 + elem_holes(e) <= usize::MAX,
            target == to_node_spec(e, h0),
            *hole == h0 + na + prop_holes(e.props.take(i as int)),
            na == arg_holes(e.args),
            node@.widget == e.name,
            node@.args == target.args,
            node@.props == target.props.take(i as int),
            node@.children.len() == 0,
        decreases el.props.len() - i,
    {
        proof {
            lemma_take_step(e.props, i as int);
            assert(e.props[i as int] == (el.props@[i as int].name@, lit_view(el.props@[i as int].literal)));
            crate::template::parse::lemma_prop_holes_prefix(e.props, i as int + 1);
        }
        match &el.props[i].literal {
            Some(lit) => {
                node = node.with_static(el.props[i].name.as_str(), literal_value(lit));
            },
            None => {
                let idx = *hole;
                *hole = *hole + 1;
                node = node.with_hole(el.props[i].name.as_str(), idx);
            },
        }
        proof {
            assert(node@.props =~= target.props.take(i as int + 1));
        }
        i = i + 1;
    }
    proof {
        assert(e.props.take(e.props.len() as int) =~= e.props);
        assert(target.props.take(e.props.len() as int) =~= target.props);
    }
    let mut j: usize = 0;
    while j < el.children.len()
        invariant
            j <= el.children.len(),
            e == el@,
            e.children.len() == el.children.len(),
            h0 + elem_holes(e) <= usize::MAX,
            target == to_node_spec(e, h0),
            na == arg_holes(e.args),
            np == prop_holes(e.props),
            *hole == h0 + na + np + children_holes(e.children.take(j as int)),
            node@.widget == e.name,
            node@.args == target.args,
            node@.props == target.props,
            node@.children == target.children.take(j as int),
        decreases el.children.len() - j,
    {
        proof {
            lemma_take_step(e.children, j as int);
            crate::template::parse::lemma_children_holes_prefix(e.children, j as int + 1);
        }
        let child = to_node(&el.children[j], hole);
        node = node.with_child(child);
        proof {
            assert(node@.children =~= target.children.take(j as int + 1));
        }
        j = j + 1;
    }
    proof {
        assert(e.children.take(e.children.len() as int) =~= e.children);
        assert(target.children.take(e.children.len() as int) =~= target.children);
        assert(node@ == target);
    }
    node
}

pub proof fn lemma_arg_holes_prefix(s: Seq<Option<StaticV>>, i: int)
    requires
        0 <= i <= s.len(),
    ensures
        arg_holes(s.take(i)) <= arg_holes(s),
    decreases s.len(),
{
    if i < s.len() {
        lemma_arg_holes_prefix(s.drop_last(), i);
        assert(s.drop_last().take(i) =~= s.take(i));
    } else {
        assert(s.take(i) =~= s);
    }
}

pub proof fn lemma_prop_holes_prefix(s: Seq<(Seq<char>, Option<StaticV>)>, i: int)
    requires
        0 <= i <= s.len(),
    ensures
        prop_holes(s.take(i)) <= prop_holes(s),
    decreases s.len(),
{
    if i < s.len() {
        lemma_prop_holes_prefix(s.drop_last(), i);
        assert(s.drop_last().take(i) =~= s.take(i));
    } else {
        assert(s.take(i) =~= s);
    }
}

pub proof fn lemma_children_holes_prefix(s: Seq<ElemV>, i: int)
    requires
        0 <= i <= s.len(),
    ensures
        children_holes(s.take(i)) <= children_holes(s),
    decreases s.len(),
{
    if i < s.len() {
        lemma_children_holes_prefix(s.drop_last(), i);
        assert(s.drop_last().take(i) =~= s.take(i));
    } else {
        assert(s.take(i) =~= s);
    }
}


/// The template a parsed `view!` body describes, keyed by `key`; its
/// expressions take holes `0, 1, 2, …` in walk order.
pub fn template_from_element(el: &ViewElement, key: TemplateKey) -> (r: Template)
    requires
        elem_holes(el@) < usize::MAX,
    ensures
        r@ == template_of(key@, to_node_spec(el@, 0)),
        r.hole_count == elem_holes(el@),
        node_extent(r.root@) == elem_holes(el@),
{
    let mut hole: usize = 0;
    let root = to_node(el, &mut hole);
    proof {
        lemma_to_node_extent(el@, 0);
    }
    Template::new(key, root)
}

/// The key of the site at `line`/`column` in `file` (narrowed to `u32`, as
/// the compile-time key stores them).
pub open spec fn site_key(file: Seq<char>, line: usize, column: usize) -> KeyV {
    KeyV { file, line: line as u32, col: column as u32 }
}

/// Every `view!` site of a file as a keyed template, in file order.
pub fn templates_from_sites(sites: &Vec<ViewSite>, file: &str) -> (r: Vec<Template>)
    requires
        forall|i: int| 0 <= i < sites.len() ==> elem_holes((#[trigger] sites@[i]).element@) < usize::MAX,
    ensures
        r.len() == sites.len(),
        forall|i: int| 0 <= i < sites.len() ==> (#[trigger] r@[i])@ == template_of(
            site_key(file@, sites@[i].line, sites@[i].column),
            to_node_spec(sites@[i].element@, 0),
        ),
{
    let mut out: Vec<Template> = Vec::new();
    let mut i: usize = 0;
    while i < sites.len()
        invariant
            i <= sites.len(),
            out.len() == i,
            forall|q: int| 0 <= q < sites.len() ==> elem_holes((#[trigger] sites@[q]).element@) < usize::MAX,
            forall|q: int| 0 <= q < i ==> (#[trigger] out@[q])@ == template_of(
                site_key(file@, sites@[q].line, sites@[q].column),
                to_node_spec(sites@[q].element@, 0),
            ),
        decreases sites.len() - i,
    {
        let site = &sites[i];
        let key = TemplateKey::new(file, site.line as u32, site.column as u32);
        let t = template_from_element(&site.element, key);
        out.push(t);
        i = i + 1;
    }
    out
}

// ───────────────────────── the hole-count law ─────────────────────────

/// With its first expression at hole `h`, a subtree with `k` expressions
/// references exactly holes `h .. h + k`: its hole extent is `h + k`, or
/// zero when it has none.
pub proof fn lemma_to_node_extent(e: ElemV, h: nat)
    requires
        h + elem_holes(e) <= usize::MAX,
    ensures
        node_extent(to_node_spec(e, h)) == if elem_holes(e) == 0 { 0 } else { h + elem_holes(e) },
    decreases e, e.children.len() + 1,
{
    let n = to_node_spec(e, h);
    let na = arg_holes(e.args);
    let np = prop_holes(e.props);
    lemma_args_extent_conv(e, h, e.args.len() as int);
    lemma_props_extent_conv(e, h, e.props.len() as int);
    lemma_children_extent_conv(e, h, e.children.len() as int);
    assert(e.args.take(e.args.len() as int) =~= e.args);
    assert(e.props.take(e.props.len() as int) =~= e.props);
    assert(e.children.take(e.children.len() as int) =~= e.children);
    assert(n.args.take(n.args.len() as int) =~= n.args);
    assert(n.props.take(n.props.len() as int) =~= n.props);
    assert(n.children.take(n.children.len() as int) =~= n.children);
}

/// `h + k` holes from `h` on, or none.
pub open spec fn ext(h: nat, k: nat) -> nat {
    if k == 0 { 0 } else { h + k }
}

proof fn lemma_args_extent_conv(e: ElemV, h: nat, i: int)
    requires
        0 <= i <= e.args.len(),
        h + elem_holes(e) <= usize::MAX,
    ensures
        crate::template::descriptor::args_extent(to_node_spec(e, h).args.take(i)) == ext(h, arg_holes(e.args.take(i))),
    decreases i,
{
    let conv = to_node_spec(e, h).args;
    if i == 0 {
        assert(conv.take(0) =~= Seq::<PropV>::empty());
        assert(e.args.take(0) =~= Seq::<Option<StaticV>>::empty());
    } else {
        lemma_args_extent_conv(e, h, i - 1);
        lemma_take_step(conv, i - 1);
        lemma_take_step(e.args, i - 1);
        lemma_arg_holes_prefix(e.args, i);
    }
}

proof fn lemma_props_extent_conv(e: ElemV, h: nat, i: int)
    requires
        0 <= i <= e.props.len(),
        h + elem_holes(e) <= usize::MAX,
    ensures
        crate::template::descriptor::props_extent(to_node_spec(e, h).props.take(i)) == ext(h + arg_holes(e.args), prop_holes(e.props.take(i))),
    decreases i,
{
    let conv = to_node_spec(e, h).props;
    if i == 0 {
        assert(conv.take(0) =~= Seq::<(Seq<char>, PropV)>::empty());
        assert(e.props.take(0) =~= Seq::<(Seq<char>, Option<StaticV>)>::empty());
    } else {
        lemma_props_extent_conv(e, h, i - 1);
        lemma_take_step(conv, i - 1);
        lemma_take_step(e.props, i - 1);
        lemma_prop_holes_prefix(e.props, i);
    }
}

proof fn lemma_children_extent_conv(e: ElemV, h: nat, j: int)
    requires
        0 <= j <= e.children.len(),
        h + elem_holes(e) <= usize::MAX,
    ensures
        crate::template::descriptor::children_extent(to_node_spec(e, h).children.take(j))
            == ext(h + arg_holes(e.args) + prop_holes(e.props), children_holes(e.children.take(j))),
    decreases e, j,
{
    let conv = to_node_spec(e, h).children;
    let base = h + arg_holes(e.args) + prop_holes(e.props);
    if j == 0 {
        assert(conv.take(0) =~= Seq::<NodeV>::empty());
        assert(e.children.take(0) =~= Seq::<ElemV>::empty());
    } else {
        lemma_children_extent_conv(e, h, j - 1);
        lemma_take_step(conv, j - 1);
        lemma_take_step(e.children, j - 1);
        lemma_children_holes_prefix(e.children, j);
        lemma_to_node_extent(e.children[j - 1], base + children_holes(e.children.take(j - 1)));
    }
}

} // verus!
