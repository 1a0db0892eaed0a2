//! The inflater's checks: which widget names it can build, how a prop
//! value resolves against the supplied holes, and why an inflation fails.
use vstd::prelude::*;
use crate::keyed::{entries_view, find_name, index_of, law_upsert_lookup, lookup, upsert, upsert_entry};
use crate::template::descriptor::{prop_pair_view, NodeV, PropV, PropValue, StaticValue, Template, TemplateNode};
use crate::text::{decimal, push_decimal, push_str};

verus! {

/// Why an inflation failed. Every case escalates rather than building a
/// wrong tree.
#[derive(Debug, Clone, PartialEq, Eq)]
pub enum InflateError {
    /// No widget is registered under this name.
    UnknownWidget(String),
    /// A registered widget got a prop it does not understand.
    UnknownProp { widget: String, prop: String },
    /// A prop's value has the wrong type for its setter.
    PropType { widget: String, prop: String, expected: &'static str },
    /// A leaf widget was given children.
    UnexpectedChildren { widget: String },
    /// A hole index past the end of the supplied holes.
    HoleOutOfRange { index: usize, len: usize },
}

/// Model of an [`InflateError`].
pub enum InflateErrorV {
    UnknownWidget(Seq<char>),
    UnknownProp(Seq<char>, Seq<char>),
    PropType(Seq<char>, Seq<char>, Seq<char>),
    UnexpectedChildren(Seq<char>),
    HoleOutOfRange(usize, usize),
}

impl View for InflateError {
    type V = InflateErrorV;

    open spec fn view(&self) -> InflateErrorV {
        match self {
            InflateError::UnknownWidget(w) => InflateErrorV::UnknownWidget(w@),
            InflateError::UnknownProp { widget, prop } => InflateErrorV::UnknownProp(widget@, prop@),
            InflateError::PropType { widget, prop, expected } => InflateErrorV::PropType(widget@, prop@, expected@),
            InflateError::UnexpectedChildren { widget } => InflateErrorV::UnexpectedChildren(widget@),
            InflateError::HoleOutOfRange { index, len } => InflateErrorV::HoleOutOfRange(*index, *len),
        }
    }
}

/// The error's display text.
pub open spec fn inflate_error_text(e: InflateErrorV) -> Seq<char> {
    match e {
        InflateErrorV::UnknownWidget(w) => "unknown widget `"@ + w + "`"@,
        InflateErrorV::UnknownProp(w, p) => "`"@ + w + "` has no prop `"@ + p + "`"@,
        InflateErrorV::PropType(w, p, x) => "`"@ + w + "."@ + p + "` expected "@ + x,
        InflateErrorV::UnexpectedChildren(w) => "`"@ + w + "` cannot have children"@,
        InflateErrorV::HoleOutOfRange(i, n) => "hole #"@ + decimal(i as nat) + " out of range (only "@
            + decimal(n as nat) + " supplied)"@,
    }
}

impl InflateError {
    /// The error's display text.
    pub fn to_display_string(&self) -> (r: String)
        ensures
            r@ == inflate_error_text(self@),
    {
        let mut s = String::new();
        match self {
            InflateError::UnknownWidget(w) => {
                push_str(&mut s, "unknown widget `");
                push_str(&mut s, w.as_str());
                push_str(&mut s, "`");
            },
            InflateError::UnknownProp { widget, prop } => {
                push_str(&mut s, "`");
                push_str(&mut s, widget.as_str());
                push_str(&mut s, "` has no prop `");
                push_str(&mut s, prop.as_str());
                push_str(&mut s, "`");
            },
            InflateError::PropType { widget, prop, expected } => {
                push_str(&mut s, "`");
                push_str(&mut s, widget.as_str());
                push_str(&mut s, ".");
                push_str(&mut s, prop.as_str());
                push_str(&mut s, "` expected ");
                push_str(&mut s, expected);
            },
            InflateError::UnexpectedChildren { widget } => {
                push_str(&mut s, "`");
                push_str(&mut s, widget.as_str());
                push_str(&mut s, "` cannot have children");
            },
            InflateError::HoleOutOfRange { index, len } => {
                push_str(&mut s, "hole #");
                push_decimal(&mut s, *index as u64);
                push_str(&mut s, " out of range (only ");
                push_decimal(&mut s, *len as u64);
                push_str(&mut s, " supplied)");
            },
        }
        proof {
            assert(s@ =~= inflate_error_text(self@));
        }
        s
    }
}

/// A prop value resolved against the supplied holes: a literal, or the
/// index of a hole that exists.
#[derive(Debug)]
pub enum Resolved<'a> {
    Static(&'a StaticValue),
    Hole(usize),
}

impl<'a> View for Resolved<'a> {
    type V = PropV;

    /// A resolved value is the prop value it came from.
    open spec fn view(&self) -> PropV {
        match self {
            Resolved::Static(v) => PropV::Static(v@),
            Resolved::Hole(i) => PropV::Hole(*i),
        }
    }
}

pub open spec fn resolved_view(v: Seq<Resolved<'_>>) -> Seq<PropV> {
    v.map_values(|x: Resolved<'_>| x@)
}

pub open spec fn resolved_props_view(v: Seq<(String, Resolved<'_>)>) -> Seq<(Seq<char>, PropV)> {
    v.map_values(|kv: (String, Resolved<'_>)| (kv.0@, kv.1@))
}

/// Resolves `value` against `holes_len` supplied holes: a literal passes
/// through; a hole binds to its slot, or escalates when out of range.
pub fn resolve(value: &PropValue, holes_len: usize) -> (r: Result<Resolved<'_>, InflateError>)
    ensures
        match value@ {
            PropV::Static(s) => r matches Ok(Resolved::Static(v)) && v@ == s,
            PropV::Hole(i) => if i < holes_len {
                r == Ok::<Resolved<'_>, InflateError>(Resolved::Hole(i))
            } else {
                r matches Err(e) && e@ == InflateErrorV::HoleOutOfRange(i, holes_len)
            },
        },
{
    match value {
        PropValue::Static(s) => Ok(Resolved::Static(s)),
        PropValue::Hole(i) => if *i < holes_len {
            Ok(Resolved::Hole(*i))
        } else {
            Err(InflateError::HoleOutOfRange { index: *i, len: holes_len })
        },
    }
}

/// The names the inflater can build, each with the data its builder needs.
pub struct WidgetRegistry<B> {
    builders: Vec<(String, B)>,
}

impl<B> View for WidgetRegistry<B> {
    type V = Seq<(Seq<char>, B)>;

    closed spec fn view(&self) -> Seq<(Seq<char>, B)> {
        entries_view(self.builders@)
    }
}

impl<B> WidgetRegistry<B> {
    /// A registry holding no names.
    pub fn new() -> (r: WidgetRegistry<B>)
        ensures
            r@ == Seq::<(Seq<char>, B)>::empty(),
    {
        let r = WidgetRegistry { builders: Vec::new() };
        proof {
            assert(r@ =~= Seq::<(Seq<char>, B)>::empty());
        }
        r
    }

    /// A registry holding the built-in widgets, `Column`, `Row`, `Text` and
    /// `Button`, with the given builders.
    pub fn with_builtins(column: B, row: B, text: B, button: B) -> (r: WidgetRegistry<B>)
        ensures
            lookup(r@, "Column"@) == Some(column),
            lookup(r@, "Row"@) == Some(row),
            lookup(r@, "Text"@) == Some(text),
            lookup(r@, "Button"@) == Some(button),
            r@.len() == 4,
    {
        let mut r = WidgetRegistry::new();
        let ghost (c, w, t, b) = (column, row, text, button);
        r.register_widget("Column", column);
        let ghost s1 = r@;
        r.register_widget("Row", row);
        let ghost s2 = r@;
        r.register_widget("Text", text);
        let ghost s3 = r@;
        r.register_widget("Button", button);
        proof {
            reveal_strlit("Column");
            reveal_strlit("Row");
            reveal_strlit("Text");
            reveal_strlit("Button");
            let s0 = Seq::<(Seq<char>, B)>::empty();
            assert(index_of(s0, "Column"@) == -1);
            assert(s1 == s0.push(("Column"@, c)));
            assert("Column"@.len() == 6 && "Row"@.len() == 3 && "Text"@.len() == 4 && "Button"@.len() == 6);
            assert("Column"@[0] == 'C' && "Button"@[0] == 'B');
            assert("Column"@ != "Row"@ && "Column"@ != "Text"@ && "Column"@ != "Button"@);
            assert("Row"@ != "Text"@ && "Row"@ != "Button"@ && "Text"@ != "Button"@);
            assert(s1.drop_last() =~= s0);
            assert(index_of(s0, "Row"@) == -1 && index_of(s0, "Text"@) == -1 && index_of(s0, "Button"@) == -1);
            assert(index_of(s1, "Row"@) == -1);
            assert(s2 == s1.push(("Row"@, w)));
            assert(s2.drop_last() =~= s1);
            assert(index_of(s1, "Text"@) == -1);
            assert(index_of(s2, "Text"@) == -1);
            assert(s3 == s2.push(("Text"@, t)));
            assert(s3.drop_last() =~= s2);
            assert(index_of(s1, "Button"@) == -1);
            assert(index_of(s2, "Button"@) == -1);
            assert(index_of(s3, "Button"@) == -1);
            law_upsert_lookup(s3, "Button"@, b, "Column"@);
            law_upsert_lookup(s3, "Button"@, b, "Row"@);
            law_upsert_lookup(s3, "Button"@, b, "Text"@);
            law_upsert_lookup(s3, "Button"@, b, "Button"@);
            law_upsert_lookup(s2, "Text"@, t, "Column"@);
            law_upsert_lookup(s2, "Text"@, t, "Row"@);
            law_upsert_lookup(s2, "Text"@, t, "Text"@);
            law_upsert_lookup(s1, "Row"@, w, "Column"@);
            law_upsert_lookup(s1, "Row"@, w, "Row"@);
            law_upsert_lookup(s0, "Column"@, c, "Column"@);
        }
        r
    }

    /// Registers (or replaces) the builder for `name`.
    pub fn register_widget(&mut self, name: &str, build: B)
        ensures
            final(self)@ == upsert(old(self)@, name@, build),
    {
        upsert_entry(&mut self.builders, name.to_owned(), build);
    }

    /// The builder registered for `name`, or `UnknownWidget(name)`.
    pub fn builder(&self, name: &str) -> (r: Result<&B, InflateError>)
        ensures
            index_of(self@, name@) >= 0 ==> (r matches Ok(b) && *b == self@[index_of(self@, name@)].1),
            index_of(self@, name@) < 0 ==> (r matches Err(e) && e@ == InflateErrorV::UnknownWidget(name@)),
    {
        match find_name(&self.builders, name) {
            Some(i) => Ok(&self.builders[i].1),
            None => Err(InflateError::UnknownWidget(name.to_owned())),
        }
    }
}

/// The registry `s` after registering each of `regs` in order.
pub open spec fn after_registrations<B>(s: Seq<(Seq<char>, B)>, regs: Seq<(Seq<char>, B)>) -> Seq<(Seq<char>, B)>
    decreases regs.len(),
{
    if regs.len() == 0 {
        s
    } else {
        let prev = after_registrations(s, regs.drop_last());
        upsert(prev, regs.last().0, regs.last().1)
    }
}

/// Registering never drops a name: after any registrations, every name that
/// was registered before, and every name registered since, is registered.
pub proof fn law_names_stay_registered<B>(s: Seq<(Seq<char>, B)>, regs: Seq<(Seq<char>, B)>, u: Seq<char>)
    ensures
        (index_of(s, u) >= 0 || exists|i: int| 0 <= i < regs.len() && (#[trigger] regs[i]).0 == u)
            ==> index_of(after_registrations(s, regs), u) >= 0,
    decreases regs.len(),
{
    if regs.len() > 0 {
        let before = regs.drop_last();
        let prev = after_registrations(s, before);
        law_names_stay_registered(s, before, u);
        law_upsert_lookup(prev, regs.last().0, regs.last().1, u);
        if exists|i: int| 0 <= i < regs.len() && (#[trigger] regs[i]).0 == u {
            let i = choose|i: int| 0 <= i < regs.len() && (#[trigger] regs[i]).0 == u;
            if i < before.len() {
                assert(before[i] == regs[i]);
            }
        }
    }
}

/// Whether a widget name is registered.
pub fn is_registered<B>(reg: &WidgetRegistry<B>, name: &str) -> (r: bool)
    ensures
        r == (index_of(reg@, name@) >= 0),
{
    find_name(&reg.builders, name).is_some()
}

// ───────────────────────── inflation ─────────────────────────

/// Builds one widget from its resolved arguments and props and its already
/// built children: implemented by each registered widget kind.
pub trait WidgetBuilder<W> {
    fn build(&self, args: &Vec<Resolved<'_>>, props: &Vec<(String, Resolved<'_>)>, children: Vec<W>) -> Result<W, InflateError>;
}

/// The first hole in `vals` past the `len` supplied ones, as the error it
/// raises.
pub open spec fn first_bad_hole(vals: Seq<PropV>, len: usize) -> Option<InflateErrorV>
    decreases vals.len(),
{
    if vals.len() == 0 {
        None
    } else {
        match vals[0] {
            PropV::Hole(i) => if i >= len {
                Some(InflateErrorV::HoleOutOfRange(i, len))
            } else {
                first_bad_hole(vals.drop_first(), len)
            },
            PropV::Static(_) => first_bad_hole(vals.drop_first(), len),
        }
    }
}

pub open spec fn prop_values(props: Seq<(Seq<char>, PropV)>) -> Seq<PropV> {
    props.map_values(|kv: (Seq<char>, PropV)| kv.1)
}

/// The error resolving a node's own arguments, then props, raises first.
pub open spec fn root_hole_error(n: NodeV, len: usize) -> Option<InflateErrorV> {
    match first_bad_hole(n.args, len) {
        Some(e) => Some(e),
        None => first_bad_hole(prop_values(n.props), len),
    }
}

/// Every hole in the tree is supplied and every widget name is registered.
pub open spec fn tree_ok<B>(n: NodeV, len: usize, reg: Seq<(Seq<char>, B)>) -> bool
    decreases n,
{
    &&& root_hole_error(n, len) is None
    &&& index_of(reg, n.widget) >= 0
    &&& children_ok(n.children, len, reg)
}

pub open spec fn children_ok<B>(s: Seq<NodeV>, len: usize, reg: Seq<(Seq<char>, B)>) -> bool
    decreases s,
{
    if s.len() == 0 {
        true
    } else {
        children_ok(s.drop_last(), len, reg) && tree_ok(s.last(), len, reg)
    }
}

/// Resolves `vals[k..]` in order, appending to `out`; the first hole past
/// `holes_len` stops it with its error.
fn resolve_all<'a>(vals: &'a Vec<PropValue>, holes_len: usize, out: &mut Vec<Resolved<'a>>) -> (r: Result<(), InflateError>)
    ensures
        match r {
            Ok(_) => first_bad_hole(vals@.map_values(|p: PropValue| p@), holes_len) is None
                && resolved_view(final(out)@) == resolved_view(old(out)@) + vals@.map_values(|p: PropValue| p@),
            Err(x) => first_bad_hole(vals@.map_values(|p: PropValue| p@), holes_len) == Some(x@),
        },
{
    let ghost vs = vals@.map_values(|p: PropValue| p@);
    let mut k: usize = 0;
    proof {
        assert(vs.skip(0) =~= vs);
    }
    while k < vals.len()
        invariant
            k <= vals@.len(),
            vs == vals@.map_values(|p: PropValue| p@),
            first_bad_hole(vs, holes_len) == first_bad_hole(vs.skip(k as int), holes_len),
            resolved_view(out@) == resolved_view(old(out)@) + vs.take(k as int),
        decreases vals@.len() - k,
    {
        proof {
            assert(vs.skip(k as int)[0] == vals@[k as int]@);
            assert(vs.skip(k as int).drop_first() =~= vs.skip(k + 1));
        }
        match resolve(&vals[k], holes_len) {
            Ok(x) => {
                let ghost before = resolved_view(out@);
                out.push(x);
                proof {
                    assert(resolved_view(out@) =~= before.push(vs[k as int]));
                    assert(vs.take(k + 1) =~= vs.take(k as int).push(vs[k as int]));
                }
            },
            Err(e) => {
                return Err(e);
            },
        }
        k = k + 1;
    }
    proof {
        assert(vs.skip(k as int) =~= Seq::<PropV>::empty());
        assert(vs.take(k as int) =~= vs);
    }
    Ok(())
}

/// Resolves the values of `props` in order, keeping their names.
fn resolve_props<'a>(props: &'a Vec<(String, PropValue)>, holes_len: usize) -> (r: Result<Vec<(String, Resolved<'a>)>, InflateError>)
    ensures
        match r {
            Ok(out) => first_bad_hole(prop_values(props@.map_values(|kv: (String, PropValue)| prop_pair_view(kv))), holes_len) is None
                && resolved_props_view(out@) == props@.map_values(|kv: (String, PropValue)| prop_pair_view(kv)),
            Err(x) => first_bad_hole(prop_values(props@.map_values(|kv: (String, PropValue)| prop_pair_view(kv))), holes_len)
                == Some(x@),
        },
{
    let ghost vs = prop_values(props@.map_values(|kv: (String, PropValue)| prop_pair_view(kv)));
    let mut out: Vec<(String, Resolved<'a>)> = Vec::new();
    let mut k: usize = 0;
    proof {
        assert(vs.skip(0) =~= vs);
    }
    while k < props.len()
        invariant
            k <= props@.len(),
            vs == prop_values(props@.map_values(|kv: (String, PropValue)| prop_pair_view(kv))),
            first_bad_hole(vs, holes_len) == first_bad_hole(vs.skip(k as int), holes_len),
            resolved_props_view(out@) == props@.map_values(|kv: (String, PropValue)| prop_pair_view(kv)).take(k as int),
        decreases props@.len() - k,
    {
        proof {
            assert(vs.skip(k as int)[0] == props@[k as int].1@);
            assert(vs.skip(k as int).drop_first() =~= vs.skip(k + 1));
        }
        match resolve(&props[k].1, holes_len) {
            Ok(x) => {
                let ghost before = resolved_props_view(out@);
                let name = props[k].0.clone();
                out.push((name, x));
                proof {
                    let pv = props@.map_values(|kv: (String, PropValue)| prop_pair_view(kv));
                    assert(resolved_props_view(out@) =~= before.push(pv[k as int]));
                    assert(pv.take(k + 1) =~= pv.take(k as int).push(pv[k as int]));
                }
            },
            Err(e) => {
                return Err(e);
            },
        }
        k = k + 1;
    }
    proof {
        assert(vs.skip(k as int) =~= Seq::<PropV>::empty());
        let pv = props@.map_values(|kv: (String, PropValue)| prop_pair_view(kv));
        assert(pv.take(k as int) =~= pv);
    }
    Ok(out)
}

/// `r` can be what the builder `b` returns when handed resolved arguments
/// `args`, props `props` (names kept, in order) and built children
/// `children`, in order.
pub open spec fn built_by<W, B: WidgetBuilder<W>>(
    b: B,
    args: Seq<PropV>,
    props: Seq<(Seq<char>, PropV)>,
    children: Seq<W>,
    r: Result<W, InflateError>,
) -> bool {
    exists|a: Vec<Resolved<'static>>, p: Vec<(String, Resolved<'static>)>, ws: Vec<W>|
        #![trigger call_ensures(B::build, (&b, &a, &p, ws), r)]
        resolved_view(a@) == args && resolved_props_view(p@) == props && ws@ == children
            && call_ensures(B::build, (&b, &a, &p, ws), r)
}

/// `r` can be the result of inflating `n` against `len` supplied holes with
/// the builders `reg`: a hole past the supplied ones in the node's arguments,
/// then its props, escalates; else its children are inflated in order, the
/// first failure being the result; else an unregistered widget escalates as
/// `UnknownWidget`, and a registered one is built by its builder from the
/// node's arguments, props and the children's results, in order.
pub open spec fn inflates<W, B: WidgetBuilder<W>>(
    reg: Seq<(Seq<char>, B)>,
    n: NodeV,
    len: usize,
    r: Result<W, InflateError>,
) -> bool
    decreases n,
{
    match root_hole_error(n, len) {
        Some(e) => r matches Err(x) && x@ == e,
        None => exists|ws: Seq<W>|
            #[trigger] results(ws) && children_inflate(reg, n.children, len, ws) && if ws.len() < n.children.len() {
                child_fails(reg, n.children, len, ws.len() as int, r)
            } else if index_of(reg, n.widget) < 0 {
                r matches Err(x) && x@ == InflateErrorV::UnknownWidget(n.widget)
            } else {
                built_by(reg[index_of(reg, n.widget)].1, n.args, n.props, ws, r)
            },
    }
}

/// `ws` are built children (a name to quantify over them by).
pub open spec fn results<W>(ws: Seq<W>) -> bool {
    true
}

/// `ws` are results of inflating the first `ws.len()` of `kids`, in order.
pub open spec fn children_inflate<W, B: WidgetBuilder<W>>(
    reg: Seq<(Seq<char>, B)>,
    kids: Seq<NodeV>,
    len: usize,
    ws: Seq<W>,
) -> bool
    decreases kids,
{
    if ws.len() > kids.len() {
        false
    } else if kids.len() == 0 {
        true
    } else if ws.len() == kids.len() {
        children_inflate(reg, kids.drop_last(), len, ws.drop_last()) && inflates(
            reg,
            kids.last(),
            len,
            Ok::<W, InflateError>(ws.last()),
        )
    } else {
        children_inflate(reg, kids.drop_last(), len, ws)
    }
}

proof fn lemma_children_inflate_extend<W, B: WidgetBuilder<W>>(
    reg: Seq<(Seq<char>, B)>,
    kids: Seq<NodeV>,
    len: usize,
    ws: Seq<W>,
    w: W,
)
    requires
        children_inflate(reg, kids, len, ws),
        ws.len() < kids.len(),
        inflates(reg, kids[ws.len() as int], len, Ok::<W, InflateError>(w)),
    ensures
        children_inflate(reg, kids, len, ws.push(w)),
    decreases kids.len(),
{
    assert(ws.push(w).drop_last() =~= ws);
    if ws.len() + 1 < kids.len() {
        assert(kids.drop_last()[ws.len() as int] == kids[ws.len() as int]);
        lemma_children_inflate_extend(reg, kids.drop_last(), len, ws, w);
    }
}

proof fn lemma_children_inflate_empty<W, B: WidgetBuilder<W>>(reg: Seq<(Seq<char>, B)>, kids: Seq<NodeV>, len: usize)
    ensures
        children_inflate(reg, kids, len, Seq::<W>::empty()),
    decreases kids.len(),
{
    if kids.len() > 0 {
        lemma_children_inflate_empty::<W, B>(reg, kids.drop_last(), len);
    }
}

/// Inflating `kids[j]` fails with `r`.
pub open spec fn child_fails<W, B: WidgetBuilder<W>>(
    reg: Seq<(Seq<char>, B)>,
    kids: Seq<NodeV>,
    len: usize,
    j: int,
    r: Result<W, InflateError>,
) -> bool
    decreases kids,
{
    0 <= j < kids.len() && r is Err && inflates(reg, kids[j], len, r)
}

/// Builds `node` from its resolved arguments `args` and props `props` and its
/// inflated `children`: hands exactly these to the builder registered for
/// its widget and returns what the builder returns; an unregistered widget
/// escalates as `UnknownWidget`, building nothing.
pub fn finish_node<W, B: WidgetBuilder<W>>(
    reg: &WidgetRegistry<B>,
    node: &TemplateNode,
    args: &Vec<Resolved<'_>>,
    props: &Vec<(String, Resolved<'_>)>,
    children: Vec<W>,
) -> (r: Result<W, InflateError>)
    requires
        resolved_view(args@) == node@.args,
        resolved_props_view(props@) == node@.props,
    ensures
        index_of(reg@, node@.widget) < 0 ==> (r matches Err(x) && x@ == InflateErrorV::UnknownWidget(node@.widget)),
        index_of(reg@, node@.widget) >= 0 ==> built_by(
            reg@[index_of(reg@, node@.widget)].1,
            node@.args,
            node@.props,
            children@,
            r,
        ),
{
    match reg.builder(node.widget.as_str()) {
        Ok(b) => {
            let r = b.build(args, props, children);
            proof {
                assert(call_ensures(B::build, (b, args, props, children), r));
            }
            r
        },
        Err(e) => Err(e),
    }
}

/// Inflates `node` against `holes_len` supplied holes: resolves its
/// arguments, then its props, inflates its children depth-first, looks up
/// its widget's builder and builds it (see [`finish_node`]). Resolution
/// errors at the node stop it before anything is built; a leaf whose holes
/// are supplied but whose widget is unregistered escalates as
/// `UnknownWidget`; a successful inflation used only supplied holes and
/// registered widgets, throughout the tree.
pub fn inflate_node<W, B: WidgetBuilder<W>>(reg: &WidgetRegistry<B>, node: &TemplateNode, holes_len: usize) -> (r: Result<W, InflateError>)
    ensures
        root_hole_error(node@, holes_len) matches Some(e) ==> (r matches Err(x) && x@ == e),
        root_hole_error(node@, holes_len) is None && node@.children.len() == 0 && index_of(reg@, node@.widget) < 0
            ==> (r matches Err(x) && x@ == InflateErrorV::UnknownWidget(node@.widget)),
        r is Ok ==> tree_ok(node@, holes_len, reg@),
        inflates(reg@, node@, holes_len, r),
    decreases node,
{
    let ghost v = node@;
    proof {
        assert(v.args =~= node.args@.map_values(|p: PropValue| p@));
        assert(v.props =~= node.props@.map_values(|kv: (String, PropValue)| prop_pair_view(kv)));
    }
    let mut args: Vec<Resolved<'_>> = Vec::new();
    proof {
        assert(resolved_view(args@) =~= Seq::<PropV>::empty());
    }
    match resolve_all(&node.args, holes_len, &mut args) {
        Ok(()) => {
            assert(resolved_view(args@) =~= v.args);
        },
        Err(e) => {
            return Err(e);
        },
    }
    let props = match resolve_props(&node.props, holes_len) {
        Ok(p) => p,
        Err(e) => {
            return Err(e);
        },
    };
    let mut children: Vec<W> = Vec::new();
    let mut k: usize = 0;
    proof {
        assert(v.children.take(0) =~= Seq::<NodeV>::empty());
        lemma_children_inflate_empty::<W, B>(reg@, v.children, holes_len);
        assert(children@ =~= Seq::<W>::empty());
    }
    while k < node.children.len()
        invariant
            k <= node.children@.len(),
            v == node@,
            v.children.len() == node.children@.len(),
            root_hole_error(v, holes_len) is None,
            children_ok(v.children.take(k as int), holes_len, reg@),
            children@.len() == k,
            children_inflate(reg@, v.children, holes_len, children@),
            resolved_view(args@) == v.args,
            resolved_props_view(props@) == v.props,
        decreases node.children@.len() - k,
    {
        proof {
            assert(v.children[k as int] == node.children@[k as int]@);
            assert(v.children.take(k + 1).drop_last() =~= v.children.take(k as int));
        }
        let c = inflate_node(reg, &node.children[k], holes_len);
        match c {
            Ok(w) => {
                let ghost before = children@;
                proof {
                    assert(inflates(reg@, node.children@[k as int]@, holes_len, c));
                    lemma_children_inflate_extend(reg@, v.children, holes_len, before, w);
                }
                children.push(w);
            },
            Err(e) => {
                proof {
                    assert(inflates(reg@, v.children[k as int], holes_len, c));
                    assert(child_fails(reg@, v.children, holes_len, k as int, Err::<W, InflateError>(e)));
                    assert(children_inflate(reg@, v.children, holes_len, children@));
                    assert(results(children@));
                    assert(inflates(reg@, v, holes_len, Err::<W, InflateError>(e)));
                }
                return Err(e);
            },
        }
        k = k + 1;
    }
    proof {
        assert(v.children.take(v.children.len() as int) =~= v.children);
    }
    let ghost ws = children@;
    let r = finish_node(reg, node, &args, &props, children);
    proof {
        assert(children_inflate(reg@, v.children, holes_len, ws));
        assert(results(ws));
    }
    r
}

/// Inflates a template's tree (see [`inflate_node`]).
pub fn inflate<W, B: WidgetBuilder<W>>(reg: &WidgetRegistry<B>, template: &Template, holes_len: usize) -> (r: Result<W, InflateError>)
    ensures
        root_hole_error(template.root@, holes_len) matches Some(e) ==> (r matches Err(x) && x@ == e),
        root_hole_error(template.root@, holes_len) is None && template.root@.children.len() == 0
            && index_of(reg@, template.root@.widget) < 0
            ==> (r matches Err(x) && x@ == InflateErrorV::UnknownWidget(template.root@.widget)),
        r is Ok ==> tree_ok(template.root@, holes_len, reg@),
        inflates(reg@, template.root@, holes_len, r),
{
    inflate_node(reg, &template.root, holes_len)
}

} // verus!
