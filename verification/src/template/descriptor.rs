//! The template descriptor data model.
//!
//! A `view!` tree splits into its *shape* (widget kinds by name, literal
//! props, nesting) which travels as data, and its *logic* (`{expr}` slots)
//! which stays compiled and fills numbered holes.
use vstd::prelude::*;
use crate::text::str_equal;

verus! {

// ───────────────────────── values ─────────────────────────

/// A literal prop value that travels as data.
///
/// `Float` holds the IEEE-754 bit pattern of an `f64` (`f64::to_bits`);
/// equality between two floats follows IEEE semantics (see
/// [`float_bits_eq`]), not bit identity.
#[derive(Debug)]
pub enum StaticValue {
    Bool(bool),
    Int(i64),
    Float(u64),
    Str(String),
}

/// Mathematical model of a [`StaticValue`].
pub enum StaticV {
    Bool(bool),
    Int(i64),
    Float(u64),
    Str(Seq<char>),
}

impl View for StaticValue {
    type V = StaticV;

    open spec fn view(&self) -> StaticV {
        match self {
            StaticValue::Bool(b) => StaticV::Bool(*b),
            StaticValue::Int(i) => StaticV::Int(*i),
            StaticValue::Float(f) => StaticV::Float(*f),
            StaticValue::Str(s) => StaticV::Str(s@),
        }
    }
}

/// A prop's value: a literal, or the index of a hole filled by compiled code.
#[derive(Debug)]
pub enum PropValue {
    Static(StaticValue),
    Hole(usize),
}

/// Mathematical model of a [`PropValue`].
pub enum PropV {
    Static(StaticV),
    Hole(usize),
}

impl View for PropValue {
    type V = PropV;

    open spec fn view(&self) -> PropV {
        match self {
            PropValue::Static(s) => PropV::Static(s@),
            PropValue::Hole(i) => PropV::Hole(*i),
        }
    }
}

/// One node of a template tree: widget kind by name, positional args,
/// named props and children, all in source order.
#[derive(Debug)]
pub struct TemplateNode {
    pub widget: String,
    pub args: Vec<PropValue>,
    pub props: Vec<(String, PropValue)>,
    pub children: Vec<TemplateNode>,
}

/// Mathematical model of a [`TemplateNode`].
pub struct NodeV {
    pub widget: Seq<char>,
    pub args: Seq<PropV>,
    pub props: Seq<(Seq<char>, PropV)>,
    pub children: Seq<NodeV>,
}

pub open spec fn empty_node_v() -> NodeV {
    NodeV { widget: Seq::empty(), args: Seq::empty(), props: Seq::empty(), children: Seq::empty() }
}

pub open spec fn prop_pair_view(kv: (String, PropValue)) -> (Seq<char>, PropV) {
    (kv.0@, kv.1@)
}

pub open spec fn node_view(n: TemplateNode) -> NodeV
    decreases n,
{
    NodeV {
        widget: n.widget@,
        args: n.args@.map_values(|p: PropValue| p@),
        props: n.props@.map_values(|kv: (String, PropValue)| prop_pair_view(kv)),
        children: Seq::new(
            n.children.len() as nat,
            |i: int|
                if 0 <= i < n.children.len() {
                    node_view(n.children@[i])
                } else {
                    empty_node_v()
                },
        ),
    }
}

impl View for TemplateNode {
    type V = NodeV;

    open spec fn view(&self) -> NodeV {
        node_view(*self)
    }
}

// ───────────────────────── equality ─────────────────────────

/// IEEE-754 equality of two `f64` values given by their bit patterns: no NaN
/// equals anything, `+0.0 == -0.0`, and otherwise equal bits.
pub open spec fn float_bits_eq(a: u64, b: u64) -> bool {
    let exp: u64 = 0x7ff0_0000_0000_0000u64;
    let frac: u64 = 0x000f_ffff_ffff_ffffu64;
    let mag: u64 = 0x7fff_ffff_ffff_ffffu64;
    let a_nan = (a & exp) == exp && (a & frac) != 0u64;
    let b_nan = (b & exp) == exp && (b & frac) != 0u64;
    !a_nan && !b_nan && (a == b || ((a & mag) == 0u64 && (b & mag) == 0u64))
}

/// Whether the bit pattern is a NaN.
pub open spec fn is_nan_bits(a: u64) -> bool {
    (a & 0x7ff0_0000_0000_0000u64) == 0x7ff0_0000_0000_0000u64 && (a & 0x000f_ffff_ffff_ffffu64) != 0u64
}

pub open spec fn static_eq(a: StaticV, b: StaticV) -> bool {
    match (a, b) {
        (StaticV::Bool(x), StaticV::Bool(y)) => x == y,
        (StaticV::Int(x), StaticV::Int(y)) => x == y,
        (StaticV::Float(x), StaticV::Float(y)) => float_bits_eq(x, y),
        (StaticV::Str(x), StaticV::Str(y)) => x == y,
        _ => false,
    }
}

pub open spec fn prop_eq(a: PropV, b: PropV) -> bool {
    match (a, b) {
        (PropV::Static(x), PropV::Static(y)) => static_eq(x, y),
        (PropV::Hole(i), PropV::Hole(j)) => i == j,
        _ => false,
    }
}

pub open spec fn args_eq(a: Seq<PropV>, b: Seq<PropV>) -> bool {
    &&& a.len() == b.len()
    &&& forall|i: int| 0 <= i < a.len() ==> prop_eq(#[trigger] a[i], b[i])
}

pub open spec fn props_eq(a: Seq<(Seq<char>, PropV)>, b: Seq<(Seq<char>, PropV)>) -> bool {
    &&& a.len() == b.len()
    &&& forall|i: int| 0 <= i < a.len() ==> (#[trigger] a[i]).0 == b[i].0 && prop_eq(a[i].1, b[i].1)
}

/// Structural equality of two template trees, with IEEE equality on floats
/// (so a tree holding a NaN literal is not equal to itself).
pub open spec fn node_eq(a: NodeV, b: NodeV) -> bool
    decreases a,
{
    &&& a.widget == b.widget
    &&& args_eq(a.args, b.args)
    &&& props_eq(a.props, b.props)
    &&& children_eq(a.children, b.children)
}

pub open spec fn children_eq(a: Seq<NodeV>, b: Seq<NodeV>) -> bool
    decreases a,
{
    &&& a.len() == b.len()
    &&& (a.len() == 0 || (children_eq(a.drop_last(), b.drop_last()) && node_eq(a.last(), b.last())))
}

/// Exact IEEE-754 `==` on two `f64` bit patterns.
pub fn float_bits_equal(a: u64, b: u64) -> (r: bool)
    ensures
        r == float_bits_eq(a, b),
{
    let exp: u64 = 0x7ff0_0000_0000_0000u64;
    let frac: u64 = 0x000f_ffff_ffff_ffffu64;
    let mag: u64 = 0x7fff_ffff_ffff_ffffu64;
    let a_nan = (a & exp) == exp && (a & frac) != 0u64;
    let b_nan = (b & exp) == exp && (b & frac) != 0u64;
    !a_nan && !b_nan && (a == b || ((a & mag) == 0u64 && (b & mag) == 0u64))
}

impl StaticValue {
    /// `==` on literal values (IEEE semantics for floats).
    pub fn equals(&self, other: &StaticValue) -> (r: bool)
        ensures
            r == static_eq(self@, other@),
    {
        match (self, other) {
            (StaticValue::Bool(x), StaticValue::Bool(y)) => *x == *y,
            (StaticValue::Int(x), StaticValue::Int(y)) => *x == *y,
            (StaticValue::Float(x), StaticValue::Float(y)) => float_bits_equal(*x, *y),
            (StaticValue::Str(x), StaticValue::Str(y)) => str_equal(x.as_str(), y.as_str()),
            _ => false,
        }
    }
}

impl PropValue {
    /// `==` on prop values.
    pub fn equals(&self, other: &PropValue) -> (r: bool)
        ensures
            r == prop_eq(self@, other@),
    {
        match (self, other) {
            (PropValue::Static(x), PropValue::Static(y)) => x.equals(y),
            (PropValue::Hole(i), PropValue::Hole(j)) => *i == *j,
            _ => false,
        }
    }
}


impl TemplateNode {
    /// Structural `==` on template trees.
    pub fn equals(&self, other: &TemplateNode) -> (r: bool)
        ensures
            r == node_eq(self@, other@),
        decreases self,
    {
        let ghost sa = self@;
        let ghost sb = other@;
        if !str_equal(self.widget.as_str(), other.widget.as_str()) {
            return false;
        }
        // positional args
        if self.args.len() != other.args.len() {
            return false;
        }
        let mut i: usize = 0;
        while i < self.args.len()
            invariant
                self.args.len() == other.args.len(),
                i <= self.args.len(),
                sa == self@,
                sb == other@,
                forall|j: int| 0 <= j < i ==> prop_eq(#[trigger] sa.args[j], sb.args[j]),
            decreases self.args.len() - i,
        {
            if !self.args[i].equals(&other.args[i]) {
                assert(sa.args[i as int] == self.args@[i as int]@);
                assert(sb.args[i as int] == other.args@[i as int]@);
                return false;
            }
            i = i + 1;
        }
        // named props
        if self.props.len() != other.props.len() {
            return false;
        }
        let mut i: usize = 0;
        while i < self.props.len()
            invariant
                self.props.len() == other.props.len(),
                i <= self.props.len(),
                sa == self@,
                sb == other@,
                args_eq(sa.args, sb.args),
                forall|j: int| 0 <= j < i ==> (#[trigger] sa.props[j]).0 == sb.props[j].0 && prop_eq(sa.props[j].1, sb.props[j].1),
            decreases self.props.len() - i,
        {
            assert(sa.props[i as int] == prop_pair_view(self.props@[i as int]));
            assert(sb.props[i as int] == prop_pair_view(other.props@[i as int]));
            if !str_equal(self.props[i].0.as_str(), other.props[i].0.as_str()) {
                return false;
            }
            if !self.props[i].1.equals(&other.props[i].1) {
                return false;
            }
            i = i + 1;
        }
        // children
        if self.children.len() != other.children.len() {
            return false;
        }
        let mut i: usize = 0;
        while i < self.children.len()
            invariant
                self.children.len() == other.children.len(),
                i <= self.children.len(),
                sa == self@,
                sb == other@,
                sa.children.len() == self.children.len(),
                sb.children.len() == other.children.len(),
                children_eq(sa.children.take(i as int), sb.children.take(i as int)),
            decreases self.children.len() - i,
        {
            let e = self.children[i].equals(&other.children[i]);
            proof {
                lemma_children_eq_step(sa.children, sb.children, i as int);
            }
            if !e {
                proof {
                    if children_eq(sa.children, sb.children) {
                        lemma_children_eq_index(sa.children, sb.children, i as int);
                    }
                }
                return false;
            }
            i = i + 1;
        }
        proof {
            assert(sa.children.take(sa.children.len() as int) =~= sa.children);
            assert(sb.children.take(sb.children.len() as int) =~= sb.children);
        }
        true
    }
}

/// A float bit pattern for zero, positive or negative.
pub open spec fn zero_bits(x: u64) -> bool {
    x == 0u64 || x == 0x8000_0000_0000_0000u64
}

/// Two literals are equal exactly as `==` on them says: same kind and same
/// value, except that floats compare as IEEE numbers (a NaN equals nothing,
/// `+0.0` equals `-0.0`).
pub proof fn law_static_eq(a: StaticV, b: StaticV)
    ensures
        !(a is Float) ==> (static_eq(a, b) <==> a == b),
        !(b is Float) ==> (static_eq(a, b) <==> a == b),
        a matches StaticV::Float(x) ==> (b matches StaticV::Float(y) ==> (static_eq(a, b) <==> ((x == y
            && !is_nan_bits(x)) || (zero_bits(x) && zero_bits(y))))),
{
    if let (StaticV::Float(x), StaticV::Float(y)) = (a, b) {
        assert((x & 0x7fff_ffff_ffff_ffffu64) == 0u64 <==> zero_bits(x)) by (bit_vector);
        assert((y & 0x7fff_ffff_ffff_ffffu64) == 0u64 <==> zero_bits(y)) by (bit_vector);
        assert(zero_bits(x) ==> !is_nan_bits(x)) by (bit_vector);
        assert(zero_bits(y) ==> !is_nan_bits(y)) by (bit_vector);
    }
}

/// Two prop values are the same literal for literal: equal, or two zero
/// floats.
pub open spec fn same_value(a: PropV, b: PropV) -> bool {
    ||| a == b
    ||| (a matches PropV::Static(StaticV::Float(x)) && b matches PropV::Static(StaticV::Float(y)) && zero_bits(x)
        && zero_bits(y))
}

/// Equal trees have the same widget, the same arguments and props literal
/// for literal (prop names included), and pairwise equal children.
pub proof fn law_node_eq_literals(a: NodeV, b: NodeV)
    requires
        node_eq(a, b),
    ensures
        a.widget == b.widget,
        a.args.len() == b.args.len(),
        forall|i: int| 0 <= i < a.args.len() ==> same_value(#[trigger] a.args[i], b.args[i]),
        a.props.len() == b.props.len(),
        forall|i: int| 0 <= i < a.props.len() ==> (#[trigger] a.props[i]).0 == b.props[i].0 && same_value(
            a.props[i].1,
            b.props[i].1,
        ),
        a.children.len() == b.children.len(),
        forall|i: int| 0 <= i < a.children.len() ==> node_eq(#[trigger] a.children[i], b.children[i]),
{
    assert forall|i: int| 0 <= i < a.args.len() implies same_value(#[trigger] a.args[i], b.args[i]) by {
        assert(prop_eq(a.args[i], b.args[i]));
        if let (PropV::Static(x), PropV::Static(y)) = (a.args[i], b.args[i]) {
            law_static_eq(x, y);
        }
    }
    assert forall|i: int| 0 <= i < a.props.len() implies (#[trigger] a.props[i]).0 == b.props[i].0 && same_value(
        a.props[i].1,
        b.props[i].1,
    ) by {
        assert(prop_eq(a.props[i].1, b.props[i].1));
        if let (PropV::Static(x), PropV::Static(y)) = (a.props[i].1, b.props[i].1) {
            law_static_eq(x, y);
        }
    }
    assert forall|i: int| 0 <= i < a.children.len() implies node_eq(#[trigger] a.children[i], b.children[i]) by {
        lemma_children_eq_index(a.children, b.children, i);
    }
}

/// Extending both prefixes by one element extends `children_eq` by one
/// `node_eq` test.
pub proof fn lemma_children_eq_step(a: Seq<NodeV>, b: Seq<NodeV>, i: int)
    requires
        a.len() == b.len(),
        0 <= i < a.len(),
    ensures
        children_eq(a.take(i + 1), b.take(i + 1)) == (children_eq(a.take(i), b.take(i)) && node_eq(a[i], b[i])),
{
    assert(a.take(i + 1).drop_last() =~= a.take(i));
    assert(b.take(i + 1).drop_last() =~= b.take(i));
}

/// Equal child lists have equal children at every index.
pub proof fn lemma_children_eq_index(a: Seq<NodeV>, b: Seq<NodeV>, i: int)
    requires
        0 <= i < a.len(),
        children_eq(a, b),
    ensures
        node_eq(a[i], b[i]),
    decreases a.len(),
{
    if i < a.len() - 1 {
        lemma_children_eq_index(a.drop_last(), b.drop_last(), i);
    }
}

/// Conversely, a list whose prefix of length `i` is not equal cannot be equal.
pub proof fn lemma_children_eq_prefix(a: Seq<NodeV>, b: Seq<NodeV>, i: int)
    requires
        0 <= i <= a.len(),
        children_eq(a, b),
    ensures
        children_eq(a.take(i), b.take(i)),
    decreases a.len(),
{
    if i == a.len() {
        assert(a.take(i) =~= a);
        assert(b.take(i) =~= b);
    } else {
        lemma_children_eq_prefix(a.drop_last(), b.drop_last(), i);
        assert(a.drop_last().take(i) =~= a.take(i));
        assert(b.drop_last().take(i) =~= b.take(i));
    }
}


// ───────────────────────── hole extent ─────────────────────────

pub open spec fn max_nat(a: nat, b: nat) -> nat {
    if a >= b { a } else { b }
}

/// Hole slots a single value needs: `i + 1` for `Hole(i)`, none for a literal.
pub open spec fn slot_extent(p: PropV) -> nat {
    match p {
        PropV::Hole(i) => i as nat + 1,
        PropV::Static(_) => 0,
    }
}

pub open spec fn args_extent(s: Seq<PropV>) -> nat
    decreases s.len(),
{
    if s.len() == 0 { 0 } else { max_nat(args_extent(s.drop_last()), slot_extent(s.last())) }
}

pub open spec fn props_extent(s: Seq<(Seq<char>, PropV)>) -> nat
    decreases s.len(),
{
    if s.len() == 0 { 0 } else { max_nat(props_extent(s.drop_last()), slot_extent(s.last().1)) }
}

/// The highest hole index referenced anywhere in the subtree, plus one
/// (zero for a fully static subtree).
pub open spec fn node_extent(n: NodeV) -> nat
    decreases n,
{
    max_nat(max_nat(args_extent(n.args), props_extent(n.props)), children_extent(n.children))
}

pub open spec fn children_extent(s: Seq<NodeV>) -> nat
    decreases s,
{
    if s.len() == 0 { 0 } else { max_nat(children_extent(s.drop_last()), node_extent(s.last())) }
}

pub proof fn lemma_args_extent_take(s: Seq<PropV>, i: int)
    requires
        0 <= i < s.len(),
    ensures
        args_extent(s.take(i + 1)) == max_nat(args_extent(s.take(i)), slot_extent(s[i])),
{
    assert(s.take(i + 1).drop_last() =~= s.take(i));
}

pub proof fn lemma_props_extent_take(s: Seq<(Seq<char>, PropV)>, i: int)
    requires
        0 <= i < s.len(),
    ensures
        props_extent(s.take(i + 1)) == max_nat(props_extent(s.take(i)), slot_extent(s[i].1)),
{
    assert(s.take(i + 1).drop_last() =~= s.take(i));
}

pub proof fn lemma_children_extent_take(s: Seq<NodeV>, i: int)
    requires
        0 <= i < s.len(),
    ensures
        children_extent(s.take(i + 1)) == max_nat(children_extent(s.take(i)), node_extent(s[i])),
{
    assert(s.take(i + 1).drop_last() =~= s.take(i));
}

pub proof fn lemma_args_extent_bound(s: Seq<PropV>, j: int)
    requires
        0 <= j < s.len(),
    ensures
        slot_extent(s[j]) <= args_extent(s),
    decreases s.len(),
{
    if j < s.len() - 1 {
        lemma_args_extent_bound(s.drop_last(), j);
    }
}

pub proof fn lemma_props_extent_bound(s: Seq<(Seq<char>, PropV)>, j: int)
    requires
        0 <= j < s.len(),
    ensures
        slot_extent(s[j].1) <= props_extent(s),
    decreases s.len(),
{
    if j < s.len() - 1 {
        lemma_props_extent_bound(s.drop_last(), j);
    }
}

pub proof fn lemma_children_extent_bound(s: Seq<NodeV>, j: int)
    requires
        0 <= j < s.len(),
    ensures
        node_extent(s[j]) <= children_extent(s),
    decreases s.len(),
{
    if j < s.len() - 1 {
        lemma_children_extent_bound(s.drop_last(), j);
    }
}

pub proof fn lemma_take_full<A>(s: Seq<A>)
    ensures
        s.take(s.len() as int) == s,
{
    assert(s.take(s.len() as int) =~= s);
}

impl TemplateNode {
    /// The number of hole slots the subtree expects: the highest hole index
    /// it references plus one, `0` when fully static.
    pub fn hole_extent(&self) -> (r: usize)
        requires
            node_extent(self@) <= usize::MAX,
        ensures
            r == node_extent(self@),
        decreases self,
    {
        let ghost v = self@;
        let mut in_args: usize = 0;
        let mut i: usize = 0;
        while i < self.args.len()
            invariant
                i <= self.args.len(),
                v == self@,
                node_extent(v) <= usize::MAX,
                in_args == args_extent(v.args.take(i as int)),
            decreases self.args.len() - i,
        {
            proof {
                lemma_args_extent_take(v.args, i as int);
                lemma_args_extent_bound(v.args, i as int);
                assert(v.args[i as int] == self.args@[i as int]@);
            }
            match &self.args[i] {
                PropValue::Hole(h) => {
                    let e = *h + 1;
                    if e > in_args {
                        in_args = e;
                    }
                },
                PropValue::Static(_) => {},
            }
            i = i + 1;
        }
        proof { lemma_take_full(v.args); }
        let mut in_props: usize = 0;
        let mut i: usize = 0;
        while i < self.props.len()
            invariant
                i <= self.props.len(),
                v == self@,
                node_extent(v) <= usize::MAX,
                in_props == props_extent(v.props.take(i as int)),
            decreases self.props.len() - i,
        {
            proof {
                lemma_props_extent_take(v.props, i as int);
                lemma_props_extent_bound(v.props, i as int);
                assert(v.props[i as int] == prop_pair_view(self.props@[i as int]));
            }
            match &self.props[i].1 {
                PropValue::Hole(h) => {
                    let e = *h + 1;
                    if e > in_props {
                        in_props = e;
                    }
                },
                PropValue::Static(_) => {},
            }
            i = i + 1;
        }
        proof { lemma_take_full(v.props); }
        let mut below: usize = 0;
        let mut i: usize = 0;
        while i < self.children.len()
            invariant
                i <= self.children.len(),
                v == self@,
                v.children.len() == self.children.len(),
                node_extent(v) <= usize::MAX,
                below == children_extent(v.children.take(i as int)),
            decreases self.children.len() - i,
        {
            proof {
                lemma_children_extent_take(v.children, i as int);
                lemma_children_extent_bound(v.children, i as int);
            }
            let e = self.children[i].hole_extent();
            if e > below {
                below = e;
            }
            i = i + 1;
        }
        proof { lemma_take_full(v.children); }
        let mut r = in_args;
        if in_props > r {
            r = in_props;
        }
        if below > r {
            r = below;
        }
        r
    }
}


// ───────────────────────── builders and copies ─────────────────────────

impl StaticValue {
    /// A deep copy.
    pub fn duplicate(&self) -> (r: StaticValue)
        ensures
            r@ == self@,
    {
        match self {
            StaticValue::Bool(b) => StaticValue::Bool(*b),
            StaticValue::Int(i) => StaticValue::Int(*i),
            StaticValue::Float(f) => StaticValue::Float(*f),
            StaticValue::Str(s) => StaticValue::Str(s.clone()),
        }
    }
}

impl PropValue {
    /// A deep copy.
    pub fn duplicate(&self) -> (r: PropValue)
        ensures
            r@ == self@,
    {
        match self {
            PropValue::Static(v) => PropValue::Static(v.duplicate()),
            PropValue::Hole(i) => PropValue::Hole(*i),
        }
    }
}

impl TemplateNode {
    /// A leaf node of the given widget kind with no args, props or children.
    pub fn new(widget: &str) -> (r: TemplateNode)
        ensures
            r@ == (NodeV { widget: widget@, args: Seq::empty(), props: Seq::empty(), children: Seq::empty() }),
    {
        let r = TemplateNode { widget: widget.to_owned(), args: Vec::new(), props: Vec::new(), children: Vec::new() };
        proof {
            assert(r@.args =~= Seq::<PropV>::empty());
            assert(r@.props =~= Seq::<(Seq<char>, PropV)>::empty());
            assert(r@.children =~= Seq::<NodeV>::empty());
        }
        r
    }

    /// Adds a positional argument (literal or hole).
    pub fn with_arg(self, value: PropValue) -> (r: TemplateNode)
        ensures
            r@ == (NodeV { args: self@.args.push(value@), ..self@ }),
    {
        let mut n = self;
        n.args.push(value);
        proof {
            assert(n@.args =~= self@.args.push(value@));
            assert(n@.props =~= self@.props);
            assert(n@.children =~= self@.children);
        }
        n
    }

    /// Adds a literal positional constructor argument.
    pub fn with_arg_static(self, value: StaticValue) -> (r: TemplateNode)
        ensures
            r@ == (NodeV { args: self@.args.push(PropV::Static(value@)), ..self@ }),
    {
        self.with_arg(PropValue::Static(value))
    }

    /// Adds a positional constructor argument bound to hole `index`.
    pub fn with_arg_hole(self, index: usize) -> (r: TemplateNode)
        ensures
            r@ == (NodeV { args: self@.args.push(PropV::Hole(index)), ..self@ }),
    {
        self.with_arg(PropValue::Hole(index))
    }

    /// Adds a named prop (literal or hole).
    pub fn with_prop(self, key: &str, value: PropValue) -> (r: TemplateNode)
        ensures
            r@ == (NodeV { props: self@.props.push((key@, value@)), ..self@ }),
    {
        let mut n = self;
        let k = key.to_owned();
        let ghost pair = (k, value);
        n.props.push((k, value));
        proof {
            assert(prop_pair_view(pair) == (key@, value@));
            assert(n@.props =~= self@.props.push((key@, value@)));
            assert(n@.args =~= self@.args);
            assert(n@.children =~= self@.children);
        }
        n
    }

    /// Adds a literal prop.
    pub fn with_static(self, key: &str, value: StaticValue) -> (r: TemplateNode)
        ensures
            r@ == (NodeV { props: self@.props.push((key@, PropV::Static(value@))), ..self@ }),
    {
        self.with_prop(key, PropValue::Static(value))
    }

    /// Adds a prop bound to hole `index`.
    pub fn with_hole(self, key: &str, index: usize) -> (r: TemplateNode)
        ensures
            r@ == (NodeV { props: self@.props.push((key@, PropV::Hole(index))), ..self@ }),
    {
        self.with_prop(key, PropValue::Hole(index))
    }

    /// Adds a child node.
    pub fn with_child(self, child: TemplateNode) -> (r: TemplateNode)
        ensures
            r@ == (NodeV { children: self@.children.push(child@), ..self@ }),
    {
        let mut n = self;
        n.children.push(child);
        proof {
            assert(n@.children =~= self@.children.push(child@));
            assert(n@.args =~= self@.args);
            assert(n@.props =~= self@.props);
        }
        n
    }

    /// A deep copy.
    pub fn duplicate(&self) -> (r: TemplateNode)
        ensures
            r@ == self@,
        decreases self,
    {
        let mut args: Vec<PropValue> = Vec::new();
        let mut i: usize = 0;
        while i < self.args.len()
            invariant
                i <= self.args.len(),
                args.len() == i,
                forall|j: int| 0 <= j < i ==> (#[trigger] args@[j])@ == self.args@[j]@,
            decreases self.args.len() - i,
        {
            args.push(self.args[i].duplicate());
            i = i + 1;
        }
        let mut props: Vec<(String, PropValue)> = Vec::new();
        let mut i: usize = 0;
        while i < self.props.len()
            invariant
                i <= self.props.len(),
                props.len() == i,
                forall|j: int| 0 <= j < i ==> prop_pair_view(#[trigger] props@[j]) == prop_pair_view(self.props@[j]),
            decreases self.props.len() - i,
        {
            let k = self.props[i].0.clone();
            let v = self.props[i].1.duplicate();
            props.push((k, v));
            i = i + 1;
        }
        let mut children: Vec<TemplateNode> = Vec::new();
        let mut i: usize = 0;
        while i < self.children.len()
            invariant
                i <= self.children.len(),
                children.len() == i,
                forall|j: int| 0 <= j < i ==> (#[trigger] children@[j])@ == self.children@[j]@,
            decreases self.children.len() - i,
        {
            children.push(self.children[i].duplicate());
            i = i + 1;
        }
        let r = TemplateNode { widget: self.widget.clone(), args, props, children };
        proof {
            assert(r@.args =~= self@.args);
            assert(r@.props =~= self@.props);
            assert(r@.children =~= self@.children);
        }
        r
    }
}

// ───────────────────────── keys and templates ─────────────────────────

/// Source location of one `view!` site: file, 1-based line and column.
#[derive(Debug, PartialEq, Eq, Hash)]
pub struct TemplateKey {
    pub file: String,
    pub line: u32,
    pub col: u32,
}

/// Mathematical model of a [`TemplateKey`].
pub struct KeyV {
    pub file: Seq<char>,
    pub line: u32,
    pub col: u32,
}

impl View for TemplateKey {
    type V = KeyV;

    open spec fn view(&self) -> KeyV {
        KeyV { file: self.file@, line: self.line, col: self.col }
    }
}

/// `file:line:col`.
pub open spec fn key_display(k: KeyV) -> Seq<char> {
    k.file + seq![':'] + crate::text::decimal(k.line as nat) + seq![':'] + crate::text::decimal(k.col as nat)
}

impl TemplateKey {
    pub fn new(file: &str, line: u32, col: u32) -> (r: TemplateKey)
        ensures
            r@ == (KeyV { file: file@, line, col }),
    {
        TemplateKey { file: file.to_owned(), line, col }
    }

    /// Field-wise `==`.
    pub fn equals(&self, other: &TemplateKey) -> (r: bool)
        ensures
            r == (self@ == other@),
    {
        let same = str_equal(self.file.as_str(), other.file.as_str()) && self.line == other.line && self.col == other.col;
        same
    }

    /// A deep copy.
    pub fn duplicate(&self) -> (r: TemplateKey)
        ensures
            r@ == self@,
    {
        TemplateKey { file: self.file.clone(), line: self.line, col: self.col }
    }

    /// The key rendered as `file:line:col`.
    pub fn to_display_string(&self) -> (r: String)
        ensures
            r@ == key_display(self@),
    {
        let mut s = self.file.clone();
        crate::text::push_char(&mut s, ':');
        crate::text::push_decimal(&mut s, self.line as u64);
        crate::text::push_char(&mut s, ':');
        crate::text::push_decimal(&mut s, self.col as u64);
        proof {
            assert(s@ =~= key_display(self@));
        }
        s
    }
}

/// A full template: root node, the number of hole slots it references, and
/// the source key of its `view!` site.
#[derive(Debug)]
pub struct Template {
    pub key: TemplateKey,
    pub root: TemplateNode,
    pub hole_count: usize,
}

/// Mathematical model of a [`Template`].
pub struct TemplateV {
    pub key: KeyV,
    pub root: NodeV,
    pub hole_count: usize,
}

impl View for Template {
    type V = TemplateV;

    open spec fn view(&self) -> TemplateV {
        TemplateV { key: self.key@, root: self.root@, hole_count: self.hole_count }
    }
}

/// A template built by [`Template::new`]: its hole count is derived from
/// the tree.
pub open spec fn template_of(key: KeyV, root: NodeV) -> TemplateV {
    TemplateV { key, root, hole_count: node_extent(root) as usize }
}

impl Template {
    /// Builds a template from its root, deriving `hole_count` from the holes
    /// the tree references. A tree that references hole `usize::MAX` has no
    /// representable count and is not accepted.
    pub fn new(key: TemplateKey, root: TemplateNode) -> (r: Template)
        requires
            node_extent(root@) <= usize::MAX,
        ensures
            r@ == template_of(key@, root@),
    {
        let hole_count = root.hole_extent();
        Template { key, root, hole_count }
    }

    /// Whether both templates have the same hole count — the first gate of
    /// hot-swappability.
    pub fn hole_signature_matches(&self, other: &Template) -> (r: bool)
        ensures
            r == (self.hole_count == other.hole_count),
    {
        self.hole_count == other.hole_count
    }

    /// A deep copy.
    pub fn duplicate(&self) -> (r: Template)
        ensures
            r@ == self@,
    {
        Template { key: self.key.duplicate(), root: self.root.duplicate(), hole_count: self.hole_count }
    }
}


impl PartialEq for StaticValue {
    fn eq(&self, other: &StaticValue) -> (r: bool) {
        self.equals(other)
    }
}

impl vstd::std_specs::cmp::PartialEqSpecImpl for StaticValue {
    open spec fn obeys_eq_spec() -> bool {
        true
    }

    open spec fn eq_spec(&self, other: &StaticValue) -> bool {
        static_eq(self@, other@)
    }
}

impl PartialEq for PropValue {
    fn eq(&self, other: &PropValue) -> (r: bool) {
        self.equals(other)
    }
}

impl vstd::std_specs::cmp::PartialEqSpecImpl for PropValue {
    open spec fn obeys_eq_spec() -> bool {
        true
    }

    open spec fn eq_spec(&self, other: &PropValue) -> bool {
        prop_eq(self@, other@)
    }
}

impl PartialEq for TemplateNode {
    fn eq(&self, other: &TemplateNode) -> (r: bool) {
        self.equals(other)
    }
}

impl vstd::std_specs::cmp::PartialEqSpecImpl for TemplateNode {
    open spec fn obeys_eq_spec() -> bool {
        true
    }

    open spec fn eq_spec(&self, other: &TemplateNode) -> bool {
        node_eq(self@, other@)
    }
}

impl PartialEq for Template {
    fn eq(&self, other: &Template) -> (r: bool) {
        self.key.equals(&other.key) && self.root.equals(&other.root) && self.hole_count == other.hole_count
    }
}

impl vstd::std_specs::cmp::PartialEqSpecImpl for Template {
    open spec fn obeys_eq_spec() -> bool {
        true
    }

    open spec fn eq_spec(&self, other: &Template) -> bool {
        self.key@ == other.key@ && node_eq(self.root@, other.root@) && self.hole_count == other.hole_count
    }
}


impl Clone for StaticValue {
    fn clone(&self) -> (r: StaticValue)
        ensures
            r@ == self@,
    {
        self.duplicate()
    }
}

impl Clone for PropValue {
    fn clone(&self) -> (r: PropValue)
        ensures
            r@ == self@,
    {
        self.duplicate()
    }
}

impl Clone for TemplateNode {
    fn clone(&self) -> (r: TemplateNode)
        ensures
            r@ == self@,
    {
        self.duplicate()
    }
}

impl Clone for TemplateKey {
    fn clone(&self) -> (r: TemplateKey)
        ensures
            r@ == self@,
    {
        self.duplicate()
    }
}

impl Clone for Template {
    fn clone(&self) -> (r: Template)
        ensures
            r@ == self@,
    {
        self.duplicate()
    }
}

} // verus!
