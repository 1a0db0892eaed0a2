//! Icon names: the built-in icon kinds' codepoints in the icon font, and a
//! name → codepoint registry seeded from a `name hex` codepoints table and
//! open to registration of further names.
use vstd::prelude::*;
use crate::keyed::{entries_view, find_name, lookup, upsert, upsert_entry};
use crate::text::{chars_of, find_char_from, find_from, slice_string, trim, trim_bounds};

verus! {

/// Built-in icon names.
#[derive(Debug, Clone, Copy, PartialEq, Eq, Structural)]
pub enum IconKind {
    Check,
    Close,
    Add,
    Remove,
    Search,
    Menu,
    Arrow,
    ChevronRight,
    ChevronDown,
    Settings,
    User,
    Home,
    Inbox,
    Calendar,
    Star,
    Heart,
    Bell,
    Edit,
    Trash,
    Upload,
    Download,
    Filter,
    Sort,
    Grid,
    List,
    Circle,
    Dot,
}

/// The icon-font codepoint of each kind; `Circle` and `Dot` have none (they
/// are drawn as filled discs).
pub open spec fn kind_codepoint(k: IconKind) -> Option<char> {
    match k {
        IconKind::Check => Some('\u{e668}'),
        IconKind::Close => Some('\u{e5cd}'),
        IconKind::Add => Some('\u{e145}'),
        IconKind::Remove => Some('\u{e15b}'),
        IconKind::Search => Some('\u{ef7a}'),
        IconKind::Menu => Some('\u{e5d2}'),
        IconKind::Arrow => Some('\u{e5c8}'),
        IconKind::ChevronRight => Some('\u{e5cc}'),
        IconKind::ChevronDown => Some('\u{e5cf}'),
        IconKind::Settings => Some('\u{e8b8}'),
        IconKind::User => Some('\u{f0d3}'),
        IconKind::Home => Some('\u{e9b2}'),
        IconKind::Inbox => Some('\u{e156}'),
        IconKind::Calendar => Some('\u{ebcc}'),
        IconKind::Star => Some('\u{f09a}'),
        IconKind::Heart => Some('\u{e87e}'),
        IconKind::Bell => Some('\u{e7f5}'),
        IconKind::Edit => Some('\u{f097}'),
        IconKind::Trash => Some('\u{e92e}'),
        IconKind::Upload => Some('\u{f09b}'),
        IconKind::Download => Some('\u{f090}'),
        IconKind::Filter => Some('\u{e152}'),
        IconKind::Sort => Some('\u{e164}'),
        IconKind::Grid => Some('\u{e9b0}'),
        IconKind::List => Some('\u{e896}'),
        IconKind::Circle => None,
        IconKind::Dot => None,
    }
}

impl IconKind {
    /// Every kind, in declaration order.
    pub fn all() -> (r: Vec<IconKind>)
        ensures
            r@.len() == 27,
            r@[0] == IconKind::Check,
            r@[26] == IconKind::Dot,
    {
        vec![
            IconKind::Check, IconKind::Close, IconKind::Add, IconKind::Remove, IconKind::Search,
            IconKind::Menu, IconKind::Arrow, IconKind::ChevronRight, IconKind::ChevronDown,
            IconKind::Settings, IconKind::User, IconKind::Home, IconKind::Inbox, IconKind::Calendar,
            IconKind::Star, IconKind::Heart, IconKind::Bell, IconKind::Edit, IconKind::Trash,
            IconKind::Upload, IconKind::Download, IconKind::Filter, IconKind::Sort, IconKind::Grid,
            IconKind::List, IconKind::Circle, IconKind::Dot,
        ]
    }

    /// The codepoint this kind renders as, `None` for the two filled discs.
    pub fn codepoint(self) -> (r: Option<char>)
        ensures
            r == kind_codepoint(self),
    {
        match self {
            IconKind::Check => Some('\u{e668}'),
            IconKind::Close => Some('\u{e5cd}'),
            IconKind::Add => Some('\u{e145}'),
            IconKind::Remove => Some('\u{e15b}'),
            IconKind::Search => Some('\u{ef7a}'),
            IconKind::Menu => Some('\u{e5d2}'),
            IconKind::Arrow => Some('\u{e5c8}'),
            IconKind::ChevronRight => Some('\u{e5cc}'),
            IconKind::ChevronDown => Some('\u{e5cf}'),
            IconKind::Settings => Some('\u{e8b8}'),
            IconKind::User => Some('\u{f0d3}'),
            IconKind::Home => Some('\u{e9b2}'),
            IconKind::Inbox => Some('\u{e156}'),
            IconKind::Calendar => Some('\u{ebcc}'),
            IconKind::Star => Some('\u{f09a}'),
            IconKind::Heart => Some('\u{e87e}'),
            IconKind::Bell => Some('\u{e7f5}'),
            IconKind::Edit => Some('\u{f097}'),
            IconKind::Trash => Some('\u{e92e}'),
            IconKind::Upload => Some('\u{f09b}'),
            IconKind::Download => Some('\u{f090}'),
            IconKind::Filter => Some('\u{e152}'),
            IconKind::Sort => Some('\u{e164}'),
            IconKind::Grid => Some('\u{e9b0}'),
            IconKind::List => Some('\u{e896}'),
            IconKind::Circle | IconKind::Dot => None,
        }
    }
}

// ───────────────────────── the codepoints table ─────────────────────────

/// Value of a hexadecimal digit, or -1.
pub open spec fn hex_digit(c: char) -> int {
    if '0' <= c <= '9' {
        (c as int) - ('0' as int)
    } else if 'a' <= c <= 'f' {
        (c as int) - ('a' as int) + 10
    } else if 'A' <= c <= 'F' {
        (c as int) - ('A' as int) + 10
    } else {
        -1
    }
}

/// Value of a string of hexadecimal digits.
pub open spec fn hex_value(d: Seq<char>) -> int
    decreases d.len(),
{
    if d.len() == 0 {
        0
    } else {
        hex_value(d.drop_last()) * 16 + hex_digit(d.last())
    }
}

/// `s` without one leading `+`.
pub open spec fn hex_body(s: Seq<char>) -> Seq<char> {
    if s.len() > 0 && s[0] == '+' { s.skip(1) } else { s }
}

/// What `u32::from_str_radix(s, 16)` accepts: an optional `+`, then at
/// least one hex digit, with a value that fits in 32 bits.
pub open spec fn parse_hex_u32(s: Seq<char>) -> Option<u32> {
    let d = hex_body(s);
    if d.len() == 0 || exists|i: int| 0 <= i < d.len() && hex_digit(#[trigger] d[i]) < 0 {
        None
    } else if hex_value(d) > u32::MAX {
        None
    } else {
        Some(hex_value(d) as u32)
    }
}

/// A Unicode scalar value (what `char::from_u32` accepts).
pub open spec fn is_scalar(v: u32) -> bool {
    v <= 0x10FFFF && !(0xD800 <= v <= 0xDFFF)
}

/// One table line: a name, a space, and a hex codepoint (surrounding white
/// space ignored). Lines of another shape, or with no valid codepoint,
/// give nothing.
pub open spec fn parse_line(l: Seq<char>) -> Option<(Seq<char>, char)> {
    let p = find_from(l, ' ', 0);
    if p >= l.len() {
        None
    } else {
        match parse_hex_u32(trim(l.subrange(p + 1, l.len() as int))) {
            Some(v) => if is_scalar(v) { Some((l.subrange(0, p), v as char)) } else { None },
            None => None,
        }
    }
}

pub open spec fn apply_line(reg: Seq<(Seq<char>, char)>, l: Seq<char>) -> Seq<(Seq<char>, char)> {
    match parse_line(l) {
        Some((name, c)) => upsert(reg, name, c),
        None => reg,
    }
}

pub proof fn lemma_find_from_range(s: Seq<char>, c: char, from: int)
    requires
        0 <= from <= s.len(),
    ensures
        from <= find_from(s, c, from) <= s.len(),
        find_from(s, c, from) < s.len() ==> s[find_from(s, c, from)] == c,
    decreases s.len() - from,
{
    if from < s.len() && s[from] != c {
        lemma_find_from_range(s, c, from + 1);
    }
}

/// The registry after applying the lines of `s` from `from` on, in order
/// (a line ends at `\n`; later lines override earlier ones).
pub open spec fn table_from(reg: Seq<(Seq<char>, char)>, s: Seq<char>, from: int) -> Seq<(Seq<char>, char)>
    decreases s.len() - from,
{
    if from < 0 || from > s.len() {
        reg
    } else {
        let e = find_from(s, '\n', from);
        proof {
            lemma_find_from_range(s, '\n', from);
        }
        let reg2 = apply_line(reg, s.subrange(from, e));
        if e >= s.len() {
            reg2
        } else {
            table_from(reg2, s, e + 1)
        }
    }
}

/// The registry a codepoints table describes.
pub open spec fn codepoint_table(s: Seq<char>) -> Seq<(Seq<char>, char)> {
    table_from(Seq::empty(), s, 0)
}

/// `char::from_u32`: the char with scalar value `v`, or `None` where `v` is
/// not a Unicode scalar value (above `0x10FFFF` or a surrogate), as std
/// documents.
#[verifier::external_body]
fn char_from_u32(v: u32) -> (r: Option<char>)
    ensures
        r == (if is_scalar(v) { Some(v as char) } else { None }),
{
    char::from_u32(v)
}

fn hex_digit_of(c: char) -> (r: u32)
    ensures
        hex_digit(c) >= 0 ==> r == hex_digit(c),
        hex_digit(c) < 0 ==> r == 16,
{
    if '0' <= c && c <= '9' {
        (c as u32) - ('0' as u32)
    } else if 'a' <= c && c <= 'f' {
        (c as u32) - ('a' as u32) + 10
    } else if 'A' <= c && c <= 'F' {
        (c as u32) - ('A' as u32) + 10
    } else {
        16
    }
}

proof fn lemma_hex_value_grows(d: Seq<char>, k: int)
    requires
        0 <= k <= d.len(),
        forall|i: int| 0 <= i < d.len() ==> hex_digit(#[trigger] d[i]) >= 0,
    ensures
        hex_value(d.take(k)) <= hex_value(d),
        hex_value(d) >= 0,
    decreases d.len(),
{
    if d.len() > 0 {
        let dl = d.drop_last();
        assert forall|i: int| 0 <= i < dl.len() implies hex_digit(#[trigger] dl[i]) >= 0 by {
            assert(dl[i] == d[i]);
        }
        if k == d.len() {
            assert(d.take(k) =~= d);
            lemma_hex_value_grows(dl, 0);
        } else {
            assert(d.take(k) =~= dl.take(k));
            lemma_hex_value_grows(dl, k);
        }
    } else {
        assert(d.take(k) =~= d);
    }
}

/// `u32::from_str_radix(d, 16)` on the characters `cs[from..to]`.
fn parse_hex(cs: &Vec<char>, from: usize, to: usize) -> (r: Option<u32>)
    requires
        from <= to <= cs@.len(),
    ensures
        r == parse_hex_u32(cs@.subrange(from as int, to as int)),
{
    let ghost s = cs@.subrange(from as int, to as int);
    let mut start = from;
    if start < to && cs[start] == '+' {
        start = start + 1;
    }
    proof {
        if from < to {
            assert(s[0] == cs@[from as int]);
        }
    }
    let ghost d = cs@.subrange(start as int, to as int);
    proof {
        assert(d =~= hex_body(s));
    }
    if start == to {
        proof {
            assert(d.len() == 0);
        }
        return None;
    }
    let mut k: usize = start;
    while k < to
        invariant
            start <= k <= to <= cs@.len(),
            start < to,
            d == cs@.subrange(start as int, to as int),
            s == cs@.subrange(from as int, to as int),
            d == hex_body(s),
            forall|i: int| start <= i < k ==> hex_digit(#[trigger] cs@[i]) >= 0,
        decreases to - k,
    {
        if hex_digit_of(cs[k]) == 16 {
            proof {
                assert(hex_digit(d[k - start]) < 0);
            }
            return None;
        }
        k = k + 1;
    }
    assert forall|i: int| 0 <= i < d.len() implies hex_digit(#[trigger] d[i]) >= 0 by {
        assert(d[i] == cs@[start + i]);
    }
    let mut acc: u64 = 0;
    let mut k: usize = start;
    while k < to
        invariant
            start <= k <= to <= cs@.len(),
            start < to,
            d == cs@.subrange(start as int, to as int),
            s == cs@.subrange(from as int, to as int),
            d == hex_body(s),
            forall|i: int| 0 <= i < d.len() ==> hex_digit(#[trigger] d[i]) >= 0,
            acc == hex_value(d.take(k - start)),
            acc <= u32::MAX,
        decreases to - k,
    {
        proof {
            assert(d.take(k - start + 1).drop_last() =~= d.take(k - start));
            assert(d[k - start] == cs@[k as int]);
        }
        let digit = hex_digit_of(cs[k]);
        acc = acc * 16 + digit as u64;
        proof {
            let j = k - start;
            assert(d.take(j + 1).last() == d[j]);
            assert(acc == hex_value(d.take(j + 1)));
        }
        if acc > 0xFFFF_FFFF {
            proof {
                lemma_hex_value_grows(d, k - start + 1);
                assert(hex_value(d) > u32::MAX);
                assert(!exists|i: int| 0 <= i < d.len() && hex_digit(#[trigger] d[i]) < 0);
            }
            return None;
        }
        k = k + 1;
    }
    proof {
        assert(d.take(d.len() as int) =~= d);
    }
    Some(acc as u32)
}

/// Parses the line `cs[from..to]` (which holds no `\n`).
fn parse_line_at(cs: &Vec<char>, from: usize, to: usize) -> (r: Option<(String, char)>)
    requires
        from <= to <= cs@.len(),
    ensures
        match r {
            Some(p) => parse_line(cs@.subrange(from as int, to as int)) == Some((p.0@, p.1)),
            None => parse_line(cs@.subrange(from as int, to as int)) is None,
        },
{
    let ghost l = cs@.subrange(from as int, to as int);
    let mut p = from;
    while p < to && cs[p] != ' '
        invariant
            from <= p <= to <= cs@.len(),
            l == cs@.subrange(from as int, to as int),
            find_from(l, ' ', 0) == find_from(l, ' ', p - from),
        decreases to - p,
    {
        proof {
            assert(l[p - from] == cs@[p as int]);
        }
        p = p + 1;
    }
    proof {
        if p < to {
            assert(l[p - from] == cs@[p as int]);
        }
        assert(find_from(l, ' ', 0) == p - from);
    }
    if p == to {
        return None;
    }
    let (a, b) = trim_bounds(cs, p + 1, to);
    proof {
        assert(l.subrange(p - from + 1, l.len() as int) =~= cs@.subrange(p + 1, to as int));
    }
    match parse_hex(cs, a, b) {
        Some(v) => match char_from_u32(v) {
            Some(c) => {
                let name = slice_string(cs, from, p);
                proof {
                    assert(l.subrange(0, p - from) =~= cs@.subrange(from as int, p as int));
                }
                Some((name, c))
            },
            None => None,
        },
        None => None,
    }
}

/// A name → codepoint registry.
pub struct IconRegistry {
    names: Vec<(String, char)>,
}

impl View for IconRegistry {
    type V = Seq<(Seq<char>, char)>;

    closed spec fn view(&self) -> Seq<(Seq<char>, char)> {
        entries_view(self.names@)
    }
}

impl IconRegistry {
    /// A registry with no names.
    pub fn new() -> (r: IconRegistry)
        ensures
            r@ == Seq::<(Seq<char>, char)>::empty(),
    {
        let r = IconRegistry { names: Vec::new() };
        proof {
            assert(r@ =~= Seq::<(Seq<char>, char)>::empty());
        }
        r
    }

    /// The registry seeded from a codepoints table: one `name hex` entry
    /// per line, later lines overriding earlier ones; other lines are
    /// skipped.
    pub fn from_codepoints(table: &str) -> (r: IconRegistry)
        ensures
            r@ == codepoint_table(table@),
    {
        let cs = chars_of(table);
        let mut names: Vec<(String, char)> = Vec::new();
        let mut start: usize = 0;
        proof {
            assert(entries_view(names@) =~= Seq::<(Seq<char>, char)>::empty());
        }
        loop
            invariant
                start <= cs@.len(),
                cs@ == table@,
                table_from(entries_view(names@), cs@, start as int) == codepoint_table(table@),
            decreases cs@.len() - start,
        {
            let end = find_char_from(&cs, '\n', start);
            let ghost before = entries_view(names@);
            match parse_line_at(&cs, start, end) {
                Some((name, c)) => upsert_entry(&mut names, name, c),
                None => {},
            }
            proof {
                assert(entries_view(names@) == apply_line(before, cs@.subrange(start as int, end as int)));
            }
            if end >= cs.len() {
                return IconRegistry { names };
            }
            start = end + 1;
        }
    }
}

/// Binds `name` to `codepoint`, replacing an earlier binding of the name.
pub fn register_icon(reg: &mut IconRegistry, name: &str, codepoint: char)
    ensures
        final(reg)@ == upsert(old(reg)@, name@, codepoint),
{
    upsert_entry(&mut reg.names, name.to_owned(), codepoint);
}

/// The codepoint bound to `name`, if any.
pub fn resolve_icon(reg: &IconRegistry, name: &str) -> (r: Option<char>)
    ensures
        r == lookup(reg@, name@),
{
    match find_name(&reg.names, name) {
        Some(i) => Some(reg.names[i].1),
        None => None,
    }
}

} // verus!
