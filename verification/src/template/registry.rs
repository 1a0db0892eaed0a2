//! The template registry: which template each `view!` site currently runs.
//!
//! One registry per running application; the watcher diffs edits against it
//! and hot-swaps replace its entries.
use vstd::prelude::*;
use crate::template::descriptor::{KeyV, Template, TemplateKey, TemplateV};
use crate::text::{chars_equal, chars_of};

verus! {

/// Sites keyed by [`TemplateKey`], at most one template per key, in the
/// order they were first registered.
pub struct TemplateRegistry {
    entries: Vec<Template>,
}

pub open spec fn templates_view(v: Seq<Template>) -> Seq<TemplateV> {
    v.map_values(|t: Template| t@)
}

/// No two entries share a key.
pub open spec fn unique_keys(s: Seq<TemplateV>) -> bool {
    forall|i: int, j: int| 0 <= i < s.len() && 0 <= j < s.len() && i != j ==> (#[trigger] s[i]).key != (#[trigger] s[j]).key
}

/// Whether some entry is registered under `k`.
pub open spec fn has_key(s: Seq<TemplateV>, k: KeyV) -> bool {
    exists|i: int| 0 <= i < s.len() && (#[trigger] s[i]).key == k
}

/// The position of the entry registered under `k` (meaningful when
/// [`has_key`]).
pub open spec fn key_pos(s: Seq<TemplateV>, k: KeyV) -> int {
    choose|i: int| 0 <= i < s.len() && (#[trigger] s[i]).key == k
}

/// The template registered under `k`, if any.
pub open spec fn lookup(s: Seq<TemplateV>, k: KeyV) -> Option<TemplateV> {
    if has_key(s, k) { Some(s[key_pos(s, k)]) } else { None }
}

/// The registry after registering `t`: it replaces the entry with the same
/// key in place, or is appended.
pub open spec fn registered(s: Seq<TemplateV>, t: TemplateV) -> Seq<TemplateV> {
    if has_key(s, t.key) { s.update(key_pos(s, t.key), t) } else { s.push(t) }
}

// ───────────────────────── path matching ─────────────────────────

/// The non-empty `/`-separated segments of a path, in order.
pub open spec fn path_segments(s: Seq<char>) -> Seq<Seq<char>>
    decreases s.len(),
{
    if s.len() == 0 {
        Seq::empty()
    } else {
        let p = path_segments(s.drop_last());
        let c = s.last();
        if c == '/' {
            p
        } else if s.len() >= 2 && s[s.len() - 2] != '/' {
            p.update(p.len() - 1, p.last().push(c))
        } else {
            p.push(seq![c])
        }
    }
}

/// Two paths name the same file: they are equal, or both have at least one
/// segment and their trailing segments agree over the shorter length.
pub open spec fn files_match_spec(a: Seq<char>, b: Seq<char>) -> bool {
    a == b || {
        let sa = path_segments(a);
        let sb = path_segments(b);
        let n = if sa.len() <= sb.len() { sa.len() } else { sb.len() };
        n > 0 && sa.subrange(sa.len() - n, sa.len() as int) == sb.subrange(sb.len() - n, sb.len() as int)
    }
}

/// The running template of `file` at `line`, if the registry holds one:
/// the first (in registration order) whose key has that line and a
/// matching path.
pub open spec fn first_running(s: Seq<TemplateV>, file: Seq<char>, line: u32) -> Option<TemplateV>
    decreases s.len(),
{
    if s.len() == 0 {
        None
    } else if s[0].key.line == line && files_match_spec(s[0].key.file, file) {
        Some(s[0])
    } else {
        first_running(s.drop_first(), file, line)
    }
}

pub proof fn lemma_segments_nonempty(s: Seq<char>)
    requires
        s.len() > 0,
        s.last() != '/',
    ensures
        path_segments(s).len() > 0,
    decreases s.len(),
{
    if s.len() >= 2 && s[s.len() - 2] != '/' {
        assert(s.drop_last().last() == s[s.len() - 2]);
        lemma_segments_nonempty(s.drop_last());
    }
}

pub open spec fn segs_view(v: Seq<Vec<char>>) -> Seq<Seq<char>> {
    v.map_values(|x: Vec<char>| x@)
}

/// Splits a path into its non-empty `/`-separated segments.
fn segments(path: &str) -> (r: Vec<Vec<char>>)
    ensures
        segs_view(r@) == path_segments(path@),
{
    let cs = chars_of(path);
    let mut out: Vec<Vec<char>> = Vec::new();
    let mut i: usize = 0;
    while i < cs.len()
        invariant
            i <= cs.len(),
            cs@ == path@,
            segs_view(out@) == path_segments(cs@.take(i as int)),
        decreases cs.len() - i,
    {
        let c = cs[i];
        let ghost t = cs@.take(i as int + 1);
        proof {
            assert(t.drop_last() =~= cs@.take(i as int));
            assert(t.last() == c);
        }
        if c == '/' {
        } else if i >= 1 && cs[i - 1] != '/' {
            proof {
                assert(t[t.len() - 2] == cs@[i - 1]);
                assert(cs@.take(i as int).last() == cs@[i - 1]);
                lemma_segments_nonempty(cs@.take(i as int));
            }
            let mut last = out.pop().unwrap();
            last.push(c);
            out.push(last);
            proof {
                assert(segs_view(out@) =~= path_segments(t));
            }
        } else {
            let mut seg: Vec<char> = Vec::new();
            seg.push(c);
            out.push(seg);
            proof {
                if i >= 1 {
                    assert(t[t.len() - 2] == cs@[i - 1]);
                }
                assert(seg@ =~= seq![c]);
                assert(segs_view(out@) =~= path_segments(t));
            }
        }
        i = i + 1;
    }
    proof {
        assert(cs@.take(cs@.len() as int) =~= cs@);
    }
    out
}

/// Whether two path strings name the same file, comparing their trailing
/// segments (so `src/app.rs` matches `/abs/pkg/src/app.rs`, and `app.rs`
/// never matches `map.rs`).
pub fn files_match(a: &str, b: &str) -> (r: bool)
    ensures
        r == files_match_spec(a@, b@),
{
    if crate::text::str_equal(a, b) {
        return true;
    }
    let sa = segments(a);
    let sb = segments(b);
    let n = if sa.len() <= sb.len() { sa.len() } else { sb.len() };
    if n == 0 {
        return false;
    }
    let ghost va = segs_view(sa@);
    let ghost vb = segs_view(sb@);
    let oa = sa.len() - n;
    let ob = sb.len() - n;
    let mut k: usize = 0;
    while k < n
        invariant
            k <= n,
            n <= sa.len(),
            n <= sb.len(),
            oa == sa.len() - n,
            ob == sb.len() - n,
            va == segs_view(sa@),
            vb == segs_view(sb@),
            va == path_segments(a@),
            vb == path_segments(b@),
            a@ != b@,
            n == (if va.len() <= vb.len() { va.len() } else { vb.len() }),
            forall|q: int| 0 <= q < k ==> va.subrange(oa as int, va.len() as int)[q] == #[trigger] vb.subrange(ob as int, vb.len() as int)[q],
        decreases n - k,
    {
        if !chars_equal(&sa[oa + k], &sb[ob + k]) {
            proof {
                assert(va[oa + k] == sa@[oa + k]@);
                assert(vb[ob + k] == sb@[ob + k]@);
                assert(va.subrange(oa as int, va.len() as int)[k as int] == va[oa + k]);
                assert(vb.subrange(ob as int, vb.len() as int)[k as int] == vb[ob + k]);
                assert(va.subrange(oa as int, va.len() as int) != vb.subrange(ob as int, vb.len() as int));
                assert(va == path_segments(a@));
                assert(vb == path_segments(b@));
                assert(a@ != b@);
            }
            return false;
        }
        k = k + 1;
    }
    proof {
        assert(va.subrange(oa as int, va.len() as int) =~= vb.subrange(ob as int, vb.len() as int));
    }
    true
}

// ───────────────────────── the registry ─────────────────────────

impl View for TemplateRegistry {
    type V = Seq<TemplateV>;

    closed spec fn view(&self) -> Seq<TemplateV> {
        templates_view(self.entries@)
    }
}

impl TemplateRegistry {
    #[verifier::type_invariant]
    spec fn inv(self) -> bool {
        unique_keys(templates_view(self.entries@))
    }

    /// An empty registry.
    pub fn new() -> (r: TemplateRegistry)
        ensures
            r@ == Seq::<TemplateV>::empty(),
            unique_keys(r@),
    {
        let r = TemplateRegistry { entries: Vec::new() };
        proof {
            assert(templates_view(r.entries@) =~= Seq::<TemplateV>::empty());
        }
        r
    }

    fn position(&self, key: &TemplateKey) -> (r: Option<usize>)
        ensures
            match r {
                Some(i) => i < self@.len() && self@[i as int].key == key@ && has_key(self@, key@) && key_pos(self@, key@) == i,
                None => !has_key(self@, key@),
            },
    {
        proof { use_type_invariant(self); }
        let mut i: usize = 0;
        while i < self.entries.len()
            invariant
                i <= self.entries.len(),
                self@ == templates_view(self.entries@),
                unique_keys(self@),
                forall|j: int| 0 <= j < i ==> (#[trigger] self@[j]).key != key@,
            decreases self.entries.len() - i,
        {
            if self.entries[i].key.equals(key) {
                proof {
                    assert(self@[i as int].key == key@);
                    let p = key_pos(self@, key@);
                    assert(self@[p].key == key@);
                }
                return Some(i);
            }
            i = i + 1;
        }
        None
    }
}


/// Registers (or replaces) the template for its key.
pub fn register(reg: &mut TemplateRegistry, template: Template)
    ensures
        final(reg)@ == registered(old(reg)@, template@),
        unique_keys(old(reg)@),
        unique_keys(final(reg)@),
{
    proof { use_type_invariant(&*reg); }
    let ghost before = reg@;
    let pos = reg.position(&template.key);
    let mut entries: Vec<Template> = Vec::new();
    std::mem::swap(&mut entries, &mut reg.entries);
    assert(templates_view(entries@) == before);
    match pos {
        Some(i) => {
            let ghost tv = template@;
            entries.set(i, template);
            proof {
                assert(templates_view(entries@) =~= before.update(i as int, tv));
                let s = templates_view(entries@);
                assert forall|a: int, b: int| 0 <= a < s.len() && 0 <= b < s.len() && a != b implies (#[trigger] s[a]).key != (#[trigger] s[b]).key by {
                    if a != i && b != i {
                        assert(s[a] == before[a] && s[b] == before[b]);
                    } else if a == i {
                        assert(s[b] == before[b]);
                    } else {
                        assert(s[a] == before[a]);
                    }
                }
            }
        },
        None => {
            let ghost tv = template@;
            entries.push(template);
            proof {
                assert(templates_view(entries@) =~= before.push(tv));
                let s = templates_view(entries@);
                assert forall|a: int, b: int| 0 <= a < s.len() && 0 <= b < s.len() && a != b implies (#[trigger] s[a]).key != (#[trigger] s[b]).key by {
                    if a < before.len() && b < before.len() {
                        assert(s[a] == before[a] && s[b] == before[b]);
                    } else if a == before.len() {
                        assert(s[b] == before[b]);
                    } else {
                        assert(s[a] == before[a]);
                    }
                }
            }
        },
    }
    reg.entries = entries;
}

/// The template currently registered for `key`, if any.
pub fn get(reg: &TemplateRegistry, key: &TemplateKey) -> (r: Option<Template>)
    ensures
        unique_keys(reg@),
        match r {
            Some(t) => lookup(reg@, key@) == Some(t@),
            None => lookup(reg@, key@) is None,
        },
{
    proof { use_type_invariant(reg); }
    match reg.position(key) {
        Some(i) => Some(reg.entries[i].duplicate()),
        None => None,
    }
}

/// The running template of `file` at `line`, tolerating path-form and
/// column differences between the file scanner and the macro's key.
pub fn find_running(reg: &TemplateRegistry, file: &str, line: u32) -> (r: Option<Template>)
    ensures
        match r {
            Some(t) => first_running(reg@, file@, line) == Some(t@),
            None => first_running(reg@, file@, line) is None,
        },
{
    let ghost s = reg@;
    proof { assert(s.skip(0) =~= s); }
    let mut i: usize = 0;
    while i < reg.entries.len()
        invariant
            i <= reg.entries.len(),
            s == reg@,
            s == templates_view(reg.entries@),
            first_running(s, file@, line) == first_running(s.skip(i as int), file@, line),
        decreases reg.entries.len() - i,
    {
        let ghost rest = s.skip(i as int);
        proof {
            assert(rest[0] == s[i as int]);
            assert(rest.drop_first() =~= s.skip(i as int + 1));
        }
        let e = &reg.entries[i];
        if e.key.line == line && files_match(e.key.file.as_str(), file) {
            return Some(e.duplicate());
        }
        i = i + 1;
    }
    proof {
        assert(s.skip(i as int) =~= Seq::<TemplateV>::empty());
    }
    None
}

/// Number of registered sites.
pub fn len(reg: &TemplateRegistry) -> (r: usize)
    ensures
        r == reg@.len(),
        unique_keys(reg@),
{
    proof { use_type_invariant(reg); }
    reg.entries.len()
}

/// A copy of every registered template, in registration order.
pub fn snapshot(reg: &TemplateRegistry) -> (r: Vec<Template>)
    ensures
        templates_view(r@) == reg@,
{
    let mut out: Vec<Template> = Vec::new();
    let mut i: usize = 0;
    while i < reg.entries.len()
        invariant
            i <= reg.entries.len(),
            out.len() == i,
            forall|j: int| 0 <= j < i ==> (#[trigger] out@[j])@ == reg.entries@[j]@,
        decreases reg.entries.len() - i,
    {
        out.push(reg.entries[i].duplicate());
        i = i + 1;
    }
    proof {
        assert(templates_view(out@) =~= templates_view(reg.entries@));
    }
    out
}

// ───────────────────────── laws ─────────────────────────

/// Registering `t` makes it what its key looks up, leaves every other key's
/// lookup as it was, keeps keys unique, and grows the registry only for a
/// new key.
pub proof fn law_register_lookup(s: Seq<TemplateV>, t: TemplateV)
    requires
        unique_keys(s),
    ensures
        unique_keys(registered(s, t)),
        lookup(registered(s, t), t.key) == Some(t),
        forall|k: KeyV| k != t.key ==> #[trigger] lookup(registered(s, t), k) == lookup(s, k),
        registered(s, t).len() == if has_key(s, t.key) { s.len() } else { s.len() + 1 },
{
    let r = registered(s, t);
    if has_key(s, t.key) {
        let p = key_pos(s, t.key);
        assert(s[p].key == t.key);
        assert forall|a: int, b: int| 0 <= a < r.len() && 0 <= b < r.len() && a != b implies (#[trigger] r[a]).key != (#[trigger] r[b]).key by {
            if a != p && b != p {
            } else if a == p {
                assert(r[b] == s[b]);
                assert(s[b].key != s[p].key);
            } else {
                assert(r[a] == s[a]);
                assert(s[a].key != s[p].key);
            }
        }
        assert(r[p].key == t.key);
        assert(has_key(r, t.key));
        let q = key_pos(r, t.key);
        assert(q == p);
        assert forall|k: KeyV| k != t.key implies #[trigger] lookup(r, k) == lookup(s, k) by {
            if has_key(s, k) {
                let i = key_pos(s, k);
                assert(i != p);
                assert(r[i] == s[i]);
                assert(has_key(r, k));
                let j = key_pos(r, k);
                assert(j != p);
                assert(r[j] == s[j]);
            } else {
                if has_key(r, k) {
                    let j = key_pos(r, k);
                    assert(j != p);
                    assert(r[j] == s[j]);
                }
            }
        }
    } else {
        assert forall|a: int, b: int| 0 <= a < r.len() && 0 <= b < r.len() && a != b implies (#[trigger] r[a]).key != (#[trigger] r[b]).key by {
            if a < s.len() && b < s.len() {
            } else if a == s.len() {
                assert(r[b] == s[b]);
            } else {
                assert(r[a] == s[a]);
            }
        }
        assert(r[s.len() as int].key == t.key);
        assert(has_key(r, t.key));
        let q = key_pos(r, t.key);
        assert(q == s.len());
        assert forall|k: KeyV| k != t.key implies #[trigger] lookup(r, k) == lookup(s, k) by {
            if has_key(s, k) {
                let i = key_pos(s, k);
                assert(r[i] == s[i]);
                assert(has_key(r, k));
                let j = key_pos(r, k);
                assert(j != s.len());
                assert(r[j] == s[j]);
            } else {
                if has_key(r, k) {
                    let j = key_pos(r, k);
                    assert(r[j] == s[j]);
                }
            }
        }
    }
}

} // verus!
