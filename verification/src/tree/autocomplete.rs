//! The model of a text field with a live-filtered suggestion list: the
//! typed value, the candidate options, whether the list is open, and which
//! options match.
use vstd::prelude::*;
use crate::text::{chars_of, contains_chars, contains_seq, occurs_at, slice_string, trim, trim_bounds};

verus! {

/// What `str::to_lowercase` yields for `s` (full Unicode lowercase mapping).
pub uninterp spec fn lowercased(s: Seq<char>) -> Seq<char>;

/// The lowercase form of `s`, by `str::to_lowercase`. Claimed: the result
/// is a function of `s` alone; the Unicode mapping itself is not stated.
#[verifier::external_body]
fn to_lowercase(s: &str) -> (r: String)
    ensures
        r@ == lowercased(s@),
{
    s.to_lowercase()
}

/// The options whose lowercase form (the matching item of `lowered`)
/// contains `q`, in order.
pub open spec fn kept(options: Seq<String>, lowered: Seq<Seq<char>>, q: Seq<char>) -> Seq<String>
    decreases options.len(),
{
    if options.len() == 0 || lowered.len() == 0 {
        Seq::empty()
    } else {
        let prev = kept(options.drop_last(), lowered.drop_last(), q);
        if contains_seq(lowered.last(), q) {
            prev.push(options.last())
        } else {
            prev
        }
    }
}

/// One option is kept exactly when its lowercase form contains `q` at some
/// position (not only at the start).
pub proof fn law_kept_one(o: String, l: Seq<char>, q: Seq<char>)
    ensures
        kept(seq![o], seq![l], q) == if exists|i: int| occurs_at(l, q, i) {
            seq![o]
        } else {
            Seq::<String>::empty()
        },
{
    assert(seq![o].drop_last() =~= Seq::<String>::empty());
    assert(seq![l].drop_last() =~= Seq::<Seq<char>>::empty());
    assert(kept(Seq::<String>::empty(), Seq::<Seq<char>>::empty(), q) =~= Seq::<String>::empty());
    assert(Seq::<String>::empty().push(o) =~= seq![o]);
}

/// Filtering a list split in two keeps, in order, what filtering each part
/// keeps: the first part's picks, then the second's.
pub proof fn law_kept_split(o1: Seq<String>, l1: Seq<Seq<char>>, o2: Seq<String>, l2: Seq<Seq<char>>, q: Seq<char>)
    requires
        o1.len() == l1.len(),
        o2.len() == l2.len(),
    ensures
        kept(o1 + o2, l1 + l2, q) == kept(o1, l1, q) + kept(o2, l2, q),
    decreases o2.len(),
{
    if o2.len() == 0 {
        assert(o1 + o2 =~= o1);
        assert(l1 + l2 =~= l1);
        assert(kept(o1, l1, q) + kept(o2, l2, q) =~= kept(o1, l1, q));
    } else {
        law_kept_split(o1, l1, o2.drop_last(), l2.drop_last(), q);
        assert((o1 + o2).drop_last() =~= o1 + o2.drop_last());
        assert((l1 + l2).drop_last() =~= l1 + l2.drop_last());
        assert((o1 + o2).last() == o2.last());
        assert((l1 + l2).last() == l2.last());
        let a = kept(o1, l1, q);
        let b = kept(o2.drop_last(), l2.drop_last(), q);
        assert((a + b).push(o2.last()) =~= a + b.push(o2.last()));
    }
}

/// `q` occurs in `l` at some position.
pub open spec fn occurs_somewhere(l: Seq<char>, q: Seq<char>) -> bool {
    exists|i: int| occurs_at(l, q, i)
}

/// `x` is one of `options` whose lowercase form contains `q` somewhere.
pub open spec fn from_matching_option(options: Seq<String>, lowered: Seq<Seq<char>>, q: Seq<char>, x: String) -> bool {
    exists|j: int| 0 <= j < options.len() && options[j] == x && #[trigger] occurs_somewhere(lowered[j], q)
}

/// Every option whose lowercase form contains `q` anywhere is kept, and
/// everything kept is such an option.
pub proof fn law_kept_members(options: Seq<String>, lowered: Seq<Seq<char>>, q: Seq<char>)
    requires
        options.len() == lowered.len(),
    ensures
        forall|j: int| 0 <= j < options.len() && occurs_somewhere(lowered[j], q)
            ==> kept(options, lowered, q).contains(#[trigger] options[j]),
        forall|t: int| 0 <= t < kept(options, lowered, q).len() ==> from_matching_option(
            options,
            lowered,
            q,
            #[trigger] kept(options, lowered, q)[t],
        ),
    decreases options.len(),
{
    let k = kept(options, lowered, q);
    if options.len() > 0 {
        let o0 = options.drop_last();
        let l0 = lowered.drop_last();
        law_kept_members(o0, l0, q);
        let prev = kept(o0, l0, q);
        let n = options.len() - 1;
        assert(contains_seq(lowered.last(), q) == occurs_somewhere(lowered[n], q));
        assert forall|j: int| 0 <= j < options.len() && occurs_somewhere(lowered[j], q)
            implies k.contains(#[trigger] options[j]) by {
            if j < n {
                assert(o0[j] == options[j] && l0[j] == lowered[j]);
                assert(prev.contains(o0[j]));
                let t = choose|t: int| 0 <= t < prev.len() && prev[t] == o0[j];
                assert(k[t] == options[j]);
            } else {
                assert(k[prev.len() as int] == options[j]);
            }
        }
        assert forall|t: int| 0 <= t < k.len() implies from_matching_option(options, lowered, q, #[trigger] k[t]) by {
            if t < prev.len() {
                assert(k[t] == prev[t]);
                assert(from_matching_option(o0, l0, q, prev[t]));
                let j = choose|j: int| 0 <= j < o0.len() && o0[j] == prev[t] && #[trigger] occurs_somewhere(l0[j], q);
                assert(options[j] == o0[j] && lowered[j] == l0[j]);
                assert(occurs_somewhere(lowered[j], q));
            } else {
                assert(options[n] == k[t]);
                assert(occurs_somewhere(lowered[n], q));
            }
        }
    }
}

/// The lowercase form of each option.
pub open spec fn lowered_all(options: Seq<String>) -> Seq<Seq<char>> {
    options.map_values(|s: String| lowercased(s@))
}

/// The options whose lowercase form contains `q`, in order.
pub open spec fn filtered(options: Seq<String>, q: Seq<char>) -> Seq<String> {
    kept(options, lowered_all(options), q)
}

/// At most the first `n` items of `s`.
pub open spec fn at_most<A>(s: Seq<A>, n: nat) -> Seq<A> {
    if s.len() <= n {
        s
    } else {
        s.take(n as int)
    }
}

proof fn lemma_at_most_push<A>(s: Seq<A>, x: A, n: nat)
    ensures
        s.len() < n ==> at_most(s.push(x), n) == at_most(s, n).push(x) && at_most(s, n) == s,
        s.len() >= n ==> at_most(s.push(x), n) == at_most(s, n),
        at_most(s, n).len() == if s.len() <= n { s.len() } else { n as nat },
{
    if s.len() >= n {
        assert(s.push(x).take(n as int) =~= s.take(n as int));
        if s.len() == n {
            assert(s.take(n as int) =~= s);
        }
    }
}

/// The picks for the lowercase query `q` among `options` whose lowercase
/// forms are `lowered`: nothing for an empty query; otherwise the options
/// whose lowercase form contains it, at most `max` of them.
pub open spec fn picked(options: Seq<String>, lowered: Seq<Seq<char>>, q: Seq<char>, max: nat) -> Seq<String> {
    if q.len() == 0 {
        Seq::empty()
    } else {
        at_most(kept(options, lowered, q), max)
    }
}

/// The picks are the first `max` of the kept options, in order (all of them
/// when fewer are kept), and nothing for an empty query.
pub proof fn law_picked_is_capped_prefix(options: Seq<String>, lowered: Seq<Seq<char>>, q: Seq<char>, max: nat)
    ensures
        q.len() == 0 ==> picked(options, lowered, q, max).len() == 0,
        q.len() > 0 ==> picked(options, lowered, q, max).len() == if kept(options, lowered, q).len() <= max {
            kept(options, lowered, q).len()
        } else {
            max
        },
        q.len() > 0 ==> forall|t: int| 0 <= t < picked(options, lowered, q, max).len()
            ==> #[trigger] picked(options, lowered, q, max)[t] == kept(options, lowered, q)[t],
{
}

/// The suggestions for `value`: nothing for a query that is empty once
/// trimmed and lowercased; otherwise the options containing it, compared
/// case-insensitively, at most `max` of them.
pub open spec fn suggestions(options: Seq<String>, value: Seq<char>, max: nat) -> Seq<String> {
    picked(options, lowered_all(options), lowercased(trim(value)), max)
}

/// The picks for the lowercase query `query` among `options`, whose
/// lowercase forms are `lowered`, item for item (see [`picked`]).
pub fn select_matches(options: &Vec<String>, lowered: &Vec<String>, query: &str, max: usize) -> (r: Vec<String>)
    requires
        lowered.len() == options.len(),
    ensures
        strings_view(r@) == strings_view(picked(options@, strings_view(lowered@), query@, max as nat)),
{
    let qc = chars_of(query);
    let mut out: Vec<String> = Vec::new();
    if qc.len() == 0 {
        proof {
            assert(strings_view(out@) =~= strings_view(picked(options@, strings_view(lowered@), query@, max as nat)));
        }
        return out;
    }
    let ghost qv = qc@;
    let ghost lv = strings_view(lowered@);
    let ghost m = max as nat;
    let mut i: usize = 0;
    while i < options.len()
        invariant
            i <= options@.len(),
            lowered@.len() == options@.len(),
            lv == strings_view(lowered@),
            qc@ == qv,
            qv == query@,
            qv.len() > 0,
            m == max as nat,
            strings_view(out@) == strings_view(at_most(kept(options@.take(i as int), lv.take(i as int), qv), m)),
        decreases options@.len() - i,
    {
        proof {
            assert(options@.take(i + 1).drop_last() =~= options@.take(i as int));
            assert(options@.take(i + 1).last() == options@[i as int]);
            assert(lv.take(i + 1).drop_last() =~= lv.take(i as int));
            assert(lv.take(i + 1).last() == lowered@[i as int]@);
        }
        let ghost before = kept(options@.take(i as int), lv.take(i as int), qv);
        let lc = chars_of(lowered[i].as_str());
        if contains_chars(&lc, &qc) {
            let ghost x = options@[i as int];
            proof {
                lemma_at_most_push(before, x, m);
                assert(kept(options@.take(i + 1), lv.take(i + 1), qv) == before.push(x));
            }
            if out.len() < max {
                let ghost ov = strings_view(out@);
                out.push(options[i].clone());
                proof {
                    assert(strings_view(out@) =~= ov.push(x@));
                    assert(strings_view(at_most(before, m).push(x)) =~= strings_view(at_most(before, m)).push(x@));
                }
            }
        } else {
            proof {
                assert(kept(options@.take(i + 1), lv.take(i + 1), qv) == before);
            }
        }
        i = i + 1;
    }
    proof {
        assert(options@.take(options@.len() as int) =~= options@);
        assert(lv.take(lv.len() as int) =~= lv);
    }
    out
}

/// A text field's value, its candidate options, whether its suggestion
/// list is open, and how many suggestions show at most.
pub struct Autocomplete {
    pub value: String,
    pub placeholder: String,
    pub options: Vec<String>,
    pub open: bool,
    pub max_visible: usize,
}

pub open spec fn strings_view(v: Seq<String>) -> Seq<Seq<char>> {
    v.map_values(|s: String| s@)
}

impl Autocomplete {
    /// A field over `options`, empty, with the default placeholder and at
    /// most six suggestions.
    pub fn new(options: Vec<String>, open: bool) -> (r: Autocomplete)
        ensures
            r.value@ == Seq::<char>::empty(),
            r.placeholder@ == "Search\u{2026}"@,
            r.options@ == options@,
            r.open == open,
            r.max_visible == 6,
    {
        Autocomplete { value: String::new(), placeholder: "Search\u{2026}".to_owned(), options, open, max_visible: 6 }
    }

    /// Sets the typed value.
    pub fn value(self, v: &str) -> (r: Autocomplete)
        ensures
            r.value@ == v@,
            r.placeholder == self.placeholder,
            r.options@ == self.options@,
            r.open == self.open,
            r.max_visible == self.max_visible,
    {
        Autocomplete { value: v.to_owned(), placeholder: self.placeholder, options: self.options, open: self.open, max_visible: self.max_visible }
    }

    /// Sets the placeholder.
    pub fn placeholder(self, p: &str) -> (r: Autocomplete)
        ensures
            r.placeholder@ == p@,
            r.value == self.value,
            r.options@ == self.options@,
            r.open == self.open,
            r.max_visible == self.max_visible,
    {
        Autocomplete { value: self.value, placeholder: p.to_owned(), options: self.options, open: self.open, max_visible: self.max_visible }
    }

    /// Caps how many suggestions show at once (at least one).
    pub fn max_visible(self, n: usize) -> (r: Autocomplete)
        ensures
            r.max_visible == if n < 1 { 1 } else { n },
            r.value == self.value,
            r.placeholder == self.placeholder,
            r.options@ == self.options@,
            r.open == self.open,
    {
        let m = if n < 1 { 1 } else { n };
        Autocomplete { value: self.value, placeholder: self.placeholder, options: self.options, open: self.open, max_visible: m }
    }

    /// The suggestions for the current value: options containing the
    /// trimmed query, compared case-insensitively, in order, at most
    /// `max_visible` of them.
    pub fn matches(&self) -> (r: Vec<String>)
        ensures
            strings_view(r@) == strings_view(suggestions(self.options@, self.value@, self.max_visible as nat)),
    {
        let cs = chars_of(self.value.as_str());
        let (a, b) = trim_bounds(&cs, 0, cs.len());
        proof {
            assert(cs@.subrange(0, cs@.len() as int) =~= cs@);
        }
        let trimmed = slice_string(&cs, a, b);
        let q = to_lowercase(trimmed.as_str());
        let mut lowered: Vec<String> = Vec::new();
        let mut i: usize = 0;
        while i < self.options.len()
            invariant
                i <= self.options@.len(),
                strings_view(lowered@) == lowered_all(self.options@).take(i as int),
            decreases self.options@.len() - i,
        {
            let ghost before = strings_view(lowered@);
            lowered.push(to_lowercase(self.options[i].as_str()));
            proof {
                assert(strings_view(lowered@) =~= before.push(lowercased(self.options@[i as int]@)));
                assert(lowered_all(self.options@).take(i + 1) =~= lowered_all(self.options@).take(i as int).push(
                    lowercased(self.options@[i as int]@),
                ));
            }
            i = i + 1;
        }
        proof {
            assert(lowered_all(self.options@).take(i as int) =~= lowered_all(self.options@));
        }
        select_matches(&self.options, &lowered, q.as_str(), self.max_visible)
    }
}

} // verus!
