//! Lists of `(name, value)` entries where setting a name replaces its entry
//! in place, or appends one when the name is new — the map shape the icon
//! names and hero registrations use.
use vstd::prelude::*;
use crate::text::str_equal;

verus! {

/// Index of the last entry of `s` named `t`, or -1.
pub open spec fn index_of<E>(s: Seq<(Seq<char>, E)>, t: Seq<char>) -> int
    decreases s.len(),
{
    if s.len() == 0 {
        -1
    } else if s.last().0 == t {
        s.len() - 1
    } else {
        index_of(s.drop_last(), t)
    }
}

/// The value under `t`, if any.
pub open spec fn lookup<E>(s: Seq<(Seq<char>, E)>, t: Seq<char>) -> Option<E> {
    if index_of(s, t) >= 0 {
        Some(s[index_of(s, t)].1)
    } else {
        None
    }
}

/// `s` with the value under `t` set to `e`: replaced in place if `t` is
/// there, appended otherwise.
pub open spec fn upsert<E>(s: Seq<(Seq<char>, E)>, t: Seq<char>, e: E) -> Seq<(Seq<char>, E)> {
    if index_of(s, t) >= 0 {
        s.update(index_of(s, t), (t, e))
    } else {
        s.push((t, e))
    }
}

pub open spec fn entries_view<E>(v: Seq<(String, E)>) -> Seq<(Seq<char>, E)> {
    v.map_values(|x: (String, E)| (x.0@, x.1))
}

pub proof fn lemma_index_of_range<E>(s: Seq<(Seq<char>, E)>, t: Seq<char>)
    ensures
        -1 <= index_of(s, t) < s.len(),
        index_of(s, t) >= 0 ==> s[index_of(s, t)].0 == t,
        index_of(s, t) == -1 ==> forall|j: int| 0 <= j < s.len() ==> (#[trigger] s[j]).0 != t,
    decreases s.len(),
{
    if s.len() > 0 {
        lemma_index_of_range(s.drop_last(), t);
        if s.last().0 != t {
            assert forall|j: int| 0 <= j < s.len() && index_of(s, t) == -1 implies (#[trigger] s[j]).0 != t by {
                if j < s.len() - 1 {
                    assert(s[j] == s.drop_last()[j]);
                }
            }
        }
    }
}

/// Two lists with the same names in the same places find every name at
/// the same index.
proof fn lemma_same_names<E>(a: Seq<(Seq<char>, E)>, b: Seq<(Seq<char>, E)>, t: Seq<char>)
    requires
        a.len() == b.len(),
        forall|j: int| 0 <= j < a.len() ==> (#[trigger] a[j]).0 == b[j].0,
    ensures
        index_of(a, t) == index_of(b, t),
    decreases a.len(),
{
    if a.len() > 0 {
        assert(a.last().0 == b.last().0);
        assert forall|j: int| 0 <= j < a.drop_last().len() implies (#[trigger] a.drop_last()[j]).0 == b.drop_last()[j].0 by {
            assert(a.drop_last()[j] == a[j]);
            assert(b.drop_last()[j] == b[j]);
        }
        lemma_same_names(a.drop_last(), b.drop_last(), t);
    }
}

/// Reading a name back after setting it gives the value set; every other
/// name reads as before.
pub proof fn law_upsert_lookup<E>(s: Seq<(Seq<char>, E)>, t: Seq<char>, e: E, u: Seq<char>)
    ensures
        lookup(upsert(s, t, e), u) == (if u == t { Some(e) } else { lookup(s, u) }),
{
    lemma_index_of_range(s, t);
    lemma_index_of_range(s, u);
    let s2 = upsert(s, t, e);
    if index_of(s, t) >= 0 {
        let i = index_of(s, t);
        assert forall|j: int| 0 <= j < s2.len() implies (#[trigger] s2[j]).0 == s[j].0 by {
            if j == i {
                assert(s2[j] == (t, e));
            }
        }
        lemma_same_names(s2, s, u);
        if u != t && index_of(s, u) >= 0 {
            assert(s2[index_of(s, u)] == s[index_of(s, u)]);
        }
    } else {
        assert(s2.drop_last() =~= s);
        if u != t && index_of(s, u) >= 0 {
            assert(s2[index_of(s, u)] == s[index_of(s, u)]);
        }
    }
}

/// Where `t` is in `v`, if anywhere (the last entry named `t`).
pub fn find_name<E>(v: &Vec<(String, E)>, t: &str) -> (r: Option<usize>)
    ensures
        match r {
            Some(i) => i < v@.len() && index_of(entries_view(v@), t@) == i,
            None => index_of(entries_view(v@), t@) == -1,
        },
{
    let mut i: usize = v.len();
    proof {
        assert(entries_view(v@).take(v@.len() as int) =~= entries_view(v@));
    }
    while i > 0
        invariant
            i <= v@.len(),
            index_of(entries_view(v@), t@) == index_of(entries_view(v@).take(i as int), t@),
        decreases i,
    {
        proof {
            assert(entries_view(v@).take(i as int).drop_last() =~= entries_view(v@).take(i - 1));
        }
        if str_equal(v[i - 1].0.as_str(), t) {
            return Some(i - 1);
        }
        i = i - 1;
    }
    proof {
        assert(entries_view(v@).take(0) =~= Seq::<(Seq<char>, E)>::empty());
    }
    None
}

/// Sets the value under `t` to `e` (replacing in place, or appending).
pub fn upsert_entry<E>(v: &mut Vec<(String, E)>, t: String, e: E)
    ensures
        entries_view(final(v)@) == upsert(entries_view(old(v)@), t@, e),
{
    proof {
        lemma_index_of_range(entries_view(v@), t@);
    }
    let ghost tv = t@;
    match find_name(v, t.as_str()) {
        Some(i) => {
            v.set(i, (t, e));
            proof {
                assert(entries_view(v@) =~= entries_view(old(v)@).update(i as int, (tv, e)));
            }
        },
        None => {
            v.push((t, e));
            proof {
                assert(entries_view(v@) =~= entries_view(old(v)@).push((tv, e)));
            }
        },
    }
}

} // verus!
