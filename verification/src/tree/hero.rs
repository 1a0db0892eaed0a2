//! Hero (shared-element) transitions: which side is painting, where each
//! tagged endpoint registered, and which tags are in the air.
//!
//! While a transition runs, each tagged endpoint registers itself under its
//! tag on the side being painted. Draining pairs the tags registered on both
//! sides; only those are in the air, and an endpoint stands aside only while
//! its own tag is. A tag registered on one side only never flies.
use vstd::prelude::*;
use crate::keyed::{entries_view, find_name, index_of, lemma_index_of_range, upsert, upsert_entry};
use crate::text::str_equal;

verus! {

/// Which side of a running transition is being painted.
#[derive(Clone, Copy, PartialEq, Eq, Structural, Debug)]
pub enum HeroRole {
    Outgoing,
    Incoming,
}

/// One matched hero: its tag, the outgoing end and the incoming end.
pub struct HeroFlight<E> {
    pub tag: String,
    pub from: E,
    pub to: E,
}

/// Walking the outgoing ends in order, each one whose tag is still among the
/// incoming ends pairs with it (and that incoming end is used up); the rest
/// are dropped.
pub open spec fn pairs<E>(out: Seq<(Seq<char>, E)>, inc: Seq<(Seq<char>, E)>) -> Seq<(Seq<char>, E, E)>
    decreases out.len(),
{
    if out.len() == 0 {
        Seq::empty()
    } else {
        let t = out[0].0;
        let i = index_of(inc, t);
        if i >= 0 {
            seq![(t, out[0].1, inc[i].1)] + pairs(out.drop_first(), inc.remove(i))
        } else {
            pairs(out.drop_first(), inc)
        }
    }
}

pub open spec fn flight_tags<E>(f: Seq<(Seq<char>, E, E)>) -> Seq<Seq<char>> {
    f.map_values(|x: (Seq<char>, E, E)| x.0)
}

pub open spec fn tags_of<E>(s: Seq<(Seq<char>, E)>) -> Seq<Seq<char>> {
    s.map_values(|x: (Seq<char>, E)| x.0)
}

pub open spec fn flights_view<E>(v: Seq<HeroFlight<E>>) -> Seq<(Seq<char>, E, E)> {
    v.map_values(|f: HeroFlight<E>| (f.tag@, f.from, f.to))
}

pub open spec fn strings_view(v: Seq<String>) -> Seq<Seq<char>> {
    v.map_values(|s: String| s@)
}

/// The hero bookkeeping of one paint thread: the side being painted, the
/// tags in the air, and each side's registered ends.
pub struct HeroRegistry<E> {
    active: Option<HeroRole>,
    flying: Vec<String>,
    outgoing: Vec<(String, E)>,
    incoming: Vec<(String, E)>,
}

impl<E> HeroRegistry<E> {
    pub closed spec fn role(&self) -> Option<HeroRole> {
        self.active
    }

    /// The tags in the air.
    pub closed spec fn flying_tags(&self) -> Seq<Seq<char>> {
        strings_view(self.flying@)
    }

    /// Ends registered on the outgoing side, by tag.
    pub closed spec fn outgoing_ends(&self) -> Seq<(Seq<char>, E)> {
        entries_view(self.outgoing@)
    }

    /// Ends registered on the incoming side, by tag.
    pub closed spec fn incoming_ends(&self) -> Seq<(Seq<char>, E)> {
        entries_view(self.incoming@)
    }

    /// No transition: no role, nothing registered, nothing in the air.
    pub fn new() -> (r: HeroRegistry<E>)
        ensures
            r.role() is None,
            r.flying_tags() == Seq::<Seq<char>>::empty(),
            r.outgoing_ends() == Seq::<(Seq<char>, E)>::empty(),
            r.incoming_ends() == Seq::<(Seq<char>, E)>::empty(),
    {
        let r = HeroRegistry { active: None, flying: Vec::new(), outgoing: Vec::new(), incoming: Vec::new() };
        proof {
            assert(r.flying_tags() =~= Seq::<Seq<char>>::empty());
            assert(r.outgoing_ends() =~= Seq::<(Seq<char>, E)>::empty());
            assert(r.incoming_ends() =~= Seq::<(Seq<char>, E)>::empty());
        }
        r
    }
}

/// Marks (or clears) which side of a transition is about to be painted.
pub fn set_active_role<E>(reg: &mut HeroRegistry<E>, role: Option<HeroRole>)
    ensures
        final(reg).role() == role,
        final(reg).flying_tags() == old(reg).flying_tags(),
        final(reg).outgoing_ends() == old(reg).outgoing_ends(),
        final(reg).incoming_ends() == old(reg).incoming_ends(),
{
    reg.active = role;
}

/// The side an endpoint should register under right now, if any.
pub fn active_role<E>(reg: &HeroRegistry<E>) -> (r: Option<HeroRole>)
    ensures
        r == reg.role(),
{
    reg.active
}

/// Records where the endpoint tagged `tag` is on `role`'s side; a second
/// registration of the same tag on the same side replaces the first.
pub fn register<E>(reg: &mut HeroRegistry<E>, tag: String, role: HeroRole, end: E)
    ensures
        final(reg).role() == old(reg).role(),
        final(reg).flying_tags() == old(reg).flying_tags(),
        role == HeroRole::Outgoing ==> final(reg).outgoing_ends() == upsert(old(reg).outgoing_ends(), tag@, end)
            && final(reg).incoming_ends() == old(reg).incoming_ends(),
        role == HeroRole::Incoming ==> final(reg).incoming_ends() == upsert(old(reg).incoming_ends(), tag@, end)
            && final(reg).outgoing_ends() == old(reg).outgoing_ends(),
{
    match role {
        HeroRole::Outgoing => upsert_entry(&mut reg.outgoing, tag, end),
        HeroRole::Incoming => upsert_entry(&mut reg.incoming, tag, end),
    }
}

/// Is a flight for `tag` in the air, so its endpoints should stand aside?
pub fn is_flying<E>(reg: &HeroRegistry<E>, tag: &str) -> (r: bool)
    ensures
        r == reg.flying_tags().contains(tag@),
{
    let mut i: usize = 0;
    while i < reg.flying.len()
        invariant
            i <= reg.flying@.len(),
            forall|j: int| 0 <= j < i ==> (#[trigger] reg.flying@[j])@ != tag@,
        decreases reg.flying@.len() - i,
    {
        if str_equal(reg.flying[i].as_str(), tag) {
            proof {
                assert(reg.flying_tags()[i as int] == tag@);
            }
            return true;
        }
        i = i + 1;
    }
    proof {
        if reg.flying_tags().contains(tag@) {
            let j = choose|j: int| 0 <= j < reg.flying_tags().len() && reg.flying_tags()[j] == tag@;
            assert(reg.flying@[j]@ == tag@);
        }
    }
    false
}

/// The transition is over: nothing is in the air and every registration is
/// dropped, so every endpoint paints itself again.
pub fn end_flights<E>(reg: &mut HeroRegistry<E>)
    ensures
        final(reg).role() == old(reg).role(),
        final(reg).flying_tags() == Seq::<Seq<char>>::empty(),
        final(reg).outgoing_ends() == Seq::<(Seq<char>, E)>::empty(),
        final(reg).incoming_ends() == Seq::<(Seq<char>, E)>::empty(),
{
    reg.flying = Vec::new();
    reg.outgoing = Vec::new();
    reg.incoming = Vec::new();
    proof {
        assert(reg.flying_tags() =~= Seq::<Seq<char>>::empty());
        assert(reg.outgoing_ends() =~= Seq::<(Seq<char>, E)>::empty());
        assert(reg.incoming_ends() =~= Seq::<(Seq<char>, E)>::empty());
    }
}

/// Drains both sides, pairing the tags registered on both; unmatched ends
/// are dropped. Exactly the paired tags are in the air afterwards.
pub fn drain_pairs<E>(reg: &mut HeroRegistry<E>) -> (r: Vec<HeroFlight<E>>)
    ensures
        flights_view(r@) == pairs(old(reg).outgoing_ends(), old(reg).incoming_ends()),
        final(reg).flying_tags() == flight_tags(flights_view(r@)),
        final(reg).role() == old(reg).role(),
        final(reg).outgoing_ends() == Seq::<(Seq<char>, E)>::empty(),
        final(reg).incoming_ends() == Seq::<(Seq<char>, E)>::empty(),
{
    let ghost out0 = entries_view(reg.outgoing@);
    let ghost inc0 = entries_view(reg.incoming@);
    let mut out: Vec<(String, E)> = Vec::new();
    let mut inc: Vec<(String, E)> = Vec::new();
    std::mem::swap(&mut out, &mut reg.outgoing);
    std::mem::swap(&mut inc, &mut reg.incoming);
    let mut flights: Vec<HeroFlight<E>> = Vec::new();
    let mut tags: Vec<String> = Vec::new();
    while out.len() > 0
        invariant
            flights_view(flights@) + pairs(entries_view(out@), entries_view(inc@)) == pairs(out0, inc0),
            strings_view(tags@) == flight_tags(flights_view(flights@)),
        decreases out@.len(),
    {
        let ghost ov = entries_view(out@);
        let ghost iv = entries_view(inc@);
        let (tag, from) = out.remove(0);
        proof {
            assert(entries_view(out@) =~= ov.drop_first());
            lemma_index_of_range(iv, tag@);
        }
        match find_name(&inc, tag.as_str()) {
            Some(i) => {
                let (_t, to) = inc.remove(i);
                proof {
                    assert(entries_view(inc@) =~= iv.remove(i as int));
                }
                let ghost fv = flights_view(flights@);
                let ghost tv = strings_view(tags@);
                let name = tag.clone();
                flights.push(HeroFlight { tag, from, to });
                tags.push(name);
                proof {
                    assert(strings_view(tags@) =~= tv.push(ov[0].0));
                    assert(flight_tags(fv.push((ov[0].0, ov[0].1, iv[i as int].1))) =~= flight_tags(fv).push(ov[0].0));
                    assert(flights_view(flights@) =~= fv.push((ov[0].0, ov[0].1, iv[i as int].1)));
                    assert(seq![(ov[0].0, ov[0].1, iv[i as int].1)] + pairs(ov.drop_first(), iv.remove(i as int))
                        == pairs(ov, iv));
                    assert(fv.push((ov[0].0, ov[0].1, iv[i as int].1)) + pairs(ov.drop_first(), iv.remove(i as int))
                        =~= fv + (seq![(ov[0].0, ov[0].1, iv[i as int].1)] + pairs(ov.drop_first(), iv.remove(i as int))));
                    assert(strings_view(tags@) =~= flight_tags(flights_view(flights@)));
                }
            },
            None => {
                proof {
                    assert(pairs(ov.drop_first(), iv) == pairs(ov, iv));
                }
            },
        }
    }
    proof {
        assert(entries_view(out@) =~= Seq::<(Seq<char>, E)>::empty());
        assert(flights_view(flights@) + pairs(entries_view(out@), entries_view(inc@)) =~= flights_view(flights@));
    }
    reg.flying = tags;
    proof {
        assert(reg.outgoing_ends() =~= Seq::<(Seq<char>, E)>::empty());
        assert(reg.incoming_ends() =~= Seq::<(Seq<char>, E)>::empty());
    }
    flights
}

proof fn lemma_contains_cons<A>(x: A, s: Seq<A>, t: A)
    ensures
        (seq![x] + s).contains(t) <==> (x == t || s.contains(t)),
{
    let c = seq![x] + s;
    if c.contains(t) {
        let j = choose|j: int| 0 <= j < c.len() && c[j] == t;
        if j > 0 {
            assert(s[j - 1] == t);
        }
    }
    if x == t {
        assert(c[0] == t);
    }
    if s.contains(t) {
        let j = choose|j: int| 0 <= j < s.len() && s[j] == t;
        assert(c[j + 1] == t);
    }
}

proof fn lemma_contains_remove<A>(s: Seq<A>, i: int, t: A)
    requires
        0 <= i < s.len(),
        s[i] != t,
    ensures
        s.remove(i).contains(t) <==> s.contains(t),
{
    let r = s.remove(i);
    if s.contains(t) {
        let j = choose|j: int| 0 <= j < s.len() && s[j] == t;
        if j < i {
            assert(r[j] == t);
        } else {
            assert(r[j - 1] == t);
        }
    }
    if r.contains(t) {
        let j = choose|j: int| 0 <= j < r.len() && r[j] == t;
        if j < i {
            assert(s[j] == t);
        } else {
            assert(s[j + 1] == t);
        }
    }
}

/// A tag is paired (and so in the air after draining) exactly when it was
/// registered on both sides.
pub proof fn law_paired_iff_on_both_sides<E>(out: Seq<(Seq<char>, E)>, inc: Seq<(Seq<char>, E)>, t: Seq<char>)
    ensures
        flight_tags(pairs(out, inc)).contains(t) <==> (tags_of(out).contains(t) && tags_of(inc).contains(t)),
    decreases out.len(),
{
    if out.len() == 0 {
        assert(flight_tags(pairs(out, inc)) =~= Seq::<Seq<char>>::empty());
        assert(tags_of(out) =~= Seq::<Seq<char>>::empty());
    } else {
        let t0 = out[0].0;
        let i = index_of(inc, t0);
        lemma_index_of_range(inc, t0);
        let rest = out.drop_first();
        assert(tags_of(out) =~= seq![t0] + tags_of(rest));
        lemma_contains_cons(t0, tags_of(rest), t);
        if i >= 0 {
            let inc2 = inc.remove(i);
            law_paired_iff_on_both_sides(rest, inc2, t);
            let p = pairs(out, inc);
            assert(flight_tags(p) =~= seq![t0] + flight_tags(pairs(rest, inc2)));
            lemma_contains_cons(t0, flight_tags(pairs(rest, inc2)), t);
            assert(tags_of(inc)[i] == t0);
            if t != t0 {
                assert(tags_of(inc2) =~= tags_of(inc).remove(i));
                lemma_contains_remove(tags_of(inc), i, t);
            }
        } else {
            law_paired_iff_on_both_sides(rest, inc, t);
            if t == t0 && tags_of(inc).contains(t) {
                let j = choose|j: int| 0 <= j < tags_of(inc).len() && tags_of(inc)[j] == t;
                assert(inc[j].0 == t0);
            }
        }
    }
}

} // verus!
