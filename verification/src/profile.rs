//! Profile detection: closed loops, open chains and circles among the
//! entities of a sketch.
use vstd::prelude::*;
use crate::error::CadError;
use crate::index_map::{count_keys, counter_get, counter_insert, counter_new, counter_values, ordered_counts};
use indexmap::IndexMap;
use std::collections::hash_map::RandomState;
use crate::param_graph::contains_str;
use crate::refs::{opt_view, strings_view};
use crate::text::{decimal, decimal_string, str_eq};

verus! {

/// Classification of a detected profile loop.
#[derive(Debug, Clone, Copy, PartialEq, Eq, Structural)]
pub enum ProfileKind {
    Closed,
    Open,
    SelfIntersecting,
}

/// What profile detection reads of a sketch entity: its id, whether it is
/// construction geometry, and the points its ends lie on. (Coordinates,
/// radii and angles stay with the sketch.)
#[derive(Debug, Clone, PartialEq, Eq)]
pub enum ProfileEntity {
    Point { id: String },
    Line { id: String, construction: bool, start: String, end: String },
    Circle { id: String, construction: bool },
    Arc {
        id: String,
        construction: bool,
        start_point: Option<String>,
        end_point: Option<String>,
    },
}

/// A profile loop formed by connected sketch entities.
#[derive(Debug, Clone, PartialEq, Eq)]
pub struct Profile {
    pub id: String,
    pub entity_ids: Vec<String>,
    pub kind: ProfileKind,
    /// Stable reference for extrude operations (e.g. `sketch:base/profile:outer`).
    pub profile_ref: Option<String>,
}

pub struct ProfileView {
    pub id: Seq<char>,
    pub entity_ids: Seq<Seq<char>>,
    pub kind: ProfileKind,
    pub profile_ref: Option<Seq<char>>,
}

impl View for Profile {
    type V = ProfileView;

    open spec fn view(&self) -> ProfileView {
        ProfileView {
            id: self.id@,
            entity_ids: strings_view(self.entity_ids@),
            kind: self.kind,
            profile_ref: opt_view(self.profile_ref),
        }
    }
}

pub open spec fn profiles_view(p: Seq<Profile>) -> Seq<ProfileView> {
    p.map_values(|x: Profile| x@)
}

impl Profile {
    pub fn new(id: String, entity_ids: Vec<String>, kind: ProfileKind) -> (p: Profile)
        ensures
            p@ == (ProfileView {
                id: id@,
                entity_ids: strings_view(entity_ids@),
                kind,
                profile_ref: None,
            }),
    {
        Profile { id, entity_ids, kind, profile_ref: None }
    }

    pub fn with_ref(self, profile_ref: String) -> (p: Profile)
        ensures
            p@ == (ProfileView { profile_ref: Some(profile_ref@), ..self@ }),
    {
        Profile { profile_ref: Some(profile_ref), ..self }
    }

    pub fn is_closed(&self) -> (r: bool)
        ensures
            r == (self.kind == ProfileKind::Closed),
    {
        self.kind == ProfileKind::Closed
    }
}

/// A loop segment: a line, or an arc with both endpoint points.
pub struct ChainEdge {
    pub id: String,
    pub start: String,
    pub end: String,
    pub is_arc: bool,
}

/// A loop segment as texts: `(id, start point, end point, is_arc)`.
pub type EdgeView = (Seq<char>, Seq<char>, Seq<char>, bool);

pub open spec fn edge_view(e: ChainEdge) -> EdgeView {
    (e.id@, e.start@, e.end@, e.is_arc)
}

pub open spec fn edges_view(s: Seq<ChainEdge>) -> Seq<EdgeView> {
    s.map_values(|e: ChainEdge| edge_view(e))
}

/// Fewest segments that close a loop: three segments, or two when one of
/// them is an arc (for example a half-circle and its chord).
pub open spec fn closes_with(chain: Seq<Seq<char>>, segs: Seq<EdgeView>) -> bool {
    chain.len() >= 3 || (chain.len() == 2 && exists|k: int, j: int|
        0 <= k < 2 && 0 <= j < segs.len() && #[trigger] segs[j].0 == #[trigger] chain[k]
            && segs[j].3)
}

/// The first unused segment, at `from` or later, with an end on `point`.
pub open spec fn first_link(segs: Seq<EdgeView>, used: Seq<bool>, point: Seq<char>, from: int) -> Option<
    int,
>
    decreases segs.len() - from,
{
    if from < 0 || from >= segs.len() {
        None
    } else if !used[from] && (segs[from].1 == point || segs[from].2 == point) {
        Some(from)
    } else {
        first_link(segs, used, point, from + 1)
    }
}

/// Segments whose id is in `chain` become unused again.
pub open spec fn unwind(segs: Seq<EdgeView>, used: Seq<bool>, chain: Seq<Seq<char>>) -> Seq<bool> {
    Seq::new(used.len(), |i: int| if chain.contains(segs[i].0) { false } else { used[i] })
}

/// The walk from the free end `end` of `chain`, looking for `target`: at
/// most `steps` more steps, each taking the first unused segment that
/// touches the free end. It gives the chain (closed, or stuck with at
/// least two segments) or nothing, and the segments left marked used.
pub open spec fn walk(
    segs: Seq<EdgeView>,
    used: Seq<bool>,
    chain: Seq<Seq<char>>,
    end: Seq<char>,
    target: Seq<char>,
    steps: nat,
) -> (Option<Seq<Seq<char>>>, Seq<bool>)
    decreases steps,
{
    if steps == 0 {
        (None, unwind(segs, used, chain))
    } else if end == target && closes_with(chain, segs) {
        (Some(chain), used)
    } else {
        match first_link(segs, used, end, 0) {
            None => if chain.len() >= 2 {
                (Some(chain), used)
            } else {
                (None, unwind(segs, used, chain))
            },
            Some(i) => walk(
                segs,
                used.update(i, true),
                chain.push(segs[i].0),
                if segs[i].1 == end {
                    segs[i].2
                } else {
                    segs[i].1
                },
                target,
                (steps - 1) as nat,
            ),
        }
    }
}

/// The chain traced from segment `start`, and the segments left used.
pub open spec fn trace(segs: Seq<EdgeView>, start: int, used: Seq<bool>) -> (
    Option<Seq<Seq<char>>>,
    Seq<bool>,
) {
    walk(
        segs,
        used.update(start, true),
        seq![segs[start].0],
        segs[start].2,
        segs[start].1,
        (segs.len() + 1) as nat,
    )
}

fn closes_with_exec(chain: &Vec<String>, segs: &Vec<ChainEdge>) -> (r: bool)
    ensures
        r == closes_with(strings_view(chain@), edges_view(segs@)),
{
    let ghost c = strings_view(chain@);
    let ghost s = edges_view(segs@);
    if chain.len() >= 3 {
        return true;
    }
    if chain.len() != 2 {
        return false;
    }
    let mut k: usize = 0;
    while k < 2
        invariant
            chain.len() == 2,
            c == strings_view(chain@),
            s == edges_view(segs@),
            k <= 2,
            forall|k2: int, j: int|
                0 <= k2 < k && 0 <= j < s.len() && s[j].0 == c[k2] ==> !s[j].3,
        decreases 2 - k,
    {
        let mut j: usize = 0;
        while j < segs.len()
            invariant
                chain.len() == 2,
                c == strings_view(chain@),
                s == edges_view(segs@),
                k < 2,
                j <= segs.len(),
                forall|k2: int, j2: int|
                    0 <= k2 < k && 0 <= j2 < s.len() && s[j2].0 == c[k2] ==> !s[j2].3,
                forall|j2: int| 0 <= j2 < j && s[j2].0 == c[k as int] ==> !s[j2].3,
            decreases segs.len() - j,
        {
            if segs[j].is_arc && str_eq(segs[j].id.as_str(), chain[k].as_str()) {
                assert(s[j as int].0 == c[k as int] && s[j as int].3);
                return true;
            }
            j = j + 1;
        }
        k = k + 1;
    }
    false
}

fn unwind_used(chain: &Vec<String>, segs: &Vec<ChainEdge>, used: &mut Vec<bool>)
    requires
        old(used).len() == segs.len(),
    ensures
        final(used)@ == unwind(edges_view(segs@), old(used)@, strings_view(chain@)),
{
    let ghost goal = unwind(edges_view(segs@), used@, strings_view(chain@));
    let mut i: usize = 0;
    while i < used.len()
        invariant
            used.len() == segs.len(),
            goal.len() == used.len(),
            i <= used.len(),
            goal == unwind(edges_view(segs@), old(used)@, strings_view(chain@)),
            forall|k: int| 0 <= k < i ==> used@[k] == goal[k],
            forall|k: int| i <= k < used.len() ==> used@[k] == old(used)@[k],
        decreases used.len() - i,
    {
        if contains_str(chain, segs[i].id.as_str()) {
            used.set(i, false);
        }
        i = i + 1;
    }
    assert(used@ =~= goal);
}

/// Trace a chain of connected segments from segment `start`, marking the
/// segments it takes as used; a failed trace gives its segments back.
fn trace_chain(start: usize, segs: &Vec<ChainEdge>, used: &mut Vec<bool>) -> (r: Option<Vec<String>>)
    requires
        start < segs.len(),
        old(used).len() == segs.len(),
    ensures
        final(used).len() == segs.len(),
        (match r {
            Some(c) => Some(strings_view(c@)),
            None => None,
        }) == trace(edges_view(segs@), start as int, old(used)@).0,
        final(used)@ == trace(edges_view(segs@), start as int, old(used)@).1,
{
    let ghost s = edges_view(segs@);
    let ghost goal = trace(s, start as int, used@);
    let mut chain: Vec<String> = Vec::new();
    chain.push(segs[start].id.clone());
    let mut current_end = segs[start].end.clone();
    used.set(start, true);
    let target_start = segs[start].start.clone();
    assert(strings_view(chain@) =~= seq![s[start as int].0]);
    // `left + 1` steps remain: `segs.len() + 1` in all.
    let mut left: usize = segs.len();
    loop
        invariant_except_break
            walk(s, used@, strings_view(chain@), current_end@, target_start@, (left + 1) as nat)
                == goal,
        invariant
            s == edges_view(segs@),
            used.len() == segs.len(),
            goal == trace(edges_view(segs@), start as int, old(used)@),
        ensures
            walk(s, used@, strings_view(chain@), current_end@, target_start@, 0) == goal,
        decreases left,
    {
        if str_eq(current_end.as_str(), target_start.as_str()) && closes_with_exec(&chain, segs) {
            assert(walk(s, used@, strings_view(chain@), current_end@, target_start@, (left + 1) as nat)
                == (Some(strings_view(chain@)), used@));
            return Some(chain);
        }
        let ghost before_used = used@;
        let ghost before_chain = strings_view(chain@);
        let ghost before_end = current_end@;
        let mut found = false;
        let mut i: usize = 0;
        while i < segs.len()
            invariant_except_break
                !found,
                used@ == before_used,
                strings_view(chain@) == before_chain,
                current_end@ == before_end,
                first_link(s, before_used, before_end, 0) == first_link(
                    s,
                    before_used,
                    before_end,
                    i as int,
                ),
            invariant
                s == edges_view(segs@),
                used.len() == segs.len(),
                before_used.len() == segs.len(),
                i <= segs.len(),
            ensures
                found ==> match first_link(s, before_used, before_end, 0) {
                    Some(k) => 0 <= k < s.len() && used@ == before_used.update(k, true)
                        && strings_view(chain@) == before_chain.push(s[k].0) && current_end@ == (
                    if s[k].1 == before_end {
                        s[k].2
                    } else {
                        s[k].1
                    }),
                    None => false,
                },
                !found ==> used@ == before_used && strings_view(chain@) == before_chain
                    && current_end@ == before_end && first_link(s, before_used, before_end, 0)
                    is None,
            decreases segs.len() - i,
        {
            if !used[i] {
                if str_eq(segs[i].start.as_str(), current_end.as_str()) {
                    let id = segs[i].id.clone();
                    assert(id@ == s[i as int].0);
                    let ghost pre = chain@;
                    chain.push(id);
                    assert(strings_view(chain@) =~= strings_view(pre).push(id@));
                    current_end = segs[i].end.clone();
                    used.set(i, true);
                    found = true;
                    assert(strings_view(chain@) =~= before_chain.push(s[i as int].0));
                    break;
                } else if str_eq(segs[i].end.as_str(), current_end.as_str()) {
                    let id = segs[i].id.clone();
                    assert(id@ == s[i as int].0);
                    let ghost pre = chain@;
                    chain.push(id);
                    assert(strings_view(chain@) =~= strings_view(pre).push(id@));
                    current_end = segs[i].start.clone();
                    used.set(i, true);
                    found = true;
                    assert(strings_view(chain@) =~= before_chain.push(s[i as int].0));
                    break;
                }
            }
            i = i + 1;
        }
        if !found {
            if chain.len() >= 2 {
                return Some(chain);
            }
            unwind_used(&chain, segs, used);
            return None;
        }
        if left == 0 {
            break;
        }
        left = left - 1;
    }
    unwind_used(&chain, segs, used);
    None
}

/// The first segment, at `from` or later, with the id `id`.
pub open spec fn first_seg(segs: Seq<EdgeView>, id: Seq<char>, from: int) -> Option<int>
    decreases segs.len() - from,
{
    if from < 0 || from >= segs.len() {
        None
    } else if segs[from].0 == id {
        Some(from)
    } else {
        first_seg(segs, id, from + 1)
    }
}

/// The end points of the chain's segments, start then end, in chain order
/// (each id stands for the first segment with that id; unknown ids add
/// nothing).
pub open spec fn endpoints(chain: Seq<Seq<char>>, segs: Seq<EdgeView>) -> Seq<Seq<char>>
    decreases chain.len(),
{
    if chain.len() == 0 {
        Seq::empty()
    } else {
        endpoints(chain.drop_last(), segs) + match first_seg(segs, chain.last(), 0) {
            Some(j) => seq![segs[j].1, segs[j].2],
            None => Seq::empty(),
        }
    }
}

/// How often `p` occurs in `s`.
pub open spec fn occurrences(s: Seq<Seq<char>>, p: Seq<char>) -> nat
    decreases s.len(),
{
    if s.len() == 0 {
        0
    } else {
        occurrences(s.drop_last(), p) + if s.last() == p {
            1nat
        } else {
            0nat
        }
    }
}

/// Some point is an end of more than two of the chain's segments.
pub open spec fn over_visited(chain: Seq<Seq<char>>, segs: Seq<EdgeView>) -> bool {
    exists|p: Seq<char>| occurrences(endpoints(chain, segs), p) > 2
}

/// Start point of the chain's first segment.
pub open spec fn chain_start(chain: Seq<Seq<char>>, segs: Seq<EdgeView>) -> Option<Seq<char>> {
    if chain.len() == 0 {
        None
    } else {
        match first_seg(segs, chain[0], 0) {
            Some(j) => Some(segs[j].1),
            None => None,
        }
    }
}

/// End point of the chain's last segment.
pub open spec fn chain_end(chain: Seq<Seq<char>>, segs: Seq<EdgeView>) -> Option<Seq<char>> {
    if chain.len() == 0 {
        None
    } else {
        match first_seg(segs, chain.last(), 0) {
            Some(j) => Some(segs[j].2),
            None => None,
        }
    }
}

/// A chain whose ends meet and which has enough segments is closed; any
/// chain with an over-visited point is self-intersecting; others are open.
pub open spec fn classify(chain: Seq<Seq<char>>, segs: Seq<EdgeView>) -> ProfileKind {
    if chain_start(chain, segs) is Some && chain_start(chain, segs) == chain_end(chain, segs)
        && closes_with(chain, segs) {
        if over_visited(chain, segs) {
            ProfileKind::SelfIntersecting
        } else {
            ProfileKind::Closed
        }
    } else if over_visited(chain, segs) {
        ProfileKind::SelfIntersecting
    } else {
        ProfileKind::Open
    }
}

fn find_seg(segs: &Vec<ChainEdge>, id: &str) -> (r: Option<usize>)
    ensures
        match r {
            Some(j) => j < segs.len() && first_seg(edges_view(segs@), id@, 0) == Some(j as int),
            None => first_seg(edges_view(segs@), id@, 0) is None,
        },
{
    let ghost s = edges_view(segs@);
    let mut j: usize = 0;
    while j < segs.len()
        invariant
            s == edges_view(segs@),
            j <= segs.len(),
            first_seg(s, id@, 0) == first_seg(s, id@, j as int),
        decreases segs.len() - j,
    {
        if str_eq(segs[j].id.as_str(), id) {
            return Some(j);
        }
        j = j + 1;
    }
    None
}

/// A count that stops at `usize::MAX`.
pub open spec fn capped(n: nat) -> usize {
    if n < usize::MAX {
        n as usize
    } else {
        usize::MAX
    }
}

/// The counter holds, for each point seen in `seen`, how often it was seen.
pub open spec fn counts_of(entries: Seq<(Seq<char>, usize)>, seen: Seq<Seq<char>>) -> bool {
    &&& count_keys(entries).no_duplicates()
    &&& forall|k: int| 0 <= k < entries.len() ==> #[trigger] entries[k].1 == capped(
        occurrences(seen, entries[k].0),
    )
    &&& forall|p: Seq<char>| #[trigger] occurrences(seen, p) > 0 <==> count_keys(entries).contains(p)
}

proof fn lemma_occurrences_push(s: Seq<Seq<char>>, x: Seq<char>, p: Seq<char>)
    ensures
        occurrences(s.push(x), p) == occurrences(s, p) + if x == p {
            1nat
        } else {
            0nat
        },
{
    assert(s.push(x).drop_last() =~= s);
}

/// Count one more sighting of `point`.
fn bump(m: &mut IndexMap<String, usize, RandomState>, point: &String, Ghost(seen): Ghost<Seq<Seq<char>>>)
    requires
        counts_of(ordered_counts(*old(m)), seen),
    ensures
        counts_of(ordered_counts(*final(m)), seen.push(point@)),
{
    let ghost entries = ordered_counts(*m);
    let ghost keys = count_keys(entries);
    let ghost seen2 = seen.push(point@);
    proof {
        assert forall|p: Seq<char>| true implies occurrences(seen2, p) == occurrences(seen, p) + if point@
            == p {
            1nat
        } else {
            0nat
        } by {
            lemma_occurrences_push(seen, point@, p);
        }
    }
    let current = counter_get(m, point.as_str());
    match current {
        Some(c) => {
            counter_insert(m, point.clone(), c.saturating_add(1));
            proof {
                let e2 = ordered_counts(*m);
                let at = keys.index_of(point@);
                assert(count_keys(e2) =~= keys);
                assert forall|k: int| 0 <= k < e2.len() implies #[trigger] e2[k].1 == capped(
                    occurrences(seen2, e2[k].0),
                ) by {
                    if k != at {
                        assert(e2[k] == entries[k]);
                        assert(keys[k] == entries[k].0);
                        assert(keys[at] == point@);
                    }
                }
                assert forall|p: Seq<char>| #[trigger] occurrences(seen2, p) > 0 <==> count_keys(
                    e2,
                ).contains(p) by {
                    assert(occurrences(seen, p) > 0 <==> keys.contains(p));
                }
            }
        },
        None => {
            counter_insert(m, point.clone(), 1);
            proof {
                let e2 = ordered_counts(*m);
                assert(count_keys(e2) =~= keys.push(point@));
                assert(occurrences(seen, point@) == 0);
                assert forall|k: int| 0 <= k < e2.len() implies #[trigger] e2[k].1 == capped(
                    occurrences(seen2, e2[k].0),
                ) by {
                    if k < entries.len() {
                        assert(e2[k] == entries[k]);
                        assert(keys[k] == entries[k].0);
                        assert(keys.contains(entries[k].0));
                    }
                }
                assert forall|p: Seq<char>| #[trigger] occurrences(seen2, p) > 0 <==> count_keys(
                    e2,
                ).contains(p) by {
                    assert(occurrences(seen, p) > 0 <==> keys.contains(p));
                    if p == point@ {
                        assert(count_keys(e2)[keys.len() as int] == p);
                    }
                    if count_keys(e2).contains(p) && p != point@ {
                        let k = count_keys(e2).index_of(p);
                        assert(k < keys.len());
                        assert(keys[k] == p);
                    }
                    if keys.contains(p) {
                        let k = keys.index_of(p);
                        assert(count_keys(e2)[k] == p);
                    }
                }
                assert(count_keys(e2).no_duplicates()) by {
                    assert forall|a: int, b: int| 0 <= a < b < count_keys(e2).len() implies count_keys(
                        e2,
                    )[a] != count_keys(e2)[b] by {
                        if b == keys.len() {
                            assert(keys[a] == count_keys(e2)[a]);
                        }
                    }
                }
            }
        },
    }
}

/// Is some counted value above two?
fn any_above_two(m: &IndexMap<String, usize, RandomState>, Ghost(seen): Ghost<Seq<Seq<char>>>) -> (r: bool)
    requires
        counts_of(ordered_counts(*m), seen),
    ensures
        r == exists|p: Seq<char>| occurrences(seen, p) > 2,
{
    let values = counter_values(m);
    let ghost entries = ordered_counts(*m);
    let mut k: usize = 0;
    while k < values.len()
        invariant
            k <= values.len(),
            values@ == entries.map_values(|e: (Seq<char>, usize)| e.1),
            counts_of(entries, seen),
            forall|j: int| 0 <= j < k ==> occurrences(seen, #[trigger] entries[j].0) <= 2,
        decreases values.len() - k,
    {
        if values[k] > 2 {
            assert(entries[k as int].1 > 2);
            assert(occurrences(seen, entries[k as int].0) > 2);
            return true;
        }
        assert(entries[k as int].1 == values@[k as int]);
        proof {
            i_le_two(entries[k as int].1, occurrences(seen, entries[k as int].0));
        }
        k = k + 1;
    }
    proof {
        if exists|p: Seq<char>| occurrences(seen, p) > 2 {
            let p = choose|p: Seq<char>| occurrences(seen, p) > 2;
            assert(count_keys(entries).contains(p));
            let j = count_keys(entries).index_of(p);
            assert(entries[j].0 == p);
            assert(occurrences(seen, entries[j].0) <= 2);
        }
    }
    false
}

proof fn i_le_two(v: usize, n: nat)
    requires
        v == capped(n),
        v <= 2,
    ensures
        n <= 2,
{
}

/// Points visited more than twice make a chain self-intersecting; a chain
/// whose ends meet and that has enough segments is closed.
fn classify_chain(chain: &Vec<String>, segs: &Vec<ChainEdge>) -> (kind: ProfileKind)
    ensures
        kind == classify(strings_view(chain@), edges_view(segs@)),
{
    let ghost c = strings_view(chain@);
    let ghost s = edges_view(segs@);
    let mut visits = counter_new();
    let mut i: usize = 0;
    assert(count_keys(ordered_counts(visits)) =~= Seq::<Seq<char>>::empty());
    assert(endpoints(c.subrange(0, 0), s) =~= Seq::<Seq<char>>::empty());
    while i < chain.len()
        invariant
            c == strings_view(chain@),
            s == edges_view(segs@),
            i <= chain.len(),
            counts_of(ordered_counts(visits), endpoints(c.subrange(0, i as int), s)),
        decreases chain.len() - i,
    {
        let ghost prefix = c.subrange(0, i as int);
        proof {
            assert(c.subrange(0, i + 1).drop_last() =~= prefix);
            assert(c.subrange(0, i + 1).last() == chain@[i as int]@);
        }
        match find_seg(segs, chain[i].as_str()) {
            Some(j) => {
                bump(&mut visits, &segs[j].start, Ghost(endpoints(prefix, s)));
                bump(&mut visits, &segs[j].end, Ghost(endpoints(prefix, s).push(s[j as int].1)));
                assert(endpoints(prefix, s).push(s[j as int].1).push(s[j as int].2) =~= endpoints(
                    c.subrange(0, i + 1),
                    s,
                ));
            },
            None => {
                assert(endpoints(prefix, s) =~= endpoints(c.subrange(0, i + 1), s));
            },
        }
        i = i + 1;
    }
    assert(c.subrange(0, i as int) =~= c);
    let over = any_above_two(&visits, Ghost(endpoints(c, s)));
    let start = if chain.len() > 0 {
        match find_seg(segs, chain[0].as_str()) {
            Some(j) => Some(&segs[j].start),
            None => None,
        }
    } else {
        None
    };
    let end = if chain.len() > 0 {
        match find_seg(segs, chain[chain.len() - 1].as_str()) {
            Some(j) => Some(&segs[j].end),
            None => None,
        }
    } else {
        None
    };
    match (start, end) {
        (Some(a), Some(b)) => {
            if str_eq(a.as_str(), b.as_str()) && closes_with_exec(chain, segs) {
                if over {
                    return ProfileKind::SelfIntersecting;
                }
                return ProfileKind::Closed;
            }
        },
        _ => {},
    }
    if over {
        return ProfileKind::SelfIntersecting;
    }
    ProfileKind::Open
}

/// The loop segments among the entities: lines, and arcs with both end
/// points, leaving out construction geometry.
pub open spec fn segments_of(entities: Seq<ProfileEntity>) -> Seq<EdgeView>
    decreases entities.len(),
{
    if entities.len() == 0 {
        Seq::empty()
    } else {
        let rest = segments_of(entities.drop_last());
        match entities.last() {
            ProfileEntity::Line { id, construction, start, end } => if !construction {
                rest.push((id@, start@, end@, false))
            } else {
                rest
            },
            ProfileEntity::Arc { id, construction, start_point, end_point } => match (
                start_point,
                end_point,
            ) {
                (Some(a), Some(b)) => if !construction {
                    rest.push((id@, a@, b@, true))
                } else {
                    rest
                },
                _ => rest,
            },
            _ => rest,
        }
    }
}

/// One closed profile per circle that is not construction geometry, in
/// entity order.
pub open spec fn circle_profiles(entities: Seq<ProfileEntity>) -> Seq<ProfileView>
    decreases entities.len(),
{
    if entities.len() == 0 {
        Seq::empty()
    } else {
        let rest = circle_profiles(entities.drop_last());
        match entities.last() {
            ProfileEntity::Circle { id, construction } => if !construction {
                rest.push(
                    ProfileView {
                        id: "profile:circle:"@ + id@,
                        entity_ids: seq![id@],
                        kind: ProfileKind::Closed,
                        profile_ref: Some("profile:circle:"@ + id@),
                    },
                )
            } else {
                rest
            },
            _ => rest,
        }
    }
}

/// The chains traced from each segment, in order, that is not used by an
/// earlier chain, with their kinds.
pub open spec fn scan(segs: Seq<EdgeView>, start: int, used: Seq<bool>) -> Seq<
    (Seq<Seq<char>>, ProfileKind),
>
    decreases segs.len() - start,
{
    if start < 0 || start >= segs.len() {
        Seq::empty()
    } else if used[start] {
        scan(segs, start + 1, used)
    } else {
        let (res, used2) = trace(segs, start, used);
        let rest = scan(segs, start + 1, used2);
        match res {
            Some(chain) => {
                let kind = classify(chain, segs);
                if kind != ProfileKind::Open || chain.len() >= 2 {
                    seq![(chain, kind)] + rest
                } else {
                    rest
                }
            },
            None => rest,
        }
    }
}

/// Loop profiles numbered from `base`.
pub open spec fn loop_profiles(loops: Seq<(Seq<Seq<char>>, ProfileKind)>, base: nat) -> Seq<
    ProfileView,
> {
    Seq::new(
        loops.len(),
        |k: int|
            ProfileView {
                id: "profile:loop:"@ + decimal((base + k) as nat),
                entity_ids: loops[k].0,
                kind: loops[k].1,
                profile_ref: None,
            },
    )
}

/// Circle profiles first, then, when there are at least two segments, the
/// traced loops, numbered after the profiles before them.
pub open spec fn detected(entities: Seq<ProfileEntity>) -> Seq<ProfileView> {
    let segs = segments_of(entities);
    let circles = circle_profiles(entities);
    circles + if segs.len() >= 2 {
        loop_profiles(scan(segs, 0, Seq::new(segs.len(), |i: int| false)), circles.len())
    } else {
        Seq::empty()
    }
}

proof fn lemma_drop_last_push<A>(s: Seq<A>, x: A)
    ensures
        s.push(x).drop_last() == s,
        s.push(x).last() == x,
{
    assert(s.push(x).drop_last() =~= s);
}

fn collect_circles(entities: &[ProfileEntity]) -> (profiles: Vec<Profile>)
    ensures
        profiles_view(profiles@) == circle_profiles(entities@),
{
    let mut profiles: Vec<Profile> = Vec::new();
    let mut i: usize = 0;
    while i < entities.len()
        invariant
            i <= entities.len(),
            profiles_view(profiles@) == circle_profiles(entities@.subrange(0, i as int)),
        decreases entities.len() - i,
    {
        proof {
            lemma_drop_last_push(entities@.subrange(0, i as int), entities@[i as int]);
            assert(entities@.subrange(0, i + 1) =~= entities@.subrange(0, i as int).push(
                entities@[i as int],
            ));
        }
        match &entities[i] {
            ProfileEntity::Circle { id, construction } => {
                if !*construction {
                    let mut name = "profile:circle:".to_owned();
                    name.append(id.as_str());
                    let mut reference = "profile:circle:".to_owned();
                    reference.append(id.as_str());
                    let ids = vec![id.clone()];
                    assert(strings_view(ids@) =~= seq![id@]);
                    let ghost before = profiles_view(profiles@);
                    let p = Profile::new(name, ids, ProfileKind::Closed).with_ref(reference);
                    profiles.push(p);
                    assert(profiles_view(profiles@) =~= before.push(p@));
                }
            },
            _ => {},
        }
        i = i + 1;
    }
    assert(entities@.subrange(0, i as int) =~= entities@);
    profiles
}

fn collect_segments(entities: &[ProfileEntity]) -> (segs: Vec<ChainEdge>)
    ensures
        edges_view(segs@) == segments_of(entities@),
{
    let mut segs: Vec<ChainEdge> = Vec::new();
    let mut i: usize = 0;
    while i < entities.len()
        invariant
            i <= entities.len(),
            edges_view(segs@) == segments_of(entities@.subrange(0, i as int)),
        decreases entities.len() - i,
    {
        proof {
            lemma_drop_last_push(entities@.subrange(0, i as int), entities@[i as int]);
            assert(entities@.subrange(0, i + 1) =~= entities@.subrange(0, i as int).push(
                entities@[i as int],
            ));
        }
        let ghost before = edges_view(segs@);
        match &entities[i] {
            ProfileEntity::Line { id, construction, start, end } => {
                if !*construction {
                    let e = ChainEdge {
                        id: id.clone(),
                        start: start.clone(),
                        end: end.clone(),
                        is_arc: false,
                    };
                    segs.push(e);
                    assert(edges_view(segs@) =~= before.push(edge_view(e)));
                }
            },
            ProfileEntity::Arc { id, construction, start_point, end_point } => {
                match (start_point, end_point) {
                    (Some(a), Some(b)) => {
                        if !*construction {
                            let e = ChainEdge {
                                id: id.clone(),
                                start: a.clone(),
                                end: b.clone(),
                                is_arc: true,
                            };
                            segs.push(e);
                            assert(edges_view(segs@) =~= before.push(edge_view(e)));
                        }
                    },
                    _ => {},
                }
            },
            _ => {},
        }
        i = i + 1;
    }
    assert(entities@.subrange(0, i as int) =~= entities@);
    segs
}

/// Detect connected loops from lines, arcs and circles.
pub fn detect_profiles(entities: &[ProfileEntity]) -> (r: Result<Vec<Profile>, CadError>)
    ensures
        r is Ok,
        r matches Ok(profiles) ==> profiles_view(profiles@) == detected(entities@),
{
    let mut profiles = collect_circles(entities);
    let segs = collect_segments(entities);
    let ghost s = edges_view(segs@);
    let ghost circles = circle_profiles(entities@);
    if segs.len() >= 2 {
        let mut used: Vec<bool> = Vec::new();
        while used.len() < segs.len()
            invariant
                used.len() <= segs.len(),
                forall|k: int| 0 <= k < used.len() ==> !used@[k],
            decreases segs.len() - used.len(),
        {
            used.push(false);
        }
        assert(used@ =~= Seq::new(s.len(), |i: int| false));
        let ghost all = scan(s, 0, used@);
        let ghost mut done: Seq<(Seq<Seq<char>>, ProfileKind)> = Seq::empty();
        let mut start: usize = 0;
        while start < segs.len()
            invariant
                s == edges_view(segs@),
                used.len() == segs.len(),
                start <= segs.len(),
                done + scan(s, start as int, used@) == all,
                profiles_view(profiles@) == circles + loop_profiles(done, circles.len()),
            decreases segs.len() - start,
        {
            if used[start] {
                start = start + 1;
                continue;
            }
            let ghost before_used = used@;
            let traced = trace_chain(start, &segs, &mut used);
            match traced {
                Some(chain) => {
                    let kind = classify_chain(&chain, &segs);
                    if kind != ProfileKind::Open || chain.len() >= 2 {
                        let mut name = "profile:loop:".to_owned();
                        let number = decimal_string(profiles.len() as u64);
                        name.append(number.as_str());
                        let ghost before = profiles_view(profiles@);
                        let p = Profile::new(name, chain, kind);
                        profiles.push(p);
                        proof {
                            let item = (p@.entity_ids, kind);
                            assert(profiles_view(profiles@) =~= before.push(p@));
                            assert(loop_profiles(done.push(item), circles.len()) =~= loop_profiles(
                                done,
                                circles.len(),
                            ).push(p@));
                            assert(seq![item] + scan(s, start + 1, used@) == scan(
                                s,
                                start as int,
                                before_used,
                            ));
                            assert(done.push(item) + scan(s, start + 1, used@) =~= done + (seq![item]
                                + scan(s, start + 1, used@)));
                            done = done.push(item);
                        }
                    }
                },
                None => {},
            }
            start = start + 1;
        }
        assert(done =~= all);
    }
    Ok(profiles)
}

/// Assign the stable profile ref `{sketch_id}/profile:outer` to the first
/// closed profile, when there is one.
pub fn assign_profile_refs(sketch_id: &str, profiles: &mut Vec<Profile>)
    ensures
        final(profiles).len() == old(profiles).len(),
        match first_closed(profiles_view(old(profiles)@), 0) {
            Some(k) => profiles_view(final(profiles)@) == profiles_view(old(profiles)@).update(
                k,
                ProfileView {
                    profile_ref: Some(sketch_id@ + "/profile:outer"@),
                    ..profiles_view(old(profiles)@)[k]
                },
            ),
            None => profiles_view(final(profiles)@) == profiles_view(old(profiles)@),
        },
{
    let ghost v = profiles_view(profiles@);
    let mut i: usize = 0;
    while i < profiles.len()
        invariant
            i <= profiles.len(),
            profiles_view(profiles@) == v,
            v == profiles_view(old(profiles)@),
            profiles.len() == old(profiles).len(),
            first_closed(v, 0) == first_closed(v, i as int),
        decreases profiles.len() - i,
    {
        if profiles[i].is_closed() {
            let mut reference = sketch_id.to_owned();
            reference.append("/profile:outer");
            let ghost r = reference@;
            let mut p = profiles.remove(i);
            p.profile_ref = Some(reference);
            profiles.insert(i, p);
            assert(profiles_view(profiles@) =~= v.update(
                i as int,
                ProfileView { profile_ref: Some(r), ..v[i as int] },
            ));
            return;
        }
        i = i + 1;
    }
}

/// The first closed profile at `from` or later.
pub open spec fn first_closed(profiles: Seq<ProfileView>, from: int) -> Option<int>
    decreases profiles.len() - from,
{
    if from < 0 || from >= profiles.len() {
        None
    } else if profiles[from].kind == ProfileKind::Closed {
        Some(from)
    } else {
        first_closed(profiles, from + 1)
    }
}

/// A traced chain, closed or stuck, has at least two segments, so every
/// loop profile joins two or more entities.
pub proof fn law_traced_chains_have_two_segments(
    segs: Seq<EdgeView>,
    used: Seq<bool>,
    chain: Seq<Seq<char>>,
    end: Seq<char>,
    target: Seq<char>,
    steps: nat,
)
    ensures
        walk(segs, used, chain, end, target, steps).0 matches Some(c) ==> c.len() >= 2,
    decreases steps,
{
    if steps > 0 && !(end == target && closes_with(chain, segs)) {
        match first_link(segs, used, end, 0) {
            Some(i) => {
                law_traced_chains_have_two_segments(
                    segs,
                    used.update(i, true),
                    chain.push(segs[i].0),
                    if segs[i].1 == end {
                        segs[i].2
                    } else {
                        segs[i].1
                    },
                    target,
                    (steps - 1) as nat,
                );
            },
            None => {},
        }
    }
}

/// The id of an entity.
pub open spec fn entity_id(e: ProfileEntity) -> Seq<char> {
    match e {
        ProfileEntity::Point { id } => id@,
        ProfileEntity::Line { id, .. } => id@,
        ProfileEntity::Circle { id, .. } => id@,
        ProfileEntity::Arc { id, .. } => id@,
    }
}

/// An entity a profile may hold: a line, arc or circle that is not
/// construction geometry.
pub open spec fn profile_entity(e: ProfileEntity) -> bool {
    match e {
        ProfileEntity::Point { .. } => false,
        ProfileEntity::Line { construction, .. } => !construction,
        ProfileEntity::Circle { construction, .. } => !construction,
        ProfileEntity::Arc { construction, .. } => !construction,
    }
}

/// No two entities share an id.
pub open spec fn ids_distinct(entities: Seq<ProfileEntity>) -> bool {
    forall|i: int, j: int|
        0 <= i < j < entities.len() ==> entity_id(#[trigger] entities[i]) != entity_id(
            #[trigger] entities[j],
        )
}

/// Some entity a profile may hold has the id `x`.
pub open spec fn held_entity(entities: Seq<ProfileEntity>, x: Seq<char>) -> bool {
    exists|i: int| 0 <= i < entities.len() && entity_id(#[trigger] entities[i]) == x && profile_entity(entities[i])
}

/// `x` is the id of a loop segment.
pub open spec fn is_seg_id(segs: Seq<EdgeView>, x: Seq<char>) -> bool {
    exists|k: int| 0 <= k < segs.len() && (#[trigger] segs[k]).0 == x
}

proof fn lemma_held_in_longer(entities: Seq<ProfileEntity>, x: Seq<char>)
    requires
        entities.len() > 0,
        held_entity(entities.drop_last(), x),
    ensures
        held_entity(entities, x),
{
    let i = choose|i: int|
        0 <= i < entities.drop_last().len() && entity_id(#[trigger] entities.drop_last()[i]) == x
            && profile_entity(entities.drop_last()[i]);
    assert(entities[i] == entities.drop_last()[i]);
}

proof fn lemma_segments_are_held(entities: Seq<ProfileEntity>)
    ensures
        forall|k: int|
            0 <= k < segments_of(entities).len() ==> held_entity(
                entities,
                (#[trigger] segments_of(entities)[k]).0,
            ),
    decreases entities.len(),
{
    if entities.len() > 0 {
        let rest = entities.drop_last();
        lemma_segments_are_held(rest);
        let segs = segments_of(entities);
        let last = entities.len() - 1;
        assert forall|k: int| 0 <= k < segs.len() implies held_entity(entities, (#[trigger] segs[k]).0) by {
            if k < segments_of(rest).len() {
                assert(segs[k] == segments_of(rest)[k]);
                lemma_held_in_longer(entities, segs[k].0);
            } else {
                assert(entity_id(entities[last]) == segs[k].0 && profile_entity(entities[last]));
            }
        }
    }
}

proof fn lemma_walk_uses_segments(
    segs: Seq<EdgeView>,
    used: Seq<bool>,
    chain: Seq<Seq<char>>,
    end: Seq<char>,
    target: Seq<char>,
    steps: nat,
)
    requires
        forall|c: int| 0 <= c < chain.len() ==> is_seg_id(segs, #[trigger] chain[c]),
    ensures
        walk(segs, used, chain, end, target, steps).0 matches Some(out) ==> forall|c: int|
            0 <= c < out.len() ==> is_seg_id(segs, #[trigger] out[c]),
    decreases steps,
{
    if steps > 0 && !(end == target && closes_with(chain, segs)) {
        match first_link(segs, used, end, 0) {
            Some(i) => {
                lemma_first_link(segs, used, end, 0);
                let next = chain.push(segs[i].0);
                assert forall|c: int| 0 <= c < next.len() implies is_seg_id(segs, #[trigger] next[c]) by {
                    if c < chain.len() {
                        assert(next[c] == chain[c]);
                    } else {
                        assert(segs[i].0 == next[c]);
                    }
                }
                lemma_walk_uses_segments(
                    segs,
                    used.update(i, true),
                    next,
                    if segs[i].1 == end {
                        segs[i].2
                    } else {
                        segs[i].1
                    },
                    target,
                    (steps - 1) as nat,
                );
            },
            None => {},
        }
    }
}

proof fn lemma_first_link(segs: Seq<EdgeView>, used: Seq<bool>, point: Seq<char>, from: int)
    ensures
        first_link(segs, used, point, from) matches Some(i) ==> 0 <= from <= i < segs.len(),
    decreases segs.len() - from,
{
    if !(from < 0 || from >= segs.len()) && !(!used[from] && (segs[from].1 == point || segs[from].2 == point)) {
        lemma_first_link(segs, used, point, from + 1);
    }
}

proof fn lemma_scan_uses_segments(segs: Seq<EdgeView>, start: int, used: Seq<bool>)
    ensures
        forall|k: int, c: int|
            0 <= k < scan(segs, start, used).len() && 0 <= c < scan(segs, start, used)[k].0.len()
                ==> is_seg_id(segs, #[trigger] scan(segs, start, used)[k].0[c]),
        forall|k: int| 0 <= k < scan(segs, start, used).len() ==> (#[trigger] scan(segs, start, used)[k]).0.len() >= 2,
    decreases segs.len() - start,
{
    if !(start < 0 || start >= segs.len()) {
        if used[start] {
            lemma_scan_uses_segments(segs, start + 1, used);
            assert(scan(segs, start, used) == scan(segs, start + 1, used));
        } else {
            let (res, used2) = trace(segs, start, used);
            lemma_scan_uses_segments(segs, start + 1, used2);
            let first = seq![segs[start].0];
            assert(first[0] == segs[start].0);
            lemma_walk_uses_segments(
                segs,
                used.update(start, true),
                first,
                segs[start].2,
                segs[start].1,
                (segs.len() + 1) as nat,
            );
            law_traced_chains_have_two_segments(
                segs,
                used.update(start, true),
                first,
                segs[start].2,
                segs[start].1,
                (segs.len() + 1) as nat,
            );
            let rest = scan(segs, start + 1, used2);
            let out = scan(segs, start, used);
            if res is None {
                assert(out == rest);
            }
            if let Some(chain) = res {
                let kind = classify(chain, segs);
                if !(kind != ProfileKind::Open || chain.len() >= 2) {
                    assert(out == rest);
                }
                if kind != ProfileKind::Open || chain.len() >= 2 {
                    assert(out == seq![(chain, kind)] + rest);
                    assert forall|k: int| 0 <= k < out.len() implies (#[trigger] out[k]).0.len() >= 2 by {
                        if k > 0 {
                            assert(out[k] == rest[k - 1]);
                        }
                    }
                    assert forall|k: int, c: int|
                        0 <= k < out.len() && 0 <= c < out[k].0.len() implies is_seg_id(
                        segs,
                        #[trigger] out[k].0[c],
                    ) by {
                        if k > 0 {
                            assert(out[k] == rest[k - 1]);
                        }
                    }
                }
            }
        }
    }
}

#[verifier::rlimit(60)]
proof fn lemma_circle_profiles(entities: Seq<ProfileEntity>)
    ensures
        forall|k: int|
            0 <= k < circle_profiles(entities).len() ==> {
                let p = #[trigger] circle_profiles(entities)[k];
                &&& p.kind == ProfileKind::Closed
                &&& p.entity_ids.len() == 1
                &&& exists|c: int|
                    0 <= c < entities.len() && (#[trigger] entities[c]) is Circle && profile_entity(
                        entities[c],
                    ) && p.entity_ids == seq![entity_id(entities[c])]
            },
        forall|c: int|
            0 <= c < entities.len() && (#[trigger] entities[c]) is Circle && profile_entity(entities[c])
                ==> exists|k: int|
                0 <= k < circle_profiles(entities).len() && (#[trigger] circle_profiles(entities)[k]).entity_ids
                    == seq![entity_id(entities[c])],
        ids_distinct(entities) ==> forall|k1: int, k2: int|
            0 <= k1 < circle_profiles(entities).len() && 0 <= k2 < circle_profiles(entities).len()
                && (#[trigger] circle_profiles(entities)[k1]).entity_ids == (
            #[trigger] circle_profiles(entities)[k2]).entity_ids ==> k1 == k2,
    decreases entities.len(),
{
    if entities.len() > 0 {
        let rest = entities.drop_last();
        lemma_circle_profiles(rest);
        let cr = circle_profiles(rest);
        let cp = circle_profiles(entities);
        let last = entities.len() - 1;
        assert forall|c: int| 0 <= c < rest.len() implies #[trigger] rest[c] == entities[c] by {}
        if ids_distinct(entities) {
            assert(ids_distinct(rest)) by {
                assert forall|i: int, j: int| 0 <= i < j < rest.len() implies entity_id(#[trigger] rest[i])
                    != entity_id(#[trigger] rest[j]) by {
                    assert(rest[i] == entities[i] && rest[j] == entities[j]);
                }
            }
        }
        assert forall|k: int| 0 <= k < cp.len() implies {
            let p = #[trigger] cp[k];
            &&& p.kind == ProfileKind::Closed
            &&& p.entity_ids.len() == 1
            &&& exists|c: int|
                0 <= c < entities.len() && (#[trigger] entities[c]) is Circle && profile_entity(entities[c])
                    && p.entity_ids == seq![entity_id(entities[c])]
        } by {
            if k < cr.len() {
                assert(cp[k] == cr[k]);
                let c = choose|c: int|
                    0 <= c < rest.len() && (#[trigger] rest[c]) is Circle && profile_entity(rest[c])
                        && cr[k].entity_ids == seq![entity_id(rest[c])];
                assert(entities[c] == rest[c]);
            } else {
                assert(entities[last] is Circle);
            }
        }
        assert forall|c: int|
            0 <= c < entities.len() && (#[trigger] entities[c]) is Circle && profile_entity(entities[c])
            implies exists|k: int| 0 <= k < cp.len() && (#[trigger] cp[k]).entity_ids == seq![entity_id(entities[c])] by {
            if c < last {
                assert(rest[c] == entities[c]);
                let k = choose|k: int| 0 <= k < cr.len() && (#[trigger] cr[k]).entity_ids == seq![entity_id(rest[c])];
                assert(cp[k] == cr[k]);
            } else {
                assert(cp[cr.len() as int].entity_ids == seq![entity_id(entities[c])]);
            }
        }
        if ids_distinct(entities) {
            assert forall|k1: int, k2: int|
                0 <= k1 < cp.len() && 0 <= k2 < cp.len() && (#[trigger] cp[k1]).entity_ids == (
                #[trigger] cp[k2]).entity_ids implies k1 == k2 by {
                if k1 < cr.len() && k2 < cr.len() {
                    assert(cp[k1] == cr[k1] && cp[k2] == cr[k2]);
                } else if k1 != k2 {
                    let (kk, other) = if k1 < cr.len() { (k1, k2) } else { (k2, k1) };
                    assert(kk < cr.len());
                    assert(cp[kk] == cr[kk]);
                    let c = choose|c: int|
                        0 <= c < rest.len() && (#[trigger] rest[c]) is Circle && profile_entity(rest[c])
                            && cr[kk].entity_ids == seq![entity_id(rest[c])];
                    assert(cp[other].entity_ids == seq![entity_id(entities[last])]);
                    assert(cr[kk].entity_ids[0] == entity_id(rest[c]));
                    assert(cp[other].entity_ids[0] == entity_id(entities[last]));
                    assert(rest[c] == entities[c]);
                    assert(entity_id(entities[c]) != entity_id(entities[last]));
                }
            }
        }
    }
}

/// Profiles hold only lines, arcs and circles that are not construction
/// geometry, so no construction entity is in any profile; and when entity
/// ids are distinct, every such circle is a closed profile of its own, the
/// only profile that holds just that circle.
#[verifier::rlimit(60)]
pub proof fn law_profiles_hold_no_construction_and_circles_stand_alone(entities: Seq<ProfileEntity>)
    ensures
        ({
            let ps = detected(entities);
            &&& forall|k: int, c: int|
                0 <= k < ps.len() && 0 <= c < ps[k].entity_ids.len() ==> held_entity(
                    entities,
                    #[trigger] ps[k].entity_ids[c],
                )
            &&& ids_distinct(entities) ==> forall|k: int, j: int|
                0 <= k < ps.len() && 0 <= j < entities.len() && !profile_entity(#[trigger] entities[j])
                    ==> !(#[trigger] ps[k]).entity_ids.contains(entity_id(entities[j]))
            &&& forall|c: int|
                0 <= c < entities.len() && (#[trigger] entities[c]) is Circle && profile_entity(
                    entities[c],
                ) ==> exists|k: int|
                    0 <= k < ps.len() && (#[trigger] ps[k]).entity_ids == seq![entity_id(entities[c])]
                        && ps[k].kind == ProfileKind::Closed
            &&& ids_distinct(entities) ==> forall|k1: int, k2: int|
                0 <= k1 < ps.len() && 0 <= k2 < ps.len() && (#[trigger] ps[k1]).entity_ids.len() == 1
                    && ps[k1].entity_ids == (#[trigger] ps[k2]).entity_ids ==> k1 == k2
        }),
{
    let segs = segments_of(entities);
    let circles = circle_profiles(entities);
    let ps = detected(entities);
    let loops = if segs.len() >= 2 {
        loop_profiles(scan(segs, 0, Seq::new(segs.len(), |i: int| false)), circles.len())
    } else {
        Seq::empty()
    };
    assert(ps == circles + loops);
    lemma_segments_are_held(entities);
    lemma_scan_uses_segments(segs, 0, Seq::new(segs.len(), |i: int| false));
    lemma_circle_profiles(entities);
    // Loop profiles: their entities are segments, and they join two or more.
    assert forall|k: int| 0 <= k < loops.len() implies {
        &&& (#[trigger] loops[k]).entity_ids.len() >= 2
        &&& forall|c: int| 0 <= c < loops[k].entity_ids.len() ==> held_entity(entities, #[trigger] loops[k].entity_ids[c])
    } by {
        let sc = scan(segs, 0, Seq::new(segs.len(), |i: int| false));
        assert(loops[k].entity_ids == sc[k].0);
        assert forall|c: int| 0 <= c < loops[k].entity_ids.len() implies held_entity(entities, #[trigger] loops[k].entity_ids[c]) by {
            assert(is_seg_id(segs, sc[k].0[c]));
            let q = choose|q: int| 0 <= q < segs.len() && (#[trigger] segs[q]).0 == sc[k].0[c];
            assert(held_entity(entities, segs[q].0));
        }
    }
    assert forall|k: int, c: int|
        0 <= k < ps.len() && 0 <= c < ps[k].entity_ids.len() implies held_entity(
        entities,
        #[trigger] ps[k].entity_ids[c],
    ) by {
        if k < circles.len() {
            assert(ps[k] == circles[k]);
            let e = choose|e: int|
                0 <= e < entities.len() && (#[trigger] entities[e]) is Circle && profile_entity(entities[e])
                    && circles[k].entity_ids == seq![entity_id(entities[e])];
            assert(ps[k].entity_ids[c] == entity_id(entities[e]));
        } else {
            assert(ps[k] == loops[k - circles.len()]);
        }
    }
    if ids_distinct(entities) {
        assert forall|k: int, j: int|
            0 <= k < ps.len() && 0 <= j < entities.len() && !profile_entity(#[trigger] entities[j])
            implies !(#[trigger] ps[k]).entity_ids.contains(entity_id(entities[j])) by {
            if ps[k].entity_ids.contains(entity_id(entities[j])) {
                let c = ps[k].entity_ids.index_of(entity_id(entities[j]));
                assert(held_entity(entities, ps[k].entity_ids[c]));
                let i = choose|i: int|
                    0 <= i < entities.len() && entity_id(#[trigger] entities[i]) == ps[k].entity_ids[c]
                        && profile_entity(entities[i]);
                if i < j {
                    assert(entity_id(entities[i]) != entity_id(entities[j]));
                } else if i > j {
                    assert(entity_id(entities[j]) != entity_id(entities[i]));
                }
            }
        }
        assert forall|k1: int, k2: int|
            0 <= k1 < ps.len() && 0 <= k2 < ps.len() && (#[trigger] ps[k1]).entity_ids.len() == 1
                && ps[k1].entity_ids == (#[trigger] ps[k2]).entity_ids implies k1 == k2 by {
            if k1 >= circles.len() {
                assert(ps[k1] == loops[k1 - circles.len()]);
            } else if k2 >= circles.len() {
                assert(ps[k2] == loops[k2 - circles.len()]);
            } else {
                assert(ps[k1] == circles[k1] && ps[k2] == circles[k2]);
            }
        }
    }
    assert forall|c: int|
        0 <= c < entities.len() && (#[trigger] entities[c]) is Circle && profile_entity(entities[c])
        implies exists|k: int|
        0 <= k < ps.len() && (#[trigger] ps[k]).entity_ids == seq![entity_id(entities[c])]
            && ps[k].kind == ProfileKind::Closed by {
        let k = choose|k: int|
            0 <= k < circles.len() && (#[trigger] circles[k]).entity_ids == seq![entity_id(entities[c])];
        assert(ps[k] == circles[k]);
    }
}

/// Some line or arc entity has the id `x`.
pub open spec fn segment_entity(entities: Seq<ProfileEntity>, x: Seq<char>) -> bool {
    exists|i: int|
        0 <= i < entities.len() && entity_id(#[trigger] entities[i]) == x && (entities[i] is Line
            || entities[i] is Arc)
}

/// No two loop segments share an id.
pub open spec fn seg_ids_distinct(segs: Seq<EdgeView>) -> bool {
    forall|a: int, b: int| 0 <= a < b < segs.len() ==> (#[trigger] segs[a]).0 != (#[trigger] segs[b]).0
}

proof fn lemma_segments_distinct(entities: Seq<ProfileEntity>)
    ensures
        forall|k: int|
            0 <= k < segments_of(entities).len() ==> segment_entity(
                entities,
                (#[trigger] segments_of(entities)[k]).0,
            ),
        ids_distinct(entities) ==> seg_ids_distinct(segments_of(entities)),
    decreases entities.len(),
{
    if entities.len() > 0 {
        let rest = entities.drop_last();
        lemma_segments_distinct(rest);
        let segs = segments_of(entities);
        let sr = segments_of(rest);
        let last = entities.len() - 1;
        assert forall|c: int| 0 <= c < rest.len() implies #[trigger] rest[c] == entities[c] by {}
        assert forall|k: int| 0 <= k < segs.len() implies segment_entity(entities, (#[trigger] segs[k]).0) by {
            if k < sr.len() {
                assert(segs[k] == sr[k]);
                let i = choose|i: int|
                    0 <= i < rest.len() && entity_id(#[trigger] rest[i]) == sr[k].0 && (rest[i] is Line
                        || rest[i] is Arc);
                assert(entities[i] == rest[i]);
            } else {
                assert(entity_id(entities[last]) == segs[k].0);
            }
        }
        if ids_distinct(entities) {
            assert(ids_distinct(rest)) by {
                assert forall|i: int, j: int| 0 <= i < j < rest.len() implies entity_id(#[trigger] rest[i])
                    != entity_id(#[trigger] rest[j]) by {
                    assert(rest[i] == entities[i] && rest[j] == entities[j]);
                }
            }
            assert forall|a: int, b: int| 0 <= a < b < segs.len() implies (#[trigger] segs[a]).0
                != (#[trigger] segs[b]).0 by {
                if b < sr.len() {
                    assert(segs[a] == sr[a] && segs[b] == sr[b]);
                } else {
                    assert(segs[a] == sr[a]);
                    assert(segs[b].0 == entity_id(entities[last]));
                    let i = choose|i: int|
                        0 <= i < rest.len() && entity_id(#[trigger] rest[i]) == sr[a].0 && (
                        rest[i] is Line || rest[i] is Arc);
                    assert(entity_id(entities[i]) != entity_id(entities[last]));
                }
            }
        }
    }
}

/// What a walk keeps: the chain's ids are distinct segments marked used
/// since the trace began (`start`), the segments used before stay used, and
/// every segment marked since is in the chain.
pub open spec fn walk_state(
    segs: Seq<EdgeView>,
    start: Seq<bool>,
    used: Seq<bool>,
    chain: Seq<Seq<char>>,
) -> bool {
    &&& start.len() == segs.len()
    &&& used.len() == segs.len()
    &&& forall|a: int, b: int| 0 <= a < b < chain.len() ==> #[trigger] chain[a] != #[trigger] chain[b]
    &&& forall|c: int|
        0 <= c < chain.len() ==> exists|k: int|
            0 <= k < segs.len() && (#[trigger] segs[k]).0 == #[trigger] chain[c] && used[k] && !start[k]
    &&& forall|k: int| 0 <= k < segs.len() && start[k] ==> #[trigger] used[k]
    &&& forall|k: int|
        0 <= k < segs.len() && #[trigger] used[k] && !start[k] ==> chain.contains(segs[k].0)
}

proof fn lemma_walk_state(
    segs: Seq<EdgeView>,
    start: Seq<bool>,
    used: Seq<bool>,
    chain: Seq<Seq<char>>,
    end: Seq<char>,
    target: Seq<char>,
    steps: nat,
)
    requires
        seg_ids_distinct(segs),
        walk_state(segs, start, used, chain),
    ensures
        ({
            let (res, after) = walk(segs, used, chain, end, target, steps);
            match res {
                Some(out) => walk_state(segs, start, after, out),
                None => after == start,
            }
        }),
    decreases steps,
{
    let un = unwind(segs, used, chain);
    assert(un.len() == start.len());
    assert forall|k: int| 0 <= k < start.len() implies un[k] == start[k] by {
        if start[k] {
            assert(used[k]);
            if chain.contains(segs[k].0) {
                let c = chain.index_of(segs[k].0);
                let k2 = choose|k2: int|
                    0 <= k2 < segs.len() && (#[trigger] segs[k2]).0 == #[trigger] chain[c] && used[k2]
                        && !start[k2];
                if k2 < k {
                    assert(segs[k2].0 != segs[k].0);
                } else if k2 > k {
                    assert(segs[k].0 != segs[k2].0);
                }
            }
        } else if used[k] {
            assert(chain.contains(segs[k].0));
        }
    }
    assert(un =~= start);
    if steps > 0 && !(end == target && closes_with(chain, segs)) {
        match first_link(segs, used, end, 0) {
            Some(i) => {
                lemma_first_link(segs, used, end, 0);
                lemma_first_link_unused(segs, used, end, 0);
                let u2 = used.update(i, true);
                let c2 = chain.push(segs[i].0);
                assert(!start[i]);
                assert(!chain.contains(segs[i].0)) by {
                    if chain.contains(segs[i].0) {
                        let c = chain.index_of(segs[i].0);
                        let k2 = choose|k2: int|
                            0 <= k2 < segs.len() && (#[trigger] segs[k2]).0 == #[trigger] chain[c]
                                && used[k2] && !start[k2];
                        if k2 < i {
                            assert(segs[k2].0 != segs[i].0);
                        } else if k2 > i {
                            assert(segs[i].0 != segs[k2].0);
                        }
                    }
                }
                assert forall|a: int, b: int| 0 <= a < b < c2.len() implies #[trigger] c2[a]
                    != #[trigger] c2[b] by {
                    if b < chain.len() {
                        assert(c2[a] == chain[a] && c2[b] == chain[b]);
                    } else {
                        assert(c2[a] == chain[a]);
                        assert(chain.contains(chain[a]));
                    }
                }
                assert forall|c: int| 0 <= c < c2.len() implies exists|k: int|
                    0 <= k < segs.len() && (#[trigger] segs[k]).0 == #[trigger] c2[c] && u2[k]
                        && !start[k] by {
                    if c < chain.len() {
                        assert(c2[c] == chain[c]);
                        let k = choose|k: int|
                            0 <= k < segs.len() && (#[trigger] segs[k]).0 == #[trigger] chain[c]
                                && used[k] && !start[k];
                        assert(u2[k]);
                    } else {
                        assert(segs[i].0 == c2[c] && u2[i]);
                    }
                }
                assert forall|k: int| 0 <= k < segs.len() && #[trigger] u2[k] && !start[k] implies c2.contains(
                    segs[k].0,
                ) by {
                    if k == i {
                        assert(c2[chain.len() as int] == segs[k].0);
                    } else {
                        assert(used[k]);
                        assert(chain.contains(segs[k].0));
                        let c = chain.index_of(segs[k].0);
                        assert(c2[c] == segs[k].0);
                    }
                }
                assert forall|k: int| 0 <= k < segs.len() && start[k] implies #[trigger] u2[k] by {
                    assert(used[k]);
                }
                lemma_walk_state(
                    segs,
                    start,
                    u2,
                    c2,
                    if segs[i].1 == end {
                        segs[i].2
                    } else {
                        segs[i].1
                    },
                    target,
                    (steps - 1) as nat,
                );
            },
            None => {},
        }
    }
}

proof fn lemma_first_link_unused(segs: Seq<EdgeView>, used: Seq<bool>, point: Seq<char>, from: int)
    ensures
        first_link(segs, used, point, from) matches Some(i) ==> !used[i],
    decreases segs.len() - from,
{
    if !(from < 0 || from >= segs.len()) && !(!used[from] && (segs[from].1 == point || segs[from].2 == point)) {
        lemma_first_link_unused(segs, used, point, from + 1);
    }
}

/// What a scan gives: each chain's ids are distinct, every id is a segment
/// unused when the scan began, and no id is in two chains.
pub open spec fn scan_state(segs: Seq<EdgeView>, used: Seq<bool>, out: Seq<(Seq<Seq<char>>, ProfileKind)>) -> bool {
    &&& forall|k: int, a: int, b: int|
        0 <= k < out.len() && 0 <= a < b < out[k].0.len() ==> #[trigger] out[k].0[a]
            != #[trigger] out[k].0[b]
    &&& forall|k: int, c: int|
        0 <= k < out.len() && 0 <= c < out[k].0.len() ==> exists|q: int|
            0 <= q < segs.len() && (#[trigger] segs[q]).0 == #[trigger] out[k].0[c] && !used[q]
    &&& forall|k1: int, k2: int, c1: int, c2: int|
        0 <= k1 < k2 < out.len() && 0 <= c1 < out[k1].0.len() && 0 <= c2 < out[k2].0.len()
            ==> #[trigger] out[k1].0[c1] != #[trigger] out[k2].0[c2]
}

proof fn lemma_scan_state(segs: Seq<EdgeView>, start: int, used: Seq<bool>)
    requires
        seg_ids_distinct(segs),
        used.len() == segs.len(),
    ensures
        scan_state(segs, used, scan(segs, start, used)),
    decreases segs.len() - start,
{
    if !(start < 0 || start >= segs.len()) {
        if used[start] {
            lemma_scan_state(segs, start + 1, used);
            assert(scan(segs, start, used) == scan(segs, start + 1, used));
        } else {
            let u1 = used.update(start, true);
            let first = seq![segs[start].0];
            assert(walk_state(segs, used, u1, first)) by {
                assert forall|c: int| 0 <= c < first.len() implies exists|k: int|
                    0 <= k < segs.len() && (#[trigger] segs[k]).0 == #[trigger] first[c] && u1[k]
                        && !used[k] by {
                    assert(segs[start].0 == first[c] && u1[start]);
                }
                assert forall|k: int| 0 <= k < segs.len() && #[trigger] u1[k] && !used[k] implies first.contains(
                    segs[k].0,
                ) by {
                    assert(k == start);
                    assert(first[0] == segs[k].0);
                }
            }
            lemma_walk_state(segs, used, u1, first, segs[start].2, segs[start].1, (segs.len() + 1) as nat);
            let (res, used2) = trace(segs, start, used);
            assert(used2.len() == segs.len()) by {
                if res is None {
                    assert(used2 == used);
                }
            }
            lemma_scan_state(segs, start + 1, used2);
            let rest = scan(segs, start + 1, used2);
            let out = scan(segs, start, used);
            // The rest uses segments unused before the trace.
            assert forall|k: int, c: int| 0 <= k < rest.len() && 0 <= c < rest[k].0.len() implies exists|q: int|
                0 <= q < segs.len() && (#[trigger] segs[q]).0 == #[trigger] rest[k].0[c] && !used[q] by {
                let q = choose|q: int|
                    0 <= q < segs.len() && (#[trigger] segs[q]).0 == #[trigger] rest[k].0[c] && !used2[q];
                if res is Some {
                    if used[q] {
                        assert(used2[q]);
                    }
                } else {
                    assert(used2 == used);
                }
            }
            match res {
                None => {
                    assert(out == rest);
                },
                Some(chain) => {
                    let kind = classify(chain, segs);
                    if kind != ProfileKind::Open || chain.len() >= 2 {
                        assert(out == seq![(chain, kind)] + rest);
                        assert forall|k: int| 0 <= k < rest.len() implies #[trigger] out[k + 1] == rest[k] by {}
                        assert(out[0] == (chain, kind));
                        assert forall|k: int, a: int, b: int|
                            0 <= k < out.len() && 0 <= a < b < out[k].0.len() implies #[trigger] out[k].0[a]
                            != #[trigger] out[k].0[b] by {
                            if k > 0 {
                                assert(out[k] == rest[k - 1]);
                            }
                        }
                        assert forall|k: int, c: int| 0 <= k < out.len() && 0 <= c < out[k].0.len() implies exists|q: int|
                            0 <= q < segs.len() && (#[trigger] segs[q]).0 == #[trigger] out[k].0[c] && !used[q] by {
                            if k > 0 {
                                assert(out[k] == rest[k - 1]);
                            } else {
                                let q = choose|q: int|
                                    0 <= q < segs.len() && (#[trigger] segs[q]).0 == #[trigger] chain[c]
                                        && used2[q] && !used[q];
                                assert(segs[q].0 == out[k].0[c]);
                            }
                        }
                        assert forall|k1: int, k2: int, c1: int, c2: int|
                            0 <= k1 < k2 < out.len() && 0 <= c1 < out[k1].0.len() && 0 <= c2 < out[k2].0.len()
                            implies #[trigger] out[k1].0[c1] != #[trigger] out[k2].0[c2] by {
                            assert(out[k2] == rest[k2 - 1]);
                            if k1 > 0 {
                                assert(out[k1] == rest[k1 - 1]);
                            } else {
                                let q1 = choose|q: int|
                                    0 <= q < segs.len() && (#[trigger] segs[q]).0 == #[trigger] chain[c1]
                                        && used2[q] && !used[q];
                                let q2 = choose|q: int|
                                    0 <= q < segs.len() && (#[trigger] segs[q]).0 == #[trigger] rest[k2 - 1].0[c2]
                                        && !used2[q];
                                if q1 < q2 {
                                    assert(segs[q1].0 != segs[q2].0);
                                } else if q1 > q2 {
                                    assert(segs[q2].0 != segs[q1].0);
                                }
                            }
                        }
                    } else {
                        assert(out == rest);
                    }
                },
            }
        }
    }
}

/// With distinct entity ids, no entity is in two profiles, nor twice in
/// one.
#[verifier::rlimit(80)]
pub proof fn law_profiles_share_no_entity(entities: Seq<ProfileEntity>)
    requires
        ids_distinct(entities),
    ensures
        ({
            let ps = detected(entities);
            forall|k1: int, k2: int, c1: int, c2: int|
                0 <= k1 < ps.len() && 0 <= k2 < ps.len() && 0 <= c1 < ps[k1].entity_ids.len() && 0 <= c2
                    < ps[k2].entity_ids.len() && (k1 != k2 || c1 != c2) ==> #[trigger] ps[k1].entity_ids[c1]
                    != #[trigger] ps[k2].entity_ids[c2]
        }),
{
    let segs = segments_of(entities);
    let circles = circle_profiles(entities);
    let ps = detected(entities);
    let unused = Seq::new(segs.len(), |i: int| false);
    let sc = scan(segs, 0, unused);
    let loops = if segs.len() >= 2 {
        loop_profiles(sc, circles.len())
    } else {
        Seq::empty()
    };
    assert(ps == circles + loops);
    lemma_segments_distinct(entities);
    lemma_circle_profiles(entities);
    lemma_scan_state(segs, 0, unused);
    assert forall|k: int| 0 <= k < loops.len() implies (#[trigger] loops[k]).entity_ids == sc[k].0 by {}
    // An id in a loop is a line or arc; an id in a circle profile is a circle.
    assert forall|k: int, c: int| 0 <= k < loops.len() && 0 <= c < loops[k].entity_ids.len() implies segment_entity(
        entities,
        #[trigger] loops[k].entity_ids[c],
    ) by {
        let q = choose|q: int| 0 <= q < segs.len() && (#[trigger] segs[q]).0 == #[trigger] sc[k].0[c] && !unused[q];
        assert(segment_entity(entities, segs[q].0));
    }
    assert forall|k1: int, k2: int, c1: int, c2: int|
        0 <= k1 < ps.len() && 0 <= k2 < ps.len() && 0 <= c1 < ps[k1].entity_ids.len() && 0 <= c2
            < ps[k2].entity_ids.len() && (k1 != k2 || c1 != c2) implies #[trigger] ps[k1].entity_ids[c1]
        != #[trigger] ps[k2].entity_ids[c2] by {
        let n = circles.len() as int;
        if k1 < n && k2 < n {
            assert(ps[k1] == circles[k1] && ps[k2] == circles[k2]);
            if ps[k1].entity_ids[c1] == ps[k2].entity_ids[c2] {
                assert(circles[k1].entity_ids =~= circles[k2].entity_ids);
            }
        } else if k1 >= n && k2 >= n {
            assert(ps[k1] == loops[k1 - n] && ps[k2] == loops[k2 - n]);
            if k1 < k2 {
                assert(sc[k1 - n].0[c1] != sc[k2 - n].0[c2]);
            } else if k2 < k1 {
                assert(sc[k2 - n].0[c2] != sc[k1 - n].0[c1]);
            } else {
                if c1 < c2 {
                    assert(sc[k1 - n].0[c1] != sc[k1 - n].0[c2]);
                } else {
                    assert(sc[k1 - n].0[c2] != sc[k1 - n].0[c1]);
                }
            }
        } else {
            let (kc, cc, kl, cl) = if k1 < n { (k1, c1, k2, c2) } else { (k2, c2, k1, c1) };
            assert(ps[kc] == circles[kc] && ps[kl] == loops[kl - n]);
            let e = choose|e: int|
                0 <= e < entities.len() && (#[trigger] entities[e]) is Circle && profile_entity(entities[e])
                    && circles[kc].entity_ids == seq![entity_id(entities[e])];
            assert(segment_entity(entities, loops[kl - n].entity_ids[cl]));
            let i = choose|i: int|
                0 <= i < entities.len() && entity_id(#[trigger] entities[i]) == loops[kl - n].entity_ids[cl]
                    && (entities[i] is Line || entities[i] is Arc);
            if ps[kc].entity_ids[cc] == ps[kl].entity_ids[cl] {
                assert(entity_id(entities[e]) == entity_id(entities[i]));
                if e < i {
                    assert(entity_id(entities[e]) != entity_id(entities[i]));
                } else if i < e {
                    assert(entity_id(entities[i]) != entity_id(entities[e]));
                }
            }
        }
    }
}

proof fn lemma_occ_one(s: Seq<Seq<char>>, p: Seq<char>, a: int)
    requires
        0 <= a < s.len(),
        s[a] == p,
    ensures
        occurrences(s, p) >= 1,
    decreases s.len(),
{
    if a < s.len() - 1 {
        lemma_occ_one(s.drop_last(), p, a);
    }
}

proof fn lemma_occ_two(s: Seq<Seq<char>>, p: Seq<char>, a: int, b: int)
    requires
        0 <= a < b < s.len(),
        s[a] == p,
        s[b] == p,
    ensures
        occurrences(s, p) >= 2,
    decreases s.len(),
{
    if b < s.len() - 1 {
        lemma_occ_two(s.drop_last(), p, a, b);
    } else {
        lemma_occ_one(s.drop_last(), p, a);
    }
}

proof fn lemma_occ_three(s: Seq<Seq<char>>, p: Seq<char>, a: int, b: int, c: int)
    requires
        0 <= a < b < c < s.len(),
        s[a] == p,
        s[b] == p,
        s[c] == p,
    ensures
        occurrences(s, p) >= 3,
    decreases s.len(),
{
    if c < s.len() - 1 {
        lemma_occ_three(s.drop_last(), p, a, b, c);
    } else {
        lemma_occ_two(s.drop_last(), p, a, b);
    }
}

proof fn lemma_occ_witness(s: Seq<Seq<char>>, p: Seq<char>)
    ensures
        occurrences(s, p) >= 1 ==> exists|a: int| 0 <= a < s.len() && s[a] == p,
        occurrences(s, p) >= 2 ==> exists|a: int, b: int| 0 <= a < b < s.len() && s[a] == p && s[b] == p,
        occurrences(s, p) >= 3 ==> exists|a: int, b: int, c: int|
            0 <= a < b < c < s.len() && s[a] == p && s[b] == p && s[c] == p,
    decreases s.len(),
{
    if s.len() > 0 {
        let r = s.drop_last();
        lemma_occ_witness(r, p);
        let n = s.len() - 1;
        if occurrences(r, p) >= 1 {
            let a = choose|a: int| 0 <= a < r.len() && r[a] == p;
            assert(s[a] == p);
        }
        if occurrences(r, p) >= 2 {
            let (a, b) = choose|a: int, b: int| 0 <= a < b < r.len() && r[a] == p && r[b] == p;
            assert(s[a] == p && s[b] == p);
        }
        if occurrences(r, p) >= 3 {
            let (a, b, c) = choose|a: int, b: int, c: int|
                0 <= a < b < c < r.len() && r[a] == p && r[b] == p && r[c] == p;
            assert(s[a] == p && s[b] == p && s[c] == p);
        }
        if s.last() == p {
            assert(s[n] == p);
            if occurrences(r, p) >= 1 {
                let a = choose|a: int| 0 <= a < r.len() && r[a] == p;
                assert(s[a] == p);
            }
            if occurrences(r, p) >= 2 {
                let (a, b) = choose|a: int, b: int| 0 <= a < b < r.len() && r[a] == p && r[b] == p;
                assert(s[a] == p && s[b] == p);
            }
        }
    }
}

proof fn lemma_scan_kinds(segs: Seq<EdgeView>, start: int, used: Seq<bool>)
    ensures
        forall|k: int|
            0 <= k < scan(segs, start, used).len() ==> (#[trigger] scan(segs, start, used)[k]).1
                == classify(scan(segs, start, used)[k].0, segs),
    decreases segs.len() - start,
{
    if !(start < 0 || start >= segs.len()) {
        if used[start] {
            lemma_scan_kinds(segs, start + 1, used);
        } else {
            let (res, used2) = trace(segs, start, used);
            lemma_scan_kinds(segs, start + 1, used2);
            let rest = scan(segs, start + 1, used2);
            if let Some(chain) = res {
                let kind = classify(chain, segs);
                if kind != ProfileKind::Open || chain.len() >= 2 {
                    let out = seq![(chain, kind)] + rest;
                    assert forall|k: int| 0 <= k < out.len() implies (#[trigger] out[k]).1 == classify(
                        out[k].0,
                        segs,
                    ) by {
                        if k > 0 {
                            assert(out[k] == rest[k - 1]);
                        }
                    }
                }
            }
        }
    }
}

/// Three of the end points of a chain's segments (each segment's start and
/// end, in chain order) are one point.
pub open spec fn met_thrice(ids: Seq<Seq<char>>, segs: Seq<EdgeView>) -> bool {
    exists|a: int, b: int, c: int|
        #![trigger endpoints(ids, segs)[a], endpoints(ids, segs)[b], endpoints(ids, segs)[c]]
        0 <= a < b < c < endpoints(ids, segs).len() && endpoints(ids, segs)[a] == endpoints(ids, segs)[b]
            && endpoints(ids, segs)[b] == endpoints(ids, segs)[c]
}

/// A detected profile is self-intersecting exactly when one point is an
/// end of its segments three times or more, whether or not its ends meet;
/// a closed or open profile meets no point three times.
pub proof fn law_profiles_meeting_a_point_thrice_self_intersect(entities: Seq<ProfileEntity>)
    ensures
        forall|k: int|
            0 <= k < detected(entities).len() ==> ((#[trigger] detected(entities)[k]).kind
                == ProfileKind::SelfIntersecting <==> met_thrice(
                detected(entities)[k].entity_ids,
                segments_of(entities),
            )),
{
    let segs = segments_of(entities);
    let circles = circle_profiles(entities);
    let ps = detected(entities);
    let unused = Seq::new(segs.len(), |i: int| false);
    let sc = scan(segs, 0, unused);
    lemma_circle_profiles(entities);
    lemma_scan_kinds(segs, 0, unused);
    assert forall|k: int| 0 <= k < ps.len() implies ((#[trigger] ps[k]).kind == ProfileKind::SelfIntersecting
        <==> met_thrice(ps[k].entity_ids, segs)) by {
        let ids = ps[k].entity_ids;
        let e = endpoints(ids, segs);
        if k < circles.len() {
            assert(ps[k] == circles[k]);
            assert(ids.len() == 1);
            assert(ids.drop_last() =~= Seq::<Seq<char>>::empty());
            assert(endpoints(ids.drop_last(), segs).len() == 0);
            assert(e == endpoints(ids.drop_last(), segs) + match first_seg(segs, ids.last(), 0) {
                Some(j) => seq![segs[j].1, segs[j].2],
                None => Seq::<Seq<char>>::empty(),
            });
            assert(e.len() <= 2);
        } else {
            let m = k - circles.len();
            assert(segs.len() >= 2);
            assert(ps[k] == loop_profiles(sc, circles.len())[m]);
            assert(ps[k].kind == classify(ids, segs));
            if met_thrice(ids, segs) {
                let (a, b, c) = choose|a: int, b: int, c: int|
                    #![trigger e[a], e[b], e[c]]
                    0 <= a < b < c < e.len() && e[a] == e[b] && e[b] == e[c];
                lemma_occ_three(e, e[a], a, b, c);
                assert(over_visited(ids, segs));
            }
            if over_visited(ids, segs) {
                let p = choose|p: Seq<char>| occurrences(e, p) > 2;
                lemma_occ_witness(e, p);
                let (a, b, c) = choose|a: int, b: int, c: int|
                    0 <= a < b < c < e.len() && e[a] == p && e[b] == p && e[c] == p;
                assert(e[a] == e[b] && e[b] == e[c]);
            }
        }
    }
}

proof fn lemma_met_thrice(ids: Seq<Seq<char>>, segs: Seq<EdgeView>)
    ensures
        met_thrice(ids, segs) <==> over_visited(ids, segs),
{
    let e = endpoints(ids, segs);
    if met_thrice(ids, segs) {
        let (a, b, c) = choose|a: int, b: int, c: int|
            #![trigger e[a], e[b], e[c]]
            0 <= a < b < c < e.len() && e[a] == e[b] && e[b] == e[c];
        lemma_occ_three(e, e[a], a, b, c);
        assert(occurrences(e, e[a]) > 2);
    }
    if over_visited(ids, segs) {
        let p = choose|p: Seq<char>| occurrences(e, p) > 2;
        lemma_occ_witness(e, p);
        let (a, b, c) = choose|a: int, b: int, c: int|
            0 <= a < b < c < e.len() && e[a] == p && e[b] == p && e[c] == p;
        assert(e[a] == e[b] && e[b] == e[c]);
    }
}

/// The chain's first segment starts where its last segment ends.
pub open spec fn ends_meet(ids: Seq<Seq<char>>, segs: Seq<EdgeView>) -> bool {
    ids.len() > 0 && exists|f: int, l: int|
        #![trigger segs[f], segs[l]]
        first_seg(segs, ids[0], 0) == Some(f) && first_seg(segs, ids.last(), 0) == Some(l) && segs[f].1
            == segs[l].2
}

/// Enough segments to enclose an area: three, or two with an arc among them.
pub open spec fn encloses(ids: Seq<Seq<char>>, segs: Seq<EdgeView>) -> bool {
    ids.len() >= 3 || (ids.len() == 2 && exists|k: int, j: int|
        0 <= k < 2 && 0 <= j < segs.len() && #[trigger] segs[j].0 == #[trigger] ids[k] && segs[j].3)
}

/// A traced profile (one without a circle's reference) is closed exactly
/// when its ends meet, it has enough segments to enclose an area, and no
/// point is met three times; open exactly when it meets no point three
/// times and does not close.
pub proof fn law_traced_profiles_close_when_their_ends_meet(entities: Seq<ProfileEntity>)
    ensures
        forall|k: int|
            0 <= k < detected(entities).len() && (#[trigger] detected(entities)[k]).profile_ref is None ==> {
                let ids = detected(entities)[k].entity_ids;
                let segs = segments_of(entities);
                &&& detected(entities)[k].kind == ProfileKind::Closed <==> !met_thrice(ids, segs)
                    && ends_meet(ids, segs) && encloses(ids, segs)
                &&& detected(entities)[k].kind == ProfileKind::Open <==> !met_thrice(ids, segs) && !(
                ends_meet(ids, segs) && encloses(ids, segs))
            },
{
    let segs = segments_of(entities);
    let circles = circle_profiles(entities);
    let ps = detected(entities);
    let unused = Seq::new(segs.len(), |i: int| false);
    let sc = scan(segs, 0, unused);
    lemma_scan_kinds(segs, 0, unused);
    assert forall|k: int| 0 <= k < ps.len() && (#[trigger] ps[k]).profile_ref is None implies {
        let ids = ps[k].entity_ids;
        &&& ps[k].kind == ProfileKind::Closed <==> !met_thrice(ids, segs) && ends_meet(ids, segs)
            && encloses(ids, segs)
        &&& ps[k].kind == ProfileKind::Open <==> !met_thrice(ids, segs) && !(ends_meet(ids, segs)
            && encloses(ids, segs))
    } by {
        let ids = ps[k].entity_ids;
        if k < circles.len() {
            lemma_circle_profile_refs(entities);
            assert(ps[k] == circles[k]);
        } else {
            let m = k - circles.len();
            assert(ps[k] == loop_profiles(sc, circles.len())[m]);
            assert(ps[k].kind == classify(ids, segs));
            lemma_met_thrice(ids, segs);
            assert(encloses(ids, segs) == closes_with(ids, segs));
            let meet = chain_start(ids, segs) is Some && chain_start(ids, segs) == chain_end(ids, segs);
            if meet {
                let f = first_seg(segs, ids[0], 0)->0;
                let l = first_seg(segs, ids.last(), 0)->0;
                assert(segs[f].1 == segs[l].2);
            }
            if ends_meet(ids, segs) {
                let (f, l) = choose|f: int, l: int|
                    #![trigger segs[f], segs[l]]
                    first_seg(segs, ids[0], 0) == Some(f) && first_seg(segs, ids.last(), 0) == Some(l)
                        && segs[f].1 == segs[l].2;
                assert(meet);
            }
        }
    }
}

proof fn lemma_circle_profile_refs(entities: Seq<ProfileEntity>)
    ensures
        forall|k: int| 0 <= k < circle_profiles(entities).len() ==> (#[trigger] circle_profiles(entities)[k]).profile_ref is Some,
    decreases entities.len(),
{
    if entities.len() > 0 {
        lemma_circle_profile_refs(entities.drop_last());
    }
}

} // verus!
