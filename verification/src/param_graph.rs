//! Parametric graph: named parameter expressions and the dependencies
//! between them.
use vstd::prelude::*;
use crate::error::CadError;
use crate::refs::strings_view;
use crate::text::str_eq;

verus! {

/// One parameter: its id, the name expressions use for it, and its
/// expression.
#[derive(Debug, Clone, PartialEq, Eq)]
pub struct ParameterEntry {
    pub id: String,
    pub name: String,
    pub expr: String,
}

impl ParameterEntry {
    pub fn new(id: &str, name: &str, expr: &str) -> (entry: ParameterEntry)
        ensures
            entry.id@ == id@,
            entry.name@ == name@,
            entry.expr@ == expr@,
    {
        ParameterEntry { id: id.to_owned(), name: name.to_owned(), expr: expr.to_owned() }
    }
}

/// A parameter as texts: `(id, name, expression)`.
pub type EntryView = (Seq<char>, Seq<char>, Seq<char>);

pub open spec fn entry_view(e: ParameterEntry) -> EntryView {
    (e.id@, e.name@, e.expr@)
}

pub open spec fn entries_view(v: Seq<ParameterEntry>) -> Seq<EntryView> {
    v.map_values(|e: ParameterEntry| entry_view(e))
}

pub open spec fn ids_of(entries: Seq<EntryView>) -> Seq<Seq<char>> {
    entries.map_values(|e: EntryView| e.0)
}

/// Parameters in insertion order, each id once, and dependency edges
/// `(from, to)`: `to` is evaluated after `from`.
pub struct ParamGraph {
    entries: Vec<ParameterEntry>,
    dependencies: Vec<(String, String)>,
}

pub struct ParamGraphView {
    pub entries: Seq<EntryView>,
    pub dependencies: Seq<(Seq<char>, Seq<char>)>,
}

pub open spec fn deps_view(d: Seq<(String, String)>) -> Seq<(Seq<char>, Seq<char>)> {
    d.map_values(|e: (String, String)| (e.0@, e.1@))
}

impl View for ParamGraph {
    type V = ParamGraphView;

    closed spec fn view(&self) -> ParamGraphView {
        ParamGraphView {
            entries: entries_view(self.entries@),
            dependencies: deps_view(self.dependencies@),
        }
    }
}

/// Ids are unique and every dependency joins two parameters of the graph.
pub open spec fn graph_wf(g: ParamGraphView) -> bool {
    &&& ids_of(g.entries).no_duplicates()
    &&& forall|k: int| 0 <= k < g.dependencies.len() ==> ids_of(g.entries).contains(
        #[trigger] g.dependencies[k].0,
    ) && ids_of(g.entries).contains(g.dependencies[k].1)
}

/// A parameter may be placed once every parameter it depends on is placed.
pub open spec fn ready(g: ParamGraphView, placed: Seq<Seq<char>>, id: Seq<char>) -> bool {
    &&& !placed.contains(id)
    &&& forall|k: int| 0 <= k < g.dependencies.len() && #[trigger] g.dependencies[k].1 == id
        ==> placed.contains(g.dependencies[k].0)
}

/// Index of the first parameter at or after `from`, in insertion order,
/// that is ready.
pub open spec fn first_ready(g: ParamGraphView, placed: Seq<Seq<char>>, from: int) -> Option<int>
    decreases g.entries.len() - from,
{
    if from < 0 || from >= g.entries.len() {
        None
    } else if ready(g, placed, g.entries[from].0) {
        Some(from)
    } else {
        first_ready(g, placed, from + 1)
    }
}

pub open spec fn all_placed(g: ParamGraphView, placed: Seq<Seq<char>>) -> bool {
    forall|k: int| 0 <= k < g.entries.len() ==> placed.contains(#[trigger] g.entries[k].0)
}

/// Evaluation order: repeatedly place the first ready parameter in
/// insertion order; `None` when the unplaced parameters wait on each other.
pub open spec fn greedy_order(g: ParamGraphView, placed: Seq<Seq<char>>, fuel: nat) -> Option<
    Seq<Seq<char>>,
>
    decreases fuel,
{
    if all_placed(g, placed) {
        Some(placed)
    } else if fuel == 0 {
        None
    } else {
        match first_ready(g, placed, 0) {
            None => None,
            Some(i) => greedy_order(g, placed.push(g.entries[i].0), (fuel - 1) as nat),
        }
    }
}

pub open spec fn evaluation_order_spec(g: ParamGraphView) -> Option<Seq<Seq<char>>> {
    greedy_order(g, Seq::empty(), g.entries.len())
}

pub proof fn lemma_first_ready(g: ParamGraphView, placed: Seq<Seq<char>>, from: int)
    requires
        0 <= from,
    ensures
        first_ready(g, placed, from) matches Some(i) ==> from <= i < g.entries.len() && ready(
            g,
            placed,
            g.entries[i].0,
        ),
        first_ready(g, placed, from) is None ==> forall|k: int|
            from <= k < g.entries.len() ==> !ready(g, placed, #[trigger] g.entries[k].0),
    decreases g.entries.len() - from,
{
    if !(from < 0 || from >= g.entries.len()) && !ready(g, placed, g.entries[from].0) {
        lemma_first_ready(g, placed, from + 1);
    }
}

impl ParamGraph {
    pub closed spec fn wf(&self) -> bool {
        graph_wf(self@)
    }

    pub fn new() -> (g: ParamGraph)
        ensures
            g@.entries == Seq::<EntryView>::empty(),
            g@.dependencies == Seq::<(Seq<char>, Seq<char>)>::empty(),
            g.wf(),
    {
        let g = ParamGraph { entries: Vec::new(), dependencies: Vec::new() };
        assert(entries_view(g.entries@) =~= Seq::empty());
        assert(deps_view(g.dependencies@) =~= Seq::empty());
        g
    }

    fn index_of(&self, id: &str) -> (r: Option<usize>)
        ensures
            match r {
                Some(i) => i < self@.entries.len() && self@.entries[i as int].0 == id@,
                None => !ids_of(self@.entries).contains(id@),
            },
    {
        let mut i: usize = 0;
        while i < self.entries.len()
            invariant
                i <= self.entries.len(),
                forall|k: int| 0 <= k < i ==> self.entries@[k].id@ != id@,
            decreases self.entries.len() - i,
        {
            if str_eq(self.entries[i].id.as_str(), id) {
                return Some(i);
            }
            i = i + 1;
        }
        proof {
            if ids_of(self@.entries).contains(id@) {
                let k = ids_of(self@.entries).index_of(id@);
                assert(self.entries@[k].id@ == id@);
            }
        }
        None
    }

    /// Add a parameter; an id already in the graph is refused.
    pub fn add_parameter(&mut self, entry: ParameterEntry) -> (r: Result<(), CadError>)
        requires
            old(self).wf(),
        ensures
            final(self).wf(),
            ids_of(old(self)@.entries).contains(entry.id@) <==> r is Err,
            r is Ok ==> final(self)@.entries == old(self)@.entries.push(entry_view(entry)),
            r is Err ==> final(self)@ == old(self)@ && r->Err_0 is Validation,
            final(self)@.dependencies == old(self)@.dependencies,
    {
        if let Some(i) = self.index_of(entry.id.as_str()) {
            assert(ids_of(self@.entries)[i as int] == entry.id@);
            let mut message = "parameter '".to_owned();
            message.append(entry.id.as_str());
            message.append("' already exists");
            return Err(CadError::Validation(message));
        }
        let ghost before = self@;
        self.entries.push(entry);
        proof {
            assert(self@.entries =~= before.entries.push(entry_view(entry)));
            assert(ids_of(self@.entries) =~= ids_of(before.entries).push(entry.id@));
            assert forall|k: int| 0 <= k < self@.dependencies.len() implies ids_of(
                self@.entries,
            ).contains(#[trigger] self@.dependencies[k].0) && ids_of(self@.entries).contains(
                self@.dependencies[k].1,
            ) by {
                let a = ids_of(before.entries).index_of(before.dependencies[k].0);
                let b = ids_of(before.entries).index_of(before.dependencies[k].1);
                assert(ids_of(self@.entries)[a] == self@.dependencies[k].0);
                assert(ids_of(self@.entries)[b] == self@.dependencies[k].1);
            }
        }
        Ok(())
    }

    /// The parameter with the given id.
    pub fn get(&self, id: &str) -> (r: Option<&ParameterEntry>)
        requires
            self.wf(),
        ensures
            match r {
                Some(e) => ids_of(self@.entries).contains(id@) && entry_view(*e)
                    == self@.entries[ids_of(self@.entries).index_of(id@)],
                None => !ids_of(self@.entries).contains(id@),
            },
    {
        match self.index_of(id) {
            Some(i) => {
                proof {
                    assert(ids_of(self@.entries)[i as int] == id@);
                    ids_of(self@.entries).index_of_first(id@);
                    assert(ids_of(self@.entries).contains(id@));
                }
                Some(&self.entries[i])
            },
            None => None,
        }
    }

    /// Parameter ids in insertion order.
    pub fn parameter_ids(&self) -> (ids: Vec<String>)
        ensures
            strings_view(ids@) == ids_of(self@.entries),
    {
        let mut ids: Vec<String> = Vec::new();
        let mut i: usize = 0;
        while i < self.entries.len()
            invariant
                i <= self.entries.len(),
                strings_view(ids@) == ids_of(self@.entries).subrange(0, i as int),
            decreases self.entries.len() - i,
        {
            let id = self.entries[i].id.clone();
            assert(ids_of(self@.entries)[i as int] == self.entries@[i as int].id@);
            let ghost old_ids = ids@;
            ids.push(id);
            assert(strings_view(ids@) =~= strings_view(old_ids).push(id@));
            assert(ids_of(self@.entries).subrange(0, i + 1) =~= ids_of(self@.entries).subrange(
                0,
                i as int,
            ).push(id@));
            i = i + 1;
            assert(strings_view(ids@) =~= ids_of(self@.entries).subrange(0, i as int));
        }
        assert(ids_of(self@.entries).subrange(0, i as int) =~= ids_of(self@.entries));
        ids
    }

    /// Replace the expression of a parameter; an unknown id is `NotFound`.
    pub fn set_expr(&mut self, id: &str, expr: &str) -> (r: Result<(), CadError>)
        requires
            old(self).wf(),
        ensures
            final(self).wf(),
            ids_of(old(self)@.entries).contains(id@) <==> r is Ok,
            r is Ok ==> final(self)@.entries == old(self)@.entries.update(
                ids_of(old(self)@.entries).index_of(id@),
                (id@, old(self)@.entries[ids_of(old(self)@.entries).index_of(id@)].1, expr@),
            ),
            r is Err ==> final(self)@ == old(self)@ && r->Err_0 is NotFound,
            final(self)@.dependencies == old(self)@.dependencies,
    {
        match self.index_of(id) {
            None => {
                let mut message = "parameter '".to_owned();
                message.append(id);
                message.append("'");
                Err(CadError::NotFound(message))
            },
            Some(i) => {
                let ghost before = self@;
                proof {
                    assert(ids_of(before.entries)[i as int] == id@);
                    ids_of(before.entries).index_of_first(id@);
                    assert(ids_of(before.entries).contains(id@));
                    assert(ids_of(before.entries).index_of(id@) == i) by {
                        let j = ids_of(before.entries).index_of(id@);
                        assert(ids_of(before.entries)[j] == id@);
                    }
                }
                let entry = ParameterEntry {
                    id: self.entries[i].id.clone(),
                    name: self.entries[i].name.clone(),
                    expr: expr.to_owned(),
                };
                self.entries.set(i, entry);
                proof {
                    assert(self@.entries =~= before.entries.update(
                        i as int,
                        (id@, before.entries[i as int].1, expr@),
                    ));
                    assert(ids_of(self@.entries) =~= ids_of(before.entries));
                    assert(self@.dependencies == before.dependencies);
                    assert(graph_wf(self@));
                }
                Ok(())
            },
        }
    }

    /// Record that `to` is evaluated after `from`; both must be parameters
    /// of the graph (the first one missing is `NotFound`).
    pub fn add_dependency(&mut self, from: &str, to: &str) -> (r: Result<(), CadError>)
        requires
            old(self).wf(),
        ensures
            final(self).wf(),
            (ids_of(old(self)@.entries).contains(from@) && ids_of(old(self)@.entries).contains(to@))
                <==> r is Ok,
            r is Ok ==> final(self)@.dependencies == old(self)@.dependencies.push((from@, to@)),
            r is Err ==> final(self)@ == old(self)@ && r->Err_0 is NotFound,
            final(self)@.entries == old(self)@.entries,
    {
        let a = self.index_of(from);
        let b = self.index_of(to);
        if a.is_none() || b.is_none() {
            let missing = if a.is_none() { from } else { to };
            let mut message = "parameter '".to_owned();
            message.append(missing);
            message.append("'");
            return Err(CadError::NotFound(message));
        }
        let ghost before = self@;
        proof {
            let i = a->0;
            let j = b->0;
            assert(ids_of(before.entries)[i as int] == from@);
            assert(ids_of(before.entries)[j as int] == to@);
        }
        self.dependencies.push((from.to_owned(), to.to_owned()));
        proof {
            assert(self@.dependencies =~= before.dependencies.push((from@, to@)));
            assert(self@.entries == before.entries);
        }
        Ok(())
    }

    fn is_ready(&self, placed: &Vec<String>, id: &str) -> (r: bool)
        ensures
            r == ready(self@, strings_view(placed@), id@),
    {
        if contains_str(placed, id) {
            return false;
        }
        let mut k: usize = 0;
        while k < self.dependencies.len()
            invariant
                k <= self.dependencies.len(),
                !strings_view(placed@).contains(id@),
                forall|m: int| 0 <= m < k && #[trigger] self@.dependencies[m].1 == id@ ==> strings_view(
                    placed@,
                ).contains(self@.dependencies[m].0),
            decreases self.dependencies.len() - k,
        {
            assert(self@.dependencies[k as int] == (
                self.dependencies@[k as int].0@,
                self.dependencies@[k as int].1@,
            ));
            if str_eq(self.dependencies[k].1.as_str(), id) && !contains_str(
                placed,
                self.dependencies[k].0.as_str(),
            ) {
                assert(self@.dependencies[k as int].1 == id@);
                assert(!ready(self@, strings_view(placed@), id@));
                return false;
            }
            k = k + 1;
        }
        true
    }

    /// Parameters in an order that evaluates every parameter after those it
    /// depends on: repeatedly the first ready parameter in insertion order.
    /// A dependency cycle is a `Validation` error.
    pub fn evaluation_order(&self) -> (r: Result<Vec<String>, CadError>)
        requires
            self.wf(),
        ensures
            match evaluation_order_spec(self@) {
                Some(order) => r matches Ok(ids) && strings_view(ids@) == order,
                None => r matches Err(e) && e is Validation,
            },
    {
        let ghost g = self@;
        let n = self.entries.len();
        let mut placed: Vec<String> = Vec::new();
        let mut fuel = n;
        assert(strings_view(placed@) =~= Seq::<Seq<char>>::empty());
        loop
            invariant
                g == self@,
                n == g.entries.len(),
                fuel <= n,
                evaluation_order_spec(g) == greedy_order(g, strings_view(placed@), fuel as nat),
            decreases fuel,
        {
            let mut complete = true;
            let mut k: usize = 0;
            while k < n
                invariant
                    g == self@,
                    n == g.entries.len(),
                    k <= n,
                    complete == forall|m: int| 0 <= m < k ==> strings_view(placed@).contains(
                        #[trigger] g.entries[m].0,
                    ),
                decreases n - k,
            {
                assert(g.entries[k as int].0 == self.entries@[k as int].id@);
                if !contains_str(&placed, self.entries[k].id.as_str()) {
                    complete = false;
                }
                k = k + 1;
            }
            if complete {
                return Ok(placed);
            }
            if fuel == 0 {
                return Err(CadError::Validation("parameter dependency cycle".to_owned()));
            }
            let mut i: usize = 0;
            while i < n && !self.is_ready(&placed, self.entries[i].id.as_str())
                invariant
                    g == self@,
                    n == g.entries.len(),
                    i <= n,
                    first_ready(g, strings_view(placed@), 0) == first_ready(
                        g,
                        strings_view(placed@),
                        i as int,
                    ),
                decreases n - i,
            {
                assert(g.entries[i as int].0 == self.entries@[i as int].id@);
                i = i + 1;
            }
            if i == n {
                return Err(CadError::Validation("parameter dependency cycle".to_owned()));
            }
            assert(g.entries[i as int].0 == self.entries@[i as int].id@);
            let ghost before = strings_view(placed@);
            placed.push(self.entries[i].id.clone());
            assert(strings_view(placed@) =~= before.push(g.entries[i as int].0));
            fuel = fuel - 1;
        }
    }
}

/// Does `v` hold the text `s`?
pub fn contains_str(v: &Vec<String>, s: &str) -> (r: bool)
    ensures
        r == strings_view(v@).contains(s@),
{
    let mut i: usize = 0;
    while i < v.len()
        invariant
            i <= v.len(),
            forall|k: int| 0 <= k < i ==> v@[k]@ != s@,
        decreases v.len() - i,
    {
        if str_eq(v[i].as_str(), s) {
            assert(strings_view(v@)[i as int] == s@);
            return true;
        }
        i = i + 1;
    }
    proof {
        if strings_view(v@).contains(s@) {
            let k = strings_view(v@).index_of(s@);
            assert(v@[k]@ == s@);
        }
    }
    false
}

/// `placed` lists parameters of the graph, each once, every one after the
/// parameters it depends on.
pub open spec fn respects_dependencies(g: ParamGraphView, placed: Seq<Seq<char>>) -> bool {
    &&& placed.no_duplicates()
    &&& forall|j: int| 0 <= j < placed.len() ==> ids_of(g.entries).contains(#[trigger] placed[j])
    &&& forall|k: int, j: int|
        0 <= k < g.dependencies.len() && 0 <= j < placed.len() && #[trigger] g.dependencies[k].1
            == #[trigger] placed[j] ==> placed.subrange(0, j).contains(g.dependencies[k].0)
}

proof fn lemma_place_ready(g: ParamGraphView, placed: Seq<Seq<char>>, x: Seq<char>)
    requires
        respects_dependencies(g, placed),
        ready(g, placed, x),
        ids_of(g.entries).contains(x),
    ensures
        respects_dependencies(g, placed.push(x)),
{
    let p2 = placed.push(x);
    assert forall|a: int, b: int| 0 <= a < b < p2.len() implies p2[a] != p2[b] by {
        if b == placed.len() {
            assert(placed.contains(p2[a]));
        }
    }
    assert forall|k: int, j: int|
        0 <= k < g.dependencies.len() && 0 <= j < p2.len() && #[trigger] g.dependencies[k].1
            == #[trigger] p2[j] implies p2.subrange(0, j).contains(g.dependencies[k].0) by {
        if j == placed.len() {
            assert(p2.subrange(0, j) =~= placed);
        } else {
            assert(p2.subrange(0, j) =~= placed.subrange(0, j));
            assert(p2[j] == placed[j]);
        }
    }
}

proof fn lemma_greedy_sound(g: ParamGraphView, placed: Seq<Seq<char>>, fuel: nat)
    requires
        graph_wf(g),
        respects_dependencies(g, placed),
    ensures
        greedy_order(g, placed, fuel) matches Some(o) ==> respects_dependencies(g, o) && all_placed(
            g,
            o,
        ),
    decreases fuel,
{
    if !all_placed(g, placed) && fuel > 0 {
        lemma_first_ready(g, placed, 0);
        if let Some(i) = first_ready(g, placed, 0) {
            let x = g.entries[i].0;
            assert(ids_of(g.entries)[i] == x);
            lemma_place_ready(g, placed, x);
            lemma_greedy_sound(g, placed.push(x), (fuel - 1) as nat);
        }
    }
}

/// The parameters not yet placed, each of which waits on another one of them.
pub open spec fn waiting_cycle(g: ParamGraphView, rest: Set<Seq<char>>) -> bool {
    &&& exists|x: Seq<char>| rest.contains(x)
    &&& forall|x: Seq<char>| #[trigger] rest.contains(x) ==> ids_of(g.entries).contains(x)
    &&& forall|x: Seq<char>| #[trigger] rest.contains(x) ==> exists|k: int|
        0 <= k < g.dependencies.len() && g.dependencies[k].1 == x && rest.contains(
            #[trigger] g.dependencies[k].0,
        )
}

proof fn lemma_greedy_stuck(g: ParamGraphView, placed: Seq<Seq<char>>, fuel: nat)
    requires
        graph_wf(g),
        respects_dependencies(g, placed),
        placed.len() + fuel == g.entries.len(),
    ensures
        greedy_order(g, placed, fuel) is None ==> exists|rest: Set<Seq<char>>| waiting_cycle(g, rest),
    decreases fuel,
{
    if all_placed(g, placed) {
        return;
    }
    let k0 = choose|k: int| 0 <= k < g.entries.len() && !placed.contains(#[trigger] g.entries[k].0);
    let y = g.entries[k0].0;
    if fuel == 0 {
        // `placed` already lists as many distinct parameters as the graph has.
        let ids = ids_of(g.entries);
        let p2 = placed.push(y);
        assert(p2.no_duplicates()) by {
            assert forall|a: int, b: int| 0 <= a < b < p2.len() implies p2[a] != p2[b] by {
                if b == placed.len() {
                    assert(placed.contains(p2[a]));
                }
            }
        }
        assert(ids[k0] == y);
        assert(p2.to_set().subset_of(ids.to_set())) by {
            assert forall|e: Seq<char>| p2.to_set().contains(e) implies ids.to_set().contains(e) by {
                assert(p2.contains(e));
                let j = p2.index_of(e);
                if j < placed.len() {
                    assert(placed[j] == e);
                }
            }
        }
        p2.unique_seq_to_set();
        ids.unique_seq_to_set();
        vstd::set_lib::lemma_len_subset(p2.to_set(), ids.to_set());
        assert(false);
    } else {
        lemma_first_ready(g, placed, 0);
        match first_ready(g, placed, 0) {
            Some(i) => {
                let x = g.entries[i].0;
                assert(ids_of(g.entries)[i] == x);
                lemma_place_ready(g, placed, x);
                lemma_greedy_stuck(g, placed.push(x), (fuel - 1) as nat);
            },
            None => {
                let ids = ids_of(g.entries);
                let rest = Set::new(|x: Seq<char>| ids.contains(x) && !placed.contains(x));
                assert(ids[k0] == y);
                assert(rest.contains(y));
                assert forall|x: Seq<char>| #[trigger] rest.contains(x) implies exists|k: int|
                    0 <= k < g.dependencies.len() && g.dependencies[k].1 == x && rest.contains(
                        #[trigger] g.dependencies[k].0,
                    ) by {
                    let e = ids.index_of(x);
                    assert(g.entries[e].0 == x);
                    assert(!ready(g, placed, x));
                    let k = choose|k: int|
                        0 <= k < g.dependencies.len() && #[trigger] g.dependencies[k].1 == x
                            && !placed.contains(g.dependencies[k].0);
                    assert(ids.contains(g.dependencies[k].0));
                    assert(rest.contains(g.dependencies[k].0));
                }
                assert(waiting_cycle(g, rest));
            },
        }
    }
}

/// Law of the evaluation order: when it exists it lists every parameter of
/// the graph exactly once, and every dependency `(from, to)` has `from`
/// listed before `to`.
pub proof fn law_evaluation_order_is_topological(g: ParamGraphView)
    requires
        graph_wf(g),
    ensures
        evaluation_order_spec(g) matches Some(o) ==> {
            &&& o.no_duplicates()
            &&& forall|id: Seq<char>| #[trigger] o.contains(id) <==> ids_of(g.entries).contains(id)
            &&& forall|k: int|
                0 <= k < g.dependencies.len() ==> exists|i: int, j: int|
                    0 <= i < j < o.len() && o[i] == #[trigger] g.dependencies[k].0 && o[j]
                        == g.dependencies[k].1
        },
{
    let empty = Seq::<Seq<char>>::empty();
    lemma_greedy_sound(g, empty, g.entries.len());
    if let Some(o) = evaluation_order_spec(g) {
        assert forall|id: Seq<char>| #[trigger] o.contains(id) <==> ids_of(g.entries).contains(id) by {
            if ids_of(g.entries).contains(id) {
                let e = ids_of(g.entries).index_of(id);
                assert(g.entries[e].0 == id);
            }
            if o.contains(id) {
                let j = o.index_of(id);
                assert(o[j] == id);
            }
        }
        assert forall|k: int| 0 <= k < g.dependencies.len() implies exists|i: int, j: int|
            0 <= i < j < o.len() && o[i] == #[trigger] g.dependencies[k].0 && o[j]
                == g.dependencies[k].1 by {
            let to = g.dependencies[k].1;
            assert(ids_of(g.entries).contains(g.dependencies[k].0));
            assert(ids_of(g.entries).contains(to));
            assert(o.contains(to));
            let j = o.index_of(to);
            assert(o[j] == to);
            assert(o.subrange(0, j).contains(g.dependencies[k].0));
            let i = o.subrange(0, j).index_of(g.dependencies[k].0);
            assert(o[i] == g.dependencies[k].0);
        }
    }
}

/// Law of the evaluation order: it fails only when a non-empty set of
/// parameters wait on one another -- each of them depends on another member.
pub proof fn law_failed_order_has_waiting_cycle(g: ParamGraphView)
    requires
        graph_wf(g),
    ensures
        evaluation_order_spec(g) is None ==> exists|rest: Set<Seq<char>>| waiting_cycle(g, rest),
{
    lemma_greedy_stuck(g, Seq::<Seq<char>>::empty(), g.entries.len());
}

} // verus!
