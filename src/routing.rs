use vstd::prelude::*;

verus! {

/// What a list of target addresses stands for: the characters of each.
pub open spec fn urls_view(v: Seq<String>) -> Seq<Seq<char>> {
    v.map_values(|s: String| s@)
}

/// How many times `x` occurs in `s`.
pub open spec fn count_of(s: Seq<Seq<char>>, x: Seq<char>) -> nat
    decreases s.len(),
{
    if s.len() == 0 {
        0
    } else {
        count_of(s.drop_last(), x) + if s.last() == x { 1nat } else { 0nat }
    }
}

/// `s` without any occurrence of `x`, the rest in its order.
pub open spec fn without(s: Seq<Seq<char>>, x: Seq<char>) -> Seq<Seq<char>>
    decreases s.len(),
{
    if s.len() == 0 {
        s
    } else if s.last() == x {
        without(s.drop_last(), x)
    } else {
        without(s.drop_last(), x).push(s.last())
    }
}

proof fn lemma_without_counts(s: Seq<Seq<char>>, x: Seq<char>, y: Seq<char>)
    ensures
        count_of(without(s, x), y) == if y == x {
            0
        } else {
            count_of(s, y)
        },
    decreases s.len(),
{
    if s.len() > 0 {
        lemma_without_counts(s.drop_last(), x, y);
        if s.last() != x {
            assert(without(s, x).drop_last() == without(s.drop_last(), x));
        }
    }
}

/// A copy of `v`, string by string.
pub fn copy_urls(v: &Vec<String>) -> (r: Vec<String>)
    ensures
        urls_view(r@) == urls_view(v@),
{
    let mut r: Vec<String> = Vec::new();
    let mut i: usize = 0;
    while i < v.len()
        invariant
            i <= v@.len(),
            urls_view(r@) == urls_view(v@.subrange(0, i as int)),
        decreases v@.len() - i,
    {
        r.push(v[i].clone());
        assert(urls_view(v@.subrange(0, i + 1)) == urls_view(v@.subrange(0, i as int)).push(
            v@[i as int]@,
        ));
        i = i + 1;
    }
    assert(v@.subrange(0, v@.len() as int) == v@);
    r
}

/// The strings of `v` that differ from `x`, in their order.
fn kept_urls(v: &Vec<String>, x: &str) -> (r: Vec<String>)
    ensures
        urls_view(r@) == without(urls_view(v@), x@),
{
    let mut r: Vec<String> = Vec::new();
    let mut i: usize = 0;
    while i < v.len()
        invariant
            i <= v@.len(),
            urls_view(r@) == without(urls_view(v@.subrange(0, i as int)), x@),
        decreases v@.len() - i,
    {
        let ghost pre = urls_view(v@.subrange(0, i + 1));
        assert(pre.drop_last() == urls_view(v@.subrange(0, i as int)));
        assert(pre.last() == v@[i as int]@);
        if !same_text(v[i].as_str(), x) {
            r.push(v[i].clone());
            assert(urls_view(r@) == without(urls_view(v@.subrange(0, i as int)), x@).push(
                v@[i as int]@,
            ));
        }
        i = i + 1;
    }
    assert(v@.subrange(0, v@.len() as int) == v@);
    r
}

/// Whether two strings hold the same characters.
pub fn same_text(a: &str, b: &str) -> (r: bool)
    ensures
        r == (a@ == b@),
{
    let n: usize = a.unicode_len();
    if n != b.unicode_len() {
        return false;
    }
    let mut i: usize = 0;
    while i < n
        invariant
            n == a@.len() == b@.len(),
            i <= n,
            forall|j: int| 0 <= j < i ==> a@[j] == b@[j],
        decreases n - i,
    {
        if a.get_char(i) != b.get_char(i) {
            return false;
        }
        i = i + 1;
    }
    assert(a@ == b@);
    true
}

/// One route: its identifier and its targets in order of insertion.
pub struct Route {
    pub id: String,
    pub targets: Vec<String>,
}

impl Route {
    pub open spec fn view(&self) -> (Seq<char>, Seq<Seq<char>>) {
        (self.id@, urls_view(self.targets@))
    }
}

/// What a list of routes stands for: each as an (identifier, targets) pair.
pub open spec fn routes_view(v: Seq<Route>) -> Seq<(Seq<char>, Seq<Seq<char>>)> {
    v.map_values(|r: Route| r.view())
}

/// The targets stored under `k`, searching from the last entry.
pub open spec fn lookup(e: Seq<(Seq<char>, Seq<Seq<char>>)>, k: Seq<char>) -> Option<
    Seq<Seq<char>>,
>
    decreases e.len(),
{
    if e.len() == 0 {
        None
    } else if e.last().0 == k {
        Some(e.last().1)
    } else {
        lookup(e.drop_last(), k)
    }
}

/// No two entries share an identifier.
pub open spec fn keys_unique(e: Seq<(Seq<char>, Seq<Seq<char>>)>) -> bool {
    forall|i: int, j: int| 0 <= i < j < e.len() ==> e[i].0 != e[j].0
}

proof fn lemma_lookup_found(e: Seq<(Seq<char>, Seq<Seq<char>>)>, i: int)
    requires
        keys_unique(e),
        0 <= i < e.len(),
    ensures
        lookup(e, e[i].0) == Some(e[i].1),
    decreases e.len(),
{
    if i < e.len() - 1 {
        assert(e.drop_last()[i] == e[i]);
        lemma_lookup_found(e.drop_last(), i);
    }
}

proof fn lemma_lookup_absent(e: Seq<(Seq<char>, Seq<Seq<char>>)>, k: Seq<char>)
    requires
        forall|j: int| 0 <= j < e.len() ==> e[j].0 != k,
    ensures
        lookup(e, k) is None,
    decreases e.len(),
{
    if e.len() > 0 {
        lemma_lookup_absent(e.drop_last(), k);
    }
}

proof fn lemma_lookup_update(
    e: Seq<(Seq<char>, Seq<Seq<char>>)>,
    i: int,
    v: Seq<Seq<char>>,
    k: Seq<char>,
)
    requires
        keys_unique(e),
        0 <= i < e.len(),
    ensures
        lookup(e.update(i, (e[i].0, v)), k) == if k == e[i].0 {
            Some(v)
        } else {
            lookup(e, k)
        },
    decreases e.len(),
{
    let u = e.update(i, (e[i].0, v));
    if i < e.len() - 1 {
        assert(u.drop_last() == e.drop_last().update(i, (e[i].0, v)));
        assert(e.drop_last()[i] == e[i]);
        if e.last().0 != k {
            lemma_lookup_update(e.drop_last(), i, v, k);
        }
    } else {
        assert(u.drop_last() == e.drop_last());
    }
}

/// The routing table: each route identifier with its ordered target list.
/// A route, once created, stays in the table, also when its list has become
/// empty; a lookup treats an empty list as an unknown route.
pub struct RoutingTable {
    pub routes: Vec<Route>,
}

impl RoutingTable {
    pub open spec fn entries(&self) -> Seq<(Seq<char>, Seq<Seq<char>>)> {
        routes_view(self.routes@)
    }

    /// The table as a map from route identifier to target list.
    pub open spec fn view(&self) -> Map<Seq<char>, Seq<Seq<char>>> {
        Map::new(
            |k: Seq<char>| lookup(self.entries(), k) is Some,
            |k: Seq<char>| lookup(self.entries(), k)->0,
        )
    }

    pub open spec fn wf(&self) -> bool {
        keys_unique(self.entries())
    }

    /// The targets of `id`, empty for an unknown route.
    pub open spec fn targets_of(&self, id: Seq<char>) -> Seq<Seq<char>> {
        if self@.contains_key(id) {
            self@[id]
        } else {
            Seq::empty()
        }
    }

    /// An empty table.
    pub fn new() -> (t: RoutingTable)
        ensures
            t.wf(),
            t@ == Map::<Seq<char>, Seq<Seq<char>>>::empty(),
    {
        let t = RoutingTable { routes: Vec::new() };
        assert(t@ == Map::<Seq<char>, Seq<Seq<char>>>::empty());
        t
    }

    /// An independent copy of the table, route by route in the same order.
    pub fn copy(&self) -> (r: RoutingTable)
        requires
            self.wf(),
        ensures
            r.wf(),
            r.entries() == self.entries(),
            r@ == self@,
    {
        let mut routes: Vec<Route> = Vec::new();
        let mut i: usize = 0;
        while i < self.routes.len()
            invariant
                i <= self.routes@.len(),
                routes@.len() == i,
                routes_view(routes@) == self.entries().subrange(0, i as int),
            decreases self.routes@.len() - i,
        {
            let route = Route {
                id: self.routes[i].id.clone(),
                targets: copy_urls(&self.routes[i].targets),
            };
            assert(route.view() == self.entries()[i as int]);
            let ghost prev = routes@;
            routes.push(route);
            assert forall|j: int| 0 <= j < i implies routes_view(routes@)[j] == self.entries()[j] by {
                assert(routes@[j] == prev[j]);
                assert(routes_view(prev)[j] == self.entries()[j]);
            }
            assert(routes_view(routes@) =~= self.entries().subrange(
                0,
                i + 1,
            ));
            i = i + 1;
        }
        assert(self.entries().subrange(0, self.routes@.len() as int) =~= self.entries());
        let r = RoutingTable { routes };
        assert(r@ == self@);
        r
    }

    /// Position of the route `id`, if the table has it.
    fn find(&self, id: &str) -> (r: Option<usize>)
        requires
            self.wf(),
        ensures
            match r {
                Some(i) => i < self.routes@.len() && self.routes@[i as int].id@ == id@
                    && self@.contains_key(id@) && self@[id@] == self.entries()[i as int].1,
                None => !self@.contains_key(id@),
            },
    {
        let mut i: usize = 0;
        while i < self.routes.len()
            invariant
                self.wf(),
                i <= self.routes@.len(),
                forall|j: int| 0 <= j < i ==> self.entries()[j].0 != id@,
            decreases self.routes@.len() - i,
        {
            if same_text(self.routes[i].id.as_str(), id) {
                proof {
                    lemma_lookup_found(self.entries(), i as int);
                }
                return Some(i);
            }
            i = i + 1;
        }
        proof {
            lemma_lookup_absent(self.entries(), id@);
        }
        None
    }

    /// Replaces the list at position `i` with `targets`.
    fn replace_at(&mut self, i: usize, targets: Vec<String>)
        requires
            old(self).wf(),
            i < old(self).routes@.len(),
        ensures
            final(self).wf(),
            final(self)@ == old(self)@.insert(
                old(self).entries()[i as int].0,
                urls_view(targets@),
            ),
    {
        let ghost e = self.entries();
        let ghost k = e[i as int].0;
        let mut route = self.routes.remove(i);
        route.targets = targets;
        self.routes.insert(i, route);
        proof {
            assert(self.entries() == e.update(i as int, (k, urls_view(targets@))));
            assert forall|q: Seq<char>|
                lookup(self.entries(), q) == if q == k {
                    Some(urls_view(targets@))
                } else {
                    lookup(e, q)
                } by {
                lemma_lookup_update(e, i as int, urls_view(targets@), q);
            }
            assert(self@ == old(self)@.insert(k, urls_view(targets@)));
        }
    }

    /// Appends `route` as a new entry; `id` is not yet in the table.
    fn push_route(&mut self, id: &str, targets: Vec<String>)
        requires
            old(self).wf(),
            !old(self)@.contains_key(id@),
        ensures
            final(self).wf(),
            final(self)@ == old(self)@.insert(id@, urls_view(targets@)),
    {
        let ghost e = self.entries();
        proof {
            assert forall|j: int| 0 <= j < e.len() implies e[j].0 != id@ by {
                if e[j].0 == id@ {
                    lemma_lookup_found(e, j);
                }
            }
        }
        self.routes.push(Route { id: id.to_owned(), targets });
        proof {
            assert(self.entries() == e.push((id@, urls_view(targets@))));
            assert(self.entries().drop_last() == e);
            assert(self@ == old(self)@.insert(id@, urls_view(targets@)));
        }
    }

    /// Appends `target` to the list of route `id`, creating the route if it
    /// is new. Adding a target that is already there adds a second copy.
    pub fn add(&mut self, id: &str, target: &str)
        requires
            old(self).wf(),
        ensures
            final(self).wf(),
            final(self)@ == old(self)@.insert(id@, old(self).targets_of(id@).push(target@)),
    {
        match self.find(id) {
            Some(i) => {
                let mut targets = copy_urls(&self.routes[i].targets);
                targets.push(target.to_owned());
                assert(urls_view(targets@) == old(self).targets_of(id@).push(target@));
                self.replace_at(i, targets);
            },
            None => {
                let mut targets: Vec<String> = Vec::new();
                targets.push(target.to_owned());
                assert(urls_view(targets@) == seq![target@]);
                assert(old(self).targets_of(id@).push(target@) == seq![target@]);
                self.push_route(id, targets);
            },
        }
    }

    /// Takes every occurrence of `target` out of the list of route `id`; the
    /// other targets keep their order. Nothing changes for an unknown route.
    /// The route stays in the table, also when its list becomes empty.
    pub fn remove(&mut self, id: &str, target: &str)
        requires
            old(self).wf(),
        ensures
            final(self).wf(),
            final(self)@ == if old(self)@.contains_key(id@) {
                old(self)@.insert(id@, without(old(self)@[id@], target@))
            } else {
                old(self)@
            },
    {
        match self.find(id) {
            Some(i) => {
                let targets = kept_urls(&self.routes[i].targets, target);
                self.replace_at(i, targets);
            },
            None => {},
        }
    }

    /// Sets the whole list of route `id`, creating the route if it is new.
    pub fn set_targets(&mut self, id: &str, targets: Vec<String>)
        requires
            old(self).wf(),
        ensures
            final(self).wf(),
            final(self)@ == old(self)@.insert(id@, urls_view(targets@)),
    {
        match self.find(id) {
            Some(i) => self.replace_at(i, targets),
            None => self.push_route(id, targets),
        }
    }

    /// A copy of the list of route `id`, in order; empty for an unknown route.
    pub fn list(&self, id: &str) -> (r: Vec<String>)
        requires
            self.wf(),
        ensures
            urls_view(r@) == self.targets_of(id@),
    {
        match self.find(id) {
            Some(i) => copy_urls(&self.routes[i].targets),
            None => Vec::new(),
        }
    }

    /// The list that a dispatch works on: a consistent copy, as `list` gives.
    pub fn snapshot_for_dispatch(&self, id: &str) -> (r: Vec<String>)
        requires
            self.wf(),
        ensures
            urls_view(r@) == self.targets_of(id@),
    {
        self.list(id)
    }
}

/// Adding `target` to route `id` and then listing the route gives the old
/// list with `target` once more at its end: one more occurrence of `target`,
/// the same number of every other address.
pub proof fn add_then_list(before: RoutingTable, after: RoutingTable, id: Seq<char>, target: Seq<char>)
    requires
        before.wf(),
        after@ == before@.insert(id, before.targets_of(id).push(target)),
    ensures
        after.targets_of(id) == before.targets_of(id).push(target),
        count_of(after.targets_of(id), target) == count_of(before.targets_of(id), target) + 1,
        forall|u: Seq<char>|
            u != target ==> count_of(after.targets_of(id), u) == count_of(before.targets_of(id), u),
{
    assert(after.targets_of(id).drop_last() == before.targets_of(id));
}

/// Removing `target` from route `id` and then listing the route gives the old
/// list without any occurrence of `target`, the other addresses all kept in
/// their order and number.
pub proof fn remove_then_list(before: RoutingTable, after: RoutingTable, id: Seq<char>, target: Seq<char>)
    requires
        before.wf(),
        after@ == if before@.contains_key(id) {
            before@.insert(id, without(before@[id], target))
        } else {
            before@
        },
    ensures
        after.targets_of(id) == without(before.targets_of(id), target),
        count_of(after.targets_of(id), target) == 0,
        forall|u: Seq<char>|
            u != target ==> count_of(after.targets_of(id), u) == count_of(before.targets_of(id), u),
{
    assert(without(Seq::<Seq<char>>::empty(), target) == Seq::<Seq<char>>::empty());
    assert forall|u: Seq<char>|
        count_of(without(before.targets_of(id), target), u) == if u == target {
            0
        } else {
            count_of(before.targets_of(id), u)
        } by {
        lemma_without_counts(before.targets_of(id), target, u);
    }
}

} // verus!
