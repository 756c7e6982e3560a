//! The route table: registered routes, grouped by method and path shape, and
//! the lookup of the candidates for a request in the order of their ranks.

use crate::guard::{Guard, GuardView};
use crate::matcher::{QuerySpec, QuerySpecView};
use crate::pattern::{
    default_rank_of, lemma_same_shape_accepts, same_shape, shape_accepts, PathPattern, SegmentView,
};
use crate::request::{Method, Piece, PieceView};
use vstd::prelude::*;

verus! {

/// A route as it is declared.
#[derive(Debug, PartialEq, Eq)]
pub struct Route {
    pub method: Method,
    pub pattern: PathPattern,
    pub query: QuerySpec,
    /// The rank, where the route declares one.
    pub rank: Option<i64>,
    pub guards: Vec<Guard>,
    /// The handler that answers the requests that the route takes.
    pub handler: u32,
}

/// The mathematical model of a [`Route`].
pub struct RouteView {
    pub method: Method,
    pub pattern: Seq<SegmentView>,
    pub query: QuerySpecView,
    pub rank: Option<i64>,
    pub guards: Seq<GuardView>,
    pub handler: u32,
}

impl DeepView for Route {
    type V = RouteView;

    open spec fn deep_view(&self) -> RouteView {
        RouteView {
            method: self.method,
            pattern: self.pattern@,
            query: self.query@,
            rank: self.rank,
            guards: self.guards.deep_view(),
            handler: self.handler,
        }
    }
}

impl View for Route {
    type V = RouteView;

    open spec fn view(&self) -> RouteView {
        self.deep_view()
    }
}

impl Route {
    /// A route without query parameters, guards or a rank of its own.
    pub fn new(method: Method, pattern: PathPattern, handler: u32) -> (route: Route)
        ensures
            route@ == (RouteView {
                method,
                pattern: pattern@,
                query: QuerySpecView { params: Seq::empty(), bundle: None },
                rank: None,
                guards: Seq::empty(),
                handler,
            }),
    {
        let guards: Vec<Guard> = Vec::new();
        let route = Route { method, pattern, query: QuerySpec::none(), rank: None, guards, handler };
        proof {
            assert(route.guards.deep_view() =~= Seq::<GuardView>::empty());
        }
        route
    }

    /// This route with a rank of its own.
    pub fn ranked(self, rank: i64) -> (route: Route)
        ensures
            route@ == (RouteView { rank: Some(rank), ..self@ }),
    {
        let mut route = self;
        route.rank = Some(rank);
        route
    }

    /// This route with `query` as what it declares of the query string.
    pub fn with_query(self, query: QuerySpec) -> (route: Route)
        ensures
            route@ == (RouteView { query: query@, ..self@ }),
    {
        let mut route = self;
        route.query = query;
        route
    }

    /// This route with one more guard.
    pub fn guarded(self, guard: Guard) -> (route: Route)
        ensures
            route@ == (RouteView { guards: self@.guards.push(guard@), ..self@ }),
    {
        let mut route = self;
        let ghost model = guard@;
        route.guards.push(guard);
        proof {
            assert(route.guards.deep_view() =~= self@.guards.push(model));
        }
        route
    }
}

/// A registered route: the route, the rank under which it is tried and its
/// place in the order of declaration.
#[derive(Debug, PartialEq, Eq)]
pub struct Candidate {
    route: Route,
    rank: i64,
    order: usize,
}

/// The mathematical model of a [`Candidate`].
pub struct CandidateView {
    pub route: RouteView,
    pub rank: i64,
    pub order: usize,
}

impl DeepView for Candidate {
    type V = CandidateView;

    closed spec fn deep_view(&self) -> CandidateView {
        CandidateView { route: self.route@, rank: self.rank, order: self.order }
    }
}

impl View for Candidate {
    type V = CandidateView;

    open spec fn view(&self) -> CandidateView {
        self.deep_view()
    }
}

impl Candidate {
    pub fn route(&self) -> (route: &Route)
        ensures
            route@ == self@.route,
    {
        &self.route
    }

    pub fn rank(&self) -> (rank: i64)
        ensures
            rank == self@.rank,
    {
        self.rank
    }

    pub fn order(&self) -> (order: usize)
        ensures
            order == self@.order,
    {
        self.order
    }
}

/// The rank under which a route is tried: its own where it declares one,
/// else the default rank of its pattern.
pub open spec fn rank_of(route: RouteView) -> i64 {
    match route.rank {
        Some(rank) => rank,
        None => default_rank_of(route.pattern),
    }
}

/// `a` is tried before `b`: it has the lower rank, or the same rank and was
/// declared earlier.
pub open spec fn ahead(a: CandidateView, b: CandidateView) -> bool {
    a.rank < b.rank || (a.rank == b.rank && a.order < b.order)
}

/// Each candidate is tried before all that follow it.
pub open spec fn ranked(c: Seq<CandidateView>) -> bool {
    forall|i: int, j: int| 0 <= i < j < c.len() ==> ahead(#[trigger] c[i], #[trigger] c[j])
}

/// The candidate takes requests of this method and of a path of this shape.
pub open spec fn accepts(c: CandidateView, method: Method, path: Seq<PieceView>) -> bool {
    c.route.method == method && shape_accepts(c.route.pattern, path)
}

/// `c` is the list of candidates for a request: exactly the registered
/// routes that accept it, each once, in the order of rank and declaration.
pub open spec fn is_lookup(
    declared: Seq<CandidateView>,
    method: Method,
    path: Seq<PieceView>,
    c: Seq<CandidateView>,
) -> bool {
    &&& ranked(c)
    &&& forall|j: int|
        0 <= j < c.len() ==> {
            &&& 0 <= (#[trigger] c[j]).order < declared.len()
            &&& declared[c[j].order as int] == c[j]
            &&& accepts(c[j], method, path)
        }
    &&& forall|i: int|
        0 <= i < declared.len() && accepts(#[trigger] declared[i], method, path) ==> c.contains(
            declared[i],
        )
}

/// `list` with `c` put before the first candidate that `c` is tried before.
pub open spec fn placed(list: Seq<CandidateView>, c: CandidateView) -> Seq<CandidateView>
    decreases list.len(),
{
    if list.len() == 0 {
        seq![c]
    } else if ahead(c, list[0]) {
        seq![c] + list
    } else {
        seq![list[0]] + placed(list.skip(1), c)
    }
}

/// The candidates for a request among the first `n` declared routes: those
/// that accept it, each put at its place in the order of rank and
/// declaration.
pub open spec fn lookup_among(
    declared: Seq<CandidateView>,
    method: Method,
    path: Seq<PieceView>,
    n: int,
) -> Seq<CandidateView>
    decreases n,
{
    if n <= 0 || n > declared.len() {
        Seq::empty()
    } else if accepts(declared[n - 1], method, path) {
        placed(lookup_among(declared, method, path, n - 1), declared[n - 1])
    } else {
        lookup_among(declared, method, path, n - 1)
    }
}

/// A candidate put at its place into a list in order leaves the list in
/// order, and adds itself and nothing else.
pub proof fn lemma_placed(list: Seq<CandidateView>, c: CandidateView)
    requires
        ranked(list),
        forall|j: int| 0 <= j < list.len() ==> (#[trigger] list[j]).order != c.order,
    ensures
        ranked(placed(list, c)),
        placed(list, c).contains(c),
        forall|x: CandidateView|
            #![trigger placed(list, c).contains(x)]
            #![trigger list.contains(x)]
            placed(list, c).contains(x) <==> (list.contains(x) || x == c),
    decreases list.len(),
{
    let out = placed(list, c);
    if list.len() == 0 {
        assert(out[0] == c);
        assert forall|x: CandidateView| out.contains(x) <==> (list.contains(x) || x == c) by {
            if out.contains(x) {
                let k = choose|k: int| 0 <= k < out.len() && out[k] == x;
                assert(out[k] == c);
            }
        }
    } else if ahead(c, list[0]) {
        assert forall|i: int, j: int| 0 <= i < j < out.len() implies ahead(
            #[trigger] out[i],
            #[trigger] out[j],
        ) by {
            assert(out[j] == list[j - 1]);
            if i == 0 {
                if j - 1 > 0 {
                    assert(ahead(list[0], list[j - 1]));
                }
            } else {
                assert(out[i] == list[i - 1]);
            }
        }
        assert forall|x: CandidateView| out.contains(x) <==> (list.contains(x) || x == c) by {
            if out.contains(x) {
                let k = choose|k: int| 0 <= k < out.len() && out[k] == x;
                if k > 0 {
                    assert(list[k - 1] == x);
                }
            }
            if list.contains(x) {
                let k = choose|k: int| 0 <= k < list.len() && list[k] == x;
                assert(out[k + 1] == x);
            }
            if x == c {
                assert(out[0] == x);
            }
        }
    } else {
        let tail = list.skip(1);
        let sub = placed(tail, c);
        assert(ranked(tail)) by {
            assert forall|i: int, j: int| 0 <= i < j < tail.len() implies ahead(
                #[trigger] tail[i],
                #[trigger] tail[j],
            ) by {
                assert(tail[i] == list[i + 1] && tail[j] == list[j + 1]);
            }
        }
        assert forall|j: int| 0 <= j < tail.len() implies (#[trigger] tail[j]).order != c.order by {
            assert(tail[j] == list[j + 1]);
        }
        lemma_placed(tail, c);
        assert(list[0].order != c.order);
        assert forall|i: int, j: int| 0 <= i < j < out.len() implies ahead(
            #[trigger] out[i],
            #[trigger] out[j],
        ) by {
            assert(out[j] == sub[j - 1]);
            if i == 0 {
                assert(out[0] == list[0]);
                assert(sub.contains(sub[j - 1]));
                if tail.contains(sub[j - 1]) {
                    let k = choose|k: int| 0 <= k < tail.len() && tail[k] == sub[j - 1];
                    assert(tail[k] == list[k + 1]);
                    assert(ahead(list[0], list[k + 1]));
                }
            } else {
                assert(out[i] == sub[i - 1]);
            }
        }
        assert forall|x: CandidateView| out.contains(x) <==> (list.contains(x) || x == c) by {
            if out.contains(x) {
                let k = choose|k: int| 0 <= k < out.len() && out[k] == x;
                if k == 0 {
                    assert(list[0] == x);
                } else {
                    assert(sub[k - 1] == x);
                    assert(sub.contains(x));
                    if tail.contains(x) {
                        let m = choose|m: int| 0 <= m < tail.len() && tail[m] == x;
                        assert(list[m + 1] == x);
                    }
                }
            }
            if list.contains(x) {
                let k = choose|k: int| 0 <= k < list.len() && list[k] == x;
                if k == 0 {
                    assert(out[0] == x);
                } else {
                    assert(tail[k - 1] == x);
                    assert(tail.contains(x));
                    assert(placed(tail, c).contains(x));
                    let m = choose|m: int| 0 <= m < sub.len() && sub[m] == x;
                    assert(out[m + 1] == x);
                }
            }
            if x == c {
                assert(placed(tail, c).contains(c));
                let m = choose|m: int| 0 <= m < sub.len() && sub[m] == x;
                assert(out[m + 1] == x);
            }
        }
    }
}

/// Among routes that stand at their places in the order of declaration,
/// the candidates for a request are in the order of rank and declaration and
/// are exactly the routes that accept the request.
pub proof fn lemma_lookup_among(
    declared: Seq<CandidateView>,
    method: Method,
    path: Seq<PieceView>,
    n: int,
)
    requires
        0 <= n <= declared.len(),
        forall|i: int| 0 <= i < declared.len() ==> (#[trigger] declared[i]).order == i,
    ensures
        is_lookup(declared.take(n), method, path, lookup_among(declared, method, path, n)),
    decreases n,
{
    let now = lookup_among(declared, method, path, n);
    if n > 0 {
        let before = lookup_among(declared, method, path, n - 1);
        let c = declared[n - 1];
        lemma_lookup_among(declared, method, path, n - 1);
        assert forall|j: int| 0 <= j < before.len() implies (#[trigger] before[j]).order
            != c.order by {
            assert(before[j].order < declared.take(n - 1).len());
        }
        if accepts(c, method, path) {
            lemma_placed(before, c);
        }
        assert forall|j: int| 0 <= j < now.len() implies {
            &&& 0 <= (#[trigger] now[j]).order < declared.take(n).len()
            &&& declared.take(n)[now[j].order as int] == now[j]
            &&& accepts(now[j], method, path)
        } by {
            assert(now.contains(now[j]));
            if before.contains(now[j]) {
                let k = choose|k: int| 0 <= k < before.len() && before[k] == now[j];
                assert(declared.take(n - 1)[before[k].order as int] == before[k]);
            }
        }
        assert forall|i: int|
            0 <= i < declared.take(n).len() && accepts(
                #[trigger] declared.take(n)[i],
                method,
                path,
            ) implies now.contains(declared.take(n)[i]) by {
            if i < n - 1 {
                assert(declared.take(n - 1)[i] == declared.take(n)[i]);
                assert(before.contains(declared.take(n - 1)[i]));
                if accepts(c, method, path) {
                    assert(placed(before, c).contains(declared.take(n)[i]));
                }
            } else {
                assert(declared.take(n)[i] == c);
                assert(placed(before, c).contains(c));
            }
        }
    }
}

/// Two lists in the order of rank and declaration that hold the same
/// candidates are the same list.
pub proof fn ranked_lists_of_same_candidates_agree(a: Seq<CandidateView>, b: Seq<CandidateView>)
    requires
        ranked(a),
        ranked(b),
        forall|x: CandidateView| a.contains(x) <==> b.contains(x),
    ensures
        a == b,
    decreases a.len(),
{
    if a.len() == 0 {
        if b.len() > 0 {
            assert(b.contains(b[0]));
        }
        assert(a =~= b);
    } else {
        assert(a.contains(a[0]));
        assert(b.contains(a[0]));
        assert(b.contains(b[0]));
        assert(a.contains(b[0]));
        let j = choose|j: int| 0 <= j < b.len() && b[j] == a[0];
        let i = choose|i: int| 0 <= i < a.len() && a[i] == b[0];
        if j > 0 && i > 0 {
            assert(ahead(b[0], b[j]));
            assert(ahead(a[0], a[i]));
        }
        assert(a[0] == b[0]);
        let ta = a.skip(1);
        let tb = b.skip(1);
        assert(ranked(ta)) by {
            assert forall|p: int, q: int| 0 <= p < q < ta.len() implies ahead(
                #[trigger] ta[p],
                #[trigger] ta[q],
            ) by {
                assert(ta[p] == a[p + 1] && ta[q] == a[q + 1]);
            }
        }
        assert(ranked(tb)) by {
            assert forall|p: int, q: int| 0 <= p < q < tb.len() implies ahead(
                #[trigger] tb[p],
                #[trigger] tb[q],
            ) by {
                assert(tb[p] == b[p + 1] && tb[q] == b[q + 1]);
            }
        }
        assert forall|x: CandidateView| ta.contains(x) <==> tb.contains(x) by {
            if ta.contains(x) {
                let k = choose|k: int| 0 <= k < ta.len() && ta[k] == x;
                assert(a[k + 1] == x);
                assert(ahead(a[0], a[k + 1]));
                assert(a.contains(x));
                let m = choose|m: int| 0 <= m < b.len() && b[m] == x;
                assert(m > 0);
                assert(tb[m - 1] == x);
            }
            if tb.contains(x) {
                let k = choose|k: int| 0 <= k < tb.len() && tb[k] == x;
                assert(b[k + 1] == x);
                assert(ahead(b[0], b[k + 1]));
                assert(b.contains(x));
                let m = choose|m: int| 0 <= m < a.len() && a[m] == x;
                assert(m > 0);
                assert(ta[m - 1] == x);
            }
        }
        ranked_lists_of_same_candidates_agree(ta, tb);
        assert(a =~= seq![a[0]] + ta);
        assert(b =~= seq![b[0]] + tb);
    }
}

/// A request has one list of candidates.
pub proof fn lookup_is_unique(
    declared: Seq<CandidateView>,
    method: Method,
    path: Seq<PieceView>,
    a: Seq<CandidateView>,
    b: Seq<CandidateView>,
)
    requires
        is_lookup(declared, method, path, a),
        is_lookup(declared, method, path, b),
    ensures
        a == b,
{
    assert forall|x: CandidateView| a.contains(x) <==> b.contains(x) by {
        if a.contains(x) {
            let k = choose|k: int| 0 <= k < a.len() && a[k] == x;
            assert(declared[a[k].order as int] == x);
        }
        if b.contains(x) {
            let k = choose|k: int| 0 <= k < b.len() && b[k] == x;
            assert(declared[b[k].order as int] == x);
        }
    }
    ranked_lists_of_same_candidates_agree(a, b);
}

/// The routes of one method and one path shape, in the order of rank and
/// declaration.
pub struct RouteGroup {
    routes: Vec<Candidate>,
}

impl DeepView for RouteGroup {
    type V = Seq<CandidateView>;

    closed spec fn deep_view(&self) -> Seq<CandidateView> {
        self.routes.deep_view()
    }
}

impl View for RouteGroup {
    type V = Seq<CandidateView>;

    open spec fn view(&self) -> Seq<CandidateView> {
        self.deep_view()
    }
}

/// Two candidates belong to one group.
spec fn same_key(a: CandidateView, b: CandidateView) -> bool {
    a.route.method == b.route.method && same_shape(a.route.pattern, b.route.pattern)
}

/// The groups hold the declared routes, each once and at its place, every
/// group in the order of rank and declaration and of one method and shape.
spec fn consistent(
    grid: Seq<Seq<CandidateView>>,
    declared: Seq<CandidateView>,
    place: Seq<(int, int)>,
) -> bool {
    &&& place.len() == declared.len()
    &&& forall|i: int|
        0 <= i < declared.len() ==> (#[trigger] declared[i]).order == i && declared[i].rank
            == rank_of(declared[i].route)
    &&& forall|i: int|
        0 <= i < declared.len() ==> {
            let g = (#[trigger] place[i]).0;
            let k = place[i].1;
            0 <= g < grid.len() && 0 <= k < grid[g].len() && grid[g][k] == declared[i]
        }
    &&& forall|g: int, k: int|
        0 <= g < grid.len() && 0 <= k < grid[g].len() ==> {
            &&& 0 <= (#[trigger] grid[g][k]).order < declared.len()
            &&& place[grid[g][k].order as int] == (g, k)
            &&& same_key(grid[g][k], grid[g][0])
        }
    &&& forall|g: int| 0 <= g < grid.len() ==> (#[trigger] grid[g]).len() > 0 && ranked(grid[g])
}

/// The places of the declared routes once a route was put into group `g` at
/// position `at`.
spec fn place_after_insert(place: Seq<(int, int)>, g: int, at: int) -> Seq<(int, int)> {
    Seq::new(
        place.len() + 1,
        |i: int|
            if i == place.len() {
                (g, at)
            } else if place[i].0 == g && place[i].1 >= at {
                (place[i].0, place[i].1 + 1)
            } else {
                place[i]
            },
    )
}

/// A route put into a list in order, behind the routes of no higher a rank
/// that were declared before it, leaves the list in order.
proof fn lemma_insert_keeps_ranked(row: Seq<CandidateView>, at: int, model: CandidateView)
    requires
        ranked(row),
        0 <= at <= row.len(),
        forall|j: int| 0 <= j < row.len() ==> (#[trigger] row[j]).order < model.order,
        forall|j: int| 0 <= j < at ==> (#[trigger] row[j]).rank <= model.rank,
        at < row.len() ==> row[at].rank > model.rank,
    ensures
        ranked(row.insert(at, model)),
{
    let new_row = row.insert(at, model);
    assert forall|i: int, j: int| 0 <= i < j < new_row.len() implies ahead(
        #[trigger] new_row[i],
        #[trigger] new_row[j],
    ) by {
        if j < at {
            assert(new_row[i] == row[i] && new_row[j] == row[j]);
        } else if j == at {
            assert(new_row[i] == row[i]);
        } else if i < at {
            assert(new_row[i] == row[i] && new_row[j] == row[j - 1]);
        } else if i == at {
            assert(new_row[j] == row[j - 1]);
            if j - 1 > at {
                assert(ahead(row[at], row[j - 1]));
            }
        } else {
            assert(new_row[i] == row[i - 1] && new_row[j] == row[j - 1]);
        }
    }
}

/// A table stays in order when a newly declared route is put at its place
/// into the group of its method and shape.
proof fn lemma_insert_keeps_consistent(
    grid: Seq<Seq<CandidateView>>,
    declared: Seq<CandidateView>,
    place: Seq<(int, int)>,
    g: int,
    at: int,
    model: CandidateView,
)
    requires
        consistent(grid, declared, place),
        0 <= g < grid.len(),
        0 <= at <= grid[g].len(),
        model.order == declared.len(),
        model.rank == rank_of(model.route),
        same_key(model, grid[g][0]),
        forall|j: int| 0 <= j < at ==> (#[trigger] grid[g][j]).rank <= model.rank,
        at < grid[g].len() ==> grid[g][at].rank > model.rank,
    ensures
        consistent(
            grid.update(g, grid[g].insert(at, model)),
            declared.push(model),
            place_after_insert(place, g, at),
        ),
{
    let row = grid[g];
    let new_row = row.insert(at, model);
    let new_grid = grid.update(g, new_row);
    let new_declared = declared.push(model);
    let new_place = place_after_insert(place, g, at);
    assert forall|j: int| 0 <= j < row.len() implies (#[trigger] row[j]).order < model.order by {
        assert(grid[g][j].order < declared.len());
    }
    lemma_insert_keeps_ranked(row, at, model);
    assert forall|i: int| 0 <= i < new_declared.len() implies {
        let h = (#[trigger] new_place[i]).0;
        let k = new_place[i].1;
        0 <= h < new_grid.len() && 0 <= k < new_grid[h].len() && new_grid[h][k] == new_declared[i]
    } by {
        if i < declared.len() {
            let h = place[i].0;
            let k = place[i].1;
            assert(grid[h][k] == declared[i]);
            if h == g {
                if k >= at {
                    assert(new_row[k + 1] == row[k]);
                } else {
                    assert(new_row[k] == row[k]);
                }
            }
        } else {
            assert(new_row[at] == model);
        }
    }
    assert forall|h: int, k: int| 0 <= h < new_grid.len() && 0 <= k < new_grid[h].len() implies {
        &&& 0 <= (#[trigger] new_grid[h][k]).order < new_declared.len()
        &&& new_place[new_grid[h][k].order as int] == (h, k)
        &&& same_key(new_grid[h][k], new_grid[h][0])
    } by {
        if h == g {
            if at == 0 {
                assert(new_row[0] == model);
            } else {
                assert(new_row[0] == row[0]);
            }
            if k < at {
                assert(new_row[k] == row[k]);
                assert(grid[g][k].order < declared.len());
                assert(place[grid[g][k].order as int] == (g, k));
                assert(same_key(grid[g][k], grid[g][0]));
            } else if k == at {
                assert(new_row[k] == model);
            } else {
                assert(new_row[k] == row[k - 1]);
                assert(grid[g][k - 1].order < declared.len());
                assert(place[grid[g][k - 1].order as int] == (g, k - 1));
                assert(same_key(grid[g][k - 1], grid[g][0]));
            }
            lemma_same_key_chain(new_row[k], row[0], new_row[0]);
        } else {
            assert(new_grid[h] == grid[h]);
            assert(grid[h][k].order < declared.len());
            assert(place[grid[h][k].order as int] == (h, k));
            assert(same_key(grid[h][k], grid[h][0]));
        }
    }
    assert forall|h: int| 0 <= h < new_grid.len() implies (#[trigger] new_grid[h]).len() > 0
        && ranked(new_grid[h]) by {
        if h != g {
            assert(new_grid[h] == grid[h]);
            assert(grid[h].len() > 0 && ranked(grid[h]));
        }
    }
}

/// A table stays in order when a newly declared route opens a group.
proof fn lemma_new_group_keeps_consistent(
    grid: Seq<Seq<CandidateView>>,
    declared: Seq<CandidateView>,
    place: Seq<(int, int)>,
    model: CandidateView,
)
    requires
        consistent(grid, declared, place),
        model.order == declared.len(),
        model.rank == rank_of(model.route),
    ensures
        consistent(
            grid.push(seq![model]),
            declared.push(model),
            place.push((grid.len() as int, 0int)),
        ),
{
    let new_grid = grid.push(seq![model]);
    let new_declared = declared.push(model);
    let new_place = place.push((grid.len() as int, 0int));
    assert forall|i: int| 0 <= i < new_declared.len() implies {
        let h = (#[trigger] new_place[i]).0;
        let k = new_place[i].1;
        0 <= h < new_grid.len() && 0 <= k < new_grid[h].len() && new_grid[h][k] == new_declared[i]
    } by {
        if i < declared.len() {
            let h = place[i].0;
            let k = place[i].1;
            assert(grid[h][k] == declared[i]);
            assert(new_grid[h] == grid[h]);
        }
    }
    assert forall|h: int, k: int| 0 <= h < new_grid.len() && 0 <= k < new_grid[h].len() implies {
        &&& 0 <= (#[trigger] new_grid[h][k]).order < new_declared.len()
        &&& new_place[new_grid[h][k].order as int] == (h, k)
        &&& same_key(new_grid[h][k], new_grid[h][0])
    } by {
        if h < grid.len() {
            assert(new_grid[h] == grid[h]);
            assert(grid[h][k].order < declared.len());
            assert(place[grid[h][k].order as int] == (h, k));
            assert(same_key(grid[h][k], grid[h][0]));
        } else {
            assert(new_grid[h] =~= seq![model]);
            assert forall|i: int| 0 <= i < model.route.pattern.len() implies crate::pattern::alike(
                #[trigger] model.route.pattern[i],
                model.route.pattern[i],
            ) by {}
            assert(same_key(model, model));
        }
    }
    assert forall|h: int| 0 <= h < new_grid.len() implies (#[trigger] new_grid[h]).len() > 0
        && ranked(new_grid[h]) by {
        if h < grid.len() {
            assert(new_grid[h] == grid[h]);
            assert(grid[h].len() > 0 && ranked(grid[h]));
        }
    }
}

/// The registered routes.
pub struct RouteTable {
    groups: Vec<RouteGroup>,
    count: usize,
    declared: Ghost<Seq<CandidateView>>,
    place: Ghost<Seq<(int, int)>>,
}

fn tried_before(a: &Candidate, b: &Candidate) -> (before: bool)
    ensures
        before == ahead(a@, b@),
{
    a.rank < b.rank || (a.rank == b.rank && a.order < b.order)
}

/// Puts `c` into a list in the order of rank and declaration, at its place.
fn insert_ranked<'a>(list: &mut Vec<&'a Candidate>, c: &'a Candidate) -> (at: usize)
    requires
        ranked(old(list).deep_view()),
        forall|j: int| 0 <= j < old(list).len() ==> old(list).deep_view()[j].order != c@.order,
    ensures
        at <= old(list).len(),
        final(list).deep_view() == old(list).deep_view().insert(at as int, c@),
        ranked(final(list).deep_view()),
{
    let ghost before = list.deep_view();
    let mut at: usize = 0;
    while at < list.len() && !tried_before(c, list[at])
        invariant
            at <= list.len(),
            list.deep_view() == before,
            forall|j: int| 0 <= j < at ==> !ahead(c@, #[trigger] before[j]),
        decreases list.len() - at,
    {
        proof {
            assert(before[at as int] == list[at as int]@);
        }
        at = at + 1;
    }
    proof {
        if at < list.len() {
            assert(before[at as int] == list[at as int]@);
        }
    }
    list.insert(at, c);
    proof {
        let after = before.insert(at as int, c@);
        assert(list.deep_view() =~= after);
        assert forall|i: int, j: int| 0 <= i < j < after.len() implies ahead(
            #[trigger] after[i],
            #[trigger] after[j],
        ) by {
            if j < at {
                assert(after[i] == before[i] && after[j] == before[j]);
            } else if j == at {
                assert(after[i] == before[i]);
                assert(!ahead(c@, before[i]));
                assert(before[i].order != c@.order);
            } else if i < at {
                assert(after[i] == before[i] && after[j] == before[j - 1]);
            } else if i == at {
                assert(after[j] == before[j - 1]);
                assert(ahead(c@, before[at as int]));
                if j - 1 > at {
                    assert(ahead(before[at as int], before[j - 1]));
                }
            } else {
                assert(after[i] == before[i - 1] && after[j] == before[j - 1]);
            }
        }
    }
    at
}

impl RouteTable {
    /// The table is in order within itself.
    pub closed spec fn wf(&self) -> bool {
        &&& self.count == self.declared@.len()
        &&& consistent(self.groups.deep_view(), self.declared@, self.place@)
    }

    /// The registered routes in the order of their declaration.
    pub closed spec fn declared(&self) -> Seq<CandidateView> {
        self.declared@
    }

    /// The candidates for a request of this method and path: the registered
    /// routes that accept it, in the order of rank and declaration.
    pub open spec fn candidates(&self, method: Method, path: Seq<PieceView>) -> Seq<CandidateView> {
        lookup_among(self.declared(), method, path, self.declared().len() as int)
    }

    /// The candidates for a request are in the order of rank and, within one
    /// rank, of declaration, and are exactly the registered routes that
    /// accept the request.
    pub proof fn candidates_are_the_lookup(&self, method: Method, path: Seq<PieceView>)
        requires
            self.wf(),
        ensures
            is_lookup(self.declared(), method, path, self.candidates(method, path)),
            ranked(self.candidates(method, path)),
    {
        lemma_lookup_among(self.declared(), method, path, self.declared().len() as int);
        assert(self.declared().take(self.declared().len() as int) =~= self.declared());
    }

    /// Of two candidates for a request, the one that comes first has the
    /// lower rank, or the same rank and the earlier place in the order of
    /// declaration; so candidates of one rank come as they were declared.
    /// Each is the registered route of its place.
    pub proof fn candidates_come_by_rank_then_declaration(
        &self,
        method: Method,
        path: Seq<PieceView>,
        i: int,
        j: int,
    )
        requires
            self.wf(),
            0 <= i < j < self.candidates(method, path).len(),
        ensures
            ({
                let c = self.candidates(method, path);
                &&& c[i].rank < c[j].rank || (c[i].rank == c[j].rank && c[i].order < c[j].order)
                &&& 0 <= c[i].order < self.declared().len()
                &&& 0 <= c[j].order < self.declared().len()
                &&& self.declared()[c[i].order as int] == c[i]
                &&& self.declared()[c[j].order as int] == c[j]
            }),
    {
        self.candidates_are_the_lookup(method, path);
        let c = self.candidates(method, path);
        assert(ahead(c[i], c[j]));
    }

    /// A table without routes.
    pub fn new() -> (table: RouteTable)
        ensures
            table.wf(),
            table.declared() == Seq::<CandidateView>::empty(),
    {
        let groups: Vec<RouteGroup> = Vec::new();
        let table = RouteTable {
            groups,
            count: 0,
            declared: Ghost(Seq::empty()),
            place: Ghost(Seq::empty()),
        };
        proof {
            assert(table.groups.deep_view() =~= Seq::<Seq<CandidateView>>::empty());
        }
        table
    }

    /// The number of registered routes.
    pub fn len(&self) -> (n: usize)
        requires
            self.wf(),
        ensures
            n == self.declared().len(),
    {
        self.count
    }

    /// Every registered route has its place in the order of declaration, and
    /// the rank under which it is tried is its own or the default rank of
    /// its pattern.
    pub proof fn declared_in_order(&self, i: int)
        requires
            self.wf(),
            0 <= i < self.declared().len(),
        ensures
            self.declared()[i].order == i,
            self.declared()[i].rank == rank_of(self.declared()[i].route),
    {
    }

    /// The group of the routes of this method and of the shape of this
    /// pattern, where the table has one.
    fn find_group(&self, method: Method, pattern: &PathPattern) -> (at: usize)
        requires
            self.wf(),
        ensures
            at <= self.groups.len(),
            at < self.groups.len() ==> self.groups.deep_view()[at as int][0].route.method == method
                && same_shape(self.groups.deep_view()[at as int][0].route.pattern, pattern@),
            at == self.groups.len() ==> forall|g: int|
                0 <= g < self.groups.len() ==> !(
                (#[trigger] self.groups.deep_view()[g])[0].route.method == method && same_shape(
                    self.groups.deep_view()[g][0].route.pattern,
                    pattern@,
                )),
    {
        let ghost grid = self.groups.deep_view();
        let mut g: usize = 0;
        while g < self.groups.len()
            invariant
                g <= self.groups.len(),
                self.wf(),
                grid == self.groups.deep_view(),
                forall|h: int|
                    0 <= h < g ==> !((#[trigger] grid[h])[0].route.method == method && same_shape(
                        grid[h][0].route.pattern,
                        pattern@,
                    )),
            decreases self.groups.len() - g,
        {
            proof {
                assert(grid[g as int] == self.groups[g as int]@);
                assert(grid[g as int].len() > 0);
                assert(grid[g as int][0] == self.groups[g as int].routes[0]@);
            }
            let first = &self.groups[g].routes[0];
            if first.route.method == method && first.route.pattern.same_shape(pattern) {
                return g;
            }
            g = g + 1;
        }
        g
    }

    /// Registers a route: it is given the rank that it declares, or the
    /// default rank of its pattern, and the next place in the order of
    /// declaration.
    pub fn register(&mut self, route: Route)
        requires
            old(self).wf(),
            old(self).declared().len() < usize::MAX,
        ensures
            final(self).wf(),
            final(self).declared() == old(self).declared().push(
                CandidateView {
                    route: route@,
                    rank: rank_of(route@),
                    order: old(self).declared().len() as usize,
                },
            ),
    {
        let rank = match route.rank {
            Some(rank) => rank,
            None => route.pattern.default_rank(),
        };
        let order = self.count;
        let ghost grid = self.groups.deep_view();
        let ghost declared = self.declared@;
        let ghost place = self.place@;
        let g = self.find_group(route.method, &route.pattern);
        let c = Candidate { route, rank, order };
        let ghost model = c@;
        if g < self.groups.len() {
            proof {
                assert(grid[g as int] == self.groups[g as int]@);
            }
            let ghost row = grid[g as int];
            let mut at: usize = 0;
            while at < self.groups[g].routes.len() && self.groups[g].routes[at].rank <= rank
                invariant
                    g < self.groups.len(),
                    at <= self.groups[g as int].routes.len(),
                    row == self.groups[g as int]@,
                    forall|j: int| 0 <= j < at ==> (#[trigger] row[j]).rank <= rank,
                decreases self.groups[g as int].routes.len() - at,
            {
                proof {
                    assert(row[at as int] == self.groups[g as int].routes[at as int]@);
                }
                at = at + 1;
            }
            proof {
                if at < row.len() {
                    assert(row[at as int] == self.groups[g as int].routes[at as int]@);
                }
            }
            self.groups[g].routes.insert(at, c);
            self.count = self.count + 1;
            proof {
                self.declared = Ghost(declared.push(model));
                self.place = Ghost(place_after_insert(place, g as int, at as int));
                assert(self.groups.deep_view() =~= grid.update(
                    g as int,
                    row.insert(at as int, model),
                )) by {
                    assert(self.groups.deep_view()[g as int] =~= row.insert(at as int, model));
                }
                lemma_insert_keeps_consistent(grid, declared, place, g as int, at as int, model);
            }
        } else {
            let mut routes: Vec<Candidate> = Vec::new();
            routes.push(c);
            let group = RouteGroup { routes };
            proof {
                assert(group@ =~= seq![model]);
            }
            self.groups.push(group);
            self.count = self.count + 1;
            proof {
                self.declared = Ghost(declared.push(model));
                self.place = Ghost(place.push((g as int, 0int)));
                assert(self.groups.deep_view() =~= grid.push(seq![model]));
                lemma_new_group_keeps_consistent(grid, declared, place, model);
            }
        }
    }

    /// The candidates for a request of this method and path: the registered
    /// routes that accept it, in the order of rank and, within one rank, of
    /// declaration.
    pub fn lookup(&self, method: Method, path: &Vec<Piece>) -> (found: Vec<&Candidate>)
        requires
            self.wf(),
        ensures
            is_lookup(self.declared(), method, path.deep_view(), found.deep_view()),
            found.deep_view() == self.candidates(method, path.deep_view()),
            ranked(found.deep_view()),
    {
        let ghost grid = self.groups.deep_view();
        let ghost declared = self.declared@;
        let ghost place = self.place@;
        let ghost segs = path.deep_view();
        let mut found: Vec<&Candidate> = Vec::new();
        let mut g: usize = 0;
        proof {
            assert(found.deep_view() =~= Seq::<CandidateView>::empty());
        }
        while g < self.groups.len()
            invariant
                g <= self.groups.len(),
                self.wf(),
                grid == self.groups.deep_view(),
                declared == self.declared@,
                place == self.place@,
                segs == path.deep_view(),
                ranked(found.deep_view()),
                forall|j: int|
                    0 <= j < found.len() ==> {
                        &&& 0 <= (#[trigger] found.deep_view()[j]).order < declared.len()
                        &&& declared[found.deep_view()[j].order as int] == found.deep_view()[j]
                        &&& accepts(found.deep_view()[j], method, segs)
                        &&& place[found.deep_view()[j].order as int].0 < g
                    },
                forall|h: int, k: int|
                    0 <= h < g && 0 <= k < grid[h].len() && accepts(
                        #[trigger] grid[h][k],
                        method,
                        segs,
                    ) ==> found.deep_view().contains(grid[h][k]),
            decreases self.groups.len() - g,
        {
            let group = &self.groups[g];
            proof {
                assert(grid[g as int] == group@);
                assert(group@.len() > 0);
                assert(group@[0] == group.routes[0]@);
            }
            let ghost row = grid[g as int];
            let first = &group.routes[0];
            let takes = first.route.method == method && first.route.pattern.match_shape(path);
            proof {
                assert forall|k: int| 0 <= k < row.len() implies accepts(
                    #[trigger] row[k],
                    method,
                    segs,
                ) == takes by {
                    assert(same_key(grid[g as int][k], grid[g as int][0]));
                    lemma_same_shape_accepts(row[k].route.pattern, row[0].route.pattern, segs);
                }
            }
            if takes {
                let mut k: usize = 0;
                while k < group.routes.len()
                    invariant
                        k <= group.routes.len(),
                        g < self.groups.len(),
                        self.wf(),
                        grid == self.groups.deep_view(),
                        declared == self.declared@,
                        place == self.place@,
                        row == grid[g as int],
                        row == group@,
                        ranked(found.deep_view()),
                        forall|j: int| 0 <= j < row.len() ==> accepts(#[trigger] row[j], method, segs),
                        forall|j: int|
                            0 <= j < found.len() ==> {
                                &&& 0 <= (#[trigger] found.deep_view()[j]).order < declared.len()
                                &&& declared[found.deep_view()[j].order as int]
                                    == found.deep_view()[j]
                                &&& accepts(found.deep_view()[j], method, segs)
                                &&& (place[found.deep_view()[j].order as int].0 < g || (
                                place[found.deep_view()[j].order as int].0 == g
                                    && place[found.deep_view()[j].order as int].1 < k))
                            },
                        forall|h: int, l: int|
                            0 <= h < g && 0 <= l < grid[h].len() && accepts(
                                #[trigger] grid[h][l],
                                method,
                                segs,
                            ) ==> found.deep_view().contains(grid[h][l]),
                        forall|l: int| 0 <= l < k ==> found.deep_view().contains(#[trigger] row[l]),
                    decreases group.routes.len() - k,
                {
                    let c = &group.routes[k];
                    let ghost before = found.deep_view();
                    proof {
                        assert(row[k as int] == c@);
                        assert(place[grid[g as int][k as int].order as int] == (g as int, k as int));
                        assert forall|j: int| 0 <= j < found.len() implies before[j].order
                            != c@.order by {
                            assert(place[before[j].order as int] != (g as int, k as int));
                        }
                    }
                    let at = insert_ranked(&mut found, c);
                    proof {
                        let after = found.deep_view();
                        assert(after[at as int] == c@);
                        assert forall|x: CandidateView| before.contains(x) implies after.contains(
                            x,
                        ) by {
                            let j = choose|j: int| 0 <= j < before.len() && before[j] == x;
                            if j < at {
                                assert(after[j] == x);
                            } else {
                                assert(after[j + 1] == x);
                            }
                        }
                        assert forall|j: int| 0 <= j < after.len() implies {
                            &&& 0 <= (#[trigger] after[j]).order < declared.len()
                            &&& declared[after[j].order as int] == after[j]
                            &&& accepts(after[j], method, segs)
                            &&& (place[after[j].order as int].0 < g || (place[after[j].order as int].0
                                == g && place[after[j].order as int].1 < k + 1))
                        } by {
                            if j < at {
                                assert(after[j] == before[j]);
                            } else if j == at {
                                assert(grid[g as int][k as int] == c@);
                                assert(place[c@.order as int] == (g as int, k as int));
                                let o = c@.order as int;
                                assert(grid[place[o].0][place[o].1] == declared[o]);
                            } else {
                                assert(after[j] == before[j - 1]);
                            }
                        }
                        assert forall|h: int, l: int|
                            0 <= h < g && 0 <= l < grid[h].len() && accepts(
                                #[trigger] grid[h][l],
                                method,
                                segs,
                            ) implies after.contains(grid[h][l]) by {
                            assert(before.contains(grid[h][l]));
                        }
                        assert forall|l: int| 0 <= l < k + 1 implies after.contains(
                            #[trigger] row[l],
                        ) by {
                            if l < k {
                                assert(before.contains(row[l]));
                            }
                        }
                    }
                    k = k + 1;
                }
            }
            proof {
                let now = found.deep_view();
                assert forall|j: int| 0 <= j < now.len() implies place[(#[trigger] now[j]).order as int].0
                    < g + 1 by {}
                assert forall|h: int, l: int|
                    0 <= h < g + 1 && 0 <= l < grid[h].len() && accepts(
                        #[trigger] grid[h][l],
                        method,
                        segs,
                    ) implies now.contains(grid[h][l]) by {
                    if h == g {
                        assert(takes);
                        assert(now.contains(row[l]));
                    }
                }
            }
            g = g + 1;
        }
        proof {
            let c = found.deep_view();
            assert forall|i: int|
                0 <= i < declared.len() && accepts(#[trigger] declared[i], method, segs) implies c.contains(
                declared[i],
            ) by {
                let h = place[i].0;
                let k = place[i].1;
                assert(grid[h][k] == declared[i]);
            }
            assert(is_lookup(self.declared(), method, segs, c));
            self.candidates_are_the_lookup(method, segs);
            lookup_is_unique(
                self.declared(),
                method,
                segs,
                c,
                self.candidates(method, segs),
            );
        }
        found
    }
}

/// Candidates of the group of one candidate belong to one group.
proof fn lemma_same_key_chain(a: CandidateView, b: CandidateView, c: CandidateView)
    requires
        same_key(a, b),
        same_key(c, b),
    ensures
        same_key(a, c),
{
    assert forall|i: int| 0 <= i < a.route.pattern.len() implies crate::pattern::alike(
        #[trigger] a.route.pattern[i],
        c.route.pattern[i],
    ) by {
        assert(crate::pattern::alike(a.route.pattern[i], b.route.pattern[i]));
        assert(crate::pattern::alike(c.route.pattern[i], b.route.pattern[i]));
    }
}

} // verus!
