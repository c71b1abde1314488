use crate::matcher::{new_router, register, registered};
use crate::pattern::{
    is_registrable, lemma_sub_path_pattern_registrable, registrable, sub_path_pattern,
    sub_path_pattern_of, MAX_PATTERN_LENGTH,
};
use crate::route::{Route, RouteList, RouteView};
use route_recognizer::Router;
use vstd::prelude::*;

verus! {

/// What one route registers with the matcher, all of it under the route's
/// index: where the route has a nested level, first the pattern that captures
/// the remainder of the path; and always the route's own pattern.
pub open spec fn route_entries(route: RouteView, index: usize) -> Seq<(Seq<char>, usize)> {
    if route.has_sub_routes {
        seq![(sub_path_pattern(route.path), index), (route.path, index)]
    } else {
        seq![(route.path, index)]
    }
}

/// The match table of a routing level: what its routes register, route by
/// route in the order of the level.
pub open spec fn match_table(routes: Seq<RouteView>) -> Seq<(Seq<char>, usize)>
    decreases routes.len(),
{
    if routes.len() == 0 {
        Seq::empty()
    } else {
        match_table(routes.drop_last()) + route_entries(
            routes.last(),
            (routes.len() - 1) as usize,
        )
    }
}

/// The routes of which the matcher can take whatever they register.
pub open spec fn route_registrable(route: RouteView) -> bool {
    &&& registrable(route.path)
    &&& route.has_sub_routes ==> registrable(sub_path_pattern(route.path))
}

/// The routing levels of which the matcher can take the whole match table.
pub open spec fn well_formed(routes: Seq<RouteView>) -> bool {
    forall|i: int| 0 <= i < routes.len() ==> route_registrable(#[trigger] routes[i])
}

/// Every entry of a match table stands under the index of a route of the
/// level.
pub proof fn lemma_match_table_indices(routes: Seq<RouteView>)
    requires
        routes.len() <= usize::MAX,
    ensures
        forall|k: int|
            0 <= k < match_table(routes).len() ==> (#[trigger] match_table(routes)[k]).1
                < routes.len(),
    decreases routes.len(),
{
    if routes.len() > 0 {
        lemma_match_table_indices(routes.drop_last());
        let front = match_table(routes.drop_last());
        let back = route_entries(routes.last(), (routes.len() - 1) as usize);
        assert forall|k: int| 0 <= k < match_table(routes).len() implies (#[trigger] match_table(
            routes,
        )[k]).1 < routes.len() by {
            if k < front.len() {
                assert(match_table(routes)[k] == front[k]);
            } else {
                assert(match_table(routes)[k] == back[k - front.len()]);
            }
        }
    }
}

/// Every route's own pattern is in the match table, under the route's index,
/// whether or not the route has a nested level.
pub proof fn lemma_match_table_holds_route(routes: Seq<RouteView>, i: int)
    requires
        routes.len() <= usize::MAX,
        0 <= i < routes.len(),
    ensures
        match_table(routes).contains((routes[i].path, i as usize)),
        routes[i].has_sub_routes ==> match_table(routes).contains(
            (sub_path_pattern(routes[i].path), i as usize),
        ),
    decreases routes.len(),
{
    let front = match_table(routes.drop_last());
    let back = route_entries(routes.last(), (routes.len() - 1) as usize);
    let table = match_table(routes);
    if i == routes.len() - 1 {
        if routes[i].has_sub_routes {
            assert(table[front.len() as int] == back[0]);
            assert(table[front.len() as int + 1] == back[1]);
        } else {
            assert(table[front.len() as int] == back[0]);
        }
    } else {
        lemma_match_table_holds_route(routes.drop_last(), i);
        let own = (routes[i].path, i as usize);
        let k = choose|k: int| 0 <= k < front.len() && front[k] == own;
        assert(table[k] == own);
        if routes[i].has_sub_routes {
            let sub = (sub_path_pattern(routes[i].path), i as usize);
            let k = choose|k: int| 0 <= k < front.len() && front[k] == sub;
            assert(table[k] == sub);
        }
    }
}

impl Route {
    /// Whether the matcher can take whatever this route registers.
    pub fn is_registrable(&self) -> (ok: bool)
        ensures
            ok == route_registrable(self@),
    {
        let path = self.path.as_str();
        proof {
            lemma_sub_path_pattern_registrable(path@);
        }
        is_registrable(path) && (!self.has_sub_routes || path.unicode_len() as u64
            <= MAX_PATTERN_LENGTH - 11)
    }
}

impl RouteList {
    /// Whether the matcher can take the whole match table of the level.
    pub fn is_well_formed(&self) -> (ok: bool)
        ensures
            ok == well_formed(self@),
    {
        let mut i: usize = 0;
        while i < self.routes.len()
            invariant
                i <= self.routes.len(),
                forall|j: int| 0 <= j < i ==> route_registrable(#[trigger] self@[j]),
            decreases self.routes.len() - i,
        {
            if !self.routes[i].is_registrable() {
                assert(!route_registrable(self@[i as int]));
                return false;
            }
            i += 1;
        }
        true
    }

    /// A matcher that holds the match table of the level.
    pub(crate) fn matcher(&self) -> (router: Router<usize>)
        requires
            well_formed(self@),
        ensures
            registered(router) == match_table(self@),
    {
        let mut router = new_router();
        let mut i: usize = 0;
        while i < self.routes.len()
            invariant
                i <= self.routes.len(),
                well_formed(self@),
                registered(router) == match_table(self@.take(i as int)),
            decreases self.routes.len() - i,
        {
            let route = &self.routes[i];
            let ghost before = registered(router);
            assert(route_registrable(self@[i as int]));
            if route.has_sub_routes {
                let pattern = sub_path_pattern_of(route.path.as_str());
                register(&mut router, pattern.as_str(), i);
            }
            register(&mut router, route.path.as_str(), i);
            proof {
                let upto = self@.take(i + 1);
                assert(upto.drop_last() =~= self@.take(i as int));
                assert(upto.last() == route@);
                assert(registered(router) =~= before + route_entries(route@, i));
            }
            i += 1;
        }
        assert(self@.take(self.routes.len() as int) =~= self@);
        router
    }
}

} // verus!
