use vstd::prelude::*;
use vstd::std_specs::cmp::PartialEqSpecImpl;

verus! {

/// One entry of a routing level.
#[derive(Debug)]
pub struct Route {
    /// The pattern: literal segments, `:name` parameters and `*` wildcards.
    pub path: String,
    /// Whether a nested routing level takes over what this route leaves of the
    /// path. The nested level itself is kept by the caller.
    pub has_sub_routes: bool,
}

/// The mathematical view of a [`Route`]: its pattern as characters, and its
/// flag.
pub struct RouteView {
    pub path: Seq<char>,
    pub has_sub_routes: bool,
}

impl View for Route {
    type V = RouteView;

    open spec fn view(&self) -> RouteView {
        RouteView { path: self.path@, has_sub_routes: self.has_sub_routes }
    }
}

impl Clone for Route {
    fn clone(&self) -> (res: Self)
        ensures
            res@ == self@,
    {
        Route { path: self.path.clone(), has_sub_routes: self.has_sub_routes }
    }
}

impl PartialEq for Route {
    fn eq(&self, other: &Route) -> (equal: bool) {
        self.path == other.path && self.has_sub_routes == other.has_sub_routes
    }
}

impl PartialEqSpecImpl for Route {
    open spec fn obeys_eq_spec() -> bool {
        true
    }

    open spec fn eq_spec(&self, other: &Route) -> bool {
        self@ == other@
    }
}

/// One routing level: its routes, in the order in which they were declared.
#[derive(Debug)]
pub struct RouteList {
    pub routes: Vec<Route>,
}

impl View for RouteList {
    type V = Seq<RouteView>;

    open spec fn view(&self) -> Seq<RouteView> {
        self.routes@.map_values(|r: Route| r@)
    }
}

impl Clone for RouteList {
    fn clone(&self) -> (res: Self)
        ensures
            res@ == self@,
    {
        let mut routes: Vec<Route> = Vec::new();
        let mut i: usize = 0;
        while i < self.routes.len()
            invariant
                i <= self.routes.len(),
                routes.len() == i,
                forall|j: int| 0 <= j < i ==> (#[trigger] routes[j])@ == self.routes[j]@,
            decreases self.routes.len() - i,
        {
            routes.push(self.routes[i].clone());
            i += 1;
        }
        let res = RouteList { routes };
        assert(res@ =~= self@);
        res
    }
}

impl PartialEq for RouteList {
    fn eq(&self, other: &RouteList) -> (equal: bool) {
        if self.routes.len() != other.routes.len() {
            assert(self@.len() != other@.len());
            return false;
        }
        let mut i: usize = 0;
        while i < self.routes.len()
            invariant
                i <= self.routes.len(),
                self.routes.len() == other.routes.len(),
                forall|j: int| 0 <= j < i ==> (#[trigger] self@[j]) == other@[j],
            decreases self.routes.len() - i,
        {
            if self.routes[i] != other.routes[i] {
                assert(self@[i as int] != other@[i as int]);
                return false;
            }
            i += 1;
        }
        assert(self@ =~= other@);
        true
    }
}

impl PartialEqSpecImpl for RouteList {
    open spec fn obeys_eq_spec() -> bool {
        true
    }

    open spec fn eq_spec(&self, other: &RouteList) -> bool {
        self@ == other@
    }
}

} // verus!
