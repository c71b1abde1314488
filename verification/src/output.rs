use crate::params::{bindings, lemma_bindings_names, pairs_view, Params};
use crate::pattern::{reserved_name, SUB_PATH_WILDCARD_NAME};
use crate::route::{Route, RouteList, RouteView};
use vstd::prelude::*;

verus! {

/// What one resolution yields.
#[derive(Debug)]
pub struct RouteOutput<'route_list> {
    /// What the matched route left of the path, for its nested level; empty
    /// where nothing is left.
    pub sub_path: String,
    /// The matched route, in the level that was asked.
    pub route: &'route_list Route,
    /// The parameters that the route's own pattern captured.
    pub params: Params,
}

/// The mathematical view of a [`RouteOutput`].
pub struct RouteOutputView {
    pub sub_path: Seq<char>,
    pub route: RouteView,
    pub params: Map<Seq<char>, Seq<char>>,
}

impl<'route_list> View for RouteOutput<'route_list> {
    type V = RouteOutputView;

    open spec fn view(&self) -> RouteOutputView {
        RouteOutputView { sub_path: self.sub_path@, route: self.route@, params: self.params@ }
    }
}

/// Whether the captures hold one under the reserved name: a remainder of the
/// path, for a nested level.
pub open spec fn captures_remainder(captures: Seq<(Seq<char>, Seq<char>)>) -> bool {
    bindings(captures).contains_key(reserved_name())
}

/// The remainder of the path among the captures: what the reserved name is
/// bound to, or the empty path.
pub open spec fn captured_sub_path(captures: Seq<(Seq<char>, Seq<char>)>) -> Seq<char> {
    if captures_remainder(captures) {
        bindings(captures)[reserved_name()]
    } else {
        Seq::empty()
    }
}

/// The parameters among the captures: every binding but that of the reserved
/// name.
pub open spec fn captured_params(captures: Seq<(Seq<char>, Seq<char>)>) -> Map<
    Seq<char>,
    Seq<char>,
> {
    bindings(captures).remove(reserved_name())
}

/// Whether the captures hold a remainder of the path.
pub fn has_remainder(captures: &Vec<(String, String)>) -> (res: bool)
    ensures
        res == captures_remainder(pairs_view(captures@)),
{
    let reserved = String::from_str(SUB_PATH_WILDCARD_NAME);
    let ghost pairs = pairs_view(captures@);
    let mut i: usize = 0;
    while i < captures.len()
        invariant
            i <= captures.len(),
            reserved@ == reserved_name(),
            pairs == pairs_view(captures@),
            forall|j: int| 0 <= j < i ==> (#[trigger] pairs[j]).0 != reserved_name(),
        decreases captures.len() - i,
    {
        if captures[i].0 == reserved {
            proof {
                assert(pairs[i as int].0 == reserved_name());
                lemma_bindings_names(pairs, reserved_name());
            }
            return true;
        }
        i += 1;
    }
    proof {
        lemma_bindings_names(pairs, reserved_name());
    }
    false
}

impl RouteList {
    /// The output for a match of the route at `index` with `captures`: the
    /// capture under the reserved name becomes the sub-path, the others the
    /// parameters.
    ///
    /// A remainder of the path can only be captured for a route with a nested
    /// level: where the captures hold one for a route without, a pattern of
    /// the level has used the reserved name.
    pub fn output(&self, index: usize, captures: &Vec<(String, String)>) -> (out: RouteOutput<'_>)
        requires
            index < self.routes.len(),
            captures_remainder(pairs_view(captures@)) ==> self.routes[index as int].has_sub_routes,
        ensures
            *out.route == self.routes[index as int],
            out.sub_path@ == captured_sub_path(pairs_view(captures@)),
            out.params@ == captured_params(pairs_view(captures@)),
    {
        let reserved = String::from_str(SUB_PATH_WILDCARD_NAME);
        let ghost pairs = pairs_view(captures@);
        let mut params = Params::new();
        let mut sub_path = String::new();
        let mut i: usize = 0;
        assert(pairs.take(0) =~= Seq::empty());
        assert(captured_params(Seq::empty()) =~= Map::empty());
        while i < captures.len()
            invariant
                i <= captures.len(),
                reserved@ == reserved_name(),
                pairs == pairs_view(captures@),
                params@ == captured_params(pairs.take(i as int)),
                sub_path@ == captured_sub_path(pairs.take(i as int)),
            decreases captures.len() - i,
        {
            proof {
                assert(pairs.take(i + 1).drop_last() =~= pairs.take(i as int));
                assert(pairs.take(i + 1).last() == pairs[i as int]);
            }
            if captures[i].0 == reserved {
                sub_path = captures[i].1.clone();
                assert(params@ =~= captured_params(pairs.take(i + 1)));
            } else {
                params.insert(captures[i].0.clone(), captures[i].1.clone());
                assert(params@ =~= captured_params(pairs.take(i + 1)));
            }
            i += 1;
        }
        assert(pairs.take(captures.len() as int) =~= pairs);
        RouteOutput { sub_path, route: &self.routes[index], params }
    }
}

} // verus!
