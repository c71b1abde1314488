use crate::error::Error;
use crate::matcher::{recognize, recognized};
use crate::output::{
    captured_params, captured_sub_path, captures_remainder, has_remainder, RouteOutput,
};
use crate::path::{
    ends_with_separator, has_leading_separator, is_matchable, leads_with_separator,
    lemma_normalized_strips_one, matchable, normalize, normalized,
};
use crate::pattern::SEPARATOR;
use crate::route::{RouteList, RouteView};
use crate::table::{lemma_match_table_indices, match_table, well_formed};
use vstd::prelude::*;

verus! {

/// The mathematical content of a successful resolution.
pub struct Resolution {
    /// The position of the matched route in its level.
    pub index: int,
    /// What the matched route left of the path.
    pub sub_path: Seq<char>,
    /// The parameters that the route's own pattern captured.
    pub params: Map<Seq<char>, Seq<char>>,
}

/// What resolving `path` against the level `routes` yields.
///
/// An absolute path is invalid. Any other is normalized and looked up in the
/// level's match table: without a match nothing is found, and with one the
/// captures are split into the sub-path and the parameters.
pub open spec fn resolution(routes: Seq<RouteView>, path: Seq<char>) -> Result<Resolution, Error> {
    if leads_with_separator(path) {
        Err(Error::InvalidPath)
    } else {
        match recognized(match_table(routes), normalized(path)) {
            None => Err(Error::NotFound),
            Some((index, captures)) => Ok(
                Resolution {
                    index: index as int,
                    sub_path: captured_sub_path(captures),
                    params: captured_params(captures),
                },
            ),
        }
    }
}

/// Whether the level keeps the reserved name to itself as far as `path` shows:
/// where the match for `path` holds a remainder of the path, it is a match of
/// a route with a nested level.
pub open spec fn reserved_name_kept(routes: Seq<RouteView>, path: Seq<char>) -> bool {
    match recognized(match_table(routes), path) {
        None => true,
        Some((index, captures)) => captures_remainder(captures) ==> index < routes.len()
            && routes[index as int].has_sub_routes,
    }
}

/// The paths for which resolving against the level `routes` is defined,
/// whether it then finds a route or fails.
///
/// For an absolute path it always is: such a path is turned down before
/// anything else is looked at. For any other, the level's patterns must be
/// acceptable to the matcher, the normalized path too, and the level must keep
/// the reserved name to itself.
pub open spec fn admissible(routes: Seq<RouteView>, path: Seq<char>) -> bool {
    leads_with_separator(path) || {
        &&& well_formed(routes)
        &&& matchable(normalized(path))
        &&& reserved_name_kept(routes, normalized(path))
    }
}

impl<'route_list> RouteOutput<'route_list> {
    /// Whether this output is the resolution `found` in the level `list`.
    pub open spec fn is_resolution(&self, list: &RouteList, found: Resolution) -> bool {
        &&& 0 <= found.index < list.routes.len()
        &&& *self.route == list.routes[found.index]
        &&& self.sub_path@ == found.sub_path
        &&& self.params@ == found.params
    }
}

impl RouteList {
    /// Whether `outcome` is what resolving `path` against this level yields.
    pub open spec fn yields(&self, path: Seq<char>, outcome: Result<RouteOutput<'_>, Error>) -> bool {
        match outcome {
            Ok(out) => resolution(self@, path) matches Ok(found) && out.is_resolution(self, found),
            Err(error) => resolution(self@, path) == Err::<Resolution, Error>(error),
        }
    }

    /// Resolves `rel_path` against this level.
    ///
    /// Fails with `InvalidPath` exactly where the path begins with a
    /// separator, and with `NotFound` exactly where it does not and no pattern
    /// of the level matches the normalized path. The level is left as it is.
    ///
    /// A caller that cannot show the precondition calls `try_route`.
    pub fn route(&self, rel_path: &str) -> (outcome: Result<RouteOutput<'_>, Error>)
        requires
            admissible(self@, rel_path@),
        ensures
            self.yields(rel_path@, outcome),
    {
        if has_leading_separator(rel_path) {
            return Err(Error::InvalidPath);
        }
        let path = normalize(rel_path);
        let router = self.matcher();
        match recognize(&router, path) {
            Some((index, captures)) => {
                proof {
                    assert(self@.len() == self.routes.len());
                    lemma_match_table_indices(self@);
                }
                Ok(self.output(index, &captures))
            },
            None => Err(Error::NotFound),
        }
    }

    /// Whether resolving `rel_path` against this level is defined: whether
    /// `route` accepts the path.
    pub fn admits(&self, rel_path: &str) -> (ok: bool)
        ensures
            ok == admissible(self@, rel_path@),
    {
        if has_leading_separator(rel_path) {
            return true;
        }
        if !self.is_well_formed() {
            return false;
        }
        let path = normalize(rel_path);
        if !is_matchable(path) {
            return false;
        }
        let router = self.matcher();
        match recognize(&router, path) {
            Some((index, captures)) => {
                proof {
                    assert(self@.len() == self.routes.len());
                    lemma_match_table_indices(self@);
                }
                !has_remainder(&captures) || self.routes[index].has_sub_routes
            },
            None => true,
        }
    }

    /// Resolves `rel_path` against this level where that is defined, and
    /// returns `None` where it is not: where a pattern of the level or the
    /// path is not acceptable to the matcher, or a pattern of the level has
    /// used the reserved name.
    pub fn try_route(&self, rel_path: &str) -> (outcome: Option<Result<RouteOutput<'_>, Error>>)
        ensures
            outcome is Some <==> admissible(self@, rel_path@),
            outcome matches Some(resolved) ==> self.yields(rel_path@, resolved),
    {
        if self.admits(rel_path) {
            Some(self.route(rel_path))
        } else {
            None
        }
    }
}

/// Resolution is a function of the level and the path: whatever resolving one
/// path yields against two levels that hold the same routes, or twice against
/// one level, is the same.
pub proof fn lemma_resolution_is_deterministic(
    list: &RouteList,
    other: &RouteList,
    path: Seq<char>,
    first: Result<RouteOutput<'_>, Error>,
    second: Result<RouteOutput<'_>, Error>,
)
    requires
        list@ == other@,
        list.yields(path, first),
        other.yields(path, second),
    ensures
        first matches Ok(out) ==> second matches Ok(again) && again@ == out@,
        first matches Err(error) ==> second == Err::<RouteOutput<'_>, Error>(error),
{
    if let Ok(found) = resolution(list@, path) {
        assert(list@[found.index] == list.routes[found.index]@);
        assert(other@[found.index] == other.routes[found.index]@);
    }
}

/// A path and the same path with one separator appended resolve alike, for
/// every level. The path must not be empty, and must not itself be a relative
/// path that ends with a separator.
pub proof fn lemma_trailing_separator_is_ignored(routes: Seq<RouteView>, path: Seq<char>)
    requires
        path.len() > 0,
        leads_with_separator(path) || !ends_with_separator(path),
    ensures
        resolution(routes, path.push(SEPARATOR)) == resolution(routes, path),
        admissible(routes, path.push(SEPARATOR)) == admissible(routes, path),
{
    lemma_normalized_strips_one(path);
    assert(path.push(SEPARATOR)[0] == path[0]);
}

/// A path that begins with a separator is invalid in every level, whatever
/// the level holds.
pub proof fn lemma_leading_separator_is_rejected(routes: Seq<RouteView>, rest: Seq<char>)
    ensures
        admissible(routes, seq![SEPARATOR] + rest),
        resolution(routes, seq![SEPARATOR] + rest) == Err::<Resolution, Error>(Error::InvalidPath),
{
    assert((seq![SEPARATOR] + rest)[0] == SEPARATOR);
}

} // verus!
