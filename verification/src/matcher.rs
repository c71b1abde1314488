use crate::params::pairs_view;
use crate::path::matchable;
use crate::pattern::registrable;
use route_recognizer::Router;
use vstd::prelude::*;

verus! {

/// `Router`, the matcher: taken as it is, with nothing known of its inside.
#[verifier::external_type_specification]
#[verifier::external_body]
#[verifier::reject_recursive_types(T)]
pub struct ExRouter<T>(Router<T>);

/// What a matcher holds: each pattern that was registered with it and the
/// index it was registered under, in the order of registration.
pub uninterp spec fn registered(router: Router<usize>) -> Seq<(Seq<char>, usize)>;

/// What `Router::recognize` finds for `path` on a matcher that holds `table`:
/// `None` where no pattern matches, else the index that the winning pattern
/// was registered under and the named captures as pairs of name and value, in
/// the order in which the matcher's parameters iterate.
pub uninterp spec fn recognized(table: Seq<(Seq<char>, usize)>, path: Seq<char>) -> Option<
    (usize, Seq<(Seq<char>, Seq<char>)>),
>;

/// A match as the wrapper hands it out, as plain values.
pub open spec fn found_view(found: Option<(usize, Vec<(String, String)>)>) -> Option<
    (usize, Seq<(Seq<char>, Seq<char>)>),
> {
    match found {
        Some((index, captures)) => Some((index, pairs_view(captures@))),
        None => None,
    }
}

/// `Router::new`: a matcher with nothing registered.
#[verifier::external_body]
pub(crate) fn new_router() -> (router: Router<usize>)
    ensures
        registered(router) == Seq::<(Seq<char>, usize)>::empty(),
{
    Router::new()
}

/// `Router::add`: registers `pattern` under `index`, after all earlier
/// registrations.
///
/// The contract leaves out the patterns on which `add` can panic. After
/// dropping one leading separator, `add` slices a non-empty pattern behind its
/// first byte, which must therefore be a whole character; for each literal
/// character it subtracts one from the character's code, which overflows for
/// NUL; and it counts the segments of the pattern, which are no more than its
/// characters, in 32 bits.
#[verifier::external_body]
pub(crate) fn register(router: &mut Router<usize>, pattern: &str, index: usize)
    requires
        registrable(pattern@),
    ensures
        registered(*final(router)) == registered(*old(router)).push((pattern@, index)),
{
    router.add(pattern, index);
}

/// `Router::recognize`: the match for `path`, with the matched index and the
/// named captures copied out as plain values.
///
/// The match depends on the registrations and the path alone, and the index
/// is one that some pattern was registered under, since the matcher keeps no
/// other. The contract leaves out a path with a NUL character: the matcher
/// subtracts one from the code of each character it reads.
#[verifier::external_body]
pub(crate) fn recognize(router: &Router<usize>, path: &str) -> (found: Option<
    (usize, Vec<(String, String)>),
>)
    requires
        matchable(path@),
    ensures
        found_view(found) == recognized(registered(*router), path@),
        found matches Some((index, _)) ==> exists|k: int|
            0 <= k < registered(*router).len() && (#[trigger] registered(*router)[k]).1 == index,
{
    match router.recognize(path) {
        Ok(m) => Some(
            (**m.handler(), m.params().iter().map(|(k, v)| (k.to_string(), v.to_string())).collect()),
        ),
        Err(_) => None,
    }
}

} // verus!
