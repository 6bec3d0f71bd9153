//! The route table: an insertion-ordered list of (method, pattern,
//! middleware, handler) records, matched first-registered-first.

use vstd::prelude::*;

use crate::dispatch::{Action, Middleware};
use crate::request::{parse_path_params, spec_path_match};
use crate::strmap::StrMap;
use crate::strutil::str_eq;

verus! {

/// One registered route, immutable once serving starts.
pub struct Route {
    pub method: String,
    pub pattern: String,
    pub middleware: Vec<Middleware>,
    pub handler: Vec<Action>,
}

/// Whether a route accepts the method and path.
pub open spec fn spec_route_matches(route: Route, method: Seq<char>, path: Seq<char>) -> bool {
    route.method@ == method && spec_path_match(route.pattern@, path) is Some
}

/// The index of the first route accepting the method and path, if any.
pub open spec fn spec_first_match(routes: Seq<Route>, method: Seq<char>, path: Seq<char>) -> Option<
    int,
>
    decreases routes.len(),
{
    if routes.len() == 0 {
        None
    } else if spec_route_matches(routes[0], method, path) {
        Some(0)
    } else {
        match spec_first_match(routes.drop_first(), method, path) {
            Some(i) => Some(i + 1),
            None => None,
        }
    }
}

proof fn lemma_first_match_from_witness(
    routes: Seq<Route>,
    method: Seq<char>,
    path: Seq<char>,
    i: int,
)
    requires
        0 <= i < routes.len(),
        spec_route_matches(routes[i], method, path),
        forall|j: int| 0 <= j < i ==> !spec_route_matches(#[trigger] routes[j], method, path),
    ensures
        spec_first_match(routes, method, path) == Some(i),
    decreases i,
{
    if i > 0 {
        assert forall|j: int| 0 <= j < i - 1 implies !spec_route_matches(
            #[trigger] routes.drop_first()[j],
            method,
            path,
        ) by {
            assert(routes.drop_first()[j] == routes[j + 1]);
        }
        assert(routes.drop_first()[i - 1] == routes[i]);
        lemma_first_match_from_witness(routes.drop_first(), method, path, i - 1);
    }
}

proof fn lemma_first_match_none(routes: Seq<Route>, method: Seq<char>, path: Seq<char>)
    requires
        forall|j: int|
            0 <= j < routes.len() ==> !spec_route_matches(#[trigger] routes[j], method, path),
    ensures
        spec_first_match(routes, method, path) is None,
    decreases routes.len(),
{
    if routes.len() > 0 {
        assert forall|j: int| 0 <= j < routes.drop_first().len() implies !spec_route_matches(
            #[trigger] routes.drop_first()[j],
            method,
            path,
        ) by {
            assert(routes.drop_first()[j] == routes[j + 1]);
        }
        lemma_first_match_none(routes.drop_first(), method, path);
    }
}

/// The first route wins: whatever `spec_first_match` points at accepts the
/// request, and nothing registered before it does.
pub proof fn lemma_first_match_properties(routes: Seq<Route>, method: Seq<char>, path: Seq<char>)
    ensures
        match spec_first_match(routes, method, path) {
            Some(i) => 0 <= i < routes.len() && spec_route_matches(routes[i], method, path)
                && forall|j: int|
                0 <= j < i ==> !spec_route_matches(#[trigger] routes[j], method, path),
            None => forall|j: int|
                0 <= j < routes.len() ==> !spec_route_matches(#[trigger] routes[j], method, path),
        },
    decreases routes.len(),
{
    if routes.len() > 0 && !spec_route_matches(routes[0], method, path) {
        lemma_first_match_properties(routes.drop_first(), method, path);
        match spec_first_match(routes.drop_first(), method, path) {
            Some(i) => {
                assert(routes.drop_first()[i] == routes[i + 1]);
                assert forall|j: int| 0 <= j < i + 1 implies !spec_route_matches(
                    #[trigger] routes[j],
                    method,
                    path,
                ) by {
                    if j > 0 {
                        assert(routes.drop_first()[j - 1] == routes[j]);
                    }
                }
            },
            None => {
                assert forall|j: int| 0 <= j < routes.len() implies !spec_route_matches(
                    #[trigger] routes[j],
                    method,
                    path,
                ) by {
                    if j > 0 {
                        assert(routes.drop_first()[j - 1] == routes[j]);
                    }
                }
            },
        }
    }
}

/// The insertion-ordered route table.
pub struct Router {
    routes: Vec<Route>,
}

impl View for Router {
    type V = Seq<Route>;

    closed spec fn view(&self) -> Seq<Route> {
        self.routes@
    }
}

impl Router {
    /// An empty table.
    pub fn new() -> (r: Router)
        ensures
            r@ == Seq::<Route>::empty(),
    {
        Router { routes: Vec::new() }
    }

    /// Appends a route; matching keeps insertion order.
    pub fn add(&mut self, route: Route)
        ensures
            final(self)@ == old(self)@.push(route),
    {
        self.routes.push(route);
    }

    /// How many routes are registered.
    pub fn len(&self) -> (r: usize)
        ensures
            r == self@.len(),
    {
        self.routes.len()
    }

    /// The route at position `i`, in registration order.
    pub fn route_at(&self, i: usize) -> (r: &Route)
        requires
            i < self@.len(),
        ensures
            *r == self@[i as int],
    {
        &self.routes[i]
    }

    /// Finds the first registered route whose method equals `method` and
    /// whose pattern accepts `path`, returning its index and the bound path
    /// parameters.
    pub fn match_route(&self, method: &str, path: &str) -> (r: Option<(usize, StrMap)>)
        ensures
            match r {
                Some(p) => {
                    &&& spec_first_match(self@, method@, path@) == Some(p.0 as int)
                    &&& p.0 < self@.len()
                    &&& p.1.wf()
                    &&& spec_path_match(self@[p.0 as int].pattern@, path@) == Some(p.1@)
                },
                None => spec_first_match(self@, method@, path@) is None,
            },
    {
        let n = self.routes.len();
        let mut i: usize = 0;
        while i < n
            invariant
                n == self.routes@.len(),
                i <= n,
                forall|j: int|
                    0 <= j < i ==> !spec_route_matches(#[trigger] self.routes@[j], method@, path@),
            decreases n - i,
        {
            let route = &self.routes[i];
            if str_eq(route.method.as_str(), method) {
                match parse_path_params(route.pattern.as_str(), path) {
                    Some(params) => {
                        proof {
                            lemma_first_match_from_witness(self.routes@, method@, path@, i as int);
                        }
                        return Some((i, params));
                    },
                    None => {},
                }
            }
            i += 1;
        }
        proof {
            lemma_first_match_none(self.routes@, method@, path@);
        }
        None
    }
}

} // verus!

verus! {

/// Every registered route is reachable: asking the table for a route's own
/// method and exact pattern finds a route (the first one registered that
/// accepts it), never nothing — literal segments equal themselves and
/// parameter segments bind.
pub proof fn lemma_registered_route_matches(routes: Seq<Route>, i: int)
    requires
        0 <= i < routes.len(),
    ensures
        spec_first_match(routes, routes[i].method@, routes[i].pattern@) is Some,
{
    crate::request::lemma_pattern_self_match(routes[i].pattern@);
    assert(spec_route_matches(routes[i], routes[i].method@, routes[i].pattern@));
    lemma_first_match_properties(routes, routes[i].method@, routes[i].pattern@);
    if spec_first_match(routes, routes[i].method@, routes[i].pattern@) is None {
        assert(!spec_route_matches(routes[i], routes[i].method@, routes[i].pattern@));
    }
}

} // verus!
