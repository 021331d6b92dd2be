//! The matcher: which route a request path selects, and what the request
//! resolves to.

use vstd::prelude::*;
use crate::location::{
    resolved_view, DestLocation, DestLocationView, ResolvedLocation, ResolvedLocationView,
};
use crate::path::{
    climbs, covers, has_parent_segment, is_normal_path, is_parent_segment_at, join, join_from,
    lemma_join_shape, prefix_matches, remainder, remainder_start,
};
use crate::routes::{route_views, Route, RouteView};
use crate::text::{chars_of, push_all, slice_of, string_of};

verus! {

/// Whether `route` covers the request path `path`.
pub open spec fn route_matches(route: RouteView, path: Seq<char>) -> bool {
    prefix_matches(route.src.path_prefix, path)
}

/// Whether the route at `i` is at least as good a match as the route at `j`:
/// its prefix is longer, or as long and declared no later.
pub open spec fn outranks(routes: Seq<RouteView>, i: int, j: int) -> bool {
    let a = routes[i].src.path_prefix.len();
    let b = routes[j].src.path_prefix.len();
    a > b || (a == b && i <= j)
}

/// Whether `path` selects the route at `i`: it covers the path, and no route
/// that covers the path has a longer prefix, or one as long and an earlier
/// place.
pub open spec fn is_selected(routes: Seq<RouteView>, path: Seq<char>, i: int) -> bool {
    &&& 0 <= i < routes.len()
    &&& route_matches(routes[i], path)
    &&& forall|j: int|
        0 <= j < routes.len() && route_matches(#[trigger] routes[j], path) ==> outranks(
            routes,
            i,
            j,
        )
}

/// The place of the route that `path` selects, where a route covers it.
pub open spec fn selected(routes: Seq<RouteView>, path: Seq<char>) -> Option<int>
    decreases routes.len(),
{
    if routes.len() == 0 {
        None
    } else {
        let last = routes.len() - 1;
        match selected(routes.drop_last(), path) {
            Some(i) => if route_matches(routes[last], path) && routes[last].src.path_prefix.len()
                > routes[i].src.path_prefix.len() {
                Some(last)
            } else {
                Some(i)
            },
            None => if route_matches(routes[last], path) {
                Some(last)
            } else {
                None
            },
        }
    }
}

/// What follows the path in a URL: `?` and the query, where there is one.
pub open spec fn query_suffix(query: Option<Seq<char>>) -> Seq<char> {
    match query {
        Some(q) => seq!['?'] + q,
        None => Seq::empty(),
    }
}

/// Where `route` sends a request for `path` that it covers. A remote origin
/// gets the remainder joined to its base URL, and the query of the request.
/// A local root gets the remainder joined to its base path, and nothing where
/// the remainder has a segment `..`.
pub open spec fn destination_for(
    route: RouteView,
    path: Seq<char>,
    query: Option<Seq<char>>,
) -> Option<ResolvedLocationView> {
    let rest = remainder(route.src.path_prefix, path);
    match route.dest {
        DestLocationView::RemoteOrigin { base_url } => Some(
            ResolvedLocationView::Url(join(base_url, rest) + query_suffix(query)),
        ),
        DestLocationView::LocalRoot { base_path } => if has_parent_segment(rest) {
            None
        } else {
            Some(ResolvedLocationView::FilePath(join(base_path, rest)))
        },
    }
}

/// What a request for `path` with `query` resolves to among `routes`.
pub open spec fn resolution(
    routes: Seq<RouteView>,
    path: Seq<char>,
    query: Option<Seq<char>>,
) -> Option<ResolvedLocationView> {
    match selected(routes, path) {
        None => None,
        Some(i) => destination_for(routes[i], path, query),
    }
}

/// The text of an optional string.
pub open spec fn query_view(query: Option<&str>) -> Option<Seq<char>> {
    match query {
        Some(q) => Some(q@),
        None => None,
    }
}

/// `selected` finds the selected route: it names a place exactly where
/// `is_selected` holds of it, and none exactly where no route covers the
/// path.
pub proof fn lemma_selected_is_best(routes: Seq<RouteView>, path: Seq<char>)
    ensures
        selected(routes, path) is Some ==> is_selected(routes, path, selected(routes, path)->0),
        selected(routes, path) is None ==> forall|j: int|
            0 <= j < routes.len() ==> !route_matches(#[trigger] routes[j], path),
        forall|i: int| is_selected(routes, path, i) ==> selected(routes, path) == Some(i),
    decreases routes.len(),
{
    if routes.len() > 0 {
        let init = routes.drop_last();
        let last = routes.len() - 1;
        lemma_selected_is_best(init, path);
        assert forall|j: int| 0 <= j < init.len() implies init[j] == routes[j] by {}
        match selected(init, path) {
            Some(b) => {
                assert(is_selected(init, path, b));
                let s = selected(routes, path)->0;
                assert forall|j: int|
                    0 <= j < routes.len() && route_matches(#[trigger] routes[j], path) implies outranks(
                    routes,
                    s,
                    j,
                ) by {
                    if j < last {
                        assert(route_matches(init[j], path));
                        assert(outranks(init, b, j));
                    }
                }
            },
            None => {
                assert forall|j: int| 0 <= j < last implies !route_matches(
                    #[trigger] routes[j],
                    path,
                ) by {
                    assert(!route_matches(init[j], path));
                }
            },
        }
    }
    assert forall|i: int| is_selected(routes, path, i) implies selected(routes, path) == Some(
        i,
    ) by {
        let s = selected(routes, path);
        assert(route_matches(routes[i], path));
        assert(s is Some);
        let k = s->0;
        assert(is_selected(routes, path, k));
        assert(outranks(routes, i, k));
        assert(outranks(routes, k, i));
    }
}

/// The routes of one listener, ready to resolve request paths.
pub struct Matcher {
    routes: Vec<Route>,
    prefixes: Vec<Vec<char>>,
}

impl View for Matcher {
    type V = Seq<RouteView>;

    closed spec fn view(&self) -> Seq<RouteView> {
        route_views(self.routes@)
    }
}

impl Matcher {
    #[verifier::type_invariant]
    spec fn indexed(self) -> bool {
        &&& self.prefixes@.len() == self.routes@.len()
        &&& forall|i: int|
            0 <= i < self.routes@.len() ==> (#[trigger] self.prefixes@[i])@
                == self.routes@[i]@.src.path_prefix
    }

    /// A matcher over `routes`, which keep their order: among routes with
    /// prefixes of one length the earlier one is selected.
    pub fn new(routes: Vec<Route>) -> (m: Matcher)
        ensures
            m@ == route_views(routes@),
    {
        let mut prefixes: Vec<Vec<char>> = Vec::new();
        let mut i: usize = 0;
        while i < routes.len()
            invariant
                i <= routes.len(),
                prefixes@.len() == i,
                forall|k: int|
                    0 <= k < i ==> (#[trigger] prefixes@[k])@ == routes@[k]@.src.path_prefix,
            decreases routes.len() - i,
        {
            prefixes.push(chars_of(routes[i].src.path_prefix()));
            i += 1;
        }
        Matcher { routes, prefixes }
    }

    /// The number of routes.
    pub fn len(&self) -> (n: usize)
        ensures
            n == self@.len(),
    {
        self.routes.len()
    }

    /// The routes, in the order in which they were declared.
    pub fn routes(&self) -> (routes: &Vec<Route>)
        ensures
            route_views(routes@) == self@,
    {
        &self.routes
    }

    /// The place of the route that `path` selects, where a route covers it.
    pub fn select(&self, path: &str) -> (place: Option<usize>)
        ensures
            selected(self@, path@) == match place {
                Some(i) => Some(i as int),
                None => None,
            },
    {
        proof {
            use_type_invariant(self);
        }
        let p = chars_of(path);
        let ghost views = self@;
        let n: usize = self.routes.len();
        let mut best: Option<usize> = None;
        let mut i: usize = 0;
        assert(views.take(0) =~= Seq::<RouteView>::empty());
        while i < n
            invariant
                i <= n == self.routes@.len(),
                views == route_views(self.routes@),
                p@ == path@,
                self.prefixes@.len() == n,
                forall|k: int|
                    0 <= k < n ==> (#[trigger] self.prefixes@[k])@
                        == self.routes@[k]@.src.path_prefix,
                best is Some ==> best->0 < i && selected(views.take(i as int), path@) == Some(
                    best->0 as int,
                ),
                best is None ==> selected(views.take(i as int), path@) is None,
            decreases n - i,
        {
            let prefix = &self.prefixes[i];
            proof {
                let upto = views.take(i + 1);
                assert(upto.drop_last() =~= views.take(i as int));
                assert(upto[i as int] == views[i as int]);
                assert(views[i as int] == self.routes@[i as int]@);
                if let Some(b) = best {
                    assert(upto[b as int] == views[b as int]);
                    assert(views[b as int] == self.routes@[b as int]@);
                }
            }
            if covers(prefix, &p) {
                match best {
                    None => {
                        best = Some(i);
                    },
                    Some(b) => {
                        if prefix.len() > self.prefixes[b].len() {
                            best = Some(i);
                        }
                    },
                }
            }
            i += 1;
        }
        assert(views.take(n as int) =~= views);
        best
    }

    /// Resolves a request: the path selects the route with the longest
    /// prefix that covers it, the earliest declared among several as long,
    /// and the request is sent where that route leads. Returns nothing where
    /// no route covers the path, and where the selected route leads into the
    /// file system and the remainder of the path has a segment `..`.
    pub fn resolve(&self, path: &str, query: Option<&str>) -> (r: Option<ResolvedLocation>)
        ensures
            resolved_view(r) == resolution(self@, path@, query_view(query)),
    {
        proof {
            use_type_invariant(self);
        }
        match self.select(path) {
            None => None,
            Some(i) => {
                proof {
                    lemma_selected_is_best(self@, path@);
                }
                assert(self@[i as int] == self.routes@[i as int]@);
                resolve_with(&self.routes[i], &self.prefixes[i], path, query)
            },
        }
    }
}

/// Where `route` sends a request for `path` that it covers.
fn resolve_with(route: &Route, prefix: &Vec<char>, path: &str, query: Option<&str>) -> (r:
    Option<ResolvedLocation>)
    requires
        prefix@ == route@.src.path_prefix,
        route_matches(route@, path@),
    ensures
        resolved_view(r) == destination_for(route@, path@, query_view(query)),
{
    let p = chars_of(path);
    let from: usize = remainder_start(prefix, &p);
    match &route.dest {
        DestLocation::RemoteOrigin { base_url } => {
            let base = chars_of(base_url.as_str());
            let mut url = join_from(&base, &p, from);
            match query {
                Some(q) => {
                    url.push('?');
                    push_all(&mut url, &chars_of(q));
                    assert(url@ =~= join(base@, remainder(prefix@, p@)) + (seq!['?'] + q@));
                },
                None => {
                    assert(url@ =~= join(base@, remainder(prefix@, p@)) + Seq::<char>::empty());
                },
            }
            Some(ResolvedLocation::Url(string_of(&url)))
        },
        DestLocation::LocalRoot { base_path } => {
            let rest = slice_of(&p, from, p.len());
            assert(rest@ =~= remainder(prefix@, p@));
            if climbs(&rest) {
                None
            } else {
                let base = chars_of(base_path.as_str());
                Some(ResolvedLocation::FilePath(string_of(&join_from(&base, &p, from))))
            }
        },
    }
}

/// Segment-wise prefixes chain: a prefix that covers a second prefix covers
/// every path that the second one covers.
pub proof fn lemma_prefix_matches_chain(short: Seq<char>, long: Seq<char>, path: Seq<char>)
    requires
        prefix_matches(short, long),
        prefix_matches(long, path),
    ensures
        prefix_matches(short, path),
{
    assert(short =~= path.subrange(0, short.len() as int)) by {
        assert(short =~= long.subrange(0, short.len() as int));
        assert(long =~= path.subrange(0, long.len() as int));
    }
    if !(short.len() > 0 && short.last() == '/') && long.len() > short.len() {
        assert(path[short.len() as int] == long[short.len() as int]);
    }
}

/// The longer prefix wins. Of two routes that cover a path, the one with the
/// shorter prefix is not selected, and the route that is selected has a
/// prefix at least as long as the longer one.
pub proof fn lemma_longer_prefix_wins(routes: Seq<RouteView>, path: Seq<char>, i: int, j: int)
    requires
        0 <= i < routes.len(),
        0 <= j < routes.len(),
        route_matches(routes[i], path),
        route_matches(routes[j], path),
        routes[i].src.path_prefix.len() < routes[j].src.path_prefix.len(),
    ensures
        selected(routes, path) is Some,
        selected(routes, path) != Some(i),
        routes[selected(routes, path)->0].src.path_prefix.len()
            >= routes[j].src.path_prefix.len(),
{
    lemma_selected_is_best(routes, path);
    let k = selected(routes, path)->0;
    assert(outranks(routes, k, j));
}

/// Of two routes on one listener, the first with a prefix that is a proper
/// segment-wise prefix of the second's, a path under the second selects the
/// second, in whichever order the two were declared.
pub proof fn lemma_nested_prefix_selects_inner(outer: RouteView, inner: RouteView, path: Seq<char>)
    requires
        prefix_matches(outer.src.path_prefix, inner.src.path_prefix),
        outer.src.path_prefix != inner.src.path_prefix,
        route_matches(inner, path),
    ensures
        route_matches(outer, path),
        selected(seq![outer, inner], path) == Some(1int),
        selected(seq![inner, outer], path) == Some(0int),
{
    lemma_prefix_matches_chain(outer.src.path_prefix, inner.src.path_prefix, path);
    let a = outer.src.path_prefix;
    let b = inner.src.path_prefix;
    assert(a.len() < b.len()) by {
        if a.len() == b.len() {
            assert(a =~= b.subrange(0, a.len() as int));
            assert(b.subrange(0, b.len() as int) =~= b);
        }
    }
    let first = seq![outer, inner];
    let second = seq![inner, outer];
    lemma_longer_prefix_wins(first, path, 0, 1);
    lemma_longer_prefix_wins(second, path, 1, 0);
    lemma_selected_is_best(first, path);
    lemma_selected_is_best(second, path);
}

/// The first declared wins. Of two routes with the same prefix, the one
/// declared later is never selected.
pub proof fn lemma_first_declared_wins(routes: Seq<RouteView>, path: Seq<char>, i: int, j: int)
    requires
        0 <= i < j < routes.len(),
        routes[i].src.path_prefix == routes[j].src.path_prefix,
    ensures
        selected(routes, path) != Some(j),
{
    lemma_selected_is_best(routes, path);
    if selected(routes, path) == Some(j) {
        assert(route_matches(routes[i], path));
        assert(outranks(routes, j, i));
    }
}

/// Of two routes on one listener with the same prefix, a path that they
/// cover selects the one declared first.
pub proof fn lemma_same_prefix_selects_first(first: RouteView, second: RouteView, path: Seq<char>)
    requires
        first.src.path_prefix == second.src.path_prefix,
        route_matches(first, path),
    ensures
        selected(seq![first, second], path) == Some(0int),
{
    let routes = seq![first, second];
    lemma_selected_is_best(routes, path);
    lemma_first_declared_wins(routes, path, 0, 1);
    assert(route_matches(routes[0], path));
}

/// A path that no route covers resolves to nothing.
pub proof fn lemma_uncovered_path_resolves_to_nothing(
    routes: Seq<RouteView>,
    path: Seq<char>,
    query: Option<Seq<char>>,
)
    requires
        forall|j: int| 0 <= j < routes.len() ==> !route_matches(#[trigger] routes[j], path),
    ensures
        selected(routes, path) is None,
        resolution(routes, path, query) is None,
{
    lemma_selected_is_best(routes, path);
}

/// Matching respects segment boundaries: a prefix in normal form other than
/// the root does not cover a path that goes on behind it with anything but a
/// slash.
pub proof fn lemma_prefix_ends_at_segment(prefix: Seq<char>, path: Seq<char>)
    requires
        is_normal_path(prefix),
        prefix.len() > 1,
        path.len() > prefix.len(),
        path[prefix.len() as int] != '/',
    ensures
        !prefix_matches(prefix, path),
{
}

/// A prefix in normal form and the remainder of a path that it covers make
/// up the path: nothing is dropped or doubled. Behind the root the remainder
/// is the whole path.
pub proof fn lemma_remainder_rejoins(prefix: Seq<char>, path: Seq<char>)
    requires
        is_normal_path(prefix),
        prefix_matches(prefix, path),
    ensures
        prefix.len() > 1 ==> prefix + remainder(prefix, path) == path,
        prefix.len() == 1 ==> remainder(prefix, path) == path,
{
    if prefix.len() > 1 {
        assert(prefix =~= path.subrange(0, prefix.len() as int));
        assert(prefix + path.skip(prefix.len() as int) =~= path);
    } else {
        assert(path.skip(0) =~= path);
    }
}

/// A file path that a request resolves to lies under the base path of the
/// selected route: it is the base path followed by text without a segment
/// `..`.
pub proof fn lemma_file_path_stays_under_root(
    routes: Seq<RouteView>,
    path: Seq<char>,
    query: Option<Seq<char>>,
)
    requires
        resolution(routes, path, query) matches Some(ResolvedLocationView::FilePath(_)),
    ensures
        selected(routes, path) is Some,
        routes[selected(routes, path)->0].dest is LocalRoot,
        ({
            let base = routes[selected(routes, path)->0].dest->base_path;
            let file = resolution(routes, path, query)->0->FilePath_0;
            base.is_prefix_of(file) && !has_parent_segment(file.skip(base.len() as int))
        }),
{
    lemma_selected_is_best(routes, path);
    let route = routes[selected(routes, path)->0];
    let rest = remainder(route.src.path_prefix, path);
    let base = route.dest->base_path;
    lemma_join_shape(base, rest);
    let tail = join(base, rest).skip(base.len() as int);
    if tail != rest {
        // The slash at which the two parts met was dropped; a `..` segment of
        // what is left would be one of the remainder.
        assert(tail == rest.drop_first());
        if has_parent_segment(tail) {
            let i = choose|i: int| is_parent_segment_at(tail, i);
            assert(is_parent_segment_at(rest, i + 1)) by {
                assert(tail[i] == rest[i + 1]);
                assert(tail[i + 1] == rest[i + 2]);
                if i > 0 {
                    assert(tail[i - 1] == rest[i]);
                }
                if i + 2 < tail.len() {
                    assert(tail[i + 2] == rest[i + 3]);
                }
            }
        }
    }
}

} // verus!
