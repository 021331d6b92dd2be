//! Route declarations and the grammar that reads them from a token stream:
//!
//! ```text
//! routes := route ("and" route)*
//! route  := SOURCE "to" DESTINATION
//! ```

use vstd::prelude::*;
use crate::location::{
    parse_dest, parse_src, DestLocation, DestLocationView, LocationError, SrcLocation,
    SrcLocationView,
};
use crate::text::{chars_of, push_all, same_text, string_of, trim, trimmed};

verus! {

/// What a route is: where it listens and where it leads.
pub struct RouteView {
    pub src: SrcLocationView,
    pub dest: DestLocationView,
}

/// A declared pairing of a source location with a destination.
#[derive(Debug, PartialEq, Eq)]
pub struct Route {
    pub src: SrcLocation,
    pub dest: DestLocation,
}

impl View for Route {
    type V = RouteView;

    open spec fn view(&self) -> RouteView {
        RouteView { src: self.src@, dest: self.dest@ }
    }
}

impl Clone for Route {
    fn clone(&self) -> (copy: Self)
        ensures
            copy@ == self@,
    {
        Route { src: self.src.clone(), dest: self.dest.clone() }
    }
}

impl Route {
    /// The route as `source to destination`.
    pub fn to_text(&self) -> (s: String)
        ensures
            s@ == self@.src.text() + " to "@ + self@.dest.text(),
    {
        let mut v = chars_of(self.src.to_text().as_str());
        let joiner = chars_of(" to ");
        push_all(&mut v, &joiner);
        let dest = chars_of(self.dest.to_text().as_str());
        push_all(&mut v, &dest);
        string_of(&v)
    }
}

/// The views of a vector of routes.
pub open spec fn route_views(routes: Seq<Route>) -> Seq<RouteView> {
    routes.map_values(|r: Route| r@)
}

/// The texts of a vector of strings.
pub open spec fn texts(tokens: Seq<String>) -> Seq<Seq<char>> {
    tokens.map_values(|s: String| s@)
}

/// What is wrong with a stream of route declarations.
pub enum RouteErrorView {
    /// The token behind the source `src` is not the word `to`, or is missing.
    ExpectedTo { src: Seq<char> },
    /// The stream ends behind `src to`.
    MissingDestination { src: Seq<char> },
    /// The token `token` stands where a destination belongs and is none.
    InvalidDestination { token: Seq<char>, cause: LocationError },
    /// No route follows the word `and`.
    DanglingAnd,
}

impl RouteErrorView {
    /// The text of this error.
    pub open spec fn message_text(self) -> Seq<char> {
        match self {
            RouteErrorView::ExpectedTo { src } => "Expecting the word 'to' after the location '"@
                + src + "'"@,
            RouteErrorView::MissingDestination { src } =>
                "Expecting a destination location to be provided after '"@ + src + " to'"@,
            RouteErrorView::InvalidDestination { token, cause } => "Error parsing '"@ + token
                + "': "@ + cause.message_text(),
            RouteErrorView::DanglingAnd => "'and' not followed by a subsequent route"@,
        }
    }
}

/// What is wrong with a stream of route declarations. Each variant carries
/// the token at which reading stopped.
#[derive(Debug, PartialEq, Eq)]
pub enum RouteError {
    /// The token behind the source `src` is not the word `to`, or is missing.
    ExpectedTo { src: String },
    /// The stream ends behind `src to`.
    MissingDestination { src: String },
    /// The token `token` stands where a destination belongs and is none.
    InvalidDestination { token: String, cause: LocationError },
    /// No route follows the word `and`.
    DanglingAnd,
}

impl View for RouteError {
    type V = RouteErrorView;

    open spec fn view(&self) -> RouteErrorView {
        match self {
            RouteError::ExpectedTo { src } => RouteErrorView::ExpectedTo { src: src@ },
            RouteError::MissingDestination { src } => RouteErrorView::MissingDestination {
                src: src@,
            },
            RouteError::InvalidDestination { token, cause } => RouteErrorView::InvalidDestination {
                token: token@,
                cause: *cause,
            },
            RouteError::DanglingAnd => RouteErrorView::DanglingAnd,
        }
    }
}

impl Clone for RouteError {
    fn clone(&self) -> (copy: Self)
        ensures
            copy@ == self@,
    {
        match self {
            RouteError::ExpectedTo { src } => RouteError::ExpectedTo { src: src.clone() },
            RouteError::MissingDestination { src } => RouteError::MissingDestination {
                src: src.clone(),
            },
            RouteError::InvalidDestination { token, cause } => RouteError::InvalidDestination {
                token: token.clone(),
                cause: *cause,
            },
            RouteError::DanglingAnd => RouteError::DanglingAnd,
        }
    }
}

impl RouteError {
    /// The text of this error, for the operator. It names the token at which
    /// reading stopped and what was expected there.
    pub fn message(&self) -> (text: String)
        ensures
            text@ == self@.message_text(),
    {
        match self {
            RouteError::ExpectedTo { src } => {
                let mut v = chars_of("Expecting the word 'to' after the location '");
                push_all(&mut v, &chars_of(src.as_str()));
                push_all(&mut v, &chars_of("'"));
                string_of(&v)
            },
            RouteError::MissingDestination { src } => {
                let mut v = chars_of("Expecting a destination location to be provided after '");
                push_all(&mut v, &chars_of(src.as_str()));
                push_all(&mut v, &chars_of(" to'"));
                string_of(&v)
            },
            RouteError::InvalidDestination { token, cause } => {
                let mut v = chars_of("Error parsing '");
                push_all(&mut v, &chars_of(token.as_str()));
                push_all(&mut v, &chars_of("': "));
                push_all(&mut v, &chars_of(cause.message().as_str()));
                string_of(&v)
            },
            RouteError::DanglingAnd => "'and' not followed by a subsequent route".to_owned(),
        }
    }
}

/// The word that joins a source to its destination.
pub open spec fn to_word() -> Seq<char> {
    seq!['t', 'o']
}

/// The word that joins one route to the next.
pub open spec fn and_word() -> Seq<char> {
    seq!['a', 'n', 'd']
}

/// Whether the token at `at` is the word `word`, white space around it aside.
pub open spec fn is_word_at(tokens: Seq<Seq<char>>, at: int, word: Seq<char>) -> bool {
    0 <= at < tokens.len() && trimmed(tokens[at]) == word
}

/// Whether a route begins at `at`: a token stands there and is a source.
pub open spec fn starts_route(tokens: Seq<Seq<char>>, at: int) -> bool {
    0 <= at < tokens.len() && parse_src(tokens[at]) is Ok
}

/// The route whose source is the token at `at`: the word `to` and a
/// destination must follow.
pub open spec fn route_at(tokens: Seq<Seq<char>>, at: int) -> Result<RouteView, RouteErrorView> {
    if !is_word_at(tokens, at + 1, to_word()) {
        Err(RouteErrorView::ExpectedTo { src: tokens[at] })
    } else if at + 2 >= tokens.len() {
        Err(RouteErrorView::MissingDestination { src: tokens[at] })
    } else {
        match parse_dest(tokens[at + 2]) {
            Err(cause) => Err(
                RouteErrorView::InvalidDestination { token: tokens[at + 2], cause },
            ),
            Ok(dest) => Ok(RouteView { src: parse_src(tokens[at])->Ok_0, dest }),
        }
    }
}

/// The routes that begin at `at`, joined by `and`, with the position of the
/// first token behind them.
pub open spec fn routes_from(tokens: Seq<Seq<char>>, at: int) -> Result<
    (Seq<RouteView>, int),
    RouteErrorView,
>
    decreases tokens.len() - at,
{
    match route_at(tokens, at) {
        Err(e) => Err(e),
        Ok(route) => if is_word_at(tokens, at + 3, and_word()) {
            if starts_route(tokens, at + 4) {
                match routes_from(tokens, at + 4) {
                    Err(e) => Err(e),
                    Ok((more, end)) => Ok((seq![route] + more, end)),
                }
            } else {
                Err(RouteErrorView::DanglingAnd)
            }
        } else {
            Ok((seq![route], at + 3))
        },
    }
}

/// What a token stream declares: its routes in the order in which they stand,
/// and the tokens behind them. A stream that does not begin with a source
/// declares no route and is left whole.
pub open spec fn parse_routes(tokens: Seq<Seq<char>>) -> Result<
    (Seq<RouteView>, Seq<Seq<char>>),
    RouteErrorView,
> {
    if !starts_route(tokens, 0) {
        Ok((Seq::empty(), tokens))
    } else {
        match routes_from(tokens, 0) {
            Err(e) => Err(e),
            Ok((routes, end)) => Ok((routes, tokens.skip(end))),
        }
    }
}

/// `routes_from` with the routes `before` in front of what it finds.
pub open spec fn with_earlier(
    before: Seq<RouteView>,
    found: Result<(Seq<RouteView>, int), RouteErrorView>,
) -> Result<(Seq<RouteView>, int), RouteErrorView> {
    match found {
        Err(e) => Err(e),
        Ok((more, end)) => Ok((before + more, end)),
    }
}

/// What came of reading a token stream, as views.
pub open spec fn routes_outcome(r: Result<(Vec<Route>, Vec<String>), RouteError>) -> Result<
    (Seq<RouteView>, Seq<Seq<char>>),
    RouteErrorView,
> {
    match r {
        Ok((routes, rest)) => Ok((route_views(routes@), texts(rest@))),
        Err(e) => Err(e@),
    }
}

/// Whether `token` is the word `word`, white space around it aside.
pub fn is_word(token: &str, word: &Vec<char>) -> (b: bool)
    ensures
        b == (trimmed(token@) == word@),
{
    let t = trim(&chars_of(token));
    same_text(&t, word)
}

/// Reads route declarations from the front of `args`. Returns the routes in
/// the order in which they stand, and the tokens that follow them.
pub fn from_args(args: Vec<String>) -> (r: Result<(Vec<Route>, Vec<String>), RouteError>)
    ensures
        routes_outcome(r) == parse_routes(texts(args@)),
{
    let ghost tokens = texts(args@);
    let mut args = args;
    let n: usize = args.len();
    let mut routes: Vec<Route> = Vec::new();
    assert(route_views(routes@) =~= Seq::<RouteView>::empty());
    if n == 0 {
        return Ok((routes, args));
    }
    assert(tokens[0] == args@[0]@);
    let mut src = match SrcLocation::parse(args[0].as_str()) {
        Err(_) => {
            return Ok((routes, args));
        },
        Ok(src) => src,
    };
    let to: Vec<char> = vec!['t', 'o'];
    let and: Vec<char> = vec!['a', 'n', 'd'];
    assert(to@ =~= to_word());
    assert(and@ =~= and_word());
    let mut at: usize = 0;
    let mut end: usize = 0;
    let mut failure: Option<RouteError> = None;
    assert(route_views(routes@) + Seq::<RouteView>::empty() =~= Seq::<RouteView>::empty());
    loop
        invariant_except_break
            at < n,
            starts_route(tokens, at as int),
            parse_src(tokens[at as int]) == Ok::<SrcLocationView, LocationError>(src@),
            routes_from(tokens, 0) == with_earlier(
                route_views(routes@),
                routes_from(tokens, at as int),
            ),
            failure is None,
        invariant
            n == args.len(),
            tokens == texts(args@),
            to@ == to_word(),
            and@ == and_word(),
        ensures
            failure is Some ==> routes_from(tokens, 0) == Err::<
                (Seq<RouteView>, int),
                RouteErrorView,
            >(failure->Some_0@),
            failure is None ==> end <= n && routes_from(tokens, 0) == Ok::<
                (Seq<RouteView>, int),
                RouteErrorView,
            >((route_views(routes@), end as int)),
        decreases n - at,
    {
        if at + 1 >= n || !is_word(args[at + 1].as_str(), &to) {
            failure = Some(RouteError::ExpectedTo { src: args[at].clone() });
            break ;
        }
        if at + 2 >= n {
            failure = Some(RouteError::MissingDestination { src: args[at].clone() });
            break ;
        }
        let dest = match DestLocation::parse(args[at + 2].as_str()) {
            Err(cause) => {
                failure =
                Some(RouteError::InvalidDestination { token: args[at + 2].clone(), cause });
                break ;
            },
            Ok(dest) => dest,
        };
        let ghost before = route_views(routes@);
        let route = Route { src, dest };
        let ghost route_view = route@;
        assert(route_at(tokens, at as int) == Ok::<RouteView, RouteErrorView>(route_view));
        routes.push(route);
        assert(route_views(routes@) =~= before.push(route_view));
        if at + 3 < n && is_word(args[at + 3].as_str(), &and) {
            if at + 4 >= n {
                failure = Some(RouteError::DanglingAnd);
                break ;
            }
            match SrcLocation::parse(args[at + 4].as_str()) {
                Err(_) => {
                    failure = Some(RouteError::DanglingAnd);
                    break ;
                },
                Ok(next) => {
                    src = next;
                },
            }
            proof {
                let later = routes_from(tokens, at + 4);
                if let Ok((more, stop)) = later {
                    assert(before + (seq![route_view] + more) =~= before.push(route_view) + more);
                }
            }
            at = at + 4;
        } else {
            end = at + 3;
            assert(before + seq![route_view] =~= before.push(route_view));
            break ;
        }
    }
    match failure {
        Some(e) => Err(e),
        None => {
            let rest = args.split_off(end);
            assert(texts(rest@) =~= tokens.skip(end as int));
            Ok((routes, rest))
        },
    }
}

/// The layout of a stream that parses. Each route takes its source, the
/// word `to` and its destination, in that order; the word `and` stands
/// between one route and the next and nowhere else; the routes come out in
/// the order in which they stand; and nothing behind them is touched.
pub proof fn lemma_routes_layout(tokens: Seq<Seq<char>>, at: int)
    requires
        starts_route(tokens, at),
        routes_from(tokens, at) is Ok,
    ensures
        ({
            let routes = routes_from(tokens, at)->Ok_0.0;
            let end = routes_from(tokens, at)->Ok_0.1;
            &&& routes.len() >= 1
            &&& end == at + 4 * routes.len() - 1
            &&& end <= tokens.len()
            &&& !is_word_at(tokens, end, and_word())
            &&& forall|k: int|
                0 <= k < routes.len() ==> {
                    &&& parse_src(tokens[at + 4 * k]) == Ok::<SrcLocationView, LocationError>(
                        (#[trigger] routes[k]).src,
                    )
                    &&& is_word_at(tokens, at + 4 * k + 1, to_word())
                    &&& parse_dest(tokens[at + 4 * k + 2]) == Ok::<
                        DestLocationView,
                        LocationError,
                    >(routes[k].dest)
                    &&& k + 1 < routes.len() ==> is_word_at(tokens, at + 4 * k + 3, and_word())
                }
        }),
    decreases tokens.len() - at,
{
    let route = route_at(tokens, at)->Ok_0;
    let routes = routes_from(tokens, at)->Ok_0.0;
    if is_word_at(tokens, at + 3, and_word()) {
        lemma_routes_layout(tokens, at + 4);
        let more = routes_from(tokens, at + 4)->Ok_0.0;
        assert(routes =~= seq![route] + more);
        assert forall|k: int| 0 <= k < routes.len() implies {
            &&& parse_src(tokens[at + 4 * k]) == Ok::<SrcLocationView, LocationError>(
                (#[trigger] routes[k]).src,
            )
            &&& is_word_at(tokens, at + 4 * k + 1, to_word())
            &&& parse_dest(tokens[at + 4 * k + 2]) == Ok::<DestLocationView, LocationError>(
                routes[k].dest,
            )
            &&& k + 1 < routes.len() ==> is_word_at(tokens, at + 4 * k + 3, and_word())
        } by {
            if k > 0 {
                assert(routes[k] == more[k - 1]);
                assert(at + 4 * k == (at + 4) + 4 * (k - 1));
            }
        }
    } else {
        assert(routes =~= seq![route]);
    }
}

/// A token stream declares its routes and does no more: what comes back
/// behind the routes is the end of the stream, untouched, and a stream with
/// routes begins with four tokens for each route but the last, which takes
/// three.
pub proof fn lemma_rest_is_suffix(tokens: Seq<Seq<char>>)
    requires
        parse_routes(tokens) is Ok,
    ensures
        ({
            let routes = parse_routes(tokens)->Ok_0.0;
            let rest = parse_routes(tokens)->Ok_0.1;
            &&& rest.len() <= tokens.len()
            &&& rest == tokens.skip(tokens.len() - rest.len())
            &&& routes.len() == 0 ==> rest == tokens
            &&& routes.len() > 0 ==> tokens.len() - rest.len() == 4 * routes.len() - 1
        }),
{
    if starts_route(tokens, 0) {
        lemma_routes_layout(tokens, 0);
    } else {
        assert(tokens.skip(0) =~= tokens);
    }
}

/// Why startup stops before anything is served.
#[derive(Debug, PartialEq, Eq)]
pub enum StartupError {
    /// The route declarations do not parse.
    InvalidRoutes(RouteError),
    /// No route was declared.
    NoRoutes,
}

impl StartupError {
    /// The text of this error.
    pub open spec fn message_text(self) -> Seq<char> {
        match self {
            StartupError::InvalidRoutes(e) => "failed to parse routes: "@ + e@.message_text(),
            StartupError::NoRoutes =>
                "No routes have been provided. Use -h or --help for more information"@,
        }
    }

    /// The text of this error, for the operator.
    pub fn message(&self) -> (text: String)
        ensures
            text@ == self.message_text(),
    {
        match self {
            StartupError::InvalidRoutes(e) => {
                let mut v = chars_of("failed to parse routes: ");
                push_all(&mut v, &chars_of(e.message().as_str()));
                string_of(&v)
            },
            StartupError::NoRoutes =>
                "No routes have been provided. Use -h or --help for more information".to_owned(),
        }
    }
}

/// Startup goes on only with at least one route.
pub fn require_routes(routes: &Vec<Route>) -> (r: Result<(), StartupError>)
    ensures
        routes.len() > 0 ==> r is Ok,
        routes.len() == 0 ==> r == Err::<(), StartupError>(StartupError::NoRoutes),
{
    if routes.len() == 0 {
        Err(StartupError::NoRoutes)
    } else {
        Ok(())
    }
}

} // verus!
