use weave::location::{DestLocation, LocationError};
use weave::routes::{from_args, require_routes, Route, RouteError, StartupError};

fn tokens(words: &[&str]) -> Vec<String> {
    words.iter().map(|w| w.to_string()).collect()
}

fn parsed(words: &[&str]) -> (Vec<Route>, Vec<String>) {
    match from_args(tokens(words)) {
        Ok(found) => found,
        Err(e) => panic!("unexpected error: {}", e.message()),
    }
}

fn refused(words: &[&str]) -> RouteError {
    match from_args(tokens(words)) {
        Ok(_) => panic!("the stream was accepted"),
        Err(e) => e,
    }
}

#[test]
fn one_route_with_space_before_the_path() {
    let (routes, rest) = parsed(&["h:1 /a", "to", "http://x/"]);
    assert_eq!(routes.len(), 1);
    assert_eq!(routes[0].src.host(), "h");
    assert_eq!(routes[0].src.port(), 1);
    assert_eq!(routes[0].src.path_prefix(), "/a");
    assert_eq!(routes[0].dest, DestLocation::RemoteOrigin { base_url: "http://x/".to_string() });
    assert!(rest.is_empty());
}

#[test]
fn two_routes_share_a_listener() {
    let (routes, rest) = parsed(&["h:1/a", "to", "http://x/", "and", "h:1/b", "to", "./dir"]);
    assert_eq!(routes.len(), 2);
    assert_eq!(routes[0].src.address(), "h:1");
    assert_eq!(routes[1].src.address(), "h:1");
    assert_eq!(routes[0].src.path_prefix(), "/a");
    assert_eq!(routes[1].src.path_prefix(), "/b");
    assert_eq!(routes[0].dest, DestLocation::RemoteOrigin { base_url: "http://x/".to_string() });
    assert_eq!(routes[1].dest, DestLocation::LocalRoot { base_path: "./dir".to_string() });
    assert!(rest.is_empty());
}

#[test]
fn routes_keep_their_order() {
    let (routes, _) = parsed(&[
        "a:1/x", "to", "./one", "and", "b:2/y", "to", "./two", "and", "c:3/z", "to", "./three",
    ]);
    let texts: Vec<String> = routes.iter().map(|r| r.to_text()).collect();
    assert_eq!(texts, vec!["a:1/x to ./one", "b:2/y to ./two", "c:3/z to ./three"]);
}

#[test]
fn a_missing_to_names_the_source() {
    let e = refused(&["h:1/a", "foo", "bar"]);
    assert_eq!(e, RouteError::ExpectedTo { src: "h:1/a".to_string() });
    assert_eq!(e.message(), "Expecting the word 'to' after the location 'h:1/a'");
}

#[test]
fn a_source_alone_is_refused() {
    let e = refused(&["h:1/a"]);
    assert_eq!(e, RouteError::ExpectedTo { src: "h:1/a".to_string() });
}

#[test]
fn the_word_to_is_case_sensitive() {
    let e = refused(&["h:1", "TO", "./dir"]);
    assert_eq!(e, RouteError::ExpectedTo { src: "h:1".to_string() });
}

#[test]
fn a_trailing_and_is_refused() {
    let e = refused(&["h:1/a", "to", "http://x/", "and"]);
    assert_eq!(e, RouteError::DanglingAnd);
    assert_eq!(e.message(), "'and' not followed by a subsequent route");
}

#[test]
fn and_before_something_else_is_refused() {
    let e = refused(&["h:1/a", "to", "http://x/", "and", "--verbose"]);
    assert_eq!(e, RouteError::DanglingAnd);
}

#[test]
fn a_missing_destination_names_the_source() {
    let e = refused(&["h:1", "to"]);
    assert_eq!(e, RouteError::MissingDestination { src: "h:1".to_string() });
    assert_eq!(
        e.message(),
        "Expecting a destination location to be provided after 'h:1 to'"
    );
}

#[test]
fn a_bad_destination_names_the_token_and_the_cause() {
    let e = refused(&["h:1", "to", "http://"]);
    assert_eq!(
        e,
        RouteError::InvalidDestination {
            token: "http://".to_string(),
            cause: LocationError::EmptyHost
        }
    );
    assert_eq!(e.message(), "Error parsing 'http://': the host name is empty");
}

#[test]
fn a_second_route_that_fails_gives_no_route_at_all() {
    let e = refused(&["h:1", "to", "./a", "and", "h:2", "to", "http:/broken"]);
    assert_eq!(
        e,
        RouteError::InvalidDestination {
            token: "http:/broken".to_string(),
            cause: LocationError::MalformedUrl
        }
    );
}

#[test]
fn tokens_behind_the_routes_come_back() {
    let (routes, rest) = parsed(&["h:1", "to", "./x", "--verbose", "and", "y"]);
    assert_eq!(routes.len(), 1);
    assert_eq!(rest, tokens(&["--verbose", "and", "y"]));
}

#[test]
fn a_stream_without_a_source_is_left_whole() {
    let (routes, rest) = parsed(&["--help", "h:1", "to", "./x"]);
    assert!(routes.is_empty());
    assert_eq!(rest, tokens(&["--help", "h:1", "to", "./x"]));
}

#[test]
fn an_empty_stream_declares_nothing() {
    let (routes, rest) = parsed(&[]);
    assert!(routes.is_empty());
    assert!(rest.is_empty());
}

#[test]
fn white_space_around_tokens_is_ignored() {
    let (routes, rest) =
        parsed(&[" h:1 ", "\tto\n", " ./x ", "\u{a0}and\u{3000}", "h:2/b/", " to", "/srv "]);
    assert_eq!(routes.len(), 2);
    assert_eq!(routes[0].to_text(), "h:1/ to ./x");
    assert_eq!(routes[1].to_text(), "h:2/b to /srv");
    assert!(rest.is_empty());
}

#[test]
fn startup_needs_a_route() {
    let (routes, _) = parsed(&["--help"]);
    assert_eq!(require_routes(&routes), Err(StartupError::NoRoutes));
    assert_eq!(
        StartupError::NoRoutes.message(),
        "No routes have been provided. Use -h or --help for more information"
    );
    let (routes, _) = parsed(&["h:1", "to", "./x"]);
    assert_eq!(require_routes(&routes), Ok(()));
}

#[test]
fn a_startup_error_wraps_the_parse_error() {
    let e = StartupError::InvalidRoutes(refused(&["h:1", "to", "x", "and"]));
    assert_eq!(
        e.message(),
        "failed to parse routes: 'and' not followed by a subsequent route"
    );
}
