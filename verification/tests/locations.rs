use weave::location::{DestLocation, LocationError, ResolvedLocation, SrcLocation};

fn src(token: &str) -> SrcLocation {
    match SrcLocation::parse(token) {
        Ok(s) => s,
        Err(e) => panic!("{} refused: {}", token, e.message()),
    }
}

fn src_error(token: &str) -> LocationError {
    match SrcLocation::parse(token) {
        Ok(s) => panic!("{} accepted as {}", token, s.to_text()),
        Err(e) => e,
    }
}

fn url(text: &str) -> Result<DestLocation, LocationError> {
    Ok(DestLocation::RemoteOrigin { base_url: text.to_string() })
}

fn root(text: &str) -> Result<DestLocation, LocationError> {
    Ok(DestLocation::LocalRoot { base_path: text.to_string() })
}

#[test]
fn a_source_without_a_path_covers_the_root() {
    let s = src("localhost:8080");
    assert_eq!(s.host(), "localhost");
    assert_eq!(s.port(), 8080);
    assert_eq!(s.path_prefix(), "/");
    assert_eq!(s.address(), "localhost:8080");
    assert_eq!(s.to_text(), "localhost:8080/");
}

#[test]
fn a_source_path_is_brought_into_normal_form() {
    assert_eq!(src("h:80/a").path_prefix(), "/a");
    assert_eq!(src("h:80/a/").path_prefix(), "/a");
    assert_eq!(src("h:80//a///b//").path_prefix(), "/a/b");
    assert_eq!(src("h:80/").path_prefix(), "/");
    assert_eq!(src("h:80///").path_prefix(), "/");
    assert_eq!(src("h:80/a b/c").path_prefix(), "/a b/c");
}

#[test]
fn a_source_port_is_a_number_up_to_65535() {
    assert_eq!(src("h:0").port(), 0);
    assert_eq!(src("h:080").port(), 80);
    assert_eq!(src("h:65535").port(), 65535);
    assert_eq!(src("h:0000065535").address(), "h:65535");
    assert_eq!(src_error("h:65536"), LocationError::InvalidPort);
    assert_eq!(src_error("h:99999999999999999999"), LocationError::InvalidPort);
    assert_eq!(src_error("h:"), LocationError::InvalidPort);
    assert_eq!(src_error("h:8o"), LocationError::InvalidPort);
    assert_eq!(src_error("h:80:90"), LocationError::InvalidPort);
    assert_eq!(src_error("h:-1"), LocationError::InvalidPort);
}

#[test]
fn a_source_needs_host_and_port() {
    assert_eq!(src_error("to"), LocationError::MissingPort);
    assert_eq!(src_error(""), LocationError::MissingPort);
    assert_eq!(src_error("8080"), LocationError::MissingPort);
    assert_eq!(src_error("/a:1"), LocationError::MissingPort);
    assert_eq!(src_error(":8080"), LocationError::EmptyHost);
    assert_eq!(src_error("h!:80"), LocationError::InvalidHost);
    assert_eq!(src_error("-h:80"), LocationError::InvalidHost);
    assert_eq!(src_error("a b:80"), LocationError::InvalidHost);
    assert_eq!(src("my-host_1.example.org:80").host(), "my-host_1.example.org");
    assert_eq!(src("127.0.0.1:80").host(), "127.0.0.1");
}

#[test]
fn location_errors_have_their_texts() {
    assert_eq!(
        LocationError::MissingPort.message(),
        "expected an address of the form host:port"
    );
    assert_eq!(LocationError::EmptyHost.message(), "the host name is empty");
    assert_eq!(LocationError::InvalidHost.message(), "the host name is not valid");
    assert_eq!(
        LocationError::InvalidPort.message(),
        "the port is not a number between 0 and 65535"
    );
    assert_eq!(LocationError::EmptyDestination.message(), "the destination is empty");
    assert_eq!(LocationError::MalformedUrl.message(), "the URL is malformed");
}

#[test]
fn a_url_is_a_remote_origin() {
    assert_eq!(DestLocation::parse("http://x/"), url("http://x/"));
    assert_eq!(DestLocation::parse("http://x"), url("http://x/"));
    assert_eq!(DestLocation::parse("https://x:8443/base"), url("https://x:8443/base"));
    assert_eq!(DestLocation::parse("  https://example.org/a/b/  "), url("https://example.org/a/b/"));
}

#[test]
fn query_and_fragment_are_no_part_of_the_base() {
    assert_eq!(DestLocation::parse("https://x:8443/base?q=1#f"), url("https://x:8443/base"));
    assert_eq!(DestLocation::parse("http://x?y"), url("http://x/"));
    assert_eq!(DestLocation::parse("http://x#y/z"), url("http://x/"));
}

#[test]
fn a_broken_url_is_refused() {
    assert_eq!(DestLocation::parse("http:/x"), Err(LocationError::MalformedUrl));
    assert_eq!(DestLocation::parse("https:x"), Err(LocationError::MalformedUrl));
    assert_eq!(DestLocation::parse("http:"), Err(LocationError::MalformedUrl));
    assert_eq!(DestLocation::parse("http://"), Err(LocationError::EmptyHost));
    assert_eq!(DestLocation::parse("http:///path"), Err(LocationError::EmptyHost));
    assert_eq!(DestLocation::parse("http://:80/"), Err(LocationError::EmptyHost));
    assert_eq!(DestLocation::parse("http://user@x/"), Err(LocationError::InvalidHost));
    assert_eq!(DestLocation::parse("http://x:99999/"), Err(LocationError::InvalidPort));
    assert_eq!(DestLocation::parse("http://x:/"), Err(LocationError::InvalidPort));
    assert_eq!(DestLocation::parse("http://x/a b"), Err(LocationError::MalformedUrl));
    assert_eq!(DestLocation::parse("http://x/a\u{7f}"), Err(LocationError::MalformedUrl));
}

#[test]
fn anything_else_is_a_local_root() {
    assert_eq!(DestLocation::parse("./dir"), root("./dir"));
    assert_eq!(DestLocation::parse("/srv/www/"), root("/srv/www/"));
    assert_eq!(DestLocation::parse(" dir with space "), root("dir with space"));
    assert_eq!(DestLocation::parse("HTTP://x/"), root("HTTP://x/"));
    assert_eq!(DestLocation::parse("httpd/conf"), root("httpd/conf"));
    assert_eq!(DestLocation::parse("ftp://x/"), root("ftp://x/"));
}

#[test]
fn an_empty_destination_is_refused() {
    assert_eq!(DestLocation::parse(""), Err(LocationError::EmptyDestination));
    assert_eq!(DestLocation::parse(" \t "), Err(LocationError::EmptyDestination));
}

#[test]
fn locations_have_their_texts() {
    assert_eq!(DestLocation::parse("http://x").unwrap().to_text(), "http://x/");
    assert_eq!(DestLocation::parse("./dir").unwrap().to_text(), "./dir");
    assert_eq!(ResolvedLocation::Url("http://x/a".to_string()).to_text(), "http://x/a");
    assert_eq!(ResolvedLocation::FilePath("./dir/a".to_string()).to_text(), "./dir/a");
}

#[test]
fn copies_are_equal() {
    let s = src("h:1/a");
    assert_eq!(s.clone(), s);
    let d = DestLocation::parse("./dir").unwrap();
    assert_eq!(d.clone(), d);
    let r = ResolvedLocation::Url("http://x/".to_string());
    assert_eq!(r.clone(), r);
}
