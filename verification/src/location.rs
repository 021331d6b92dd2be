//! The location model: where a route listens, where it leads, and what a
//! request resolves to.

use vstd::prelude::*;
use crate::path::{
    is_normal_path, lemma_normalize_fixed, lemma_normalize_is_normal, normalize, normalize_path,
};
use crate::scan::{
    find_any, index_of_any, is_host_char, is_valid_host, lemma_index_of_any,
    lemma_index_of_any_bounds, parse_port, port_of, valid_host,
};
use crate::text::{
    chars_of, decimal_digits, format_decimal, holds_at, is_digit, is_space, is_space_char,
    lemma_decimal_round_trip, lemma_trimmed_fixed, occurs_at, push_all, slice_of, string_of, trim,
    trimmed,
};

verus! {

/// Why a location literal was refused.
#[derive(Clone, Copy, Debug, PartialEq, Eq, Structural)]
pub enum LocationError {
    /// The address has no `:` and so no port.
    MissingPort,
    /// Nothing stands where the host name belongs.
    EmptyHost,
    /// The host name holds a character that no host name has, or begins with
    /// a hyphen.
    InvalidHost,
    /// The port is empty, is not a number, or is above 65535.
    InvalidPort,
    /// The destination is empty.
    EmptyDestination,
    /// The literal names the scheme `http` or `https` and is no URL.
    MalformedUrl,
}

impl LocationError {
    /// The text of this error.
    pub open spec fn message_text(self) -> Seq<char> {
        match self {
            LocationError::MissingPort => "expected an address of the form host:port"@,
            LocationError::EmptyHost => "the host name is empty"@,
            LocationError::InvalidHost => "the host name is not valid"@,
            LocationError::InvalidPort => "the port is not a number between 0 and 65535"@,
            LocationError::EmptyDestination => "the destination is empty"@,
            LocationError::MalformedUrl => "the URL is malformed"@,
        }
    }

    /// The text of this error, for the operator.
    pub fn message(&self) -> (text: String)
        ensures
            text@ == self.message_text(),
    {
        match self {
            LocationError::MissingPort => "expected an address of the form host:port".to_owned(),
            LocationError::EmptyHost => "the host name is empty".to_owned(),
            LocationError::InvalidHost => "the host name is not valid".to_owned(),
            LocationError::InvalidPort => "the port is not a number between 0 and 65535".to_owned(),
            LocationError::EmptyDestination => "the destination is empty".to_owned(),
            LocationError::MalformedUrl => "the URL is malformed".to_owned(),
        }
    }
}

/// What a source location is: the address to listen on and the prefix of the
/// request paths that it covers.
pub struct SrcLocationView {
    pub host: Seq<char>,
    pub port: u16,
    pub path_prefix: Seq<char>,
}

impl SrcLocationView {
    /// The host is a host name and the prefix is a path in normal form.
    pub open spec fn wf(self) -> bool {
        &&& is_valid_host(self.host)
        &&& is_normal_path(self.path_prefix)
    }

    /// The address as `host:port`.
    pub open spec fn address(self) -> Seq<char> {
        self.host + seq![':'] + decimal_digits(self.port as nat)
    }

    /// The location as `host:port/prefix`.
    pub open spec fn text(self) -> Seq<char> {
        self.address() + self.path_prefix
    }
}

/// The host and port that an address `host:port` names.
pub open spec fn parse_address(a: Seq<char>) -> Result<(Seq<char>, u16), LocationError> {
    let colon = index_of_any(a, seq![':']);
    let host = a.take(colon);
    let port = a.skip(colon + 1);
    if colon == a.len() {
        Err(LocationError::MissingPort)
    } else if host.len() == 0 {
        Err(LocationError::EmptyHost)
    } else if !is_valid_host(host) {
        Err(LocationError::InvalidHost)
    } else if port_of(port) is None {
        Err(LocationError::InvalidPort)
    } else {
        Ok((host, port_of(port)->Some_0))
    }
}

/// The source location that a literal `host:port[/path-prefix]` names. White
/// space around the literal and around its address is ignored; the path
/// prefix is brought into normal form, and is `/` where the literal has none.
pub open spec fn parse_src(token: Seq<char>) -> Result<SrcLocationView, LocationError> {
    let t = trimmed(token);
    let slash = index_of_any(t, seq!['/']);
    match parse_address(trimmed(t.take(slash))) {
        Err(e) => Err(e),
        Ok((host, port)) => Ok(
            SrcLocationView { host, port, path_prefix: normalize_path(t.skip(slash)) },
        ),
    }
}

/// What came of reading a source location, as views.
pub open spec fn src_outcome(r: Result<SrcLocation, LocationError>) -> Result<
    SrcLocationView,
    LocationError,
> {
    match r {
        Ok(src) => Ok(src@),
        Err(e) => Err(e),
    }
}

/// Every source location that parses is well formed.
pub proof fn lemma_parse_src_wf(token: Seq<char>)
    ensures
        parse_src(token) is Ok ==> parse_src(token)->Ok_0.wf(),
{
    let t = trimmed(token);
    let slash = index_of_any(t, seq!['/']);
    lemma_normalize_is_normal(t.skip(slash));
}

/// Writing a source location and reading it back gives the location, as
/// long as its prefix does not end in white space (which reading would trim).
pub proof fn lemma_src_text_round_trip(v: SrcLocationView)
    requires
        v.wf(),
        !is_space(v.path_prefix.last()),
    ensures
        parse_src(v.text()) == Ok::<SrcLocationView, LocationError>(v),
{
    let digits = decimal_digits(v.port as nat);
    lemma_decimal_round_trip(v.port as nat);
    let address = v.address();
    let whole = v.text();
    assert(is_host_char(v.host[0]));
    assert(whole[0] == v.host[0]);
    assert(whole.last() == v.path_prefix.last());
    lemma_trimmed_fixed(whole);
    // Neither the host nor the port holds a slash, and the prefix begins
    // with one.
    assert forall|k: int| 0 <= k < address.len() implies !seq!['/'].contains(
        #[trigger] whole[k],
    ) && !is_space(whole[k]) by {
        if k < v.host.len() {
            assert(whole[k] == v.host[k]);
            assert(is_host_char(v.host[k]));
        } else if k > v.host.len() {
            assert(whole[k] == digits[k - v.host.len() - 1]);
            assert(is_digit(digits[k - v.host.len() - 1]));
        } else {
            assert(whole[k] == ':');
        }
        if seq!['/'].contains(whole[k]) {
            let i = choose|i: int| 0 <= i < 1 && seq!['/'][i] == whole[k];
        }
    }
    assert(whole[address.len() as int] == v.path_prefix[0]);
    assert(seq!['/'].contains(whole[address.len() as int])) by {
        assert(seq!['/'][0] == '/');
    }
    lemma_index_of_any(whole, seq!['/'], address.len() as int);
    assert(whole.take(address.len() as int) =~= address);
    assert(whole.skip(address.len() as int) =~= v.path_prefix);
    assert(address[0] == whole[0]);
    assert(address.last() == whole[address.len() - 1]);
    lemma_trimmed_fixed(address);
    lemma_normalize_fixed(v.path_prefix);
    // The first colon of the address is the one behind the host.
    assert forall|k: int| 0 <= k < v.host.len() implies !seq![':'].contains(
        #[trigger] address[k],
    ) by {
        assert(address[k] == v.host[k]);
        assert(is_host_char(v.host[k]));
        if seq![':'].contains(address[k]) {
            let i = choose|i: int| 0 <= i < 1 && seq![':'][i] == address[k];
        }
    }
    assert(seq![':'].contains(address[v.host.len() as int])) by {
        assert(address[v.host.len() as int] == ':');
        assert(seq![':'][0] == ':');
    }
    lemma_index_of_any(address, seq![':'], v.host.len() as int);
    assert(address.take(v.host.len() as int) =~= v.host);
    assert(address.skip(v.host.len() as int + 1) =~= digits);
    assert(port_of(digits) == Some(v.port));
}

/// The host and port of an address.
pub fn split_address(a: &Vec<char>) -> (r: Result<(Vec<char>, u16), LocationError>)
    ensures
        r is Ok ==> parse_address(a@) == Ok::<(Seq<char>, u16), LocationError>(
            (r->Ok_0.0@, r->Ok_0.1),
        ),
        r is Err ==> parse_address(a@) == Err::<(Seq<char>, u16), LocationError>(r->Err_0),
{
    let stops: Vec<char> = vec![':'];
    assert(stops@ =~= seq![':']);
    let colon: usize = find_any(a, &stops);
    if colon == a.len() {
        return Err(LocationError::MissingPort);
    }
    let host = slice_of(a, 0, colon);
    if host.len() == 0 {
        return Err(LocationError::EmptyHost);
    }
    if !valid_host(&host) {
        return Err(LocationError::InvalidHost);
    }
    let digits = slice_of(a, colon + 1, a.len());
    match parse_port(&digits) {
        None => Err(LocationError::InvalidPort),
        Some(port) => Ok((host, port)),
    }
}

/// A listen address and the prefix of the request paths that a route covers.
#[derive(Debug, PartialEq, Eq)]
pub struct SrcLocation {
    host: String,
    port: u16,
    path_prefix: String,
}

impl View for SrcLocation {
    type V = SrcLocationView;

    closed spec fn view(&self) -> SrcLocationView {
        SrcLocationView { host: self.host@, port: self.port, path_prefix: self.path_prefix@ }
    }
}

impl Clone for SrcLocation {
    fn clone(&self) -> (copy: Self)
        ensures
            copy@ == self@,
    {
        proof {
            use_type_invariant(self);
        }
        SrcLocation {
            host: self.host.clone(),
            port: self.port,
            path_prefix: self.path_prefix.clone(),
        }
    }
}

impl SrcLocation {
    #[verifier::type_invariant]
    spec fn well_formed(self) -> bool {
        self@.wf()
    }

    /// Reads a literal `host:port[/path-prefix]`.
    pub fn parse(token: &str) -> (r: Result<SrcLocation, LocationError>)
        ensures
            src_outcome(r) == parse_src(token@),
            r is Ok ==> r->Ok_0@.wf(),
    {
        let all = chars_of(token);
        let t = trim(&all);
        let stops: Vec<char> = vec!['/'];
        assert(stops@ =~= seq!['/']);
        let slash: usize = find_any(&t, &stops);
        let before = slice_of(&t, 0, slash);
        let address = trim(&before);
        match split_address(&address) {
            Err(e) => Err(e),
            Ok((host, port)) => {
                let rest = slice_of(&t, slash, t.len());
                let prefix = normalize(&rest);
                proof {
                    lemma_normalize_is_normal(rest@);
                }
                Ok(SrcLocation { host: string_of(&host), port, path_prefix: string_of(&prefix) })
            },
        }
    }

    /// The host to listen on.
    pub fn host(&self) -> (h: &str)
        ensures
            h@ == self@.host,
            is_valid_host(h@),
    {
        proof {
            use_type_invariant(self);
        }
        self.host.as_str()
    }

    /// The port to listen on.
    pub fn port(&self) -> (p: u16)
        ensures
            p == self@.port,
    {
        self.port
    }

    /// The path prefix that this location covers, in normal form.
    pub fn path_prefix(&self) -> (p: &str)
        ensures
            p@ == self@.path_prefix,
            is_normal_path(p@),
    {
        proof {
            use_type_invariant(self);
        }
        self.path_prefix.as_str()
    }

    /// The address as `host:port`.
    pub fn address(&self) -> (a: String)
        ensures
            a@ == self@.address(),
    {
        let mut v = chars_of(self.host.as_str());
        v.push(':');
        let digits = format_decimal(self.port);
        push_all(&mut v, &digits);
        assert(v@ =~= self@.address());
        string_of(&v)
    }

    /// The location as `host:port/prefix`.
    pub fn to_text(&self) -> (s: String)
        ensures
            s@ == self@.text(),
    {
        let mut v = chars_of(self.host.as_str());
        v.push(':');
        let digits = format_decimal(self.port);
        push_all(&mut v, &digits);
        let prefix = chars_of(self.path_prefix.as_str());
        push_all(&mut v, &prefix);
        assert(v@ =~= self@.text());
        string_of(&v)
    }
}

/// What a destination is.
pub enum DestLocationView {
    /// A URL; its path is the base to which a remainder is joined.
    RemoteOrigin { base_url: Seq<char> },
    /// A directory or file of the local file system.
    LocalRoot { base_path: Seq<char> },
}

impl DestLocationView {
    /// The destination as text: the URL or the path.
    pub open spec fn text(self) -> Seq<char> {
        match self {
            DestLocationView::RemoteOrigin { base_url } => base_url,
            DestLocationView::LocalRoot { base_path } => base_path,
        }
    }
}

/// `http://`
pub open spec fn http_scheme() -> Seq<char> {
    seq!['h', 't', 't', 'p', ':', '/', '/']
}

/// `https://`
pub open spec fn https_scheme() -> Seq<char> {
    seq!['h', 't', 't', 'p', 's', ':', '/', '/']
}

/// Whether `c` may stand in the path of a URL: neither white space nor a
/// control character.
pub open spec fn is_url_char(c: char) -> bool {
    !is_space(c) && c as u32 > 0x20 && c as u32 != 0x7f
}

/// Whether the authority `a` of a URL is `host` or `host:port`.
pub open spec fn check_authority(a: Seq<char>) -> Result<(), LocationError> {
    let colon = index_of_any(a, seq![':']);
    let host = a.take(colon);
    if host.len() == 0 {
        Err(LocationError::EmptyHost)
    } else if !is_valid_host(host) {
        Err(LocationError::InvalidHost)
    } else if colon < a.len() && port_of(a.skip(colon + 1)) is None {
        Err(LocationError::InvalidPort)
    } else {
        Ok(())
    }
}

/// The base URL that the literal `t` names, whose scheme with `://` takes the
/// first `start` characters: scheme, authority and path. A query and a
/// fragment of the literal are left out, and a missing path is `/`.
pub open spec fn parse_url(t: Seq<char>, start: int) -> Result<DestLocationView, LocationError> {
    let rest = t.skip(start);
    let authority_len = index_of_any(rest, seq!['/', '?', '#']);
    let tail = rest.skip(authority_len);
    let path = tail.take(index_of_any(tail, seq!['?', '#']));
    match check_authority(rest.take(authority_len)) {
        Err(e) => Err(e),
        Ok(_) => if exists|i: int| 0 <= i < path.len() && !is_url_char(#[trigger] path[i]) {
            Err(LocationError::MalformedUrl)
        } else {
            Ok(
                DestLocationView::RemoteOrigin {
                    base_url: t.take(start + authority_len) + (if path.len() == 0 {
                        seq!['/']
                    } else {
                        path
                    }),
                },
            )
        },
    }
}

/// The destination that a literal names. White space around the literal is
/// ignored. A literal that begins with `http://` or `https://` is a URL; one
/// that begins with `http:` or `https:` otherwise is refused; any other
/// literal that is not empty is a path of the local file system.
pub open spec fn parse_dest(token: Seq<char>) -> Result<DestLocationView, LocationError> {
    let t = trimmed(token);
    if t.len() == 0 {
        Err(LocationError::EmptyDestination)
    } else if occurs_at(t, 0, http_scheme()) {
        parse_url(t, http_scheme().len() as int)
    } else if occurs_at(t, 0, https_scheme()) {
        parse_url(t, https_scheme().len() as int)
    } else if occurs_at(t, 0, http_scheme().take(5)) || occurs_at(t, 0, https_scheme().take(6)) {
        Err(LocationError::MalformedUrl)
    } else {
        Ok(DestLocationView::LocalRoot { base_path: t })
    }
}

/// The variant of a destination follows from the syntax of its literal: a
/// literal that begins with `http://` or `https://` names a remote origin
/// whose base URL begins likewise, and any other one a local root, which is
/// the literal without the white space around it.
pub proof fn lemma_dest_variant_follows_syntax(token: Seq<char>)
    requires
        parse_dest(token) is Ok,
    ensures
        ({
            let t = trimmed(token);
            let dest = parse_dest(token)->Ok_0;
            let is_url = occurs_at(t, 0, http_scheme()) || occurs_at(t, 0, https_scheme());
            &&& is_url <==> dest is RemoteOrigin
            &&& dest matches DestLocationView::RemoteOrigin { base_url } ==> occurs_at(
                base_url,
                0,
                http_scheme(),
            ) || occurs_at(base_url, 0, https_scheme())
            &&& dest matches DestLocationView::LocalRoot { base_path } ==> base_path == t
                && t.len() > 0
        }),
{
    let t = trimmed(token);
    if occurs_at(t, 0, http_scheme()) {
        lemma_base_url_keeps_scheme(t, http_scheme());
    } else if occurs_at(t, 0, https_scheme()) {
        lemma_base_url_keeps_scheme(t, https_scheme());
    }
}

/// A base URL begins with the scheme of its literal.
proof fn lemma_base_url_keeps_scheme(t: Seq<char>, scheme: Seq<char>)
    requires
        occurs_at(t, 0, scheme),
        parse_url(t, scheme.len() as int) is Ok,
    ensures
        parse_url(t, scheme.len() as int)->Ok_0 is RemoteOrigin,
        occurs_at(parse_url(t, scheme.len() as int)->Ok_0->base_url, 0, scheme),
{
    let start = scheme.len() as int;
    let rest = t.skip(start);
    let authority_len = index_of_any(rest, seq!['/', '?', '#']);
    lemma_index_of_any_bounds(rest, seq!['/', '?', '#']);
    let base = parse_url(t, start)->Ok_0->base_url;
    assert(base.subrange(0, start) =~= t.subrange(0, start));
}

/// What came of reading a destination, as views.
pub open spec fn dest_outcome(r: Result<DestLocation, LocationError>) -> Result<
    DestLocationView,
    LocationError,
> {
    match r {
        Ok(dest) => Ok(dest@),
        Err(e) => Err(e),
    }
}

/// Where a route leads: a remote origin or a root in the local file system.
#[derive(Debug, PartialEq, Eq)]
pub enum DestLocation {
    /// A URL; its path is the base to which a remainder is joined.
    RemoteOrigin { base_url: String },
    /// A directory or file of the local file system.
    LocalRoot { base_path: String },
}

impl View for DestLocation {
    type V = DestLocationView;

    open spec fn view(&self) -> DestLocationView {
        match self {
            DestLocation::RemoteOrigin { base_url } => DestLocationView::RemoteOrigin {
                base_url: base_url@,
            },
            DestLocation::LocalRoot { base_path } => DestLocationView::LocalRoot {
                base_path: base_path@,
            },
        }
    }
}

impl Clone for DestLocation {
    fn clone(&self) -> (copy: Self)
        ensures
            copy@ == self@,
    {
        match self {
            DestLocation::RemoteOrigin { base_url } => DestLocation::RemoteOrigin {
                base_url: base_url.clone(),
            },
            DestLocation::LocalRoot { base_path } => DestLocation::LocalRoot {
                base_path: base_path.clone(),
            },
        }
    }
}

/// Checks the authority of a URL.
pub fn authority_ok(a: &Vec<char>) -> (r: Result<(), LocationError>)
    ensures
        r == check_authority(a@),
{
    let stops: Vec<char> = vec![':'];
    assert(stops@ =~= seq![':']);
    let colon: usize = find_any(a, &stops);
    let host = slice_of(a, 0, colon);
    if host.len() == 0 {
        return Err(LocationError::EmptyHost);
    }
    if !valid_host(&host) {
        return Err(LocationError::InvalidHost);
    }
    if colon < a.len() {
        let digits = slice_of(a, colon + 1, a.len());
        if parse_port(&digits).is_none() {
            return Err(LocationError::InvalidPort);
        }
    }
    Ok(())
}

/// Whether every character of `v` may stand in the path of a URL.
pub fn url_chars_only(v: &Vec<char>) -> (b: bool)
    ensures
        b == !(exists|i: int| 0 <= i < v@.len() && !is_url_char(#[trigger] v@[i])),
{
    let mut i: usize = 0;
    while i < v.len()
        invariant
            i <= v.len(),
            forall|k: int| 0 <= k < i ==> is_url_char(#[trigger] v@[k]),
        decreases v.len() - i,
    {
        let c: char = v[i];
        if is_space_char(c) || c as u32 <= 0x20 || c as u32 == 0x7f {
            assert(!is_url_char(v@[i as int]));
            return false;
        }
        i += 1;
    }
    true
}

/// Reads the URL `t`, whose scheme with `://` takes the first `start`
/// characters.
fn read_url(t: &Vec<char>, start: usize) -> (r: Result<DestLocation, LocationError>)
    requires
        start <= t.len(),
    ensures
        dest_outcome(r) == parse_url(t@, start as int),
{
    let rest = slice_of(t, start, t.len());
    assert(rest@ =~= t@.skip(start as int));
    let ends: Vec<char> = vec!['/', '?', '#'];
    assert(ends@ =~= seq!['/', '?', '#']);
    let authority_len: usize = find_any(&rest, &ends);
    let authority = slice_of(&rest, 0, authority_len);
    let tail = slice_of(&rest, authority_len, rest.len());
    assert(tail@ =~= rest@.skip(authority_len as int));
    let path_ends: Vec<char> = vec!['?', '#'];
    assert(path_ends@ =~= seq!['?', '#']);
    let path_len: usize = find_any(&tail, &path_ends);
    let path = slice_of(&tail, 0, path_len);
    match authority_ok(&authority) {
        Err(e) => Err(e),
        Ok(_) => {
            if !url_chars_only(&path) {
                return Err(LocationError::MalformedUrl);
            }
            let mut base = slice_of(t, 0, start + authority_len);
            if path.len() == 0 {
                base.push('/');
                assert(base@ =~= t@.take(start + authority_len) + seq!['/']);
            } else {
                push_all(&mut base, &path);
            }
            Ok(DestLocation::RemoteOrigin { base_url: string_of(&base) })
        },
    }
}

impl DestLocation {
    /// Reads a destination literal: a URL with the scheme `http` or `https`,
    /// or a path of the local file system.
    pub fn parse(token: &str) -> (r: Result<DestLocation, LocationError>)
        ensures
            dest_outcome(r) == parse_dest(token@),
    {
        let all = chars_of(token);
        let t = trim(&all);
        if t.len() == 0 {
            return Err(LocationError::EmptyDestination);
        }
        let http: Vec<char> = vec!['h', 't', 't', 'p', ':', '/', '/'];
        let https: Vec<char> = vec!['h', 't', 't', 'p', 's', ':', '/', '/'];
        assert(http@ =~= http_scheme());
        assert(https@ =~= https_scheme());
        if holds_at(&t, 0, &http) {
            return read_url(&t, http.len());
        }
        if holds_at(&t, 0, &https) {
            return read_url(&t, https.len());
        }
        let bare_http = slice_of(&http, 0, 5);
        let bare_https = slice_of(&https, 0, 6);
        if holds_at(&t, 0, &bare_http) || holds_at(&t, 0, &bare_https) {
            return Err(LocationError::MalformedUrl);
        }
        Ok(DestLocation::LocalRoot { base_path: string_of(&t) })
    }

    /// The destination as text: the URL or the path.
    pub fn to_text(&self) -> (s: String)
        ensures
            s@ == self@.text(),
    {
        match self {
            DestLocation::RemoteOrigin { base_url } => base_url.clone(),
            DestLocation::LocalRoot { base_path } => base_path.clone(),
        }
    }
}

/// What a request resolved to.
pub enum ResolvedLocationView {
    /// The URL to which the request is forwarded.
    Url(Seq<char>),
    /// The path of the file that answers the request.
    FilePath(Seq<char>),
}

impl ResolvedLocationView {
    /// The resolved location as text.
    pub open spec fn text(self) -> Seq<char> {
        match self {
            ResolvedLocationView::Url(url) => url,
            ResolvedLocationView::FilePath(path) => path,
        }
    }
}

/// What came of resolving a request, as a view.
pub open spec fn resolved_view(r: Option<ResolvedLocation>) -> Option<ResolvedLocationView> {
    match r {
        Some(location) => Some(location@),
        None => None,
    }
}

/// What one request resolved to: a URL to forward it to, or the path of a
/// file to answer it with.
#[derive(Debug, PartialEq, Eq)]
pub enum ResolvedLocation {
    /// The URL to which the request is forwarded.
    Url(String),
    /// The path of the file that answers the request.
    FilePath(String),
}

impl View for ResolvedLocation {
    type V = ResolvedLocationView;

    open spec fn view(&self) -> ResolvedLocationView {
        match self {
            ResolvedLocation::Url(url) => ResolvedLocationView::Url(url@),
            ResolvedLocation::FilePath(path) => ResolvedLocationView::FilePath(path@),
        }
    }
}

impl Clone for ResolvedLocation {
    fn clone(&self) -> (copy: Self)
        ensures
            copy@ == self@,
    {
        match self {
            ResolvedLocation::Url(url) => ResolvedLocation::Url(url.clone()),
            ResolvedLocation::FilePath(path) => ResolvedLocation::FilePath(path.clone()),
        }
    }
}

impl ResolvedLocation {
    /// The resolved location as text.
    pub fn to_text(&self) -> (s: String)
        ensures
            s@ == self@.text(),
    {
        match self {
            ResolvedLocation::Url(url) => url.clone(),
            ResolvedLocation::FilePath(path) => path.clone(),
        }
    }
}

} // verus!
