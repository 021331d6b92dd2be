//! The decisions of the request dispatcher.
//!
//! The dispatcher itself does no I/O. [`begin`] says what a resolved request
//! asks for: an answer at once, a request to a remote origin, or a file to
//! read. The caller does that work and reports how it went, and gets back
//! the answer to send or the next file to try, together with the report of
//! the request for the log.

use vstd::prelude::*;
use vstd::string::StrSliceExecFns;
use vstd::utf8::encode_utf8;
use crate::location::ResolvedLocation;
use crate::media::{media_type, media_type_of};
use crate::outcome::{class_of_status, classify, OutcomeClass};
use crate::text::{chars_of, decimal_digits, format_decimal, push_all, string_of};

verus! {

/// What an answer is: status, content type and body.
pub struct ReplyView {
    pub status: u16,
    pub content_type: Option<Seq<char>>,
    pub body: Seq<u8>,
}

/// An answer that the dispatcher makes up itself.
#[derive(Debug, PartialEq, Eq)]
pub struct Reply {
    pub status: u16,
    pub content_type: Option<String>,
    pub body: Vec<u8>,
}

/// The text of an optional string.
pub open spec fn text_of(s: Option<String>) -> Option<Seq<char>> {
    match s {
        Some(s) => Some(s@),
        None => None,
    }
}

impl View for Reply {
    type V = ReplyView;

    open spec fn view(&self) -> ReplyView {
        ReplyView {
            status: self.status,
            content_type: text_of(self.content_type),
            body: self.body@,
        }
    }
}

/// What is reported of a finished request.
pub struct ReportView {
    pub status: Option<u16>,
    pub dest: Option<Seq<char>>,
    pub error: Option<Seq<char>>,
}

impl ReportView {
    /// The class of the request: that of its status, and a warning where no
    /// route matched.
    pub open spec fn class(self) -> OutcomeClass {
        match self.status {
            Some(status) => class_of_status(status),
            None => OutcomeClass::Warning,
        }
    }

    /// The log line of the request, which came in for `src` and took
    /// `elapsed`.
    pub open spec fn line(self, src: Seq<char>, elapsed: Seq<char>) -> Seq<char> {
        let head = match self.status {
            Some(status) => seq!['['] + decimal_digits(status as nat) + seq![']', ' '],
            None => "[no matching routes] "@,
        };
        let dest = match self.dest {
            Some(dest) => " to "@ + dest,
            None => Seq::empty(),
        };
        let error = match self.error {
            Some(error) => seq![' ', '('] + error + seq![')'],
            None => Seq::empty(),
        };
        head + src + dest + error + " in "@ + elapsed
    }
}

/// What is reported of a finished request: its status, or none where no
/// route matched; where it was sent, if anywhere; and what went wrong, if
/// anything did.
#[derive(Debug, PartialEq, Eq)]
pub struct Report {
    pub status: Option<u16>,
    pub dest: Option<String>,
    pub error: Option<String>,
}

impl View for Report {
    type V = ReportView;

    open spec fn view(&self) -> ReportView {
        ReportView { status: self.status, dest: text_of(self.dest), error: text_of(self.error) }
    }
}

impl Report {
    /// The class of the request.
    pub fn class(&self) -> (class: OutcomeClass)
        ensures
            class == self@.class(),
    {
        match self.status {
            Some(status) => classify(status),
            None => OutcomeClass::Warning,
        }
    }

    /// The log line of the request, which came in for `src` and took
    /// `elapsed`.
    pub fn line(&self, src: &str, elapsed: &str) -> (line: String)
        ensures
            line@ == self@.line(src@, elapsed@),
    {
        let mut v: Vec<char> = match self.status {
            Some(status) => {
                let mut head: Vec<char> = vec!['['];
                push_all(&mut head, &format_decimal(status));
                head.push(']');
                head.push(' ');
                assert(head@ =~= seq!['['] + decimal_digits(status as nat) + seq![']', ' ']);
                head
            },
            None => chars_of("[no matching routes] "),
        };
        push_all(&mut v, &chars_of(src));
        let ghost with_src = v@;
        match &self.dest {
            Some(dest) => {
                push_all(&mut v, &chars_of(" to "));
                push_all(&mut v, &chars_of(dest.as_str()));
                assert(v@ =~= with_src + (" to "@ + dest@));
            },
            None => {
                assert(v@ =~= with_src + Seq::<char>::empty());
            },
        }
        let ghost with_dest = v@;
        match &self.error {
            Some(error) => {
                v.push(' ');
                v.push('(');
                push_all(&mut v, &chars_of(error.as_str()));
                v.push(')');
                assert(v@ =~= with_dest + (seq![' ', '('] + error@ + seq![')']));
            },
            None => {
                assert(v@ =~= with_dest + Seq::<char>::empty());
            },
        }
        push_all(&mut v, &chars_of(" in "));
        push_all(&mut v, &chars_of(elapsed));
        string_of(&v)
    }
}

/// How a request ended.
pub struct OutcomeView {
    /// The answer to send; none where the answer of the remote origin is
    /// passed on as it came.
    pub reply: Option<ReplyView>,
    pub report: ReportView,
}

/// How a request ended: the answer to send and the report for the log.
#[derive(Debug, PartialEq, Eq)]
pub struct Outcome {
    /// The answer to send; none where the answer of the remote origin is
    /// passed on as it came.
    pub reply: Option<Reply>,
    pub report: Report,
}

impl View for Outcome {
    type V = OutcomeView;

    open spec fn view(&self) -> OutcomeView {
        OutcomeView {
            reply: match self.reply {
                Some(reply) => Some(reply@),
                None => None,
            },
            report: self.report@,
        }
    }
}

/// An answer with a body of text and no content type.
pub open spec fn text_reply(status: u16, text: Seq<char>) -> ReplyView {
    ReplyView { status, content_type: None, body: encode_utf8(text) }
}

/// No route matched: 404 with a fixed body, and a report without status.
pub open spec fn no_route() -> OutcomeView {
    OutcomeView {
        reply: Some(text_reply(404, "Weave: No routes matched"@)),
        report: ReportView { status: None, dest: None, error: None },
    }
}

/// The remote origin at `url` answered with `status`: its answer is passed
/// on as it came.
pub open spec fn forwarded(url: Seq<char>, status: u16) -> OutcomeView {
    OutcomeView {
        reply: None,
        report: ReportView { status: Some(status), dest: Some(url), error: None },
    }
}

/// The remote origin at `url` could not be reached: 500 with the error in
/// the body.
pub open spec fn origin_failed(url: Seq<char>, error: Seq<char>) -> OutcomeView {
    OutcomeView {
        reply: Some(text_reply(500, "Weave: "@ + error)),
        report: ReportView { status: Some(500), dest: Some(url), error: Some(error) },
    }
}

/// A file was read for the resolved path `root`: 200 with its contents and
/// the media type of the file that was read.
pub open spec fn served(root: Seq<char>, media_type: Seq<char>, contents: Seq<u8>) -> OutcomeView {
    OutcomeView {
        reply: Some(ReplyView { status: 200, content_type: Some(media_type), body: contents }),
        report: ReportView { status: Some(200), dest: Some(root), error: None },
    }
}

/// No file could be read for the resolved path `root`: 404 with a body that
/// names the path and the last error.
pub open spec fn unreadable(root: Seq<char>, error: Seq<char>) -> OutcomeView {
    OutcomeView {
        reply: Some(text_reply(404, "Weave: Could not read file '"@ + root + "': "@ + error)),
        report: ReportView { status: Some(404), dest: Some(root), error: Some(error) },
    }
}

/// `path` with the file name `name` behind it, as a path.
pub open spec fn with_file_name(path: Seq<char>, name: Seq<char>) -> Seq<char> {
    if path.len() == 0 {
        name
    } else if path.last() == '/' {
        path + name
    } else {
        path + seq!['/'] + name
    }
}

/// The number of files that are tried for one resolved path.
pub open spec fn attempts() -> nat {
    3
}

/// The file that is tried at `attempt` for the resolved path `root`: the
/// path itself, then `index.htm` under it, then `index.html` under it.
pub open spec fn candidate(root: Seq<char>, attempt: nat) -> Seq<char> {
    if attempt == 0 {
        root
    } else if attempt == 1 {
        with_file_name(root, "index.htm"@)
    } else {
        with_file_name(root, "index.html"@)
    }
}

/// An answer with a body of text and no content type.
pub fn reply_with_text(status: u16, text: &str) -> (reply: Reply)
    ensures
        reply@ == text_reply(status, text@),
{
    Reply { status, content_type: None, body: text.as_bytes_vec() }
}

/// The outcome of a file read for the resolved path `root`, given the media
/// type of the file that was read.
pub fn serve(root: String, media_type: String, contents: Vec<u8>) -> (outcome: Outcome)
    ensures
        outcome@ == served(root@, media_type@, contents@),
{
    Outcome {
        reply: Some(Reply { status: 200, content_type: Some(media_type), body: contents }),
        report: Report { status: Some(200), dest: Some(root), error: None },
    }
}

/// A request to a remote origin that is under way.
#[derive(Debug, PartialEq, Eq)]
pub struct Forwarding {
    url: String,
}

impl View for Forwarding {
    type V = Seq<char>;

    closed spec fn view(&self) -> Seq<char> {
        self.url@
    }
}

impl Forwarding {
    /// The URL to send the request to.
    pub fn url(&self) -> (url: &str)
        ensures
            url@ == self@,
    {
        self.url.as_str()
    }

    /// The remote origin answered with `status`.
    pub fn answered(self, status: u16) -> (outcome: Outcome)
        ensures
            outcome@ == forwarded(self@, status),
    {
        Outcome {
            reply: None,
            report: Report { status: Some(status), dest: Some(self.url), error: None },
        }
    }

    /// The remote origin could not be reached, for the reason `error`.
    pub fn failed(self, error: &str) -> (outcome: Outcome)
        ensures
            outcome@ == origin_failed(self@, error@),
    {
        let mut text = chars_of("Weave: ");
        push_all(&mut text, &chars_of(error));
        Outcome {
            reply: Some(reply_with_text(500, string_of(&text).as_str())),
            report: Report {
                status: Some(500),
                dest: Some(self.url),
                error: Some(string_of(&chars_of(error))),
            },
        }
    }
}

/// What a search for a file is: the resolved path and the number of files
/// tried so far.
pub struct ReadingView {
    pub root: Seq<char>,
    pub attempt: nat,
}

impl ReadingView {
    /// The search for the resolved path `root`, before any file was tried.
    pub open spec fn start(root: Seq<char>) -> ReadingView {
        ReadingView { root, attempt: 0 }
    }

    /// The file to read now.
    pub open spec fn path(self) -> Seq<char> {
        candidate(self.root, self.attempt)
    }

    /// The search behind a file that could not be read, where another file
    /// is left to try.
    pub open spec fn next(self) -> Option<ReadingView> {
        if self.attempt + 1 < attempts() {
            Some(ReadingView { root: self.root, attempt: self.attempt + 1 })
        } else {
            None
        }
    }

    /// How the request ends when the file that is read now holds
    /// `contents`.
    pub open spec fn found(self, contents: Seq<u8>) -> OutcomeView {
        served(self.root, media_type_of(self.path()), contents)
    }
}

/// The search for the file that answers a request.
#[derive(Debug, PartialEq, Eq)]
pub struct Reading {
    root: String,
    attempt: u8,
}

impl View for Reading {
    type V = ReadingView;

    closed spec fn view(&self) -> ReadingView {
        ReadingView { root: self.root@, attempt: self.attempt as nat }
    }
}

/// What follows a file that could not be read.
#[derive(Debug, PartialEq, Eq)]
pub enum Retry {
    /// Try the next file.
    Next(Reading),
    /// No file is left to try.
    GiveUp(Outcome),
}

impl Reading {
    #[verifier::type_invariant]
    spec fn in_range(self) -> bool {
        self.attempt < 3
    }

    /// The file to read now.
    pub fn path(&self) -> (path: String)
        ensures
            self@.attempt < attempts(),
            path@ == self@.path(),
    {
        proof {
            use_type_invariant(self);
        }
        if self.attempt == 0 {
            return self.root.clone();
        }
        let mut v = chars_of(self.root.as_str());
        if v.len() > 0 && v[v.len() - 1] != '/' {
            v.push('/');
        }
        if self.attempt == 1 {
            push_all(&mut v, &chars_of("index.htm"));
        } else {
            push_all(&mut v, &chars_of("index.html"));
        }
        assert(v@ =~= candidate(self@.root, self@.attempt));
        string_of(&v)
    }

    /// The file was read and holds `contents`.
    pub fn found(self, contents: Vec<u8>) -> (outcome: Outcome)
        ensures
            outcome@ == self@.found(contents@),
    {
        let media_type = media_type(self.path().as_str());
        serve(self.root, media_type, contents)
    }

    /// The file could not be read, for the reason `error`: the next file is
    /// tried, and behind the last one the request ends.
    pub fn failed(self, error: &str) -> (next: Retry)
        ensures
            self@.next() is Some ==> (next matches Retry::Next(reading) && Some(reading@)
                == self@.next()),
            self@.next() is None ==> (next matches Retry::GiveUp(outcome) && outcome@
                == unreadable(self@.root, error@)),
    {
        proof {
            use_type_invariant(&self);
        }
        if self.attempt < 2 {
            Retry::Next(Reading { root: self.root, attempt: self.attempt + 1 })
        } else {
            let mut text = chars_of("Weave: Could not read file '");
            push_all(&mut text, &chars_of(self.root.as_str()));
            push_all(&mut text, &chars_of("': "));
            push_all(&mut text, &chars_of(error));
            Retry::GiveUp(
                Outcome {
                    reply: Some(reply_with_text(404, string_of(&text).as_str())),
                    report: Report {
                        status: Some(404),
                        dest: Some(self.root),
                        error: Some(string_of(&chars_of(error))),
                    },
                },
            )
        }
    }
}

/// What a resolved request asks for.
#[derive(Debug, PartialEq, Eq)]
pub enum Step {
    /// Nothing more: the request has ended.
    Done(Outcome),
    /// Send the request to the remote origin.
    Forward(Forwarding),
    /// Read a file.
    Read(Reading),
}

/// What a request asks for, given what its path resolved to. A request that
/// resolved to nothing ends at once, with neither a file read nor a request
/// sent.
pub fn begin(resolved: Option<ResolvedLocation>) -> (step: Step)
    ensures
        resolved is None ==> (step matches Step::Done(outcome) && outcome@ == no_route()),
        resolved matches Some(ResolvedLocation::Url(url)) ==> (step matches Step::Forward(f)
            && f@ == url@),
        resolved matches Some(ResolvedLocation::FilePath(path)) ==> (step matches Step::Read(r)
            && r@ == ReadingView::start(path@)),
{
    match resolved {
        None => Step::Done(
            Outcome {
                reply: Some(reply_with_text(404, "Weave: No routes matched")),
                report: Report { status: None, dest: None, error: None },
            },
        ),
        Some(ResolvedLocation::Url(url)) => Step::Forward(Forwarding { url }),
        Some(ResolvedLocation::FilePath(path)) => Step::Read(Reading { root: path, attempt: 0 }),
    }
}

/// A request that ends in a warning is one that matched no route or ended
/// with a status outside 200 to 399.
pub proof fn lemma_warning_class(report: ReportView)
    ensures
        report.class() == OutcomeClass::Warning <==> (report.status matches Some(status)
            ==> !(200 <= status < 400)),
        no_route().report.class() == OutcomeClass::Warning,
        forall|url: Seq<char>, error: Seq<char>|
            (#[trigger] origin_failed(url, error)).report.class() == OutcomeClass::Warning,
        forall|root: Seq<char>, error: Seq<char>|
            (#[trigger] unreadable(root, error)).report.class() == OutcomeClass::Warning,
{
}

/// Where the resolved path and `index.htm` under it cannot be read and
/// `index.html` under it can, the answer is 200 with the contents of that
/// file. Two failures lead from the resolved path to `index.htm` and on to
/// `index.html` under it, and reading that file ends the request with its
/// contents as the body.
pub proof fn lemma_index_html_is_served(root: Seq<char>, contents: Seq<u8>)
    ensures
        ReadingView::start(root).path() == root,
        ReadingView::start(root).next() is Some,
        ReadingView::start(root).next()->0.path() == with_file_name(root, "index.htm"@),
        ReadingView::start(root).next()->0.next() is Some,
        ({
            let third = ReadingView::start(root).next()->0.next()->0;
            &&& third.path() == with_file_name(root, "index.html"@)
            &&& third.next() is None
            &&& third.found(contents).reply matches Some(reply) && reply.status == 200
                && reply.body == contents
        }),
{
}

} // verus!
