use weave::dispatch::{begin, reply_with_text, serve, Outcome, Reading, Reply, Report, Retry, Step};
use weave::location::ResolvedLocation;
use weave::media::{extension, find_last, media_type};
use weave::outcome::{classify, OutcomeClass};

fn reading(path: &str) -> Reading {
    match begin(Some(ResolvedLocation::FilePath(path.to_string()))) {
        Step::Read(r) => r,
        other => panic!("unexpected step {:?}", other),
    }
}

fn next(reading: Reading, error: &str) -> Reading {
    match reading.failed(error) {
        Retry::Next(r) => r,
        Retry::GiveUp(o) => panic!("gave up with {:?}", o),
    }
}

#[test]
fn no_route_is_answered_at_once() {
    let outcome = match begin(None) {
        Step::Done(o) => o,
        other => panic!("unexpected step {:?}", other),
    };
    let reply = outcome.reply.unwrap();
    assert_eq!(reply.status, 404);
    assert_eq!(reply.content_type, None);
    assert_eq!(reply.body, b"Weave: No routes matched".to_vec());
    assert_eq!(outcome.report, Report { status: None, dest: None, error: None });
    assert_eq!(outcome.report.class(), OutcomeClass::Warning);
    assert_eq!(
        outcome.report.line("127.0.0.1:80/x", "1ms"),
        "[no matching routes] 127.0.0.1:80/x in 1ms"
    );
}

#[test]
fn a_url_is_forwarded_and_the_answer_passed_on() {
    let f = match begin(Some(ResolvedLocation::Url("http://x/a?b".to_string()))) {
        Step::Forward(f) => f,
        other => panic!("unexpected step {:?}", other),
    };
    assert_eq!(f.url(), "http://x/a?b");
    let outcome = f.answered(301);
    assert_eq!(outcome.reply, None);
    assert_eq!(
        outcome.report,
        Report { status: Some(301), dest: Some("http://x/a?b".to_string()), error: None }
    );
    assert_eq!(outcome.report.class(), OutcomeClass::Cautionary);
    assert_eq!(
        outcome.report.line("127.0.0.1:80/a?b", "12ms"),
        "[301] 127.0.0.1:80/a?b to http://x/a?b in 12ms"
    );
}

#[test]
fn an_origin_out_of_reach_gives_500_with_the_error() {
    let f = match begin(Some(ResolvedLocation::Url("http://x/".to_string()))) {
        Step::Forward(f) => f,
        other => panic!("unexpected step {:?}", other),
    };
    let outcome = f.failed("connection refused");
    let reply = outcome.reply.unwrap();
    assert_eq!(reply.status, 500);
    assert_eq!(reply.content_type, None);
    assert_eq!(reply.body, b"Weave: connection refused".to_vec());
    assert_eq!(outcome.report.status, Some(500));
    assert_eq!(outcome.report.class(), OutcomeClass::Warning);
    assert_eq!(
        outcome.report.line("h:1/", "2s"),
        "[500] h:1/ to http://x/ (connection refused) in 2s"
    );
}

#[test]
fn the_path_itself_is_tried_first() {
    let r = reading("./dir/style.css");
    assert_eq!(r.path(), "./dir/style.css");
    let outcome = r.found(b"body {}".to_vec());
    assert_eq!(
        outcome.reply,
        Some(Reply {
            status: 200,
            content_type: Some("text/css".to_string()),
            body: b"body {}".to_vec()
        })
    );
    assert_eq!(
        outcome.report,
        Report { status: Some(200), dest: Some("./dir/style.css".to_string()), error: None }
    );
    assert_eq!(outcome.report.class(), OutcomeClass::Informational);
    assert_eq!(
        outcome.report.line("h:1/style.css", "3ms"),
        "[200] h:1/style.css to ./dir/style.css in 3ms"
    );
}

#[test]
fn index_html_is_served_when_the_others_cannot_be_read() {
    let r = reading("/srv/www/");
    assert_eq!(r.path(), "/srv/www/");
    let r = next(r, "Is a directory");
    assert_eq!(r.path(), "/srv/www/index.htm");
    let r = next(r, "No such file or directory");
    assert_eq!(r.path(), "/srv/www/index.html");
    let contents = b"<html>hello</html>".to_vec();
    let outcome = r.found(contents.clone());
    let reply = outcome.reply.unwrap();
    assert_eq!(reply.status, 200);
    assert_eq!(reply.body, contents);
    assert_eq!(reply.content_type, Some("text/html".to_string()));
    assert_eq!(outcome.report.dest, Some("/srv/www/".to_string()));
}

#[test]
fn index_htm_is_tried_before_index_html() {
    let r = next(reading("site"), "Is a directory");
    assert_eq!(r.path(), "site/index.htm");
    let outcome = r.found(Vec::new());
    let reply = outcome.reply.unwrap();
    assert_eq!(reply.status, 200);
    assert_eq!(reply.content_type, Some("text/html".to_string()));
    assert_eq!(reply.body, Vec::<u8>::new());
}

#[test]
fn the_media_type_is_that_of_the_file_that_was_read() {
    let r = next(reading("/srv/data.json"), "Not a directory");
    assert_eq!(r.path(), "/srv/data.json/index.htm");
    assert_eq!(r.found(Vec::new()).reply.unwrap().content_type, Some("text/html".to_string()));
    let r = reading("/srv/data.json");
    assert_eq!(
        r.found(Vec::new()).reply.unwrap().content_type,
        Some("application/json".to_string())
    );
    let r = reading("/srv/PHOTO.PNG");
    assert_eq!(r.found(Vec::new()).reply.unwrap().content_type, Some("image/png".to_string()));
}

#[test]
fn an_unknown_extension_is_an_octet_stream() {
    for path in ["/srv/file", "/srv/file.unknown-extension", "/srv.d/file", ""] {
        assert_eq!(
            reading(path).found(vec![1, 2, 3]).reply.unwrap().content_type,
            Some("application/octet-stream".to_string())
        );
    }
}

#[test]
fn the_extension_follows_the_last_dot_of_the_file_name() {
    assert_eq!(media_type("archive.tar.gz"), "application/gzip");
    assert_eq!(media_type("/a.b/c.txt"), "text/plain");
    assert_eq!(media_type("/a.txt/c"), "application/octet-stream");
    assert_eq!(media_type(".html"), "application/octet-stream");
    assert_eq!(media_type("/srv/.html"), "application/octet-stream");
    assert_eq!(media_type("/srv/..html"), "text/html");
    assert_eq!(media_type("/srv/a."), "application/octet-stream");
    assert_eq!(media_type("/srv/a.html/"), "application/octet-stream");
    assert_eq!(media_type("/srv/a.Html"), "text/html");
    assert_eq!(media_type("/srv/a.svg"), "image/svg+xml");
    let path: Vec<char> = "/srv/a.b/c.tar.gz".chars().collect();
    assert_eq!(extension(&path), Some(vec!['g', 'z']));
    assert_eq!(find_last(&path, '/'), Some(8));
    assert_eq!(find_last(&path, '.'), Some(14));
    assert_eq!(find_last(&path, '?'), None);
    assert_eq!(extension(&Vec::new()), None);
}

#[test]
fn three_failures_give_404_with_the_last_error() {
    let r = reading("./dir/missing");
    let r = next(r, "first");
    let r = next(r, "second");
    assert_eq!(r.path(), "./dir/missing/index.html");
    let outcome = match r.failed("No such file or directory (os error 2)") {
        Retry::GiveUp(o) => o,
        Retry::Next(r) => panic!("went on with {:?}", r),
    };
    let reply = outcome.reply.unwrap();
    assert_eq!(reply.status, 404);
    assert_eq!(reply.content_type, None);
    assert_eq!(
        reply.body,
        b"Weave: Could not read file './dir/missing': No such file or directory (os error 2)"
            .to_vec()
    );
    assert_eq!(
        outcome.report,
        Report {
            status: Some(404),
            dest: Some("./dir/missing".to_string()),
            error: Some("No such file or directory (os error 2)".to_string())
        }
    );
    assert_eq!(outcome.report.class(), OutcomeClass::Warning);
    assert_eq!(
        outcome.report.line("h:1/missing", "1ms"),
        "[404] h:1/missing to ./dir/missing (No such file or directory (os error 2)) in 1ms"
    );
}

#[test]
fn an_empty_path_has_the_index_files_as_candidates() {
    let r = next(reading(""), "e");
    assert_eq!(r.path(), "index.htm");
    let r = next(r, "e");
    assert_eq!(r.path(), "index.html");
}

#[test]
fn a_text_body_is_encoded_as_utf8() {
    let reply = reply_with_text(500, "Weave: d\u{e9}j\u{e0} vu");
    assert_eq!(reply.status, 500);
    assert_eq!(reply.body, "Weave: d\u{e9}j\u{e0} vu".as_bytes().to_vec());
    assert_eq!(reply.body.len(), 16);
}

#[test]
fn serving_takes_the_media_type_as_given() {
    let outcome = serve("./a".to_string(), "text/plain".to_string(), vec![104, 105]);
    assert_eq!(
        outcome,
        Outcome {
            reply: Some(Reply {
                status: 200,
                content_type: Some("text/plain".to_string()),
                body: vec![104, 105]
            }),
            report: Report { status: Some(200), dest: Some("./a".to_string()), error: None },
        }
    );
}

#[test]
fn the_class_follows_the_status() {
    assert_eq!(classify(199), OutcomeClass::Warning);
    assert_eq!(classify(200), OutcomeClass::Informational);
    assert_eq!(classify(204), OutcomeClass::Informational);
    assert_eq!(classify(299), OutcomeClass::Informational);
    assert_eq!(classify(300), OutcomeClass::Cautionary);
    assert_eq!(classify(399), OutcomeClass::Cautionary);
    assert_eq!(classify(400), OutcomeClass::Warning);
    assert_eq!(classify(404), OutcomeClass::Warning);
    assert_eq!(classify(500), OutcomeClass::Warning);
    assert_eq!(classify(0), OutcomeClass::Warning);
    assert_eq!(classify(65535), OutcomeClass::Warning);
}

#[test]
fn the_status_is_written_in_decimal() {
    let report = Report { status: Some(7), dest: None, error: None };
    assert_eq!(report.line("s", "t"), "[7] s in t");
    let report = Report { status: Some(65535), dest: Some("d".to_string()), error: None };
    assert_eq!(report.line("s", "t"), "[65535] s to d in t");
    let report = Report { status: Some(100), dest: None, error: Some("e".to_string()) };
    assert_eq!(report.line("s", "t"), "[100] s (e) in t");
}
