use weave::listeners::{group_by_address, Listener};
use weave::location::{DestLocation, SrcLocation};
use weave::path::{climbs, covers, join_from, normalize, remainder_start};
use weave::routes::Route;
use weave::scan::{find_any, parse_port, valid_host};
use weave::text::{
    chars_of, format_decimal, holds_at, is_space_char, push_all, same_text, slice_of, string_of,
    trim, trim_bounds,
};

fn chars(s: &str) -> Vec<char> {
    s.chars().collect()
}

fn text(v: Vec<char>) -> String {
    v.into_iter().collect()
}

fn route(src: &str, dest: &str) -> Route {
    Route { src: SrcLocation::parse(src).unwrap(), dest: DestLocation::parse(dest).unwrap() }
}

#[test]
fn strings_and_characters_convert_both_ways() {
    assert_eq!(chars_of("a\u{e9}\u{1f600}z"), vec!['a', '\u{e9}', '\u{1f600}', 'z']);
    assert_eq!(chars_of(""), Vec::<char>::new());
    assert_eq!(string_of(&vec!['a', '\u{e9}', '\u{1f600}', 'z']), "a\u{e9}\u{1f600}z");
    assert_eq!(string_of(&Vec::new()), "");
}

#[test]
fn slices_and_appending() {
    let v = chars("hello world");
    assert_eq!(text(slice_of(&v, 6, 11)), "world");
    assert_eq!(text(slice_of(&v, 3, 3)), "");
    let mut w = chars("abc");
    push_all(&mut w, &chars("def"));
    assert_eq!(text(w), "abcdef");
}

#[test]
fn texts_compare_character_by_character() {
    assert!(same_text(&chars("to"), &chars("to")));
    assert!(!same_text(&chars("to"), &chars("tO")));
    assert!(!same_text(&chars("to"), &chars("too")));
    assert!(same_text(&chars(""), &chars("")));
    assert!(holds_at(&chars("http://x"), 0, &chars("http://")));
    assert!(holds_at(&chars("http://x"), 4, &chars("://")));
    assert!(!holds_at(&chars("http://x"), 5, &chars("://")));
    assert!(!holds_at(&chars("http"), 0, &chars("http://")));
    assert!(holds_at(&chars("http"), 4, &chars("")));
    assert!(!holds_at(&chars("http"), 5, &chars("")));
}

#[test]
fn trimming_takes_white_space_from_both_ends() {
    assert_eq!(text(trim(&chars("  a b \t\n"))), "a b");
    assert_eq!(text(trim(&chars("\u{a0}\u{2003}and\u{3000}\u{85}"))), "and");
    assert_eq!(text(trim(&chars(" \t "))), "");
    assert_eq!(text(trim(&chars(""))), "");
    assert_eq!(text(trim(&chars("x"))), "x");
    assert_eq!(trim_bounds(&chars("  ab ")), (2, 4));
    assert_eq!(trim_bounds(&chars("   ")), (3, 3));
}

#[test]
fn white_space_is_what_std_trims() {
    for n in 0..0x3100u32 {
        if let Some(c) = char::from_u32(n) {
            assert_eq!(is_space_char(c), c.is_whitespace(), "U+{:04X}", n);
        }
    }
}

#[test]
fn numbers_are_written_in_decimal() {
    assert_eq!(text(format_decimal(0)), "0");
    assert_eq!(text(format_decimal(9)), "9");
    assert_eq!(text(format_decimal(10)), "10");
    assert_eq!(text(format_decimal(404)), "404");
    assert_eq!(text(format_decimal(8080)), "8080");
    assert_eq!(text(format_decimal(65535)), "65535");
}

#[test]
fn ports_are_read_from_digits() {
    assert_eq!(parse_port(&chars("0")), Some(0));
    assert_eq!(parse_port(&chars("8080")), Some(8080));
    assert_eq!(parse_port(&chars("65535")), Some(65535));
    assert_eq!(parse_port(&chars("65536")), None);
    assert_eq!(parse_port(&chars("4294967296")), None);
    assert_eq!(parse_port(&chars("")), None);
    assert_eq!(parse_port(&chars("+1")), None);
    assert_eq!(parse_port(&chars("\u{661}")), None);
}

#[test]
fn hosts_and_delimiters() {
    assert!(valid_host(&chars("example.org")));
    assert!(!valid_host(&chars("")));
    assert!(!valid_host(&chars("-x")));
    assert!(!valid_host(&chars("x/y")));
    assert_eq!(find_any(&chars("host:80/a?b"), &vec!['/', '?']), 7);
    assert_eq!(find_any(&chars("host:80/a?b"), &vec!['?']), 9);
    assert_eq!(find_any(&chars("host"), &vec![':']), 4);
    assert_eq!(find_any(&chars(""), &vec![':']), 0);
    assert_eq!(find_any(&chars("abc"), &Vec::new()), 3);
}

#[test]
fn paths_are_normalized() {
    assert_eq!(text(normalize(&chars(""))), "/");
    assert_eq!(text(normalize(&chars("/"))), "/");
    assert_eq!(text(normalize(&chars("a"))), "/a");
    assert_eq!(text(normalize(&chars("/a/b"))), "/a/b");
    assert_eq!(text(normalize(&chars("//a///b//"))), "/a/b");
    assert_eq!(text(normalize(&chars("/a/./../b/"))), "/a/./../b");
}

#[test]
fn a_prefix_covers_whole_segments() {
    assert!(covers(&chars("/api"), &chars("/api")));
    assert!(covers(&chars("/api"), &chars("/api/")));
    assert!(covers(&chars("/api"), &chars("/api/v1/x")));
    assert!(!covers(&chars("/api"), &chars("/apiextra")));
    assert!(!covers(&chars("/api"), &chars("/ap")));
    assert!(covers(&chars("/"), &chars("/anything")));
    assert!(covers(&chars("/"), &chars("/")));
    assert!(!covers(&chars("/"), &chars("")));
    assert_eq!(remainder_start(&chars("/api"), &chars("/api/v1/x")), 4);
    assert_eq!(remainder_start(&chars("/"), &chars("/v1/x")), 0);
    assert_eq!(remainder_start(&chars("/api"), &chars("/api")), 4);
    assert_eq!(remainder_start(&chars("/api"), &chars("/a")), 2);
    assert_eq!(text(slice_of(&chars("/api/v1/x"), 4, 9)), "/v1/x");
}

#[test]
fn parent_segments_are_found() {
    assert!(climbs(&chars("..")));
    assert!(climbs(&chars("/..")));
    assert!(climbs(&chars("../a")));
    assert!(climbs(&chars("/a/../b")));
    assert!(climbs(&chars("/a/..")));
    assert!(!climbs(&chars("")));
    assert!(!climbs(&chars(".")));
    assert!(!climbs(&chars("/...")));
    assert!(!climbs(&chars("/..a")));
    assert!(!climbs(&chars("/a../b")));
    assert!(!climbs(&chars("/a/.b./c")));
}

#[test]
fn joining_keeps_one_slash_between_the_parts() {
    assert_eq!(text(join_from(&chars("http://x/"), &chars("/api/v1"), 4)), "http://x/v1");
    assert_eq!(text(join_from(&chars("http://x"), &chars("/api/v1"), 4)), "http://x/v1");
    assert_eq!(text(join_from(&chars("http://x/"), &chars("/api"), 4)), "http://x/");
    assert_eq!(text(join_from(&chars("dir"), &chars("/a//b"), 2)), "dir//b");
    assert_eq!(text(join_from(&chars("dir/"), &chars("/a//b"), 2)), "dir//b");
    assert_eq!(text(join_from(&chars(""), &chars("/a"), 0)), "/a");
}

#[test]
fn routes_are_grouped_by_address_in_order() {
    let bound = vec![
        ("127.0.0.1:80".to_string(), route("localhost:80/a", "./a")),
        ("127.0.0.1:81".to_string(), route("localhost:81", "./b")),
        ("127.0.0.1:80".to_string(), route("127.0.0.1:80/a", "./c")),
        ("127.0.0.1:82".to_string(), route("h:82", "./d")),
        ("127.0.0.1:81".to_string(), route("localhost:81/x", "./e")),
        ("127.0.0.1:80".to_string(), route("localhost:80", "./f")),
    ];
    let listeners = group_by_address(&bound);
    assert_eq!(
        listeners,
        vec![
            Listener {
                address: "127.0.0.1:80".to_string(),
                routes: vec![
                    route("localhost:80/a", "./a"),
                    route("127.0.0.1:80/a", "./c"),
                    route("localhost:80", "./f")
                ],
            },
            Listener {
                address: "127.0.0.1:81".to_string(),
                routes: vec![route("localhost:81", "./b"), route("localhost:81/x", "./e")],
            },
            Listener { address: "127.0.0.1:82".to_string(), routes: vec![route("h:82", "./d")] },
        ]
    );
}

#[test]
fn no_routes_make_no_listeners() {
    assert_eq!(group_by_address(&Vec::new()), Vec::<Listener>::new());
}
