use webfile::config::{listen_addr, parse_args, parse_port, ArgError, DEFAULT_PORT};
use webfile::dispatch::{route, Action, Event, Exchange, Reply, Route, Stage};
use webfile::escape::escape_for_js_string;
use webfile::page::{html_shell, render_page};
use webfile::path::file_name;
use webfile::template::{find, render};

fn args(list: &[&str]) -> Vec<String> {
    list.iter().map(|s| s.to_string()).collect()
}

fn reply(action: Action) -> Reply {
    match action {
        Action::Respond(r) => r,
        _ => panic!("expected a reply"),
    }
}

fn text(bytes: &[u8]) -> String {
    String::from_utf8(bytes.to_vec()).unwrap()
}

fn count(hay: &str, needle: &str) -> usize {
    hay.matches(needle).count()
}

fn get_page(target: &str, file: Option<&str>) -> Reply {
    let (mut ex, first) = Exchange::start("GET", "/");
    assert!(matches!(first, Action::ReadFile));
    let r = reply(ex.step(target, Event::FileText(file.map(|s| s.to_string()))));
    assert_eq!(ex.stage, Stage::Finished);
    r
}

/// The text between `editor.value = "` and the closing quote, read back as a
/// JavaScript string literal reads the three escapes.
fn embedded_literal(page: &str) -> String {
    let open = "editor.value = \"";
    let start = page.find(open).unwrap() + open.len();
    let rest = &page[start..];
    let end = rest.find("\";\nlet saved").unwrap();
    rest[..end].to_string()
}

fn decode_literal(lit: &str) -> String {
    let mut out = String::new();
    let mut chars = lit.chars();
    while let Some(c) = chars.next() {
        if c == '\\' {
            match chars.next() {
                Some('n') => out.push('\n'),
                Some('r') => out.push('\r'),
                Some(other) => out.push(other),
                None => out.push('\\'),
            }
        } else {
            out.push(c);
        }
    }
    out
}

#[test]
fn new_file_shows_empty_page() {
    let config = parse_args(&args(&["notes.txt"])).unwrap();
    assert_eq!(config.path, "notes.txt");
    assert_eq!(config.port, 3000);
    let r = get_page(&config.path, None);
    assert_eq!(r.status, 200);
    let page = text(&r.body);
    assert!(page.contains("<title>notes.txt</title>"));
    assert_eq!(embedded_literal(&page), "");
    assert!(!page.contains("{{ title }}"));
    assert!(!page.contains("{{ contents }}"));
}

#[test]
fn put_then_get_escapes_newline() {
    let body = b"hello\nworld".to_vec();
    assert_eq!(body.len(), 11);
    let (mut ex, first) = Exchange::start("PUT", "/");
    assert!(matches!(first, Action::ReadBody));
    match ex.step("notes.txt", Event::Body(Some(body.clone()))) {
        Action::WriteFile(bytes) => assert_eq!(bytes, body),
        _ => panic!("expected a write"),
    }
    assert_eq!(ex.stage, Stage::AwaitingWrite);
    let done = reply(ex.step("notes.txt", Event::Written(true)));
    assert_eq!(done.status, 204);
    assert!(done.body.is_empty());
    let page = text(&get_page("notes.txt", Some("hello\nworld")).body);
    assert!(page.contains("hello\\nworld"));
    assert_eq!(embedded_literal(&page), "hello\\nworld");
}

#[test]
fn put_then_get_escapes_quotes() {
    let page = text(&get_page("notes.txt", Some("say \"quoted\" now")).body);
    assert!(page.contains("\\\"quoted\\\""));
    assert_eq!(embedded_literal(&page), "say \\\"quoted\\\" now");
}

#[test]
fn other_requests_are_not_found() {
    for (method, path) in [("POST", "/"), ("GET", "/other"), ("PUT", "/x"), ("DELETE", "/"), ("get", "/")] {
        let (ex, first) = Exchange::start(method, path);
        assert_eq!(ex.stage, Stage::Finished);
        let r = reply(first);
        assert_eq!(r.status, 404);
        assert_eq!(text(&r.body), "Not Found");
    }
    assert_eq!(route("GET", "/"), Route::Page);
    assert_eq!(route("PUT", "/"), Route::Save);
    assert_eq!(route("POST", "/"), Route::NotFound);
}

#[test]
fn missing_filename_is_refused() {
    let e = parse_args(&args(&[])).err().unwrap();
    assert_eq!(e, ArgError::MissingFilename);
    assert_eq!(e.message(), "Missing filename argument");
}

#[test]
fn bad_port_is_refused() {
    let e = parse_args(&args(&["f", "abc"])).err().unwrap();
    assert_eq!(e, ArgError::InvalidPort);
    assert_eq!(e.message(), "Invalid port argument");
}

#[test]
fn startup_uses_given_port_on_loopback() {
    let config = parse_args(&args(&["dir/f.txt", "8080", "ignored"])).unwrap();
    assert_eq!(config.path, "dir/f.txt");
    assert_eq!(config.port, 8080);
    assert_eq!(listen_addr(config.port), ([127, 0, 0, 1], 8080));
    for q in [0u16, 1, 80, 3000, 65535] {
        let config = parse_args(&args(&["p", &q.to_string()])).unwrap();
        assert_eq!(config.port, q);
        assert_eq!(listen_addr(config.port), ([127, 0, 0, 1], q));
    }
    assert_eq!(DEFAULT_PORT, 3000);
}

#[test]
fn port_parsing_matches_u16() {
    for s in ["0", "80", "+80", "00080", "65535", "65536", "", "+", "-1", "abc", "12a", " 1", "99999999999", "٣"] {
        assert_eq!(parse_port(s), s.parse::<u16>().ok(), "{}", s);
    }
    assert_eq!(parse_port("+443"), Some(443));
    assert_eq!(parse_port("70000"), None);
}

#[test]
fn repeated_put_writes_same_bytes() {
    let body = b"same text".to_vec();
    let mut written = Vec::new();
    for _ in 0..2 {
        let (mut ex, _) = Exchange::start("PUT", "/");
        match ex.step("f", Event::Body(Some(body.clone()))) {
            Action::WriteFile(bytes) => written.push(bytes),
            _ => panic!("expected a write"),
        }
    }
    assert_eq!(written[0], body);
    assert_eq!(written[1], body);
}

#[test]
fn unreadable_file_renders_as_empty() {
    let missing = get_page("dir/notes.txt", None);
    let empty = get_page("dir/notes.txt", Some(""));
    assert_eq!(missing.status, 200);
    assert_eq!(missing.body, empty.body);
    assert_eq!(embedded_literal(&text(&missing.body)), "");
}

#[test]
fn page_round_trips_text_without_backslash() {
    let original = "line one\r\nline \"two\"\n\n<b>ünï</b> {{ title }}";
    let page = text(&get_page("notes.txt", Some(original)).body);
    assert_eq!(decode_literal(&embedded_literal(&page)), original);
    assert_eq!(count(&page, "<title>notes.txt</title>"), 1);
}

#[test]
fn put_body_failure_is_bad_request() {
    let (mut ex, _) = Exchange::start("PUT", "/");
    let r = reply(ex.step("f", Event::Body(None)));
    assert_eq!(r.status, 400);
    assert_eq!(text(&r.body), "Bad Request");
}

#[test]
fn put_write_failure_is_server_error() {
    let (mut ex, _) = Exchange::start("PUT", "/");
    let _ = ex.step("f", Event::Body(Some(vec![1, 2, 3])));
    let r = reply(ex.step("f", Event::Written(false)));
    assert_eq!(r.status, 500);
    assert_eq!(text(&r.body), "Internal Server Error");
}

#[test]
fn unexpected_event_is_server_error() {
    let (mut ex, _) = Exchange::start("GET", "/");
    let r = reply(ex.step("f", Event::Written(true)));
    assert_eq!(r.status, 500);
    assert_eq!(ex.stage, Stage::Finished);
    let again = reply(ex.step("f", Event::FileText(None)));
    assert_eq!(again.status, 500);
}

#[test]
fn path_without_file_name_is_server_error() {
    let r = get_page("/", Some("x"));
    assert_eq!(r.status, 500);
    assert_eq!(text(&r.body), "Internal Server Error");
    assert!(render_page(b"a/..", b"x").is_none());
}

#[test]
fn title_is_the_base_name() {
    let page = text(&get_page("/home/me/docs/todo.md", Some("x")).body);
    assert!(page.contains("<title>todo.md</title>"));
    assert!(!page.contains("/home/me"));
}

#[test]
fn file_name_takes_final_component() {
    let cases: [(&str, Option<&str>); 12] = [
        ("notes.txt", Some("notes.txt")),
        ("a/b.txt", Some("b.txt")),
        ("/a/b", Some("b")),
        ("a/b/", Some("b")),
        ("a/b/.", Some("b")),
        ("a/b/./", Some("b")),
        ("./a", Some("a")),
        ("a//b", Some("b")),
        ("/", None),
        ("", None),
        ("a/..", None),
        (".", None),
    ];
    for (path, name) in cases {
        let got = file_name(path.as_bytes()).map(|v| text(&v));
        let want = std::path::Path::new(path).file_name().map(|n| n.to_str().unwrap().to_string());
        assert_eq!(got, want, "{}", path);
        assert_eq!(got.as_deref(), name, "{}", path);
    }
}

#[test]
fn escape_replaces_cr_lf_and_quote_only() {
    assert_eq!(escape_for_js_string(b"a\r\nb\"c\\d"), b"a\\r\\nb\\\"c\\d".to_vec());
    assert_eq!(escape_for_js_string(b""), Vec::<u8>::new());
    assert_eq!(escape_for_js_string(b"plain"), b"plain".to_vec());
}

#[test]
fn render_replaces_first_occurrences_only() {
    let tpl = b"<{{ title }}|{{ contents }}|{{ title }}|{{ contents }}>";
    let out = render(tpl, b"T", b"C");
    assert_eq!(text(&out), "<T|C|{{ title }}|{{ contents }}>");
}

#[test]
fn render_does_not_rescan_replacements() {
    let out = render(b"{{ title }} {{ contents }}", b"{{ contents }}", b"body");
    assert_eq!(text(&out), "{{ contents }} body");
    let out = render(b"{{ contents }} {{ title }}", b"name", b"{{ title }}");
    assert_eq!(text(&out), "{{ title }} name");
}

#[test]
fn render_without_placeholders_keeps_template() {
    assert_eq!(render(b"no slots", b"T", b"C"), b"no slots".to_vec());
    assert_eq!(text(&render(b"x {{ contents }}", b"T", b"C")), "x C");
}

#[test]
fn find_gives_first_position() {
    assert_eq!(find(b"abcabc", b"bc"), Some(1));
    assert_eq!(find(b"abc", b"abcd"), None);
    assert_eq!(find(b"abc", b"x"), None);
    assert_eq!(find(b"abc", b""), Some(0));
}

#[test]
fn shell_has_each_placeholder_once() {
    let shell = text(&html_shell());
    assert_eq!(count(&shell, "{{ title }}"), 1);
    assert_eq!(count(&shell, "{{ contents }}"), 1);
    assert!(shell.find("{{ title }}").unwrap() < shell.find("{{ contents }}").unwrap());
}
