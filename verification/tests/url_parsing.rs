use rhd::urls::{line_texts, parse_urls, try_parse_urls};

#[test]
fn status_code_in_brackets_is_inferred() {
    let table = parse_urls(String::from("google.com (200)\n"));
    assert_eq!(table.len(), 1);
    let e = table.get(0);
    assert_eq!(e.url.serialization, "https://google.com/");
    assert_eq!(e.url.host.as_deref(), Some("google.com"));
    assert_eq!(e.url.path, "/");
    assert_eq!(e.status, "200");
}

#[test]
fn missing_status_code_is_named() {
    let table = parse_urls(String::from("  http://example.com/a/b?x=1  "));
    assert_eq!(table.len(), 1);
    let e = table.get(0);
    assert_eq!(e.url.serialization, "http://example.com/a/b?x=1");
    assert_eq!(e.url.path, "/a/b");
    assert_eq!(e.status, "Status code not found");
}

#[test]
fn first_occurrence_wins() {
    let data = "google.com [200]\r\nhttps://example.org/x 404\ngoogle.com 500\nhttps://google.com/ (301)\n";
    let table = parse_urls(String::from(data));
    assert_eq!(table.len(), 2);
    assert_eq!(table.get(0).url.serialization, "https://google.com/");
    assert_eq!(table.get(0).status, "200");
    assert_eq!(table.get(1).url.serialization, "https://example.org/x");
    assert_eq!(table.get(1).status, "404");
    assert!(table.contains_key("https://google.com/"));
    assert!(table.contains_key("https://example.org/x"));
    assert!(!table.contains_key("https://google.com"));
}

#[test]
fn line_texts_split_and_trim() {
    let fields = line_texts("a.com (1)\n\n http://b.com  [2] extra \n");
    assert_eq!(fields.len(), 3);
    assert_eq!(fields[0], (String::from("https://a.com"), String::from("1")));
    assert_eq!(fields[1], (String::from("https://"), String::from("Status code not found")));
    assert_eq!(fields[2], (String::from("http://b.com"), String::from("2")));
}

#[test]
fn no_final_empty_line() {
    assert_eq!(line_texts("").len(), 0);
    assert_eq!(line_texts("x.com").len(), 1);
    assert_eq!(line_texts("x.com\n").len(), 1);
    assert_eq!(line_texts("x.com\n\n").len(), 2);
}

#[test]
fn refused_line_is_reported() {
    match try_parse_urls(String::from("a.com\n\nb.com\n")) {
        Err(i) => assert_eq!(i, 1),
        Ok(_) => panic!("an empty line names no host"),
    }
    match try_parse_urls(String::from("a.com\nhttp://[::1\n")) {
        Err(i) => assert_eq!(i, 1),
        Ok(_) => panic!("an unclosed IPv6 host is refused"),
    }
}

#[test]
fn accepted_data_gives_the_table() {
    match try_parse_urls(String::from("a.com 200\nb.com 404\n")) {
        Ok(t) => {
            assert_eq!(t.len(), 2);
            assert_eq!(t.get(1).url.serialization, "https://b.com/");
            assert_eq!(t.get(1).status, "404");
        }
        Err(_) => panic!("both lines name URLs"),
    }
}

#[test]
fn empty_data_gives_empty_table() {
    let t = parse_urls(String::new());
    assert_eq!(t.len(), 0);
}

fn entry(url: &str, host: Option<&str>, path: &str, status: &str) -> rhd::urls::UrlEntry {
    rhd::urls::UrlEntry {
        url: rhd::urls::ParsedUrl {
            serialization: url.to_string(),
            host: host.map(|h| h.to_string()),
            path: path.to_string(),
        },
        status: status.to_string(),
    }
}

#[test]
fn table_keeps_first_entry_per_url() {
    let entries = vec![
        entry("https://a.com/", Some("a.com"), "/", "200"),
        entry("https://b.com/x", Some("b.com"), "/x", "404"),
        entry("https://a.com/", Some("a.com"), "/", "500"),
    ];
    let t = rhd::urls::table_from_entries(entries);
    assert_eq!(t.len(), 2);
    assert_eq!(t.get(0).status, "200");
    assert_eq!(t.get(1).url.serialization, "https://b.com/x");
}

#[test]
fn entry_or_insert_keeps_stored_status() {
    let mut t = rhd::urls::UrlTable::new();
    t.entry_or_insert(entry("https://a.com/", Some("a.com"), "/", "200").url, "200".to_string());
    t.entry_or_insert(entry("https://a.com/", Some("a.com"), "/", "301").url, "301".to_string());
    assert_eq!(t.len(), 1);
    assert_eq!(t.get(0).status, "200");
    assert!(t.contains_key("https://a.com/"));
}

#[test]
fn parse_the_urls_file() {
    let file_content = String::from(
        "https://qstr.googl.t (200)\nexample.com/login [302]\nhttp://a.b.c/x 404\n",
    );
    let p_urls = match try_parse_urls(file_content) {
        Ok(t) => t,
        Err(line) => panic!("Error parsing urls on line {}", line),
    };
    let key_should_exist = url::Url::parse("https://qstr.googl.t").expect("error parsing url in test");
    assert!(p_urls.contains_key(key_should_exist.as_str()))
}
