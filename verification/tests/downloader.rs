use labworks::downloader::{build_output_path, compose_file_name, parse_url, parse_urls};

#[test]
fn urls_one_per_line() {
    let content = "https://a.org\n\n  http://b.org/x  \r\n\t\nhttps://c.org";
    assert_eq!(parse_urls(content), vec!["https://a.org", "http://b.org/x", "https://c.org"]);
    assert_eq!(parse_urls(""), Vec::<String>::new());
}

#[test]
fn page_file_names() {
    let root = parse_url("https://example.com/").ok().unwrap();
    assert_eq!(build_output_path(&root, 1), "001_example.com_index.html");
    let deep = parse_url("https://www.rust-lang.org/learn/get-started/").ok().unwrap();
    assert_eq!(build_output_path(&deep, 12), "012_www.rust-lang.org_learn_get-started.html");
    let q = parse_url("http://h.net/a:b?x=1").ok().unwrap();
    assert_eq!(build_output_path(&q, 1234), "1234_h.net_ab.html");
    let nohost = parse_url("mailto:someone@example.com").ok().unwrap();
    assert_eq!(build_output_path(&nohost, 2), "002_unknown-host_someone@example.com.html");
}

#[test]
fn invalid_urls_are_refused() {
    assert!(parse_url("not a url").is_err());
    assert!(parse_url("").is_err());
}

#[test]
fn file_name_composition() {
    assert_eq!(compose_file_name(7, "host", None), "007_host_index.html");
    assert_eq!(compose_file_name(7, "host", Some("p_q")), "007_host_p_q.html");
}
