use lara::{is_domain_root, is_http_s, with_path_only, UrlError, WebUrl};

#[test]
fn parse_reports_parts() {
    let u = WebUrl::parse("https://user:pw@ex.test:8080/a/b?q=1#frag").unwrap();
    assert_eq!(u.scheme, "https");
    assert_eq!(u.authority, "user:pw@ex.test:8080");
    assert!(u.has_authority);
    assert_eq!(u.path, "/a/b");
    assert_eq!(u.query.as_deref(), Some("q=1"));
    assert_eq!(u.fragment.as_deref(), Some("frag"));
    assert_eq!(u.as_string(), "https://user:pw@ex.test:8080/a/b?q=1#frag");
}

#[test]
fn parse_errors() {
    assert_eq!(WebUrl::parse("/relative").unwrap_err(), UrlError::RelativeUrlWithoutBase);
    assert_eq!(WebUrl::parse("http://").unwrap_err(), UrlError::Invalid);
}

#[test]
fn join_resolves_relative_references() {
    let base = WebUrl::parse("https://ex.test/dir/page").unwrap();
    assert_eq!(base.join("other").unwrap().as_string(), "https://ex.test/dir/other");
    assert_eq!(base.join("//cdn.test/x").unwrap().as_string(), "https://cdn.test/x");
    assert_eq!(base.join("/root?x=1").unwrap().as_string(), "https://ex.test/root?x=1");
}

#[test]
fn domain_root_cases() {
    assert!(is_domain_root(&WebUrl::parse("https://h/").unwrap()));
    assert!(is_domain_root(&WebUrl::parse("https://h").unwrap()));
    assert!(!is_domain_root(&WebUrl::parse("https://h/x").unwrap()));
    assert!(!is_domain_root(&WebUrl::parse("https://h/?q=1").unwrap()));
}

#[test]
fn http_s_schemes() {
    assert!(is_http_s(&WebUrl::parse("http://h/").unwrap()));
    assert!(is_http_s(&WebUrl::parse("https://h/").unwrap()));
    assert!(!is_http_s(&WebUrl::parse("ftp://h/").unwrap()));
}

#[test]
fn path_only_urls() {
    let u = WebUrl::parse("https://ex.test:8443/deep/page?x=1#f").unwrap();
    assert_eq!(with_path_only(&u, "robots.txt").unwrap().as_string(), "https://ex.test:8443/robots.txt");
    assert_eq!(with_path_only(&u, "sitemap.xml").unwrap().as_string(), "https://ex.test:8443/sitemap.xml");
}
