use lara::{
    extract_outlinks, html_outlinks, sitemap_outlinks, Context, ExtractError, FetchResult, HttpVersion, Inlink,
    Timestamp, UrlItem, WebUrl,
};

fn url(s: &str) -> WebUrl {
    WebUrl::parse(s).unwrap()
}

fn page(body: &str) -> FetchResult {
    FetchResult {
        body: body.as_bytes().to_vec(),
        duration_ms: 10,
        start: Timestamp { millis: 0 },
        status: 200,
        http_version: HttpVersion::Http11,
        headers: Vec::new(),
    }
}

#[test]
fn html_links_resolved_and_filtered() {
    let base = url("https://ex.test/dir/index.html");
    let body = r#"<html><body>
        <a href="page2.html#top" rel="next">next</a>
        <a href="https://other.test/x">abs</a>
        <a href="mailto:me@ex.test">mail</a>
        <a href="https://ex.test/dir/index.html#frag">self</a>
        <a>no href</a>
        <a href="http://[bad">bad</a>
        <a href="//cdn.test/lib">proto-relative</a>
    </body></html>"#;
    let out = html_outlinks(body, &base);
    let urls: Vec<String> = out.iter().map(|o| o.url.as_string()).collect();
    assert_eq!(urls, vec!["https://ex.test/dir/page2.html", "https://other.test/x", "https://cdn.test/lib"]);
    assert_eq!(out[0].i.rel.as_deref(), Some("next"));
    assert_eq!(out[1].i.rel, None);
    assert!(out.iter().all(|o| o.i.context == Context::Other));
}

#[test]
fn sitemap_round_trip() {
    let locs = ["https://ex.test/a", "https://ex.test/b?x=1", "https://ex.test/c"];
    let mut xml = String::from("<?xml version=\"1.0\" encoding=\"UTF-8\"?>\n<urlset xmlns=\"http://www.sitemaps.org/schemas/sitemap/0.9\">\n");
    for l in &locs {
        xml.push_str(&format!("  <url>\n    <loc>{}</loc>\n    <lastmod>2024-01-01</lastmod>\n  </url>\n", l.replace('&', "&amp;")));
    }
    xml.push_str("</urlset>\n");
    let out = sitemap_outlinks(&xml);
    let urls: Vec<String> = out.iter().map(|o| o.url.as_string()).collect();
    assert_eq!(urls, locs.iter().map(|s| s.to_string()).collect::<Vec<_>>());
    assert!(out.iter().all(|o| o.i.context == Context::Other));
}

#[test]
fn sitemap_index_entries_are_sitemaps() {
    let xml = "<sitemapindex><sitemap><loc>https://ex.test/sm1.xml</loc></sitemap><sitemap><loc>not a url</loc></sitemap><url><priority>1</priority></url></sitemapindex>";
    let out = sitemap_outlinks(xml);
    assert_eq!(out.len(), 1);
    assert_eq!(out[0].url.as_string(), "https://ex.test/sm1.xml");
    assert_eq!(out[0].i.context, Context::Sitemap);
}

#[test]
fn sitemap_unescapes_locations() {
    let out = sitemap_outlinks("<urlset><url><loc>https://ex.test/?a=1&amp;b=2</loc></url></urlset>");
    assert_eq!(out.len(), 1);
    assert_eq!(out[0].url.as_string(), "https://ex.test/?a=1&b=2");
}

#[test]
fn dispatch_by_first_inlink_context() {
    let html = page("<a href=\"/x\">x</a>");
    let item = UrlItem { url: url("https://ex.test/"), i: vec![] };
    let out = extract_outlinks(&item, &html).unwrap();
    assert_eq!(out.len(), 1);
    assert_eq!(out[0].url.as_string(), "https://ex.test/x");

    let sm = page("<urlset><url><loc>https://ex.test/p1</loc></url></urlset>");
    let item = UrlItem { url: url("https://ex.test/sitemap.xml"), i: vec![Inlink::with_context(Context::Sitemap), Inlink::default()] };
    let out = extract_outlinks(&item, &sm).unwrap();
    assert_eq!(out.len(), 1);
    assert_eq!(out[0].url.as_string(), "https://ex.test/p1");

    let item = UrlItem { url: url("https://ex.test/feed"), i: vec![Inlink::with_context(Context::Feed)] };
    assert!(extract_outlinks(&item, &html).unwrap().is_empty());

    let item = UrlItem { url: url("https://ex.test/i.png"), i: vec![Inlink::with_context(Context::Img)] };
    assert_eq!(extract_outlinks(&item, &html).unwrap_err(), ExtractError::Unsupported(Context::Img));
}
