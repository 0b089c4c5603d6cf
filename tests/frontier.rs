use lara::{Context, Inlink, Outlink, UrlFrontier, WebUrl};

fn url(s: &str) -> WebUrl {
    WebUrl::parse(s).unwrap()
}

fn outlink(s: &str, rel: Option<&str>) -> Outlink {
    Outlink {
        url: url(s),
        i: Inlink { rel: rel.map(|r| r.to_string()), ..Inlink::default() },
    }
}

fn drain(f: &mut UrlFrontier) -> Vec<String> {
    let mut out = Vec::new();
    while let Some(item) = f.get_item() {
        out.push(item.url.as_string());
    }
    out
}

#[test]
fn frontier_hands_out_each_url_once() {
    let mut f = UrlFrontier::new();
    for s in ["https://ex.test/a", "https://ex.test/b", "https://ex.test/a", "https://ex.test/c", "https://ex.test/b"] {
        f.put_outlink(outlink(s, None));
    }
    let first = drain(&mut f);
    assert_eq!(first, vec!["https://ex.test/c", "https://ex.test/b", "https://ex.test/a"]);
    // known URLs never come back, even after being handed out
    f.put_outlink(outlink("https://ex.test/a", None));
    f.put_outlink(outlink("https://ex.test/d", None));
    assert_eq!(drain(&mut f), vec!["https://ex.test/d"]);
}

#[test]
fn frontier_clears_fragments() {
    let mut f = UrlFrontier::new();
    f.put_outlink(outlink("https://ex.test/page#section", None));
    f.put_outlink(outlink("https://ex.test/page#other", None));
    let item = f.get_item().unwrap();
    assert_eq!(item.url.fragment, None);
    assert_eq!(item.url.as_string(), "https://ex.test/page");
    assert_eq!(item.i.len(), 2);
    assert!(f.get_item().is_none());
}

#[test]
fn frontier_ignores_other_schemes() {
    let mut f = UrlFrontier::new();
    f.put_outlink(outlink("ftp://ex.test/file", None));
    f.put_outlink(outlink("mailto:someone@ex.test", None));
    assert!(f.get_item().is_none());
}

#[test]
fn frontier_put_twice_concatenates_inlinks() {
    let mut f = UrlFrontier::new();
    f.put_outlink(outlink("https://ex.test/x", Some("next")));
    f.put_outlink(outlink("https://ex.test/x", Some("prev")));
    let item = f.get_item().unwrap();
    assert_eq!(item.url.as_string(), "https://ex.test/x");
    let rels: Vec<Option<String>> = item.i.iter().map(|i| i.rel.clone()).collect();
    assert_eq!(rels, vec![Some("next".to_string()), Some("prev".to_string())]);
    assert!(f.get_item().is_none());
}

#[test]
fn frontier_put_outlinks_is_lifo() {
    let mut f = UrlFrontier::new();
    let source = url("https://ex.test/");
    f.put_outlinks(&source, vec![outlink("https://ex.test/1", None), outlink("https://ex.test/2", None)]);
    assert_eq!(drain(&mut f), vec!["https://ex.test/2", "https://ex.test/1"]);
}

#[test]
fn frontier_keeps_inlink_context() {
    let mut f = UrlFrontier::new();
    f.put_outlink(Outlink { url: url("https://ex.test/sitemap.xml"), i: Inlink::with_context(Context::Sitemap) });
    let item = f.get_item().unwrap();
    assert_eq!(item.i[0].context, Context::Sitemap);
    assert_eq!(item.i[0].redirect_count, 0);
}
