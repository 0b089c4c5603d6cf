use std::rc::Rc;

use lara::{item_action, with_root_sitemaps, ItemAction};

use lara::{
    filter_outlinks, root_sitemap_outlinks, verdict, AccessKind, AccessResult, Cache, CheckResult, Context,
    Inlink, Outlink, RobotsPolicy, RobotsStep, RobotsTxt, Timestamp, UrlFrontier, WebUrl, ONE_DAY,
};

fn url(s: &str) -> WebUrl {
    WebUrl::parse(s).unwrap()
}

fn t(secs: u64) -> Timestamp {
    Timestamp { millis: secs * 1000 }
}

fn get_or_fetch(gate: &mut RobotsTxt, u: &WebUrl, now: Timestamp, status: u16, body: &[u8]) -> AccessResult<RobotsPolicy> {
    match gate.begin(u, now).unwrap() {
        RobotsStep::Ready(ar) => ar,
        RobotsStep::Fetch { robots_url, first_tried } => {
            assert_eq!(robots_url.as_string(), format!("{}://{}/robots.txt", u.scheme, u.authority));
            gate.complete(u, first_tried, status, body, now)
        }
    }
}

#[test]
fn access_result_clone() {
    let ar: AccessResult<()> = AccessResult::Unavailable;
    assert_eq!(ar, ar.clone());

    let ar: AccessResult<bool> = AccessResult::Success(std::rc::Rc::new(true));
    assert_eq!(ar, ar.clone());

    let ar: AccessResult<i64> = AccessResult::Unreachable(Timestamp { millis: 1_700_000_000_000 });
    assert_eq!(ar, ar.clone());
}

#[test]
fn cache_stays_within_cap() {
    let mut now = t(0);
    let mut cache: Cache<()> = Cache::new(now);
    assert_eq!(cache.len(), 0);
    let mut seed: u64 = 7;
    for k in 0..300u64 {
        seed = seed.wrapping_mul(6364136223846793005).wrapping_add(1442695040888963407);
        let delay = (seed >> 56) % 4;
        now = Timestamp { millis: now.millis + 3000 * 1000 * delay };
        let before = cache.len();
        let authority = format!("host{}.test", k % 150);
        cache.insert(&authority, AccessResult::Unavailable, now);
        assert_eq!(cache.get(&authority).unwrap().updated, now);
        assert!(cache.len() <= 100);
        assert!(cache.len() <= before + 1);
        if cache.len() < before {
            assert_eq!(cache.last_shrink(), now);
        }
    }
}

#[test]
fn cache_shrinks_old_entries_after_two_days() {
    let mut cache: Cache<()> = Cache::new(t(0));
    for k in 0..60u64 {
        cache.insert(&format!("h{k}"), AccessResult::Unavailable, t(3600 * (k + 1)));
    }
    // 60 inserts one hour apart: a shrink ran after two days and dropped
    // what was older than half a day
    assert!(cache.len() < 60);
    assert!(cache.last_shrink().millis > 0);
    assert!(cache.get("h0").is_none());
    assert!(cache.get("h59").is_some());
}

#[test]
fn cache_replaces_entry() {
    let mut cache: Cache<u8> = Cache::new(t(0));
    cache.insert("a.test", AccessResult::Unavailable, t(1));
    cache.insert("a.test", AccessResult::Success(Rc::new(3)), t(2));
    assert_eq!(cache.len(), 1);
    let e = cache.get("a.test").unwrap();
    assert_eq!(e.ar, AccessResult::Success(Rc::new(3)));
    assert_eq!(e.updated, t(2));
}

#[test]
fn robots_classification_by_status() {
    let mut gate = RobotsTxt::new("larabot", t(0));
    let u200 = url("https://ok.test/x");
    let u404 = url("https://missing.test/x");
    let u500 = url("https://broken.test/x");
    let ar = get_or_fetch(&mut gate, &u200, t(10), 200, b"User-agent: *\nDisallow: /private\n");
    assert!(matches!(ar, AccessResult::Success(_)));
    let ar = get_or_fetch(&mut gate, &u404, t(10), 404, b"");
    assert_eq!(RobotsTxt::decide(&ar, &u404), CheckResult::Allowed);
    assert!(matches!(ar, AccessResult::Unavailable));
    let ar = get_or_fetch(&mut gate, &u500, t(10), 500, b"");
    assert!(matches!(ar, AccessResult::Unreachable(st) if st == t(10)));
}

#[test]
fn robots_disallow_blocks_url() {
    let mut gate = RobotsTxt::new("larabot", t(0));
    let a = url("https://ex.test/a");
    let ar = get_or_fetch(&mut gate, &a, t(5), 200, b"User-agent: *\nDisallow: /a\n");
    assert_eq!(RobotsTxt::decide(&ar, &a), CheckResult::Disallowed);
    let b = url("https://ex.test/b");
    // answered from the cache, without a fetch
    match gate.begin(&b, t(6)).unwrap() {
        RobotsStep::Ready(ar) => assert_eq!(RobotsTxt::decide(&ar, &b), CheckResult::Allowed),
        RobotsStep::Fetch { .. } => panic!("expected a cached answer"),
    }
}

#[test]
fn robots_unreachable_then_unavailable() {
    let mut gate = RobotsTxt::new("larabot", t(0));
    let u = url("https://flaky.test/page");
    let t0 = t(1000);
    let ar = get_or_fetch(&mut gate, &u, t0, 503, b"");
    assert_eq!(RobotsTxt::decide(&ar, &u), CheckResult::Retry(84000));
    assert!(matches!(ar, AccessResult::Unreachable(st) if st == t0));
    // within a day the cached result answers
    match gate.begin(&u, t(1000 + 3600)).unwrap() {
        RobotsStep::Ready(ar) => assert!(matches!(ar, AccessResult::Unreachable(st) if st == t0)),
        RobotsStep::Fetch { .. } => panic!("expected a cached answer"),
    }
    // after two days it is fetched again, carrying the first try forward
    match gate.begin(&u, t(1000 + 2 * ONE_DAY)).unwrap() {
        RobotsStep::Fetch { first_tried, .. } => assert_eq!(first_tried, Some(t0)),
        RobotsStep::Ready(_) => panic!("expected a fetch"),
    }
    // 31 days later without success: unavailable, so allowed
    let later = t(1000 + 31 * ONE_DAY);
    match gate.begin(&u, later).unwrap() {
        RobotsStep::Ready(ar) => {
            assert!(matches!(ar, AccessResult::Unavailable));
            assert_eq!(RobotsTxt::decide(&ar, &u), CheckResult::Allowed);
        }
        RobotsStep::Fetch { .. } => panic!("expected unavailable"),
    }
}

#[test]
fn robots_refetch_keeps_first_try() {
    let mut gate = RobotsTxt::new("larabot", t(0));
    let u = url("https://flaky.test/");
    let t0 = t(100);
    get_or_fetch(&mut gate, &u, t0, 502, b"");
    let ar = get_or_fetch(&mut gate, &u, t(100 + 2 * ONE_DAY), 502, b"");
    assert!(matches!(ar, AccessResult::Unreachable(st) if st == t0));
}

#[test]
fn verdicts() {
    assert_eq!(verdict(AccessKind::Unavailable, false), CheckResult::Allowed);
    assert_eq!(verdict(AccessKind::Unreachable(t(1)), true), CheckResult::Retry(84000));
    assert_eq!(verdict(AccessKind::Success, true), CheckResult::Allowed);
    assert_eq!(verdict(AccessKind::Success, false), CheckResult::Disallowed);
}

#[test]
fn policy_reports_rules_and_sitemaps() {
    let p = RobotsPolicy::parse("larabot", b"User-agent: *\nDisallow: /secret\nSitemap: https://ex.test/sm.xml\n").unwrap();
    assert!(!p.allowed("https://ex.test/secret"));
    assert!(p.allowed("https://ex.test/open"));
    assert_eq!(p.sitemaps(), vec!["https://ex.test/sm.xml".to_string()]);
}

#[test]
fn allowed_root_with_inline_sitemap() {
    let mut gate = RobotsTxt::new("larabot", t(0));
    let root = url("https://ex.test/");
    let ar = get_or_fetch(&mut gate, &root, t(1), 200, b"User-agent: *\nAllow: /\nSitemap: https://ex.test/sm.xml\n");
    assert_eq!(RobotsTxt::decide(&ar, &root), CheckResult::Allowed);
    let sms = RobotsTxt::get_sitemaps(&ar);
    assert_eq!(sms.len(), 1);
    assert_eq!(sms[0].url.as_string(), "https://ex.test/sm.xml");
    assert_eq!(sms[0].i.context, Context::Sitemap);
    let queued = root_sitemap_outlinks(&root, sms);
    assert_eq!(queued.len(), 1);
    // the sitemap lists /p1, which ends up in the frontier
    let listed = lara::sitemap_outlinks("<urlset><url><loc>https://ex.test/p1</loc></url></urlset>");
    let mut f = UrlFrontier::new();
    f.put_outlinks(&root, listed);
    assert_eq!(f.get_item().unwrap().url.as_string(), "https://ex.test/p1");
}

#[test]
fn domain_root_without_declared_sitemap() {
    let mut gate = RobotsTxt::new("larabot", t(0));
    let root = url("https://ex.test/");
    let ar = get_or_fetch(&mut gate, &root, t(1), 404, b"");
    let sms = RobotsTxt::get_sitemaps(&ar);
    assert!(sms.is_empty());
    let queued = root_sitemap_outlinks(&root, sms);
    assert_eq!(queued.len(), 1);
    assert_eq!(queued[0].url.as_string(), "https://ex.test/sitemap.xml");
    assert_eq!(queued[0].i.context, Context::Sitemap);
}

#[test]
fn filter_keeps_allowed_only() {
    let os = vec![
        Outlink { url: url("https://a.test/1"), i: Inlink::default() },
        Outlink { url: url("https://a.test/2"), i: Inlink::default() },
        Outlink { url: url("https://a.test/3"), i: Inlink::default() },
        Outlink { url: url("https://a.test/4"), i: Inlink::default() },
    ];
    let vs = vec![Some(CheckResult::Allowed), Some(CheckResult::Disallowed), Some(CheckResult::Retry(84000)), None];
    let kept = filter_outlinks(os, &vs);
    assert_eq!(kept.len(), 1);
    assert_eq!(kept[0].url.as_string(), "https://a.test/1");
}

#[test]
fn item_actions_by_verdict() {
    assert_eq!(item_action(CheckResult::Allowed), ItemAction::Fetch);
    assert_eq!(item_action(CheckResult::Disallowed), ItemAction::Skip);
    assert_eq!(item_action(CheckResult::Retry(84000)), ItemAction::RetryLater(84000));
}

#[test]
fn root_pages_add_sitemaps() {
    let extracted = || vec![Outlink { url: url("https://ex.test/a"), i: Inlink::default() }];
    let root = url("https://ex.test/");
    let out = with_root_sitemaps(&root, extracted(), Vec::new());
    let urls: Vec<String> = out.iter().map(|o| o.url.as_string()).collect();
    assert_eq!(urls, vec!["https://ex.test/a", "https://ex.test/sitemap.xml"]);
    assert_eq!(out[1].i.context, Context::Sitemap);
    let declared = vec![Outlink { url: url("https://ex.test/sm.xml"), i: Inlink::with_context(Context::Sitemap) }];
    let out = with_root_sitemaps(&root, extracted(), declared);
    assert_eq!(out.len(), 2);
    assert_eq!(out[1].url.as_string(), "https://ex.test/sm.xml");
    let page = url("https://ex.test/a/b");
    let out = with_root_sitemaps(&page, extracted(), Vec::new());
    assert_eq!(out.len(), 1);
}

#[test]
fn stored_result_is_found_again() {
    let mut gate = RobotsTxt::new("larabot", t(0));
    let u = url("https://ex.test/x");
    let ar = get_or_fetch(&mut gate, &u, t(10), 404, b"");
    assert!(matches!(ar, AccessResult::Unavailable));
    let other = url("https://ex.test/y");
    match gate.begin(&other, t(11)).unwrap() {
        RobotsStep::Ready(ar) => assert!(matches!(ar, AccessResult::Unavailable)),
        RobotsStep::Fetch { .. } => panic!("expected the stored result"),
    }
}
