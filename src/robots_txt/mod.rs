//! The robots.txt gate: which URLs the crawler may fetch, after the
//! Robots Exclusion Protocol (RFC 9309), with results cached per authority.

use std::rc::Rc;

use vstd::prelude::*;
use vstd::string::*;

use crate::clock::{spec_elapsed, elapsed_at, Timestamp, ONE_DAY, THIRTY_DAYS};
use crate::crawler::{outlinks_view, plain_inlink, Context, Inlink, Outlink, OutlinkView};
use crate::url_util::{parsed_view, serialize, url_parse, path_only_text, with_path_only, UrlView, WebUrl};

pub mod cache;

use cache::{lookup_entry, AccessResult, Cache, Entry};

verus! {

/// The verdict of robots.txt on a URL.
#[derive(Clone, Copy, Debug, PartialEq, Eq, Structural)]
pub enum CheckResult {
    Allowed,
    Disallowed,
    /// Come back later in n seconds
    Retry(i32),
}

/// How long to wait before asking again about an unreachable robots.txt.
pub const RETRY_SECONDS: i32 = 84000;

#[verifier::external_type_specification]
#[verifier::external_body]
pub struct ExRobot(texting_robots::Robot);

#[verifier::external_type_specification]
#[verifier::external_body]
pub struct ExAnyhowError(anyhow::Error);

/// Whether `texting_robots::Robot::new` accepts a robots.txt text for an agent.
pub uninterp spec fn robots_parse_ok(agent: Seq<char>, txt: Seq<u8>) -> bool;

/// What `Robot::allowed` answers for a URL, on the robot parsed from a text
/// for an agent.
pub uninterp spec fn robots_allows(agent: Seq<char>, txt: Seq<u8>, url: Seq<char>) -> bool;

/// The `Sitemap:` URLs that `Robot::new` collects from a text.
pub uninterp spec fn robots_sitemaps(agent: Seq<char>, txt: Seq<u8>) -> Seq<Seq<char>>;

/// Relies on `texting_robots::Robot::new`: whether it parses depends on the
/// agent and the text alone.
#[verifier::external_body]
fn robot_new(agent: &str, txt: &[u8]) -> (r: Result<texting_robots::Robot, anyhow::Error>)
    ensures
        r is Ok == robots_parse_ok(agent@, txt@),
{
    texting_robots::Robot::new(agent, txt)
}

/// A parsed robots.txt, with the agent and the text it was parsed from.
pub struct RobotsPolicy {
    robot: texting_robots::Robot,
    agent: Ghost<Seq<char>>,
    text: Ghost<Seq<u8>>,
}

/// Relies on `texting_robots::Robot::allowed`, on the robot that
/// `Robot::new` made of the policy's agent and text (only
/// `RobotsPolicy::parse` makes a policy): the answer depends on those and
/// the URL alone.
#[verifier::external_body]
fn policy_allows(p: &RobotsPolicy, url: &str) -> (r: bool)
    ensures
        r == robots_allows(p.agent@, p.text@, url@),
{
    p.robot.allowed(url)
}

/// Relies on the `sitemaps` field of the robot that `Robot::new` made of the
/// policy's agent and text.
#[verifier::external_body]
fn policy_sitemaps(p: &RobotsPolicy) -> (r: Vec<String>)
    ensures
        r@.map_values(|s: String| s@) == robots_sitemaps(p.agent@, p.text@),
{
    p.robot.sitemaps.clone()
}

impl RobotsPolicy {
    /// The agent the policy was parsed for.
    pub closed spec fn spec_agent(&self) -> Seq<char> {
        self.agent@
    }

    /// The robots.txt text the policy was parsed from.
    pub closed spec fn spec_text(&self) -> Seq<u8> {
        self.text@
    }

    /// Parses a robots.txt text for the agent `agent`; `None` where the
    /// parser rejects it.
    pub fn parse(agent: &str, txt: &[u8]) -> (r: Option<RobotsPolicy>)
        ensures
            r is Some == robots_parse_ok(agent@, txt@),
            r matches Some(p) ==> p.spec_agent() == agent@ && p.spec_text() == txt@,
    {
        match robot_new(agent, txt) {
            Ok(robot) => Some(RobotsPolicy { robot, agent: Ghost(agent@), text: Ghost(txt@) }),
            Err(_) => None,
        }
    }

    /// Whether the policy lets the agent fetch `url`.
    pub fn allowed(&self, url: &str) -> (r: bool)
        ensures
            r == robots_allows(self.spec_agent(), self.spec_text(), url@),
    {
        policy_allows(self, url)
    }

    /// The sitemap URLs the robots.txt declares, as written there.
    pub fn sitemaps(&self) -> (r: Vec<String>)
        ensures
            r@.map_values(|s: String| s@) == robots_sitemaps(self.spec_agent(), self.spec_text()),
    {
        policy_sitemaps(self)
    }
}

/// What a lookup in the cache decides: answer from the cache, or fetch
/// robots.txt anew, carrying forward the time of a first failed try.
pub ghost enum LookupView {
    Answer(AccessResult<RobotsPolicy>),
    Refetch(Option<Timestamp>),
}

/// The decision on a cached entry (or none) at `now`: a fresh entry (less
/// than a day old) answers; an unreachable one older than 30 days counts as
/// unavailable; an older unreachable one is fetched again with its first
/// try carried forward; anything else is fetched anew.
pub open spec fn spec_lookup(entry: Option<Entry<RobotsPolicy>>, now: Timestamp) -> LookupView {
    match entry {
        Some(e) => match e.ar {
            AccessResult::Unreachable(first_tried) => {
                if !spec_elapsed(e.updated, ONE_DAY, now) {
                    LookupView::Answer(e.ar)
                } else if spec_elapsed(e.updated, THIRTY_DAYS, now) {
                    LookupView::Answer(AccessResult::Unavailable)
                } else {
                    LookupView::Refetch(Some(first_tried))
                }
            },
            _ => {
                if !spec_elapsed(e.updated, ONE_DAY, now) {
                    LookupView::Answer(e.ar)
                } else {
                    LookupView::Refetch(None)
                }
            },
        },
        None => LookupView::Refetch(None),
    }
}

/// The access result for a fetched robots.txt: 400-499 is unavailable; 200
/// is the parsed policy (unavailable where it does not parse); anything else
/// is unreachable since the first failed try, or since `start`.
pub open spec fn spec_classify(
    status: u16,
    parse_ok: bool,
    first_tried: Option<Timestamp>,
    start: Timestamp,
) -> AccessKind {
    if 400 <= status <= 499 {
        AccessKind::Unavailable
    } else if status == 200 {
        if parse_ok {
            AccessKind::Success
        } else {
            AccessKind::Unavailable
        }
    } else {
        match first_tried {
            Some(t) => AccessKind::Unreachable(t),
            None => AccessKind::Unreachable(start),
        }
    }
}

/// The variant of an access result, without the policy.
#[derive(Clone, Copy, Debug, PartialEq, Eq, Structural)]
pub enum AccessKind {
    Unavailable,
    Unreachable(Timestamp),
    Success,
}

pub open spec fn kind_of(ar: AccessResult<RobotsPolicy>) -> AccessKind {
    match ar {
        AccessResult::Unavailable => AccessKind::Unavailable,
        AccessResult::Unreachable(t) => AccessKind::Unreachable(t),
        AccessResult::Success(_) => AccessKind::Success,
    }
}

/// The verdict for an access result, given what the policy answers for the
/// URL where there is one.
pub open spec fn spec_verdict(kind: AccessKind, allowed: bool) -> CheckResult {
    match kind {
        AccessKind::Unavailable => CheckResult::Allowed,
        AccessKind::Unreachable(_) => CheckResult::Retry(RETRY_SECONDS),
        AccessKind::Success => if allowed {
            CheckResult::Allowed
        } else {
            CheckResult::Disallowed
        },
    }
}

/// The verdict for an access result: unavailable allows everything,
/// unreachable asks to retry in 84000 seconds, and a policy decides by
/// `allowed`, what it answers for the URL.
pub fn verdict(kind: AccessKind, allowed: bool) -> (r: CheckResult)
    ensures
        r == spec_verdict(kind, allowed),
{
    match kind {
        AccessKind::Unavailable => CheckResult::Allowed,
        AccessKind::Unreachable(_) => CheckResult::Retry(RETRY_SECONDS),
        AccessKind::Success => if allowed {
            CheckResult::Allowed
        } else {
            CheckResult::Disallowed
        },
    }
}

/// The expiry of unreachable results: an entry that has been unreachable
/// for more than 30 days answers as unavailable, whatever its first try.
pub proof fn law_unreachable_expires(e: Entry<RobotsPolicy>, now: Timestamp)
    requires
        e.ar is Unreachable,
        spec_elapsed(e.updated, THIRTY_DAYS, now),
    ensures
        spec_lookup(Some(e), now) == LookupView::Answer(AccessResult::<RobotsPolicy>::Unavailable),
{
    assert(THIRTY_DAYS > ONE_DAY);
}

/// The classification by status class: 400-499 is unavailable, 200 with a
/// text that parses is a policy, and any status outside both is
/// unreachable.
pub proof fn law_classification(status: u16, parse_ok: bool, first_tried: Option<Timestamp>, start: Timestamp)
    ensures
        400 <= status <= 499 ==> spec_classify(status, parse_ok, first_tried, start) == AccessKind::Unavailable,
        status == 200 && parse_ok ==> spec_classify(status, parse_ok, first_tried, start) == AccessKind::Success,
        status != 200 && !(400 <= status <= 499) ==> spec_classify(status, parse_ok, first_tried, start) is Unreachable,
{
}

/// The next step toward the access result for a URL.
pub enum RobotsStep {
    /// The access result is known.
    Ready(AccessResult<RobotsPolicy>),
    /// Fetch `robots_url`, then hand the response to `RobotsTxt::complete`
    /// together with `first_tried`.
    Fetch { robots_url: WebUrl, first_tried: Option<Timestamp> },
}

/// Why no access result can be had for a URL.
#[derive(Clone, Copy, Debug, PartialEq, Eq, Structural)]
pub enum RobotsError {
    /// The URL of the site's robots.txt does not parse.
    NoRobotsUrl,
}

/// The robots.txt gate: a cache of access results per authority, for one
/// agent.
pub struct RobotsTxt {
    robotstxt_cache: Cache<RobotsPolicy>,
    bot_name: String,
}

impl RobotsTxt {
    pub closed spec fn spec_cache(&self) -> Seq<(Seq<char>, Entry<RobotsPolicy>)> {
        self.robotstxt_cache.spec_entries()
    }

    pub closed spec fn spec_last_shrink(&self) -> Timestamp {
        self.robotstxt_cache.spec_last_shrink()
    }

    pub closed spec fn spec_bot_name(&self) -> Seq<char> {
        self.bot_name@
    }

    pub closed spec fn wf(&self) -> bool {
        self.robotstxt_cache.wf()
    }

    /// A gate for the agent `bot_name` with an empty cache, created at `now`.
    pub fn new(bot_name: &str, now: Timestamp) -> (r: RobotsTxt)
        ensures
            r.wf(),
            r.spec_bot_name() == bot_name@,
            r.spec_cache().len() == 0,
    {
        RobotsTxt { robotstxt_cache: Cache::new(now), bot_name: String::from_str(bot_name) }
    }

    /// The first half of `get_or_fetch` at `now`: the cached answer for the
    /// URL's authority, or the robots.txt to fetch.
    pub fn begin(&self, url: &WebUrl, now: Timestamp) -> (r: Result<RobotsStep, RobotsError>)
        requires
            self.wf(),
        ensures
            match spec_lookup(lookup_entry(self.spec_cache(), url@.authority), now) {
                LookupView::Answer(ar) => r matches Ok(RobotsStep::Ready(a)) && a == ar,
                LookupView::Refetch(ft) => match url_parse(path_only_text(url@, "robots.txt"@)) {
                    Ok(v) => r matches Ok(RobotsStep::Fetch { robots_url, first_tried }) && robots_url@ == v
                        && first_tried == ft,
                    Err(_) => r == Err::<RobotsStep, RobotsError>(RobotsError::NoRobotsUrl),
                },
            },
    {
        let mut first_tried: Option<Timestamp> = None;
        match self.robotstxt_cache.get(url.authority.as_str()) {
            Some(e) => {
                match &e.ar {
                    AccessResult::Unreachable(ft) => {
                        if !elapsed_at(e.updated, ONE_DAY, now) {
                            return Ok(RobotsStep::Ready(e.ar.clone()));
                        }
                        if elapsed_at(e.updated, THIRTY_DAYS, now) {
                            return Ok(RobotsStep::Ready(AccessResult::Unavailable));
                        }
                        first_tried = Some(*ft);
                    },
                    _ => {
                        if !elapsed_at(e.updated, ONE_DAY, now) {
                            return Ok(RobotsStep::Ready(e.ar.clone()));
                        }
                    },
                }
            },
            None => {},
        }
        match with_path_only(url, "robots.txt") {
            Some(robots_url) => Ok(RobotsStep::Fetch { robots_url, first_tried }),
            None => Err(RobotsError::NoRobotsUrl),
        }
    }

    /// The second half of `get_or_fetch`: classifies the response to the
    /// robots.txt fetch that `begin` asked for, stores the result in the cache
    /// with `start`, the time the fetch began, and returns it.
    pub fn complete(
        &mut self,
        url: &WebUrl,
        first_tried: Option<Timestamp>,
        status: u16,
        body: &[u8],
        start: Timestamp,
    ) -> (r: AccessResult<RobotsPolicy>)
        requires
            old(self).wf(),
        ensures
            final(self).wf(),
            final(self).spec_bot_name() == old(self).spec_bot_name(),
            kind_of(r) == spec_classify(
                status,
                robots_parse_ok(old(self).spec_bot_name(), body@),
                first_tried,
                start,
            ),
            r matches AccessResult::Success(p) ==> p.spec_agent() == old(self).spec_bot_name()
                && p.spec_text() == body@,
            lookup_entry(final(self).spec_cache(), url@.authority) == Some(Entry { ar: r, updated: start }),
            final(self).spec_cache() == cache::spec_insert(
                old(self).spec_cache(),
                old(self).spec_last_shrink(),
                url@.authority,
                r,
                start,
            ),
    {
        let ar = if 400 <= status && status <= 499 {
            AccessResult::Unavailable
        } else if status == 200 {
            match RobotsPolicy::parse(self.bot_name.as_str(), body) {
                Some(p) => AccessResult::Success(Rc::new(p)),
                None => AccessResult::Unavailable,
            }
        } else {
            match first_tried {
                Some(t) => AccessResult::Unreachable(t),
                None => AccessResult::Unreachable(start),
            }
        };
        self.robotstxt_cache.insert(url.authority.as_str(), ar.clone(), start);
        ar
    }

    /// The verdict on `url` from its access result.
    pub fn decide(ar: &AccessResult<RobotsPolicy>, url: &WebUrl) -> (r: CheckResult)
        ensures
            r == spec_verdict(
                kind_of(*ar),
                match ar {
                    AccessResult::Success(p) => robots_allows(p.spec_agent(), p.spec_text(), serialize(url@)),
                    _ => false,
                },
            ),
    {
        match ar {
            AccessResult::Unavailable => verdict(AccessKind::Unavailable, false),
            AccessResult::Unreachable(t) => verdict(AccessKind::Unreachable(*t), false),
            AccessResult::Success(p) => {
                let text = url.as_string();
                verdict(AccessKind::Success, p.allowed(text.as_str()))
            },
        }
    }

    /// The sitemaps that a robots.txt declares, as outlinks with context
    /// `Sitemap`; the ones that do not parse as URLs are left out. Nothing
    /// where there is no policy.
    pub fn get_sitemaps(ar: &AccessResult<RobotsPolicy>) -> (r: Vec<Outlink>)
        ensures
            match ar {
                AccessResult::Success(p) => outlinks_view(r@) == sitemap_outlinks_spec(
                    robots_sitemaps(p.spec_agent(), p.spec_text()),
                ),
                _ => r@.len() == 0,
            },
    {
        match ar {
            AccessResult::Success(p) => {
                let urls = p.sitemaps();
                declared_sitemap_outlinks(&urls)
            },
            _ => Vec::new(),
        }
    }
}

/// The outlinks with context `Sitemap` for those texts that parse as URLs,
/// in order.
pub open spec fn sitemap_outlinks_spec(texts: Seq<Seq<char>>) -> Seq<OutlinkView>
    decreases texts.len(),
{
    if texts.len() == 0 {
        Seq::empty()
    } else {
        let rest = sitemap_outlinks_spec(texts.drop_last());
        match url_parse(texts.last()) {
            Ok(u) => rest.push(OutlinkView { url: u, inlink: plain_inlink(Context::Sitemap) }),
            Err(_) => rest,
        }
    }
}

/// Outlinks with context `Sitemap` for the texts that parse as URLs.
pub fn declared_sitemap_outlinks(texts: &Vec<String>) -> (r: Vec<Outlink>)
    ensures
        outlinks_view(r@) == sitemap_outlinks_spec(texts@.map_values(|s: String| s@)),
{
    let ghost tv = texts@.map_values(|s: String| s@);
    let mut r: Vec<Outlink> = Vec::new();
    let mut k: usize = 0;
    while k < texts.len()
        invariant
            k <= texts@.len(),
            tv == texts@.map_values(|s: String| s@),
            outlinks_view(r@) == sitemap_outlinks_spec(tv.subrange(0, k as int)),
        decreases texts@.len() - k,
    {
        let ghost before = outlinks_view(r@);
        proof {
            assert(tv.subrange(0, k + 1).drop_last() =~= tv.subrange(0, k as int));
            assert(tv.subrange(0, k + 1).last() == texts@[k as int]@);
        }
        match WebUrl::parse(texts[k].as_str()) {
            Ok(u) => {
                let o = Outlink { url: u, i: Inlink::with_context(Context::Sitemap) };
                r.push(o);
                assert(outlinks_view(r@) =~= before.push(
                    OutlinkView { url: u@, inlink: plain_inlink(Context::Sitemap) },
                ));
            },
            Err(_) => {},
        }
        k = k + 1;
    }
    assert(tv.subrange(0, k as int) =~= tv);
    r
}

/// The outlinks whose verdict is `Allowed`, in order; `verdicts[i]` is the
/// verdict on `outlinks[i]`, `None` where it could not be had.
pub fn filter_outlinks(outlinks: Vec<Outlink>, verdicts: &Vec<Option<CheckResult>>) -> (r: Vec<Outlink>)
    requires
        outlinks@.len() == verdicts@.len(),
    ensures
        outlinks_view(r@) == allowed_outlinks(outlinks_view(outlinks@), verdicts@),
{
    let ghost ov = outlinks_view(outlinks@);
    let ghost vv = verdicts@;
    let mut r: Vec<Outlink> = Vec::new();
    let mut k: usize = 0;
    while k < outlinks.len()
        invariant
            k <= outlinks@.len(),
            ov == outlinks_view(outlinks@),
            vv == verdicts@,
            ov.len() == vv.len(),
            outlinks_view(r@) == allowed_outlinks(ov.subrange(0, k as int), vv.subrange(0, k as int)),
        decreases outlinks@.len() - k,
    {
        let ghost before = outlinks_view(r@);
        proof {
            assert(ov.subrange(0, k + 1).drop_last() =~= ov.subrange(0, k as int));
            assert(vv.subrange(0, k + 1).drop_last() =~= vv.subrange(0, k as int));
        }
        let keep = match verdicts[k] {
            Some(CheckResult::Allowed) => true,
            _ => false,
        };
        if keep {
            let o = outlinks[k].duplicate();
            r.push(o);
            assert(outlinks_view(r@) =~= before.push(ov[k as int]));
        }
        k = k + 1;
    }
    assert(ov.subrange(0, k as int) =~= ov);
    assert(vv.subrange(0, k as int) =~= vv);
    r
}

/// The outlinks whose verdict is `Some(Allowed)`.
pub open spec fn allowed_outlinks(os: Seq<OutlinkView>, vs: Seq<Option<CheckResult>>) -> Seq<OutlinkView>
    decreases os.len(),
{
    if os.len() == 0 || vs.len() == 0 {
        Seq::empty()
    } else {
        let rest = allowed_outlinks(os.drop_last(), vs.drop_last());
        if vs.last() == Some(CheckResult::Allowed) {
            rest.push(os.last())
        } else {
            rest
        }
    }
}

} // verus!
