use vstd::prelude::*;

use crate::url_util::{
    clone_opt, is_domain_root, opt_text, path_only_text, spec_is_domain_root, url_parse, with_path_only, UrlView,
    WebUrl,
};

pub use crate::robots_txt::CheckResult;

verus! {

/// How a URL was discovered; selects the extractor for its body.
#[derive(Clone, Copy, Debug, PartialEq, Eq, Structural)]
pub enum Context {
    Other,
    Img,
    Style,
    Script,
    /// e.g. `<link rel="alternate" type="application/rss+xml" href="...">`
    Feed,
    /// implicit from a domain root or declared in robots.txt
    Sitemap,
}

impl Default for Context {
    fn default() -> (r: Context)
        ensures
            r == Context::Other,
    {
        Context::Other
    }
}

/// Metadata of the link through which a URL was found.
#[derive(Debug)]
pub struct Inlink {
    pub rel: Option<String>,
    pub context: Context,
    pub redirect_count: usize,
    pub content_type: Option<String>,
}

pub ghost struct InlinkView {
    pub rel: Option<Seq<char>>,
    pub context: Context,
    pub redirect_count: usize,
    pub content_type: Option<Seq<char>>,
}

impl View for Inlink {
    type V = InlinkView;

    open spec fn view(&self) -> InlinkView {
        InlinkView {
            rel: opt_text(self.rel),
            context: self.context,
            redirect_count: self.redirect_count,
            content_type: opt_text(self.content_type),
        }
    }
}

/// The inlink of a link found with no particular metadata, in `context`.
pub open spec fn plain_inlink(context: Context) -> InlinkView {
    InlinkView { rel: None, context, redirect_count: 0, content_type: None }
}

impl Default for Inlink {
    fn default() -> (r: Inlink)
        ensures
            r@ == plain_inlink(Context::Other),
    {
        Inlink { rel: None, context: Context::Other, redirect_count: 0, content_type: None }
    }
}

impl Inlink {
    /// An inlink with no metadata but its context.
    pub fn with_context(context: Context) -> (r: Inlink)
        ensures
            r@ == plain_inlink(context),
    {
        Inlink { rel: None, context, redirect_count: 0, content_type: None }
    }

    /// A copy of this inlink.
    pub fn duplicate(&self) -> (r: Inlink)
        ensures
            r@ == self@,
    {
        Inlink {
            rel: clone_opt(&self.rel),
            context: self.context,
            redirect_count: self.redirect_count,
            content_type: clone_opt(&self.content_type),
        }
    }
}

pub open spec fn inlinks_view(s: Seq<Inlink>) -> Seq<InlinkView> {
    s.map_values(|x: Inlink| x@)
}

pub proof fn lemma_inlinks_view_push(s: Seq<Inlink>, x: Inlink)
    ensures
        inlinks_view(s.push(x)) == inlinks_view(s).push(x@),
{
    assert(inlinks_view(s.push(x)) =~= inlinks_view(s).push(x@));
}

/// A copy of a list of inlinks.
pub fn duplicate_inlinks(links: &Vec<Inlink>) -> (r: Vec<Inlink>)
    ensures
        inlinks_view(r@) == inlinks_view(links@),
{
    let mut r: Vec<Inlink> = Vec::new();
    let mut k: usize = 0;
    while k < links.len()
        invariant
            k <= links@.len(),
            inlinks_view(r@) =~= inlinks_view(links@.subrange(0, k as int)),
        decreases links@.len() - k,
    {
        let d = links[k].duplicate();
        proof {
            lemma_inlinks_view_push(r@, d);
            assert(links@.subrange(0, k + 1) =~= links@.subrange(0, k as int).push(links@[k as int]));
            lemma_inlinks_view_push(links@.subrange(0, k as int), links@[k as int]);
        }
        r.push(d);
        k = k + 1;
    }
    assert(links@.subrange(0, k as int) =~= links@);
    r
}

/// A discovered URL with the metadata of the link that led to it.
#[derive(Debug)]
pub struct Outlink {
    pub url: WebUrl,
    pub i: Inlink,
}

pub ghost struct OutlinkView {
    pub url: UrlView,
    pub inlink: InlinkView,
}

impl View for Outlink {
    type V = OutlinkView;

    open spec fn view(&self) -> OutlinkView {
        OutlinkView { url: self.url@, inlink: self.i@ }
    }
}

impl Outlink {
    /// A copy of this outlink.
    pub fn duplicate(&self) -> (r: Outlink)
        ensures
            r@ == self@,
    {
        Outlink { url: self.url.duplicate(), i: self.i.duplicate() }
    }
}

pub open spec fn outlinks_view(s: Seq<Outlink>) -> Seq<OutlinkView> {
    s.map_values(|o: Outlink| o@)
}

/// The sitemaps to queue for a domain root: those its robots.txt declares,
/// or else its `/sitemap.xml`, with context `Sitemap` (nothing where that
/// URL does not parse).
pub fn root_sitemap_outlinks(url: &WebUrl, declared: Vec<Outlink>) -> (r: Vec<Outlink>)
    ensures
        declared@.len() > 0 ==> r@ == declared@,
        declared@.len() == 0 ==> match url_parse(path_only_text(url@, "sitemap.xml"@)) {
            Ok(v) => outlinks_view(r@) == seq![OutlinkView { url: v, inlink: plain_inlink(Context::Sitemap) }],
            Err(_) => r@.len() == 0,
        },
{
    if declared.len() > 0 {
        return declared;
    }
    match with_path_only(url, "sitemap.xml") {
        Some(u) => {
            let r = vec![Outlink { url: u, i: Inlink::with_context(Context::Sitemap) }];
            assert(outlinks_view(r@) =~= seq![r@[0]@]);
            r
        },
        None => Vec::new(),
    }
}

/// What the crawl loop does with an item, by its robots.txt verdict.
#[derive(Clone, Copy, Debug, PartialEq, Eq, Structural)]
pub enum ItemAction {
    /// Fetch it.
    Fetch,
    /// robots.txt forbids it.
    Skip,
    /// robots.txt could not be had; ask again in the given seconds
    /// (queueing again with a delay is reserved).
    RetryLater(i32),
}

/// Allowed items are fetched, disallowed ones skipped, and those to retry
/// put off.
pub fn item_action(verdict: CheckResult) -> (r: ItemAction)
    ensures
        verdict == CheckResult::Allowed ==> r == ItemAction::Fetch,
        verdict == CheckResult::Disallowed ==> r == ItemAction::Skip,
        forall|s: i32| verdict == CheckResult::Retry(s) ==> r == ItemAction::RetryLater(s),
{
    match verdict {
        CheckResult::Allowed => ItemAction::Fetch,
        CheckResult::Disallowed => ItemAction::Skip,
        CheckResult::Retry(s) => ItemAction::RetryLater(s),
    }
}

/// The outlinks of a fetched page: those extracted, followed, for a domain
/// root, by its sitemaps (`root_sitemap_outlinks` of `declared`); other
/// pages add nothing.
pub fn with_root_sitemaps(url: &WebUrl, outlinks: Vec<Outlink>, declared: Vec<Outlink>) -> (r: Vec<Outlink>)
    ensures
        !spec_is_domain_root(url@) ==> r@ == outlinks@,
        spec_is_domain_root(url@) ==> r@.subrange(0, outlinks@.len() as int) == outlinks@ && (declared@.len() > 0
            ==> r@ == outlinks@ + declared@) && (declared@.len() == 0 ==> match url_parse(
            path_only_text(url@, "sitemap.xml"@),
        ) {
            Ok(v) => outlinks_view(r@) == outlinks_view(outlinks@).push(
                OutlinkView { url: v, inlink: plain_inlink(Context::Sitemap) },
            ),
            Err(_) => r@ == outlinks@,
        }),
{
    if !is_domain_root(url) {
        return outlinks;
    }
    let mut r = outlinks;
    let ghost before = r@;
    let mut sms = root_sitemap_outlinks(url, declared);
    let ghost added = sms@;
    r.append(&mut sms);
    assert(r@ == before + added);
    assert(r@.subrange(0, before.len() as int) =~= before);
    proof {
        assert(outlinks_view(added).len() == added.len());
        if added.len() == 1 {
            assert(outlinks_view(r@) =~= outlinks_view(before).push(outlinks_view(added)[0]));
        } else if added.len() == 0 {
            assert(r@ =~= before);
        }
    }
    r
}

/// What the frontier hands out: a URL and every inlink seen for it.
#[derive(Debug)]
pub struct UrlItem {
    pub url: WebUrl,
    pub i: Vec<Inlink>,
}

} // verus!
