//! Link extraction, dispatched on how the fetched URL was discovered.

use vstd::prelude::*;

use crate::crawler::{inlinks_view, outlinks_view, plain_inlink, Context, Inlink, InlinkView, OutlinkView, Outlink, UrlItem};
use crate::fetcher::{utf8_lossy, FetchResult};
use crate::url_util::{UrlView, WebUrl};

pub mod feed;
pub mod html;
pub mod sitemap;

use html::{html_anchors, html_outlinks, spec_html_outlinks};
use sitemap::{sitemap_outlinks, sitemap_run, spec_entry_outlinks, xml_events};

verus! {

/// An extractor of links from a body, given the URL it was fetched from.
pub trait Extractor {
    spec fn spec_outlinks(&self, body: Seq<char>, base: UrlView) -> Seq<OutlinkView>;

    fn get_outlinks(&self, body_str: &str, base: &WebUrl) -> (r: Vec<Outlink>)
        ensures
            outlinks_view(r@) == self.spec_outlinks(body_str@, base@),
    ;
}

/// Links of HTML pages.
pub struct HtmlExtractor;

/// Links of XML sitemaps.
pub struct SitemapExtractor;

/// Links of feeds.
pub struct FeedExtractor;

impl Extractor for HtmlExtractor {
    open spec fn spec_outlinks(&self, body: Seq<char>, base: UrlView) -> Seq<OutlinkView> {
        spec_html_outlinks(html_anchors(body), base)
    }

    fn get_outlinks(&self, body_str: &str, base: &WebUrl) -> (r: Vec<Outlink>) {
        html_outlinks(body_str, base)
    }
}

impl Extractor for SitemapExtractor {
    open spec fn spec_outlinks(&self, body: Seq<char>, base: UrlView) -> Seq<OutlinkView> {
        spec_entry_outlinks(sitemap_run(xml_events(body)).1)
    }

    fn get_outlinks(&self, body_str: &str, _base: &WebUrl) -> (r: Vec<Outlink>) {
        sitemap_outlinks(body_str)
    }
}

impl Extractor for FeedExtractor {
    open spec fn spec_outlinks(&self, body: Seq<char>, base: UrlView) -> Seq<OutlinkView> {
        Seq::empty()
    }

    fn get_outlinks(&self, body_str: &str, base: &WebUrl) -> (r: Vec<Outlink>) {
        let r = feed::feed_outlinks(body_str, base);
        assert(outlinks_view(r@) =~= Seq::<OutlinkView>::empty());
        r
    }
}

/// The extractor for a kind of content.
#[derive(Clone, Copy, Debug, PartialEq, Eq, Structural)]
pub enum ExtractorKind {
    Html,
    Sitemap,
    Feed,
}

/// Why no links could be extracted.
#[derive(Clone, Copy, Debug, PartialEq, Eq, Structural)]
pub enum ExtractError {
    /// No extractor handles this context yet.
    Unsupported(Context),
}

/// The inlink that decides the extractor: the first, or the default one.
pub open spec fn spec_get_inlink(links: Seq<InlinkView>) -> InlinkView {
    if links.len() == 0 {
        plain_inlink(Context::Other)
    } else {
        links[0]
    }
}

/// The first inlink, or the default one where there is none.
pub fn get_inlink(links: &Vec<Inlink>) -> (r: Inlink)
    ensures
        r@ == spec_get_inlink(inlinks_view(links@)),
{
    if links.len() == 0 {
        return Inlink::default();
    }
    links[0].duplicate()
}

pub open spec fn spec_extractor(context: Context) -> Option<ExtractorKind> {
    match context {
        Context::Other => Some(ExtractorKind::Html),
        Context::Sitemap => Some(ExtractorKind::Sitemap),
        Context::Feed => Some(ExtractorKind::Feed),
        _ => None,
    }
}

/// The extractor for the context of an inlink: HTML for `Other`, sitemap
/// XML for `Sitemap`, feeds for `Feed`; none yet for the others.
pub fn get_extractor(_fr: &FetchResult, inlink: &Inlink) -> (r: Option<ExtractorKind>)
    ensures
        r == spec_extractor(inlink.context),
{
    match inlink.context {
        Context::Other => Some(ExtractorKind::Html),
        Context::Sitemap => Some(ExtractorKind::Sitemap),
        Context::Feed => Some(ExtractorKind::Feed),
        _ => None,
    }
}

/// The links of a fetched item, by the extractor that the context of its
/// first inlink selects, on the body read as UTF-8 (invalid sequences
/// replaced).
pub fn extract_outlinks(item: &UrlItem, fr: &FetchResult) -> (r: Result<Vec<Outlink>, ExtractError>)
    ensures
        ({
            let ctx = spec_get_inlink(inlinks_view(item.i@)).context;
            let body = utf8_lossy(fr.body@);
            match spec_extractor(ctx) {
                Some(ExtractorKind::Html) => r matches Ok(v) && outlinks_view(v@) == HtmlExtractor.spec_outlinks(body, item.url@),
                Some(ExtractorKind::Sitemap) => r matches Ok(v) && outlinks_view(v@) == SitemapExtractor.spec_outlinks(body, item.url@),
                Some(ExtractorKind::Feed) => r matches Ok(v) && v@.len() == 0,
                None => r == Err::<Vec<Outlink>, ExtractError>(ExtractError::Unsupported(ctx)),
            }
        }),
{
    let inlink = get_inlink(&item.i);
    let body = fr.body_str();
    match get_extractor(fr, &inlink) {
        Some(ExtractorKind::Html) => Ok(HtmlExtractor.get_outlinks(body.as_str(), &item.url)),
        Some(ExtractorKind::Sitemap) => Ok(SitemapExtractor.get_outlinks(body.as_str(), &item.url)),
        Some(ExtractorKind::Feed) => {
            let r = FeedExtractor.get_outlinks(body.as_str(), &item.url);
            assert(outlinks_view(r@).len() == r@.len());
            Ok(r)
        },
        None => Err(ExtractError::Unsupported(inlink.context)),
    }
}

} // verus!
