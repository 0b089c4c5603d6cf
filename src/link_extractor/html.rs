use select::predicate::Predicate;
use vstd::prelude::*;

use crate::crawler::{outlinks_view, plain_inlink, Context, Inlink, InlinkView, Outlink, OutlinkView};
use crate::text::same_text;
use crate::url_util::{
    clone_opt,
    is_http_s, opt_text, serialize, spec_is_http_s, spec_without_fragment, url_join, url_parse,
    parsed_view, UrlError, UrlView, WebUrl,
};

verus! {

/// An `a` element: its `href` and `rel` attributes.
#[derive(Debug)]
pub struct Anchor {
    pub href: Option<String>,
    pub rel: Option<String>,
}

pub ghost struct AnchorView {
    pub href: Option<Seq<char>>,
    pub rel: Option<Seq<char>>,
}

impl View for Anchor {
    type V = AnchorView;

    open spec fn view(&self) -> AnchorView {
        AnchorView { href: opt_text(self.href), rel: opt_text(self.rel) }
    }
}

pub open spec fn anchors_view(s: Seq<Anchor>) -> Seq<AnchorView> {
    s.map_values(|a: Anchor| a@)
}

/// The `a` elements with an `href` attribute that `select` finds in an HTML
/// text, in document order.
pub uninterp spec fn html_anchors(html: Seq<char>) -> Seq<AnchorView>;

/// Relies on `select::document::Document::from` and `Document::find` with
/// `Name("a").and(Attr("href", ()))`: the matching nodes in document order,
/// each with its `href` and `rel` attributes.
#[verifier::external_body]
fn find_anchors(html: &str) -> (r: Vec<Anchor>)
    ensures
        anchors_view(r@) == html_anchors(html@),
{
    let doc = select::document::Document::from(html);
    let pred = select::predicate::Name("a").and(select::predicate::Attr("href", ()));
    doc.find(pred).map(
        |n| Anchor { href: n.attr("href").map(str::to_string), rel: n.attr("rel").map(str::to_string) },
    ).collect()
}

/// The URL an `href` names: an absolute URL as it is, a relative reference
/// resolved against `base`; nothing where the result is not http(s) or the
/// text does not parse.
pub open spec fn spec_resolve(href: Seq<char>, base: UrlView) -> Option<UrlView> {
    match url_parse(href) {
        Ok(u) => if spec_is_http_s(u) {
            Some(u)
        } else {
            None
        },
        Err(UrlError::RelativeUrlWithoutBase) => match url_join(serialize(base), href) {
            Ok(u) => if spec_is_http_s(u) {
                Some(u)
            } else {
                None
            },
            Err(_) => None,
        },
        Err(_) => None,
    }
}

/// The URL an `href` names, resolved against `base`.
pub fn resolve_href(href: &str, base: &WebUrl) -> (r: Option<WebUrl>)
    ensures
        match spec_resolve(href@, base@) {
            Some(u) => r matches Some(w) && w@ == u,
            None => r is None,
        },
{
    match WebUrl::parse(href) {
        Ok(u) => if is_http_s(&u) {
            Some(u)
        } else {
            None
        },
        Err(UrlError::RelativeUrlWithoutBase) => match base.join(href) {
            Ok(u) => if is_http_s(&u) {
                Some(u)
            } else {
                None
            },
            Err(_) => None,
        },
        Err(_) => None,
    }
}

/// The outlink for an anchor whose `href` resolved to `resolved`: the URL
/// without fragment, unless it is the base URL itself.
pub open spec fn spec_anchor_outlink(resolved: Option<UrlView>, base: UrlView, rel: Option<Seq<char>>) -> Option<
    OutlinkView,
> {
    match resolved {
        Some(u) => {
            let u2 = spec_without_fragment(u);
            if serialize(u2) == serialize(base) {
                None
            } else {
                Some(
                    OutlinkView {
                        url: u2,
                        inlink: InlinkView { rel, ..plain_inlink(Context::Other) },
                    },
                )
            }
        },
        None => None,
    }
}

/// The outlink for an anchor with attribute `rel` whose `href` resolved to
/// `resolved`, seen on the page `base`.
pub fn anchor_outlink(resolved: Option<WebUrl>, base: &WebUrl, rel: Option<String>) -> (r: Option<Outlink>)
    ensures
        match spec_anchor_outlink(
            match resolved {
                Some(u) => Some(u@),
                None => None,
            },
            base@,
            opt_text(rel),
        ) {
            Some(o) => r matches Some(x) && x@ == o,
            None => r is None,
        },
{
    match resolved {
        Some(u) => {
            let u2 = u.without_fragment();
            let text = u2.as_string();
            let base_text = base.as_string();
            if same_text(text.as_str(), base_text.as_str()) {
                None
            } else {
                let i = Inlink { rel, context: Context::Other, redirect_count: 0, content_type: None };
                Some(Outlink { url: u2, i })
            }
        },
        None => None,
    }
}

/// The outlinks of a sequence of anchors found on `base`, in order.
pub open spec fn spec_html_outlinks(anchors: Seq<AnchorView>, base: UrlView) -> Seq<OutlinkView>
    decreases anchors.len(),
{
    if anchors.len() == 0 {
        Seq::empty()
    } else {
        let rest = spec_html_outlinks(anchors.drop_last(), base);
        let a = anchors.last();
        match a.href {
            Some(h) => match spec_anchor_outlink(spec_resolve(h, base), base, a.rel) {
                Some(o) => rest.push(o),
                None => rest,
            },
            None => rest,
        }
    }
}

/// Every outlink of an HTML page is http(s), has no fragment, differs
/// from the page itself, and carries context `Other`, no redirects and no
/// content type.
pub proof fn lemma_html_outlinks_shape(anchors: Seq<AnchorView>, base: UrlView)
    ensures
        forall|i: int|
            0 <= i < spec_html_outlinks(anchors, base).len() ==> {
                let o = #[trigger] spec_html_outlinks(anchors, base)[i];
                &&& spec_is_http_s(o.url)
                &&& o.url.fragment is None
                &&& serialize(o.url) != serialize(base)
                &&& o.inlink.context == Context::Other
                &&& o.inlink.redirect_count == 0
                &&& o.inlink.content_type is None
            },
    decreases anchors.len(),
{
    if anchors.len() > 0 {
        lemma_html_outlinks_shape(anchors.drop_last(), base);
    }
}

/// The outlinks of the anchors found on the page `base`, in order.
pub fn anchors_outlinks(anchors: &Vec<Anchor>, base: &WebUrl) -> (r: Vec<Outlink>)
    ensures
        outlinks_view(r@) == spec_html_outlinks(anchors_view(anchors@), base@),
        forall|i: int|
            0 <= i < r@.len() ==> {
                let o = (#[trigger] r@[i])@;
                &&& spec_is_http_s(o.url)
                &&& o.url.fragment is None
                &&& serialize(o.url) != serialize(base@)
                &&& o.inlink.context == Context::Other
                &&& o.inlink.redirect_count == 0
                &&& o.inlink.content_type is None
            },
{
    let ghost av = anchors_view(anchors@);
    let mut r: Vec<Outlink> = Vec::new();
    let mut k: usize = 0;
    while k < anchors.len()
        invariant
            k <= anchors@.len(),
            av == anchors_view(anchors@),
            outlinks_view(r@) == spec_html_outlinks(av.subrange(0, k as int), base@),
        decreases anchors@.len() - k,
    {
        let ghost before = outlinks_view(r@);
        let a = &anchors[k];
        proof {
            assert(av[k as int] == a@);
            assert(av.subrange(0, k + 1).drop_last() =~= av.subrange(0, k as int));
        }
        match &a.href {
            Some(h) => {
                let resolved = resolve_href(h.as_str(), base);
                match anchor_outlink(resolved, base, clone_opt(&a.rel)) {
                    Some(o) => {
                        r.push(o);
                        assert(outlinks_view(r@) =~= before.push(o@));
                    },
                    None => {},
                }
            },
            None => {},
        }
        k = k + 1;
    }
    assert(av.subrange(0, k as int) =~= av);
    proof {
        lemma_html_outlinks_shape(av, base@);
        let sv = spec_html_outlinks(av, base@);
        assert forall|i: int| 0 <= i < r@.len() implies {
            let o = (#[trigger] r@[i])@;
            &&& spec_is_http_s(o.url)
            &&& o.url.fragment is None
            &&& serialize(o.url) != serialize(base@)
            &&& o.inlink.context == Context::Other
            &&& o.inlink.redirect_count == 0
            &&& o.inlink.content_type is None
        } by {
            assert(r@[i]@ == outlinks_view(r@)[i]);
            assert(outlinks_view(r@)[i] == sv[i]);
        }
    }
    r
}

/// The links of an HTML page: each `a` element with an `href` that names an
/// http(s) URL (relative ones resolved against `base`), without fragment,
/// other than `base` itself, with the element's `rel` and context `Other`.
pub fn html_outlinks(body_str: &str, base: &WebUrl) -> (r: Vec<Outlink>)
    ensures
        outlinks_view(r@) == spec_html_outlinks(html_anchors(body_str@), base@),
        forall|i: int|
            0 <= i < r@.len() ==> {
                let o = (#[trigger] r@[i])@;
                &&& spec_is_http_s(o.url)
                &&& o.url.fragment is None
                &&& serialize(o.url) != serialize(base@)
                &&& o.inlink.context == Context::Other
                &&& o.inlink.redirect_count == 0
                &&& o.inlink.content_type is None
            },
{
    let anchors = find_anchors(body_str);
    anchors_outlinks(&anchors, base)
}

} // verus!
