use quick_xml::events::Event;
use quick_xml::Reader;
use std::str::from_utf8;
use vstd::prelude::*;
use vstd::string::*;

use crate::crawler::{outlinks_view, plain_inlink, Context, Inlink, Outlink, OutlinkView};
use crate::text::same_text;
use crate::url_util::{opt_text, url_parse, WebUrl};

verus! {

/// An XML event, as far as sitemaps need it. Element names are `None` where
/// they are not UTF-8.
#[derive(Debug)]
pub enum XmlEvent {
    Start(Option<String>),
    End(Option<String>),
    Text(String),
    Malformed,
    Other,
}

pub ghost enum XmlEventView {
    Start(Option<Seq<char>>),
    End(Option<Seq<char>>),
    Text(Seq<char>),
    Malformed,
    Other,
}

impl View for XmlEvent {
    type V = XmlEventView;

    open spec fn view(&self) -> XmlEventView {
        match self {
            XmlEvent::Start(n) => XmlEventView::Start(opt_text(*n)),
            XmlEvent::End(n) => XmlEventView::End(opt_text(*n)),
            XmlEvent::Text(t) => XmlEventView::Text(t@),
            XmlEvent::Malformed => XmlEventView::Malformed,
            XmlEvent::Other => XmlEventView::Other,
        }
    }
}

pub open spec fn events_view(s: Seq<XmlEvent>) -> Seq<XmlEventView> {
    s.map_values(|e: XmlEvent| e@)
}

/// The events that `quick_xml` reads from a text with whitespace trimmed,
/// up to the end of input.
pub uninterp spec fn xml_events(text: Seq<char>) -> Seq<XmlEventView>;

/// Relies on `quick_xml::Reader::from_str` with `trim_text(true)`,
/// `Reader::read_event` until `Eof`, and `BytesText::unescape`: the events of
/// the text in order; a read or unescape error is `Malformed` (after a read
/// error the reader reports `Eof`).
#[verifier::external_body]
fn read_xml_events(text: &str) -> (r: Vec<XmlEvent>)
    ensures
        events_view(r@) == xml_events(text@),
{
    let mut reader = Reader::from_str(text);
    reader.config_mut().trim_text(true);
    let mut events = Vec::new();
    loop {
        events.push(match reader.read_event() {
            Ok(Event::Eof) => return events,
            Ok(Event::Start(e)) => XmlEvent::Start(from_utf8(e.name().as_ref()).ok().map(str::to_string)),
            Ok(Event::End(e)) => XmlEvent::End(from_utf8(e.name().as_ref()).ok().map(str::to_string)),
            Ok(Event::Text(e)) => e.unescape().map_or(XmlEvent::Malformed, |t| XmlEvent::Text(t.into_owned())),
            Ok(_) => XmlEvent::Other,
            Err(_) => XmlEvent::Malformed,
        });
    }
}

/// Where the reading of a sitemap stands: inside a `url` or `sitemap`
/// entry or not, the last child element opened in it, and its `loc`.
pub ghost struct SitemapState {
    pub in_entry: bool,
    pub key: Seq<char>,
    pub loc: Option<Seq<char>>,
}

pub open spec fn is_entry_name(n: Seq<char>) -> bool {
    n == "url"@ || n == "sitemap"@
}

/// `url` entries are pages, `sitemap` entries further sitemaps.
pub open spec fn entry_context(n: Seq<char>) -> Context {
    if n == "url"@ {
        Context::Other
    } else {
        Context::Sitemap
    }
}

/// One event: an entry opens (with no `loc` yet); inside it, an element
/// opens and becomes the key, and text under the key `loc` is the location;
/// an entry closes and yields its location, if it has one, with its
/// context.
pub open spec fn sitemap_step(st: SitemapState, ev: XmlEventView) -> (SitemapState, Option<(Seq<char>, Context)>) {
    match ev {
        XmlEventView::Start(Some(n)) => if is_entry_name(n) {
            (SitemapState { in_entry: true, loc: None, ..st }, None)
        } else if st.in_entry {
            (SitemapState { key: n, ..st }, None)
        } else {
            (st, None)
        },
        XmlEventView::Text(t) => if st.in_entry && st.key == "loc"@ {
            (SitemapState { loc: Some(t), ..st }, None)
        } else {
            (st, None)
        },
        XmlEventView::End(Some(n)) => if is_entry_name(n) {
            (
                SitemapState { in_entry: false, ..st },
                match st.loc {
                    Some(l) => Some((l, entry_context(n))),
                    None => None,
                },
            )
        } else {
            (st, None)
        },
        _ => (st, None),
    }
}

pub open spec fn sitemap_start() -> SitemapState {
    SitemapState { in_entry: false, key: Seq::empty(), loc: None }
}

/// The state after a sequence of events, and the locations found, in order.
pub open spec fn sitemap_run(events: Seq<XmlEventView>) -> (SitemapState, Seq<(Seq<char>, Context)>)
    decreases events.len(),
{
    if events.len() == 0 {
        (sitemap_start(), Seq::empty())
    } else {
        let (st, found) = sitemap_run(events.drop_last());
        let (st2, e) = sitemap_step(st, events.last());
        (
            st2,
            match e {
                Some(x) => found.push(x),
                None => found,
            },
        )
    }
}

/// The outlinks for the locations found: those that parse as URLs.
pub open spec fn spec_entry_outlinks(found: Seq<(Seq<char>, Context)>) -> Seq<OutlinkView>
    decreases found.len(),
{
    if found.len() == 0 {
        Seq::empty()
    } else {
        let rest = spec_entry_outlinks(found.drop_last());
        match url_parse(found.last().0) {
            Ok(u) => rest.push(OutlinkView { url: u, inlink: plain_inlink(found.last().1) }),
            Err(_) => rest,
        }
    }
}

/// The outlink for a sitemap entry with location `loc`, if it has one that
/// parses.
pub fn entry_to_outlink(loc: &Option<String>, context: Context) -> (r: Option<Outlink>)
    ensures
        match opt_text(*loc) {
            Some(l) => match url_parse(l) {
                Ok(u) => r matches Some(o) && o@ == (OutlinkView { url: u, inlink: plain_inlink(context) }),
                Err(_) => r is None,
            },
            None => r is None,
        },
{
    match loc {
        Some(l) => match WebUrl::parse(l.as_str()) {
            Ok(url) => Some(Outlink { url, i: Inlink::with_context(context) }),
            Err(_) => None,
        },
        None => None,
    }
}

/// The outlinks of a sequence of XML events from a sitemap.
pub fn events_outlinks(events: &Vec<XmlEvent>) -> (r: Vec<Outlink>)
    ensures
        outlinks_view(r@) == spec_entry_outlinks(sitemap_run(events_view(events@)).1),
{
    proof {
        reveal_strlit("url");
        reveal_strlit("sitemap");
        reveal_strlit("loc");
    }
    let ghost ev = events_view(events@);
    let mut in_entry = false;
    let mut key = String::new();
    let mut loc: Option<String> = None;
    let mut r: Vec<Outlink> = Vec::new();
    let mut k: usize = 0;
    while k < events.len()
        invariant
            k <= events@.len(),
            ev == events_view(events@),
            sitemap_run(ev.subrange(0, k as int)).0 == (SitemapState { in_entry, key: key@, loc: opt_text(loc) }),
            outlinks_view(r@) == spec_entry_outlinks(sitemap_run(ev.subrange(0, k as int)).1),
        decreases events@.len() - k,
    {
        let ghost before = outlinks_view(r@);
        let ghost found = sitemap_run(ev.subrange(0, k as int)).1;
        proof {
            assert(ev.subrange(0, k + 1).drop_last() =~= ev.subrange(0, k as int));
            assert(ev.subrange(0, k + 1).last() == events@[k as int]@);
        }
        match &events[k] {
            XmlEvent::Start(Some(n)) => {
                if same_text(n.as_str(), "url") || same_text(n.as_str(), "sitemap") {
                    in_entry = true;
                    loc = None;
                } else if in_entry {
                    key = n.clone();
                }
            },
            XmlEvent::Text(t) => {
                if in_entry && same_text(key.as_str(), "loc") {
                    loc = Some(t.clone());
                }
            },
            XmlEvent::End(Some(n)) => {
                let is_url = same_text(n.as_str(), "url");
                if is_url || same_text(n.as_str(), "sitemap") {
                    in_entry = false;
                    let context = if is_url {
                        Context::Other
                    } else {
                        Context::Sitemap
                    };
                    match entry_to_outlink(&loc, context) {
                        Some(o) => {
                            r.push(o);
                            assert(outlinks_view(r@) =~= before.push(o@));
                        },
                        None => {},
                    }
                }
            },
            _ => {},
        }
        proof {
            let nf = sitemap_run(ev.subrange(0, k + 1)).1;
            if nf.len() > found.len() {
                assert(nf.drop_last() =~= found);
            }
        }
        k = k + 1;
    }
    assert(ev.subrange(0, k as int) =~= ev);
    r
}

/// The links of a sitemap: the `loc` of each `url` entry, with context
/// `Other`, and of each `sitemap` entry, with context `Sitemap`, in order;
/// locations that do not parse are dropped.
pub fn sitemap_outlinks(body_str: &str) -> (r: Vec<Outlink>)
    ensures
        outlinks_view(r@) == spec_entry_outlinks(sitemap_run(xml_events(body_str@)).1),
{
    let events = read_xml_events(body_str);
    events_outlinks(&events)
}

/// The events of one `url` entry with a location: `<url><loc>loc</loc></url>`.
pub open spec fn url_entry_events(loc: Seq<char>) -> Seq<XmlEventView> {
    seq![
        XmlEventView::Start(Some("url"@)),
        XmlEventView::Start(Some("loc"@)),
        XmlEventView::Text(loc),
        XmlEventView::End(Some("loc"@)),
        XmlEventView::End(Some("url"@)),
    ]
}

/// The events of a `urlset` opened and holding one entry per location.
pub open spec fn urlset_events(locs: Seq<Seq<char>>) -> Seq<XmlEventView>
    decreases locs.len(),
{
    if locs.len() == 0 {
        seq![XmlEventView::Start(Some("urlset"@))]
    } else {
        urlset_events(locs.drop_last()) + url_entry_events(locs.last())
    }
}

proof fn lemma_names_differ()
    ensures
        "url"@ != "sitemap"@,
        "loc"@ != "url"@,
        "loc"@ != "sitemap"@,
        "urlset"@ != "url"@,
        "urlset"@ != "sitemap"@,
{
    reveal_strlit("url");
    reveal_strlit("sitemap");
    reveal_strlit("loc");
    reveal_strlit("urlset");
    assert("url"@.len() == 3);
    assert("sitemap"@.len() == 7);
    assert("urlset"@.len() == 6);
    assert("loc"@[0] == 'l');
    assert("url"@[0] == 'u');
}

proof fn lemma_run_push(events: Seq<XmlEventView>, e: XmlEventView)
    ensures
        sitemap_run(events.push(e)) == ({
            let (st, found) = sitemap_run(events);
            let (st2, x) = sitemap_step(st, e);
            (
                st2,
                match x {
                    Some(y) => found.push(y),
                    None => found,
                },
            )
        }),
{
    assert(events.push(e).drop_last() =~= events);
}

proof fn lemma_urlset_run(locs: Seq<Seq<char>>)
    ensures
        !sitemap_run(urlset_events(locs)).0.in_entry,
        sitemap_run(urlset_events(locs)).1 == locs.map_values(|l: Seq<char>| (l, Context::Other)),
    decreases locs.len(),
{
    lemma_names_differ();
    if locs.len() == 0 {
        let evs = seq![XmlEventView::Start(Some("urlset"@))];
        lemma_run_push(Seq::empty(), XmlEventView::Start(Some("urlset"@)));
        assert(Seq::<XmlEventView>::empty().push(XmlEventView::Start(Some("urlset"@))) =~= evs);
        assert(locs.map_values(|l: Seq<char>| (l, Context::Other)) =~= Seq::<(Seq<char>, Context)>::empty());
    } else {
        let prev = urlset_events(locs.drop_last());
        lemma_urlset_run(locs.drop_last());
        let l = locs.last();
        let e = url_entry_events(l);
        let step1 = prev.push(e[0]);
        let step2 = step1.push(e[1]);
        let step3 = step2.push(e[2]);
        let step4 = step3.push(e[3]);
        let step5 = step4.push(e[4]);
        lemma_run_push(prev, e[0]);
        lemma_run_push(step1, e[1]);
        lemma_run_push(step2, e[2]);
        lemma_run_push(step3, e[3]);
        lemma_run_push(step4, e[4]);
        assert(step5 =~= urlset_events(locs));
        assert(locs.map_values(|l: Seq<char>| (l, Context::Other)) =~= locs.drop_last().map_values(
            |l: Seq<char>| (l, Context::Other),
        ).push((l, Context::Other)));
    }
}

/// Round trip: the events of a serialized `urlset` of `url` entries, closed
/// at the end, yield exactly the given locations, in order, each with
/// context `Other`.
pub proof fn law_sitemap_round_trip(locs: Seq<Seq<char>>)
    ensures
        sitemap_run(urlset_events(locs).push(XmlEventView::End(Some("urlset"@)))).1 == locs.map_values(
            |l: Seq<char>| (l, Context::Other),
        ),
{
    lemma_urlset_run(locs);
    lemma_run_push(urlset_events(locs), XmlEventView::End(Some("urlset"@)));
    lemma_names_differ();
}

} // verus!
