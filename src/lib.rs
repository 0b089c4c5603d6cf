//! A polite, archival web crawler: URL frontier, robots.txt cache and gate,
//! politeness bookkeeping, WARC record framing and link extraction.

pub mod clock;
pub mod crawler;
pub mod db;
pub mod env_vars;
pub mod fetcher;
pub mod link_extractor;
pub mod robots_txt;
pub mod signal_handler;
pub mod url_frontier;
pub mod text;
pub mod url_util;
pub mod warc;

pub use clock::{elapsed, elapsed_at, wait_millis, Timestamp, HALF_DAY, ONE_DAY, TWO_DAYS};
pub use text::{decimal_string, zero_padded_string};
pub use url_util::{is_domain_root, is_http_s, with_path_only, UrlError, WebUrl};
pub use crawler::{item_action, with_root_sitemaps, ItemAction, root_sitemap_outlinks, CheckResult, Context, Inlink, Outlink, UrlItem};
pub use url_frontier::UrlFrontier;
pub use robots_txt::cache::{AccessResult, Cache, Entry};
pub use robots_txt::{RobotsPolicy, RobotsStep, RobotsTxt, RobotsError, AccessKind, verdict, declared_sitemap_outlinks, filter_outlinks};
pub use fetcher::{check_body_size, FetchError, FetchResult, Header, HttpVersion, Politeness, MAX_BODY_SIZE};
pub use warc::{build_record, segment_name, warc_record, ArchiveState};
pub use link_extractor::{extract_outlinks, get_extractor, get_inlink, ExtractError, Extractor, ExtractorKind, FeedExtractor, HtmlExtractor, SitemapExtractor};
pub use link_extractor::html::{anchor_outlink, anchors_outlinks, html_outlinks, resolve_href, Anchor};
pub use link_extractor::sitemap::{entry_to_outlink, events_outlinks, sitemap_outlinks, XmlEvent};
pub use db::format_bind_params;
pub use env_vars::count_helper;
pub use signal_handler::{interrupt_action, Grace, InterruptAction, SignalHandler};
