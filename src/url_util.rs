use vstd::prelude::*;
use vstd::string::*;

use crate::text::same_text;

verus! {

/// Why a text is not an absolute URL.
#[derive(Clone, Copy, Debug, PartialEq, Eq, Structural)]
pub enum UrlError {
    /// The text is a relative reference, which needs a base URL.
    RelativeUrlWithoutBase,
    /// Any other syntax error.
    Invalid,
}

/// An absolute URL, held as its parts.
#[derive(Debug)]
pub struct WebUrl {
    pub scheme: String,
    /// `user:password@host:port`, as far as present; empty without authority.
    pub authority: String,
    pub has_authority: bool,
    pub path: String,
    pub query: Option<String>,
    pub fragment: Option<String>,
}

/// The parts of a URL as character sequences.
pub ghost struct UrlView {
    pub scheme: Seq<char>,
    pub authority: Seq<char>,
    pub has_authority: bool,
    pub path: Seq<char>,
    pub query: Option<Seq<char>>,
    pub fragment: Option<Seq<char>>,
}

pub open spec fn opt_text(o: Option<String>) -> Option<Seq<char>> {
    match o {
        Some(s) => Some(s@),
        None => None,
    }
}

impl View for WebUrl {
    type V = UrlView;

    open spec fn view(&self) -> UrlView {
        UrlView {
            scheme: self.scheme@,
            authority: self.authority@,
            has_authority: self.has_authority,
            path: self.path@,
            query: opt_text(self.query),
            fragment: opt_text(self.fragment),
        }
    }
}

/// The view of a parse result.
pub open spec fn parsed_view(r: Result<WebUrl, UrlError>) -> Result<UrlView, UrlError> {
    match r {
        Ok(u) => Ok(u@),
        Err(e) => Err(e),
    }
}

/// What `url::Url::parse` makes of a text.
pub uninterp spec fn url_parse(s: Seq<char>) -> Result<UrlView, UrlError>;

/// What `url::Url::join` makes of a reference against a base, where the base
/// is the text of an absolute URL.
pub uninterp spec fn url_join(base: Seq<char>, reference: Seq<char>) -> Result<UrlView, UrlError>;

/// Relies on `url::Url::parse`: the parts that the parsed URL reports, or the
/// kind of syntax error.
#[verifier::external_body]
fn parse_url(s: &str) -> (r: Result<WebUrl, UrlError>)
    ensures
        parsed_view(r) == url_parse(s@),
{
    match url::Url::parse(s) {
        Ok(u) => Ok(WebUrl {
            scheme: u.scheme().to_string(),
            authority: u.authority().to_string(),
            has_authority: u.has_authority(),
            path: u.path().to_string(),
            query: u.query().map(str::to_string),
            fragment: u.fragment().map(str::to_string),
        }),
        Err(url::ParseError::RelativeUrlWithoutBase) => Err(UrlError::RelativeUrlWithoutBase),
        Err(_) => Err(UrlError::Invalid),
    }
}

/// Relies on `url::Url::join`: the parts of `reference` resolved against
/// the URL that `base` holds, or the kind of syntax error.
#[verifier::external_body]
fn join_url(base: &str, reference: &str) -> (r: Result<WebUrl, UrlError>)
    ensures
        parsed_view(r) == url_join(base@, reference@),
{
    match url::Url::parse(base).and_then(|b| b.join(reference)) {
        Ok(u) => Ok(WebUrl {
            scheme: u.scheme().to_string(),
            authority: u.authority().to_string(),
            has_authority: u.has_authority(),
            path: u.path().to_string(),
            query: u.query().map(str::to_string),
            fragment: u.fragment().map(str::to_string),
        }),
        Err(url::ParseError::RelativeUrlWithoutBase) => Err(UrlError::RelativeUrlWithoutBase),
        Err(_) => Err(UrlError::Invalid),
    }
}

/// The text of a URL: `scheme:[//authority]path[?query][#fragment]`.
pub open spec fn serialize(u: UrlView) -> Seq<char> {
    let head = u.scheme + seq![':'];
    let auth = if u.has_authority {
        seq!['/', '/'] + u.authority
    } else {
        Seq::empty()
    };
    let q = match u.query {
        Some(q) => seq!['?'] + q,
        None => Seq::empty(),
    };
    let f = match u.fragment {
        Some(f) => seq!['#'] + f,
        None => Seq::empty(),
    };
    head + auth + u.path + q + f
}

pub open spec fn spec_is_http_s(u: UrlView) -> bool {
    u.scheme == seq!['h', 't', 't', 'p'] || u.scheme == seq!['h', 't', 't', 'p', 's']
}

pub open spec fn spec_is_domain_root(u: UrlView) -> bool {
    (u.path.len() == 0 || u.path == seq!['/']) && u.query is None && u.has_authority
}

pub open spec fn spec_without_fragment(u: UrlView) -> UrlView {
    UrlView { fragment: None, ..u }
}

/// The text that `with_path_only` hands to the URL parser.
pub open spec fn path_only_text(u: UrlView, path: Seq<char>) -> Seq<char> {
    u.scheme + seq![':', '/', '/'] + u.authority + seq!['/'] + path
}

pub(crate) fn clone_opt(o: &Option<String>) -> (r: Option<String>)
    ensures
        opt_text(r) == opt_text(*o),
{
    match o {
        Some(s) => Some(s.clone()),
        None => None,
    }
}

impl WebUrl {
    /// The text of this URL.
    pub fn as_string(&self) -> (r: String)
        ensures
            r@ == serialize(self@),
    {
        proof {
            reveal_strlit(":");
            reveal_strlit("//");
            reveal_strlit("?");
            reveal_strlit("#");
        }
        let mut s = self.scheme.clone();
        s.append(":");
        if self.has_authority {
            s.append("//");
            s.append(self.authority.as_str());
        }
        s.append(self.path.as_str());
        match &self.query {
            Some(q) => {
                s.append("?");
                s.append(q.as_str());
            },
            None => {},
        }
        match &self.fragment {
            Some(f) => {
                s.append("#");
                s.append(f.as_str());
            },
            None => {},
        }
        assert(s@ =~= serialize(self@));
        s
    }

    /// A copy of this URL with its parts unchanged.
    pub fn duplicate(&self) -> (r: WebUrl)
        ensures
            r@ == self@,
    {
        WebUrl {
            scheme: self.scheme.clone(),
            authority: self.authority.clone(),
            has_authority: self.has_authority,
            path: self.path.clone(),
            query: clone_opt(&self.query),
            fragment: clone_opt(&self.fragment),
        }
    }

    /// This URL with its fragment cleared.
    pub fn without_fragment(self) -> (r: WebUrl)
        ensures
            r@ == spec_without_fragment(self@),
    {
        WebUrl { fragment: None, ..self }
    }

    /// Parses an absolute URL.
    pub fn parse(s: &str) -> (r: Result<WebUrl, UrlError>)
        ensures
            parsed_view(r) == url_parse(s@),
    {
        parse_url(s)
    }

    /// Resolves `reference` against this URL.
    pub fn join(&self, reference: &str) -> (r: Result<WebUrl, UrlError>)
        ensures
            parsed_view(r) == url_join(serialize(self@), reference@),
    {
        let base = self.as_string();
        join_url(base.as_str(), reference)
    }
}

/// Whether the URL is the main page of a site: an empty or `/` path, no
/// query, and an authority.
pub fn is_domain_root(url: &WebUrl) -> (r: bool)
    ensures
        r == spec_is_domain_root(url@),
{
    proof {
        reveal_strlit("/");
        assert("/"@ =~= seq!['/']);
    }
    (url.path.unicode_len() == 0 || same_text(url.path.as_str(), "/")) && url.query.is_none()
        && url.has_authority
}

/// Whether the scheme is `http` or `https`.
pub fn is_http_s(url: &WebUrl) -> (r: bool)
    ensures
        r == spec_is_http_s(url@),
{
    proof {
        reveal_strlit("http");
        reveal_strlit("https");
        assert("http"@ =~= seq!['h', 't', 't', 'p']);
        assert("https"@ =~= seq!['h', 't', 't', 'p', 's']);
    }
    same_text(url.scheme.as_str(), "http") || same_text(url.scheme.as_str(), "https")
}

/// The URL `{scheme}://{authority}/{path}` of the same site, such as its
/// `robots.txt` or `sitemap.xml`; `None` where the parser rejects that text.
pub fn with_path_only(url: &WebUrl, path: &str) -> (r: Option<WebUrl>)
    ensures
        match url_parse(path_only_text(url@, path@)) {
            Ok(v) => r is Some && r->Some_0@ == v,
            Err(_) => r is None,
        },
{
    proof {
        reveal_strlit("://");
        reveal_strlit("/");
    }
    let mut s = url.scheme.clone();
    s.append("://");
    s.append(url.authority.as_str());
    s.append("/");
    s.append(path);
    assert(s@ =~= path_only_text(url@, path@));
    match parse_url(s.as_str()) {
        Ok(u) => Some(u),
        Err(_) => None,
    }
}

} // verus!
