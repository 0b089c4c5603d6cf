//! What the fetcher decides: per-authority politeness, the cap on response
//! bodies, and the HTTP part of an archived response.

use simple_moving_average::{NoSumSMA, SMA};
use vstd::prelude::*;
use vstd::string::*;
use vstd::utf8::encode_utf8;

use crate::clock::{wait_millis, Timestamp};
use crate::text::{decimal_ascii, push_decimal};

verus! {

/// Maximum size of an HTTP response body, in bytes (50 MiB).
pub const MAX_BODY_SIZE: u64 = 50 * 1024 * 1024;

/// The least duration recorded for a fetch, in milliseconds; the wait
/// between fetches is three times the average.
pub const MIN_FETCH_DURATION_MS: u64 = 150;

/// The largest fetch duration the politeness state takes, in milliseconds
/// (more than 31 years).
pub const MAX_FETCH_DURATION_MS: u64 = 1_000_000_000_000;

#[verifier::external_type_specification]
#[verifier::external_body]
#[verifier::reject_recursive_types(Sample)]
#[verifier::reject_recursive_types(Divisor)]
pub struct ExNoSumSma<Sample, Divisor, const WINDOW_SIZE: usize>(
    NoSumSMA<Sample, Divisor, WINDOW_SIZE>,
);

/// The samples in a moving-average window, oldest first.
pub uninterp spec fn sma_samples(s: NoSumSMA<u64, u64, 10>) -> Seq<u64>;

/// A window of at most 10 samples after `x` enters: the oldest leaves when
/// the window is full.
pub open spec fn window_push(q: Seq<u64>, x: u64) -> Seq<u64> {
    if q.len() < 10 {
        q.push(x)
    } else {
        q.drop_first().push(x)
    }
}

pub open spec fn seq_sum(q: Seq<u64>) -> int
    decreases q.len(),
{
    if q.len() == 0 {
        0
    } else {
        seq_sum(q.drop_last()) + q.last()
    }
}

/// The average of a window, rounded down; 0 for an empty one.
pub open spec fn window_average(q: Seq<u64>) -> int {
    if q.len() == 0 {
        0
    } else {
        seq_sum(q) / (q.len() as int)
    }
}

/// Relies on `NoSumSMA::from_zero`: an empty window.
#[verifier::external_body]
fn sma_new() -> (r: NoSumSMA<u64, u64, 10>)
    ensures
        sma_samples(r) == Seq::<u64>::empty(),
{
    NoSumSMA::from_zero(0)
}

/// Relies on `SMA::add_sample` of `NoSumSMA`: the sample enters a ring of
/// 10, overwriting the oldest when the ring is full.
#[verifier::external_body]
fn sma_add(s: &mut NoSumSMA<u64, u64, 10>, x: u64)
    ensures
        sma_samples(*final(s)) == window_push(sma_samples(*old(s)), x),
{
    s.add_sample(x)
}

/// Relies on `SMA::get_average` of `NoSumSMA`: the zero sample for an empty
/// window, else the sum of the samples (taken in `u64`, so it must fit)
/// divided by their number.
#[verifier::external_body]
fn sma_average(s: &NoSumSMA<u64, u64, 10>) -> (r: u64)
    requires
        seq_sum(sma_samples(*s)) <= u64::MAX,
    ensures
        r == window_average(sma_samples(*s)),
{
    s.get_average()
}

/// Politeness toward one authority: no fetch before `until`, which is three
/// times the average duration of the last 10 successful fetches after the
/// start of the last one.
pub struct Politeness {
    until: Timestamp,
    duration_avg: NoSumSMA<u64, u64, 10>,
}

pub proof fn lemma_window_bounds(q: Seq<u64>, lo: u64, hi: u64)
    requires
        forall|i: int| 0 <= i < q.len() ==> lo <= #[trigger] q[i] <= hi,
    ensures
        lo * q.len() <= seq_sum(q) <= hi * q.len(),
    decreases q.len(),
{
    if q.len() > 0 {
        lemma_window_bounds(q.drop_last(), lo, hi);
        assert(lo * q.len() == lo * (q.len() - 1) + lo) by (nonlinear_arith);
        assert(hi * q.len() == hi * (q.len() - 1) + hi) by (nonlinear_arith);
    }
}

proof fn lemma_average_bounds(q: Seq<u64>)
    requires
        q.len() > 0,
        q.len() <= 10,
        forall|i: int| 0 <= i < q.len() ==> MIN_FETCH_DURATION_MS <= #[trigger] q[i] <= MAX_FETCH_DURATION_MS,
    ensures
        seq_sum(q) <= u64::MAX,
        MIN_FETCH_DURATION_MS <= window_average(q) <= MAX_FETCH_DURATION_MS,
{
    lemma_window_bounds(q, MIN_FETCH_DURATION_MS, MAX_FETCH_DURATION_MS);
    let n = q.len() as int;
    let s = seq_sum(q);
    assert(s <= MAX_FETCH_DURATION_MS * 10) by (nonlinear_arith)
        requires
            s <= MAX_FETCH_DURATION_MS * n,
            n <= 10,
    ;
    assert(MIN_FETCH_DURATION_MS <= s / n <= MAX_FETCH_DURATION_MS) by (nonlinear_arith)
        requires
            MIN_FETCH_DURATION_MS * n <= s <= MAX_FETCH_DURATION_MS * n,
            n > 0,
    ;
}

/// A valid window stays valid when a valid sample enters.
proof fn lemma_window_push_bounds(q: Seq<u64>, x: u64)
    requires
        q.len() <= 10,
        forall|i: int| 0 <= i < q.len() ==> MIN_FETCH_DURATION_MS <= #[trigger] q[i] <= MAX_FETCH_DURATION_MS,
        MIN_FETCH_DURATION_MS <= x <= MAX_FETCH_DURATION_MS,
    ensures
        window_push(q, x).len() <= 10,
        window_push(q, x).len() > 0,
        forall|i: int|
            0 <= i < window_push(q, x).len() ==> MIN_FETCH_DURATION_MS <= #[trigger] window_push(q, x)[i]
                <= MAX_FETCH_DURATION_MS,
{
    let q1 = window_push(q, x);
    assert forall|i: int| 0 <= i < q1.len() implies MIN_FETCH_DURATION_MS <= #[trigger] q1[i]
        <= MAX_FETCH_DURATION_MS by {
        if q.len() >= 10 && i < q1.len() - 1 {
            assert(q1[i] == q[i + 1]);
        } else if i < q1.len() - 1 {
            assert(q1[i] == q[i]);
        }
    }
}

impl Politeness {
    /// The durations in the window, oldest first.
    pub closed spec fn spec_samples(&self) -> Seq<u64> {
        sma_samples(self.duration_avg)
    }

    /// The earliest start of the next fetch.
    pub closed spec fn spec_until(&self) -> Timestamp {
        self.until
    }

    /// At most 10 durations, each between the floor and the cap.
    pub open spec fn wf(&self) -> bool {
        &&& self.spec_samples().len() <= 10
        &&& forall|i: int|
            0 <= i < self.spec_samples().len() ==> MIN_FETCH_DURATION_MS <= #[trigger] self.spec_samples()[i]
                <= MAX_FETCH_DURATION_MS
    }

    /// No fetch so far: no wait, and no durations.
    pub fn new() -> (r: Politeness)
        ensures
            r.wf(),
            r.spec_until() == (Timestamp { millis: 0 }),
            r.spec_samples() == Seq::<u64>::empty(),
    {
        Politeness { until: Timestamp { millis: 0 }, duration_avg: sma_new() }
    }

    /// The earliest start of the next fetch.
    pub fn not_before(&self) -> (r: Timestamp)
        ensures
            r == self.spec_until(),
    {
        self.until
    }

    /// The average of the recorded durations, in milliseconds.
    pub fn average(&self) -> (r: u64)
        requires
            self.wf(),
        ensures
            r == window_average(self.spec_samples()),
    {
        proof {
            if self.spec_samples().len() > 0 {
                lemma_average_bounds(self.spec_samples());
            }
        }
        sma_average(&self.duration_avg)
    }

    /// Records a response: after status 200 its duration (at least 150 ms)
    /// enters the window, and the next fetch may start three times the new
    /// average after `start`. Status 429 is reserved for a later policy; it
    /// and every other status change nothing.
    pub fn update(&mut self, status: u16, duration_ms: u64, start: Timestamp)
        requires
            old(self).wf(),
            duration_ms <= MAX_FETCH_DURATION_MS,
            start.millis + 3 * MAX_FETCH_DURATION_MS <= u64::MAX,
        ensures
            final(self).wf(),
            status == 200 ==> final(self).spec_samples() == window_push(
                old(self).spec_samples(),
                recorded_sample(duration_ms),
            ) && final(self).spec_until().millis == start.millis + 3 * window_average(
                final(self).spec_samples(),
            ),
            status != 200 ==> *final(self) == *old(self),
    {
        if status == 200 {
            let sample = if duration_ms < MIN_FETCH_DURATION_MS {
                MIN_FETCH_DURATION_MS
            } else {
                duration_ms
            };
            let ghost q = self.spec_samples();
            sma_add(&mut self.duration_avg, sample);
            proof {
                lemma_window_push_bounds(q, sample);
                lemma_average_bounds(self.spec_samples());
            }
            let avg = sma_average(&self.duration_avg);
            self.until = Timestamp { millis: start.millis + 3 * avg };
        }
    }

    /// How long to wait at `now` before the next fetch may start.
    pub fn wait(&self, now: Timestamp) -> (r: u64)
        ensures
            now.millis + r >= self.spec_until().millis,
            self.spec_until().millis <= now.millis ==> r == 0,
            now.millis < self.spec_until().millis ==> r == self.spec_until().millis - now.millis,
    {
        wait_millis(self.until, now)
    }
}

impl Default for Politeness {
    fn default() -> (r: Politeness)
        ensures
            r.wf(),
            r.spec_until() == (Timestamp { millis: 0 }),
            r.spec_samples() == Seq::<u64>::empty(),
    {
        Politeness::new()
    }
}

/// The sample that a successful fetch of `duration_ms` records.
pub open spec fn recorded_sample(duration_ms: u64) -> u64 {
    if duration_ms < MIN_FETCH_DURATION_MS {
        MIN_FETCH_DURATION_MS
    } else {
        duration_ms
    }
}

/// The politeness floor: take a window `q` of valid samples and a
/// successful fetch that started at `t1` and took `duration_ms`. A later
/// fetch that starts no earlier than the resulting `not_before`, at `t2`,
/// starts at least the larger of 150 ms and three times the then current
/// average after `t1`.
pub proof fn law_politeness_floor(q: Seq<u64>, duration_ms: u64, t1: Timestamp, t2: Timestamp)
    requires
        q.len() <= 10,
        forall|i: int| 0 <= i < q.len() ==> MIN_FETCH_DURATION_MS <= #[trigger] q[i] <= MAX_FETCH_DURATION_MS,
        duration_ms <= MAX_FETCH_DURATION_MS,
        t2.millis >= t1.millis + 3 * window_average(window_push(q, recorded_sample(duration_ms))),
    ensures
        t2.millis >= t1.millis + MIN_FETCH_DURATION_MS,
        t2.millis >= t1.millis + 3 * window_average(window_push(q, recorded_sample(duration_ms))),
{
    let x = recorded_sample(duration_ms);
    lemma_window_push_bounds(q, x);
    lemma_average_bounds(window_push(q, x));
}

/// Why a fetch failed.
#[derive(Clone, Copy, Debug, PartialEq, Eq, Structural)]
pub enum FetchError {
    /// The response body is larger than 50 MiB.
    BodyTooLarge,
    /// The start of the fetch lies outside the range of calendar dates.
    TimeOutOfRange,
}

/// Accepts a body of at most 50 MiB.
pub fn check_body_size(len: u64) -> (r: Result<(), FetchError>)
    ensures
        r is Ok <==> len <= MAX_BODY_SIZE,
        r is Err ==> r == Err::<(), FetchError>(FetchError::BodyTooLarge),
{
    if len > MAX_BODY_SIZE {
        Err(FetchError::BodyTooLarge)
    } else {
        Ok(())
    }
}

/// The HTTP version of a response.
#[derive(Clone, Copy, Debug, PartialEq, Eq, Structural)]
pub enum HttpVersion {
    Http09,
    Http10,
    Http11,
    H2,
    H3,
}

/// How an HTTP version is written in a status line.
pub open spec fn version_text(v: HttpVersion) -> Seq<char> {
    match v {
        HttpVersion::Http09 => "HTTP/0.9"@,
        HttpVersion::Http10 => "HTTP/1.0"@,
        HttpVersion::Http11 => "HTTP/1.1"@,
        HttpVersion::H2 => "HTTP/2.0"@,
        HttpVersion::H3 => "HTTP/3.0"@,
    }
}

fn version_str(v: HttpVersion) -> (r: &'static str)
    ensures
        r@ == version_text(v),
{
    match v {
        HttpVersion::Http09 => "HTTP/0.9",
        HttpVersion::Http10 => "HTTP/1.0",
        HttpVersion::Http11 => "HTTP/1.1",
        HttpVersion::H2 => "HTTP/2.0",
        HttpVersion::H3 => "HTTP/3.0",
    }
}

/// The reason phrase that `http::StatusCode::canonical_reason` gives a code,
/// if it knows one.
pub uninterp spec fn canonical_reason_of(code: u16) -> Option<Seq<char>>;

/// Relies on `http::StatusCode::canonical_reason`: the standard reason
/// phrase of a status code, `None` for codes it does not know or cannot
/// hold.
#[verifier::external_body]
fn canonical_reason(code: u16) -> (r: Option<&'static str>)
    ensures
        match r {
            Some(s) => canonical_reason_of(code) == Some(s@),
            None => canonical_reason_of(code) is None,
        },
{
    http::StatusCode::from_u16(code).ok().and_then(|s| s.canonical_reason())
}

/// What `String::from_utf8_lossy` makes of bytes.
pub uninterp spec fn utf8_lossy(b: Seq<u8>) -> Seq<char>;

/// Relies on `String::from_utf8_lossy`: the text of the bytes, invalid
/// sequences replaced.
#[verifier::external_body]
fn lossy_text(b: &[u8]) -> (r: String)
    ensures
        r@ == utf8_lossy(b@),
{
    String::from_utf8_lossy(b).into_owned()
}

/// A response header: name and raw value.
#[derive(Debug)]
pub struct Header {
    pub name: String,
    pub value: Vec<u8>,
}

/// A response as fetched.
#[derive(Debug)]
pub struct FetchResult {
    pub body: Vec<u8>,
    /// milliseconds from the request to the response head
    pub duration_ms: u64,
    pub start: Timestamp,
    pub status: u16,
    pub http_version: HttpVersion,
    pub headers: Vec<Header>,
}

/// The status line: version, code and reason phrase, ended by CRLF.
pub open spec fn status_line_text(v: HttpVersion, status: u16) -> Seq<char> {
    version_text(v) + seq![' '] + crate::text::decimal_text(status as nat) + seq![' ']
        + match canonical_reason_of(status) {
        Some(r) => r,
        None => "<unknown status code>"@,
    } + seq!['\r', '\n']
}

/// The bytes of the header lines: `name: value` and CRLF each.
pub open spec fn header_lines(hs: Seq<Header>) -> Seq<u8>
    decreases hs.len(),
{
    if hs.len() == 0 {
        Seq::empty()
    } else {
        header_lines(hs.drop_last()) + encode_utf8(hs.last().name@) + seq![58u8, 32u8] + hs.last().value@
            + seq![13u8, 10u8]
    }
}

/// The HTTP head of a response: status line, header lines, blank line.
pub open spec fn http_head_bytes(v: HttpVersion, status: u16, hs: Seq<Header>) -> Seq<u8> {
    encode_utf8(status_line_text(v, status)) + header_lines(hs) + seq![13u8, 10u8]
}

/// Appends `b` to `out`.
pub fn push_bytes(out: &mut Vec<u8>, b: &[u8])
    ensures
        final(out)@ == old(out)@ + b@,
{
    let mut i: usize = 0;
    while i < b.len()
        invariant
            i <= b@.len(),
            out@ == old(out)@ + b@.subrange(0, i as int),
        decreases b@.len() - i,
    {
        out.push(b[i]);
        i = i + 1;
        assert(out@ =~= old(out)@ + b@.subrange(0, i as int));
    }
    assert(b@.subrange(0, i as int) =~= b@);
}

impl FetchResult {
    /// The body as text, invalid UTF-8 replaced.
    pub fn body_str(&self) -> (r: String)
        ensures
            r@ == utf8_lossy(self.body@),
    {
        lossy_text(self.body.as_slice())
    }

    /// The status line, e.g. `HTTP/1.1 200 OK` and CRLF.
    pub fn status_line(&self) -> (r: String)
        ensures
            r@ == status_line_text(self.http_version, self.status),
    {
        proof {
            reveal_strlit(" ");
            reveal_strlit("\r\n");
        }
        let mut s = String::from_str(version_str(self.http_version));
        s.append(" ");
        let code = crate::text::decimal_string(self.status as u64);
        s.append(code.as_str());
        s.append(" ");
        match canonical_reason(self.status) {
            Some(reason) => s.append(reason),
            None => s.append("<unknown status code>"),
        }
        s.append("\r\n");
        assert(s@ =~= status_line_text(self.http_version, self.status));
        s
    }

    /// The HTTP head as archived: status line, each header as
    /// `name: value` and CRLF, then a blank line.
    pub fn http_head(&self) -> (r: Vec<u8>)
        ensures
            r@ == http_head_bytes(self.http_version, self.status, self.headers@),
    {
        let line = self.status_line();
        let mut out: Vec<u8> = Vec::new();
        push_bytes(&mut out, line.as_str().as_bytes());
        let mut k: usize = 0;
        while k < self.headers.len()
            invariant
                k <= self.headers@.len(),
                out@ == encode_utf8(line@) + header_lines(self.headers@.subrange(0, k as int)),
            decreases self.headers@.len() - k,
        {
            let h = &self.headers[k];
            push_bytes(&mut out, h.name.as_str().as_bytes());
            out.push(58u8);
            out.push(32u8);
            push_bytes(&mut out, h.value.as_slice());
            out.push(13u8);
            out.push(10u8);
            proof {
                assert(self.headers@.subrange(0, k + 1).drop_last() =~= self.headers@.subrange(0, k as int));
            }
            k = k + 1;
            assert(out@ =~= encode_utf8(line@) + header_lines(self.headers@.subrange(0, k as int)));
        }
        out.push(13u8);
        out.push(10u8);
        assert(self.headers@.subrange(0, k as int) =~= self.headers@);
        assert(out@ =~= http_head_bytes(self.http_version, self.status, self.headers@));
        out
    }
}

} // verus!
