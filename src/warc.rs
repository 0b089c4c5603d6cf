//! WARC 1.1 response records and the rotation of archive segments.

use vstd::prelude::*;
use vstd::string::*;
use vstd::utf8::encode_utf8;

use crate::clock::Timestamp;
use crate::fetcher::{http_head_bytes, push_bytes, FetchError, FetchResult};
use crate::text::{decimal_ascii, push_decimal, zero_padded, zero_padded_string};
use crate::url_util::{serialize, WebUrl};

verus! {

/// A segment is closed once more than this many uncompressed bytes went in.
pub const ARCHIVE_ROTATE_BYTES: usize = 1024 * 1024;

pub const RECORD_START: &'static str = "WARC/1.1\r\nWARC-Type: response\r\nContent-Type: application/http; msgtype=response\r\nWARC-Record-ID: ";

pub const TARGET_URI_FIELD: &'static str = "\r\nWARC-Target-URI: ";

pub const CONTENT_LENGTH_FIELD: &'static str = "\r\nContent-Length: ";

pub const DATE_FIELD: &'static str = "\r\nWARC-Date: ";

pub const BLANK_LINE: &'static str = "\r\n\r\n";

/// The WARC header of a response record, up to and with the blank line
/// that ends it; `n` is the length of the record block.
pub open spec fn warc_header(id: Seq<char>, uri: Seq<char>, n: nat, date: Seq<char>) -> Seq<u8> {
    encode_utf8(RECORD_START@) + encode_utf8(id) + encode_utf8(TARGET_URI_FIELD@) + encode_utf8(uri)
        + encode_utf8(CONTENT_LENGTH_FIELD@) + decimal_ascii(n) + encode_utf8(DATE_FIELD@)
        + encode_utf8(date) + encode_utf8(BLANK_LINE@)
}

/// A response record: header, block (HTTP head and body), and CRLF CRLF.
pub open spec fn warc_record_bytes(
    id: Seq<char>,
    uri: Seq<char>,
    date: Seq<char>,
    head: Seq<u8>,
    body: Seq<u8>,
) -> Seq<u8> {
    warc_header(id, uri, (head.len() + body.len()) as nat, date) + head + body + encode_utf8(BLANK_LINE@)
}

/// Builds a response record. The `Content-Length` field holds the length of
/// the block, `head` followed by `body`.
pub fn warc_record(record_id: &str, target_uri: &str, date: &str, head: &[u8], body: &[u8]) -> (r: Vec<u8>)
    requires
        head@.len() + body@.len() <= u64::MAX,
    ensures
        r@ == warc_record_bytes(record_id@, target_uri@, date@, head@, body@),
{
    let mut out: Vec<u8> = Vec::new();
    push_bytes(&mut out, RECORD_START.as_bytes());
    push_bytes(&mut out, record_id.as_bytes());
    push_bytes(&mut out, TARGET_URI_FIELD.as_bytes());
    push_bytes(&mut out, target_uri.as_bytes());
    push_bytes(&mut out, CONTENT_LENGTH_FIELD.as_bytes());
    let n: u64 = head.len() as u64 + body.len() as u64;
    push_decimal(&mut out, n);
    push_bytes(&mut out, DATE_FIELD.as_bytes());
    push_bytes(&mut out, date.as_bytes());
    push_bytes(&mut out, BLANK_LINE.as_bytes());
    push_bytes(&mut out, head);
    push_bytes(&mut out, body);
    push_bytes(&mut out, BLANK_LINE.as_bytes());
    assert(out@ =~= warc_record_bytes(record_id@, target_uri@, date@, head@, body@));
    out
}

/// The framing of a record: it is its header, then exactly the block
/// (`head` and `body`), then CRLF CRLF; the header ends with a blank line
/// and its `Content-Length` field holds the decimal digits of the block's
/// length, which read back as that length.
pub proof fn law_warc_framing(id: Seq<char>, uri: Seq<char>, date: Seq<char>, head: Seq<u8>, body: Seq<u8>)
    ensures
        ({
            let r = warc_record_bytes(id, uri, date, head, body);
            let n = (head.len() + body.len()) as nat;
            let h = warc_header(id, uri, n, date);
            &&& r.subrange(0, h.len() as int) == h
            &&& r.subrange(h.len() as int, r.len() - 4) == head + body
            &&& r.subrange(r.len() - 4, r.len() as int) == encode_utf8(BLANK_LINE@)
            &&& crate::text::ascii_decimal_value(decimal_ascii(n)) == n
        }),
{
    let r = warc_record_bytes(id, uri, date, head, body);
    let n = (head.len() + body.len()) as nat;
    let h = warc_header(id, uri, n, date);
    let tail = encode_utf8(BLANK_LINE@);
    reveal_strlit("\r\n\r\n");
    assert(BLANK_LINE@ == "\r\n\r\n"@);
    assert(tail =~= seq![13u8, 10u8, 13u8, 10u8]) by {
        vstd::string::is_ascii_spec_bytes(BLANK_LINE);
    };
    assert(r =~= h + (head + body) + tail);
    assert(r.subrange(0, h.len() as int) =~= h);
    assert(r.subrange(h.len() as int, r.len() - 4) =~= head + body);
    assert(r.subrange(r.len() - 4, r.len() as int) =~= tail);
    crate::text::lemma_decimal_ascii_value(n);
}

/// Where archive output stands: the number of the next segment, whether a
/// segment is open, and the uncompressed bytes written to it.
pub struct ArchiveState {
    next_segment: u64,
    open: bool,
    bytes_written: usize,
}

/// The file name of a segment: `archive_` and its number in at least three
/// digits, then `.warc.gz`.
pub open spec fn segment_name_text(n: nat) -> Seq<char> {
    "archive_"@ + zero_padded(n, 3) + ".warc.gz"@
}

/// The file name of segment `n`.
pub fn segment_name(n: u64) -> (r: String)
    ensures
        r@ == segment_name_text(n as nat),
{
    let mut s = String::from_str("archive_");
    let d = zero_padded_string(n, 3);
    s.append(d.as_str());
    s.append(".warc.gz");
    s
}

impl ArchiveState {
    pub closed spec fn spec_next_segment(&self) -> nat {
        self.next_segment as nat
    }

    pub closed spec fn spec_open(&self) -> bool {
        self.open
    }

    pub closed spec fn spec_bytes_written(&self) -> nat {
        self.bytes_written as nat
    }

    /// A closed segment holds no count; an open one at most the threshold.
    pub open spec fn wf(&self) -> bool {
        &&& self.spec_bytes_written() <= ARCHIVE_ROTATE_BYTES
        &&& !self.spec_open() ==> self.spec_bytes_written() == 0
    }

    /// No segment written yet; the first is number 0.
    pub fn new() -> (r: ArchiveState)
        ensures
            r.wf(),
            r.spec_next_segment() == 0,
            !r.spec_open(),
    {
        ArchiveState { next_segment: 0, open: false, bytes_written: 0 }
    }

    /// The number of the next segment to open.
    pub fn next_segment(&self) -> (r: u64)
        ensures
            r == self.spec_next_segment(),
    {
        self.next_segment
    }

    /// Whether a segment is open.
    pub fn is_open(&self) -> (r: bool)
        ensures
            r == self.spec_open(),
    {
        self.open
    }

    /// The file name of the segment to create before the next record, if
    /// none is open; the segment counts as open from here on.
    pub fn open_segment(&mut self) -> (r: Option<String>)
        requires
            old(self).wf(),
            old(self).spec_next_segment() < u64::MAX,
        ensures
            final(self).wf(),
            final(self).spec_open(),
            final(self).spec_bytes_written() == old(self).spec_bytes_written(),
            old(self).spec_open() ==> r is None && final(self).spec_next_segment() == old(self).spec_next_segment(),
            !old(self).spec_open() ==> (r matches Some(name) && name@ == segment_name_text(
                old(self).spec_next_segment(),
            )) && final(self).spec_next_segment() == old(self).spec_next_segment() + 1,
    {
        if self.open {
            None
        } else {
            let name = segment_name(self.next_segment);
            self.next_segment = self.next_segment + 1;
            self.open = true;
            Some(name)
        }
    }

    /// Counts a record of `n` uncompressed bytes written to the open
    /// segment; returns whether the segment is now to be finished, which is
    /// precisely when the count first exceeds 1 MiB. A finished segment
    /// counts as closed, with no bytes.
    pub fn record_written(&mut self, n: usize) -> (close: bool)
        requires
            old(self).wf(),
            old(self).spec_open(),
            n <= usize::MAX - ARCHIVE_ROTATE_BYTES,
        ensures
            final(self).wf(),
            close == (old(self).spec_bytes_written() + n > ARCHIVE_ROTATE_BYTES),
            final(self).spec_next_segment() == old(self).spec_next_segment(),
            close ==> !final(self).spec_open() && final(self).spec_bytes_written() == 0,
            !close ==> final(self).spec_open() && final(self).spec_bytes_written()
                == old(self).spec_bytes_written() + n,
    {
        self.bytes_written = self.bytes_written + n;
        if self.bytes_written > ARCHIVE_ROTATE_BYTES {
            self.open = false;
            self.bytes_written = 0;
            true
        } else {
            false
        }
    }

    /// Closes the open segment, if any; returns whether one was open.
    pub fn close(&mut self) -> (was_open: bool)
        ensures
            was_open == old(self).spec_open(),
            !final(self).spec_open(),
            final(self).spec_bytes_written() == 0,
            final(self).spec_next_segment() == old(self).spec_next_segment(),
            final(self).wf(),
    {
        let was_open = self.open;
        self.open = false;
        self.bytes_written = 0;
        was_open
    }
}

/// Relies on `uuid::Uuid::new_v4` and its URN form: a fresh random
/// `urn:uuid:` identifier, 45 characters long.
#[verifier::external_body]
fn new_record_id() -> (r: String)
    ensures
        r@.len() == 45,
{
    uuid::Uuid::new_v4().urn().to_string()
}

/// How `chrono` writes an instant, given in milliseconds since the epoch, in
/// RFC 3339 with whole seconds and `Z`; `None` outside its range of dates.
pub uninterp spec fn rfc3339_secs(millis: u64) -> Option<Seq<char>>;

/// Relies on `chrono::DateTime::from_timestamp_millis` and
/// `DateTime::to_rfc3339_opts` with `SecondsFormat::Secs` and `Z`: the UTC
/// date of the instant, e.g. `2024-06-01T12:34:56Z`.
#[verifier::external_body]
fn rfc3339_date(millis: u64) -> (r: Option<String>)
    ensures
        match r {
            Some(s) => rfc3339_secs(millis) == Some(s@),
            None => rfc3339_secs(millis) is None,
        },
{
    i64::try_from(millis).ok().and_then(chrono::DateTime::from_timestamp_millis).map(
        |d| d.to_rfc3339_opts(chrono::SecondsFormat::Secs, true),
    )
}

/// The WARC response record for a fetch of `url`, with a fresh record id.
/// Fails only where the start of the fetch has no calendar date.
pub fn build_record(url: &WebUrl, fr: &FetchResult) -> (r: Result<Vec<u8>, FetchError>)
    ensures
        rfc3339_secs(fr.start.millis) is None ==> r == Err::<Vec<u8>, FetchError>(FetchError::TimeOutOfRange),
        rfc3339_secs(fr.start.millis) is Some && http_head_bytes(fr.http_version, fr.status, fr.headers@).len()
            + fr.body@.len() <= u64::MAX ==> r is Ok,
        r matches Ok(bytes) ==> exists|id: Seq<char>|
            id.len() == 45 && bytes@ == warc_record_bytes(
                id,
                serialize(url@),
                rfc3339_secs(fr.start.millis)->Some_0,
                http_head_bytes(fr.http_version, fr.status, fr.headers@),
                fr.body@,
            ),
{
    let date = match rfc3339_date(fr.start.millis) {
        Some(d) => d,
        None => {
            return Err(FetchError::TimeOutOfRange);
        },
    };
    let id = new_record_id();
    let uri = url.as_string();
    let head = fr.http_head();
    if head.len() as u64 > u64::MAX - fr.body.len() as u64 {
        // a head and body that fill the address space cannot be in memory
        return Err(FetchError::BodyTooLarge);
    }
    let rec = warc_record(id.as_str(), uri.as_str(), date.as_str(), head.as_slice(), fr.body.as_slice());
    Ok(rec)
}

} // verus!
