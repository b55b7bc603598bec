//! HTTP/1.1 response parsing: the status line and the headers of a raw
//! response buffer, with error classification and retry hints.

use vstd::prelude::*;

use crate::bytes::bytes_eq;

verus! {

/// The first position of the empty line (CR LF CR LF) separating headers
/// from body.
pub open spec fn spec_header_end(d: Seq<u8>) -> Option<int> {
    spec_header_end_from(d, 0)
}

pub open spec fn spec_header_end_from(d: Seq<u8>, i: int) -> Option<int>
    decreases d.len() - i,
{
    if i < 0 || i + 4 > d.len() {
        None
    } else if d[i] == 13 && d[i + 1] == 10 && d[i + 2] == 13 && d[i + 3] == 10 {
        Some(i)
    } else {
        spec_header_end_from(d, i + 1)
    }
}

/// ASCII uppercase letters mapped to lowercase, everything else kept.
pub open spec fn spec_lower(s: Seq<u8>) -> Seq<u8> {
    Seq::new(s.len(), |i: int| if 65 <= s[i] <= 90 {
        (s[i] + 32) as u8
    } else {
        s[i]
    })
}

/// The decimal value of a digit string.
pub open spec fn spec_dec(s: Seq<u8>) -> int
    decreases s.len(),
{
    if s.len() == 0 {
        0
    } else {
        spec_dec(s.drop_last()) * 10 + (s.last() - 48)
    }
}

/// Whether every byte is an ASCII digit.
pub open spec fn spec_all_digits(s: Seq<u8>) -> bool {
    s.len() > 0 && forall|i: int| 0 <= i < s.len() ==> 48 <= #[trigger] s[i] <= 57
}

/// Parsed HTTP response headers.
pub struct HttpResponse {
    /// HTTP status code (200, 401, 429, 500, ...).
    pub status: u16,
    /// Header (name, value) pairs; names are lowercased, both ends
    /// trimmed of spaces and tabs.
    pub headers: Vec<(Vec<u8>, Vec<u8>)>,
    /// Byte offset where the body starts in the raw buffer.
    pub body_start: usize,
}

/// HTTP response parsing error.
#[derive(Clone, Copy, PartialEq, Eq, Structural, Debug)]
pub enum HttpParseError {
    /// The response is incomplete; more data is needed.
    Incomplete,
    /// The status line is malformed.
    MalformedStatus,
}

impl HttpResponse {
    /// Parse an HTTP response from raw bytes: locate the header/body
    /// separator, read the status code from the status line, and collect
    /// the header pairs. An absent separator reports `Incomplete`.
    pub fn parse(data: &[u8]) -> (r: Result<HttpResponse, HttpParseError>)
        ensures
            match r {
                Ok(resp) => {
                    &&& spec_header_end(data@) matches Some(e) && resp.body_start == e + 4
                    &&& resp.status <= 999
                },
                Err(HttpParseError::Incomplete) => spec_header_end(data@) is None,
                Err(HttpParseError::MalformedStatus) => spec_header_end(data@) is Some,
            },
    {
        let header_end = match find_header_end(data) {
            Some(e) => e,
            None => {
                return Err(HttpParseError::Incomplete);
            },
        };
        let n = data.len();

        // Status line: the bytes up to the first CR LF (or the separator).
        let mut line_end: usize = 0;
        while line_end + 1 < header_end && !(data[line_end] == 13 && data[line_end + 1] == 10)
            invariant
                line_end <= header_end,
                n == data@.len(),
                header_end + 4 <= n,
            decreases header_end - line_end,
        {
            line_end += 1;
        }
        let status = match parse_status_code(data, line_end) {
            Some(s) => s,
            None => {
                return Err(HttpParseError::MalformedStatus);
            },
        };

        // Header lines between the status line and the separator.
        let mut headers: Vec<(Vec<u8>, Vec<u8>)> = Vec::new();
        let mut pos: usize = if line_end + 1 < header_end {
            line_end + 2
        } else {
            header_end
        };
        while pos < header_end
            invariant
                n == data@.len(),
                header_end + 4 <= n,
                forall|i: int|
                    0 <= i < headers@.len() ==> (#[trigger] headers@[i]).0@ == spec_lower(
                        headers@[i].0@,
                    ),
            decreases header_end - pos,
        {
            // Find the end of this line.
            let mut eol: usize = pos;
            while eol + 1 < header_end && !(data[eol] == 13 && data[eol + 1] == 10)
                invariant
                    pos <= eol <= header_end,
                    n == data@.len(),
                    header_end + 4 <= n,
                decreases header_end - eol,
            {
                eol += 1;
            }
            let line_stop: usize = if eol + 1 < header_end {
                eol
            } else {
                header_end
            };
            // Split at the first colon.
            let mut colon: usize = pos;
            let mut found_colon = false;
            while colon < line_stop && !found_colon
                invariant
                    pos <= colon <= line_stop,
                    line_stop <= header_end,
                    header_end + 4 <= data@.len(),
                    found_colon ==> colon < line_stop && data@[colon as int] == 58,
                decreases line_stop - colon, if found_colon { 0int } else { 1int },
            {
                if data[colon] == 58 {
                    found_colon = true;
                } else {
                    colon += 1;
                }
            }
            if found_colon {
                let name = lower_trimmed(data, pos, colon);
                let value = trimmed(data, colon + 1, line_stop);
                proof {
                    assert(name@ == spec_lower(name@));
                }
                headers.push((name, value));
            }
            pos = if eol + 1 < header_end {
                eol + 2
            } else {
                header_end
            };
            proof {
                assert(forall|i: int|
                    0 <= i < headers@.len() ==> (#[trigger] headers@[i]).0@ == spec_lower(
                        headers@[i].0@,
                    ));
            }
        }

        Ok(HttpResponse { status, headers, body_start: header_end + 4 })
    }

    /// The value of the first header whose lowercased name matches
    /// `name`, compared case-insensitively.
    pub fn header(&self, name: &[u8]) -> (r: Option<&Vec<u8>>)
        ensures
            match r {
                Some(v) => exists|i: int|
                    0 <= i < self.headers@.len() && (#[trigger] self.headers@[i]).0@ == spec_lower(
                        name@,
                    ) && v@ == self.headers@[i].1@,
                None => forall|i: int|
                    0 <= i < self.headers@.len() ==> (#[trigger] self.headers@[i]).0@
                        != spec_lower(name@),
            },
    {
        let lower = lower_trimmed_of(name);
        proof {
            assert(lower@ == spec_lower(name@));
        }
        let n = self.headers.len();
        let mut i: usize = 0;
        while i < n
            invariant
                n == self.headers@.len(),
                i <= n,
                lower@ == spec_lower(name@),
                forall|k: int|
                    0 <= k < i ==> (#[trigger] self.headers@[k]).0@ != spec_lower(name@),
            decreases n - i,
        {
            if bytes_eq(self.headers[i].0.as_slice(), lower.as_slice()) {
                return Some(&self.headers[i].1);
            }
            i += 1;
        }
        None
    }

    /// A user-readable classification of the status; successful statuses
    /// have none.
    pub fn error_message(&self) -> (r: Option<&'static str>)
        ensures
            r is None <==> (self.status == 200 || self.status == 201),
    {
        match self.status {
            200 | 201 => None,
            400 => Some("bad request (check API parameters)"),
            401 => Some("API key invalid or missing"),
            403 => Some("access denied"),
            404 => Some("endpoint not found"),
            429 => Some("rate limited — retry after delay"),
            500 => Some("API internal server error"),
            529 => Some("API overloaded — retry later"),
            _ => Some("unexpected HTTP status"),
        }
    }

    /// Whether this is a server-side condition worth retrying.
    pub fn should_retry(&self) -> (r: bool)
        ensures
            r == (self.status == 429 || self.status == 500 || self.status == 529),
    {
        self.status == 429 || self.status == 500 || self.status == 529
    }

    /// The retry delay in seconds announced by the response, if any.
    pub fn retry_after_secs(&self) -> (r: Option<u64>)
    {
        let mut name: Vec<u8> = Vec::new();
        name.push(114);
        name.push(101);
        name.push(116);
        name.push(114);
        name.push(121);
        name.push(45);
        name.push(97);
        name.push(102);
        name.push(116);
        name.push(101);
        name.push(114);
        let v = match self.header(name.as_slice()) {
            Some(v) => v,
            None => {
                return None;
            },
        };
        parse_u64_digits(v.as_slice())
    }
}

/// Find the position of the CR LF CR LF separating headers from body.
pub fn find_header_end(data: &[u8]) -> (r: Option<usize>)
    ensures
        match r {
            Some(i) => spec_header_end(data@) == Some(i as int) && i + 4 <= data@.len(),
            None => spec_header_end(data@) is None,
        },
{
    if data.len() < 4 {
        proof {
            lemma_header_end_none(data@, 0);
        }
        return None;
    }
    let n = data.len();
    let mut i: usize = 0;
    while i <= n - 4
        invariant
            4 <= n,
            n == data@.len(),
            i <= n - 3,
            spec_header_end(data@) == spec_header_end_from(data@, i as int),
        decreases data@.len() - i,
    {
        if data[i] == 13 && data[i + 1] == 10 && data[i + 2] == 13 && data[i + 3] == 10 {
            return Some(i);
        }
        i += 1;
    }
    None
}

/// Scanning from a position with no separator so far finds the same
/// separator as scanning from the start.
proof fn lemma_header_end_none(d: Seq<u8>, i: int)
    requires
        i + 4 > d.len(),
        i >= 0,
    ensures
        spec_header_end_from(d, i) is None,
{
}

/// The decimal status code in the status line `data[..line_end]`:
/// the digits between the first space and the following space or line
/// end. Absent or malformed digits give `None`.
fn parse_status_code(data: &[u8], line_end: usize) -> (r: Option<u16>)
    requires
        line_end <= data@.len(),
    ensures
        r matches Some(s) ==> s <= 999,
{
    // First space.
    let mut s1: usize = 0;
    let mut found = false;
    while s1 < line_end && !found
        invariant
            s1 <= line_end,
            line_end <= data@.len(),
            found ==> s1 < line_end && data@[s1 as int] == 32,
        decreases line_end - s1, if found { 0int } else { 1int },
    {
        if data[s1] == 32 {
            found = true;
        } else {
            s1 += 1;
        }
    }
    if !found {
        return None;
    }
    // Token until the next space or the end of the line.
    let mut s2: usize = s1 + 1;
    while s2 < line_end && data[s2] != 32
        invariant
            s1 + 1 <= s2 <= line_end,
            line_end <= data@.len(),
        decreases line_end - s2,
    {
        s2 += 1;
    }
    if s2 == s1 + 1 {
        return None;
    }
    if s2 - s1 - 1 > 3 {
        return None;
    }
    let mut v: u32 = 0;
    let mut k: usize = s1 + 1;
    while k < s2
        invariant
            s1 + 1 <= k <= s2,
            s2 <= line_end,
            line_end <= data@.len(),
            s2 - s1 - 1 <= 3,
            v <= 999,
        decreases s2 - k,
    {
        let c = data[k];
        if c < 48 || c > 57 {
            return None;
        }
        v = v * 10 + ((c - 48) as u32);
        proof {
            assert(v <= 9999);
        }
        if v > 999 {
            return None;
        }
        k += 1;
    }
    Some(v as u16)
}

/// The decimal value of an all-digit byte string, when it fits a `u64`.
pub fn parse_u64_digits(s: &[u8]) -> (r: Option<u64>)
    ensures
        r matches Some(v) ==> spec_all_digits(s@) && v == spec_dec(s@),
{
    if s.len() == 0 {
        return None;
    }
    let n = s.len();
    let mut v: u64 = 0;
    let mut i: usize = 0;
    while i < n
        invariant
            i <= n,
            n == s@.len(),
            v == spec_dec(s@.subrange(0, i as int)),
            forall|k: int| 0 <= k < i ==> 48 <= #[trigger] s@[k] <= 57,
        decreases n - i,
    {
        let c = s[i];
        if c < 48 || c > 57 {
            return None;
        }
        if v > 0x1999_9999_9999_9999 {
            return None;
        }
        let d = (c - 48) as u64;
        let next = v * 10;
        if next > u64::MAX - d {
            return None;
        }
        v = next + d;
        proof {
            assert(s@.subrange(0, i + 1).drop_last() =~= s@.subrange(0, i as int));
        }
        i += 1;
    }
    proof {
        assert(s@.subrange(0, n as int) =~= s@);
    }
    Some(v)
}

/// Whether a byte is a space or a horizontal tab.
pub open spec fn spec_ws(b: u8) -> bool {
    b == 32 || b == 9
}

/// `data[lo..hi]` with surrounding spaces and tabs removed.
fn trimmed(data: &[u8], lo: usize, hi: usize) -> (r: Vec<u8>)
    requires
        lo <= hi <= data@.len(),
    ensures
        r@.len() <= hi - lo,
        r@.len() > 0 ==> !spec_ws(r@[0]) && !spec_ws(r@[r@.len() - 1]),
{
    let mut a = lo;
    while a < hi && (data[a] == 32 || data[a] == 9)
        invariant
            lo <= a <= hi,
            hi <= data@.len(),
        decreases hi - a,
    {
        a += 1;
    }
    let mut b = hi;
    while b > a && (data[b - 1] == 32 || data[b - 1] == 9)
        invariant
            a <= b <= hi,
            hi <= data@.len(),
            a < hi ==> !spec_ws(data@[a as int]),
        decreases b,
    {
        b -= 1;
    }
    let mut out: Vec<u8> = Vec::new();
    let mut i = a;
    while i < b
        invariant
            a <= i <= b,
            b <= hi,
            hi <= data@.len(),
            lo <= a,
            out@.len() == i - a,
            forall|k: int| 0 <= k < out@.len() ==> out@[k] == data@[a + k],
            b > a ==> !spec_ws(data@[a as int]) && !spec_ws(data@[b - 1]),
        decreases b - i,
    {
        let c = data[i];
        out.push(c);
        i += 1;
    }
    out
}

/// `data[lo..hi]` trimmed and lowercased.
fn lower_trimmed(data: &[u8], lo: usize, hi: usize) -> (r: Vec<u8>)
    requires
        lo <= hi <= data@.len(),
    ensures
        r@ == spec_lower(r@),
{
    let t = trimmed(data, lo, hi);
    let r = lower_trimmed_of(t.as_slice());
    proof {
        assert(r@ =~= spec_lower(r@));
    }
    r
}

/// A lowercased copy of `s`.
fn lower_trimmed_of(s: &[u8]) -> (r: Vec<u8>)
    ensures
        r@ == spec_lower(s@),
{
    let n = s.len();
    let mut out: Vec<u8> = Vec::new();
    let mut i: usize = 0;
    while i < n
        invariant
            i <= n,
            n == s@.len(),
            out@.len() == i,
            forall|k: int| 0 <= k < i ==> out@[k] == spec_lower(s@)[k],
        decreases n - i,
    {
        let c = s[i];
        if c >= 65 && c <= 90 {
            out.push(c + 32);
        } else {
            out.push(c);
        }
        i += 1;
    }
    proof {
        assert(out@ =~= spec_lower(s@));
    }
    out
}

} // verus!
