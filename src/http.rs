//! HTTP/1.x message boundaries: given the bytes of one message, where it ends.
//!
//! Header names and values are compared after every space has been removed
//! and without regard to ASCII case. A request without `Content-Length` or
//! `Transfer-Encoding: chunked` has no body; such a response lasts until the
//! connection closes.
use vstd::prelude::*;
use vstd::utf8::*;
use crate::address::{digits_value, is_digit};
use crate::bytes::copy_range;

verus! {

pub const CR: u8 = 13;
pub const LF: u8 = 10;

/// Where a message ends, or that more bytes are needed to tell.
#[derive(Debug, PartialEq, Eq, Structural, Clone, Copy)]
pub enum HttpResult {
    End(usize),
    DataNotEnough,
}

/// Outcome of reading one chunk of a chunked body.
#[derive(Debug, PartialEq, Eq, Structural, Clone, Copy)]
pub enum Kind {
    /// The terminal chunk and its trailer end at this offset.
    End(usize),
    DataNotEnough,
    /// A data chunk ends at this offset; the next chunk starts there.
    Continue(usize),
}

/// How the body of a message is framed.
#[derive(Debug, PartialEq, Eq, Structural, Clone, Copy)]
pub enum HttpParseState {
    /// A request without body framing headers: no body.
    OtherRequest,
    /// A response without body framing headers: the body lasts until close.
    OtherResponse,
    ContentLength(usize),
    TransferEncoding,
}

/// Direction of a message.
#[derive(Debug, PartialEq, Eq, Structural, Clone, Copy)]
pub enum PacketType {
    Request,
    Response,
}

/// Why a message cannot be framed.
#[derive(Debug, PartialEq, Eq, Structural, Clone, Copy)]
pub enum HttpError {
    /// The buffer ends before the line or the header block does.
    DataNotEnough,
    /// A header line without a colon.
    HeaderFormat,
    /// A data chunk not followed by CR LF.
    MalformedChunk,
    /// A `Content-Length` value that is not a decimal number fitting `usize`.
    BadContentLength,
    /// A chunk size that does not fit `usize`.
    BadChunkSize,
}

impl HttpError {
    /// A short human-readable description.
    pub fn message(&self) -> &'static str {
        match self {
            HttpError::DataNotEnough => "data not enough when parse http headers",
            HttpError::HeaderFormat => "header formatter error.",
            HttpError::MalformedChunk => "chunk end is not correct.",
            HttpError::BadContentLength => "content-length is not a number.",
            HttpError::BadChunkSize => "chunk size is too large.",
        }
    }
}

impl HttpParseState {
    pub open spec fn initial(packet_type: PacketType) -> HttpParseState {
        match packet_type {
            PacketType::Request => HttpParseState::OtherRequest,
            PacketType::Response => HttpParseState::OtherResponse,
        }
    }

    /// The framing a message has before any header is seen.
    pub fn build_by_packet_type(packet_type: &PacketType) -> (r: HttpParseState)
        ensures
            r == HttpParseState::initial(*packet_type),
    {
        match packet_type {
            PacketType::Request => HttpParseState::OtherRequest,
            PacketType::Response => HttpParseState::OtherResponse,
        }
    }
}

// ---------------------------------------------------------------------------
// Lines

/// The first line feed at or after `from`.
pub open spec fn find_lf(s: Seq<u8>, from: int) -> Option<int>
    decreases s.len() - from,
{
    if from < 0 || from >= s.len() {
        None
    } else if s[from] == LF {
        Some(from)
    } else {
        find_lf(s, from + 1)
    }
}

/// The line that starts at `start`: where its text ends (before the line feed
/// and a carriage return just before it) and where the next line starts.
pub open spec fn line_at(s: Seq<u8>, start: int) -> Option<(int, int)> {
    match find_lf(s, start) {
        None => None,
        Some(i) => Some((if i > start && s[i - 1] == CR { i - 1 } else { i }, i + 1)),
    }
}

proof fn lemma_find_lf(s: Seq<u8>, from: int)
    requires
        0 <= from,
    ensures
        match find_lf(s, from) {
            Some(i) => from <= i < s.len() && s[i] == LF && forall|j: int| from <= j < i ==> s[j] != LF,
            None => forall|j: int| from <= j < s.len() ==> s[j] != LF,
        },
    decreases s.len() - from,
{
    if from < s.len() && s[from] != LF {
        lemma_find_lf(s, from + 1);
    }
}

fn find_line(data: &[u8], start: usize) -> (r: Option<(usize, usize)>)
    requires
        start <= data@.len(),
    ensures
        match line_at(data@, start as int) {
            None => r is None,
            Some((e, n)) => r matches Some((a, b)) && a == e && b == n,
        },
        r matches Some((e, n)) ==> start <= e < n <= data@.len(),
{
    proof {
        lemma_find_lf(data@, start as int);
    }
    let len = data.len();
    let mut cur = start;
    while cur < len
        invariant
            len == data@.len(),
            start <= cur <= len,
            find_lf(data@, start as int) == find_lf(data@, cur as int),
        decreases len - cur,
    {
        if data[cur] == LF {
            let end = if cur > start && data[cur - 1] == CR {
                cur - 1
            } else {
                cur
            };
            return Some((end, cur + 1));
        }
        cur = cur + 1;
    }
    None
}

pub uninterp spec fn lossy_text(b: Seq<u8>) -> Seq<char>;

/// Relies on String::from_utf8_lossy: the text of the bytes, where each
/// invalid sequence becomes U+FFFD; valid UTF-8 is taken as it is.
#[verifier::external_body]
fn text_of(b: &[u8]) -> (r: String)
    ensures
        r@ == lossy_text(b@),
        valid_utf8(b@) ==> r@ == decode_utf8(b@),
{
    String::from_utf8_lossy(b).into_owned()
}

/// Scans for the first line: its text and the offset past its line feed.
pub fn parse_line(data: &[u8]) -> (r: Result<(String, usize), HttpError>)
    ensures
        match line_at(data@, 0) {
            None => r == Err::<(String, usize), _>(HttpError::DataNotEnough),
            Some((e, n)) => r matches Ok((t, k)) && k == n && t@ == lossy_text(data@.subrange(0, e)),
        },
{
    match find_line(data, 0) {
        None => Err(HttpError::DataNotEnough),
        Some((end, next)) => Ok((text_of(&data[0..end]), next)),
    }
}

/// The request or status line.
pub fn parse_first_line(data: &[u8]) -> (r: Result<(String, usize), HttpError>)
    ensures
        match line_at(data@, 0) {
            None => r == Err::<(String, usize), _>(HttpError::DataNotEnough),
            Some((e, n)) => r matches Ok((t, k)) && k == n && t@ == lossy_text(data@.subrange(0, e)),
        },
{
    parse_line(data)
}

/// Whether the bytes end exactly at the end of a line.
pub fn is_http_packet_finish(data: &[u8]) -> (r: Result<bool, HttpError>)
    ensures
        r == Ok::<bool, HttpError>(data@.len() > 0 && data@.last() == LF),
{
    let len = data.len();
    let mut index: usize = 0;
    loop
        invariant
            len == data@.len(),
            index < len || index == 0,
            index > 0 ==> data@[index - 1] == LF,
        decreases len - index,
    {
        proof {
            lemma_find_lf(data@, index as int);
        }
        match find_line(data, index) {
            None => return Ok(false),
            Some((_, next)) => {
                if next == len {
                    return Ok(true);
                }
                index = next;
            },
        }
    }
}

// ---------------------------------------------------------------------------
// Headers

/// The bytes with every space removed.
pub open spec fn without_spaces(s: Seq<u8>) -> Seq<u8>
    decreases s.len(),
{
    if s.len() == 0 {
        s
    } else if s.last() == 32 {
        without_spaces(s.drop_last())
    } else {
        without_spaces(s.drop_last()).push(s.last())
    }
}

/// The first colon at or after `from`.
pub open spec fn find_colon(s: Seq<u8>, from: int) -> Option<int>
    decreases s.len() - from,
{
    if from < 0 || from >= s.len() {
        None
    } else if s[from] == 58 {
        Some(from)
    } else {
        find_colon(s, from + 1)
    }
}

/// A header line split once at its first colon, spaces removed.
pub open spec fn split_header(line: Seq<u8>) -> Option<(Seq<u8>, Seq<u8>)> {
    let t = without_spaces(line);
    match find_colon(t, 0) {
        None => None,
        Some(c) => Some((t.subrange(0, c), t.subrange(c + 1, t.len() as int))),
    }
}

pub open spec fn ascii_lower(c: u8) -> u8 {
    if 65 <= c <= 90 {
        (c + 32) as u8
    } else {
        c
    }
}

/// `a` equals the lower-case word `b` up to ASCII case.
pub open spec fn same_word(a: Seq<u8>, b: Seq<u8>) -> bool {
    a.len() == b.len() && forall|i: int| 0 <= i < a.len() ==> ascii_lower(#[trigger] a[i]) == b[i]
}

pub open spec fn transfer_encoding_word() -> Seq<u8> {
    seq![116u8, 114, 97, 110, 115, 102, 101, 114, 45, 101, 110, 99, 111, 100, 105, 110, 103]
}

pub open spec fn chunked_word() -> Seq<u8> {
    seq![99u8, 104, 117, 110, 107, 101, 100]
}

pub open spec fn content_length_word() -> Seq<u8> {
    seq![99u8, 111, 110, 116, 101, 110, 116, 45, 108, 101, 110, 103, 116, 104]
}

/// A decimal number that fits `usize`.
pub open spec fn decimal_value(s: Seq<u8>) -> Option<usize> {
    if 0 < s.len() && (forall|i: int| 0 <= i < s.len() ==> is_digit(#[trigger] s[i])) && digits_value(s)
        <= usize::MAX {
        Some(digits_value(s) as usize)
    } else {
        None
    }
}

/// How one header line changes the framing: `Transfer-Encoding: chunked`
/// wins over any `Content-Length`, before or after it.
pub open spec fn header_effect(line: Seq<u8>, state: HttpParseState) -> Result<HttpParseState, HttpError> {
    match split_header(line) {
        None => Err(HttpError::HeaderFormat),
        Some((name, value)) => {
            let st = if same_word(name, transfer_encoding_word()) && same_word(value, chunked_word()) {
                HttpParseState::TransferEncoding
            } else {
                state
            };
            if st != HttpParseState::TransferEncoding && same_word(name, content_length_word()) {
                match decimal_value(value) {
                    Some(n) => Ok(HttpParseState::ContentLength(n)),
                    None => Err(HttpError::BadContentLength),
                }
            } else {
                Ok(st)
            }
        },
    }
}

/// Header lines from `pos` up to and including the empty line: the framing
/// and the offset past the empty line.
pub open spec fn scan_headers(s: Seq<u8>, pos: int, state: HttpParseState) -> Result<(HttpParseState, int), HttpError>
    decreases s.len() - pos,
{
    match line_at(s, pos) {
        None => Err(HttpError::DataNotEnough),
        Some((e, n)) => if e == pos {
            Ok((state, n))
        } else if n <= pos || n > s.len() {
            Err(HttpError::DataNotEnough)
        } else {
            match header_effect(s.subrange(pos, e), state) {
                Err(err) => Err(err),
                Ok(st) => scan_headers(s, n, st),
            }
        },
    }
}

fn remove_spaces(line: &[u8]) -> (r: Vec<u8>)
    ensures
        r@ == without_spaces(line@),
{
    let mut out: Vec<u8> = Vec::new();
    let mut i: usize = 0;
    while i < line.len()
        invariant
            i <= line@.len(),
            out@ == without_spaces(line@.subrange(0, i as int)),
        decreases line@.len() - i,
    {
        assert(line@.subrange(0, i + 1).drop_last() =~= line@.subrange(0, i as int));
        if line[i] != 32 {
            out.push(line[i]);
        }
        i = i + 1;
    }
    assert(line@.subrange(0, i as int) =~= line@);
    out
}

fn colon_index(t: &Vec<u8>) -> (r: Option<usize>)
    ensures
        match find_colon(t@, 0) {
            None => r is None,
            Some(c) => r matches Some(i) && i == c,
        },
{
    let mut i: usize = 0;
    while i < t.len()
        invariant
            i <= t@.len(),
            find_colon(t@, 0) == find_colon(t@, i as int),
        decreases t@.len() - i,
    {
        if t[i] == 58 {
            return Some(i);
        }
        i = i + 1;
    }
    None
}

fn split_header_bytes(line: &[u8]) -> (r: Option<(Vec<u8>, Vec<u8>)>)
    ensures
        match split_header(line@) {
            None => r is None,
            Some((n, v)) => r matches Some((a, b)) && a@ == n && b@ == v,
        },
{
    let t = remove_spaces(line);
    match colon_index(&t) {
        None => None,
        Some(c) => {
            proof {
                lemma_find_colon(t@, 0);
            }
            let tl = t.len();
            Some((copy_range(t.as_slice(), 0, c), copy_range(t.as_slice(), c + 1, tl)))
        },
    }
}

proof fn lemma_find_colon(s: Seq<u8>, from: int)
    requires
        0 <= from,
    ensures
        find_colon(s, from) matches Some(i) ==> from <= i < s.len(),
    decreases s.len() - from,
{
    if from < s.len() && s[from] != 58 {
        lemma_find_colon(s, from + 1);
    }
}

/// Splits a header line once at its first colon into name and value, every
/// space removed from both.
pub fn parse_http_header(line: &String) -> (r: Result<(String, String), HttpError>)
    ensures
        match split_header(encode_utf8(line@)) {
            None => r == Err::<(String, String), _>(HttpError::HeaderFormat),
            Some((n, v)) => r matches Ok((a, b)) && a@ == lossy_text(n) && b@ == lossy_text(v),
        },
{
    let bytes = line.as_str().as_bytes();
    match split_header_bytes(bytes) {
        None => Err(HttpError::HeaderFormat),
        Some((name, value)) => Ok((text_of(name.as_slice()), text_of(value.as_slice()))),
    }
}

fn same_word_exec(a: &Vec<u8>, b: &Vec<u8>) -> (r: bool)
    ensures
        r == same_word(a@, b@),
{
    if a.len() != b.len() {
        return false;
    }
    let mut i: usize = 0;
    while i < a.len()
        invariant
            a@.len() == b@.len(),
            i <= a@.len(),
            forall|j: int| 0 <= j < i ==> ascii_lower(#[trigger] a@[j]) == b@[j],
        decreases a@.len() - i,
    {
        let c = a[i];
        let lower = if 65 <= c && c <= 90 {
            c + 32
        } else {
            c
        };
        if lower != b[i] {
            return false;
        }
        i = i + 1;
    }
    true
}

fn decimal_value_exec(s: &Vec<u8>) -> (r: Option<usize>)
    ensures
        r == decimal_value(s@),
{
    if s.len() == 0 {
        return None;
    }
    let mut v: usize = 0;
    let mut i: usize = 0;
    while i < s.len()
        invariant
            0 < s@.len(),
            i <= s@.len(),
            forall|j: int| 0 <= j < i ==> is_digit(#[trigger] s@[j]),
            v == digits_value(s@.subrange(0, i as int)),
        decreases s@.len() - i,
    {
        assert(s@.subrange(0, i + 1).drop_last() =~= s@.subrange(0, i as int));
        let c = s[i];
        if c < 48 || c > 57 {
            return None;
        }
        let d = (c - 48) as usize;
        if v > (usize::MAX - d) / 10 {
            proof {
                assert(v * 10 + d > usize::MAX) by (nonlinear_arith)
                    requires
                        v > (usize::MAX - d) / 10,
                        d <= 9,
                ;
                assert(digits_value(s@.subrange(0, i + 1)) == v * 10 + d);
                if forall|j: int| 0 <= j < s@.len() ==> is_digit(#[trigger] s@[j]) {
                    lemma_digits_value_grows(s@, i as int + 1);
                }
            }
            return None;
        }
        v = v * 10 + d;
        i = i + 1;
    }
    assert(s@.subrange(0, i as int) =~= s@);
    Some(v)
}

/// A run of digits is worth at least its prefix.
proof fn lemma_digits_value_grows(s: Seq<u8>, k: int)
    requires
        0 <= k <= s.len(),
        forall|j: int| 0 <= j < s.len() ==> is_digit(#[trigger] s[j]),
    ensures
        digits_value(s) >= digits_value(s.subrange(0, k)),
    decreases s.len(),
{
    if k < s.len() {
        assert forall|j: int| 0 <= j < s.drop_last().len() implies is_digit(#[trigger] s.drop_last()[j]) by {
            assert(s.drop_last()[j] == s[j]);
        }
        lemma_digits_value_grows(s.drop_last(), k);
        assert(s.drop_last().subrange(0, k) =~= s.subrange(0, k));
        lemma_digits_value_nonneg(s.drop_last());
    } else {
        assert(s.subrange(0, k) =~= s);
    }
}

proof fn lemma_digits_value_nonneg(s: Seq<u8>)
    requires
        forall|j: int| 0 <= j < s.len() ==> is_digit(#[trigger] s[j]),
    ensures
        digits_value(s) >= 0,
    decreases s.len(),
{
    if s.len() > 0 {
        assert forall|j: int| 0 <= j < s.drop_last().len() implies is_digit(#[trigger] s.drop_last()[j]) by {
            assert(s.drop_last()[j] == s[j]);
        }
        lemma_digits_value_nonneg(s.drop_last());
    }
}

fn header_effect_exec(line: &[u8], state: HttpParseState) -> (r: Result<HttpParseState, HttpError>)
    ensures
        r == header_effect(line@, state),
{
    let (name, value) = match split_header_bytes(line) {
        None => return Err(HttpError::HeaderFormat),
        Some(p) => p,
    };
    let te: Vec<u8> = vec![116u8, 114, 97, 110, 115, 102, 101, 114, 45, 101, 110, 99, 111, 100, 105, 110, 103];
    let chunked: Vec<u8> = vec![99u8, 104, 117, 110, 107, 101, 100];
    let cl: Vec<u8> = vec![99u8, 111, 110, 116, 101, 110, 116, 45, 108, 101, 110, 103, 116, 104];
    assert(te@ =~= transfer_encoding_word());
    assert(chunked@ =~= chunked_word());
    assert(cl@ =~= content_length_word());
    let st = if same_word_exec(&name, &te) && same_word_exec(&value, &chunked) {
        HttpParseState::TransferEncoding
    } else {
        state
    };
    if st != HttpParseState::TransferEncoding && same_word_exec(&name, &cl) {
        match decimal_value_exec(&value) {
            Some(n) => Ok(HttpParseState::ContentLength(n)),
            None => Err(HttpError::BadContentLength),
        }
    } else {
        Ok(st)
    }
}

fn scan_headers_exec(data: &[u8], start: usize, state: HttpParseState) -> (r: Result<(HttpParseState, usize), HttpError>)
    requires
        start <= data@.len(),
    ensures
        match scan_headers(data@, start as int, state) {
            Ok((st, n)) => r matches Ok((a, b)) && a == st && b == n && b <= data@.len(),
            Err(e) => r == Err::<(HttpParseState, usize), _>(e),
        },
{
    let len = data.len();
    let mut pos = start;
    let mut st = state;
    loop
        invariant
            start <= pos <= data@.len(),
            scan_headers(data@, start as int, state) == scan_headers(data@, pos as int, st),
        decreases data@.len() - pos,
    {
        match find_line(data, pos) {
            None => return Err(HttpError::DataNotEnough),
            Some((end, next)) => {
                if end == pos {
                    return Ok((st, next));
                }
                st = header_effect_exec(&data[pos..end], st)?;
                pos = next;
            },
        }
    }
}

/// Header lines up to and including the empty line that ends them: the body
/// framing and the offset past that empty line.
pub fn parse_http_headers(data: &[u8], packet_type: &PacketType) -> (r: Result<(HttpParseState, usize), HttpError>)
    ensures
        match scan_headers(data@, 0, HttpParseState::initial(*packet_type)) {
            Ok((st, n)) => r matches Ok((a, b)) && a == st && b == n,
            Err(e) => r == Err::<(HttpParseState, usize), _>(e),
        },
{
    let state = HttpParseState::build_by_packet_type(packet_type);
    scan_headers_exec(data, 0, state)
}

// ---------------------------------------------------------------------------
// Bodies

/// Hexadecimal value of a chunk-size line; only `0-9` and `a-f` count, any
/// other byte stands for a zero digit.
pub open spec fn hex_value(s: Seq<u8>) -> int
    decreases s.len(),
{
    if s.len() == 0 {
        0
    } else {
        hex_value(s.drop_last()) * 16 + hex_digit(s.last())
    }
}

pub open spec fn hex_digit(c: u8) -> int {
    if 48 <= c <= 57 {
        c - 48
    } else if 97 <= c <= 102 {
        c - 87
    } else {
        0
    }
}

/// A chunked body from `pos`: where the terminal chunk's trailer ends.
pub open spec fn chunked_end(s: Seq<u8>, pos: int) -> Result<HttpResult, HttpError>
    decreases s.len() - pos,
{
    match line_at(s, pos) {
        None => Ok(HttpResult::DataNotEnough),
        Some((e, n)) => {
            let size = hex_value(s.subrange(pos, e));
            if size > usize::MAX {
                Err(HttpError::BadChunkSize)
            } else if size == 0 {
                match line_at(s, n) {
                    None => Ok(HttpResult::DataNotEnough),
                    Some((_, n2)) => Ok(HttpResult::End(n2 as usize)),
                }
            } else if s.len() < n + size + 2 {
                Ok(HttpResult::DataNotEnough)
            } else if s[n + size] != CR || s[n + size + 1] != LF {
                Err(HttpError::MalformedChunk)
            } else if n + size + 2 <= pos {
                Ok(HttpResult::DataNotEnough)
            } else {
                chunked_end(s, n + size + 2)
            }
        },
    }
}

/// One chunk from `pos`, as `parse_chunk` reports it.
pub open spec fn chunk_at(s: Seq<u8>, pos: int) -> Result<Kind, HttpError> {
    match line_at(s, pos) {
        None => Ok(Kind::DataNotEnough),
        Some((e, n)) => {
            let size = hex_value(s.subrange(pos, e));
            if size > usize::MAX {
                Err(HttpError::BadChunkSize)
            } else if size == 0 {
                match line_at(s, n) {
                    None => Ok(Kind::DataNotEnough),
                    Some((_, n2)) => Ok(Kind::End(n2 as usize)),
                }
            } else if s.len() < n + size + 2 {
                Ok(Kind::DataNotEnough)
            } else if s[n + size] != CR || s[n + size + 1] != LF {
                Err(HttpError::MalformedChunk)
            } else {
                Ok(Kind::Continue((n + size + 2) as usize))
            }
        },
    }
}

/// The chunk size written in hexadecimal, `None` when it does not fit `usize`.
pub fn parse_chunk_size(data: &[u8]) -> (r: Option<usize>)
    ensures
        hex_value(data@) <= usize::MAX ==> (r matches Some(v) && v == hex_value(data@)),
        hex_value(data@) > usize::MAX ==> r is None,
{
    proof {
        lemma_hex_value_nonneg(data@);
    }
    let mut sum: usize = 0;
    let mut i: usize = 0;
    while i < data.len()
        invariant
            i <= data@.len(),
            sum == hex_value(data@.subrange(0, i as int)),
        decreases data@.len() - i,
    {
        assert(data@.subrange(0, i + 1).drop_last() =~= data@.subrange(0, i as int));
        let c = data[i];
        let d: usize = if 48 <= c && c <= 57 {
            (c - 48) as usize
        } else if 97 <= c && c <= 102 {
            (c - 87) as usize
        } else {
            0
        };
        if sum > (usize::MAX - d) / 16 {
            proof {
                assert(sum * 16 + d > usize::MAX) by (nonlinear_arith)
                    requires
                        sum > (usize::MAX - d) / 16,
                        d <= 15,
                ;
                assert(hex_value(data@.subrange(0, i + 1)) == sum * 16 + d);
                lemma_hex_value_grows(data@, i as int + 1);
            }
            return None;
        }
        sum = sum * 16 + d;
        i = i + 1;
    }
    assert(data@.subrange(0, i as int) =~= data@);
    Some(sum)
}

proof fn lemma_hex_value_nonneg(s: Seq<u8>)
    ensures
        hex_value(s) >= 0,
    decreases s.len(),
{
    if s.len() > 0 {
        lemma_hex_value_nonneg(s.drop_last());
    }
}

proof fn lemma_hex_value_grows(s: Seq<u8>, k: int)
    requires
        0 <= k <= s.len(),
    ensures
        hex_value(s) >= hex_value(s.subrange(0, k)),
    decreases s.len(),
{
    if k < s.len() {
        lemma_hex_value_grows(s.drop_last(), k);
        assert(s.drop_last().subrange(0, k) =~= s.subrange(0, k));
        lemma_hex_value_nonneg(s.drop_last());
    } else {
        assert(s.subrange(0, k) =~= s);
    }
}

fn chunk_step(data: &[u8], pos: usize) -> (r: Result<Kind, HttpError>)
    requires
        pos <= data@.len(),
    ensures
        r == chunk_at(data@, pos as int),
        r matches Ok(Kind::Continue(k)) ==> pos < k <= data@.len(),
        r matches Ok(Kind::End(k)) ==> k <= data@.len(),
{
    let len = data.len();
    let (end, next) = match find_line(data, pos) {
        None => return Ok(Kind::DataNotEnough),
        Some(p) => p,
    };
    let size = match parse_chunk_size(&data[pos..end]) {
        None => return Err(HttpError::BadChunkSize),
        Some(s) => s,
    };
    if size == 0 {
        return match find_line(data, next) {
            None => Ok(Kind::DataNotEnough),
            Some((_, n2)) => Ok(Kind::End(n2)),
        };
    }
    if data.len() - next < size || data.len() - next - size < 2 {
        return Ok(Kind::DataNotEnough);
    }
    let end_pos = next + size;
    if data[end_pos] != CR || data[end_pos + 1] != LF {
        return Err(HttpError::MalformedChunk);
    }
    Ok(Kind::Continue(end_pos + 2))
}

/// Reads one chunk at the start of the bytes.
pub fn parse_chunk(data: &[u8]) -> (r: Result<Kind, HttpError>)
    ensures
        r == chunk_at(data@, 0),
{
    chunk_step(data, 0)
}

/// The trailer line after the terminal chunk: the offset past it.
pub fn parse_chunk_end(data: &[u8]) -> (r: Result<usize, HttpError>)
    ensures
        match line_at(data@, 0) {
            None => r == Err::<usize, _>(HttpError::DataNotEnough),
            Some((_, n)) => r == Ok::<usize, HttpError>(n as usize),
        },
{
    match find_line(data, 0) {
        None => Err(HttpError::DataNotEnough),
        Some((_, next)) => Ok(next),
    }
}

proof fn lemma_chunk_continue(s: Seq<u8>, pos: int, k: int)
    requires
        0 <= pos < k <= s.len() <= usize::MAX,
        chunk_at(s, pos) == Ok::<Kind, HttpError>(Kind::Continue(k as usize)),
    ensures
        chunked_end(s, pos) == chunked_end(s, k),
{
    lemma_find_lf(s, pos);
    let (e, n) = line_at(s, pos)->0;
    let size = hex_value(s.subrange(pos, e));
    lemma_hex_value_nonneg(s.subrange(pos, e));
    assert(n + size + 2 == k);
}

fn chunked_end_exec(data: &[u8], start: usize) -> (r: Result<HttpResult, HttpError>)
    requires
        start <= data@.len(),
    ensures
        r == chunked_end(data@, start as int),
        r matches Ok(HttpResult::End(k)) ==> k <= data@.len(),
{
    let len = data.len();
    let mut pos = start;
    loop
        invariant
            len == data@.len(),
            start <= pos <= data@.len(),
            chunked_end(data@, start as int) == chunked_end(data@, pos as int),
        decreases data@.len() - pos,
    {
        match chunk_step(data, pos)? {
            Kind::End(k) => return Ok(HttpResult::End(k)),
            Kind::DataNotEnough => return Ok(HttpResult::DataNotEnough),
            Kind::Continue(k) => {
                proof {
                    lemma_chunk_continue(data@, pos as int, k as int);
                }
                pos = k;
            },
        }
    }
}

/// A chunked body at the start of the bytes: where it ends.
pub fn read_with_transfer_encoding(data: &[u8]) -> (r: Result<HttpResult, HttpError>)
    ensures
        r == chunked_end(data@, 0),
{
    chunked_end_exec(data, 0)
}

/// A body of `total` bytes: complete once that many are present.
pub fn read_with_length(data: &[u8], total: usize) -> (r: Result<HttpResult, HttpError>)
    ensures
        data@.len() < total ==> r == Ok::<_, HttpError>(HttpResult::DataNotEnough),
        data@.len() >= total ==> r == Ok::<_, HttpError>(HttpResult::End(total)),
{
    if data.len() < total {
        return Ok(HttpResult::DataNotEnough);
    }
    Ok(HttpResult::End(total))
}

/// A body that lasts until the connection closes.
pub fn read_util_close(data: &[u8], socket_closed: bool) -> (r: Result<HttpResult, HttpError>)
    ensures
        socket_closed ==> r == Ok::<_, HttpError>(HttpResult::End(data@.len() as usize)),
        !socket_closed ==> r == Ok::<_, HttpError>(HttpResult::DataNotEnough),
{
    if socket_closed {
        Ok(HttpResult::End(data.len()))
    } else {
        Ok(HttpResult::DataNotEnough)
    }
}

/// Where a whole message (first line, headers, body) ends.
pub open spec fn http_end(s: Seq<u8>, packet_type: PacketType, socket_closed: bool) -> Result<HttpResult, HttpError> {
    match line_at(s, 0) {
        None => Ok(HttpResult::DataNotEnough),
        Some((_, first)) => match scan_headers(s, first, HttpParseState::initial(packet_type)) {
            Err(HttpError::DataNotEnough) => Ok(HttpResult::DataNotEnough),
            Err(e) => Err(e),
            Ok((st, pos)) => match st {
                HttpParseState::TransferEncoding => chunked_end(s, pos),
                HttpParseState::OtherRequest => Ok(HttpResult::End(pos as usize)),
                HttpParseState::OtherResponse => if socket_closed {
                    Ok(HttpResult::End(s.len() as usize))
                } else {
                    Ok(HttpResult::DataNotEnough)
                },
                HttpParseState::ContentLength(n) => if s.len() - pos >= n {
                    Ok(HttpResult::End((pos + n) as usize))
                } else {
                    Ok(HttpResult::DataNotEnough)
                },
            },
        },
    }
}

/// Where the message at the start of the bytes ends, given its direction and
/// whether the connection has been closed.
pub fn get_end_of_http_packet(data: &[u8], packet_type: PacketType, socket_closed: bool) -> (r: Result<HttpResult, HttpError>)
    ensures
        r == http_end(data@, packet_type, socket_closed),
        r matches Ok(HttpResult::End(k)) ==> k <= data@.len(),
{
    let len = data.len();
    let first = match find_line(data, 0) {
        None => return Ok(HttpResult::DataNotEnough),
        Some((_, next)) => next,
    };
    let state = HttpParseState::build_by_packet_type(&packet_type);
    let (transfer_type, pos) = match scan_headers_exec(data, first, state) {
        Ok(p) => p,
        Err(HttpError::DataNotEnough) => return Ok(HttpResult::DataNotEnough),
        Err(e) => return Err(e),
    };
    let starter = &data[pos..data.len()];
    match transfer_type {
        HttpParseState::TransferEncoding => chunked_end_exec(data, pos),
        HttpParseState::OtherRequest => Ok(HttpResult::End(pos)),
        HttpParseState::OtherResponse => match read_util_close(starter, socket_closed)? {
            HttpResult::End(_) => Ok(HttpResult::End(data.len())),
            HttpResult::DataNotEnough => Ok(HttpResult::DataNotEnough),
        },
        HttpParseState::ContentLength(size) => match read_with_length(starter, size)? {
            HttpResult::End(n) => Ok(HttpResult::End(pos + n)),
            HttpResult::DataNotEnough => Ok(HttpResult::DataNotEnough),
        },
    }
}

/// A request whose header block ends without a body framing header is
/// complete right after the empty line that ends the headers.
pub proof fn lemma_request_without_body_ends_at_headers(s: Seq<u8>, first: int, pos: int, socket_closed: bool)
    requires
        line_at(s, 0) matches Some((_, f)) && f == first,
        scan_headers(s, first, HttpParseState::OtherRequest) == Ok::<_, HttpError>(
            (HttpParseState::OtherRequest, pos),
        ),
    ensures
        http_end(s, PacketType::Request, socket_closed) == Ok::<_, HttpError>(HttpResult::End(pos as usize)),
{
}

/// With `Content-Length: n` the message needs more bytes while fewer than `n`
/// follow the headers, and is complete exactly when `n` do.
pub proof fn lemma_content_length_framing(
    s: Seq<u8>,
    packet_type: PacketType,
    socket_closed: bool,
    first: int,
    n: usize,
    pos: int,
)
    requires
        line_at(s, 0) matches Some((_, f)) && f == first,
        scan_headers(s, first, HttpParseState::initial(packet_type)) == Ok::<_, HttpError>(
            (HttpParseState::ContentLength(n), pos),
        ),
    ensures
        s.len() - pos < n ==> http_end(s, packet_type, socket_closed) == Ok::<_, HttpError>(
            HttpResult::DataNotEnough,
        ),
        s.len() - pos >= n ==> http_end(s, packet_type, socket_closed) == Ok::<_, HttpError>(
            HttpResult::End((pos + n) as usize),
        ),
{
}

/// A chunk of size 0 followed by its trailer line ends a chunked body just
/// past that line.
pub proof fn lemma_terminal_chunk(s: Seq<u8>, pos: int, e: int, n: int, n2: int)
    requires
        line_at(s, pos) == Some((e, n)),
        hex_value(s.subrange(pos, e)) == 0,
        line_at(s, n) matches Some((_, x)) && x == n2,
    ensures
        chunked_end(s, pos) == Ok::<_, HttpError>(HttpResult::End(n2 as usize)),
{
}

/// A data chunk whose bytes are present but not followed by CR LF is malformed.
pub proof fn lemma_malformed_chunk(s: Seq<u8>, pos: int, e: int, n: int)
    requires
        line_at(s, pos) == Some((e, n)),
        0 < hex_value(s.subrange(pos, e)) <= usize::MAX,
        s.len() >= n + hex_value(s.subrange(pos, e)) + 2,
        !(s[n + hex_value(s.subrange(pos, e))] == CR && s[n + hex_value(s.subrange(pos, e)) + 1] == LF),
    ensures
        chunked_end(s, pos) == Err::<HttpResult, _>(HttpError::MalformedChunk),
{
}

} // verus!
