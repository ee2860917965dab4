//! HTTP/1.1 wire decoder: status line and header parsing over raw bytes,
//! skipping of informational (1xx) responses, and extraction of a bounded
//! body preview, flat or chunked.
//!
//! The functional model is byte-level: lines are split at LF, a header
//! block ends at the first CRLFCRLF, keys are ASCII-folded, and values
//! are decoded to characters at the boundary. Trimming strips ASCII
//! whitespace.
use vstd::prelude::*;
use vstd::utf8::valid_utf8;
use vstd::utf8::{partial_valid_utf8_extend_ascii_block, is_leading_byte_width_1};
use crate::strutil::{
    hex_num, hex_digit_val, strip_plus, all_hex_digits,
    bytes_eq, bytes_to_str, chars_of, contains_bytes, contains_seq, is_dec_number,
    dec_number_val, is_hex_number, hex_number_val, lower_bytes, lower_bytes_spec,
    parse_hex_usize, parse_u16_bytes, parse_u64_bytes, trim_bytes, trim_spec, str_eq,
};
use crate::error::{ErrorClass, UdocError};
use crate::http::{HttpSummary, ResponseHeaders, HeadersModel};

verus! {

/// Cap on the header part of the receive buffer.
pub const HEADER_LIMIT: usize = 32 * 1024;

// ---------------------------------------------------------------------------
// Finding bytes and the header terminator
// ---------------------------------------------------------------------------

/// Index of the first occurrence of `b` at or after `i`.
pub open spec fn find_from(d: Seq<u8>, b: u8, i: int) -> Option<int>
    decreases d.len() - i,
{
    if i < 0 || i >= d.len() {
        None
    } else if d[i] == b {
        Some(i)
    } else {
        find_from(d, b, i + 1)
    }
}

pub proof fn lemma_find_from_char(d: Seq<u8>, b: u8, i: int)
    requires
        0 <= i <= d.len(),
    ensures
        find_from(d, b, i) matches Some(j)
            ==> i <= j < d.len() && d[j] == b && (forall|k: int| i <= k < j ==> d[k] != b),
        find_from(d, b, i) is None ==> forall|k: int| i <= k < d.len() ==> d[k] != b,
    decreases d.len() - i,
{
    if i < d.len() && d[i] != b {
        lemma_find_from_char(d, b, i + 1);
    }
}

/// Finds the first occurrence of `b` in `d`.
pub fn find_byte(d: &[u8], b: u8) -> (r: Option<usize>)
    ensures
        match r {
            Some(i) => i < d@.len() && d@[i as int] == b && find_from(d@, b, 0) == Some(i as int),
            None => find_from(d@, b, 0) is None,
        },
{
    let mut i: usize = 0;
    while i < d.len()
        invariant
            0 <= i <= d@.len(),
            find_from(d@, b, 0) == find_from(d@, b, i as int),
        decreases d@.len() - i,
    {
        if d[i] == b {
            return Some(i);
        }
        i += 1;
    }
    None
}

/// The four-byte CRLFCRLF header terminator begins at `i`.
pub open spec fn crlfcrlf_at(d: Seq<u8>, i: int) -> bool {
    &&& 0 <= i
    &&& i + 4 <= d.len()
    &&& d[i] == 13
    &&& d[i + 1] == 10
    &&& d[i + 2] == 13
    &&& d[i + 3] == 10
}

/// Index of the first CRLFCRLF at or after `i`.
pub open spec fn header_end_from(d: Seq<u8>, i: int) -> Option<int>
    decreases d.len() - i,
{
    if i < 0 || i + 4 > d.len() {
        None
    } else if crlfcrlf_at(d, i) {
        Some(i)
    } else {
        header_end_from(d, i + 1)
    }
}

/// Index of the first CRLFCRLF of the buffer, if any.
pub open spec fn header_end_spec(d: Seq<u8>) -> Option<int> {
    header_end_from(d, 0)
}

pub proof fn lemma_header_end_char(d: Seq<u8>, i: int)
    requires
        0 <= i,
    ensures
        header_end_from(d, i) matches Some(j)
            ==> i <= j && crlfcrlf_at(d, j) && (forall|k: int| i <= k < j ==> !crlfcrlf_at(d, k)),
        header_end_from(d, i) is None ==> forall|k: int| i <= k ==> !crlfcrlf_at(d, k),
    decreases d.len() - i,
{
    if i + 4 <= d.len() && !crlfcrlf_at(d, i) {
        lemma_header_end_char(d, i + 1);
    }
}

/// The converse characterization: the first position that carries the
/// terminator is what `header_end_spec` returns.
pub proof fn lemma_header_end_intro(d: Seq<u8>, i: int, j: int)
    requires
        0 <= i <= j,
        crlfcrlf_at(d, j),
        forall|k: int| i <= k < j ==> !crlfcrlf_at(d, k),
    ensures
        header_end_from(d, i) == Some(j),
    decreases j - i,
{
    if i < j {
        lemma_header_end_intro(d, i + 1, j);
    }
}

/// Finds the first CRLFCRLF terminator, scanning from the front.
pub fn find_header_end(data: &[u8]) -> (r: Option<usize>)
    ensures
        match r {
            Some(i) => i + 4 <= data@.len() && crlfcrlf_at(data@, i as int)
                && header_end_spec(data@) == Some(i as int),
            None => header_end_spec(data@) is None,
        },
{
    if data.len() < 4 {
        return None;
    }
    let stop: usize = data.len() - 3;
    let mut i: usize = 0;
    while i < stop
        invariant
            0 <= i <= stop,
            4 <= data@.len() <= usize::MAX,
            stop == data@.len() - 3,
            header_end_spec(data@) == header_end_from(data@, i as int),
        decreases stop - i,
    {
        if data[i] == 13 && data[i + 1] == 10 && data[i + 2] == 13 && data[i + 3] == 10 {
            return Some(i);
        }
        i += 1;
    }
    None
}

// ---------------------------------------------------------------------------
// Lines and fields
// ---------------------------------------------------------------------------

/// Split at every occurrence of `sep`, as `slice::split` does: `n`
/// separators give `n + 1` pieces, empty pieces included.
pub open spec fn split_on(d: Seq<u8>, sep: u8) -> Seq<Seq<u8>>
    decreases d.len(),
    via split_on_decreases
{
    match find_from(d, sep, 0) {
        None => seq![d],
        Some(i) => seq![d.take(i)] + split_on(d.skip(i + 1), sep),
    }
}

#[via_fn]
proof fn split_on_decreases(d: Seq<u8>, sep: u8) {
    lemma_find_from_char(d, sep, 0);
}

/// At most three fields split at spaces: the third keeps any further
/// spaces, as `splitn(3, ' ')` does.
pub open spec fn splitn3_spaces(d: Seq<u8>) -> Seq<Seq<u8>> {
    match find_from(d, 0x20, 0) {
        None => seq![d],
        Some(i) => {
            let rest = d.skip(i + 1);
            match find_from(rest, 0x20, 0) {
                None => seq![d.take(i), rest],
                Some(j) => seq![d.take(i), rest.take(j), rest.skip(j + 1)],
            }
        },
    }
}

/// Trailing carriage returns stripped, as `trim_end_matches('\r')` does.
pub open spec fn trim_cr_spec(s: Seq<u8>) -> Seq<u8>
    decreases s.len(),
{
    if s.len() > 0 && s[s.len() - 1] == 13 {
        trim_cr_spec(s.drop_last())
    } else {
        s
    }
}

/// Strips every trailing CR byte.
pub fn trim_cr(s: &[u8]) -> (r: &[u8])
    ensures
        r@ == trim_cr_spec(s@),
{
    let mut hi: usize = s.len();
    proof {
        assert(s@.take(hi as int) =~= s@);
    }
    while hi > 0 && s[hi - 1] == 13
        invariant
            0 <= hi <= s@.len(),
            trim_cr_spec(s@) == trim_cr_spec(s@.take(hi as int)),
        decreases hi,
    {
        proof {
            assert(s@.take(hi as int).drop_last() =~= s@.take(hi - 1));
        }
        hi -= 1;
    }
    let r = &s[0..hi];
    proof {
        assert(s@.take(s@.len() as int) =~= s@);
        if hi > 0 {
            assert(trim_cr_spec(s@.take(hi as int)) =~= s@.take(hi as int));
        } else {
            assert(trim_cr_spec(s@.take(0)) =~= s@.take(0));
        }
    }
    r
}

// ---------------------------------------------------------------------------
// Status line
// ---------------------------------------------------------------------------

/// A parsed status line: version label, numeric status, optional reason.
pub struct StatusLine {
    pub version: Seq<char>,
    pub status: u16,
    pub reason: Option<Seq<char>>,
}

pub open spec fn needle_11() -> Seq<u8> {
    seq![0x31u8, 0x2e, 0x31]
}

pub open spec fn needle_10() -> Seq<u8> {
    seq![0x31u8, 0x2e, 0x30]
}

pub open spec fn needle_2() -> Seq<u8> {
    seq![0x32u8]
}

/// Version label of the protocol token, by the heuristic the decoder
/// applies: a token holding `1.1` or `1.0` names that HTTP/1 version, a
/// token holding `2` names HTTP/2, anything else is taken as HTTP/1.1.
pub open spec fn version_label(tok: Seq<u8>) -> Seq<char> {
    if contains_seq(tok, needle_11()) {
        "http/1.1"@
    } else if contains_seq(tok, needle_10()) {
        "http/1.0"@
    } else if contains_seq(tok, needle_2()) {
        "h2"@
    } else {
        "http/1.1"@
    }
}

/// Parse of one raw status line (the bytes before the first LF): it must
/// be UTF-8, split at spaces into at least a protocol token and a
/// numeric status that fits `u16`; the rest of the line is the reason.
pub open spec fn parse_status_line_spec(line_raw: Seq<u8>) -> Result<StatusLine, Seq<char>> {
    if !valid_utf8(line_raw) {
        Err("invalid status line encoding"@)
    } else {
        let line = trim_cr_spec(line_raw);
        let parts = splitn3_spaces(line);
        if parts.len() < 2 {
            Err("invalid status line: "@ + chars_of(line))
        } else if !(is_dec_number(parts[1]) && dec_number_val(parts[1]) <= u16::MAX) {
            Err("invalid status code: "@ + chars_of(parts[1]))
        } else {
            Ok(StatusLine {
                version: version_label(parts[0]),
                status: dec_number_val(parts[1]) as u16,
                reason: if parts.len() == 3 {
                    Some(chars_of(parts[2]))
                } else {
                    None
                },
            })
        }
    }
}

/// Decodes bytes to a string, or to the empty string when they are not
/// valid UTF-8.
fn decode_or_empty(b: &[u8]) -> (r: String)
    ensures
        r@ == chars_of(b@),
{
    match bytes_to_str(b) {
        Some(s) => s.to_owned(),
        None => String::new(),
    }
}

/// Builds `prefix` followed by the decoded form of `b`.
fn msg_with_bytes(prefix: &str, b: &[u8]) -> (r: String)
    ensures
        r@ == prefix@ + chars_of(b@),
{
    let mut out = prefix.to_owned();
    let tail = decode_or_empty(b);
    out.append(tail.as_str());
    out
}

/// Renders the version label of a protocol token.
fn version_of(tok: &[u8]) -> (r: String)
    ensures
        r@ == version_label(tok@),
{
    let n11: [u8; 3] = [0x31, 0x2e, 0x31];
    let n10: [u8; 3] = [0x31, 0x2e, 0x30];
    let n2: [u8; 1] = [0x32];
    proof {
        assert(n11@ =~= needle_11());
        assert(n10@ =~= needle_10());
        assert(n2@ =~= needle_2());
    }
    if contains_bytes(tok, n11.as_slice()) {
        "http/1.1".to_owned()
    } else if contains_bytes(tok, n10.as_slice()) {
        "http/1.0".to_owned()
    } else if contains_bytes(tok, n2.as_slice()) {
        "h2".to_owned()
    } else {
        "http/1.1".to_owned()
    }
}

/// Parses one raw status line into status, reason, and version label.
fn parse_status_line(line: &[u8]) -> (r: Result<(u16, Option<String>, String), UdocError>)
    ensures
        match r {
            Ok((status, reason, version)) => parse_status_line_spec(line@) matches Ok(st)
                && st.status == status
                && st.version == version@
                && st.reason == crate::http::opt_str_view(reason),
            Err(e) => parse_status_line_spec(line@) matches Err(m)
                && e.class == ErrorClass::Http
                && e.message@ == m,
        },
{
    if bytes_to_str(line).is_none() {
        return Err(UdocError::http("invalid status line encoding".to_owned()));
    }
    let t = trim_cr(line);
    let tlen = t.len();
    let space1 = match find_byte(t, 0x20) {
        Some(i) => i,
        None => {
            proof {
                assert(splitn3_spaces(t@) =~= seq![t@]);
            }
            return Err(UdocError::http(msg_with_bytes("invalid status line: ", t)));
        },
    };
    let tok = &t[0..space1];
    let after = &t[space1 + 1..tlen];
    let alen = after.len();
    let (sb, reason_b): (&[u8], Option<&[u8]>) = match find_byte(after, 0x20) {
        None => (after, None),
        Some(j) => (&after[0..j], Some(&after[j + 1..alen])),
    };
    proof {
        assert(after@ =~= t@.skip(space1 as int + 1));
        let parts = splitn3_spaces(t@);
        match find_from(after@, 0x20, 0) {
            None => {
                assert(parts =~= seq![t@.take(space1 as int), after@]);
            },
            Some(j) => {
                assert(parts =~= seq![t@.take(space1 as int), after@.take(j), after@.skip(j + 1)]);
            },
        }
        assert(parts[0] == tok@);
        assert(parts[1] == sb@);
    }
    let status = match parse_u16_bytes(sb) {
        Some(v) => v,
        None => {
            return Err(UdocError::http(msg_with_bytes("invalid status code: ", sb)));
        },
    };
    let version = version_of(tok);
    let reason: Option<String> = match reason_b {
        Some(rb) => Some(decode_or_empty(rb)),
        None => None,
    };
    Ok((status, reason, version))
}

// ---------------------------------------------------------------------------
// Header lines
// ---------------------------------------------------------------------------

pub open spec fn key_location() -> Seq<u8> {
    seq![0x6cu8, 0x6f, 0x63, 0x61, 0x74, 0x69, 0x6f, 0x6e]
}

pub open spec fn key_server() -> Seq<u8> {
    seq![0x73u8, 0x65, 0x72, 0x76, 0x65, 0x72]
}

pub open spec fn key_content_type() -> Seq<u8> {
    seq![0x63u8, 0x6f, 0x6e, 0x74, 0x65, 0x6e, 0x74, 0x2d, 0x74, 0x79, 0x70, 0x65]
}

pub open spec fn key_content_length() -> Seq<u8> {
    seq![0x63u8, 0x6f, 0x6e, 0x74, 0x65, 0x6e, 0x74, 0x2d, 0x6c, 0x65, 0x6e, 0x67, 0x74, 0x68]
}

pub open spec fn key_transfer_encoding() -> Seq<u8> {
    seq![0x74u8, 0x72, 0x61, 0x6e, 0x73, 0x66, 0x65, 0x72, 0x2d, 0x65, 0x6e, 0x63, 0x6f, 0x64, 0x69, 0x6e, 0x67]
}

/// `Content-Length` as retained: the value parsed as `u64`, or absent
/// when it does not parse.
pub open spec fn content_len_of(v: Seq<u8>) -> Option<u64> {
    if is_dec_number(v) && dec_number_val(v) <= u64::MAX {
        Some(dec_number_val(v) as u64)
    } else {
        None
    }
}

/// Effect of one raw header line on the retained headers: a line that is
/// not UTF-8, is empty after stripping trailing CRs, or has no colon is
/// dropped; otherwise the key is trimmed and ASCII-folded and one of the
/// five known keys updates its field, the value trimmed, and folded too
/// for `Transfer-Encoding`.
pub open spec fn header_update(m: HeadersModel, line_raw: Seq<u8>) -> HeadersModel {
    if !valid_utf8(line_raw) {
        m
    } else {
        let l = trim_cr_spec(line_raw);
        if l.len() == 0 {
            m
        } else {
            match find_from(l, 0x3a, 0) {
                None => m,
                Some(i) => {
                    let key = lower_bytes_spec(trim_spec(l.take(i)));
                    let value = trim_spec(l.skip(i + 1));
                    if key == key_location() {
                        HeadersModel { location: Some(chars_of(value)), ..m }
                    } else if key == key_server() {
                        HeadersModel { server: Some(chars_of(value)), ..m }
                    } else if key == key_content_type() {
                        HeadersModel { content_type: Some(chars_of(value)), ..m }
                    } else if key == key_content_length() {
                        HeadersModel { content_length: content_len_of(value), ..m }
                    } else if key == key_transfer_encoding() {
                        HeadersModel { transfer_encoding: Some(chars_of(lower_bytes_spec(value))), ..m }
                    } else {
                        m
                    }
                },
            }
        }
    }
}

/// Folds `header_update` over the header lines in order.
pub open spec fn apply_lines(m: HeadersModel, lines: Seq<Seq<u8>>) -> HeadersModel
    decreases lines.len(),
{
    if lines.len() == 0 {
        m
    } else {
        apply_lines(header_update(m, lines[0]), lines.drop_first())
    }
}

/// Applies one raw header line to the retained headers.
fn header_update_exec(h: ResponseHeaders, line: &[u8]) -> (r: ResponseHeaders)
    ensures
        r@ == header_update(h@, line@),
{
    if bytes_to_str(line).is_none() {
        return h;
    }
    let t = trim_cr(line);
    if t.len() == 0 {
        return h;
    }
    let tlen = t.len();
    let ci = match find_byte(t, 0x3a) {
        None => {
            return h;
        },
        Some(i) => i,
    };
    let key_raw = &t[0..ci];
    let val_raw = &t[ci + 1..tlen];
    proof {
        assert(key_raw@ == t@.take(ci as int));
        assert(val_raw@ =~= t@.skip(ci as int + 1));
    }
    let keyl = lower_bytes(trim_bytes(key_raw));
    let k: &[u8] = keyl.as_slice();
    let value = trim_bytes(val_raw);
    let kloc: [u8; 8] = [0x6c, 0x6f, 0x63, 0x61, 0x74, 0x69, 0x6f, 0x6e];
    let ksrv: [u8; 6] = [0x73, 0x65, 0x72, 0x76, 0x65, 0x72];
    let kct: [u8; 12] = [0x63, 0x6f, 0x6e, 0x74, 0x65, 0x6e, 0x74, 0x2d, 0x74, 0x79, 0x70, 0x65];
    let kcl: [u8; 14] = [0x63, 0x6f, 0x6e, 0x74, 0x65, 0x6e, 0x74, 0x2d, 0x6c, 0x65, 0x6e, 0x67, 0x74, 0x68];
    let kte: [u8; 17] = [0x74, 0x72, 0x61, 0x6e, 0x73, 0x66, 0x65, 0x72, 0x2d, 0x65, 0x6e, 0x63, 0x6f, 0x64, 0x69, 0x6e, 0x67];
    proof {
        assert(kloc@ =~= key_location());
        assert(ksrv@ =~= key_server());
        assert(kct@ =~= key_content_type());
        assert(kcl@ =~= key_content_length());
        assert(kte@ =~= key_transfer_encoding());
    }
    if bytes_eq(k, kloc.as_slice()) {
        ResponseHeaders { location: Some(decode_or_empty(value)), ..h }
    } else if bytes_eq(k, ksrv.as_slice()) {
        ResponseHeaders { server: Some(decode_or_empty(value)), ..h }
    } else if bytes_eq(k, kct.as_slice()) {
        ResponseHeaders { content_type: Some(decode_or_empty(value)), ..h }
    } else if bytes_eq(k, kcl.as_slice()) {
        ResponseHeaders { content_length: parse_u64_bytes(value), ..h }
    } else if bytes_eq(k, kte.as_slice()) {
        let lv = lower_bytes(value);
        ResponseHeaders { transfer_encoding: Some(decode_or_empty(lv.as_slice())), ..h }
    } else {
        h
    }
}

/// Applies every line of `d` (split at LF) to the retained headers.
fn apply_lines_exec(h: ResponseHeaders, d: &[u8]) -> (r: ResponseHeaders)
    ensures
        r@ == apply_lines(h@, split_on(d@, 10)),
    decreases d@.len(),
{
    let dlen = d.len();
    match find_byte(d, 10) {
        None => {
            let r = header_update_exec(h, d);
            proof {
                assert(split_on(d@, 10) =~= seq![d@]);
                let lines = seq![d@];
                assert(lines[0] == d@);
                assert(apply_lines(h@, lines)
                    == apply_lines(header_update(h@, d@), lines.drop_first()));
                assert(lines.drop_first() =~= Seq::<Seq<u8>>::empty());
                assert(apply_lines(header_update(h@, d@), Seq::<Seq<u8>>::empty())
                    == header_update(h@, d@));
            }
            r
        },
        Some(i) => {
            proof {
                lemma_find_from_char(d@, 10, 0);
            }
            let line = &d[0..i];
            let rest = &d[i + 1..dlen];
            let h2 = header_update_exec(h, line);
            let r = apply_lines_exec(h2, rest);
            proof {
                let lines = split_on(d@, 10);
                assert(rest@ =~= d@.skip(i as int + 1));
                assert(lines =~= seq![d@.take(i as int)] + split_on(d@.skip(i as int + 1), 10));
                assert(lines.len() > 0);
                assert(lines[0] == line@);
                assert(lines.drop_first() =~= split_on(rest@, 10));
                assert(apply_lines(h@, lines)
                    == apply_lines(header_update(h@, line@), lines.drop_first()));
            }
            r
        },
    }
}

// ---------------------------------------------------------------------------
// One header block
// ---------------------------------------------------------------------------

/// Parse of one header block (the bytes before the terminator): the
/// first LF-separated line is the status line, every later line feeds
/// the retained headers.
pub open spec fn parse_block_spec(block: Seq<u8>) -> Result<(StatusLine, HeadersModel), Seq<char>> {
    let lines = split_on(block, 10);
    match parse_status_line_spec(lines[0]) {
        Err(e) => Err(e),
        Ok(st) => Ok((st, apply_lines(crate::http::empty_headers(), lines.drop_first()))),
    }
}

/// How an executable result relates to the block model: on success the
/// summary carries the parsed status line and the given protocol label,
/// on failure the error is HTTP-classified with the model's message.
pub open spec fn headers_result_matches(
    r: Result<(HttpSummary, ResponseHeaders), UdocError>,
    spec_res: Result<(StatusLine, HeadersModel), Seq<char>>,
    proto: Seq<char>,
) -> bool {
    match r {
        Ok((sm, hd)) => {
            &&& spec_res matches Ok(p)
            &&& sm.status == p.0.status
            &&& sm.version@ == p.0.version
            &&& crate::http::opt_str_view(sm.reason) == p.0.reason
            &&& sm.proto@ == proto
            &&& hd@ == p.1
        },
        Err(e) => {
            &&& spec_res matches Err(m)
            &&& e.class == ErrorClass::Http
            &&& e.message@ == m
        },
    }
}

/// Parses one header block into a status summary (tagged with the given
/// protocol label) and the retained headers.
pub fn parse_headers(header_bytes: &[u8], proto: &str) -> (r: Result<(HttpSummary, ResponseHeaders), UdocError>)
    ensures
        headers_result_matches(r, parse_block_spec(header_bytes@), proto@),
{
    let hblen = header_bytes.len();
    let (first, rest): (&[u8], Option<&[u8]>) = match find_byte(header_bytes, 10) {
        Some(i) => {
            proof {
                lemma_find_from_char(header_bytes@, 10, 0);
            }
            (&header_bytes[0..i], Some(&header_bytes[i + 1..hblen]))
        },
        None => (header_bytes, None),
    };
    proof {
        let lines = split_on(header_bytes@, 10);
        match find_from(header_bytes@, 10, 0) {
            Some(i) => {
                assert(lines =~= seq![header_bytes@.take(i)] + split_on(header_bytes@.skip(i + 1), 10));
                assert(lines[0] == first@);
            },
            None => {
                assert(lines =~= seq![header_bytes@]);
            },
        }
    }
    let (status, reason, version) = match parse_status_line(first) {
        Ok(v) => v,
        Err(e) => {
            return Err(e);
        },
    };
    let hd = match rest {
        Some(rb) => {
            proof {
                let lines = split_on(header_bytes@, 10);
                assert(rb@ =~= header_bytes@.skip(find_from(header_bytes@, 10, 0)->Some_0 + 1));
                assert(lines.drop_first() =~= split_on(rb@, 10));
            }
            apply_lines_exec(ResponseHeaders::default(), rb)
        },
        None => {
            proof {
                let lines = split_on(header_bytes@, 10);
                assert(lines.drop_first() =~= Seq::<Seq<u8>>::empty());
            }
            ResponseHeaders::default()
        },
    };
    let sm = HttpSummary::new(status, reason, version, proto.to_owned());
    Ok((sm, hd))
}

// ---------------------------------------------------------------------------
// Skipping informational responses
// ---------------------------------------------------------------------------

/// Decode of a buffer that may open with informational (1xx) header
/// blocks: each complete block whose status is 1xx is discarded and the
/// scan continues behind it; the first other block is the definitive
/// response, and the returned offset is where its body begins. A buffer
/// with no terminator, or a block that does not parse, fails.
pub open spec fn parse_skip_spec(d: Seq<u8>) -> Result<(StatusLine, HeadersModel, int), Seq<char>>
    decreases d.len(),
    via parse_skip_decreases
{
    match header_end_spec(d) {
        None => Err("incomplete HTTP response"@),
        Some(he) => match parse_block_spec(d.take(he)) {
            Err(e) => Err(e),
            Ok((st, hm)) => {
                if 100 <= st.status < 200 {
                    match parse_skip_spec(d.skip(he + 4)) {
                        Err(e) => Err(e),
                        Ok((st2, hm2, off)) => Ok((st2, hm2, he + 4 + off)),
                    }
                } else {
                    Ok((st, hm, he + 4))
                }
            },
        },
    }
}

#[via_fn]
proof fn parse_skip_decreases(d: Seq<u8>) {
    lemma_header_end_char(d, 0);
}

pub proof fn lemma_parse_skip_offset(d: Seq<u8>)
    ensures
        parse_skip_spec(d) matches Ok(p) ==> 4 <= p.2 <= d.len(),
    decreases d.len(),
{
    lemma_header_end_char(d, 0);
    if parse_skip_spec(d) is Ok {
        let he = header_end_spec(d)->Some_0;
        match parse_block_spec(d.take(he)) {
            Ok(p) => {
                if 100 <= p.0.status < 200 {
                    lemma_parse_skip_offset(d.skip(he + 4));
                }
            },
            Err(_) => {},
        }
    }
}

/// Skips any 1xx header blocks and parses the definitive response's
/// status line and headers; the returned offset is where its body begins.
pub fn parse_response_with_1xx_skip(data: &[u8], proto: &str) -> (r: Result<(HttpSummary, ResponseHeaders, usize), UdocError>)
    ensures
        match r {
            Ok((sm, hd, body_start)) => {
                &&& parse_skip_spec(data@) matches Ok(p)
                &&& sm.status == p.0.status
                &&& sm.version@ == p.0.version
                &&& crate::http::opt_str_view(sm.reason) == p.0.reason
                &&& sm.proto@ == proto@
                &&& hd@ == p.1
                &&& body_start == p.2
                &&& body_start <= data@.len()
            },
            Err(e) => {
                &&& parse_skip_spec(data@) matches Err(m)
                &&& e.class == ErrorClass::Http
                &&& e.message@ == m
            },
        },
{
    let dlen = data.len();
    let mut offset: usize = 0;
    proof {
        assert(data@.skip(0) =~= data@);
    }
    loop
        invariant
            0 <= offset <= dlen,
            dlen == data@.len(),
            (match parse_skip_spec(data@.skip(offset as int)) {
                Ok(p) => parse_skip_spec(data@) == Ok::<(StatusLine, HeadersModel, int), Seq<char>>(
                    (p.0, p.1, p.2 + offset)),
                Err(m) => parse_skip_spec(data@) == Err::<(StatusLine, HeadersModel, int), Seq<char>>(m),
            }),
        decreases dlen - offset,
    {
        let rem = &data[offset..dlen];
        let he = match find_header_end(rem) {
            None => {
                return Err(UdocError::http("incomplete HTTP response".to_owned()));
            },
            Some(he) => he,
        };
        let block = &rem[0..he];
        match parse_headers(block, proto) {
            Err(e) => {
                return Err(e);
            },
            Ok((sm, hd)) => {
                proof {
                    assert(block@ == rem@.take(he as int));
                }
                if sm.status >= 100 && sm.status < 200 {
                    proof {
                        assert(rem@.skip(he + 4) =~= data@.skip(offset + he + 4));
                    }
                    offset = offset + he + 4;
                } else {
                    proof {
                        lemma_parse_skip_offset(data@.skip(offset as int));
                    }
                    return Ok((sm, hd, offset + he + 4));
                }
            },
        }
    }
}

// ---------------------------------------------------------------------------
// Chunked bodies
// ---------------------------------------------------------------------------

/// The part of a size line before any chunk extension.
pub open spec fn before_semi(s: Seq<u8>) -> Seq<u8> {
    match find_from(s, 0x3b, 0) {
        None => s,
        Some(i) => s.take(i),
    }
}

/// Declared size of one chunk-size line: trailing CRs stripped, any
/// extension after a semicolon dropped, the rest read as hex. A line
/// that is not UTF-8, not hex, or too large counts as zero, which ends
/// the decode; this is deliberately lenient.
pub open spec fn chunk_size_of(line: Seq<u8>) -> int {
    if !valid_utf8(line) {
        0
    } else {
        let t = before_semi(trim_cr_spec(line));
        if is_hex_number(t) && hex_number_val(t) <= usize::MAX {
            hex_number_val(t)
        } else {
            0
        }
    }
}

/// Reads one chunk-size line.
fn chunk_size_exec(line: &[u8]) -> (r: usize)
    ensures
        r == chunk_size_of(line@),
{
    if bytes_to_str(line).is_none() {
        return 0;
    }
    let t = trim_cr(line);
    let t2: &[u8] = match find_byte(t, 0x3b) {
        None => t,
        Some(i) => &t[0..i],
    };
    match parse_hex_usize(t2) {
        Some(v) => v,
        None => 0,
    }
}

/// Chunked decode under a byte budget: read a size line, stop at a zero
/// or malformed size, copy up to the smaller of the declared size and
/// the remaining budget, skip the chunk's trailing CRLF, repeat.
pub open spec fn chunked_decode_spec(d: Seq<u8>, budget: int) -> Seq<u8>
    decreases d.len(),
    via chunked_decode_decreases
{
    if d.len() == 0 || budget <= 0 {
        Seq::empty()
    } else {
        match find_from(d, 10, 0) {
            None => Seq::empty(),
            Some(le) => {
                let size = chunk_size_of(d.take(le));
                if size <= 0 {
                    Seq::empty()
                } else {
                    let rest = d.skip(le + 1);
                    let n = if size <= rest.len() { size } else { rest.len() as int };
                    let taken = if budget <= n { budget } else { n };
                    let next = if n + 2 <= rest.len() { rest.skip(n + 2) } else { Seq::empty() };
                    rest.take(taken) + chunked_decode_spec(next, budget - taken)
                }
            },
        }
    }
}

#[via_fn]
proof fn chunked_decode_decreases(d: Seq<u8>, budget: int) {
    lemma_find_from_char(d, 10, 0);
}

/// Decodes a chunked body into a preview of at most `limit` bytes.
pub fn decode_chunked_preview(data: &[u8], limit: usize) -> (r: Vec<u8>)
    ensures
        r@ == chunked_decode_spec(data@, limit as int),
{
    let dlen = data.len();
    let mut acc: Vec<u8> = Vec::new();
    let mut pos: usize = 0;
    proof {
        assert(data@.skip(0) =~= data@);
    }
    loop
        invariant
            0 <= pos <= dlen,
            dlen == data@.len(),
            acc@.len() <= limit,
            chunked_decode_spec(data@, limit as int)
                == acc@ + chunked_decode_spec(data@.skip(pos as int), limit - acc@.len()),
        decreases dlen - pos,
    {
        if pos >= dlen || acc.len() >= limit {
            proof {
                assert(chunked_decode_spec(data@.skip(pos as int), limit - acc@.len())
                    =~= Seq::<u8>::empty());
                assert(acc@ =~= acc@ + Seq::<u8>::empty());
            }
            return acc;
        }
        let rem = &data[pos..dlen];
        let le = match find_byte(rem, 10) {
            None => {
                proof {
                    assert(acc@ =~= acc@ + Seq::<u8>::empty());
                }
                return acc;
            },
            Some(le) => le,
        };
        let size = chunk_size_exec(&rem[0..le]);
        if size == 0 {
            proof {
                assert(acc@ =~= acc@ + Seq::<u8>::empty());
            }
            return acc;
        }
        let start: usize = pos + le + 1;
        let avail: usize = dlen - start;
        let n: usize = if size <= avail { size } else { avail };
        let room: usize = limit - acc.len();
        let taken: usize = if room <= n { room } else { n };
        let ghost acc0 = acc@;
        let mut j: usize = 0;
        while j < taken
            invariant
                0 <= j <= taken,
                start + taken <= dlen,
                dlen == data@.len(),
                acc@ == acc0 + data@.subrange(start as int, start + j),
            decreases taken - j,
        {
            acc.push(data[start + j]);
            proof {
                assert(data@.subrange(start as int, start + j + 1)
                    =~= data@.subrange(start as int, start + j).push(data@[start + j]));
            }
            j += 1;
        }
        let newpos: usize = if avail - n >= 2 { start + n + 2 } else { dlen };
        proof {
            let dsk = data@.skip(pos as int);
            let budget = limit - acc0.len();
            assert(rem@ == dsk);
            assert(rem@.take(le as int) == dsk.take(le as int));
            let rest = dsk.skip(le as int + 1);
            assert(rest =~= data@.skip(start as int));
            assert(rest.len() == avail);
            assert(n == (if (size as int) <= rest.len() { size as int } else { rest.len() as int }));
            assert(taken == (if budget <= n as int { budget } else { n as int }));
            assert(rest.take(taken as int) =~= data@.subrange(start as int, start + taken));
            let next = if n + 2 <= rest.len() { rest.skip(n as int + 2) } else { Seq::<u8>::empty() };
            assert(next =~= data@.skip(newpos as int));
            assert(chunked_decode_spec(dsk, budget)
                == rest.take(taken as int) + chunked_decode_spec(next, budget - taken));
            assert(acc@ =~= acc0 + data@.subrange(start as int, start + taken));
            assert(acc@ + chunked_decode_spec(data@.skip(newpos as int), limit - acc@.len())
                =~= acc0 + chunked_decode_spec(dsk, budget));
        }
        pos = newpos;
    }
}

// ---------------------------------------------------------------------------
// Chunked encoding, and the decode round trip
// ---------------------------------------------------------------------------

pub open spec fn hex_digit_byte(d: int) -> u8 {
    if d < 10 {
        (0x30 + d) as u8
    } else {
        (0x61 + d - 10) as u8
    }
}

/// Lowercase hex digit bytes of a non-negative integer, no leading zeros.
pub open spec fn hex_bytes(n: int) -> Seq<u8>
    decreases n,
{
    if n < 16 {
        seq![hex_digit_byte(n)]
    } else {
        hex_bytes(n / 16) + seq![hex_digit_byte(n % 16)]
    }
}

pub open spec fn crlf() -> Seq<u8> {
    seq![13u8, 10u8]
}

/// The trailer that ends a chunked body: a zero-size line and the blank
/// line after it.
pub open spec fn chunk_trailer() -> Seq<u8> {
    seq![0x30u8, 13, 10, 13, 10]
}

/// A body encoded as chunks of at most `cs` bytes each: every chunk is a
/// hex size line, the data, and a CRLF; a zero-size chunk ends the body.
pub open spec fn chunked_encode_spec(body: Seq<u8>, cs: int) -> Seq<u8>
    decreases body.len(),
    when cs >= 1
{
    if body.len() == 0 {
        chunk_trailer()
    } else {
        let n = if cs <= body.len() { cs } else { body.len() as int };
        hex_bytes(n) + crlf() + body.take(n) + crlf() + chunked_encode_spec(body.skip(n), cs)
    }
}

fn hex_digit_byte_exec(d: usize) -> (r: u8)
    requires
        d < 16,
    ensures
        r == hex_digit_byte(d as int),
{
    if d < 10 {
        0x30 + (d as u8)
    } else {
        0x61 + (d as u8) - 10
    }
}

fn hex_bytes_exec(n: usize) -> (r: Vec<u8>)
    ensures
        r@ == hex_bytes(n as int),
    decreases n,
{
    if n < 16 {
        let mut out: Vec<u8> = Vec::new();
        out.push(hex_digit_byte_exec(n));
        proof {
            assert(out@ =~= hex_bytes(n as int));
        }
        out
    } else {
        let mut out = hex_bytes_exec(n / 16);
        out.push(hex_digit_byte_exec(n % 16));
        proof {
            assert(out@ =~= hex_bytes(n as int));
        }
        out
    }
}

/// Encodes a body as valid chunks of at most `chunk_size` bytes each.
pub fn encode_chunked(body: &[u8], chunk_size: usize) -> (r: Vec<u8>)
    requires
        chunk_size >= 1,
    ensures
        r@ == chunked_encode_spec(body@, chunk_size as int),
    decreases body@.len(),
{
    let blen = body.len();
    if blen == 0 {
        let mut out: Vec<u8> = Vec::new();
        out.push(0x30);
        out.push(13);
        out.push(10);
        out.push(13);
        out.push(10);
        proof {
            assert(out@ =~= chunk_trailer());
        }
        return out;
    }
    let n: usize = if chunk_size <= blen { chunk_size } else { blen };
    let mut out = hex_bytes_exec(n);
    out.push(13);
    out.push(10);
    let ghost mid0 = out@;
    let mut j: usize = 0;
    while j < n
        invariant
            0 <= j <= n,
            n <= body@.len(),
            out@ == mid0 + body@.subrange(0, j as int),
        decreases n - j,
    {
        out.push(body[j]);
        proof {
            assert(body@.subrange(0, j + 1) =~= body@.subrange(0, j as int).push(body@[j as int]));
        }
        j += 1;
    }
    out.push(13);
    out.push(10);
    let mut tail = encode_chunked(&body[n..blen], chunk_size);
    out.append(&mut tail);
    proof {
        assert(body@.subrange(0, n as int) =~= body@.take(n as int));
        assert(body@.subrange(n as int, blen as int) =~= body@.skip(n as int));
        assert(out@ =~= chunked_encode_spec(body@, chunk_size as int));
    }
    out
}

proof fn lemma_hex_bytes_digits(n: int)
    requires
        n >= 0,
    ensures
        hex_bytes(n).len() >= 1,
        all_hex_digits(hex_bytes(n)),
        forall|i: int| 0 <= i < hex_bytes(n).len()
            ==> (0x30 <= #[trigger] hex_bytes(n)[i] <= 0x39 || 0x61 <= hex_bytes(n)[i] <= 0x66),
        hex_number_val(hex_bytes(n)) == n,
    decreases n,
{
    if n < 16 {
        assert(hex_bytes(n) =~= seq![hex_digit_byte(n)]);
        assert(strip_plus(hex_bytes(n)) == hex_bytes(n));
        assert(hex_num(hex_bytes(n)) == hex_num(hex_bytes(n).drop_last()) * 16
            + hex_digit_val(hex_bytes(n)[0]));
        assert(hex_bytes(n).drop_last() =~= Seq::<u8>::empty());
        assert(hex_digit_val(hex_digit_byte(n)) == n);
    } else {
        lemma_hex_bytes_digits(n / 16);
        let h = hex_bytes(n);
        let p = hex_bytes(n / 16);
        assert(h == p + seq![hex_digit_byte(n % 16)]);
        assert(h.drop_last() =~= p);
        assert(h[h.len() - 1] == hex_digit_byte(n % 16));
        assert(hex_digit_val(hex_digit_byte(n % 16)) == n % 16);
        assert(strip_plus(h) == h) by {
            assert(h[0] == p[0]);
        }
        assert(strip_plus(p) == p);
        assert(hex_num(h) == hex_num(p) * 16 + (n % 16));
        assert(hex_num(p) == n / 16);
        assert((n / 16) * 16 + n % 16 == n) by (nonlinear_arith);
    }
}

proof fn lemma_ascii_valid_utf8(s: Seq<u8>)
    requires
        forall|i: int| 0 <= i < s.len() ==> #[trigger] s[i] < 0x80,
    ensures
        valid_utf8(s),
{
    assert(forall|i: int| 0 <= i < s.len() ==> is_leading_byte_width_1(#[trigger] s[i]));
    assert(s.subrange(0, 0) =~= Seq::<u8>::empty());
    assert(valid_utf8(s.subrange(0, 0)));
    partial_valid_utf8_extend_ascii_block(s, 0, s.len() as int);
    assert(s.subrange(0, s.len() as int) =~= s);
}

/// The converse of `lemma_find_from_char`: a first occurrence determines
/// the result of the search.
pub proof fn lemma_find_from_intro(d: Seq<u8>, b: u8, i: int, j: int)
    requires
        0 <= i <= j < d.len(),
        d[j] == b,
        forall|k: int| i <= k < j ==> d[k] != b,
    ensures
        find_from(d, b, i) == Some(j),
    decreases j - i,
{
    if i < j {
        lemma_find_from_intro(d, b, i + 1, j);
    }
}

proof fn lemma_find_from_none(d: Seq<u8>, b: u8, i: int)
    requires
        0 <= i,
        forall|k: int| i <= k < d.len() ==> d[k] != b,
    ensures
        find_from(d, b, i) is None,
    decreases d.len() - i,
{
    if i < d.len() {
        lemma_find_from_none(d, b, i + 1);
    }
}

/// A size line made of hex digits and one trailing CR reads back as the
/// number the digits spell.
proof fn lemma_size_line_reads_back(n: int)
    requires
        0 <= n <= usize::MAX,
    ensures
        chunk_size_of(hex_bytes(n) + seq![13u8]) == n,
{
    let h = hex_bytes(n);
    let line = h + seq![13u8];
    lemma_hex_bytes_digits(n);
    assert(forall|i: int| 0 <= i < line.len() ==> #[trigger] line[i] < 0x80);
    lemma_ascii_valid_utf8(line);
    assert(line[line.len() - 1] == 13);
    assert(line.drop_last() =~= h);
    assert(h.len() > 0 && h[h.len() - 1] != 13);
    assert(trim_cr_spec(h) == h);
    assert(trim_cr_spec(line) == h);
    assert(forall|k: int| 0 <= k < h.len() ==> h[k] != 0x3b);
    lemma_find_from_none(h, 0x3b, 0);
    assert(before_semi(h) == h);
    assert(strip_plus(h) == h);
}

/// Chunked round trip: a body encoded as valid chunks and decoded under
/// a budget comes back exactly; a budget at least the body's length
/// reproduces the body, a smaller budget truncates it to exactly that
/// many bytes.
pub proof fn lemma_chunked_round_trip(body: Seq<u8>, cs: int, budget: int)
    requires
        1 <= cs,
        0 <= budget,
        body.len() <= usize::MAX,
    ensures
        chunked_decode_spec(chunked_encode_spec(body, cs), budget)
            == if budget >= body.len() { body } else { body.take(budget) },
    decreases body.len(),
{
    let d = chunked_encode_spec(body, cs);
    if body.len() == 0 {
        assert(d == chunk_trailer());
        if budget > 0 {
            assert(d[2] == 10 && d[0] != 10 && d[1] != 10);
            lemma_find_from_intro(d, 10, 0, 2);
            assert(d.take(2) =~= hex_bytes(0) + seq![13u8]);
            lemma_size_line_reads_back(0);
            assert(chunked_decode_spec(d, budget) =~= Seq::<u8>::empty());
        }
    } else {
        let n = if cs <= body.len() { cs } else { body.len() as int };
        let tail_enc = chunked_encode_spec(body.skip(n), cs);
        assert(d == hex_bytes(n) + crlf() + body.take(n) + crlf() + tail_enc);
        let h = hex_bytes(n);
        let hl = h.len() as int;
        lemma_hex_bytes_digits(n);
        // The first LF closes the size line.
        assert(d[hl + 1] == 10);
        assert(d[hl] == 13);
        assert(forall|k: int| 0 <= k < hl ==> d[k] == h[k] && d[k] != 10);
        lemma_find_from_intro(d, 10, 0, hl + 1);
        assert(d.take(hl + 1) =~= h + seq![13u8]);
        lemma_size_line_reads_back(n);
        assert(chunk_size_of(d.take(hl + 1)) == n);
        if budget > 0 {
            let rest = d.skip(hl + 2);
            assert(rest =~= body.take(n) + crlf() + tail_enc);
            assert(rest.len() == n + 2 + tail_enc.len());
            let taken = if budget <= n { budget } else { n };
            let next = rest.skip(n + 2);
            assert(next =~= tail_enc);
            assert(chunked_decode_spec(d, budget)
                == rest.take(taken) + chunked_decode_spec(tail_enc, budget - taken));
            assert(rest.take(taken) =~= body.take(taken));
            lemma_chunked_round_trip(body.skip(n), cs, budget - taken);
            if budget >= body.len() {
                assert(taken == n);
                assert(budget - n >= body.skip(n).len());
                assert(body.take(n) + body.skip(n) =~= body);
            } else {
                if budget <= n {
                    assert(chunked_decode_spec(tail_enc, 0) == Seq::<u8>::empty());
                    assert(body.take(budget) + Seq::<u8>::empty() =~= body.take(budget));
                } else {
                    assert(budget - n < body.skip(n).len());
                    assert(body.take(n) + body.skip(n).take(budget - n) =~= body.take(budget));
                }
            }
        } else {
            assert(budget == 0);
            assert(body.take(0) =~= Seq::<u8>::empty());
        }
    }
}

// ---------------------------------------------------------------------------
// The read loop's stop test, request building, and full response decode
// ---------------------------------------------------------------------------

/// The driver may stop reading: the buffer holds a complete header block
/// and the body collected behind it already reaches the body limit.
pub open spec fn read_complete_spec(filled: Seq<u8>, body_limit: int) -> bool {
    match header_end_spec(filled) {
        Some(he) => filled.len() - (he + 4) >= body_limit,
        None => false,
    }
}

/// Decides whether the response read loop may stop before EOF.
pub fn read_complete(filled: &[u8], body_limit: usize) -> (r: bool)
    ensures
        r == read_complete_spec(filled@, body_limit as int),
{
    match find_header_end(filled) {
        Some(pos) => filled.len() - (pos + 4) >= body_limit,
        None => false,
    }
}

/// The Host header value: the bare host when the port is the scheme's
/// default, otherwise `host:port`.
pub open spec fn host_header_spec(host: Seq<char>, port: u16, is_https: bool) -> Seq<char> {
    if (is_https && port == 443) || (!is_https && port == 80) {
        host
    } else {
        host + ":"@ + crate::strutil::dec_str(port as int)
    }
}

pub fn host_header_for(host: &str, port: u16, is_https: bool) -> (r: String)
    ensures
        r@ == host_header_spec(host@, port, is_https),
{
    if (is_https && port == 443) || (!is_https && port == 80) {
        host.to_owned()
    } else {
        let mut out = host.to_owned();
        out.append(":");
        let p = crate::strutil::u64_to_dec(port as u64);
        out.append(p.as_str());
        out
    }
}

/// The single HTTP/1.1 request that is sent: one request line, a Host
/// header, and fixed connection headers.
pub open spec fn h1_request_spec(method: Seq<char>, path: Seq<char>, host_header: Seq<char>) -> Seq<char> {
    method + " "@ + path
        + " HTTP/1.1\r\nHost: "@ + host_header
        + "\r\nConnection: close\r\nUser-Agent: udoc/0.2\r\nAccept: */*\r\n\r\n"@
}

pub fn build_h1_request(method: &str, path: &str, host_header: &str) -> (r: String)
    ensures
        r@ == h1_request_spec(method@, path@, host_header@),
{
    let mut out = method.to_owned();
    out.append(" ");
    out.append(path);
    out.append(" HTTP/1.1\r\nHost: ");
    out.append(host_header);
    out.append("\r\nConnection: close\r\nUser-Agent: udoc/0.2\r\nAccept: */*\r\n\r\n");
    proof {
        assert(out@ =~= h1_request_spec(method@, path@, host_header@));
    }
    out
}

/// The protocol label a response is tagged with.
pub open spec fn proto_label(is_https: bool) -> Seq<char> {
    if is_https { "HTTPS"@ } else { "HTTP"@ }
}

/// The body preview of a decoded response: the bytes behind the header
/// terminator, chunk-decoded when the transfer encoding says `chunked`,
/// flat otherwise, and capped at the body limit either way.
pub open spec fn body_preview_spec(d: Seq<u8>, body_start: int, te: Option<Seq<char>>, limit: int) -> Seq<u8> {
    if body_start < d.len() {
        let raw = d.skip(body_start);
        if (match te {
            Some(t) => crate::strutil::contains_chars(t, "chunked"@),
            None => false,
        }) {
            chunked_decode_spec(raw, limit)
        } else {
            raw.take(if raw.len() <= limit { raw.len() as int } else { limit })
        }
    } else {
        Seq::empty()
    }
}

/// Decodes one buffered HTTP/1.x response: 1xx blocks skipped, status
/// line and headers parsed, and the body preview extracted under the
/// byte limit. Never returns a partial result beside an error.
pub fn decode_h1_response(buffer: &[u8], is_https: bool, body_limit: usize) -> (r: Result<(HttpSummary, ResponseHeaders, Vec<u8>), UdocError>)
    ensures
        match r {
            Ok((sm, hd, body)) => {
                &&& parse_skip_spec(buffer@) matches Ok(p)
                &&& sm.status == p.0.status
                &&& sm.version@ == p.0.version
                &&& crate::http::opt_str_view(sm.reason) == p.0.reason
                &&& sm.proto@ == proto_label(is_https)
                &&& hd@ == p.1
                &&& body@ == body_preview_spec(buffer@, p.2, p.1.transfer_encoding, body_limit as int)
            },
            Err(e) => {
                &&& parse_skip_spec(buffer@) matches Err(m)
                &&& e.class == ErrorClass::Http
                &&& e.message@ == m
            },
        },
{
    let proto: &str = if is_https { "HTTPS" } else { "HTTP" };
    let (sm, hd, body_start) = match parse_response_with_1xx_skip(buffer, proto) {
        Ok(v) => v,
        Err(e) => {
            return Err(e);
        },
    };
    let blen = buffer.len();
    let body: Vec<u8> = if body_start < blen {
        let raw = &buffer[body_start..blen];
        let chunked = match &hd.transfer_encoding {
            Some(t) => crate::strutil::str_contains(t.as_str(), "chunked"),
            None => false,
        };
        if chunked {
            decode_chunked_preview(raw, body_limit)
        } else {
            let cap: usize = if raw.len() <= body_limit { raw.len() } else { body_limit };
            let flat = vstd::slice::slice_to_vec(&raw[0..cap]);
            proof {
                assert(flat@ =~= body_preview_spec(buffer@, body_start as int,
                    hd@.transfer_encoding, body_limit as int));
            }
            flat
        }
    } else {
        Vec::new()
    };
    Ok((sm, hd, body))
}

// ---------------------------------------------------------------------------
// HTTP/2 response helpers
// ---------------------------------------------------------------------------

/// Effect of one already-lowercased HTTP/2 header on the retained set.
/// Unlike the HTTP/1 path, nothing is trimmed or folded here: the engine
/// hands names in lowercase already.
pub open spec fn h2_header_update(m: HeadersModel, name: Seq<char>, value: Seq<char>) -> HeadersModel {
    if name == "location"@ {
        HeadersModel { location: Some(value), ..m }
    } else if name == "server"@ {
        HeadersModel { server: Some(value), ..m }
    } else if name == "content-type"@ {
        HeadersModel { content_type: Some(value), ..m }
    } else if name == "content-length"@ {
        HeadersModel { content_length: crate::strutil::dec_chars_val(value), ..m }
    } else if name == "transfer-encoding"@ {
        HeadersModel { transfer_encoding: Some(value), ..m }
    } else {
        m
    }
}

/// Applies one HTTP/2 response header to the retained headers.
pub fn store_h2_header(h: ResponseHeaders, name: &str, value: &str) -> (r: ResponseHeaders)
    ensures
        r@ == h2_header_update(h@, name@, value@),
{
    if str_eq(name, "location") {
        ResponseHeaders { location: Some(value.to_owned()), ..h }
    } else if str_eq(name, "server") {
        ResponseHeaders { server: Some(value.to_owned()), ..h }
    } else if str_eq(name, "content-type") {
        ResponseHeaders { content_type: Some(value.to_owned()), ..h }
    } else if str_eq(name, "content-length") {
        ResponseHeaders { content_length: crate::strutil::parse_u64_str(value), ..h }
    } else if str_eq(name, "transfer-encoding") {
        ResponseHeaders { transfer_encoding: Some(value.to_owned()), ..h }
    } else {
        h
    }
}

/// Appends one response data frame to the bounded body preview: at most
/// `limit - preview.len()` bytes of it are kept.
pub fn append_body_chunk(preview: &mut Vec<u8>, chunk: &[u8], limit: usize)
    requires
        old(preview)@.len() <= limit,
    ensures
        final(preview)@ == old(preview)@ + chunk@.take(
            if chunk@.len() <= limit - old(preview)@.len() {
                chunk@.len() as int
            } else {
                limit - old(preview)@.len()
            }),
        final(preview)@.len() <= limit,
{
    let room: usize = limit - preview.len();
    let keep: usize = if chunk.len() <= room { chunk.len() } else { room };
    let ghost p0 = preview@;
    let mut j: usize = 0;
    while j < keep
        invariant
            0 <= j <= keep,
            keep <= chunk@.len(),
            preview@ == p0 + chunk@.subrange(0, j as int),
        decreases keep - j,
    {
        preview.push(chunk[j]);
        proof {
            assert(chunk@.subrange(0, j + 1)
                =~= chunk@.subrange(0, j as int).push(chunk@[j as int]));
        }
        j += 1;
    }
    proof {
        assert(chunk@.subrange(0, keep as int) =~= chunk@.take(keep as int));
    }
}

// ---------------------------------------------------------------------------
// Informational blocks are transparent
// ---------------------------------------------------------------------------

/// One complete informational header block: its terminator stands
/// exactly at its end, and its status line parses to a 1xx status.
pub open spec fn is_info_block(block: Seq<u8>) -> bool {
    &&& block.len() >= 4
    &&& header_end_spec(block) == Some(block.len() - 4)
    &&& (match parse_block_spec(block.take(block.len() - 4)) {
        Ok(p) => 100 <= p.0.status < 200,
        Err(_) => false,
    })
}

/// Informational responses are fully skipped: a buffer that opens with a
/// 1xx header block decodes exactly as the buffer behind that block
/// does, with the body offset moved past it. Iterating this lemma shows
/// that any number of 1xx blocks before the definitive response leave
/// only the definitive response's status, headers and body.
pub proof fn lemma_info_block_skipped(block: Seq<u8>, rest: Seq<u8>)
    requires
        is_info_block(block),
    ensures
        parse_skip_spec(block + rest) == (match parse_skip_spec(rest) {
            Ok(p) => Ok::<(StatusLine, HeadersModel, int), Seq<char>>(
                (p.0, p.1, p.2 + block.len())),
            Err(m) => Err::<(StatusLine, HeadersModel, int), Seq<char>>(m),
        }),
{
    let d = block + rest;
    let bl = block.len() as int;
    lemma_header_end_char(block, 0);
    assert(crlfcrlf_at(block, bl - 4));
    assert(crlfcrlf_at(d, bl - 4));
    assert forall|k: int| 0 <= k < bl - 4 implies !crlfcrlf_at(d, k) by {
        if crlfcrlf_at(d, k) {
            assert(d[k] == block[k] && d[k + 1] == block[k + 1]
                && d[k + 2] == block[k + 2] && d[k + 3] == block[k + 3]);
            assert(crlfcrlf_at(block, k));
        }
    }
    lemma_header_end_intro(d, 0, bl - 4);
    assert(d.take(bl - 4) =~= block.take(bl - 4));
    assert(d.skip(bl) =~= rest);
}

} // verus!
