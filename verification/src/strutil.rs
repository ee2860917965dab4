//! Byte- and string-level utilities shared by the wire decoder and the
//! report model: decimal and hex conversion, ASCII case folding and
//! trimming, and UTF-8 decoding at the boundary to `String`.
use vstd::prelude::*;
use vstd::utf8::{valid_utf8, decode_utf8};
use vstd::utf8::encode_utf8_decode_utf8;
use vstd::string::StringSliceAdditionalSpecFns;

verus! {

// ---------------------------------------------------------------------------
// Characters and digits
// ---------------------------------------------------------------------------

pub open spec fn digit_char(d: int) -> char {
    if d == 0 { '0' } else if d == 1 { '1' } else if d == 2 { '2' }
    else if d == 3 { '3' } else if d == 4 { '4' } else if d == 5 { '5' }
    else if d == 6 { '6' } else if d == 7 { '7' } else if d == 8 { '8' }
    else { '9' }
}

/// Decimal digit sequence of a non-negative integer, no leading zeros.
pub open spec fn dec_str(n: int) -> Seq<char>
    decreases n,
{
    if n < 10 {
        seq![digit_char(n)]
    } else {
        dec_str(n / 10) + seq![digit_char(n % 10)]
    }
}

/// Decimal digit sequence of an integer, with a minus sign when negative.
pub open spec fn int_str(n: int) -> Seq<char> {
    if n < 0 {
        seq!['-'] + dec_str(-n)
    } else {
        dec_str(n)
    }
}

/// One decimal digit as a string slice.
pub fn digit_str_of(d: u64) -> (r: &'static str)
    requires
        d < 10,
    ensures
        r@ == seq![digit_char(d as int)],
{
    proof {
        reveal_strlit("0"); reveal_strlit("1"); reveal_strlit("2");
        reveal_strlit("3"); reveal_strlit("4"); reveal_strlit("5");
        reveal_strlit("6"); reveal_strlit("7"); reveal_strlit("8");
        reveal_strlit("9");
    }
    let r: &'static str = match d {
        0 => "0",
        1 => "1",
        2 => "2",
        3 => "3",
        4 => "4",
        5 => "5",
        6 => "6",
        7 => "7",
        8 => "8",
        _ => "9",
    };
    proof {
        assert(r@ =~= seq![digit_char(d as int)]);
    }
    r
}

/// Renders a `u64` in decimal.
pub fn u64_to_dec(n: u64) -> (r: String)
    ensures
        r@ == dec_str(n as int),
    decreases n,
{
    if n < 10 {
        digit_str_of(n).to_owned()
    } else {
        let mut head = u64_to_dec(n / 10);
        head.append(digit_str_of(n % 10));
        head
    }
}

/// Renders a `usize` in decimal.
pub fn usize_to_dec(n: usize) -> (r: String)
    ensures
        r@ == dec_str(n as int),
{
    u64_to_dec(n as u64)
}

/// Renders an `i64` in decimal, with a leading minus sign when negative.
pub fn i64_to_dec(n: i64) -> (r: String)
    ensures
        r@ == int_str(n as int),
{
    if n >= 0 {
        u64_to_dec(n as u64)
    } else {
        let mag: u64 = if n == i64::MIN {
            9223372036854775808u64
        } else {
            (-n) as u64
        };
        proof {
            assert(mag == -(n as int));
        }
        let mut r = String::new();
        r.append("-");
        let digits = u64_to_dec(mag);
        r.append(digits.as_str());
        proof {
            reveal_strlit("-");
            assert(r@ =~= int_str(n as int));
        }
        r
    }
}

// ---------------------------------------------------------------------------
// Equality of strings and byte slices
// ---------------------------------------------------------------------------

/// Byte-slice equality, element for element.
pub fn bytes_eq(a: &[u8], b: &[u8]) -> (r: bool)
    ensures
        r == (a@ == b@),
{
    if a.len() != b.len() {
        return false;
    }
    let mut i: usize = 0;
    while i < a.len()
        invariant
            0 <= i <= a@.len(),
            a@.len() == b@.len(),
            forall|j: int| 0 <= j < i ==> a@[j] == b@[j],
        decreases a@.len() - i,
    {
        if a[i] != b[i] {
            return false;
        }
        i += 1;
    }
    proof {
        assert(a@ =~= b@);
    }
    true
}

/// String-slice equality by content.
pub fn str_eq(a: &str, b: &str) -> (r: bool)
    ensures
        r == (a@ == b@),
{
    let r = bytes_eq(a.as_bytes(), b.as_bytes());
    proof {
        if a.spec_bytes() == b.spec_bytes() {
            encode_utf8_decode_utf8(a@);
            encode_utf8_decode_utf8(b@);
        }
    }
    r
}

// ---------------------------------------------------------------------------
// UTF-8 boundary
// ---------------------------------------------------------------------------

/// Relies on `core::str::from_utf8`: it succeeds exactly on valid UTF-8
/// input, and the resulting string slice is the decoding of those bytes.
#[verifier::external_body]
pub(crate) fn bytes_to_str(b: &[u8]) -> (r: Option<&str>)
    ensures
        r is Some <==> valid_utf8(b@),
        r matches Some(s) ==> s@ == decode_utf8(b@) && s.spec_bytes() == b@,
{
    core::str::from_utf8(b).ok()
}

/// Decoded character sequence of a byte sequence, or empty when the bytes
/// are not valid UTF-8.
pub open spec fn chars_of(b: Seq<u8>) -> Seq<char> {
    if valid_utf8(b) {
        decode_utf8(b)
    } else {
        Seq::empty()
    }
}

// ---------------------------------------------------------------------------
// ASCII classification, folding, trimming
// ---------------------------------------------------------------------------

/// ASCII whitespace, as stripped from header fields.
pub open spec fn is_ws(b: u8) -> bool {
    b == 0x20 || b == 0x09 || b == 0x0a || b == 0x0d || b == 0x0c
}

pub fn is_ws_byte(b: u8) -> (r: bool)
    ensures
        r == is_ws(b),
{
    b == 0x20 || b == 0x09 || b == 0x0a || b == 0x0d || b == 0x0c
}

pub open spec fn lower_byte(b: u8) -> u8 {
    if 0x41 <= b <= 0x5a { (b + 0x20) as u8 } else { b }
}

pub open spec fn lower_bytes_spec(s: Seq<u8>) -> Seq<u8> {
    s.map_values(|b: u8| lower_byte(b))
}

/// ASCII-lowercases a byte string.
pub fn lower_bytes(s: &[u8]) -> (r: Vec<u8>)
    ensures
        r@ == lower_bytes_spec(s@),
{
    let mut out: Vec<u8> = Vec::new();
    let mut i: usize = 0;
    while i < s.len()
        invariant
            0 <= i <= s@.len(),
            out@ == lower_bytes_spec(s@.take(i as int)),
        decreases s@.len() - i,
    {
        let b = s[i];
        if 0x41 <= b && b <= 0x5a {
            out.push(b + 0x20);
        } else {
            out.push(b);
        }
        proof {
            assert(s@.take(i + 1).map_values(|b: u8| lower_byte(b))
                =~= s@.take(i as int).map_values(|b: u8| lower_byte(b)).push(lower_byte(s@[i as int])));
        }
        i += 1;
    }
    proof {
        assert(s@.take(s@.len() as int) =~= s@);
    }
    out
}

pub open spec fn trim_front_spec(s: Seq<u8>) -> Seq<u8>
    decreases s.len(),
{
    if s.len() > 0 && is_ws(s[0]) {
        trim_front_spec(s.drop_first())
    } else {
        s
    }
}

pub open spec fn trim_back_spec(s: Seq<u8>) -> Seq<u8>
    decreases s.len(),
{
    if s.len() > 0 && is_ws(s[s.len() - 1]) {
        trim_back_spec(s.drop_last())
    } else {
        s
    }
}

/// ASCII whitespace trimmed from both ends.
pub open spec fn trim_spec(s: Seq<u8>) -> Seq<u8> {
    trim_back_spec(trim_front_spec(s))
}

proof fn lemma_trim_front_range(s: Seq<u8>, i: int)
    requires
        0 <= i <= s.len(),
        forall|j: int| 0 <= j < i ==> is_ws(s[j]),
        i < s.len() ==> !is_ws(s[i]),
    ensures
        trim_front_spec(s) == s.subrange(i, s.len() as int),
    decreases i,
{
    if i == 0 {
        if s.len() == 0 {
            assert(trim_front_spec(s) =~= s.subrange(0, s.len() as int));
        } else {
            assert(s.subrange(0, s.len() as int) =~= s);
        }
    } else {
        assert(is_ws(s[0]));
        let t = s.drop_first();
        assert(forall|j: int| 0 <= j < i - 1 ==> is_ws(t[j]));
        lemma_trim_front_range(t, i - 1);
        assert(t.subrange(i - 1, t.len() as int) =~= s.subrange(i, s.len() as int));
    }
}

proof fn lemma_trim_back_range(s: Seq<u8>, k: int)
    requires
        0 <= k <= s.len(),
        forall|j: int| k <= j < s.len() ==> is_ws(s[j]),
        k > 0 ==> !is_ws(s[k - 1]),
    ensures
        trim_back_spec(s) == s.subrange(0, k),
    decreases s.len() - k,
{
    if k == s.len() {
        if s.len() == 0 {
            assert(trim_back_spec(s) =~= s.subrange(0, k));
        } else {
            assert(trim_back_spec(s) =~= s.subrange(0, k)) by {
                lemma_trim_back_range_full(s, k);
            }
        }
    } else {
        assert(is_ws(s[s.len() - 1]));
        let t = s.drop_last();
        assert(forall|j: int| k <= j < t.len() ==> is_ws(t[j]));
        lemma_trim_back_range(t, k);
        assert(t.subrange(0, k) =~= s.subrange(0, k));
    }
}

proof fn lemma_trim_back_range_full(s: Seq<u8>, k: int)
    requires
        k == s.len(),
        s.len() > 0,
        !is_ws(s[k - 1]),
    ensures
        trim_back_spec(s) == s.subrange(0, k),
{
    assert(s.subrange(0, k) =~= s);
}

/// Strips ASCII whitespace from both ends of a byte string.
pub fn trim_bytes(s: &[u8]) -> (r: &[u8])
    ensures
        r@ == trim_spec(s@),
{
    let mut lo: usize = 0;
    while lo < s.len() && is_ws_byte(s[lo])
        invariant
            0 <= lo <= s@.len(),
            forall|j: int| 0 <= j < lo ==> is_ws(s@[j]),
        decreases s@.len() - lo,
    {
        lo += 1;
    }
    proof {
        lemma_trim_front_range(s@, lo as int);
    }
    let mut hi: usize = s.len();
    while hi > lo && is_ws_byte(s[hi - 1])
        invariant
            lo <= hi <= s@.len(),
            forall|j: int| 0 <= j < lo ==> is_ws(s@[j]),
            forall|j: int| hi <= j < s@.len() ==> is_ws(s@[j]),
        decreases hi,
    {
        hi -= 1;
    }
    let r = &s[lo..hi];
    proof {
        let f = trim_front_spec(s@);
        assert(f == s@.subrange(lo as int, s@.len() as int));
        assert(forall|j: int| hi - lo <= j < f.len() ==> is_ws(f[j]));
        if hi > lo {
            assert(f[hi - lo - 1] == s@[hi - 1]);
        }
        lemma_trim_back_range(f, hi - lo);
        assert(f.subrange(0, hi - lo) =~= s@.subrange(lo as int, hi as int));
    }
    r
}

// ---------------------------------------------------------------------------
// Substring search
// ---------------------------------------------------------------------------

/// `n` occurs contiguously in `h`.
pub open spec fn contains_seq(h: Seq<u8>, n: Seq<u8>) -> bool {
    exists|i: int| 0 <= i && i + n.len() <= h.len() && #[trigger] h.subrange(i, i + n.len()) == n
}

/// Naive contiguous substring search.
pub fn contains_bytes(h: &[u8], n: &[u8]) -> (r: bool)
    ensures
        r == contains_seq(h@, n@),
{
    if n.len() == 0 {
        proof {
            assert(h@.subrange(0, 0 + n@.len() as int) =~= n@);
            assert(contains_seq(h@, n@));
        }
        return true;
    }
    if n.len() > h.len() {
        return false;
    }
    let last: usize = h.len() - n.len();
    let mut i: usize = 0;
    while i <= last
        invariant
            0 <= i <= last + 1,
            1 <= n@.len() <= h@.len(),
            h@.len() <= usize::MAX,
            last == h@.len() - n@.len(),
            forall|k: int| 0 <= k < i ==> #[trigger] h@.subrange(k, k + n@.len()) != n@,
        decreases last + 1 - i,
    {
        let piece = &h[i..i + n.len()];
        if bytes_eq(piece, n) {
            return true;
        }
        i += 1;
    }
    false
}

/// `n` occurs contiguously in `h`, as character sequences.
pub open spec fn contains_chars(h: Seq<char>, n: Seq<char>) -> bool {
    exists|i: int| 0 <= i && i + n.len() <= h.len() && #[trigger] h.subrange(i, i + n.len()) == n
}

/// Naive contiguous substring search over characters.
pub fn str_contains(h: &str, n: &str) -> (r: bool)
    ensures
        r == contains_chars(h@, n@),
{
    let hl = h.unicode_len();
    let nl = n.unicode_len();
    if nl == 0 {
        proof {
            assert(h@.subrange(0, 0 + n@.len() as int) =~= n@);
            assert(contains_chars(h@, n@));
        }
        return true;
    }
    if nl > hl {
        return false;
    }
    let last: usize = hl - nl;
    let mut i: usize = 0;
    while i <= last
        invariant
            0 <= i <= last + 1,
            1 <= n@.len() <= h@.len(),
            h@.len() <= usize::MAX,
            nl == n@.len(),
            hl == h@.len(),
            last == h@.len() - n@.len(),
            forall|k: int| 0 <= k < i ==> #[trigger] h@.subrange(k, k + n@.len()) != n@,
        decreases last + 1 - i,
    {
        let piece = h.substring_char(i, i + nl);
        if str_eq(piece, n) {
            proof {
                assert(h@.subrange(i as int, i as int + n@.len() as int) == n@);
            }
            return true;
        }
        i += 1;
    }
    false
}

// ---------------------------------------------------------------------------
// Decimal parsing
// ---------------------------------------------------------------------------

pub open spec fn is_dec_digit(b: u8) -> bool {
    0x30 <= b <= 0x39
}

pub open spec fn all_dec_digits(s: Seq<u8>) -> bool {
    forall|i: int| 0 <= i < s.len() ==> is_dec_digit(#[trigger] s[i])
}

/// Value of a digit string, most significant first.
pub open spec fn dec_num(s: Seq<u8>) -> int
    decreases s.len(),
{
    if s.len() == 0 {
        0
    } else {
        dec_num(s.drop_last()) * 10 + (s[s.len() - 1] - 0x30)
    }
}

/// Strips one leading `+`, as Rust's integer parsing accepts.
pub open spec fn strip_plus(s: Seq<u8>) -> Seq<u8> {
    if s.len() > 0 && s[0] == 0x2b {
        s.drop_first()
    } else {
        s
    }
}

/// A decimal number as accepted by `str::parse` for unsigned integers:
/// an optional `+`, then one or more digits.
pub open spec fn is_dec_number(s: Seq<u8>) -> bool {
    strip_plus(s).len() > 0 && all_dec_digits(strip_plus(s))
}

pub open spec fn dec_number_val(s: Seq<u8>) -> int {
    dec_num(strip_plus(s))
}

fn parse_dec_loop(s: &[u8], max: u64) -> (r: Option<u64>)
    requires
        max >= 9,
    ensures
        r matches Some(v)
            ==> s@.len() > 0 && all_dec_digits(s@) && v == dec_num(s@) && v <= max,
        r is None <==> !(s@.len() > 0 && all_dec_digits(s@) && dec_num(s@) <= max),
{
    if s.len() == 0 {
        return None;
    }
    let mut acc: u64 = 0;
    let mut i: usize = 0;
    while i < s.len()
        invariant
            0 <= i <= s@.len(),
            max >= 9,
            all_dec_digits(s@.take(i as int)),
            acc == dec_num(s@.take(i as int)),
            acc <= max,
        decreases s@.len() - i,
    {
        let b = s[i];
        if b < 0x30 || b > 0x39 {
            proof {
                assert(!is_dec_digit(s@[i as int]));
            }
            return None;
        }
        let d: u64 = (b - 0x30) as u64;
        if acc > (max - d) / 10 {
            proof {
                assert(s@.take(i + 1).drop_last() =~= s@.take(i as int));
                assert(acc * 10 + d > max) by (nonlinear_arith)
                    requires acc > (max - d) / 10 && d <= 9 && max >= 9;
                if all_dec_digits(s@) {
                    assert(s@.take(i + 1) =~= s@.subrange(0, i + 1));
                    lemma_dec_num_mono(s@.take(i + 1), s@);
                }
            }
            return None;
        }
        proof {
            assert(acc * 10 + d <= max) by (nonlinear_arith)
                requires acc <= (max - d) / 10 && d <= 9 && max >= d;
            assert(s@.take(i + 1).drop_last() =~= s@.take(i as int));
        }
        acc = acc * 10 + d;
        i += 1;
    }
    proof {
        assert(s@.take(s@.len() as int) =~= s@);
    }
    Some(acc)
}

proof fn lemma_dec_num_mono(p: Seq<u8>, s: Seq<u8>)
    requires
        p.len() <= s.len(),
        p == s.subrange(0, p.len() as int),
        all_dec_digits(s),
    ensures
        dec_num(p) <= dec_num(s),
    decreases s.len() - p.len(),
{
    if p.len() < s.len() {
        let q = s.subrange(0, p.len() as int + 1);
        assert(q.drop_last() =~= p);
        assert(dec_num(q) == dec_num(p) * 10 + (q[q.len() - 1] - 0x30));
        assert(all_dec_digits(p));
        lemma_dec_num_nonneg(p);
        assert(dec_num(p) * 10 >= dec_num(p)) by (nonlinear_arith)
            requires dec_num(p) >= 0;
        lemma_dec_num_mono(q, s);
    } else {
        assert(p =~= s);
    }
}

proof fn lemma_dec_num_nonneg(s: Seq<u8>)
    requires
        all_dec_digits(s),
    ensures
        dec_num(s) >= 0,
    decreases s.len(),
{
    if s.len() > 0 {
        assert(all_dec_digits(s.drop_last()));
        lemma_dec_num_nonneg(s.drop_last());
        assert(dec_num(s.drop_last()) * 10 >= 0) by (nonlinear_arith)
            requires dec_num(s.drop_last()) >= 0;
    }
}

/// Parses an unsigned decimal with the acceptance of `str::parse::<u64>`.
pub fn parse_u64_bytes(s: &[u8]) -> (r: Option<u64>)
    ensures
        r matches Some(v)
            ==> is_dec_number(s@) && v == dec_number_val(s@) && v <= u64::MAX,
        r is None <==> !(is_dec_number(s@) && dec_number_val(s@) <= u64::MAX),
{
    let body: &[u8] = if s.len() > 0 && s[0] == 0x2b {
        proof {
            assert(s@.subrange(1, s@.len() as int) =~= s@.drop_first());
        }
        &s[1..s.len()]
    } else {
        s
    };
    proof {
        assert(body@ == strip_plus(s@));
    }
    parse_dec_loop(body, u64::MAX)
}

/// Parses an unsigned decimal with the acceptance of `str::parse::<u16>`.
pub fn parse_u16_bytes(s: &[u8]) -> (r: Option<u16>)
    ensures
        r matches Some(v)
            ==> is_dec_number(s@) && v == dec_number_val(s@) && v <= u16::MAX,
        r is None <==> !(is_dec_number(s@) && dec_number_val(s@) <= u16::MAX),
{
    let body: &[u8] = if s.len() > 0 && s[0] == 0x2b {
        proof {
            assert(s@.subrange(1, s@.len() as int) =~= s@.drop_first());
        }
        &s[1..s.len()]
    } else {
        s
    };
    proof {
        assert(body@ == strip_plus(s@));
    }
    match parse_dec_loop(body, 0xffff) {
        Some(v) => Some(v as u16),
        None => None,
    }
}

pub open spec fn is_dec_digit_char(c: char) -> bool {
    0x30 <= c as int <= 0x39
}

pub open spec fn all_dec_digit_chars(s: Seq<char>) -> bool {
    forall|i: int| 0 <= i < s.len() ==> is_dec_digit_char(#[trigger] s[i])
}

/// Value of a digit character string, most significant first.
pub open spec fn dec_num_chars(s: Seq<char>) -> int
    decreases s.len(),
{
    if s.len() == 0 {
        0
    } else {
        dec_num_chars(s.drop_last()) * 10 + (s[s.len() - 1] as int - 0x30)
    }
}

pub open spec fn strip_plus_chars(s: Seq<char>) -> Seq<char> {
    if s.len() > 0 && s[0] == '+' {
        s.drop_first()
    } else {
        s
    }
}

/// A decimal `u64` as `str::parse` accepts it, over characters: an
/// optional `+`, then digits, with a value that fits.
pub open spec fn dec_chars_val(s: Seq<char>) -> Option<u64> {
    let t = strip_plus_chars(s);
    if t.len() > 0 && all_dec_digit_chars(t) && dec_num_chars(t) <= u64::MAX {
        Some(dec_num_chars(t) as u64)
    } else {
        None
    }
}

proof fn lemma_dec_num_chars_mono(p: Seq<char>, s: Seq<char>)
    requires
        p.len() <= s.len(),
        p == s.subrange(0, p.len() as int),
        all_dec_digit_chars(s),
    ensures
        dec_num_chars(p) <= dec_num_chars(s),
    decreases s.len() - p.len(),
{
    if p.len() < s.len() {
        let q = s.subrange(0, p.len() as int + 1);
        assert(q.drop_last() =~= p);
        assert(all_dec_digit_chars(p));
        lemma_dec_num_chars_nonneg(p);
        assert(dec_num_chars(p) * 10 >= dec_num_chars(p)) by (nonlinear_arith)
            requires dec_num_chars(p) >= 0;
        lemma_dec_num_chars_mono(q, s);
    } else {
        assert(p =~= s);
    }
}

proof fn lemma_dec_num_chars_nonneg(s: Seq<char>)
    requires
        all_dec_digit_chars(s),
    ensures
        dec_num_chars(s) >= 0,
    decreases s.len(),
{
    if s.len() > 0 {
        assert(all_dec_digit_chars(s.drop_last()));
        lemma_dec_num_chars_nonneg(s.drop_last());
        assert(dec_num_chars(s.drop_last()) * 10 >= 0) by (nonlinear_arith)
            requires dec_num_chars(s.drop_last()) >= 0;
    }
}

/// Parses an unsigned decimal from a string, as `str::parse::<u64>`.
pub fn parse_u64_str(s: &str) -> (r: Option<u64>)
    ensures
        r == dec_chars_val(s@),
{
    let n = s.unicode_len();
    if n == 0 {
        return None;
    }
    let has_plus: bool = s.get_char(0) == '+';
    let start: usize = if has_plus { 1 } else { 0 };
    proof {
        if has_plus {
            assert(s@.subrange(1, s@.len() as int) =~= s@.drop_first());
        }
        assert(s@.subrange(start as int, s@.len() as int) == strip_plus_chars(s@));
    }
    if start >= n {
        return None;
    }
    let ghost body = strip_plus_chars(s@);
    let mut acc: u64 = 0;
    let mut i: usize = start;
    while i < n
        invariant
            start <= i <= n,
            n == s@.len(),
            start == (if s@.len() > 0 && s@[0] == '+' { 1int } else { 0int }),
            body == strip_plus_chars(s@),
            body == s@.subrange(start as int, s@.len() as int),
            all_dec_digit_chars(body.take(i - start)),
            acc == dec_num_chars(body.take(i - start)),
            acc <= u64::MAX,
        decreases n - i,
    {
        let c = s.get_char(i);
        let u: u32 = c as u32;
        proof {
            assert(body[i - start] == s@[i as int]);
        }
        if u < 0x30 || u > 0x39 {
            proof {
                assert(!is_dec_digit_char(body[i - start]));
            }
            return None;
        }
        let d: u64 = (u - 0x30) as u64;
        if acc > (u64::MAX - d) / 10 {
            proof {
                assert(body.take(i - start + 1).drop_last() =~= body.take(i - start));
                assert(body.take(i - start + 1)[i - start] == body[i - start]);
                assert(dec_num_chars(body.take(i - start + 1)) == acc * 10 + d);
                assert(acc * 10 + d > u64::MAX) by (nonlinear_arith)
                    requires acc > (u64::MAX - d) / 10 && d <= 9 && u64::MAX >= 9;
                if all_dec_digit_chars(body) {
                    assert(body.take(i - start + 1) =~= body.subrange(0, i - start + 1));
                    lemma_dec_num_chars_mono(body.take(i - start + 1), body);
                }
            }
            return None;
        }
        proof {
            assert(acc * 10 + d <= u64::MAX) by (nonlinear_arith)
                requires acc <= (u64::MAX - d) / 10 && d <= 9 && u64::MAX >= d;
            assert(body.take(i - start + 1).drop_last() =~= body.take(i - start));
        }
        acc = acc * 10 + d;
        i += 1;
    }
    proof {
        assert(body.take(n - start) =~= body);
    }
    Some(acc)
}

// ---------------------------------------------------------------------------
// Hex parsing and rendering
// ---------------------------------------------------------------------------

pub open spec fn is_hex_digit(b: u8) -> bool {
    (0x30 <= b <= 0x39) || (0x41 <= b <= 0x46) || (0x61 <= b <= 0x66)
}

pub open spec fn hex_digit_val(b: u8) -> int {
    if 0x30 <= b <= 0x39 {
        b - 0x30
    } else if 0x41 <= b <= 0x46 {
        b - 0x41 + 10
    } else {
        b - 0x61 + 10
    }
}

pub open spec fn all_hex_digits(s: Seq<u8>) -> bool {
    forall|i: int| 0 <= i < s.len() ==> is_hex_digit(#[trigger] s[i])
}

/// Value of a hex digit string, most significant first.
pub open spec fn hex_num(s: Seq<u8>) -> int
    decreases s.len(),
{
    if s.len() == 0 {
        0
    } else {
        hex_num(s.drop_last()) * 16 + hex_digit_val(s[s.len() - 1])
    }
}

/// A hex number as accepted by `usize::from_str_radix(_, 16)`:
/// an optional `+`, then one or more hex digits.
pub open spec fn is_hex_number(s: Seq<u8>) -> bool {
    strip_plus(s).len() > 0 && all_hex_digits(strip_plus(s))
}

pub open spec fn hex_number_val(s: Seq<u8>) -> int {
    hex_num(strip_plus(s))
}

fn hex_digit_of(b: u8) -> (r: Option<u8>)
    ensures
        r matches Some(v) ==> is_hex_digit(b) && v == hex_digit_val(b),
        r is None <==> !is_hex_digit(b),
{
    if 0x30 <= b && b <= 0x39 {
        Some(b - 0x30)
    } else if 0x41 <= b && b <= 0x46 {
        Some(b - 0x41 + 10)
    } else if 0x61 <= b && b <= 0x66 {
        Some(b - 0x61 + 10)
    } else {
        None
    }
}

/// Parses a hex number with the acceptance of `usize::from_str_radix(_, 16)`,
/// refusing values above `usize::MAX`.
pub fn parse_hex_usize(s: &[u8]) -> (r: Option<usize>)
    ensures
        r matches Some(v)
            ==> is_hex_number(s@) && v == hex_number_val(s@),
        r is None <==> !(is_hex_number(s@) && hex_number_val(s@) <= usize::MAX),
{
    let body: &[u8] = if s.len() > 0 && s[0] == 0x2b {
        proof {
            assert(s@.subrange(1, s@.len() as int) =~= s@.drop_first());
        }
        &s[1..s.len()]
    } else {
        s
    };
    proof {
        assert(body@ == strip_plus(s@));
    }
    if body.len() == 0 {
        return None;
    }
    let mut acc: usize = 0;
    let mut i: usize = 0;
    while i < body.len()
        invariant
            0 <= i <= body@.len(),
            body@ == strip_plus(s@),
            all_hex_digits(body@.take(i as int)),
            acc == hex_num(body@.take(i as int)),
            acc <= usize::MAX,
        decreases body@.len() - i,
    {
        let b = body[i];
        let d: usize = match hex_digit_of(b) {
            Some(v) => v as usize,
            None => {
                proof {
                    assert(!is_hex_digit(body@[i as int]));
                    assert(!all_hex_digits(body@));
                    assert(!is_hex_number(s@));
                }
                return None;
            },
        };
        if acc > (usize::MAX - d) / 16 {
            proof {
                assert(body@.take(i + 1).drop_last() =~= body@.take(i as int));
                assert(body@.take(i + 1)[i as int] == body@[i as int]);
                assert(hex_num(body@.take(i + 1)) == acc * 16 + d);
                assert(acc * 16 + d > usize::MAX) by (nonlinear_arith)
                    requires acc > (usize::MAX - d) / 16 && d <= 15 && usize::MAX >= 15;
                if all_hex_digits(body@) {
                    assert(body@.take(i + 1) =~= body@.subrange(0, i + 1));
                    lemma_hex_num_mono(body@.take(i + 1), body@);
                    assert(hex_number_val(s@) > usize::MAX);
                }
            }
            return None;
        }
        proof {
            assert(acc * 16 + d <= usize::MAX) by (nonlinear_arith)
                requires acc <= (usize::MAX - d) / 16 && d <= 15 && usize::MAX >= d;
            assert(body@.take(i + 1).drop_last() =~= body@.take(i as int));
        }
        acc = acc * 16 + d;
        i += 1;
    }
    proof {
        assert(body@.take(body@.len() as int) =~= body@);
    }
    Some(acc)
}

proof fn lemma_hex_num_mono(p: Seq<u8>, s: Seq<u8>)
    requires
        p.len() <= s.len(),
        p == s.subrange(0, p.len() as int),
        all_hex_digits(s),
    ensures
        hex_num(p) <= hex_num(s),
    decreases s.len() - p.len(),
{
    if p.len() < s.len() {
        let q = s.subrange(0, p.len() as int + 1);
        assert(q.drop_last() =~= p);
        assert(all_hex_digits(p));
        lemma_hex_num_nonneg(p);
        assert(hex_num(p) * 16 >= hex_num(p)) by (nonlinear_arith)
            requires hex_num(p) >= 0;
        assert(hex_digit_val(q[q.len() - 1]) >= 0);
        lemma_hex_num_mono(q, s);
    } else {
        assert(p =~= s);
    }
}

proof fn lemma_hex_num_nonneg(s: Seq<u8>)
    requires
        all_hex_digits(s),
    ensures
        hex_num(s) >= 0,
    decreases s.len(),
{
    if s.len() > 0 {
        assert(all_hex_digits(s.drop_last()));
        lemma_hex_num_nonneg(s.drop_last());
        assert(hex_num(s.drop_last()) * 16 >= 0) by (nonlinear_arith)
            requires hex_num(s.drop_last()) >= 0;
    }
}

pub open spec fn hex_char(d: int) -> char {
    if d < 10 {
        digit_char(d)
    } else if d == 10 { 'a' } else if d == 11 { 'b' } else if d == 12 { 'c' }
    else if d == 13 { 'd' } else if d == 14 { 'e' } else { 'f' }
}

fn hex_char_str(d: u8) -> (r: &'static str)
    requires
        d < 16,
    ensures
        r@ == seq![hex_char(d as int)],
{
    if d < 10 {
        digit_str_of(d as u64)
    } else {
        proof {
            reveal_strlit("a"); reveal_strlit("b"); reveal_strlit("c");
            reveal_strlit("d"); reveal_strlit("e"); reveal_strlit("f");
        }
        let r: &'static str = match d {
            10 => "a",
            11 => "b",
            12 => "c",
            13 => "d",
            14 => "e",
            _ => "f",
        };
        proof {
            assert(r@ =~= seq![hex_char(d as int)]);
        }
        r
    }
}

/// Lowercase hex digit sequence of a non-negative integer, no leading
/// zeros.
pub open spec fn hex_str(n: int) -> Seq<char>
    decreases n,
{
    if n < 16 {
        seq![hex_char(n)]
    } else {
        hex_str(n / 16) + seq![hex_char(n % 16)]
    }
}

/// Renders a `u64` in lowercase hex without leading zeros.
pub fn u64_to_hex(n: u64) -> (r: String)
    ensures
        r@ == hex_str(n as int),
    decreases n,
{
    if n < 16 {
        hex_char_str(n as u8).to_owned()
    } else {
        let mut head = u64_to_hex(n / 16);
        head.append(hex_char_str((n % 16) as u8));
        head
    }
}

/// Two lowercase hex characters of one byte, high digit first.
pub open spec fn hex_byte_chars(b: u8) -> Seq<char> {
    seq![hex_char((b / 16) as int), hex_char((b % 16) as int)]
}

/// Appends the two-digit lowercase hex form of `b` to `out`.
pub fn push_hex_byte(out: &mut String, b: u8)
    ensures
        final(out)@ == old(out)@ + hex_byte_chars(b),
{
    out.append(hex_char_str(b / 16));
    out.append(hex_char_str(b % 16));
    proof {
        assert(out@ =~= old(out)@ + hex_byte_chars(b));
    }
}

} // verus!
