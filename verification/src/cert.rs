//! Leaf certificate metadata, and its display helpers.
use vstd::prelude::*;
use crate::strutil::{int_str, i64_to_dec};
use vstd::string::StrSliceExecFns;

verus! {

/// Metadata of one leaf certificate: subject common name, issuer
/// display string, shortened SAN summary, validity window as calendar
/// dates, days until expiry, and the colon-hex SHA-256 fingerprint of
/// the DER encoding.
#[derive(Debug, Clone)]
pub struct CertSummary {
    pub subject_cn: Option<String>,
    pub issuer: String,
    pub san_short: String,
    pub not_before: String,
    pub not_after: String,
    pub days_left: i64,
    pub sha256_fp: String,
}

/// Number of occurrences of `c` in `s`.
pub open spec fn count_occ(s: Seq<char>, c: char) -> int
    decreases s.len(),
{
    if s.len() == 0 {
        0
    } else {
        count_occ(s.drop_last(), c) + (if s.last() == c { 1int } else { 0int })
    }
}

/// Index of the `k`-th occurrence (0-based) of `c` in `s`, counted from
/// the front; meaningful only when `k < count_occ(s, c)`.
pub open spec fn nth_occ(s: Seq<char>, c: char, k: int) -> int
    decreases s.len(),
{
    if s.len() == 0 {
        0
    } else if s[0] == c {
        if k == 0 {
            0
        } else {
            1 + nth_occ(s.drop_first(), c, k - 1)
        }
    } else {
        1 + nth_occ(s.drop_first(), c, k)
    }
}

/// The prefix of `s` before the first occurrence of `c`, or all of `s`.
pub open spec fn before_char(s: Seq<char>, c: char) -> Seq<char> {
    if count_occ(s, c) > 0 {
        s.take(nth_occ(s, c, 0))
    } else {
        s
    }
}

proof fn lemma_count_occ_prefix(s: Seq<char>, c: char, i: int)
    requires
        0 <= i <= s.len(),
    ensures
        count_occ(s.take(i), c) <= count_occ(s, c),
    decreases s.len() - i,
{
    if i < s.len() {
        let t = s.take(i + 1);
        assert(t.drop_last() =~= s.take(i));
        lemma_count_occ_prefix(s, c, i + 1);
        assert(s.take(s.len() as int) =~= s);
    } else {
        assert(s.take(i) =~= s);
    }
}

/// A scan that has seen `k` occurrences before position `j` and finds
/// one at `j` has found the `k`-th occurrence.
proof fn lemma_nth_occ_scan(s: Seq<char>, c: char, j: int, k: int)
    requires
        0 <= j < s.len(),
        s[j] == c,
        count_occ(s.take(j), c) == k,
    ensures
        nth_occ(s, c, k) == j,
        count_occ(s, c) > k,
    decreases s.len(),
{
    lemma_count_nonneg(s.take(j), c);
    if j == 0 {
        assert(s.take(0) =~= Seq::<char>::empty());
        assert(k == 0);
        lemma_count_last(s, c, 0);
    } else {
        let t = s.drop_first();
        assert(t[j - 1] == s[j]);
        assert(t.take(j - 1) =~= s.take(j).drop_first());
        if s[0] == c {
            lemma_count_drop_first(s.take(j), c);
            assert(count_occ(t.take(j - 1), c) == k - 1);
            assert(s.take(j)[0] == c);
            lemma_count_last(s.take(j), c, 0);
            assert(s.take(j).take(0) =~= Seq::<char>::empty());
            assert(k - 1 >= 0);
            lemma_nth_occ_scan(t, c, j - 1, k - 1);
            lemma_count_drop_first(s, c);
        } else {
            lemma_count_drop_first(s.take(j), c);
            assert(count_occ(t.take(j - 1), c) == k);
            lemma_nth_occ_scan(t, c, j - 1, k);
            lemma_count_drop_first(s, c);
        }
    }
}

proof fn lemma_count_nonneg(s: Seq<char>, c: char)
    ensures
        count_occ(s, c) >= 0,
    decreases s.len(),
{
    if s.len() > 0 {
        lemma_count_nonneg(s.drop_last(), c);
    }
}

/// Seeing an occurrence at `j` raises the count of any longer prefix.
proof fn lemma_count_last(s: Seq<char>, c: char, j: int)
    requires
        0 <= j < s.len(),
        s[j] == c,
    ensures
        count_occ(s, c) >= count_occ(s.take(j), c) + 1,
    decreases s.len(),
{
    if j == s.len() - 1 {
        assert(s.drop_last() =~= s.take(j));
        lemma_count_nonneg(s.take(j), c);
    } else {
        lemma_count_last(s.drop_last(), c, j);
        assert(s.drop_last().take(j) =~= s.take(j));
        lemma_count_nonneg(s.drop_last(), c);
    }
}

/// Count over a prefix decomposes at the first character.
proof fn lemma_count_drop_first(s: Seq<char>, c: char)
    requires
        s.len() > 0,
    ensures
        count_occ(s, c) == count_occ(s.drop_first(), c) + (if s[0] == c { 1int } else { 0int }),
    decreases s.len(),
{
    if s.len() == 1 {
        assert(s.drop_first() =~= Seq::<char>::empty());
        assert(s.drop_last() =~= Seq::<char>::empty());
    } else {
        lemma_count_drop_first(s.drop_last(), c);
        assert(s.drop_last().drop_first() =~= s.drop_first().drop_last());
        assert(s.drop_first().last() == s.last());
        assert(s.drop_last()[0] == s[0]);
    }
}

impl CertSummary {
    /// The shape `short_fingerprint` returns: the whole fingerprint when
    /// it has at most six colon-separated parts, else the first two
    /// parts, an ellipsis, and the last part.
    pub open spec fn short_fingerprint_spec(self) -> Seq<char> {
        let s = self.sha256_fp@;
        let colons = count_occ(s, ':');
        if colons <= 5 {
            s
        } else {
            s.take(nth_occ(s, ':', 1)) + ":...:"@ + s.skip(nth_occ(s, ':', colons - 1) + 1)
        }
    }

    /// Shortens the fingerprint to its first two and last hex pairs when
    /// it has more than six parts.
    pub fn short_fingerprint(&self) -> (r: String)
        ensures
            r@ == self.short_fingerprint_spec(),
    {
        let s = self.sha256_fp.as_str();
        let n = s.unicode_len();
        let ghost sv = self.sha256_fp@;
        let mut colons: usize = 0;
        let mut second: usize = 0;
        let mut last: usize = 0;
        let mut i: usize = 0;
        while i < n
            invariant
                0 <= i <= n,
                n == sv.len(),
                sv == self.sha256_fp@,
                s@ == sv,
                colons == count_occ(sv.take(i as int), ':'),
                colons <= i,
                second <= i,
                last <= i,
                colons >= 1 ==> last < n,
                colons >= 2 ==> second == nth_occ(sv, ':', 1),
                colons >= 1 ==> last == nth_occ(sv, ':', colons - 1),
            decreases n - i,
        {
            let c = s.get_char(i);
            proof {
                assert(sv.take(i + 1).drop_last() =~= sv.take(i as int));
                lemma_count_occ_prefix(sv, ':', i as int);
            }
            if c == ':' {
                proof {
                    lemma_nth_occ_scan(sv, ':', i as int, colons as int);
                }
                if colons == 1 {
                    second = i;
                }
                last = i;
                colons += 1;
            }
            i += 1;
        }
        proof {
            assert(sv.take(n as int) =~= sv);
        }
        if colons <= 5 {
            return self.sha256_fp.clone();
        }
        let mut out = s.substring_char(0, second).to_owned();
        out.append(":...:");
        out.append(s.substring_char(last + 1, n));
        proof {
            assert(out@ =~= self.short_fingerprint_spec());
        }
        out
    }

    /// The shape `validity_range` returns: each bound truncated at its
    /// first `T`, then the day count.
    pub open spec fn validity_range_spec(self) -> Seq<char> {
        before_char(self.not_before@, 'T') + " \u{2192} "@ + before_char(self.not_after@, 'T')
            + "  (days_left: "@ + int_str(self.days_left as int) + ")"@
    }

    /// The validity window as `start → end  (days_left: N)`, dates
    /// truncated at any time-of-day part.
    pub fn validity_range(&self) -> (r: String)
        ensures
            r@ == self.validity_range_spec(),
    {
        let start = before_char_exec(self.not_before.as_str());
        let end = before_char_exec(self.not_after.as_str());
        let mut out = start;
        out.append(" \u{2192} ");
        out.append(end.as_str());
        out.append("  (days_left: ");
        let d = i64_to_dec(self.days_left);
        out.append(d.as_str());
        out.append(")");
        proof {
            assert(out@ =~= self.validity_range_spec());
        }
        out
    }
}

/// The prefix of `s` before its first `T`, or all of `s`.
fn before_char_exec(s: &str) -> (r: String)
    ensures
        r@ == before_char(s@, 'T'),
{
    let n = s.unicode_len();
    let mut i: usize = 0;
    while i < n
        invariant
            0 <= i <= n,
            n == s@.len(),
            count_occ(s@.take(i as int), 'T') == 0,
        decreases n - i,
    {
        let c = s.get_char(i);
        proof {
            assert(s@.take(i + 1).drop_last() =~= s@.take(i as int));
        }
        if c == 'T' {
            proof {
                lemma_nth_occ_scan(s@, 'T', i as int, 0);
            }
            return s.substring_char(0, i).to_owned();
        }
        i += 1;
    }
    proof {
        assert(s@.take(n as int) =~= s@);
        if count_occ(s@, 'T') > 0 {
            assert(false);
        }
    }
    s.to_owned()
}

} // verus!
