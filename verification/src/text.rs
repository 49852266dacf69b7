//! Character-sequence models and verified helpers for the plain-text work of
//! the pipeline: trimming, splitting, digit parsing, decimal formatting,
//! joining, ordering and substring search.
use vstd::prelude::*;

verus! {

/// ASCII whitespace, the kind tolerated around the dash of an
/// opening-hours string.
pub open spec fn is_space_c(c: char) -> bool {
    c == ' ' || c == '\t' || c == '\n' || c == '\r'
}

/// How often `c` occurs in `s`.
pub open spec fn count_c(s: Seq<char>, c: char) -> nat
    decreases s.len(),
{
    if s.len() == 0 {
        0
    } else {
        count_c(s.drop_last(), c) + if s.last() == c {
            1nat
        } else {
            0nat
        }
    }
}

/// The index of the first occurrence of `c` in `s` (meaningful only when
/// `s` contains `c`).
pub open spec fn find_c(s: Seq<char>, c: char) -> int
    decreases s.len(),
{
    if s.len() == 0 {
        0
    } else if s[0] == c {
        0
    } else {
        1 + find_c(s.drop_first(), c)
    }
}

/// `s` without leading ASCII whitespace.
pub open spec fn trim_start_s(s: Seq<char>) -> Seq<char>
    decreases s.len(),
{
    if s.len() > 0 && is_space_c(s[0]) {
        trim_start_s(s.drop_first())
    } else {
        s
    }
}

/// `s` without trailing ASCII whitespace.
pub open spec fn trim_end_s(s: Seq<char>) -> Seq<char>
    decreases s.len(),
{
    if s.len() > 0 && is_space_c(s.last()) {
        trim_end_s(s.drop_last())
    } else {
        s
    }
}

/// `s` without leading or trailing ASCII whitespace.
pub open spec fn trim_s(s: Seq<char>) -> Seq<char> {
    trim_end_s(trim_start_s(s))
}

/// An ASCII decimal digit.
pub open spec fn is_digit_c(c: char) -> bool {
    '0' as int <= c as int && c as int <= '9' as int
}

/// The shape of a calendar date written with zero-padded numerals, year
/// first: it ends in `"-MM-DD"` with two digits for the month and two for
/// the day, preceded by at least four year digits (a longer or signed year
/// only grows the front, never changes this tail).
pub open spec fn iso_date_shaped(s: Seq<char>) -> bool {
    let n = s.len() as int;
    &&& s.len() >= 10
    &&& s[n - 3] == '-'
    &&& s[n - 6] == '-'
    &&& is_digit_c(s[n - 1])
    &&& is_digit_c(s[n - 2])
    &&& is_digit_c(s[n - 4])
    &&& is_digit_c(s[n - 5])
    &&& is_digit_c(s[n - 7])
    &&& is_digit_c(s[n - 8])
    &&& is_digit_c(s[n - 9])
    &&& is_digit_c(s[n - 10])
}

/// The numeric value of a decimal digit.
pub open spec fn digit_val(c: char) -> int {
    c as int - '0' as int
}

/// Every character of `s` is a decimal digit.
pub open spec fn all_digits(s: Seq<char>) -> bool {
    forall|i: int| 0 <= i < s.len() ==> is_digit_c(#[trigger] s[i])
}

/// The value of `s` read as a decimal numeral.
pub open spec fn dec_val(s: Seq<char>) -> int
    decreases s.len(),
{
    if s.len() == 0 {
        0
    } else {
        dec_val(s.drop_last()) * 10 + digit_val(s.last())
    }
}

/// A numeral parse with an upper bound: the value of `s`, provided `s` is a
/// nonempty all-digit string whose value does not exceed `max`.
pub open spec fn parse_num(s: Seq<char>, max: int) -> Option<int> {
    if s.len() > 0 && all_digits(s) && dec_val(s) <= max {
        Some(dec_val(s))
    } else {
        None
    }
}

/// The decimal digit character for `d` in 0..=9.
pub open spec fn dec_digit_c(d: int) -> char {
    if d == 0 {
        '0'
    } else if d == 1 {
        '1'
    } else if d == 2 {
        '2'
    } else if d == 3 {
        '3'
    } else if d == 4 {
        '4'
    } else if d == 5 {
        '5'
    } else if d == 6 {
        '6'
    } else if d == 7 {
        '7'
    } else if d == 8 {
        '8'
    } else {
        '9'
    }
}

/// The decimal numeral of `n` in 0..=255, without leading zeros.
pub open spec fn dec_str_u8(n: int) -> Seq<char> {
    if n < 10 {
        seq![dec_digit_c(n)]
    } else if n < 100 {
        seq![dec_digit_c(n / 10), dec_digit_c(n % 10)]
    } else {
        seq![dec_digit_c(n / 100), dec_digit_c((n / 10) % 10), dec_digit_c(n % 10)]
    }
}

/// The parts joined by the separator: empty for no parts, otherwise the
/// parts in order with `sep` between each adjacent pair.
pub open spec fn join_s(parts: Seq<Seq<char>>, sep: Seq<char>) -> Seq<char>
    decreases parts.len(),
{
    if parts.len() == 0 {
        Seq::empty()
    } else if parts.len() == 1 {
        parts[0]
    } else {
        join_s(parts.drop_last(), sep) + sep + parts.last()
    }
}

/// Lexicographic order on character sequences by code point, which for
/// strings coincides with byte-wise comparison of their UTF-8 encodings.
pub open spec fn lex_le(a: Seq<char>, b: Seq<char>) -> bool
    decreases a.len(),
{
    if a.len() == 0 {
        true
    } else if b.len() == 0 {
        false
    } else if (a[0] as int) < (b[0] as int) {
        true
    } else if (a[0] as int) > (b[0] as int) {
        false
    } else {
        lex_le(a.drop_first(), b.drop_first())
    }
}

/// `needle` occurs contiguously inside `hay`; the empty sequence occurs in
/// everything.
pub open spec fn is_substring_of(needle: Seq<char>, hay: Seq<char>) -> bool {
    exists|k: int|
        0 <= k <= hay.len() - needle.len() && #[trigger] hay.subrange(k, k + needle.len())
            == needle
}

/// The empty filter keeps everything: an empty needle is a substring of any
/// sequence.
pub proof fn lemma_contains_empty(hay: Seq<char>)
    ensures
        is_substring_of(Seq::<char>::empty(), hay),
{
    let e = Seq::<char>::empty();
    assert(hay.subrange(0, 0 + e.len() as int) =~= e);
}

/// Lexicographic order is total.
pub proof fn lemma_lex_le_total(a: Seq<char>, b: Seq<char>)
    ensures
        lex_le(a, b) || lex_le(b, a),
    decreases a.len(),
{
    if a.len() == 0 || b.len() == 0 {
    } else if a[0] == b[0] {
        lemma_lex_le_total(a.drop_first(), b.drop_first());
    }
}

/// Lexicographic order is transitive.
pub proof fn lemma_lex_le_trans(a: Seq<char>, b: Seq<char>, c: Seq<char>)
    requires
        lex_le(a, b),
        lex_le(b, c),
    ensures
        lex_le(a, c),
    decreases a.len(),
{
    if a.len() == 0 {
    } else {
        // lex_le(a, b) with a nonempty forces b nonempty, and likewise c.
        assert(b.len() > 0);
        assert(c.len() > 0);
        if a[0] == b[0] && b[0] == c[0] {
            lemma_lex_le_trans(a.drop_first(), b.drop_first(), c.drop_first());
        }
    }
}

/// If `a` and `b` agree on their first `i` characters, their order is
/// decided by the remainders.
proof fn lemma_lex_le_skip(a: Seq<char>, b: Seq<char>, i: int)
    requires
        0 <= i <= a.len(),
        i <= b.len(),
        forall|k: int| 0 <= k < i ==> a[k] == b[k],
    ensures
        lex_le(a, b) == lex_le(a.skip(i), b.skip(i)),
    decreases i,
{
    if i > 0 {
        assert(a.len() > 0 && b.len() > 0);
        assert(a[0] == b[0]);
        lemma_lex_le_skip(a.drop_first(), b.drop_first(), i - 1);
        assert(a.drop_first().skip(i - 1) =~= a.skip(i));
        assert(b.drop_first().skip(i - 1) =~= b.skip(i));
    } else {
        assert(a.skip(0) =~= a);
        assert(b.skip(0) =~= b);
    }
}

/// The first occurrence of `c` is where a left-to-right scan first sees it.
proof fn lemma_find_at(s: Seq<char>, c: char, i: int)
    requires
        0 <= i < s.len(),
        s[i] == c,
        forall|k: int| 0 <= k < i ==> s[k] != c,
    ensures
        find_c(s, c) == i,
    decreases i,
{
    if i > 0 {
        lemma_find_at(s.drop_first(), c, i - 1);
    }
}

/// Counting distributes over extending the scanned prefix by one character.
proof fn lemma_count_take_succ(s: Seq<char>, c: char, i: int)
    requires
        0 <= i < s.len(),
    ensures
        count_c(s.take(i + 1), c) == count_c(s.take(i), c) + if s[i] == c {
            1int
        } else {
            0int
        },
{
    assert(s.take(i + 1).drop_last() =~= s.take(i));
}

/// Skipping leading whitespace up to the first non-space character computes
/// the trimmed-start sequence.
proof fn lemma_trim_start_skip(s: Seq<char>, i: int)
    requires
        0 <= i <= s.len(),
        forall|k: int| 0 <= k < i ==> is_space_c(#[trigger] s[k]),
        i == s.len() || !is_space_c(s[i]),
    ensures
        trim_start_s(s) == s.skip(i),
    decreases i,
{
    if i == 0 {
        assert(s.skip(0) =~= s);
    } else {
        lemma_trim_start_skip(s.drop_first(), i - 1);
        assert(s.drop_first().skip(i - 1) =~= s.skip(i));
    }
}

/// Dropping trailing whitespace down to the last non-space character
/// computes the trimmed-end sequence.
proof fn lemma_trim_end_take(s: Seq<char>, j: int)
    requires
        0 <= j <= s.len(),
        forall|k: int| j <= k < s.len() ==> is_space_c(#[trigger] s[k]),
        j == 0 || !is_space_c(s[j - 1]),
    ensures
        trim_end_s(s) == s.take(j),
    decreases s.len() - j,
{
    if j == s.len() {
        if s.len() > 0 && is_space_c(s.last()) {
            lemma_trim_end_take(s.drop_last(), j - 1);
            assert(s.drop_last() =~= s.take(s.len() - 1));
            assert(s.drop_last().take(j - 1) =~= s.take(j - 1));
        } else {
            assert(s.take(j) =~= s);
        }
    } else {
        assert(s.len() > 0 && is_space_c(s.last()));
        lemma_trim_end_take(s.drop_last(), j);
        assert(s.drop_last().take(j) =~= s.take(j));
    }
}

/// The value of an all-digit numeral is nonnegative.
proof fn lemma_dec_val_nonneg(s: Seq<char>)
    requires
        all_digits(s),
    ensures
        dec_val(s) >= 0,
    decreases s.len(),
{
    if s.len() > 0 {
        assert(all_digits(s.drop_last()));
        lemma_dec_val_nonneg(s.drop_last());
    }
}

/// The value of an all-digit numeral is at least the value of any prefix.
proof fn lemma_dec_val_prefix(s: Seq<char>, j: int)
    requires
        all_digits(s),
        0 <= j <= s.len(),
    ensures
        dec_val(s) >= dec_val(s.take(j)),
    decreases s.len() - j,
{
    if j == s.len() {
        assert(s.take(j) =~= s);
    } else {
        lemma_dec_val_prefix(s, j + 1);
        assert(s.take(j + 1).drop_last() =~= s.take(j));
        assert(all_digits(s.take(j)));
        lemma_dec_val_nonneg(s.take(j));
        assert(is_digit_c(s[j]));
        assert(dec_val(s.take(j + 1)) == dec_val(s.take(j)) * 10 + digit_val(s[j]));
        assert(dec_val(s.take(j)) * 10 >= dec_val(s.take(j)));
    }
}

/// Splits `s` at its dash (or other separator), provided the separator
/// occurs exactly once.
pub(crate) fn split_once_char<'a>(s: &'a str, c: char) -> (r: Option<(&'a str, &'a str)>)
    ensures
        r is Some <==> count_c(s@, c) == 1,
        r matches Some((a, b)) ==> {
            &&& a@ == s@.take(find_c(s@, c))
            &&& b@ == s@.skip(find_c(s@, c) + 1)
        },
{
    let n = s.unicode_len();
    let mut i: usize = 0;
    let mut cnt: usize = 0;
    let mut first: usize = 0;
    while i < n
        invariant
            0 <= i <= n,
            n == s@.len(),
            cnt <= i,
            cnt == count_c(s@.take(i as int), c),
            cnt == 0 ==> forall|k: int| 0 <= k < i ==> s@[k] != c,
            cnt > 0 ==> {
                &&& first < i
                &&& s@[first as int] == c
                &&& forall|k: int| 0 <= k < first ==> s@[k] != c
            },
        decreases n - i,
    {
        let ch = s.get_char(i);
        proof {
            lemma_count_take_succ(s@, c, i as int);
        }
        if ch == c {
            if cnt == 0 {
                first = i;
            }
            cnt = cnt + 1;
        }
        i += 1;
    }
    proof {
        assert(s@.take(n as int) =~= s@);
    }
    if cnt == 1 {
        proof {
            lemma_find_at(s@, c, first as int);
        }
        let a = s.substring_char(0, first);
        let b = s.substring_char(first + 1, n);
        proof {
            assert(a@ =~= s@.take(first as int));
            assert(b@ =~= s@.skip(first as int + 1));
        }
        Some((a, b))
    } else {
        None
    }
}

/// Removes leading and trailing ASCII whitespace.
pub(crate) fn trim_str<'a>(s: &'a str) -> (r: &'a str)
    ensures
        r@ == trim_s(s@),
{
    let n = s.unicode_len();
    let mut lo: usize = 0;
    while lo < n && is_space_exec(s.get_char(lo))
        invariant
            0 <= lo <= n,
            n == s@.len(),
            forall|k: int| 0 <= k < lo ==> is_space_c(#[trigger] s@[k]),
        decreases n - lo,
    {
        lo += 1;
    }
    proof {
        lemma_trim_start_skip(s@, lo as int);
    }
    let mut hi: usize = n;
    while hi > lo && is_space_exec(s.get_char(hi - 1))
        invariant
            lo <= hi <= n,
            n == s@.len(),
            forall|k: int| hi <= k < n ==> is_space_c(#[trigger] s@[k]),
        decreases hi,
    {
        hi -= 1;
    }
    let r = s.substring_char(lo, hi);
    proof {
        let t = s@.skip(lo as int);
        assert forall|k: int| hi - lo <= k < t.len() implies is_space_c(#[trigger] t[k]) by {
            assert(t[k] == s@[k + lo]);
        }
        if hi > lo {
            assert(t[hi - lo - 1] == s@[hi - 1]);
        }
        lemma_trim_end_take(t, hi - lo);
        assert(t.take(hi - lo) =~= s@.subrange(lo as int, hi as int));
        assert(r@ == trim_s(s@));
    }
    r
}

/// ASCII whitespace test on a single character.
fn is_space_exec(c: char) -> (r: bool)
    ensures
        r == is_space_c(c),
{
    c == ' ' || c == '\t' || c == '\n' || c == '\r'
}

/// Parses a nonempty all-digit numeral whose value is at most `max`;
/// anything else (empty, a non-digit, too large) yields `None`.
pub(crate) fn parse_bounded_num(s: &str, max: u32) -> (r: Option<u32>)
    requires
        max <= 59,
    ensures
        r matches Some(v) ==> parse_num(s@, max as int) == Some(v as int),
        r is None ==> parse_num(s@, max as int) is None,
{
    let n = s.unicode_len();
    if n == 0 {
        return None;
    }
    let mut i: usize = 0;
    let mut acc: u32 = 0;
    while i < n
        invariant
            0 <= i <= n,
            n == s@.len(),
            acc <= max,
            max <= 59,
            all_digits(s@.take(i as int)),
            acc == dec_val(s@.take(i as int)),
        decreases n - i,
    {
        let ch = s.get_char(i);
        let u = ch as u32;
        if u < '0' as u32 || u > '9' as u32 {
            proof {
                assert(!is_digit_c(s@[i as int]));
            }
            return None;
        }
        let d = u - '0' as u32;
        proof {
            assert(s@.take(i as int + 1).drop_last() =~= s@.take(i as int));
            assert(all_digits(s@.take(i as int + 1)));
        }
        let next = acc * 10 + d;
        if next > max {
            proof {
                assert(dec_val(s@.take(i as int + 1)) == next);
                if all_digits(s@) {
                    lemma_dec_val_prefix(s@, i as int + 1);
                    assert(dec_val(s@) > max);
                }
            }
            return None;
        }
        acc = next;
        i += 1;
    }
    proof {
        assert(s@.take(n as int) =~= s@);
    }
    Some(acc)
}

/// The single-character string for a decimal digit.
fn digit_str(d: u8) -> (r: &'static str)
    requires
        d < 10,
    ensures
        r@ == seq![dec_digit_c(d as int)],
{
    proof {
        reveal_strlit("0");
        reveal_strlit("1");
        reveal_strlit("2");
        reveal_strlit("3");
        reveal_strlit("4");
        reveal_strlit("5");
        reveal_strlit("6");
        reveal_strlit("7");
        reveal_strlit("8");
        reveal_strlit("9");
    }
    let r = match d {
        0 => "0",
        1 => "1",
        2 => "2",
        3 => "3",
        4 => "4",
        5 => "5",
        6 => "6",
        7 => "7",
        8 => "8",
        _ => "9",
    };
    proof {
        assert(r@ =~= seq![dec_digit_c(d as int)]);
    }
    r
}

/// Formats a restaurant id as its decimal numeral.
pub fn u8_to_string(n: u8) -> (r: String)
    ensures
        r@ == dec_str_u8(n as int),
{
    let mut out = String::new();
    if n < 10 {
        out.append(digit_str(n));
        proof {
            assert(out@ =~= dec_str_u8(n as int));
        }
    } else if n < 100 {
        out.append(digit_str(n / 10));
        out.append(digit_str(n % 10));
        proof {
            assert(out@ =~= dec_str_u8(n as int));
        }
    } else {
        out.append(digit_str(n / 100));
        out.append(digit_str((n / 10) % 10));
        out.append(digit_str(n % 10));
        proof {
            assert(out@ =~= dec_str_u8(n as int));
        }
    }
    out
}

/// Joins the parts with the separator between each adjacent pair.
pub fn join_strings(parts: &Vec<String>, sep: &str) -> (r: String)
    ensures
        r@ == join_s(parts.deep_view(), sep@),
{
    let mut out = String::new();
    let mut i: usize = 0;
    while i < parts.len()
        invariant
            0 <= i <= parts.len(),
            parts.deep_view().len() == parts.len(),
            forall|k: int| 0 <= k < parts.len() ==> parts.deep_view()[k] == parts@[k]@,
            out@ == join_s(parts.deep_view().take(i as int), sep@),
        decreases parts.len() - i,
    {
        if i > 0 {
            out.append(sep);
        }
        out.append(parts[i].as_str());
        proof {
            let pv = parts.deep_view();
            assert(pv.take(i as int + 1).drop_last() =~= pv.take(i as int));
            if i == 0 {
                assert(out@ =~= join_s(pv.take(1), sep@));
            }
        }
        i += 1;
    }
    proof {
        assert(parts.deep_view().take(parts.len() as int) =~= parts.deep_view());
    }
    out
}

/// Byte-wise (code-point) comparison of two strings: `a` is at most `b` in
/// lexicographic order.
pub fn lex_le_str(a: &str, b: &str) -> (r: bool)
    ensures
        r == lex_le(a@, b@),
{
    let an = a.unicode_len();
    let bn = b.unicode_len();
    let mut i: usize = 0;
    loop
        invariant
            0 <= i <= an,
            i <= bn,
            an == a@.len(),
            bn == b@.len(),
            forall|k: int| 0 <= k < i ==> a@[k] == b@[k],
        decreases an - i,
    {
        proof {
            lemma_lex_le_skip(a@, b@, i as int);
        }
        if i == an {
            return true;
        }
        if i == bn {
            return false;
        }
        let ca = a.get_char(i);
        let cb = b.get_char(i);
        if (ca as u32) < (cb as u32) {
            proof {
                assert(a@.skip(i as int)[0] == a@[i as int]);
                assert(b@.skip(i as int)[0] == b@[i as int]);
            }
            return true;
        }
        if (ca as u32) > (cb as u32) {
            proof {
                assert(a@.skip(i as int)[0] == a@[i as int]);
                assert(b@.skip(i as int)[0] == b@[i as int]);
            }
            return false;
        }
        i += 1;
    }
}

/// Case-sensitive substring test: does `needle` occur inside `hay`?
pub fn contains_substr(hay: &str, needle: &str) -> (r: bool)
    ensures
        r == is_substring_of(needle@, hay@),
{
    let hn = hay.unicode_len();
    let nn = needle.unicode_len();
    if nn > hn {
        return false;
    }
    if nn == 0 {
        proof {
            lemma_contains_empty(hay@);
            assert(needle@ =~= Seq::<char>::empty());
        }
        return true;
    }
    let mut k: usize = 0;
    while k <= hn - nn
        invariant
            0 <= k <= hn - nn + 1,
            1 <= nn <= hn,
            hn == hay@.len(),
            nn == needle@.len(),
            forall|k2: int|
                0 <= k2 < k ==> #[trigger] hay@.subrange(k2, k2 + needle@.len()) != needle@,
        decreases hn - nn - k + 1,
    {
        let mut j: usize = 0;
        let mut matches_here = true;
        while j < nn && matches_here
            invariant
                0 <= j <= nn,
                0 <= k <= hn - nn,
                hn == hay@.len(),
                nn == needle@.len(),
                matches_here ==> forall|t: int| 0 <= t < j ==> hay@[k + t] == needle@[t],
                !matches_here ==> hay@.subrange(k as int, k as int + needle@.len()) != needle@,
            decreases nn - j + if matches_here {
                1int
            } else {
                0int
            },
        {
            if hay.get_char(k + j) != needle.get_char(j) {
                proof {
                    assert(hay@.subrange(k as int, k as int + needle@.len())[j as int] == hay@[k
                        + j]);
                }
                matches_here = false;
            } else {
                j += 1;
            }
        }
        if matches_here {
            proof {
                assert(hay@.subrange(k as int, k as int + needle@.len()) =~= needle@);
            }
            return true;
        }
        k += 1;
    }
    false
}

} // verus!
