//! Character-level text helpers used by the lending rules: prefix tests,
//! decimal parsing and printing, literal replacement and NUL stripping.

use vstd::prelude::*;

verus! {

/// Whether `prefix` is a prefix of `s`, compared character by character.
pub fn starts_with(s: &str, prefix: &str) -> (res: bool)
    ensures
        res == prefix@.is_prefix_of(s@),
{
    let n = s.unicode_len();
    let m = prefix.unicode_len();
    if m > n {
        return false;
    }
    let mut j: usize = 0;
    while j < m
        invariant
            n == s@.len(),
            m == prefix@.len(),
            m <= n,
            j <= m,
            forall|k: int| 0 <= k < j ==> prefix@[k] == s@[k],
        decreases m - j,
    {
        if s.get_char(j) != prefix.get_char(j) {
            return false;
        }
        j = j + 1;
    }
    true
}


/// Whether `c` is one of the ASCII digits `0` to `9`.
pub open spec fn is_digit(c: char) -> bool {
    '0' <= c && c <= '9'
}

/// The numeric value of an ASCII digit.
pub open spec fn digit_value(c: char) -> int {
    (c as int) - ('0' as int)
}

/// Why a text is not the decimal form of a `u32`.
#[derive(Clone, Copy, Debug, PartialEq, Eq, Structural)]
pub enum ParseError {
    /// The text is empty.
    Empty,
    /// The text holds a character that is not a digit where one is needed.
    InvalidDigit,
    /// The value does not fit in a `u32`.
    Overflow,
}

/// Reads the digits of `d` from the left, as `u32::from_str` does: the first
/// character that is not a digit, or the first prefix whose value exceeds
/// `u32::MAX`, decides the error.
pub open spec fn scan_digits(d: Seq<char>) -> Result<int, ParseError>
    decreases d.len(),
{
    if d.len() == 0 {
        Ok(0)
    } else {
        match scan_digits(d.drop_last()) {
            Err(e) => Err(e),
            Ok(v) => if !is_digit(d.last()) {
                Err(ParseError::InvalidDigit)
            } else if v * 10 + digit_value(d.last()) > u32::MAX {
                Err(ParseError::Overflow)
            } else {
                Ok(v * 10 + digit_value(d.last()))
            },
        }
    }
}

/// The value of a decimal text, in the form that `u32::from_str` accepts:
/// an optional leading `+`, then one or more ASCII digits.
pub open spec fn parse_u32(s: Seq<char>) -> Result<u32, ParseError> {
    if s.len() == 0 {
        Err(ParseError::Empty)
    } else if s[0] == '+' && s.len() == 1 {
        Err(ParseError::InvalidDigit)
    } else {
        let d = if s[0] == '+' { s.drop_first() } else { s };
        match scan_digits(d) {
            Err(e) => Err(e),
            Ok(v) => Ok(v as u32),
        }
    }
}

proof fn lemma_scan_digits_bounded(d: Seq<char>)
    ensures
        scan_digits(d) matches Ok(v) ==> 0 <= v <= u32::MAX,
    decreases d.len(),
{
    if d.len() > 0 {
        lemma_scan_digits_bounded(d.drop_last());
    }
}

/// Parses a decimal number, as the item identifiers of forms and barcodes
/// are parsed.
pub fn atoi(s: &str) -> (res: Result<u32, ParseError>)
    ensures
        res == parse_u32(s@),
{
    let n = s.unicode_len();
    if n == 0 {
        return Err(ParseError::Empty);
    }
    let first = s.get_char(0);
    if first == '+' && n == 1 {
        return Err(ParseError::InvalidDigit);
    }
    let start: usize = if first == '+' { 1 } else { 0 };
    let r = scan_from(s, start);
    proof {
        let d = if s@[0] == '+' { s@.drop_first() } else { s@ };
        assert(d =~= s@.subrange(start as int, n as int));
    }
    r
}

/// Reads the digits of `s` from position `start` to its end.
fn scan_from(s: &str, start: usize) -> (res: Result<u32, ParseError>)
    requires
        start <= s@.len(),
    ensures
        res == (match scan_digits(s@.subrange(start as int, s@.len() as int)) {
            Err(e) => Err(e),
            Ok(v) => Ok(v as u32),
        }),
{
    let n = s.unicode_len();
    let ghost d = s@.subrange(start as int, n as int);
    let mut value: u64 = 0;
    let mut i: usize = start;
    while i < n
        invariant
            n == s@.len(),
            start <= i <= n,
            d == s@.subrange(start as int, n as int),
            scan_digits(d.subrange(0, i - start)) == Ok::<int, ParseError>(value as int),
            value <= u32::MAX,
        decreases n - i,
    {
        let c = s.get_char(i);
        let ghost k = (i - start) as int;
        proof {
            assert(d.subrange(0, k + 1).drop_last() =~= d.subrange(0, k));
            assert(d.subrange(0, k + 1).last() == c);
        }
        if !('0' <= c && c <= '9') {
            proof {
                lemma_scan_prefix_error(d, k + 1, ParseError::InvalidDigit);
            }
            return Err(ParseError::InvalidDigit);
        }
        let digit: u64 = ((c as u32) - ('0' as u32)) as u64;
        if value * 10 + digit > 4294967295u64 {
            proof {
                lemma_scan_prefix_error(d, k + 1, ParseError::Overflow);
            }
            return Err(ParseError::Overflow);
        }
        value = value * 10 + digit;
        i = i + 1;
    }
    proof {
        assert(d.subrange(0, d.len() as int) =~= d);
        lemma_scan_digits_bounded(d);
    }
    Ok(value as u32)
}

/// An error met in a prefix of the digits stays the error of the whole text.
proof fn lemma_scan_prefix_error(d: Seq<char>, k: int, e: ParseError)
    requires
        0 <= k <= d.len(),
        scan_digits(d.subrange(0, k)) == Err::<int, ParseError>(e),
    ensures
        scan_digits(d) == Err::<int, ParseError>(e),
    decreases d.len() - k,
{
    if k < d.len() {
        assert(d.subrange(0, k + 1).drop_last() =~= d.subrange(0, k));
        lemma_scan_prefix_error(d, k + 1, e);
    } else {
        assert(d.subrange(0, k) =~= d);
    }
}


/// The character of a digit value `0..=9`.
pub open spec fn digit_char(d: int) -> char {
    (d + 48) as char
}

/// The decimal text of `n`, most significant digit first, without leading
/// zeros (`0` is written `0`).
pub open spec fn decimal_text(n: nat) -> Seq<char>
    decreases n,
{
    if n < 10 {
        seq![digit_char(n as int)]
    } else {
        decimal_text(n / 10).push(digit_char((n % 10) as int))
    }
}

fn digit_str(d: u32) -> (res: &'static str)
    requires
        d < 10,
    ensures
        res@ == seq![digit_char(d as int)],
{
    proof {
        reveal_strlit("0");
        reveal_strlit("1");
        reveal_strlit("2");
        reveal_strlit("3");
        reveal_strlit("4");
        reveal_strlit("5");
        reveal_strlit("6");
        reveal_strlit("7");
        reveal_strlit("8");
        reveal_strlit("9");
    }
    match d {
        0 => "0",
        1 => "1",
        2 => "2",
        3 => "3",
        4 => "4",
        5 => "5",
        6 => "6",
        7 => "7",
        8 => "8",
        _ => "9",
    }
}

/// The decimal text of `n`, as `n.to_string()` writes it.
pub fn decimal_string(n: u32) -> (res: String)
    ensures
        res@ == decimal_text(n as nat),
    decreases n,
{
    if n < 10 {
        String::from_str(digit_str(n))
    } else {
        let mut head = decimal_string(n / 10);
        head.append(digit_str(n % 10));
        head
    }
}

proof fn lemma_decimal_text_shape(n: nat)
    ensures
        decimal_text(n).len() > 0,
        is_digit(decimal_text(n)[0]),
    decreases n,
{
    if n >= 10 {
        lemma_decimal_text_shape(n / 10);
    }
}

proof fn lemma_scan_decimal_text(n: nat)
    requires
        n <= u32::MAX,
    ensures
        scan_digits(decimal_text(n)) == Ok::<int, ParseError>(n as int),
    decreases n,
{
    let t = decimal_text(n);
    if n < 10 {
        assert(t.drop_last() =~= Seq::<char>::empty());
        assert(is_digit(t.last()));
        assert(digit_value(t.last()) == n);
        assert(scan_digits(t.drop_last()) == Ok::<int, ParseError>(0));
    } else {
        lemma_scan_decimal_text(n / 10);
        assert(t.drop_last() =~= decimal_text(n / 10));
        assert(is_digit(t.last()));
        assert(digit_value(t.last()) == n % 10);
        assert((n / 10) * 10 + n % 10 == n) by (nonlinear_arith);
    }
}

/// Reading back the decimal text of a number gives the number:
/// `atoi(&n.to_string()) == Ok(n)` for every `u32`.
pub proof fn lemma_parse_decimal_roundtrip(n: u32)
    ensures
        parse_u32(decimal_text(n as nat)) == Ok::<u32, ParseError>(n),
{
    lemma_decimal_text_shape(n as nat);
    lemma_scan_decimal_text(n as nat);
}

proof fn lemma_scan_ok_only_digits(d: Seq<char>)
    ensures
        scan_digits(d) is Ok ==> forall|i: int| 0 <= i < d.len() ==> '0' <= #[trigger] d[i] && d[i] <= '9',
    decreases d.len(),
{
    if d.len() > 0 {
        lemma_scan_ok_only_digits(d.drop_last());
        if scan_digits(d) is Ok {
            assert forall|i: int| 0 <= i < d.len() implies '0' <= #[trigger] d[i] && d[i] <= '9' by {
                if i < d.len() - 1 {
                    assert(d.drop_last()[i] == d[i]);
                }
            }
        }
    }
}

/// Only a non-empty text of ASCII digits, with at most one leading `+`,
/// reads as a number; the empty text is refused as empty.
pub proof fn lemma_parse_accepts_only_digits(s: Seq<char>)
    ensures
        parse_u32(s) is Ok ==> s.len() > 0 && !(s.len() == 1 && s[0] == '+') && forall|i: int|
            0 <= i < s.len() ==> ('0' <= #[trigger] s[i] && s[i] <= '9') || (i == 0 && s[i]
                == '+'),
        s.len() == 0 ==> parse_u32(s) == Err::<u32, ParseError>(ParseError::Empty),
{
    if s.len() > 0 && !(s[0] == '+' && s.len() == 1) {
        let d = if s[0] == '+' { s.drop_first() } else { s };
        lemma_scan_ok_only_digits(d);
        if parse_u32(s) is Ok {
            assert forall|i: int| 0 <= i < s.len() implies ('0' <= #[trigger] s[i] && s[i] <= '9')
                || (i == 0 && s[i] == '+') by {
                if s[0] == '+' && i > 0 {
                    assert(d[i - 1] == s[i]);
                } else if s[0] != '+' {
                    assert(d[i] == s[i]);
                }
            }
        }
    }
}

/// Whether two texts hold the same characters.
pub fn same_text(a: &str, b: &str) -> (res: bool)
    ensures
        res == (a@ == b@),
{
    let n = a.unicode_len();
    let m = b.unicode_len();
    if n != m {
        return false;
    }
    let mut i: usize = 0;
    while i < n
        invariant
            n == a@.len(),
            m == b@.len(),
            n == m,
            i <= n,
            forall|k: int| 0 <= k < i ==> a@[k] == b@[k],
        decreases n - i,
    {
        if a.get_char(i) != b.get_char(i) {
            return false;
        }
        i = i + 1;
    }
    assert(a@ =~= b@);
    true
}


/// `s` with every occurrence of `pat` replaced by `rep`, scanning from the
/// left and never overlapping, as `str::replace` does for a non-empty
/// pattern.
pub open spec fn replace_text(s: Seq<char>, pat: Seq<char>, rep: Seq<char>) -> Seq<char>
    decreases s.len(),
{
    if s.len() == 0 || pat.len() == 0 {
        s
    } else if pat.is_prefix_of(s) {
        rep + replace_text(s.skip(pat.len() as int), pat, rep)
    } else {
        seq![s[0]] + replace_text(s.drop_first(), pat, rep)
    }
}

/// Whether `pat` occurs in `s` at position `at`.
fn occurs_at(s: &str, n: usize, pat: &str, m: usize, at: usize) -> (res: bool)
    requires
        n == s@.len(),
        m == pat@.len(),
        at <= n,
    ensures
        res == pat@.is_prefix_of(s@.skip(at as int)),
{
    if m > n - at {
        return false;
    }
    let mut j: usize = 0;
    while j < m
        invariant
            n == s@.len(),
            m == pat@.len(),
            at + m <= n,
            j <= m,
            forall|k: int| 0 <= k < j ==> pat@[k] == s@[at + k],
        decreases m - j,
    {
        if s.get_char(at + j) != pat.get_char(j) {
            assert(s@.skip(at as int)[j as int] == s@[at + j]);
            return false;
        }
        j = j + 1;
    }
    true
}

/// Replaces every occurrence of the non-empty `pat` in `s` with `rep`.
pub fn replace_all(s: &str, pat: &str, rep: &str) -> (res: String)
    requires
        pat@.len() > 0,
    ensures
        res@ == replace_text(s@, pat@, rep@),
{
    let n = s.unicode_len();
    let m = pat.unicode_len();
    let mut out = String::new();
    let mut i: usize = 0;
    assert(s@.skip(0) =~= s@);
    while i < n
        invariant
            n == s@.len(),
            m == pat@.len(),
            m > 0,
            i <= n,
            out@ + replace_text(s@.skip(i as int), pat@, rep@) == replace_text(s@, pat@, rep@),
        decreases n - i,
    {
        let ghost rest = s@.skip(i as int);
        if occurs_at(s, n, pat, m, i) {
            out.append(rep);
            proof {
                assert(rest.skip(m as int) =~= s@.skip(i + m));
                assert(out@ + replace_text(s@.skip(i + m), pat@, rep@) =~= replace_text(
                    s@,
                    pat@,
                    rep@,
                ));
            }
            i = i + m;
        } else {
            let one = s.substring_char(i, i + 1);
            out.append(one);
            proof {
                assert(rest.drop_first() =~= s@.skip(i + 1));
                assert(one@ =~= seq![rest[0]]);
                assert(out@ + replace_text(s@.skip(i + 1), pat@, rep@) =~= replace_text(
                    s@,
                    pat@,
                    rep@,
                ));
            }
            i = i + 1;
        }
    }
    assert(s@.skip(n as int) =~= Seq::<char>::empty());
    assert(out@ + Seq::<char>::empty() =~= out@);
    out
}

/// `s` without its NUL characters, in order.
pub open spec fn without_nul(s: Seq<char>) -> Seq<char>
    decreases s.len(),
{
    if s.len() == 0 {
        s
    } else if s.last() == '\0' {
        without_nul(s.drop_last())
    } else {
        without_nul(s.drop_last()).push(s.last())
    }
}

/// Removes the NUL characters of `s`. The flag tells whether there were
/// any. A NUL byte of UTF-8 text is exactly the encoding of a NUL
/// character, so this drops the same bytes as a byte-wise filter.
pub fn strip_nul(s: &str) -> (res: (String, bool))
    ensures
        res.0@ == without_nul(s@),
        res.0@ == s@.filter(|c: char| c != '\0'),
        res.1 == s@.contains('\0'),
{
    proof {
        lemma_without_nul_is_filter(s@);
    }
    let n = s.unicode_len();
    let mut out = String::new();
    let mut found = false;
    let mut i: usize = 0;
    while i < n
        invariant
            n == s@.len(),
            i <= n,
            out@ == without_nul(s@.take(i as int)),
            found == s@.take(i as int).contains('\0'),
        decreases n - i,
    {
        let c = s.get_char(i);
        proof {
            assert(s@.take(i + 1).drop_last() =~= s@.take(i as int));
            assert(s@.take(i + 1).last() == c);
        }
        if c == '\0' {
            found = true;
            assert(s@.take(i + 1)[i as int] == '\0');
        } else {
            let one = s.substring_char(i, i + 1);
            assert(one@ =~= seq![c]);
            out.append(one);
            assert(out@ =~= without_nul(s@.take(i as int)).push(c));
            proof {
                if s@.take(i + 1).contains('\0') {
                    let k = choose|k: int| 0 <= k < i + 1 && #[trigger] s@.take(i + 1)[k] == '\0';
                    assert(s@.take(i as int)[k] == '\0');
                }
            }
        }
        i = i + 1;
    }
    assert(s@.take(n as int) =~= s@);
    (out, found)
}

/// Stripping NUL characters keeps every other character, in order.
pub proof fn lemma_without_nul_is_filter(s: Seq<char>)
    ensures
        without_nul(s) == s.filter(|c: char| c != '\0'),
    decreases s.len(),
{
    reveal(Seq::filter);
    if s.len() > 0 {
        lemma_without_nul_is_filter(s.drop_last());
    }
}

/// Text without NUL characters holds none.
pub proof fn lemma_without_nul_has_none(s: Seq<char>)
    ensures
        !without_nul(s).contains('\0'),
    decreases s.len(),
{
    if s.len() > 0 {
        lemma_without_nul_has_none(s.drop_last());
        let r = without_nul(s.drop_last());
        if s.last() != '\0' {
            assert forall|k: int| 0 <= k < r.len() + 1 implies r.push(s.last())[k] != '\0' by {
                if k < r.len() {
                    assert(r.push(s.last())[k] == r[k]);
                }
            }
        }
    }
}

/// Stripping NUL characters twice gives what stripping once gives.
pub proof fn lemma_strip_nul_idempotent(s: Seq<char>)
    ensures
        without_nul(without_nul(s)) == without_nul(s),
    decreases s.len(),
{
    if s.len() > 0 {
        lemma_strip_nul_idempotent(s.drop_last());
        let r = without_nul(s.drop_last());
        if s.last() != '\0' {
            assert(r.push(s.last()).drop_last() =~= r);
        }
    }
}

} // verus!
