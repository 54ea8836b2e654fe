//! Character-level helpers shared by every module: the few `str`/`String`
//! conversions the rest of the crate builds on, and ASCII classification.

use vstd::prelude::*;

verus! {

broadcast use vstd::string::axiom_spec_iter;

/// `str` equality: true exactly when both hold the same characters.
pub(crate) fn str_eq(a: &str, b: &str) -> (r: bool)
    ensures
        r == (a@ == b@),
{
    let ca = chars_of(a);
    chars_eq(ca.as_slice(), b)
}

/// The characters of `s`, in order.
pub(crate) fn chars_of(s: &str) -> (v: Vec<char>)
    ensures
        v@ == s@,
{
    let mut v: Vec<char> = Vec::new();
    for c in it: s.chars()
        invariant
            it.seq() == s@,
            v@ == it.seq().take(it.index() as int),
    {
        proof {
            assert(it.seq().take(it.index() + 1) =~= it.seq().take(it.index() as int).push(c));
        }
        v.push(c);
    }
    assert(s@.take(s@.len() as int) =~= s@);
    v
}

/// A `String` holding exactly the characters of `v` (`String: FromIterator<char>`).
#[verifier::external_body]
pub(crate) fn string_from_chars(v: &[char]) -> (s: String)
    ensures
        s@ == v@,
{
    v.iter().collect()
}

/// `'0'..='9'`.
pub open spec fn is_digit(c: char) -> bool {
    '0' <= c && c <= '9'
}

/// `'a'..='z'`.
pub open spec fn is_lower(c: char) -> bool {
    'a' <= c && c <= 'z'
}

/// `'A'..='Z'`.
pub open spec fn is_upper(c: char) -> bool {
    'A' <= c && c <= 'Z'
}

/// ASCII letter or digit.
pub open spec fn is_alnum(c: char) -> bool {
    is_digit(c) || is_lower(c) || is_upper(c)
}

/// ASCII letter, digit or `_`: a character of a C identifier.
pub open spec fn is_ident_char(c: char) -> bool {
    is_alnum(c) || c == '_'
}

pub fn ascii_digit(c: char) -> (r: bool)
    ensures
        r == is_digit(c),
{
    c >= '0' && c <= '9'
}

pub fn ascii_lower(c: char) -> (r: bool)
    ensures
        r == is_lower(c),
{
    c >= 'a' && c <= 'z'
}

pub fn ascii_upper(c: char) -> (r: bool)
    ensures
        r == is_upper(c),
{
    c >= 'A' && c <= 'Z'
}

pub fn ascii_alnum(c: char) -> (r: bool)
    ensures
        r == is_alnum(c),
{
    ascii_digit(c) || ascii_lower(c) || ascii_upper(c)
}

pub fn ident_char(c: char) -> (r: bool)
    ensures
        r == is_ident_char(c),
{
    ascii_alnum(c) || c == '_'
}

// ---------------------------------------------------------------------------
// Searching and slicing
// ---------------------------------------------------------------------------

/// `i` is the first position of `c` in `s`.
pub open spec fn first_at(s: Seq<char>, c: char, i: int) -> bool {
    0 <= i < s.len() && s[i] == c && forall|j: int| 0 <= j < i ==> s[j] != c
}

/// Position of the first `c` in `s` (`str::find` with a `char` pattern).
pub open spec fn find(s: Seq<char>, c: char) -> Option<int> {
    if exists|i: int| first_at(s, c, i) {
        Some(choose|i: int| first_at(s, c, i))
    } else {
        None
    }
}

/// The first position is unique, so `find` names it.
pub proof fn lemma_find_is_first(s: Seq<char>, c: char, i: int)
    requires
        first_at(s, c, i),
    ensures
        find(s, c) == Some(i),
{
    let k = choose|k: int| first_at(s, c, k);
    assert(first_at(s, c, k));
    if k < i {
        assert(s[k] != c);
    } else if i < k {
        assert(s[i] != c);
    }
}

/// A character that occurs has a first occurrence.
pub proof fn lemma_find_some(s: Seq<char>, c: char, k: int)
    requires
        0 <= k < s.len(),
        s[k] == c,
    ensures
        find(s, c) is Some,
    decreases k,
{
    if forall|j: int| 0 <= j < k ==> s[j] != c {
        assert(first_at(s, c, k));
    } else {
        let j = choose|j: int| 0 <= j < k && s[j] == c;
        lemma_find_some(s, c, j);
    }
}

/// Position of the first `c` in `s[lo..hi]`, as an index into `s`.
pub fn find_in(s: &[char], c: char, lo: usize, hi: usize) -> (r: Option<usize>)
    requires
        lo <= hi <= s@.len(),
    ensures
        match r {
            Some(i) => lo <= i < hi && find(s@.subrange(lo as int, hi as int), c) == Some(i - lo),
            None => find(s@.subrange(lo as int, hi as int), c) is None,
        },
{
    let ghost t = s@.subrange(lo as int, hi as int);
    let mut i = lo;
    while i < hi
        invariant
            lo <= i <= hi <= s@.len(),
            t == s@.subrange(lo as int, hi as int),
            forall|j: int| 0 <= j < i - lo ==> t[j] != c,
        decreases hi - i,
    {
        if s[i] == c {
            proof {
                assert(t[i - lo] == c);
                lemma_find_is_first(t, c, i - lo);
            }
            return Some(i);
        }
        i = i + 1;
    }
    proof {
        if (exists|k: int| first_at(t, c, k)) {
            let k = choose|k: int| first_at(t, c, k);
            assert(t[k] != c);
        }
    }
    None
}

/// `s[from..to]` as a new vector.
pub fn slice_of(s: &[char], from: usize, to: usize) -> (r: Vec<char>)
    requires
        from <= to <= s@.len(),
    ensures
        r@ == s@.subrange(from as int, to as int),
{
    let mut r: Vec<char> = Vec::new();
    let mut i = from;
    while i < to
        invariant
            from <= i <= to <= s@.len(),
            r@ == s@.subrange(from as int, i as int),
        decreases to - i,
    {
        r.push(s[i]);
        i = i + 1;
    }
    r
}

/// `s[lo..hi]` holds exactly the characters of `t`.
pub fn range_eq(s: &[char], lo: usize, hi: usize, t: &str) -> (r: bool)
    requires
        lo <= hi <= s@.len(),
    ensures
        r == (s@.subrange(lo as int, hi as int) == t@),
{
    let tv = chars_of(t);
    if hi - lo != tv.len() {
        return false;
    }
    let mut i: usize = 0;
    while i < tv.len()
        invariant
            lo <= hi <= s@.len(),
            hi - lo == tv@.len(),
            i <= tv@.len(),
            tv@ == t@,
            forall|j: int| 0 <= j < i ==> s@[lo + j] == tv@[j],
        decreases tv.len() - i,
    {
        if s[lo + i] != tv[i] {
            assert(s@.subrange(lo as int, hi as int)[i as int] != tv@[i as int]);
            return false;
        }
        i = i + 1;
    }
    assert(s@.subrange(lo as int, hi as int) =~= tv@);
    true
}

/// Characters equal to `t`.
pub fn chars_eq(s: &[char], t: &str) -> (r: bool)
    ensures
        r == (s@ == t@),
{
    let tv = chars_of(t);
    if s.len() != tv.len() {
        return false;
    }
    let mut i: usize = 0;
    while i < s.len()
        invariant
            i <= s@.len() == tv@.len(),
            tv@ == t@,
            forall|j: int| 0 <= j < i ==> s@[j] == tv@[j],
        decreases s.len() - i,
    {
        if s[i] != tv[i] {
            assert(s@[i as int] != tv@[i as int]);
            return false;
        }
        i = i + 1;
    }
    assert(s@ =~= tv@);
    true
}

/// A `String` holding the characters of `s` from `lo` up to `hi`.
pub fn string_between(s: &[char], lo: usize, hi: usize) -> (r: String)
    requires
        lo <= hi <= s@.len(),
    ensures
        r@ == s@.subrange(lo as int, hi as int),
{
    let v = slice_of(s, lo, hi);
    string_from_chars(v.as_slice())
}

// ---------------------------------------------------------------------------
// Whitespace trimming (`str::trim`)
// ---------------------------------------------------------------------------

/// Unicode `White_Space` (what `char::is_whitespace` tests).
pub open spec fn is_space(c: char) -> bool {
    ('\u{9}' <= c && c <= '\u{d}') || c == ' ' || c == '\u{85}' || c == '\u{a0}'
        || c == '\u{1680}' || ('\u{2000}' <= c && c <= '\u{200a}') || c == '\u{2028}'
        || c == '\u{2029}' || c == '\u{202f}' || c == '\u{205f}' || c == '\u{3000}'
}

pub fn white_space(c: char) -> (r: bool)
    ensures
        r == is_space(c),
{
    (c >= '\u{9}' && c <= '\u{d}') || c == ' ' || c == '\u{85}' || c == '\u{a0}'
        || c == '\u{1680}' || (c >= '\u{2000}' && c <= '\u{200a}') || c == '\u{2028}'
        || c == '\u{2029}' || c == '\u{202f}' || c == '\u{205f}' || c == '\u{3000}'
}

/// `s` without leading whitespace.
pub open spec fn trim_start(s: Seq<char>) -> Seq<char>
    decreases s.len(),
{
    if s.len() > 0 && is_space(s[0]) {
        trim_start(s.drop_first())
    } else {
        s
    }
}

/// `s` without trailing whitespace.
pub open spec fn trim_end(s: Seq<char>) -> Seq<char>
    decreases s.len(),
{
    if s.len() > 0 && is_space(s.last()) {
        trim_end(s.drop_last())
    } else {
        s
    }
}

/// `s` without leading or trailing whitespace (`str::trim`).
pub open spec fn trim(s: Seq<char>) -> Seq<char> {
    trim_end(trim_start(s))
}

/// Index of the first non-whitespace character of `s[lo..hi]` (or `hi`).
pub fn skip_space(s: &[char], lo: usize, hi: usize) -> (r: usize)
    requires
        lo <= hi <= s@.len(),
    ensures
        lo <= r <= hi,
        trim_start(s@.subrange(lo as int, hi as int)) == s@.subrange(r as int, hi as int),
{
    let mut i = lo;
    while i < hi && white_space(s[i])
        invariant
            lo <= i <= hi <= s@.len(),
            trim_start(s@.subrange(lo as int, hi as int)) == trim_start(s@.subrange(i as int, hi as int)),
        decreases hi - i,
    {
        assert(s@.subrange(i as int, hi as int).drop_first() =~= s@.subrange(i + 1, hi as int));
        i = i + 1;
    }
    i
}

/// One past the last non-whitespace character of `s[lo..hi]` (or `lo`).
pub fn skip_space_back(s: &[char], lo: usize, hi: usize) -> (r: usize)
    requires
        lo <= hi <= s@.len(),
    ensures
        lo <= r <= hi,
        trim_end(s@.subrange(lo as int, hi as int)) == s@.subrange(lo as int, r as int),
{
    let mut j = hi;
    while j > lo && white_space(s[j - 1])
        invariant
            lo <= j <= hi <= s@.len(),
            trim_end(s@.subrange(lo as int, hi as int)) == trim_end(s@.subrange(lo as int, j as int)),
        decreases j - lo,
    {
        assert(s@.subrange(lo as int, j as int).drop_last() =~= s@.subrange(lo as int, j - 1));
        j = j - 1;
    }
    j
}

/// Bounds of `trim(s[lo..hi])` inside `s`.
pub fn trim_bounds(s: &[char], lo: usize, hi: usize) -> (r: (usize, usize))
    requires
        lo <= hi <= s@.len(),
    ensures
        lo <= r.0 <= r.1 <= hi,
        trim(s@.subrange(lo as int, hi as int)) == s@.subrange(r.0 as int, r.1 as int),
{
    let a = skip_space(s, lo, hi);
    let b = skip_space_back(s, a, hi);
    (a, b)
}

// ---------------------------------------------------------------------------
// Splitting
// ---------------------------------------------------------------------------

/// `s` split at every `c` (`str::split` with a `char` pattern): always at
/// least one piece.
#[verifier::opaque]
pub open spec fn split(s: Seq<char>, c: char) -> Seq<Seq<char>>
    decreases s.len(),
{
    match find(s, c) {
        Some(i) => if 0 <= i < s.len() {
            seq![s.subrange(0, i)] + split(s.subrange(i + 1, s.len() as int), c)
        } else {
            seq![s]
        },
        None => seq![s],
    }
}

/// The text each range of `r` covers in `s`.
pub open spec fn pieces(s: Seq<char>, r: Seq<(usize, usize)>) -> Seq<Seq<char>> {
    r.map_values(|p: (usize, usize)| s.subrange(p.0 as int, p.1 as int))
}

/// Bounds of the pieces of `s[lo..hi]` split at every `c`.
pub fn split_ranges(s: &[char], c: char, lo: usize, hi: usize) -> (r: Vec<(usize, usize)>)
    requires
        lo <= hi <= s@.len(),
    ensures
        pieces(s@, r@) == split(s@.subrange(lo as int, hi as int), c),
        forall|k: int| 0 <= k < r@.len() ==> lo <= #[trigger] r@[k].0 <= r@[k].1 <= hi,
{
    reveal(split);
    let mut r: Vec<(usize, usize)> = Vec::new();
    let mut start = lo;
    loop
        invariant
            lo <= start <= hi <= s@.len(),
            split(s@.subrange(lo as int, hi as int), c) == pieces(s@, r@) + split(
                s@.subrange(start as int, hi as int),
                c,
            ),
            forall|k: int| 0 <= k < r@.len() ==> lo <= #[trigger] r@[k].0 <= r@[k].1 <= hi,
        decreases hi - start,
    {
        reveal(split);
        let ghost t = s@.subrange(start as int, hi as int);
        let ghost old_r = r@;
        match find_in(s, c, start, hi) {
            Some(i) => {
                proof {
                    assert(t.subrange(0, i - start) =~= s@.subrange(start as int, i as int));
                    assert(t.subrange(i - start + 1, t.len() as int) =~= s@.subrange(i + 1, hi as int));
                }
                r.push((start, i));
                proof {
                    assert(pieces(s@, r@) =~= pieces(s@, old_r).push(s@.subrange(start as int, i as int)));
                }
                start = i + 1;
            },
            None => {
                r.push((start, hi));
                proof {
                    assert(pieces(s@, r@) =~= pieces(s@, old_r).push(t));
                    assert(split(s@.subrange(lo as int, hi as int), c) =~= pieces(s@, r@));
                }
                return r;
            },
        }
    }
}

// ---------------------------------------------------------------------------
// Decimal integers
// ---------------------------------------------------------------------------

/// Why a decimal integer failed to parse (mirrors `core::num::IntErrorKind`).
#[derive(Debug, Clone, Copy, PartialEq, Eq, Structural)]
pub enum IntErrorKind {
    /// The text is empty.
    Empty,
    /// A character that is not a decimal digit.
    InvalidDigit,
    /// The value does not fit the target type.
    PosOverflow,
}

/// The value of `char` `c` as a digit (`c` a digit).
pub open spec fn digit_value(c: char) -> int {
    c as int - 48
}

/// Scan the digits of `d` left to right, stopping at the first non-digit
/// or the first prefix whose value exceeds `u32::MAX`.
pub open spec fn digits_value(d: Seq<char>) -> Result<nat, IntErrorKind>
    decreases d.len(),
{
    if d.len() == 0 {
        Ok(0)
    } else {
        match digits_value(d.drop_last()) {
            Err(e) => Err(e),
            Ok(v) => if !is_digit(d.last()) {
                Err(IntErrorKind::InvalidDigit)
            } else if v * 10 + digit_value(d.last()) > u32::MAX {
                Err(IntErrorKind::PosOverflow)
            } else {
                Ok((v * 10 + digit_value(d.last())) as nat)
            },
        }
    }
}

/// `u32::from_str` on `s`: an optional leading `+`, then decimal digits.
pub open spec fn parse_u32_spec(s: Seq<char>) -> Result<u32, IntErrorKind> {
    if s.len() == 0 {
        Err(IntErrorKind::Empty)
    } else if s.len() == 1 && (s[0] == '+' || s[0] == '-') {
        Err(IntErrorKind::InvalidDigit)
    } else {
        let body = if s[0] == '+' { s.drop_first() } else { s };
        match digits_value(body) {
            Ok(v) => Ok(v as u32),
            Err(e) => Err(e),
        }
    }
}

/// Parse `s[lo..hi]` as a `u32`, exactly as `u32::from_str` does.
pub fn parse_u32(s: &[char], lo: usize, hi: usize) -> (r: Result<u32, IntErrorKind>)
    requires
        lo <= hi <= s@.len(),
    ensures
        r == parse_u32_spec(s@.subrange(lo as int, hi as int)),
{
    let ghost t = s@.subrange(lo as int, hi as int);
    if lo == hi {
        return Err(IntErrorKind::Empty);
    }
    if hi - lo == 1 && (s[lo] == '+' || s[lo] == '-') {
        return Err(IntErrorKind::InvalidDigit);
    }
    let start = if s[lo] == '+' { lo + 1 } else { lo };
    let ghost body = s@.subrange(start as int, hi as int);
    assert(t.len() == hi - lo && t[0] == s@[lo as int]);
    assert(body == (if t[0] == '+' { t.drop_first() } else { t }));
    let mut acc: u32 = 0;
    let mut i = start;
    while i < hi
        invariant
            lo <= start <= i <= hi <= s@.len(),
            body == s@.subrange(start as int, hi as int),
            parse_u32_spec(s@.subrange(lo as int, hi as int)) == (match digits_value(body) {
                Ok(v) => Ok(v as u32),
                Err(e) => Err(e),
            }),
            digits_value(s@.subrange(start as int, i as int)) == Ok::<nat, IntErrorKind>(acc as nat),
        decreases hi - i,
    {
        let c = s[i];
        assert(s@.subrange(start as int, i + 1).drop_last() =~= s@.subrange(start as int, i as int));
        assert(body.subrange(0, (i - start) + 1) =~= s@.subrange(start as int, i + 1));
        if !ascii_digit(c) {
            proof {
                lemma_digits_error_sticks(body, (i - start) as int, IntErrorKind::InvalidDigit);
                assert(digits_value(body) == Err::<nat, IntErrorKind>(IntErrorKind::InvalidDigit));
            }
            return Err(IntErrorKind::InvalidDigit);
        }
        let d: u32 = (c as u32) - 48;
        if acc > 429496729 || (acc == 429496729 && d > 5) {
            proof {
                lemma_digits_error_sticks(body, (i - start) as int, IntErrorKind::PosOverflow);
                assert(digits_value(body) == Err::<nat, IntErrorKind>(IntErrorKind::PosOverflow));
            }
            return Err(IntErrorKind::PosOverflow);
        }
        acc = acc * 10 + d;
        i = i + 1;
    }
    assert(s@.subrange(start as int, hi as int) =~= body);
    Ok(acc)
}

/// Once a prefix of the digits fails, the whole digit string fails the same
/// way.
proof fn lemma_digits_error_sticks(d: Seq<char>, k: int, e: IntErrorKind)
    requires
        0 <= k < d.len(),
        digits_value(d.subrange(0, k + 1)) == Err::<nat, IntErrorKind>(e),
    ensures
        digits_value(d) == Err::<nat, IntErrorKind>(e),
    decreases d.len() - k,
{
    if k + 1 == d.len() {
        assert(d.subrange(0, k + 1) =~= d);
    } else {
        assert(d.subrange(0, k + 2).drop_last() =~= d.subrange(0, k + 1));
        lemma_digits_error_sticks(d, k + 1, e);
    }
}

/// The ASCII digit for `d` (`0 <= d < 10`).
pub open spec fn digit_char(d: nat) -> char {
    (d + 48) as char
}

/// Decimal spelling of `n`, most significant digit first, no leading zeros.
pub open spec fn decimal(n: nat) -> Seq<char>
    decreases n,
{
    if n < 10 {
        seq![digit_char(n)]
    } else {
        decimal(n / 10).push(digit_char(n % 10))
    }
}

/// Append the decimal spelling of `n` to `out`.
pub fn push_decimal(out: &mut Vec<char>, n: u64)
    ensures
        final(out)@ == old(out)@ + decimal(n as nat),
    decreases n,
{
    if n >= 10 {
        push_decimal(out, n / 10);
    }
    let d: u8 = (n % 10) as u8;
    out.push((d + 48) as char);
    proof {
        assert(n >= 10 ==> decimal(n as nat) == decimal((n / 10) as nat).push(digit_char((n % 10) as nat)));
    }
}

/// Append the characters of `s` to `out`.
pub fn push_str(out: &mut Vec<char>, s: &str)
    ensures
        final(out)@ == old(out)@ + s@,
{
    let mut v = chars_of(s);
    out.append(&mut v);
}

/// The ASCII uppercase of `c`: `a`-`z` become `A`-`Z`, anything else
/// stays.
pub open spec fn to_ascii_upper(c: char) -> char {
    if is_lower(c) {
        ((c as int) - 32) as char
    } else {
        c
    }
}

/// Every character is ASCII.
pub open spec fn all_ascii(s: Seq<char>) -> bool {
    forall|i: int| 0 <= i < s.len() ==> (#[trigger] s[i] as u32) < 128
}

/// What `str::to_uppercase` gives for a string: the Unicode uppercase
/// mapping of every character, which may change the length (`ß` → `SS`).
pub uninterp spec fn unicode_upper(s: Seq<char>) -> Seq<char>;

/// `str::to_uppercase`.  Claimed: the result depends on the characters of
/// `s` alone, and on ASCII text it is the ASCII uppercase, character by
/// character (the Unicode uppercase of `a`-`z` is `A`-`Z`, and other ASCII
/// characters have none).
#[verifier::external_body]
pub(crate) fn to_upper(s: &str) -> (r: String)
    ensures
        r@ == unicode_upper(s@),
        all_ascii(s@) ==> r@ == s@.map_values(|c: char| to_ascii_upper(c)),
{
    s.to_uppercase()
}

/// The value of digit `c` in base `radix` (10 or 16), if it is one.
pub open spec fn radix_digit(c: char, radix: nat) -> Option<nat> {
    if is_digit(c) {
        Some((c as int - 48) as nat)
    } else if radix == 16 && 'a' <= c && c <= 'f' {
        Some((c as int - 87) as nat)
    } else if radix == 16 && 'A' <= c && c <= 'F' {
        Some((c as int - 55) as nat)
    } else {
        None
    }
}

/// Scan the digits of `d` in base `radix` left to right, stopping at the
/// first non-digit or the first prefix whose value exceeds `u64::MAX`.
pub open spec fn radix_value(d: Seq<char>, radix: nat) -> Result<nat, IntErrorKind>
    decreases d.len(),
{
    if d.len() == 0 {
        Ok(0)
    } else {
        match radix_value(d.drop_last(), radix) {
            Err(e) => Err(e),
            Ok(v) => match radix_digit(d.last(), radix) {
                None => Err(IntErrorKind::InvalidDigit),
                Some(x) => if v * radix + x > u64::MAX {
                    Err(IntErrorKind::PosOverflow)
                } else {
                    Ok(v * radix + x)
                },
            },
        }
    }
}

/// `u64::from_str_radix(s, radix)`: an optional leading `+`, then digits.
pub open spec fn parse_u64_spec(s: Seq<char>, radix: nat) -> Result<u64, IntErrorKind> {
    if s.len() == 0 {
        Err(IntErrorKind::Empty)
    } else if s.len() == 1 && (s[0] == '+' || s[0] == '-') {
        Err(IntErrorKind::InvalidDigit)
    } else {
        let body = if s[0] == '+' { s.drop_first() } else { s };
        match radix_value(body, radix) {
            Ok(v) => Ok(v as u64),
            Err(e) => Err(e),
        }
    }
}

/// Once a prefix of the digits fails, the whole digit string fails the same
/// way.
proof fn lemma_radix_error_sticks(d: Seq<char>, radix: nat, k: int, e: IntErrorKind)
    requires
        0 <= k < d.len(),
        radix_value(d.subrange(0, k + 1), radix) == Err::<nat, IntErrorKind>(e),
    ensures
        radix_value(d, radix) == Err::<nat, IntErrorKind>(e),
    decreases d.len() - k,
{
    if k + 1 == d.len() {
        assert(d.subrange(0, k + 1) =~= d);
    } else {
        assert(d.subrange(0, k + 2).drop_last() =~= d.subrange(0, k + 1));
        lemma_radix_error_sticks(d, radix, k + 1, e);
    }
}

/// The digit value of `c` in base `radix`, computed.
fn radix_digit_of(c: char, radix: u64) -> (r: Option<u64>)
    requires
        radix == 10 || radix == 16,
    ensures
        match radix_digit(c, radix as nat) {
            Some(x) => r == Some(x as u64),
            None => r is None,
        },
{
    if c >= '0' && c <= '9' {
        Some((c as u64) - 48)
    } else if radix == 16 && c >= 'a' && c <= 'f' {
        Some((c as u64) - 87)
    } else if radix == 16 && c >= 'A' && c <= 'F' {
        Some((c as u64) - 55)
    } else {
        None
    }
}

/// Parse `s[lo..hi]` as a `u64` in base 10 or 16, exactly as
/// `u64::from_str_radix` does.
pub fn parse_u64_radix(s: &[char], lo: usize, hi: usize, radix: u64) -> (r: Result<u64, IntErrorKind>)
    requires
        lo <= hi <= s@.len(),
        radix == 10 || radix == 16,
    ensures
        r == parse_u64_spec(s@.subrange(lo as int, hi as int), radix as nat),
{
    let ghost t = s@.subrange(lo as int, hi as int);
    if lo == hi {
        return Err(IntErrorKind::Empty);
    }
    if hi - lo == 1 && (s[lo] == '+' || s[lo] == '-') {
        return Err(IntErrorKind::InvalidDigit);
    }
    let start = if s[lo] == '+' { lo + 1 } else { lo };
    let ghost body = s@.subrange(start as int, hi as int);
    assert(t.len() == hi - lo && t[0] == s@[lo as int]);
    assert(body == (if t[0] == '+' { t.drop_first() } else { t }));
    let mut acc: u64 = 0;
    let mut i = start;
    while i < hi
        invariant
            lo <= start <= i <= hi <= s@.len(),
            radix == 10 || radix == 16,
            body == s@.subrange(start as int, hi as int),
            parse_u64_spec(s@.subrange(lo as int, hi as int), radix as nat) == (match radix_value(
                body,
                radix as nat,
            ) {
                Ok(v) => Ok(v as u64),
                Err(e) => Err(e),
            }),
            radix_value(s@.subrange(start as int, i as int), radix as nat) == Ok::<nat, IntErrorKind>(
                acc as nat,
            ),
        decreases hi - i,
    {
        let c = s[i];
        assert(s@.subrange(start as int, i + 1).drop_last() =~= s@.subrange(start as int, i as int));
        assert(body.subrange(0, (i - start) + 1) =~= s@.subrange(start as int, i + 1));
        let d = match radix_digit_of(c, radix) {
            None => {
                proof {
                    lemma_radix_error_sticks(body, radix as nat, (i - start) as int, IntErrorKind::InvalidDigit);
                }
                return Err(IntErrorKind::InvalidDigit);
            },
            Some(d) => d,
        };
        if acc > (u64::MAX - d) / radix {
            proof {
                assert(acc * radix + d > u64::MAX) by (nonlinear_arith)
                    requires
                        acc > (u64::MAX - d) / (radix as int),
                        radix > 0,
                        d <= u64::MAX,
                ;
                lemma_radix_error_sticks(body, radix as nat, (i - start) as int, IntErrorKind::PosOverflow);
            }
            return Err(IntErrorKind::PosOverflow);
        }
        proof {
            assert(acc * radix + d <= u64::MAX) by (nonlinear_arith)
                requires
                    acc <= (u64::MAX - d) / (radix as int),
                    radix > 0,
                    d <= u64::MAX,
            ;
        }
        acc = acc * radix + d;
        i = i + 1;
    }
    assert(s@.subrange(start as int, hi as int) =~= body);
    Ok(acc)
}

/// A line without the `\r` of a `\r\n` ending.
pub open spec fn cut_cr(l: Seq<char>) -> Seq<char> {
    if l.len() > 0 && l.last() == '\r' {
        l.drop_last()
    } else {
        l
    }
}

/// The lines of `s`, as `str::lines` yields them: split after each `\n`,
/// each without its `\n` or `\r\n` ending; a final line ending is
/// optional and adds no empty line.
pub open spec fn lines(s: Seq<char>) -> Seq<Seq<char>>
    decreases s.len(),
{
    if s.len() == 0 {
        Seq::empty()
    } else {
        match find(s, '\n') {
            None => seq![s],
            Some(k) => if 0 <= k < s.len() {
                seq![cut_cr(s.subrange(0, k))] + lines(s.subrange(k + 1, s.len() as int))
            } else {
                Seq::empty()
            },
        }
    }
}

} // verus!
