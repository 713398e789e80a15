//! Character-level text utilities shared by the parsers of the library:
//! conversion between strings and character vectors, searching, trimming,
//! and decimal formatting and parsing of integers.
use vstd::prelude::*;
use vstd::utf8::encode_utf8;

verus! {

/// Number of bytes of the UTF-8 encoding of a character sequence
/// (what `str::len` returns).
pub open spec fn byte_len(s: Seq<char>) -> nat {
    encode_utf8(s).len()
}

/// Every character takes at most four bytes in UTF-8.
pub proof fn lemma_byte_len_bound(s: Seq<char>)
    ensures
        byte_len(s) <= 4 * s.len(),
    decreases s.len(),
{
    if s.len() > 0 {
        lemma_byte_len_bound(s.drop_first());
        assert(encode_utf8(s) == vstd::utf8::encode_scalar(s[0] as u32) + encode_utf8(
            s.drop_first(),
        ));
    }
}

/// `String::push`: appends one character at the end of a string.
#[verifier::external_body]
pub(crate) fn push_char(s: &mut String, c: char)
    ensures
        final(s)@ == old(s)@.push(c),
{
    s.push(c);
}

/// The characters of a string, in order.
pub fn to_chars(s: &str) -> (v: Vec<char>)
    ensures
        v@ == s@,
{
    let mut v: Vec<char> = Vec::new();
    for c in it: s.chars()
        invariant
            it.seq() == s@,
            v@ == it.seq().take(it.index() as int),
    {
        proof {
            assert(it.seq().take(it.index() + 1) =~= it.seq().take(it.index() as int).push(c));
        }
        v.push(c);
    }
    v
}

/// Whether two texts are equal.
pub fn str_eq(a: &str, b: &str) -> (r: bool)
    ensures
        r == (a@ == b@),
{
    let sa = a.to_string();
    let sb = b.to_string();
    sa == sb
}

/// The string made of the characters `v[lo..hi]`.
pub fn from_chars(v: &Vec<char>, lo: usize, hi: usize) -> (s: String)
    requires
        lo <= hi <= v.len(),
    ensures
        s@ == v@.subrange(lo as int, hi as int),
{
    let mut s = String::new();
    let mut i = lo;
    while i < hi
        invariant
            lo <= i <= hi <= v.len(),
            s@ == v@.subrange(lo as int, i as int),
        decreases hi - i,
    {
        push_char(&mut s, v[i]);
        proof {
            assert(v@.subrange(lo as int, i + 1) =~= v@.subrange(lo as int, i as int).push(v@[i as int]));
        }
        i = i + 1;
    }
    s
}

/// A copy of the characters `v[lo..hi]`.
pub fn sub_chars(v: &Vec<char>, lo: usize, hi: usize) -> (r: Vec<char>)
    requires
        lo <= hi <= v.len(),
    ensures
        r@ == v@.subrange(lo as int, hi as int),
{
    let mut r: Vec<char> = Vec::new();
    let mut i = lo;
    while i < hi
        invariant
            lo <= i <= hi <= v.len(),
            r@ == v@.subrange(lo as int, i as int),
        decreases hi - i,
    {
        r.push(v[i]);
        proof {
            assert(v@.subrange(lo as int, i + 1) =~= v@.subrange(lo as int, i as int).push(v@[i as int]));
        }
        i = i + 1;
    }
    r
}

/// Whether `pat` occurs in `s` at position `i`.
pub open spec fn occurs_at(s: Seq<char>, i: int, pat: Seq<char>) -> bool {
    0 <= i && i + pat.len() <= s.len() && s.subrange(i, i + pat.len()) == pat
}

/// Whether the sequence `s` begins with `pat`.
pub open spec fn starts_with(s: Seq<char>, pat: Seq<char>) -> bool {
    occurs_at(s, 0, pat)
}

/// Whether `pat` occurs in `v` at position `i`.
pub fn matches_at(v: &Vec<char>, i: usize, pat: &Vec<char>) -> (r: bool)
    ensures
        r == occurs_at(v@, i as int, pat@),
{
    if i > v.len() || pat.len() > v.len() - i {
        return false;
    }
    let mut k: usize = 0;
    while k < pat.len()
        invariant
            i + pat.len() <= v.len(),
            k <= pat.len(),
            forall|j: int| 0 <= j < k ==> v@[i + j] == pat@[j],
        decreases pat.len() - k,
    {
        if v[i + k] != pat[k] {
            proof {
                assert(v@.subrange(i as int, i + pat@.len())[k as int] != pat@[k as int]);
            }
            return false;
        }
        k = k + 1;
    }
    proof {
        assert(v@.subrange(i as int, i + pat@.len()) =~= pat@);
    }
    true
}

/// The first position at or after `start` where `pat` occurs in `s`.
pub open spec fn first_occurrence(s: Seq<char>, start: int, pat: Seq<char>) -> Option<int> {
    if exists|k: int| start <= k && occurs_at(s, k, pat) {
        Some(choose|k: int| start <= k && occurs_at(s, k, pat)
            && forall|j: int| start <= j < k ==> !occurs_at(s, j, pat))
    } else {
        None
    }
}

/// Characterisation of `first_occurrence` by its minimality.
pub proof fn lemma_first_occurrence(s: Seq<char>, start: int, pat: Seq<char>, k: int)
    requires
        0 <= start <= k,
        occurs_at(s, k, pat),
        forall|j: int| start <= j < k ==> !occurs_at(s, j, pat),
    ensures
        first_occurrence(s, start, pat) == Some(k),
{
    let w = choose|k: int| start <= k && occurs_at(s, k, pat)
        && forall|j: int| start <= j < k ==> !occurs_at(s, j, pat);
    assert(start <= k && occurs_at(s, k, pat)
        && forall|j: int| start <= j < k ==> !occurs_at(s, j, pat));
    if w < k {
        assert(!occurs_at(s, w, pat));
    } else if w > k {
        assert(!occurs_at(s, k, pat));
    }
}

/// Some occurrence is the first one.
pub proof fn lemma_least_occurrence(s: Seq<char>, start: int, pat: Seq<char>, k: int)
    requires
        start <= k,
        occurs_at(s, k, pat),
    ensures
        exists|m: int|
            start <= m && occurs_at(s, m, pat) && forall|j: int| start <= j < m ==> !occurs_at(s, j, pat),
    decreases k - start,
{
    if exists|j: int| start <= j < k && occurs_at(s, j, pat) {
        let j = choose|j: int| start <= j < k && occurs_at(s, j, pat);
        lemma_least_occurrence(s, start, pat, j);
    } else {
        assert(forall|j: int| start <= j < k ==> !occurs_at(s, j, pat));
    }
}

/// What `first_occurrence` finds occurs there, after `start`, and first.
pub proof fn lemma_first_occurrence_found(s: Seq<char>, start: int, pat: Seq<char>)
    ensures
        first_occurrence(s, start, pat) matches Some(k) ==> start <= k && occurs_at(s, k, pat)
            && forall|j: int| start <= j < k ==> !occurs_at(s, j, pat),
{
    if exists|k: int| start <= k && occurs_at(s, k, pat) {
        let k = choose|k: int| start <= k && occurs_at(s, k, pat);
        lemma_least_occurrence(s, start, pat, k);
    }
}

/// The first position at or after `start` where `pat` occurs in `v`.
pub fn find_from(v: &Vec<char>, start: usize, pat: &Vec<char>) -> (r: Option<usize>)
    requires
        start <= v.len(),
    ensures
        r is None <==> first_occurrence(v@, start as int, pat@) is None,
        r matches Some(k) ==> first_occurrence(v@, start as int, pat@) == Some(k as int),
        r matches Some(k) ==> start <= k && k + pat@.len() <= v@.len(),
{
    let mut i = start;
    loop
        invariant
            start <= i <= v.len(),
            forall|j: int| start <= j < i ==> !occurs_at(v@, j, pat@),
        decreases v.len() - i,
    {
        if matches_at(v, i, pat) {
            proof {
                lemma_first_occurrence(v@, start as int, pat@, i as int);
            }
            return Some(i);
        }
        if i == v.len() {
            proof {
                assert forall|k: int| start <= k && occurs_at(v@, k, pat@) implies false by {
                    assert(k <= i);
                }
            }
            return None;
        }
        i = i + 1;
    }
}

/// Unicode `White_Space` characters (what `char::is_whitespace` accepts).
pub open spec fn is_ws(c: char) -> bool {
    let u = c as u32;
    ||| 0x09 <= u <= 0x0d
    ||| u == 0x20
    ||| u == 0x85
    ||| u == 0xa0
    ||| u == 0x1680
    ||| 0x2000 <= u <= 0x200a
    ||| u == 0x2028
    ||| u == 0x2029
    ||| u == 0x202f
    ||| u == 0x205f
    ||| u == 0x3000
}

/// Whether `c` is a Unicode white-space character.
pub fn is_whitespace(c: char) -> (r: bool)
    ensures
        r == is_ws(c),
{
    let u = c as u32;
    (0x09 <= u && u <= 0x0d) || u == 0x20 || u == 0x85 || u == 0xa0 || u == 0x1680 || (0x2000
        <= u && u <= 0x200a) || u == 0x2028 || u == 0x2029 || u == 0x202f || u == 0x205f || u
        == 0x3000
}

/// Removes leading white space.
pub open spec fn trim_start(s: Seq<char>) -> Seq<char>
    decreases s.len(),
{
    if s.len() > 0 && is_ws(s[0]) {
        trim_start(s.drop_first())
    } else {
        s
    }
}

/// Removes trailing white space.
pub open spec fn trim_end(s: Seq<char>) -> Seq<char>
    decreases s.len(),
{
    if s.len() > 0 && is_ws(s.last()) {
        trim_end(s.drop_last())
    } else {
        s
    }
}

/// Removes leading and trailing white space (what `str::trim` does).
pub open spec fn trim(s: Seq<char>) -> Seq<char> {
    trim_end(trim_start(s))
}

pub proof fn lemma_trim_start_range(s: Seq<char>, lo: int, hi: int, k: int)
    requires
        0 <= lo <= k <= hi <= s.len(),
        forall|j: int| lo <= j < k ==> is_ws(s[j]),
        k == hi || !is_ws(s[k]),
    ensures
        trim_start(s.subrange(lo, hi)) == s.subrange(k, hi),
    decreases k - lo,
{
    if lo < k {
        assert(s.subrange(lo, hi).drop_first() =~= s.subrange(lo + 1, hi));
        lemma_trim_start_range(s, lo + 1, hi, k);
    } else if k < hi {
        assert(s.subrange(lo, hi)[0] == s[k]);
    }
}

pub proof fn lemma_trim_end_range(s: Seq<char>, lo: int, hi: int, k: int)
    requires
        0 <= lo <= k <= hi <= s.len(),
        forall|j: int| k <= j < hi ==> is_ws(s[j]),
        k == lo || !is_ws(s[k - 1]),
    ensures
        trim_end(s.subrange(lo, hi)) == s.subrange(lo, k),
    decreases hi - k,
{
    if k < hi {
        assert(s.subrange(lo, hi).drop_last() =~= s.subrange(lo, hi - 1));
        lemma_trim_end_range(s, lo, hi - 1, k);
    } else if lo < k {
        assert(s.subrange(lo, hi).last() == s[k - 1]);
    }
}

/// The bounds of `v[lo..hi]` with white space removed at both ends.
pub fn trim_bounds(v: &Vec<char>, lo: usize, hi: usize) -> (r: (usize, usize))
    requires
        lo <= hi <= v.len(),
    ensures
        lo <= r.0 <= r.1 <= hi,
        v@.subrange(r.0 as int, r.1 as int) == trim(v@.subrange(lo as int, hi as int)),
{
    let mut a = lo;
    while a < hi && is_whitespace(v[a])
        invariant
            lo <= a <= hi <= v.len(),
            forall|j: int| lo <= j < a ==> is_ws(v@[j]),
        decreases hi - a,
    {
        a = a + 1;
    }
    proof {
        lemma_trim_start_range(v@, lo as int, hi as int, a as int);
    }
    let mut b = hi;
    while b > a && is_whitespace(v[b - 1])
        invariant
            lo <= a <= b <= hi <= v.len(),
            forall|j: int| b <= j < hi ==> is_ws(v@[j]),
        decreases b - a,
    {
        b = b - 1;
    }
    proof {
        lemma_trim_end_range(v@, a as int, hi as int, b as int);
    }
    (a, b)
}

/// The decimal digit character of a value below ten.
pub open spec fn digit_char(d: nat) -> char {
    ((d + 48) as u32) as char
}

/// The decimal representation of a natural number, without leading zeros.
pub open spec fn dec(n: nat) -> Seq<char>
    decreases n,
{
    if n < 10 {
        seq![digit_char(n)]
    } else {
        dec(n / 10).push(digit_char(n % 10))
    }
}

/// The decimal representation of an integer, with a leading `-` when negative.
pub open spec fn dec_int(n: int) -> Seq<char> {
    if n < 0 {
        seq!['-'] + dec((-n) as nat)
    } else {
        dec(n as nat)
    }
}

/// Ten to the power `k`.
pub open spec fn pow10(k: nat) -> nat
    decreases k,
{
    if k == 0 {
        1
    } else {
        10 * pow10((k - 1) as nat)
    }
}

/// A number below `10^k` has at most `k` decimal digits (and at least one).
pub proof fn lemma_dec_len(n: nat, k: nat)
    requires
        k >= 1,
        n < pow10(k),
    ensures
        1 <= dec(n).len() <= k,
    decreases k,
{
    if n >= 10 {
        let p = pow10((k - 1) as nat);
        assert(k >= 2) by {
            if k == 1 {
                assert(pow10(1) == 10 * pow10(0));
            }
        }
        assert(n / 10 < p) by (nonlinear_arith)
            requires
                n < 10 * p,
        ;
        lemma_dec_len(n / 10, (k - 1) as nat);
    }
}

/// Every 64-bit value has at most twenty decimal digits.
pub proof fn lemma_dec_len_u64(n: u64)
    ensures
        1 <= dec(n as nat).len() <= 20,
{
    reveal_with_fuel(pow10, 21);
    assert(pow10(20) == 100000000000000000000);
    lemma_dec_len(n as nat, 20);
}

/// The character of one decimal digit.
pub fn digit(d: u64) -> (c: char)
    requires
        d < 10,
    ensures
        c == digit_char(d as nat),
{
    let b: u8 = (d as u8) + 48;
    b as char
}

/// The decimal representation of `n` (what `n.to_string()` gives).
pub fn u64_to_string(n: u64) -> (s: String)
    ensures
        s@ == dec(n as nat),
    decreases n,
{
    if n < 10 {
        let mut s = String::new();
        push_char(&mut s, digit(n));
        s
    } else {
        let mut s = u64_to_string(n / 10);
        push_char(&mut s, digit(n % 10));
        s
    }
}

/// The decimal representation of `n` (what `n.to_string()` gives).
pub fn usize_to_string(n: usize) -> (s: String)
    ensures
        s@ == dec(n as nat),
{
    u64_to_string(n as u64)
}

/// The decimal representation of `n`, signed (what `n.to_string()` gives).
pub fn i64_to_string(n: i64) -> (s: String)
    ensures
        s@ == dec_int(n as int),
{
    if n < 0 {
        let m: u64 = if n == i64::MIN {
            9223372036854775808u64
        } else {
            (-n) as u64
        };
        let digits = u64_to_string(m);
        let mut s = String::new();
        push_char(&mut s, '-');
        let mut i: usize = 0;
        let cs = to_chars(digits.as_str());
        while i < cs.len()
            invariant
                i <= cs.len(),
                cs@ == dec(m as nat),
                m == -n,
                s@ == seq!['-'] + cs@.take(i as int),
            decreases cs.len() - i,
        {
            push_char(&mut s, cs[i]);
            proof {
                assert(cs@.take(i + 1) =~= cs@.take(i as int).push(cs@[i as int]));
                assert(seq!['-'] + cs@.take(i + 1) =~= (seq!['-'] + cs@.take(i as int)).push(
                    cs@[i as int],
                ));
            }
            i = i + 1;
        }
        proof {
            assert(cs@.take(cs@.len() as int) =~= cs@);
        }
        s
    } else {
        u64_to_string(n as u64)
    }
}

/// Ways in which parsing an unsigned decimal integer fails (those of `ParseIntError`).
#[derive(Clone, Copy, Debug, PartialEq, Eq, Structural)]
pub enum IntErrorKind {
    Empty,
    InvalidDigit,
    PosOverflow,
}

/// Whether a character is an ASCII decimal digit.
pub open spec fn is_digit(c: char) -> bool {
    '0' <= c <= '9'
}

/// The value of an ASCII decimal digit.
pub open spec fn digit_value(c: char) -> nat {
    (c as u32 - 48) as nat
}

/// Scanning the digits `ds` from the left onto the accumulated value `acc`: the
/// first non-digit gives `InvalidDigit`, the first value above `max` gives
/// `PosOverflow`, whichever comes first.
pub open spec fn scan_digits(ds: Seq<char>, acc: nat, max: nat) -> Result<nat, IntErrorKind>
    decreases ds.len(),
{
    if ds.len() == 0 {
        Ok(acc)
    } else if !is_digit(ds[0]) {
        Err(IntErrorKind::InvalidDigit)
    } else if acc * 10 + digit_value(ds[0]) > max {
        Err(IntErrorKind::PosOverflow)
    } else {
        scan_digits(ds.drop_first(), acc * 10 + digit_value(ds[0]), max)
    }
}

/// What `str::parse` gives for an unsigned integer type whose largest value is `max`:
/// an empty input is `Empty`, a lone sign is `InvalidDigit`, a leading `+` is skipped.
pub open spec fn parse_unsigned(s: Seq<char>, max: nat) -> Result<nat, IntErrorKind> {
    if s.len() == 0 {
        Err(IntErrorKind::Empty)
    } else if s.len() == 1 && (s[0] == '+' || s[0] == '-') {
        Err(IntErrorKind::InvalidDigit)
    } else if s[0] == '+' {
        scan_digits(s.drop_first(), 0, max)
    } else {
        scan_digits(s, 0, max)
    }
}

/// Parses an unsigned decimal integer no larger than `max` from `v[lo..hi]`.
pub fn parse_unsigned_range(v: &Vec<char>, lo: usize, hi: usize, max: u64) -> (r: Result<
    u64,
    IntErrorKind,
>)
    requires
        lo <= hi <= v.len(),
    ensures
        match (r, parse_unsigned(v@.subrange(lo as int, hi as int), max as nat)) {
            (Ok(x), Ok(y)) => x as nat == y,
            (Err(e), Err(f)) => e == f,
            _ => false,
        },
{
    let ghost s = v@.subrange(lo as int, hi as int);
    if lo == hi {
        return Err(IntErrorKind::Empty);
    }
    if hi - lo == 1 && (v[lo] == '+' || v[lo] == '-') {
        return Err(IntErrorKind::InvalidDigit);
    }
    let mut i = lo;
    if v[lo] == '+' {
        i = lo + 1;
        proof {
            assert(s.drop_first() =~= v@.subrange(i as int, hi as int));
        }
    }
    let mut acc: u64 = 0;
    while i < hi
        invariant
            lo <= i <= hi <= v.len(),
            acc <= max,
            s == v@.subrange(lo as int, hi as int),
            parse_unsigned(s, max as nat) == scan_digits(
                v@.subrange(i as int, hi as int),
                acc as nat,
                max as nat,
            ),
        decreases hi - i,
    {
        let c = v[i];
        let ghost rest = v@.subrange(i as int, hi as int);
        assert(rest.len() > 0);
        assert(rest[0] == c);
        if !('0' <= c && c <= '9') {
            assert(!is_digit(rest[0]));
            assert(scan_digits(rest, acc as nat, max as nat) == Err::<nat, IntErrorKind>(
                IntErrorKind::InvalidDigit,
            ));
            return Err(IntErrorKind::InvalidDigit);
        }
        let d: u64 = ((c as u32) - 48) as u64;
        assert(d as nat == digit_value(c));
        if d > max || acc > (max - d) / 10 {
            assert((acc as nat) * 10 + d > max) by (nonlinear_arith)
                requires
                    d > max || acc > (max - d) / 10,
                    d < 10,
            ;
            assert(scan_digits(rest, acc as nat, max as nat) == Err::<nat, IntErrorKind>(
                IntErrorKind::PosOverflow,
            ));
            return Err(IntErrorKind::PosOverflow);
        }
        assert(acc * 10 + d <= max) by (nonlinear_arith)
            requires
                acc <= (max - d) / 10,
                d < 10,
        ;
        acc = acc * 10 + d;
        proof {
            assert(rest.drop_first() =~= v@.subrange(i + 1, hi as int));
        }
        i = i + 1;
    }
    Ok(acc)
}

/// Whether a character is an ASCII hexadecimal digit, in either case.
pub open spec fn is_hex_digit(c: char) -> bool {
    ('0' <= c <= '9') || ('a' <= c <= 'f') || ('A' <= c <= 'F')
}

/// The value of an ASCII hexadecimal digit.
pub open spec fn hex_digit_value(c: char) -> nat {
    if '0' <= c <= '9' {
        (c as u32 - 48) as nat
    } else if 'a' <= c <= 'f' {
        (c as u32 - 87) as nat
    } else {
        (c as u32 - 55) as nat
    }
}

/// Scanning hexadecimal digits from the left, as `scan_digits` does for decimal ones.
pub open spec fn scan_hex(ds: Seq<char>, acc: nat, max: nat) -> Result<nat, IntErrorKind>
    decreases ds.len(),
{
    if ds.len() == 0 {
        Ok(acc)
    } else if !is_hex_digit(ds[0]) {
        Err(IntErrorKind::InvalidDigit)
    } else if acc * 16 + hex_digit_value(ds[0]) > max {
        Err(IntErrorKind::PosOverflow)
    } else {
        scan_hex(ds.drop_first(), acc * 16 + hex_digit_value(ds[0]), max)
    }
}

/// What `from_str_radix(s, 16)` gives for an unsigned integer type whose largest
/// value is `max`.
pub open spec fn parse_hex(s: Seq<char>, max: nat) -> Result<nat, IntErrorKind> {
    if s.len() == 0 {
        Err(IntErrorKind::Empty)
    } else if s.len() == 1 && (s[0] == '+' || s[0] == '-') {
        Err(IntErrorKind::InvalidDigit)
    } else if s[0] == '+' {
        scan_hex(s.drop_first(), 0, max)
    } else {
        scan_hex(s, 0, max)
    }
}

/// Parses an unsigned hexadecimal integer no larger than `max` from `v[lo..hi]`.
pub fn parse_hex_range(v: &Vec<char>, lo: usize, hi: usize, max: u64) -> (r: Result<
    u64,
    IntErrorKind,
>)
    requires
        lo <= hi <= v.len(),
    ensures
        r matches Ok(x) ==> x <= max,
        match (r, parse_hex(v@.subrange(lo as int, hi as int), max as nat)) {
            (Ok(x), Ok(y)) => x as nat == y,
            (Err(e), Err(f)) => e == f,
            _ => false,
        },
{
    let ghost s = v@.subrange(lo as int, hi as int);
    if lo == hi {
        return Err(IntErrorKind::Empty);
    }
    if hi - lo == 1 && (v[lo] == '+' || v[lo] == '-') {
        return Err(IntErrorKind::InvalidDigit);
    }
    let mut i = lo;
    if v[lo] == '+' {
        i = lo + 1;
        proof {
            assert(s.drop_first() =~= v@.subrange(i as int, hi as int));
        }
    }
    let mut acc: u64 = 0;
    while i < hi
        invariant
            lo <= i <= hi <= v.len(),
            acc <= max,
            s == v@.subrange(lo as int, hi as int),
            parse_hex(s, max as nat) == scan_hex(v@.subrange(i as int, hi as int), acc as nat, max as nat),
        decreases hi - i,
    {
        let c = v[i];
        let ghost rest = v@.subrange(i as int, hi as int);
        assert(rest.len() > 0);
        assert(rest[0] == c);
        let d: u64;
        if '0' <= c && c <= '9' {
            d = ((c as u32) - 48) as u64;
        } else if 'a' <= c && c <= 'f' {
            d = ((c as u32) - 87) as u64;
        } else if 'A' <= c && c <= 'F' {
            d = ((c as u32) - 55) as u64;
        } else {
            assert(!is_hex_digit(rest[0]));
            return Err(IntErrorKind::InvalidDigit);
        }
        assert(d as nat == hex_digit_value(c));
        assert(d < 16);
        if d > max || acc > (max - d) / 16 {
            assert((acc as nat) * 16 + d > max) by (nonlinear_arith)
                requires
                    d > max || acc > (max - d) / 16,
                    d < 16,
            ;
            return Err(IntErrorKind::PosOverflow);
        }
        assert(acc * 16 + d <= max) by (nonlinear_arith)
            requires
                acc <= (max - d) / 16,
                d < 16,
        ;
        acc = acc * 16 + d;
        proof {
            assert(rest.drop_first() =~= v@.subrange(i + 1, hi as int));
        }
        i = i + 1;
    }
    Ok(acc)
}

/// The message of `ParseIntError` for each kind of failure.
pub open spec fn int_error_message(e: IntErrorKind) -> Seq<char> {
    match e {
        IntErrorKind::Empty => "cannot parse integer from empty string"@,
        IntErrorKind::InvalidDigit => "invalid digit found in string"@,
        IntErrorKind::PosOverflow => "number too large to fit in target type"@,
    }
}

/// The message of `ParseIntError` for a kind of failure (what `e.to_string()` gives).
pub fn int_error_string(e: IntErrorKind) -> (s: String)
    ensures
        s@ == int_error_message(e),
{
    match e {
        IntErrorKind::Empty => "cannot parse integer from empty string".to_string(),
        IntErrorKind::InvalidDigit => "invalid digit found in string".to_string(),
        IntErrorKind::PosOverflow => "number too large to fit in target type".to_string(),
    }
}

} // verus!
