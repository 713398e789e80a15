//! Reading the reply of an HTTP/1.1 server: the status line, the error codes
//! that the Xavier client reports, and chunked transfer encoding.
use vstd::prelude::*;
use vstd::string::*;
use vstd::utf8::{valid_utf8, decode_utf8};
use crate::text::{
    to_chars, from_chars, sub_chars, find_from, first_occurrence, occurs_at, trim, trim_start,
    is_ws, is_whitespace, trim_bounds, byte_len, parse_hex, parse_hex_range, int_error_message,
    int_error_string, lemma_trim_start_range, lemma_least_occurrence, lemma_first_occurrence,
};
use crate::xavier::{XavierError, XavierErrorModel};

verus! {

/// `str::to_lowercase`: the lowercase form of a text by the Unicode case tables.
pub uninterp spec fn unicode_lowercase(s: Seq<char>) -> Seq<char>;

/// `str::to_lowercase`. Its result depends on the text alone; what each
/// character maps to is not stated here.
#[verifier::external_body]
fn to_lowercase(s: &str) -> (r: String)
    ensures
        r@ == unicode_lowercase(s@),
{
    s.to_lowercase()
}

/// `String::from_utf8_lossy`: the text that a byte string decodes to, with each
/// invalid sequence replaced by U+FFFD.
pub uninterp spec fn lossy_utf8(b: Seq<u8>) -> Seq<char>;

/// `String::from_utf8_lossy`. Its result depends on the bytes alone, and valid
/// UTF-8 is decoded unchanged; how invalid sequences are replaced is not stated.
#[verifier::external_body]
pub(crate) fn decode_lossy(bytes: &[u8]) -> (r: String)
    ensures
        r@ == lossy_utf8(bytes@),
        valid_utf8(bytes@) ==> r@ == decode_utf8(bytes@),
{
    String::from_utf8_lossy(bytes).into_owned()
}

/// The header part of a response: what comes before the first blank line.
pub open spec fn head_of(t: Seq<char>) -> Seq<char> {
    match first_occurrence(t, 0, seq!['\r', '\n', '\r', '\n']) {
        Some(i) => t.take(i),
        None => t,
    }
}

/// The body of a response: what comes after the first blank line.
pub open spec fn body_of(t: Seq<char>) -> Seq<char> {
    match first_occurrence(t, 0, seq!['\r', '\n', '\r', '\n']) {
        Some(i) => t.skip(i + 4),
        None => Seq::empty(),
    }
}

/// The first line of a text (what `str::lines` gives first): up to the first
/// line feed, without a carriage return right before it; none for an empty text.
pub open spec fn first_line(h: Seq<char>) -> Option<Seq<char>> {
    if h.len() == 0 {
        None
    } else {
        match first_occurrence(h, 0, seq!['\n']) {
            Some(i) => Some(
                if i > 0 && h[i - 1] == '\r' {
                    h.take(i - 1)
                } else {
                    h.take(i)
                },
            ),
            None => Some(h),
        }
    }
}

/// The length of the leading run of non-white-space characters.
pub open spec fn word_len(t: Seq<char>) -> nat
    decreases t.len(),
{
    if t.len() == 0 || is_ws(t[0]) {
        0
    } else {
        1 + word_len(t.drop_first())
    }
}

/// The first white-space separated word of a text and what follows it.
pub open spec fn next_word(s: Seq<char>) -> Option<(Seq<char>, Seq<char>)> {
    let t = trim_start(s);
    if t.len() == 0 {
        None
    } else {
        Some((t.take(word_len(t) as int), t.skip(word_len(t) as int)))
    }
}

/// The status code of a status line: its second word.
pub open spec fn status_code_of(line: Seq<char>) -> Option<Seq<char>> {
    match next_word(line) {
        None => None,
        Some((_, r)) => match next_word(r) {
            None => None,
            Some((c, _)) => Some(c),
        },
    }
}

/// The number of UTF-8 bytes of a character.
pub open spec fn char_width(c: char) -> nat {
    vstd::utf8::encode_scalar(c as u32).len()
}

/// The number of leading characters of `s` whose UTF-8 encoding takes exactly
/// `n` bytes; none when byte `n` falls inside a character or past the end.
pub open spec fn char_prefix(s: Seq<char>, n: nat) -> Option<int>
    decreases s.len(),
{
    if n == 0 {
        Some(0)
    } else if s.len() == 0 || char_width(s[0]) > n {
        None
    } else {
        match char_prefix(s.drop_first(), (n - char_width(s[0])) as nat) {
            Some(k) => Some(k + 1),
            None => None,
        }
    }
}

pub proof fn lemma_char_prefix_range(s: Seq<char>, n: nat)
    ensures
        char_prefix(s, n) matches Some(k) ==> 0 <= k <= s.len(),
    decreases s.len(),
{
    if n > 0 && s.len() > 0 && char_width(s[0]) <= n {
        lemma_char_prefix_range(s.drop_first(), (n - char_width(s[0])) as nat);
    }
}

pub proof fn lemma_first_occurrence_range(s: Seq<char>, start: int, pat: Seq<char>)
    ensures
        first_occurrence(s, start, pat) matches Some(k) ==> start <= k && k + pat.len() <= s.len(),
{
    if exists|k: int| start <= k && occurs_at(s, k, pat) {
        let k = choose|k: int| start <= k && occurs_at(s, k, pat);
        lemma_least_occurrence(s, start, pat, k);
    }
}

/// A parse failure.
pub open spec fn parse_error(m: Seq<char>) -> Option<Result<Seq<char>, XavierErrorModel>> {
    Some(Err(XavierErrorModel::Parse(m)))
}

/// One step of decoding a chunked body.
pub enum ChunkStep {
    /// The body is over (its end, or a chunk of size zero).
    End,
    /// The body is malformed.
    Failed(Seq<char>),
    /// A chunk ends inside a character.
    Cut,
    /// A chunk's data is `b[start..end]`; decoding goes on at `next`.
    Data(int, int, int),
}

/// The step of decoding a chunked body `b` at position `p`: a line with the
/// chunk's size in hexadecimal, then that many bytes and a line break.
#[verifier::opaque]
pub open spec fn chunk_step(b: Seq<char>, p: int) -> ChunkStep {
    if p < 0 || p >= b.len() {
        ChunkStep::End
    } else {
        let nl = first_occurrence(b, p, seq!['\r', '\n']);
        let line_end = match nl {
            Some(i) => i,
            None => b.len() as int,
        };
        match parse_hex(trim(b.subrange(p, line_end)), usize::MAX as nat) {
            Err(e) => ChunkStep::Failed("Invalid chunk hex: "@ + int_error_message(e)),
            Ok(size) => if size == 0 {
                ChunkStep::End
            } else {
                match nl {
                    None => ChunkStep::Failed("Missing chunk data"@),
                    Some(i) => {
                        let r = b.subrange(i + 2, b.len() as int);
                        if byte_len(r) < size {
                            ChunkStep::Failed("Incomplete chunk body"@)
                        } else {
                            match char_prefix(r, size) {
                                None => ChunkStep::Cut,
                                Some(k) => {
                                    let q = i + 2 + k;
                                    ChunkStep::Data(
                                        i + 2,
                                        q,
                                        if q + 1 < b.len() && b[q] == '\r' && b[q + 1] == '\n' {
                                            q + 2
                                        } else {
                                            q
                                        },
                                    )
                                },
                            }
                        }
                    },
                }
            },
        }
    }
}

/// Decoding a chunked body from position `p`, after the data `acc`; none where a
/// chunk ends inside a character.
pub open spec fn dechunk_at(b: Seq<char>, p: int, acc: Seq<char>) -> Option<
    Result<Seq<char>, XavierErrorModel>,
>
    decreases b.len() - p,
{
    match chunk_step(b, p) {
        ChunkStep::End => Some(Ok(acc)),
        ChunkStep::Failed(m) => parse_error(m),
        ChunkStep::Cut => None,
        ChunkStep::Data(start, end, next) => if p < next <= b.len() && 0 <= start <= end <= b.len() {
            dechunk_at(b, next, acc + b.subrange(start, end))
        } else {
            None
        },
    }
}

/// How a response is read, given its header part in lower case: a missing or
/// malformed status line is an HTTP error; status 401 is `Unauthorized`; any
/// status but 200, 201 and 204 is an HTTP error with the body; otherwise the
/// body, decoded when the headers announce chunked transfer encoding. None
/// where a chunk ends inside a character.
pub open spec fn response_spec(t: Seq<char>, lowered_head: Seq<char>) -> Option<
    Result<Seq<char>, XavierErrorModel>,
> {
    let h = head_of(t);
    let b = body_of(t);
    match first_line(h) {
        None => Some(Err(XavierErrorModel::Http("No status line"@))),
        Some(line) => match status_code_of(line) {
            None => Some(Err(XavierErrorModel::Http("Invalid status line: "@ + line))),
            Some(code) => if code == "401"@ {
                Some(Err(XavierErrorModel::Unauthorized))
            } else if code != "200"@ && code != "201"@ && code != "204"@ {
                Some(
                    Err(
                        XavierErrorModel::Http("Server returned error code "@ + code + ": "@ + b),
                    ),
                )
            } else if first_occurrence(lowered_head, 0, "transfer-encoding: chunked"@) is Some {
                dechunk_at(b, 0, Seq::empty())
            } else {
                Some(Ok(b))
            },
        },
    }
}

/// The model of a read outcome.
pub open spec fn outcome_view(r: Option<Result<String, XavierError>>) -> Option<
    Result<Seq<char>, XavierErrorModel>,
> {
    match r {
        None => None,
        Some(Ok(s)) => Some(Ok(s@)),
        Some(Err(e)) => Some(Err(e@)),
    }
}

/// The number of UTF-8 bytes of a character.
pub fn utf8_width(c: char) -> (w: usize)
    ensures
        w == char_width(c),
        1 <= w <= 4,
{
    proof {
        vstd::utf8::char_is_scalar(c);
    }
    let u = c as u32;
    if u <= 0x7f {
        1
    } else if u <= 0x7ff {
        2
    } else if u <= 0xffff {
        3
    } else {
        4
    }
}

/// The shift of a position by `d`.
pub open spec fn shifted(o: Option<int>, d: int) -> Option<int> {
    match o {
        Some(k) => Some(k + d),
        None => None,
    }
}

/// Where the data of a chunk of `size` bytes that starts at `q` ends: none when
/// byte `size` falls inside a character, `Some(None)` when the body is too short.
fn chunk_end(b: &Vec<char>, q: usize, size: usize) -> (r: Option<Option<usize>>)
    requires
        q <= b.len(),
        size > 0,
    ensures
        match r {
            Some(None) => byte_len(b@.subrange(q as int, b@.len() as int)) < size,
            None => byte_len(b@.subrange(q as int, b@.len() as int)) >= size && char_prefix(
                b@.subrange(q as int, b@.len() as int),
                size as nat,
            ) is None,
            Some(Some(k)) => q <= k <= b@.len() && byte_len(b@.subrange(q as int, b@.len() as int))
                >= size && char_prefix(b@.subrange(q as int, b@.len() as int), size as nat) == Some(
                k - q,
            ),
        },
{
    let ghost whole = b@.subrange(q as int, b@.len() as int);
    let mut k = q;
    let mut bytes: usize = 0;
    while bytes < size && k < b.len()
        invariant
            q <= k <= b@.len(),
            bytes <= size,
            whole == b@.subrange(q as int, b@.len() as int),
            byte_len(whole) == bytes + byte_len(b@.subrange(k as int, b@.len() as int)),
            char_prefix(whole, size as nat) == shifted(
                char_prefix(b@.subrange(k as int, b@.len() as int), (size - bytes) as nat),
                k - q,
            ),
        decreases b@.len() - k,
    {
        let ghost t = b@.subrange(k as int, b@.len() as int);
        proof {
            assert(t[0] == b@[k as int]);
            assert(t.drop_first() =~= b@.subrange(k + 1, b@.len() as int));
            assert(vstd::utf8::encode_utf8(t) == vstd::utf8::encode_scalar(t[0] as u32)
                + vstd::utf8::encode_utf8(t.drop_first()));
        }
        let w = utf8_width(b[k]);
        if w > size - bytes {
            return None;
        }
        bytes = bytes + w;
        k = k + 1;
    }
    if bytes < size {
        proof {
            assert(b@.subrange(k as int, b@.len() as int).len() == 0);
            assert(vstd::utf8::encode_utf8(b@.subrange(k as int, b@.len() as int)).len() == 0);
        }
        return Some(None);
    }
    Some(Some(k))
}

/// One step of decoding a chunked body.
enum Step {
    End,
    Failed(String),
    Cut,
    Data(usize, usize, usize),
}

/// The model of a step.
spec fn step_view(s: Step) -> ChunkStep {
    match s {
        Step::End => ChunkStep::End,
        Step::Failed(m) => ChunkStep::Failed(m@),
        Step::Cut => ChunkStep::Cut,
        Step::Data(a, b, c) => ChunkStep::Data(a as int, b as int, c as int),
    }
}

/// The step of decoding the chunked body `b` at `p`.
#[verifier::rlimit(60)]
#[verifier::spinoff_prover]
fn chunk_step_at(b: &Vec<char>, p: usize) -> (r: Step)
    requires
        p < b@.len(),
    ensures
        step_view(r) == chunk_step(b@, p as int),
        r matches Step::Data(start, end, next) ==> p < next <= b@.len() && start <= end <= b@.len(),
{
    proof {
        reveal(chunk_step);
    }
    let crlf = vec!['\r', '\n'];
    proof {
        assert(crlf@ =~= seq!['\r', '\n']);
    }
    let nl = find_from(b, p, &crlf);
    let line_end = match nl {
        Some(i) => i,
        None => b.len(),
    };
    let (ta, tb) = trim_bounds(b, p, line_end);
    let size: usize = match parse_hex_range(b, ta, tb, usize::MAX as u64) {
        Ok(x) => {
            assert(x <= usize::MAX);
            x as usize
        },
        Err(e) => {
            let mut msg = "Invalid chunk hex: ".to_string();
            let m = int_error_string(e);
            msg.append(m.as_str());
            return Step::Failed(msg);
        },
    };
    if size == 0 {
        return Step::End;
    }
    let i = match nl {
        Some(i) => i,
        None => {
            return Step::Failed("Missing chunk data".to_string());
        },
    };
    let blen = b.len();
    assert(i + 2 <= blen);
    let q = i + 2;
    match chunk_end(b, q, size) {
        None => Step::Cut,
        Some(None) => Step::Failed("Incomplete chunk body".to_string()),
        Some(Some(k)) => {
            if k < blen && k + 1 < blen && b[k] == '\r' && b[k + 1] == '\n' {
                Step::Data(q, k, k + 2)
            } else {
                Step::Data(q, k, k)
            }
        },
    }
}

/// Decodes a chunked body; none where a chunk ends inside a character.
#[verifier::spinoff_prover]
#[verifier::rlimit(40)]
fn dechunk(b: &Vec<char>) -> (r: Option<Result<String, XavierError>>)
    ensures
        outcome_view(r) == dechunk_at(b@, 0, Seq::empty()),
{
    let mut p: usize = 0;
    let mut acc = String::new();
    loop
        invariant
            p <= b@.len(),
            dechunk_at(b@, 0, Seq::empty()) == dechunk_at(b@, p as int, acc@),
        decreases b@.len() - p,
    {
        if p == b.len() {
            proof {
                reveal(chunk_step);
            }
            return Some(Ok(acc));
        }
        match chunk_step_at(b, p) {
            Step::End => {
                return Some(Ok(acc));
            },
            Step::Failed(m) => {
                return Some(Err(XavierError::Parse(m)));
            },
            Step::Cut => {
                return None;
            },
            Step::Data(start, end, next) => {
                let data = from_chars(b, start, end);
                acc.append(data.as_str());
                p = next;
            },
        }
    }
}

/// Where the header part of a response ends and its body begins.
fn split_at_blank_line(v: &Vec<char>) -> (r: (usize, usize))
    ensures
        r.0 <= r.1 <= v@.len(),
        v@.subrange(0, r.0 as int) == head_of(v@),
        v@.subrange(r.1 as int, v@.len() as int) == body_of(v@),
{
    let sep = vec!['\r', '\n', '\r', '\n'];
    proof {
        assert(sep@ =~= seq!['\r', '\n', '\r', '\n']);
    }
    match find_from(v, 0, &sep) {
        Some(i) => {
            proof {
                assert(v@.subrange(0, i as int) =~= v@.take(i as int));
                assert(v@.subrange(i + 4, v@.len() as int) =~= v@.skip(i + 4));
            }
            (i, i + 4)
        },
        None => {
            proof {
                assert(v@.subrange(0, v@.len() as int) =~= v@);
                assert(v@.subrange(v@.len() as int, v@.len() as int) =~= Seq::<char>::empty());
            }
            (v.len(), v.len())
        },
    }
}

/// Where the first line of `h` ends, if `h` is not empty.
#[verifier::spinoff_prover]
#[verifier::rlimit(40)]
fn first_line_end(h: &Vec<char>) -> (r: Option<usize>)
    ensures
        match (r, first_line(h@)) {
            (Some(e), Some(l)) => e <= h@.len() && h@.take(e as int) == l,
            (None, None) => true,
            _ => false,
        },
{
    if h.len() == 0 {
        return None;
    }
    let nl = vec!['\n'];
    proof {
        assert(nl@ =~= seq!['\n']);
    }
    match find_from(h, 0, &nl) {
        Some(i) => {
            if i > 0 && h[i - 1] == '\r' {
                Some(i - 1)
            } else {
                Some(i)
            }
        },
        None => {
            proof {
                assert(h@.take(h@.len() as int) =~= h@);
            }
            Some(h.len())
        },
    }
}

/// The bounds of the first word of `v[lo..hi]`; what follows it is `v[end..hi]`.
fn next_word_range(v: &Vec<char>, lo: usize, hi: usize) -> (r: Option<(usize, usize)>)
    requires
        lo <= hi <= v@.len(),
    ensures
        match (r, next_word(v@.subrange(lo as int, hi as int))) {
            (Some((a, b)), Some((w, rest))) => lo <= a <= b <= hi && v@.subrange(a as int, b as int)
                == w && v@.subrange(b as int, hi as int) == rest,
            (None, None) => true,
            _ => false,
        },
{
    let mut a = lo;
    while a < hi && is_whitespace(v[a])
        invariant
            lo <= a <= hi <= v@.len(),
            forall|j: int| lo <= j < a ==> is_ws(v@[j]),
        decreases hi - a,
    {
        a = a + 1;
    }
    proof {
        lemma_trim_start_range(v@, lo as int, hi as int, a as int);
    }
    if a == hi {
        return None;
    }
    let mut b = a;
    proof {
        assert(v@.subrange(a as int, hi as int) =~= v@.subrange(b as int, hi as int));
    }
    while b < hi && !is_whitespace(v[b])
        invariant
            a <= b <= hi <= v@.len(),
            word_len(v@.subrange(a as int, hi as int)) == (b - a) + word_len(
                v@.subrange(b as int, hi as int),
            ),
        decreases hi - b,
    {
        proof {
            let t = v@.subrange(b as int, hi as int);
            assert(t[0] == v@[b as int]);
            assert(t.drop_first() =~= v@.subrange(b + 1, hi as int));
        }
        b = b + 1;
    }
    proof {
        let t = v@.subrange(b as int, hi as int);
        if b < hi {
            assert(t[0] == v@[b as int]);
        }
        assert(word_len(t) == 0);
        let u = v@.subrange(a as int, hi as int);
        assert(u.take(b - a) =~= v@.subrange(a as int, b as int));
        assert(u.skip(b - a) =~= v@.subrange(b as int, hi as int));
    }
    Some((a, b))
}

/// The bounds of the status code in the first `e` characters of `h`.
fn status_code_range(h: &Vec<char>, e: usize) -> (r: Option<(usize, usize)>)
    requires
        e <= h@.len(),
    ensures
        match (r, status_code_of(h@.take(e as int))) {
            (Some((a, b)), Some(c)) => a <= b <= e && h@.subrange(a as int, b as int) == c,
            (None, None) => true,
            _ => false,
        },
{
    proof {
        assert(h@.take(e as int) =~= h@.subrange(0, e as int));
    }
    match next_word_range(h, 0, e) {
        None => None,
        Some((_a, b)) => next_word_range(h, b, e),
    }
}

/// Reads a response, given its header part in lower case (see `response_spec`).
#[verifier::rlimit(40)]
pub fn interpret_response(text: &str, lowered_head: &str) -> (r: Option<Result<String, XavierError>>)
    ensures
        outcome_view(r) == response_spec(text@, lowered_head@),
{
    let v = to_chars(text);
    let (hend, bstart) = split_at_blank_line(&v);
    let h = sub_chars(&v, 0, hend);
    let e = match first_line_end(&h) {
        Some(e) => e,
        None => {
            return Some(Err(XavierError::Http("No status line".to_string())));
        },
    };
    let (a, b) = match status_code_range(&h, e) {
        Some(ab) => ab,
        None => {
            let line = from_chars(&h, 0, e);
            proof {
                assert(line@ =~= h@.take(e as int));
            }
            let mut msg = "Invalid status line: ".to_string();
            msg.append(line.as_str());
            return Some(Err(XavierError::Http(msg)));
        },
    };
    let code = from_chars(&h, a, b);
    let body = from_chars(&v, bstart, v.len());
    let s401 = "401".to_string();
    let s200 = "200".to_string();
    let s201 = "201".to_string();
    let s204 = "204".to_string();
    if code == s401 {
        return Some(Err(XavierError::Unauthorized));
    }
    if code != s200 && code != s201 && code != s204 {
        let mut msg = "Server returned error code ".to_string();
        msg.append(code.as_str());
        msg.append(": ");
        msg.append(body.as_str());
        return Some(Err(XavierError::Http(msg)));
    }
    let lh = to_chars(lowered_head);
    let pat = to_chars("transfer-encoding: chunked");
    if find_from(&lh, 0, &pat).is_some() {
        let bv = sub_chars(&v, bstart, v.len());
        dechunk(&bv)
    } else {
        Some(Ok(body))
    }
}

/// Reads a response: its header part is put in lower case to look for chunked
/// transfer encoding.
pub fn parse_response(text: &str) -> (r: Option<Result<String, XavierError>>)
    ensures
        outcome_view(r) == response_spec(text@, unicode_lowercase(head_of(text@))),
{
    let v = to_chars(text);
    let (hend, _bstart) = split_at_blank_line(&v);
    let head = from_chars(&v, 0, hend);
    let lowered = to_lowercase(head.as_str());
    interpret_response(text, lowered.as_str())
}

/// Reads the bytes of a response: they are decoded, invalid sequences replaced,
/// and the text is read as `parse_response` reads it.
pub fn read_response(bytes: &[u8]) -> (r: Option<Result<String, XavierError>>)
    ensures
        outcome_view(r) == response_spec(
            lossy_utf8(bytes@),
            unicode_lowercase(head_of(lossy_utf8(bytes@))),
        ),
        valid_utf8(bytes@) ==> outcome_view(r) == response_spec(
            decode_utf8(bytes@),
            unicode_lowercase(head_of(decode_utf8(bytes@))),
        ),
{
    let text = decode_lossy(bytes);
    parse_response(text.as_str())
}

/// Decoding a chunked body fails only as a parse failure, never as an HTTP error.
proof fn lemma_dechunk_not_http(b: Seq<char>, p: int, acc: Seq<char>)
    ensures
        !(dechunk_at(b, p, acc) matches Some(Err(XavierErrorModel::Http(_)))),
        !(dechunk_at(b, p, acc) matches Some(Err(XavierErrorModel::Unauthorized))),
    decreases b.len() - p,
{
    match chunk_step(b, p) {
        ChunkStep::Data(start, end, next) => {
            if p < next <= b.len() && 0 <= start <= end <= b.len() {
                lemma_dechunk_not_http(b, next, acc + b.subrange(start, end));
            }
        },
        _ => {},
    }
}

/// The success statuses 200, 201 and 204 are read as success: the reply's body
/// is the outcome when it is not chunked, and neither an HTTP error nor
/// `Unauthorized` comes of them in any case.
pub proof fn lemma_success_statuses(t: Seq<char>, lowered_head: Seq<char>, code: Seq<char>)
    requires
        first_line(head_of(t)) matches Some(line) && status_code_of(line) == Some(code),
        code == "200"@ || code == "201"@ || code == "204"@,
    ensures
        first_occurrence(lowered_head, 0, "transfer-encoding: chunked"@) is None ==> response_spec(
            t,
            lowered_head,
        ) == Some(Ok::<Seq<char>, XavierErrorModel>(body_of(t))),
        !(response_spec(t, lowered_head) matches Some(Err(XavierErrorModel::Http(_)))),
        !(response_spec(t, lowered_head) matches Some(Err(XavierErrorModel::Unauthorized))),
{
    reveal_strlit("200");
    reveal_strlit("201");
    reveal_strlit("204");
    reveal_strlit("401");
    assert(code[0] == '2');
    assert("401"@[0] == '4');
    assert(code != "401"@);
    lemma_dechunk_not_http(body_of(t), 0, Seq::empty());
}

/// A leading run of `k` characters that are not white space, ended by white
/// space or by the end of the text, is the first word.
proof fn lemma_word_len(s: Seq<char>, k: int)
    requires
        0 <= k <= s.len(),
        forall|i: int| 0 <= i < k ==> !is_ws(s[i]),
        k == s.len() || is_ws(s[k]),
    ensures
        word_len(s) == k,
    decreases k,
{
    if k > 0 {
        let r = s.drop_first();
        assert forall|i: int| 0 <= i < k - 1 implies !is_ws(r[i]) by {
            assert(r[i] == s[i + 1]);
        }
        if k < s.len() {
            assert(r[k - 1] == s[k]);
        }
        lemma_word_len(r, k - 1);
    } else if s.len() > 0 {
        assert(is_ws(s[0]));
    }
}

/// The status line `HTTP/1.1 <code> <reason>` holds no line break, is its own
/// first line, and its second word is the code.
proof fn lemma_status_line(code: Seq<char>, reason: Seq<char>)
    requires
        code.len() == 3,
        forall|i: int| 0 <= i < 3 ==> '0' <= #[trigger] code[i] <= '9',
        forall|i: int| 0 <= i < reason.len() ==> reason[i] != '\r' && reason[i] != '\n',
    ensures
        forall|j: int|
            0 <= j < ("HTTP/1.1 "@ + code + " "@ + reason).len() ==> #[trigger] ("HTTP/1.1 "@ + code
                + " "@ + reason)[j] != '\r',
        first_line("HTTP/1.1 "@ + code + " "@ + reason) == Some("HTTP/1.1 "@ + code + " "@ + reason),
        status_code_of("HTTP/1.1 "@ + code + " "@ + reason) == Some(code),
{
    reveal_strlit("HTTP/1.1 ");
    reveal_strlit(" ");
    let v = "HTTP/1.1 "@;
    let line = v + code + " "@ + reason;
    assert(line.len() == 13 + reason.len());
    assert forall|j: int| 0 <= j < line.len() implies #[trigger] line[j] != '\r' && line[j] != '\n' by {
        if j < 9 {
            assert(line[j] == v[j]);
        } else if j < 12 {
            assert(line[j] == code[j - 9]);
        } else if j == 12 {
            assert(line[j] == ' ');
        } else {
            assert(line[j] == reason[j - 13]);
        }
    }
    assert forall|k: int| !occurs_at(line, k, seq!['\n']) by {
        if occurs_at(line, k, seq!['\n']) {
            assert(line.subrange(k, k + 1)[0] == line[k]);
        }
    }
    assert(first_occurrence(line, 0, seq!['\n']) is None);
    assert(line[0] == 'H');
    assert(trim_start(line) == line);
    assert forall|i: int| 0 <= i < 8 implies !is_ws(#[trigger] line[i]) by {
        assert(line[i] == v[i]);
    }
    assert(line[8] == ' ');
    lemma_word_len(line, 8);
    let rest = line.skip(8);
    assert(rest[0] == ' ');
    assert(rest[1] == code[0]);
    lemma_trim_start_range(rest, 0, rest.len() as int, 1);
    assert(rest.subrange(0, rest.len() as int) =~= rest);
    let w = rest.subrange(1, rest.len() as int);
    assert forall|i: int| 0 <= i < 3 implies !is_ws(#[trigger] w[i]) by {
        assert(w[i] == code[i]);
    }
    assert(w[3] == ' ');
    lemma_word_len(w, 3);
    assert(w.take(3) =~= code);
}

/// A text made of a head without carriage returns, a blank line and a body has
/// that head and that body.
proof fn lemma_head_and_body(head: Seq<char>, body: Seq<char>)
    requires
        forall|j: int| 0 <= j < head.len() ==> head[j] != '\r',
    ensures
        head_of(head + "\r\n\r\n"@ + body) == head,
        body_of(head + "\r\n\r\n"@ + body) == body,
{
    reveal_strlit("\r\n\r\n");
    let pat = seq!['\r', '\n', '\r', '\n'];
    let t = head + "\r\n\r\n"@ + body;
    assert(t.subrange(head.len() as int, head.len() as int + 4) =~= pat);
    assert forall|j: int| 0 <= j < head.len() implies !occurs_at(t, j, pat) by {
        assert(t[j] == head[j]);
        if occurs_at(t, j, pat) {
            assert(t.subrange(j, j + 4)[0] == t[j]);
        }
    }
    lemma_first_occurrence(t, 0, pat, head.len() as int);
    assert(t.take(head.len() as int) =~= head);
    assert(t.skip(head.len() as int + 4) =~= body);
}

/// A reply whose status line is `HTTP/1.1 200`, `201` or `204` with any reason
/// phrase, followed by a blank line and a body that is not chunked, is read as
/// that body.
pub proof fn lemma_success_reply(code: Seq<char>, reason: Seq<char>, body: Seq<char>, lowered_head: Seq<char>)
    requires
        code == "200"@ || code == "201"@ || code == "204"@,
        forall|i: int| 0 <= i < reason.len() ==> reason[i] != '\r' && reason[i] != '\n',
        first_occurrence(lowered_head, 0, "transfer-encoding: chunked"@) is None,
    ensures
        response_spec("HTTP/1.1 "@ + code + " "@ + reason + "\r\n\r\n"@ + body, lowered_head) == Some(
            Ok::<Seq<char>, XavierErrorModel>(body),
        ),
{
    reveal_strlit("200");
    reveal_strlit("201");
    reveal_strlit("204");
    assert(code.len() == 3);
    assert(forall|i: int| 0 <= i < 3 ==> '0' <= #[trigger] code[i] <= '9');
    let line = "HTTP/1.1 "@ + code + " "@ + reason;
    lemma_status_line(code, reason);
    lemma_head_and_body(line, body);
    lemma_success_statuses(line + "\r\n\r\n"@ + body, lowered_head, code);
}

} // verus!
