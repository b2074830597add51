//! Wire framing: one request or response unit is either a header block
//! (`Content-Length: <n>`, blank line, then exactly `n` body bytes) or —
//! once a connection is recognized as sending raw JSON lines — one JSON
//! document per line. The parser here works on plain bytes; the caller
//! feeds it whatever has been read so far and reads more when told.

use vstd::prelude::*;

verus! {

/// ASCII whitespace, as `char::is_whitespace` classifies bytes below 0x80.
pub open spec fn is_ws(b: u8) -> bool {
    b == 32 || (9 <= b <= 13)
}

/// ASCII lowercasing of one byte.
pub open spec fn lower_byte(b: u8) -> u8 {
    if 65 <= b <= 90 {
        (b + 32) as u8
    } else {
        b
    }
}

/// Byte-wise ASCII case-insensitive equality.
pub open spec fn eq_icase(a: Seq<u8>, b: Seq<u8>) -> bool {
    a.len() == b.len() && forall|i: int| 0 <= i < a.len() ==> lower_byte(a[i]) == lower_byte(b[i])
}

/// Index of the first occurrence of `t`, or -1 when none is present.
pub open spec fn first_byte(s: Seq<u8>, t: u8) -> int
    decreases s.len(),
{
    if s.len() == 0 {
        -1
    } else if s[0] == t {
        0
    } else {
        let r = first_byte(s.drop_first(), t);
        if r < 0 {
            -1
        } else {
            r + 1
        }
    }
}

proof fn lemma_first_byte_at(s: Seq<u8>, t: u8, k: int)
    requires
        0 <= k < s.len(),
        s[k] == t,
        forall|j: int| 0 <= j < k ==> s[j] != t,
    ensures
        first_byte(s, t) == k,
    decreases k,
{
    if k > 0 {
        lemma_first_byte_at(s.drop_first(), t, k - 1);
    }
}

proof fn lemma_first_byte_none(s: Seq<u8>, t: u8)
    requires
        forall|j: int| 0 <= j < s.len() ==> s[j] != t,
    ensures
        first_byte(s, t) == -1,
    decreases s.len(),
{
    if s.len() > 0 {
        lemma_first_byte_none(s.drop_first(), t);
    }
}

/// `first_byte` points at an occurrence inside the sequence, when it finds
/// one.
proof fn lemma_first_byte_bounds(s: Seq<u8>, t: u8)
    ensures
        -1 <= first_byte(s, t) < s.len(),
        first_byte(s, t) >= 0 ==> s[first_byte(s, t)] == t,
    decreases s.len(),
{
    if s.len() > 0 && s[0] != t {
        lemma_first_byte_bounds(s.drop_first(), t);
    }
}

/// The line content with any trailing carriage returns removed.
pub open spec fn strip_cr(s: Seq<u8>) -> Seq<u8>
    decreases s.len(),
{
    if s.len() > 0 && s.last() == 13 {
        strip_cr(s.drop_last())
    } else {
        s
    }
}

proof fn lemma_strip_cr_is(s: Seq<u8>, e: int)
    requires
        0 <= e <= s.len(),
        forall|j: int| e <= j < s.len() ==> s[j] == 13,
        e > 0 ==> s[e - 1] != 13,
    ensures
        strip_cr(s) == s.take(e),
    decreases s.len(),
{
    if e == s.len() {
        if s.len() > 0 && s.last() == 13 {
            assert(s[e - 1] == 13);
        }
        assert(s.take(e) =~= s);
    } else {
        assert(s.last() == 13);
        lemma_strip_cr_is(s.drop_last(), e);
        assert(s.drop_last().take(e) =~= s.take(e));
    }
}

/// The content with leading ASCII whitespace removed.
pub open spec fn trim_start(s: Seq<u8>) -> Seq<u8>
    decreases s.len(),
{
    if s.len() > 0 && is_ws(s.first()) {
        trim_start(s.drop_first())
    } else {
        s
    }
}

/// The content with trailing ASCII whitespace removed.
pub open spec fn trim_end(s: Seq<u8>) -> Seq<u8>
    decreases s.len(),
{
    if s.len() > 0 && is_ws(s.last()) {
        trim_end(s.drop_last())
    } else {
        s
    }
}

/// The content with whitespace removed from both ends.
pub open spec fn trim_bytes(s: Seq<u8>) -> Seq<u8> {
    trim_end(trim_start(s))
}

proof fn lemma_trim_start_is(s: Seq<u8>, a: int)
    requires
        0 <= a <= s.len(),
        forall|j: int| 0 <= j < a ==> is_ws(s[j]),
        a < s.len() ==> !is_ws(s[a]),
    ensures
        trim_start(s) == s.skip(a),
    decreases s.len(),
{
    if a == 0 {
        assert(s.skip(0) =~= s);
    } else {
        assert(is_ws(s.first()));
        lemma_trim_start_is(s.drop_first(), a - 1);
        assert(s.drop_first().skip(a - 1) =~= s.skip(a));
    }
}

proof fn lemma_trim_end_is(s: Seq<u8>, b: int)
    requires
        0 <= b <= s.len(),
        forall|j: int| b <= j < s.len() ==> is_ws(s[j]),
        b > 0 ==> !is_ws(s[b - 1]),
    ensures
        trim_end(s) == s.take(b),
    decreases s.len(),
{
    if b == s.len() {
        if s.len() > 0 && is_ws(s.last()) {
            assert(is_ws(s[b - 1]));
        }
        assert(s.take(b) =~= s);
    } else {
        assert(is_ws(s.last()));
        lemma_trim_end_is(s.drop_last(), b);
        assert(s.drop_last().take(b) =~= s.take(b));
    }
}

/// Whether `needle` occurs contiguously inside `hay`.
pub open spec fn contains_sub(hay: Seq<u8>, needle: Seq<u8>) -> bool {
    exists|k: int|
        0 <= k && k + needle.len() <= hay.len() && #[trigger] hay.subrange(k, k + needle.len())
            == needle
}

/// A non-empty run of decimal digits.
pub open spec fn all_digits(s: Seq<u8>) -> bool {
    s.len() > 0 && forall|i: int| 0 <= i < s.len() ==> 48 <= #[trigger] s[i] <= 57
}

/// The value a byte contributes as a decimal digit.
pub open spec fn digit_val(b: u8) -> nat {
    if b >= 48 {
        (b - 48) as nat
    } else {
        0
    }
}

/// The number the digit run denotes, most significant digit first.
pub open spec fn dec_value(s: Seq<u8>) -> nat
    decreases s.len(),
{
    if s.len() == 0 {
        0
    } else {
        dec_value(s.drop_last()) * 10 + digit_val(s.last())
    }
}

/// What `str::parse::<usize>` accepts of a header value: an optional plus
/// sign, then decimal digits, and a value that fits the type.
pub open spec fn parse_usize(s: Seq<u8>) -> Option<nat> {
    let t = if s.len() > 0 && s[0] == 43 {
        s.drop_first()
    } else {
        s
    };
    if all_digits(t) && dec_value(t) <= usize::MAX {
        Option::Some(dec_value(t))
    } else {
        Option::None
    }
}

proof fn lemma_dec_value_monotone(s: Seq<u8>, i: int)
    requires
        0 <= i <= s.len(),
    ensures
        dec_value(s) >= dec_value(s.take(i)),
    decreases s.len() - i,
{
    if i == s.len() {
        assert(s.take(i) =~= s);
    } else {
        lemma_dec_value_monotone(s, i + 1);
        assert(s.take(i + 1).drop_last() =~= s.take(i));
        assert(dec_value(s.take(i + 1)) == dec_value(s.take(i)) * 10 + digit_val(s[i]));
        assert(dec_value(s.take(i)) * 10 >= dec_value(s.take(i))) by (nonlinear_arith)
            requires dec_value(s.take(i)) >= 0
        ;
    }
}

/// The decimal rendering of a number, most significant digit first.
pub open spec fn dec_bytes(n: nat) -> Seq<u8>
    decreases n,
{
    if n < 10 {
        seq![(48 + n) as u8]
    } else {
        dec_bytes(n / 10) + seq![(48 + n % 10) as u8]
    }
}

proof fn lemma_dec_bytes_digits(n: nat)
    ensures
        dec_bytes(n).len() >= 1,
        forall|i: int| 0 <= i < dec_bytes(n).len() ==> 48 <= #[trigger] dec_bytes(n)[i] <= 57,
    decreases n,
{
    if n >= 10 {
        lemma_dec_bytes_digits(n / 10);
    }
}

/// Rendering a number and reading the digits back returns the number.
proof fn lemma_dec_bytes_value(n: nat)
    ensures
        dec_value(dec_bytes(n)) == n,
    decreases n,
{
    if n < 10 {
        assert(dec_value(Seq::<u8>::empty()) == 0);
        assert(dec_bytes(n).drop_last() =~= Seq::<u8>::empty());
        assert(dec_bytes(n).len() == 1);
        assert(dec_bytes(n).last() == (48 + n) as u8);
        assert(digit_val((48 + n) as u8) == n);
        assert(dec_value(dec_bytes(n)) == dec_value(Seq::<u8>::empty()) * 10 + digit_val(
            (48 + n) as u8,
        ));
    } else {
        lemma_dec_bytes_value(n / 10);
        assert(dec_bytes(n).drop_last() =~= dec_bytes(n / 10));
        assert(dec_bytes(n).last() == (48 + n % 10) as u8);
        assert(digit_val((48 + n % 10) as u8) == n % 10);
        assert(dec_value(dec_bytes(n)) == (n / 10) * 10 + n % 10);
        assert((n / 10) * 10 + n % 10 == n) by (nonlinear_arith);
    }
}

/// The header name that selects the body length, lowercased:
/// "content-length".
pub open spec fn content_length_label() -> Seq<u8> {
    seq![99u8, 111, 110, 116, 101, 110, 116, 45, 108, 101, 110, 103, 116, 104]
}

/// The bytes a header-mode frame starts with: "Content-Length: ".
pub open spec fn cl_prefix() -> Seq<u8> {
    seq![67u8, 111, 110, 116, 101, 110, 116, 45, 76, 101, 110, 103, 116, 104, 58, 32]
}

/// The protocol marker that identifies a raw JSON line: "\"jsonrpc\"".
pub open spec fn jsonrpc_marker() -> Seq<u8> {
    seq![34u8, 106, 115, 111, 110, 114, 112, 99, 34]
}

/// Index of the first occurrence of `target` in `input[from..to)`.
fn find_byte_in(input: &[u8], from: usize, to: usize, target: u8) -> (r: Option<usize>)
    requires
        from <= to <= input@.len(),
    ensures
        match r {
            Some(k) => from <= k < to && input@[k as int] == target && forall|j: int|
                from <= j < k ==> input@[j] != target,
            None => forall|j: int| from <= j < to ==> input@[j] != target,
        },
{
    let mut i = from;
    while i < to
        invariant
            from <= i <= to <= input@.len(),
            forall|j: int| from <= j < i ==> input@[j] != target,
        decreases to - i,
    {
        if input[i] == target {
            return Some(i);
        }
        i = i + 1;
    }
    None
}

/// The end of `input[from..to)` once trailing carriage returns are dropped.
fn scan_cr_end(input: &[u8], from: usize, to: usize) -> (e: usize)
    requires
        from <= to <= input@.len(),
    ensures
        from <= e <= to,
        forall|j: int| e <= j < to ==> input@[j] == 13,
        e > from ==> input@[e - 1] != 13,
{
    let mut e = to;
    while e > from && input[e - 1] == 13
        invariant
            from <= e <= to <= input@.len(),
            forall|j: int| e <= j < to ==> input@[j] == 13,
        decreases e,
    {
        e = e - 1;
    }
    e
}

fn is_ws_byte(b: u8) -> (r: bool)
    ensures
        r == is_ws(b),
{
    b == 32 || (9 <= b && b <= 13)
}

/// The sub-window of `input[from..to)` with ASCII whitespace removed from
/// both ends.
fn trim_range(input: &[u8], from: usize, to: usize) -> (r: (usize, usize))
    requires
        from <= to <= input@.len(),
    ensures
        from <= r.0 <= r.1 <= to,
        trim_bytes(input@.subrange(from as int, to as int)) == input@.subrange(
            r.0 as int,
            r.1 as int,
        ),
{
    let ghost s = input@.subrange(from as int, to as int);
    let mut a = from;
    while a < to && is_ws_byte(input[a])
        invariant
            from <= a <= to <= input@.len(),
            forall|j: int| from <= j < a ==> is_ws(input@[j]),
        decreases to - a,
    {
        a = a + 1;
    }
    proof {
        lemma_trim_start_is(s, a - from);
        assert(s.skip(a - from) =~= input@.subrange(a as int, to as int));
    }
    let mut b = to;
    while b > a && is_ws_byte(input[b - 1])
        invariant
            a <= b <= to <= input@.len(),
            forall|j: int| b <= j < to ==> is_ws(input@[j]),
        decreases b,
    {
        b = b - 1;
    }
    proof {
        let t = input@.subrange(a as int, to as int);
        lemma_trim_end_is(t, b - a);
        assert(t.take(b - a) =~= input@.subrange(a as int, b as int));
    }
    (a, b)
}

fn lower_byte_exec(b: u8) -> (r: u8)
    ensures
        r == lower_byte(b),
{
    if 65 <= b && b <= 90 {
        b + 32
    } else {
        b
    }
}

/// Case-insensitive comparison of `input[a..b)` against `label`.
fn eq_icase_range(input: &[u8], a: usize, b: usize, label: &[u8]) -> (r: bool)
    requires
        a <= b <= input@.len(),
    ensures
        r == eq_icase(input@.subrange(a as int, b as int), label@),
{
    let ghost s = input@.subrange(a as int, b as int);
    let m = label.len();
    if b - a != m {
        return false;
    }
    let mut i: usize = 0;
    while i < m
        invariant
            a <= b <= input@.len(),
            b - a == m,
            m == label@.len(),
            i <= m,
            forall|j: int| 0 <= j < i ==> lower_byte(s[j]) == lower_byte(label@[j]),
            s == input@.subrange(a as int, b as int),
        decreases m - i,
    {
        if lower_byte_exec(input[a + i]) != lower_byte_exec(label[i]) {
            proof {
                assert(s[i as int] == input@[a + i]);
            }
            return false;
        }
        proof {
            assert(s[i as int] == input@[a + i]);
        }
        i = i + 1;
    }
    true
}

/// Whether `needle` occurs inside `input[a..b)`.
fn contains_range(input: &[u8], a: usize, b: usize, needle: &[u8]) -> (r: bool)
    requires
        a <= b <= input@.len(),
    ensures
        r == contains_sub(input@.subrange(a as int, b as int), needle@),
{
    let ghost s = input@.subrange(a as int, b as int);
    let m = needle.len();
    let n = b - a;
    if m > n {
        proof {
            assert(!contains_sub(s, needle@));
        }
        return false;
    }
    let mut k: usize = 0;
    while k <= n - m
        invariant
            a <= b <= input@.len(),
            n == b - a,
            m == needle@.len(),
            m <= n,
            k <= n - m + 1,
            s == input@.subrange(a as int, b as int),
            forall|k2: int| 0 <= k2 < k ==> #[trigger] s.subrange(k2, k2 + m) != needle@,
        decreases n + 1 - k,
    {
        let mut j: usize = 0;
        let mut matches_here = true;
        while j < m
            invariant
                a <= b <= input@.len(),
                n == b - a,
                m == needle@.len(),
                m <= n,
                k <= n - m,
                j <= m,
                s == input@.subrange(a as int, b as int),
                matches_here ==> forall|x: int| 0 <= x < j ==> s[k + x] == needle@[x],
                !matches_here ==> s.subrange(k as int, k + m) != needle@ && m >= 1,
            decreases m - j,
        {
            if input[a + k + j] != needle[j] {
                proof {
                    assert(s.subrange(k as int, k + m)[j as int] == s[k + j]);
                    assert(s[k + j] == input@[a + k + j]);
                }
                matches_here = false;
                j = m;
            } else {
                proof {
                    assert(s[k + j] == input@[a + k + j]);
                }
                j = j + 1;
            }
        }
        if matches_here {
            proof {
                assert(s.subrange(k as int, k + m) =~= needle@);
            }
            return true;
        }
        proof {
            assert(m >= 1);
        }
        k = k + 1;
    }
    proof {
        assert forall|k2: int| 0 <= k2 && k2 + needle@.len() <= s.len() implies #[trigger] s.subrange(
            k2,
            k2 + needle@.len(),
        ) != needle@ by {
            assert(k2 < k);
        }
    }
    false
}

/// Parse `input[a..b)` as `str::parse::<usize>` would: optional plus sign,
/// then decimal digits fitting the type.
fn parse_usize_range(input: &[u8], a: usize, b: usize) -> (r: Option<usize>)
    requires
        a <= b <= input@.len(),
    ensures
        match r {
            Some(v) => parse_usize(input@.subrange(a as int, b as int)) == Option::Some(v as nat),
            None => parse_usize(input@.subrange(a as int, b as int)) is None,
        },
{
    let ghost s = input@.subrange(a as int, b as int);
    let start = if a < b && input[a] == 43 {
        a + 1
    } else {
        a
    };
    let ghost t = input@.subrange(start as int, b as int);
    proof {
        if s.len() > 0 && s[0] == 43 {
            assert(s.drop_first() =~= t);
        } else {
            assert(s =~= t);
        }
    }
    if start == b {
        return None;
    }
    let mut acc: usize = 0;
    let mut i = start;
    while i < b
        invariant
            a <= start <= i <= b <= input@.len(),
            start < b,
            s == input@.subrange(a as int, b as int),
            t == input@.subrange(start as int, b as int),
            t == (if s.len() > 0 && s[0] == 43 {
                s.drop_first()
            } else {
                s
            }),
            forall|j: int| 0 <= j < i - start ==> 48 <= #[trigger] t[j] <= 57,
            acc == dec_value(t.take(i - start)),
        decreases b - i,
    {
        let c = input[i];
        if c < 48 || c > 57 {
            proof {
                assert(t[i - start] == input@[i as int]);
            }
            return None;
        }
        let d = (c - 48) as usize;
        proof {
            assert(t[i - start] == input@[i as int]);
            assert(t.take(i - start + 1).drop_last() =~= t.take(i - start));
            assert(t.take(i - start + 1).last() == t[i - start]);
        }
        if acc > (usize::MAX - d) / 10 {
            proof {
                assert(acc * 10 + d > usize::MAX) by (nonlinear_arith)
                    requires
                        acc > (usize::MAX - d) / 10,
                        0 <= d < 10,
                        acc >= 0,
                ;
                assert(dec_value(t.take(i - start + 1)) > usize::MAX);
                lemma_dec_value_monotone(t, i - start + 1);
            }
            return None;
        }
        acc = acc * 10 + d;
        i = i + 1;
    }
    proof {
        assert(t.take(b - start) =~= t);
    }
    Some(acc)
}

/// What the parser decides about the bytes read so far.
pub enum SpecFrame {
    /// No complete frame yet; more bytes are needed.
    NeedMore,
    /// A `Content-Length` header carried an unusable value.
    BadHeader,
    /// The header block ended without any `Content-Length`.
    MissingLength,
    /// One complete frame: its body, how many bytes of the input it spans,
    /// and whether it arrived as a raw JSON line.
    Done { body: Seq<u8>, consumed: int, raw_json: bool },
}

/// The effect of one non-blank header line on the pending body length:
/// a `Content-Length` header (case-insensitive, whitespace-trimmed) replaces
/// it — an unparsable value is an error — and any other line is ignored.
pub open spec fn header_update(content: Seq<u8>, cl: Option<nat>) -> Result<Option<nat>, ()> {
    let colon = first_byte(content, 58);
    if colon < 0 {
        Result::Ok(cl)
    } else {
        let name = trim_bytes(content.take(colon));
        let value = trim_bytes(content.skip(colon + 1));
        if eq_icase(name, content_length_label()) {
            match parse_usize(value) {
                Option::Some(n) => Result::Ok(Option::Some(n)),
                Option::None => Result::Err(()),
            }
        } else {
            Result::Ok(cl)
        }
    }
}

/// The same outcome, with the consumed count shifted by `d` input bytes.
pub open spec fn shift_frame(f: SpecFrame, d: int) -> SpecFrame {
    match f {
        SpecFrame::Done { body, consumed, raw_json } => SpecFrame::Done {
            body,
            consumed: consumed + d,
            raw_json,
        },
        _ => f,
    }
}

/// One frame read from `input`, headers first: header lines end at a line
/// feed and lose trailing carriage returns; a blank line ends the block and
/// the announced number of body bytes follows; a first line that is itself
/// a JSON object carrying the protocol marker is a whole raw frame.
pub open spec fn parse_frame_at(input: Seq<u8>, first: bool, cl: Option<nat>) -> SpecFrame
    decreases input.len(),
    via parse_frame_at_dec
{
    let nl = first_byte(input, 10);
    if nl < 0 {
        SpecFrame::NeedMore
    } else {
        let content = strip_cr(input.take(nl));
        if content.len() == 0 {
            match cl {
                Option::None => SpecFrame::MissingLength,
                Option::Some(n) => if nl + 1 + n <= input.len() {
                    SpecFrame::Done {
                        body: input.subrange(nl + 1, nl + 1 + n),
                        consumed: nl + 1 + n,
                        raw_json: false,
                    }
                } else {
                    SpecFrame::NeedMore
                },
            }
        } else if first && content[0] == 123 && contains_sub(content, jsonrpc_marker()) {
            SpecFrame::Done { body: content, consumed: nl + 1, raw_json: true }
        } else {
            match header_update(content, cl) {
                Result::Err(_) => SpecFrame::BadHeader,
                Result::Ok(cl2) => shift_frame(
                    parse_frame_at(input.skip(nl + 1), false, cl2),
                    nl + 1,
                ),
            }
        }
    }
}

#[via_fn]
proof fn parse_frame_at_dec(input: Seq<u8>, first: bool, cl: Option<nat>) {
    lemma_first_byte_bounds(input, 10);
}

/// One frame read from the start of a fresh connection's bytes.
pub open spec fn parse_frame(input: Seq<u8>) -> SpecFrame {
    parse_frame_at(input, true, None)
}

/// The spec-level body length carried by an exec option.
pub open spec fn opt_len(cl: Option<usize>) -> Option<nat> {
    match cl {
        Option::Some(v) => Option::Some(v as nat),
        Option::None => Option::None,
    }
}

/// Copy `input[a..b)` into a fresh vector.
fn bytes_range_to_vec(input: &[u8], a: usize, b: usize) -> (r: Vec<u8>)
    requires
        a <= b <= input@.len(),
    ensures
        r@ == input@.subrange(a as int, b as int),
{
    let mut r: Vec<u8> = Vec::new();
    let mut i = a;
    while i < b
        invariant
            a <= i <= b <= input@.len(),
            r@ =~= input@.subrange(a as int, i as int),
        decreases b - i,
    {
        r.push(input[i]);
        proof {
            assert(r@ =~= input@.subrange(a as int, i + 1));
        }
        i = i + 1;
    }
    r
}

fn content_length_label_vec() -> (r: Vec<u8>)
    ensures
        r@ == content_length_label(),
{
    let mut r: Vec<u8> = Vec::new();
    r.push(99);
    r.push(111);
    r.push(110);
    r.push(116);
    r.push(101);
    r.push(110);
    r.push(116);
    r.push(45);
    r.push(108);
    r.push(101);
    r.push(110);
    r.push(103);
    r.push(116);
    r.push(104);
    proof {
        assert(r@ =~= content_length_label());
    }
    r
}

fn cl_prefix_vec() -> (r: Vec<u8>)
    ensures
        r@ == cl_prefix(),
{
    let mut r: Vec<u8> = Vec::new();
    r.push(67);
    r.push(111);
    r.push(110);
    r.push(116);
    r.push(101);
    r.push(110);
    r.push(116);
    r.push(45);
    r.push(76);
    r.push(101);
    r.push(110);
    r.push(103);
    r.push(116);
    r.push(104);
    r.push(58);
    r.push(32);
    proof {
        assert(r@ =~= cl_prefix());
    }
    r
}

fn jsonrpc_marker_vec() -> (r: Vec<u8>)
    ensures
        r@ == jsonrpc_marker(),
{
    let mut r: Vec<u8> = Vec::new();
    r.push(34);
    r.push(106);
    r.push(115);
    r.push(111);
    r.push(110);
    r.push(114);
    r.push(112);
    r.push(99);
    r.push(34);
    proof {
        assert(r@ =~= jsonrpc_marker());
    }
    r
}

/// What one attempt to read a frame from the buffered bytes yields.
pub enum FrameRead {
    /// No complete frame yet: read more bytes and try again.
    NeedMore,
    /// A `Content-Length` header carried an unusable value.
    BadHeader,
    /// The header block ended without any `Content-Length`.
    MissingLength,
    /// One complete frame: its body, how many buffered bytes it consumed,
    /// and whether it arrived as a raw JSON line (which pins the connection
    /// to raw-line framing from then on).
    Frame { body: Vec<u8>, consumed: usize, raw_json: bool },
}

/// Read one complete request unit from the buffered bytes: either a
/// `Content-Length` header block followed by exactly that many body bytes,
/// or — on the very first header line — a raw JSON object line carrying the
/// protocol marker.
#[verifier::rlimit(60)]
pub fn read_framed_message_buf(input: &[u8]) -> (r: FrameRead)
    ensures
        ({
            let sp = parse_frame(input@);
            match r {
                FrameRead::NeedMore => sp == SpecFrame::NeedMore,
                FrameRead::BadHeader => sp == SpecFrame::BadHeader,
                FrameRead::MissingLength => sp == SpecFrame::MissingLength,
                FrameRead::Frame { body, consumed, raw_json } => sp == (SpecFrame::Done {
                    body: body@,
                    consumed: consumed as int,
                    raw_json,
                }),
            }
        }),
{
    let len = input.len();
    let marker = jsonrpc_marker_vec();
    let label = content_length_label_vec();
    let mut pos: usize = 0;
    let mut first = true;
    let mut cl: Option<usize> = None;
    proof {
        assert(input@.skip(0) =~= input@);
    }
    loop
        invariant
            pos <= len,
            len == input@.len(),
            marker@ == jsonrpc_marker(),
            label@ == content_length_label(),
            parse_frame(input@) == shift_frame(
                parse_frame_at(input@.skip(pos as int), first, opt_len(cl)),
                pos as int,
            ),
        decreases len - pos,
    {
        let ghost suffix = input@.skip(pos as int);
        let nl_opt = find_byte_in(input, pos, len, 10);
        match nl_opt {
            None => {
                proof {
                    assert forall|j: int| 0 <= j < suffix.len() implies suffix[j] != 10 by {
                        assert(suffix[j] == input@[pos + j]);
                    }
                    lemma_first_byte_none(suffix, 10);
                }
                return FrameRead::NeedMore;
            },
            Some(j) => {
                proof {
                    assert forall|x: int| 0 <= x < j - pos implies suffix[x] != 10 by {
                        assert(suffix[x] == input@[pos + x]);
                    }
                    assert(suffix[j - pos] == input@[j as int]);
                    lemma_first_byte_at(suffix, 10, j - pos);
                }
                let e = scan_cr_end(input, pos, j);
                let ghost line = suffix.take(j - pos);
                let ghost content = input@.subrange(pos as int, e as int);
                proof {
                    assert forall|x: int| e - pos <= x < line.len() implies line[x] == 13 by {
                        assert(line[x] == input@[pos + x]);
                    }
                    if e > pos {
                        assert(line[e - pos - 1] == input@[e - 1]);
                    }
                    lemma_strip_cr_is(line, e - pos);
                    assert(line.take(e - pos) =~= content);
                }
                if e == pos {
                    // Blank line: end of the header block.
                    match cl {
                        None => {
                            return FrameRead::MissingLength;
                        },
                        Some(n) => {
                            if n <= len - (j + 1) {
                                let body = bytes_range_to_vec(input, j + 1, j + 1 + n);
                                proof {
                                    assert(suffix.subrange(
                                        j - pos + 1,
                                        j - pos + 1 + n,
                                    ) =~= input@.subrange(j + 1, j + 1 + n));
                                }
                                return FrameRead::Frame {
                                    body,
                                    consumed: j + 1 + n,
                                    raw_json: false,
                                };
                            } else {
                                return FrameRead::NeedMore;
                            }
                        },
                    }
                } else if first && input[pos] == 123 && contains_range(
                    input,
                    pos,
                    e,
                    marker.as_slice(),
                ) {
                    // The first header line is itself a raw JSON request.
                    let body = bytes_range_to_vec(input, pos, e);
                    proof {
                        assert(content[0] == input@[pos as int]);
                    }
                    return FrameRead::Frame { body, consumed: j + 1, raw_json: true };
                } else {
                    proof {
                        assert(content[0] == input@[pos as int]);
                    }
                    // One header line: only Content-Length is recognized.
                    let colon_opt = find_byte_in(input, pos, e, 58);
                    let mut bad = false;
                    match colon_opt {
                        None => {
                            proof {
                                assert forall|x: int| 0 <= x < content.len() implies content[x]
                                    != 58 by {
                                    assert(content[x] == input@[pos + x]);
                                }
                                lemma_first_byte_none(content, 58);
                            }
                        },
                        Some(c) => {
                            proof {
                                assert forall|x: int| 0 <= x < c - pos implies content[x] != 58 by {
                                    assert(content[x] == input@[pos + x]);
                                }
                                assert(content[c - pos] == input@[c as int]);
                                lemma_first_byte_at(content, 58, c - pos);
                                assert(content.take(c - pos) =~= input@.subrange(
                                    pos as int,
                                    c as int,
                                ));
                                assert(content.skip(c - pos + 1) =~= input@.subrange(
                                    c + 1,
                                    e as int,
                                ));
                            }
                            let (na, nb) = trim_range(input, pos, c);
                            if eq_icase_range(input, na, nb, label.as_slice()) {
                                let (va, vb) = trim_range(input, c + 1, e);
                                match parse_usize_range(input, va, vb) {
                                    Some(v) => {
                                        cl = Some(v);
                                    },
                                    None => {
                                        bad = true;
                                    },
                                }
                            }
                        },
                    }
                    if bad {
                        return FrameRead::BadHeader;
                    }
                    proof {
                        assert(suffix.skip(j - pos + 1) =~= input@.skip(j + 1));
                    }
                    pos = j + 1;
                    first = false;
                }
            },
        }
    }
}

/// Append the decimal rendering of `n`.
fn push_dec_digits(out: &mut Vec<u8>, n: usize)
    ensures
        final(out)@ == old(out)@ + dec_bytes(n as nat),
    decreases n,
{
    if n >= 10 {
        push_dec_digits(out, n / 10);
    }
    let d = (n % 10) as u8;
    out.push(48 + d);
    proof {
        if n < 10 {
            assert(old(out)@.push((48 + n) as u8) =~= old(out)@ + dec_bytes(n as nat));
        } else {
            assert((old(out)@ + dec_bytes((n / 10) as nat)).push((48 + n % 10) as u8) =~= old(
                out,
            )@ + dec_bytes(n as nat));
        }
    }
}

/// The bytes of one header-mode frame around `body`.
pub open spec fn encode_frame_spec(body: Seq<u8>) -> Seq<u8> {
    cl_prefix() + dec_bytes(body.len()) + seq![13u8, 10u8, 13u8, 10u8] + body
}

/// Write one complete response unit: in header mode a `Content-Length`
/// block carrying exactly the body's byte count, in raw-line mode the body
/// followed by a newline.
pub fn encode_frame(body: &Vec<u8>, raw_json: bool) -> (r: Vec<u8>)
    ensures
        raw_json ==> r@ == body@ + seq![10u8],
        !raw_json ==> r@ == encode_frame_spec(body@),
{
    if raw_json {
        let mut r = bytes_range_to_vec(body.as_slice(), 0, body.len());
        proof {
            assert(body@.subrange(0, body@.len() as int) =~= body@);
        }
        r.push(10);
        proof {
            assert(body@.push(10u8) =~= body@ + seq![10u8]);
        }
        r
    } else {
        let mut r = cl_prefix_vec();
        push_dec_digits(&mut r, body.len());
        r.push(13);
        r.push(10);
        r.push(13);
        r.push(10);
        let mut i: usize = 0;
        let n = body.len();
        let ghost head = cl_prefix() + dec_bytes(n as nat) + seq![13u8, 10u8, 13u8, 10u8];
        proof {
            assert(r@ =~= head);
        }
        while i < n
            invariant
                i <= n,
                n == body@.len(),
                r@ =~= head + body@.take(i as int),
                head == cl_prefix() + dec_bytes(n as nat) + seq![13u8, 10u8, 13u8, 10u8],
            decreases n - i,
        {
            r.push(body[i]);
            proof {
                assert(r@ =~= head + body@.take(i + 1));
            }
            i = i + 1;
        }
        proof {
            assert(body@.take(n as int) =~= body@);
            assert(head + body@ =~= encode_frame_spec(body@));
        }
        r
    }
}

/// Append every byte of `src`.
fn push_bytes(out: &mut Vec<u8>, src: &[u8])
    ensures
        final(out)@ == old(out)@ + src@,
{
    let n = src.len();
    let mut i: usize = 0;
    proof {
        assert(old(out)@ + src@.take(0) =~= old(out)@);
    }
    while i < n
        invariant
            i <= n,
            n == src@.len(),
            out@ =~= old(out)@ + src@.take(i as int),
        decreases n - i,
    {
        out.push(src[i]);
        proof {
            assert(out@ =~= old(out)@ + src@.take(i + 1));
        }
        i = i + 1;
    }
    proof {
        assert(src@.take(n as int) =~= src@);
    }
}

/// The opening of every response: `{"jsonrpc":"2.0","id":`.
pub open spec fn envelope_head() -> Seq<u8> {
    seq![123u8, 34, 106, 115, 111, 110, 114, 112, 99, 34, 58, 34, 50, 46, 48, 34, 44, 34, 105, 100, 34, 58]
}

/// The key between the echoed id and a success payload: `,"result":`.
pub open spec fn result_key() -> Seq<u8> {
    seq![44u8, 34, 114, 101, 115, 117, 108, 116, 34, 58]
}

/// The keys around a failure payload: `,"error":{"code":`.
pub open spec fn error_key() -> Seq<u8> {
    seq![44u8, 34, 101, 114, 114, 111, 114, 34, 58, 123, 34, 99, 111, 100, 101, 34, 58]
}

/// The key before the error message: `,"message":`.
pub open spec fn message_key() -> Seq<u8> {
    seq![44u8, 34, 109, 101, 115, 115, 97, 103, 101, 34, 58]
}

fn envelope_head_vec() -> (r: Vec<u8>)
    ensures
        r@ == envelope_head(),
{
    let mut r: Vec<u8> = Vec::new();
    r.push(123);
    r.push(34);
    r.push(106);
    r.push(115);
    r.push(111);
    r.push(110);
    r.push(114);
    r.push(112);
    r.push(99);
    r.push(34);
    r.push(58);
    r.push(34);
    r.push(50);
    r.push(46);
    r.push(48);
    r.push(34);
    r.push(44);
    r.push(34);
    r.push(105);
    r.push(100);
    r.push(34);
    r.push(58);
    proof {
        assert(r@ =~= envelope_head());
    }
    r
}

/// The decimal rendering of a signed code.
pub open spec fn signed_dec_bytes(code: int) -> Seq<u8> {
    if code < 0 {
        seq![45u8] + dec_bytes((-code) as nat)
    } else {
        dec_bytes(code as nat)
    }
}

/// A success response around an already-serialized id and payload:
/// `{"jsonrpc":"2.0","id":<id>,"result":<result>}`.
pub open spec fn response_envelope(id: Seq<u8>, result: Seq<u8>) -> Seq<u8> {
    envelope_head() + id + result_key() + result + seq![125u8]
}

/// A failure response around an already-serialized id and message:
/// `{"jsonrpc":"2.0","id":<id>,"error":{"code":<code>,"message":<message>}}`.
pub open spec fn error_envelope(id: Seq<u8>, code: int, message: Seq<u8>) -> Seq<u8> {
    envelope_head() + id + error_key() + signed_dec_bytes(code) + message_key() + message + seq![
        125u8,
        125u8,
    ]
}

/// Build a success response. The id and the payload arrive as serialized
/// JSON; the envelope around them is exactly the protocol's.
pub fn encode_response(id: &Vec<u8>, result: &Vec<u8>) -> (r: Vec<u8>)
    ensures
        r@ == response_envelope(id@, result@),
{
    let mut r = envelope_head_vec();
    push_bytes(&mut r, id.as_slice());
    let mut key: Vec<u8> = Vec::new();
    key.push(44);
    key.push(34);
    key.push(114);
    key.push(101);
    key.push(115);
    key.push(117);
    key.push(108);
    key.push(116);
    key.push(34);
    key.push(58);
    proof {
        assert(key@ =~= result_key());
    }
    push_bytes(&mut r, key.as_slice());
    push_bytes(&mut r, result.as_slice());
    r.push(125);
    proof {
        assert(r@ =~= response_envelope(id@, result@));
    }
    r
}

/// Build a failure response. The id and the message arrive as serialized
/// JSON; the envelope and the rendered code around them are exactly the
/// protocol's.
pub fn encode_error_response(id: &Vec<u8>, code: i64, message: &Vec<u8>) -> (r: Vec<u8>)
    requires
        code > i64::MIN,
    ensures
        r@ == error_envelope(id@, code as int, message@),
{
    let mut r = envelope_head_vec();
    push_bytes(&mut r, id.as_slice());
    let mut key: Vec<u8> = Vec::new();
    key.push(44);
    key.push(34);
    key.push(101);
    key.push(114);
    key.push(114);
    key.push(111);
    key.push(114);
    key.push(34);
    key.push(58);
    key.push(123);
    key.push(34);
    key.push(99);
    key.push(111);
    key.push(100);
    key.push(101);
    key.push(34);
    key.push(58);
    proof {
        assert(key@ =~= error_key());
    }
    push_bytes(&mut r, key.as_slice());
    if code < 0 {
        r.push(45);
        let mag = (-code) as u64;
        push_dec_u64(&mut r, mag);
    } else {
        push_dec_u64(&mut r, code as u64);
    }
    let ghost with_code = envelope_head() + id@ + error_key() + signed_dec_bytes(code as int);
    proof {
        assert(r@ =~= with_code);
    }
    let mut mkey: Vec<u8> = Vec::new();
    mkey.push(44);
    mkey.push(34);
    mkey.push(109);
    mkey.push(101);
    mkey.push(115);
    mkey.push(115);
    mkey.push(97);
    mkey.push(103);
    mkey.push(101);
    mkey.push(34);
    mkey.push(58);
    proof {
        assert(mkey@ =~= message_key());
    }
    push_bytes(&mut r, mkey.as_slice());
    push_bytes(&mut r, message.as_slice());
    r.push(125);
    r.push(125);
    proof {
        assert(r@ =~= error_envelope(id@, code as int, message@));
    }
    r
}

/// Append the decimal rendering of `n`.
fn push_dec_u64(out: &mut Vec<u8>, n: u64)
    ensures
        final(out)@ == old(out)@ + dec_bytes(n as nat),
    decreases n,
{
    if n >= 10 {
        push_dec_u64(out, n / 10);
    }
    let d = (n % 10) as u8;
    out.push(48 + d);
    proof {
        if n < 10 {
            assert(old(out)@.push((48 + n) as u8) =~= old(out)@ + dec_bytes(n as nat));
        } else {
            assert((old(out)@ + dec_bytes((n / 10) as nat)).push((48 + n % 10) as u8) =~= old(
                out,
            )@ + dec_bytes(n as nat));
        }
    }
}

proof fn lemma_cl_prefix_facts()
    ensures
        cl_prefix().len() == 16,
        forall|j: int| 0 <= j < 16 ==> #[trigger] cl_prefix()[j] != 10,
        forall|j: int| 0 <= j < 14 ==> #[trigger] cl_prefix()[j] != 58,
        forall|j: int| 0 <= j < 14 ==> !is_ws(#[trigger] cl_prefix()[j]),
        cl_prefix()[0] == 67,
        cl_prefix()[14] == 58,
        cl_prefix()[15] == 32,
        content_length_label().len() == 14,
        eq_icase(cl_prefix().take(14), content_length_label()),
{
    let p = cl_prefix();
    let l = content_length_label();
    assert(p[0] == 67 && p[1] == 111 && p[2] == 110 && p[3] == 116 && p[4] == 101 && p[5] == 110
        && p[6] == 116 && p[7] == 45 && p[8] == 76 && p[9] == 101 && p[10] == 110 && p[11] == 103
        && p[12] == 116 && p[13] == 104 && p[14] == 58 && p[15] == 32);
    assert(l[0] == 99 && l[1] == 111 && l[2] == 110 && l[3] == 116 && l[4] == 101 && l[5] == 110
        && l[6] == 116 && l[7] == 45 && l[8] == 108 && l[9] == 101 && l[10] == 110 && l[11] == 103
        && l[12] == 116 && l[13] == 104);
    assert forall|j: int| 0 <= j < 14 implies lower_byte(p.take(14)[j]) == lower_byte(l[j]) by {
        assert(p.take(14)[j] == p[j]);
    }
}

/// Framing round trip: a body encoded by the header-mode framer is read
/// back by the frame reader as exactly that body, spanning exactly the
/// encoded bytes, in header mode.
pub proof fn lemma_frame_round_trip(body: Seq<u8>)
    requires
        body.len() <= usize::MAX,
    ensures
        parse_frame(encode_frame_spec(body)) == (SpecFrame::Done {
            body: body,
            consumed: encode_frame_spec(body).len() as int,
            raw_json: false,
        }),
{
    let n = body.len();
    let d = dec_bytes(n);
    let dl = d.len() as int;
    lemma_dec_bytes_digits(n);
    lemma_dec_bytes_value(n);
    lemma_cl_prefix_facts();
    let enc = encode_frame_spec(body);
    let tail = seq![13u8, 10u8, 13u8, 10u8];
    assert(enc.len() == 16 + dl + 4 + n);
    let nl = 16 + dl + 1;
    // The first line feed sits right after the header line's carriage
    // return.
    assert forall|j: int| 0 <= j < nl implies enc[j] != 10 by {
        if j < 16 {
            assert(enc[j] == cl_prefix()[j]);
        } else if j < 16 + dl {
            assert(enc[j] == d[j - 16]);
        } else {
            assert(enc[j] == 13);
        }
    }
    assert(enc[nl] == 10);
    lemma_first_byte_at(enc, 10, nl);
    // The header line content is the prefix plus the digits.
    let line = enc.take(nl);
    let content = cl_prefix() + d;
    assert(line[nl - 1] == 13);
    assert forall|j: int| nl - 1 <= j < line.len() implies line[j] == 13 by {}
    assert(line[nl - 2] == d[dl - 1]);
    assert(48 <= d[dl - 1] <= 57);
    lemma_strip_cr_is(line, nl - 1);
    assert(line.take(nl - 1) =~= content);
    assert(strip_cr(enc.take(nl)) == content);
    assert(content.len() == 16 + dl);
    assert(content[0] == 67);
    // The header line is a Content-Length header with value `n`.
    assert forall|j: int| 0 <= j < 14 implies content[j] != 58 by {
        assert(content[j] == cl_prefix()[j]);
    }
    assert(content[14] == 58);
    lemma_first_byte_at(content, 58, 14);
    let name_raw = content.take(14);
    assert(name_raw =~= cl_prefix().take(14));
    assert forall|j: int| 0 <= j < 14 implies !is_ws(name_raw[j]) by {
        assert(name_raw[j] == cl_prefix()[j]);
    }
    lemma_trim_start_is(name_raw, 0);
    assert(name_raw.skip(0) =~= name_raw);
    lemma_trim_end_is(name_raw, 14);
    assert(name_raw.take(14) =~= name_raw);
    assert(trim_bytes(name_raw) == name_raw);
    assert(eq_icase(name_raw, content_length_label()));
    let value_raw = content.skip(15);
    assert(value_raw.len() == 1 + dl);
    assert(value_raw[0] == 32);
    assert forall|j: int| 1 <= j < value_raw.len() implies value_raw[j] == d[j - 1] by {}
    assert forall|j: int| 0 <= j < 1 implies is_ws(value_raw[j]) by {}
    assert(!is_ws(value_raw[1]));
    lemma_trim_start_is(value_raw, 1);
    assert(value_raw.skip(1) =~= d);
    assert(!is_ws(d[dl - 1]));
    lemma_trim_end_is(d, dl);
    assert(d.take(dl) =~= d);
    assert(trim_bytes(value_raw) == d);
    assert(d[0] != 43);
    assert(all_digits(d));
    assert(parse_usize(d) == Option::Some(n as nat));
    assert(header_update(content, Option::None) == Result::<Option<nat>, ()>::Ok(
        Option::Some(n as nat),
    ));
    // Not a raw JSON line: it does not start with an opening brace.
    assert(content[0] != 123);
    // After the header line: the blank line, then exactly the body.
    let rest = enc.skip(nl + 1);
    assert(rest.len() == 2 + n);
    assert(rest[0] == 13);
    assert(rest[1] == 10);
    lemma_first_byte_at(rest, 10, 1);
    let line2 = rest.take(1);
    assert(line2.len() == 1 && line2[0] == 13);
    lemma_strip_cr_is(line2, 0);
    assert(line2.take(0) =~= Seq::<u8>::empty());
    assert(strip_cr(rest.take(1)).len() == 0);
    assert(rest.subrange(2, 2 + n as int) =~= body);
    assert(parse_frame_at(rest, false, Option::Some(n as nat)) == (SpecFrame::Done {
        body: body,
        consumed: 2 + n as int,
        raw_json: false,
    }));
    assert(parse_frame(enc) == shift_frame(
        parse_frame_at(rest, false, Option::Some(n as nat)),
        nl + 1,
    ));
}

/// Raw-line round trip: a JSON-object body carrying the protocol marker
/// and free of line breaks, written by the raw-line framer, is read back
/// as exactly that body, in raw mode. (A body holding a literal line-feed
/// or carriage-return byte cannot travel as one line; header mode carries
/// those.)
pub proof fn lemma_raw_frame_round_trip(body: Seq<u8>)
    requires
        body.len() > 0,
        body[0] == 123,
        contains_sub(body, jsonrpc_marker()),
        forall|j: int| 0 <= j < body.len() ==> body[j] != 10 && body[j] != 13,
    ensures
        parse_frame(body + seq![10u8]) == (SpecFrame::Done {
            body: body,
            consumed: body.len() as int + 1,
            raw_json: true,
        }),
{
    let enc = body + seq![10u8];
    assert forall|j: int| 0 <= j < body.len() implies enc[j] != 10 by {
        assert(enc[j] == body[j]);
    }
    assert(enc[body.len() as int] == 10);
    lemma_first_byte_at(enc, 10, body.len() as int);
    assert(enc.take(body.len() as int) =~= body);
    lemma_strip_cr_is(body, body.len() as int);
    assert(body.take(body.len() as int) =~= body);
    assert(strip_cr(enc.take(body.len() as int)) == body);
}

} // verus!
