//! The JSON wire envelope.
//!
//! Every frame is a JSON object with mandatory `op` (unsigned byte) and
//! `d` (data), and optional `s` (sequence, unsigned 64-bit) and `t` (event
//! name). The encoder emits the members in the fixed order `op`, `d`, `s`,
//! `t` with no interior whitespace; the decoder accepts the members in any
//! order, with optional whitespace and with unknown members skipped, so
//! decoding an encoded payload gives the payload back.

use vstd::prelude::*;

use crate::error::Error;
use crate::events::GatewayPayload;
use crate::events::PayloadView;

verus! {

// ---------------------------------------------------------------------------
// Decimal digits of an unsigned 64-bit number.
// ---------------------------------------------------------------------------

/// The decimal digit characters of `n`, most significant first.
pub open spec fn dec_u64(n: u64) -> Seq<u8>
    decreases n,
{
    if n < 10 {
        seq![(48 + n) as u8]
    } else {
        dec_u64(n / 10).push((48 + n % 10) as u8)
    }
}

/// True for the bytes `'0'` to `'9'`.
pub open spec fn is_digit(c: u8) -> bool {
    48 <= c <= 57
}

/// Appends the decimal digits of `n` to `out`.
pub fn enc_u64_push(out: &mut Vec<u8>, n: u64)
    ensures
        final(out)@ == old(out)@ + dec_u64(n),
    decreases n,
{
    if n < 10 {
        out.push(48 + n as u8);
        proof {
            assert(final(out)@ =~= old(out)@ + dec_u64(n));
        }
    } else {
        assert(n / 10 < n);
        enc_u64_push(out, n / 10);
        out.push(48 + (n % 10) as u8);
        proof {
            assert(final(out)@ =~= old(out)@ + dec_u64(n));
        }
    }
}

// ---------------------------------------------------------------------------
// The envelope grammar.
// ---------------------------------------------------------------------------

/// The bytes of `{"op":`.
pub open spec fn lit_op_prefix() -> Seq<u8> {
    seq![123u8, 34u8, 111u8, 112u8, 34u8, 58u8]
}

/// The bytes of `,"d":`.
pub open spec fn lit_d() -> Seq<u8> {
    seq![44u8, 34u8, 100u8, 34u8, 58u8]
}

/// The bytes of `,"s":`.
pub open spec fn lit_s() -> Seq<u8> {
    seq![44u8, 34u8, 115u8, 34u8, 58u8]
}

/// The bytes of `,"t":"`.
pub open spec fn lit_t() -> Seq<u8> {
    seq![44u8, 34u8, 116u8, 34u8, 58u8, 34u8]
}

/// The wire bytes of a payload: the fields in the order `op`, `d`, `s`, `t`,
/// with `s` and `t` omitted when absent.
pub open spec fn spec_encode(p: PayloadView) -> Seq<u8> {
    lit_op_prefix() + dec_u64(p.op_code as u64) + lit_d() + p.event_data + (match p
        .sequence_number {
        Option::Some(s) => lit_s() + dec_u64(s),
        Option::None => Seq::empty(),
    }) + (match p.event_name {
        Option::Some(t) => lit_t() + t + seq![34u8],
        Option::None => Seq::empty(),
    }) + seq![125u8]
}

/// Appends a copy of `a` to `out`.
pub fn push_bytes(out: &mut Vec<u8>, a: &Vec<u8>)
    ensures
        final(out)@ == old(out)@ + a@,
{
    let mut i: usize = 0;
    while i < a.len()
        invariant
            0 <= i <= a.len(),
            out@ == old(out)@ + a@.subrange(0, i as int),
        decreases a.len() - i,
    {
        out.push(a[i]);
        proof {
            assert(out@ =~= old(out)@ + a@.subrange(0, (i + 1) as int));
        }
        i += 1;
    }
    proof {
        assert(a@.subrange(0, a@.len() as int) =~= a@);
    }
}

/// Encodes a payload to its wire bytes.
pub fn encode_payload(p: &GatewayPayload) -> (r: Vec<u8>)
    ensures
        r@ == spec_encode(p@),
{
    let mut out: Vec<u8> = Vec::new();
    out.push(123);
    out.push(34);
    out.push(111);
    out.push(112);
    out.push(34);
    out.push(58);
    proof {
        assert(out@ =~= lit_op_prefix());
    }
    enc_u64_push(&mut out, p.op_code as u64);
    let ghost after_op = out@;
    out.push(44);
    out.push(34);
    out.push(100);
    out.push(34);
    out.push(58);
    proof {
        assert(out@ =~= after_op + lit_d());
    }
    push_bytes(&mut out, &p.event_data);
    match p.sequence_number {
        Option::Some(s) => {
            let ghost before_s = out@;
            out.push(44);
            out.push(34);
            out.push(115);
            out.push(34);
            out.push(58);
            proof {
                assert(out@ =~= before_s + lit_s());
            }
            enc_u64_push(&mut out, s);
        },
        Option::None => {},
    }
    match &p.event_name {
        Option::Some(t) => {
            let ghost before_t = out@;
            out.push(44);
            out.push(34);
            out.push(116);
            out.push(34);
            out.push(58);
            out.push(34);
            proof {
                assert(out@ =~= before_t + lit_t());
            }
            push_bytes(&mut out, t);
            out.push(34);
        },
        Option::None => {},
    }
    out.push(125);
    proof {
        assert(out@ =~= spec_encode(p@));
    }
    out
}

// ---------------------------------------------------------------------------
// Scanning one JSON value: the extent of the `d` field.
// ---------------------------------------------------------------------------

/// State of the value scanner: nesting depth, whether it is inside a string,
/// whether the last string byte was a backslash, and whether the input was
/// rejected (a closing bracket at depth zero).
pub struct ScanSt {
    pub depth: int,
    pub in_str: bool,
    pub esc: bool,
    pub bad: bool,
}

pub open spec fn scan_init() -> ScanSt {
    ScanSt { depth: 0, in_str: false, esc: false, bad: false }
}

/// One byte of input moves the scanner state forward.
pub open spec fn scan_step(st: ScanSt, c: u8) -> ScanSt {
    if st.bad {
        st
    } else if st.in_str {
        if st.esc {
            ScanSt { esc: false, ..st }
        } else if c == 92 {
            ScanSt { esc: true, ..st }
        } else if c == 34 {
            ScanSt { in_str: false, ..st }
        } else {
            st
        }
    } else if c == 34 {
        ScanSt { in_str: true, ..st }
    } else if c == 123 || c == 91 {
        ScanSt { depth: st.depth + 1, ..st }
    } else if c == 125 || c == 93 {
        if st.depth == 0 {
            ScanSt { bad: true, ..st }
        } else {
            ScanSt { depth: st.depth - 1, ..st }
        }
    } else {
        st
    }
}

/// A state at which a top-level `,` or `}` would end the value.
pub open spec fn at_top(st: ScanSt) -> bool {
    st.depth == 0 && !st.in_str && !st.esc && !st.bad
}

/// The bytes that end a value at top level: `,` and `}`.
pub open spec fn is_delim(c: u8) -> bool {
    c == 44 || c == 125
}

/// Scanner state after the first `i` bytes of `s`.
pub open spec fn scan_states(s: Seq<u8>, i: int) -> ScanSt
    decreases i,
{
    if i <= 0 {
        scan_init()
    } else {
        scan_step(scan_states(s, i - 1), s[i - 1])
    }
}

/// Index of the first top-level delimiter at or after `i`, starting the
/// scanner in state `st`; `None` if the input ends or is rejected first.
pub open spec fn scan_from(s: Seq<u8>, i: int, st: ScanSt) -> Option<int>
    decreases s.len() - i,
{
    if i < 0 || i >= s.len() {
        Option::None
    } else if at_top(st) && is_delim(s[i]) {
        Option::Some(i)
    } else {
        let st2 = scan_step(st, s[i]);
        if st2.bad {
            Option::None
        } else {
            scan_from(s, i + 1, st2)
        }
    }
}

/// A well-formed `d` region: non-empty, no top-level delimiter anywhere
/// inside it, and balanced at its end, so that a scan of any enclosing text
/// ends exactly at the byte after it.
pub open spec fn wf_data(d: Seq<u8>) -> bool {
    &&& d.len() > 0
    &&& at_top(scan_states(d, d.len() as int))
    &&& forall|i: int|
        0 <= i < d.len() ==> !(at_top(#[trigger] scan_states(d, i)) && is_delim(d[i]))
}

/// Finds the end of the JSON value starting at `start`: the index of the
/// first top-level `,` or `}` at or after `start`.
pub fn scan_value(b: &Vec<u8>, start: usize) -> (r: Option<usize>)
    requires
        start <= b@.len(),
    ensures
        match r {
            Option::Some(e) => scan_from(b@, start as int, scan_init()) == Option::Some(e as int)
                && start <= e < b@.len(),
            Option::None => scan_from(b@, start as int, scan_init()) is None,
        },
{
    let mut i: usize = start;
    let mut depth: usize = 0;
    let mut in_str: bool = false;
    let mut esc: bool = false;
    while i < b.len()
        invariant
            start <= i <= b@.len(),
            depth <= i,
            esc ==> in_str,
            scan_from(b@, start as int, scan_init()) == scan_from(
                b@,
                i as int,
                ScanSt { depth: depth as int, in_str, esc, bad: false },
            ),
        decreases b@.len() - i,
    {
        let ghost st = ScanSt { depth: depth as int, in_str, esc, bad: false };
        let c = b[i];
        if !in_str && depth == 0 && (c == 44 || c == 125) {
            return Option::Some(i);
        }
        proof {
            assert(!(at_top(st) && is_delim(c)));
        }
        if in_str {
            if esc {
                esc = false;
            } else if c == 92 {
                esc = true;
            } else if c == 34 {
                in_str = false;
            }
        } else if c == 34 {
            in_str = true;
        } else if c == 123 || c == 91 {
            depth = depth + 1;
        } else if c == 125 || c == 93 {
            if depth == 0 {
                proof {
                    assert(scan_step(st, c).bad);
                }
                return Option::None;
            } else {
                depth = depth - 1;
            }
        }
        proof {
            assert(ScanSt { depth: depth as int, in_str, esc, bad: false } == scan_step(st, c));
        }
        i += 1;
    }
    Option::None
}

// ---------------------------------------------------------------------------
// Parsing numbers and names.
// ---------------------------------------------------------------------------

/// Index of the first non-digit byte at or after `i`.
pub open spec fn digits_end(s: Seq<u8>, i: int) -> int
    decreases s.len() - i,
{
    if i < 0 || i >= s.len() {
        i
    } else if !is_digit(s[i]) {
        i
    } else {
        digits_end(s, i + 1)
    }
}

/// Value of the digit run `s[i..j]`, read in decimal.
pub open spec fn digits_val(s: Seq<u8>, i: int, j: int) -> int
    decreases j - i,
{
    if j <= i {
        0
    } else {
        digits_val(s, i, j - 1) * 10 + (s[j - 1] - 48)
    }
}

/// The number starting at `i`: a maximal digit run without a redundant
/// leading zero, whose value fits in 64 bits. Returns the value and the
/// index just past the run.
pub open spec fn spec_parse_u64(s: Seq<u8>, i: int) -> Option<(u64, int)> {
    let j = digits_end(s, i);
    if j == i {
        Option::None
    } else if s[i] == 48 && j > i + 1 {
        Option::None
    } else if digits_val(s, i, j) > u64::MAX {
        Option::None
    } else {
        Option::Some((digits_val(s, i, j) as u64, j))
    }
}

/// A longer digit run never has a smaller value.
proof fn lemma_val_monotone(s: Seq<u8>, i: int, j: int, k: int)
    requires
        i <= j <= k,
        forall|m: int| i <= m < k ==> 0 <= #[trigger] s[m] - 48,
    ensures
        digits_val(s, i, j) <= digits_val(s, i, k),
        digits_val(s, i, j) >= 0,
    decreases k - j,
{
    lemma_val_nonneg(s, i, j);
    if j < k {
        lemma_val_monotone(s, i, j, k - 1);
        lemma_val_nonneg(s, i, k - 1);
        assert(digits_val(s, i, k) == digits_val(s, i, k - 1) * 10 + (s[k - 1] - 48));
        assert(digits_val(s, i, k - 1) * 10 >= digits_val(s, i, k - 1));
    }
}

/// A digit run's value is non-negative.
proof fn lemma_val_nonneg(s: Seq<u8>, i: int, j: int)
    requires
        forall|m: int| i <= m < j ==> 0 <= #[trigger] s[m] - 48,
    ensures
        digits_val(s, i, j) >= 0,
    decreases j - i,
{
    if j > i {
        lemma_val_nonneg(s, i, j - 1);
        assert(digits_val(s, i, j - 1) * 10 >= 0);
    }
}

/// Parses the number starting at `start` exactly as [`spec_parse_u64`] does.
pub fn parse_u64(b: &Vec<u8>, start: usize) -> (r: Option<(u64, usize)>)
    requires
        start <= b@.len(),
    ensures
        match r {
            Option::Some((v, e)) => spec_parse_u64(b@, start as int) == Option::Some(
                (v, e as int),
            ) && start < e <= b@.len(),
            Option::None => spec_parse_u64(b@, start as int) is None,
        },
{
    let ghost de = digits_end(b@, start as int);
    proof {
        lemma_digits_end_range(b@, start as int);
    }
    if start >= b.len() || b[start] < 48 || b[start] > 57 {
        return Option::None;
    }
    if b[start] == 48 && start + 1 < b.len() && 48 <= b[start + 1] && b[start + 1] <= 57 {
        proof {
            assert(digits_end(b@, start as int) == digits_end(b@, start + 1 as int));
            assert(digits_end(b@, start + 1 as int) == digits_end(b@, start + 2 as int));
            lemma_digits_end_range(b@, start + 2 as int);
        }
        return Option::None;
    }
    let mut i: usize = start;
    let mut acc: u64 = 0;
    while i < b.len() && 48 <= b[i] && b[i] <= 57
        invariant
            start <= i <= b@.len(),
            forall|m: int| start <= m < i ==> is_digit(#[trigger] b@[m]),
            digits_end(b@, start as int) == digits_end(b@, i as int),
            acc == digits_val(b@, start as int, i as int),
            i > start || acc == 0,
        decreases b@.len() - i,
    {
        let d: u64 = (b[i] - 48) as u64;
        proof {
            assert(forall|m: int| start <= m < i + 1 ==> 0 <= #[trigger] b@[m] - 48);
            assert(digits_end(b@, i as int) == digits_end(b@, (i + 1) as int));
            lemma_digits_end_range(b@, (i + 1) as int);
            assert(i + 1 <= de);
            lemma_digits_end_range(b@, start as int);
            assert(forall|m: int| start <= m < de ==> 0 <= #[trigger] b@[m] - 48);
            assert(digits_val(b@, start as int, (i + 1) as int) == acc * 10 + d);
        }
        if acc > 1844674407370955161u64 {
            proof {
                assert(acc * 10 >= (1844674407370955162int) * 10);
                lemma_val_monotone(b@, start as int, i + 1, de);
            }
            return Option::None;
        }
        let acc10: u64 = acc * 10;
        if d > u64::MAX - acc10 {
            proof {
                lemma_val_monotone(b@, start as int, i + 1, de);
            }
            return Option::None;
        }
        acc = acc10 + d;
        i += 1;
    }
    proof {
        assert(digits_end(b@, i as int) == i as int);
    }
    Option::Some((acc, i))
}

/// `digits_end` never moves backwards and never passes the end.
proof fn lemma_digits_end_range(s: Seq<u8>, i: int)
    requires
        0 <= i <= s.len(),
    ensures
        i <= digits_end(s, i) <= s.len(),
        forall|m: int| i <= m < digits_end(s, i) ==> is_digit(#[trigger] s[m]),
    decreases s.len() - i,
{
    if i < s.len() && is_digit(s[i]) {
        lemma_digits_end_range(s, i + 1);
    }
}


// ---------------------------------------------------------------------------
// Decoding.
// ---------------------------------------------------------------------------

/// Bytes allowed in an event name: printable, no quote, no backslash, so
/// that the name needs no escaping inside a JSON string.
pub open spec fn is_name_byte(c: u8) -> bool {
    c >= 32 && c != 34 && c != 92
}

/// A well-formed event name.
pub open spec fn wf_name(t: Seq<u8>) -> bool {
    forall|i: int| 0 <= i < t.len() ==> is_name_byte(#[trigger] t[i])
}

/// A payload in the form the encoder emits: its data region is one
/// well-formed JSON value without surrounding whitespace of its own, and
/// its name, if any, needs no escaping.
pub open spec fn wf_payload(p: PayloadView) -> bool {
    &&& wf_data(p.event_data)
    &&& !is_ws(p.event_data[0])
    &&& !is_ws(p.event_data[p.event_data.len() - 1])
    &&& match p.event_name {
        Option::Some(t) => wf_name(t),
        Option::None => true,
    }
}

/// Index of the first byte at or after `i` that may not stand in a name.
pub open spec fn name_end(s: Seq<u8>, i: int) -> int
    decreases s.len() - i,
{
    if i < 0 || i >= s.len() {
        i
    } else if !is_name_byte(s[i]) {
        i
    } else {
        name_end(s, i + 1)
    }
}

/// `name_end` never moves backwards and never passes the end.
proof fn lemma_name_end_range(s: Seq<u8>, i: int)
    requires
        0 <= i <= s.len(),
    ensures
        i <= name_end(s, i) <= s.len(),
        forall|m: int| i <= m < name_end(s, i) ==> is_name_byte(#[trigger] s[m]),
    decreases s.len() - i,
{
    if i < s.len() && is_name_byte(s[i]) {
        lemma_name_end_range(s, i + 1);
    }
}

/// The JSON whitespace bytes: space, tab, line feed, carriage return.
pub open spec fn is_ws(c: u8) -> bool {
    c == 32 || c == 9 || c == 10 || c == 13
}

/// Index of the first non-whitespace byte at or after `i`.
pub open spec fn skip_ws(s: Seq<u8>, i: int) -> int
    decreases s.len() - i,
{
    if i < 0 || i >= s.len() {
        i
    } else if is_ws(s[i]) {
        skip_ws(s, i + 1)
    } else {
        i
    }
}

/// `skip_ws` never moves backwards and never passes the end.
proof fn lemma_skip_ws_range(s: Seq<u8>, i: int)
    requires
        0 <= i <= s.len(),
    ensures
        i <= skip_ws(s, i) <= s.len(),
    decreases s.len() - i,
{
    if i < s.len() && is_ws(s[i]) {
        lemma_skip_ws_range(s, i + 1);
    }
}

/// End of the region `[i, j)` with trailing whitespace removed.
pub open spec fn trim_ws_end(s: Seq<u8>, i: int, j: int) -> int
    decreases j - i,
{
    if j <= i {
        i
    } else if is_ws(s[j - 1]) {
        trim_ws_end(s, i, j - 1)
    } else {
        j
    }
}

/// `trim_ws_end` stays inside the region.
proof fn lemma_trim_ws_range(s: Seq<u8>, i: int, j: int)
    requires
        i <= j,
    ensures
        i <= trim_ws_end(s, i, j) <= j,
    decreases j - i,
{
    if j > i && is_ws(s[j - 1]) {
        lemma_trim_ws_range(s, i, j - 1);
    }
}

/// Index of the first non-whitespace byte at or after `start`.
pub(crate) fn skip_ws_at(b: &Vec<u8>, start: usize) -> (r: usize)
    requires
        start <= b@.len(),
    ensures
        r as int == skip_ws(b@, start as int),
        start <= r <= b@.len(),
{
    proof {
        lemma_skip_ws_range(b@, start as int);
    }
    let mut i: usize = start;
    while i < b.len() && (b[i] == 32 || b[i] == 9 || b[i] == 10 || b[i] == 13)
        invariant
            start <= i <= b@.len(),
            skip_ws(b@, start as int) == skip_ws(b@, i as int),
        decreases b@.len() - i,
    {
        i += 1;
    }
    i
}

/// End of the region `[from, to)` with trailing whitespace removed.
pub(crate) fn trim_ws_at(b: &Vec<u8>, from: usize, to: usize) -> (r: usize)
    requires
        from <= to <= b@.len(),
    ensures
        r as int == trim_ws_end(b@, from as int, to as int),
        from <= r <= to,
{
    proof {
        lemma_trim_ws_range(b@, from as int, to as int);
    }
    let mut j: usize = to;
    while j > from && (b[j - 1] == 32 || b[j - 1] == 9 || b[j - 1] == 10 || b[j - 1] == 13)
        invariant
            from <= j <= to,
            trim_ws_end(b@, from as int, to as int) == trim_ws_end(b@, from as int, j as int),
        decreases j,
    {
        j -= 1;
    }
    j
}

/// Copies `b[from..to]` into a fresh vector.
pub(crate) fn copy_range(b: &Vec<u8>, from: usize, to: usize) -> (r: Vec<u8>)
    requires
        from <= to <= b@.len(),
    ensures
        r@ == b@.subrange(from as int, to as int),
{
    let mut out: Vec<u8> = Vec::new();
    let mut i: usize = from;
    while i < to
        invariant
            from <= i <= to <= b@.len(),
            out@ == b@.subrange(from as int, i as int),
        decreases to - i,
    {
        out.push(b[i]);
        proof {
            assert(out@ =~= b@.subrange(from as int, (i + 1) as int));
        }
        i += 1;
    }
    out
}

/// Index of the first byte at or after `start` that may not stand in a name.
pub(crate) fn scan_name(b: &Vec<u8>, start: usize) -> (r: usize)
    requires
        start <= b@.len(),
    ensures
        r as int == name_end(b@, start as int),
        start <= r <= b@.len(),
{
    proof {
        lemma_name_end_range(b@, start as int);
    }
    let mut i: usize = start;
    while i < b.len() && b[i] >= 32 && b[i] != 34 && b[i] != 92
        invariant
            start <= i <= b@.len(),
            name_end(b@, start as int) == name_end(b@, i as int),
        decreases b@.len() - i,
    {
        i += 1;
    }
    i
}

/// Whether `b[ks..ke]` equals `lit`.
pub(crate) fn span_eq(b: &Vec<u8>, ks: usize, ke: usize, lit: &Vec<u8>) -> (r: bool)
    requires
        ks <= ke <= b@.len(),
    ensures
        r == (b@.subrange(ks as int, ke as int) == lit@),
{
    if ke - ks != lit.len() {
        return false;
    }
    let mut m: usize = 0;
    while m < lit.len()
        invariant
            0 <= m <= lit@.len(),
            ks + lit@.len() == ke <= b@.len(),
            forall|x: int| 0 <= x < m ==> b@[ks + x] == lit@[x],
        decreases lit@.len() - m,
    {
        if b[ks + m] != lit[m] {
            proof {
                assert(b@.subrange(ks as int, ke as int)[m as int] == b@[ks + m]);
            }
            return false;
        }
        m += 1;
    }
    proof {
        assert(b@.subrange(ks as int, ke as int) =~= lit@);
    }
    true
}

/// The accumulated members of a frame object while it is parsed.
pub struct FrameFields {
    pub op: Option<u64>,
    pub d: Option<Seq<u8>>,
    pub s: Option<u64>,
    pub t: Option<Option<Seq<u8>>>,
}

pub open spec fn empty_fields() -> FrameFields {
    FrameFields { op: Option::None, d: Option::None, s: Option::None, t: Option::None }
}

/// The member name `op`.
pub open spec fn key_op() -> Seq<u8> {
    seq![111u8, 112u8]
}

/// The member name `d`.
pub open spec fn key_d() -> Seq<u8> {
    seq![100u8]
}

/// The member name `s`.
pub open spec fn key_s() -> Seq<u8> {
    seq![115u8]
}

/// The member name `t`.
pub open spec fn key_t() -> Seq<u8> {
    seq![116u8]
}

/// Reads the value of one member starting at `i` (whitespace already
/// skipped) for the given member name: `op` is a number up to 255, `d` is
/// any JSON value, `s` is an unsigned 64-bit number, `t` is a string — or
/// any other JSON value, read as an absent name, as the wire format treats
/// a non-string `t` as no name. An unknown member's value is skipped. A
/// member that repeats rejects the frame. Returns the grown accumulator
/// and the index just past the value.
pub open spec fn spec_member_value(s: Seq<u8>, i: int, key: Seq<u8>, acc: FrameFields) -> Option<
    (FrameFields, int),
> {
    if key == key_op() {
        if acc.op is Some {
            Option::None
        } else {
            match spec_parse_u64(s, i) {
                Option::None => Option::None,
                Option::Some((v, j)) => {
                    if v > 255 {
                        Option::None
                    } else {
                        Option::Some((FrameFields { op: Option::Some(v), ..acc }, j))
                    }
                },
            }
        }
    } else if key == key_d() {
        if acc.d is Some {
            Option::None
        } else {
            match scan_from(s, i, scan_init()) {
                Option::None => Option::None,
                Option::Some(ve) => {
                    let te = trim_ws_end(s, i, ve);
                    if te <= i {
                        Option::None
                    } else {
                        Option::Some(
                            (FrameFields { d: Option::Some(s.subrange(i, te)), ..acc }, te),
                        )
                    }
                },
            }
        }
    } else if key == key_s() {
        if acc.s is Some {
            Option::None
        } else {
            match spec_parse_u64(s, i) {
                Option::None => Option::None,
                Option::Some((v, j)) => Option::Some(
                    (FrameFields { s: Option::Some(v), ..acc }, j),
                ),
            }
        }
    } else if key == key_t() {
        if acc.t is Some {
            Option::None
        } else if 0 <= i && i < s.len() && s[i] == 34 {
            let te = name_end(s, i + 1);
            if te < s.len() && s[te] == 34 {
                Option::Some(
                    (
                        FrameFields {
                            t: Option::Some(Option::Some(s.subrange(i + 1, te))),
                            ..acc
                        },
                        te + 1,
                    ),
                )
            } else {
                Option::None
            }
        } else {
            match scan_from(s, i, scan_init()) {
                Option::None => Option::None,
                Option::Some(ve) => {
                    let te = trim_ws_end(s, i, ve);
                    if te <= i {
                        Option::None
                    } else {
                        Option::Some((FrameFields { t: Option::Some(Option::None), ..acc }, te))
                    }
                },
            }
        }
    } else {
        match scan_from(s, i, scan_init()) {
            Option::None => Option::None,
            Option::Some(ve) => {
                let te = trim_ws_end(s, i, ve);
                if te <= i {
                    Option::None
                } else {
                    Option::Some((acc, te))
                }
            },
        }
    }
}

/// Reads the members of a frame object, `i` standing at the opening quote
/// of a member name, in any order and with optional whitespace. Returns
/// the accumulated fields and the index of the closing brace.
pub open spec fn spec_members(s: Seq<u8>, i: int, acc: FrameFields) -> Option<(FrameFields, int)>
    decreases s.len() - i,
{
    if i < 0 || i >= s.len() || s[i] != 34 {
        Option::None
    } else {
        let ke = name_end(s, i + 1);
        if !(ke < s.len() && s[ke] == 34) {
            Option::None
        } else {
            let key = s.subrange(i + 1, ke);
            let ci = skip_ws(s, ke + 1);
            if !(ci < s.len() && s[ci] == 58) {
                Option::None
            } else {
                let vs = skip_ws(s, ci + 1);
                match spec_member_value(s, vs, key, acc) {
                    Option::None => Option::None,
                    Option::Some((acc2, ve)) => {
                        let di = skip_ws(s, ve);
                        if di >= s.len() {
                            Option::None
                        } else if s[di] == 44 {
                            let ni = skip_ws(s, di + 1);
                            if ni <= i || ni > s.len() {
                                Option::None
                            } else {
                                spec_members(s, ni, acc2)
                            }
                        } else if s[di] == 125 {
                            Option::Some((acc2, di))
                        } else {
                            Option::None
                        }
                    },
                }
            }
        }
    }
}

/// The payload carried by the frame bytes `b`, if any: one JSON object,
/// members in any order with optional whitespace, with mandatory `op`
/// (unsigned byte) and `d`, optional `s` (unsigned 64-bit) and `t` (an
/// event name when a plain string, absent otherwise). Member names and
/// `t` values are taken unescaped; a repeated member rejects the frame.
pub open spec fn spec_decode(b: Seq<u8>) -> Option<PayloadView> {
    let i0 = skip_ws(b, 0);
    if !(i0 < b.len() && b[i0] == 123) {
        Option::None
    } else {
        let i1 = skip_ws(b, i0 + 1);
        if i1 < b.len() && b[i1] == 125 {
            Option::None
        } else {
            match spec_members(b, i1, empty_fields()) {
                Option::None => Option::None,
                Option::Some((acc, ci)) => {
                    let e = skip_ws(b, ci + 1);
                    if e != b.len() {
                        Option::None
                    } else if acc.op is Some && acc.d is Some {
                        Option::Some(
                            PayloadView {
                                op_code: acc.op->Some_0 as u8,
                                event_data: acc.d->Some_0,
                                sequence_number: acc.s,
                                event_name: match acc.t {
                                    Option::Some(t) => t,
                                    Option::None => Option::None,
                                },
                            },
                        )
                    } else {
                        Option::None
                    }
                },
            }
        }
    }
}

/// The fields the exec decoder has accumulated, as a [`FrameFields`].
pub open spec fn fields_view(
    op_v: Option<u64>,
    d_v: Option<Vec<u8>>,
    s_v: Option<u64>,
    t_v: Option<Option<Vec<u8>>>,
) -> FrameFields {
    FrameFields {
        op: op_v,
        d: match d_v {
            Option::Some(v) => Option::Some(v@),
            Option::None => Option::None,
        },
        s: s_v,
        t: match t_v {
            Option::Some(Option::Some(v)) => Option::Some(Option::Some(v@)),
            Option::Some(Option::None) => Option::Some(Option::None),
            Option::None => Option::None,
        },
    }
}

/// Decodes wire bytes into a payload, exactly as [`spec_decode`] describes;
/// anything else is a protocol violation.
pub fn decode_payload(b: &Vec<u8>) -> (r: Result<GatewayPayload, Error>)
    ensures
        match r {
            Result::Ok(q) => spec_decode(b@) == Option::Some(q@),
            Result::Err(e) => spec_decode(b@) is None && e == Error::ProtocolViolation,
        },
{
    let n = b.len();
    let i0 = skip_ws_at(b, 0);
    if !(i0 < n && b[i0] == 123) {
        return Result::Err(Error::ProtocolViolation);
    }
    let i1 = skip_ws_at(b, i0 + 1);
    if i1 < n && b[i1] == 125 {
        return Result::Err(Error::ProtocolViolation);
    }
    let k_op: Vec<u8> = vec![111u8, 112u8];
    let k_d: Vec<u8> = vec![100u8];
    let k_s: Vec<u8> = vec![115u8];
    let k_t: Vec<u8> = vec![116u8];
    proof {
        assert(k_op@ =~= key_op());
        assert(k_d@ =~= key_d());
        assert(k_s@ =~= key_s());
        assert(k_t@ =~= key_t());
    }
    let mut i: usize = i1;
    let mut op_v: Option<u64> = Option::None;
    let mut d_v: Option<Vec<u8>> = Option::None;
    let mut s_v: Option<u64> = Option::None;
    let mut t_v: Option<Option<Vec<u8>>> = Option::None;
    let close_i: usize;
    loop
        invariant
            i <= n,
            n == b@.len(),
            k_op@ == key_op() && k_d@ == key_d() && k_s@ == key_s() && k_t@ == key_t(),
            op_v matches Option::Some(v) ==> v <= 255,
            spec_members(b@, i1 as int, empty_fields()) == spec_members(
                b@,
                i as int,
                fields_view(op_v, d_v, s_v, t_v),
            ),
        decreases n - i,
    {
        let ghost acc = fields_view(op_v, d_v, s_v, t_v);
        if !(i < n && b[i] == 34) {
            return Result::Err(Error::ProtocolViolation);
        }
        let ke = scan_name(b, i + 1);
        if !(ke < n && b[ke] == 34) {
            return Result::Err(Error::ProtocolViolation);
        }
        let ghost key = b@.subrange(i + 1, ke as int);
        let ci = skip_ws_at(b, ke + 1);
        if !(ci < n && b[ci] == 58) {
            return Result::Err(Error::ProtocolViolation);
        }
        let vs = skip_ws_at(b, ci + 1);
        let is_op = span_eq(b, i + 1, ke, &k_op);
        let is_d = span_eq(b, i + 1, ke, &k_d);
        let is_s = span_eq(b, i + 1, ke, &k_s);
        let is_t = span_eq(b, i + 1, ke, &k_t);
        let ve: usize;
        if is_op {
            if op_v.is_some() {
                return Result::Err(Error::ProtocolViolation);
            }
            match parse_u64(b, vs) {
                Option::None => {
                    return Result::Err(Error::ProtocolViolation);
                },
                Option::Some((v, j)) => {
                    if v > 255 {
                        return Result::Err(Error::ProtocolViolation);
                    }
                    op_v = Option::Some(v);
                    ve = j;
                },
            }
        } else if is_d {
            if d_v.is_some() {
                return Result::Err(Error::ProtocolViolation);
            }
            match scan_value(b, vs) {
                Option::None => {
                    return Result::Err(Error::ProtocolViolation);
                },
                Option::Some(sce) => {
                    let te = trim_ws_at(b, vs, sce);
                    if te <= vs {
                        return Result::Err(Error::ProtocolViolation);
                    }
                    d_v = Option::Some(copy_range(b, vs, te));
                    ve = te;
                },
            }
        } else if is_s {
            if s_v.is_some() {
                return Result::Err(Error::ProtocolViolation);
            }
            match parse_u64(b, vs) {
                Option::None => {
                    return Result::Err(Error::ProtocolViolation);
                },
                Option::Some((v, j)) => {
                    s_v = Option::Some(v);
                    ve = j;
                },
            }
        } else if is_t {
            if t_v.is_some() {
                return Result::Err(Error::ProtocolViolation);
            }
            if vs < n && b[vs] == 34 {
                let te = scan_name(b, vs + 1);
                if te < n && b[te] == 34 {
                    t_v = Option::Some(Option::Some(copy_range(b, vs + 1, te)));
                    ve = te + 1;
                } else {
                    return Result::Err(Error::ProtocolViolation);
                }
            } else {
                match scan_value(b, vs) {
                    Option::None => {
                        return Result::Err(Error::ProtocolViolation);
                    },
                    Option::Some(sce) => {
                        let te = trim_ws_at(b, vs, sce);
                        if te <= vs {
                            return Result::Err(Error::ProtocolViolation);
                        }
                        t_v = Option::Some(Option::None);
                        ve = te;
                    },
                }
            }
        } else {
            match scan_value(b, vs) {
                Option::None => {
                    return Result::Err(Error::ProtocolViolation);
                },
                Option::Some(sce) => {
                    let te = trim_ws_at(b, vs, sce);
                    if te <= vs {
                        return Result::Err(Error::ProtocolViolation);
                    }
                    ve = te;
                },
            }
        }
        proof {
            assert(spec_member_value(b@, vs as int, key, acc) == Option::Some(
                (fields_view(op_v, d_v, s_v, t_v), ve as int),
            ));
        }
        let di = skip_ws_at(b, ve);
        if di >= n {
            return Result::Err(Error::ProtocolViolation);
        }
        if b[di] == 44 {
            let ni = skip_ws_at(b, di + 1);
            if ni <= i {
                return Result::Err(Error::ProtocolViolation);
            }
            i = ni;
        } else if b[di] == 125 {
            close_i = di;
            break;
        } else {
            return Result::Err(Error::ProtocolViolation);
        }
    }
    let e = skip_ws_at(b, close_i + 1);
    if e != n {
        return Result::Err(Error::ProtocolViolation);
    }
    let op = match op_v {
        Option::Some(v) => v,
        Option::None => {
            return Result::Err(Error::ProtocolViolation);
        },
    };
    let event_data = match d_v {
        Option::Some(v) => v,
        Option::None => {
            return Result::Err(Error::ProtocolViolation);
        },
    };
    let event_name: Option<Vec<u8>> = match t_v {
        Option::Some(Option::Some(v)) => Option::Some(v),
        Option::Some(Option::None) => Option::None,
        Option::None => Option::None,
    };
    let q = GatewayPayload { op_code: op as u8, event_data, sequence_number: s_v, event_name };
    proof {
        assert(q@ =~= spec_decode(b@)->Some_0);
    }
    Result::Ok(q)
}

// ---------------------------------------------------------------------------
// The round-trip law: decoding an encoded payload gives the payload back.
// ---------------------------------------------------------------------------

/// The digits of `v` are digits, there is at least one, and only the number
/// zero starts with the digit zero.
proof fn lemma_dec_props(v: u64)
    ensures
        dec_u64(v).len() >= 1,
        forall|m: int| 0 <= m < dec_u64(v).len() ==> is_digit(#[trigger] dec_u64(v)[m]),
        v > 0 ==> dec_u64(v)[0] != 48,
        v == 0 ==> dec_u64(v).len() == 1,
    decreases v,
{
    if v >= 10 {
        lemma_dec_props(v / 10);
        assert(v / 10 > 0);
    }
}

/// A maximal digit run ends exactly where the digits stop.
proof fn lemma_digits_end_run(b: Seq<u8>, i: int, j: int)
    requires
        0 <= i <= j <= b.len(),
        forall|m: int| i <= m < j ==> is_digit(#[trigger] b[m]),
        j == b.len() || !is_digit(b[j]),
    ensures
        digits_end(b, i) == j,
    decreases j - i,
{
    if i < j {
        lemma_digits_end_run(b, i + 1, j);
    }
}

/// A maximal name run ends exactly where the name bytes stop.
proof fn lemma_name_end_run(b: Seq<u8>, i: int, j: int)
    requires
        0 <= i <= j <= b.len(),
        forall|m: int| i <= m < j ==> is_name_byte(#[trigger] b[m]),
        j == b.len() || !is_name_byte(b[j]),
    ensures
        name_end(b, i) == j,
    decreases j - i,
{
    if i < j {
        lemma_name_end_run(b, i + 1, j);
    }
}

/// The decimal digits of `v` read back as the value `v`.
proof fn lemma_digits_val_of_dec(b: Seq<u8>, i: int, v: u64)
    requires
        0 <= i,
        i + dec_u64(v).len() <= b.len(),
        b.subrange(i, i + dec_u64(v).len() as int) == dec_u64(v),
    ensures
        digits_val(b, i, i + dec_u64(v).len() as int) == v,
    decreases v,
{
    let j = i + dec_u64(v).len() as int;
    if v < 10 {
        assert(b[i] == dec_u64(v)[0]);
        assert(digits_val(b, i, j) == digits_val(b, i, i) * 10 + (b[i] - 48));
    } else {
        let d1 = dec_u64(v / 10);
        let l = d1.len() as int;
        assert(dec_u64(v) == d1.push((48 + v % 10) as u8));
        assert(b.subrange(i, i + l) =~= d1) by {
            assert(forall|m: int|
                0 <= m < l ==> b.subrange(i, i + l)[m] == b.subrange(i, j)[m]);
        }
        assert(v / 10 < v);
        lemma_digits_val_of_dec(b, i, v / 10);
        assert(b[j - 1] == dec_u64(v)[l]);
        assert(b[j - 1] == 48 + v % 10);
        assert(digits_val(b, i, j) == digits_val(b, i, j - 1) * 10 + (b[j - 1] - 48));
        vstd::arithmetic::div_mod::lemma_fundamental_div_mod(v as int, 10);
    }
}

/// A number written with [`dec_u64`] and followed by a non-digit parses back
/// to the same number.
proof fn lemma_parse_digits(b: Seq<u8>, i: int, v: u64)
    requires
        0 <= i,
        i + dec_u64(v).len() <= b.len(),
        b.subrange(i, i + dec_u64(v).len() as int) == dec_u64(v),
        i + dec_u64(v).len() == b.len() || !is_digit(b[i + dec_u64(v).len() as int]),
    ensures
        spec_parse_u64(b, i) == Option::Some((v, i + dec_u64(v).len() as int)),
{
    let j = i + dec_u64(v).len() as int;
    lemma_dec_props(v);
    assert(forall|m: int| i <= m < j ==> is_digit(#[trigger] b[m])) by {
        assert(forall|m: int|
            i <= m < j ==> b[m] == b.subrange(i, j)[m - i] && b.subrange(i, j)[m - i] == dec_u64(
                v,
            )[m - i]);
    }
    lemma_digits_end_run(b, i, j);
    lemma_digits_val_of_dec(b, i, v);
    assert(b[i] == dec_u64(v)[0]);
    if v == 0 {
        assert(j == i + 1);
    } else {
        assert(b[i] != 48);
    }
}

/// Once the scanner has rejected its input, it stays rejected.
proof fn lemma_bad_sticky(d: Seq<u8>, j: int, k: int)
    requires
        0 <= j <= k,
        scan_states(d, j).bad,
    ensures
        scan_states(d, k).bad,
    decreases k - j,
{
    if j < k {
        lemma_bad_sticky(d, j, k - 1);
    }
}

/// Scanning text that embeds a well-formed value region followed by a
/// delimiter stops exactly at that delimiter.
proof fn lemma_scan_region(b: Seq<u8>, ds: int, d: Seq<u8>, k: int)
    requires
        0 <= ds,
        ds + d.len() < b.len(),
        b.subrange(ds, ds + d.len() as int) == d,
        wf_data(d),
        is_delim(b[ds + d.len() as int]),
        0 <= k <= d.len(),
    ensures
        scan_from(b, ds + k, scan_states(d, k)) == Option::Some(ds + d.len() as int),
    decreases d.len() - k,
{
    let de = ds + d.len() as int;
    if k == d.len() {
        assert(at_top(scan_states(d, k)));
        assert(scan_from(b, de, scan_states(d, k)) == Option::Some(de));
    } else {
        assert(b[ds + k] == b.subrange(ds, de)[k]);
        assert(b[ds + k] == d[k]);
        assert(!(at_top(scan_states(d, k)) && is_delim(d[k])));
        assert(scan_states(d, k + 1) == scan_step(scan_states(d, k), d[k]));
        if scan_states(d, k + 1).bad {
            lemma_bad_sticky(d, k + 1, d.len() as int);
            assert(false);
        }
        lemma_scan_region(b, ds, d, k + 1);
    }
}

/// The whole frame skipped, a key of name bytes between its quotes reads
/// back as itself.
proof fn lemma_key_at(b: Seq<u8>, i: int, key: Seq<u8>)
    requires
        0 <= i,
        i + 1 + key.len() < b.len(),
        b[i] == 34,
        b.subrange(i + 1, i + 1 + key.len() as int) == key,
        b[i + 1 + key.len() as int] == 34,
        forall|m: int| 0 <= m < key.len() ==> is_name_byte(#[trigger] key[m]),
    ensures
        name_end(b, i + 1) == i + 1 + key.len(),
{
    let ke = i + 1 + key.len() as int;
    assert(forall|m: int| i + 1 <= m < ke ==> is_name_byte(#[trigger] b[m])) by {
        assert(forall|m: int|
            i + 1 <= m < ke ==> b[m] == b.subrange(i + 1, ke)[m - (i + 1)] && b.subrange(
                i + 1,
                ke,
            )[m - (i + 1)] == key[m - (i + 1)]);
    }
    lemma_name_end_run(b, i + 1, ke);
}

/// The fields the member machine accumulates from an encoded payload.
pub open spec fn final_fields(p: PayloadView) -> FrameFields {
    FrameFields {
        op: Option::Some(p.op_code as u64),
        d: Option::Some(p.event_data),
        s: p.sequence_number,
        t: match p.event_name {
            Option::Some(t) => Option::Some(Option::Some(t)),
            Option::None => Option::None,
        },
    }
}

/// Index just past the encoded opcode digits.
pub open spec fn pos_i(p: PayloadView) -> int {
    6 + dec_u64(p.op_code as u64).len() as int
}

/// Index of the encoded data region's first byte.
pub open spec fn pos_ds(p: PayloadView) -> int {
    pos_i(p) + 5
}

/// Index just past the encoded data region.
pub open spec fn pos_de(p: PayloadView) -> int {
    pos_ds(p) + p.event_data.len() as int
}

/// Fields after the `op` and `d` members have been read.
pub open spec fn acc_after_d(p: PayloadView) -> FrameFields {
    FrameFields {
        op: Option::Some(p.op_code as u64),
        d: Option::Some(p.event_data),
        s: Option::None,
        t: Option::None,
    }
}

/// Fields after only the `op` member has been read.
pub open spec fn acc_after_op(p: PayloadView) -> FrameFields {
    FrameFields {
        op: Option::Some(p.op_code as u64),
        d: Option::None,
        s: Option::None,
        t: Option::None,
    }
}

/// One member of the object consumed: from the member's opening quote at
/// `i`, through its value, to the delimiter at `di`, in one step of the
/// member machine.
proof fn lemma_member_step(
    s: Seq<u8>,
    i: int,
    ke: int,
    key: Seq<u8>,
    acc: FrameFields,
    acc2: FrameFields,
    ve: int,
    di: int,
)
    requires
        0 <= i < s.len(),
        s[i] == 34,
        name_end(s, i + 1) == ke,
        ke < s.len(),
        s[ke] == 34,
        s.subrange(i + 1, ke) == key,
        skip_ws(s, ke + 1) < s.len(),
        s[skip_ws(s, ke + 1)] == 58,
        spec_member_value(s, skip_ws(s, skip_ws(s, ke + 1) + 1), key, acc) == Option::Some(
            (acc2, ve),
        ),
        skip_ws(s, ve) == di,
        di < s.len(),
    ensures
        s[di] == 44 && i < skip_ws(s, di + 1) <= s.len() ==> spec_members(s, i, acc)
            == spec_members(s, skip_ws(s, di + 1), acc2),
        s[di] == 125 ==> spec_members(s, i, acc) == Option::Some((acc2, di)),
{
}

/// The `op` member of an encoded payload.
#[verifier::rlimit(100)]
#[verifier::spinoff_prover]
proof fn lemma_op_member(p: PayloadView)
    requires
        wf_payload(p),
    ensures
        spec_members(spec_encode(p), 1, empty_fields()) == spec_members(
            spec_encode(p),
            pos_i(p) + 1,
            acc_after_op(p),
        ),
        spec_encode(p)[pos_i(p)] == 44,
{
    let b = spec_encode(p);
    let op64 = p.op_code as u64;
    let od = dec_u64(op64);
    let i = pos_i(p);
    lemma_dec_props(op64);
    assert(b.subrange(0, 6) =~= lit_op_prefix());
    assert(b[1] == 34 && b[2] == 111 && b[3] == 112 && b[4] == 34 && b[5] == 58);
    assert(b.subrange(2, 4) =~= key_op());
    lemma_key_at(b, 1, key_op());
    assert(skip_ws(b, 5) == 5);
    assert(b.subrange(6, i) =~= od);
    assert(b[6] == od[0]);
    assert(!is_ws(b[6]));
    assert(skip_ws(b, 6) == 6);
    assert(b.subrange(i, pos_ds(p)) =~= lit_d());
    assert(b[i] == 44 && b[i + 1] == 34);
    assert(!is_digit(b[i]));
    lemma_parse_digits(b, 6, op64);
    assert(spec_member_value(b, 6, key_op(), empty_fields()) == Option::Some(
        (acc_after_op(p), i),
    ));
    assert(skip_ws(b, i) == i);
    assert(skip_ws(b, i + 1) == i + 1);
    lemma_member_step(b, 1, 4, key_op(), empty_fields(), acc_after_op(p), i, i);
}

/// The member machine reads the encoder's `op` and `d` members back and
/// stands at the delimiter after the data region.
#[verifier::rlimit(100)]
#[verifier::spinoff_prover]
proof fn lemma_encode_prefix(p: PayloadView)
    requires
        wf_payload(p),
    ensures
        is_delim(spec_encode(p)[pos_de(p)]),
        spec_encode(p)[pos_de(p)] == 44 && pos_de(p) + 1 < spec_encode(p).len() && !is_ws(
            spec_encode(p)[pos_de(p) + 1],
        ) ==> spec_members(spec_encode(p), 1, empty_fields()) == spec_members(
            spec_encode(p),
            pos_de(p) + 1,
            acc_after_d(p),
        ),
        spec_encode(p)[pos_de(p)] == 125 ==> spec_members(spec_encode(p), 1, empty_fields())
            == Option::Some((acc_after_d(p), pos_de(p))),
{
    let b = spec_encode(p);
    let i = pos_i(p);
    let ds = pos_ds(p);
    let de = pos_de(p);
    lemma_op_member(p);
    let acc1 = acc_after_op(p);
    let acc2 = acc_after_d(p);

    assert(b.subrange(i, ds) =~= lit_d());
    assert(b[i] == 44 && b[i + 1] == 34 && b[i + 2] == 100 && b[i + 3] == 34 && b[i + 4] == 58);
    assert(b.subrange(i + 2, i + 3) =~= key_d());
    assert(key_d() != key_op()) by {
        assert(key_d().len() != key_op().len());
    }
    lemma_key_at(b, i + 1, key_d());
    assert(skip_ws(b, i + 4) == i + 4);
    assert(b.subrange(ds, de) =~= p.event_data);
    assert(b[ds] == p.event_data[0]);
    assert(skip_ws(b, ds) == ds);
    assert(is_delim(b[de])) by {
        let s_seq: Seq<u8> = match p.sequence_number {
            Option::Some(s) => lit_s() + dec_u64(s),
            Option::None => Seq::empty(),
        };
        let t_seq: Seq<u8> = match p.event_name {
            Option::Some(t) => lit_t() + t + seq![34u8],
            Option::None => Seq::empty(),
        };
        match p.sequence_number {
            Option::Some(_) => {
                assert(b[de] == s_seq[0]);
            },
            Option::None => {
                match p.event_name {
                    Option::Some(_) => {
                        assert(b[de] == t_seq[0]);
                    },
                    Option::None => {
                        assert(b[de] == 125);
                    },
                }
            },
        }
    }
    lemma_scan_region(b, ds, p.event_data, 0);
    assert(scan_from(b, ds, scan_init()) == Option::Some(de));
    assert(b[de - 1] == p.event_data[p.event_data.len() - 1]);
    assert(trim_ws_end(b, ds, de) == de);
    assert(spec_member_value(b, ds, key_d(), acc1) == Option::Some((acc2, de)));
    assert(skip_ws(b, de) == de);
    lemma_member_step(b, i + 1, i + 3, key_d(), acc1, acc2, de, de);
    if b[de] == 44 && de + 1 < b.len() && !is_ws(b[de + 1]) {
        assert(skip_ws(b, de + 1) == de + 1);
    }
}

/// The optional `s` member of an encoded payload, when present.
#[verifier::rlimit(100)]
#[verifier::spinoff_prover]
proof fn lemma_s_member(p: PayloadView)
    requires
        wf_payload(p),
        p.sequence_number is Some,
    ensures
        spec_encode(p)[pos_de(p)] == 44,
        pos_de(p) + 1 < spec_encode(p).len(),
        !is_ws(spec_encode(p)[pos_de(p) + 1]),
        is_delim(spec_encode(p)[pos_de(p) + 5 + dec_u64(p.sequence_number->Some_0).len()]),
        spec_encode(p)[pos_de(p) + 5 + dec_u64(p.sequence_number->Some_0).len()] == 44 && pos_de(
            p,
        ) + 5 + dec_u64(p.sequence_number->Some_0).len() + 1 < spec_encode(p).len() && !is_ws(
            spec_encode(p)[pos_de(p) + 5 + dec_u64(p.sequence_number->Some_0).len() + 1],
        ) ==> spec_members(spec_encode(p), pos_de(p) + 1, acc_after_d(p)) == spec_members(
            spec_encode(p),
            pos_de(p) + 5 + dec_u64(p.sequence_number->Some_0).len() + 1,
            FrameFields { s: p.sequence_number, ..acc_after_d(p) },
        ),
        spec_encode(p)[pos_de(p) + 5 + dec_u64(p.sequence_number->Some_0).len()] == 125
            ==> spec_members(spec_encode(p), pos_de(p) + 1, acc_after_d(p)) == Option::Some(
            (
                FrameFields { s: p.sequence_number, ..acc_after_d(p) },
                pos_de(p) + 5 + dec_u64(p.sequence_number->Some_0).len(),
            ),
        ),
{
    let b = spec_encode(p);
    let de = pos_de(p);
    let sv = p.sequence_number->Some_0;
    let after_s = de + 5 + dec_u64(sv).len() as int;
    let acc2 = acc_after_d(p);
    let acc3 = FrameFields { s: p.sequence_number, ..acc2 };
    let t_seq: Seq<u8> = match p.event_name {
        Option::Some(t) => lit_t() + t + seq![34u8],
        Option::None => Seq::empty(),
    };
    assert(b.subrange(de, de + 5) =~= lit_s());
    assert(b[de] == 44 && b[de + 1] == 34 && b[de + 2] == 115 && b[de + 3] == 34 && b[de + 4]
        == 58);
    assert(skip_ws(b, de + 1) == de + 1);
    assert(b.subrange(de + 2, de + 3) =~= key_s());
    assert(key_s() != key_op()) by {
        assert(key_s().len() != key_op().len());
    }
    assert(key_s() != key_d()) by {
        assert(key_s()[0] != key_d()[0]);
    }
    lemma_key_at(b, de + 1, key_s());
    assert(skip_ws(b, de + 4) == de + 4);
    assert(b.subrange(de + 5, after_s) =~= dec_u64(sv));
    lemma_dec_props(sv);
    assert(b[de + 5] == dec_u64(sv)[0]);
    assert(!is_ws(b[de + 5]));
    assert(skip_ws(b, de + 5) == de + 5);
    assert(!is_digit(b[after_s]) && is_delim(b[after_s])) by {
        match p.event_name {
            Option::Some(_) => {
                assert(b[after_s] == t_seq[0]);
            },
            Option::None => {
                assert(b[after_s] == 125);
            },
        }
    }
    lemma_parse_digits(b, de + 5, sv);
    assert(spec_member_value(b, de + 5, key_s(), acc2) == Option::Some((acc3, after_s)));
    assert(skip_ws(b, after_s) == after_s);
    lemma_member_step(b, de + 1, de + 3, key_s(), acc2, acc3, after_s, after_s);
    if b[after_s] == 44 && after_s + 1 < b.len() && !is_ws(b[after_s + 1]) {
        assert(skip_ws(b, after_s + 1) == after_s + 1);
    }
}

/// The `t` member of an encoded payload, when present: it is the last
/// member, ending at the closing brace.
#[verifier::rlimit(100)]
#[verifier::spinoff_prover]
proof fn lemma_t_member(p: PayloadView, after_s: int)
    requires
        wf_payload(p),
        p.event_name is Some,
        after_s == match p.sequence_number {
            Option::Some(s) => pos_de(p) + 5 + dec_u64(s).len(),
            Option::None => pos_de(p),
        },
    ensures
        spec_encode(p)[after_s] == 44,
        after_s + 1 < spec_encode(p).len(),
        !is_ws(spec_encode(p)[after_s + 1]),
        spec_members(
            spec_encode(p),
            after_s + 1,
            FrameFields { s: p.sequence_number, ..acc_after_d(p) },
        ) == Option::Some((final_fields(p), spec_encode(p).len() - 1)),
{
    let b = spec_encode(p);
    let t = p.event_name->Some_0;
    let acc3 = FrameFields { s: p.sequence_number, ..acc_after_d(p) };
    let acc4 = final_fields(p);
    assert(b.subrange(after_s, after_s + 6) =~= lit_t());
    assert(b[after_s] == 44 && b[after_s + 1] == 34 && b[after_s + 2] == 116 && b[after_s + 3]
        == 34 && b[after_s + 4] == 58 && b[after_s + 5] == 34);
    assert(b.subrange(after_s + 2, after_s + 3) =~= key_t());
    assert(key_t() != key_op()) by {
        assert(key_t().len() != key_op().len());
    }
    assert(key_t() != key_d()) by {
        assert(key_t()[0] != key_d()[0]);
    }
    assert(key_t() != key_s()) by {
        assert(key_t()[0] != key_s()[0]);
    }
    lemma_key_at(b, after_s + 1, key_t());
    assert(skip_ws(b, after_s + 4) == after_s + 4);
    assert(skip_ws(b, after_s + 5) == after_s + 5);
    let ts = after_s + 6;
    let te = ts + t.len() as int;
    assert(b.subrange(ts, te) =~= t);
    assert(forall|m: int| ts <= m < te ==> is_name_byte(#[trigger] b[m])) by {
        assert(forall|m: int| ts <= m < te ==> b[m] == t[m - ts] && is_name_byte(t[m - ts]));
    }
    assert(b[te] == 34);
    lemma_name_end_run(b, ts, te);
    assert(spec_member_value(b, after_s + 5, key_t(), acc3) == Option::Some((acc4, te + 1)));
    assert(b[te + 1] == 125);
    assert(te + 1 == b.len() - 1);
    assert(skip_ws(b, te + 1) == te + 1);
    lemma_member_step(b, after_s + 1, after_s + 3, key_t(), acc3, acc4, te + 1, te + 1);
}

/// The member machine reads the encoder's output back into exactly the
/// encoded fields, ending at the closing brace.
#[verifier::rlimit(100)]
#[verifier::spinoff_prover]
proof fn lemma_members_of_encode(p: PayloadView)
    requires
        wf_payload(p),
    ensures
        spec_members(spec_encode(p), 1, empty_fields()) == Option::Some(
            (final_fields(p), spec_encode(p).len() - 1),
        ),
{
    let b = spec_encode(p);
    let de = pos_de(p);
    lemma_encode_prefix(p);
    let acc2 = acc_after_d(p);
    let acc3 = FrameFields { s: p.sequence_number, ..acc2 };
    let after_s: int = match p.sequence_number {
        Option::Some(s) => de + 5 + dec_u64(s).len(),
        Option::None => de,
    };
    match p.sequence_number {
        Option::Some(_) => {
            lemma_s_member(p);
            assert(spec_members(b, 1, empty_fields()) == spec_members(b, de + 1, acc2));
            match p.event_name {
                Option::Some(_) => {
                    lemma_t_member(p, after_s);
                    assert(spec_members(b, de + 1, acc2) == spec_members(b, after_s + 1, acc3));
                    assert(spec_members(b, after_s + 1, acc3) == Option::Some(
                        (final_fields(p), b.len() - 1),
                    ));
                },
                Option::None => {
                    assert(b[after_s] == 125) by {
                        assert(b == lit_op_prefix() + dec_u64(p.op_code as u64) + lit_d()
                            + p.event_data + (lit_s() + dec_u64(p.sequence_number->Some_0))
                            + Seq::<u8>::empty() + seq![125u8]);
                    }
                    assert(spec_members(b, de + 1, acc2) == Option::Some((acc3, after_s)));
                    assert(final_fields(p) =~= acc3);
                    assert(after_s == b.len() - 1);
                },
            }
        },
        Option::None => {
            assert(acc3 =~= acc2);
            match p.event_name {
                Option::Some(t) => {
                    lemma_t_member(p, after_s);
                    assert(spec_members(b, 1, empty_fields()) == spec_members(
                        b,
                        after_s + 1,
                        acc2,
                    ));
                    assert(spec_members(b, after_s + 1, acc3) == Option::Some(
                        (final_fields(p), b.len() - 1),
                    ));
                },
                Option::None => {
                    assert(b[de] == 125) by {
                        assert(b == lit_op_prefix() + dec_u64(p.op_code as u64) + lit_d()
                            + p.event_data + Seq::<u8>::empty() + Seq::<u8>::empty() + seq![
                            125u8,
                        ]);
                    }
                    assert(spec_members(b, 1, empty_fields()) == Option::Some((acc2, de)));
                    assert(final_fields(p) =~= acc2);
                    assert(de == b.len() - 1);
                },
            }
        },
    }
}

/// Encoding a well-formed payload and decoding the bytes gives the payload
/// back; an absent sequence number or event name stays absent.
#[verifier::rlimit(100)]
#[verifier::spinoff_prover]
pub proof fn lemma_payload_round_trip(p: PayloadView)
    requires
        wf_payload(p),
    ensures
        spec_decode(spec_encode(p)) == Option::Some(p),
{
    let b = spec_encode(p);
    lemma_members_of_encode(p);
    assert(b.subrange(0, 6) =~= lit_op_prefix());
    assert(b[0] == 123 && b[1] == 34);
    assert(skip_ws(b, 0) == 0);
    assert(skip_ws(b, 1) == 1);
    let acc = final_fields(p);
    let end = b.len() - 1;
    assert(skip_ws(b, end + 1) == b.len());
    assert(spec_decode(b)->Some_0 =~= p);
}

} // verus!
