//! Incremental decoder of the bus's reply frames.
//!
//! A frame is a simple string (`+`), an error (`-`), an integer (`:`), a bulk
//! string (`$<len>\r\n<bytes>\r\n`) or an array (`*<count>\r\n` followed by
//! that many non-array elements). A pub/sub delivery is the array
//! `["message", <channel>, <payload>]` of three bulk strings.
use vstd::prelude::*;
use vstd::slice::{slice_subrange, slice_to_vec};

verus! {

pub const CR: u8 = 13;
pub const LF: u8 = 10;

/// What one step of the decoder found at the start of a byte window.
pub enum ParseOutcome {
    /// A complete pub/sub delivery of `consumed` bytes.
    Message { channel: Vec<u8>, payload: Vec<u8>, consumed: usize },
    /// A complete frame that is not a delivery, of `consumed` bytes.
    NonMessage { consumed: usize },
    /// The window is too short to decide; more bytes are needed.
    Incomplete,
    /// The window cannot start with a frame.
    Malformed,
}

/// The result of reading one element, in the mathematical model.
pub enum Step {
    Done(nat),
    Short,
    Bad,
}

pub open spec fn is_digit(b: u8) -> bool {
    48 <= b && b <= 57
}

/// Decimal value of a string of digits.
pub open spec fn dec_value(s: Seq<u8>) -> nat
    decreases s.len(),
{
    if s.len() == 0 {
        0
    } else {
        dec_value(s.drop_last()) * 10 + (s.last() - 48) as nat
    }
}

/// A length or count field: one to nine decimal digits.
pub open spec fn len_field_ok(s: Seq<u8>) -> bool {
    1 <= s.len() <= 9 && forall|k: int| 0 <= k < s.len() ==> is_digit(#[trigger] s[k])
}

pub open spec fn pow10(n: nat) -> nat
    decreases n,
{
    if n == 0 {
        1
    } else {
        10 * pow10((n - 1) as nat)
    }
}

/// Position of the first `\r\n` at or after `i`.
pub open spec fn crlf_from(w: Seq<u8>, i: nat) -> Option<nat>
    decreases w.len() - i,
{
    if i + 1 >= w.len() {
        None
    } else if w[i as int] == CR && w[(i + 1) as int] == LF {
        Some(i)
    } else {
        crlf_from(w, i + 1)
    }
}

/// Where the content of the bulk string at `i` starts and how long it is,
/// when its header is complete and well formed.
pub open spec fn bulk_header(w: Seq<u8>, i: nat) -> Option<(nat, nat)> {
    if i < w.len() && w[i as int] == 36u8 {
        match crlf_from(w, i + 1) {
            Some(j) => if len_field_ok(w.subrange((i + 1) as int, j as int)) {
                Some((j + 2, dec_value(w.subrange((i + 1) as int, j as int))))
            } else {
                None
            },
            None => None,
        }
    } else {
        None
    }
}

/// Reads one non-array element starting at `i`.
pub open spec fn elem(w: Seq<u8>, i: nat) -> Step {
    if i >= w.len() {
        Step::Short
    } else {
        let t = w[i as int];
        if t == 43u8 || t == 45u8 || t == 58u8 {
            match crlf_from(w, i + 1) {
                Some(j) => Step::Done(j + 2),
                None => Step::Short,
            }
        } else if t == 36u8 {
            match crlf_from(w, i + 1) {
                None => Step::Short,
                Some(j) => if !len_field_ok(w.subrange((i + 1) as int, j as int)) {
                    Step::Bad
                } else {
                    let end = j + 2 + dec_value(w.subrange((i + 1) as int, j as int)) + 2;
                    if end > w.len() {
                        Step::Short
                    } else if w[(end - 2) as int] == CR && w[(end - 1) as int] == LF {
                        Step::Done(end)
                    } else {
                        Step::Bad
                    }
                },
            }
        } else {
            Step::Bad
        }
    }
}

/// Reads `k` elements one after another, starting at `i`.
pub open spec fn elems(w: Seq<u8>, i: nat, k: nat) -> Step
    decreases k,
{
    if k == 0 {
        Step::Done(i)
    } else {
        match elem(w, i) {
            Step::Done(e) => elems(w, e, (k - 1) as nat),
            other => other,
        }
    }
}

/// Reads the frame at the start of `w`.
pub open spec fn frame(w: Seq<u8>) -> Step {
    if w.len() == 0 {
        Step::Short
    } else if w[0] == 42u8 {
        match crlf_from(w, 1) {
            None => Step::Short,
            Some(j) => if !len_field_ok(w.subrange(1, j as int)) {
                Step::Bad
            } else {
                elems(w, j + 2, dec_value(w.subrange(1, j as int)))
            },
        }
    } else {
        elem(w, 0)
    }
}

pub open spec fn message_tag() -> Seq<u8> {
    seq![109u8, 101, 115, 115, 97, 103, 101]
}

/// Content of the bulk string at `i`.
pub open spec fn bulk_content(w: Seq<u8>, i: nat) -> Seq<u8> {
    let (s, n) = bulk_header(w, i).unwrap();
    w.subrange(s as int, (s + n) as int)
}

/// The end of the bulk string at `i`.
pub open spec fn bulk_end(w: Seq<u8>, i: nat) -> nat {
    let (s, n) = bulk_header(w, i).unwrap();
    s + n + 2
}

/// The array header of `w` announces three elements.
pub open spec fn three_array(w: Seq<u8>) -> bool {
    w.len() > 0 && w[0] == 42u8 && match crlf_from(w, 1) {
        Some(j) => w.subrange(1, j as int) == seq![51u8],
        None => false,
    }
}

pub open spec fn first_elem_pos(w: Seq<u8>) -> nat {
    crlf_from(w, 1).unwrap() + 2
}

/// A complete frame of `w` is a delivery: an array of three bulk strings
/// whose first one reads `message`.
pub open spec fn is_delivery(w: Seq<u8>) -> bool {
    let at_tag = first_elem_pos(w);
    let at_channel = bulk_end(w, at_tag);
    let at_payload = bulk_end(w, at_channel);
    three_array(w) && bulk_header(w, at_tag).is_some() && bulk_header(w, at_channel).is_some()
        && bulk_header(w, at_payload).is_some() && bulk_end(w, at_payload) <= w.len() && bulk_content(w, at_tag)
        == message_tag()
}

pub open spec fn delivery_channel(w: Seq<u8>) -> Seq<u8> {
    bulk_content(w, bulk_end(w, first_elem_pos(w)))
}

pub open spec fn delivery_payload(w: Seq<u8>) -> Seq<u8> {
    bulk_content(w, bulk_end(w, bulk_end(w, first_elem_pos(w))))
}

/// What the decoder reports for the window `w`.
pub open spec fn outcome_matches(w: Seq<u8>, r: ParseOutcome) -> bool {
    match frame(w) {
        Step::Short => r is Incomplete,
        Step::Bad => r is Malformed,
        Step::Done(n) => if is_delivery(w) {
            match r {
                ParseOutcome::Message { channel, payload, consumed } => consumed == n
                    && channel@ == delivery_channel(w) && payload@ == delivery_payload(w),
                _ => false,
            }
        } else {
            r matches ParseOutcome::NonMessage { consumed } && consumed == n
        },
    }
}


/// Executable counterpart of `Step`.
pub enum Scan {
    Done(usize),
    Short,
    Bad,
}

pub open spec fn scan_is(r: Scan, s: Step) -> bool {
    match (r, s) {
        (Scan::Done(a), Step::Done(b)) => a as nat == b,
        (Scan::Short, Step::Short) => true,
        (Scan::Bad, Step::Bad) => true,
        _ => false,
    }
}

/// Finds the first `\r\n` at or after `i`.
fn find_crlf(w: &[u8], i: usize) -> (r: Option<usize>)
    requires
        i <= w@.len(),
    ensures
        match r {
            Some(j) => crlf_from(w@, i as nat) == Some(j as nat),
            None => crlf_from(w@, i as nat) is None,
        },
        r matches Some(j) ==> i <= j && j + 1 < w@.len() && w@[j as int] == CR && w@[j + 1]
            == LF,
{
    let mut k: usize = i;
    while w.len() - k > 1
        invariant
            i <= k <= w@.len(),
            crlf_from(w@, i as nat) == crlf_from(w@, k as nat),
        decreases w@.len() - k,
    {
        if w[k] == CR && w[k + 1] == LF {
            return Some(k);
        }
        k = k + 1;
    }
    None
}

/// Reads the length or count field `w[a..b]`.
fn read_len(w: &[u8], a: usize, b: usize) -> (r: Option<usize>)
    requires
        a <= b <= w@.len(),
    ensures
        r is Some <==> len_field_ok(w@.subrange(a as int, b as int)),
        r matches Some(v) ==> v as nat == dec_value(w@.subrange(a as int, b as int)) && v
            < 1000000000,
{
    if b - a < 1 || b - a > 9 {
        return None;
    }
    let mut v: usize = 0;
    let mut k: usize = a;
    proof {
        reveal_with_fuel(pow10, 10);
        lemma_pow10_mono(0, 9);
    }
    assert(pow10(9) == 1000000000);
    while k < b
        invariant
            a <= k <= b <= w@.len(),
            b - a <= 9,
            forall|m: int| 0 <= m < k - a ==> is_digit(#[trigger] w@.subrange(a as int, b as int)[m]),
            v as nat == dec_value(w@.subrange(a as int, k as int)),
            v < pow10((k - a) as nat),
            pow10((k - a) as nat) <= pow10(9),
            pow10(9) == 1000000000,
        decreases b - k,
    {
        let d = w[k];
        if d < 48 || d > 57 {
            assert(!is_digit(w@.subrange(a as int, b as int)[k - a]));
            return None;
        }
        assert(w@.subrange(a as int, (k + 1) as int).drop_last() =~= w@.subrange(a as int, k as int));
        proof {
            lemma_pow10_step((k - a) as nat);
            lemma_pow10_mono((k + 1 - a) as nat, 9);
        }
        assert(v * 10 + (d - 48) < pow10((k + 1 - a) as nat)) by (nonlinear_arith)
            requires
                v < pow10((k - a) as nat),
                pow10((k + 1 - a) as nat) == 10 * pow10((k - a) as nat),
                d - 48 < 10,
        ;
        v = v * 10 + (d - 48) as usize;
        k = k + 1;
    }
    assert(w@.subrange(a as int, k as int) =~= w@.subrange(a as int, b as int));
    proof {
        reveal_with_fuel(pow10, 10);
    }
    Some(v)
}

pub(crate) proof fn lemma_pow10_step(n: nat)
    ensures
        pow10(n + 1) == 10 * pow10(n),
{
}

pub(crate) proof fn lemma_pow10_mono(a: nat, b: nat)
    requires
        a <= b,
    ensures
        pow10(a) <= pow10(b),
    decreases b - a,
{
    if a < b {
        lemma_pow10_mono(a, (b - 1) as nat);
    }
}

/// Reads the header of the bulk string at `i`: content start and length.
fn read_bulk_header(w: &[u8], i: usize) -> (r: Option<(usize, usize)>)
    requires
        i <= w@.len(),
    ensures
        match r {
            Some((s, n)) => bulk_header(w@, i as nat) == Some((s as nat, n as nat)) && n
                < 1000000000,
            None => bulk_header(w@, i as nat) is None,
        },
{
    if i >= w.len() || w[i] != 36 {
        return None;
    }
    match find_crlf(w, i + 1) {
        None => None,
        Some(j) => match read_len(w, i + 1, j) {
            None => None,
            Some(n) => Some((j + 2, n)),
        },
    }
}

/// Reads one non-array element starting at `i`.
fn scan_elem(w: &[u8], i: usize) -> (r: Scan)
    requires
        i <= w@.len(),
    ensures
        scan_is(r, elem(w@, i as nat)),
        r matches Scan::Done(e) ==> i < e <= w@.len(),
{
    if i >= w.len() {
        return Scan::Short;
    }
    let t = w[i];
    if t == 43 || t == 45 || t == 58 {
        match find_crlf(w, i + 1) {
            Some(j) => Scan::Done(j + 2),
            None => Scan::Short,
        }
    } else if t == 36 {
        match find_crlf(w, i + 1) {
            None => Scan::Short,
            Some(j) => match read_len(w, i + 1, j) {
                None => Scan::Bad,
                Some(n) => {
                    if n + 2 > w.len() - (j + 2) {
                        Scan::Short
                    } else {
                        let end = j + 2 + n + 2;
                        if w[end - 2] == CR && w[end - 1] == LF {
                            Scan::Done(end)
                        } else {
                            Scan::Bad
                        }
                    }
                },
            },
        }
    } else {
        Scan::Bad
    }
}

/// Reads the frame at the start of `w`.
fn scan_frame(w: &[u8]) -> (r: Scan)
    ensures
        scan_is(r, frame(w@)),
        r matches Scan::Done(e) ==> 0 < e <= w@.len(),
{
    if w.len() == 0 {
        return Scan::Short;
    }
    if w[0] != 42 {
        return scan_elem(w, 0);
    }
    match find_crlf(w, 1) {
        None => Scan::Short,
        Some(j) => match read_len(w, 1, j) {
            None => Scan::Bad,
            Some(count) => {
                let mut p: usize = j + 2;
                let mut left: usize = count;
                while left > 0
                    invariant
                        0 < p <= w@.len(),
                        frame(w@) == elems(w@, p as nat, left as nat),
                    decreases left,
                {
                    match scan_elem(w, p) {
                        Scan::Done(e) => {
                            p = e;
                            left = left - 1;
                        },
                        Scan::Short => {
                            return Scan::Short;
                        },
                        Scan::Bad => {
                            return Scan::Bad;
                        },
                    }
                }
                Scan::Done(p)
            },
        },
    }
}

/// Reads the bulk string at `i` that `scan_frame` has already seen whole.
fn bulk_span(w: &[u8], i: usize) -> (r: Option<(usize, usize)>)
    requires
        i <= w@.len(),
    ensures
        match r {
            Some((s, n)) => bulk_header(w@, i as nat) == Some((s as nat, n as nat)) && s + n + 2
                <= w@.len(),
            None => bulk_header(w@, i as nat) is None || bulk_end(w@, i as nat) > w@.len(),
        },
{
    match read_bulk_header(w, i) {
        None => None,
        Some((s, n)) => {
            if s > w.len() || n + 2 > w.len() - s {
                None
            } else {
                Some((s, n))
            }
        },
    }
}

/// Decodes the frame at the start of the window `w`.
pub fn parse_frame(w: &[u8]) -> (r: ParseOutcome)
    ensures
        outcome_matches(w@, r),
        r matches ParseOutcome::Message { consumed, .. } ==> 0 < consumed <= w@.len(),
        r matches ParseOutcome::NonMessage { consumed } ==> 0 < consumed <= w@.len(),
{
    let n = match scan_frame(w) {
        Scan::Short => {
            return ParseOutcome::Incomplete;
        },
        Scan::Bad => {
            return ParseOutcome::Malformed;
        },
        Scan::Done(n) => n,
    };
    if !(w[0] == 42 && w.len() > 3 && w[1] == 51 && w[2] == CR && w[3] == LF) {
        assert(!three_array(w@)) by {
            if three_array(w@) {
                let j = crlf_from(w@, 1).unwrap();
                assert(w@.subrange(1, j as int).len() == 1);
                assert(w@.subrange(1, j as int)[0] == 51u8);
                lemma_crlf_first(w@, 1);
            }
        }
        return ParseOutcome::NonMessage { consumed: n };
    }
    assert(crlf_from(w@, 1) == Some(2nat)) by {
        reveal_with_fuel(crlf_from, 2);
    }
    assert(w@.subrange(1, 2) =~= seq![51u8]);
    let (tag_at, tag_len) = match bulk_span(w, 4) {
        Some(x) => x,
        None => {
            return ParseOutcome::NonMessage { consumed: n };
        },
    };
    let (chan_at, chan_len) = match bulk_span(w, tag_at + tag_len + 2) {
        Some(x) => x,
        None => {
            return ParseOutcome::NonMessage { consumed: n };
        },
    };
    let (body_at, body_len) = match bulk_span(w, chan_at + chan_len + 2) {
        Some(x) => x,
        None => {
            return ParseOutcome::NonMessage { consumed: n };
        },
    };
    let tag = slice_subrange(w, tag_at, tag_at + tag_len);
    let is_msg = tag_len == 7 && tag[0] == 109 && tag[1] == 101 && tag[2] == 115 && tag[3] == 115
        && tag[4] == 97 && tag[5] == 103 && tag[6] == 101;
    assert(is_msg <==> tag@ == message_tag()) by {
        if tag@ == message_tag() {
            assert(tag@.len() == 7);
            assert(tag@[0] == 109u8 && tag@[1] == 101u8 && tag@[2] == 115u8 && tag@[3] == 115u8);
            assert(tag@[4] == 97u8 && tag@[5] == 103u8 && tag@[6] == 101u8);
        }
        if is_msg {
            assert(tag@ =~= message_tag());
        }
    }
    if !is_msg {
        return ParseOutcome::NonMessage { consumed: n };
    }
    let channel = slice_to_vec(slice_subrange(w, chan_at, chan_at + chan_len));
    let payload = slice_to_vec(slice_subrange(w, body_at, body_at + body_len));
    ParseOutcome::Message { channel, payload, consumed: n }
}

/// The first `\r\n` found from `i` has no `\r\n` before it.
pub(crate) proof fn lemma_crlf_first(w: Seq<u8>, i: nat)
    ensures
        crlf_from(w, i) matches Some(j) ==> i <= j && j + 1 < w.len() && w[j as int] == CR
            && w[(j + 1) as int] == LF,
    decreases w.len() - i,
{
    if i + 1 < w.len() && !(w[i as int] == CR && w[(i + 1) as int] == LF) {
        lemma_crlf_first(w, i + 1);
    }
}


/// First position at or after `q` where `\r\n*` starts.
pub open spec fn marker_from(w: Seq<u8>, q: nat) -> Option<nat>
    decreases w.len() - q,
{
    if q + 2 >= w.len() {
        None
    } else if w[q as int] == CR && w[(q + 1) as int] == LF && w[(q + 2) as int] == 42u8 {
        Some(q)
    } else {
        marker_from(w, q + 1)
    }
}

/// How many bytes of a window that holds no frame are skipped to find the
/// next plausible frame start: up to the `*` that follows the first
/// `\r\n`, or all but the last two bytes (which may begin such a marker)
/// when there is none.
pub open spec fn resync_skip(w: Seq<u8>) -> nat {
    match marker_from(w, 0) {
        Some(q) => q + 2,
        None => if w.len() > 2 {
            (w.len() - 2) as nat
        } else {
            0
        },
    }
}

/// Computes `resync_skip`.
pub fn resync_len(w: &[u8]) -> (r: usize)
    ensures
        r == resync_skip(w@),
        r <= w@.len(),
{
    let mut q: usize = 0;
    while w.len() > 2 && q < w.len() - 2
        invariant
            q <= w@.len(),
            marker_from(w@, 0) == marker_from(w@, q as nat),
        decreases w@.len() - q,
    {
        if w[q] == CR && w[q + 1] == LF && w[q + 2] == 42 {
            proof {
                lemma_marker_bound(w@, 0);
            }
            return q + 2;
        }
        q = q + 1;
    }
    proof {
        lemma_marker_bound(w@, 0);
    }
    if w.len() > 2 {
        w.len() - 2
    } else {
        0
    }
}

pub(crate) proof fn lemma_resync_within(w: Seq<u8>)
    ensures
        resync_skip(w) <= w.len(),
{
    lemma_marker_bound(w, 0);
}

proof fn lemma_marker_bound(w: Seq<u8>, q: nat)
    ensures
        marker_from(w, q) matches Some(p) ==> q <= p && p + 2 < w.len(),
    decreases w.len() - q,
{
    if q + 2 < w.len() {
        lemma_marker_bound(w, q + 1);
    }
}

} // verus!
