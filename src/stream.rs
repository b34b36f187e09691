//! How the frame reader behaves as bytes arrive in pieces: a complete frame
//! is read the same whatever follows it, and every proper prefix of a
//! complete frame is reported as incomplete.
use vstd::prelude::*;
use crate::wire::{
    CR,
    LF,
    Step,
    bulk_header,
    crlf_from,
    delivery_channel,
    delivery_payload,
    dec_value,
    elem,
    elems,
    frame,
    is_delivery,
    len_field_ok,
    three_array,
};

verus! {

proof fn lemma_crlf_extend(w: Seq<u8>, x: Seq<u8>, i: nat)
    requires
        crlf_from(w, i) is Some,
    ensures
        crlf_from(w + x, i) == crlf_from(w, i),
    decreases w.len() - i,
{
    let v = w + x;
    if i + 1 < w.len() {
        assert(v[i as int] == w[i as int] && v[(i + 1) as int] == w[(i + 1) as int]);
        if !(w[i as int] == CR && w[(i + 1) as int] == LF) {
            lemma_crlf_extend(w, x, i + 1);
        }
    }
}

proof fn lemma_crlf_prefix(w: Seq<u8>, k: nat, i: nat)
    requires
        crlf_from(w, i) is Some,
        k <= w.len(),
    ensures
        crlf_from(w, i).unwrap() + 2 <= k ==> crlf_from(w.take(k as int), i) == crlf_from(w, i),
        crlf_from(w, i).unwrap() + 2 > k ==> crlf_from(w.take(k as int), i) is None,
    decreases w.len() - i,
{
    let p = w.take(k as int);
    if i + 1 < w.len() {
        if i + 1 < k {
            assert(p[i as int] == w[i as int] && p[(i + 1) as int] == w[(i + 1) as int]);
        }
        if !(w[i as int] == CR && w[(i + 1) as int] == LF) {
            lemma_crlf_prefix(w, k, i + 1);
            if i + 1 < k {
                assert(crlf_from(p, i) == crlf_from(p, i + 1));
            }
        }
    }
}

proof fn lemma_elem_extend(w: Seq<u8>, x: Seq<u8>, i: nat)
    requires
        elem(w, i) is Done,
    ensures
        elem(w + x, i) == elem(w, i),
        bulk_header(w + x, i) == bulk_header(w, i),
        i < w.len() && w[i as int] == 36u8 ==> (bulk_header(w, i) matches Some((s, n)) && elem(w, i) == Step::Done(s + n + 2)),
{
    let v = w + x;
    assert(v[i as int] == w[i as int]);
    lemma_crlf_extend(w, x, i + 1);
    let j = crlf_from(w, i + 1).unwrap();
    crate::wire::lemma_crlf_first(w, i + 1);
    assert(v.subrange((i + 1) as int, j as int) =~= w.subrange((i + 1) as int, j as int));
    if w[i as int] == 36u8 {
        let end = j + 2 + dec_value(w.subrange((i + 1) as int, j as int)) + 2;
        assert(v[(end - 2) as int] == w[(end - 2) as int] && v[(end - 1) as int] == w[(end - 1) as int]);
    }
}

proof fn lemma_elems_extend(w: Seq<u8>, x: Seq<u8>, i: nat, k: nat)
    requires
        elems(w, i, k) is Done,
    ensures
        elems(w + x, i, k) == elems(w, i, k),
    decreases k,
{
    if k > 0 {
        lemma_elem_extend(w, x, i);
        let e = elem(w, i)->Done_0;
        lemma_elems_extend(w, x, e, (k - 1) as nat);
    }
}

proof fn lemma_elem_prefix(w: Seq<u8>, k: nat, i: nat)
    requires
        elem(w, i) is Done,
        k <= w.len(),
    ensures
        elem(w, i)->Done_0 <= k ==> elem(w.take(k as int), i) == elem(w, i),
        elem(w, i)->Done_0 > k ==> elem(w.take(k as int), i) is Short,
{
    let p = w.take(k as int);
    crate::wire::lemma_crlf_first(w, i + 1);
    lemma_crlf_prefix(w, k, i + 1);
    let j = crlf_from(w, i + 1).unwrap();
    if i < k {
        assert(p[i as int] == w[i as int]);
    }
    if j + 2 <= k {
        assert(p.subrange((i + 1) as int, j as int) =~= w.subrange((i + 1) as int, j as int));
        if w[i as int] == 36u8 {
            let end = j + 2 + dec_value(w.subrange((i + 1) as int, j as int)) + 2;
            if end <= k {
                assert(p[(end - 2) as int] == w[(end - 2) as int] && p[(end - 1) as int] == w[(end - 1) as int]);
            }
        }
    }
}

proof fn lemma_elems_prefix(w: Seq<u8>, k: nat, i: nat, c: nat)
    requires
        elems(w, i, c) is Done,
        k <= w.len(),
        i <= k,
    ensures
        elems(w, i, c)->Done_0 <= k ==> elems(w.take(k as int), i, c) == elems(w, i, c),
        elems(w, i, c)->Done_0 > k ==> elems(w.take(k as int), i, c) is Short,
    decreases c,
{
    if c > 0 {
        lemma_elem_prefix(w, k, i);
        let e = elem(w, i)->Done_0;
        lemma_elems_monotone(w, e, (c - 1) as nat);
        if e <= k {
            lemma_elems_prefix(w, k, e, (c - 1) as nat);
        }
    }
}

proof fn lemma_elems_monotone(w: Seq<u8>, i: nat, c: nat)
    requires
        elems(w, i, c) is Done,
    ensures
        i <= elems(w, i, c)->Done_0,
    decreases c,
{
    if c > 0 {
        crate::wire::lemma_crlf_first(w, i + 1);
        let e = elem(w, i)->Done_0;
        lemma_elems_monotone(w, e, (c - 1) as nat);
    }
}

/// Bytes that arrive after a complete frame do not change how that frame
/// is read: the same length, the same kind, the same channel and payload.
pub proof fn lemma_complete_frame_is_stable(w: Seq<u8>, x: Seq<u8>)
    requires
        frame(w) is Done,
    ensures
        frame(w + x) == frame(w),
        is_delivery(w + x) == is_delivery(w),
        is_delivery(w) ==> delivery_channel(w + x) == delivery_channel(w) && delivery_payload(w + x)
            == delivery_payload(w),
{
    let v = w + x;
    assert(v[0] == w[0]);
    if w[0] == 42u8 {
        lemma_crlf_extend(w, x, 1);
        let j = crlf_from(w, 1).unwrap();
        crate::wire::lemma_crlf_first(w, 1);
        assert(v.subrange(1, j as int) =~= w.subrange(1, j as int));
        let c = dec_value(w.subrange(1, j as int));
        lemma_elems_extend(w, x, j + 2, c);
        assert(three_array(v) == three_array(w));
        if three_array(w) {
            assert(w.subrange(1, j as int) =~= seq![51u8]);
            assert(seq![51u8].drop_last() =~= Seq::<u8>::empty());
            assert(seq![51u8].last() == 51u8);
            assert(dec_value(Seq::<u8>::empty()) == 0);
            assert(c == 3);
            reveal_with_fuel(elems, 4);
            let at_tag = j + 2;
            assert(elems(w, at_tag, 3) is Done);
            let e1 = elem(w, at_tag)->Done_0;
            lemma_elem_extend(w, x, at_tag);
            let e2 = elem(w, e1)->Done_0;
            lemma_elem_extend(w, x, e1);
            let e3 = elem(w, e2)->Done_0;
            lemma_elem_extend(w, x, e2);
            lemma_bulk_end_within(w, at_tag);
            lemma_bulk_end_within(w, e1);
            lemma_bulk_end_within(w, e2);
            if bulk_header(w, at_tag) is Some && bulk_header(w, e1) is Some && bulk_header(w, e2) is Some {
                let (tag_at, tag_len) = bulk_header(w, at_tag).unwrap();
                let (chan_at, chan_len) = bulk_header(w, e1).unwrap();
                let (body_at, body_len) = bulk_header(w, e2).unwrap();
                assert(v.subrange(tag_at as int, (tag_at + tag_len) as int) =~= w.subrange(tag_at as int, (tag_at + tag_len) as int));
                assert(v.subrange(chan_at as int, (chan_at + chan_len) as int) =~= w.subrange(chan_at as int, (chan_at + chan_len) as int));
                assert(v.subrange(body_at as int, (body_at + body_len) as int) =~= w.subrange(body_at as int, (body_at + body_len) as int));
            }
        }
    } else {
        lemma_elem_extend(w, x, 0);
        assert(!three_array(w) && !three_array(v));
    }
}

proof fn lemma_bulk_end_within(w: Seq<u8>, i: nat)
    requires
        elem(w, i) is Done,
    ensures
        bulk_header(w, i) matches Some((s, n)) ==> (elem(w, i) == Step::Done(s + n + 2) && s + n + 2 <= w.len()),
{
    lemma_elem_extend(w, Seq::empty(), i);
    assert(w + Seq::<u8>::empty() =~= w);
}

/// A complete frame lies within the window.
pub(crate) proof fn lemma_frame_within(w: Seq<u8>)
    requires
        frame(w) is Done,
    ensures
        frame(w)->Done_0 <= w.len(),
{
    if w[0] == 42u8 {
        crate::wire::lemma_crlf_first(w, 1);
        let j = crlf_from(w, 1).unwrap();
        lemma_elems_within(w, j + 2, dec_value(w.subrange(1, j as int)));
    } else {
        lemma_bulk_end_within(w, 0);
        crate::wire::lemma_crlf_first(w, 1);
    }
}

proof fn lemma_elems_within(w: Seq<u8>, i: nat, c: nat)
    requires
        elems(w, i, c) is Done,
        i <= w.len(),
    ensures
        elems(w, i, c)->Done_0 <= w.len(),
    decreases c,
{
    if c > 0 {
        crate::wire::lemma_crlf_first(w, i + 1);
        let e = elem(w, i)->Done_0;
        lemma_elems_within(w, e, (c - 1) as nat);
    }
}

/// Every proper prefix of a complete frame reads as incomplete, so a frame
/// split over several reads is not acted on before its last byte arrives.
pub proof fn lemma_frame_prefix_is_incomplete(w: Seq<u8>, k: nat)
    requires
        frame(w) is Done,
        k < frame(w)->Done_0,
        k <= w.len(),
    ensures
        frame(w.take(k as int)) is Short,
{
    let p = w.take(k as int);
    if k == 0 {
        return;
    }
    assert(p[0] == w[0]);
    if w[0] == 42u8 {
        crate::wire::lemma_crlf_first(w, 1);
        lemma_crlf_prefix(w, k, 1);
        let j = crlf_from(w, 1).unwrap();
        if j + 2 <= k {
            assert(p.subrange(1, j as int) =~= w.subrange(1, j as int));
            let c = dec_value(w.subrange(1, j as int));
            lemma_elems_prefix(w, k, j + 2, c);
        }
    } else {
        lemma_elem_prefix(w, k, 0);
    }
}

} // verus!
