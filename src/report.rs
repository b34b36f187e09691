//! The admin listing: one line per timeline with its number of channels.
use vstd::prelude::*;
use crate::channel::{dec_digits, push_decimal};
use crate::table::{SubscriptionTable, ids_of};
use crate::timeline::Timeline;

verus! {

/// The variant's name, as `Debug` writes it.
pub open spec fn variant_name(tl: Timeline) -> Seq<u8> {
    match tl {
        Timeline::Public => seq![80u8, 117, 98, 108, 105, 99],
        Timeline::PublicLocal => seq![80u8, 117, 98, 108, 105, 99, 76, 111, 99, 97, 108],
        Timeline::User(_) => seq![85u8, 115, 101, 114],
        Timeline::UserNotification(_) => seq![85u8, 115, 101, 114, 78, 111, 116, 105, 102, 105, 99, 97, 116, 105, 111, 110],
        Timeline::Hashtag(_) => seq![72u8, 97, 115, 104, 116, 97, 103],
        Timeline::HashtagLocal(_) => seq![72u8, 97, 115, 104, 116, 97, 103, 76, 111, 99, 97, 108],
        Timeline::List(_) => seq![76u8, 105, 115, 116],
        Timeline::Direct(_) => seq![68u8, 105, 114, 101, 99, 116],
    }
}

/// The id a timeline carries, if any.
pub open spec fn timeline_id(tl: Timeline) -> Option<u64> {
    match tl {
        Timeline::Public => None,
        Timeline::PublicLocal => None,
        Timeline::User(id) => Some(id),
        Timeline::UserNotification(id) => Some(id),
        Timeline::Hashtag(id) => Some(id),
        Timeline::HashtagLocal(id) => Some(id),
        Timeline::List(id) => Some(id),
        Timeline::Direct(id) => Some(id),
    }
}

/// The timeline as `Debug` writes it, followed by a colon: `Public:`,
/// `List(3):`.
pub open spec fn label(tl: Timeline) -> Seq<u8> {
    match timeline_id(tl) {
        None => variant_name(tl) + seq![58u8],
        Some(id) => variant_name(tl) + seq![40u8] + dec_digits(id as nat) + seq![41u8, 58],
    }
}

/// The width of the widest label.
pub open spec fn width(tls: Seq<Timeline>) -> nat
    decreases tls.len(),
{
    if tls.len() == 0 {
        0
    } else {
        let w = width(tls.drop_last());
        if label(tls.last()).len() > w {
            label(tls.last()).len()
        } else {
            w
        }
    }
}

pub open spec fn spaces(n: nat) -> Seq<u8> {
    Seq::new(n, |i: int| 32u8)
}

/// One line: the label right-aligned to `w`, a space, the count.
pub open spec fn line(tl: Timeline, count: nat, w: nat) -> Seq<u8> {
    spaces((w - label(tl).len()) as nat) + label(tl) + seq![32u8] + dec_digits(count) + seq![10u8]
}

/// The lines for `tls`, counting the channels of `table`.
pub open spec fn lines(tls: Seq<Timeline>, table: Seq<(u32, Timeline)>, w: nat) -> Seq<u8>
    decreases tls.len(),
{
    if tls.len() == 0 {
        Seq::empty()
    } else {
        lines(tls.drop_last(), table, w) + line(tls.last(), ids_of(table, tls.last()).len(), w)
    }
}

pub open spec fn footer() -> Seq<u8> {
    seq![
        10u8, 42, 109, 97, 121, 32, 105, 110, 99, 108, 117, 100, 101, 32, 114, 101, 99, 101, 110,
        116, 108, 121, 32, 100, 105, 115, 99, 111, 110, 110, 101, 99, 116, 101, 100, 32, 99, 108,
        105, 101, 110, 116, 115,
    ]
}

/// The listing of `tls`, in that order.
pub open spec fn listing(tls: Seq<Timeline>, table: Seq<(u32, Timeline)>) -> Seq<u8> {
    lines(tls, table, width(tls)) + footer()
}

fn push_all(out: &mut Vec<u8>, s: &[u8])
    ensures
        final(out)@ == old(out)@ + s@,
{
    let mut i: usize = 0;
    while i < s.len()
        invariant
            i <= s@.len(),
            out@ == old(out)@ + s@.take(i as int),
        decreases s@.len() - i,
    {
        out.push(s[i]);
        i = i + 1;
        assert(out@ =~= old(out)@ + s@.take(i as int));
    }
    assert(s@.take(i as int) =~= s@);
}

/// The label of `tl`.
pub fn timeline_label(tl: Timeline) -> (r: Vec<u8>)
    ensures
        r@ == label(tl),
{
    let mut out: Vec<u8> = Vec::new();
    let (name, id): (Vec<u8>, Option<u64>) = match tl {
        Timeline::Public => (vec![80u8, 117, 98, 108, 105, 99], None),
        Timeline::PublicLocal => (vec![80u8, 117, 98, 108, 105, 99, 76, 111, 99, 97, 108], None),
        Timeline::User(id) => (vec![85u8, 115, 101, 114], Some(id)),
        Timeline::UserNotification(id) => (vec![85u8, 115, 101, 114, 78, 111, 116, 105, 102, 105, 99, 97, 116, 105, 111, 110], Some(id)),
        Timeline::Hashtag(id) => (vec![72u8, 97, 115, 104, 116, 97, 103], Some(id)),
        Timeline::HashtagLocal(id) => (vec![72u8, 97, 115, 104, 116, 97, 103, 76, 111, 99, 97, 108], Some(id)),
        Timeline::List(id) => (vec![76u8, 105, 115, 116], Some(id)),
        Timeline::Direct(id) => (vec![68u8, 105, 114, 101, 99, 116], Some(id)),
    };
    assert(name@ == variant_name(tl));
    assert(id == timeline_id(tl));
    push_all(&mut out, name.as_slice());
    match id {
        None => {
            out.push(58);
        },
        Some(n) => {
            out.push(40);
            push_decimal(&mut out, n as u128);
            out.push(41);
            out.push(58);
        },
    }
    assert(out@ =~= label(tl));
    out
}

/// The listing of the table's timelines, in the order of their first
/// subscription, with the number of channels of each.
pub fn list_table(table: &SubscriptionTable) -> (r: Vec<u8>)
    ensures
        exists|tls: Seq<Timeline>|
            tls.no_duplicates() && (forall|tl: Timeline| #[trigger] tls.contains(tl) <==> crate::table::follows(table@, tl))
                && r@ == listing(tls, table@),
{
    let tls = table.timelines();
    let mut w: usize = 0;
    let mut i: usize = 0;
    while i < tls.len()
        invariant
            i <= tls@.len(),
            w == width(tls@.take(i as int)),
        decreases tls@.len() - i,
    {
        let l = timeline_label(tls[i]);
        assert(tls@.take(i + 1).drop_last() =~= tls@.take(i as int));
        if l.len() > w {
            w = l.len();
        }
        i = i + 1;
    }
    assert(tls@.take(i as int) =~= tls@);
    let mut out: Vec<u8> = Vec::new();
    let mut k: usize = 0;
    while k < tls.len()
        invariant
            k <= tls@.len(),
            w == width(tls@),
            out@ == lines(tls@.take(k as int), table@, w as nat),
        decreases tls@.len() - k,
    {
        let tl = tls[k];
        let l = timeline_label(tl);
        proof {
            lemma_width_bounds(tls@, k as int);
        }
        let ghost before = out@;
        let mut pad: usize = w - l.len();
        while pad > 0
            invariant
                pad <= w - l@.len(),
                out@ == before + spaces((w - l@.len() - pad) as nat),
            decreases pad,
        {
            out.push(32);
            pad = pad - 1;
            assert(out@ =~= before + spaces((w - l@.len() - pad) as nat));
        }
        push_all(&mut out, l.as_slice());
        out.push(32);
        let n = table.channels_of(tl).len();
        push_decimal(&mut out, n as u128);
        out.push(10);
        assert(tls@.take(k + 1).drop_last() =~= tls@.take(k as int));
        assert(out@ =~= lines(tls@.take(k + 1), table@, w as nat));
        k = k + 1;
    }
    assert(tls@.take(k as int) =~= tls@);
    let f: [u8; 43] = [
        10, 42, 109, 97, 121, 32, 105, 110, 99, 108, 117, 100, 101, 32, 114, 101, 99, 101, 110, 116,
        108, 121, 32, 100, 105, 115, 99, 111, 110, 110, 101, 99, 116, 101, 100, 32, 99, 108, 105, 101,
        110, 116, 115,
    ];
    assert(f@ == footer());
    push_all(&mut out, f.as_slice());
    out
}

proof fn lemma_width_bounds(tls: Seq<Timeline>, k: int)
    requires
        0 <= k < tls.len(),
    ensures
        label(tls[k]).len() <= width(tls),
    decreases tls.len(),
{
    if k < tls.len() - 1 {
        assert(tls.drop_last()[k] == tls[k]);
        lemma_width_bounds(tls.drop_last(), k);
    }
}

} // verus!
