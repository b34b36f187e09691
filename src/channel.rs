//! Bus channel names: `<ns>:timeline:<suffix>`, with the namespace and its
//! colon left out when the namespace is empty.
use vstd::prelude::*;
use vstd::slice::{slice_subrange, slice_to_vec};
use crate::cache::{TagIdCache, TagNameCache, tag_ids, tag_id_capacity, tag_name_capacity, tag_names};
use crate::timeline::Timeline;
use crate::wire::{dec_value, is_digit};

verus! {

/// Why a channel name gave no timeline.
#[derive(Debug, PartialEq, Eq, Structural)]
pub enum ChannelError {
    /// The channel names a hashtag that the name-to-id cache does not hold.
    UnknownHashtag,
    /// The channel name has no timeline form.
    BadChannel,
}

pub open spec fn colon() -> Seq<u8> {
    seq![58u8]
}

pub open spec fn timeline_word() -> Seq<u8> {
    seq![116u8, 105, 109, 101, 108, 105, 110, 101, 58]
}

pub open spec fn public_word() -> Seq<u8> {
    seq![112u8, 117, 98, 108, 105, 99]
}

pub open spec fn local_word() -> Seq<u8> {
    seq![58u8, 108, 111, 99, 97, 108]
}

pub open spec fn hashtag_word() -> Seq<u8> {
    seq![104u8, 97, 115, 104, 116, 97, 103, 58]
}

pub open spec fn list_word() -> Seq<u8> {
    seq![108u8, 105, 115, 116, 58]
}

pub open spec fn direct_word() -> Seq<u8> {
    seq![100u8, 105, 114, 101, 99, 116, 58]
}

pub open spec fn notification_word() -> Seq<u8> {
    seq![58u8, 110, 111, 116, 105, 102, 105, 99, 97, 116, 105, 111, 110]
}

pub open spec fn starts(s: Seq<u8>, p: Seq<u8>) -> bool {
    p.len() <= s.len() && s.take(p.len() as int) == p
}

pub open spec fn ends(s: Seq<u8>, p: Seq<u8>) -> bool {
    p.len() <= s.len() && s.skip(s.len() - p.len()) == p
}

/// The decimal digits of `n`, without leading zeros.
pub open spec fn dec_digits(n: nat) -> Seq<u8>
    decreases n,
{
    if n < 10 {
        seq![(48 + n) as u8]
    } else {
        dec_digits(n / 10).push((48 + n % 10) as u8)
    }
}

/// An id field: one to twenty digits whose value fits in `u64`.
pub open spec fn id_field(s: Seq<u8>) -> Option<u64> {
    if 1 <= s.len() <= 20 && (forall|k: int| 0 <= k < s.len() ==> is_digit(#[trigger] s[k]))
        && dec_value(s) <= u64::MAX {
        Some(dec_value(s) as u64)
    } else {
        None
    }
}

/// The part of a channel name that names a timeline, once the namespace
/// prefix is taken off; `None` when the namespace does not match.
pub open spec fn strip_namespace(channel: Seq<u8>, ns: Seq<u8>) -> Option<Seq<u8>> {
    if ns.len() == 0 {
        Some(channel)
    } else if starts(channel, ns + colon()) {
        Some(channel.skip((ns.len() + 1) as int))
    } else {
        None
    }
}

/// What a channel name (namespace taken off) denotes.
pub enum ChannelKind {
    Known(Timeline),
    /// A hashtag timeline, by the tag's name; `true` for the local one.
    Tag(Seq<u8>, bool),
    Invalid,
}

/// How a timeline suffix is read.
pub open spec fn suffix_kind(s: Seq<u8>) -> ChannelKind {
    if s == public_word() {
        ChannelKind::Known(Timeline::Public)
    } else if s == public_word() + local_word() {
        ChannelKind::Known(Timeline::PublicLocal)
    } else if starts(s, hashtag_word()) {
        let rest = s.skip(8);
        if ends(rest, local_word()) {
            ChannelKind::Tag(rest.take(rest.len() - 6), true)
        } else {
            ChannelKind::Tag(rest, false)
        }
    } else if starts(s, list_word()) {
        match id_field(s.skip(5)) {
            Some(id) => ChannelKind::Known(Timeline::List(id)),
            None => ChannelKind::Invalid,
        }
    } else if starts(s, direct_word()) {
        match id_field(s.skip(7)) {
            Some(id) => ChannelKind::Known(Timeline::Direct(id)),
            None => ChannelKind::Invalid,
        }
    } else if ends(s, notification_word()) {
        match id_field(s.take(s.len() - 13)) {
            Some(id) => ChannelKind::Known(Timeline::UserNotification(id)),
            None => ChannelKind::Invalid,
        }
    } else {
        match id_field(s) {
            Some(id) => ChannelKind::Known(Timeline::User(id)),
            None => ChannelKind::Invalid,
        }
    }
}

/// How a channel name (namespace taken off) is read.
pub open spec fn channel_kind(name: Seq<u8>) -> ChannelKind {
    if starts(name, timeline_word()) {
        suffix_kind(name.skip(9))
    } else {
        ChannelKind::Invalid
    }
}

/// The timeline that `name` denotes, given the name-to-id tag map.
pub open spec fn timeline_of(name: Seq<u8>, ids: Map<Seq<u8>, u64>) -> Result<Timeline, ChannelError> {
    match channel_kind(name) {
        ChannelKind::Known(tl) => Ok(tl),
        ChannelKind::Tag(tag, local) => if ids.contains_key(tag) {
            if local {
                Ok(Timeline::HashtagLocal(ids[tag]))
            } else {
                Ok(Timeline::Hashtag(ids[tag]))
            }
        } else {
            Err(ChannelError::UnknownHashtag)
        },
        ChannelKind::Invalid => Err(ChannelError::BadChannel),
    }
}

/// The suffix that names `tl`, with `tag` the name of its hashtag.
pub open spec fn suffix_of(tl: Timeline, tag: Seq<u8>) -> Seq<u8> {
    match tl {
        Timeline::Public => public_word(),
        Timeline::PublicLocal => public_word() + local_word(),
        Timeline::User(id) => dec_digits(id as nat),
        Timeline::UserNotification(id) => dec_digits(id as nat) + notification_word(),
        Timeline::Hashtag(_) => hashtag_word() + tag,
        Timeline::HashtagLocal(_) => hashtag_word() + tag + local_word(),
        Timeline::List(id) => list_word() + dec_digits(id as nat),
        Timeline::Direct(id) => direct_word() + dec_digits(id as nat),
    }
}

/// The full bus channel name of `tl` under the namespace `ns`.
pub open spec fn channel_of(ns: Seq<u8>, tl: Timeline, tag: Seq<u8>) -> Seq<u8> {
    if ns.len() == 0 {
        timeline_word() + suffix_of(tl, tag)
    } else {
        ns + colon() + timeline_word() + suffix_of(tl, tag)
    }
}

fn starts_with(s: &[u8], p: &[u8]) -> (r: bool)
    ensures
        r == starts(s@, p@),
{
    if p.len() > s.len() {
        return false;
    }
    let mut i: usize = 0;
    while i < p.len()
        invariant
            p@.len() <= s@.len(),
            i <= p@.len(),
            forall|k: int| 0 <= k < i ==> s@[k] == p@[k],
        decreases p@.len() - i,
    {
        if s[i] != p[i] {
            assert(s@.take(p@.len() as int)[i as int] != p@[i as int]);
            return false;
        }
        i = i + 1;
    }
    assert(s@.take(p@.len() as int) =~= p@);
    true
}

fn ends_with(s: &[u8], p: &[u8]) -> (r: bool)
    ensures
        r == ends(s@, p@),
{
    if p.len() > s.len() {
        return false;
    }
    let off = s.len() - p.len();
    let mut i: usize = 0;
    while i < p.len()
        invariant
            off + p@.len() == s@.len(),
            s@.len() <= usize::MAX,
            i <= p@.len(),
            forall|k: int| 0 <= k < i ==> s@[off + k] == p@[k],
        decreases p@.len() - i,
    {
        if s[off + i] != p[i] {
            assert(s@.skip(off as int)[i as int] != p@[i as int]);
            return false;
        }
        i = i + 1;
    }
    assert(s@.skip(off as int) =~= p@);
    true
}

pub(crate) fn same_bytes(s: &[u8], p: &[u8]) -> (r: bool)
    ensures
        r == (s@ == p@),
{
    if s.len() != p.len() {
        return false;
    }
    let b = starts_with(s, p);
    assert(s@.take(p@.len() as int) =~= s@);
    b
}

/// Reads an id field.
fn read_id(s: &[u8]) -> (r: Option<u64>)
    ensures
        r == id_field(s@),
{
    if s.len() < 1 || s.len() > 20 {
        return None;
    }
    let mut v: u128 = 0;
    let mut i: usize = 0;
    proof {
        reveal_with_fuel(crate::wire::pow10, 21);
        crate::wire::lemma_pow10_mono(0, 20);
    }
    while i < s.len()
        invariant
            1 <= s@.len() <= 20,
            i <= s@.len(),
            forall|k: int| 0 <= k < i ==> is_digit(#[trigger] s@[k]),
            v == dec_value(s@.take(i as int)),
            v < crate::wire::pow10(i as nat),
            crate::wire::pow10(i as nat) <= crate::wire::pow10(20),
            crate::wire::pow10(20) == 100000000000000000000,
        decreases s@.len() - i,
    {
        let d = s[i];
        if d < 48 || d > 57 {
            return None;
        }
        assert(s@.take(i + 1).drop_last() =~= s@.take(i as int));
        proof {
            crate::wire::lemma_pow10_step(i as nat);
            crate::wire::lemma_pow10_mono((i + 1) as nat, 20);
        }
        assert(v * 10 + (d - 48) < crate::wire::pow10((i + 1) as nat)) by (nonlinear_arith)
            requires
                v < crate::wire::pow10(i as nat),
                crate::wire::pow10((i + 1) as nat) == 10 * crate::wire::pow10(i as nat),
                d - 48 < 10,
        ;
        v = v * 10 + (d - 48) as u128;
        i = i + 1;
    }
    assert(s@.take(i as int) =~= s@);
    if v > 0xffff_ffff_ffff_ffffu128 {
        None
    } else {
        Some(v as u64)
    }
}

/// Takes the namespace prefix off a channel name; `None` when the channel
/// is not in the namespace.
pub fn channel_matches_namespace(channel: &[u8], ns: &[u8]) -> (r: Option<Vec<u8>>)
    ensures
        match r {
            Some(v) => strip_namespace(channel@, ns@) == Some(v@),
            None => strip_namespace(channel@, ns@) is None,
        },
{
    if ns.len() == 0 {
        return Some(slice_to_vec(channel));
    }
    if channel.len() <= ns.len() || !starts_with(channel, ns) || channel[ns.len()] != 58 {
        proof {
            if starts(channel@, ns@ + colon()) {
                assert(channel@.take(ns@.len() as int) =~= ns@) by {
                    assert forall|k: int| 0 <= k < ns@.len() implies channel@[k] == ns@[k] by {
                        assert(channel@.take((ns@.len() + 1) as int)[k] == (ns@ + colon())[k]);
                    }
                }
                assert(channel@.take((ns@.len() + 1) as int)[ns@.len() as int] == (ns@ + colon())[ns@.len() as int]);
            }
        }
        return None;
    }
    assert(channel@.take((ns@.len() + 1) as int) =~= ns@ + colon()) by {
        assert forall|k: int| 0 <= k < ns@.len() implies channel@[k] == ns@[k] by {
            assert(channel@.take(ns@.len() as int)[k] == ns@[k]);
        }
    }
    Some(slice_to_vec(slice_subrange(channel, ns.len() + 1, channel.len())))
}


/// The name of the hashtag that `tl` carries, from the id-to-name map; the
/// empty name for a timeline without a tag, `None` when the map lacks it.
pub open spec fn tag_name_for(tl: Timeline, names: Map<u64, Seq<u8>>) -> Option<Seq<u8>> {
    match tl.spec_tag() {
        Some(id) => if names.contains_key(id) {
            Some(names[id])
        } else {
            None
        },
        None => Some(Seq::empty()),
    }
}

/// Reads a timeline suffix; `Tag` leaves the hashtag lookup to the caller.
fn read_suffix(s: &[u8]) -> (r: (Option<Timeline>, Option<(Vec<u8>, bool)>))
    ensures
        match suffix_kind(s@) {
            ChannelKind::Known(tl) => r.0 == Some(tl) && r.1 is None,
            ChannelKind::Tag(tag, local) => r.0 is None && (r.1 matches Some((t, l)) && t@
                == tag && l == local),
            ChannelKind::Invalid => r.0 is None && r.1 is None,
        },
{
    let public: [u8; 6] = [112, 117, 98, 108, 105, 99];
    let public_local: [u8; 12] = [112, 117, 98, 108, 105, 99, 58, 108, 111, 99, 97, 108];
    let local: [u8; 6] = [58, 108, 111, 99, 97, 108];
    let hashtag: [u8; 8] = [104, 97, 115, 104, 116, 97, 103, 58];
    let list: [u8; 5] = [108, 105, 115, 116, 58];
    let direct: [u8; 7] = [100, 105, 114, 101, 99, 116, 58];
    let notification: [u8; 13] = [58, 110, 111, 116, 105, 102, 105, 99, 97, 116, 105, 111, 110];
    assert(public@ == public_word());
    assert(public_local@ =~= public_word() + local_word());
    assert(local@ == local_word());
    assert(hashtag@ == hashtag_word());
    assert(list@ == list_word());
    assert(direct@ == direct_word());
    assert(notification@ == notification_word());
    if same_bytes(s, public.as_slice()) {
        (Some(Timeline::Public), None)
    } else if same_bytes(s, public_local.as_slice()) {
        (Some(Timeline::PublicLocal), None)
    } else if starts_with(s, hashtag.as_slice()) {
        let rest = slice_subrange(s, 8, s.len());
        assert(rest@ =~= s@.skip(8));
        if ends_with(rest, local.as_slice()) {
            let tag = slice_subrange(rest, 0, rest.len() - 6);
            assert(tag@ =~= rest@.take(rest@.len() - 6));
            (None, Some((slice_to_vec(tag), true)))
        } else {
            (None, Some((slice_to_vec(rest), false)))
        }
    } else if starts_with(s, list.as_slice()) {
        let rest = slice_subrange(s, 5, s.len());
        assert(rest@ =~= s@.skip(5));
        match read_id(rest) {
            Some(id) => (Some(Timeline::List(id)), None),
            None => (None, None),
        }
    } else if starts_with(s, direct.as_slice()) {
        let rest = slice_subrange(s, 7, s.len());
        assert(rest@ =~= s@.skip(7));
        match read_id(rest) {
            Some(id) => (Some(Timeline::Direct(id)), None),
            None => (None, None),
        }
    } else if ends_with(s, notification.as_slice()) {
        let head = slice_subrange(s, 0, s.len() - 13);
        assert(head@ =~= s@.take(s@.len() - 13));
        match read_id(head) {
            Some(id) => (Some(Timeline::UserNotification(id)), None),
            None => (None, None),
        }
    } else {
        match read_id(s) {
            Some(id) => (Some(Timeline::User(id)), None),
            None => (None, None),
        }
    }
}

/// The timeline that a channel name (namespace taken off) denotes. A
/// hashtag channel is looked up in the name-to-id cache.
pub fn timeline_from_channel(name: &[u8], ids: &mut TagIdCache) -> (r: Result<
    Timeline,
    ChannelError,
>)
    ensures
        r == timeline_of(name@, tag_ids(*old(ids))),
        tag_ids(*final(ids)) == tag_ids(*old(ids)),
        tag_id_capacity(*final(ids)) == tag_id_capacity(*old(ids)),
{
    let word: [u8; 9] = [116, 105, 109, 101, 108, 105, 110, 101, 58];
    assert(word@ == timeline_word());
    if !starts_with(name, word.as_slice()) {
        return Err(ChannelError::BadChannel);
    }
    let suffix = slice_subrange(name, 9, name.len());
    assert(suffix@ =~= name@.skip(9));
    match read_suffix(suffix) {
        (Some(tl), _) => Ok(tl),
        (None, Some((tag, local))) => match ids.get(tag.as_slice()) {
            Some(id) => if local {
                Ok(Timeline::HashtagLocal(id))
            } else {
                Ok(Timeline::Hashtag(id))
            },
            None => Err(ChannelError::UnknownHashtag),
        },
        (None, None) => Err(ChannelError::BadChannel),
    }
}

/// Appends the decimal digits of `n`.
pub fn push_decimal(out: &mut Vec<u8>, n: u128)
    ensures
        final(out)@ == old(out)@ + dec_digits(n as nat),
    decreases n,
{
    if n >= 10 {
        push_decimal(out, n / 10);
    }
    out.push(48 + (n % 10) as u8);
    assert(final(out)@ =~= old(out)@ + dec_digits(n as nat));
}

fn push_all(out: &mut Vec<u8>, s: &[u8])
    ensures
        final(out)@ == old(out)@ + s@,
{
    let mut i: usize = 0;
    while i < s.len()
        invariant
            i <= s@.len(),
            out@ == old(out)@ + s@.take(i as int),
        decreases s@.len() - i,
    {
        out.push(s[i]);
        i = i + 1;
        assert(out@ =~= old(out)@ + s@.take(i as int));
    }
    assert(s@.take(i as int) =~= s@);
}

/// The bus channel name of `tl` under the namespace `ns`. A hashtag
/// timeline takes its tag's name from the id-to-name cache; `None` when the
/// cache does not hold it.
pub fn channel_name(ns: &[u8], tl: Timeline, names: &mut TagNameCache) -> (r: Option<Vec<u8>>)
    ensures
        tag_names(*final(names)) == tag_names(*old(names)),
        tag_name_capacity(*final(names)) == tag_name_capacity(*old(names)),
        match tag_name_for(tl, tag_names(*old(names))) {
            Some(tag) => r matches Some(v) && v@ == channel_of(ns@, tl, tag),
            None => r is None,
        },
{
    let tag: Vec<u8> = match tl.tag() {
        Some(id) => match names.get(id) {
            Some(t) => t,
            None => {
                return None;
            },
        },
        None => Vec::new(),
    };
    let public: [u8; 6] = [112, 117, 98, 108, 105, 99];
    let local: [u8; 6] = [58, 108, 111, 99, 97, 108];
    let hashtag: [u8; 8] = [104, 97, 115, 104, 116, 97, 103, 58];
    let list: [u8; 5] = [108, 105, 115, 116, 58];
    let direct: [u8; 7] = [100, 105, 114, 101, 99, 116, 58];
    let notification: [u8; 13] = [58, 110, 111, 116, 105, 102, 105, 99, 97, 116, 105, 111, 110];
    let word: [u8; 9] = [116, 105, 109, 101, 108, 105, 110, 101, 58];
    let mut out: Vec<u8> = Vec::new();
    if ns.len() > 0 {
        push_all(&mut out, ns);
        out.push(58);
    }
    push_all(&mut out, word.as_slice());
    let ghost head = out@;
    match tl {
        Timeline::Public => push_all(&mut out, public.as_slice()),
        Timeline::PublicLocal => {
            push_all(&mut out, public.as_slice());
            push_all(&mut out, local.as_slice());
        },
        Timeline::User(id) => push_decimal(&mut out, id as u128),
        Timeline::UserNotification(id) => {
            push_decimal(&mut out, id as u128);
            push_all(&mut out, notification.as_slice());
        },
        Timeline::Hashtag(_) => {
            push_all(&mut out, hashtag.as_slice());
            push_all(&mut out, tag.as_slice());
        },
        Timeline::HashtagLocal(_) => {
            push_all(&mut out, hashtag.as_slice());
            push_all(&mut out, tag.as_slice());
            push_all(&mut out, local.as_slice());
        },
        Timeline::List(id) => {
            push_all(&mut out, list.as_slice());
            push_decimal(&mut out, id as u128);
        },
        Timeline::Direct(id) => {
            push_all(&mut out, direct.as_slice());
            push_decimal(&mut out, id as u128);
        },
    }
    proof {
        let t = tag_name_for(tl, tag_names(*old(names))).unwrap();
        assert(tag@ == t);
        assert(out@ =~= head + suffix_of(tl, t));
        assert(out@ =~= channel_of(ns@, tl, t));
    }
    Some(out)
}


proof fn lemma_dec_digits(n: nat, k: nat)
    requires
        n < crate::wire::pow10(k),
        k >= 1,
    ensures
        1 <= dec_digits(n).len() <= k,
        forall|i: int| 0 <= i < dec_digits(n).len() ==> is_digit(#[trigger] dec_digits(n)[i]),
        dec_value(dec_digits(n)) == n,
    decreases n,
{
    if n < 10 {
        let d = seq![(48 + n) as u8];
        assert(d.drop_last() =~= Seq::<u8>::empty());
        assert(dec_value(Seq::<u8>::empty()) == 0);
        assert(d.last() - 48 == n);
        assert(dec_value(d) == n);
    } else {
        if k <= 1 {
            reveal_with_fuel(crate::wire::pow10, 2);
        }
        assert(k >= 2);
        let m = n / 10;
        assert(m < crate::wire::pow10((k - 1) as nat)) by {
            crate::wire::lemma_pow10_step((k - 1) as nat);
        }
        lemma_dec_digits(m, (k - 1) as nat);
        let d = dec_digits(n);
        assert(d.drop_last() =~= dec_digits(m));
        assert(d.last() == (48 + n % 10) as u8);
        assert(d.last() - 48 == n % 10);
        assert(m * 10 + n % 10 == n);
        assert(dec_value(d) == dec_value(dec_digits(m)) * 10 + (d.last() - 48) as nat);
    }
}

/// An id written in decimal reads back as the same id.
proof fn lemma_id_round_trip(id: u64)
    ensures
        id_field(dec_digits(id as nat)) == Some(id),
        is_digit(dec_digits(id as nat)[0]),
        is_digit(dec_digits(id as nat).last()),
{
    reveal_with_fuel(crate::wire::pow10, 21);
    assert(crate::wire::pow10(20) == 100000000000000000000);
    lemma_dec_digits(id as nat, 20);
}

/// The name written for a timeline reads back as that timeline, given a
/// tag map that holds its hashtag (whose name has no colon).
pub proof fn lemma_channel_name_round_trip(tl: Timeline, tag: Seq<u8>, ids: Map<Seq<u8>, u64>)
    requires
        forall|i: int| 0 <= i < tag.len() ==> tag[i] != 58u8,
        tl.spec_tag() matches Some(id) ==> ids.contains_key(tag) && ids[tag] == id,
    ensures
        timeline_of(timeline_word() + suffix_of(tl, tag), ids) == Ok::<Timeline, ChannelError>(tl),
{
    let name = timeline_word() + suffix_of(tl, tag);
    let s = suffix_of(tl, tag);
    assert(name.take(9) =~= timeline_word());
    assert(name.skip(9) =~= s);
    match tl {
        Timeline::Public => {},
        Timeline::PublicLocal => {
            assert(s.len() != public_word().len());
        },
        Timeline::User(id) => {
            lemma_id_round_trip(id);
            let d = dec_digits(id as nat);
            assert(s[0] == d[0]);
            assert(s != public_word() && s != public_word() + local_word()) by {
                assert(public_word()[0] == 112u8);
                assert((public_word() + local_word())[0] == 112u8);
            }
            if starts(s, hashtag_word()) { assert(s.take(8)[0] == hashtag_word()[0]); }
            if starts(s, list_word()) { assert(s.take(5)[0] == list_word()[0]); }
            if starts(s, direct_word()) { assert(s.take(7)[0] == direct_word()[0]); }
            if ends(s, notification_word()) {
                assert(s.skip(s.len() - 13)[12] == notification_word()[12]);
                assert(s[s.len() - 1] == d.last());
            }
        },
        Timeline::UserNotification(id) => {
            lemma_id_round_trip(id);
            let d = dec_digits(id as nat);
            assert(s[0] == d[0]);
            assert(s != public_word() && s != public_word() + local_word()) by {
                assert(public_word()[0] == 112u8);
                assert((public_word() + local_word())[0] == 112u8);
            }
            if starts(s, hashtag_word()) { assert(s.take(8)[0] == hashtag_word()[0]); }
            if starts(s, list_word()) { assert(s.take(5)[0] == list_word()[0]); }
            if starts(s, direct_word()) { assert(s.take(7)[0] == direct_word()[0]); }
            assert(s.skip(s.len() - 13) =~= notification_word());
            assert(s.take(s.len() - 13) =~= d);
        },
        Timeline::Hashtag(_) => {
            assert(s != public_word() && s != public_word() + local_word()) by {
                assert(s[0] == 104u8);
                assert(public_word()[0] == 112u8);
                assert((public_word() + local_word())[0] == 112u8);
            }
            assert(s.take(8) =~= hashtag_word());
            assert(s.skip(8) =~= tag);
            if ends(tag, local_word()) {
                assert(tag.skip(tag.len() - 6)[0] == local_word()[0]);
            }
        },
        Timeline::HashtagLocal(_) => {
            assert(s != public_word() && s != public_word() + local_word()) by {
                assert(s[0] == 104u8);
                assert(public_word()[0] == 112u8);
                assert((public_word() + local_word())[0] == 112u8);
            }
            assert(s.take(8) =~= hashtag_word());
            let rest = s.skip(8);
            assert(rest =~= tag + local_word());
            assert(rest.skip(rest.len() - 6) =~= local_word());
            assert(rest.take(rest.len() - 6) =~= tag);
        },
        Timeline::List(id) => {
            lemma_id_round_trip(id);
            assert(s != public_word() && s != public_word() + local_word()) by {
                assert(s[0] == 108u8);
                assert(public_word()[0] == 112u8);
                assert((public_word() + local_word())[0] == 112u8);
            }
            if starts(s, hashtag_word()) { assert(s.take(8)[0] == hashtag_word()[0]); }
            assert(s.take(5) =~= list_word());
            assert(s.skip(5) =~= dec_digits(id as nat));
        },
        Timeline::Direct(id) => {
            lemma_id_round_trip(id);
            assert(s != public_word() && s != public_word() + local_word()) by {
                assert(s[0] == 100u8);
                assert(public_word()[0] == 112u8);
                assert((public_word() + local_word())[0] == 112u8);
            }
            if starts(s, hashtag_word()) { assert(s.take(8)[0] == hashtag_word()[0]); }
            if starts(s, list_word()) { assert(s.take(5)[0] == list_word()[0]); }
            assert(s.take(7) =~= direct_word());
            assert(s.skip(7) =~= dec_digits(id as nat));
        },
    }
}

} // verus!
