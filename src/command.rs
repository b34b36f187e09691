//! Commands to the bus, encoded as arrays of bulk strings.
use vstd::prelude::*;
use crate::cache::{TagNameCache, tag_name_capacity, tag_names};
use crate::channel::{channel_name, channel_of, dec_digits, push_decimal, tag_name_for};
use crate::timeline::Timeline;

verus! {

#[derive(Clone, Copy, Debug, PartialEq, Eq, Structural)]
pub enum CommandKind {
    Subscribe,
    Unsubscribe,
    Ping,
}

pub open spec fn crlf() -> Seq<u8> {
    seq![13u8, 10]
}

pub open spec fn command_word(k: CommandKind) -> Seq<u8> {
    match k {
        CommandKind::Subscribe => seq![83u8, 85, 66, 83, 67, 82, 73, 66, 69],
        CommandKind::Unsubscribe => seq![85u8, 78, 83, 85, 66, 83, 67, 82, 73, 66, 69],
        CommandKind::Ping => seq![80u8, 73, 78, 71],
    }
}

/// `s` as a bulk string.
pub open spec fn bulk(s: Seq<u8>) -> Seq<u8> {
    seq![36u8] + dec_digits(s.len()) + crlf() + s + crlf()
}

/// The bulk strings of `ss`, one after another.
pub open spec fn bulks(ss: Seq<Seq<u8>>) -> Seq<u8>
    decreases ss.len(),
{
    if ss.len() == 0 {
        Seq::empty()
    } else {
        bulks(ss.drop_last()) + bulk(ss.last())
    }
}

/// The arguments that a command carries: the channels, none for `PING`.
pub open spec fn command_args(k: CommandKind, channels: Seq<Seq<u8>>) -> Seq<Seq<u8>> {
    if k == CommandKind::Ping {
        Seq::empty()
    } else {
        channels
    }
}

/// The bytes of the command `k` on `channels`.
pub open spec fn command_bytes(k: CommandKind, channels: Seq<Seq<u8>>) -> Seq<u8> {
    let args = command_args(k, channels);
    seq![42u8] + dec_digits(args.len() + 1) + crlf() + bulk(command_word(k)) + bulks(args)
}

fn push_bulk(out: &mut Vec<u8>, s: &[u8])
    ensures
        final(out)@ == old(out)@ + bulk(s@),
{
    out.push(36);
    push_decimal(out, s.len() as u128);
    out.push(13);
    out.push(10);
    let mut i: usize = 0;
    let ghost head = out@;
    while i < s.len()
        invariant
            i <= s@.len(),
            out@ == head + s@.take(i as int),
        decreases s@.len() - i,
    {
        out.push(s[i]);
        i = i + 1;
        assert(out@ =~= head + s@.take(i as int));
    }
    out.push(13);
    out.push(10);
    assert(s@.take(i as int) =~= s@);
    assert(final(out)@ =~= old(out)@ + bulk(s@));
}

/// Encodes the command `k` on the channel names `channels`.
pub fn encode_command(k: CommandKind, channels: &Vec<Vec<u8>>) -> (r: Vec<u8>)
    ensures
        r@ == command_bytes(k, channels@.map_values(|c: Vec<u8>| c@)),
{
    let ghost chans = channels@.map_values(|c: Vec<u8>| c@);
    let n: usize = if k == CommandKind::Ping {
        0
    } else {
        channels.len()
    };
    let word: Vec<u8> = match k {
        CommandKind::Subscribe => vec![83u8, 85, 66, 83, 67, 82, 73, 66, 69],
        CommandKind::Unsubscribe => vec![85u8, 78, 83, 85, 66, 83, 67, 82, 73, 66, 69],
        CommandKind::Ping => vec![80u8, 73, 78, 71],
    };
    assert(word@ == command_word(k));
    let mut out: Vec<u8> = Vec::new();
    out.push(42);
    push_decimal(&mut out, n as u128 + 1);
    out.push(13);
    out.push(10);
    push_bulk(&mut out, word.as_slice());
    let ghost head = out@;
    let mut i: usize = 0;
    while i < n
        invariant
            n == command_args(k, chans).len(),
            n <= channels@.len(),
            i <= n,
            chans == channels@.map_values(|c: Vec<u8>| c@),
            out@ == head + bulks(command_args(k, chans).take(i as int)),
        decreases n - i,
    {
        push_bulk(&mut out, channels[i].as_slice());
        proof {
            let a = command_args(k, chans);
            assert(a.take(i + 1).drop_last() =~= a.take(i as int));
            assert(a[i as int] == channels@[i as int]@);
        }
        i = i + 1;
        assert(out@ =~= head + bulks(command_args(k, chans).take(i as int)));
    }
    assert(command_args(k, chans).take(i as int) =~= command_args(k, chans));
    assert(out@ =~= command_bytes(k, chans));
    out
}

/// The channel names of `tls` under `ns`, given the id-to-name tag map.
pub open spec fn channels_for(ns: Seq<u8>, tls: Seq<Timeline>, names: Map<u64, Seq<u8>>) -> Seq<Seq<u8>> {
    tls.map_values(|tl: Timeline| channel_of(ns, tl, tag_name_for(tl, names).unwrap()))
}

/// Every hashtag of `tls` has its name in the map.
pub open spec fn all_named(tls: Seq<Timeline>, names: Map<u64, Seq<u8>>) -> bool {
    forall|i: int| 0 <= i < tls.len() ==> (#[trigger] tag_name_for(tls[i], names)) is Some
}

/// Encodes the command `k` on the channels of `tls` under the namespace
/// `ns`; `None` when a hashtag's name is not in the cache.
pub fn command_for(k: CommandKind, tls: &Vec<Timeline>, ns: &[u8], names: &mut TagNameCache) -> (r: Option<Vec<u8>>)
    ensures
        tag_names(*final(names)) == tag_names(*old(names)),
        tag_name_capacity(*final(names)) == tag_name_capacity(*old(names)),
        match r {
            Some(v) => all_named(tls@, tag_names(*old(names))) && v@ == command_bytes(
                k,
                channels_for(ns@, tls@, tag_names(*old(names))),
            ),
            None => !all_named(tls@, tag_names(*old(names))),
        },
{
    let ghost m = tag_names(*old(names));
    let mut chans: Vec<Vec<u8>> = Vec::new();
    let mut i: usize = 0;
    let mut missing = false;
    while !missing && i < tls.len()
        invariant
            i <= tls@.len(),
            tag_names(*names) == m,
            tag_name_capacity(*names) == tag_name_capacity(*old(names)),
            missing ==> i < tls@.len() && tag_name_for(tls@[i as int], m) is None,
            chans@.len() == i,
            forall|j: int| 0 <= j < i ==> (#[trigger] tag_name_for(tls@[j], m)) is Some,
            chans@.len() == i,
            forall|j: int| 0 <= j < i ==> (#[trigger] chans@[j])@ == channel_of(ns@, tls@[j], tag_name_for(tls@[j], m).unwrap()),
        decreases tls@.len() - i + (if missing { 0int } else { 1int }),
    {
        match channel_name(ns, tls[i], names) {
            Some(c) => {
                chans.push(c);
                i = i + 1;
            },
            None => {
                missing = true;
            },
        }
    }
    if missing {
        return None;
    }
    assert(chans@.map_values(|c: Vec<u8>| c@) =~= channels_for(ns@, tls@, m));
    Some(encode_command(k, &chans))
}

} // verus!
