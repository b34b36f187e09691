//! The manager: owns the read buffer, the subscription table and the tag
//! caches, and decides what happens to each frame from the bus.
//!
//! It does no I/O. The caller feeds it the bytes read from the bus, sends
//! the commands it returns, tells it which client channels are ready, and
//! delivers the events it hands out.
use vstd::prelude::*;
use vstd::slice::slice_to_vec;
use crate::buffer::InputBuffer;
use crate::cache::{TagIdCache, TagNameCache, tag_ids, tag_names};
use crate::channel::{
    ChannelError,
    channel_matches_namespace,
    channel_of,
    strip_namespace,
    tag_name_for,
    timeline_from_channel,
    timeline_of,
};
use crate::command::{CommandKind, command_bytes, command_for};
use crate::event::{
    DecodeError,
    Event,
    EventKind,
    event_from,
    event_from_json,
    json_member_text,
    json_str_member,
};
use crate::table::{SubscriptionTable, follows, has_id, ids_of, without};
use crate::stream::lemma_complete_frame_is_stable;
use crate::timeline::Timeline;
use crate::wire::{
    ParseOutcome,
    Step,
    delivery_channel,
    delivery_payload,
    frame,
    is_delivery,
    parse_frame,
    resync_len,
    resync_skip,
};

verus! {

/// Seconds between two ping sweeps.
pub const PING_INTERVAL_SECS: u64 = 30;

/// Whether a ping sweep is due, `elapsed_ms` milliseconds after the last.
pub fn ping_due(elapsed_ms: u64) -> (r: bool)
    ensures
        r == (elapsed_ms > PING_INTERVAL_SECS * 1000),
{
    elapsed_ms > PING_INTERVAL_SECS * 1000
}

/// What one step of the parse loop did.
pub enum Polled {
    /// An event for `timeline`, to be sent to each of `channels`; the frame
    /// is consumed.
    Deliver { timeline: Timeline, event: Event, channels: Vec<u32> },
    /// A channel of `timeline` is not ready: the frame stays unread and will
    /// be read again on the next step.
    Backpressure { timeline: Timeline },
    /// A frame that is not a delivery, or a delivery on a channel outside
    /// the namespace; consumed.
    Skipped,
    /// A delivery whose channel name gave no timeline; consumed.
    BadChannel(ChannelError),
    /// A delivery whose payload gave no event; consumed.
    BadEvent(DecodeError),
    /// The window held no frame; bytes up to the next plausible frame start
    /// were skipped.
    Malformed,
    /// More bytes are needed; the unread bytes were moved to the front.
    NeedMore,
}

/// What a step does with a complete delivery frame, in the model.
pub enum DeliveryModel {
    Skip,
    BadChannel(ChannelError),
    BadEvent(DecodeError),
    Deliver(Timeline, EventKind, Seq<u8>, Seq<u32>),
    Backpressure(Timeline),
}

/// Every channel of `chans` is among the ready ones.
pub open spec fn all_ready(chans: Seq<u32>, ready: Seq<u32>) -> bool {
    forall|i: int| 0 <= i < chans.len() ==> ready.contains(#[trigger] chans[i])
}

/// What happens to the delivery frame at the start of `w`.
pub open spec fn delivery_model(
    w: Seq<u8>,
    ns: Seq<u8>,
    ids: Map<Seq<u8>, u64>,
    table: Seq<(u32, Timeline)>,
    ready: Seq<u32>,
) -> DeliveryModel {
    match strip_namespace(delivery_channel(w), ns) {
        None => DeliveryModel::Skip,
        Some(name) => match timeline_of(name, ids) {
            Err(e) => DeliveryModel::BadChannel(e),
            Ok(tl) => {
                let p = delivery_payload(w);
                match event_from(json_str_member(p, "event"@), json_member_text(p, "payload"@)) {
                    Err(e) => DeliveryModel::BadEvent(e),
                    Ok((k, body)) => if all_ready(ids_of(table, tl), ready) {
                        DeliveryModel::Deliver(tl, k, body, ids_of(table, tl))
                    } else {
                        DeliveryModel::Backpressure(tl)
                    },
                }
            },
        },
    }
}

pub open spec fn polled_is(r: Polled, m: DeliveryModel) -> bool {
    match (r, m) {
        (Polled::Skipped, DeliveryModel::Skip) => true,
        (Polled::BadChannel(a), DeliveryModel::BadChannel(b)) => a == b,
        (Polled::BadEvent(a), DeliveryModel::BadEvent(b)) => a == b,
        (Polled::Deliver { timeline, event, channels }, DeliveryModel::Deliver(tl, k, body, chans)) =>
            timeline == tl && event.kind == k && event.payload@ == body && channels@ == chans,
        (Polled::Backpressure { timeline }, DeliveryModel::Backpressure(tl)) => timeline == tl,
        _ => false,
    }
}

/// The unread window after one step on the window `w`.
pub open spec fn window_after(
    w: Seq<u8>,
    ns: Seq<u8>,
    ids: Map<Seq<u8>, u64>,
    table: Seq<(u32, Timeline)>,
    ready: Seq<u32>,
) -> Seq<u8> {
    match frame(w) {
        Step::Short => w,
        Step::Bad => w.skip(resync_skip(w) as int),
        Step::Done(n) => if is_delivery(w) && delivery_model(w, ns, ids, table, ready) is Backpressure {
            w
        } else {
            w.skip(n as int)
        },
    }
}

/// The result of one step on the window `w`.
pub open spec fn step_result_is(
    r: Polled,
    w: Seq<u8>,
    ns: Seq<u8>,
    ids: Map<Seq<u8>, u64>,
    table: Seq<(u32, Timeline)>,
    ready: Seq<u32>,
) -> bool {
    match frame(w) {
        Step::Short => r is NeedMore,
        Step::Bad => if resync_skip(w) > 0 {
            r is Malformed
        } else {
            r is NeedMore
        },
        Step::Done(n) => if is_delivery(w) {
            polled_is(r, delivery_model(w, ns, ids, table, ready))
        } else {
            r is Skipped
        },
    }
}

/// Why a subscription was refused.
#[derive(Debug, PartialEq, Eq, Structural)]
pub enum SubscribeError {
    /// Every channel id has been handed out.
    ChannelIdsExhausted,
}

/// A new channel, and the command to send to the bus if there is one.
pub struct Subscribed {
    pub channel: u32,
    pub command: Option<Vec<u8>>,
    /// The channel is the timeline's first but the name of its hashtag is
    /// unknown, so no `SUBSCRIBE` could be written.
    pub unknown_tag: bool,
}

/// Channels removed by a ping sweep and what follows for the bus.
pub struct Swept {
    /// Timelines that lost their last channel, each once.
    pub emptied: Vec<Timeline>,
    /// The `UNSUBSCRIBE` command for them, when there are any and their
    /// channel names are known.
    pub command: Option<Vec<u8>>,
    /// Some emptied timeline's hashtag name is unknown, so no
    /// `UNSUBSCRIBE` could be written.
    pub unknown_tag: bool,
}

pub struct Manager {
    namespace: Vec<u8>,
    input: InputBuffer,
    table: SubscriptionTable,
    next_channel: u32,
    tag_id_cache: TagIdCache,
    tag_name_cache: TagNameCache,
}

impl Manager {
    pub closed spec fn spec_namespace(&self) -> Seq<u8> {
        self.namespace@
    }

    pub closed spec fn spec_input(&self) -> InputBuffer {
        self.input
    }

    /// The subscribed channels with their timelines, in subscription order.
    pub closed spec fn spec_table(&self) -> Seq<(u32, Timeline)> {
        self.table@
    }

    /// The id that the next channel gets.
    pub closed spec fn spec_next_channel(&self) -> u32 {
        self.next_channel
    }

    pub closed spec fn spec_tag_ids(&self) -> Map<Seq<u8>, u64> {
        tag_ids(self.tag_id_cache)
    }

    pub closed spec fn spec_tag_names(&self) -> Map<u64, Seq<u8>> {
        tag_names(self.tag_name_cache)
    }

    /// How many entries the name-to-id tag cache holds at most.
    pub closed spec fn spec_tag_id_capacity(&self) -> nat {
        crate::cache::tag_id_capacity(self.tag_id_cache)
    }

    /// How many entries the id-to-name tag cache holds at most.
    pub closed spec fn spec_tag_name_capacity(&self) -> nat {
        crate::cache::tag_name_capacity(self.tag_name_cache)
    }

    /// The read buffer is well formed, channel ids are unique, and every
    /// id handed out is below the next one.
    pub open spec fn wf(&self) -> bool {
        &&& self.spec_input().wf()
        &&& crate::table::ids_unique(self.spec_table())
        &&& forall|i: int| 0 <= i < self.spec_table().len() ==> (#[trigger] self.spec_table()[i]).0 < self.spec_next_channel()
    }

    /// The unread bytes.
    pub open spec fn unread(&self) -> Seq<u8> {
        self.spec_input().unread()
    }

    /// A manager with an empty table, empty caches of `cache_size` entries
    /// and a read buffer of `capacity` bytes.
    pub fn new(namespace: Vec<u8>, capacity: usize, cache_size: usize) -> (r: Self)
        requires
            cache_size > 0,
        ensures
            r.wf(),
            r.spec_namespace() == namespace@,
            r.spec_table() == Seq::<(u32, Timeline)>::empty(),
            r.unread() == Seq::<u8>::empty(),
            r.spec_input().spec_read_start() == 0,
            r.spec_input().spec_write_end() == 0,
            r.spec_input().spec_bytes().len() == capacity,
            r.spec_next_channel() == 0,
            r.spec_tag_ids().is_empty(),
            r.spec_tag_names().is_empty(),
            r.spec_tag_id_capacity() == cache_size,
            r.spec_tag_name_capacity() == cache_size,
    {
        Manager {
            namespace,
            input: InputBuffer::new(capacity),
            table: SubscriptionTable::new(),
            next_channel: 0,
            tag_id_cache: TagIdCache::new(cache_size),
            tag_name_cache: TagNameCache::new(cache_size),
        }
    }

    pub fn namespace(&self) -> (r: &[u8])
        ensures
            r@ == self.spec_namespace(),
    {
        self.namespace.as_slice()
    }

    /// Appends bytes read from the bus.
    pub fn receive(&mut self, data: &[u8])
        requires
            old(self).wf(),
            old(self).spec_input().spec_bytes().len() + old(self).unread().len() + data@.len()
                <= usize::MAX / 2,
        ensures
            final(self).wf(),
            final(self).unread() == old(self).unread() + data@,
            final(self).spec_table() == old(self).spec_table(),
            final(self).spec_namespace() == old(self).spec_namespace(),
            final(self).spec_next_channel() == old(self).spec_next_channel(),
            final(self).spec_tag_ids() == old(self).spec_tag_ids(),
            final(self).spec_tag_names() == old(self).spec_tag_names(),
    {
        self.input.receive(data);
    }

    /// Adds a client channel on `tl`. When `hashtag` names the timeline's
    /// tag, both tag caches learn the pair first. The channel gets the next
    /// id; when it is the timeline's first, the `SUBSCRIBE` command for it
    /// is returned (unless the tag's name is unknown).
    pub fn subscribe(&mut self, tl: Timeline, hashtag: Option<Vec<u8>>) -> (r: Result<Subscribed, SubscribeError>)
        requires
            old(self).wf(),
        ensures
            final(self).wf(),
            final(self).unread() == old(self).unread(),
            final(self).spec_namespace() == old(self).spec_namespace(),
            old(self).spec_next_channel() == u32::MAX ==> r == Err::<Subscribed, SubscribeError>(
                SubscribeError::ChannelIdsExhausted,
            ) && final(self).spec_table() == old(self).spec_table(),
            old(self).spec_next_channel() < u32::MAX ==> (r matches Ok(s) && s.channel == old(
                self,
            ).spec_next_channel() && final(self).spec_next_channel() == s.channel + 1
                && final(self).spec_table() == old(self).spec_table().push((s.channel, tl))
                && (s.unknown_tag <==> (!follows(old(self).spec_table(), tl) && tag_name_for(
                tl,
                final(self).spec_tag_names(),
            ) is None))
                && (s.command is Some <==> (!follows(old(self).spec_table(), tl) && tag_name_for(
                tl,
                final(self).spec_tag_names(),
            ) is Some)) && (s.command matches Some(c) ==> c@ == command_bytes(
                CommandKind::Subscribe,
                seq![
                    channel_of(
                        old(self).spec_namespace(),
                        tl,
                        tag_name_for(tl, final(self).spec_tag_names()).unwrap(),
                    ),
                ],
            ))),
            (hashtag is Some && tl.spec_tag() is Some) ==> final(self).spec_tag_ids().contains_key(
                hashtag.unwrap()@,
            ) && final(self).spec_tag_ids()[hashtag.unwrap()@] == tl.spec_tag().unwrap()
                && final(self).spec_tag_names().contains_key(tl.spec_tag().unwrap())
                && final(self).spec_tag_names()[tl.spec_tag().unwrap()] == hashtag.unwrap()@,
            !(hashtag is Some && tl.spec_tag() is Some) ==> final(self).spec_tag_ids() == old(
                self,
            ).spec_tag_ids() && final(self).spec_tag_names() == old(self).spec_tag_names(),
            final(self).spec_tag_id_capacity() == old(self).spec_tag_id_capacity(),
            final(self).spec_tag_name_capacity() == old(self).spec_tag_name_capacity(),
    {
        match (hashtag, tl.tag()) {
            (Some(name), Some(id)) => {
                let copy = slice_to_vec(name.as_slice());
                self.tag_id_cache.put(copy, id);
                self.tag_name_cache.put(id, name);
            },
            _ => {},
        }
        if self.next_channel == u32::MAX {
            return Err(SubscribeError::ChannelIdsExhausted);
        }
        let id = self.next_channel;
        let first = self.table.insert(tl, id);
        self.next_channel = id + 1;
        let command = if first == crate::table::Inserted::FirstForTimeline {
            let tls = vec![tl];
            let c = command_for(CommandKind::Subscribe, &tls, self.namespace.as_slice(), &mut self.tag_name_cache);
            proof {
                let m = tag_names(self.tag_name_cache);
                assert(tls@ == seq![tl]);
                if c is Some {
                    assert(tag_name_for(tls@[0], m) is Some);
                    assert(crate::command::channels_for(self.namespace@, tls@, m) =~= seq![
                        channel_of(self.namespace@, tl, tag_name_for(tl, m).unwrap()),
                    ]);
                } else {
                    if tag_name_for(tl, m) is Some {
                        assert(crate::command::all_named(tls@, m));
                    }
                }
            }
            c
        } else {
            None
        };
        let unknown_tag = first == crate::table::Inserted::FirstForTimeline && command.is_none();
        Ok(Subscribed { channel: id, command, unknown_tag })
    }

    /// One step of the parse loop on the unread window, given the ids of
    /// the client channels that can take an event now. A delivery is
    /// consumed only when every channel of its timeline is ready.
    pub fn poll(&mut self, ready: &Vec<u32>) -> (r: Polled)
        requires
            old(self).wf(),
        ensures
            final(self).wf(),
            step_result_is(r, old(self).unread(), old(self).spec_namespace(), old(self).spec_tag_ids(), old(self).spec_table(), ready@),
            final(self).unread() == window_after(old(self).unread(), old(self).spec_namespace(), old(self).spec_tag_ids(), old(self).spec_table(), ready@),
            r is NeedMore ==> final(self).spec_input().spec_read_start() == 0,
            final(self).spec_table() == old(self).spec_table(),
            final(self).spec_namespace() == old(self).spec_namespace(),
            final(self).spec_next_channel() == old(self).spec_next_channel(),
            final(self).spec_tag_ids() == old(self).spec_tag_ids(),
            final(self).spec_tag_names() == old(self).spec_tag_names(),
    {
        let ghost w = self.input.unread();
        let outcome = parse_frame(self.input.window());
        match outcome {
            ParseOutcome::Incomplete => {
                self.input.compact();
                Polled::NeedMore
            },
            ParseOutcome::Malformed => {
                let k = resync_len(self.input.window());
                if k == 0 {
                    self.input.compact();
                    assert(w.skip(0) =~= w);
                    Polled::NeedMore
                } else {
                    self.input.advance(k);
                    Polled::Malformed
                }
            },
            ParseOutcome::NonMessage { consumed } => {
                self.input.advance(consumed);
                Polled::Skipped
            },
            ParseOutcome::Message { channel, payload, consumed } => {
                let name = match channel_matches_namespace(channel.as_slice(), self.namespace.as_slice()) {
                    Some(n) => n,
                    None => {
                        self.input.advance(consumed);
                        return Polled::Skipped;
                    },
                };
                let tl = match timeline_from_channel(name.as_slice(), &mut self.tag_id_cache) {
                    Ok(tl) => tl,
                    Err(e) => {
                        self.input.advance(consumed);
                        return Polled::BadChannel(e);
                    },
                };
                let event = match event_from_json(payload.as_slice()) {
                    Ok(ev) => ev,
                    Err(e) => {
                        self.input.advance(consumed);
                        return Polled::BadEvent(e);
                    },
                };
                let channels = self.table.channels_of(tl);
                if all_in(&channels, ready) {
                    self.input.advance(consumed);
                    Polled::Deliver { timeline: tl, event, channels }
                } else {
                    Polled::Backpressure { timeline: tl }
                }
            },
        }
    }

    /// Removes the channels whose ids `dead` holds (those whose ping could
    /// not be sent), and returns the timelines left without a channel with
    /// the `UNSUBSCRIBE` command for them.
    pub fn ping_sweep(&mut self, dead: &Vec<u32>) -> (r: Swept)
        requires
            old(self).wf(),
        ensures
            final(self).wf(),
            final(self).spec_table() == without(old(self).spec_table(), dead@),
            r.emptied@.no_duplicates(),
            forall|tl: Timeline|
                r.emptied@.contains(tl) <==> (follows(old(self).spec_table(), tl) && !follows(
                    final(self).spec_table(),
                    tl,
                )),
            r.emptied@.len() == 0 ==> r.command is None,
            r.command matches Some(c) ==> c@ == command_bytes(
                CommandKind::Unsubscribe,
                crate::command::channels_for(old(self).spec_namespace(), r.emptied@, old(self).spec_tag_names()),
            ),
            r.emptied@.len() > 0 && crate::command::all_named(r.emptied@, old(self).spec_tag_names()) ==> r.command is Some,
            r.unknown_tag <==> (r.emptied@.len() > 0 && !crate::command::all_named(r.emptied@, old(self).spec_tag_names())),
            final(self).unread() == old(self).unread(),
            final(self).spec_namespace() == old(self).spec_namespace(),
            final(self).spec_next_channel() == old(self).spec_next_channel(),
            final(self).spec_tag_ids() == old(self).spec_tag_ids(),
            final(self).spec_tag_names() == old(self).spec_tag_names(),
    {
        let ghost t0 = self.table@;
        let emptied = self.table.sweep(dead);
        proof {
            assert forall|i: int| 0 <= i < self.table@.len() implies (#[trigger] self.table@[i]).0 < self.next_channel by {
                let p = self.table@[i];
                assert(t0.contains(p));
            }
        }
        if emptied.len() == 0 {
            return Swept { emptied, command: None, unknown_tag: false };
        }
        let command = command_for(CommandKind::Unsubscribe, &emptied, self.namespace.as_slice(), &mut self.tag_name_cache);
        let unknown_tag = command.is_none();
        Swept { emptied, command, unknown_tag }
    }

    /// Removes the channel `id` from `tl` at the client's request. When it
    /// was the timeline's last channel, the `UNSUBSCRIBE` command for the
    /// timeline is returned (unless the tag's name is unknown).
    pub fn unsubscribe(&mut self, tl: Timeline, id: u32) -> (r: Option<Vec<u8>>)
        requires
            old(self).wf(),
        ensures
            final(self).wf(),
            !old(self).spec_table().contains((id, tl)) ==> r is None && final(self).spec_table() == old(self).spec_table(),
            old(self).spec_table().contains((id, tl)) ==> final(self).spec_table() == without(old(self).spec_table(), seq![id]),
            r is Some <==> (old(self).spec_table().contains((id, tl)) && !follows(final(self).spec_table(), tl)
                && tag_name_for(tl, old(self).spec_tag_names()) is Some),
            r matches Some(c) ==> c@ == command_bytes(
                CommandKind::Unsubscribe,
                seq![channel_of(old(self).spec_namespace(), tl, tag_name_for(tl, old(self).spec_tag_names()).unwrap())],
            ),
            final(self).unread() == old(self).unread(),
            final(self).spec_namespace() == old(self).spec_namespace(),
            final(self).spec_next_channel() == old(self).spec_next_channel(),
            final(self).spec_tag_ids() == old(self).spec_tag_ids(),
            final(self).spec_tag_names() == old(self).spec_tag_names(),
    {
        let ghost t0 = self.table@;
        let removed = self.table.remove_channel(tl, id);
        proof {
            assert forall|i: int| 0 <= i < self.table@.len() implies (#[trigger] self.table@[i]).0 < self.next_channel by {
                if t0.contains((id, tl)) {
                    lemma_without_subset(t0, seq![id], i);
                }
            }
        }
        if removed != crate::table::Removed::LastForTimeline {
            return None;
        }
        let tls = vec![tl];
        let c = command_for(CommandKind::Unsubscribe, &tls, self.namespace.as_slice(), &mut self.tag_name_cache);
        proof {
            let m = tag_names(self.tag_name_cache);
            assert(tls@ == seq![tl]);
            if c is Some {
                assert(tag_name_for(tls@[0], m) is Some);
                assert(crate::command::channels_for(self.namespace@, tls@, m) =~= seq![
                    channel_of(self.namespace@, tl, tag_name_for(tl, m).unwrap()),
                ]);
            } else {
                if tag_name_for(tl, m) is Some {
                    assert(crate::command::all_named(tls@, m));
                }
            }
        }
        c
    }

    /// The `UNSUBSCRIBE` command for every timeline in the table, sent when
    /// the manager shuts down; `None` when the table is empty or a tag's
    /// name is unknown.
    pub fn unsubscribe_all(&mut self) -> (r: Option<Vec<u8>>)
        requires
            old(self).wf(),
        ensures
            final(self).wf(),
            final(self).spec_table() == old(self).spec_table(),
            final(self).unread() == old(self).unread(),
            final(self).spec_namespace() == old(self).spec_namespace(),
            final(self).spec_next_channel() == old(self).spec_next_channel(),
            final(self).spec_tag_ids() == old(self).spec_tag_ids(),
            final(self).spec_tag_names() == old(self).spec_tag_names(),
            old(self).spec_table().len() == 0 ==> r is None,
            (old(self).spec_table().len() > 0 && (forall|tl: Timeline|
                follows(old(self).spec_table(), tl) ==> (#[trigger] tag_name_for(tl, old(self).spec_tag_names())) is Some))
                ==> r is Some,
            r matches Some(c) ==> exists|tls: Seq<Timeline>|
                tls.no_duplicates() && (forall|tl: Timeline| #[trigger] tls.contains(tl) <==> follows(old(self).spec_table(), tl))
                    && c@ == command_bytes(
                    CommandKind::Unsubscribe,
                    crate::command::channels_for(old(self).spec_namespace(), tls, old(self).spec_tag_names()),
                ),
    {
        let tls = self.table.timelines();
        proof {
            if self.table@.len() > 0 {
                assert(follows(self.table@, self.table@[0].1));
                assert(tls@.contains(self.table@[0].1));
            }
        }
        if tls.len() == 0 {
            return None;
        }
        assert(tls@.contains(tls@[0]));
        assert forall|i: int| 0 <= i < tls@.len() implies #[trigger] tls@.contains(tls@[i]) by {}
        command_for(CommandKind::Unsubscribe, &tls, self.namespace.as_slice(), &mut self.tag_name_cache)
    }

    /// The ids of the channels that follow `tl`, in subscription order.
    pub fn channels_of(&self, tl: Timeline) -> (r: Vec<u32>)
        ensures
            r@ == ids_of(self.spec_table(), tl),
    {
        self.table.channels_of(tl)
    }

    /// The admin listing: one line per timeline, right-aligned on the
    /// widest, with its number of channels, then a closing note.
    pub fn list(&self) -> (r: Vec<u8>)
        ensures
            exists|tls: Seq<Timeline>|
                tls.no_duplicates() && (forall|tl: Timeline| #[trigger] tls.contains(tl) <==> follows(self.spec_table(), tl))
                    && r@ == crate::report::listing(tls, self.spec_table()),
    {
        crate::report::list_table(&self.table)
    }

    /// Size of the read buffer in bytes.
    pub fn capacity(&self) -> (r: usize)
        ensures
            r == self.spec_input().spec_bytes().len(),
    {
        self.input.capacity()
    }

    /// Number of unread bytes.
    pub fn unread_len(&self) -> (r: usize)
        requires
            self.wf(),
        ensures
            r == self.unread().len(),
    {
        self.input.unread_len()
    }

    /// Number of live channels over all timelines.
    pub fn count(&self) -> (r: usize)
        ensures
            r == self.spec_table().len(),
    {
        self.table.len()
    }

    /// The unread window's size in whole KiB.
    pub fn backpressure(&self) -> (r: usize)
        requires
            self.wf(),
        ensures
            r == self.unread().len() / 1024,
    {
        self.input.unread_len() / 1024
    }
}

/// A frame `m` that arrives whole, followed by any bytes `x`, is handled as
/// if it had arrived alone: the same outcome, the same event and channels,
/// and `x` left unread behind whatever `m` leaves. Together with
/// `lemma_frame_prefix_is_incomplete`, which makes every step taken while
/// only part of `m` is unread a `NeedMore` that keeps the window, the way
/// `m` is split into reads does not change what is delivered.
pub proof fn lemma_whole_frame_step(
    m: Seq<u8>,
    x: Seq<u8>,
    ns: Seq<u8>,
    ids: Map<Seq<u8>, u64>,
    table: Seq<(u32, Timeline)>,
    ready: Seq<u32>,
)
    requires
        frame(m) == Step::Done(m.len()),
    ensures
        frame(m + x) == frame(m),
        is_delivery(m + x) == is_delivery(m),
        is_delivery(m) ==> delivery_model(m + x, ns, ids, table, ready) == delivery_model(m, ns, ids, table, ready),
        window_after(m + x, ns, ids, table, ready) == window_after(m, ns, ids, table, ready) + x,
{
    lemma_complete_frame_is_stable(m, x);
    assert((m + x).skip(m.len() as int) =~= m.skip(m.len() as int) + x);
}

/// Frames are handled in the order the bus sent them: a step on the first
/// frame `m` of the unread bytes `m + rest` either consumes `m` exactly,
/// leaving `rest`, or (on backpressure) leaves everything, so that `m` is
/// the next frame read again. Nothing of `rest` is handled before `m`.
pub proof fn lemma_frames_in_order(
    m: Seq<u8>,
    rest: Seq<u8>,
    ns: Seq<u8>,
    ids: Map<Seq<u8>, u64>,
    table: Seq<(u32, Timeline)>,
    ready: Seq<u32>,
)
    requires
        frame(m) == Step::Done(m.len()),
    ensures
        window_after(m + rest, ns, ids, table, ready) == rest || window_after(m + rest, ns, ids, table, ready) == m + rest,
{
    lemma_whole_frame_step(m, rest, ns, ids, table, ready);
    assert(m.skip(m.len() as int) =~= Seq::<u8>::empty());
    assert(Seq::<u8>::empty() + rest =~= rest);
}

/// A step leaves a suffix of the unread bytes: what remains unread is
/// exactly what was not consumed, from the point where reading stopped.
pub proof fn lemma_window_is_suffix(
    w: Seq<u8>,
    ns: Seq<u8>,
    ids: Map<Seq<u8>, u64>,
    table: Seq<(u32, Timeline)>,
    ready: Seq<u32>,
)
    ensures
        exists|k: int| 0 <= k <= w.len() && window_after(w, ns, ids, table, ready) == w.skip(k),
{
    match frame(w) {
        Step::Done(n) => {
            crate::stream::lemma_frame_within(w);
            if is_delivery(w) && delivery_model(w, ns, ids, table, ready) is Backpressure {
                assert(w.skip(0) =~= w);
                assert(window_after(w, ns, ids, table, ready) == w.skip(0));
            } else {
                assert(window_after(w, ns, ids, table, ready) == w.skip(n as int));
            }
        },
        Step::Bad => {
            crate::wire::lemma_resync_within(w);
            assert(window_after(w, ns, ids, table, ready) == w.skip(resync_skip(w) as int));
        },
        Step::Short => {
            assert(w.skip(0) =~= w);
            assert(window_after(w, ns, ids, table, ready) == w.skip(0));
        },
    }
}

/// A ping sweep removes every channel whose id it is given, so a channel
/// whose receiver is gone leaves the table at the first sweep that fails
/// to reach it.
pub proof fn lemma_sweep_removes_dead(s: Seq<(u32, Timeline)>, dead: Seq<u32>, id: u32)
    requires
        dead.contains(id),
    ensures
        !has_id(without(s, dead), id),
{
    broadcast use vstd::seq_lib::group_filter_ensures;

    if has_id(without(s, dead), id) {
        let i = choose|i: int| 0 <= i < without(s, dead).len() && (#[trigger] without(s, dead)[i]).0 == id;
        assert(crate::table::alive(dead)(without(s, dead)[i]));
    }
}

proof fn lemma_without_subset(s: Seq<(u32, Timeline)>, dead: Seq<u32>, i: int)
    requires
        0 <= i < without(s, dead).len(),
    ensures
        s.contains(without(s, dead)[i]),
{
    broadcast use vstd::seq_lib::group_filter_ensures, Seq::lemma_filter_contains_rev;

    assert(without(s, dead).contains(without(s, dead)[i]));
}

/// What a step on `w` reports about a delivery frame, if it read one.
pub open spec fn step_delivery(
    w: Seq<u8>,
    ns: Seq<u8>,
    ids: Map<Seq<u8>, u64>,
    table: Seq<(u32, Timeline)>,
    ready: Seq<u32>,
) -> Seq<DeliveryModel> {
    if frame(w) is Done && is_delivery(w) {
        seq![delivery_model(w, ns, ids, table, ready)]
    } else {
        Seq::empty()
    }
}

/// Steps of `Manager::poll` repeated on the window `w` until one reports
/// `NeedMore` or `Backpressure`, or leaves the window as it was: the
/// deliveries read, in order, and the window left.
pub open spec fn drain(
    w: Seq<u8>,
    ns: Seq<u8>,
    ids: Map<Seq<u8>, u64>,
    table: Seq<(u32, Timeline)>,
    ready: Seq<u32>,
) -> (Seq<DeliveryModel>, Seq<u8>)
    decreases w.len(),
{
    let after = window_after(w, ns, ids, table, ready);
    if frame(w) is Short {
        (Seq::empty(), w)
    } else if frame(w) is Done && is_delivery(w) && delivery_model(w, ns, ids, table, ready) is Backpressure {
        (step_delivery(w, ns, ids, table, ready), w)
    } else if after.len() < w.len() {
        let (rest_events, left) = drain(after, ns, ids, table, ready);
        (step_delivery(w, ns, ids, table, ready) + rest_events, left)
    } else {
        (step_delivery(w, ns, ids, table, ready), w)
    }
}

/// The bytes of `chunks`, one after another.
pub open spec fn joined(chunks: Seq<Seq<u8>>) -> Seq<u8>
    decreases chunks.len(),
{
    if chunks.len() == 0 {
        Seq::empty()
    } else {
        joined(chunks.drop_last()) + chunks.last()
    }
}

/// Starting from the unread window `w`, each chunk read from the bus is
/// appended (`Manager::receive`) and the window drained: the deliveries
/// read, in order, and the window left.
pub open spec fn feed(
    w: Seq<u8>,
    chunks: Seq<Seq<u8>>,
    ns: Seq<u8>,
    ids: Map<Seq<u8>, u64>,
    table: Seq<(u32, Timeline)>,
    ready: Seq<u32>,
) -> (Seq<DeliveryModel>, Seq<u8>)
    decreases chunks.len(),
{
    if chunks.len() == 0 {
        (Seq::empty(), w)
    } else {
        let (before, left) = feed(w, chunks.drop_last(), ns, ids, table, ready);
        let (now, rest) = drain(left + chunks.last(), ns, ids, table, ready);
        (before + now, rest)
    }
}

proof fn lemma_feed_prefix(
    m: Seq<u8>,
    chunks: Seq<Seq<u8>>,
    ns: Seq<u8>,
    ids: Map<Seq<u8>, u64>,
    table: Seq<(u32, Timeline)>,
    ready: Seq<u32>,
)
    requires
        frame(m) == Step::Done(m.len()),
        joined(chunks).len() < m.len(),
        m.take(joined(chunks).len() as int) == joined(chunks),
        forall|i: int| 0 <= i < chunks.len() ==> (#[trigger] chunks[i]).len() > 0,
    ensures
        feed(Seq::empty(), chunks, ns, ids, table, ready) == (Seq::<DeliveryModel>::empty(), joined(chunks)),
    decreases chunks.len(),
{
    if chunks.len() > 0 {
        let front = chunks.drop_last();
        let j = joined(front);
        assert(joined(chunks) == j + chunks.last());
        assert(m.take(j.len() as int) =~= j) by {
            assert(joined(chunks).take(j.len() as int) =~= j);
        }
        assert forall|i: int| 0 <= i < front.len() implies (#[trigger] front[i]).len() > 0 by {
            assert(front[i] == chunks[i]);
        }
        lemma_feed_prefix(m, front, ns, ids, table, ready);
        crate::stream::lemma_frame_prefix_is_incomplete(m, joined(chunks).len());
        assert(Seq::<DeliveryModel>::empty() + Seq::<DeliveryModel>::empty() =~= Seq::<DeliveryModel>::empty());
    }
}

/// A frame `m` read whole in one chunk, or split into any number of
/// non-empty chunks, gives the same deliveries and leaves the same window.
pub proof fn lemma_chunking_gives_same_run(
    m: Seq<u8>,
    chunks: Seq<Seq<u8>>,
    ns: Seq<u8>,
    ids: Map<Seq<u8>, u64>,
    table: Seq<(u32, Timeline)>,
    ready: Seq<u32>,
)
    requires
        frame(m) == Step::Done(m.len()),
        joined(chunks) == m,
        forall|i: int| 0 <= i < chunks.len() ==> (#[trigger] chunks[i]).len() > 0,
    ensures
        feed(Seq::empty(), chunks, ns, ids, table, ready) == feed(Seq::empty(), seq![m], ns, ids, table, ready),
{
    assert(m.len() > 0);
    assert(chunks.len() > 0);
    let front = chunks.drop_last();
    let j = joined(front);
    assert(m == j + chunks.last());
    assert(m.take(j.len() as int) =~= j);
    assert forall|i: int| 0 <= i < front.len() implies (#[trigger] front[i]).len() > 0 by {
        assert(front[i] == chunks[i]);
    }
    lemma_feed_prefix(m, front, ns, ids, table, ready);
    let one = seq![m];
    assert(one.drop_last() =~= Seq::<Seq<u8>>::empty());
    assert(one.last() == m);
    assert(Seq::<u8>::empty() + m =~= m);
    assert(j + chunks.last() == m);
    let d = drain(m, ns, ids, table, ready);
    assert(Seq::<DeliveryModel>::empty() + d.0 =~= d.0);
    assert(feed(Seq::empty(), front, ns, ids, table, ready) == (Seq::<DeliveryModel>::empty(), j));
    assert(feed(Seq::empty(), chunks, ns, ids, table, ready) == (Seq::<DeliveryModel>::empty() + d.0, d.1));
    assert(feed(Seq::empty(), one.drop_last(), ns, ids, table, ready) == (Seq::<DeliveryModel>::empty(), Seq::<u8>::empty()));
    assert(feed(Seq::empty(), one, ns, ids, table, ready) == (Seq::<DeliveryModel>::empty() + d.0, d.1));
}

/// Draining leaves a suffix of the window: what stays unread is exactly
/// what was not consumed.
proof fn lemma_drain_suffix(
    w: Seq<u8>,
    ns: Seq<u8>,
    ids: Map<Seq<u8>, u64>,
    table: Seq<(u32, Timeline)>,
    ready: Seq<u32>,
)
    ensures
        exists|k: int| 0 <= k <= w.len() && drain(w, ns, ids, table, ready).1 == w.skip(k),
    decreases w.len(),
{
    assert(w.skip(0) =~= w);
    let after = window_after(w, ns, ids, table, ready);
    if !(frame(w) is Short) && !(frame(w) is Done && is_delivery(w) && delivery_model(w, ns, ids, table, ready) is Backpressure)
        && after.len() < w.len() {
        lemma_window_is_suffix(w, ns, ids, table, ready);
        let k1 = choose|k: int| 0 <= k <= w.len() && after == w.skip(k);
        lemma_drain_suffix(after, ns, ids, table, ready);
        let k2 = choose|k: int| 0 <= k <= after.len() && drain(after, ns, ids, table, ready).1 == after.skip(k);
        assert(w.skip(k1).skip(k2) =~= w.skip(k1 + k2));
    }
}

/// After any number of chunks read from the bus, the unread window is a
/// suffix of everything received: the bytes not yet consumed, in order.
pub proof fn lemma_feed_leaves_unparsed_suffix(
    chunks: Seq<Seq<u8>>,
    ns: Seq<u8>,
    ids: Map<Seq<u8>, u64>,
    table: Seq<(u32, Timeline)>,
    ready: Seq<u32>,
)
    ensures
        exists|k: int|
            0 <= k <= joined(chunks).len() && feed(Seq::empty(), chunks, ns, ids, table, ready).1 == joined(chunks).skip(k),
    decreases chunks.len(),
{
    if chunks.len() == 0 {
        assert(joined(chunks).skip(0) =~= Seq::<u8>::empty());
    } else {
        let front = chunks.drop_last();
        lemma_feed_leaves_unparsed_suffix(front, ns, ids, table, ready);
        let k1 = choose|k: int|
            0 <= k <= joined(front).len() && feed(Seq::empty(), front, ns, ids, table, ready).1 == joined(front).skip(k);
        let left = feed(Seq::empty(), front, ns, ids, table, ready).1;
        let w = left + chunks.last();
        lemma_drain_suffix(w, ns, ids, table, ready);
        let k2 = choose|k: int| 0 <= k <= w.len() && drain(w, ns, ids, table, ready).1 == w.skip(k);
        assert(w =~= joined(chunks).skip(k1));
        assert(joined(chunks).skip(k1).skip(k2) =~= joined(chunks).skip(k1 + k2));
    }
}

/// Deliveries come out in the order of the bus: draining a window whose
/// first frame is `f` reports `f`'s delivery first and then what draining
/// the bytes after `f` reports. On backpressure draining stops with `f`
/// still first in the window, so `f` is what the next drain reads again.
pub proof fn lemma_drain_in_bus_order(
    f: Seq<u8>,
    x: Seq<u8>,
    ns: Seq<u8>,
    ids: Map<Seq<u8>, u64>,
    table: Seq<(u32, Timeline)>,
    ready: Seq<u32>,
)
    requires
        frame(f) == Step::Done(f.len()),
    ensures
        step_delivery(f + x, ns, ids, table, ready) == step_delivery(f, ns, ids, table, ready),
        (is_delivery(f) && delivery_model(f, ns, ids, table, ready) is Backpressure) ==> drain(f + x, ns, ids, table, ready)
            == (step_delivery(f, ns, ids, table, ready), f + x),
        !(is_delivery(f) && delivery_model(f, ns, ids, table, ready) is Backpressure) ==> drain(f + x, ns, ids, table, ready)
            == (step_delivery(f, ns, ids, table, ready) + drain(x, ns, ids, table, ready).0, drain(x, ns, ids, table, ready).1),
{
    lemma_whole_frame_step(f, x, ns, ids, table, ready);
    assert(f.len() > 0);
    assert(f.skip(f.len() as int) =~= Seq::<u8>::empty());
    assert(Seq::<u8>::empty() + x =~= x);
}

/// Whether every id of `chans` is in `ready`.
fn all_in(chans: &Vec<u32>, ready: &Vec<u32>) -> (r: bool)
    ensures
        r == all_ready(chans@, ready@),
{
    let mut i: usize = 0;
    while i < chans.len()
        invariant
            i <= chans@.len(),
            forall|k: int| 0 <= k < i ==> ready@.contains(#[trigger] chans@[k]),
        decreases chans@.len() - i,
    {
        if !crate::table::contains_id(ready, chans[i]) {
            return false;
        }
        i = i + 1;
    }
    true
}

} // verus!
