//! The subscription table: which client channels follow which timeline.
//!
//! The table is kept as the list of subscribed channels, each with its
//! timeline, in the order they subscribed. A timeline is present exactly when
//! some channel follows it, so an emptied timeline disappears with its last
//! channel.
use vstd::prelude::*;
use crate::timeline::Timeline;

verus! {

/// What `insert` tells the caller about the bus subscription.
#[derive(Debug, PartialEq, Eq, Structural)]
pub enum Inserted {
    /// The timeline had no channel before: the bus must be subscribed.
    FirstForTimeline,
    /// Another channel already follows the timeline.
    AlreadySubscribed,
}

/// What `remove_channel` tells the caller about the bus subscription.
#[derive(Debug, PartialEq, Eq, Structural)]
pub enum Removed {
    /// The channel was the timeline's last one: the bus must be unsubscribed.
    LastForTimeline,
    /// Other channels still follow the timeline.
    StillSubscribed,
    /// No such channel follows the timeline.
    Unknown,
}

pub struct SubscriptionTable {
    channels: Vec<(u32, Timeline)>,
}

/// Some channel of `s` follows `tl`.
pub open spec fn follows(s: Seq<(u32, Timeline)>, tl: Timeline) -> bool {
    exists|i: int| 0 <= i < s.len() && (#[trigger] s[i]).1 == tl
}

/// Some channel of `s` has the id `id`.
pub open spec fn has_id(s: Seq<(u32, Timeline)>, id: u32) -> bool {
    exists|i: int| 0 <= i < s.len() && (#[trigger] s[i]).0 == id
}

/// Channel ids are unique across the table.
pub open spec fn ids_unique(s: Seq<(u32, Timeline)>) -> bool {
    forall|i: int, j: int| 0 <= i < s.len() && 0 <= j < s.len() && (#[trigger] s[i]).0 == (#[trigger] s[j]).0 ==> i == j
}

/// The ids of the channels that follow `tl`, in subscription order.
pub open spec fn ids_of(s: Seq<(u32, Timeline)>, tl: Timeline) -> Seq<u32> {
    s.filter(on_timeline(tl)).map_values(|p: (u32, Timeline)| p.0)
}

/// The channel follows `tl`.
pub open spec fn on_timeline(tl: Timeline) -> spec_fn((u32, Timeline)) -> bool {
    |p: (u32, Timeline)| p.1 == tl
}

/// The channel's id is not among `dead`.
pub open spec fn alive(dead: Seq<u32>) -> spec_fn((u32, Timeline)) -> bool {
    |p: (u32, Timeline)| !dead.contains(p.0)
}

/// The table without the channels whose ids `dead` holds.
pub open spec fn without(s: Seq<(u32, Timeline)>, dead: Seq<u32>) -> Seq<(u32, Timeline)> {
    s.filter(alive(dead))
}

impl View for SubscriptionTable {
    type V = Seq<(u32, Timeline)>;

    closed spec fn view(&self) -> Seq<(u32, Timeline)> {
        self.channels@
    }
}

impl SubscriptionTable {
    pub open spec fn wf(&self) -> bool {
        ids_unique(self@)
    }

    pub fn new() -> (r: Self)
        ensures
            r.wf(),
            r@ == Seq::<(u32, Timeline)>::empty(),
    {
        SubscriptionTable { channels: Vec::new() }
    }

    /// Number of subscribed channels.
    pub fn len(&self) -> (r: usize)
        ensures
            r == self@.len(),
    {
        self.channels.len()
    }

    /// The timelines that channels follow, each once, in the order of their
    /// first subscription.
    pub fn timelines(&self) -> (r: Vec<Timeline>)
        ensures
            r@.no_duplicates(),
            forall|tl: Timeline| r@.contains(tl) <==> follows(self@, tl),
    {
        let mut out: Vec<Timeline> = Vec::new();
        let mut k: usize = 0;
        while k < self.channels.len()
            invariant
                k <= self@.len(),
                out@.no_duplicates(),
                forall|tl: Timeline|
                    out@.contains(tl) <==> (exists|m: int| 0 <= m < k && (#[trigger] self@[m]).1 == tl),
            decreases self@.len() - k,
        {
            let tl = self.channels[k].1;
            let ghost before = out@;
            if !contains_timeline(&out, tl) {
                out.push(tl);
            }
            assert forall|t: Timeline|
                out@.contains(t) <==> (exists|m: int| 0 <= m < k + 1 && (#[trigger] self@[m]).1 == t) by {
                if t == tl {
                    assert(self@[k as int].1 == t);
                    if out@.len() > before.len() {
                        assert(out@[before.len() as int] == t);
                    }
                } else {
                    if exists|m: int| 0 <= m < k + 1 && (#[trigger] self@[m]).1 == t {
                        let m = choose|m: int| 0 <= m < k + 1 && (#[trigger] self@[m]).1 == t;
                        assert(m < k);
                    }
                    if out@.contains(t) {
                        let q = choose|q: int| 0 <= q < out@.len() && out@[q] == t;
                        assert(before[q] == t);
                    }
                    if before.contains(t) {
                        let q = choose|q: int| 0 <= q < before.len() && before[q] == t;
                        assert(out@[q] == t);
                    }
                }
            }
            k = k + 1;
        }
        out
    }

    /// Whether some channel follows `tl`.
    pub fn contains(&self, tl: Timeline) -> (r: bool)
        ensures
            r == follows(self@, tl),
    {
        any_follows(&self.channels, tl)
    }

    /// Whether some channel has the id `id`.
    pub fn has_channel(&self, id: u32) -> (r: bool)
        ensures
            r == has_id(self@, id),
    {
        let mut i: usize = 0;
        while i < self.channels.len()
            invariant
                i <= self@.len(),
                forall|k: int| 0 <= k < i ==> (#[trigger] self@[k]).0 != id,
            decreases self@.len() - i,
        {
            if self.channels[i].0 == id {
                return true;
            }
            i = i + 1;
        }
        false
    }

    /// Adds the channel `id` to `tl`, and says whether it is the timeline's
    /// first channel.
    pub fn insert(&mut self, tl: Timeline, id: u32) -> (r: Inserted)
        requires
            old(self).wf(),
            !has_id(old(self)@, id),
        ensures
            final(self).wf(),
            final(self)@ == old(self)@.push((id, tl)),
            (r == Inserted::FirstForTimeline) == !follows(old(self)@, tl),
    {
        let first = !self.contains(tl);
        self.channels.push((id, tl));
        assert(ids_unique(self@)) by {
            assert forall|i: int, j: int|
                0 <= i < self@.len() && 0 <= j < self@.len() && (#[trigger] self@[i]).0 == (#[trigger] self@[j]).0 implies i == j by {
                if i < self@.len() - 1 && j == self@.len() - 1 {
                    assert(old(self)@[i].0 == id);
                }
                if j < self@.len() - 1 && i == self@.len() - 1 {
                    assert(old(self)@[j].0 == id);
                }
            }
        }
        if first {
            Inserted::FirstForTimeline
        } else {
            Inserted::AlreadySubscribed
        }
    }

    /// Removes the channel `id` from `tl`, and says whether it was the
    /// timeline's last channel.
    pub fn remove_channel(&mut self, tl: Timeline, id: u32) -> (r: Removed)
        requires
            old(self).wf(),
        ensures
            final(self).wf(),
            !old(self)@.contains((id, tl)) ==> r == Removed::Unknown && final(self)@ == old(self)@,
            old(self)@.contains((id, tl)) ==> final(self)@ == without(old(self)@, seq![id]) && r
                != Removed::Unknown && ((r == Removed::LastForTimeline) == !follows(final(self)@, tl)),
    {
        let mut i: usize = 0;
        let mut present = false;
        while i < self.channels.len() && !present
            invariant
                i <= self@.len(),
                present ==> self@.contains((id, tl)),
                !present ==> forall|k: int| 0 <= k < i ==> self@[k] != (id, tl),
            decreases self@.len() - i,
        {
            let p = self.channels[i];
            if p.0 == id && p.1 == tl {
                assert(self@[i as int] == (id, tl));
                present = true;
            }
            i = i + 1;
        }
        if !present {
            return Removed::Unknown;
        }
        let dead = vec![id];
        assert(dead@ =~= seq![id]);
        self.sweep(&dead);
        if self.contains(tl) {
            Removed::StillSubscribed
        } else {
            Removed::LastForTimeline
        }
    }

    /// The ids of the channels that follow `tl`, in subscription order.
    pub fn channels_of(&self, tl: Timeline) -> (r: Vec<u32>)
        ensures
            r@ == ids_of(self@, tl),
    {
        let mut out: Vec<u32> = Vec::new();
        let mut i: usize = 0;
        while i < self.channels.len()
            invariant
                i <= self@.len(),
                out@ == ids_of(self@.take(i as int), tl),
            decreases self@.len() - i,
        {
            let p = self.channels[i];
            proof {
                let pred = on_timeline(tl);
                assert(self@.take(i + 1).drop_last() =~= self@.take(i as int));
                reveal(Seq::filter);
                assert(self@.take(i + 1).filter(pred) == if pred(p) {
                    self@.take(i as int).filter(pred).push(p)
                } else {
                    self@.take(i as int).filter(pred)
                });
            }
            if p.1 == tl {
                out.push(p.0);
            }
            i = i + 1;
            assert(out@ =~= ids_of(self@.take(i as int), tl));
        }
        assert(self@.take(i as int) =~= self@);
        out
    }

    /// Removes the channels whose ids `dead` holds, and returns the
    /// timelines that lost their last channel, each once.
    pub fn sweep(&mut self, dead: &Vec<u32>) -> (r: Vec<Timeline>)
        requires
            old(self).wf(),
        ensures
            final(self).wf(),
            final(self)@ == without(old(self)@, dead@),
            forall|i: int| 0 <= i < final(self)@.len() ==> old(self)@.contains(#[trigger] final(self)@[i]),
            r@.no_duplicates(),
            forall|tl: Timeline|
                r@.contains(tl) <==> (follows(old(self)@, tl) && !follows(final(self)@, tl)),
    {
        let ghost s0 = self@;
        let mut kept: Vec<(u32, Timeline)> = Vec::new();
        let mut i: usize = 0;
        while i < self.channels.len()
            invariant
                i <= s0.len(),
                self@ == s0,
                kept@ == without(s0.take(i as int), dead@),
                ids_unique(s0),
                ids_unique(kept@),
                forall|m: int| 0 <= m < kept@.len() ==> exists|n: int| 0 <= n < i && s0[n] == #[trigger] kept@[m],
            decreases s0.len() - i,
        {
            let p = self.channels[i];
            let gone = contains_id(dead, p.0);
            proof {
                let pred = alive(dead@);
                assert(s0.take(i + 1).drop_last() =~= s0.take(i as int));
                reveal(Seq::filter);
                assert(s0.take(i + 1).filter(pred) == if pred(p) {
                    s0.take(i as int).filter(pred).push(p)
                } else {
                    s0.take(i as int).filter(pred)
                });
            }
            if !gone {
                let ghost before = kept@;
                kept.push(p);
                assert(ids_unique(kept@)) by {
                    assert forall|a: int, b: int|
                        0 <= a < kept@.len() && 0 <= b < kept@.len() && (#[trigger] kept@[a]).0 == (#[trigger] kept@[b]).0 implies a == b by {
                        if a < before.len() && b == before.len() {
                            let n = choose|n: int| 0 <= n < i && s0[n] == #[trigger] before[a];
                            assert(s0[n].0 == s0[i as int].0);
                        }
                        if b < before.len() && a == before.len() {
                            let n = choose|n: int| 0 <= n < i && s0[n] == #[trigger] before[b];
                            assert(s0[n].0 == s0[i as int].0);
                        }
                    }
                }
                assert forall|m: int| 0 <= m < kept@.len() implies exists|n: int| 0 <= n < i + 1 && s0[n] == #[trigger] kept@[m] by {
                    if m == before.len() {
                        assert(s0[i as int] == kept@[m]);
                    } else {
                        assert(kept@[m] == before[m]);
                    }
                }
            }
            i = i + 1;
        }
        assert(s0.take(i as int) =~= s0);
        assert forall|m: int| 0 <= m < kept@.len() implies s0.contains(#[trigger] kept@[m]) by {
            let n = choose|n: int| 0 <= n < i && s0[n] == #[trigger] kept@[m];
            assert(0 <= n < s0.len() && s0[n] == kept@[m]);
        }
        let mut emptied: Vec<Timeline> = Vec::new();
        let mut k: usize = 0;
        while k < self.channels.len()
            invariant
                k <= s0.len(),
                self@ == s0,
                kept@ == without(s0, dead@),
                forall|m: int| 0 <= m < kept@.len() ==> s0.contains(#[trigger] kept@[m]),
                emptied@.no_duplicates(),
                forall|tl: Timeline|
                    emptied@.contains(tl) <==> (exists|m: int| 0 <= m < k && (#[trigger] s0[m]).1 == tl)
                        && !follows(kept@, tl),
            decreases s0.len() - k,
        {
            let tl = self.channels[k].1;
            let still = any_follows(&kept, tl);
            let ghost before = emptied@;
            if !still && !contains_timeline(&emptied, tl) {
                emptied.push(tl);
            }
            assert forall|t: Timeline|
                emptied@.contains(t) <==> (exists|m: int| 0 <= m < k + 1 && (#[trigger] s0[m]).1 == t)
                    && !follows(kept@, t) by {
                if t == tl {
                    assert(s0[k as int].1 == t);
                    if emptied@.len() > before.len() {
                        assert(emptied@[before.len() as int] == t);
                    }
                } else {
                    if exists|m: int| 0 <= m < k + 1 && (#[trigger] s0[m]).1 == t {
                        let m = choose|m: int| 0 <= m < k + 1 && (#[trigger] s0[m]).1 == t;
                        assert(m < k);
                    }
                    if emptied@.contains(t) {
                        let q = choose|q: int| 0 <= q < emptied@.len() && emptied@[q] == t;
                        assert(before[q] == t);
                    }
                    if before.contains(t) {
                        let q = choose|q: int| 0 <= q < before.len() && before[q] == t;
                        assert(emptied@[q] == t);
                    }
                }
            }
            k = k + 1;
        }
        self.channels = kept;
        emptied
    }
}

/// Whether some entry of `v` follows `tl`.
fn any_follows(v: &Vec<(u32, Timeline)>, tl: Timeline) -> (r: bool)
    ensures
        r == follows(v@, tl),
{
    let mut i: usize = 0;
    while i < v.len()
        invariant
            i <= v@.len(),
            forall|k: int| 0 <= k < i ==> (#[trigger] v@[k]).1 != tl,
        decreases v@.len() - i,
    {
        if v[i].1 == tl {
            return true;
        }
        i = i + 1;
    }
    false
}

/// Whether `v` holds `tl`.
fn contains_timeline(v: &Vec<Timeline>, tl: Timeline) -> (r: bool)
    ensures
        r == v@.contains(tl),
{
    let mut i: usize = 0;
    while i < v.len()
        invariant
            i <= v@.len(),
            forall|k: int| 0 <= k < i ==> v@[k] != tl,
        decreases v@.len() - i,
    {
        if v[i] == tl {
            return true;
        }
        i = i + 1;
    }
    false
}

/// Whether `v` holds `id`.
pub(crate) fn contains_id(v: &Vec<u32>, id: u32) -> (r: bool)
    ensures
        r == v@.contains(id),
{
    let mut i: usize = 0;
    while i < v.len()
        invariant
            i <= v@.len(),
            forall|k: int| 0 <= k < i ==> v@[k] != id,
        decreases v@.len() - i,
    {
        if v[i] == id {
            return true;
        }
        i = i + 1;
    }
    false
}


/// A timeline is in the table exactly when at least one channel follows it.
pub proof fn lemma_timeline_present_iff_channel(s: Seq<(u32, Timeline)>, tl: Timeline)
    ensures
        follows(s, tl) <==> ids_of(s, tl).len() >= 1,
{
    broadcast use vstd::seq_lib::group_filter_ensures, Seq::lemma_filter_contains_rev;

    let pred = on_timeline(tl);
    let f = s.filter(pred);
    assert(ids_of(s, tl).len() == f.len());
    if follows(s, tl) {
        let i = choose|i: int| 0 <= i < s.len() && (#[trigger] s[i]).1 == tl;
        assert(pred(s[i]));
        assert(f.contains(s[i]));
    }
    if f.len() >= 1 {
        assert(pred(f[0]));
        assert(f.contains(f[0]));
        assert(s.contains(f[0]));
        let i = choose|i: int| 0 <= i < s.len() && s[i] == f[0];
        assert(s[i].1 == tl);
    }
}

/// Adding a channel to `tl` takes the timeline from no channel to one
/// exactly when it had none before, and leaves other timelines alone.
pub proof fn lemma_insert_transition(s: Seq<(u32, Timeline)>, id: u32, tl: Timeline, other: Timeline)
    ensures
        !follows(s, tl) <==> (ids_of(s, tl).len() == 0 && ids_of(s.push((id, tl)), tl).len() == 1),
        ids_of(s.push((id, tl)), tl) == ids_of(s, tl).push(id),
        other != tl ==> ids_of(s.push((id, tl)), other) == ids_of(s, other),
{
    let t = s.push((id, tl));
    assert(t.drop_last() =~= s);
    reveal(Seq::filter);
    let on_tl = on_timeline(tl);
    let on_other = on_timeline(other);
    assert(t.filter(on_tl) == s.filter(on_tl).push((id, tl)));
    assert(ids_of(t, tl) =~= ids_of(s, tl).push(id));
    if other != tl {
        assert(t.filter(on_other) == s.filter(on_other));
    }
    lemma_timeline_present_iff_channel(s, tl);
}

/// A sweep empties `tl` exactly when the timeline goes from at least one
/// channel to none.
pub proof fn lemma_sweep_transition(s: Seq<(u32, Timeline)>, dead: Seq<u32>, tl: Timeline)
    ensures
        (follows(s, tl) && !follows(without(s, dead), tl)) <==> (ids_of(s, tl).len() >= 1 && ids_of(
            without(s, dead),
            tl,
        ).len() == 0),
{
    lemma_timeline_present_iff_channel(s, tl);
    lemma_timeline_present_iff_channel(without(s, dead), tl);
}

/// A single client that subscribes to a table without channels and is then
/// swept away leaves the table empty: its subscription was the timeline's
/// first and the sweep empties the timeline.
pub proof fn lemma_subscribe_then_drop(s: Seq<(u32, Timeline)>, id: u32, tl: Timeline)
    requires
        s.len() == 0,
    ensures
        !follows(s, tl),
        follows(s.push((id, tl)), tl),
        without(s.push((id, tl)), seq![id]).len() == 0,
        !follows(without(s.push((id, tl)), seq![id]), tl),
{
    let t = s.push((id, tl));
    assert(t[0].1 == tl);
    let pred = alive(seq![id]);
    assert(seq![id][0] == id);
    assert(!pred(t[0]));
    reveal(Seq::filter);
    assert(t.drop_last() =~= s);
    assert(s.filter(pred) =~= s);
    assert(t.filter(pred) =~= Seq::<(u32, Timeline)>::empty());
}

} // verus!
