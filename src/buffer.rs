//! The read buffer: a byte vector with a window of unread bytes.
use vstd::prelude::*;
use vstd::slice::slice_subrange;
use crate::wire::{ParseOutcome, Step, frame, parse_frame};

verus! {

/// Bytes received from the bus; `buf[read_start..write_end]` is what the
/// parser has not consumed yet.
pub struct InputBuffer {
    buf: Vec<u8>,
    read_start: usize,
    write_end: usize,
}

/// The two bytes before `p` are `\r\n` and the byte at `p` is `*`.
pub open spec fn marker_before(b: Seq<u8>, p: nat) -> bool {
    2 <= p < b.len() && b[p - 2] == 13u8 && b[p - 1] == 10u8 && b[p as int] == 42u8
}

impl InputBuffer {
    pub closed spec fn spec_bytes(&self) -> Seq<u8> {
        self.buf@
    }

    pub closed spec fn spec_read_start(&self) -> nat {
        self.read_start as nat
    }

    pub closed spec fn spec_write_end(&self) -> nat {
        self.write_end as nat
    }

    pub open spec fn wf(&self) -> bool {
        self.spec_read_start() <= self.spec_write_end() <= self.spec_bytes().len()
    }

    /// The bytes that the parser has not consumed yet.
    pub open spec fn unread(&self) -> Seq<u8> {
        self.spec_bytes().subrange(self.spec_read_start() as int, self.spec_write_end() as int)
    }

    /// An empty buffer of `capacity` bytes.
    pub fn new(capacity: usize) -> (r: Self)
        ensures
            r.wf(),
            r.unread() == Seq::<u8>::empty(),
            r.spec_read_start() == 0,
            r.spec_write_end() == 0,
            r.spec_bytes().len() == capacity,
    {
        let mut buf: Vec<u8> = Vec::new();
        let mut i: usize = 0;
        while i < capacity
            invariant
                i <= capacity,
                buf@.len() == i,
            decreases capacity - i,
        {
            buf.push(0);
            i = i + 1;
        }
        InputBuffer { buf, read_start: 0, write_end: 0 }
    }

    pub fn read_start(&self) -> (r: usize)
        ensures
            r == self.spec_read_start(),
    {
        self.read_start
    }

    pub fn write_end(&self) -> (r: usize)
        ensures
            r == self.spec_write_end(),
    {
        self.write_end
    }

    pub fn capacity(&self) -> (r: usize)
        ensures
            r == self.spec_bytes().len(),
    {
        self.buf.len()
    }

    /// Number of unread bytes.
    pub fn unread_len(&self) -> (r: usize)
        requires
            self.wf(),
        ensures
            r == self.unread().len(),
    {
        self.write_end - self.read_start
    }

    /// The unread window.
    pub fn window(&self) -> (r: &[u8])
        requires
            self.wf(),
        ensures
            r@ == self.unread(),
    {
        slice_subrange(self.buf.as_slice(), self.read_start, self.write_end)
    }

    /// Marks the first `n` unread bytes as consumed.
    pub fn advance(&mut self, n: usize)
        requires
            old(self).wf(),
            n <= old(self).unread().len(),
        ensures
            final(self).wf(),
            final(self).unread() == old(self).unread().skip(n as int),
            final(self).spec_bytes() == old(self).spec_bytes(),
            final(self).spec_write_end() == old(self).spec_write_end(),
            final(self).spec_read_start() == old(self).spec_read_start() + n,
    {
        self.read_start = self.read_start + n;
        assert(self.unread() =~= old(self).unread().skip(n as int));
    }

    /// Moves the unread bytes to the front of the buffer. In place when the
    /// consumed prefix is at least as long as the unread part, else into a
    /// fresh buffer of the same capacity.
    pub fn compact(&mut self)
        requires
            old(self).wf(),
        ensures
            final(self).wf(),
            final(self).spec_read_start() == 0,
            final(self).unread() == old(self).unread(),
            final(self).spec_bytes().len() == old(self).spec_bytes().len(),
            old(self).spec_read_start() == 0 ==> final(self).spec_bytes() == old(self).spec_bytes()
                && final(self).spec_write_end() == old(self).spec_write_end(),
    {
        let rs = self.read_start;
        let we = self.write_end;
        let n = we - rs;
        if rs == 0 {
            return;
        } else if rs >= n {
            let ghost src = self.buf@;
            let mut i: usize = 0;
            while i < n
                invariant
                    rs <= we <= src.len(),
                    n == we - rs,
                    rs >= n,
                    i <= n,
                    self.buf@.len() == src.len(),
                    forall|k: int| 0 <= k < i ==> self.buf@[k] == src[rs + k],
                    forall|k: int| rs <= k < src.len() ==> self.buf@[k] == src[k],
                decreases n - i,
            {
                let b = self.buf[rs + i];
                self.buf.set(i, b);
                i = i + 1;
            }
        } else {
            let cap = self.buf.len();
            let mut fresh: Vec<u8> = Vec::new();
            let mut i: usize = 0;
            while i < cap
                invariant
                    rs <= we <= self.buf@.len(),
                    cap == self.buf@.len(),
                    n == we - rs,
                    i <= cap,
                    fresh@.len() == i,
                    forall|k: int| 0 <= k < i && k < n ==> fresh@[k] == self.buf@[rs + k],
                decreases cap - i,
            {
                if i < n {
                    fresh.push(self.buf[rs + i]);
                } else {
                    fresh.push(0);
                }
                i = i + 1;
            }
            self.buf = fresh;
        }
        self.read_start = 0;
        self.write_end = n;
        assert(self.unread() =~= old(self).unread());
    }

    /// Moves the read cursor back to the nearest earlier position that
    /// follows a `\r\n` and starts with `*` (an array frame) and from which
    /// a complete frame reads; to the start of the buffer when there is
    /// none. The bytes between the two positions become unread again.
    pub fn rewind(&mut self)
        requires
            old(self).wf(),
        ensures
            final(self).wf(),
            final(self).spec_bytes() == old(self).spec_bytes(),
            final(self).spec_write_end() == old(self).spec_write_end(),
            final(self).spec_read_start() <= old(self).spec_read_start(),
            old(self).spec_read_start() > 0 ==> final(self).spec_read_start() < old(self).spec_read_start(),
            final(self).unread() == old(self).spec_bytes().subrange(
                final(self).spec_read_start() as int,
                old(self).spec_read_start() as int,
            ) + old(self).unread(),
            final(self).spec_read_start() == 0 || (marker_before(final(self).spec_bytes(), final(self).spec_read_start())
                && frame(final(self).unread()) is Done),
            forall|p: int|
                final(self).spec_read_start() < p < old(self).spec_read_start() && #[trigger] marker_before(
                    old(self).spec_bytes(),
                    p as nat,
                ) ==> !(frame(old(self).spec_bytes().subrange(p, old(self).spec_write_end() as int)) is Done),
    {
        let rs = self.read_start;
        let we = self.write_end;
        let mut end: usize = rs;
        let mut target: usize = 0;
        let mut done = false;
        while !done
            invariant
                rs <= we <= self.buf@.len(),
                self.read_start == rs,
                self.write_end == we,
                end <= rs,
                target < rs || (target == 0 && rs == 0),
                done ==> target == 0 || (marker_before(self.buf@, target as nat) && frame(self.buf@.subrange(target as int, we as int)) is Done),
                forall|p: int| end <= p < rs && #[trigger] marker_before(self.buf@, p as nat)
                    ==> !(frame(self.buf@.subrange(p, we as int)) is Done),
                done ==> forall|p: int| target < p < end ==> !#[trigger] marker_before(self.buf@, p as nat),
            decreases end + (if done { 0int } else { 1int }),
        {
            let mut q: usize = end;
            let mut found = false;
            while q > 0 && !found
                invariant
                    q <= end <= rs <= we <= self.buf@.len(),
                    found ==> q + 2 < end && marker_before(self.buf@, (q + 2) as nat),
                    forall|p: int| (if found { q + 2 < p } else { q + 2 <= p }) && p < end
                        ==> !#[trigger] marker_before(self.buf@, p as nat),
                decreases q,
            {
                q = q - 1;
                if end - q > 2 && self.buf[q] == 13 && self.buf[q + 1] == 10 && self.buf[q + 2] == 42 {
                    found = true;
                }
            }
            if !found {
                target = 0;
                done = true;
            } else {
                let c = q + 2;
                let w = slice_subrange(self.buf.as_slice(), c, we);
                match parse_frame(w) {
                    ParseOutcome::Message { .. } => {
                        target = c;
                        done = true;
                    },
                    ParseOutcome::NonMessage { .. } => {
                        target = c;
                        done = true;
                    },
                    _ => {
                        end = c;
                    },
                }
            }
        }
        self.read_start = target;
        assert(self.unread() =~= old(self).spec_bytes().subrange(target as int, rs as int) + old(self).unread());
    }

    /// Appends bytes received from the bus after the unread ones. When the
    /// free tail is too short the buffer is compacted, and when that is not
    /// enough its capacity is doubled until the bytes fit.
    pub fn receive(&mut self, data: &[u8])
        requires
            old(self).wf(),
            old(self).spec_bytes().len() + old(self).unread().len() + data@.len() <= usize::MAX / 2,
        ensures
            final(self).wf(),
            final(self).unread() == old(self).unread() + data@,
    {
        if data.len() > self.buf.len() - self.write_end {
            self.compact();
            let need = self.write_end + data.len();
            if need > self.buf.len() {
                let mut cap: usize = self.buf.len();
                if cap == 0 {
                    cap = 1;
                }
                while cap < need
                    invariant
                        1 <= cap,
                        need <= usize::MAX / 2,
                    decreases usize::MAX - cap,
                {
                    cap = cap * 2;
                }
                let ghost before = self.buf@;
                let ghost rs = self.read_start;
                let ghost we = self.write_end;
                while self.buf.len() < cap
                    invariant
                        self.read_start == rs,
                        self.write_end == we,
                        self.buf@.len() <= cap || self.buf@.len() == before.len(),
                        before.len() <= self.buf@.len(),
                        forall|k: int| 0 <= k < before.len() ==> self.buf@[k] == before[k],
                    decreases cap - self.buf@.len(),
                {
                    self.buf.push(0);
                }
                assert(self.unread() =~= old(self).unread());
            }
        }
        let ghost mid = self.buf@;
        let ghost rs0 = self.read_start;
        assert(mid.subrange(rs0 as int, self.write_end as int) == old(self).unread());
        let start = self.write_end;
        let cap: usize = self.buf.len();
        assert(start + data@.len() <= cap);
        let mut i: usize = 0;
        while i < data.len()
            invariant
                self.wf(),
                self.read_start == rs0,
                mid.subrange(rs0 as int, start as int) == old(self).unread(),
                start == self.spec_write_end(),
                start + data@.len() <= cap,
                self.buf@.len() == cap,
                cap == mid.len(),
                i <= data@.len(),
                forall|k: int| 0 <= k < start ==> self.buf@[k] == mid[k],
                forall|k: int| 0 <= k < i ==> self.buf@[start + k] == data@[k],
            decreases data@.len() - i,
        {
            let at: usize = start + i;
            self.buf.set(at, data[i]);
            i = i + 1;
        }
        self.write_end = start + data.len();
        assert(self.unread() =~= old(self).unread() + data@);
    }
}

} // verus!
