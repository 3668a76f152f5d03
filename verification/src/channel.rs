//! The control channel: line framing of the byte stream, the client's
//! retry policy, and the host's per-process outbound queues.
//!
//! Framing is a fold over the incoming bytes: a newline completes the
//! current line, any other byte extends it. Feeding the stream in
//! arbitrary chunks yields exactly the lines of the concatenated stream
//! ([`lemma_feed_bytes_append`]), and no byte is dropped or duplicated
//! ([`lemma_feed_reconstruct`]).
use vstd::prelude::*;

use crate::config::{Command, CommandView};
use crate::state::{OverlayState, spec_apply_all};
use crate::codec::{p_command_line, parse_command};

verus! {

/// Delay before the client retries a failed connect or a dropped stream,
/// in milliseconds.
pub const RETRY_DELAY_MS: u64 = 1000;

/// Capacity of one channel's outbound command queue.
pub const QUEUE_CAP: usize = 32;

/// One byte of stream framing: a newline completes the pending line.
pub open spec fn feed_byte(acc: (Seq<Seq<u8>>, Seq<u8>), b: u8) -> (Seq<Seq<u8>>, Seq<u8>) {
    if b == 0x0A {
        (acc.0.push(acc.1), Seq::empty())
    } else {
        (acc.0, acc.1.push(b))
    }
}

/// Framing of a whole chunk, first byte first.
pub open spec fn feed_bytes(acc: (Seq<Seq<u8>>, Seq<u8>), s: Seq<u8>) -> (Seq<Seq<u8>>, Seq<u8>)
    decreases s.len(),
{
    if s.len() == 0 {
        acc
    } else {
        feed_bytes(feed_byte(acc, s[0]), s.drop_first())
    }
}

/// Law: framing a stream in two chunks equals framing the concatenation —
/// a read boundary never drops, splits or duplicates a command line.
pub proof fn lemma_feed_bytes_append(acc: (Seq<Seq<u8>>, Seq<u8>), a: Seq<u8>, b: Seq<u8>)
    ensures
        feed_bytes(acc, a + b) == feed_bytes(feed_bytes(acc, a), b),
    decreases a.len(),
{
    if a.len() == 0 {
        assert(a + b =~= b);
    } else {
        assert((a + b)[0] == a[0]);
        assert((a + b).drop_first() =~= a.drop_first() + b);
        lemma_feed_bytes_append(feed_byte(acc, a[0]), a.drop_first(), b);
    }
}

/// Bytes a framing state stands for: each complete line with its newline,
/// then the pending partial line.
pub open spec fn unframed(acc: (Seq<Seq<u8>>, Seq<u8>)) -> Seq<u8>
    decreases acc.0.len(),
{
    if acc.0.len() == 0 {
        acc.1
    } else {
        acc.0[0] + seq![0x0Au8] + unframed((acc.0.drop_first(), acc.1))
    }
}

/// Law: framing loses nothing — the lines and the pending rest together
/// hold exactly the bytes fed in, in order.
pub proof fn lemma_feed_reconstruct(acc: (Seq<Seq<u8>>, Seq<u8>), s: Seq<u8>)
    ensures
        unframed(feed_bytes(acc, s)) == unframed(acc) + s,
    decreases s.len(),
{
    if s.len() == 0 {
        assert(unframed(acc) + s =~= unframed(acc));
    } else {
        let b = s[0];
        lemma_feed_reconstruct(feed_byte(acc, b), s.drop_first());
        lemma_unframed_byte(acc, b);
        assert(unframed(acc) + seq![b] + s.drop_first() =~= unframed(acc) + s);
    }
}

/// One byte moves straight to the end of the unframed bytes.
proof fn lemma_unframed_byte(acc: (Seq<Seq<u8>>, Seq<u8>), b: u8)
    ensures
        unframed(feed_byte(acc, b)) == unframed(acc) + seq![b],
    decreases acc.0.len(),
{
    if acc.0.len() == 0 {
        if b == 0x0A {
            assert(feed_byte(acc, b).0 =~= seq![acc.1]);
            assert(feed_byte(acc, b).1 =~= Seq::<u8>::empty());
            assert(feed_byte(acc, b) == (seq![acc.1], Seq::<u8>::empty()));
            assert(seq![acc.1].drop_first() =~= Seq::<Seq<u8>>::empty());
            assert(unframed((Seq::<Seq<u8>>::empty(), Seq::<u8>::empty())) =~= Seq::<u8>::empty());
            assert(unframed((seq![acc.1], Seq::<u8>::empty())) =~= acc.1 + seq![0x0Au8]);
            assert(unframed(acc) + seq![b] =~= acc.1 + seq![0x0Au8]);
        } else {
            assert(unframed(feed_byte(acc, b)) =~= acc.1.push(b));
            assert(unframed(acc) + seq![b] =~= acc.1.push(b));
        }
    } else {
        lemma_unframed_byte((acc.0.drop_first(), acc.1), b);
        if b == 0x0A {
            assert(feed_byte(acc, b).0.drop_first() =~= acc.0.drop_first().push(acc.1));
            assert(feed_byte(acc, b).0[0] == acc.0[0]);
            assert(unframed(feed_byte(acc, b)) =~= acc.0[0] + seq![0x0Au8] + unframed(
                feed_byte((acc.0.drop_first(), acc.1), b),
            ));
            assert(unframed(acc) + seq![b] =~= acc.0[0] + seq![0x0Au8] + (unframed(
                (acc.0.drop_first(), acc.1),
            ) + seq![b]));
        } else {
            assert(feed_byte(acc, b).0.drop_first() =~= acc.0.drop_first());
            assert(feed_byte(acc, b).0[0] == acc.0[0]);
            assert(unframed(feed_byte(acc, b)) =~= acc.0[0] + seq![0x0Au8] + unframed(
                feed_byte((acc.0.drop_first(), acc.1), b),
            ));
            assert(unframed(acc) + seq![b] =~= acc.0[0] + seq![0x0Au8] + (unframed(
                (acc.0.drop_first(), acc.1),
            ) + seq![b]));
        }
    }
}

/// The buffer that accumulates stream bytes until lines complete.
pub struct LineBuffer {
    pub pending: Vec<u8>,
}

impl LineBuffer {
    /// An empty buffer.
    pub fn new() -> (r: Self)
        ensures
            r.pending@ == Seq::<u8>::empty(),
    {
        LineBuffer { pending: Vec::new() }
    }

    /// Feeds one chunk of stream bytes; returns the lines it completed, in
    /// order, keeping the trailing partial line buffered.
    pub fn feed(&mut self, chunk: &Vec<u8>) -> (r: Vec<Vec<u8>>)
        ensures
            (r.deep_view(), final(self).pending@) == feed_bytes(
                (Seq::<Seq<u8>>::empty(), old(self).pending@),
                chunk@,
            ),
    {
        let ghost whole = chunk@;
        let mut lines: Vec<Vec<u8>> = Vec::new();
        let mut i: usize = 0;
        proof {
            assert(whole.take(0) =~= Seq::<u8>::empty());
            assert((lines.deep_view(), self.pending@) == feed_bytes(
                (Seq::<Seq<u8>>::empty(), old(self).pending@),
                whole.take(0),
            ));
        }
        while i < chunk.len()
            invariant
                whole == chunk@,
                0 <= i <= whole.len(),
                (lines.deep_view(), self.pending@) == feed_bytes(
                    (Seq::<Seq<u8>>::empty(), old(self).pending@),
                    whole.take(i as int),
                ),
            decreases whole.len() - i,
        {
            let b = chunk[i];
            let ghost mid = (lines.deep_view(), self.pending@);
            proof {
                assert(whole.take(i + 1) =~= whole.take(i as int) + seq![whole[i as int]]);
                lemma_feed_bytes_append(
                    (Seq::<Seq<u8>>::empty(), old(self).pending@),
                    whole.take(i as int),
                    seq![whole[i as int]],
                );
                assert(seq![whole[i as int]].drop_first() =~= Seq::<u8>::empty());
                assert(feed_bytes(feed_byte(mid, b), Seq::<u8>::empty()) == feed_byte(mid, b));
                assert(feed_bytes(mid, seq![whole[i as int]]) == feed_byte(mid, b));
            }
            if b == 0x0A {
                let mut line: Vec<u8> = Vec::new();
                core::mem::swap(&mut line, &mut self.pending);
                let ghost before = lines.deep_view();
                lines.push(line);
                proof {
                    assert(lines.deep_view() =~~= before.push(line@));
                    assert(self.pending@ =~= Seq::<u8>::empty());
                    assert((lines.deep_view(), self.pending@) == feed_byte(mid, b));
                }
            } else {
                self.pending.push(b);
                proof {
                    assert((lines.deep_view(), self.pending@) == feed_byte(mid, b));
                }
            }
            i += 1;
        }
        proof {
            assert(whole.take(whole.len() as int) =~= whole);
        }
        lines
    }
}

/// Commands the channel reader applies from a run of lines: each line
/// that parses as a command, in order; unparsable lines are skipped.
pub open spec fn cmds_of_lines(lines: Seq<Seq<u8>>) -> Seq<CommandView>
    decreases lines.len(),
{
    if lines.len() == 0 {
        Seq::empty()
    } else {
        (match p_command_line(lines[0]) {
            Option::Some(c) => seq![c],
            Option::None => Seq::empty(),
        }) + cmds_of_lines(lines.drop_first())
    }
}

/// The in-process side of one control channel: connection flag and the
/// line buffer of the byte stream.
pub struct ChannelClient {
    pub connected: bool,
    pub buffer: LineBuffer,
}

impl ChannelClient {
    /// A fresh client: disconnected, nothing buffered.
    pub fn new() -> (r: Self)
        ensures
            !r.connected,
            r.buffer.pending@ == Seq::<u8>::empty(),
    {
        ChannelClient { connected: false, buffer: LineBuffer::new() }
    }

    /// A failed connect: the client stays disconnected and waits the fixed
    /// retry delay before the next attempt.
    pub fn on_connect_failed(&mut self) -> (delay_ms: u64)
        ensures
            !final(self).connected,
            final(self).buffer == old(self).buffer,
            delay_ms == RETRY_DELAY_MS,
    {
        self.connected = false;
        RETRY_DELAY_MS
    }

    /// A successful connect: reading begins with an empty line buffer.
    pub fn on_connected(&mut self)
        ensures
            final(self).connected,
            final(self).buffer.pending@ == Seq::<u8>::empty(),
    {
        self.connected = true;
        self.buffer = LineBuffer::new();
    }

    /// Stream end or read error: back to the retry loop after the fixed
    /// delay.
    pub fn on_disconnected(&mut self) -> (delay_ms: u64)
        ensures
            !final(self).connected,
            delay_ms == RETRY_DELAY_MS,
    {
        self.connected = false;
        RETRY_DELAY_MS
    }

    /// One read of stream bytes: completed lines are parsed and each
    /// parsed command applied to the overlay state in order, while the
    /// partial tail stays buffered for the next read.
    pub fn on_bytes(&mut self, chunk: &Vec<u8>, state: &mut OverlayState)
        ensures
            ({
                let fed = feed_bytes(
                    (Seq::<Seq<u8>>::empty(), old(self).buffer.pending@),
                    chunk@,
                );
                &&& final(self).buffer.pending@ == fed.1
                &&& final(state)@ == spec_apply_all(old(state)@, cmds_of_lines(fed.0))
                &&& final(self).connected == old(self).connected
            }),
            crate::state::valid_state(old(state)@) ==> crate::state::valid_state(final(state)@),
    {
        let lines = self.buffer.feed(chunk);
        let ghost lv = lines.deep_view();
        let mut i: usize = 0;
        proof {
            assert(lv.skip(0) =~= lv);
        }
        while i < lines.len()
            invariant
                0 <= i <= lines@.len(),
                lv == lines.deep_view(),
                spec_apply_all(old(state)@, cmds_of_lines(lv)) == spec_apply_all(
                    state@,
                    cmds_of_lines(lv.skip(i as int)),
                ),
                crate::state::valid_state(old(state)@) ==> crate::state::valid_state(state@),
            decreases lines@.len() - i,
        {
            proof {
                assert(lv.skip(i as int)[0] == lines@[i as int]@);
                assert(lv.skip(i as int).drop_first() =~= lv.skip(i + 1));
            }
            match parse_command(&lines[i]) {
                Option::Some(c) => {
                    proof {
                        assert(cmds_of_lines(lv.skip(i as int)) =~= seq![c@] + cmds_of_lines(
                            lv.skip(i + 1),
                        ));
                        assert(cmds_of_lines(lv.skip(i as int))[0] == c@);
                        assert(cmds_of_lines(lv.skip(i as int)).drop_first() =~= cmds_of_lines(
                            lv.skip(i + 1),
                        ));
                        if crate::state::valid_state(state@) {
                            crate::state::lemma_apply_preserves_valid(state@, c@);
                        }
                    }
                    state.apply_command(c);
                },
                Option::None => {
                    proof {
                        assert(cmds_of_lines(lv.skip(i as int)) =~= cmds_of_lines(lv.skip(i + 1)));
                    }
                },
            }
            i += 1;
        }
        proof {
            assert(lv.skip(lines@.len() as int) =~= Seq::<Seq<u8>>::empty());
        }
    }
}

/// View of one outbound queue.
pub struct QueueView {
    pub pid: u32,
    pub items: Seq<CommandView>,
}

/// One per-process outbound command queue, bounded; when full, the oldest
/// command is dropped to make room (delivery is at-most-once).
pub struct ChannelQueue {
    pub pid: u32,
    pub items: Vec<Command>,
}

impl View for ChannelQueue {
    type V = QueueView;

    open spec fn view(&self) -> QueueView {
        QueueView { pid: self.pid, items: self.items.deep_view() }
    }
}

/// What enqueueing does: append, dropping the oldest when full.
pub open spec fn spec_enqueue(items: Seq<CommandView>, c: CommandView) -> Seq<CommandView> {
    if items.len() >= QUEUE_CAP as int {
        items.drop_first().push(c)
    } else {
        items.push(c)
    }
}

impl ChannelQueue {
    /// An empty queue for one target process.
    pub fn new(pid: u32) -> (r: Self)
        ensures
            r@.pid == pid,
            r@.items == Seq::<CommandView>::empty(),
    {
        let r = ChannelQueue { pid, items: Vec::new() };
        proof {
            assert(r@.items =~= Seq::<CommandView>::empty());
        }
        r
    }

    /// Enqueues one command, dropping the oldest when the queue is full.
    pub fn enqueue(&mut self, c: Command)
        requires
            old(self)@.items.len() <= QUEUE_CAP as int,
        ensures
            final(self)@.pid == old(self)@.pid,
            final(self)@.items == spec_enqueue(old(self)@.items, c@),
            final(self)@.items.len() <= QUEUE_CAP as int,
    {
        if self.items.len() >= QUEUE_CAP {
            self.items.remove(0);
            proof {
                assert(self.items.deep_view() =~~= old(self)@.items.drop_first());
            }
        }
        let ghost mid = self.items.deep_view();
        self.items.push(c);
        proof {
            assert(self.items.deep_view() =~~= mid.push(c@));
        }
    }

    /// Takes the next command to write, oldest first.
    pub fn pop_front(&mut self) -> (r: Option<Command>)
        ensures
            match r {
                Option::Some(c) => old(self)@.items.len() > 0 && c@ == old(self)@.items[0]
                    && final(self)@.items == old(self)@.items.drop_first(),
                Option::None => old(self)@.items.len() == 0 && final(self)@.items == old(
                    self)@.items,
            },
            final(self)@.pid == old(self)@.pid,
    {
        if self.items.len() == 0 {
            return Option::None;
        }
        let c = self.items.remove(0);
        proof {
            assert(self.items.deep_view() =~~= old(self)@.items.drop_first());
        }
        Option::Some(c)
    }
}

/// The host's registry of open channels, one bounded queue per tracked
/// process id, each id at most once.
pub struct ChannelRegistry {
    pub channels: Vec<ChannelQueue>,
}

impl View for ChannelRegistry {
    type V = Seq<QueueView>;

    open spec fn view(&self) -> Seq<QueueView> {
        Seq::new(self.channels@.len(), |i: int| self.channels@[i]@)
    }
}

/// No process id appears twice.
pub open spec fn registry_wf(r: Seq<QueueView>) -> bool {
    &&& forall|i: int, j: int| 0 <= i < j < r.len() ==> r[i].pid != r[j].pid
    &&& forall|i: int| 0 <= i < r.len() ==> #[trigger] r[i].items.len() <= QUEUE_CAP as int
}

impl ChannelRegistry {
    /// An empty registry.
    pub fn new() -> (r: Self)
        ensures
            r@ == Seq::<QueueView>::empty(),
            registry_wf(r@),
    {
        let r = ChannelRegistry { channels: Vec::new() };
        proof {
            assert(r@ =~= Seq::<QueueView>::empty());
        }
        r
    }

    /// Whether a channel for this process id is open.
    pub fn has_channel(&self, pid: u32) -> (r: bool)
        ensures
            r == exists|i: int| 0 <= i < self@.len() && #[trigger] self@[i].pid == pid,
    {
        let mut i: usize = 0;
        while i < self.channels.len()
            invariant
                0 <= i <= self.channels@.len(),
                self@.len() == self.channels@.len(),
                forall|j: int| 0 <= j < i ==> #[trigger] self@[j].pid != pid,
            decreases self.channels@.len() - i,
        {
            if self.channels[i].pid == pid {
                proof {
                    assert(self@[i as int].pid == pid);
                }
                return true;
            }
            i += 1;
        }
        false
    }

    /// Opens a channel for a process id not yet registered; an id already
    /// present is left alone, so a process is never double-registered.
    pub fn open_channel(&mut self, pid: u32)
        requires
            registry_wf(old(self)@),
        ensures
            registry_wf(final(self)@),
            (exists|i: int| 0 <= i < old(self)@.len() && #[trigger] old(self)@[i].pid == pid)
                ==> final(self)@ == old(self)@,
            !(exists|i: int| 0 <= i < old(self)@.len() && #[trigger] old(self)@[i].pid == pid)
                ==> final(self)@ == old(self)@.push(
                QueueView { pid, items: Seq::<CommandView>::empty() },
            ),
    {
        if self.has_channel(pid) {
            return ;
        }
        let q = ChannelQueue::new(pid);
        self.channels.push(q);
        proof {
            assert(self@ =~= old(self)@.push(
                QueueView { pid, items: Seq::<CommandView>::empty() },
            ));
        }
    }

    /// Drops the channel of a disconnected or exited process.
    pub fn close_channel(&mut self, pid: u32)
        requires
            registry_wf(old(self)@),
        ensures
            registry_wf(final(self)@),
            forall|i: int|
                0 <= i < final(self)@.len() ==> #[trigger] final(self)@[i].pid != pid,
    {
        let mut i: usize = 0;
        while i < self.channels.len()
            invariant
                registry_wf(self@),
                0 <= i <= self.channels@.len(),
                self@.len() == self.channels@.len(),
                forall|j: int| 0 <= j < i ==> #[trigger] self@[j].pid != pid,
            decreases self.channels@.len() - i,
        {
            if self.channels[i].pid == pid {
                let ghost before = self@;
                self.channels.remove(i);
                proof {
                    assert(self@ =~= before.remove(i as int));
                    assert forall|a: int, b: int|
                        0 <= a < b < self@.len() implies self@[a].pid != self@[b].pid by {
                        if b < i {
                        } else if a < i {
                            assert(self@[b] == before[b + 1]);
                        } else {
                            assert(self@[a] == before[a + 1]);
                            assert(self@[b] == before[b + 1]);
                        }
                    }
                    assert forall|a: int| 0 <= a < self@.len() implies #[trigger] self@[a].pid
                        != pid by {
                        if a < i {
                        } else {
                            assert(self@[a] == before[a + 1]);
                            if before[a + 1].pid == pid {
                                assert(before[i as int].pid == pid);
                            }
                        }
                    }
                }
                return ;
            }
            i += 1;
        }
    }

    /// Broadcasts one command: it is enqueued on every open channel, in
    /// registry order, dropping each queue's oldest entry when full.
    /// Returns whether any channel received it, as a notification send
    /// reports.
    pub fn broadcast(&mut self, c: &Command) -> (sent: bool)
        requires
            registry_wf(old(self)@),
        ensures
            registry_wf(final(self)@),
            final(self)@.len() == old(self)@.len(),
            forall|i: int|
                0 <= i < final(self)@.len() ==> #[trigger] final(self)@[i] == (QueueView {
                    pid: old(self)@[i].pid,
                    items: spec_enqueue(old(self)@[i].items, c@),
                }),
            sent == (old(self)@.len() > 0),
    {
        let n = self.channels.len();
        let mut i: usize = 0;
        while i < n
            invariant
                n == self.channels@.len(),
                self@.len() == old(self)@.len(),
                n == self@.len(),
                0 <= i <= n,
                registry_wf(old(self)@),
                forall|j: int|
                    i <= j < self@.len() ==> #[trigger] self@[j] == old(self)@[j],
                forall|j: int|
                    0 <= j < i ==> #[trigger] self@[j] == (QueueView {
                        pid: old(self)@[j].pid,
                        items: spec_enqueue(old(self)@[j].items, c@),
                    }),
            decreases n - i,
        {
            let cmd = c.duplicate();
            let ghost before = self@;
            let ghost before_ch = self.channels@;
            let mut q = self.channels.remove(i);
            proof {
                assert(before[i as int].items.len() <= QUEUE_CAP as int);
                assert(q@ == before[i as int]);
            }
            q.enqueue(cmd);
            self.channels.insert(i, q);
            proof {
                assert(self.channels@ =~= before_ch.update(i as int, q));
                assert forall|j: int| 0 <= j < self@.len() && j != i implies #[trigger] self@[j]
                    == before[j] by {
                    assert(self.channels@[j] == before_ch[j]);
                }
                assert(self@[i as int] == (QueueView {
                    pid: before[i as int].pid,
                    items: spec_enqueue(before[i as int].items, cmd@),
                }));
            }
            i += 1;
        }
        proof {
            assert forall|j: int| 0 <= j < self@.len() implies #[trigger] self@[j].items.len()
                <= QUEUE_CAP as int by {
                assert(self@[j] == (QueueView {
                    pid: old(self)@[j].pid,
                    items: spec_enqueue(old(self)@[j].items, c@),
                }));
            }
            assert forall|a: int, b: int| 0 <= a < b < self@.len() implies self@[a].pid
                != self@[b].pid by {
                assert(self@[a].pid == old(self)@[a].pid);
                assert(self@[b].pid == old(self)@[b].pid);
            }
        }
        n > 0
    }
}

} // verus!
