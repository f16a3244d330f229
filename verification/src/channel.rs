//! A model of the bounded channel that carries report rows from the
//! scenarios to the writer: a first-in, first-out queue with a capacity, the
//! count of its producers and the state of its consumer. It never waits: a
//! send that would have to wait answers `Full`. What is proved here of
//! backpressure is proved of this queue; a program that sends across threads
//! either drives its sends by it under a lock or brings a channel of its own.

use vstd::prelude::*;

verus! {

/// The index of a scenario in the list of parameter sets.
#[derive(Clone, Copy, Debug, PartialEq, Eq, Structural)]
pub struct Scenario {
    pub scenario: usize,
}

/// One report record on its way to the writer, tagged with its scenario.
#[derive(Clone, Copy, Debug, PartialEq, Eq, Structural)]
pub struct Row {
    pub scenario: usize,
    pub time: u64,
}

/// Why a row was not taken.
#[derive(Clone, Copy, Debug, PartialEq, Eq, Structural)]
pub enum SendError {
    /// The channel is full: the producer has to wait until the consumer has
    /// taken a row out.
    Full,
    /// The consumer is gone while a producer still has rows.
    Closed,
}

/// The channel as a mathematical value. A capacity of zero means that the
/// channel is unbounded.
pub struct ChannelState {
    pub capacity: nat,
    pub rows: Seq<Row>,
    pub senders: nat,
    pub receiver_open: bool,
}

impl ChannelState {
    /// A bounded channel never holds more rows than its capacity.
    pub open spec fn wf(self) -> bool {
        self.capacity > 0 ==> self.rows.len() <= self.capacity
    }

    /// No further row fits.
    pub open spec fn full(self) -> bool {
        self.capacity > 0 && self.rows.len() >= self.capacity
    }

    /// What a send answers.
    pub open spec fn send_outcome(self) -> Result<(), SendError> {
        if !self.receiver_open {
            Err(SendError::Closed)
        } else if self.full() {
            Err(SendError::Full)
        } else {
            Ok(())
        }
    }

    /// The channel after a send of `row`: the row is queued behind the others
    /// where the send is accepted, and nothing changes where it is not.
    pub open spec fn after_send(self, row: Row) -> ChannelState {
        if self.send_outcome().is_ok() {
            ChannelState { rows: self.rows.push(row), ..self }
        } else {
            self
        }
    }

    /// The channel after the consumer took the oldest row, if there was one.
    pub open spec fn after_recv(self) -> ChannelState {
        if self.rows.len() > 0 {
            ChannelState { rows: self.rows.drop_first(), ..self }
        } else {
            self
        }
    }

    /// The channel after `rows` were sent one after the other.
    pub open spec fn after_sends(self, rows: Seq<Row>) -> ChannelState
        decreases rows.len(),
    {
        if rows.len() == 0 {
            self
        } else {
            self.after_sends(rows.drop_last()).after_send(rows.last())
        }
    }

    /// Every producer is gone and every row has been taken.
    pub open spec fn finished(self) -> bool {
        self.senders == 0 && self.rows.len() == 0
    }
}

/// A first-in, first-out queue of rows for many producers and one consumer.
pub struct ReportChannel {
    capacity: usize,
    rows: Vec<Row>,
    senders: usize,
    receiver_open: bool,
}

impl View for ReportChannel {
    type V = ChannelState;

    closed spec fn view(&self) -> ChannelState {
        ChannelState {
            capacity: self.capacity as nat,
            rows: self.rows@,
            senders: self.senders as nat,
            receiver_open: self.receiver_open,
        }
    }
}

impl ReportChannel {
    /// The channel's invariant holds.
    pub open spec fn wf(&self) -> bool {
        self@.wf()
    }

    /// An empty channel with one producer and an open consumer. A capacity of
    /// zero makes it unbounded.
    pub fn new(capacity: usize) -> (channel: ReportChannel)
        ensures
            channel.wf(),
            channel@ == (ChannelState {
                capacity: capacity as nat,
                rows: Seq::empty(),
                senders: 1,
                receiver_open: true,
            }),
    {
        ReportChannel { capacity, rows: Vec::new(), senders: 1, receiver_open: true }
    }

    /// The capacity; zero for an unbounded channel.
    pub fn capacity(&self) -> (capacity: usize)
        ensures
            capacity == self@.capacity,
    {
        self.capacity
    }

    /// The number of rows waiting for the consumer.
    pub fn len(&self) -> (n: usize)
        ensures
            n == self@.rows.len(),
    {
        self.rows.len()
    }

    /// Whether a send would have to wait.
    pub fn is_full(&self) -> (full: bool)
        ensures
            full == self@.full(),
    {
        self.capacity > 0 && self.rows.len() >= self.capacity
    }

    /// Sends a row without waiting. Answers `Closed` when the consumer is
    /// gone, else `Full` when a bounded channel holds as many rows as its
    /// capacity; in both cases the row is not taken and the producer is to
    /// treat `Full` as a stall, sending again once the consumer has drained a
    /// row.
    pub fn try_send(&mut self, row: Row) -> (sent: Result<(), SendError>)
        requires
            old(self).wf(),
        ensures
            final(self).wf(),
            sent == old(self)@.send_outcome(),
            final(self)@ == old(self)@.after_send(row),
    {
        if !self.receiver_open {
            return Err(SendError::Closed);
        }
        if self.capacity > 0 && self.rows.len() >= self.capacity {
            return Err(SendError::Full);
        }
        self.rows.push(row);
        Ok(())
    }

    /// Takes the oldest row out; `None` when no row is waiting.
    pub fn recv(&mut self) -> (row: Option<Row>)
        requires
            old(self).wf(),
        ensures
            final(self).wf(),
            final(self)@ == old(self)@.after_recv(),
            row == (if old(self)@.rows.len() > 0 {
                Some(old(self)@.rows[0])
            } else {
                None
            }),
    {
        if self.rows.len() == 0 {
            None
        } else {
            let row = self.rows.remove(0);
            assert(self.rows@ =~= old(self).rows@.drop_first());
            Some(row)
        }
    }

    /// Registers one more producer. Refuses, answering `false`, when the
    /// count of producers cannot grow.
    pub fn add_sender(&mut self) -> (added: bool)
        ensures
            added == (old(self)@.senders < usize::MAX),
            final(self)@ == (ChannelState {
                senders: if added {
                    old(self)@.senders + 1
                } else {
                    old(self)@.senders
                },
                ..old(self)@
            }),
    {
        if self.senders < usize::MAX {
            self.senders = self.senders + 1;
            true
        } else {
            false
        }
    }

    /// One producer is done and gives up its handle.
    pub fn drop_sender(&mut self)
        ensures
            final(self)@ == (ChannelState {
                senders: if old(self)@.senders > 0 {
                    (old(self)@.senders - 1) as nat
                } else {
                    0
                },
                ..old(self)@
            }),
    {
        if self.senders > 0 {
            self.senders = self.senders - 1;
        }
    }

    /// The consumer goes away: later sends answer `Closed`.
    pub fn close_receiver(&mut self)
        ensures
            final(self)@ == (ChannelState { receiver_open: false, ..old(self)@ }),
    {
        self.receiver_open = false;
    }

    /// Whether the consumer is still there to take rows.
    pub fn is_receiver_open(&self) -> (open: bool)
        ensures
            open == self@.receiver_open,
    {
        self.receiver_open
    }

    /// Whether the consumer is done: every producer has given up its handle
    /// and no row is waiting.
    pub fn is_finished(&self) -> (finished: bool)
        ensures
            finished == self@.finished(),
    {
        self.senders == 0 && self.rows.len() == 0
    }
}

/// Hands report records of one scenario to a channel.
#[derive(Clone, Copy, Debug, PartialEq, Eq, Structural)]
pub struct ChannelReportHandler {
    pub id: usize,
}

/// The handler that tags every record with `id` and sends it to a channel.
pub fn get_bounded_channel_report_handler(id: usize) -> (handler: ChannelReportHandler)
    ensures
        handler.id == id,
{
    ChannelReportHandler { id }
}

impl ChannelReportHandler {
    /// Sends the record of an event at `time`, tagged with the handler's
    /// scenario, to a channel whose consumer is there: the row is queued
    /// behind the others, or the answer is `Full` and nothing changes. A
    /// consumer that is gone is fatal to the producer: the caller tests
    /// `is_receiver_open` first and stops where it is not.
    pub fn handle(&self, channel: &mut ReportChannel, time: u64) -> (sent: Result<(), SendError>)
        requires
            old(channel).wf(),
            old(channel)@.receiver_open,
        ensures
            final(channel).wf(),
            sent == (if old(channel)@.full() {
                Err::<(), SendError>(SendError::Full)
            } else {
                Ok::<(), SendError>(())
            }),
            final(channel)@ == (if old(channel)@.full() {
                old(channel)@
            } else {
                (ChannelState {
                    rows: old(channel)@.rows.push((Row { scenario: self.id, time })),
                    ..old(channel)@
                })
            }),
    {
        channel.try_send(Row { scenario: self.id, time })
    }
}

/// Sends to a channel with an open consumer and room for `rows` are all
/// accepted and queue up in order.
pub proof fn lemma_sends_fill(c: ChannelState, rows: Seq<Row>)
    requires
        c.receiver_open,
        c.capacity == 0 || c.rows.len() + rows.len() <= c.capacity,
    ensures
        c.after_sends(rows) == (ChannelState { rows: c.rows + rows, ..c }),
    decreases rows.len(),
{
    if rows.len() == 0 {
        assert(c.rows + rows =~= c.rows);
    } else {
        lemma_sends_fill(c, rows.drop_last());
        assert((c.rows + rows.drop_last()).push(rows.last()) =~= c.rows + rows);
    }
}

/// Backpressure: once an empty channel of capacity `k` has taken `k` rows,
/// the next send stalls and leaves the channel as it is, however often it is
/// tried; after the consumer has taken one row out, the send goes through.
pub proof fn lemma_full_channel_stalls_until_drained(c: ChannelState, rows: Seq<Row>, next: Row)
    requires
        c.receiver_open,
        c.capacity > 0,
        c.rows.len() == 0,
        rows.len() == c.capacity,
    ensures
        c.after_sends(rows).send_outcome() == Err::<(), SendError>(SendError::Full),
        c.after_sends(rows).after_send(next) == c.after_sends(rows),
        c.after_sends(rows).after_recv().send_outcome().is_ok(),
        c.after_sends(rows).after_recv().after_send(next).rows == rows.drop_first().push(next),
        c.after_sends(rows).after_recv().after_send(next).wf(),
{
    lemma_sends_fill(c, rows);
    assert(c.rows + rows =~= rows);
}

/// The consumer receives the rows in the order in which they were sent.
pub proof fn lemma_first_in_first_out(c: ChannelState, rows: Seq<Row>)
    requires
        c.receiver_open,
        c.rows.len() == 0,
        rows.len() > 0,
        c.capacity == 0 || rows.len() <= c.capacity,
    ensures
        c.after_sends(rows).rows[0] == rows[0],
        c.after_sends(rows).after_recv().rows == rows.drop_first(),
{
    lemma_sends_fill(c, rows);
    assert(c.rows + rows =~= rows);
}

} // verus!
