use vstd::prelude::*;
use std::collections::VecDeque;
use crate::lang::table::Row;

verus! {

/// What a row stream is, mathematically: the rows that were sent and not
/// yet received, oldest first; how many of them it holds at most; and
/// which of its two ends are still there.
pub struct StreamModel {
    pub queued: Seq<Row>,
    pub capacity: nat,
    pub sender_open: bool,
    pub receiver_open: bool,
}

/// How an attempt to send ended.
pub enum SendOutcome {
    /// The row is in the stream.
    Sent,
    /// The stream is full: the sender waits and tries again.
    Full,
    /// An end of the stream is gone: the sender stops.
    Disconnected,
}

/// How an attempt to receive ended.
pub enum RecvOutcome {
    /// The oldest row, which has left the stream.
    Received(Row),
    /// Nothing is there yet: the receiver waits and tries again.
    Empty,
    /// Nothing is there and nothing will come: the receiver stops.
    EndOfStream,
}

/// An attempt to send, with the row handed back where it was not taken.
pub enum Offered {
    Sent,
    Full(Row),
    Disconnected(Row),
}

/// A new stream: empty, both ends there.
pub open spec fn opened(capacity: nat) -> StreamModel {
    StreamModel { queued: Seq::empty(), capacity, sender_open: true, receiver_open: true }
}

/// How sending into the stream ends. A lost end is told before a full
/// buffer is, so that a sender never waits on a stream nobody reads.
pub open spec fn send_outcome(stream: StreamModel) -> SendOutcome {
    if !stream.receiver_open || !stream.sender_open {
        SendOutcome::Disconnected
    } else if stream.queued.len() >= stream.capacity {
        SendOutcome::Full
    } else {
        SendOutcome::Sent
    }
}

/// The stream after an attempt to send `row`.
pub open spec fn after_send(stream: StreamModel, row: Row) -> StreamModel {
    match send_outcome(stream) {
        SendOutcome::Sent => StreamModel { queued: stream.queued.push(row), ..stream },
        _ => stream,
    }
}

/// How receiving from the stream ends. Rows that were sent before the
/// sender left are still received.
pub open spec fn recv_outcome(stream: StreamModel) -> RecvOutcome {
    if !stream.receiver_open {
        RecvOutcome::EndOfStream
    } else if stream.queued.len() > 0 {
        RecvOutcome::Received(stream.queued[0])
    } else if stream.sender_open {
        RecvOutcome::Empty
    } else {
        RecvOutcome::EndOfStream
    }
}

/// The stream after an attempt to receive.
pub open spec fn after_recv(stream: StreamModel) -> StreamModel {
    match recv_outcome(stream) {
        RecvOutcome::Received(_) => StreamModel { queued: stream.queued.skip(1), ..stream },
        _ => stream,
    }
}

/// The stream once its sender is gone.
pub open spec fn sender_closed(stream: StreamModel) -> StreamModel {
    StreamModel { sender_open: false, ..stream }
}

/// The stream once its receiver is gone: what waited in it is dropped.
pub open spec fn receiver_closed(stream: StreamModel) -> StreamModel {
    StreamModel { receiver_open: false, queued: Seq::empty(), ..stream }
}

/// The rows that a receiver gets by receiving until the stream gives no
/// more, in the order in which it gets them.
pub open spec fn drained(stream: StreamModel) -> Seq<Row>
    decreases stream.queued.len(),
{
    match recv_outcome(stream) {
        RecvOutcome::Received(row) => seq![row] + drained(after_recv(stream)),
        _ => Seq::empty(),
    }
}

/// A receiver gets the rows in the order in which they were sent: what it
/// drains from a stream is what waits there, oldest first.
pub proof fn law_received_in_order(stream: StreamModel)
    requires
        stream.receiver_open,
    ensures
        drained(stream) == stream.queued,
    decreases stream.queued.len(),
{
    if stream.queued.len() > 0 {
        law_received_in_order(after_recv(stream));
        assert(seq![stream.queued[0]] + stream.queued.skip(1) =~= stream.queued);
    } else {
        assert(drained(stream) =~= stream.queued);
    }
}

/// A row that was sent is received after all that were sent before it.
pub proof fn law_sent_row_comes_last(stream: StreamModel, row: Row)
    requires
        send_outcome(stream) is Sent,
    ensures
        drained(after_send(stream, row)) == drained(stream).push(row),
{
    law_received_in_order(stream);
    law_received_in_order(after_send(stream, row));
}

/// An end that is gone stays gone, whatever is tried on the stream, and
/// once the receiver is gone every attempt to send ends at once, as
/// disconnected, however full the stream was.
pub proof fn law_disconnect_is_final(stream: StreamModel, row: Row)
    ensures
        !stream.receiver_open ==> send_outcome(stream) is Disconnected,
        !stream.receiver_open ==> !after_send(stream, row).receiver_open && !after_recv(
            stream,
        ).receiver_open && !sender_closed(stream).receiver_open,
        !stream.sender_open ==> !after_send(stream, row).sender_open && !after_recv(stream).sender_open
            && !receiver_closed(stream).sender_open,
        send_outcome(receiver_closed(stream)) is Disconnected,
        recv_outcome(receiver_closed(stream)) is EndOfStream,
{
}

/// A bounded stream of rows between one sender and one receiver. It never
/// waits itself: it says when its caller has to.
pub struct RowStream {
    rows: VecDeque<Row>,
    capacity: usize,
    sender_open: bool,
    receiver_open: bool,
}

impl View for RowStream {
    type V = StreamModel;

    closed spec fn view(&self) -> StreamModel {
        StreamModel {
            queued: self.rows@,
            capacity: self.capacity as nat,
            sender_open: self.sender_open,
            receiver_open: self.receiver_open,
        }
    }
}

impl RowStream {
    /// An empty stream that holds up to `capacity` rows.
    pub fn new(capacity: usize) -> (stream: RowStream)
        ensures
            stream@ == opened(capacity as nat),
    {
        RowStream { rows: VecDeque::new(), capacity, sender_open: true, receiver_open: true }
    }

    /// Tries to send a row. The row comes back where the stream did not
    /// take it.
    pub fn offer(&mut self, row: Row) -> (r: Offered)
        ensures
            final(self)@ == after_send(old(self)@, row),
            match send_outcome(old(self)@) {
                SendOutcome::Sent => r is Sent,
                SendOutcome::Full => r == Offered::Full(row),
                SendOutcome::Disconnected => r == Offered::Disconnected(row),
            },
    {
        if !self.receiver_open || !self.sender_open {
            Offered::Disconnected(row)
        } else if self.rows.len() >= self.capacity {
            Offered::Full(row)
        } else {
            self.rows.push_back(row);
            Offered::Sent
        }
    }

    /// Tries to receive the oldest row.
    pub fn take(&mut self) -> (r: RecvOutcome)
        ensures
            r == recv_outcome(old(self)@),
            final(self)@ == after_recv(old(self)@),
    {
        if !self.receiver_open {
            return RecvOutcome::EndOfStream;
        }
        match self.rows.pop_front() {
            Some(row) => {
                proof {
                    assert(self.rows@ =~= old(self).rows@.skip(1));
                }
                RecvOutcome::Received(row)
            },
            None => if self.sender_open {
                RecvOutcome::Empty
            } else {
                RecvOutcome::EndOfStream
            },
        }
    }

    /// The sender leaves. What it sent can still be received.
    pub fn close_sender(&mut self)
        ensures
            final(self)@ == sender_closed(old(self)@),
    {
        self.sender_open = false;
    }

    /// The receiver leaves. What waited for it is dropped.
    pub fn close_receiver(&mut self)
        ensures
            final(self)@ == receiver_closed(old(self)@),
    {
        self.receiver_open = false;
        self.rows.clear();
        proof {
            assert(self.rows@ =~= Seq::<Row>::empty());
        }
    }
}

} // verus!
