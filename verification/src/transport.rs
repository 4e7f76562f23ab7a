//! The two transports, as far as they are rules on octets: one message per
//! datagram; on a stream, each message behind its length in two octets.
//!
//! The functions here decide what is done with the octets that arrived. To
//! receive and to send is left to the caller.

use vstd::prelude::*;
use crate::compression::{Reader, ReaderState, Writer};
use crate::message::{message_bytes, message_fault, message_read, Message, MessageView};
use crate::record::RecordError;
use crate::wire::{be16, opt_octets, u16_at, WireError};

verus! {

/// The longest message that a frame of the stream transport can carry.
pub const MAX_FRAME: usize = 65535;

/// The size of a datagram in the classic protocol.
pub const CLASSIC_DATAGRAM: usize = 512;

/// The size of a datagram that a peer may ask for by extension.
pub const EXTENDED_DATAGRAM: usize = 4096;

/// The size of the buffer that datagrams are received into: the classic
/// 512 octets, or the size that was advertised by extension where that is
/// more.
pub fn datagram_capacity(advertised: Option<u16>) -> (n: usize)
    ensures
        n == match advertised {
            Some(size) if size > CLASSIC_DATAGRAM => size as usize,
            _ => CLASSIC_DATAGRAM,
        },
{
    match advertised {
        Some(size) => if size as usize > CLASSIC_DATAGRAM {
            size as usize
        } else {
            CLASSIC_DATAGRAM
        },
        None => CLASSIC_DATAGRAM,
    }
}

/// Reads the message that `buf` begins with. What follows it is ignored.
pub fn decode_message(buf: &[u8]) -> (r: Result<Message, RecordError>)
    ensures
        match message_read(ReaderState::start(buf@)) {
            Ok((m, _)) => r is Ok && r->Ok_0@ == m && r->Ok_0.counts_match()
                && crate::roundtrip::message_sound(m) && message_fault(m) is None,
            Err(e) => r is Err && r->Err_0 == e,
        },
{
    let mut reader = Reader::new(buf);
    Message::read(&mut reader)
}

/// The octets of a message, unless it has a fault.
pub fn encode_message(message: &Message) -> (r: Result<Vec<u8>, WireError>)
    requires
        message.counts_match(),
    ensures
        match message_fault(message@) {
            Some(e) => r is Err && r->Err_0 == e,
            None => r is Ok && r->Ok_0@ == message_bytes(message@),
        },
{
    let mut writer = Writer::new();
    match message.write(&mut writer) {
        Err(e) => Err(e),
        Ok(()) => {
            let out = writer.into_bytes();
            assert(out@ =~= message_bytes(message@));
            Ok(out)
        },
    }
}

/// The datagram that answers with `response`: its octets, where its counts
/// are the lengths of its sections and it has no fault. Else there is
/// nothing to send.
pub open spec fn datagram_reply(response: MessageView) -> Option<Seq<u8>> {
    if response.counts_match() && message_fault(response) is None {
        Some(message_bytes(response))
    } else {
        None
    }
}

/// A message behind its length in two octets.
pub open spec fn framed(body: Seq<u8>) -> Seq<u8> {
    be16(body.len() as u16) + body
}

/// The frame that answers with `response`: as the datagram, unless the
/// message has more octets than a frame can carry.
pub open spec fn stream_reply(response: MessageView) -> Option<Seq<u8>> {
    match datagram_reply(response) {
        Some(body) => if body.len() <= MAX_FRAME {
            Some(framed(body))
        } else {
            None
        },
        None => None,
    }
}

/// The datagram to send for `response`, if there is one.
pub fn reply_datagram(response: &Message) -> (r: Option<Vec<u8>>)
    ensures
        opt_octets(r) == datagram_reply(response@),
{
    if !response.has_matching_counts() {
        return None;
    }
    match encode_message(response) {
        Ok(body) => Some(body),
        Err(_) => None,
    }
}

/// `body` behind its length, unless it is too long for a frame.
pub fn frame(body: &[u8]) -> (r: Option<Vec<u8>>)
    ensures
        opt_octets(r) == if body@.len() <= MAX_FRAME {
            Some(framed(body@))
        } else {
            None
        },
{
    if body.len() > MAX_FRAME {
        return None;
    }
    let mut out: Vec<u8> = Vec::new();
    crate::wire::push_u16(&mut out, body.len() as u16);
    crate::wire::push_range(&mut out, body, 0, body.len());
    assert(body@.subrange(0, body@.len() as int) =~= body@);
    assert(out@ =~= framed(body@));
    Some(out)
}

/// The frame to send for `response`, if there is one.
pub fn reply_stream(response: &Message) -> (r: Option<Vec<u8>>)
    ensures
        opt_octets(r) == stream_reply(response@),
{
    match reply_datagram(response) {
        Some(body) => frame(body.as_slice()),
        None => None,
    }
}

/// Serves one datagram: reads the request, hands it to the handler and
/// gives the datagram to send back. A datagram that is no message is dropped:
/// there is nothing to send, and the handler is not called. Nothing is sent
/// either where the handler's response cannot be written.
pub fn serve_datagram<F: Fn(Message) -> Message>(datagram: &[u8], handler: &F) -> (r: Option<
    Vec<u8>,
>)
    requires
        forall|m: Message| m.counts_match() ==> call_requires(handler, (m,)),
    ensures
        match message_read(ReaderState::start(datagram@)) {
            Err(_) => r is None,
            Ok((q, _)) => exists|request: Message, response: Message|
                request@ == q && call_ensures(handler, (request,), response) && opt_octets(r)
                    == datagram_reply(response@),
        },
{
    match decode_message(datagram) {
        Err(_) => None,
        Ok(request) => {
            let ghost asked = request;
            let response = handler(request);
            let r = reply_datagram(&response);
            assert(asked@ == message_read(ReaderState::start(datagram@))->Ok_0.0
                && call_ensures(handler, (asked,), response) && opt_octets(r) == datagram_reply(
                response@,
            ));
            r
        },
    }
}

/// The message of the frame that `buf` begins with, where `buf` holds all
/// of that frame.
pub open spec fn front_frame(buf: Seq<u8>) -> Option<Seq<u8>> {
    if buf.len() >= 2 && buf.len() >= 2 + u16_at(buf, 0) {
        Some(buf.subrange(2, 2 + u16_at(buf, 0)))
    } else {
        None
    }
}

/// The length of the message of the frame that `buf` begins with, where
/// `buf` holds all of that frame.
pub fn front_frame_len(buf: &[u8]) -> (r: Option<usize>)
    ensures
        match front_frame(buf@) {
            Some(body) => r == Some(body.len() as usize) && body.len() == u16_at(buf@, 0),
            None => r is None,
        },
{
    if buf.len() < 2 {
        return None;
    }
    let n: usize = buf[0] as usize * 256 + buf[1] as usize;
    if buf.len() - 2 < n {
        return None;
    }
    Some(n)
}

/// What serving the front of a stream comes to.
#[derive(Debug, Clone, PartialEq, Eq)]
pub enum StreamStep {
    /// The frame at the front is not complete yet: more octets are needed.
    NeedMore,
    /// The frame at the front holds no message: the connection is closed.
    Close,
    /// The frame at the front was served. `consumed` octets of the input
    /// are done with, and `reply` is the frame to send back, if any.
    Reply { consumed: usize, reply: Option<Vec<u8>> },
}

/// The step is a reply that is done with `consumed` octets and sends
/// `reply`.
pub open spec fn is_reply(step: StreamStep, consumed: int, reply: Option<Seq<u8>>) -> bool {
    match step {
        StreamStep::Reply { consumed: c, reply: r } => c == consumed && opt_octets(r) == reply,
        _ => false,
    }
}

/// Serves the frame at the front of what a connection has received: reads
/// the request in it, hands it to the handler and gives the frame to send
/// back. The caller goes on behind the consumed octets once the reply is
/// written, so that requests are answered one by one, in their order. A
/// frame that holds no message closes the connection, and the handler is not
/// called: a stream cannot be put in step again.
pub fn serve_stream<F: Fn(Message) -> Message>(buf: &[u8], handler: &F) -> (r: StreamStep)
    requires
        forall|m: Message| m.counts_match() ==> call_requires(handler, (m,)),
    ensures
        match front_frame(buf@) {
            None => r is NeedMore,
            Some(body) => match message_read(ReaderState::start(body)) {
                Err(_) => r is Close,
                Ok((q, _)) => exists|request: Message, response: Message|
                    request@ == q && call_ensures(handler, (request,), response) && is_reply(
                        r,
                        2 + body.len() as int,
                        stream_reply(response@),
                    ),
            },
        },
{
    let n: usize = match front_frame_len(buf) {
        None => {
            return StreamStep::NeedMore;
        },
        Some(n) => n,
    };
    let body = vstd::slice::slice_subrange(buf, 2, 2 + n);
    match decode_message(body) {
        Err(_) => StreamStep::Close,
        Ok(request) => {
            let ghost asked = request;
            let response = handler(request);
            let reply = reply_stream(&response);
            let r = StreamStep::Reply { consumed: 2 + n, reply };
            assert(asked@ == message_read(ReaderState::start(body@))->Ok_0.0 && call_ensures(
                handler,
                (asked,),
                response,
            ) && is_reply(r, 2 + body@.len() as int, stream_reply(response@)));
            r
        },
    }
}

/// What the datagram loop got from its socket.
#[derive(Debug, Clone, Copy, PartialEq, Eq)]
pub enum Received<'a> {
    /// A datagram arrived.
    Datagram(&'a [u8]),
    /// No datagram is there yet.
    NotReady,
    /// The socket failed.
    Failed,
}

/// What the datagram loop does next.
#[derive(Debug, Clone, PartialEq, Eq)]
pub enum DatagramAction {
    /// Send these octets back to where the datagram came from, and go on.
    Send(Vec<u8>),
    /// Go on with the next datagram: there is nothing to send.
    GoOn,
    /// Wait until the socket has a datagram, and go on.
    Wait,
    /// End the loop.
    Stop,
}

/// What the loop does for a reply: sends it, or goes on where there is none.
pub open spec fn datagram_action(action: DatagramAction, reply: Option<Seq<u8>>) -> bool {
    match reply {
        Some(octets) => action matches DatagramAction::Send(b) && b@ == octets,
        None => action is GoOn,
    }
}

/// Decides what the datagram loop does with what it got from its socket. A
/// datagram is served as `serve_datagram` serves it, and the loop goes on,
/// whether the datagram was a message or not. Without a datagram the loop
/// waits. Only a failure of the socket ends the loop.
pub fn datagram_step<F: Fn(Message) -> Message>(received: Received, handler: &F) -> (r:
    DatagramAction)
    requires
        forall|m: Message| m.counts_match() ==> call_requires(handler, (m,)),
    ensures
        r is Stop <==> received is Failed,
        r is Wait <==> received is NotReady,
        match received {
            Received::Datagram(datagram) => match message_read(ReaderState::start(datagram@)) {
                Err(_) => r is GoOn,
                Ok((q, _)) => exists|request: Message, response: Message|
                    request@ == q && call_ensures(handler, (request,), response)
                        && datagram_action(r, datagram_reply(response@)),
            },
            Received::NotReady => r is Wait,
            Received::Failed => r is Stop,
        },
{
    match received {
        Received::Datagram(datagram) => match serve_datagram(datagram, handler) {
            Some(reply) => DatagramAction::Send(reply),
            None => DatagramAction::GoOn,
        },
        Received::NotReady => DatagramAction::Wait,
        Received::Failed => DatagramAction::Stop,
    }
}

/// What a stream connection waits for.
#[derive(Debug, Clone, Copy, PartialEq, Eq, Structural)]
pub enum Waiting {
    /// The two octets of the length of the next frame.
    Length,
    /// The octets of a message of this length.
    Body(usize),
    /// The end of the writing of a reply.
    Reply,
    /// Nothing: the connection is closed.
    Closed,
}

/// What happened on a stream connection.
#[derive(Debug, Clone, Copy, PartialEq, Eq)]
pub enum StreamEvent<'a> {
    /// The octets that were asked for have been read, all of them.
    Octets(&'a [u8]),
    /// The reply has been written.
    Written,
    /// The octets that were asked for could not be read.
    Failed,
}

/// An event as mathematics.
pub enum EventView {
    Octets(Seq<u8>),
    Written,
    Failed,
}

impl<'a> View for StreamEvent<'a> {
    type V = EventView;

    open spec fn view(&self) -> EventView {
        match *self {
            StreamEvent::Octets(b) => EventView::Octets(b@),
            StreamEvent::Written => EventView::Written,
            StreamEvent::Failed => EventView::Failed,
        }
    }
}

/// What is to be done on a stream connection.
#[derive(Debug, Clone, PartialEq, Eq)]
pub enum StreamAction {
    /// Read exactly this many octets.
    Read(usize),
    /// Write these octets, all of them.
    Write(Vec<u8>),
    /// Close the connection.
    Close,
}

/// An action as mathematics.
pub enum ActionView {
    Read(int),
    Write(Seq<u8>),
    Close,
}

impl View for StreamAction {
    type V = ActionView;

    open spec fn view(&self) -> ActionView {
        match *self {
            StreamAction::Read(n) => ActionView::Read(n as int),
            StreamAction::Write(b) => ActionView::Write(b@),
            StreamAction::Close => ActionView::Close,
        }
    }
}

/// The event hands over a request: the octets of a message that the
/// connection waited for, and that can be read.
pub open spec fn hands_request(w: Waiting, e: EventView) -> bool {
    w matches Waiting::Body(n) && e matches EventView::Octets(b) && b.len() == n && message_read(
        ReaderState::start(b),
    ) is Ok
}

/// What a connection that waits for `w` does on the event `e`, where
/// `reply` is the frame that answers the request, if the event hands one
/// over and it has an answer.
///
/// The length of a frame is followed by the reading of its message. A
/// message that can be read is answered: its reply is written, and only
/// when that is done, the next length is read. Where there is no reply to
/// write, the next length is read at once. A message that cannot be read,
/// a failure, or an event that the connection did not wait for closes the
/// connection.
pub open spec fn stream_next(w: Waiting, e: EventView, reply: Option<Seq<u8>>) -> (
    Waiting,
    ActionView,
) {
    match (w, e) {
        (Waiting::Length, EventView::Octets(b)) => if b.len() == 2 {
            (Waiting::Body(u16_at(b, 0) as usize), ActionView::Read(u16_at(b, 0) as int))
        } else {
            (Waiting::Closed, ActionView::Close)
        },
        (Waiting::Body(n), EventView::Octets(b)) => if hands_request(w, e) {
            match reply {
                Some(frame) => (Waiting::Reply, ActionView::Write(frame)),
                None => (Waiting::Length, ActionView::Read(2)),
            }
        } else {
            (Waiting::Closed, ActionView::Close)
        },
        (Waiting::Reply, EventView::Written) => (Waiting::Length, ActionView::Read(2)),
        _ => (Waiting::Closed, ActionView::Close),
    }
}

/// How a connection begins: it waits for a length and reads its two octets.
pub fn stream_open() -> (r: (Waiting, StreamAction))
    ensures
        r.0 == Waiting::Length,
        r.1@ == ActionView::Read(2),
{
    (Waiting::Length, StreamAction::Read(2))
}

/// One step of a stream connection: from what it waited for and what
/// happened to what it waits for next and what is to be done. A request is
/// handed to the handler, and its reply is written before anything more is
/// read.
pub fn stream_step<F: Fn(Message) -> Message>(
    waiting: Waiting,
    event: StreamEvent,
    handler: &F,
) -> (r: (Waiting, StreamAction))
    requires
        forall|m: Message| m.counts_match() ==> call_requires(handler, (m,)),
    ensures
        if hands_request(waiting, event@) {
            exists|request: Message, response: Message|
                request@ == message_read(ReaderState::start(event@->Octets_0))->Ok_0.0
                    && call_ensures(handler, (request,), response) && (r.0, r.1@) == stream_next(
                    waiting,
                    event@,
                    stream_reply(response@),
                )
        } else {
            (r.0, r.1@) == stream_next(waiting, event@, None)
        },
{
    match (waiting, event) {
        (Waiting::Length, StreamEvent::Octets(b)) => {
            if b.len() != 2 {
                return (Waiting::Closed, StreamAction::Close);
            }
            let n: usize = b[0] as usize * 256 + b[1] as usize;
            (Waiting::Body(n), StreamAction::Read(n))
        },
        (Waiting::Body(n), StreamEvent::Octets(b)) => {
            if b.len() != n {
                return (Waiting::Closed, StreamAction::Close);
            }
            match decode_message(b) {
                Err(_) => (Waiting::Closed, StreamAction::Close),
                Ok(request) => {
                    let ghost asked = request;
                    let response = handler(request);
                    let r = match reply_stream(&response) {
                        Some(frame) => (Waiting::Reply, StreamAction::Write(frame)),
                        None => (Waiting::Length, StreamAction::Read(2)),
                    };
                    assert(asked@ == message_read(ReaderState::start(b@))->Ok_0.0 && call_ensures(
                        handler,
                        (asked,),
                        response,
                    ) && (r.0, r.1@) == stream_next(waiting, event@, stream_reply(response@)));
                    r
                },
            }
        },
        (Waiting::Reply, StreamEvent::Written) => (Waiting::Length, StreamAction::Read(2)),
        _ => (Waiting::Closed, StreamAction::Close),
    }
}

/// No pipelining: while a reply is being written, nothing is read. A reply
/// is written only for a request that was handed over, the connection then
/// waits for the end of the writing, and from there it reads again only on
/// the event that the reply has been written.
pub proof fn lemma_reply_before_read(w: Waiting, e: EventView, reply: Option<Seq<u8>>)
    ensures
        stream_next(w, e, reply).1 is Write ==> hands_request(w, e) && reply == Some(
            stream_next(w, e, reply).1->Write_0,
        ) && stream_next(w, e, reply).0 is Reply,
        w is Reply && stream_next(w, e, reply).1 is Read ==> e is Written,
        stream_next(w, e, reply).1 is Read ==> !(stream_next(w, e, reply).0 is Reply),
        stream_next(w, e, reply).0 is Reply ==> stream_next(w, e, reply).1 is Write,
{
}

/// What a connection does on the first `n` events of a run: what it waits
/// for in the end, and its actions in their order. The reply to the event
/// `i` is `replies[i]`; it counts only where the event hands over a request.
pub open spec fn stream_run(
    events: Seq<EventView>,
    replies: Seq<Option<Seq<u8>>>,
    n: int,
) -> (Waiting, Seq<ActionView>)
    decreases n,
{
    if n <= 0 {
        (Waiting::Length, seq![ActionView::Read(2)])
    } else {
        let before = stream_run(events, replies, n - 1);
        let step = stream_next(before.0, events[n - 1], replies[n - 1]);
        (step.0, before.1.push(step.1))
    }
}

/// The octets that a sequence of actions writes, in their order.
pub open spec fn written(actions: Seq<ActionView>) -> Seq<u8>
    decreases actions.len(),
{
    if actions.len() == 0 {
        Seq::empty()
    } else {
        match actions.last() {
            ActionView::Write(frame) => written(actions.drop_last()) + frame,
            _ => written(actions.drop_last()),
        }
    }
}

/// The replies to the requests that the first `n` events of a run hand
/// over, one behind the other in the order of the requests.
pub open spec fn answered(events: Seq<EventView>, replies: Seq<Option<Seq<u8>>>, n: int) -> Seq<u8>
    decreases n,
{
    if n <= 0 {
        Seq::empty()
    } else if hands_request(stream_run(events, replies, n - 1).0, events[n - 1]) {
        match replies[n - 1] {
            Some(frame) => answered(events, replies, n - 1) + frame,
            None => answered(events, replies, n - 1),
        }
    } else {
        answered(events, replies, n - 1)
    }
}

/// Replies are written in the order of their requests: what a connection
/// has written after any number of events is the replies to the requests
/// handed over so far, each complete, one behind the other, in the order in
/// which the requests came.
pub proof fn lemma_replies_in_request_order(
    events: Seq<EventView>,
    replies: Seq<Option<Seq<u8>>>,
    n: int,
)
    requires
        0 <= n <= events.len(),
        events.len() == replies.len(),
    ensures
        written(stream_run(events, replies, n).1) == answered(events, replies, n),
        stream_run(events, replies, n).1.len() == n + 1,
    decreases n,
{
    if n <= 0 {
        let first = seq![ActionView::Read(2)];
        assert(first.drop_last() =~= Seq::<ActionView>::empty());
        assert(written(first.drop_last()) =~= Seq::<u8>::empty());
    } else {
        lemma_replies_in_request_order(events, replies, n - 1);
        let before = stream_run(events, replies, n - 1);
        let step = stream_next(before.0, events[n - 1], replies[n - 1]);
        assert(before.1.push(step.1).drop_last() =~= before.1);
        lemma_reply_before_read(before.0, events[n - 1], replies[n - 1]);
    }
}

} // verus!
