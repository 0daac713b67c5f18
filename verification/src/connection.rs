//! One connection: what to do next, given what has just happened.
//!
//! The connection itself is read and written elsewhere. Here is the part that
//! decides: a [`Connection`] holds the bytes that were received and not yet
//! used, and [`Connection::step`] takes an [`Event`] and answers with the
//! [`Action`] to perform, whose outcome is the next event.

use crate::buffer::{bytes_of, drop_front, held, BUFFER_LIMIT};
use crate::decimal::{decimal_text, decimal_value, parse_decimal};
use crate::decode::{decode_http_request, decoded, lemma_decoded_bounds};
use crate::encode::{
    carries, encode, encoded, gzip_stream, lemma_found_is_carried, lemma_gzip_is_sent,
    lemma_names_differ, lemma_own_field_is_sent, payload, sent_body, sent_fields, wire,
};
use crate::h1::{
    DecodeFailure, DecodeHttpError, Encoding, Request, RequestView, Response, ResponseView,
};
use crate::headers::{lemma_written_is_found, lookup, written};
use crate::text::{all_fit, chars_of, cut, fields, fields_of, same_text, trim, trimmed, Span};
use bytes::BytesMut;
use vstd::prelude::*;
use vstd::slice::{slice_subrange, slice_to_vec};

verus! {

/// Where a connection stands.
#[derive(Debug, Copy, Clone, PartialEq, Eq, Structural)]
pub enum Phase {
    /// Waiting for bytes.
    Reading,
    /// A request is with the handler.
    Dispatching,
    /// A response is being written.
    Writing,
    /// Nothing more happens.
    Closed,
}

/// Why a connection is closed.
#[derive(Debug)]
pub enum CloseReason {
    /// The other side sent its last byte.
    EndOfInput,
    /// The request asked for the connection to be closed after its response.
    Finished,
    /// The bytes received are no request that can be served.
    Rejected(DecodeHttpError),
    /// A request would take more room than the buffer may have.
    TooLarge,
    /// The response could not be written.
    WriteFailed,
    /// The event is not one that the connection was waiting for.
    OutOfTurn,
}

/// What has just happened on a connection.
#[derive(Debug)]
pub enum Event {
    /// Bytes were read; none means that the other side has closed.
    Received(Vec<u8>),
    /// The handler has answered the request that was dispatched.
    Handled(Response),
    /// The bytes were written, or they were not.
    Written(bool),
}

/// What to do next on a connection.
#[derive(Debug)]
pub enum Action {
    /// Read bytes and report them as `Received`.
    Read,
    /// Hand the request to the handler and report its answer as `Handled`.
    Dispatch(Request),
    /// Write these bytes and report as `Written` whether that went well.
    Write(Vec<u8>),
    /// Close the connection.
    Close(CloseReason),
}

/// The model of a [`CloseReason`].
pub enum ReasonView {
    EndOfInput,
    Finished,
    Rejected(DecodeFailure),
    TooLarge,
    WriteFailed,
    OutOfTurn,
}

impl View for CloseReason {
    type V = ReasonView;

    open spec fn view(&self) -> ReasonView {
        match self {
            CloseReason::EndOfInput => ReasonView::EndOfInput,
            CloseReason::Finished => ReasonView::Finished,
            CloseReason::Rejected(error) => ReasonView::Rejected(error@),
            CloseReason::TooLarge => ReasonView::TooLarge,
            CloseReason::WriteFailed => ReasonView::WriteFailed,
            CloseReason::OutOfTurn => ReasonView::OutOfTurn,
        }
    }
}

/// The model of an [`Event`].
pub enum EventView {
    Received(Seq<u8>),
    Handled(ResponseView),
    Written(bool),
}

impl View for Event {
    type V = EventView;

    open spec fn view(&self) -> EventView {
        match self {
            Event::Received(data) => EventView::Received(data@),
            Event::Handled(response) => EventView::Handled(response@),
            Event::Written(done) => EventView::Written(*done),
        }
    }
}

/// The model of an [`Action`].
pub enum ActionView {
    Read,
    Dispatch(RequestView),
    Write(Seq<u8>),
    Close(ReasonView),
}

impl View for Action {
    type V = ActionView;

    open spec fn view(&self) -> ActionView {
        match self {
            Action::Read => ActionView::Read,
            Action::Dispatch(request) => ActionView::Dispatch(request@),
            Action::Write(bytes) => ActionView::Write(bytes@),
            Action::Close(reason) => ActionView::Close(reason@),
        }
    }
}

/// The model of a [`Connection`].
pub struct ConnectionView {
    /// The bytes received and not yet used.
    pub buffer: Seq<u8>,
    pub phase: Phase,
    /// Whether the connection closes once the response is written.
    pub closing: bool,
    /// Whether the response is to be compressed.
    pub gzip: bool,
}

/// What the front of a buffer holds.
pub enum Framing {
    /// No whole request yet.
    Incomplete,
    /// A request, body included, in that many bytes.
    Complete(RequestView, nat),
    /// Bytes that will never be a request that can be served.
    Broken(ReasonView),
}

/// Whether a value of `Accept-Encoding` offers gzip: one of the fields that
/// its commas part is, without the white space around it, the word `gzip`.
pub open spec fn offers_gzip(value: Seq<char>) -> bool {
    exists|i: int|
        0 <= i < fields_of(value, ',').len() && trimmed(#[trigger] fields_of(value, ',')[i])
            == "gzip"@
}

/// Whether the request asks for the connection to be closed: its field
/// `Connection` is `close`, letter for letter.
pub open spec fn asks_close(request: RequestView) -> bool {
    lookup(request.headers, "Connection"@) == Some("close"@)
}

/// Whether the request accepts a compressed response.
pub open spec fn asks_gzip(request: RequestView) -> bool {
    match lookup(request.headers, "Accept-Encoding"@) {
        Some(value) => offers_gzip(value),
        None => false,
    }
}

/// The length that a value of `Content-Length` gives: a decimal number that
/// fits the machine word.
pub open spec fn length_of(value: Seq<char>) -> Option<nat> {
    match decimal_value(value) {
        Some(n) => if n <= usize::MAX {
            Some(n)
        } else {
            None
        },
        None => None,
    }
}

/// What the front of `buffer` holds. A request is whole when its header block
/// is, and after it as many bytes as its `Content-Length` says; those bytes
/// are its body. A request without that field has no body.
pub open spec fn framed(buffer: Seq<u8>) -> Framing {
    match decoded(buffer) {
        Err(DecodeFailure::MissingHeaderTerminator) => Framing::Incomplete,
        Err(failure) => Framing::Broken(ReasonView::Rejected(failure)),
        Ok((request, used)) => match lookup(request.headers, "Content-Length"@) {
            None => Framing::Complete(request, used),
            Some(value) => match length_of(value) {
                None => Framing::Broken(ReasonView::Rejected(DecodeFailure::MalformedHeaderLine)),
                Some(n) => if used + n > BUFFER_LIMIT {
                    Framing::Broken(ReasonView::TooLarge)
                } else if used + n > buffer.len() {
                    Framing::Incomplete
                } else {
                    Framing::Complete(
                        RequestView {
                            body: Some(buffer.subrange(used as int, (used + n) as int)),
                            ..request
                        },
                        used + n,
                    )
                },
            },
        },
    }
}

/// A whole request ends within the buffer.
pub proof fn lemma_framed_bounds(buffer: Seq<u8>)
    ensures
        framed(buffer) matches Framing::Complete(_, used) ==> 4 <= used <= buffer.len(),
{
    lemma_decoded_bounds(buffer);
}

/// The response as it is sent: with `Connection: close` written into its
/// header fields where the connection closes after it, and marked for gzip
/// where the request accepted that.
pub open spec fn adjusted(response: ResponseView, closing: bool, gzip: bool) -> ResponseView {
    ResponseView {
        headers: if closing {
            written(response.headers, "Connection"@, "close"@)
        } else {
            response.headers
        },
        encoding: if gzip {
            Encoding::Gzip
        } else {
            response.encoding
        },
        ..response
    }
}

/// The connection `c`, closed.
pub open spec fn closed(c: ConnectionView) -> ConnectionView {
    ConnectionView { phase: Phase::Closed, ..c }
}

/// What a connection does with the bytes it holds: it dispatches the request
/// at their front, if there is a whole one, and takes it out of the buffer;
/// it reads on, if there is not; and it closes, if what it holds will never
/// be a request that can be served.
pub open spec fn polled(c: ConnectionView) -> (ConnectionView, ActionView) {
    match framed(c.buffer) {
        Framing::Incomplete => (ConnectionView { phase: Phase::Reading, ..c }, ActionView::Read),
        Framing::Complete(request, used) => (
            ConnectionView {
                buffer: c.buffer.skip(used as int),
                phase: Phase::Dispatching,
                closing: asks_close(request),
                gzip: asks_gzip(request),
            },
            ActionView::Dispatch(request),
        ),
        Framing::Broken(reason) => (closed(c), ActionView::Close(reason)),
    }
}

/// The step of a connection: its next state, and what to do.
pub open spec fn next(c: ConnectionView, event: EventView) -> (ConnectionView, ActionView) {
    match (c.phase, event) {
        (Phase::Reading, EventView::Received(data)) => if data.len() == 0 {
            (closed(c), ActionView::Close(ReasonView::EndOfInput))
        } else if c.buffer.len() + data.len() > BUFFER_LIMIT {
            (closed(c), ActionView::Close(ReasonView::TooLarge))
        } else {
            polled(ConnectionView { buffer: c.buffer + data, ..c })
        },
        (Phase::Dispatching, EventView::Handled(response)) => (
            ConnectionView { phase: Phase::Writing, ..c },
            ActionView::Write(encoded(adjusted(response, c.closing, c.gzip))),
        ),
        (Phase::Writing, EventView::Written(done)) => if !done {
            (closed(c), ActionView::Close(ReasonView::WriteFailed))
        } else if c.closing {
            (closed(c), ActionView::Close(ReasonView::Finished))
        } else {
            polled(c)
        },
        _ => (closed(c), ActionView::Close(ReasonView::OutOfTurn)),
    }
}

/// Tells whether a value of `Accept-Encoding` offers gzip.
pub fn accepts_gzip(value: &str) -> (r: bool)
    ensures
        r == offers_gzip(value@),
{
    let chars = chars_of(value);
    let parts = fields(chars.as_slice(), Span { lo: 0, hi: chars.len() }, ',');
    let ghost all = fields_of(value@, ',');
    proof {
        assert(chars@.subrange(0, chars@.len() as int) =~= value@);
    }
    let mut i: usize = 0;
    while i < parts.len()
        invariant
            i <= parts@.len(),
            chars@ == value@,
            all == fields_of(value@, ','),
            cut(chars@, parts@) == all,
            all_fit(parts@, chars@.len()),
            forall|j: int| 0 <= j < i ==> trimmed(#[trigger] all[j]) != "gzip"@,
        decreases parts@.len() - i,
    {
        let word = trim(chars.as_slice(), parts[i]);
        proof {
            assert(all[i as int] == cut(chars@, parts@)[i as int]);
        }
        if same_text(value.substring_char(word.lo, word.hi), "gzip") {
            return true;
        }
        i += 1;
    }
    false
}

/// Prepares a response for sending: writes `Connection: close` into its
/// header fields where `closing` is set, and marks it for gzip where `gzip`
/// is set.
pub fn adjust(response: Response, closing: bool, gzip: bool) -> (r: Response)
    ensures
        r@ == adjusted(response@, closing, gzip),
{
    let mut response = response;
    if closing {
        response.headers.insert("Connection".to_owned(), "close".to_owned());
    }
    if gzip {
        response.encoding = Encoding::Gzip;
    }
    response
}

/// What was found at the front of a buffer.
#[derive(Debug)]
pub enum Frame {
    /// No whole request yet.
    Incomplete,
    /// A request, body included, and the number of bytes it takes.
    Complete(Request, usize),
    /// Bytes that will never be a request that can be served.
    Broken(CloseReason),
}

impl View for Frame {
    type V = Framing;

    open spec fn view(&self) -> Framing {
        match self {
            Frame::Incomplete => Framing::Incomplete,
            Frame::Complete(request, used) => Framing::Complete(request@, *used as nat),
            Frame::Broken(reason) => Framing::Broken(reason@),
        }
    }
}

/// Looks for a whole request at the front of a buffer.
pub fn frame(buffer: &BytesMut) -> (r: Frame)
    ensures
        r@ == framed(held(*buffer)),
{
    let (request, used) = match decode_http_request(buffer) {
        Ok(found) => found,
        Err(DecodeHttpError::MissingHeaderTerminator) => {
            return Frame::Incomplete;
        },
        Err(error) => {
            return Frame::Broken(CloseReason::Rejected(error));
        },
    };
    let n: usize = match request.headers.get("Content-Length") {
        None => {
            return Frame::Complete(request, used);
        },
        Some(value) => match parse_decimal(value) {
            None => {
                return Frame::Broken(CloseReason::Rejected(DecodeHttpError::MalformedHeaderLine));
            },
            Some(n) => n,
        },
    };
    if n > BUFFER_LIMIT || used > BUFFER_LIMIT - n {
        return Frame::Broken(CloseReason::TooLarge);
    }
    let bytes = bytes_of(buffer);
    if used + n > bytes.len() {
        return Frame::Incomplete;
    }
    let body = slice_to_vec(slice_subrange(bytes, used, used + n));
    let Request { method, uri, headers, body: _ } = request;
    Frame::Complete(Request { method, uri, headers, body: Some(body) }, used + n)
}

/// The state of one connection.
pub struct Connection {
    buffer: BytesMut,
    phase: Phase,
    closing: bool,
    gzip: bool,
}

impl View for Connection {
    type V = ConnectionView;

    closed spec fn view(&self) -> ConnectionView {
        ConnectionView {
            buffer: held(self.buffer),
            phase: self.phase,
            closing: self.closing,
            gzip: self.gzip,
        }
    }
}

impl Connection {
    /// A connection on which nothing has happened yet: it is reading, and
    /// holds no bytes.
    pub fn new() -> (c: Connection)
        ensures
            c@ == (ConnectionView {
                buffer: Seq::empty(),
                phase: Phase::Reading,
                closing: false,
                gzip: false,
            }),
    {
        Connection { buffer: BytesMut::new(), phase: Phase::Reading, closing: false, gzip: false }
    }

    /// Where the connection stands.
    pub fn phase(&self) -> (p: Phase)
        ensures
            p == self@.phase,
    {
        self.phase
    }

    /// The number of bytes received and not yet used.
    pub fn buffered(&self) -> (n: usize)
        ensures
            n == self@.buffer.len(),
    {
        self.buffer.len()
    }

    /// Looks at the bytes held and decides what to do with them.
    fn poll(&mut self) -> (action: Action)
        ensures
            (final(self)@, action@) == polled(old(self)@),
    {
        proof {
            lemma_framed_bounds(self@.buffer);
        }
        match frame(&self.buffer) {
            Frame::Incomplete => {
                self.phase = Phase::Reading;
                Action::Read
            },
            Frame::Complete(request, used) => {
                self.closing = match request.headers.get("Connection") {
                    Some(value) => same_text(value, "close"),
                    None => false,
                };
                self.gzip = match request.headers.get("Accept-Encoding") {
                    Some(value) => accepts_gzip(value),
                    None => false,
                };
                drop_front(&mut self.buffer, used);
                self.phase = Phase::Dispatching;
                Action::Dispatch(request)
            },
            Frame::Broken(reason) => {
                self.phase = Phase::Closed;
                Action::Close(reason)
            },
        }
    }

    /// Takes what has just happened and answers with what to do next.
    ///
    /// A connection that is reading takes bytes: with none it closes; with
    /// some it dispatches the request at the front of all it holds, once that
    /// is whole. A connection that is dispatching takes the handler's
    /// response and has it written, prepared as the request asked. A
    /// connection that is writing closes if the write failed or the request
    /// asked for it, and goes on with the bytes it holds if not. Any other
    /// event closes the connection.
    pub fn step(&mut self, event: Event) -> (action: Action)
        ensures
            (final(self)@, action@) == next(old(self)@, event@),
    {
        match (self.phase, event) {
            (Phase::Reading, Event::Received(data)) => {
                let have: usize = self.buffer.len();
                if data.len() == 0 {
                    self.phase = Phase::Closed;
                    Action::Close(CloseReason::EndOfInput)
                } else if have > BUFFER_LIMIT || data.len() > BUFFER_LIMIT - have {
                    self.phase = Phase::Closed;
                    Action::Close(CloseReason::TooLarge)
                } else {
                    self.buffer.extend_from_slice(data.as_slice());
                    self.poll()
                }
            },
            (Phase::Dispatching, Event::Handled(response)) => {
                self.phase = Phase::Writing;
                Action::Write(encode(adjust(response, self.closing, self.gzip)))
            },
            (Phase::Writing, Event::Written(done)) => {
                if !done {
                    self.phase = Phase::Closed;
                    Action::Close(CloseReason::WriteFailed)
                } else if self.closing {
                    self.phase = Phase::Closed;
                    Action::Close(CloseReason::Finished)
                } else {
                    self.poll()
                }
            },
            _ => {
                self.phase = Phase::Closed;
                Action::Close(CloseReason::OutOfTurn)
            },
        }
    }
}

/// A connection that dispatches a request has taken from it whether to
/// close and whether to compress, and holds what follows the request.
pub proof fn lemma_dispatch_settles(c: ConnectionView, event: EventView)
    requires
        next(c, event).1 is Dispatch,
    ensures
        ({
            let (after, action) = next(c, event);
            let request = action->Dispatch_0;
            &&& after.phase == Phase::Dispatching
            &&& after.closing == asks_close(request)
            &&& after.gzip == asks_gzip(request)
        }),
{
}

/// A request with `Connection: close` has `Connection: close` in its
/// response, whatever the handler answered, and the connection closes once
/// that response is written, or could not be.
pub proof fn lemma_close_is_honoured(c: ConnectionView, event: EventView, response: ResponseView)
    requires
        next(c, event).1 matches ActionView::Dispatch(request) && asks_close(request),
    ensures
        ({
            let dispatching = next(c, event).0;
            let sent = adjusted(response, true, dispatching.gzip);
            let fields = sent_fields(sent, gzip_stream(payload(sent.content)));
            let (writing, write) = next(dispatching, EventView::Handled(response));
            &&& write == ActionView::Write(encoded(sent))
            &&& lookup(fields, "Connection"@) == Some("close"@)
            &&& carries(encoded(sent), "Connection"@, "close"@)
            &&& next(writing, EventView::Written(true)) == (
                closed(writing),
                ActionView::Close(ReasonView::Finished),
            )
            &&& next(writing, EventView::Written(false)) == (
                closed(writing),
                ActionView::Close(ReasonView::WriteFailed),
            )
        }),
{
    lemma_dispatch_settles(c, event);
    let dispatching = next(c, event).0;
    let sent = adjusted(response, true, dispatching.gzip);
    lemma_names_differ();
    lemma_written_is_found(response.headers, "Connection"@, "close"@);
    let stream = gzip_stream(payload(sent.content));
    lemma_own_field_is_sent(sent, stream, "Connection"@);
    lemma_found_is_carried(
        sent.status,
        sent_fields(sent, stream),
        sent_body(sent, stream),
        "Connection"@,
        "close"@,
    );
}

/// A request that accepts gzip has its response compressed: where the
/// response is not empty and the compressor made a stream of its payload,
/// that stream is the body on the wire, its length is the `Content-Length`,
/// and `Content-Encoding` is `gzip`.
pub proof fn lemma_gzip_is_negotiated(c: ConnectionView, event: EventView, response: ResponseView)
    requires
        next(c, event).1 matches ActionView::Dispatch(request) && asks_gzip(request),
        !(response.content is Empty),
        gzip_stream(payload(response.content)) is Some,
    ensures
        ({
            let dispatching = next(c, event).0;
            let sent = adjusted(response, dispatching.closing, true);
            let stream = gzip_stream(payload(response.content));
            let fields = sent_fields(sent, stream);
            &&& next(dispatching, EventView::Handled(response)).1 == ActionView::Write(
                wire(response.status, fields, stream->0),
            )
            &&& lookup(fields, "Content-Encoding"@) == Some("gzip"@)
            &&& lookup(fields, "Content-Length"@) == Some(decimal_text(stream->0.len()))
            &&& carries(encoded(sent), "Content-Encoding"@, "gzip"@)
            &&& carries(encoded(sent), "Content-Length"@, decimal_text(stream->0.len()))
        }),
{
    lemma_dispatch_settles(c, event);
    let dispatching = next(c, event).0;
    let sent = adjusted(response, dispatching.closing, true);
    let stream = gzip_stream(payload(response.content));
    let fields = sent_fields(sent, stream);
    lemma_gzip_is_sent(sent, stream);
    lemma_found_is_carried(sent.status, fields, stream->0, "Content-Encoding"@, "gzip"@);
    lemma_found_is_carried(
        sent.status,
        fields,
        stream->0,
        "Content-Length"@,
        decimal_text(stream->0.len()),
    );
}

/// Bytes that are not yet a whole request stay in the buffer as they came,
/// and the connection reads on.
pub proof fn lemma_incomplete_keeps_bytes(c: ConnectionView, data: Seq<u8>)
    requires
        c.phase == Phase::Reading,
        data.len() > 0,
        c.buffer.len() + data.len() <= BUFFER_LIMIT,
        framed(c.buffer + data) is Incomplete,
    ensures
        next(c, EventView::Received(data)) == (
            ConnectionView { buffer: c.buffer + data, ..c },
            ActionView::Read,
        ),
{
}

/// What a connection does is settled by its state and the event alone: from
/// states and events that are alike, the same state and the same action
/// follow.
pub proof fn lemma_step_is_stable(
    first: ConnectionView,
    second: ConnectionView,
    event: EventView,
    other: EventView,
)
    requires
        first.buffer =~= second.buffer,
        first.phase == second.phase,
        first.closing == second.closing,
        first.gzip == second.gzip,
        match (event, other) {
            (EventView::Received(a), EventView::Received(b)) => a =~= b,
            (EventView::Handled(a), EventView::Handled(b)) => {
                &&& a.status == b.status
                &&& a.headers =~= b.headers
                &&& a.content == b.content
                &&& a.encoding == b.encoding
            },
            (EventView::Written(a), EventView::Written(b)) => a == b,
            _ => false,
        },
    ensures
        next(first, event) == next(second, other),
{
}

} // verus!
