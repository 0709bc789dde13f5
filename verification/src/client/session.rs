//! The connected phase of a link: drain commands, run heartbeats, read and
//! dispatch packets.
//!
//! A round goes: look at the stop flag, poll commands until there are none, read
//! the clock, read the transport until nothing is ready. The caller reports each
//! of these as an [`Event`] to [`Session::step`] and does the [`Action`] that
//! comes back. Once the stop flag is up, the commands that wait are still carried
//! out; then the link is closed.

use crate::codec;
use crate::codec::{disconnect, Packet};
use crate::duration::{Duration, NANOS_PER_SEC};
use crate::message::Message;
use crate::options;
use vstd::prelude::*;
use vstd::slice::*;

pub mod laws;

verus! {

/// Most received bytes that may wait to be dispatched.
pub const MAX_READ_BUFFER: usize = 16 * 1024 * 1024;

/// How a connected phase ended.
#[derive(Debug, Clone, Copy, PartialEq, Eq, Structural)]
pub enum PhaseEnd {
    /// On purpose, by the user or by the server.
    Shutdown,
    /// By a failure of the link.
    Lost,
}

/// What a run of frames ended with.
#[derive(Debug, Clone, Copy, PartialEq, Eq, Structural)]
pub enum StreamEnd {
    /// The bytes end before the next frame does.
    Partial,
    /// The server sent DISCONNECT with this return code.
    Disconnected(u8),
    /// The next bytes violate the wire format.
    Violation,
}

/// What a buffer of received bytes holds.
#[verifier::ext_equal]
pub struct Stream {
    /// The payloads of the PUSH packets, in order.
    pub payloads: Seq<Seq<u8>>,
    /// The bytes of the packets that were read.
    pub consumed: nat,
    pub end: StreamEnd,
}

/// Reads frame after frame off the front of `bytes`, up to a DISCONNECT, a
/// violation or a frame that is not yet whole.
pub open spec fn stream(bytes: Seq<u8>) -> Stream
    decreases bytes.len(),
{
    match codec::decoded(bytes) {
        codec::Decoded::Partial => Stream {
            payloads: seq![],
            consumed: 0,
            end: StreamEnd::Partial,
        },
        codec::Decoded::Violation(_) => Stream {
            payloads: seq![],
            consumed: 0,
            end: StreamEnd::Violation,
        },
        codec::Decoded::Complete { packet, consumed } => {
            proof {
                codec::laws::law_consumed_is_within_buffer(bytes);
            }
            match packet {
                codec::PacketView::Disconnect(code) => Stream {
                    payloads: seq![],
                    consumed,
                    end: StreamEnd::Disconnected(code),
                },
                codec::PacketView::Push(payload) => behind(
                    seq![payload],
                    consumed,
                    stream(bytes.skip(consumed as int)),
                ),
                _ => behind(seq![], consumed, stream(bytes.skip(consumed as int))),
            }
        },
    }
}

/// A stream that `payloads` in `consumed` bytes stand before.
pub open spec fn behind(payloads: Seq<Seq<u8>>, consumed: nat, rest: Stream) -> Stream {
    Stream {
        payloads: payloads + rest.payloads,
        consumed: consumed + rest.consumed,
        end: rest.end,
    }
}

/// The payloads of `messages`.
pub open spec fn payloads_of(messages: Seq<Message>) -> Seq<Seq<u8>> {
    messages.map_values(|message: Message| message@)
}

/// What [`dispatch`] found in the received bytes.
#[derive(Debug)]
pub struct Dispatched {
    /// The messages to hand over, in order.
    pub messages: Vec<Message>,
    /// The bytes of the packets that were read.
    pub consumed: usize,
    pub end: StreamEnd,
}

impl View for Dispatched {
    type V = Stream;

    open spec fn view(&self) -> Stream {
        Stream {
            payloads: payloads_of(self.messages@),
            consumed: self.consumed as nat,
            end: self.end,
        }
    }
}

/// Decodes every complete frame at the front of `bytes`.
pub fn dispatch(bytes: &[u8]) -> (found: Dispatched)
    ensures
        found@ == stream(bytes@),
        found.consumed <= bytes@.len(),
{
    let mut messages: Vec<Message> = Vec::new();
    let mut consumed: usize = 0;
    assert(bytes@.skip(0) =~= bytes@);
    assert(stream(bytes@) =~= behind(payloads_of(messages@), 0, stream(bytes@)));
    loop
        invariant
            consumed <= bytes@.len(),
            stream(bytes@) == behind(
                payloads_of(messages@),
                consumed as nat,
                stream(bytes@.skip(consumed as int)),
            ),
        decreases bytes@.len() - consumed,
    {
        let ghost rest = bytes@.skip(consumed as int);
        let ghost before = messages@;
        let left = slice_subrange(bytes, consumed, bytes.len());
        assert(left@ =~= rest);
        match codec::decode(left) {
            Ok(Some((packet, size))) => {
                proof {
                    codec::laws::law_consumed_is_within_buffer(rest);
                }
                consumed = consumed + size;
                assert(rest.skip(size as int) =~= bytes@.skip(consumed as int));
                match packet {
                    Packet::Push(payload) => {
                        messages.push(Message::new(payload));
                        assert(payloads_of(messages@) =~= payloads_of(before) + seq![payload@]);
                    },
                    Packet::Disconnect(code) => {
                        let found = Dispatched {
                            messages,
                            consumed,
                            end: StreamEnd::Disconnected(code),
                        };
                        assert(found@ =~= stream(bytes@));
                        return found;
                    },
                    _ => {},
                }
                assert(stream(bytes@) =~= behind(
                    payloads_of(messages@),
                    consumed as nat,
                    stream(bytes@.skip(consumed as int)),
                ));
            },
            Ok(None) => {
                let found = Dispatched { messages, consumed, end: StreamEnd::Partial };
                assert(found@ =~= stream(bytes@));
                return found;
            },
            Err(_) => {
                let found = Dispatched { messages, consumed, end: StreamEnd::Violation };
                assert(found@ =~= stream(bytes@));
                return found;
            },
        }
    }
}

/// What a poll of the user's commands gave.
#[derive(Debug)]
pub enum Polled {
    /// Send this payload.
    Push(Vec<u8>),
    /// Close the link.
    Shutdown,
    /// No command waits.
    Empty,
    /// No command will ever come: the user is gone.
    HungUp,
}

/// What one read from the transport gave.
#[derive(Debug)]
pub enum ReadEvent {
    /// These bytes; none where the peer has closed the connection.
    Data(Vec<u8>),
    /// Nothing more is ready, at this time.
    NotReady(Duration),
    /// The read was interrupted.
    Interrupted,
    /// Any other failure.
    Failed,
}

/// What the caller has found out.
#[derive(Debug)]
pub enum Event {
    /// The stop flag, at the start of a round.
    StopFlag(bool),
    /// A command, or none.
    Command(Polled),
    /// A PUSH has been written, or could not be.
    PushWritten { ok: bool, now: Duration },
    /// The time, once no command waits.
    Clock(Duration),
    /// A PINGREQ has been written, or could not be.
    PingWritten { ok: bool, now: Duration },
    /// A read.
    Read(ReadEvent),
}

/// The end of a connected phase.
#[derive(Debug)]
pub struct Ending {
    /// What to write first, whether or not that works out.
    pub farewell: Option<Vec<u8>>,
    pub end: PhaseEnd,
}

/// What the caller has to do.
#[derive(Debug)]
pub enum Action {
    /// Poll the user's commands.
    PollCommand,
    /// Write this PUSH frame.
    SendPush(Vec<u8>),
    /// Read the clock.
    ReadClock,
    /// Write this PINGREQ frame.
    SendPing(Vec<u8>),
    /// Read from the transport.
    Read,
    /// Hand these messages over; then end, or begin the next round with the stop
    /// flag.
    Deliver { messages: Vec<Message>, then_end: Option<Ending> },
    /// End.
    End(Ending),
}

/// The value of a [`Polled`].
#[verifier::ext_equal]
pub enum PolledView {
    Push(Seq<u8>),
    Shutdown,
    Empty,
    HungUp,
}

/// The value of a [`ReadEvent`].
#[verifier::ext_equal]
pub enum ReadView {
    Data(Seq<u8>),
    NotReady(nat),
    Interrupted,
    Failed,
}

/// The value of an [`Event`].
#[verifier::ext_equal]
pub enum EventView {
    StopFlag(bool),
    Command(PolledView),
    PushWritten { ok: bool, now: nat },
    Clock(nat),
    PingWritten { ok: bool, now: nat },
    Read(ReadView),
}

/// The value of an [`Ending`].
#[verifier::ext_equal]
pub struct EndingView {
    pub farewell: Option<Seq<u8>>,
    pub end: PhaseEnd,
}

/// The value of an [`Action`].
#[verifier::ext_equal]
pub enum ActionView {
    PollCommand,
    SendPush(Seq<u8>),
    ReadClock,
    SendPing(Seq<u8>),
    Read,
    Deliver { payloads: Seq<Seq<u8>>, then_end: Option<EndingView> },
    End(EndingView),
}

impl View for Polled {
    type V = PolledView;

    open spec fn view(&self) -> PolledView {
        match *self {
            Polled::Push(payload) => PolledView::Push(payload@),
            Polled::Shutdown => PolledView::Shutdown,
            Polled::Empty => PolledView::Empty,
            Polled::HungUp => PolledView::HungUp,
        }
    }
}

impl View for ReadEvent {
    type V = ReadView;

    open spec fn view(&self) -> ReadView {
        match *self {
            ReadEvent::Data(bytes) => ReadView::Data(bytes@),
            ReadEvent::NotReady(now) => ReadView::NotReady(now@),
            ReadEvent::Interrupted => ReadView::Interrupted,
            ReadEvent::Failed => ReadView::Failed,
        }
    }
}

impl View for Event {
    type V = EventView;

    open spec fn view(&self) -> EventView {
        match *self {
            Event::StopFlag(stop) => EventView::StopFlag(stop),
            Event::Command(polled) => EventView::Command(polled@),
            Event::PushWritten { ok, now } => EventView::PushWritten { ok, now: now@ },
            Event::Clock(now) => EventView::Clock(now@),
            Event::PingWritten { ok, now } => EventView::PingWritten { ok, now: now@ },
            Event::Read(read) => EventView::Read(read@),
        }
    }
}

impl View for Ending {
    type V = EndingView;

    open spec fn view(&self) -> EndingView {
        EndingView {
            farewell: match self.farewell {
                Some(bytes) => Some(bytes@),
                None => None,
            },
            end: self.end,
        }
    }
}

impl View for Action {
    type V = ActionView;

    open spec fn view(&self) -> ActionView {
        match *self {
            Action::PollCommand => ActionView::PollCommand,
            Action::SendPush(bytes) => ActionView::SendPush(bytes@),
            Action::ReadClock => ActionView::ReadClock,
            Action::SendPing(bytes) => ActionView::SendPing(bytes@),
            Action::Read => ActionView::Read,
            Action::Deliver { messages, then_end } => ActionView::Deliver {
                payloads: payloads_of(messages@),
                then_end: match then_end {
                    Some(ending) => Some(ending@),
                    None => None,
                },
            },
            Action::End(ending) => ActionView::End(ending@),
        }
    }
}

/// The value of a [`Session`].
#[verifier::ext_equal]
pub struct SessionView {
    /// The keepalive in seconds that the server set, 0 for none.
    pub keepalive: u16,
    /// How long the server may be silent, in nanoseconds.
    pub silence_limit: nat,
    /// The user has asked for the end.
    pub stopping: bool,
    /// Received bytes that have not been dispatched.
    pub pending: Seq<u8>,
    /// When something was last sent, in nanoseconds on the caller's clock.
    pub last_sent: nat,
    /// When a packet was last received, in nanoseconds on the caller's clock.
    pub last_received: nat,
}

/// The time from `since` to `now`, none where the clock went back.
pub open spec fn elapsed(now: nat, since: nat) -> nat {
    if now >= since {
        (now - since) as nat
    } else {
        0
    }
}

/// How long the server may be silent: the configured response timeout, or one
/// and a half times its keepalive where none is configured.
pub open spec fn silence_limit(keepalive: u16, response_timeout: nat) -> nat {
    if response_timeout > 0 {
        response_timeout
    } else {
        options::one_and_a_half(keepalive)
    }
}

/// The end of a link that failed.
pub open spec fn lost() -> ActionView {
    ActionView::End(EndingView { farewell: None, end: PhaseEnd::Lost })
}

/// The end of a link that the user closes, with DISCONNECT(0x00).
pub open spec fn goodbye() -> ActionView {
    ActionView::End(
        EndingView {
            farewell: Some(codec::disconnect_frame(disconnect::NORMAL)),
            end: PhaseEnd::Shutdown,
        },
    )
}

/// What the end of the received frames means for the link: it goes on, or the
/// server has closed it, or it is given up with DISCONNECT(0x04).
pub open spec fn ending_of(end: StreamEnd) -> Option<EndingView> {
    match end {
        StreamEnd::Partial => None,
        StreamEnd::Disconnected(_) => Some(
            EndingView { farewell: None, end: PhaseEnd::Shutdown },
        ),
        StreamEnd::Violation => Some(
            EndingView {
                farewell: Some(codec::disconnect_frame(disconnect::PROTOCOL_VIOLATION)),
                end: PhaseEnd::Lost,
            },
        ),
    }
}

/// The end of a link that can no longer be read, after frames with this end: on
/// purpose where the server has said so before, else a loss. Nothing is written
/// to it any more.
pub open spec fn last_ending(end: StreamEnd) -> EndingView {
    EndingView {
        farewell: None,
        end: if end is Disconnected {
            PhaseEnd::Shutdown
        } else {
            PhaseEnd::Lost
        },
    }
}

impl SessionView {
    /// The session with `now` as the time of the last write.
    pub open spec fn sent_at(self, now: nat) -> SessionView {
        SessionView { last_sent: now, ..self }
    }

    /// No packet was received for as long as the server may be silent. Where the
    /// keepalive is disabled nothing keeps a server talking, so that silence means
    /// nothing, whatever the response timeout.
    pub open spec fn is_silent(self, now: nat) -> bool {
        self.keepalive > 0 && elapsed(now, self.last_received) >= self.silence_limit
    }

    /// Nothing was sent for as long as the keepalive.
    pub open spec fn is_idle(self, now: nat) -> bool {
        self.keepalive > 0 && elapsed(now, self.last_sent) >= self.keepalive * NANOS_PER_SEC
    }

    /// The session without the frames that have arrived whole.
    pub open spec fn dispatched(self) -> SessionView {
        SessionView {
            pending: self.pending.skip(stream(self.pending).consumed as int),
            ..self
        }
    }

    /// What the end of reading makes of the session: what has arrived whole is
    /// handed over, then the link ends.
    pub open spec fn after_last_read(self) -> (SessionView, ActionView) {
        let found = stream(self.pending);
        (
            self.dispatched(),
            ActionView::Deliver {
                payloads: found.payloads,
                then_end: Some(last_ending(found.end)),
            },
        )
    }

    /// What a read makes of the session.
    pub open spec fn after_read(self, read: ReadView) -> (SessionView, ActionView) {
        match read {
            ReadView::Data(bytes) => {
                let grown = SessionView { pending: self.pending + bytes, ..self };
                if bytes.len() == 0 || grown.pending.len() > MAX_READ_BUFFER {
                    grown.after_last_read()
                } else {
                    (grown, ActionView::Read)
                }
            },
            ReadView::NotReady(now) => {
                let found = stream(self.pending);
                (
                    SessionView {
                        last_received: if found.consumed > 0 {
                            now
                        } else {
                            self.last_received
                        },
                        ..self.dispatched()
                    },
                    ActionView::Deliver {
                        payloads: found.payloads,
                        then_end: ending_of(found.end),
                    },
                )
            },
            ReadView::Interrupted => (self, ActionView::Read),
            ReadView::Failed => self.after_last_read(),
        }
    }

    /// What an event makes of the session, and what is to be done.
    pub open spec fn after(self, event: EventView) -> (SessionView, ActionView) {
        match event {
            EventView::StopFlag(stop) => (
                SessionView { stopping: self.stopping || stop, ..self },
                ActionView::PollCommand,
            ),
            EventView::Command(PolledView::Push(payload)) => (
                self,
                ActionView::SendPush(codec::push_frame(payload)),
            ),
            EventView::Command(PolledView::Shutdown) => (self, goodbye()),
            EventView::Command(PolledView::Empty) => (
                self,
                if self.stopping {
                    goodbye()
                } else {
                    ActionView::ReadClock
                },
            ),
            EventView::Command(PolledView::HungUp) => (
                self,
                if self.stopping {
                    goodbye()
                } else {
                    ActionView::End(EndingView { farewell: None, end: PhaseEnd::Shutdown })
                },
            ),
            EventView::PushWritten { ok, now } => if ok {
                (self.sent_at(now), ActionView::PollCommand)
            } else {
                (self, lost())
            },
            EventView::Clock(now) => (
                self,
                if self.is_silent(now) {
                    lost()
                } else if self.is_idle(now) {
                    ActionView::SendPing(codec::pingreq_frame())
                } else {
                    ActionView::Read
                },
            ),
            EventView::PingWritten { ok, now } => if ok {
                (self.sent_at(now), ActionView::Read)
            } else {
                (self, lost())
            },
            EventView::Read(read) => self.after_read(read),
        }
    }
}

/// A connected link.
#[derive(Debug)]
pub struct Session {
    keepalive: u16,
    silence_limit: Duration,
    stopping: bool,
    pending: Vec<u8>,
    last_sent: Duration,
    last_received: Duration,
}

impl View for Session {
    type V = SessionView;

    closed spec fn view(&self) -> SessionView {
        SessionView {
            keepalive: self.keepalive,
            silence_limit: self.silence_limit@,
            stopping: self.stopping,
            pending: self.pending@,
            last_sent: self.last_sent@,
            last_received: self.last_received@,
        }
    }
}

/// The time from `since` to `now`, none where the clock went back.
fn nanos_between(since: Duration, now: Duration) -> (nanos: u128)
    ensures
        nanos == elapsed(now@, since@),
{
    now.as_nanos().saturating_sub(since.as_nanos())
}

/// The end of a link, without a farewell.
fn end_now(end: PhaseEnd) -> (action: Action)
    ensures
        action@ == ActionView::End(EndingView { farewell: None, end }),
{
    Action::End(Ending { farewell: None, end })
}

/// The end of a link that the user closes.
fn say_goodbye() -> (action: Action)
    ensures
        action@ == goodbye(),
{
    Action::End(
        Ending {
            farewell: Some(codec::encode_disconnect(disconnect::NORMAL)),
            end: PhaseEnd::Shutdown,
        },
    )
}

/// What the end of the received frames means for the link.
fn ending_after(end: StreamEnd) -> (ending: Option<Ending>)
    ensures
        match ending {
            Some(ending) => ending_of(end) == Some(ending@),
            None => ending_of(end) is None,
        },
{
    match end {
        StreamEnd::Partial => None,
        StreamEnd::Disconnected(_) => Some(Ending { farewell: None, end: PhaseEnd::Shutdown }),
        StreamEnd::Violation => Some(
            Ending {
                farewell: Some(codec::encode_disconnect(disconnect::PROTOCOL_VIOLATION)),
                end: PhaseEnd::Lost,
            },
        ),
    }
}

impl Session {
    /// A link that has just been accepted with the server's `keepalive`, and on
    /// which the bytes `received` came behind the server's answer. A keepalive of 0
    /// means that the server has disabled it: no PINGREQ is sent and silence is no
    /// failure. A `response_timeout` of 0 is none.
    pub fn new(
        keepalive: u16,
        response_timeout: Duration,
        received: Vec<u8>,
        now: Duration,
    ) -> (session: Session)
        ensures
            session@ == (SessionView {
                keepalive,
                silence_limit: silence_limit(keepalive, response_timeout@),
                stopping: false,
                pending: received@,
                last_sent: now@,
                last_received: now@,
            }),
    {
        let silence_limit = if response_timeout.as_nanos() > 0 {
            response_timeout
        } else {
            options::one_and_a_half_times(keepalive)
        };
        Session {
            keepalive,
            silence_limit,
            stopping: false,
            pending: received,
            last_sent: now,
            last_received: now,
        }
    }

    /// Takes in an event and says what to do.
    pub fn step(&mut self, event: Event) -> (action: Action)
        ensures
            (final(self)@, action@) == old(self)@.after(event@),
    {
        match event {
            Event::StopFlag(stop) => {
                self.stopping = self.stopping || stop;
                Action::PollCommand
            },
            Event::Command(polled) => match polled {
                Polled::Push(payload) => Action::SendPush(codec::encode_push(payload.as_slice())),
                Polled::Shutdown => say_goodbye(),
                Polled::Empty => if self.stopping {
                    say_goodbye()
                } else {
                    Action::ReadClock
                },
                Polled::HungUp => if self.stopping {
                    say_goodbye()
                } else {
                    end_now(PhaseEnd::Shutdown)
                },
            },
            Event::PushWritten { ok, now } => {
                if ok {
                    self.last_sent = now;
                    Action::PollCommand
                } else {
                    end_now(PhaseEnd::Lost)
                }
            },
            Event::Clock(now) => self.on_clock(now),
            Event::PingWritten { ok, now } => {
                if ok {
                    self.last_sent = now;
                    Action::Read
                } else {
                    end_now(PhaseEnd::Lost)
                }
            },
            Event::Read(read) => self.on_read(read),
        }
    }

    /// Heartbeat timing.
    fn on_clock(&self, now: Duration) -> (action: Action)
        ensures
            action@ == self@.after(EventView::Clock(now@)).1,
    {
        if self.keepalive == 0 {
            return Action::Read;
        }
        let send_interval = Duration::from_secs(self.keepalive as u64);
        if nanos_between(self.last_received, now) >= self.silence_limit.as_nanos() {
            end_now(PhaseEnd::Lost)
        } else if nanos_between(self.last_sent, now) >= send_interval.as_nanos() {
            Action::SendPing(codec::encode_pingreq())
        } else {
            Action::Read
        }
    }

    /// Takes the frames that have arrived whole off the pending bytes.
    fn take_frames(&mut self) -> (found: Dispatched)
        ensures
            found@ == stream(old(self)@.pending),
            final(self)@ == old(self)@.dispatched(),
    {
        let found = dispatch(self.pending.as_slice());
        let left = slice_subrange(self.pending.as_slice(), found.consumed, self.pending.len());
        let rest = slice_to_vec(left);
        assert(rest@ =~= self.pending@.skip(found.consumed as int));
        self.pending = rest;
        found
    }

    /// Hands over what has arrived whole, and ends.
    fn finish(&mut self) -> (action: Action)
        ensures
            (final(self)@, action@) == old(self)@.after_last_read(),
    {
        let found = self.take_frames();
        let end = match found.end {
            StreamEnd::Disconnected(_) => PhaseEnd::Shutdown,
            _ => PhaseEnd::Lost,
        };
        Action::Deliver {
            messages: found.messages,
            then_end: Some(Ending { farewell: None, end }),
        }
    }

    /// Takes in what a read gave; once nothing more is ready, hands over what
    /// has arrived.
    fn on_read(&mut self, read: ReadEvent) -> (action: Action)
        ensures
            (final(self)@, action@) == old(self)@.after_read(read@),
    {
        match read {
            ReadEvent::Data(bytes) => {
                self.pending.extend_from_slice(bytes.as_slice());
                assert(self.pending@ =~= old(self).pending@ + bytes@);
                if bytes.is_empty() || self.pending.len() > MAX_READ_BUFFER {
                    self.finish()
                } else {
                    Action::Read
                }
            },
            ReadEvent::NotReady(now) => {
                let found = self.take_frames();
                if found.consumed > 0 {
                    self.last_received = now;
                }
                Action::Deliver {
                    messages: found.messages,
                    then_end: ending_after(found.end),
                }
            },
            ReadEvent::Interrupted => Action::Read,
            ReadEvent::Failed => self.finish(),
        }
    }
}

} // verus!
