//! Laws of the connected phase.

use crate::client::handshake;
use crate::client::session;
use crate::client::session::{PhaseEnd, StreamEnd, MAX_READ_BUFFER};
use crate::codec;
use crate::codec::laws::LENGTH_LIMIT;
use crate::codec::{disconnect, mtype};
use crate::duration::NANOS_PER_SEC;
use vstd::prelude::*;

verus! {

/// The PUSH frames of `payloads`, one behind the other.
pub open spec fn push_frames(payloads: Seq<Seq<u8>>) -> Seq<u8>
    decreases payloads.len(),
{
    if payloads.len() == 0 {
        seq![]
    } else {
        codec::push_frame(payloads[0]) + push_frames(payloads.skip(1))
    }
}

/// The session after `events`, one by one.
pub open spec fn after_all(
    link: session::SessionView,
    events: Seq<session::EventView>,
) -> session::SessionView
    decreases events.len(),
{
    if events.len() == 0 {
        link
    } else {
        after_all(link.after(events[0]).0, events.skip(1))
    }
}

/// Frames end inside the buffer.
pub proof fn law_stream_is_within_buffer(bytes: Seq<u8>)
    ensures
        session::stream(bytes).consumed <= bytes.len(),
        session::stream(bytes).end == StreamEnd::Partial ==> codec::decoded(
            bytes.skip(session::stream(bytes).consumed as int),
        ) == codec::Decoded::Partial,
    decreases bytes.len(),
{
    match codec::decoded(bytes) {
        codec::Decoded::Complete { packet, consumed } => {
            codec::laws::law_consumed_is_within_buffer(bytes);
            if packet !is Disconnect {
                let rest = bytes.skip(consumed as int);
                law_stream_is_within_buffer(rest);
                assert(rest.skip(session::stream(rest).consumed as int) =~= bytes.skip(
                    session::stream(bytes).consumed as int,
                ));
            }
        },
        _ => {
            assert(bytes.skip(0) =~= bytes);
        },
    }
}

/// Every payload that was pushed comes out, once and in order.
pub proof fn law_pushes_arrive_in_order(payloads: Seq<Seq<u8>>)
    requires
        forall|i: int| 0 <= i < payloads.len() ==> (#[trigger] payloads[i]).len() + 1
            < LENGTH_LIMIT,
    ensures
        session::stream(push_frames(payloads)) == (session::Stream {
            payloads,
            consumed: push_frames(payloads).len(),
            end: StreamEnd::Partial,
        }),
    decreases payloads.len(),
{
    let bytes = push_frames(payloads);
    if payloads.len() > 0 {
        let first = codec::push_frame(payloads[0]);
        let rest = payloads.skip(1);
        assert forall|i: int| 0 <= i < rest.len() implies (#[trigger] rest[i]).len() + 1
            < LENGTH_LIMIT by {
            assert(rest[i] == payloads[i + 1]);
        }
        law_pushes_arrive_in_order(rest);
        codec::laws::law_push_roundtrip(payloads[0], push_frames(rest));
        assert(bytes.skip(first.len() as int) =~= push_frames(rest));
        assert(seq![payloads[0]] + rest =~= payloads);
    } else {
        assert(payloads =~= seq![]);
    }
}

/// However the received bytes are cut into reads, the same frames come out:
/// what the first part leaves over is completed by the second.
pub proof fn law_stream_may_be_cut_anywhere(first: Seq<u8>, second: Seq<u8>)
    ensures
        session::stream(first).end == StreamEnd::Partial ==> session::stream(first + second)
            == session::behind(
            session::stream(first).payloads,
            session::stream(first).consumed,
            session::stream(first.skip(session::stream(first).consumed as int) + second),
        ),
        session::stream(first).end != StreamEnd::Partial ==> session::stream(first + second)
            == session::stream(first),
    decreases first.len(),
{
    match codec::decoded(first) {
        codec::Decoded::Complete { packet, consumed } => {
            codec::laws::law_consumed_is_within_buffer(first);
            codec::laws::law_more_bytes_change_nothing(first, second);
            if packet !is Disconnect {
                let rest = first.skip(consumed as int);
                law_stream_is_within_buffer(rest);
                law_stream_may_be_cut_anywhere(rest, second);
                assert((first + second).skip(consumed as int) =~= rest + second);
                let left = rest.skip(session::stream(rest).consumed as int);
                assert(first.skip(session::stream(first).consumed as int) =~= left);
                if session::stream(rest).end == StreamEnd::Partial {
                    assert(session::stream(first + second) =~= session::behind(
                        session::stream(first).payloads,
                        session::stream(first).consumed,
                        session::stream(left + second),
                    ));
                }
            }
        },
        codec::Decoded::Violation(_) => {
            codec::laws::law_more_bytes_change_nothing(first, second);
        },
        codec::Decoded::Partial => {
            assert(first.skip(0) =~= first);
            assert(session::stream(first + second) =~= session::behind(
                seq![],
                0,
                session::stream(first + second),
            ));
        },
    }
}

/// The bytes that `reads` gave, one behind the other.
pub open spec fn bytes_of(reads: Seq<session::ReadView>) -> Seq<u8>
    decreases reads.len(),
{
    if reads.len() == 0 {
        seq![]
    } else {
        (match reads[0] {
            session::ReadView::Data(bytes) => bytes,
            _ => seq![],
        }) + bytes_of(reads.skip(1))
    }
}

/// What a link has handed over, and how it ended if it did.
#[verifier::ext_equal]
pub struct Delivery {
    pub payloads: Seq<Seq<u8>>,
    pub end: Option<session::EndingView>,
}

/// What a link hands over in the course of `reads`, up to its end.
pub open spec fn delivered(link: session::SessionView, reads: Seq<session::ReadView>) -> Delivery
    decreases reads.len(),
{
    if reads.len() == 0 {
        Delivery { payloads: seq![], end: None }
    } else {
        let (next, action) = link.after_read(reads[0]);
        match action {
            session::ActionView::Deliver { payloads, then_end: Some(ending) } => Delivery {
                payloads,
                end: Some(ending),
            },
            session::ActionView::Deliver { payloads, then_end: None } => {
                let later = delivered(next, reads.skip(1));
                Delivery { payloads: payloads + later.payloads, end: later.end }
            },
            _ => delivered(next, reads.skip(1)),
        }
    }
}

/// The link can be read on after `read`: the peer has not closed it, the
/// transport has not failed, and the pending bytes are within their limit.
pub open spec fn is_readable_after(link: session::SessionView, read: session::ReadView) -> bool {
    match read {
        session::ReadView::Data(bytes) => 0 < bytes.len() && link.pending.len() + bytes.len()
            <= MAX_READ_BUFFER,
        session::ReadView::Failed => false,
        _ => true,
    }
}

/// `reads` are whole polls of the link: the last one ends a poll, and the link
/// can be read on after every one before it, up to the link's end.
pub open spec fn are_whole_polls(
    link: session::SessionView,
    reads: Seq<session::ReadView>,
) -> bool
    decreases reads.len(),
{
    if reads.len() == 0 {
        false
    } else if reads.len() == 1 {
        link.after_read(reads[0]).1 is Deliver
    } else {
        let (next, action) = link.after_read(reads[0]);
        &&& is_readable_after(link, reads[0])
        &&& (action matches session::ActionView::Deliver { then_end, .. } && then_end is Some)
            || are_whole_polls(next, reads.skip(1))
    }
}

/// At some point of `reads` nothing more was ready.
pub open spec fn has_poll(reads: Seq<session::ReadView>) -> bool
    decreases reads.len(),
{
    reads.len() > 0 && (reads[0] is NotReady || has_poll(reads.skip(1)))
}

/// The bytes that `reads` gave before the last point at which nothing more was
/// ready.
pub open spec fn polled_bytes(reads: Seq<session::ReadView>) -> Seq<u8>
    decreases reads.len(),
{
    if !has_poll(reads) {
        seq![]
    } else {
        (match reads[0] {
            session::ReadView::Data(bytes) => bytes,
            _ => seq![],
        }) + polled_bytes(reads.skip(1))
    }
}

/// How a run of polls ends a link that held `pending`: the way the frames end
/// that were dispatched while it could be read; else, where the last read shows
/// that it can be read no more, there.
pub open spec fn end_of_polls(
    pending: Seq<u8>,
    reads: Seq<session::ReadView>,
) -> Option<session::EndingView> {
    let seen = session::stream(pending + polled_bytes(reads)).end;
    if has_poll(reads) && seen != StreamEnd::Partial {
        session::ending_of(seen)
    } else if reads.last() is NotReady {
        None
    } else {
        Some(session::last_ending(session::stream(pending + bytes_of(reads)).end))
    }
}

/// Messages do not depend on how the bytes arrive. In any run of polls, the
/// messages handed over, and the end, are those of all the bytes together. Where
/// the last read shows that the link can be read no more, the link ends there.
pub proof fn law_messages_do_not_depend_on_reads(
    link: session::SessionView,
    reads: Seq<session::ReadView>,
)
    requires
        are_whole_polls(link, reads),
    ensures
        delivered(link, reads) == (Delivery {
            payloads: session::stream(link.pending + bytes_of(reads)).payloads,
            end: end_of_polls(link.pending, reads),
        }),
        reads.last() is NotReady ==> end_of_polls(link.pending, reads) == session::ending_of(
            session::stream(link.pending + bytes_of(reads)).end,
        ),
    decreases reads.len(),
{
    let (next, action) = link.after_read(reads[0]);
    let rest = reads.skip(1);
    let later = bytes_of(rest);
    let later_polled = polled_bytes(rest);
    if reads.len() == 1 {
        assert(later =~= seq![]);
        assert(link.pending + seq![] =~= link.pending);
        assert(polled_bytes(reads) =~= seq![]);
        assert(delivered(next, rest).payloads =~= seq![]);
        match reads[0] {
            session::ReadView::Data(bytes) => {
                assert(link.pending + bytes_of(reads) =~= link.pending + bytes);
            },
            _ => {
                assert(link.pending + bytes_of(reads) =~= link.pending);
            },
        }
        assert(delivered(link, reads).payloads =~= session::stream(
            link.pending + bytes_of(reads),
        ).payloads);
    } else {
        assert(rest.last() == reads.last());
        match reads[0] {
            session::ReadView::Data(bytes) => {
                assert(next.pending + later =~= link.pending + bytes_of(reads));
                if has_poll(rest) {
                    assert(next.pending + later_polled =~= link.pending + polled_bytes(reads));
                }
                law_messages_do_not_depend_on_reads(next, rest);
            },
            session::ReadView::NotReady(_) => {
                assert(link.pending + bytes_of(reads) =~= link.pending + later);
                assert(link.pending + polled_bytes(reads) =~= link.pending + later_polled);
                law_stream_may_be_cut_anywhere(link.pending, later);
                law_stream_may_be_cut_anywhere(link.pending, later_polled);
                if !has_poll(rest) {
                    assert(link.pending + later_polled =~= link.pending);
                }
                if session::stream(link.pending).end == StreamEnd::Partial {
                    law_messages_do_not_depend_on_reads(next, rest);
                }
            },
            _ => {
                assert(next.pending + later =~= link.pending + bytes_of(reads));
                if has_poll(rest) {
                    assert(next.pending + later_polled =~= link.pending + polled_bytes(reads));
                }
                law_messages_do_not_depend_on_reads(next, rest);
            },
        }
    }
}

/// The last messages before a close are not lost: whole frames are handed over
/// also when the peer closes the connection right behind them.
pub proof fn law_close_hands_over_first(link: session::SessionView, payloads: Seq<Seq<u8>>)
    requires
        forall|i: int| 0 <= i < payloads.len() ==> (#[trigger] payloads[i]).len() + 1
            < LENGTH_LIMIT,
        link.pending == push_frames(payloads),
    ensures
        link.after(session::EventView::Read(session::ReadView::Data(seq![]))).1 == (
        session::ActionView::Deliver {
            payloads,
            then_end: Some(session::EndingView { farewell: None, end: PhaseEnd::Lost }),
        }),
{
    law_pushes_arrive_in_order(payloads);
    assert(link.pending + seq![] =~= link.pending);
}

/// Messages that come with the CONNACK are not lost: a session that starts with
/// what the handshake left over hands them over.
pub proof fn law_pushes_behind_connack_arrive(
    link: session::SessionView,
    return_code: u8,
    payloads: Seq<Seq<u8>>,
    now: nat,
)
    requires
        forall|i: int| 0 <= i < payloads.len() ==> (#[trigger] payloads[i]).len() + 1
            < LENGTH_LIMIT,
        link.pending == handshake::behind_answer(
            codec::frame(mtype::CONNACK, seq![return_code] + codec::be16(link.keepalive))
                + push_frames(payloads),
        ),
    ensures
        link.after(session::EventView::Read(session::ReadView::NotReady(now))).1 == (
        session::ActionView::Deliver { payloads, then_end: None }),
{
    handshake::law_bytes_behind_connack_are_kept(
        return_code,
        link.keepalive,
        push_frames(payloads),
    );
    law_pushes_arrive_in_order(payloads);
}

/// What a link writes while it carries out pushes of `payloads` and then finds
/// `last`, and how it ends if it does. The writes work out, each at its time.
pub open spec fn carried_out(
    link: session::SessionView,
    payloads: Seq<Seq<u8>>,
    times: Seq<nat>,
    last: session::PolledView,
) -> (Seq<u8>, Option<PhaseEnd>)
    decreases payloads.len(),
{
    if payloads.len() == 0 {
        match link.after(session::EventView::Command(last)).1 {
            session::ActionView::End(ending) => (
                match ending.farewell {
                    Some(bytes) => bytes,
                    None => seq![],
                },
                Some(ending.end),
            ),
            _ => (seq![], None),
        }
    } else {
        let (sending, action) = link.after(
            session::EventView::Command(session::PolledView::Push(payloads[0])),
        );
        let (next, polled) = sending.after(
            session::EventView::PushWritten { ok: true, now: times[0] },
        );
        match (action, polled) {
            (session::ActionView::SendPush(bytes), session::ActionView::PollCommand) => {
                let (later, end) = carried_out(next, payloads.skip(1), times.skip(1), last);
                (bytes + later, end)
            },
            _ => (seq![], None),
        }
    }
}

/// A stop request lets the link poll its commands to the end.
pub proof fn law_stop_drains_commands(link: session::SessionView)
    ensures
        link.after(session::EventView::StopFlag(true)) == (
            session::SessionView { stopping: true, ..link },
            session::ActionView::PollCommand,
        ),
{
}

/// A link that is asked to stop, by the flag or by a command, still sends every
/// push that was queued before, in order; then one DISCONNECT(0x00), and nothing
/// after it.
pub proof fn law_stop_says_goodbye(
    link: session::SessionView,
    payloads: Seq<Seq<u8>>,
    times: Seq<nat>,
    last: session::PolledView,
)
    requires
        last !is Push,
        link.stopping || last is Shutdown,
    ensures
        carried_out(link, payloads, times, last) == (
            push_frames(payloads) + seq![0xe0u8, 0x01, 0x00],
            Some(PhaseEnd::Shutdown),
        ),
    decreases payloads.len(),
{
    if payloads.len() == 0 {
        assert(codec::disconnect_frame(disconnect::NORMAL) =~= seq![0xe0u8, 0x01, 0x00]);
        assert(push_frames(payloads) + seq![0xe0u8, 0x01, 0x00] =~= seq![0xe0u8, 0x01, 0x00]);
    } else {
        let next = link.sent_at(times[0]);
        law_stop_says_goodbye(next, payloads.skip(1), times.skip(1), last);
        assert(carried_out(link, payloads, times, last).0 =~= push_frames(payloads)
            + seq![0xe0u8, 0x01, 0x00]);
    }
}

/// A protocol violation is answered with DISCONNECT(0x04) and loses the link,
/// after the messages that came before it.
pub proof fn law_violation_is_answered(link: session::SessionView, now: nat)
    requires
        session::stream(link.pending).end == StreamEnd::Violation,
    ensures
        link.after(session::EventView::Read(session::ReadView::NotReady(now))).1 == (
        session::ActionView::Deliver {
            payloads: session::stream(link.pending).payloads,
            then_end: Some(
                session::EndingView {
                    farewell: Some(codec::disconnect_frame(disconnect::PROTOCOL_VIOLATION)),
                    end: PhaseEnd::Lost,
                },
            ),
        }),
{
}

/// A DISCONNECT from the server ends the link for good, whatever its return
/// code, and nothing behind it is handed over.
pub proof fn law_server_disconnect_ends_the_link(
    link: session::SessionView,
    return_code: u8,
    rest: Seq<u8>,
    now: nat,
)
    requires
        link.pending == codec::disconnect_frame(return_code) + rest,
    ensures
        link.after(session::EventView::Read(session::ReadView::NotReady(now))).1 == (
        session::ActionView::Deliver {
            payloads: seq![],
            then_end: Some(session::EndingView { farewell: None, end: PhaseEnd::Shutdown }),
        }),
{
    codec::laws::law_disconnect_roundtrip(return_code, rest);
}

/// A pushed payload is sent in a frame that decodes to it.
pub proof fn law_push_is_sent(link: session::SessionView, payload: Seq<u8>)
    requires
        payload.len() + 1 < LENGTH_LIMIT,
    ensures
        link.after(session::EventView::Command(session::PolledView::Push(payload))).1 matches
            session::ActionView::SendPush(bytes) && codec::decoded(bytes) == (
        codec::Decoded::Complete {
            packet: codec::PacketView::Push(payload),
            consumed: bytes.len(),
        }),
{
    let bytes = codec::push_frame(payload);
    codec::laws::law_push_roundtrip(payload, seq![]);
    assert(bytes + seq![] =~= bytes);
}

/// A keepalive of 0 disables heartbeats: the clock alone never sends a PINGREQ
/// nor loses the link.
pub proof fn law_keepalive_zero_disables_heartbeats(link: session::SessionView, now: nat)
    requires
        link.keepalive == 0,
    ensures
        link.after(session::EventView::Clock(now)) == (link, session::ActionView::Read),
{
}

/// While the server is heard, a link on which nothing was sent for the keepalive
/// is pinged, and one on which something was sent since is not.
pub proof fn law_idle_link_is_pinged(link: session::SessionView, now: nat)
    requires
        link.keepalive > 0,
        session::elapsed(now, link.last_received) < link.silence_limit,
    ensures
        link.after(session::EventView::Clock(now)).1 == if session::elapsed(
            now,
            link.last_sent,
        ) >= link.keepalive * NANOS_PER_SEC {
            session::ActionView::SendPing(codec::pingreq_frame())
        } else {
            session::ActionView::Read
        },
{
}

/// Two PINGREQs are at least the keepalive apart, and so are a PUSH and the next
/// PINGREQ: however the link goes on after a write at `sent`, no PINGREQ is due
/// before the keepalive is over.
pub proof fn law_pings_are_spaced(
    link: session::SessionView,
    sent: nat,
    events: Seq<session::EventView>,
    now: nat,
)
    requires
        forall|i: int|
            0 <= i < events.len() ==> match #[trigger] events[i] {
                session::EventView::PushWritten { now, .. } => now >= sent,
                session::EventView::PingWritten { now, .. } => now >= sent,
                _ => true,
            },
        now < sent + link.keepalive * NANOS_PER_SEC,
    ensures
        link.after(session::EventView::PushWritten { ok: true, now: sent }).0 == link.sent_at(sent),
        link.after(session::EventView::PingWritten { ok: true, now: sent }).0 == link.sent_at(sent),
        after_all(link.sent_at(sent), events).after(session::EventView::Clock(now)).1
            !is SendPing,
{
    lemma_last_sent(link.sent_at(sent), sent, events);
    law_keepalive_is_fixed(link.sent_at(sent), events);
}

/// The time of the last write does not go back behind `sent`.
proof fn lemma_last_sent(
    link: session::SessionView,
    sent: nat,
    events: Seq<session::EventView>,
)
    requires
        link.last_sent >= sent,
        forall|i: int|
            0 <= i < events.len() ==> match #[trigger] events[i] {
                session::EventView::PushWritten { now, .. } => now >= sent,
                session::EventView::PingWritten { now, .. } => now >= sent,
                _ => true,
            },
    ensures
        after_all(link, events).last_sent >= sent,
    decreases events.len(),
{
    if events.len() > 0 {
        let rest = events.skip(1);
        assert forall|i: int| 0 <= i < rest.len() implies match #[trigger] rest[i] {
            session::EventView::PushWritten { now, .. } => now >= sent,
            session::EventView::PingWritten { now, .. } => now >= sent,
            _ => true,
        } by {
            assert(rest[i] == events[i + 1]);
        }
        assert(link.after(events[0]).0.last_sent >= sent);
        lemma_last_sent(link.after(events[0]).0, sent, rest);
    }
}

/// The server's keepalive and the limit on its silence hold for the whole
/// session.
pub proof fn law_keepalive_is_fixed(
    link: session::SessionView,
    events: Seq<session::EventView>,
)
    ensures
        after_all(link, events).keepalive == link.keepalive,
        after_all(link, events).silence_limit == link.silence_limit,
    decreases events.len(),
{
    if events.len() > 0 {
        law_keepalive_is_fixed(link.after(events[0]).0, events.skip(1));
    }
}

/// The bytes that were read in the course of `events`.
pub open spec fn received_in(events: Seq<session::EventView>) -> Seq<u8>
    decreases events.len(),
{
    if events.len() == 0 {
        seq![]
    } else {
        (match events[0] {
            session::EventView::Read(session::ReadView::Data(bytes)) => bytes,
            _ => seq![],
        }) + received_in(events.skip(1))
    }
}

/// A link from which no packet comes for as long as the server may be silent is
/// lost, whatever else happens meanwhile. Part of a packet is none, before or
/// in that time.
pub proof fn law_silent_link_is_lost(
    link: session::SessionView,
    events: Seq<session::EventView>,
    now: nat,
)
    requires
        link.keepalive > 0,
        codec::decoded(link.pending + received_in(events)) == codec::Decoded::Partial,
        now >= link.last_received + link.silence_limit,
    ensures
        after_all(link, events).after(session::EventView::Clock(now)).1 == session::lost(),
    decreases events.len(),
{
    if events.len() > 0 {
        let next = link.after(events[0]).0;
        let later = received_in(events.skip(1));
        if let session::EventView::Read(session::ReadView::Data(bytes)) = events[0] {
            let grown = link.pending + bytes;
            assert(link.pending + received_in(events) =~= grown + later);
            if codec::decoded(grown) !is Partial {
                codec::laws::law_more_bytes_change_nothing(grown, later);
            }
            assert(grown.skip(0) =~= grown);
            assert(next.pending =~= grown);
        } else {
            assert(link.pending + received_in(events) =~= link.pending + later);
            if codec::decoded(link.pending) !is Partial {
                codec::laws::law_more_bytes_change_nothing(link.pending, later);
            }
            assert(link.pending.skip(0) =~= link.pending);
            assert(next.pending =~= link.pending);
        }
        law_silent_link_is_lost(next, events.skip(1), now);
    }
}

/// A packet keeps the link alive, whatever its type: from the poll that finds it
/// on, and however the link goes on, the server may be silent for as long as the
/// limit again.
pub proof fn law_packet_keeps_link_alive(
    link: session::SessionView,
    found: nat,
    events: Seq<session::EventView>,
    now: nat,
)
    requires
        codec::decoded(link.pending) is Complete,
        link.keepalive > 0 ==> link.silence_limit > 0,
        forall|i: int|
            0 <= i < events.len() ==> ((#[trigger] events[i]) matches session::EventView::Read(
                session::ReadView::NotReady(ready),
            ) ==> ready >= found),
        now < found + link.silence_limit,
    ensures
        after_all(
            link.after(session::EventView::Read(session::ReadView::NotReady(found))).0,
            events,
        ).after(session::EventView::Clock(now)).1 !is End,
{
    let next = link.after(session::EventView::Read(session::ReadView::NotReady(found))).0;
    codec::laws::law_consumed_is_within_buffer(link.pending);
    assert(next.last_received == found);
    lemma_last_received(next, found, events);
    law_keepalive_is_fixed(next, events);
}

/// The time of the last packet does not go back behind `found`.
proof fn lemma_last_received(
    link: session::SessionView,
    found: nat,
    events: Seq<session::EventView>,
)
    requires
        link.last_received >= found,
        forall|i: int|
            0 <= i < events.len() ==> ((#[trigger] events[i]) matches session::EventView::Read(
                session::ReadView::NotReady(ready),
            ) ==> ready >= found),
    ensures
        after_all(link, events).last_received >= found,
    decreases events.len(),
{
    if events.len() > 0 {
        let rest = events.skip(1);
        assert forall|i: int| 0 <= i < rest.len() implies ((
        #[trigger] rest[i]) matches session::EventView::Read(session::ReadView::NotReady(ready))
            ==> ready >= found) by {
            assert(rest[i] == events[i + 1]);
        }
        assert(link.after(events[0]).0.last_received >= found);
        lemma_last_received(link.after(events[0]).0, found, rest);
    }
}

/// As long as a link goes on, what waits to be dispatched is bounded.
pub proof fn law_buffer_is_bounded(link: session::SessionView, event: session::EventView)
    requires
        link.pending.len() <= MAX_READ_BUFFER,
        link.after(event).1 !is End,
        link.after(event).1 matches session::ActionView::Deliver { then_end, .. } ==> then_end
            is None,
    ensures
        link.after(event).0.pending.len() <= MAX_READ_BUFFER,
{
    law_stream_is_within_buffer(link.pending);
}

/// The time of the last write changes with a PUSH or a PINGREQ that was written,
/// and with nothing else.
pub proof fn law_only_writes_count_as_sent(link: session::SessionView, event: session::EventView)
    ensures
        link.after(event).0.last_sent == match event {
            session::EventView::PushWritten { ok: true, now } => now,
            session::EventView::PingWritten { ok: true, now } => now,
            _ => link.last_sent,
        },
{
}

/// Whatever a link reads, it is pinged when the keepalive is over since the last
/// write, as long as the server is heard.
pub proof fn law_reading_is_no_sending(
    link: session::SessionView,
    events: Seq<session::EventView>,
    now: nat,
)
    requires
        forall|i: int|
            0 <= i < events.len() ==> match #[trigger] events[i] {
                session::EventView::PushWritten { ok, .. } => !ok,
                session::EventView::PingWritten { ok, .. } => !ok,
                _ => true,
            },
    ensures
        after_all(link, events).last_sent == link.last_sent,
        link.keepalive > 0 && now >= link.last_sent + link.keepalive * 1_000_000_000 && now
            < after_all(link, events).last_received + link.silence_limit && link.silence_limit > 0
            ==> after_all(link, events).after(session::EventView::Clock(now)).1
            == session::ActionView::SendPing(seq![0x50u8, 0u8]),
    decreases events.len(),
{
    law_keepalive_is_fixed(link, events);
    codec::laws::law_frames_on_the_wire(0, 0, seq![], seq![], 0);
    if events.len() > 0 {
        let rest = events.skip(1);
        assert forall|i: int| 0 <= i < rest.len() implies match #[trigger] rest[i] {
            session::EventView::PushWritten { ok, .. } => !ok,
            session::EventView::PingWritten { ok, .. } => !ok,
            _ => true,
        } by {
            assert(rest[i] == events[i + 1]);
        }
        assert(link.after(events[0]).0.last_sent == link.last_sent);
        law_reading_is_no_sending(link.after(events[0]).0, rest, now);
    }
}

/// The time of the last packet changes when a poll finds a whole packet at the
/// front of what is pending, and with nothing else.
pub proof fn law_only_packets_count_as_received(
    link: session::SessionView,
    event: session::EventView,
)
    ensures
        link.after(event).0.last_received == match event {
            session::EventView::Read(session::ReadView::NotReady(now)) => if codec::decoded(
                link.pending,
            ) is Complete {
                now
            } else {
                link.last_received
            },
            _ => link.last_received,
        },
{
    if codec::decoded(link.pending) is Complete {
        codec::laws::law_consumed_is_within_buffer(link.pending);
    }
}

/// Nothing changes the keepalive nor the limit on silence; only a stop flag that
/// is up makes the link stop, and for good.
pub proof fn law_only_the_flag_stops(link: session::SessionView, event: session::EventView)
    ensures
        link.after(event).0.keepalive == link.keepalive,
        link.after(event).0.silence_limit == link.silence_limit,
        link.after(event).0.stopping == (link.stopping || event == session::EventView::StopFlag(
            true,
        )),
{
}

/// No received byte is dropped or made up: what was pending and what a read gave
/// is pending afterwards, less the frames that were dispatched.
pub proof fn law_received_bytes_are_kept(link: session::SessionView, event: session::EventView)
    ensures
        ({
            let next = link.after(event).0.pending;
            match event {
                session::EventView::Read(session::ReadView::Data(bytes)) => {
                    let all = link.pending + bytes;
                    if bytes.len() > 0 && all.len() <= 16_777_216 {
                        next == all
                    } else {
                        next == all.skip(session::stream(all).consumed as int)
                    }
                },
                session::EventView::Read(session::ReadView::NotReady(_)) => next
                    == link.pending.skip(session::stream(link.pending).consumed as int),
                session::EventView::Read(session::ReadView::Failed) => next == link.pending.skip(
                    session::stream(link.pending).consumed as int,
                ),
                _ => next == link.pending,
            }
        }),
{
}

/// What the clock brings about. With a keepalive, a server that is silent for the
/// limit is given up without a word; else, when nothing was sent for the
/// keepalive, PINGREQ goes out; else, and without a keepalive, the link is read.
pub proof fn law_clock_decides(link: session::SessionView, now: nat)
    ensures
        ({
            let action = link.after(session::EventView::Clock(now)).1;
            let silent = now >= link.last_received + link.silence_limit || link.silence_limit == 0;
            let idle = now >= link.last_sent + link.keepalive * 1_000_000_000;
            &&& link.keepalive == 0 ==> action is Read
            &&& link.keepalive > 0 && silent ==> action == session::ActionView::End(
                session::EndingView { farewell: None, end: PhaseEnd::Lost },
            )
            &&& link.keepalive > 0 && !silent && idle ==> action == session::ActionView::SendPing(
                seq![0x50u8, 0u8],
            )
            &&& link.keepalive > 0 && !silent && !idle ==> action is Read
        }),
{
    codec::laws::law_frames_on_the_wire(0, 0, seq![], seq![], 0);
}

/// What a command brings about. A payload is sent as PUSH; a shutdown, and a stop
/// once no command waits, is DISCONNECT(0x00) and the end; a user who is gone
/// without asking for the end is the end without a word.
pub proof fn law_commands_are_carried_out(link: session::SessionView, payload: Seq<u8>)
    ensures
        ({
            let said = |polled: session::PolledView|
                link.after(session::EventView::Command(polled)).1;
            let goodbye = session::ActionView::End(
                session::EndingView {
                    farewell: Some(seq![0xe0u8, 1u8, 0u8]),
                    end: PhaseEnd::Shutdown,
                },
            );
            &&& said(session::PolledView::Push(payload)) == session::ActionView::SendPush(
                seq![0x30u8] + codec::length_digits(payload.len() + 1) + seq![0u8] + payload,
            )
            &&& said(session::PolledView::Shutdown) == goodbye
            &&& link.stopping ==> said(session::PolledView::Empty) == goodbye
            &&& !link.stopping ==> said(session::PolledView::Empty) is ReadClock
            &&& link.stopping ==> said(session::PolledView::HungUp) == goodbye
            &&& !link.stopping ==> said(session::PolledView::HungUp) == session::ActionView::End(
                session::EndingView { farewell: None, end: PhaseEnd::Shutdown },
            )
        }),
{
    codec::laws::law_frames_on_the_wire(0, 0, seq![], payload, 0);
}

/// Commands are polled after the stop flag and after every PUSH that was written;
/// the link is read after a PINGREQ that was; a write that failed loses the link.
pub proof fn law_rounds_go_on(link: session::SessionView, stop: bool, now: nat)
    ensures
        link.after(session::EventView::StopFlag(stop)).1 is PollCommand,
        link.after(session::EventView::PushWritten { ok: true, now }).1 is PollCommand,
        link.after(session::EventView::PingWritten { ok: true, now }).1 is Read,
        link.after(session::EventView::PushWritten { ok: false, now }).1
            == session::ActionView::End(
            session::EndingView { farewell: None, end: PhaseEnd::Lost },
        ),
        link.after(session::EventView::PingWritten { ok: false, now }).1
            == session::ActionView::End(
            session::EndingView { farewell: None, end: PhaseEnd::Lost },
        ),
{
}

/// What a read brings about. Reading goes on as long as bytes come and 16 MiB
/// hold them, and across interruptions. When nothing is ready, or nothing can be
/// read any more, the messages that have arrived are handed over. Then the link
/// goes on, unless the server has closed it or broken the protocol, which is
/// answered with DISCONNECT(0x04); a link that can be read no more ends, as a
/// loss unless the server has closed it before.
pub proof fn law_reads_hand_over(link: session::SessionView, bytes: Seq<u8>, now: nat)
    ensures
        ({
            let said = |read: session::ReadView| link.after(session::EventView::Read(read)).1;
            let all = link.pending + bytes;
            let closing = |held: Seq<u8>|
                session::ActionView::Deliver {
                    payloads: session::stream(held).payloads,
                    then_end: Some(
                        session::EndingView {
                            farewell: None,
                            end: if session::stream(held).end is Disconnected {
                                PhaseEnd::Shutdown
                            } else {
                                PhaseEnd::Lost
                            },
                        },
                    ),
                };
            &&& bytes.len() > 0 && all.len() <= 16_777_216 ==> said(session::ReadView::Data(bytes))
                is Read
            &&& bytes.len() == 0 || all.len() > 16_777_216 ==> said(session::ReadView::Data(bytes))
                == closing(all)
            &&& said(session::ReadView::Interrupted) is Read
            &&& said(session::ReadView::Failed) == closing(link.pending)
            &&& said(session::ReadView::NotReady(now)) == (session::ActionView::Deliver {
                payloads: session::stream(link.pending).payloads,
                then_end: match session::stream(link.pending).end {
                    StreamEnd::Partial => None,
                    StreamEnd::Disconnected(_) => Some(
                        session::EndingView { farewell: None, end: PhaseEnd::Shutdown },
                    ),
                    StreamEnd::Violation => Some(
                        session::EndingView {
                            farewell: Some(seq![0xe0u8, 1u8, 4u8]),
                            end: PhaseEnd::Lost,
                        },
                    ),
                },
            })
        }),
{
    codec::laws::law_frames_on_the_wire(0, 0, seq![], seq![], 4);
    assert(session::ending_of(StreamEnd::Violation)->0.farewell->0 =~= seq![0xe0u8, 1u8, 4u8]);
}

/// How the packets of a stream follow one another. A PUSH adds its payload in
/// front of those behind it; a DISCONNECT ends the stream; every other packet is
/// passed over; nothing is read past bytes that are no whole packet.
pub proof fn law_stream_goes_packet_by_packet(bytes: Seq<u8>)
    ensures
        match codec::decoded(bytes) {
            codec::Decoded::Partial => session::stream(bytes) == (session::Stream {
                payloads: seq![],
                consumed: 0,
                end: StreamEnd::Partial,
            }),
            codec::Decoded::Violation(_) => session::stream(bytes) == (session::Stream {
                payloads: seq![],
                consumed: 0,
                end: StreamEnd::Violation,
            }),
            codec::Decoded::Complete { packet, consumed } => {
                let whole = session::stream(bytes);
                let rest = session::stream(bytes.skip(consumed as int));
                match packet {
                    codec::PacketView::Disconnect(code) => whole == (session::Stream {
                        payloads: seq![],
                        consumed,
                        end: StreamEnd::Disconnected(code),
                    }),
                    codec::PacketView::Push(payload) => whole.payloads.len() == 1
                        + rest.payloads.len() && whole.payloads[0] == payload
                        && whole.payloads.skip(1) == rest.payloads && whole.consumed == consumed
                        + rest.consumed && whole.end == rest.end,
                    _ => whole.payloads == rest.payloads && whole.consumed == consumed
                        + rest.consumed && whole.end == rest.end,
                }
            },
        },
{
    if let codec::Decoded::Complete { packet, consumed } = codec::decoded(bytes) {
        let whole = session::stream(bytes);
        let rest = session::stream(bytes.skip(consumed as int));
        codec::laws::law_consumed_is_within_buffer(bytes);
        if packet is Push {
            assert(whole.payloads.skip(1) =~= rest.payloads);
        } else if packet !is Disconnect {
            assert(whole.payloads =~= rest.payloads);
        }
    }
}

/// The limit on silence is the response timeout where there is one, else one and
/// a half times the keepalive.
pub proof fn law_silence_limit(keepalive: u16, response_timeout: nat)
    ensures
        response_timeout > 0 ==> session::silence_limit(keepalive, response_timeout)
            == response_timeout,
        2 * session::silence_limit(keepalive, 0) == 3 * keepalive * 1_000_000_000,
{
}

/// The value of an event has all that was reported, as it is.
pub proof fn law_event_value_keeps_its_fields(event: session::Event)
    ensures
        match event {
            session::Event::StopFlag(stop) => event@ == session::EventView::StopFlag(stop),
            session::Event::Command(session::Polled::Push(payload)) => event@
                == session::EventView::Command(session::PolledView::Push(payload@)),
            session::Event::Command(session::Polled::Shutdown) => event@
                == session::EventView::Command(session::PolledView::Shutdown),
            session::Event::Command(session::Polled::Empty) => event@
                == session::EventView::Command(session::PolledView::Empty),
            session::Event::Command(session::Polled::HungUp) => event@
                == session::EventView::Command(session::PolledView::HungUp),
            session::Event::PushWritten { ok, now } => event@ == (
            session::EventView::PushWritten { ok, now: now@ }),
            session::Event::Clock(now) => event@ == session::EventView::Clock(now@),
            session::Event::PingWritten { ok, now } => event@ == (
            session::EventView::PingWritten { ok, now: now@ }),
            session::Event::Read(session::ReadEvent::Data(bytes)) => event@
                == session::EventView::Read(session::ReadView::Data(bytes@)),
            session::Event::Read(session::ReadEvent::NotReady(now)) => event@
                == session::EventView::Read(session::ReadView::NotReady(now@)),
            session::Event::Read(session::ReadEvent::Interrupted) => event@
                == session::EventView::Read(session::ReadView::Interrupted),
            session::Event::Read(session::ReadEvent::Failed) => event@ == session::EventView::Read(
                session::ReadView::Failed,
            ),
        },
{
}

/// The value of an ending has what is to be written, byte for byte, and the way
/// the link ends.
pub proof fn law_ending_value_keeps_its_fields(ending: session::Ending)
    ensures
        ending@.end == ending.end,
        ending.farewell is None <==> ending@.farewell is None,
        ending.farewell matches Some(bytes) ==> ending@.farewell == Some(bytes@),
{
}

/// The value of an action has all that is to be done: every byte to write, every
/// message to hand over, in order, and the end.
pub proof fn law_action_value_keeps_its_fields(action: session::Action)
    ensures
        match action {
            session::Action::PollCommand => action@ is PollCommand,
            session::Action::SendPush(bytes) => action@ == session::ActionView::SendPush(bytes@),
            session::Action::ReadClock => action@ is ReadClock,
            session::Action::SendPing(bytes) => action@ == session::ActionView::SendPing(bytes@),
            session::Action::Read => action@ is Read,
            session::Action::Deliver { messages, then_end } => action@
                matches session::ActionView::Deliver { payloads, then_end: ending }
                && payloads.len() == messages.len() && (forall|i: int|
                0 <= i < payloads.len() ==> #[trigger] payloads[i] == messages[i]@) && (
            then_end is None <==> ending is None) && (then_end matches Some(last) ==> ending
                == Some(last@)),
            session::Action::End(ending) => action@ == session::ActionView::End(ending@),
        },
{
}

/// The value of what was dispatched has every message, in order, the bytes read
/// and the end.
pub proof fn law_dispatched_value_keeps_its_fields(found: session::Dispatched)
    ensures
        found@.payloads.len() == found.messages.len(),
        forall|i: int|
            0 <= i < found.messages.len() ==> #[trigger] found@.payloads[i] == found.messages[i]@,
        found@.consumed == found.consumed,
        found@.end == found.end,
{
}

} // verus!
