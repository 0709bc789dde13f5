//! The CONNECT/CONNACK handshake.
//!
//! The caller writes [`connect_request`], then asks [`Handshake::next`] what to
//! do and reports each read to [`Handshake::on_read`]. Once the server has
//! accepted, [`Handshake::into_rest`] hands out what came behind its answer.

use crate::codec;
use crate::codec::{returncode, Packet, MAX_CREDENTIAL};
use crate::duration::Duration;
use crate::error::Error;
use crate::options::ClientOptions;
use vstd::prelude::*;
use vstd::slice::*;
use vstd::string::*;
use vstd::utf8::*;

verus! {

/// What the server has answered so far.
#[verifier::ext_equal]
pub enum Answer {
    /// No whole packet yet.
    Awaited,
    /// CONNACK with return code 0 and this keepalive.
    Accepted(u16),
    /// CONNACK with another return code.
    Refused(u8),
    /// Something that is no CONNACK.
    Violation(Seq<char>),
}

/// What the bytes received so far answer: their first packet decides.
pub open spec fn answer(received: Seq<u8>) -> Answer {
    match codec::decoded(received) {
        codec::Decoded::Partial => Answer::Awaited,
        codec::Decoded::Violation(reason) => Answer::Violation(reason),
        codec::Decoded::Complete { packet, .. } => match packet {
            codec::PacketView::Connack { return_code, server_keepalive } => if return_code
                == returncode::ACCEPTED {
                Answer::Accepted(server_keepalive)
            } else {
                Answer::Refused(return_code)
            },
            _ => Answer::Violation("first packet is not a CONNACK"@),
        },
    }
}

/// What to do next in a handshake.
#[derive(Debug)]
pub enum HandshakeAction {
    /// Read once more from the transport and report to [`Handshake::on_read`].
    Read,
    /// The connect timeout is over.
    TimedOut,
    /// The server accepted, with this keepalive in seconds.
    Accepted(u16),
    /// The server refused, or broke the protocol.
    Failed(Error),
}

/// What one read from the transport gave.
#[derive(Debug)]
pub enum HandshakeRead {
    /// These bytes; none where the peer has closed the connection.
    Data(Vec<u8>),
    /// Nothing within the read timeout.
    NotReady,
    /// Any other failure.
    Failed(std::io::Error),
}

/// What a read did to the handshake.
#[derive(Debug)]
pub enum ReadVerdict {
    /// Ask [`Handshake::next`] again.
    GoOn,
    /// The connection was closed before a CONNACK.
    PeerClosed,
    /// The transport failed.
    Failed(Error),
}

/// What stands behind the first packet of the bytes received so far: all of
/// them while that packet is not whole.
pub open spec fn behind_answer(received: Seq<u8>) -> Seq<u8> {
    match codec::decoded(received) {
        codec::Decoded::Complete { consumed, .. } => received.skip(consumed as int),
        _ => received,
    }
}

/// The CONNECT frame that opens a handshake, unless the credential is too long
/// for it.
pub fn connect_request(options: &ClientOptions) -> (request: Result<Vec<u8>, Error>)
    ensures
        if encode_utf8(options.credential@).len() <= MAX_CREDENTIAL {
            request matches Ok(bytes) && bytes@ == codec::connect_frame(
                options.protocol_version,
                options.heartbeat_seconds,
                options.credential@,
            )
        } else {
            request matches Err(Error::Protocol(reason)) && reason@
                == "credential is longer than 65535 bytes"@
        },
        request is Ok <==> encode_utf8(options.credential@).len() <= 0xffff,
{
    let credential = options.credential.as_str();
    if credential.as_bytes().len() > MAX_CREDENTIAL {
        return Err(Error::Protocol("credential is longer than 65535 bytes".to_owned()));
    }
    Ok(
        codec::encode_connect(options.protocol_version, options.heartbeat_seconds, credential),
    )
}

/// A handshake under way.
#[derive(Debug)]
pub struct Handshake {
    deadline: Duration,
    received: Vec<u8>,
}

impl Handshake {
    /// The time on the caller's clock at which to give up.
    pub closed spec fn deadline(&self) -> nat {
        self.deadline@
    }

    /// The bytes received so far.
    pub closed spec fn received(&self) -> Seq<u8> {
        self.received@
    }

    /// A handshake that has received nothing and gives up at `deadline`.
    pub fn new(deadline: Duration) -> (handshake: Handshake)
        ensures
            handshake.deadline() == deadline@,
            handshake.received() == Seq::<u8>::empty(),
    {
        Handshake { deadline, received: Vec::new() }
    }

    /// What to do next, at the time `now`. An answer counts even when it comes
    /// with the deadline.
    pub fn next(&self, now: Duration) -> (action: HandshakeAction)
        ensures
            match answer(self.received()) {
                Answer::Awaited => if now@ >= self.deadline() {
                    action is TimedOut
                } else {
                    action is Read
                },
                Answer::Accepted(keepalive) => action == HandshakeAction::Accepted(keepalive),
                Answer::Refused(code) => action == HandshakeAction::Failed(
                    Error::ConnRefused(code),
                ),
                Answer::Violation(reason) => action matches HandshakeAction::Failed(
                    Error::Protocol(said),
                ) && said@ == reason,
            },
    {
        match codec::decode(self.received.as_slice()) {
            Ok(Some((packet, _))) => match packet {
                Packet::Connack { return_code, server_keepalive } => {
                    if return_code != returncode::ACCEPTED {
                        HandshakeAction::Failed(Error::ConnRefused(return_code))
                    } else {
                        HandshakeAction::Accepted(server_keepalive)
                    }
                },
                _ => HandshakeAction::Failed(
                    Error::Protocol("first packet is not a CONNACK".to_owned()),
                ),
            },
            Ok(None) => {
                if now.as_nanos() >= self.deadline.as_nanos() {
                    HandshakeAction::TimedOut
                } else {
                    HandshakeAction::Read
                }
            },
            Err(error) => HandshakeAction::Failed(error),
        }
    }

    /// The bytes that came behind the server's answer. They belong to the
    /// connected phase.
    pub fn into_rest(self) -> (rest: Vec<u8>)
        ensures
            rest@ == behind_answer(self.received()),
    {
        let consumed: usize = match codec::decode(self.received.as_slice()) {
            Ok(Some((_, size))) => size,
            _ => 0,
        };
        proof {
            if codec::decoded(self.received@) is Complete {
                codec::laws::law_consumed_is_within_buffer(self.received@);
            }
        }
        let rest = slice_to_vec(
            slice_subrange(self.received.as_slice(), consumed, self.received.len()),
        );
        assert(rest@ =~= behind_answer(self.received@));
        rest
    }

    /// Takes in what a read gave.
    pub fn on_read(&mut self, read: HandshakeRead) -> (verdict: ReadVerdict)
        ensures
            final(self).deadline() == old(self).deadline(),
            match read {
                HandshakeRead::Data(bytes) => {
                    &&& final(self).received() == old(self).received() + bytes@
                    &&& if bytes@.len() == 0 {
                        verdict is PeerClosed
                    } else {
                        verdict is GoOn
                    }
                },
                HandshakeRead::NotReady => verdict is GoOn && final(self).received() == old(
                    self,
                ).received(),
                HandshakeRead::Failed(inner) => verdict == ReadVerdict::Failed(Error::Io(inner))
                    && final(self).received() == old(self).received(),
            },
    {
        match read {
            HandshakeRead::Data(bytes) => {
                if bytes.is_empty() {
                    assert(self.received@ + bytes@ =~= self.received@);
                    return ReadVerdict::PeerClosed;
                }
                self.received.extend_from_slice(bytes.as_slice());
                assert(self.received@ =~= old(self).received@ + bytes@);
                ReadVerdict::GoOn
            },
            HandshakeRead::NotReady => ReadVerdict::GoOn,
            HandshakeRead::Failed(inner) => ReadVerdict::Failed(Error::Io(inner)),
        }
    }
}

/// A CONNACK decides the handshake, whatever follows it: return code 0 accepts
/// with the server's keepalive, any other code refuses with that code.
pub proof fn law_connack_decides(return_code: u8, server_keepalive: u16, rest: Seq<u8>)
    ensures
        answer(
            codec::frame(codec::mtype::CONNACK, seq![return_code] + codec::be16(server_keepalive))
                + rest,
        ) == if return_code == returncode::ACCEPTED {
            Answer::Accepted(server_keepalive)
        } else {
            Answer::Refused(return_code)
        },
{
    codec::laws::law_connack_decodes(return_code, server_keepalive, rest);
}

/// Whatever comes with a CONNACK is kept for the connected phase, byte for byte.
pub proof fn law_bytes_behind_connack_are_kept(
    return_code: u8,
    server_keepalive: u16,
    rest: Seq<u8>,
)
    ensures
        behind_answer(
            codec::frame(codec::mtype::CONNACK, seq![return_code] + codec::be16(server_keepalive))
                + rest,
        ) == rest,
{
    let connack = codec::frame(
        codec::mtype::CONNACK,
        seq![return_code] + codec::be16(server_keepalive),
    );
    codec::laws::law_connack_decodes(return_code, server_keepalive, rest);
    assert((connack + rest).skip(5) =~= rest);
}

/// A CONNACK that has not arrived whole decides nothing yet.
pub proof fn law_partial_connack_is_awaited(return_code: u8, server_keepalive: u16, kept: nat)
    requires
        kept < codec::frame(
            codec::mtype::CONNACK,
            seq![return_code] + codec::be16(server_keepalive),
        ).len(),
    ensures
        answer(
            codec::frame(
                codec::mtype::CONNACK,
                seq![return_code] + codec::be16(server_keepalive),
            ).take(kept as int),
        ) == Answer::Awaited,
{
    codec::laws::law_partial_frame_is_partial(
        codec::mtype::CONNACK,
        seq![return_code] + codec::be16(server_keepalive),
        kept,
    );
}

/// An answer stands: bytes that arrive later do not change it.
pub proof fn law_answer_is_final(received: Seq<u8>, more: Seq<u8>)
    requires
        answer(received) != Answer::Awaited,
    ensures
        answer(received + more) == answer(received),
{
    codec::laws::law_more_bytes_change_nothing(received, more);
}

/// The first packet decides, and only a CONNACK with return code 0 accepts.
/// Anything that is no CONNACK breaks the protocol; without a whole packet nothing
/// is decided.
pub proof fn law_first_packet_decides(received: Seq<u8>)
    ensures
        match codec::decoded(received) {
            codec::Decoded::Partial => answer(received) is Awaited,
            codec::Decoded::Violation(reason) => answer(received) == Answer::Violation(reason),
            codec::Decoded::Complete {
                packet: codec::PacketView::Connack { return_code, server_keepalive },
                ..
            } => {
                &&& return_code == 0 ==> answer(received) == Answer::Accepted(server_keepalive)
                &&& return_code != 0 ==> answer(received) == Answer::Refused(return_code)
            },
            codec::Decoded::Complete { .. } => answer(received) == Answer::Violation(
                "first packet is not a CONNACK"@,
            ),
        },
{
}

/// Nothing is lost or made up behind the answer: the first packet and what is
/// handed out are all that was received.
pub proof fn law_answer_and_rest_are_all_bytes(received: Seq<u8>)
    ensures
        match codec::decoded(received) {
            codec::Decoded::Complete { consumed, .. } => behind_answer(received).len()
                == received.len() - consumed && received.take(consumed as int) + behind_answer(
                received,
            ) == received,
            _ => behind_answer(received) == received,
        },
{
    if let codec::Decoded::Complete { consumed, .. } = codec::decoded(received) {
        codec::laws::law_consumed_is_within_buffer(received);
        assert(received.take(consumed as int) + behind_answer(received) =~= received);
    }
}

} // verus!
