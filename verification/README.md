# rmtt

RMTT (Remote Message Telemetry Transport) is a point-to-point long-lived message
push protocol. This crate is a client library for it, written in Verus: what the
library computes and decides is stated in contracts and proved.

## Layout

| Path | What it holds |
|------|---------------|
| `src/codec.rs` | The wire format: encoders, the streaming `decode`, `reconnect_policy`; its laws in `src/codec/laws.rs` |
| `src/client/address.rs` | What an address says to dial |
| `src/client/tls.rs` | What a TLS link verifies: server name and trusted roots |
| `src/client/handshake.rs` | CONNECT/CONNACK |
| `src/client/session.rs` | The connected phase: commands, heartbeats, received frames; its laws in `src/client/session/laws.rs` |
| `src/client/reconnect.rs` | Link state, backoff, when to give up |
| `src/error.rs`, `src/message.rs`, `src/options.rs`, `src/duration.rs`, `src/text.rs` | The types that these share |
| `app/` | `Client` on sockets, clocks and threads, and an end-to-end probe |
| `tests/` | Tests of the library on concrete values |

The library performs no I/O. A handshake, a connected link and a supervised link
are each a machine: the caller reports what happened and does what the machine
asks for.

## Heartbeats

The keepalive that the server sets in CONNACK holds for the whole link. A PINGREQ
goes out when nothing was sent for that long; the link is lost when nothing was
received for one and a half times as long, or for the `response_timeout` where
that is set. What counts is a whole packet. A keepalive of 0 disables both, also
where a `response_timeout` is set: without PINGREQs a healthy server may have
nothing to say.

## Ends

When the link can be read no more, the messages that have arrived whole are handed
over before it ends, also those that the peer closes it right behind. A stop request sends what was pushed before,
then DISCONNECT(0x00); while the link is down it ends the reconnecting.

## Reconnects

The first delay is `reconnect_base`, each further one twice the one before, up to
`reconnect_max`.

## What is trusted

The calls into `rustls` (server names, root certificates) and two functions of
`std` (`String::from_utf8_lossy`, `str::to_ascii_lowercase`) stand behind
declarations whose contracts are believed. Each says above it what it claims.
