//! Keeping a link alive across losses: when to reconnect, after which delay, and
//! what the user sees of it.

use crate::client::session::PhaseEnd;
use crate::duration::{Duration, MAX_NANOS};
use crate::error::Error;
use crate::options::ClientOptions;
use vstd::arithmetic::power2::*;
use vstd::prelude::*;

verus! {

pub const ST_DISCONNECTED: u8 = 0;

pub const ST_CONNECTED: u8 = 2;

pub const ST_RECONNECTING: u8 = 3;

/// The link counts as up: connected, or reconnecting on its own.
pub open spec fn is_up(state: u8) -> bool {
    state == ST_CONNECTED || state == ST_RECONNECTING
}

/// True while the link counts as up (including during an automatic reconnect
/// attempt).
pub fn link_is_up(state: u8) -> (up: bool)
    ensures
        up == is_up(state),
{
    state == ST_CONNECTED || state == ST_RECONNECTING
}

/// Whether a message may be sent: not when the link is down.
pub fn admit_push(state: u8) -> (admitted: Result<(), Error>)
    ensures
        is_up(state) ==> admitted is Ok,
        !is_up(state) ==> admitted == Err::<(), Error>(Error::NotConnected),
{
    if link_is_up(state) {
        Ok(())
    } else {
        Err(Error::NotConnected)
    }
}

/// Twice `current`, or `limit` where that is less, in nanoseconds.
pub open spec fn next_backoff(current: nat, limit: nat) -> nat {
    if current * 2 >= limit {
        limit
    } else {
        current * 2
    }
}

/// The backoff interval that follows `current`: twice as long, up to the
/// configured maximum. Twice `current` has to be a duration still.
pub fn backoff_next(current: Duration, options: &ClientOptions) -> (next: Duration)
    requires
        current@ * 2 <= MAX_NANOS,
    ensures
        next@ == next_backoff(current@, options.reconnect_max@),
{
    match Duration::from_nanos(current.as_nanos() * 2) {
        Some(doubled) if doubled.as_nanos() < options.reconnect_max.as_nanos() => doubled,
        _ => options.reconnect_max,
    }
}

/// The shorter of two spans.
pub open spec fn shorter(a: nat, b: nat) -> nat {
    if a <= b {
        a
    } else {
        b
    }
}

/// What has become of the link.
#[derive(Debug, Clone, Copy, PartialEq, Eq, Structural)]
pub enum LinkEvent {
    /// The connected phase has ended.
    PhaseEnded(PhaseEnd),
    /// A delay is over.
    Waited,
    /// An attempt to reconnect failed, at dialling or in the handshake.
    AttemptFailed,
    /// An attempt to reconnect succeeded, with this keepalive of the server's.
    Reconnected(u16),
}

/// What to do about it.
#[derive(Debug, Clone, Copy, PartialEq, Eq, Structural)]
pub enum LinkAction {
    /// Run the connected phase with this keepalive.
    Run(u16),
    /// Wait for about this long.
    Wait(Duration),
    /// Try to reconnect.
    Dial,
    /// Give up.
    Stop,
}

/// The value of a [`LinkAction`].
pub enum LinkActionView {
    Run(u16),
    Wait(nat),
    Dial,
    Stop,
}

impl View for LinkAction {
    type V = LinkActionView;

    open spec fn view(&self) -> LinkActionView {
        match *self {
            LinkAction::Run(keepalive) => LinkActionView::Run(keepalive),
            LinkAction::Wait(delay) => LinkActionView::Wait(delay@),
            LinkAction::Dial => LinkActionView::Dial,
            LinkAction::Stop => LinkActionView::Stop,
        }
    }
}

/// The value of a [`Supervisor`].
pub struct SupervisorView {
    /// One of the `ST_` codes.
    pub state: u8,
    /// The interval to wait for after the next loss, at first the base, in
    /// nanoseconds.
    pub backoff: nat,
}

impl SupervisorView {
    /// The event makes the link back off: the link or an attempt has failed, and
    /// it is to be tried again.
    pub open spec fn backs_off(event: LinkEvent, stop: bool, options: ClientOptions) -> bool {
        !stop && options.auto_reconnect && (event == LinkEvent::PhaseEnded(PhaseEnd::Lost) || event
            == LinkEvent::AttemptFailed)
    }

    /// What an event makes of the link, and what is to be done. `stop` tells
    /// whether the user has asked for the end. A link that is up again runs in
    /// any case, so that what the user has sent before goes out.
    pub open spec fn after(self, event: LinkEvent, stop: bool, options: ClientOptions) -> (
        SupervisorView,
        LinkActionView,
    ) {
        match event {
            LinkEvent::Reconnected(keepalive) => (
                SupervisorView { state: ST_CONNECTED, ..self },
                LinkActionView::Run(keepalive),
            ),
            LinkEvent::Waited if !stop => (self, LinkActionView::Dial),
            _ => if Self::backs_off(event, stop, options) {
                (
                    SupervisorView {
                        state: if event == LinkEvent::AttemptFailed {
                            self.state
                        } else {
                            ST_RECONNECTING
                        },
                        backoff: next_backoff(self.backoff, options.reconnect_max@),
                    },
                    LinkActionView::Wait(shorter(self.backoff, options.reconnect_max@)),
                )
            } else {
                (SupervisorView { state: ST_DISCONNECTED, ..self }, LinkActionView::Stop)
            },
        }
    }

    /// The link after `events`, one by one, while the user does not ask for the
    /// end.
    pub open spec fn after_all(self, events: Seq<LinkEvent>, options: ClientOptions) -> SupervisorView
        decreases events.len(),
    {
        if events.len() == 0 {
            self
        } else {
            self.after_all(events.drop_last(), options).after(events.last(), false, options).0
        }
    }

    /// How many of `events` make the link back off.
    pub open spec fn losses(events: Seq<LinkEvent>, options: ClientOptions) -> nat
        decreases events.len(),
    {
        if events.len() == 0 {
            0
        } else {
            Self::losses(events.drop_last(), options) + if Self::backs_off(
                events.last(),
                false,
                options,
            ) {
                1nat
            } else {
                0
            }
        }
    }
}

/// Watches over one client's link.
#[derive(Debug)]
pub struct Supervisor {
    state: u8,
    backoff: Duration,
}

impl View for Supervisor {
    type V = SupervisorView;

    closed spec fn view(&self) -> SupervisorView {
        SupervisorView { state: self.state, backoff: self.backoff@ }
    }
}

impl Supervisor {
    /// A link that has just been established.
    pub fn new(options: &ClientOptions) -> (supervisor: Supervisor)
        ensures
            supervisor@ == (SupervisorView {
                state: ST_CONNECTED,
                backoff: options.reconnect_base@,
            }),
            supervisor@.state == 2,
    {
        Supervisor { state: ST_CONNECTED, backoff: options.reconnect_base }
    }

    /// The `ST_` code of the link.
    pub fn state(&self) -> (state: u8)
        ensures
            state == self@.state,
    {
        self.state
    }

    /// The interval to wait for after the next loss, up to the maximum.
    pub fn backoff(&self) -> (backoff: Duration)
        ensures
            backoff@ == self@.backoff,
    {
        self.backoff
    }

    /// Takes in an event, and whether the user has asked for the end by then,
    /// and says what to do. Where it backs off, twice the interval has to be a
    /// duration still.
    pub fn step(&mut self, event: LinkEvent, stop: bool, options: &ClientOptions) -> (action:
        LinkAction)
        requires
            SupervisorView::backs_off(event, stop, *options) ==> old(self)@.backoff * 2
                <= MAX_NANOS,
        ensures
            (final(self)@, action@) == old(self)@.after(event, stop, *options),
    {
        match event {
            LinkEvent::Reconnected(keepalive) => {
                self.state = ST_CONNECTED;
                return LinkAction::Run(keepalive);
            },
            LinkEvent::Waited if !stop => return LinkAction::Dial,
            LinkEvent::PhaseEnded(PhaseEnd::Lost) if !stop && options.auto_reconnect => {
                self.state = ST_RECONNECTING;
            },
            LinkEvent::AttemptFailed if !stop && options.auto_reconnect => {},
            _ => {
                self.state = ST_DISCONNECTED;
                return LinkAction::Stop;
            },
        }
        let delay = if self.backoff.as_nanos() <= options.reconnect_max.as_nanos() {
            self.backoff
        } else {
            options.reconnect_max
        };
        self.backoff = backoff_next(self.backoff, options);
        LinkAction::Wait(delay)
    }
}

/// The backoff is exponential: the first delay is the base interval, every
/// further one twice the one before, all cut off at the maximum.
pub proof fn law_backoff_is_exponential(
    link: SupervisorView,
    events: Seq<LinkEvent>,
    loss: LinkEvent,
    options: ClientOptions,
)
    requires
        SupervisorView::backs_off(loss, false, options),
    ensures
        link.after_all(events, options).after(loss, false, options).1 == LinkActionView::Wait(
            shorter(
                link.backoff * pow2(SupervisorView::losses(events, options)),
                options.reconnect_max@,
            ),
        ),
{
    lemma_backoff(link, events, options);
}

/// The interval has doubled with every loss, up to the maximum.
proof fn lemma_backoff(link: SupervisorView, events: Seq<LinkEvent>, options: ClientOptions)
    ensures
        shorter(link.after_all(events, options).backoff, options.reconnect_max@) == shorter(
            link.backoff * pow2(SupervisorView::losses(events, options)),
            options.reconnect_max@,
        ),
    decreases events.len(),
{
    let losses = SupervisorView::losses(events, options);
    if events.len() == 0 {
        lemma2_to64();
        assert(link.backoff * pow2(0) == link.backoff);
    } else {
        lemma_backoff(link, events.drop_last(), options);
        let before = SupervisorView::losses(events.drop_last(), options);
        if SupervisorView::backs_off(events.last(), false, options) {
            lemma_pow2_unfold(losses);
            assert(link.backoff * pow2(losses) == link.backoff * pow2(before) * 2)
                by (nonlinear_arith)
                requires
                    pow2(losses) == 2 * pow2(before),
            ;
        }
    }
}

/// No delay is longer than the maximum.
pub proof fn law_delay_is_bounded(
    link: SupervisorView,
    event: LinkEvent,
    stop: bool,
    options: ClientOptions,
)
    ensures
        link.after(event, stop, options).1 matches LinkActionView::Wait(delay) ==> delay
            <= options.reconnect_max@,
{
}

/// A link stays up across every event that it goes on after, and is down once
/// it is given up.
pub proof fn law_link_is_up_until_stop(
    link: SupervisorView,
    event: LinkEvent,
    stop: bool,
    options: ClientOptions,
)
    requires
        is_up(link.state),
    ensures
        is_up(link.after(event, stop, options).0.state) <==> link.after(event, stop, options).1
            != LinkActionView::Stop,
{
}

/// Unless the user asks for the end, only a shutdown, or a failure where
/// automatic reconnects are off, gives a link up.
pub proof fn law_losses_are_retried(link: SupervisorView, event: LinkEvent, options: ClientOptions)
    ensures
        link.after(event, false, options).1 == LinkActionView::Stop <==> (event
            == LinkEvent::PhaseEnded(PhaseEnd::Shutdown) || (!options.auto_reconnect && (event
            == LinkEvent::PhaseEnded(PhaseEnd::Lost) || event == LinkEvent::AttemptFailed))),
{
}

/// Once the user has asked for the end, reconnecting is over: neither a dial nor
/// a delay begins, and unless a dial under way has just succeeded the link is
/// given up and down.
pub proof fn law_stop_ends_reconnecting(
    link: SupervisorView,
    event: LinkEvent,
    options: ClientOptions,
)
    ensures
        link.after(event, true, options).1 != LinkActionView::Dial,
        link.after(event, true, options).1 !is Wait,
        event !is Reconnected ==> {
            &&& link.after(event, true, options).1 == LinkActionView::Stop
            &&& !is_up(link.after(event, true, options).0.state)
        },
{
}

/// Every delay is followed by an attempt to reconnect, however long it was, unless
/// the user has asked for the end meanwhile; waiting changes nothing else.
pub proof fn law_every_delay_is_followed_by_a_dial(link: SupervisorView, options: ClientOptions)
    ensures
        link.after(LinkEvent::Waited, false, options).1 is Dial,
        link.after(LinkEvent::Waited, false, options).0 == link,
{
}

/// A lost link, and a failed attempt, waits for its interval, or for the maximum
/// where that is shorter, and doubles the interval up to the maximum. A lost link
/// is reconnecting from then on.
pub proof fn law_every_loss_backs_off(link: SupervisorView, lost: bool, options: ClientOptions)
    requires
        options.auto_reconnect,
    ensures
        ({
            let event = if lost {
                LinkEvent::PhaseEnded(PhaseEnd::Lost)
            } else {
                LinkEvent::AttemptFailed
            };
            let (next, action) = link.after(event, false, options);
            let limit = options.reconnect_max@;
            &&& link.backoff <= limit ==> action == LinkActionView::Wait(link.backoff)
            &&& link.backoff > limit ==> action == LinkActionView::Wait(limit)
            &&& link.backoff * 2 <= limit ==> next.backoff == link.backoff * 2
            &&& link.backoff * 2 > limit ==> next.backoff == limit
            &&& lost ==> next.state == 3
            &&& !lost ==> next.state == link.state
        }),
{
}

/// A link that is up again runs with the keepalive that the server has set now,
/// whatever else; its interval stays.
pub proof fn law_reconnected_link_runs(
    link: SupervisorView,
    keepalive: u16,
    stop: bool,
    options: ClientOptions,
)
    ensures
        ({
            let (next, action) = link.after(LinkEvent::Reconnected(keepalive), stop, options);
            &&& action == LinkActionView::Run(keepalive)
            &&& next.state == 2
            &&& next.backoff == link.backoff
        }),
{
}

/// What gives a link up: a shutdown; a loss or a failed attempt where automatic
/// reconnects are off; and a stop request, but on a link that is up again. It is
/// disconnected then.
pub proof fn law_link_is_given_up(
    link: SupervisorView,
    event: LinkEvent,
    stop: bool,
    options: ClientOptions,
)
    requires
        match event {
            LinkEvent::PhaseEnded(PhaseEnd::Shutdown) => true,
            LinkEvent::PhaseEnded(PhaseEnd::Lost) => stop || !options.auto_reconnect,
            LinkEvent::AttemptFailed => stop || !options.auto_reconnect,
            LinkEvent::Waited => stop,
            LinkEvent::Reconnected(_) => false,
        },
    ensures
        link.after(event, stop, options).1 is Stop,
        link.after(event, stop, options).0.state == 0,
{
}

/// A link counts as up in two states, connected and reconnecting.
pub proof fn law_link_is_up_in_two_states(state: u8)
    ensures
        is_up(state) <==> state == 2 || state == 3,
{
}

/// The next interval is twice the last one, or the maximum where that is less.
pub proof fn law_interval_doubles_up_to_the_maximum(current: nat, limit: nat)
    ensures
        current + current <= limit ==> next_backoff(current, limit) == current + current,
        current + current > limit ==> next_backoff(current, limit) == limit,
{
}

/// The value of an action has the keepalive or the delay, as it is.
pub proof fn law_link_action_value_keeps_its_fields(action: LinkAction)
    ensures
        match action {
            LinkAction::Run(keepalive) => action@ == LinkActionView::Run(keepalive),
            LinkAction::Wait(delay) => action@ == LinkActionView::Wait(delay@),
            LinkAction::Dial => action@ is Dial,
            LinkAction::Stop => action@ is Stop,
        },
{
}

} // verus!
