use vstd::prelude::*;

use crate::codec::{
    action_wire, decode, decoded, encode_action, encode_position, lemma_action_round_trip,
    lemma_round_trip, position_wire, Position, Record, RecordView,
};
use crate::number::{is_number, negate};

verus! {

/// Milliseconds between two sends of the local position.
pub const SEND_PERIOD_MS: u64 = 25;

/// Milliseconds between two receive attempts.
pub const POLL_PERIOD_MS: u64 = 25;

/// Longest time, in milliseconds, that one receive may block.
pub const RECEIVE_TIMEOUT_MS: u64 = 25;

/// Size of the buffer that one datagram is received into.
pub const RECEIVE_BUFFER_LEN: usize = 2048;

/// Port that the endpoint binds on the local address.
pub const LOCAL_PORT: u16 = 8080;

/// A repeating timer with a fixed period, driven by the time that passed
/// since it was last advanced. It fires at most once per advance: periods
/// missed while the caller was busy are skipped, not queued.
pub struct Cadence {
    pub period: u64,
    pub elapsed: u64,
}

impl Cadence {
    pub open spec fn wf(&self) -> bool {
        0 < self.period && self.elapsed < self.period
    }

    pub fn new(period: u64) -> (r: Cadence)
        requires
            period > 0,
        ensures
            r.wf(),
            r.period == period,
            r.elapsed == 0,
    {
        Cadence { period, elapsed: 0 }
    }

    /// Lets `delta` milliseconds pass; returns whether the timer fired.
    pub fn advance(&mut self, delta: u64) -> (fired: bool)
        requires
            old(self).wf(),
        ensures
            final(self).wf(),
            final(self).period == old(self).period,
            fired == (old(self).elapsed + delta >= old(self).period),
            final(self).elapsed == (old(self).elapsed + delta) % (old(self).period as int),
    {
        let p = self.period;
        let e = self.elapsed;
        if delta >= p - e {
            let rest = delta - (p - e);
            proof {
                let s = e + delta;
                assert(s == rest + p);
                vstd::arithmetic::div_mod::lemma_mod_add_multiples_vanish(rest as int, p as int);
            }
            self.elapsed = rest % p;
            true
        } else {
            proof {
                vstd::arithmetic::div_mod::lemma_small_mod((e + delta) as nat, p as nat);
            }
            self.elapsed = e + delta;
            false
        }
    }
}

/// Which periodic steps are due on one pass of the session loop.
pub struct Tick {
    pub send: bool,
    pub poll: bool,
}

/// The outcome of one receive attempt.
pub enum Inbound {
    /// The bytes of one datagram.
    Datagram(Vec<u8>),
    /// Nothing arrived within the receive timeout.
    TimedOut,
    /// The receive failed otherwise.
    Failed,
}

/// A datagram to send, and where it goes.
pub struct Outgoing {
    pub destination: String,
    pub payload: Vec<u8>,
}

/// No destination was ever set.
#[derive(Debug, Clone, Copy, PartialEq, Eq, Structural)]
pub enum SendError {
    NoDestination,
}

/// The mirrored position after one datagram: a position record replaces
/// it, whatever it was; anything else leaves it.
pub open spec fn mirrored_after(remote: (Seq<u8>, Seq<u8>), datagram: Seq<u8>) -> (Seq<u8>, Seq<u8>) {
    match decoded(datagram) {
        Some(RecordView::Position(x, y)) => (x, y),
        _ => remote,
    }
}

/// Whether a datagram calls for a remote action effect.
pub open spec fn is_action(datagram: Seq<u8>) -> bool {
    decoded(datagram) == Some(RecordView::Action)
}

/// The destination after a retarget to `address`, which the endpoint
/// accepted or not.
pub open spec fn retargeted(destination: Option<String>, address: String, accepted: bool) -> Option<
    String,
> {
    if accepted {
        Some(address)
    } else {
        destination
    }
}

/// The two-participant synchronisation state: the mirrored position of the
/// remote participant, the destination that sends go to, and the send and
/// poll timers.
pub struct Session {
    pub remote: Position,
    pub destination: Option<String>,
    pub send_timer: Cadence,
    pub poll_timer: Cadence,
}

impl Session {
    pub open spec fn wf(&self) -> bool {
        self.send_timer.wf() && self.poll_timer.wf()
    }

    /// A session that mirrors the remote participant at `remote` and has no
    /// destination yet.
    pub fn new(remote: Position) -> (r: Session)
        ensures
            r.wf(),
            r.remote@ == remote@,
            r.destination is None,
            r.send_timer.period == SEND_PERIOD_MS && r.send_timer.elapsed == 0,
            r.poll_timer.period == POLL_PERIOD_MS && r.poll_timer.elapsed == 0,
    {
        Session {
            remote,
            destination: None,
            send_timer: Cadence::new(SEND_PERIOD_MS),
            poll_timer: Cadence::new(POLL_PERIOD_MS),
        }
    }

    /// Lets `delta_ms` milliseconds pass on both timers and says which steps
    /// are due.
    pub fn tick(&mut self, delta_ms: u64) -> (r: Tick)
        requires
            old(self).wf(),
        ensures
            final(self).wf(),
            final(self).remote@ == old(self).remote@,
            final(self).destination == old(self).destination,
            final(self).send_timer.period == old(self).send_timer.period,
            final(self).poll_timer.period == old(self).poll_timer.period,
            r.send == (old(self).send_timer.elapsed + delta_ms >= old(self).send_timer.period),
            r.poll == (old(self).poll_timer.elapsed + delta_ms >= old(self).poll_timer.period),
            final(self).send_timer.elapsed == (old(self).send_timer.elapsed + delta_ms) % (old(
                self,
            ).send_timer.period as int),
            final(self).poll_timer.elapsed == (old(self).poll_timer.elapsed + delta_ms) % (old(
                self,
            ).poll_timer.period as int),
    {
        let send = self.send_timer.advance(delta_ms);
        let poll = self.poll_timer.advance(delta_ms);
        Tick { send, poll }
    }

    /// Applies the outcome of one receive attempt. A position record
    /// overwrites the mirrored position; an action record asks for a remote
    /// action effect at the mirrored position, which is returned; anything
    /// else (a timeout, a failed receive, bytes that do not decode) changes
    /// nothing.
    pub fn receive(&mut self, inbound: &Inbound) -> (effect: Option<Position>)
        ensures
            final(self).destination == old(self).destination,
            final(self).send_timer == old(self).send_timer,
            final(self).poll_timer == old(self).poll_timer,
            match inbound {
                Inbound::Datagram(d) => {
                    &&& final(self).remote@ == mirrored_after(old(self).remote@, d@)
                    &&& effect is Some <==> is_action(d@)
                }
                _ => final(self).remote@ == old(self).remote@ && effect is None,
            },
            effect matches Some(p) ==> p@ == old(self).remote@,
    {
        match inbound {
            Inbound::Datagram(d) => match decode(d.as_slice()) {
                Ok(Record::Position(p)) => {
                    self.remote = p;
                    None
                },
                Ok(Record::Action) => Some(self.remote.clone()),
                Err(_) => None,
            },
            _ => None,
        }
    }

    /// Records the outcome of pointing the endpoint at `address`: where the
    /// endpoint accepted it, sends go there from now on; where it did not,
    /// the previous destination, or the lack of one, stays.
    pub fn retarget(&mut self, address: String, accepted: bool) -> (r: bool)
        ensures
            r == accepted,
            final(self).destination == retargeted(old(self).destination, address, accepted),
            final(self).remote@ == old(self).remote@,
            final(self).send_timer == old(self).send_timer,
            final(self).poll_timer == old(self).poll_timer,
    {
        if accepted {
            self.destination = Some(address);
        }
        accepted
    }

    /// The datagram that publishes the local position `local`.
    pub fn position_datagram(&self, local: &Position) -> (r: Result<Outgoing, SendError>)
        ensures
            r is Err <==> self.destination is None,
            r matches Ok(o) ==> self.destination == Some(o.destination) && o.payload@
                == position_wire(local.x@, local.y@),
    {
        match &self.destination {
            Some(d) => Ok(Outgoing { destination: d.clone(), payload: encode_position(local) }),
            None => Err(SendError::NoDestination),
        }
    }

    /// The datagram that announces a local action.
    pub fn action_datagram(&self) -> (r: Result<Outgoing, SendError>)
        ensures
            r is Err <==> self.destination is None,
            r matches Ok(o) ==> self.destination == Some(o.destination) && o.payload@
                == action_wire(),
    {
        match &self.destination {
            Some(d) => Ok(Outgoing { destination: d.clone(), payload: encode_action() }),
            None => Err(SendError::NoDestination),
        }
    }
}

/// Of two position records received one after the other, the later one
/// wins, whatever the mirrored position was before.
pub proof fn lemma_last_write_wins(
    remote: (Seq<u8>, Seq<u8>),
    x1: Seq<u8>,
    y1: Seq<u8>,
    x2: Seq<u8>,
    y2: Seq<u8>,
)
    requires
        is_number(x1),
        is_number(y1),
        is_number(x2),
        is_number(y2),
    ensures
        mirrored_after(mirrored_after(remote, position_wire(x1, y1)), position_wire(x2, y2)) == (
            negate(x2),
            negate(y2),
        ),
{
    lemma_round_trip(x1, y1);
    lemma_round_trip(x2, y2);
}

/// A retarget that the endpoint refused leaves the destination as it was.
pub proof fn lemma_refused_retarget_keeps_destination(destination: Option<String>, address: String)
    ensures
        retargeted(destination, address, false) == destination,
{
}

/// What one side publishes, the other receives mirrored: a position is
/// applied negated, and an action asks for an effect at the receiver's
/// mirrored position, which it leaves as it was.
pub proof fn lemma_exchange(remote: (Seq<u8>, Seq<u8>), x: Seq<u8>, y: Seq<u8>)
    requires
        is_number(x),
        is_number(y),
    ensures
        mirrored_after(remote, position_wire(x, y)) == (negate(x), negate(y)),
        !is_action(position_wire(x, y)),
        is_action(action_wire()),
        mirrored_after(remote, action_wire()) == remote,
{
    lemma_round_trip(x, y);
    lemma_action_round_trip();
}

} // verus!
