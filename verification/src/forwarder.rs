//! The decisions of the stream forwarder, which sends a live session to a
//! relay server: how long to wait before reconnecting, and which close
//! frames end the connection cleanly.
use vstd::prelude::*;
use crate::text::{push_decimal, spec_decimal};

verus! {

/// Two to the power `n`.
pub open spec fn pow2(n: nat) -> nat
    decreases n,
{
    if n == 0 {
        1
    } else {
        2 * pow2((n - 1) as nat)
    }
}

proof fn lemma_pow2_pos(n: nat)
    ensures
        pow2(n) >= 1,
    decreases n,
{
    if n > 0 {
        lemma_pow2_pos((n - 1) as nat);
    }
}

proof fn lemma_pow2_monotone(a: nat, b: nat)
    requires
        a <= b,
    ensures
        1 <= pow2(a) <= pow2(b),
    decreases b,
{
    lemma_pow2_pos(a);
    if a < b {
        lemma_pow2_monotone(a, (b - 1) as nat);
    }
}

proof fn lemma_pow2_55()
    ensures
        pow2(55) * 500 <= u64::MAX,
{
    reveal_with_fuel(pow2, 56);
    assert(pow2(55) == 36028797018963968);
}

/// `2^attempt * unit`, for `2^attempt * unit` within 64 bits.
pub fn scaled_pow2(attempt: usize, unit: u64) -> (r: u64)
    requires
        attempt <= 55,
        unit <= 500,
    ensures
        r == pow2(attempt as nat) * unit,
{
    let mut p: u64 = 1;
    let mut i: usize = 0;
    proof {
        lemma_pow2_monotone(0, attempt as nat);
        lemma_pow2_55();
        lemma_pow2_monotone(attempt as nat, 55);
    }
    while i < attempt
        invariant
            i <= attempt <= 55,
            p == pow2(i as nat),
            pow2(attempt as nat) * 500 <= u64::MAX,
        decreases attempt - i,
    {
        proof {
            lemma_pow2_monotone((i + 1) as nat, attempt as nat);
        }
        p = p * 2;
        i = i + 1;
    }
    proof {
        assert(p * unit <= p * 500) by (nonlinear_arith)
            requires
                unit <= 500,
        ;
    }
    p * unit
}

/// The longest wait before reconnection attempt `attempt`, in
/// milliseconds: 500 doubled per attempt, at most 10 seconds.
pub open spec fn delay_base(attempt: nat) -> nat {
    let d = pow2(attempt) * 500;
    if d < 10_000 {
        d
    } else {
        10_000
    }
}

/// A random number below `bound`; wraps rand's `random_range` on the
/// thread-local generator, which returns a value within the range and
/// panics on an empty one.
#[verifier::external_body]
fn random_below(bound: u64) -> (r: u64)
    requires
        bound > 0,
    ensures
        r < bound,
{
    rand::random_range(..bound)
}

/// The bound of the random wait before reconnection attempt `attempt`, in
/// milliseconds: 500 doubled per attempt, at most 10 seconds.
pub fn delay_bound(attempt: usize) -> (b: u64)
    requires
        attempt <= 55,
    ensures
        b == delay_base(attempt as nat),
        b > 0,
{
    let d = scaled_pow2(attempt, 500);
    proof {
        lemma_pow2_monotone(0, attempt as nat);
    }
    if d < 10_000 {
        d
    } else {
        10_000
    }
}

/// The wait before reconnection attempt `attempt`, in milliseconds: a
/// random draw below `delay_bound(attempt)`, which is what the generator is
/// given.
pub fn exponential_delay(attempt: usize) -> (r: u64)
    requires
        attempt <= 55,
    ensures
        r < delay_base(attempt as nat),
{
    let bound = delay_bound(attempt);
    random_below(bound)
}

/// What a close frame from the server means: a normal close (1000), a
/// library code below 4100, or no frame at all is clean; any other code is
/// an error naming it.
pub open spec fn spec_close_result(code: Option<u16>) -> Result<(), Seq<char>> {
    match code {
        None => Ok(()),
        Some(c) => if c == 1000 || (4000 <= c && c < 4100) {
            Ok(())
        } else {
            Err("unclean close: "@ + spec_decimal(c as nat))
        },
    }
}

/// Whether the connection ended cleanly, given the close frame's code.
pub fn handle_close_frame(code: Option<u16>) -> (r: Result<(), String>)
    ensures
        match spec_close_result(code) {
            Ok(()) => r is Ok,
            Err(m) => r matches Err(e) && e@ == m,
        },
{
    match code {
        None => Ok(()),
        Some(c) => if c == 1000 || (4000 <= c && c < 4100) {
            Ok(())
        } else {
            let mut out: Vec<char> = Vec::new();
            crate::text::append_str(&mut out, "unclean close: ");
            push_decimal(&mut out, c as u64);
            assert(out@ =~= "unclean close: "@ + spec_decimal(c as nat));
            Err(crate::text::string_from_chars(out.as_slice()))
        },
    }
}

} // verus!

verus! {

/// How a connection to the server ended.
#[derive(Debug, Clone, Copy, PartialEq, Eq, Structural)]
pub enum ConnectionEnd {
    /// The session ended and the connection was closed cleanly.
    Closed,
    /// The server halted the stream.
    Halted,
    /// The server accepted the connection without negotiating the
    /// protocol: a server too old to stream to.
    OldServer,
    /// The server answered the handshake with HTTP 400: it does not speak
    /// this protocol version.
    BadRequest,
    /// Any other failure.
    Failed,
}

/// What the forwarding loop saw.
#[derive(Debug, Clone, Copy, PartialEq, Eq, Structural)]
pub enum ForwardEvent {
    /// The connection has lasted long enough (3 seconds) to count as made.
    Established,
    /// The connection ended.
    Ended(ConnectionEnd),
}

/// What the forwarding loop does next.
#[derive(Debug, Clone, Copy, PartialEq, Eq, Structural)]
pub enum Next {
    /// Keep forwarding on the current connection.
    Continue,
    /// Stop forwarding.
    Stop,
    /// Wait `exponential_delay` of this attempt, then connect again.
    Retry(usize),
}

/// The state of the forwarding loop: the reconnection attempt (0 while
/// connected) and how many connections were made.
#[derive(Debug, Clone, Copy, PartialEq, Eq, Structural)]
pub struct ForwardState {
    pub reconnect_attempt: usize,
    pub connection_count: u64,
}

/// The longest reconnection attempt counted; later ones wait as long.
pub const RECONNECT_ATTEMPT_CAP: usize = 10;

/// What the loop does on an event: the state after it, the notification
/// to show, if any, and what comes next. A connection made after failed
/// attempts is announced (connected, or reconnected after an earlier
/// connection) and resets the attempt. A clean close stops; a halted
/// stream, a server too old and an incompatible server stop with a notice.
/// Another failure is announced on the first attempt (cannot connect, or
/// disconnected after an earlier connection) and is retried after the
/// delay of the current attempt, the attempt growing up to the cap.
pub open spec fn spec_forward_step(s: ForwardState, e: ForwardEvent) -> (ForwardState, Option<Seq<char>>, Next) {
    match e {
        ForwardEvent::Established => (
            ForwardState { reconnect_attempt: 0, connection_count: (s.connection_count + 1) as u64 },
            if s.reconnect_attempt > 0 {
                Some(
                    if s.connection_count == 0 {
                        "Connected to the server"@
                    } else {
                        "Reconnected to the server"@
                    },
                )
            } else {
                None
            },
            Next::Continue,
        ),
        ForwardEvent::Ended(ConnectionEnd::Closed) => (s, None, Next::Stop),
        ForwardEvent::Ended(ConnectionEnd::Halted) => (s, Some("Stream halted by the server"@), Next::Stop),
        ForwardEvent::Ended(ConnectionEnd::OldServer) => (
            s,
            Some("The server version is too old, forwarding failed"@),
            Next::Stop,
        ),
        ForwardEvent::Ended(ConnectionEnd::BadRequest) => (
            s,
            Some("CLI not compatible with the server, forwarding failed"@),
            Next::Stop,
        ),
        ForwardEvent::Ended(ConnectionEnd::Failed) => (
            ForwardState {
                reconnect_attempt: if s.reconnect_attempt + 1 < RECONNECT_ATTEMPT_CAP {
                    (s.reconnect_attempt + 1) as usize
                } else {
                    RECONNECT_ATTEMPT_CAP
                },
                ..s
            },
            if s.reconnect_attempt == 0 {
                Some(
                    if s.connection_count == 0 {
                        "Cannot connect to the server, retrying..."@
                    } else {
                        "Disconnected from the server, reconnecting..."@
                    },
                )
            } else {
                None
            },
            Next::Retry(s.reconnect_attempt),
        ),
    }
}

fn text(s: &str) -> (r: String)
    ensures
        r@ == s@,
{
    s.to_string()
}

/// The forwarding loop's decision on an event (see `spec_forward_step`):
/// updates the state and returns the notification, if any, and what comes
/// next.
pub fn forward_step(s: &mut ForwardState, e: ForwardEvent) -> (a: (Option<String>, Next))
    requires
        e is Established ==> old(s).connection_count < u64::MAX,
    ensures
        ({
            let (s2, notice, next) = spec_forward_step(*old(s), e);
            &&& *final(s) == s2
            &&& a.1 == next
            &&& match a.0 {
                Some(m) => notice == Some(m@),
                None => notice is None,
            }
        }),
{
    match e {
        ForwardEvent::Established => {
            let notice = if s.reconnect_attempt > 0 {
                if s.connection_count == 0 {
                    Some(text("Connected to the server"))
                } else {
                    Some(text("Reconnected to the server"))
                }
            } else {
                None
            };
            s.connection_count = s.connection_count + 1;
            s.reconnect_attempt = 0;
            (notice, Next::Continue)
        },
        ForwardEvent::Ended(ConnectionEnd::Closed) => (None, Next::Stop),
        ForwardEvent::Ended(ConnectionEnd::Halted) => (Some(text("Stream halted by the server")), Next::Stop),
        ForwardEvent::Ended(ConnectionEnd::OldServer) => (
            Some(text("The server version is too old, forwarding failed")),
            Next::Stop,
        ),
        ForwardEvent::Ended(ConnectionEnd::BadRequest) => (
            Some(text("CLI not compatible with the server, forwarding failed")),
            Next::Stop,
        ),
        ForwardEvent::Ended(ConnectionEnd::Failed) => {
            let notice = if s.reconnect_attempt == 0 {
                if s.connection_count == 0 {
                    Some(text("Cannot connect to the server, retrying..."))
                } else {
                    Some(text("Disconnected from the server, reconnecting..."))
                }
            } else {
                None
            };
            let attempt = s.reconnect_attempt;
            s.reconnect_attempt = if attempt < RECONNECT_ATTEMPT_CAP - 1 {
                attempt + 1
            } else {
                RECONNECT_ATTEMPT_CAP
            };
            (notice, Next::Retry(attempt))
        },
    }
}

/// Reconnection attempts never pass the cap, so the delay before each
/// retry is defined: from a state within the cap, every step stays within
/// it.
pub proof fn lemma_attempt_stays_capped(s: ForwardState, e: ForwardEvent)
    requires
        s.reconnect_attempt <= RECONNECT_ATTEMPT_CAP,
    ensures
        spec_forward_step(s, e).0.reconnect_attempt <= RECONNECT_ATTEMPT_CAP,
        spec_forward_step(s, e).2 matches Next::Retry(a) ==> a <= RECONNECT_ATTEMPT_CAP,
{
}

/// Only a failed connection is retried: a connection that the server
/// closed, halted, refused as too old, or rejected as a bad request ends
/// the forwarding, and an established one continues it.
pub proof fn lemma_only_failures_retry(s: ForwardState, e: ForwardEvent)
    ensures
        (spec_forward_step(s, e).2 is Retry) <==> e == ForwardEvent::Ended(ConnectionEnd::Failed),
        (spec_forward_step(s, e).2 is Stop) <==> (e matches ForwardEvent::Ended(end) && end
            != ConnectionEnd::Failed),
        (spec_forward_step(s, e).2 is Continue) <==> e is Established,
{
}

/// How each event moves the reconnection state: an established connection
/// resets the attempt count and counts the connection; a failure counts an
/// attempt (up to the cap) and retries after the attempt so far; any other
/// end leaves the state as it was.
pub proof fn lemma_forward_state_moves(s: ForwardState, e: ForwardEvent)
    ensures
        e is Established ==> spec_forward_step(s, e).0.reconnect_attempt == 0,
        e is Established && s.connection_count < u64::MAX ==> spec_forward_step(
            s,
            e,
        ).0.connection_count == s.connection_count + 1,
        e is Established ==> (spec_forward_step(s, e).1 is Some <==> s.reconnect_attempt > 0),
        e == ForwardEvent::Ended(ConnectionEnd::Failed) ==> {
            &&& spec_forward_step(s, e).0.connection_count == s.connection_count
            &&& spec_forward_step(s, e).0.reconnect_attempt == if s.reconnect_attempt + 1
                < RECONNECT_ATTEMPT_CAP {
                s.reconnect_attempt + 1
            } else {
                RECONNECT_ATTEMPT_CAP as int
            }
            &&& spec_forward_step(s, e).2 == Next::Retry(s.reconnect_attempt)
            &&& (spec_forward_step(s, e).1 is Some <==> s.reconnect_attempt == 0)
        },
        e matches ForwardEvent::Ended(end) && end != ConnectionEnd::Failed ==> spec_forward_step(
            s,
            e,
        ).0 == s,
        e == ForwardEvent::Ended(ConnectionEnd::Closed) ==> spec_forward_step(s, e).1 is None,
        e == ForwardEvent::Ended(ConnectionEnd::Halted) ==> spec_forward_step(s, e).1 == Some(
            "Stream halted by the server"@,
        ),
{
}

/// The longest reconnection wait starts at half a second and doubles with
/// each attempt until it reaches ten seconds, where it stays.
pub proof fn lemma_delay_doubles_to_cap(attempt: nat)
    ensures
        delay_base(0) == 500,
        delay_base(attempt + 1) == if 2 * delay_base(attempt) < 10_000 {
            2 * delay_base(attempt)
        } else {
            10_000
        },
        500 <= delay_base(attempt) <= 10_000,
{
    lemma_pow2_pos(attempt);
    assert(pow2(attempt + 1) == 2 * pow2(attempt));
}

} // verus!
