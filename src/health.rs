//! The per-backend health probe state machine. The caller owns the TCP socket:
//! it performs the action each step returns and reports what the socket did.
use vstd::prelude::*;
use vstd::slice::slice_to_vec;

verus! {

/// The probe request, `"health\r\n"`.
pub open spec fn probe_request() -> Seq<u8> {
    seq![104u8, 101u8, 97u8, 108u8, 116u8, 104u8, 13u8, 10u8]
}

/// The prefix of a healthy reply, `"health: up"`.
pub open spec fn healthy_prefix() -> Seq<u8> {
    seq![104u8, 101u8, 97u8, 108u8, 116u8, 104u8, 58u8, 32u8, 117u8, 112u8]
}

pub open spec fn starts_with(data: Seq<u8>, prefix: Seq<u8>) -> bool {
    prefix.len() <= data.len() && data.take(prefix.len() as int) == prefix
}

/// The bytes to write on the admin channel.
pub fn probe_payload() -> (r: Vec<u8>)
    ensures
        r@ == probe_request(),
{
    let bytes: [u8; 8] = [104, 101, 97, 108, 116, 104, 13, 10];
    let r = slice_to_vec(&bytes);
    assert(r@ =~= probe_request());
    r
}

/// Whether a reply counts as healthy: its leading bytes are `"health: up"`.
pub fn is_healthy_reply(data: &[u8]) -> (r: bool)
    ensures
        r == starts_with(data@, healthy_prefix()),
{
    let prefix: [u8; 10] = [104, 101, 97, 108, 116, 104, 58, 32, 117, 112];
    assert(prefix@ =~= healthy_prefix());
    if data.len() < 10 {
        return false;
    }
    let mut i: usize = 0;
    while i < 10
        invariant
            i <= 10,
            10 <= data@.len(),
            prefix@ == healthy_prefix(),
            forall|j: int| 0 <= j < i ==> data@[j] == prefix@[j],
        decreases 10 - i,
    {
        if data[i] != prefix[i] {
            assert(data@.take(10)[i as int] != healthy_prefix()[i as int]);
            return false;
        }
        i = i + 1;
    }
    assert(data@.take(10) =~= healthy_prefix());
    true
}

#[derive(Clone, Copy, Debug, PartialEq, Eq, Structural)]
pub enum ProbeState {
    Connecting,
    Writing,
    Reading,
    Closed,
}

/// What the caller does with the probe socket after a step.
#[derive(Clone, Copy, Debug, PartialEq, Eq, Structural)]
pub enum ProbeAction {
    /// Nothing to do.
    Idle,
    /// Shut the socket down.
    Shutdown,
    /// Write the probe request, then arm the socket for readable.
    SendProbe,
    /// Read the reply into the 1 KiB buffer and report it with `on_reply`.
    ReadReply,
    /// Arm the socket for readable.
    ArmReadable,
    /// Arm the socket for writable.
    ArmWritable,
    /// Open a new socket, connect it to the admin port and arm it for writable.
    Reconnect,
}

/// What a non-blocking read of the reply gave.
pub enum ReadOutcome {
    /// Some bytes arrived.
    Data(Vec<u8>),
    /// The read would have blocked, or returned no bytes.
    NotReady,
    /// The read failed.
    Failed,
}

pub open spec fn bump(n: u32) -> u32 {
    if n == u32::MAX { n } else { (n + 1) as u32 }
}

/// A readiness event: an error or a hang-up counts as a failure, in any
/// state, and leaves the socket shut down and the record Closed. Otherwise,
/// from Connecting the probe is sent and the record waits for the reply; in
/// Reading the reply is to be read; Writing waits for the tick to send the next
/// probe, and Closed for the tick to reconnect.
pub open spec fn ready_next(c: Connection, hangup: bool) -> (Connection, ProbeAction) {
    if hangup {
        (Connection { state: ProbeState::Closed, failure: bump(c.failure), ..c }, ProbeAction::Shutdown)
    } else if c.state == ProbeState::Connecting {
        (Connection { state: ProbeState::Reading, ..c }, ProbeAction::SendProbe)
    } else if c.state == ProbeState::Reading {
        (c, ProbeAction::ReadReply)
    } else {
        (c, ProbeAction::Idle)
    }
}

/// A read of the reply: bytes are classified by their prefix and the socket
/// is armed for writable, the next probe waiting for the tick; no bytes change nothing; a failed read counts as
/// a failure and closes the socket. Outside Reading nothing changes.
pub open spec fn reply_next(c: Connection, outcome: ReadOutcome) -> (Connection, ProbeAction) {
    if c.state != ProbeState::Reading {
        (c, ProbeAction::Idle)
    } else {
        match outcome {
            ReadOutcome::Data(d) => if d@.len() == 0 {
                (c, ProbeAction::ArmReadable)
            } else if starts_with(d@, healthy_prefix()) {
                (Connection { state: ProbeState::Writing, success: bump(c.success), ..c }, ProbeAction::ArmWritable)
            } else {
                (Connection { state: ProbeState::Writing, failure: bump(c.failure), ..c }, ProbeAction::ArmWritable)
            },
            ReadOutcome::NotReady => (c, ProbeAction::ArmReadable),
            ReadOutcome::Failed => (
                Connection { state: ProbeState::Closed, failure: bump(c.failure), ..c },
                ProbeAction::Shutdown,
            ),
        }
    }
}

/// One backend's probe record.
#[derive(Clone, Copy)]
pub struct Connection {
    /// The event-loop token; it outlives socket resets.
    pub token: usize,
    pub state: ProbeState,
    pub failure: u32,
    pub success: u32,
    /// When the failure count was last reset, in milliseconds.
    pub last_reset: u64,
}

impl Connection {
    /// A fresh record: no socket yet, no verdicts.
    pub fn new(token: usize, now: u64) -> (r: Connection)
        ensures
            r.token == token,
            r.state == ProbeState::Closed,
            r.failure == 0,
            r.success == 0,
            r.last_reset == now,
    {
        Connection { token, state: ProbeState::Closed, failure: 0, success: 0, last_reset: now }
    }

    /// The caller has opened a new socket and started connecting it.
    pub fn register(&mut self)
        ensures
            *final(self) == (Connection { state: ProbeState::Connecting, ..*old(self) }),
    {
        self.state = ProbeState::Connecting;
    }

    /// A readiness event for the probe socket; `hangup` is set where the
    /// event reports an error or a hang-up.
    pub fn ready(&mut self, hangup: bool) -> (r: ProbeAction)
        ensures
            (*final(self), r) == ready_next(*old(self), hangup),
    {
        if hangup {
            self.failure = self.failure.saturating_add(1);
            self.state = ProbeState::Closed;
            ProbeAction::Shutdown
        } else if self.state == ProbeState::Connecting {
            self.state = ProbeState::Reading;
            ProbeAction::SendProbe
        } else if self.state == ProbeState::Reading {
            ProbeAction::ReadReply
        } else {
            ProbeAction::Idle
        }
    }

    /// What the read of a reply gave, in the Reading state. Any other state
    /// leaves the record as it is.
    pub fn on_reply(&mut self, outcome: &ReadOutcome) -> (r: ProbeAction)
        ensures
            (*final(self), r) == reply_next(*old(self), *outcome),
    {
        if self.state != ProbeState::Reading {
            return ProbeAction::Idle;
        }
        match outcome {
            ReadOutcome::Data(d) => {
                if d.len() == 0 {
                    ProbeAction::ArmReadable
                } else {
                    if is_healthy_reply(d.as_slice()) {
                        self.success = self.success.saturating_add(1);
                    } else {
                        self.failure = self.failure.saturating_add(1);
                    }
                    self.state = ProbeState::Writing;
                    ProbeAction::ArmWritable
                }
            }
            ReadOutcome::NotReady => ProbeAction::ArmReadable,
            ReadOutcome::Failed => {
                self.failure = self.failure.saturating_add(1);
                self.state = ProbeState::Closed;
                ProbeAction::Shutdown
            }
        }
    }
}

} // verus!
