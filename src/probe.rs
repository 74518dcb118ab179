use vstd::prelude::*;

use crate::extract::Protocol;

verus! {

/// Seconds that a probe waits for a handshake or a reply.
pub const PROBE_TIMEOUT_SECS: u64 = 15;

/// Hop limit set on outgoing probe datagrams.
pub const PROBE_HOP_LIMIT: u32 = 15;

/// Content of the one datagram that a datagram probe sends: the ASCII text
/// `hello world`.
pub const PROBE_PAYLOAD: [u8; 11] = [104, 101, 108, 108, 111, 32, 119, 111, 114, 108, 100];

/// Bytes of the buffer that receives a reply datagram.
pub const REPLY_BUFFER_LEN: usize = 10;

/// One piece of outside work that a probe performs.
#[derive(Debug, Clone, Copy, PartialEq, Eq, Structural)]
pub enum ProbeStep {
    /// Open a local socket for the probe's transport.
    OpenSocket,
    /// Establish a connection to the endpoint (stream).
    Connect,
    /// Wait, within the timeout, until the connection is writable (stream).
    AwaitWritable,
    /// Set the hop limit on outgoing packets (datagram).
    SetHopLimit,
    /// Fix the endpoint as the socket's default peer (datagram).
    FixPeer,
    /// Send one probe datagram (datagram).
    SendProbe,
    /// Wait, within the timeout, for any reply datagram (datagram).
    AwaitReply,
}

/// What a probe does next.
#[derive(Debug, Clone, Copy, PartialEq, Eq, Structural)]
pub enum ProbeNext {
    /// Perform this step and report whether it succeeded.
    Run(ProbeStep),
    /// The probe is over: whether the endpoint counts as reachable.
    Finish(bool),
}

/// Whether `step` is part of a probe over `p`.
pub open spec fn in_probe(p: Protocol, step: ProbeStep) -> bool {
    match step {
        ProbeStep::OpenSocket => true,
        ProbeStep::Connect | ProbeStep::AwaitWritable => p == Protocol::Stream,
        _ => p == Protocol::Datagram,
    }
}

/// The step that follows `step` in a probe over `p`; `None` after the last.
/// A stream probe opens a socket, connects, and waits until the connection
/// is writable. A datagram probe opens a socket, sets the hop limit, fixes
/// the peer, sends one datagram, and waits for a reply.
pub open spec fn following_step(p: Protocol, step: ProbeStep) -> Option<ProbeStep> {
    match (p, step) {
        (Protocol::Stream, ProbeStep::OpenSocket) => Some(ProbeStep::Connect),
        (Protocol::Stream, ProbeStep::Connect) => Some(ProbeStep::AwaitWritable),
        (Protocol::Datagram, ProbeStep::OpenSocket) => Some(ProbeStep::SetHopLimit),
        (Protocol::Datagram, ProbeStep::SetHopLimit) => Some(ProbeStep::FixPeer),
        (Protocol::Datagram, ProbeStep::FixPeer) => Some(ProbeStep::SendProbe),
        (Protocol::Datagram, ProbeStep::SendProbe) => Some(ProbeStep::AwaitReply),
        _ => None,
    }
}

/// A step whose failure is noted and passed over: many endpoints drop the
/// control messages these rely on.
pub open spec fn failure_tolerated(s: ProbeStep) -> bool {
    s == ProbeStep::SetHopLimit || s == ProbeStep::FixPeer
}

/// What follows when `step` of a probe over `p` reported `succeeded`: a
/// failure ends the probe as unreachable unless it is tolerated; otherwise
/// the next step runs, and after the last one the endpoint is reachable.
/// A step that is not part of the probe ends it as unreachable.
pub open spec fn next_after(p: Protocol, step: ProbeStep, succeeded: bool) -> ProbeNext {
    if !in_probe(p, step) || (!succeeded && !failure_tolerated(step)) {
        ProbeNext::Finish(false)
    } else {
        match following_step(p, step) {
            Some(n) => ProbeNext::Run(n),
            None => ProbeNext::Finish(true),
        }
    }
}

/// The first step of a probe over `p`.
pub fn first_step(p: Protocol) -> (r: ProbeStep)
    ensures
        r == ProbeStep::OpenSocket,
{
    ProbeStep::OpenSocket
}

/// What a probe over `p` does after `step` reported `succeeded`.
pub fn after_step(p: Protocol, step: ProbeStep, succeeded: bool) -> (r: ProbeNext)
    ensures
        r == next_after(p, step, succeeded),
{
    let tolerated = match step {
        ProbeStep::SetHopLimit | ProbeStep::FixPeer => true,
        _ => false,
    };
    if !succeeded && !tolerated {
        return ProbeNext::Finish(false);
    }
    match (p, step) {
        (Protocol::Stream, ProbeStep::OpenSocket) => ProbeNext::Run(ProbeStep::Connect),
        (Protocol::Stream, ProbeStep::Connect) => ProbeNext::Run(ProbeStep::AwaitWritable),
        (Protocol::Stream, ProbeStep::AwaitWritable) => ProbeNext::Finish(true),
        (Protocol::Datagram, ProbeStep::OpenSocket) => ProbeNext::Run(ProbeStep::SetHopLimit),
        (Protocol::Datagram, ProbeStep::SetHopLimit) => ProbeNext::Run(ProbeStep::FixPeer),
        (Protocol::Datagram, ProbeStep::FixPeer) => ProbeNext::Run(ProbeStep::SendProbe),
        (Protocol::Datagram, ProbeStep::SendProbe) => ProbeNext::Run(ProbeStep::AwaitReply),
        (Protocol::Datagram, ProbeStep::AwaitReply) => ProbeNext::Finish(true),
        _ => ProbeNext::Finish(false),
    }
}

/// A stream probe whose steps all succeed connects, waits until writable,
/// and ends reachable; a refused connection ends it unreachable at once,
/// without the wait.
pub proof fn lemma_stream_probe()
    ensures
        next_after(Protocol::Stream, ProbeStep::OpenSocket, true) == ProbeNext::Run(ProbeStep::Connect),
        next_after(Protocol::Stream, ProbeStep::Connect, true) == ProbeNext::Run(
            ProbeStep::AwaitWritable,
        ),
        next_after(Protocol::Stream, ProbeStep::AwaitWritable, true) == ProbeNext::Finish(true),
        next_after(Protocol::Stream, ProbeStep::Connect, false) == ProbeNext::Finish(false),
{
}

/// A datagram probe reaches its reply wait whatever became of the hop limit
/// and the peer, and is reachable exactly when a reply came.
pub proof fn lemma_datagram_probe(hop_limit_set: bool, peer_fixed: bool, replied: bool)
    ensures
        next_after(Protocol::Datagram, ProbeStep::SetHopLimit, hop_limit_set) == ProbeNext::Run(
            ProbeStep::FixPeer,
        ),
        next_after(Protocol::Datagram, ProbeStep::FixPeer, peer_fixed) == ProbeNext::Run(
            ProbeStep::SendProbe,
        ),
        next_after(Protocol::Datagram, ProbeStep::SendProbe, true) == ProbeNext::Run(
            ProbeStep::AwaitReply,
        ),
        next_after(Protocol::Datagram, ProbeStep::AwaitReply, replied) == ProbeNext::Finish(replied),
{
}

} // verus!
