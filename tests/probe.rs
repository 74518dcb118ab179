use verify_ovpn::extract::Protocol;
use verify_ovpn::probe::{
    after_step, first_step, ProbeNext, ProbeStep, PROBE_HOP_LIMIT, PROBE_PAYLOAD, PROBE_TIMEOUT_SECS,
    REPLY_BUFFER_LEN,
};

#[test]
fn stream_probe_steps() {
    let p = Protocol::Stream;
    assert_eq!(first_step(p), ProbeStep::OpenSocket);
    assert_eq!(after_step(p, ProbeStep::OpenSocket, true), ProbeNext::Run(ProbeStep::Connect));
    assert_eq!(after_step(p, ProbeStep::Connect, true), ProbeNext::Run(ProbeStep::AwaitWritable));
    assert_eq!(after_step(p, ProbeStep::AwaitWritable, true), ProbeNext::Finish(true));
}

#[test]
fn stream_probe_failures_are_final() {
    let p = Protocol::Stream;
    assert_eq!(after_step(p, ProbeStep::OpenSocket, false), ProbeNext::Finish(false));
    assert_eq!(after_step(p, ProbeStep::Connect, false), ProbeNext::Finish(false));
    assert_eq!(after_step(p, ProbeStep::AwaitWritable, false), ProbeNext::Finish(false));
}

#[test]
fn datagram_probe_steps() {
    let p = Protocol::Datagram;
    assert_eq!(first_step(p), ProbeStep::OpenSocket);
    assert_eq!(after_step(p, ProbeStep::OpenSocket, true), ProbeNext::Run(ProbeStep::SetHopLimit));
    assert_eq!(after_step(p, ProbeStep::SetHopLimit, true), ProbeNext::Run(ProbeStep::FixPeer));
    assert_eq!(after_step(p, ProbeStep::FixPeer, true), ProbeNext::Run(ProbeStep::SendProbe));
    assert_eq!(after_step(p, ProbeStep::SendProbe, true), ProbeNext::Run(ProbeStep::AwaitReply));
    assert_eq!(after_step(p, ProbeStep::AwaitReply, true), ProbeNext::Finish(true));
}

#[test]
fn datagram_best_effort_steps_tolerate_failure() {
    let p = Protocol::Datagram;
    assert_eq!(after_step(p, ProbeStep::SetHopLimit, false), ProbeNext::Run(ProbeStep::FixPeer));
    assert_eq!(after_step(p, ProbeStep::FixPeer, false), ProbeNext::Run(ProbeStep::SendProbe));
}

#[test]
fn datagram_send_or_reply_failure_is_final() {
    let p = Protocol::Datagram;
    assert_eq!(after_step(p, ProbeStep::OpenSocket, false), ProbeNext::Finish(false));
    assert_eq!(after_step(p, ProbeStep::SendProbe, false), ProbeNext::Finish(false));
    assert_eq!(after_step(p, ProbeStep::AwaitReply, false), ProbeNext::Finish(false));
}

#[test]
fn foreign_step_ends_probe() {
    assert_eq!(after_step(Protocol::Stream, ProbeStep::SendProbe, true), ProbeNext::Finish(false));
    assert_eq!(after_step(Protocol::Datagram, ProbeStep::Connect, true), ProbeNext::Finish(false));
}

#[test]
fn probe_limits() {
    assert_eq!(PROBE_TIMEOUT_SECS, 15);
    assert_eq!(PROBE_HOP_LIMIT, 15);
    assert_eq!(&PROBE_PAYLOAD, b"hello world");
    assert_eq!(REPLY_BUFFER_LEN, 10);
}
