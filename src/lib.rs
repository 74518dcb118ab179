//! Batch reachability checks of the remote endpoints named in client
//! configuration files: the line scanner that finds each file's protocol and
//! endpoint, the admission gate that bounds how many checks run at once, the
//! decisions of the stream and datagram probes, and the tally of outcomes.
pub mod extract;
pub mod gate;
pub mod probe;
pub mod tally;
pub mod text;
