use vstd::prelude::*;

use crate::text::{
    chars_of, trim_start, contains, directive_argument, has_substring, join_first_gap, joined_argument,
    string_of_chars, strip_leading, trim,
};

verus! {

/// The transport that a configuration asks for.
#[derive(Debug, Clone, Copy, PartialEq, Eq, Structural)]
pub enum Protocol {
    /// Connection-oriented transport (a TCP-style handshake).
    Stream,
    /// Connectionless transport (a UDP-style request and reply).
    Datagram,
}

/// Separator put between host and port in an endpoint.
pub const ENDPOINT_SEPARATOR: char = ':';

/// The keyword of the protocol directive.
pub open spec fn protocol_keyword() -> Seq<char> {
    seq!['p', 'r', 'o', 't', 'o']
}

/// The keyword of the remote directive.
pub open spec fn remote_keyword() -> Seq<char> {
    seq!['r', 'e', 'm', 'o', 't', 'e']
}

/// The protocol name that selects the datagram transport.
pub open spec fn datagram_name() -> Seq<char> {
    seq!['u', 'd', 'p']
}

/// The protocol that a protocol directive line selects: its argument, after
/// the keyword and the white space around it, names the transport.
pub open spec fn protocol_of(line: Seq<char>) -> Protocol {
    if trim(strip_leading(trim_start(line), protocol_keyword())) == datagram_name() {
        Protocol::Datagram
    } else {
        Protocol::Stream
    }
}

/// The endpoint that a remote directive line names: its arguments, host and
/// port, joined by one separator in place of the white space between them.
pub open spec fn endpoint_of(line: Seq<char>) -> Seq<char> {
    join_first_gap(trim(strip_leading(trim_start(line), remote_keyword())), ENDPOINT_SEPARATOR)
}

/// What the extractor knows after some lines.
pub struct ScanModel {
    pub protocol_seen: bool,
    pub remote_seen: bool,
    pub protocol: Protocol,
    pub endpoint: Seq<char>,
}

/// The state before any line is read.
pub open spec fn initial_model() -> ScanModel {
    ScanModel {
        protocol_seen: false,
        remote_seen: false,
        protocol: Protocol::Stream,
        endpoint: Seq::empty(),
    }
}

/// Both kinds of directive have been seen: no further line is read.
pub open spec fn model_complete(m: ScanModel) -> bool {
    m.protocol_seen && m.remote_seen
}

/// The state after one more line: each kind of directive that the line
/// holds is marked as seen and its value taken, the latest one winning. A
/// complete state reads no more lines.
pub open spec fn next_model(m: ScanModel, line: Seq<char>) -> ScanModel {
    if model_complete(m) {
        m
    } else {
        let is_proto = has_substring(line, protocol_keyword());
        let is_remote = has_substring(line, remote_keyword());
        ScanModel {
            protocol_seen: m.protocol_seen || is_proto,
            remote_seen: m.remote_seen || is_remote,
            protocol: if is_proto { protocol_of(line) } else { m.protocol },
            endpoint: if is_remote { endpoint_of(line) } else { m.endpoint },
        }
    }
}

/// The state after reading `lines` in order.
pub open spec fn scan(lines: Seq<Seq<char>>) -> ScanModel
    decreases lines.len(),
{
    if lines.len() == 0 {
        initial_model()
    } else {
        next_model(scan(lines.drop_last()), lines.last())
    }
}

/// Some line of `lines` holds `keyword`.
pub open spec fn has_directive(lines: Seq<Seq<char>>, keyword: Seq<char>) -> bool {
    exists|j: int| 0 <= j < lines.len() && has_substring(#[trigger] lines[j], keyword)
}

/// `lines` hold both a protocol directive and a remote directive.
pub open spec fn both_directives(lines: Seq<Seq<char>>) -> bool {
    has_directive(lines, protocol_keyword()) && has_directive(lines, remote_keyword())
}

/// The lines of a configuration as character sequences.
pub open spec fn lines_view(lines: Seq<String>) -> Seq<Seq<char>> {
    lines.map_values(|l: String| l@)
}

/// A protocol and endpoint read from a configuration.
#[derive(Debug, Clone, PartialEq, Eq)]
pub struct Extraction {
    pub protocol: Protocol,
    pub endpoint: String,
}

/// What a complete state yields, or `None` for an incomplete one.
pub open spec fn model_result(m: ScanModel) -> Option<(Protocol, Seq<char>)> {
    if model_complete(m) {
        Some((m.protocol, m.endpoint))
    } else {
        None
    }
}

/// The extraction's value as a pair of plain values.
pub open spec fn extraction_view(e: Option<Extraction>) -> Option<(Protocol, Seq<char>)> {
    match e {
        Some(x) => Some((x.protocol, x.endpoint@)),
        None => None,
    }
}

/// Line-by-line reader of one configuration that stops once both directives
/// have been seen.
pub struct EndpointExtractor {
    protocol_seen: bool,
    remote_seen: bool,
    protocol: Protocol,
    endpoint: Vec<char>,
}

impl EndpointExtractor {
    /// The extractor's state as a model value.
    pub closed spec fn model(&self) -> ScanModel {
        ScanModel {
            protocol_seen: self.protocol_seen,
            remote_seen: self.remote_seen,
            protocol: self.protocol,
            endpoint: self.endpoint@,
        }
    }

    pub fn new() -> (r: Self)
        ensures
            r.model() == initial_model(),
    {
        EndpointExtractor {
            protocol_seen: false,
            remote_seen: false,
            protocol: Protocol::Stream,
            endpoint: Vec::new(),
        }
    }

    /// Whether both directives have been seen.
    pub fn is_complete(&self) -> (r: bool)
        ensures
            r == model_complete(self.model()),
    {
        self.protocol_seen && self.remote_seen
    }

    /// Reads one more line; returns whether extraction is now complete. A
    /// complete extractor ignores further lines.
    pub fn feed(&mut self, line: &str) -> (done: bool)
        ensures
            final(self).model() == next_model(old(self).model(), line@),
            done == model_complete(final(self).model()),
    {
        if self.protocol_seen && self.remote_seen {
            return true;
        }
        let chars = chars_of(line);
        let proto_kw: [char; 5] = ['p', 'r', 'o', 't', 'o'];
        let remote_kw: [char; 6] = ['r', 'e', 'm', 'o', 't', 'e'];
        let udp: [char; 3] = ['u', 'd', 'p'];
        proof {
            assert(proto_kw@ =~= protocol_keyword());
            assert(remote_kw@ =~= remote_keyword());
            assert(udp@ =~= datagram_name());
        }
        if contains(chars.as_slice(), proto_kw.as_slice()) {
            self.protocol_seen = true;
            let (a, b) = directive_argument(chars.as_slice(), proto_kw.as_slice());
            let is_udp = slice_eq(chars.as_slice(), a, b, udp.as_slice());
            self.protocol = if is_udp {
                Protocol::Datagram
            } else {
                Protocol::Stream
            };
        }
        if contains(chars.as_slice(), remote_kw.as_slice()) {
            self.remote_seen = true;
            self.endpoint = joined_argument(chars.as_slice(), remote_kw.as_slice(), ENDPOINT_SEPARATOR);
        }
        self.protocol_seen && self.remote_seen
    }

    /// The protocol and endpoint, once both directives have been seen.
    pub fn result(&self) -> (r: Option<Extraction>)
        ensures
            extraction_view(r) == model_result(self.model()),
    {
        if self.protocol_seen && self.remote_seen {
            Some(Extraction { protocol: self.protocol, endpoint: string_of_chars(self.endpoint.as_slice()) })
        } else {
            None
        }
    }
}

/// Whether `s[a..b]` equals `p`.
fn slice_eq(s: &[char], a: usize, b: usize, p: &[char]) -> (r: bool)
    requires
        a <= b <= s.len(),
    ensures
        r == (s@.subrange(a as int, b as int) == p@),
{
    if b - a != p.len() {
        return false;
    }
    let mut i: usize = 0;
    while i < p.len()
        invariant
            a <= b <= s.len(),
            b - a == p.len(),
            i <= p.len(),
            forall|k: int| 0 <= k < i ==> s@[a + k] == p@[k],
        decreases p.len() - i,
    {
        if s[a + i] != p[i] {
            proof {
                assert(s@.subrange(a as int, b as int)[i as int] != p@[i as int]);
            }
            return false;
        }
        i = i + 1;
    }
    proof {
        assert(s@.subrange(a as int, b as int) =~= p@);
    }
    true
}

/// The outcome of scanning a configuration's lines.
#[derive(Debug, Clone, PartialEq, Eq)]
pub struct Scan {
    /// The protocol and endpoint, when both directives were seen.
    pub extraction: Option<Extraction>,
    /// How many lines were read before the scan stopped.
    pub lines_read: usize,
}

/// Scans `lines` in order and stops at the first line by which both a
/// protocol directive and a remote directive have been seen; the lines
/// after it are never looked at.
pub fn extract_endpoint(lines: &[String]) -> (r: Scan)
    ensures
        r.lines_read <= lines.len(),
        extraction_view(r.extraction) == model_result(scan(lines_view(lines@))),
        r.extraction is Some <==> both_directives(lines_view(lines@)),
        scan(lines_view(lines@.take(r.lines_read as int))) == scan(lines_view(lines@)),
        forall|k: int|
            0 <= k < r.lines_read ==> !#[trigger] both_directives(lines_view(lines@.take(k))),
        r.lines_read < lines.len() ==> both_directives(
            lines_view(lines@.take(r.lines_read as int)),
        ),
{
    let mut ex = EndpointExtractor::new();
    let mut i: usize = 0;
    proof {
        assert(lines_view(lines@.take(0)) =~= Seq::<Seq<char>>::empty());
    }
    while i < lines.len()
        invariant
            i <= lines.len(),
            ex.model() == scan(lines_view(lines@.take(i as int))),
            !model_complete(ex.model()),
            forall|k: int| 0 <= k < i ==> !#[trigger] both_directives(lines_view(lines@.take(k))),
        decreases lines.len() - i,
    {
        proof {
            lemma_scan_flags(lines_view(lines@.take(i as int)));
        }
        let done = ex.feed(lines[i].as_str());
        proof {
            assert(lines_view(lines@.take(i + 1)).drop_last() =~= lines_view(lines@.take(i as int)));
        }
        i = i + 1;
        if done {
            proof {
                lemma_scan_flags(lines_view(lines@.take(i as int)));
                lemma_scan_stops(lines_view(lines@.take(i as int)), lines_view(lines@.skip(i as int)));
                assert(lines_view(lines@.take(i as int)) + lines_view(lines@.skip(i as int))
                    =~= lines_view(lines@));
                lemma_scan_flags(lines_view(lines@));
            }
            return Scan { extraction: ex.result(), lines_read: i };
        }
    }
    proof {
        assert(lines@.take(i as int) =~= lines@);
        lemma_scan_flags(lines_view(lines@));
    }
    Scan { extraction: ex.result(), lines_read: i }
}

/// Once both directives have been seen, further lines change nothing: the
/// scan of `lines` followed by any `rest` is the scan of `lines` alone.
pub proof fn lemma_scan_stops(lines: Seq<Seq<char>>, rest: Seq<Seq<char>>)
    requires
        model_complete(scan(lines)),
    ensures
        scan(lines + rest) == scan(lines),
    decreases rest.len(),
{
    if rest.len() > 0 {
        lemma_scan_stops(lines, rest.drop_last());
        assert((lines + rest).drop_last() =~= lines + rest.drop_last());
    } else {
        assert(lines + rest =~= lines);
    }
}

/// The scan marks a kind of directive as seen exactly when some line holds
/// it; so it completes exactly when both kinds occur.
pub proof fn lemma_scan_flags(lines: Seq<Seq<char>>)
    ensures
        scan(lines).protocol_seen == has_directive(lines, protocol_keyword()),
        scan(lines).remote_seen == has_directive(lines, remote_keyword()),
        model_complete(scan(lines)) == both_directives(lines),
    decreases lines.len(),
{
    if lines.len() > 0 {
        let prefix = lines.drop_last();
        lemma_scan_flags(prefix);
        lemma_has_directive_last(lines, protocol_keyword());
        lemma_has_directive_last(lines, remote_keyword());
    }
}

/// A directive occurs in `lines` exactly when it occurs in all but the last
/// line or in the last one.
proof fn lemma_has_directive_last(lines: Seq<Seq<char>>, keyword: Seq<char>)
    requires
        lines.len() > 0,
    ensures
        has_directive(lines, keyword) == (has_directive(lines.drop_last(), keyword)
            || has_substring(lines.last(), keyword)),
{
    let prefix = lines.drop_last();
    if has_directive(lines, keyword) {
        let j = choose|j: int| 0 <= j < lines.len() && has_substring(#[trigger] lines[j], keyword);
        if j < prefix.len() {
            assert(prefix[j] == lines[j]);
        }
    }
    if has_directive(prefix, keyword) {
        let j = choose|j: int| 0 <= j < prefix.len() && has_substring(#[trigger] prefix[j], keyword);
        assert(lines[j] == prefix[j]);
    }
    if has_substring(lines.last(), keyword) {
        assert(has_substring(lines[lines.len() - 1], keyword));
    }
}

/// Without a remote directive the scan yields no endpoint.
pub proof fn lemma_no_remote_incomplete(lines: Seq<Seq<char>>)
    requires
        forall|k: int| 0 <= k < lines.len() ==> !has_substring(#[trigger] lines[k], remote_keyword()),
    ensures
        model_result(scan(lines)) is None,
{
    lemma_scan_flags(lines);
}

} // verus!
