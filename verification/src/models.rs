//! The data model: a candidate endpoint, and the outcome of probing a URL or
//! an endpoint.

use vstd::prelude::*;
use crate::digits::{dec_digits, port_digits};
use crate::text::{str_chars, chars_to_string};

verus! {

/// A candidate network endpoint. Identity is structural on host and port; the
/// case of the host is kept as found.
#[derive(Debug, Clone)]
pub struct Node {
    pub host: String,
    pub port: u16,
}

impl DeepView for Node {
    type V = (Seq<char>, u16);

    open spec fn deep_view(&self) -> (Seq<char>, u16) {
        (self.host@, self.port)
    }
}

impl Node {
    pub fn new(host: String, port: u16) -> (r: Node)
        ensures
            r.host == host,
            r.port == port,
    {
        Node { host, port }
    }

    /// The synthesized probe address `http://host:port`.
    pub fn url(&self) -> (r: String)
        ensures
            r@ == "http://"@ + self.host@ + seq![':'] + dec_digits(self.port as int),
    {
        let mut cs = str_chars("http://");
        let mut host_cs = str_chars(self.host.as_str());
        cs.append(&mut host_cs);
        cs.push(':');
        let mut digit_cs = port_digits(self.port);
        cs.append(&mut digit_cs);
        assert(cs@ =~= "http://"@ + self.host@ + seq![':'] + dec_digits(self.port as int));
        chars_to_string(cs.as_slice())
    }
}

impl PartialEq for Node {
    /// Two nodes are equal exactly when host and port both match.
    fn eq(&self, other: &Node) -> (r: bool) {
        self.host.eq(&other.host) && self.port == other.port
    }
}

impl Eq for Node {}

impl vstd::std_specs::cmp::PartialEqSpecImpl for Node {
    open spec fn obeys_eq_spec() -> bool {
        true
    }

    open spec fn eq_spec(&self, other: &Node) -> bool {
        self.host@ == other.host@ && self.port == other.port
    }
}

/// Node equality is structural: two nodes are equal exactly when host and
/// port both match, the case of the host kept as found.
pub proof fn lemma_node_equality(a: Node, b: Node)
    ensures
        vstd::std_specs::cmp::PartialEqSpec::eq_spec(&a, &b) <==> (a.host@ == b.host@ && a.port
            == b.port),
        a.deep_view() == b.deep_view() <==> (a.host@ == b.host@ && a.port == b.port),
{
}

/// Outcome of probing one URL: the status and the latency are both present
/// (a definitive response) or both absent (timeout or transport failure).
#[derive(Debug, Clone)]
pub struct UrlResult {
    pub url: String,
    /// HTTP status of the definitive response, if any came.
    pub status: Option<u16>,
    /// Wall-clock milliseconds to that response, if any came.
    pub latency: Option<u64>,
}

impl UrlResult {
    /// Status and latency stand or fall together.
    pub open spec fn wf(&self) -> bool {
        self.status is Some <==> self.latency is Some
    }

    /// The result of one probe: a definitive response carries its status and
    /// the time it took; a failure carries neither.
    pub fn from_outcome(url: String, outcome: Option<(u16, u64)>) -> (r: UrlResult)
        ensures
            r.wf(),
            r.url == url,
            match outcome {
                Some(p) => r.status == Some(p.0) && r.latency == Some(p.1),
                None => r.status is None && r.latency is None,
            },
    {
        match outcome {
            Some(p) => UrlResult { url, status: Some(p.0), latency: Some(p.1) },
            None => UrlResult { url, status: None, latency: None },
        }
    }

    /// A URL goes on to the fetch stage only on a status of exactly 200.
    pub fn is_working(&self) -> (r: bool)
        ensures
            r == (self.status == Some(200u16)),
    {
        match self.status {
            Some(s) => s == 200,
            None => false,
        }
    }
}

/// Outcome of probing one node, with the same presence contract as a URL
/// probe.
#[derive(Debug, Clone)]
pub struct NodeResult {
    pub node: Node,
    pub status: Option<u16>,
    pub latency: Option<u64>,
}

impl NodeResult {
    /// Status and latency stand or fall together.
    pub open spec fn wf(&self) -> bool {
        self.status is Some <==> self.latency is Some
    }

    pub fn from_outcome(node: Node, outcome: Option<(u16, u64)>) -> (r: NodeResult)
        ensures
            r.wf(),
            r.node == node,
            match outcome {
                Some(p) => r.status == Some(p.0) && r.latency == Some(p.1),
                None => r.status is None && r.latency is None,
            },
    {
        match outcome {
            Some(p) => NodeResult { node, status: Some(p.0), latency: Some(p.1) },
            None => NodeResult { node, status: None, latency: None },
        }
    }
}

} // verus!
