//! Backend descriptors.
use vstd::prelude::*;

verus! {

/// The decimal digits of `n`, most significant first.
pub open spec fn decimal(n: nat) -> Seq<char>
    decreases n,
{
    if n < 10 {
        seq![digit_char(n)]
    } else {
        decimal(n / 10).push(digit_char(n % 10))
    }
}

pub open spec fn digit_char(d: nat) -> char {
    if d == 0 { '0' } else if d == 1 { '1' } else if d == 2 { '2' } else if d == 3 { '3' }
    else if d == 4 { '4' } else if d == 5 { '5' } else if d == 6 { '6' } else if d == 7 { '7' }
    else if d == 8 { '8' } else { '9' }
}

/// A backend's identity on the ring: `"host:port"`.
pub open spec fn node_name(host: Seq<char>, port: u16) -> Seq<char> {
    host + seq![':'] + decimal(port as nat)
}

/// An upstream server: UDP datagrams go to `(host, port)`, health probes to
/// `(host, adminport)` over TCP.
pub struct ServerNode {
    pub host: String,
    pub port: u16,
    pub adminport: u16,
}

/// Relies on std's `format!`: `{}` writes a string as it is and an unsigned
/// integer in decimal.
#[verifier::external_body]
fn join_host_port(host: &String, port: u16) -> (r: String)
    ensures
        r@ == node_name(host@, port),
{
    format!("{}:{}", host, port)
}

impl ServerNode {
    pub fn new(host: &str, port: u16, adminport: u16) -> (r: ServerNode)
        ensures
            r.host@ == host@,
            r.port == port,
            r.adminport == adminport,
    {
        ServerNode { host: host.to_owned(), port, adminport }
    }

    pub open spec fn name_spec(&self) -> Seq<char> {
        node_name(self.host@, self.port)
    }

    /// The name the ring places this backend by: `"host:port"`.
    pub fn name(&self) -> (r: String)
        ensures
            r@ == self.name_spec(),
    {
        join_host_port(&self.host, self.port)
    }
}

} // verus!
