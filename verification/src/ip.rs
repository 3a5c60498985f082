//! One address/name record, and live reverse resolution of a single record.

use vstd::prelude::*;
use crate::addr::{addr_le, addr_text, lemma_addr_le_total_ordering, spec_parse_addr, IpAddr};
use crate::text::{
    lemma_seq_le_antisym, lemma_seq_le_refl, lemma_seq_le_total, lemma_seq_le_trans, seq_le,
    str_le,
};
use crate::ResolveError;

verus! {

/// One network address paired with its (possibly still empty) resolved name.
#[derive(Debug)]
pub struct Ip {
    /// The address, IPv4 or IPv6.
    pub ip: IpAddr,
    /// The resolved host name; the empty string means "not resolved yet".
    pub name: String,
}

/// The mathematical value of a record: the address and the name's characters.
#[verifier::ext_equal]
pub struct IpView {
    /// The address.
    pub ip: IpAddr,
    /// The name as a character sequence.
    pub name: Seq<char>,
}

impl View for Ip {
    type V = IpView;

    open spec fn view(&self) -> IpView {
        IpView { ip: self.ip, name: self.name@ }
    }
}

impl Clone for Ip {
    /// Cloning preserves the record's value.
    fn clone(&self) -> (r: Self)
        ensures
            r@ == self@,
    {
        Ip { ip: self.ip, name: self.name.clone() }
    }
}

impl PartialEq for Ip {
    fn eq(&self, other: &Ip) -> (r: bool) {
        self.ip == other.ip && self.name == other.name
    }
}

impl vstd::std_specs::cmp::PartialEqSpecImpl for Ip {
    open spec fn obeys_eq_spec() -> bool {
        true
    }

    open spec fn eq_spec(&self, other: &Ip) -> bool {
        self.ip == other.ip && self.name@ == other.name@
    }
}

// ---------------------------------------------------------------------------
// Record order: by address, then by name
// ---------------------------------------------------------------------------

/// Total order on record values: by address first, then by name.
pub open spec fn ip_leq(x: IpView, y: IpView) -> bool {
    if x.ip != y.ip {
        addr_le(x.ip, y.ip)
    } else {
        seq_le(x.name, y.name)
    }
}

/// The record order as a function value, for use with `sort_by`.
pub open spec fn ip_order() -> spec_fn(IpView, IpView) -> bool {
    |a: IpView, b: IpView| ip_leq(a, b)
}

/// The record order is a total order.
pub proof fn lemma_ip_order_total()
    ensures
        vstd::relations::total_ordering(ip_order()),
{
    let leq = ip_order();
    lemma_addr_le_total_ordering();
    assert forall|x: IpView| #[trigger] leq(x, x) by {
        lemma_seq_le_refl(x.name);
    }
    assert forall|x: IpView, y: IpView| #[trigger] leq(x, y) && #[trigger] leq(y, x)
        implies x == y by {
        if x.ip == y.ip {
            lemma_seq_le_antisym(x.name, y.name);
            assert(x =~= y);
        }
    }
    assert forall|x: IpView, y: IpView| #[trigger] leq(x, y) || #[trigger] leq(y, x) by {
        if x.ip == y.ip {
            lemma_seq_le_total(x.name, y.name);
        }
    }
    assert forall|x: IpView, y: IpView, z: IpView|
        #[trigger] leq(x, y) && #[trigger] leq(y, z) implies leq(x, z) by {
        if x.ip == y.ip && y.ip == z.ip {
            lemma_seq_le_trans(x.name, y.name, z.name);
        }
    }
}

/// Any two record values are comparable.
pub proof fn lemma_ip_leq_total(x: IpView, y: IpView)
    ensures
        ip_leq(x, y) || ip_leq(y, x),
{
    lemma_addr_le_total_ordering();
    if x.ip == y.ip {
        lemma_seq_le_total(x.name, y.name);
    }
}

/// The record order is transitive.
pub proof fn lemma_ip_leq_trans(x: IpView, y: IpView, z: IpView)
    requires
        ip_leq(x, y),
        ip_leq(y, z),
    ensures
        ip_leq(x, z),
{
    lemma_addr_le_total_ordering();
    if x.ip == y.ip && y.ip == z.ip {
        lemma_seq_le_trans(x.name, y.name, z.name);
    }
}

/// Executable comparison deciding the record order.
pub fn ip_le(a: &Ip, b: &Ip) -> (r: bool)
    ensures
        r == ip_leq(a@, b@),
{
    if a.ip == b.ip {
        str_le(a.name.as_str(), b.name.as_str())
    } else {
        a.ip.le(&b.ip)
    }
}

// ---------------------------------------------------------------------------
// Construction
// ---------------------------------------------------------------------------

impl Ip {
    /// Creates a record with an empty name from a textual address.
    ///
    /// The text must be a valid IPv4 or IPv6 address; `try_new` is the
    /// fallible form for unchecked input.
    pub fn new(s: &str) -> (r: Ip)
        requires
            spec_parse_addr(s@) is Some,
        ensures
            spec_parse_addr(s@) == Some(r.ip),
            r.name@ == Seq::<char>::empty(),
    {
        match IpAddr::parse(s) {
            Some(ip) => Ip { ip, name: String::new() },
            None => {
                proof {
                    assert(false);
                }
                Ip { ip: IpAddr::v4(0, 0, 0, 0), name: String::new() }
            },
        }
    }

    /// Creates a record with an empty name, rejecting malformed addresses.
    pub fn try_new(s: &str) -> (r: Result<Ip, ResolveError>)
        ensures
            match r {
                Ok(ip) => spec_parse_addr(s@) == Some(ip.ip) && ip.name@ == Seq::<char>::empty(),
                Err(e) => spec_parse_addr(s@) is None && e == ResolveError::InvalidAddress,
            },
    {
        match IpAddr::parse(s) {
            Some(ip) => Ok(Ip { ip, name: String::new() }),
            None => Err(ResolveError::InvalidAddress),
        }
    }

    /// Creates a pre-resolved record from a textual address and a name.
    pub fn from_pair(s: &str, name: &str) -> (r: Ip)
        requires
            spec_parse_addr(s@) is Some,
        ensures
            spec_parse_addr(s@) == Some(r.ip),
            r.name@ == name@,
    {
        let base = Ip::new(s);
        Ip { ip: base.ip, name: name.to_owned() }
    }
}

// ---------------------------------------------------------------------------
// Live resolution of one record
// ---------------------------------------------------------------------------

/// The fixed host name substituted when an address has no real reverse
/// record.
pub open spec fn sentinel_name() -> Seq<char> {
    "some.host.invalid"@
}

/// The name the live capability reports, given the outcome of a reverse
/// lookup for `a`: a real name is kept; a lookup that merely echoes the
/// address's own text is replaced by the no-PTR sentinel; a failed lookup
/// contributes its error text, so resolution failure becomes data.
pub open spec fn live_name_of(a: IpAddr, outcome: Result<Seq<char>, Seq<char>>) -> Seq<char> {
    match outcome {
        Ok(n) => if n == addr_text(a) {
            sentinel_name()
        } else {
            n
        },
        Err(e) => e,
    }
}

/// Applies the live naming rule to a concrete lookup outcome.
pub fn live_name(addr: &IpAddr, outcome: Result<String, String>) -> (r: String)
    ensures
        outcome matches Ok(n) ==> r@ == live_name_of(*addr, Ok(n@)),
        outcome matches Err(e) ==> r@ == live_name_of(*addr, Err(e@)),
{
    match outcome {
        Ok(n) => {
            let own = addr.to_string();
            if n == own {
                String::from_str("some.host.invalid")
            } else {
                n
            }
        },
        Err(e) => e,
    }
}

/// Relies on `dns_lookup::lookup_addr`: asks the system resolver for the
/// host name of an address.  The outcome depends on the network and the
/// machine, so nothing is promised of it; a failure is handed back as the
/// error's text.
#[verifier::external_body]
pub(crate) fn raw_lookup(addr: &IpAddr) -> (r: Result<String, String>) {
    let ip: core::net::IpAddr = match addr {
        IpAddr::V4 { a, b, c, d } => core::net::IpAddr::V4(
            core::net::Ipv4Addr::new(*a, *b, *c, *d),
        ),
        IpAddr::V6 { s0, s1, s2, s3, s4, s5, s6, s7 } => core::net::IpAddr::V6(
            core::net::Ipv6Addr::new(*s0, *s1, *s2, *s3, *s4, *s5, *s6, *s7),
        ),
    };
    match dns_lookup::lookup_addr(&ip) {
        Ok(name) => Ok(name),
        Err(e) => Err(e.to_string()),
    }
}

impl Ip {
    /// Live reverse resolution of this record: looks the address up and
    /// applies the live naming rule (`live_name`) to whatever came back.
    /// The address is always preserved; a failed lookup becomes a
    /// placeholder name, never an error, so batch length is preserved.
    pub fn solve(&self) -> (r: Ip)
        ensures
            r.ip == self.ip,
    {
        let outcome = raw_lookup(&self.ip);
        Ip { ip: self.ip, name: live_name(&self.ip, outcome) }
    }
}

} // verus!
