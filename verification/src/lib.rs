//! Streams that are areas of a Siemens S7 PLC. One address, a byte range of a
//! data block, the inputs, the outputs or the flags, is one Stream: reading it
//! is a poll, writing it is a delivery.
//!
//! S7comm is the protocol every 300-, 400-, 1200- and 1500-series CPU speaks
//! to its programming device, over ISO transport on TCP port 102. It is a
//! job-and-answer protocol: Setup Communication settles the PDU length, then
//! Read Var and Write Var move bytes by any-pointer. Here are the S7 header,
//! the addressing, a [`Client`] that speaks them, and a [`Session`] that is
//! one client's worth of CPU for tests and the playground. The connection that
//! carries the bytes is not: both ends say what to send and take what was
//! received.
//!
//! The origin URI names the CPU and the address:
//! `s7comm://host:102/DB12.DBB0.100`. A target is the same, or a bare address
//! on the configured CPU, or `host:port` for the configured address.

use std::str::FromStr;
use std::time::Duration;

use vstd::prelude::*;
use vstd::string::*;

pub mod client;
pub mod error;
pub mod exchange;
pub mod header;
pub mod item;
pub mod laws;
pub mod layout;
pub mod naming;
pub mod serving;
pub mod session;
pub mod text;
pub mod wire;

pub use client::Client;
pub use error::Error;
pub use header::Message;
pub use item::{Address, Area};
pub use session::{Event, Session};

verus! {

/// A CPU, an address on it, and how to reach it.
pub struct S7Transport {
    pub plc: String,
    pub address: String,
    pub rack: u8,
    pub slot: u8,
    pub timeout: Option<Duration>,
}

/// What a target names, the CPU first: what it says as a URI, where that
/// leaves the address out the configured one; where it is no URI, a CPU by
/// host and port, or else an address.
pub open spec fn resolved(
    uri: Option<(Seq<char>, Seq<char>)>,
    target: Seq<char>,
    plc: Seq<char>,
    address: Seq<char>,
) -> (Seq<char>, Seq<char>) {
    match uri {
        Some((host, named)) => if named.len() == 0 {
            (host, address)
        } else {
            (host, named)
        },
        None => if target.contains(':') {
            (target, address)
        } else {
            (plc, target)
        },
    }
}

/// The two parts of a URI as text.
pub open spec fn uri_text(uri: Option<(&str, &str)>) -> Option<(Seq<char>, Seq<char>)> {
    match uri {
        Some((host, named)) => Some((host@, named@)),
        None => None,
    }
}

/// Whether `text` holds a colon.
fn has_colon(text: &str) -> (r: bool)
    ensures
        r == text@.contains(':'),
{
    for c in it: text.chars()
        invariant
            it.seq() == text@,
            forall|i: int| 0 <= i < it.index() ==> text@[i] != ':',
    {
        if c == ':' {
            assert(text@[it.index() as int] == ':');
            return true;
        }
    }
    false
}

impl S7Transport {
    /// Speak to the CPU at `plc`, `host:102`, about `address`, rack 0 slot 2
    /// until [`Self::at`] says otherwise.
    pub fn new(plc: &str, address: &str) -> (r: S7Transport)
        ensures
            r.plc@ == plc@,
            r.address@ == address@,
            r.rack == 0,
            r.slot == 2,
            r.timeout is None,
    {
        S7Transport {
            plc: plc.to_owned(),
            address: address.to_owned(),
            rack: 0,
            slot: 2,
            timeout: None,
        }
    }

    /// Where in the rack the CPU sits; slot 1 for 1200 and 1500 series.
    pub fn at(self, rack: u8, slot: u8) -> (r: S7Transport)
        ensures
            r == (S7Transport {
                plc: self.plc,
                address: self.address,
                rack,
                slot,
                timeout: self.timeout,
            }),
    {
        S7Transport { plc: self.plc, address: self.address, rack, slot, timeout: self.timeout }
    }

    /// Give up on a CPU that stops answering.
    pub fn timing_out_after(self, timeout: Duration) -> (r: S7Transport)
        ensures
            r == (S7Transport {
                plc: self.plc,
                address: self.address,
                rack: self.rack,
                slot: self.slot,
                timeout: Some(timeout),
            }),
    {
        S7Transport {
            plc: self.plc,
            address: self.address,
            rack: self.rack,
            slot: self.slot,
            timeout: Some(timeout),
        }
    }

    /// The scheme of the URIs that name what this transport reads and writes.
    pub fn name(&self) -> (r: &'static str)
        ensures
            r@ == "s7comm"@,
    {
        "s7comm"
    }

    /// The CPU and address a target names: `s7comm://host:102/DB12.DBB0.100`
    /// in full, a bare address on the configured CPU, or `host:port` for the
    /// configured address. `uri` is what `target` says as a URI of the scheme,
    /// if it is one: the host, and the path, empty where there is none.
    pub fn resolve<'a>(&'a self, uri: Option<(&'a str, &'a str)>, target: &'a str) -> (r: (
        &'a str,
        &'a str,
    ))
        ensures
            (r.0@, r.1@) == resolved(uri_text(uri), target@, self.plc@, self.address@),
            match uri {
                Some((host, named)) => r.0@ == host@ && r.1@ == if named@.len() > 0 {
                    named@
                } else {
                    self.address@
                },
                None => if exists|i: int| 0 <= i < target@.len() && target@[i] == ':' {
                    r.0@ == target@ && r.1@ == self.address@
                } else {
                    r.0@ == self.plc@ && r.1@ == target@
                },
            },
    {
        match uri {
            Some((host, named)) => if named.is_empty() {
                (host, self.address.as_str())
            } else {
                (host, named)
            },
            None => if has_colon(target) {
                (target, self.address.as_str())
            } else {
                (self.plc.as_str(), target)
            },
        }
    }

    /// The address that one poll reads.
    pub fn receive(&self) -> (r: Result<Address, Error>)
        ensures
            match Address::named(self.address@) {
                Some(address) => r == Ok::<Address, Error>(address),
                None => r matches Err(Error::NotAnAddress(text)) && text@ == self.address@,
            },
    {
        Address::from_str(self.address.as_str())
    }

    /// The URI that says where the bytes of `address` came from.
    pub fn origin(&self, address: &Address) -> (r: String)
        ensures
            r@ == "s7comm://"@ + self.plc@ + "/"@ + address.text(),
    {
        "s7comm://".to_owned().concat(self.plc.as_str()).concat("/").concat(
            address.to_string().as_str(),
        )
    }

    /// The CPU and the address that a delivery to `target` goes to; see
    /// [`Self::resolve`].
    pub fn send<'a>(&'a self, uri: Option<(&'a str, &'a str)>, target: &'a str) -> (r: Result<
        (&'a str, Address),
        Error,
    >)
        ensures
            ({
                let (plc, named) = resolved(uri_text(uri), target@, self.plc@, self.address@);
                match Address::named(named) {
                    Some(address) => r matches Ok(to) && to.0@ == plc && to.1 == address,
                    None => r matches Err(Error::NotAnAddress(text)) && text@ == named,
                }
            }),
    {
        let (plc, named) = self.resolve(uri, target);
        match Address::from_str(named) {
            Ok(address) => Ok((plc, address)),
            Err(e) => Err(e),
        }
    }
}

} // verus!
