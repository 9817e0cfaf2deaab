//! Parsing of multiserver addresses: compact textual addresses of the
//! form `net:host:port~shs:base64key`, as used by a peer-to-peer protocol
//! to describe how to reach a remote node. The single operation,
//! `MultiserverAddress::parse`, turns such a string into a validated,
//! strongly typed address value or rejects it with a precise error.
use vstd::prelude::*;

pub mod addr;
pub mod host;
pub mod key;
pub mod scan;

pub use addr::MultiserverAddress;
pub use host::AddressType;
pub use host::IpAddress;
pub use key::PublicKey;
pub use key::array_32_from_vec;

verus! {

/// The distinct terminal outcomes of parsing a multiserver address
/// string. Every failure is a deterministic function of the input, and
/// each stage of the pipeline fails with its own variant so that callers
/// can discriminate the cause.
#[derive(Debug, Clone, Copy, PartialEq, Eq, Structural)]
pub enum Error {
    /// The input does not match the overall structural grammar.
    Parse,
    /// The host segment looked like an IP literal but failed strict
    /// address parsing.
    IpInvalid,
    /// The host segment was treated as a domain but failed URL parsing.
    UrlInvalid,
    /// The port segment is not a valid unsigned 16-bit decimal integer.
    PortNotNumeric,
    /// The host segment is classifiable as neither IP literal nor domain.
    NoAddressString,
    /// The grammar matched but no IP segment could be extracted.
    NoIpString,
    /// The grammar matched but no domain segment could be extracted.
    NoUrlString,
    /// The grammar matched but the public-key segment was absent.
    NoPubKeyString,
    /// The grammar matched but the port segment was absent.
    NoPortString,
    /// The key payload failed base64 decoding.
    PubKeyNotBase64,
}

} // verus!
