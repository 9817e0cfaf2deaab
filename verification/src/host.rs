//! Host classification: the host segment of an address denotes a literal
//! IPv4 address, a literal IPv6 address, or a domain name. Classification
//! is strict and ordered: a segment shaped like an IP literal is committed
//! to that reading and fails with `IpInvalid` rather than falling through
//! to the domain reading.
use vstd::prelude::*;

verus! {

use vstd::string::StrSliceExecFns;
use vstd::string::StringExecFns;
use crate::Error;
use crate::scan::{
    is_hex_digit,
    all_digits,
    dec_val,
    hex_val,
    pow10,
    pow16,
    split_on,
    split_str,
    check_all_digits,
};

/// A literal IP address, modelled as the numeric value that the textual
/// literal denotes: four octets for IPv4, eight hextets for IPv6.
#[derive(Debug, Clone, Copy, PartialEq, Eq)]
pub enum IpAddress {
    V4 { octets: [u8; 4] },
    V6 { hextets: [u16; 8] },
}

impl IpAddress {
    /// The address is an IPv4 address.
    pub open spec fn spec_is_ipv4(&self) -> bool {
        self is V4
    }

    /// The address is an IPv6 address.
    pub open spec fn spec_is_ipv6(&self) -> bool {
        self is V6
    }

    /// Whether the address is an IPv4 address.
    pub fn is_ipv4(&self) -> (r: bool)
        ensures
            r == self.spec_is_ipv4(),
    {
        match self {
            IpAddress::V4 { .. } => true,
            IpAddress::V6 { .. } => false,
        }
    }

    /// Whether the address is an IPv6 address.
    pub fn is_ipv6(&self) -> (r: bool)
        ensures
            r == self.spec_is_ipv6(),
    {
        match self {
            IpAddress::V4 { .. } => false,
            IpAddress::V6 { .. } => true,
        }
    }
}

/// The endpoint of a parsed multiserver address.
#[derive(Debug, Clone, PartialEq, Eq)]
pub enum AddressType {
    /// A domain host, kept with the conventional placeholder scheme
    /// `tcp://` prefixed onto it, exactly as the URL parser accepted it.
    Url(String),
    /// A literal IP host.
    Ip(IpAddress),
    /// Reserved for future local-socket addressing; no rule of the current
    /// grammar produces it.
    SocketFilePath(String),
}

/// A decimal octet: one to three digits, value at most 255, and no
/// leading zero (matching strict IPv4 literal syntax).
pub open spec fn valid_octet(g: Seq<char>) -> bool {
    &&& 1 <= g.len() <= 3
    &&& all_digits(g)
    &&& dec_val(g) <= 255
    &&& g.len() > 1 ==> g[0] != '0'
}

/// The host is committed to the IPv4 reading: exactly four dot-separated,
/// nonempty, all-digit groups.
pub open spec fn ipv4_shape(h: Seq<char>) -> bool {
    &&& split_on(h, '.').len() == 4
    &&& forall|i: int|
        0 <= i < 4 ==> (#[trigger] split_on(h, '.')[i]).len() > 0 && all_digits(split_on(h, '.')[i])
}

/// A syntactically valid IPv4 literal.
pub open spec fn valid_ipv4(h: Seq<char>) -> bool {
    ipv4_shape(h) && forall|i: int| 0 <= i < 4 ==> valid_octet(#[trigger] split_on(h, '.')[i])
}

/// The octet values of a valid IPv4 literal.
pub open spec fn ipv4_octet_seq(h: Seq<char>) -> Seq<u8> {
    split_on(h, '.').map_values(|g: Seq<char>| dec_val(g) as u8)
}

/// A hextet: one to four hexadecimal digits (so its value fits a `u16`).
pub open spec fn valid_hextet(g: Seq<char>) -> bool {
    1 <= g.len() <= 4 && forall|i: int| 0 <= i < g.len() ==> is_hex_digit(#[trigger] g[i])
}

/// The host is committed to the IPv6 reading: exactly eight
/// colon-separated, nonempty groups (the full eight-hextet literal form).
pub open spec fn ipv6_shape(h: Seq<char>) -> bool {
    &&& split_on(h, ':').len() == 8
    &&& forall|i: int| 0 <= i < 8 ==> (#[trigger] split_on(h, ':')[i]).len() > 0
}

/// A syntactically valid IPv6 literal in the full eight-hextet form.
pub open spec fn valid_ipv6(h: Seq<char>) -> bool {
    ipv6_shape(h) && forall|i: int| 0 <= i < 8 ==> valid_hextet(#[trigger] split_on(h, ':')[i])
}

/// The hextet values of a valid IPv6 literal.
pub open spec fn ipv6_hextet_seq(h: Seq<char>) -> Seq<u16> {
    split_on(h, ':').map_values(|g: Seq<char>| hex_val(g) as u16)
}

/// The host with the placeholder scheme prefixed, as handed to the URL
/// parser for domain hosts.
pub open spec fn tcp_url_string(h: Seq<char>) -> Seq<char> {
    "tcp://"@ + h
}

/// Whether the URL parser accepts the given text.
pub uninterp spec fn url_accepts(u: Seq<char>) -> bool;

/// Relies on url::Url::parse: whether a URL string is accepted is a
/// deterministic function of the text alone.
#[verifier::external_body]
fn url_parse_ok(u: &str) -> (r: bool)
    ensures
        r == url_accepts(u@),
{
    url::Url::parse(u).is_ok()
}

/// The error a host segment is rejected with, if any: a segment of IP
/// shape whose strict reading fails gives `IpInvalid`; a domain segment
/// the URL parser refuses gives `UrlInvalid`.
pub open spec fn host_err(h: Seq<char>) -> Option<Error> {
    if ipv4_shape(h) {
        if valid_ipv4(h) {
            None
        } else {
            Some(Error::IpInvalid)
        }
    } else if ipv6_shape(h) {
        if valid_ipv6(h) {
            None
        } else {
            Some(Error::IpInvalid)
        }
    } else if url_accepts(tcp_url_string(h)) {
        None
    } else {
        Some(Error::UrlInvalid)
    }
}

/// The endpoint an accepted host segment classifies to.
pub open spec fn endpoint_matches(h: Seq<char>, at: AddressType) -> bool {
    if ipv4_shape(h) {
        at matches AddressType::Ip(ip) && ip matches IpAddress::V4 { octets } && octets@
            == ipv4_octet_seq(h)
    } else if ipv6_shape(h) {
        at matches AddressType::Ip(ip) && ip matches IpAddress::V6 { hextets } && hextets@
            == ipv6_hextet_seq(h)
    } else {
        at matches AddressType::Url(u) && u@ == tcp_url_string(h)
    }
}

/// Value of a nonempty all-digit group read as a decimal octet, or `None`
/// where the group is no valid octet.
#[verifier::loop_isolation(false)]
fn parse_octet(g: &str) -> (r: Option<u8>)
    requires
        g@.len() > 0,
        all_digits(g@),
    ensures
        match r {
            Some(v) => valid_octet(g@) && v as int == dec_val(g@),
            None => !valid_octet(g@),
        },
{
    let n = g.unicode_len();
    if n > 3 {
        return None;
    }
    if n > 1 && g.get_char(0) == '0' {
        return None;
    }
    let mut acc: u16 = 0;
    let mut i: usize = 0;
    while i < n
        invariant
            i <= n,
            acc as int == dec_val(g@.take(i as int)),
            (acc as int) < pow10(i as nat),
        decreases n - i,
    {
        let ch = g.get_char(i);
        proof {
            assert(g@.take(i + 1).drop_last() =~= g@.take(i as int));
            assert(g@.take(i + 1).last() == g@[i as int]);
            assert(pow10(0) == 1);
            assert(pow10(1) == 10);
            assert(pow10(2) == 100);
            assert(pow10(3) == 1000);
        }
        acc = acc * 10 + (ch as u32 - '0' as u32) as u16;
        i = i + 1;
    }
    proof {
        assert(g@.take(n as int) =~= g@);
    }
    if acc > 255 {
        None
    } else {
        Some(acc as u8)
    }
}

/// Value of a nonempty group read as a hextet, or `None` where the group
/// is no valid hextet.
#[verifier::loop_isolation(false)]
fn parse_hextet(g: &str) -> (r: Option<u16>)
    requires
        g@.len() > 0,
    ensures
        match r {
            Some(v) => valid_hextet(g@) && v as int == hex_val(g@),
            None => !valid_hextet(g@),
        },
{
    let n = g.unicode_len();
    if n > 4 {
        return None;
    }
    let mut acc: u16 = 0;
    let mut i: usize = 0;
    while i < n
        invariant
            i <= n,
            forall|j: int| 0 <= j < i ==> is_hex_digit(#[trigger] g@[j]),
            acc as int == hex_val(g@.take(i as int)),
            (acc as int) < pow16(i as nat),
        decreases n - i,
    {
        let ch = g.get_char(i);
        let d = if '0' <= ch && ch <= '9' {
            ch as u32 - '0' as u32
        } else if 'a' <= ch && ch <= 'f' {
            ch as u32 - 'a' as u32 + 10
        } else if 'A' <= ch && ch <= 'F' {
            ch as u32 - 'A' as u32 + 10
        } else {
            return None;
        };
        proof {
            assert(g@.take(i + 1).drop_last() =~= g@.take(i as int));
            assert(g@.take(i + 1).last() == g@[i as int]);
            assert(pow16(0) == 1);
            assert(pow16(1) == 16);
            assert(pow16(2) == 256);
            assert(pow16(3) == 4096);
            assert(pow16(4) == 65536);
        }
        acc = acc * 16 + d as u16;
        i = i + 1;
    }
    proof {
        assert(g@.take(n as int) =~= g@);
    }
    Some(acc)
}

/// Whether the split groups put the host in the IPv4 shape.
#[verifier::loop_isolation(false)]
fn ipv4_groups_ok(groups: &Vec<&str>, Ghost(h): Ghost<Seq<char>>) -> (r: bool)
    requires
        groups@.map_values(|g: &str| g@) == split_on(h, '.'),
    ensures
        r == ipv4_shape(h),
{
    if groups.len() != 4 {
        return false;
    }
    let mut i: usize = 0;
    while i < 4
        invariant
            i <= 4,
            forall|j: int|
                0 <= j < i ==> (#[trigger] split_on(h, '.')[j]).len() > 0 && all_digits(
                    split_on(h, '.')[j],
                ),
        decreases 4 - i,
    {
        proof {
            assert(groups@.map_values(|g: &str| g@)[i as int] == groups@[i as int]@);
        }
        if groups[i].is_empty() || !check_all_digits(groups[i]) {
            return false;
        }
        i = i + 1;
    }
    true
}

/// Whether the split groups put the host in the IPv6 shape.
#[verifier::loop_isolation(false)]
fn ipv6_groups_ok(groups: &Vec<&str>, Ghost(h): Ghost<Seq<char>>) -> (r: bool)
    requires
        groups@.map_values(|g: &str| g@) == split_on(h, ':'),
    ensures
        r == ipv6_shape(h),
{
    if groups.len() != 8 {
        return false;
    }
    let mut i: usize = 0;
    while i < 8
        invariant
            i <= 8,
            forall|j: int| 0 <= j < i ==> (#[trigger] split_on(h, ':')[j]).len() > 0,
        decreases 8 - i,
    {
        proof {
            assert(groups@.map_values(|g: &str| g@)[i as int] == groups@[i as int]@);
        }
        if groups[i].is_empty() {
            return false;
        }
        i = i + 1;
    }
    true
}

/// Read the four groups of an IPv4-shaped host as strict octets.
fn read_ipv4(groups: &Vec<&str>, Ghost(h): Ghost<Seq<char>>) -> (r: Option<IpAddress>)
    requires
        groups@.map_values(|g: &str| g@) == split_on(h, '.'),
        ipv4_shape(h),
    ensures
        match r {
            Some(ip) => valid_ipv4(h) && (ip matches IpAddress::V4 { octets } && octets@
                == ipv4_octet_seq(h)),
            None => !valid_ipv4(h),
        },
{
    proof {
        assert forall|i: int| 0 <= i < 4 implies (#[trigger] groups@[i])@ == split_on(h, '.')[i] by {
            assert(groups@.map_values(|g: &str| g@)[i] == groups@[i]@);
        }
    }
    let mut octets: [u8; 4] = [0; 4];
    let mut i: usize = 0;
    while i < 4
        invariant
            i <= 4,
            groups@.len() == 4,
            ipv4_shape(h),
            forall|j: int| 0 <= j < 4 ==> (#[trigger] groups@[j])@ == split_on(h, '.')[j],
            forall|j: int|
                0 <= j < i ==> valid_octet(#[trigger] split_on(h, '.')[j]) && octets@[j] as int
                    == dec_val(split_on(h, '.')[j]),
        decreases 4 - i,
    {
        match parse_octet(groups[i]) {
            Some(v) => {
                octets[i] = v;
            },
            None => {
                return None;
            },
        }
        i = i + 1;
    }
    proof {
        assert(octets@ =~= ipv4_octet_seq(h));
    }
    Some(IpAddress::V4 { octets })
}

/// Read the eight groups of an IPv6-shaped host as strict hextets.
fn read_ipv6(groups: &Vec<&str>, Ghost(h): Ghost<Seq<char>>) -> (r: Option<IpAddress>)
    requires
        groups@.map_values(|g: &str| g@) == split_on(h, ':'),
        ipv6_shape(h),
    ensures
        match r {
            Some(ip) => valid_ipv6(h) && (ip matches IpAddress::V6 { hextets } && hextets@
                == ipv6_hextet_seq(h)),
            None => !valid_ipv6(h),
        },
{
    proof {
        assert forall|i: int| 0 <= i < 8 implies (#[trigger] groups@[i])@ == split_on(h, ':')[i] by {
            assert(groups@.map_values(|g: &str| g@)[i] == groups@[i]@);
        }
    }
    let mut hextets: [u16; 8] = [0; 8];
    let mut i: usize = 0;
    while i < 8
        invariant
            i <= 8,
            groups@.len() == 8,
            ipv6_shape(h),
            forall|j: int| 0 <= j < 8 ==> (#[trigger] groups@[j])@ == split_on(h, ':')[j],
            forall|j: int|
                0 <= j < i ==> valid_hextet(#[trigger] split_on(h, ':')[j]) && hextets@[j] as int
                    == hex_val(split_on(h, ':')[j]),
        decreases 8 - i,
    {
        match parse_hextet(groups[i]) {
            Some(v) => {
                hextets[i] = v;
            },
            None => {
                return None;
            },
        }
        i = i + 1;
    }
    proof {
        assert(hextets@ =~= ipv6_hextet_seq(h));
    }
    Some(IpAddress::V6 { hextets })
}

/// Classify a host segment: an IPv4-shaped segment must read as a strict
/// IPv4 literal, an IPv6-shaped one as a strict IPv6 literal, and any
/// other segment is a domain, accepted iff the URL parser accepts it with
/// the placeholder scheme prefixed.
pub fn classify_host(host: &str) -> (r: Result<AddressType, Error>)
    ensures
        match r {
            Ok(at) => host_err(host@) is None && endpoint_matches(host@, at),
            Err(e) => host_err(host@) == Some(e),
        },
{
    let ghost h = host@;
    let dot_groups = split_str(host, '.');
    proof {
        assert forall|i: int| 0 <= i < dot_groups@.len() implies dot_groups@.map_values(
            |g: &str| g@,
        )[i] == split_on(h, '.')[i] by {
            assert(dot_groups@.map_values(|g: &str| g@)[i] == dot_groups@[i]@);
        }
        assert(dot_groups@.map_values(|g: &str| g@) =~= split_on(h, '.'));
    }
    if ipv4_groups_ok(&dot_groups, Ghost(h)) {
        match read_ipv4(&dot_groups, Ghost(h)) {
            Some(ip) => Ok(AddressType::Ip(ip)),
            None => Err(Error::IpInvalid),
        }
    } else {
        let colon_groups = split_str(host, ':');
        proof {
            assert forall|i: int| 0 <= i < colon_groups@.len() implies colon_groups@.map_values(
                |g: &str| g@,
            )[i] == split_on(h, ':')[i] by {
                assert(colon_groups@.map_values(|g: &str| g@)[i] == colon_groups@[i]@);
            }
            assert(colon_groups@.map_values(|g: &str| g@) =~= split_on(h, ':'));
        }
        if ipv6_groups_ok(&colon_groups, Ghost(h)) {
            match read_ipv6(&colon_groups, Ghost(h)) {
                Some(ip) => Ok(AddressType::Ip(ip)),
                None => Err(Error::IpInvalid),
            }
        } else {
            let mut url_text = "tcp://".to_owned();
            url_text.append(host);
            if url_parse_ok(url_text.as_str()) {
                Ok(AddressType::Url(url_text))
            } else {
                Err(Error::UrlInvalid)
            }
        }
    }
}

} // verus!
