//! The multiserver address: the grammar
//! `"net:" host ":" port "~" scheme ":" keypayload`,
//! the parsed address value, and the single parsing operation that turns
//! an address string into that value or into a precise error.
//!
//! The canonical reading of the grammar: the string is cut at its first
//! `~`; the part before it, after the `net:` prefix, is cut at its last
//! `:` into host and port (so an IPv6 host may hold colons, and no host
//! holds a `~`); the part after the `~` is cut at its first `:` into the
//! scheme name and the key payload, which runs to the end of the string.
//! Trailing text is therefore read as part of the payload and rejected by
//! the base64 decoder rather than by the grammar.
use vstd::prelude::*;

verus! {

use vstd::string::StrSliceExecFns;
use crate::Error;
use crate::scan::{
    is_digit,
    all_digits,
    all_word_chars,
    dec_val,
    lemma_dec_val_prefix_le,
    first_index,
    last_index,
    lemma_first_index,
    lemma_last_index,
    split_on,
    lemma_split_on_membership,
    find_first_char,
    find_last_char,
    check_all_digits,
    check_all_word_chars,
};
use crate::host::{
    AddressType,
    IpAddress,
    classify_host,
    host_err,
    endpoint_matches,
    ipv4_shape,
    ipv6_shape,
    valid_ipv4,
    valid_ipv6,
    tcp_url_string,
    url_accepts,
};
use crate::key::{PublicKey, pad32, b64_decoded, decode_base64, array_32_from_vec};

/// The string opens with the transport token `net:`.
pub open spec fn has_net_prefix(s: Seq<char>) -> bool {
    s.len() >= 4 && s[0] == 'n' && s[1] == 'e' && s[2] == 't' && s[3] == ':'
}

/// Position of the first `~`, which separates the transport section from
/// the key section.
pub open spec fn tilde_pos(s: Seq<char>) -> int {
    first_index(s, '~')
}

/// The transport section: between the `net:` prefix and the first `~`.
pub open spec fn left_part(s: Seq<char>) -> Seq<char> {
    s.subrange(4, tilde_pos(s))
}

/// Position, within the transport section, of the last `:`, which
/// separates host from port.
pub open spec fn colon_pos(s: Seq<char>) -> int {
    last_index(left_part(s), ':')
}

/// The host segment.
pub open spec fn host_of(s: Seq<char>) -> Seq<char> {
    left_part(s).take(colon_pos(s))
}

/// The port segment, as its digits.
pub open spec fn port_digits_of(s: Seq<char>) -> Seq<char> {
    left_part(s).skip(colon_pos(s) + 1)
}

/// The key section: everything after the first `~`.
pub open spec fn right_part(s: Seq<char>) -> Seq<char> {
    s.subrange(tilde_pos(s) + 1, s.len() as int)
}

/// Position, within the key section, of the first `:`, which separates
/// the scheme name from the key payload.
pub open spec fn scheme_colon_pos(s: Seq<char>) -> int {
    first_index(right_part(s), ':')
}

/// The scheme-name segment.
pub open spec fn scheme_of(s: Seq<char>) -> Seq<char> {
    right_part(s).take(scheme_colon_pos(s))
}

/// The key-payload segment: the remainder of the string.
pub open spec fn payload_of(s: Seq<char>) -> Seq<char> {
    right_part(s).skip(scheme_colon_pos(s) + 1)
}

/// The string matches the structural grammar
/// `"net:" host ":" port "~" scheme ":" keypayload`, with a nonempty
/// host, a nonempty all-digit port, a nonempty scheme of word characters,
/// and a nonempty payload.
pub open spec fn grammar_ok(s: Seq<char>) -> bool {
    &&& has_net_prefix(s)
    &&& tilde_pos(s) >= 4
    &&& colon_pos(s) >= 1
    &&& port_digits_of(s).len() > 0
    &&& all_digits(port_digits_of(s))
    &&& scheme_colon_pos(s) >= 1
    &&& all_word_chars(scheme_of(s))
    &&& payload_of(s).len() > 0
}

/// The error parsing `s` stops with, if any, in pipeline order: the
/// grammar first, then host classification, then key decoding, then the
/// port range.
pub open spec fn parse_err(s: Seq<char>) -> Option<Error> {
    if !grammar_ok(s) {
        Some(Error::Parse)
    } else if host_err(host_of(s)) is Some {
        host_err(host_of(s))
    } else if b64_decoded(payload_of(s)) is None {
        Some(Error::PubKeyNotBase64)
    } else if dec_val(port_digits_of(s)) > 65535 {
        Some(Error::PortNotNumeric)
    } else {
        None
    }
}

/// A parsed multiserver address: the node's public key, the port, and the
/// classified endpoint.
#[derive(Debug, Clone, PartialEq, Eq)]
pub struct MultiserverAddress {
    pub pub_key: Option<PublicKey>,
    pub port: u16,
    pub address: AddressType,
}

/// The address value that a successful parse of `s` must carry: the key
/// is the decoded payload packed into 32 bytes, the port is the decimal
/// value of the port digits, and the endpoint classifies the host.
pub open spec fn addr_matches(s: Seq<char>, a: MultiserverAddress) -> bool {
    &&& (a.pub_key matches Some(k) && k.bytes@ == pad32(b64_decoded(payload_of(s)).unwrap()))
    &&& a.port as int == dec_val(port_digits_of(s))
    &&& endpoint_matches(host_of(s), a.address)
}

/// The full contract of parsing: the result is exactly the error
/// `parse_err` gives, or, where none is given, a value pinned down by
/// `addr_matches`.
pub open spec fn parse_post(s: Seq<char>, r: Result<MultiserverAddress, Error>) -> bool {
    match parse_err(s) {
        Some(e) => r == Err::<MultiserverAddress, Error>(e),
        None => (r matches Ok(a) && addr_matches(s, a)),
    }
}

/// Value of a nonempty digit string as a port number, or `None` where it
/// exceeds the 16-bit range.
#[verifier::loop_isolation(false)]
fn parse_port(p: &str) -> (r: Option<u16>)
    requires
        p@.len() > 0,
        all_digits(p@),
    ensures
        match r {
            Some(v) => dec_val(p@) <= 65535 && v as int == dec_val(p@),
            None => dec_val(p@) > 65535,
        },
{
    let n = p.unicode_len();
    let mut acc: u32 = 0;
    let mut i: usize = 0;
    while i < n
        invariant
            i <= n,
            acc as int == dec_val(p@.take(i as int)),
            acc <= 65535,
        decreases n - i,
    {
        let ch = p.get_char(i);
        proof {
            assert(p@.take(i + 1).drop_last() =~= p@.take(i as int));
            assert(p@.take(i + 1).last() == p@[i as int]);
        }
        acc = acc * 10 + (ch as u32 - '0' as u32);
        if acc > 65535 {
            proof {
                lemma_dec_val_prefix_le(p@, i + 1);
            }
            return None;
        }
        i = i + 1;
    }
    proof {
        assert(p@.take(n as int) =~= p@);
    }
    Some(acc as u16)
}

impl MultiserverAddress {
    /// Parse a multiserver address string into an address value, or
    /// reject it with the error of the first pipeline stage that fails.
    #[verifier::rlimit(30)]
    pub fn parse(input: &str) -> (r: Result<MultiserverAddress, Error>)
        ensures
            parse_post(input@, r),
    {
        let ghost s = input@;
        let n = input.unicode_len();
        if n < 4 {
            return Err(Error::Parse);
        }
        if !(input.get_char(0) == 'n' && input.get_char(1) == 'e' && input.get_char(2) == 't'
            && input.get_char(3) == ':') {
            return Err(Error::Parse);
        }
        let t = match find_first_char(input, '~') {
            Some(t) => t,
            None => {
                return Err(Error::Parse);
            },
        };
        proof {
            lemma_first_index(s, '~');
            assert(s[t as int] == '~');
            assert(t >= 4);
        }
        let left = input.substring_char(4, t);
        let right = input.substring_char(t + 1, n);
        proof {
            assert(left@ == left_part(s));
            assert(right@ == right_part(s));
        }
        let c = match find_last_char(left, ':') {
            Some(c) => c,
            None => {
                return Err(Error::Parse);
            },
        };
        if c == 0 {
            return Err(Error::Parse);
        }
        proof {
            lemma_last_index(left@, ':');
        }
        let left_n = left.unicode_len();
        let host = left.substring_char(0, c);
        let port_str = left.substring_char(c + 1, left_n);
        proof {
            assert(host@ == host_of(s));
            assert(port_str@ == port_digits_of(s));
        }
        if port_str.is_empty() {
            return Err(Error::Parse);
        }
        if !check_all_digits(port_str) {
            return Err(Error::Parse);
        }
        let k = match find_first_char(right, ':') {
            Some(k) => k,
            None => {
                return Err(Error::Parse);
            },
        };
        if k == 0 {
            return Err(Error::Parse);
        }
        proof {
            lemma_first_index(right@, ':');
        }
        let right_n = right.unicode_len();
        let scheme = right.substring_char(0, k);
        let payload = right.substring_char(k + 1, right_n);
        proof {
            assert(scheme@ == scheme_of(s));
            assert(payload@ == payload_of(s));
        }
        if !check_all_word_chars(scheme) {
            return Err(Error::Parse);
        }
        if payload.is_empty() {
            return Err(Error::Parse);
        }
        proof {
            assert(grammar_ok(s));
        }
        let endpoint = match classify_host(host) {
            Ok(at) => at,
            Err(e) => {
                return Err(e);
            },
        };
        let key_vec = match decode_base64(payload) {
            Some(v) => v,
            None => {
                return Err(Error::PubKeyNotBase64);
            },
        };
        let key_bytes = array_32_from_vec(key_vec);
        let port = match parse_port(port_str) {
            Some(p) => p,
            None => {
                return Err(Error::PortNotNumeric);
            },
        };
        Ok(
            MultiserverAddress {
                pub_key: Some(PublicKey { bytes: key_bytes }),
                port,
                address: endpoint,
            },
        )
    }
}

impl core::str::FromStr for MultiserverAddress {
    type Err = Error;

    /// Parse a multiserver address string; the standard-trait spelling of
    /// `MultiserverAddress::parse`, with the same contract.
    fn from_str(st: &str) -> (r: Result<MultiserverAddress, Error>)
        ensures
            parse_post(st@, r),
    {
        MultiserverAddress::parse(st)
    }
}

/// A host of the IPv6 shape is never of the IPv4 shape: its eight
/// colon-separated groups force a colon into the host, and no all-digit
/// dot-group can hold one.
pub proof fn lemma_ipv6_shape_not_ipv4_shape(h: Seq<char>)
    ensures
        ipv6_shape(h) ==> !ipv4_shape(h),
{
    if ipv6_shape(h) && ipv4_shape(h) {
        lemma_first_index(h, ':');
        if first_index(h, ':') < 0 {
            assert(split_on(h, ':').len() == 1);
        }
        let fi = first_index(h, ':');
        assert(h[fi] == ':');
        lemma_split_on_membership(h, '.');
        let (g, k): (int, int) = choose|g: int, k: int|
            0 <= g < split_on(h, '.').len() && 0 <= k < split_on(h, '.')[g].len() && #[trigger] split_on(
                h,
                '.',
            )[g][k] == h[fi];
        assert(all_digits(split_on(h, '.')[g]));
        assert(is_digit(':') == false);
    }
}

/// Two parsed addresses that agree field for field, comparing texts and
/// key bytes by content.
pub open spec fn same_address(a: MultiserverAddress, b: MultiserverAddress) -> bool {
    &&& a.port == b.port
    &&& match (a.pub_key, b.pub_key) {
        (Some(k1), Some(k2)) => k1.bytes@ == k2.bytes@,
        (None, None) => true,
        _ => false,
    }
    &&& match (a.address, b.address) {
        (AddressType::Ip(ip1), AddressType::Ip(ip2)) => ip1 == ip2,
        (AddressType::Url(u1), AddressType::Url(u2)) => u1@ == u2@,
        (AddressType::SocketFilePath(p1), AddressType::SocketFilePath(p2)) => p1@ == p2@,
        _ => false,
    }
}

/// Parsing is deterministic: the parse contract admits, for one input,
/// only one outcome — the same error, or structurally equal address
/// values. In particular parsing the same string twice yields equal
/// results.
pub proof fn lemma_parse_deterministic(
    s: Seq<char>,
    r1: Result<MultiserverAddress, Error>,
    r2: Result<MultiserverAddress, Error>,
)
    ensures
        parse_post(s, r1) && parse_post(s, r2) ==> {
            &&& r1 is Ok <==> r2 is Ok
            &&& r1 is Err ==> r1 == r2
            &&& r1 is Ok ==> same_address(r1.unwrap(), r2.unwrap())
        },
{
    if parse_post(s, r1) && parse_post(s, r2) && parse_err(s) is None {
        let a1 = r1.unwrap();
        let a2 = r2.unwrap();
        let h = host_of(s);
        if ipv4_shape(h) {
            let ip1 = a1.address->Ip_0;
            let ip2 = a2.address->Ip_0;
            assert(ip1->V4_octets =~= ip2->V4_octets);
        } else if ipv6_shape(h) {
            let ip1 = a1.address->Ip_0;
            let ip2 = a2.address->Ip_0;
            assert(ip1->V6_hextets =~= ip2->V6_hextets);
        }
    }
}

/// For every grammar-matching input whose host is a valid IPv4 literal,
/// whose key payload decodes as base64, and whose port fits 16 bits,
/// parsing succeeds and the endpoint is an IP host that is an IPv4
/// address.
pub proof fn lemma_ipv4_host_parses(s: Seq<char>, r: Result<MultiserverAddress, Error>)
    ensures
        (parse_post(s, r) && grammar_ok(s) && valid_ipv4(host_of(s)) && b64_decoded(payload_of(s))
            is Some && dec_val(port_digits_of(s)) <= 65535) ==> (r matches Ok(a) && (a.address
            matches AddressType::Ip(ip) && ip.spec_is_ipv4())),
{
}

/// For every grammar-matching input whose host is a valid IPv6 literal,
/// whose key payload decodes as base64, and whose port fits 16 bits,
/// parsing succeeds and the endpoint is an IP host that is an IPv6
/// address.
pub proof fn lemma_ipv6_host_parses(s: Seq<char>, r: Result<MultiserverAddress, Error>)
    ensures
        (parse_post(s, r) && grammar_ok(s) && valid_ipv6(host_of(s)) && b64_decoded(payload_of(s))
            is Some && dec_val(port_digits_of(s)) <= 65535) ==> (r matches Ok(a) && (a.address
            matches AddressType::Ip(ip) && ip.spec_is_ipv6())),
{
    lemma_ipv6_shape_not_ipv4_shape(host_of(s));
}

/// For every grammar-matching input whose host is neither of the IP
/// shapes and is accepted by the URL parser with the placeholder scheme
/// prefixed, and whose payload and port are good, parsing succeeds and
/// the endpoint is the prefixed domain host.
pub proof fn lemma_domain_host_parses(s: Seq<char>, r: Result<MultiserverAddress, Error>)
    ensures
        (parse_post(s, r) && grammar_ok(s) && !ipv4_shape(host_of(s)) && !ipv6_shape(host_of(s))
            && url_accepts(tcp_url_string(host_of(s))) && b64_decoded(payload_of(s)) is Some
            && dec_val(port_digits_of(s)) <= 65535) ==> (r matches Ok(a) && (a.address matches
            AddressType::Url(u) && u@ == tcp_url_string(host_of(s)))),
{
}

} // verus!
