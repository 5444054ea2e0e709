//! Addresses of peers.

use vstd::prelude::*;

use crate::bytes::{
    be_bytes, be_value, le_bytes, lemma_be_bytes_len, lemma_be_round_trip, lemma_span_values,
    push_be, push_le,
};

verus! {

/// The port of the Zcash main network.
pub const ZCASH_MAINNET_PORT: u16 = 8233;

/// The ports on which nodes of the Flux fork of Zcash answer.
pub const FLUX_PORT: u16 = 16125;

/// The second port on which nodes of the Flux fork of Zcash answer.
pub const FLUX_ALT_PORT: u16 = 26125;

/// The host part of an address, as the number that its octets spell.
#[derive(Debug, Clone, Copy, PartialEq, Eq, Structural)]
pub enum PeerIp {
    V4(u32),
    V6(u128),
}

/// The address of a peer: a host and a port. An IPv6 address also carries its
/// flow label and its scope.
#[derive(Debug, Clone, Copy, PartialEq, Eq, Structural)]
#[allow(inconsistent_fields)]
pub enum PeerAddr {
    V4 { host: u32, port: u16 },
    V6 { host: u128, port: u16, flow_info: u32, scope_id: u32 },
}

impl PeerAddr {
    pub open spec fn spec_ip(self) -> PeerIp {
        match self {
            PeerAddr::V4 { host, .. } => PeerIp::V4(host),
            PeerAddr::V6 { host, .. } => PeerIp::V6(host),
        }
    }

    pub open spec fn spec_port(self) -> u16 {
        match self {
            PeerAddr::V4 { port, .. } => port,
            PeerAddr::V6 { port, .. } => port,
        }
    }

    /// The IPv4 address `a.b.c.d:port`.
    pub fn v4(a: u8, b: u8, c: u8, d: u8, port: u16) -> (addr: PeerAddr)
        ensures
            addr == (PeerAddr::V4 {
                host: (a * 0x100_0000 + b * 0x1_0000 + c * 0x100 + d) as u32,
                port,
            }),
    {
        PeerAddr::V4 {
            host: a as u32 * 0x100_0000 + b as u32 * 0x1_0000 + c as u32 * 0x100 + d as u32,
            port,
        }
    }

    /// The host part.
    #[verifier::when_used_as_spec(spec_ip)]
    pub fn ip(self) -> (ip: PeerIp)
        ensures
            ip == self.spec_ip(),
    {
        match self {
            PeerAddr::V4 { host, .. } => PeerIp::V4(host),
            PeerAddr::V6 { host, .. } => PeerIp::V6(host),
        }
    }

    /// The port.
    #[verifier::when_used_as_spec(spec_port)]
    pub fn port(self) -> (port: u16)
        ensures
            port == self.spec_port(),
    {
        match self {
            PeerAddr::V4 { port, .. } => port,
            PeerAddr::V6 { port, .. } => port,
        }
    }
}

/// Which addresses the ingress will dial: those on the main network's port, and
/// with `accept_nonstandard_ports` those on any port that no fork of Zcash uses.
pub open spec fn accepted_peer_addr(addr: PeerAddr, accept_nonstandard_ports: bool) -> bool {
    ||| addr.port() == ZCASH_MAINNET_PORT
    ||| accept_nonstandard_ports && addr.port() != FLUX_PORT && addr.port() != FLUX_ALT_PORT
}

/// Whether the ingress will dial `addr`.
pub fn is_accepted_peer_addr(addr: &PeerAddr, accept_nonstandard_ports: bool) -> (accepted: bool)
    ensures
        accepted == accepted_peer_addr(*addr, accept_nonstandard_ports),
{
    let port: u16 = addr.port();
    port == ZCASH_MAINNET_PORT || (accept_nonstandard_ports && port != FLUX_PORT && port
        != FLUX_ALT_PORT)
}

/// The 16 octets of an IPv4 host written as an IPv4-mapped IPv6 host.
pub open spec fn mapped_v4_octets(host: u32) -> Seq<u8> {
    Seq::new(10, |i: int| 0u8) + seq![0xffu8, 0xffu8] + be_bytes(host as nat, 4)
}

/// The 16 octets of a host, IPv4 hosts mapped into IPv6.
pub open spec fn host_octets(ip: PeerIp) -> Seq<u8> {
    match ip {
        PeerIp::V4(host) => mapped_v4_octets(host),
        PeerIp::V6(host) => be_bytes(host as nat, 16),
    }
}

/// A network address inside a `version` message: no services, the host, the port.
pub open spec fn network_address_bytes(addr: PeerAddr) -> Seq<u8> {
    le_bytes(0, 8) + host_octets(addr.ip()) + be_bytes(addr.port() as nat, 2)
}

/// Appends the network address of `addr` as a `version` message holds it.
pub fn encode_network_address(addr: PeerAddr, out: &mut Vec<u8>)
    ensures
        final(out)@ == old(out)@ + network_address_bytes(addr),
{
    push_le(out, 0, 8);
    match addr.ip() {
        PeerIp::V4(host) => {
            let ghost services = out@;
            let mut i: usize = 0;
            while i < 10
                invariant
                    i <= 10,
                    out@ == services + Seq::new(i as nat, |j: int| 0u8),
                decreases 10 - i,
            {
                out.push(0);
                i = i + 1;
                assert(out@ =~= services + Seq::new(i as nat, |j: int| 0u8));
            }
            out.push(0xff);
            out.push(0xff);
            push_be(out, host as u128, 4);
            assert(out@ =~= services + mapped_v4_octets(host));
        },
        PeerIp::V6(host) => {
            push_be(out, host, 16);
        },
    }
    push_be(out, addr.port() as u128, 2);
    assert(out@ =~= old(out)@ + network_address_bytes(addr));
}

/// The 16 octets of a host on the wire: for IPv6 its number, most significant first; for
/// IPv4 ten zeros, two octets of all ones and the four of its number.
pub proof fn law_host_octets(host: u32, long: u128)
    ensures
        host_octets(PeerIp::V6(long)).len() == 16,
        be_value(host_octets(PeerIp::V6(long))) == long,
        ({
            let s = host_octets(PeerIp::V4(host));
            &&& s.len() == 16
            &&& forall|i: int| 0 <= i < 10 ==> #[trigger] s[i] == 0
            &&& s[10] == 0xff && s[11] == 0xff
            &&& be_value(s.subrange(12, 16)) == host
        }),
{
    lemma_span_values();
    lemma_be_bytes_len(long as nat, 16);
    lemma_be_round_trip(long as nat, 16);
    lemma_be_bytes_len(host as nat, 4);
    lemma_be_round_trip(host as nat, 4);
    assert(host_octets(PeerIp::V4(host)).subrange(12, 16) =~= be_bytes(host as nat, 4));
}

/// Which addresses are dialled: those on port 8233, and where other ports are accepted
/// those on any port but 16125 and 26125, of either kind of host.
pub proof fn law_accepted_ports(host: u32, long: u128, port: u16, flow_info: u32, scope_id: u32)
    ensures
        ({
            let short = PeerAddr::V4 { host, port };
            let long = PeerAddr::V6 { host: long, port, flow_info, scope_id };
            &&& accepted_peer_addr(short, false) <==> port == 8233
            &&& accepted_peer_addr(long, false) <==> port == 8233
            &&& accepted_peer_addr(short, true) <==> port != 16125 && port != 26125
            &&& accepted_peer_addr(long, true) <==> port != 16125 && port != 26125
        }),
{
}

} // verus!
