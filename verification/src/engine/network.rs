//! Where compostbin puts a guest on the NAT network.
//!
//! Virtualization.framework's built-in NAT hands out no leases (the guest
//! agent sets its address directly), so something has to allocate, and that is
//! compostbin's choice rather than the framework's.
use crate::text;
use vstd::prelude::*;

verus! {

/// Gateway of Virtualization.framework's built-in NAT (macOS shared networking).
///
/// Not vmnet: that needs privileges, hence a privileged helper. NAT needs only
/// the virtualization entitlement.
pub const GATEWAY: &'static str = "192.168.64.1";

/// The gateway's network, without the host octet.
const NETWORK: &'static str = "192.168.64.";

/// The length of the network's prefix.
const PREFIX: &'static str = "/24";

/// `.1` is the gateway and `.255` the broadcast; guests live between these.
pub const FIRST_HOST: u64 = 2;

pub const LAST_HOST: u64 = 250;

/// The guest's only network interface: its address as CIDR, and the gateway.
#[derive(Debug, PartialEq, Eq)]
pub struct Network {
    pub ipv4_address: String,
    pub ipv4_gateway: String,
}

/// A `Network`, its texts as sequences of characters.
#[verifier::ext_equal]
pub struct NetworkView {
    pub ipv4_address: Seq<char>,
    pub ipv4_gateway: Seq<char>,
}

impl View for Network {
    type V = NetworkView;

    open spec fn view(&self) -> NetworkView {
        NetworkView { ipv4_address: self.ipv4_address@, ipv4_gateway: self.ipv4_gateway@ }
    }
}

/// The FNV-1a hash of some bytes.
pub open spec fn fnv(bytes: Seq<u8>) -> u64
    decreases bytes.len(),
{
    if bytes.len() == 0 {
        0xcbf2_9ce4_8422_2325
    } else {
        (fnv(bytes.drop_last()) ^ (bytes.last() as u64)).wrapping_mul(0x0000_0100_0000_01b3)
    }
}

/// The host octet of a session's guest: one of those between the gateway and
/// the broadcast address, chosen by the hash of the session's name.
pub open spec fn host_octet(name: Seq<char>) -> nat {
    (FIRST_HOST + fnv(text::utf8(name)) as nat % ((LAST_HOST - FIRST_HOST + 1) as nat)) as nat
}

/// The network a session's guest joins.
pub open spec fn network_of(name: Seq<char>) -> NetworkView {
    NetworkView {
        ipv4_address: "192.168.64."@ + text::decimal(host_octet(name)) + "/24"@,
        ipv4_gateway: "192.168.64.1"@,
    }
}

/// The network a session's guest joins.
///
/// Static because the interface requires an address up front. Hashed from the
/// session name: stable per session, distinct between most concurrent sessions.
///
/// Collisions with other hosts on the shared network go undetected.
pub fn network(name: &str) -> (r: Network)
    ensures
        r@ == network_of(name@),
{
    Network { ipv4_address: address(name), ipv4_gateway: GATEWAY.to_string() }
}

fn address(name: &str) -> (r: String)
    ensures
        r@ == network_of(name@).ipv4_address,
{
    let bytes = name.as_bytes();
    let mut hash: u64 = 0xcbf2_9ce4_8422_2325;
    let mut i: usize = 0;
    while i < bytes.len()
        invariant
            i <= bytes@.len(),
            hash == fnv(bytes@.take(i as int)),
        decreases bytes.len() - i,
    {
        hash = hash ^ (bytes[i] as u64);
        hash = hash.wrapping_mul(0x0000_0100_0000_01b3);
        assert(bytes@.take(i + 1).drop_last() =~= bytes@.take(i as int));
        assert(bytes@.take(i + 1).last() == bytes@[i as int]);
        i = i + 1;
    }
    assert(bytes@.take(i as int) =~= bytes@);
    let host: u64 = FIRST_HOST + hash % (LAST_HOST - FIRST_HOST + 1);
    let mut out = NETWORK.to_string();
    out.append(text::decimal_text(host as u128).as_str());
    out.append(PREFIX);
    out
}

/// Every guest's address avoids the gateway and the broadcast address.
pub proof fn law_addresses_stay_between_gateway_and_broadcast(name: Seq<char>)
    ensures
        FIRST_HOST <= host_octet(name) <= LAST_HOST,
{
}

/// A guest's address is one of the gateway's network, above the gateway's own and
/// below the broadcast address.
pub proof fn law_a_guest_joins_the_gateways_network(name: Seq<char>)
    ensures
        network_of(name).ipv4_gateway == "192.168.64.1"@,
        exists|octet: nat|
            2 <= octet <= 250 && network_of(name).ipv4_address == "192.168.64."@
                + #[trigger] text::decimal(octet) + "/24"@,
{
    let octet = host_octet(name);
    assert(network_of(name).ipv4_address == "192.168.64."@ + text::decimal(octet) + "/24"@);
}

/// The hash takes in every byte in turn: it begins at the offset basis, and each
/// byte is mixed in and multiplied by the prime.
pub proof fn law_every_byte_is_hashed(bytes: Seq<u8>, byte: u8)
    ensures
        fnv(Seq::empty()) == 14695981039346656037,
        fnv(bytes.push(byte)) == (fnv(bytes) ^ (byte as u64)).wrapping_mul(1099511628211),
{
    assert(bytes.push(byte).drop_last() =~= bytes);
}

/// A session's host octet is fixed by the hash of its name alone, over all the octets
/// that guests may have.
pub proof fn law_the_name_fixes_the_address(name: Seq<char>)
    ensures
        host_octet(name) == 2 + fnv(text::utf8(name)) % 249,
{
}

} // verus!
