//! The VPN server: tunnel addresses handed out in order, the WireGuard
//! configuration it writes, and what it answers on each request.

use vstd::prelude::*;
use crate::cql::{select_public_key_query, select_public_key_text, update_tunnel_query, update_tunnel_text};
use crate::request::{decide_request, invalid_id_reply, requested_id, RequestDecision};
use crate::number::{decimal, decimal_chars, is_digit, lemma_decimal};
use crate::text::{append_chars, chars_of, string_of};

verus! {

/// The counter value that the first tunnel address is made from.
pub const FIRST_HOST: u32 = 2;

/// The tunnel address made from the counter value `c`: `100.64.` then the
/// second-lowest byte of `c`, a dot, and its lowest byte, in decimal.
pub open spec fn tunnel_address(c: nat) -> Seq<char> {
    "100.64."@ + decimal((c / 256) % 256) + "."@ + decimal(c % 256)
}

/// Hands out tunnel addresses from a counter that goes up by one per address.
pub struct IpAllocator {
    counter: u32,
}

impl View for IpAllocator {
    type V = nat;

    /// The counter value that the next address is made from.
    closed spec fn view(&self) -> nat {
        self.counter as nat
    }
}

impl IpAllocator {
    /// An allocator whose first address is `100.64.0.2`.
    pub fn new() -> (a: IpAllocator)
        ensures
            a@ == FIRST_HOST,
    {
        IpAllocator { counter: FIRST_HOST }
    }

    /// Whether another address can be handed out before the counter would
    /// pass `u32::MAX`.
    pub fn can_allocate(&self) -> (b: bool)
        ensures
            b == (self@ < u32::MAX),
    {
        self.counter < u32::MAX
    }

    /// The address for the current counter value; the counter then goes up by one.
    pub fn allocate_ip_address(&mut self) -> (ip: String)
        requires
            old(self)@ < u32::MAX,
        ensures
            ip@ == tunnel_address(old(self)@),
            final(self)@ == old(self)@ + 1,
    {
        let c = self.counter;
        let hi: u32 = (c >> 8) & 0xFF;
        let lo: u32 = c & 0xFF;
        assert(hi == (c / 256) % 256 && lo == c % 256) by (bit_vector)
            requires
                hi == (c >> 8) & 0xFF,
                lo == c & 0xFF,
        ;
        let mut v = chars_of("100.64.");
        append_chars(&mut v, decimal_chars(hi as usize).as_slice());
        append_chars(&mut v, chars_of(".").as_slice());
        append_chars(&mut v, decimal_chars(lo as usize).as_slice());
        self.counter = c + 1;
        string_of(v.as_slice())
    }
}

proof fn lemma_decimal_no_dot(n: nat)
    ensures
        forall|i: int| 0 <= i < decimal(n).len() ==> #[trigger] decimal(n)[i] != '.',
{
    lemma_decimal(n);
    assert forall|i: int| 0 <= i < decimal(n).len() implies #[trigger] decimal(n)[i] != '.' by {
        assert(is_digit(decimal(n)[i]));
    }
}

proof fn lemma_dotted_pair_injective(a: nat, b: nat, c: nat, d: nat)
    requires
        decimal(a) + "."@ + decimal(b) == decimal(c) + "."@ + decimal(d),
    ensures
        a == c,
        b == d,
{
    reveal_strlit(".");
    lemma_decimal_no_dot(a);
    lemma_decimal_no_dot(c);
    lemma_decimal(a);
    lemma_decimal(b);
    lemma_decimal(c);
    lemma_decimal(d);
    let x = decimal(a) + "."@ + decimal(b);
    let y = decimal(c) + "."@ + decimal(d);
    let la = decimal(a).len() as int;
    let lc = decimal(c).len() as int;
    if la < lc {
        assert(x[la] == '.');
        assert(y[la] == decimal(c)[la]);
    } else if lc < la {
        assert(y[lc] == '.');
        assert(x[lc] == decimal(a)[lc]);
    }
    assert(decimal(a) =~= x.take(la));
    assert(decimal(c) =~= y.take(lc));
    assert(decimal(b) =~= x.skip(la + 1));
    assert(decimal(d) =~= y.skip(lc + 1));
}

/// Two counter values below 65536 that differ give different addresses, so
/// the first 65534 addresses that an allocator hands out are all distinct.
pub proof fn tunnel_addresses_distinct(c1: nat, c2: nat)
    requires
        c1 < 65536,
        c2 < 65536,
        c1 != c2,
    ensures
        tunnel_address(c1) != tunnel_address(c2),
{
    reveal_strlit("100.64.");
    let p = "100.64."@;
    if tunnel_address(c1) == tunnel_address(c2) {
        let r1 = decimal((c1 / 256) % 256) + "."@ + decimal(c1 % 256);
        let r2 = decimal((c2 / 256) % 256) + "."@ + decimal(c2 % 256);
        assert(tunnel_address(c1) =~= p + r1);
        assert(tunnel_address(c2) =~= p + r2);
        assert(r1 =~= tunnel_address(c1).skip(7));
        assert(r2 =~= tunnel_address(c2).skip(7));
        lemma_dotted_pair_injective((c1 / 256) % 256, c1 % 256, (c2 / 256) % 256, c2 % 256);
        assert(c1 == (c1 / 256) * 256 + c1 % 256);
        assert(c2 == (c2 / 256) * 256 + c2 % 256);
    }
}


/// The server's own address inside the tunnel.
pub open spec fn server_tunnel_ip() -> Seq<char> {
    "100.64.0.1"@
}

/// The server's own address inside the tunnel.
pub fn server_tunnel_address() -> (ip: String)
    ensures
        ip@ == server_tunnel_ip(),
{
    string_of(chars_of("100.64.0.1").as_slice())
}

/// The `[Interface]` section that the WireGuard configuration file starts with.
pub open spec fn interface_config_text(private_key: Seq<char>) -> Seq<char> {
    "[Interface]\nAddress = 100.64.0.1/10\nListenPort = 51820\nPrivateKey = "@ + private_key + "\n"@
}

/// The `[Interface]` section that the WireGuard configuration file starts with.
pub fn wg_interface_config(private_key: &str) -> (text: String)
    ensures
        text@ == interface_config_text(private_key@),
{
    let mut v = chars_of("[Interface]\nAddress = 100.64.0.1/10\nListenPort = 51820\nPrivateKey = ");
    append_chars(&mut v, chars_of(private_key).as_slice());
    append_chars(&mut v, chars_of("\n").as_slice());
    string_of(v.as_slice())
}

/// The `[Peer]` section for a client, preceded by a blank line.
pub open spec fn peer_entry_text(public_key: Seq<char>, client_ip: Seq<char>) -> Seq<char> {
    "\n[Peer]\nPublicKey = "@ + public_key + "\nAllowedIPs = "@ + client_ip + "/32\n"@
}

/// The configuration with the client's `[Peer]` section appended.
pub fn append_peer_entry(config: &str, public_key: &str, client_ip: &str) -> (text: String)
    ensures
        text@ == config@ + peer_entry_text(public_key@, client_ip@),
{
    let mut v = chars_of(config);
    append_chars(&mut v, chars_of("\n[Peer]\nPublicKey = ").as_slice());
    append_chars(&mut v, chars_of(public_key).as_slice());
    append_chars(&mut v, chars_of("\nAllowedIPs = ").as_slice());
    append_chars(&mut v, chars_of(client_ip).as_slice());
    append_chars(&mut v, chars_of("/32\n").as_slice());
    string_of(v.as_slice())
}

/// The address range that a peer may use: its one address.
pub open spec fn host_range(client_ip: Seq<char>) -> Seq<char> {
    client_ip + "/32"@
}

/// The command line that adds a peer to the `wg0` interface, as program and
/// arguments: `wg set wg0 peer <key> allowed-ips <ip>/32`, run through `sudo`
/// where asked.
pub fn wg_set_peer_command(public_key: &str, client_ip: &str, with_sudo: bool) -> (argv: Vec<String>)
    ensures
        with_sudo ==> argv@.len() == 8 && argv@[0]@ == "sudo"@ && argv@[1]@ == "wg"@
            && argv@[2]@ == "set"@ && argv@[3]@ == "wg0"@ && argv@[4]@ == "peer"@
            && argv@[5]@ == public_key@ && argv@[6]@ == "allowed-ips"@
            && argv@[7]@ == host_range(client_ip@),
        !with_sudo ==> argv@.len() == 7 && argv@[0]@ == "wg"@ && argv@[1]@ == "set"@
            && argv@[2]@ == "wg0"@ && argv@[3]@ == "peer"@ && argv@[4]@ == public_key@
            && argv@[5]@ == "allowed-ips"@ && argv@[6]@ == host_range(client_ip@),
{
    let mut argv: Vec<String> = Vec::new();
    if with_sudo {
        argv.push(string_of(chars_of("sudo").as_slice()));
    }
    argv.push(string_of(chars_of("wg").as_slice()));
    argv.push(string_of(chars_of("set").as_slice()));
    argv.push(string_of(chars_of("wg0").as_slice()));
    argv.push(string_of(chars_of("peer").as_slice()));
    argv.push(string_of(chars_of(public_key).as_slice()));
    argv.push(string_of(chars_of("allowed-ips").as_slice()));
    let mut range = chars_of(client_ip);
    append_chars(&mut range, chars_of("/32").as_slice());
    argv.push(string_of(range.as_slice()));
    argv
}

/// The command line that adds a peer with its range written into one
/// argument: `wg set wg0 peer <key> allowed-ips=<ip>/32`.
pub fn wg_set_peer_command_joined(public_key: &str, client_ip: &str) -> (argv: Vec<String>)
    ensures
        argv@.len() == 6 && argv@[0]@ == "wg"@ && argv@[1]@ == "set"@ && argv@[2]@ == "wg0"@
            && argv@[3]@ == "peer"@ && argv@[4]@ == public_key@
            && argv@[5]@ == "allowed-ips="@ + host_range(client_ip@),
{
    let mut argv: Vec<String> = Vec::new();
    argv.push(string_of(chars_of("wg").as_slice()));
    argv.push(string_of(chars_of("set").as_slice()));
    argv.push(string_of(chars_of("wg0").as_slice()));
    argv.push(string_of(chars_of("peer").as_slice()));
    argv.push(string_of(chars_of(public_key).as_slice()));
    let mut range = chars_of("allowed-ips=");
    append_chars(&mut range, chars_of(client_ip).as_slice());
    append_chars(&mut range, chars_of("/32").as_slice());
    argv.push(string_of(range.as_slice()));
    argv
}

/// The keys and fixed addresses that a direct tunnel request answers with.
pub struct TunnelConfig {
    pub client_priv_key: String,
    pub client_pub_key: String,
    pub server_pub_key: String,
    pub client_ip: String,
    pub server_ip: String,
}

/// The answer to a direct tunnel request: the generated keys, the client at
/// 10.0.0.2 and the server at 10.0.0.1.
pub fn new_tunnel_config(client_priv_key: String, client_pub_key: String, server_pub_key: String) -> (c: TunnelConfig)
    ensures
        c.client_priv_key == client_priv_key,
        c.client_pub_key == client_pub_key,
        c.server_pub_key == server_pub_key,
        c.client_ip@ == "10.0.0.2"@,
        c.server_ip@ == "10.0.0.1"@,
{
    TunnelConfig {
        client_priv_key,
        client_pub_key,
        server_pub_key,
        client_ip: string_of(chars_of("10.0.0.2").as_slice()),
        server_ip: string_of(chars_of("10.0.0.1").as_slice()),
    }
}

/// The answer when the customer's key cannot be read.
pub open spec fn key_error_reply() -> Seq<char> {
    "Error retrieving public key"@
}

/// The answer when the tunnel cannot be stored.
pub open spec fn store_error_reply() -> Seq<char> {
    "Error saving tunnel data"@
}

/// The answer when the peer cannot be added to WireGuard.
pub open spec fn peer_error_reply() -> Seq<char> {
    "Error adding peer to config"@
}

/// Where a tunnel request stands.
#[derive(Debug, PartialEq, Eq)]
pub enum VpnState {
    /// Waiting for a message.
    Idle,
    /// The key of this customer is being read.
    ReadingKey(usize),
    /// The server's key is being computed for this customer with this key.
    Keying(usize, String),
    /// The tunnel of the client with this key and address is being stored.
    Storing(String, String),
    /// The peer is being added.
    Peering,
}

/// What the outside world reports to a tunnel request.
pub enum VpnEvent {
    /// A message arrived.
    Text(String),
    /// The customer's key was read, or could not be.
    KeyRead(Option<String>),
    /// The server's public key.
    ServerKey(String),
    /// The tunnel was stored, or not.
    Stored(bool),
    /// The peer was added, or not.
    PeerAdded(bool),
}

/// What a tunnel request asks the outside world to do next.
#[derive(Debug, PartialEq, Eq)]
pub enum VpnAction {
    /// Run this statement, which reads the customer's key.
    ReadKey(String),
    /// Compute the server's public key.
    ComputeServerKey,
    /// Run this statement, which stores the tunnel.
    StoreTunnel(String),
    /// Answer with the store failure first where `store_failed` holds, then add
    /// the client with this key and address as a peer.
    AddPeer { public_key: String, client_ip: String, store_failed: bool },
    /// Answer with this text.
    Reply(String),
    /// Nothing: the message is ignored, the request ended well, or the event
    /// does not fit the state.
    Nothing,
}

/// The VPN server's handling of tunnel requests.
pub struct VpnFlow {
    /// Hands out the client addresses; shared by all requests.
    pub allocator: IpAllocator,
    /// Whether a message that is not a customer number gets an answer.
    pub answer_invalid: bool,
    pub state: VpnState,
}

impl VpnFlow {
    /// A flow that hands out addresses from `100.64.0.2` on.
    pub fn new(answer_invalid: bool) -> (f: VpnFlow)
        ensures
            f.allocator@ == FIRST_HOST,
            f.answer_invalid == answer_invalid,
            f.state == VpnState::Idle,
    {
        VpnFlow { allocator: IpAllocator::new(), answer_invalid, state: VpnState::Idle }
    }

    /// The step for one event. A positive customer number starts a request:
    /// its key is read, the server's key computed, the next client address
    /// taken, the tunnel stored, and the client added as a peer. A failed key
    /// read ends the request with an answer; a failed store is answered, and
    /// the peer is still added; a failed peer addition is answered.
    pub fn step(&mut self, event: VpnEvent) -> (a: VpnAction)
        requires
            (old(self).state is Keying && event is ServerKey) ==> old(self).allocator@ < u32::MAX,
        ensures
            final(self).answer_invalid == old(self).answer_invalid,
            match (old(self).state, event) {
                (VpnState::Idle, VpnEvent::Text(text)) => {
                    let id = requested_id(text@);
                    &&& id > 0 ==> (a matches VpnAction::ReadKey(q) && q@ == select_public_key_text(id)
                        && final(self).state == VpnState::ReadingKey(id as usize))
                    &&& id == 0 && old(self).answer_invalid ==> (a matches VpnAction::Reply(r) && r@
                        == invalid_id_reply() && final(self).state == VpnState::Idle)
                    &&& id == 0 && !old(self).answer_invalid ==> (a == VpnAction::Nothing
                        && final(self).state == VpnState::Idle)
                    &&& final(self).allocator@ == old(self).allocator@
                },
                (VpnState::ReadingKey(id), VpnEvent::KeyRead(key)) => {
                    &&& key matches Some(k) ==> (a == VpnAction::ComputeServerKey && final(self).state
                        == VpnState::Keying(id, k))
                    &&& key is None ==> (a matches VpnAction::Reply(r) && r@ == key_error_reply()
                        && final(self).state == VpnState::Idle)
                    &&& final(self).allocator@ == old(self).allocator@
                },
                (VpnState::Keying(id, client_key), VpnEvent::ServerKey(server_key)) => {
                    &&& a matches VpnAction::StoreTunnel(q) && q@ == update_tunnel_text(
                        id as nat,
                        server_key@,
                        client_key@,
                        tunnel_address(old(self).allocator@),
                        server_tunnel_ip(),
                    )
                    &&& final(self).state matches VpnState::Storing(k, ip) && k == client_key && ip@
                        == tunnel_address(old(self).allocator@)
                    &&& final(self).allocator@ == old(self).allocator@ + 1
                },
                (VpnState::Storing(k, ip), VpnEvent::Stored(ok)) => {
                    &&& a == VpnAction::AddPeer { public_key: k, client_ip: ip, store_failed: !ok }
                    &&& final(self).state == VpnState::Peering
                    &&& final(self).allocator@ == old(self).allocator@
                },
                (VpnState::Peering, VpnEvent::PeerAdded(ok)) => {
                    &&& ok ==> a == VpnAction::Nothing
                    &&& !ok ==> (a matches VpnAction::Reply(r) && r@ == peer_error_reply())
                    &&& final(self).state == VpnState::Idle
                    &&& final(self).allocator@ == old(self).allocator@
                },
                _ => a == VpnAction::Nothing && final(self).state == old(self).state
                    && final(self).allocator@ == old(self).allocator@,
            },
    {
        match (&self.state, event) {
            (VpnState::Idle, VpnEvent::Text(text)) => match decide_request(text.as_str(), self.answer_invalid) {
                RequestDecision::Accept(id) => {
                    self.state = VpnState::ReadingKey(id);
                    VpnAction::ReadKey(select_public_key_query(id))
                },
                RequestDecision::Reply(r) => VpnAction::Reply(r),
                RequestDecision::Ignore => VpnAction::Nothing,
            },
            (VpnState::ReadingKey(id), VpnEvent::KeyRead(key)) => {
                let id = *id;
                match key {
                    Some(k) => {
                        self.state = VpnState::Keying(id, k);
                        VpnAction::ComputeServerKey
                    },
                    None => {
                        self.state = VpnState::Idle;
                        VpnAction::Reply(string_of(chars_of("Error retrieving public key").as_slice()))
                    },
                }
            },
            (VpnState::Keying(id, client_key), VpnEvent::ServerKey(server_key)) => {
                let id = *id;
                let client_key = client_key.clone();
                let client_ip = self.allocator.allocate_ip_address();
                let server_ip = server_tunnel_address();
                let q = update_tunnel_query(
                    id,
                    server_key.as_str(),
                    client_key.as_str(),
                    client_ip.as_str(),
                    server_ip.as_str(),
                );
                self.state = VpnState::Storing(client_key, client_ip);
                VpnAction::StoreTunnel(q)
            },
            (VpnState::Storing(k, ip), VpnEvent::Stored(ok)) => {
                let a = VpnAction::AddPeer { public_key: k.clone(), client_ip: ip.clone(), store_failed: !ok };
                self.state = VpnState::Peering;
                a
            },
            (VpnState::Peering, VpnEvent::PeerAdded(ok)) => {
                self.state = VpnState::Idle;
                if ok {
                    VpnAction::Nothing
                } else {
                    VpnAction::Reply(string_of(chars_of("Error adding peer to config").as_slice()))
                }
            },
            _ => VpnAction::Nothing,
        }
    }
}

/// The answer when a peer addition's store step failed.
pub fn store_error_text() -> (r: String)
    ensures
        r@ == store_error_reply(),
{
    string_of(chars_of("Error saving tunnel data").as_slice())
}

/// The `n`-th address that a fresh allocator hands out is made from the
/// counter value `n + 1`: `100.64.` then `((n + 1) >> 8) & 0xFF`, a dot, and
/// `(n + 1) & 0xFF`, in decimal.
pub proof fn nth_allocation(n: u32)
    requires
        1 <= n < u32::MAX - 1,
    ensures
        FIRST_HOST + (n - 1) == n + 1,
        tunnel_address((n + 1) as nat) == "100.64."@ + decimal(((((n + 1) as u32) >> 8u32) & 0xFFu32) as nat)
            + "."@ + decimal((((n + 1) as u32) & 0xFFu32) as nat),
{
    let c: u32 = (n + 1) as u32;
    let hi: u32 = (c >> 8u32) & 0xFFu32;
    let lo: u32 = c & 0xFFu32;
    assert(hi == (c / 256) % 256 && lo == c % 256) by (bit_vector)
        requires
            hi == (c >> 8u32) & 0xFFu32,
            lo == c & 0xFFu32,
    ;
}

/// No address that an allocator hands out from a counter value between 2
/// and 65535 is the server's own tunnel address, `100.64.0.1`.
pub proof fn allocations_avoid_server_address(c: nat)
    requires
        2 <= c < 65536,
    ensures
        tunnel_address(c) != server_tunnel_ip(),
{
    reveal_strlit("100.64.0.1");
    reveal_strlit("100.64.");
    reveal_strlit(".");
    assert(decimal(0) == seq!['0']);
    assert(decimal(1) == seq!['1']);
    assert(tunnel_address(1) =~= server_tunnel_ip());
    tunnel_addresses_distinct(c, 1);
}

} // verus!
