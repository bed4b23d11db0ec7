//! The proxy server: where it reaches HAProxy, the commands it sends there,
//! and what it answers on each subdomain request.

use vstd::prelude::*;
use crate::cql::{
    select_virtual_ips_query, select_virtual_ips_text, update_subdomain_query, update_subdomain_text,
};
use crate::haproxy::backend_name;
use crate::request::{decide_request, invalid_id_reply, requested_id, RequestDecision};
use crate::retry::{after_check, RetryStep, MAX_ATTEMPTS};
use crate::text::{append_chars, chars_of, replace_char_chars, same_chars, string_of};

verus! {

/// The domain that the proxy server's subdomains live under.
pub open spec fn proxy_domain() -> Seq<char> {
    "otdm.dev"@
}

/// The domain that the composed deployment's subdomains live under.
pub open spec fn compose_domain() -> Seq<char> {
    "otdma.net"@
}

/// The domain that the proxy server's subdomains live under.
pub fn proxy_domain_name() -> (d: &'static str)
    ensures
        d@ == proxy_domain(),
{
    "otdm.dev"
}

/// The domain that the composed deployment's subdomains live under.
pub fn compose_domain_name() -> (d: &'static str)
    ensures
        d@ == compose_domain(),
{
    "otdma.net"
}

/// Where HAProxy's runtime interface listens.
pub struct HAProxyConfig {
    pub ip: &'static str,
    pub port: u16,
}

impl HAProxyConfig {
    /// The runtime interface at 10.0.10.31, port 9999.
    pub fn new() -> (c: HAProxyConfig)
        ensures
            c.ip@ == "10.0.10.31"@,
            c.port == 9999,
    {
        HAProxyConfig { ip: "10.0.10.31", port: 9999 }
    }
}

/// The runtime command that adds the subdomain's server.
pub open spec fn add_server_text(subdomain: Seq<char>, client_ip: Seq<char>) -> Seq<char> {
    "add server backend_"@ + backend_name(subdomain) + " "@ + client_ip + ":80 check\n"@
}

/// The runtime command that adds the subdomain's server: `add server
/// backend_<name> <ip>:80 check`, with every `.` of the subdomain written as `_`.
pub fn add_server_command(subdomain: &str, client_ip: &str) -> (cmd: String)
    ensures
        cmd@ == add_server_text(subdomain@, client_ip@),
{
    let mut v = chars_of("add server backend_");
    let name = replace_char_chars(chars_of(subdomain).as_slice(), '.', '_');
    append_chars(&mut v, name.as_slice());
    append_chars(&mut v, chars_of(" ").as_slice());
    append_chars(&mut v, chars_of(client_ip).as_slice());
    append_chars(&mut v, chars_of(":80 check\n").as_slice());
    string_of(v.as_slice())
}

/// The runtime command that reloads HAProxy.
pub fn reload_command() -> (cmd: String)
    ensures
        cmd@ == "reload\n"@,
{
    string_of(chars_of("reload\n").as_slice())
}

/// Whether both tunnel addresses have been filled in (neither reads `null`).
pub fn virtual_ips_ready(client_ip: &str, server_ip: &str) -> (b: bool)
    ensures
        b == (client_ip@ != "null"@ && server_ip@ != "null"@),
{
    let null = chars_of("null");
    !same_chars(chars_of(client_ip).as_slice(), null.as_slice()) && !same_chars(
        chars_of(server_ip).as_slice(),
        null.as_slice(),
    )
}

/// The answer when the addresses never appear in the database.
pub open spec fn no_addresses_reply() -> Seq<char> {
    "Error retrieving IPs from DB"@
}

/// The answer when the subdomain cannot be made or added to HAProxy.
pub open spec fn subdomain_failed_reply() -> Seq<char> {
    "Error generating and adding subdomain"@
}

/// The answer when the subdomain cannot be stored in the database.
pub open spec fn store_failed_reply() -> Seq<char> {
    "Error inserting subdomain to DB"@
}

/// The answer when the subdomain was made and stored.
pub open spec fn done_reply(subdomain: Seq<char>, client_ip: Seq<char>, server_ip: Seq<char>) -> Seq<char> {
    "Subdomain: "@ + subdomain + ", Client IP: "@ + client_ip + ", Server IP: "@ + server_ip
}

/// The answer when the subdomain was made and stored.
fn done_reply_text(subdomain: &str, client_ip: &str, server_ip: &str) -> (r: String)
    ensures
        r@ == done_reply(subdomain@, client_ip@, server_ip@),
{
    let mut v = chars_of("Subdomain: ");
    append_chars(&mut v, chars_of(subdomain).as_slice());
    append_chars(&mut v, chars_of(", Client IP: ").as_slice());
    append_chars(&mut v, chars_of(client_ip).as_slice());
    append_chars(&mut v, chars_of(", Server IP: ").as_slice());
    append_chars(&mut v, chars_of(server_ip).as_slice());
    string_of(v.as_slice())
}

/// Where a subdomain request stands.
#[derive(Debug, PartialEq, Eq)]
pub enum ProxyState {
    /// Waiting for a message.
    Idle,
    /// The addresses of this customer have been read this many times.
    Waiting(usize, u32),
    /// A subdomain is being made for this customer, client address and server address.
    Making(usize, String, String),
    /// This subdomain is being stored for this customer, with the two addresses.
    Storing(usize, String, String, String),
}

/// What the outside world reports to a subdomain request.
pub enum ProxyEvent {
    /// A message arrived.
    Text(String),
    /// The two addresses were read, or could not be.
    AddressesRead(Option<(String, String)>),
    /// The subdomain was made and added to HAProxy, or not.
    SubdomainMade(Option<String>),
    /// The subdomain was stored, or not.
    Stored(bool),
}

/// What a subdomain request asks the outside world to do next.
#[derive(Debug, PartialEq, Eq)]
pub enum ProxyAction {
    /// Run this statement, which reads the two addresses, after pausing first
    /// where `.0` holds.
    ReadAddresses(bool, String),
    /// Make the next subdomain and route it to this client address.
    MakeSubdomain(String),
    /// Run this statement, which stores the subdomain.
    StoreSubdomain(String),
    /// Answer with this text.
    Reply(String),
    /// Pause, then answer with this text.
    PauseThenReply(String),
    /// Nothing: the message is ignored or the event does not fit the state.
    Nothing,
}

/// The proxy server's handling of one connection.
pub struct ProxyFlow {
    pub state: ProxyState,
    /// Whether a message that is not a customer number gets an answer.
    pub answer_invalid: bool,
}

/// Whether an address read is there and neither address reads `null`.
pub open spec fn addresses_ready(r: Option<(String, String)>) -> bool {
    r matches Some((c, s)) && c@ != "null"@ && s@ != "null"@
}

impl ProxyFlow {
    /// A connection waiting for its first message.
    pub fn new(answer_invalid: bool) -> (f: ProxyFlow)
        ensures
            f.state == ProxyState::Idle,
            f.answer_invalid == answer_invalid,
    {
        ProxyFlow { state: ProxyState::Idle, answer_invalid }
    }

    /// The step for one event. A positive customer number starts a request:
    /// the addresses are read until both are filled in, at most
    /// `MAX_ATTEMPTS` times with a pause before each new read; then a
    /// subdomain is made for the client address and stored; every ending is
    /// answered. No subdomain is made without both addresses.
    pub fn step(&mut self, event: ProxyEvent) -> (a: ProxyAction)
        requires
            old(self).state matches ProxyState::Waiting(_, n) ==> 1 <= n <= MAX_ATTEMPTS,
        ensures
            final(self).state matches ProxyState::Waiting(_, n) ==> 1 <= n <= MAX_ATTEMPTS,
            final(self).answer_invalid == old(self).answer_invalid,
            match (old(self).state, event) {
                (ProxyState::Idle, ProxyEvent::Text(text)) => {
                    let id = requested_id(text@);
                    &&& id > 0 ==> (a matches ProxyAction::ReadAddresses(pause, q) && !pause && q@
                        == select_virtual_ips_text(id) && final(self).state == ProxyState::Waiting(
                        id as usize,
                        1,
                    ))
                    &&& id == 0 && old(self).answer_invalid ==> (a matches ProxyAction::Reply(r) && r@
                        == invalid_id_reply() && final(self).state == ProxyState::Idle)
                    &&& id == 0 && !old(self).answer_invalid ==> (a == ProxyAction::Nothing
                        && final(self).state == ProxyState::Idle)
                },
                (ProxyState::Waiting(id, n), ProxyEvent::AddressesRead(r)) => {
                    &&& r matches Some((c, s)) ==> (addresses_ready(r) ==> a == ProxyAction::MakeSubdomain(c)
                        && final(self).state == ProxyState::Making(id, c, s))
                    &&& !addresses_ready(r) && n < MAX_ATTEMPTS ==> (a matches ProxyAction::ReadAddresses(
                        pause,
                        q,
                    ) && pause && q@ == select_virtual_ips_text(id as nat) && final(self).state
                        == ProxyState::Waiting(id, (n + 1) as u32))
                    &&& !addresses_ready(r) && n >= MAX_ATTEMPTS ==> (a matches ProxyAction::PauseThenReply(
                        t,
                    ) && t@ == no_addresses_reply() && final(self).state == ProxyState::Idle)
                },
                (ProxyState::Making(id, c, s), ProxyEvent::SubdomainMade(made)) => {
                    &&& made matches Some(sub) ==> (a matches ProxyAction::StoreSubdomain(q) && q@
                        == update_subdomain_text(id as nat, sub@) && final(self).state
                        == ProxyState::Storing(id, sub, c, s))
                    &&& made is None ==> (a matches ProxyAction::Reply(t) && t@ == subdomain_failed_reply()
                        && final(self).state == ProxyState::Idle)
                },
                (ProxyState::Storing(id, sub, c, s), ProxyEvent::Stored(ok)) => {
                    &&& ok ==> (a matches ProxyAction::Reply(t) && t@ == done_reply(sub@, c@, s@))
                    &&& !ok ==> (a matches ProxyAction::Reply(t) && t@ == store_failed_reply())
                    &&& final(self).state == ProxyState::Idle
                },
                _ => a == ProxyAction::Nothing && final(self).state == old(self).state,
            },
    {
        match (&self.state, event) {
            (ProxyState::Idle, ProxyEvent::Text(text)) => match decide_request(text.as_str(), self.answer_invalid) {
                RequestDecision::Accept(id) => {
                    self.state = ProxyState::Waiting(id, 1);
                    ProxyAction::ReadAddresses(false, select_virtual_ips_query(id))
                },
                RequestDecision::Reply(r) => ProxyAction::Reply(r),
                RequestDecision::Ignore => ProxyAction::Nothing,
            },
            (ProxyState::Waiting(id, n), ProxyEvent::AddressesRead(r)) => {
                let id = *id;
                let n = *n;
                let ready = match &r {
                    Some((c, s)) => virtual_ips_ready(c.as_str(), s.as_str()),
                    None => false,
                };
                match after_check(n, ready) {
                    RetryStep::Done => match r {
                        Some((c, s)) => {
                            let a = ProxyAction::MakeSubdomain(c.clone());
                            self.state = ProxyState::Making(id, c, s);
                            a
                        },
                        None => ProxyAction::Nothing,
                    },
                    RetryStep::PauseThenCheck(next) => {
                        self.state = ProxyState::Waiting(id, next);
                        ProxyAction::ReadAddresses(true, select_virtual_ips_query(id))
                    },
                    RetryStep::PauseThenGiveUp => {
                        self.state = ProxyState::Idle;
                        ProxyAction::PauseThenReply(string_of(chars_of("Error retrieving IPs from DB").as_slice()))
                    },
                }
            },
            (ProxyState::Making(id, c, s), ProxyEvent::SubdomainMade(made)) => {
                let id = *id;
                match made {
                    Some(sub) => {
                        let q = update_subdomain_query(id, sub.as_str());
                        self.state = ProxyState::Storing(id, sub, c.clone(), s.clone());
                        ProxyAction::StoreSubdomain(q)
                    },
                    None => {
                        self.state = ProxyState::Idle;
                        ProxyAction::Reply(string_of(chars_of("Error generating and adding subdomain").as_slice()))
                    },
                }
            },
            (ProxyState::Storing(_id, sub, c, s), ProxyEvent::Stored(ok)) => {
                let t = if ok {
                    done_reply_text(sub.as_str(), c.as_str(), s.as_str())
                } else {
                    string_of(chars_of("Error inserting subdomain to DB").as_slice())
                };
                self.state = ProxyState::Idle;
                ProxyAction::Reply(t)
            },
            _ => ProxyAction::Nothing,
        }
    }
}

} // verus!
