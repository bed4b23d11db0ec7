use otdm::api_server::{Registration, RegistrationAction, RegistrationEvent, RegistrationState};
use otdm::connect::{
    customer_report, operation_completed_message, parse_customer_info, report_failed_message,
    ConnectAction, ConnectSession, IdCounter,
};
use otdm::endpoints::{endpoint_url, proxy_server_url, vpn_server_url};
use otdm::key_listener::{extract_public_key, key_received_reply};
use otdm::proxy::{add_server_command, reload_command, virtual_ips_ready, HAProxyConfig, ProxyAction, ProxyEvent, ProxyFlow, ProxyState};
use otdm::request::{decide_request, RequestDecision};
use otdm::retry::{after_check, RetryStep, MAX_ATTEMPTS};
use otdm::vpn::{
    append_peer_entry, new_tunnel_config, server_tunnel_address, store_error_text,
    wg_interface_config, wg_set_peer_command, wg_set_peer_command_joined, IpAllocator, VpnAction,
    VpnEvent, VpnFlow, VpnState,
};

const ROW: &str = "\n client_public_key | server_public_key | vpn_ip_client | vpn_ip_server | subdomain\n---\n ck | sk | 100.64.0.2 | 100.64.0.1 | aaaaa.otdm.dev\n";

#[test]
fn haproxy_config_new() {
    let c = HAProxyConfig::new();
    assert_eq!(c.ip, "10.0.10.31");
    assert_eq!(c.port, 9999);
}

#[test]
fn haproxy_runtime_commands() {
    assert_eq!(add_server_command("aaaaa.otdm.dev", "100.64.0.2"), "add server backend_aaaaa_otdm_dev 100.64.0.2:80 check\n");
    assert_eq!(reload_command(), "reload\n");
}

#[test]
fn addresses_ready_only_without_null() {
    assert!(virtual_ips_ready("100.64.0.2", "100.64.0.1"));
    assert!(!virtual_ips_ready("null", "100.64.0.1"));
    assert!(!virtual_ips_ready("100.64.0.2", "null"));
}

fn read(pause: bool, id: usize) -> ProxyAction {
    ProxyAction::ReadAddresses(pause, format!("SELECT vpn_ip_client, vpn_ip_server FROM customer_data.customer_info WHERE customer_id = {};", id))
}

fn ips(c: &str, s: &str) -> ProxyEvent {
    ProxyEvent::AddressesRead(Some((c.to_string(), s.to_string())))
}

#[test]
fn proxy_flow_success() {
    let mut f = ProxyFlow::new(true);
    assert_eq!(f.step(ProxyEvent::Text("7".to_string())), read(false, 7));
    assert_eq!(f.step(ips("null", "100.64.0.1")), read(true, 7));
    assert_eq!(f.state, ProxyState::Waiting(7, 2));
    assert_eq!(f.step(ips("100.64.0.2", "100.64.0.1")), ProxyAction::MakeSubdomain("100.64.0.2".to_string()));
    assert_eq!(
        f.step(ProxyEvent::SubdomainMade(Some("aaaaa.otdm.dev".to_string()))),
        ProxyAction::StoreSubdomain("UPDATE customer_data.customer_info SET subdomain = 'aaaaa.otdm.dev' WHERE customer_id = 7;".to_string())
    );
    assert_eq!(
        f.step(ProxyEvent::Stored(true)),
        ProxyAction::Reply("Subdomain: aaaaa.otdm.dev, Client IP: 100.64.0.2, Server IP: 100.64.0.1".to_string())
    );
    assert_eq!(f.state, ProxyState::Idle);
}

#[test]
fn proxy_flow_failures() {
    let mut f = ProxyFlow::new(true);
    assert_eq!(f.step(ProxyEvent::Text("x".to_string())), ProxyAction::Reply("Invalid Customer ID".to_string()));
    let mut quiet = ProxyFlow::new(false);
    assert_eq!(quiet.step(ProxyEvent::Text("0".to_string())), ProxyAction::Nothing);
    f.step(ProxyEvent::Text("3".to_string()));
    for n in 1..MAX_ATTEMPTS {
        assert_eq!(f.step(ProxyEvent::AddressesRead(None)), read(true, 3));
        assert_eq!(f.state, ProxyState::Waiting(3, n + 1));
    }
    assert_eq!(f.step(ProxyEvent::AddressesRead(None)), ProxyAction::PauseThenReply("Error retrieving IPs from DB".to_string()));
    f.step(ProxyEvent::Text("3".to_string()));
    f.step(ips("a", "b"));
    assert_eq!(f.step(ProxyEvent::SubdomainMade(None)), ProxyAction::Reply("Error generating and adding subdomain".to_string()));
    f.step(ProxyEvent::Text("3".to_string()));
    f.step(ips("a", "b"));
    f.step(ProxyEvent::SubdomainMade(Some("s".to_string())));
    assert_eq!(f.step(ProxyEvent::Stored(false)), ProxyAction::Reply("Error inserting subdomain to DB".to_string()));
    assert_eq!(f.step(ProxyEvent::Stored(true)), ProxyAction::Nothing);
}

#[test]
fn request_decisions() {
    assert!(matches!(decide_request("12", true), RequestDecision::Accept(12)));
    assert!(matches!(decide_request("12", false), RequestDecision::Accept(12)));
    match decide_request("abc", true) {
        RequestDecision::Reply(r) => assert_eq!(r, "Invalid Customer ID"),
        _ => panic!("expected a reply"),
    }
    assert!(matches!(decide_request("0", false), RequestDecision::Ignore));
}

#[test]
fn retry_steps() {
    assert_eq!(after_check(1, true), RetryStep::Done);
    assert_eq!(after_check(1, false), RetryStep::PauseThenCheck(2));
    assert_eq!(after_check(MAX_ATTEMPTS, false), RetryStep::PauseThenGiveUp);
    assert_eq!(after_check(MAX_ATTEMPTS, true), RetryStep::Done);
}

#[test]
fn tunnel_addresses_in_order() {
    let mut a = IpAllocator::new();
    assert_eq!(a.allocate_ip_address(), "100.64.0.2");
    assert_eq!(a.allocate_ip_address(), "100.64.0.3");
    for _ in 4..256 {
        a.allocate_ip_address();
    }
    assert_eq!(a.allocate_ip_address(), "100.64.1.0");
    let mut seen = std::collections::HashSet::new();
    let mut b = IpAllocator::new();
    for _ in 2..65536u32 {
        assert!(seen.insert(b.allocate_ip_address()));
    }
}

#[test]
fn wireguard_texts() {
    assert_eq!(wg_interface_config("PRIV"), "[Interface]\nAddress = 100.64.0.1/10\nListenPort = 51820\nPrivateKey = PRIV\n");
    assert_eq!(append_peer_entry("CFG", "PK", "100.64.0.2"), "CFG\n[Peer]\nPublicKey = PK\nAllowedIPs = 100.64.0.2/32\n");
    assert_eq!(wg_set_peer_command("PK", "100.64.0.2", true), vec!["sudo", "wg", "set", "wg0", "peer", "PK", "allowed-ips", "100.64.0.2/32"]);
    assert_eq!(wg_set_peer_command("PK", "100.64.0.2", false), vec!["wg", "set", "wg0", "peer", "PK", "allowed-ips", "100.64.0.2/32"]);
    assert_eq!(wg_set_peer_command_joined("PK", "10.0.0.2"), vec!["wg", "set", "wg0", "peer", "PK", "allowed-ips=10.0.0.2/32"]);
    assert_eq!(server_tunnel_address(), "100.64.0.1");
}

#[test]
fn vpn_flow() {
    let mut f = VpnFlow::new(true);
    assert_eq!(
        f.step(VpnEvent::Text("7".to_string())),
        VpnAction::ReadKey("SELECT client_public_key FROM customer_data.customer_info WHERE customer_id = 7;".to_string())
    );
    assert_eq!(f.step(VpnEvent::KeyRead(Some("CPK".to_string()))), VpnAction::ComputeServerKey);
    assert_eq!(
        f.step(VpnEvent::ServerKey("SPK".to_string())),
        VpnAction::StoreTunnel("UPDATE customer_data.customer_info SET server_public_key = 'SPK', client_public_key = 'CPK', vpn_ip_client = '100.64.0.2', vpn_ip_server = '100.64.0.1' WHERE customer_id = 7;".to_string())
    );
    assert_eq!(
        f.step(VpnEvent::Stored(false)),
        VpnAction::AddPeer { public_key: "CPK".to_string(), client_ip: "100.64.0.2".to_string(), store_failed: true }
    );
    assert_eq!(f.step(VpnEvent::PeerAdded(false)), VpnAction::Reply("Error adding peer to config".to_string()));
    assert_eq!(f.state, VpnState::Idle);
    f.step(VpnEvent::Text("8".to_string()));
    assert_eq!(f.step(VpnEvent::KeyRead(None)), VpnAction::Reply("Error retrieving public key".to_string()));
    f.step(VpnEvent::Text("8".to_string()));
    f.step(VpnEvent::KeyRead(Some("K".to_string())));
    match f.step(VpnEvent::ServerKey("S".to_string())) {
        VpnAction::StoreTunnel(q) => assert!(q.contains("vpn_ip_client = '100.64.0.3'")),
        _ => panic!("expected a store"),
    }
    f.step(VpnEvent::Stored(true));
    assert_eq!(f.step(VpnEvent::PeerAdded(true)), VpnAction::Nothing);
    assert_eq!(f.step(VpnEvent::PeerAdded(true)), VpnAction::Nothing);
    assert_eq!(VpnFlow::new(true).step(VpnEvent::Text("no".to_string())), VpnAction::Reply("Invalid Customer ID".to_string()));
    assert_eq!(VpnFlow::new(false).step(VpnEvent::Text("no".to_string())), VpnAction::Nothing);
    assert_eq!(store_error_text(), "Error saving tunnel data");
    let c = new_tunnel_config("a".to_string(), "b".to_string(), "c".to_string());
    assert_eq!((c.client_ip.as_str(), c.server_ip.as_str()), ("10.0.0.2", "10.0.0.1"));
}

#[test]
fn nth_allocation_matches_bit_layout() {
    let mut a = IpAllocator::new();
    for n in 1u32..=1000 {
        let c = n + 1;
        let expected = format!("100.64.{}.{}", (c >> 8) & 0xFF, c & 0xFF);
        let got = a.allocate_ip_address();
        assert_eq!(got, expected);
        assert_ne!(got, "100.64.0.1");
    }
}

#[test]
fn connect_messages() {
    let mut s = ConnectSession::new();
    match s.on_text("PUBKEY") {
        ConnectAction::RegisterCustomer { id, insert_query } => {
            assert_eq!(id, 1);
            assert_eq!(insert_query, "INSERT INTO customer_data.customer_info (customer_id, client_public_key) VALUES (1, 'PUBKEY');");
        }
        _ => panic!("expected a registration"),
    }
    match s.on_text("other") {
        ConnectAction::RegisterCustomer { id, .. } => assert_eq!(id, 2),
        _ => panic!("expected a registration"),
    }
    assert!(matches!(s.on_text("INSERT completed for Customer ID 5"), ConnectAction::ReportCustomer(Some(5))));
    assert!(matches!(s.on_text("INSERT completed for Customer ID x"), ConnectAction::ReportCustomer(None)));
    let mut c = IdCounter::new();
    assert_eq!(c.fetch_next(), 1);
    assert_eq!(c.fetch_next(), 2);
}

#[test]
fn connect_report() {
    let info = parse_customer_info(ROW).unwrap();
    assert_eq!(
        customer_report(&info),
        "顧客情報:\n顧客公開鍵: ck\nサーバ公開鍵: sk\n顧客IP: 100.64.0.2\nサーバIP: 100.64.0.1\nサブドメイン: aaaaa.otdm.dev"
    );
    assert_eq!(operation_completed_message(), "Operation completed");
    assert_eq!(report_failed_message(), "顧客情報の取得に失敗しました");
}

#[test]
fn registration_flow() {
    let mut r = Registration::new();
    let mut ids = IdCounter::new();
    let a = r.step(&mut ids, RegistrationEvent::KeyReceived("K".to_string()));
    assert!(matches!(a, RegistrationAction::Store(ref q) if q.ends_with("VALUES (1, 'K');")));
    assert_eq!(r.state, RegistrationState::Storing(1));
    assert!(matches!(r.step(&mut ids, RegistrationEvent::Stored(true)), RegistrationAction::RequestTunnel(1)));
    assert!(matches!(r.step(&mut ids, RegistrationEvent::TunnelRequested), RegistrationAction::RequestSubdomain(1)));
    assert!(matches!(r.step(&mut ids, RegistrationEvent::SubdomainRequested), RegistrationAction::ReadRow(false, _)));
    for n in 1..MAX_ATTEMPTS {
        assert!(matches!(r.step(&mut ids, RegistrationEvent::RowRead(None)), RegistrationAction::ReadRow(true, _)));
        assert_eq!(r.state, RegistrationState::Checking(1, n + 1));
    }
    assert!(matches!(r.step(&mut ids, RegistrationEvent::RowRead(None)), RegistrationAction::PauseThenReportRowMissing));
    assert_eq!(r.state, RegistrationState::Idle);
    assert!(matches!(r.step(&mut ids, RegistrationEvent::TunnelRequested), RegistrationAction::Nothing));
    r.step(&mut ids, RegistrationEvent::KeyReceived("L".to_string()));
    assert!(matches!(r.step(&mut ids, RegistrationEvent::Stored(false)), RegistrationAction::ReportStoreFailed));
    r.step(&mut ids, RegistrationEvent::KeyReceived("M".to_string()));
    r.step(&mut ids, RegistrationEvent::Stored(true));
    r.step(&mut ids, RegistrationEvent::TunnelRequested);
    r.step(&mut ids, RegistrationEvent::SubdomainRequested);
    let row = parse_customer_info(ROW);
    assert!(matches!(r.step(&mut ids, RegistrationEvent::RowRead(row)), RegistrationAction::ReportRow(_)));
}

#[test]
fn endpoints_in_normal_form() {
    assert_eq!(vpn_server_url(), Some("ws://10.0.10.20:8090/ws".to_string()));
    assert_eq!(proxy_server_url(), Some("ws://10.0.10.30:8100/ws".to_string()));
    assert_eq!(endpoint_url("WS://Example.COM:80/ws"), Some("ws://example.com/ws".to_string()));
    assert_eq!(endpoint_url("not a url"), None);
}

#[test]
fn public_key_messages() {
    assert_eq!(extract_public_key("public_key:example_key"), Some("example_key".to_string()));
    assert_eq!(extract_public_key("hello"), None);
    assert_eq!(key_received_reply(), "Key received");
}
