use otdm::api_server;
use otdm::connect;
use otdm::cql::{
    cqlsh_args, insert_customer_query, parse_public_key_after_rule, parse_public_key_fifth_line,
    parse_virtual_ips, select_customer_info_query, select_public_key_query, select_virtual_ips_query,
    update_subdomain_query, update_tunnel_query,
};

const ROW: &str = "\n client_public_key | server_public_key | vpn_ip_client | vpn_ip_server | subdomain\n-------------------+-------------------+---------------+---------------+-----------\n   ck=  |  sk=  | 100.64.0.2 | 100.64.0.1 | aaaaa.otdm.dev\n\n(1 rows)\n";

#[test]
fn statements() {
    assert_eq!(
        insert_customer_query(3, "pk"),
        "INSERT INTO customer_data.customer_info (customer_id, client_public_key) VALUES (3, 'pk');"
    );
    assert_eq!(
        select_customer_info_query(12),
        "SELECT client_public_key, server_public_key, vpn_ip_client, vpn_ip_server, subdomain FROM customer_data.customer_info WHERE customer_id = 12;"
    );
    assert_eq!(
        update_subdomain_query(5, "aaaaa.otdm.dev"),
        "UPDATE customer_data.customer_info SET subdomain = 'aaaaa.otdm.dev' WHERE customer_id = 5;"
    );
    assert_eq!(
        select_virtual_ips_query(8),
        "SELECT vpn_ip_client, vpn_ip_server FROM customer_data.customer_info WHERE customer_id = 8;"
    );
    assert_eq!(
        select_public_key_query(9),
        "SELECT client_public_key FROM customer_data.customer_info WHERE customer_id = 9;"
    );
    assert_eq!(
        update_tunnel_query(4, "S", "C", "100.64.0.2", "100.64.0.1"),
        "UPDATE customer_data.customer_info SET server_public_key = 'S', client_public_key = 'C', vpn_ip_client = '100.64.0.2', vpn_ip_server = '100.64.0.1' WHERE customer_id = 4;"
    );
}

#[test]
fn cqlsh_arguments() {
    assert_eq!(cqlsh_args("Q", true), vec!["10.0.10.40", "--cqlversion=3.4.6", "-e", "Q"]);
    assert_eq!(cqlsh_args("Q", false), vec!["10.0.10.40", "-e", "Q"]);
}

#[test]
fn row_after_three_lines() {
    let info = connect::parse_customer_info(ROW).unwrap();
    assert_eq!(info.client_public_key, "ck=");
    assert_eq!(info.server_public_key, "sk=");
    assert_eq!(info.vpn_ip_client, "100.64.0.2");
    assert_eq!(info.vpn_ip_server, "100.64.0.1");
    assert_eq!(info.subdomain, "aaaaa.otdm.dev");
    assert!(connect::parse_customer_info("a|b|c|d|e\n").is_none());
    assert!(connect::parse_customer_info("\nh\n---\n\n----\n1|2|3|4\n(0 rows)\n").is_none());
    let later = connect::parse_customer_info("\nh\n---\n\n----\n1|2|3|4|5\n").unwrap();
    assert_eq!(later.subdomain, "5");
}

#[test]
fn row_below_header() {
    let info = api_server::parse_customer_info(ROW).unwrap();
    assert_eq!(info.client_public_key, "ck=");
    assert_eq!(info.subdomain, "aaaaa.otdm.dev");
    let empty_cell = "client_public_key\n---\n a | | c | d | e\n";
    assert!(api_server::parse_customer_info(empty_cell).is_none());
    assert!(api_server::parse_customer_info("no header\n a|b|c|d|e\n").is_none());
    assert!(api_server::parse_customer_info("client_public_key\n---\n").is_none());
}

#[test]
fn completeness_of_a_row() {
    let mut info = connect::parse_customer_info(ROW).unwrap();
    assert!(info.is_complete());
    info.vpn_ip_server = "null".to_string();
    assert!(!info.is_complete());
}

#[test]
fn query_outcome() {
    assert!(connect::customer_info_from_query(false, ROW).is_none());
    assert!(connect::customer_info_from_query(true, ROW).is_some());
}

#[test]
fn addresses_from_output() {
    let out = "WARNING: something\n\n vpn_ip_client | vpn_ip_server\n---------------+--------------\n 100.64.0.2 | 100.64.0.1\n\n(1 rows)\n";
    assert_eq!(parse_virtual_ips(out), Some(("100.64.0.2".to_string(), "100.64.0.1".to_string())));
    assert_eq!(parse_virtual_ips("\n(0 rows)\n"), None);
    let nulls = " vpn_ip_client | vpn_ip_server\n-----+-----\n null | null\n";
    assert_eq!(parse_virtual_ips(nulls), Some(("null".to_string(), "null".to_string())));
}

#[test]
fn key_from_fifth_line() {
    let out = "\n client_public_key\n-------------------\n\n  KEY=  \n\n(1 rows)\n";
    assert_eq!(parse_public_key_fifth_line(out), Some("KEY=".to_string()));
    assert_eq!(parse_public_key_fifth_line("a\nb\nc\nd\n   \nf\n"), None);
    assert_eq!(parse_public_key_fifth_line("a\nb\nc\nd\nKEY\n"), None);
}

#[test]
fn key_after_rule() {
    let out = "\n client_public_key\n-------------------\n  KEY=  \n\n(1 rows)\n";
    assert_eq!(parse_public_key_after_rule(out), Some("KEY=".to_string()));
    assert_eq!(parse_public_key_after_rule("header\n----"), None);
    assert_eq!(parse_public_key_after_rule("no rule here\n"), None);
}

#[test]
fn leading_banner_lines_do_not_matter() {
    let banner = "WARNING: cqlsh is old\nConnected.\n";
    let a = api_server::parse_customer_info(ROW).unwrap();
    let b = api_server::parse_customer_info(&format!("{}{}", banner, ROW)).unwrap();
    assert_eq!((a.client_public_key, a.subdomain), (b.client_public_key, b.subdomain));
}

#[test]
fn trailing_text_does_not_matter() {
    let extra = "client_public_key\n---\n x | y | z | w | v\n";
    let a = connect::parse_customer_info(&format!("{}{}", ROW, extra)).unwrap();
    assert_eq!(a.client_public_key, "ck=");
    let b = api_server::parse_customer_info(&format!("{}{}", ROW, extra)).unwrap();
    assert_eq!(b.client_public_key, "ck=");
}

#[test]
fn api_row_query_outcome() {
    assert!(api_server::customer_info_from_query(false, ROW).is_none());
    assert!(api_server::customer_info_from_query(true, ROW).is_some());
    assert!(api_server::customer_info_from_query(true, "client_public_key\n---\n a | | c | d | e\n").is_none());
}
