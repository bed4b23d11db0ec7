use otdm::haproxy::{update_haproxy_config, HaproxyConfigError};

const BASE: &str = "global\n    daemon\n\nfrontend otdm_dev\n    bind *:80\n    mode http\n\nbackend default\n    server s1 10.0.0.9:80\n";

#[test]
fn adds_rule_and_backend() {
    let out = update_haproxy_config(BASE, "aaaaa.otdm.dev", "100.64.0.2").unwrap();
    let expected = "global\n    daemon\n\nfrontend otdm_dev\n    bind *:80\n    mode http\n    use_backend aaaaa_otdm_dev if { req.hdr(host) -i aaaaa.otdm.dev }\n\nbackend default\n    server s1 10.0.0.9:80\n\nbackend aaaaa_otdm_dev\n    mode http\n    balance roundrobin\n    server aaaaa_otdm_dev 100.64.0.2:80 check\n";
    assert_eq!(out, expected);
}

#[test]
fn second_edit_changes_nothing() {
    let once = update_haproxy_config(BASE, "aaaab.otdma.net", "100.64.0.3").unwrap();
    let twice = update_haproxy_config(&once, "aaaab.otdma.net", "100.64.0.3").unwrap();
    assert_eq!(once, twice);
}

#[test]
fn refuses_config_without_frontend() {
    let r = update_haproxy_config("global\n    daemon\n", "x.otdm.dev", "1.2.3.4");
    assert_eq!(r, Err(HaproxyConfigError::FrontendNotFound));
}

#[test]
fn section_running_to_end_of_file() {
    let out = update_haproxy_config("frontend otdm_dev\n    bind *:80", "a.b", "1.1.1.1").unwrap();
    assert_eq!(
        out,
        "frontend otdm_dev\n    bind *:80\n    use_backend a_b if { req.hdr(host) -i a.b }\n\nbackend a_b\n    mode http\n    balance roundrobin\n    server a_b 1.1.1.1:80 check\n"
    );
}

#[test]
fn mention_without_section_only_appends_backend() {
    let out = update_haproxy_config("# frontend otdm_dev\n", "a.b", "1.1.1.1").unwrap();
    assert_eq!(
        out,
        "# frontend otdm_dev\n\nbackend a_b\n    mode http\n    balance roundrobin\n    server a_b 1.1.1.1:80 check\n"
    );
}

#[test]
fn existing_backend_is_not_repeated() {
    let cfg = "frontend otdm_dev\n    use_backend a_b if { req.hdr(host) -i a.b }\n\n  backend a_b  \n";
    let out = update_haproxy_config(cfg, "a.b", "1.1.1.1").unwrap();
    assert_eq!(out, cfg);
}

#[test]
fn section_ends_at_next_header() {
    let cfg = "frontend otdm_dev\n  bind *:80\nlisten stats\n  bind *:8404\n";
    let out = update_haproxy_config(cfg, "q", "2.2.2.2").unwrap();
    assert!(out.starts_with("frontend otdm_dev\n  bind *:80\n    use_backend q if { req.hdr(host) -i q }\nlisten stats\n"));
}

#[test]
fn second_edit_with_line_break_in_address() {
    let once = update_haproxy_config(BASE, "c.otdm.dev", "10.0.0.1\n#note").unwrap();
    let twice = update_haproxy_config(&once, "c.otdm.dev", "10.0.0.1\n#note").unwrap();
    assert_eq!(once, twice);
}

#[test]
fn second_edit_when_address_brings_its_own_routed_section() {
    let ip = "1.1.1.1\nfrontend otdm_dev\n    use_backend a_b if { req.hdr(host) -i a.b }\n#";
    let once = update_haproxy_config("# frontend otdm_dev\n", "a.b", ip).unwrap();
    let twice = update_haproxy_config(&once, "a.b", ip).unwrap();
    assert_eq!(once, twice);
}
