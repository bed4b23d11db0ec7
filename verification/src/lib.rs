//! Verified core of the tunnel-provisioning services: the text handling,
//! parsing, counters and decisions that the API, proxy and VPN servers run.

pub mod api_server;
pub mod connect;
pub mod cql;
pub mod customer;
pub mod endpoints;
pub mod haproxy;
pub mod key_listener;
pub mod number;
pub mod proxy;
pub mod request;
pub mod retry;
pub mod subdomain;
pub mod text;
pub mod vpn;
