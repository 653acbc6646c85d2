//! The network stack: framing, addressing, transport and the protocols above it.

pub mod address;
pub mod arp;
pub mod asking;
pub mod bounds;
pub mod connect;
pub mod dhcp;
pub mod dns;
pub mod ether;
pub mod icmp;
pub mod ipv4;
pub mod jobs;
pub mod laws;
pub mod leases;
pub mod lookup;
pub mod records;
pub mod selftest;
pub mod stack;
pub mod tcp;
pub mod udp;
pub mod wire;

pub use address::parse_ipv4;
pub use connect::{
    begin_tcp_data_selftest, begin_tcp_handshake_selftest, tcp_connect,
    tcp_data_loopback_selftest, tcp_handshake_loopback_selftest, Connect,
};
pub use jobs::{arp_resolve, ping, tcp_next_hop, tcp_transmit, udp_send, Ping, Step};
pub use lookup::{dhcp_begin, dhcp_configure, dns_query, dns_resolve};
pub use selftest::{loopback_selftest, ping_loopback_selftest, udp_echo_loopback_selftest};
pub use stack::{
    dhcp_configured, frames_received, init, lease_secs, leased_dns, leased_gateway, leased_mask,
    our_ip, our_mac, poll, receive, tcp_accept, tcp_listen, tcp_read, tcp_send, tcp_service,
    use_static_fallback, Stack,
};
