//! Transport core of the qeli tunnel: session lifecycles, path selection, network planning and
//! datagram decisions, each stated as a contract and proved.

pub mod auth_flow;
pub mod budget_math;
pub mod buffer_pool;
pub mod carrier;
pub mod cidr;
pub mod diagnostic;
pub mod event_frame;
pub mod ip_text;
pub mod journal;
pub mod json_text;
pub mod linux_tun;
pub mod log_text;
pub mod network;
pub mod network_plan;
pub mod orphan_limiter;
pub mod packet_tun;
pub mod path;
pub mod plan_messages;
pub mod probe_registry;
pub mod randomness;
pub mod reality;
pub mod response_messages;
pub mod roaming_metrics;
pub mod routes;
pub mod runtime;
pub mod session;
pub mod shared_limiter;
pub mod tcp_roaming;
pub mod text;
pub mod udp_admission;
pub mod udp_auth;
pub mod udp_budget;
pub mod udp_client;
pub mod udp_datagram;
pub mod udp_directory;
pub mod udp_egress;
pub mod udp_handshake_wire;
pub mod udp_new_source;
pub mod udp_roaming;
pub mod udp_server;
pub mod udp_uplink;
pub mod udp_writer;
