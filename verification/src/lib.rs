//! Framing, splitting, session and handshake logic of a remote command suite.
pub mod bytes;
pub mod agreement;
pub mod stream_parser;
pub mod msg_split;
pub mod udp_msg_split;
pub mod udp_sender;
pub mod attched_udp_sender;
pub mod def_udp_sender;
pub mod udp_client;
pub mod extc;
pub mod client_handlers;
pub mod ab_client;
pub mod asy_cry;
pub mod p2p_plugs;
pub mod cycle_count;
pub mod data_transform;
pub mod save_file;
pub mod client_loop;
pub mod data_current_limiter;
pub mod console;
pub mod subpackage;
