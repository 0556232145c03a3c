//! The network services that the router offers and uses.

pub mod dhcp_client;
pub mod dhcp_exchange;
pub mod dhcp_message;
pub mod dhcp_server;
pub mod dns_forwarder;
pub mod sntp_client;
pub mod utils;

pub use self::utils::WanLease;
