//! Verified core of a small NATting router that runs as the first process of a
//! Linux container or virtual machine.
//!
//! The library holds what the router decides and computes: configuration,
//! kernel module selection, firewall rules, frame and DHCP message layout, the
//! DHCP server and client, the DNS cache and the clock synchronisation schedule.
//! Sockets, netlink, system calls and the clock belong to the program around it.

#![allow(unused_imports)]

pub mod addr;
pub mod config;
pub mod kmod;
pub mod netfilter;
pub mod network;
pub mod packet;
pub mod path;
pub mod search;
pub mod services;
pub mod subnet;
pub mod system;
pub mod text;
pub mod time;
pub mod xz;
pub mod zst;

