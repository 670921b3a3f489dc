//! Rabbit warren core: the text frame codec, lanes with sequencing, credit and
//! retransmission, handshake, sessions, capabilities, trust on first use, signed trust
//! manifests, and the continuity event log.
use vstd::prelude::*;

pub mod assoc;
pub mod error;
pub mod text;
pub mod frame;
pub mod num;
pub mod lane;
pub mod lane_manager;
pub mod reliability;
pub mod ack;
pub mod clock;
pub mod crypto;
pub mod encoding;
pub mod permissions;
pub mod delegation;
pub mod identity;
pub mod auth;
pub mod trust;
pub mod continuity;
pub mod manifest;
pub mod txn;
pub mod ui;
pub mod discovery;
pub mod config;
pub mod routing;
pub mod federation;
pub mod menus;
pub mod burrow;
pub mod tunnel;
