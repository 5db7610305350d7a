//! Content-blind relay overlay, transport policy, and local storage logic.
#![allow(unused_imports)]

pub mod aead;
pub mod app_store;
pub mod appdb;
pub mod appdb_schema;
pub mod author_log;
pub mod capability;
pub mod control_lane;
pub mod digest;
pub mod gossip;
pub mod history_sync;
pub mod ice;
pub mod integrity;
pub mod keyed;
pub mod local_store;
pub mod manager;
pub mod order;
pub mod peer_overlay;
pub mod policy;
pub mod production_keychain;
pub mod provider_adapters;
pub mod recipient_cache;
pub mod recovery;
pub mod redelivery;
pub mod route_graph;
pub mod secure_delete;
pub mod session;
pub mod signaling;
pub mod store_forward;
pub mod text;
pub mod text_set;
pub mod topology;
pub mod transport;
