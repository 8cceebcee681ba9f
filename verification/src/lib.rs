//! Verified core of a sharded multiplayer game backend: the wire formats
//! exchanged between clients, the pub/sub broker, the game servers, the
//! spatial service and the orchestrator, and the decisions each of them
//! takes on what it receives.
pub mod wire;
pub mod geometry;
pub mod protocol;
pub mod quadtree;
pub mod idset;
pub mod text;
pub mod uuids;
pub mod gatekeeper;
pub mod names;
pub mod broker;
pub mod entities;
pub mod server_config;
pub mod shard_messages;
pub mod game_server;
pub mod orchestrator;
pub mod spatial;
pub mod client;
