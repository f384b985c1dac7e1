//! DCP (Distanced Connect Protocol): wire header, handshake, sliding window,
//! tunnels, Kademlia routing, address rotation, content-addressed storage and
//! the application services built on them.

pub mod packet;
pub mod blake;
pub mod bytes;
pub mod header;
pub mod text;
pub mod aead;
pub mod clock;
pub mod crypto;
pub mod entropy;
pub mod x25519;
pub mod concurrent;
pub mod window;
pub mod net;
pub mod handshake;
pub mod dht;
pub mod tunnel;
pub mod camouflage;
pub mod storage;
pub mod app;
pub mod node;
