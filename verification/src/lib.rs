//! A peer-to-peer network controller core: a registry of known peers with a
//! verified lifecycle state machine, a durable peer list with change
//! tracking, and the decision logic of the dialing and listening
//! orchestration. Socket and file input/output, and the task plumbing, live
//! in the thin asynchronous shell around this crate.

pub mod codec;
pub mod controller;
pub mod error_logger;
pub mod file;
pub mod ip;
pub mod message;
pub mod peer;
pub mod registry;

pub use controller::NetworkController;
pub use controller::NetworkControllerError;
pub use controller::NetworkControllerEvent;
pub use error_logger::InspectErr;
pub use file::PeersFileController;
pub use file::PeersFileControllerError;
pub use ip::Ip;
pub use message::ChannelMessage;
pub use peer::Feedback;
pub use peer::Peer;
pub use peer::PeerError;
pub use peer::PeerStatus;
pub use registry::PeerRegistry;
