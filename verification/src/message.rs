use vstd::prelude::*;

use crate::ip::Ip;

verus! {

/// What the connection producers put on the event channel. Only
/// `Connection` is produced by this library's orchestration; the other
/// variants belong to the protocol layer's own traffic.
#[derive(Debug)]
pub enum ChannelMessage<S> {
    Connection { ip: Ip, socket: S, is_outgoing: bool },
    Handshake,
    Alive,
    AskPeersList,
    PeersList(String),
    Close,
}

} // verus!
