//! Vocabulary of the per-connection relay.
//!
//! One relay serves one live connection. It holds no game state: it turns
//! inbound text frames into typed commands for the game controller and turns
//! the controller's replies into outbound frames. The socket handling itself
//! lives outside this crate; what stands here is the relay's typed view of a
//! connection: its token, the commands it forwards, and the parsing of the
//! one frame shape a client may send.

use vstd::prelude::*;

use crate::game::GridPos;

verus! {

/// Opaque token identifying one live connection.
///
/// Minted by the transport layer at connect time; the core uses it only for
/// equality and lookup, and never looks inside it.
pub type ClientAddr = u64;

/// Command sent to the game controller when a client first connects.
#[derive(Debug, Clone, Copy, PartialEq, Eq, Structural)]
pub struct ClientConnected {
    pub addr: ClientAddr,
}

/// Command sent to the game controller when a client disconnects.
#[derive(Debug, Clone, Copy, PartialEq, Eq, Structural)]
pub struct ClientDisconnected {
    pub addr: ClientAddr,
}

/// Command sent to the game controller when a client inputs a move action.
#[derive(Debug, Clone, Copy, PartialEq, Eq, Structural)]
pub struct InputMoveAction {
    pub client: ClientAddr,
    pub pos: GridPos,
}

/// The valid commands the client can send.
#[derive(Debug, Clone, Copy, PartialEq, Eq, Structural)]
pub enum ClientCommand {
    /// Requests that the player controlled by the client move to the
    /// specified position.
    MoveTo { pos: GridPos },
}

/// What the relay does with one inbound text frame: the frame either parses
/// to a recognized command, to be forwarded to the game controller, or it
/// yields nothing and is silently dropped — the connection stays open.
pub fn handle_text_frame(text: &str) -> (r: Option<ClientCommand>)
    ensures
        r == crate::parse::spec_parse_command(text@),
{
    crate::parse::parse_client_command(text)
}

} // verus!
