//! Tests for the game controller: identity assignment, reuse, and deltas.

use online_board_game::client_controller::{ClientConnected, ClientDisconnected, InputMoveAction};
use online_board_game::game::GridPos;
use online_board_game::game_controller::{GameController, Update};

#[test]
fn first_connect_creates_player_zero() {
    let mut game = GameController::new();
    let reply = game.handle_connect(ClientConnected { addr: 1 });
    assert_eq!(reply.snapshot.players.len(), 1);
    let p = &reply.snapshot.players[0];
    assert_eq!(p.pos, GridPos { x: 0, y: 0 });
    assert_eq!(p.health.max, 10);
    assert_eq!(p.health.current, 10);
    assert!(p.pending_turn.is_empty());
    // A player was created, so a PlayerAdded delta exists, but nobody was
    // registered before this connect: it goes to no one.
    assert!(matches!(reply.broadcast, Some(Update::PlayerAdded { id: 0, .. })));
    assert!(reply.recipients.is_empty());
}

#[test]
fn second_connect_creates_player_one_and_notifies_first() {
    let mut game = GameController::new();
    let _ = game.handle_connect(ClientConnected { addr: 1 });
    let reply = game.handle_connect(ClientConnected { addr: 2 });
    assert_eq!(reply.snapshot.players.len(), 2);
    assert_eq!(reply.snapshot.players[1].pos, GridPos { x: 1, y: 0 });
    assert!(matches!(reply.broadcast, Some(Update::PlayerAdded { id: 1, .. })));
    assert_eq!(reply.recipients, vec![1]);
}

#[test]
fn move_updates_only_the_senders_player() {
    let mut game = GameController::new();
    let _ = game.handle_connect(ClientConnected { addr: 1 });
    let _ = game.handle_connect(ClientConnected { addr: 2 });
    let reply = game
        .handle_move(InputMoveAction { client: 1, pos: GridPos { x: 3, y: 4 } })
        .expect("session 1 is registered");
    assert!(matches!(
        reply.update,
        Update::SetMovement { id: 0, pos: GridPos { x: 3, y: 4 } }
    ));
    // The delta goes to every registered session, the sender included.
    let mut recipients = reply.recipients.clone();
    recipients.sort();
    assert_eq!(recipients, vec![1, 2]);
    // A third session's snapshot shows the movement on player 0 only.
    let snapshot = game.handle_connect(ClientConnected { addr: 3 }).snapshot;
    assert_eq!(
        snapshot.players[0].pending_turn.movement,
        Some(GridPos { x: 3, y: 4 })
    );
    assert_eq!(snapshot.players[1].pending_turn.movement, None);
}

#[test]
fn move_from_unknown_session_is_refused() {
    let mut game = GameController::new();
    let _ = game.handle_connect(ClientConnected { addr: 1 });
    let reply = game.handle_move(InputMoveAction { client: 9, pos: GridPos { x: 1, y: 1 } });
    assert!(reply.is_none());
}

#[test]
fn disconnect_of_unknown_session_is_a_noop() {
    let mut game = GameController::new();
    let _ = game.handle_connect(ClientConnected { addr: 1 });
    assert!(!game.handle_disconnect(ClientDisconnected { addr: 9 }));
    assert!(game.handle_disconnect(ClientDisconnected { addr: 1 }));
    // A second disconnect for the same session is unknown by then.
    assert!(!game.handle_disconnect(ClientDisconnected { addr: 1 }));
}

#[test]
fn vacated_player_is_reused_not_recreated() {
    let mut game = GameController::new();
    let _ = game.handle_connect(ClientConnected { addr: 1 });
    let _ = game.handle_connect(ClientConnected { addr: 2 });
    assert!(game.handle_disconnect(ClientDisconnected { addr: 2 }));
    let reply = game.handle_connect(ClientConnected { addr: 3 });
    // No new player: still two records, and no PlayerAdded broadcast.
    assert_eq!(reply.snapshot.players.len(), 2);
    assert!(reply.broadcast.is_none());
    // The new session controls the vacated player 1.
    let mv = game
        .handle_move(InputMoveAction { client: 3, pos: GridPos { x: 5, y: 6 } })
        .expect("session 3 is registered");
    assert!(matches!(mv.update, Update::SetMovement { id: 1, .. }));
}

#[test]
fn reuse_is_last_in_first_out() {
    let mut game = GameController::new();
    let _ = game.handle_connect(ClientConnected { addr: 1 });
    let _ = game.handle_connect(ClientConnected { addr: 2 });
    let _ = game.handle_connect(ClientConnected { addr: 3 });
    assert!(game.handle_disconnect(ClientDisconnected { addr: 2 }));
    assert!(game.handle_disconnect(ClientDisconnected { addr: 3 }));
    // Player 2 was vacated last, so it is handed out first.
    let reply = game.handle_connect(ClientConnected { addr: 4 });
    assert!(reply.broadcast.is_none());
    let mv = game
        .handle_move(InputMoveAction { client: 4, pos: GridPos { x: 7, y: 8 } })
        .expect("session 4 is registered");
    assert!(matches!(mv.update, Update::SetMovement { id: 2, .. }));
    // The next connect gets player 1.
    let reply = game.handle_connect(ClientConnected { addr: 5 });
    assert!(reply.broadcast.is_none());
    let mv = game
        .handle_move(InputMoveAction { client: 5, pos: GridPos { x: 9, y: 9 } })
        .expect("session 5 is registered");
    assert!(matches!(mv.update, Update::SetMovement { id: 1, .. }));
}

#[test]
fn reused_player_keeps_its_pending_turn() {
    let mut game = GameController::new();
    let _ = game.handle_connect(ClientConnected { addr: 1 });
    let _ = game.handle_connect(ClientConnected { addr: 2 });
    let _ = game
        .handle_move(InputMoveAction { client: 1, pos: GridPos { x: 3, y: 4 } })
        .expect("session 1 is registered");
    assert!(game.handle_disconnect(ClientDisconnected { addr: 1 }));
    let reply = game.handle_connect(ClientConnected { addr: 3 });
    assert!(reply.broadcast.is_none());
    // Player 0 still carries the movement it had before reassignment.
    assert_eq!(
        reply.snapshot.players[0].pending_turn.movement,
        Some(GridPos { x: 3, y: 4 })
    );
}

#[test]
fn snapshot_contains_record_for_every_connects_own_player() {
    let mut game = GameController::new();
    for addr in 1..6u64 {
        let reply = game.handle_connect(ClientConnected { addr });
        // Ids are dense and assigned in creation order, so the newest
        // session's player is always within the snapshot.
        assert_eq!(reply.snapshot.players.len(), addr as usize);
    }
}
