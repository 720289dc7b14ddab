//! One full session flow, frame by frame: two clients join, one moves,
//! one leaves, a third takes over the vacated player.

use online_board_game::client_controller::{
    handle_text_frame, ClientCommand, ClientConnected, ClientDisconnected, InputMoveAction,
};
use online_board_game::game::GridPos;
use online_board_game::game_controller::{GameController, Update};
use online_board_game::parse::parse_world_state;
use online_board_game::protocol::{encode_update, encode_world_state};

#[test]
fn example_session_flow() {
    let mut game = GameController::new();

    // Client A connects while the system is empty: player 0 is created at
    // (0,0) with health (10,10); nobody else is there to notify.
    let a = game.handle_connect(ClientConnected { addr: 1 });
    assert_eq!(
        encode_world_state(&a.snapshot),
        "{\"players\":{\"0\":{\"pos\":{\"x\":0,\"y\":0},\"health\":{\"max\":10,\"current\":10}}}}"
    );
    assert!(a.recipients.is_empty());

    // Client B connects: player 1 is created at (1,0); B's snapshot holds
    // both players, and A alone receives the PlayerAdded delta.
    let b = game.handle_connect(ClientConnected { addr: 2 });
    assert_eq!(b.snapshot.players.len(), 2);
    assert_eq!(b.recipients, vec![1]);
    let added = b.broadcast.expect("a new player was created");
    assert_eq!(
        encode_update(&added),
        "{\"type\":\"PlayerAdded\",\"data\":{\"id\":1,\"data\":\
         {\"pos\":{\"x\":1,\"y\":0},\"health\":{\"max\":10,\"current\":10}}}}"
    );

    // A sends a MoveTo frame; both A and B receive the SetMovement delta.
    let frame = "{\"message\":\"MoveTo\",\"pos\":{\"x\":3,\"y\":4}}";
    let command = handle_text_frame(frame).expect("the frame is well formed");
    let ClientCommand::MoveTo { pos } = command;
    assert_eq!(pos, GridPos { x: 3, y: 4 });
    let mv = game
        .handle_move(InputMoveAction { client: 1, pos })
        .expect("session 1 is registered");
    assert_eq!(
        encode_update(&mv.update),
        "{\"type\":\"SetMovement\",\"data\":{\"id\":0,\"pos\":{\"x\":3,\"y\":4}}}"
    );
    let mut recipients = mv.recipients.clone();
    recipients.sort();
    assert_eq!(recipients, vec![1, 2]);

    // A disconnects; player 0 returns to the unassigned pool.
    assert!(game.handle_disconnect(ClientDisconnected { addr: 1 }));

    // Client C connects: player 0 is reused, no PlayerAdded delta, and its
    // pending movement from before the reassignment is still there.
    let c = game.handle_connect(ClientConnected { addr: 3 });
    assert!(c.broadcast.is_none());
    let snapshot_text = encode_world_state(&c.snapshot);
    assert_eq!(
        snapshot_text,
        "{\"players\":{\"0\":{\"pos\":{\"x\":0,\"y\":0},\"health\":{\"max\":10,\"current\":10},\
         \"pending_turn\":{\"movement\":{\"x\":3,\"y\":4}}},\
         \"1\":{\"pos\":{\"x\":1,\"y\":0},\"health\":{\"max\":10,\"current\":10}}}}"
    );

    // What C received parses back to exactly the same two records.
    let parsed = parse_world_state(&snapshot_text).expect("the snapshot parses");
    assert_eq!(parsed.players, c.snapshot.players);
    assert_eq!(
        parsed.players[0].pending_turn.movement,
        Some(GridPos { x: 3, y: 4 })
    );
}

#[test]
fn snapshots_with_gaps_or_junk_do_not_parse() {
    // Player ids are dense and count from zero.
    assert!(parse_world_state("{\"players\":{\"1\":{\"pos\":{\"x\":0,\"y\":0},\"health\":{\"max\":10,\"current\":10}}}}").is_none());
    // Trailing text after the snapshot is refused.
    assert!(parse_world_state("{\"players\":{}}x").is_none());
    // A truncated snapshot is refused.
    assert!(parse_world_state("{\"players\":{").is_none());
    assert!(parse_world_state("").is_none());
}
