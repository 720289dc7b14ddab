//! Tests for the JSON wire codec: exact frames out, exact parsing in.

use online_board_game::client_controller::{handle_text_frame, ClientCommand, ClientConnected, InputMoveAction};
use online_board_game::game::{GridPos, Health, Player, PlayerAction, PlayerTurn};
use online_board_game::game_controller::{GameController, Update, WorldState};
use online_board_game::parse::parse_world_state;
use online_board_game::protocol::{encode_update, encode_world_state};

#[test]
fn empty_world_state_round_trips() {
    let empty = WorldState { players: Vec::new() };
    let text = encode_world_state(&empty);
    assert_eq!(text, "{\"players\":{}}");
    let parsed = parse_world_state(&text).expect("the serialized form parses");
    assert_eq!(parsed.players.len(), 0);
}

#[test]
fn first_snapshot_matches_the_wire_format() {
    let mut game = GameController::new();
    let reply = game.handle_connect(ClientConnected { addr: 1 });
    let text = encode_world_state(&reply.snapshot);
    assert_eq!(
        text,
        "{\"players\":{\"0\":{\"pos\":{\"x\":0,\"y\":0},\"health\":{\"max\":10,\"current\":10}}}}"
    );
}

#[test]
fn snapshot_with_pending_turn_round_trips() {
    let players = vec![
        Player {
            pos: GridPos { x: 0, y: 0 },
            health: Health { max: 10, current: 10 },
            pending_turn: PlayerTurn {
                movement: Some(GridPos { x: 3, y: 4 }),
                actions: vec![PlayerAction, PlayerAction],
            },
        },
        Player {
            pos: GridPos { x: 1, y: 0 },
            health: Health { max: 10, current: 7 },
            pending_turn: PlayerTurn { movement: None, actions: Vec::new() },
        },
    ];
    let state = WorldState { players: players.clone() };
    let text = encode_world_state(&state);
    assert_eq!(
        text,
        "{\"players\":{\"0\":{\"pos\":{\"x\":0,\"y\":0},\"health\":{\"max\":10,\"current\":10},\
         \"pending_turn\":{\"movement\":{\"x\":3,\"y\":4},\"actions\":[null,null]}},\
         \"1\":{\"pos\":{\"x\":1,\"y\":0},\"health\":{\"max\":10,\"current\":7}}}}"
    );
    let parsed = parse_world_state(&text).expect("the serialized form parses");
    assert_eq!(parsed.players, players);
}

#[test]
fn updates_match_the_wire_format() {
    let added = Update::PlayerAdded {
        id: 1,
        data: Player {
            pos: GridPos { x: 1, y: 0 },
            health: Health { max: 10, current: 10 },
            pending_turn: PlayerTurn { movement: None, actions: Vec::new() },
        },
    };
    assert_eq!(
        encode_update(&added),
        "{\"type\":\"PlayerAdded\",\"data\":{\"id\":1,\"data\":\
         {\"pos\":{\"x\":1,\"y\":0},\"health\":{\"max\":10,\"current\":10}}}}"
    );
    let moved = Update::SetMovement { id: 0, pos: GridPos { x: 3, y: 4 } };
    assert_eq!(
        encode_update(&moved),
        "{\"type\":\"SetMovement\",\"data\":{\"id\":0,\"pos\":{\"x\":3,\"y\":4}}}"
    );
}

#[test]
fn move_command_parses() {
    let cmd = handle_text_frame("{\"message\":\"MoveTo\",\"pos\":{\"x\":3,\"y\":4}}");
    assert_eq!(cmd, Some(ClientCommand::MoveTo { pos: GridPos { x: 3, y: 4 } }));
}

#[test]
fn move_command_allows_whitespace() {
    let cmd = handle_text_frame(
        " { \"message\" : \"MoveTo\" ,\n\t\"pos\" : { \"x\" : 3 , \"y\" : 4 } } ",
    );
    assert_eq!(cmd, Some(ClientCommand::MoveTo { pos: GridPos { x: 3, y: 4 } }));
}

#[test]
fn malformed_frames_are_dropped() {
    // Not JSON at all.
    assert_eq!(handle_text_frame("hello"), None);
    assert_eq!(handle_text_frame(""), None);
    // JSON of the wrong shape.
    assert_eq!(handle_text_frame("{}"), None);
    assert_eq!(handle_text_frame("{\"pos\":{\"x\":3,\"y\":4}}"), None);
    // An unknown command tag.
    assert_eq!(handle_text_frame("{\"message\":\"Jump\",\"pos\":{\"x\":3,\"y\":4}}"), None);
    // Trailing garbage after a well-formed command.
    assert_eq!(handle_text_frame("{\"message\":\"MoveTo\",\"pos\":{\"x\":3,\"y\":4}}x"), None);
    // JSON numbers have no leading zeros.
    assert_eq!(handle_text_frame("{\"message\":\"MoveTo\",\"pos\":{\"x\":03,\"y\":4}}"), None);
    // A coordinate beyond the machine word is refused.
    assert_eq!(
        handle_text_frame(
            "{\"message\":\"MoveTo\",\"pos\":{\"x\":99999999999999999999999999,\"y\":4}}"
        ),
        None
    );
}

#[test]
fn coordinates_at_the_word_boundary() {
    // The largest value a coordinate can hold still parses ...
    let max = usize::MAX.to_string();
    let frame = format!("{{\"message\":\"MoveTo\",\"pos\":{{\"x\":{},\"y\":0}}}}", max);
    assert_eq!(
        handle_text_frame(&frame),
        Some(ClientCommand::MoveTo { pos: GridPos { x: usize::MAX, y: 0 } })
    );
    // ... and one past it does not.
    let frame = format!("{{\"message\":\"MoveTo\",\"pos\":{{\"x\":{}0,\"y\":0}}}}", max);
    assert_eq!(handle_text_frame(&frame), None);
}

#[test]
fn zero_coordinates_parse() {
    let cmd = handle_text_frame("{\"message\":\"MoveTo\",\"pos\":{\"x\":0,\"y\":0}}");
    assert_eq!(cmd, Some(ClientCommand::MoveTo { pos: GridPos { x: 0, y: 0 } }));
}

#[test]
fn emitted_frames_are_valid_json() {
    let mut game = GameController::new();
    let _ = game.handle_connect(ClientConnected { addr: 1 });
    let reply = game.handle_connect(ClientConnected { addr: 2 });
    let snapshot_text = encode_world_state(&reply.snapshot);
    let value: serde_json::Value =
        serde_json::from_str(&snapshot_text).expect("snapshot frames are valid JSON");
    let players = value
        .get("players")
        .and_then(|p| p.as_object())
        .expect("the snapshot is an object keyed by player id");
    assert_eq!(players.len(), 2);
    assert_eq!(players["0"]["pos"]["x"], serde_json::Value::from(0u64));
    assert_eq!(players["1"]["pos"]["x"], serde_json::Value::from(1u64));

    let mv = game
        .handle_move(InputMoveAction { client: 1, pos: GridPos { x: 3, y: 4 } })
        .expect("session 1 is registered");
    let update_text = encode_update(&mv.update);
    let value: serde_json::Value =
        serde_json::from_str(&update_text).expect("update frames are valid JSON");
    assert_eq!(value["type"], serde_json::Value::from("SetMovement"));
    assert_eq!(value["data"]["id"], serde_json::Value::from(0u64));
    assert_eq!(value["data"]["pos"]["y"], serde_json::Value::from(4u64));
}
