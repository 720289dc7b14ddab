//! Reading the wire protocol back from text.
//!
//! Each `spec_parse_*` function is the exact meaning of its executable
//! counterpart: it consumes text from a position and yields the parsed value
//! and the position just past it, or nothing when the text does not fit the
//! grammar. JSON whitespace is allowed between tokens; keys are expected in
//! the order the server writes them.

use vstd::prelude::*;

use crate::client_controller::ClientCommand;
use crate::digits::{parse_usize_at, spec_parse_usize};
use crate::game_controller::{players_view, WorldState};
use crate::game::{GridPos, Health, Player, PlayerAction, PlayerTurn, PlayerTurnV, PlayerV};

verus! {

/// Whitespace as JSON allows it between tokens.
pub open spec fn is_ws(c: char) -> bool {
    c == ' ' || c == '\t' || c == '\n' || c == '\r'
}

/// The first index at or after `i` holding no whitespace.
pub open spec fn skip_ws(s: Seq<char>, i: int) -> int
    decreases s.len() - i,
{
    if 0 <= i < s.len() && is_ws(s[i]) {
        skip_ws(s, i + 1)
    } else {
        i
    }
}

/// Skipping whitespace never moves backwards nor past the end.
pub proof fn lemma_skip_ws_bounds(s: Seq<char>, i: int)
    ensures
        i <= skip_ws(s, i),
        i <= s.len() ==> skip_ws(s, i) <= s.len(),
    decreases s.len() - i,
{
    if 0 <= i < s.len() && is_ws(s[i]) {
        lemma_skip_ws_bounds(s, i + 1);
    }
}

/// A literal at exactly position `i`: the position just past it when the
/// text holds the literal there.
pub open spec fn spec_parse_lit(s: Seq<char>, i: int, lit: Seq<char>) -> Option<int> {
    if 0 <= i && i + lit.len() <= s.len() && s.subrange(i, i + lit.len() as int) == lit {
        Some(i + lit.len() as int)
    } else {
        None
    }
}

/// Whitespace, then a literal.
pub open spec fn spec_tok(s: Seq<char>, i: int, lit: Seq<char>) -> Option<int> {
    spec_parse_lit(s, skip_ws(s, i), lit)
}

/// A matched token only moves forward, and never past the end.
pub proof fn lemma_tok_advance(s: Seq<char>, i: int, lit: Seq<char>)
    ensures
        spec_tok(s, i, lit) matches Some(j) ==> i + lit.len() <= j <= s.len(),
{
    lemma_skip_ws_bounds(s, i);
}

/// A key token: the quoted name, whitespace allowed, then a colon.
pub open spec fn spec_key(s: Seq<char>, i: int, name: Seq<char>) -> Option<int> {
    match spec_tok(s, i, name) {
        Some(j) => spec_tok(s, j, (":")@),
        None => None,
    }
}

/// A matched key only moves forward, and never past the end.
pub proof fn lemma_key_advance(s: Seq<char>, i: int, name: Seq<char>)
    ensures
        spec_key(s, i, name) matches Some(j) ==> i + name.len() <= j <= s.len(),
{
    lemma_tok_advance(s, i, name);
    match spec_tok(s, i, name) {
        Some(m) => lemma_tok_advance(s, m, (":")@),
        None => (),
    }
}

/// Whether a character is JSON whitespace.
fn char_is_ws(c: char) -> (r: bool)
    ensures
        r == is_ws(c),
{
    c == ' ' || c == '\t' || c == '\n' || c == '\r'
}

/// Move past whitespace, exactly as [`skip_ws`] describes.
fn skip_ws_at(s: &Vec<char>, i: usize) -> (r: usize)
    requires
        i <= s@.len(),
    ensures
        r == skip_ws(s@, i as int),
        i <= r <= s@.len(),
{
    let n = s.len();
    let mut r = i;
    while r < n && char_is_ws(s[r])
        invariant
            i <= r <= n,
            n == s@.len(),
            skip_ws(s@, i as int) == skip_ws(s@, r as int),
        decreases n - r,
    {
        r += 1;
    }
    r
}

/// Match a literal at exactly position `i`, exactly as [`spec_parse_lit`]
/// describes.
fn expect_lit(s: &Vec<char>, i: usize, lit: &str) -> (r: Option<usize>)
    requires
        i <= s@.len(),
    ensures
        (match r {
            Some(j) => spec_parse_lit(s@, i as int, lit@) == Some(j as int) && i <= j <= s@.len(),
            None => spec_parse_lit(s@, i as int, lit@) is None,
        }),
{
    let m = lit.unicode_len();
    let n = s.len();
    if m > n - i {
        return None;
    }
    let mut j: usize = 0;
    while j < m
        invariant
            0 <= j <= m,
            n == s@.len(),
            i + m <= n,
            m == lit@.len(),
            forall|t: int| 0 <= t < j ==> s@[i + t] == lit@[t],
        decreases m - j,
    {
        if s[i + j] != lit.get_char(j) {
            proof {
                if spec_parse_lit(s@, i as int, lit@) is Some {
                    assert(s@.subrange(i as int, i + lit@.len() as int) == lit@);
                    assert(s@.subrange(i as int, i + lit@.len() as int)[j as int] == lit@[j as int]);
                }
            }
            return None;
        }
        j += 1;
    }
    proof {
        assert(s@.subrange(i as int, i + lit@.len() as int) =~= lit@);
    }
    Some(i + m)
}

/// Match whitespace and then a literal, exactly as [`spec_tok`] describes.
fn expect_tok(s: &Vec<char>, i: usize, lit: &str) -> (r: Option<usize>)
    requires
        i <= s@.len(),
    ensures
        (match r {
            Some(j) => spec_tok(s@, i as int, lit@) == Some(j as int) && i <= j <= s@.len(),
            None => spec_tok(s@, i as int, lit@) is None,
        }),
{
    let k = skip_ws_at(s, i);
    expect_lit(s, k, lit)
}

/// Match a key and its colon, exactly as [`spec_key`] describes.
fn expect_key(s: &Vec<char>, i: usize, name: &str) -> (r: Option<usize>)
    requires
        i <= s@.len(),
    ensures
        (match r {
            Some(j) => spec_key(s@, i as int, name@) == Some(j as int) && i <= j <= s@.len(),
            None => spec_key(s@, i as int, name@) is None,
        }),
{
    let j = match expect_tok(s, i, name) {
        Some(j) => j,
        None => {
            return None;
        },
    };
    expect_tok(s, j, ":")
}

/// A grid position object: `{"x":<uint>,"y":<uint>}`, whitespace allowed
/// between tokens.
pub open spec fn spec_parse_grid_pos(s: Seq<char>, i: int) -> Option<(GridPos, int)> {
    match spec_tok(s, i, ("{")@) {
        None => None,
        Some(i1) => match spec_key(s, i1, ("\"x\"")@) {
            None => None,
            Some(i2) => match spec_parse_usize(s, skip_ws(s, i2)) {
                None => None,
                Some((x, i3)) => match spec_tok(s, i3, (",")@) {
                    None => None,
                    Some(i4) => match spec_key(s, i4, ("\"y\"")@) {
                        None => None,
                        Some(i5) => match spec_parse_usize(s, skip_ws(s, i5)) {
                            None => None,
                            Some((y, i6)) => match spec_tok(s, i6, ("}")@) {
                                None => None,
                                Some(i7) => Some((GridPos { x, y }, i7)),
                            },
                        },
                    },
                },
            },
        },
    }
}

/// Read a grid position, exactly as [`spec_parse_grid_pos`] describes.
pub fn parse_grid_pos_at(s: &Vec<char>, i: usize) -> (r: Option<(GridPos, usize)>)
    requires
        i <= s@.len(),
    ensures
        (match r {
            Some(p) => spec_parse_grid_pos(s@, i as int) == Some((p.0, p.1 as int)) && i <= p.1
                <= s@.len(),
            None => spec_parse_grid_pos(s@, i as int) is None,
        }),
{
    let i1 = match expect_tok(s, i, "{") {
        Some(j) => j,
        None => {
            return None;
        },
    };
    let i2 = match expect_key(s, i1, "\"x\"") {
        Some(j) => j,
        None => {
            return None;
        },
    };
    let k2 = skip_ws_at(s, i2);
    let (x, i3) = match parse_usize_at(s, k2) {
        Some(p) => p,
        None => {
            return None;
        },
    };
    let i4 = match expect_tok(s, i3, ",") {
        Some(j) => j,
        None => {
            return None;
        },
    };
    let i5 = match expect_key(s, i4, "\"y\"") {
        Some(j) => j,
        None => {
            return None;
        },
    };
    let k5 = skip_ws_at(s, i5);
    let (y, i6) = match parse_usize_at(s, k5) {
        Some(p) => p,
        None => {
            return None;
        },
    };
    let i7 = match expect_tok(s, i6, "}") {
        Some(j) => j,
        None => {
            return None;
        },
    };
    Some((GridPos { x, y }, i7))
}

/// A health object: `{"max":<uint>,"current":<uint>}`, whitespace allowed
/// between tokens.
pub open spec fn spec_parse_health(s: Seq<char>, i: int) -> Option<(Health, int)> {
    match spec_tok(s, i, ("{")@) {
        None => None,
        Some(i1) => match spec_key(s, i1, ("\"max\"")@) {
            None => None,
            Some(i2) => match spec_parse_usize(s, skip_ws(s, i2)) {
                None => None,
                Some((max, i3)) => match spec_tok(s, i3, (",")@) {
                    None => None,
                    Some(i4) => match spec_key(s, i4, ("\"current\"")@) {
                        None => None,
                        Some(i5) => match spec_parse_usize(s, skip_ws(s, i5)) {
                            None => None,
                            Some((current, i6)) => match spec_tok(s, i6, ("}")@) {
                                None => None,
                                Some(i7) => Some((Health { max, current }, i7)),
                            },
                        },
                    },
                },
            },
        },
    }
}

/// Read a health record, exactly as [`spec_parse_health`] describes.
pub fn parse_health_at(s: &Vec<char>, i: usize) -> (r: Option<(Health, usize)>)
    requires
        i <= s@.len(),
    ensures
        (match r {
            Some(p) => spec_parse_health(s@, i as int) == Some((p.0, p.1 as int)) && i <= p.1
                <= s@.len(),
            None => spec_parse_health(s@, i as int) is None,
        }),
{
    let i1 = match expect_tok(s, i, "{") {
        Some(j) => j,
        None => {
            return None;
        },
    };
    let i2 = match expect_key(s, i1, "\"max\"") {
        Some(j) => j,
        None => {
            return None;
        },
    };
    let k2 = skip_ws_at(s, i2);
    let (max, i3) = match parse_usize_at(s, k2) {
        Some(p) => p,
        None => {
            return None;
        },
    };
    let i4 = match expect_tok(s, i3, ",") {
        Some(j) => j,
        None => {
            return None;
        },
    };
    let i5 = match expect_key(s, i4, "\"current\"") {
        Some(j) => j,
        None => {
            return None;
        },
    };
    let k5 = skip_ws_at(s, i5);
    let (current, i6) = match parse_usize_at(s, k5) {
        Some(p) => p,
        None => {
            return None;
        },
    };
    let i7 = match expect_tok(s, i6, "}") {
        Some(j) => j,
        None => {
            return None;
        },
    };
    Some((Health { max, current }, i7))
}

/// A nonempty `null` list: how many nulls stand there, comma separated, and
/// the position just past the last one.
pub open spec fn spec_parse_nulls(s: Seq<char>, i: int) -> Option<(nat, int)>
    decreases s.len() - i,
{
    match spec_tok(s, i, ("null")@) {
        None => None,
        Some(j) => match spec_tok(s, j, (",")@) {
            None => Some((1, j)),
            Some(j2) => {
                proof {
                    reveal_strlit("null");
                    reveal_strlit(",");
                    lemma_tok_advance(s, i, ("null")@);
                    lemma_tok_advance(s, j, (",")@);
                }
                match spec_parse_nulls(s, j2) {
                    None => None,
                    Some((n, e)) => Some(((n + 1) as nat, e)),
                }
            },
        },
    }
}

/// A matched `null` list only moves forward, and never past the end.
pub proof fn lemma_nulls_advance(s: Seq<char>, i: int)
    ensures
        spec_parse_nulls(s, i) matches Some(p) ==> i < p.1 <= s.len(),
    decreases s.len() - i,
{
    reveal_strlit("null");
    reveal_strlit(",");
    lemma_tok_advance(s, i, ("null")@);
    match spec_tok(s, i, ("null")@) {
        Some(j) => {
            lemma_tok_advance(s, j, (",")@);
            match spec_tok(s, j, (",")@) {
                Some(j2) => {
                    lemma_nulls_advance(s, j2);
                },
                None => (),
            }
        },
        None => (),
    }
}

/// An action list: `[]`, or a bracketed nonempty `null` list.
pub open spec fn spec_parse_actions(s: Seq<char>, i: int) -> Option<(nat, int)> {
    match spec_tok(s, i, ("[")@) {
        None => None,
        Some(i1) => match spec_tok(s, i1, ("]")@) {
            Some(i2) => Some((0, i2)),
            None => match spec_parse_nulls(s, i1) {
                None => None,
                Some((n, i2)) => match spec_tok(s, i2, ("]")@) {
                    None => None,
                    Some(i3) => Some((n, i3)),
                },
            },
        },
    }
}

/// Read a `null` list, exactly as [`spec_parse_nulls`] describes,
/// materializing one action per `null`.
fn parse_nulls_at(s: &Vec<char>, i: usize) -> (r: Option<(Vec<PlayerAction>, usize)>)
    requires
        i <= s@.len(),
    ensures
        (match r {
            Some(p) => spec_parse_nulls(s@, i as int) == Some((p.0@.len(), p.1 as int)) && i < p.1
                <= s@.len(),
            None => spec_parse_nulls(s@, i as int) is None,
        }),
{
    let mut acts: Vec<PlayerAction> = Vec::new();
    let mut cur = i;
    loop
        invariant
            i <= cur <= s@.len(),
            spec_parse_nulls(s@, i as int) == (match spec_parse_nulls(s@, cur as int) {
                Some(p) => Some(((acts@.len() + p.0) as nat, p.1)),
                None => None::<(nat, int)>,
            }),
        decreases s@.len() - cur,
    {
        let j = match expect_tok(s, cur, "null") {
            Some(j) => j,
            None => {
                return None;
            },
        };
        proof {
            reveal_strlit("null");
            reveal_strlit(",");
            lemma_tok_advance(s@, cur as int, ("null")@);
        }
        acts.push(PlayerAction);
        match expect_tok(s, j, ",") {
            Some(j2) => {
                proof {
                    lemma_tok_advance(s@, j as int, (",")@);
                }
                cur = j2;
            },
            None => {
                return Some((acts, j));
            },
        }
    }
}

/// Read an action list, exactly as [`spec_parse_actions`] describes.
fn parse_actions_at(s: &Vec<char>, i: usize) -> (r: Option<(Vec<PlayerAction>, usize)>)
    requires
        i <= s@.len(),
    ensures
        (match r {
            Some(p) => spec_parse_actions(s@, i as int) == Some((p.0@.len(), p.1 as int)) && i
                <= p.1 <= s@.len(),
            None => spec_parse_actions(s@, i as int) is None,
        }),
{
    let i1 = match expect_tok(s, i, "[") {
        Some(j) => j,
        None => {
            return None;
        },
    };
    match expect_tok(s, i1, "]") {
        Some(i2) => Some((Vec::new(), i2)),
        None => {
            let (acts, i2) = match parse_nulls_at(s, i1) {
                Some(p) => p,
                None => {
                    return None;
                },
            };
            let i3 = match expect_tok(s, i2, "]") {
                Some(j) => j,
                None => {
                    return None;
                },
            };
            Some((acts, i3))
        },
    }
}

/// A nonempty pending-turn object: the planned movement when one is
/// present, then the queued actions when there are any.
pub open spec fn spec_parse_turn(s: Seq<char>, i: int) -> Option<((Option<GridPos>, nat), int)> {
    match spec_tok(s, i, ("{")@) {
        None => None,
        Some(i1) => match spec_key(s, i1, ("\"movement\"")@) {
            Some(i2) => match spec_parse_grid_pos(s, i2) {
                None => None,
                Some((pos, i3)) => match spec_tok(s, i3, (",")@) {
                    None => match spec_tok(s, i3, ("}")@) {
                        None => None,
                        Some(i4) => Some(((Some(pos), 0), i4)),
                    },
                    Some(i4) => match spec_key(s, i4, ("\"actions\"")@) {
                        None => None,
                        Some(i5) => match spec_parse_actions(s, i5) {
                            None => None,
                            Some((n, i6)) => match spec_tok(s, i6, ("}")@) {
                                None => None,
                                Some(i7) => Some(((Some(pos), n), i7)),
                            },
                        },
                    },
                },
            },
            None => match spec_key(s, i1, ("\"actions\"")@) {
                None => None,
                Some(i2) => match spec_parse_actions(s, i2) {
                    None => None,
                    Some((n, i3)) => match spec_tok(s, i3, ("}")@) {
                        None => None,
                        Some(i4) => Some(((None, n), i4)),
                    },
                },
            },
        },
    }
}

/// Read a pending turn, exactly as [`spec_parse_turn`] describes.
fn parse_turn_at(s: &Vec<char>, i: usize) -> (r: Option<(PlayerTurn, usize)>)
    requires
        i <= s@.len(),
    ensures
        (match r {
            Some(p) => spec_parse_turn(s@, i as int) == Some(
                ((p.0@.movement, p.0@.actions.len()), p.1 as int),
            ) && i <= p.1 <= s@.len(),
            None => spec_parse_turn(s@, i as int) is None,
        }),
{
    let i1 = match expect_tok(s, i, "{") {
        Some(j) => j,
        None => {
            return None;
        },
    };
    match expect_key(s, i1, "\"movement\"") {
        Some(i2) => {
            let (pos, i3) = match parse_grid_pos_at(s, i2) {
                Some(p) => p,
                None => {
                    return None;
                },
            };
            match expect_tok(s, i3, ",") {
                None => {
                    let i4 = match expect_tok(s, i3, "}") {
                        Some(j) => j,
                        None => {
                            return None;
                        },
                    };
                    Some((PlayerTurn { movement: Some(pos), actions: Vec::new() }, i4))
                },
                Some(i4) => {
                    let i5 = match expect_key(s, i4, "\"actions\"") {
                        Some(j) => j,
                        None => {
                            return None;
                        },
                    };
                    let (acts, i6) = match parse_actions_at(s, i5) {
                        Some(p) => p,
                        None => {
                            return None;
                        },
                    };
                    let i7 = match expect_tok(s, i6, "}") {
                        Some(j) => j,
                        None => {
                            return None;
                        },
                    };
                    Some((PlayerTurn { movement: Some(pos), actions: acts }, i7))
                },
            }
        },
        None => {
            let i2 = match expect_key(s, i1, "\"actions\"") {
                Some(j) => j,
                None => {
                    return None;
                },
            };
            let (acts, i3) = match parse_actions_at(s, i2) {
                Some(p) => p,
                None => {
                    return None;
                },
            };
            let i4 = match expect_tok(s, i3, "}") {
                Some(j) => j,
                None => {
                    return None;
                },
            };
            Some((PlayerTurn { movement: None, actions: acts }, i4))
        },
    }
}

/// The mathematical player record the parsed pieces denote.
pub open spec fn parsed_player(
    pos: GridPos,
    health: Health,
    movement: Option<GridPos>,
    n_actions: nat,
) -> PlayerV {
    PlayerV {
        pos,
        health,
        pending_turn: PlayerTurnV {
            movement,
            actions: Seq::new(n_actions, |k: int| PlayerAction),
        },
    }
}

/// A player record object: position, health, and possibly a pending turn.
pub open spec fn spec_parse_player(s: Seq<char>, i: int) -> Option<(PlayerV, int)> {
    match spec_tok(s, i, ("{")@) {
        None => None,
        Some(i1) => match spec_key(s, i1, ("\"pos\"")@) {
            None => None,
            Some(i2) => match spec_parse_grid_pos(s, i2) {
                None => None,
                Some((pos, i3)) => match spec_tok(s, i3, (",")@) {
                    None => None,
                    Some(i4) => match spec_key(s, i4, ("\"health\"")@) {
                        None => None,
                        Some(i5) => match spec_parse_health(s, i5) {
                            None => None,
                            Some((health, i6)) => match spec_tok(s, i6, (",")@) {
                                Some(i7) => match spec_key(s, i7, ("\"pending_turn\"")@) {
                                    None => None,
                                    Some(i8) => match spec_parse_turn(s, i8) {
                                        None => None,
                                        Some(((movement, n), i9)) => match spec_tok(
                                            s,
                                            i9,
                                            ("}")@,
                                        ) {
                                            None => None,
                                            Some(i10) => Some(
                                                (parsed_player(pos, health, movement, n), i10),
                                            ),
                                        },
                                    },
                                },
                                None => match spec_tok(s, i6, ("}")@) {
                                    None => None,
                                    Some(i7) => Some((parsed_player(pos, health, None, 0), i7)),
                                },
                            },
                        },
                    },
                },
            },
        },
    }
}

/// Read a player record, exactly as [`spec_parse_player`] describes.
pub fn parse_player_at(s: &Vec<char>, i: usize) -> (r: Option<(Player, usize)>)
    requires
        i <= s@.len(),
    ensures
        (match r {
            Some(p) => spec_parse_player(s@, i as int) == Some((p.0@, p.1 as int)) && i <= p.1
                <= s@.len(),
            None => spec_parse_player(s@, i as int) is None,
        }),
{
    let i1 = match expect_tok(s, i, "{") {
        Some(j) => j,
        None => {
            return None;
        },
    };
    let i2 = match expect_key(s, i1, "\"pos\"") {
        Some(j) => j,
        None => {
            return None;
        },
    };
    let (pos, i3) = match parse_grid_pos_at(s, i2) {
        Some(p) => p,
        None => {
            return None;
        },
    };
    let i4 = match expect_tok(s, i3, ",") {
        Some(j) => j,
        None => {
            return None;
        },
    };
    let i5 = match expect_key(s, i4, "\"health\"") {
        Some(j) => j,
        None => {
            return None;
        },
    };
    let (health, i6) = match parse_health_at(s, i5) {
        Some(p) => p,
        None => {
            return None;
        },
    };
    match expect_tok(s, i6, ",") {
        Some(i7) => {
            let i8 = match expect_key(s, i7, "\"pending_turn\"") {
                Some(j) => j,
                None => {
                    return None;
                },
            };
            let (turn, i9) = match parse_turn_at(s, i8) {
                Some(p) => p,
                None => {
                    return None;
                },
            };
            let i10 = match expect_tok(s, i9, "}") {
                Some(j) => j,
                None => {
                    return None;
                },
            };
            let player = Player { pos, health, pending_turn: turn };
            proof {
                assert(player@.pending_turn.actions =~= Seq::new(
                    player@.pending_turn.actions.len(),
                    |k: int| PlayerAction,
                ));
            }
            Some((player, i10))
        },
        None => {
            let i7 = match expect_tok(s, i6, "}") {
                Some(j) => j,
                None => {
                    return None;
                },
            };
            let player = Player { pos, health, pending_turn: PlayerTurn { movement: None, actions: Vec::new() } };
            proof {
                assert(player@.pending_turn.actions =~= Seq::new(0, |k: int| PlayerAction));
            }
            Some((player, i7))
        },
    }
}

/// A matched number only moves forward, and never past the end.
pub proof fn lemma_usize_advance(s: Seq<char>, i: int)
    requires
        0 <= i <= s.len(),
    ensures
        spec_parse_usize(s, i) matches Some(p) ==> i < p.1 <= s.len(),
{
    crate::digits::lemma_digits_end_bounds(s, i);
}

/// A matched grid position only moves forward, and never past the end.
pub proof fn lemma_grid_pos_advance(s: Seq<char>, i: int)
    ensures
        spec_parse_grid_pos(s, i) matches Some(p) ==> i < p.1 <= s.len(),
{
    reveal_strlit("{");
    lemma_tok_advance(s, i, ("{")@);
    match spec_tok(s, i, ("{")@) {
        None => (),
        Some(i1) => {
            lemma_key_advance(s, i1, ("\"x\"")@);
            match spec_key(s, i1, ("\"x\"")@) {
                None => (),
                Some(i2) => {
                    lemma_skip_ws_bounds(s, i2);
                    lemma_usize_advance(s, skip_ws(s, i2));
                    match spec_parse_usize(s, skip_ws(s, i2)) {
                        None => (),
                        Some((x, i3)) => {
                            lemma_tok_advance(s, i3, (",")@);
                            match spec_tok(s, i3, (",")@) {
                                None => (),
                                Some(i4) => {
                                    lemma_key_advance(s, i4, ("\"y\"")@);
                                    match spec_key(s, i4, ("\"y\"")@) {
                                        None => (),
                                        Some(i5) => {
                                            lemma_skip_ws_bounds(s, i5);
                                            lemma_usize_advance(s, skip_ws(s, i5));
                                            match spec_parse_usize(s, skip_ws(s, i5)) {
                                                None => (),
                                                Some((y, i6)) => {
                                                    lemma_tok_advance(s, i6, ("}")@);
                                                },
                                            }
                                        },
                                    }
                                },
                            }
                        },
                    }
                },
            }
        },
    }
}

/// A matched health record only moves forward, and never past the end.
pub proof fn lemma_health_advance(s: Seq<char>, i: int)
    ensures
        spec_parse_health(s, i) matches Some(p) ==> i < p.1 <= s.len(),
{
    reveal_strlit("{");
    lemma_tok_advance(s, i, ("{")@);
    match spec_tok(s, i, ("{")@) {
        None => (),
        Some(i1) => {
            lemma_key_advance(s, i1, ("\"max\"")@);
            match spec_key(s, i1, ("\"max\"")@) {
                None => (),
                Some(i2) => {
                    lemma_skip_ws_bounds(s, i2);
                    lemma_usize_advance(s, skip_ws(s, i2));
                    match spec_parse_usize(s, skip_ws(s, i2)) {
                        None => (),
                        Some((max, i3)) => {
                            lemma_tok_advance(s, i3, (",")@);
                            match spec_tok(s, i3, (",")@) {
                                None => (),
                                Some(i4) => {
                                    lemma_key_advance(s, i4, ("\"current\"")@);
                                    match spec_key(s, i4, ("\"current\"")@) {
                                        None => (),
                                        Some(i5) => {
                                            lemma_skip_ws_bounds(s, i5);
                                            lemma_usize_advance(s, skip_ws(s, i5));
                                            match spec_parse_usize(s, skip_ws(s, i5)) {
                                                None => (),
                                                Some((current, i6)) => {
                                                    lemma_tok_advance(s, i6, ("}")@);
                                                },
                                            }
                                        },
                                    }
                                },
                            }
                        },
                    }
                },
            }
        },
    }
}

/// A matched action list only moves forward, and never past the end.
pub proof fn lemma_actions_advance(s: Seq<char>, i: int)
    ensures
        spec_parse_actions(s, i) matches Some(p) ==> i < p.1 <= s.len(),
{
    reveal_strlit("[");
    reveal_strlit("]");
    lemma_tok_advance(s, i, ("[")@);
    match spec_tok(s, i, ("[")@) {
        None => (),
        Some(i1) => {
            lemma_tok_advance(s, i1, ("]")@);
            lemma_nulls_advance(s, i1);
            match spec_parse_nulls(s, i1) {
                None => (),
                Some((n, i2)) => {
                    lemma_tok_advance(s, i2, ("]")@);
                },
            }
        },
    }
}

/// A matched pending turn only moves forward, and never past the end.
pub proof fn lemma_turn_advance(s: Seq<char>, i: int)
    ensures
        spec_parse_turn(s, i) matches Some(p) ==> i < p.1 <= s.len(),
{
    reveal_strlit("{");
    lemma_tok_advance(s, i, ("{")@);
    match spec_tok(s, i, ("{")@) {
        None => (),
        Some(i1) => {
            lemma_key_advance(s, i1, ("\"movement\"")@);
            match spec_key(s, i1, ("\"movement\"")@) {
                Some(i2) => {
                    lemma_grid_pos_advance(s, i2);
                    match spec_parse_grid_pos(s, i2) {
                        None => (),
                        Some((pos, i3)) => {
                            lemma_tok_advance(s, i3, (",")@);
                            lemma_tok_advance(s, i3, ("}")@);
                            match spec_tok(s, i3, (",")@) {
                                None => (),
                                Some(i4) => {
                                    lemma_key_advance(s, i4, ("\"actions\"")@);
                                    match spec_key(s, i4, ("\"actions\"")@) {
                                        None => (),
                                        Some(i5) => {
                                            lemma_actions_advance(s, i5);
                                            match spec_parse_actions(s, i5) {
                                                None => (),
                                                Some((n, i6)) => {
                                                    lemma_tok_advance(s, i6, ("}")@);
                                                },
                                            }
                                        },
                                    }
                                },
                            }
                        },
                    }
                },
                None => {
                    lemma_key_advance(s, i1, ("\"actions\"")@);
                    match spec_key(s, i1, ("\"actions\"")@) {
                        None => (),
                        Some(i2) => {
                            lemma_actions_advance(s, i2);
                            match spec_parse_actions(s, i2) {
                                None => (),
                                Some((n, i3)) => {
                                    lemma_tok_advance(s, i3, ("}")@);
                                },
                            }
                        },
                    }
                },
            }
        },
    }
}

/// A matched player record only moves forward, and never past the end.
pub proof fn lemma_player_advance(s: Seq<char>, i: int)
    ensures
        spec_parse_player(s, i) matches Some(p) ==> i < p.1 <= s.len(),
{
    reveal_strlit("{");
    lemma_tok_advance(s, i, ("{")@);
    match spec_tok(s, i, ("{")@) {
        None => (),
        Some(i1) => {
            lemma_key_advance(s, i1, ("\"pos\"")@);
            match spec_key(s, i1, ("\"pos\"")@) {
                None => (),
                Some(i2) => {
                    lemma_grid_pos_advance(s, i2);
                    match spec_parse_grid_pos(s, i2) {
                        None => (),
                        Some((pos, i3)) => {
                            lemma_tok_advance(s, i3, (",")@);
                            match spec_tok(s, i3, (",")@) {
                                None => (),
                                Some(i4) => {
                                    lemma_key_advance(s, i4, ("\"health\"")@);
                                    match spec_key(s, i4, ("\"health\"")@) {
                                        None => (),
                                        Some(i5) => {
                                            lemma_health_advance(s, i5);
                                            match spec_parse_health(s, i5) {
                                                None => (),
                                                Some((health, i6)) => {
                                                    lemma_tok_advance(s, i6, (",")@);
                                                    lemma_tok_advance(s, i6, ("}")@);
                                                    match spec_tok(s, i6, (",")@) {
                                                        None => (),
                                                        Some(i7) => {
                                                            lemma_key_advance(
                                                                s,
                                                                i7,
                                                                ("\"pending_turn\"")@,
                                                            );
                                                            match spec_key(
                                                                s,
                                                                i7,
                                                                ("\"pending_turn\"")@,
                                                            ) {
                                                                None => (),
                                                                Some(i8) => {
                                                                    lemma_turn_advance(s, i8);
                                                                    match spec_parse_turn(s, i8) {
                                                                        None => (),
                                                                        Some((t, i9)) => {
                                                                            lemma_tok_advance(
                                                                                s,
                                                                                i9,
                                                                                ("}")@,
                                                                            );
                                                                        },
                                                                    }
                                                                },
                                                            }
                                                        },
                                                    }
                                                },
                                            }
                                        },
                                    }
                                },
                            }
                        },
                    }
                },
            }
        },
    }
}

/// The snapshot entries from expected id `k` on: each entry is the decimal
/// id as a JSON object key — dense, in order — then the player record;
/// entries are comma separated.
pub open spec fn spec_parse_entries(s: Seq<char>, i: int, k: nat) -> Option<(Seq<PlayerV>, int)>
    decreases s.len() - i,
{
    match spec_tok(s, i, ("\"")@) {
        None => None,
        Some(i1) => match spec_parse_usize(s, i1) {
            None => None,
            Some((id, i2)) => {
                if id as nat != k {
                    None
                } else {
                    match spec_parse_lit(s, i2, ("\"")@) {
                    None => None,
                    Some(i3) => match spec_tok(s, i3, (":")@) {
                        None => None,
                        Some(i4) => match spec_parse_player(s, i4) {
                            None => None,
                            Some((p, i5)) => match spec_tok(s, i5, (",")@) {
                                None => Some((seq![p], i5)),
                                Some(i6) => {
                                    proof {
                                        reveal_strlit("\"");
                                        reveal_strlit(",");
                                        lemma_tok_advance(s, i, ("\"")@);
                                        lemma_usize_advance(s, i1);
                                        lemma_tok_advance(s, i3, (":")@);
                                        lemma_player_advance(s, i4);
                                        lemma_tok_advance(s, i5, (",")@);
                                    }
                                        match spec_parse_entries(s, i6, (k + 1) as nat) {
                                            None => None,
                                            Some((ps, e)) => Some((seq![p] + ps, e)),
                                        }
                                    },
                                },
                            },
                        },
                    }
                }
            },
        },
    }
}

/// A full snapshot: the `players` object with dense entries from id zero,
/// then the end of the text.
pub open spec fn spec_parse_world_state(s: Seq<char>) -> Option<Seq<PlayerV>> {
    match spec_tok(s, 0, ("{")@) {
        None => None,
        Some(i1) => match spec_key(s, i1, ("\"players\"")@) {
            None => None,
            Some(i2) => match spec_tok(s, i2, ("{")@) {
                None => None,
                Some(i3) => match spec_tok(s, i3, ("}")@) {
                    Some(i4) => match spec_tok(s, i4, ("}")@) {
                        None => None,
                        Some(i5) => if skip_ws(s, i5) == s.len() {
                            Some(Seq::empty())
                        } else {
                            None
                        },
                    },
                    None => match spec_parse_entries(s, i3, 0) {
                        None => None,
                        Some((ps, i4)) => match spec_tok(s, i4, ("}")@) {
                            None => None,
                            Some(i5) => match spec_tok(s, i5, ("}")@) {
                                None => None,
                                Some(i6) => if skip_ws(s, i6) == s.len() {
                                    Some(ps)
                                } else {
                                    None
                                },
                            },
                        },
                    },
                },
            },
        },
    }
}

/// The one command a client may send: `{"message":"MoveTo","pos":<pos>}`,
/// with nothing but whitespace after it.
pub open spec fn spec_parse_command(s: Seq<char>) -> Option<ClientCommand> {
    match spec_tok(s, 0, ("{")@) {
        None => None,
        Some(i1) => match spec_key(s, i1, ("\"message\"")@) {
            None => None,
            Some(i2) => match spec_tok(s, i2, ("\"MoveTo\"")@) {
                None => None,
                Some(i3) => match spec_tok(s, i3, (",")@) {
                    None => None,
                    Some(i4) => match spec_key(s, i4, ("\"pos\"")@) {
                        None => None,
                        Some(i5) => match spec_parse_grid_pos(s, i5) {
                            None => None,
                            Some((pos, i6)) => match spec_tok(s, i6, ("}")@) {
                                None => None,
                                Some(i7) => if skip_ws(s, i7) == s.len() {
                                    Some(ClientCommand::MoveTo { pos })
                                } else {
                                    None
                                },
                            },
                        },
                    },
                },
            },
        },
    }
}

/// The characters of a text, in order.
fn str_to_chars(s: &str) -> (v: Vec<char>)
    ensures
        v@ == s@,
{
    let n = s.unicode_len();
    let mut v: Vec<char> = Vec::new();
    let mut idx: usize = 0;
    while idx < n
        invariant
            idx <= n,
            n == s@.len(),
            v@ == s@.subrange(0, idx as int),
        decreases n - idx,
    {
        let c = s.get_char(idx);
        v.push(c);
        proof {
            assert(v@ =~= s@.subrange(0, idx + 1));
        }
        idx += 1;
    }
    proof {
        assert(s@.subrange(0, n as int) =~= s@);
    }
    v
}

/// Read the snapshot entries, exactly as [`spec_parse_entries`] describes
/// with expected ids counted from zero.
#[verifier::rlimit(80)]
fn parse_entries_at(s: &Vec<char>, i: usize) -> (r: Option<(Vec<Player>, usize)>)
    requires
        i <= s@.len(),
    ensures
        (match r {
            Some(p) => spec_parse_entries(s@, i as int, 0) == Some(
                (players_view(p.0@), p.1 as int),
            ) && i <= p.1 <= s@.len(),
            None => spec_parse_entries(s@, i as int, 0) is None,
        }),
{
    let mut acc: Vec<Player> = Vec::new();
    let mut cur = i;
    loop
        invariant
            i <= cur <= s@.len(),
            spec_parse_entries(s@, i as int, 0) == (match spec_parse_entries(
                s@,
                cur as int,
                acc@.len(),
            ) {
                Some(p) => Some(
                    (players_view(acc@) + p.0, p.1),
                ),
                None => None::<(Seq<PlayerV>, int)>,
            }),
        decreases s@.len() - cur,
    {
        let ghost k = acc@.len();
        let i1 = match expect_tok(s, cur, "\"") {
            Some(j) => j,
            None => {
                return None;
            },
        };
        let (id, i2) = match parse_usize_at(s, i1) {
            Some(p) => p,
            None => {
                return None;
            },
        };
        if id != acc.len() {
            return None;
        }
        let i3 = match expect_lit(s, i2, "\"") {
            Some(j) => j,
            None => {
                return None;
            },
        };
        let i4 = match expect_tok(s, i3, ":") {
            Some(j) => j,
            None => {
                return None;
            },
        };
        let (player, i5) = match parse_player_at(s, i4) {
            Some(p) => p,
            None => {
                return None;
            },
        };
        acc.push(player);
        proof {
            assert(players_view(acc@) =~= players_view(
                acc@.drop_last(),
            ) + seq![player@]);
        }
        match expect_tok(s, i5, ",") {
            Some(i6) => {
                proof {
                    reveal_strlit(",");
                    lemma_tok_advance(s@, i5 as int, (",")@);
                    assert(players_view(acc@.drop_last()) + (seq![player@]
                        + (match spec_parse_entries(s@, i6 as int, acc@.len()) {
                        Some(p) => p.0,
                        None => Seq::empty(),
                    })) =~= (players_view(acc@.drop_last()) + seq![
                        player@,
                    ]) + (match spec_parse_entries(s@, i6 as int, acc@.len()) {
                        Some(p) => p.0,
                        None => Seq::empty(),
                    }));
                }
                cur = i6;
            },
            None => {
                proof {
                    assert(players_view(acc@.drop_last()) + seq![player@]
                        =~= players_view(acc@));
                }
                return Some((acc, i5));
            },
        }
    }
}

/// Read a full snapshot, exactly as [`spec_parse_world_state`] describes.
pub fn parse_world_state(text: &str) -> (r: Option<WorldState>)
    ensures
        (match r {
            Some(w) => spec_parse_world_state(text@) == Some(w@),
            None => spec_parse_world_state(text@) is None,
        }),
{
    let s = str_to_chars(text);
    let i1 = match expect_tok(&s, 0, "{") {
        Some(j) => j,
        None => {
            return None;
        },
    };
    let i2 = match expect_key(&s, i1, "\"players\"") {
        Some(j) => j,
        None => {
            return None;
        },
    };
    let i3 = match expect_tok(&s, i2, "{") {
        Some(j) => j,
        None => {
            return None;
        },
    };
    match expect_tok(&s, i3, "}") {
        Some(i4) => {
            let i5 = match expect_tok(&s, i4, "}") {
                Some(j) => j,
                None => {
                    return None;
                },
            };
            let e = skip_ws_at(&s, i5);
            if e == s.len() {
                let w = WorldState { players: Vec::new() };
                proof {
                    assert(w@ =~= Seq::<PlayerV>::empty());
                }
                Some(w)
            } else {
                None
            }
        },
        None => {
            let (players, i4) = match parse_entries_at(&s, i3) {
                Some(p) => p,
                None => {
                    return None;
                },
            };
            let i5 = match expect_tok(&s, i4, "}") {
                Some(j) => j,
                None => {
                    return None;
                },
            };
            let i6 = match expect_tok(&s, i5, "}") {
                Some(j) => j,
                None => {
                    return None;
                },
            };
            let e = skip_ws_at(&s, i6);
            if e == s.len() {
                Some(WorldState { players })
            } else {
                None
            }
        },
    }
}

/// Read a client command, exactly as [`spec_parse_command`] describes.
pub fn parse_client_command(text: &str) -> (r: Option<ClientCommand>)
    ensures
        r == spec_parse_command(text@),
{
    let s = str_to_chars(text);
    let i1 = match expect_tok(&s, 0, "{") {
        Some(j) => j,
        None => {
            return None;
        },
    };
    let i2 = match expect_key(&s, i1, "\"message\"") {
        Some(j) => j,
        None => {
            return None;
        },
    };
    let i3 = match expect_tok(&s, i2, "\"MoveTo\"") {
        Some(j) => j,
        None => {
            return None;
        },
    };
    let i4 = match expect_tok(&s, i3, ",") {
        Some(j) => j,
        None => {
            return None;
        },
    };
    let i5 = match expect_key(&s, i4, "\"pos\"") {
        Some(j) => j,
        None => {
            return None;
        },
    };
    let (pos, i6) = match parse_grid_pos_at(&s, i5) {
        Some(p) => p,
        None => {
            return None;
        },
    };
    let i7 = match expect_tok(&s, i6, "}") {
        Some(j) => j,
        None => {
            return None;
        },
    };
    let e = skip_ws_at(&s, i7);
    if e == s.len() {
        Some(ClientCommand::MoveTo { pos })
    } else {
        None
    }
}

} // verus!
