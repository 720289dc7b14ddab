//! The JSON wire protocol: the exact text the server writes for snapshots
//! and deltas, and the parsing of the one frame shape a client may send.
//!
//! One JSON text frame carries one message. The `json_of_*` functions state
//! the text character by character; the encoders produce exactly that text,
//! and the parsers are exact implementations of their `spec_parse_*`
//! counterparts.

use vstd::prelude::*;

use crate::client_controller::ClientCommand;
use crate::digits::{
    char_is_digit, dec_of, digit_val, digits_end, digits_val, is_digit, parse_usize_at, push_dec,
    spec_parse_usize,
};
use crate::game::{GridPos, Health, Player, PlayerAction, PlayerTurn, PlayerTurnV, PlayerV};
use crate::game_controller::{players_view, Update, UpdateV, WorldState};

verus! {

/// The JSON text of a grid position.
pub open spec fn json_of_grid_pos(p: GridPos) -> Seq<char> {
    ("{\"x\":")@ + dec_of(p.x as nat) + (",\"y\":")@ + dec_of(p.y as nat) + ("}")@
}

/// The JSON text of a health record.
pub open spec fn json_of_health(h: Health) -> Seq<char> {
    ("{\"max\":")@ + dec_of(h.max as nat) + (",\"current\":")@ + dec_of(h.current as nat) + ("}")@
}

/// The text of `n` queued actions, comma separated: an action carries no
/// data yet and is written as `null`.
pub open spec fn nulls(n: nat) -> Seq<char>
    decreases n,
{
    if n == 0 {
        Seq::empty()
    } else if n == 1 {
        ("null")@
    } else {
        nulls((n - 1) as nat) + (",null")@
    }
}

/// The JSON text of a queue of `n` actions.
pub open spec fn json_of_actions(n: nat) -> Seq<char> {
    ("[")@ + nulls(n) + ("]")@
}

/// The JSON text of a nonempty pending turn: the planned movement when one
/// exists, then the queued actions when there are any.
pub open spec fn json_of_turn(t: PlayerTurnV) -> Seq<char> {
    match t.movement {
        Some(pos) => {
            if t.actions.len() == 0 {
                ("{\"movement\":")@ + json_of_grid_pos(pos) + ("}")@
            } else {
                ("{\"movement\":")@ + json_of_grid_pos(pos) + (",\"actions\":")@
                    + json_of_actions(t.actions.len()) + ("}")@
            }
        },
        None => ("{\"actions\":")@ + json_of_actions(t.actions.len()) + ("}")@,
    }
}

/// The JSON text of a player record; an empty pending turn is omitted
/// entirely.
pub open spec fn json_of_player(p: PlayerV) -> Seq<char> {
    ("{\"pos\":")@ + json_of_grid_pos(p.pos) + (",\"health\":")@ + json_of_health(p.health) + (
    if p.pending_turn.is_empty() {
        Seq::<char>::empty()
    } else {
        (",\"pending_turn\":")@ + json_of_turn(p.pending_turn)
    }) + ("}")@
}

/// One snapshot entry: the player's id as a JSON object key, then its
/// record.
pub open spec fn json_of_entry(id: nat, p: PlayerV) -> Seq<char> {
    ("\"")@ + dec_of(id) + ("\":")@ + json_of_player(p)
}

/// All snapshot entries, in id order, comma separated.
pub open spec fn json_of_entries(ps: Seq<PlayerV>) -> Seq<char>
    decreases ps.len(),
{
    if ps.len() == 0 {
        Seq::empty()
    } else if ps.len() == 1 {
        json_of_entry(0, ps[0])
    } else {
        json_of_entries(ps.drop_last()) + (",")@ + json_of_entry((ps.len() - 1) as nat, ps.last())
    }
}

/// The JSON text of a full snapshot.
pub open spec fn json_of_world_state(ps: Seq<PlayerV>) -> Seq<char> {
    ("{\"players\":{")@ + json_of_entries(ps) + ("}}")@
}

/// The JSON text of a delta event.
pub open spec fn json_of_update(u: UpdateV) -> Seq<char> {
    match u {
        UpdateV::PlayerAdded { id, data } => ("{\"type\":\"PlayerAdded\",\"data\":{\"id\":")@
            + dec_of(id as nat) + (",\"data\":")@ + json_of_player(data) + ("}}")@,
        UpdateV::SetMovement { id, pos } => ("{\"type\":\"SetMovement\",\"data\":{\"id\":")@
            + dec_of(id as nat) + (",\"pos\":")@ + json_of_grid_pos(pos) + ("}}")@,
    }
}

/// Append the JSON text of a grid position.
fn push_grid_pos(out: &mut String, p: &GridPos)
    ensures
        final(out)@ == old(out)@ + json_of_grid_pos(*p),
{
    out.append("{\"x\":");
    push_dec(out, p.x);
    out.append(",\"y\":");
    push_dec(out, p.y);
    out.append("}");
    proof {
        assert(final(out)@ =~= old(out)@ + json_of_grid_pos(*p));
    }
}

/// Append the JSON text of a health record.
fn push_health(out: &mut String, h: &Health)
    ensures
        final(out)@ == old(out)@ + json_of_health(*h),
{
    out.append("{\"max\":");
    push_dec(out, h.max);
    out.append(",\"current\":");
    push_dec(out, h.current);
    out.append("}");
    proof {
        assert(final(out)@ =~= old(out)@ + json_of_health(*h));
    }
}

/// Append the JSON text of a queue of actions.
fn push_actions(out: &mut String, v: &Vec<PlayerAction>)
    ensures
        final(out)@ == old(out)@ + json_of_actions(v@.len()),
{
    out.append("[");
    let n = v.len();
    let mut k: usize = 0;
    while k < n
        invariant
            k <= n,
            out@ == old(out)@ + ("[")@ + nulls(k as nat),
        decreases n - k,
    {
        if k == 0 {
            out.append("null");
        } else {
            out.append(",null");
        }
        proof {
            assert(out@ =~= old(out)@ + ("[")@ + nulls((k + 1) as nat));
        }
        k += 1;
    }
    out.append("]");
    proof {
        assert(final(out)@ =~= old(out)@ + json_of_actions(v@.len()));
    }
}

/// Append the JSON text of a nonempty pending turn.
fn push_turn(out: &mut String, t: &PlayerTurn)
    requires
        !t@.is_empty(),
    ensures
        final(out)@ == old(out)@ + json_of_turn(t@),
{
    match &t.movement {
        Some(pos) => {
            out.append("{\"movement\":");
            push_grid_pos(out, pos);
            if t.actions.len() > 0 {
                out.append(",\"actions\":");
                push_actions(out, &t.actions);
            }
            out.append("}");
        },
        None => {
            out.append("{\"actions\":");
            push_actions(out, &t.actions);
            out.append("}");
        },
    }
    proof {
        assert(final(out)@ =~= old(out)@ + json_of_turn(t@));
    }
}

/// Append the JSON text of a player record.
fn push_player(out: &mut String, p: &Player)
    ensures
        final(out)@ == old(out)@ + json_of_player(p@),
{
    out.append("{\"pos\":");
    push_grid_pos(out, &p.pos);
    out.append(",\"health\":");
    push_health(out, &p.health);
    if !p.pending_turn.is_empty() {
        out.append(",\"pending_turn\":");
        push_turn(out, &p.pending_turn);
    }
    out.append("}");
    proof {
        assert(final(out)@ =~= old(out)@ + json_of_player(p@));
    }
}

/// Serialize a full snapshot, exactly as [`json_of_world_state`] states it.
pub fn encode_world_state(w: &WorldState) -> (r: String)
    ensures
        r@ == json_of_world_state(w@),
{
    let ghost ps = players_view(w.players@);
    let mut out = String::new();
    out.append("{\"players\":{");
    let n = w.players.len();
    let mut idx: usize = 0;
    while idx < n
        invariant
            idx <= n,
            n == w.players@.len(),
            ps == players_view(w.players@),
            out@ == ("{\"players\":{")@ + json_of_entries(ps.take(idx as int)),
        decreases n - idx,
    {
        if idx > 0 {
            out.append(",");
        }
        out.append("\"");
        push_dec(&mut out, idx);
        out.append("\":");
        push_player(&mut out, &w.players[idx]);
        proof {
            let t1 = ps.take(idx as int);
            let t2 = ps.take(idx as int + 1);
            assert(t2.drop_last() =~= t1);
            assert(t2.last() == ps[idx as int]);
            assert(ps[idx as int] == w.players@[idx as int]@);
            if idx == 0 {
                assert(json_of_entries(t2) == json_of_entry(0, ps[0]));
            } else {
                assert(json_of_entries(t2) == json_of_entries(t1) + (",")@ + json_of_entry(
                    idx as nat,
                    ps[idx as int],
                ));
            }
            assert(out@ =~= ("{\"players\":{")@ + json_of_entries(t2));
        }
        idx += 1;
    }
    out.append("}}");
    proof {
        assert(ps.take(n as int) =~= ps);
        assert(out@ =~= json_of_world_state(w@));
    }
    out
}

/// Serialize a delta event, exactly as [`json_of_update`] states it.
pub fn encode_update(u: &Update) -> (r: String)
    ensures
        r@ == json_of_update(u@),
{
    let mut out = String::new();
    match u {
        Update::PlayerAdded { id, data } => {
            out.append("{\"type\":\"PlayerAdded\",\"data\":{\"id\":");
            push_dec(&mut out, *id);
            out.append(",\"data\":");
            push_player(&mut out, data);
            out.append("}}");
        },
        Update::SetMovement { id, pos } => {
            out.append("{\"type\":\"SetMovement\",\"data\":{\"id\":");
            push_dec(&mut out, *id);
            out.append(",\"pos\":");
            push_grid_pos(&mut out, pos);
            out.append("}}");
        },
    }
    proof {
        assert(out@ =~= json_of_update(u@));
    }
    out
}

} // verus!
