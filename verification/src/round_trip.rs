//! The two directions of the wire codec agree: what the server serializes,
//! the parser reads back unchanged.

use vstd::prelude::*;

use crate::digits::{dec_of, is_digit, lemma_dec_of_props, lemma_parse_usize_complete, spec_parse_usize};
use crate::game::{GridPos, Health, PlayerTurnV, PlayerV};
use crate::parse::{is_ws, parsed_player, skip_ws, spec_key, spec_parse_actions, spec_parse_grid_pos, spec_parse_health, spec_parse_lit, spec_parse_entries, spec_parse_nulls, spec_parse_player, spec_parse_turn, spec_parse_world_state, spec_tok};
use crate::protocol::{json_of_actions, json_of_entries, json_of_grid_pos, json_of_health, json_of_entry, json_of_player, json_of_turn, json_of_world_state, nulls};

verus! {

/// An embedded concatenation splits into an embedded prefix and an embedded
/// suffix.
proof fn lemma_split(s: Seq<char>, i: int, a: Seq<char>, b: Seq<char>)
    requires
        0 <= i,
        i + a.len() + b.len() <= s.len(),
        s.subrange(i, i + a.len() + b.len()) == a + b,
    ensures
        s.subrange(i, i + a.len() as int) == a,
        s.subrange(i + a.len() as int, i + a.len() + b.len()) == b,
{
    let w = s.subrange(i, i + a.len() + b.len());
    assert forall|t: int| 0 <= t < a.len() implies s.subrange(i, i + a.len() as int)[t] == a[t] by {
        assert(w[t] == (a + b)[t]);
    }
    assert(s.subrange(i, i + a.len() as int) =~= a);
    assert forall|t: int|
        0 <= t < b.len() implies s.subrange(i + a.len() as int, i + a.len() + b.len())[t] == b[t] by {
        assert(w[a.len() + t] == (a + b)[a.len() + t]);
    }
    assert(s.subrange(i + a.len() as int, i + a.len() + b.len()) =~= b);
}

/// An embedded literal whose first character is no whitespace is matched as
/// a token.
proof fn lemma_tok_complete(s: Seq<char>, i: int, lit: Seq<char>)
    requires
        0 <= i,
        i + lit.len() <= s.len(),
        s.subrange(i, i + lit.len() as int) == lit,
        lit.len() >= 1,
        !is_ws(lit[0]),
    ensures
        spec_tok(s, i, lit) == Some(i + lit.len() as int),
{
    assert(s[i] == s.subrange(i, i + lit.len() as int)[0]);
    assert(skip_ws(s, i) == i);
}

/// A literal cannot be matched where the text differs from it.
proof fn lemma_lit_mismatch(s: Seq<char>, i: int, lit: Seq<char>, t: int)
    requires
        0 <= i,
        0 <= t < lit.len(),
        i + t < s.len(),
        s[i + t] != lit[t],
    ensures
        spec_parse_lit(s, i, lit) is None,
{
    if i + lit.len() <= s.len() {
        if s.subrange(i, i + lit.len() as int) == lit {
            assert(s.subrange(i, i + lit.len() as int)[t] == lit[t]);
        }
    }
}

/// A token cannot be matched where the text, with no whitespace in front,
/// differs from the literal.
proof fn lemma_tok_mismatch(s: Seq<char>, i: int, lit: Seq<char>, t: int)
    requires
        0 <= i,
        i < s.len(),
        !is_ws(s[i]),
        0 <= t < lit.len(),
        i + t < s.len(),
        s[i + t] != lit[t],
    ensures
        spec_tok(s, i, lit) is None,
{
    assert(skip_ws(s, i) == i);
    lemma_lit_mismatch(s, i, lit, t);
}

/// An embedded key name followed by its colon is matched as a key.
proof fn lemma_key_complete(s: Seq<char>, i: int, name: Seq<char>)
    requires
        0 <= i,
        i + name.len() + 1 <= s.len(),
        s.subrange(i, i + name.len() as int) == name,
        name.len() >= 1,
        !is_ws(name[0]),
        s[i + name.len() as int] == ':',
    ensures
        spec_key(s, i, name) == Some(i + name.len() + 1),
{
    reveal_strlit(":");
    lemma_tok_complete(s, i, name);
    let j = i + name.len() as int;
    assert(skip_ws(s, j) == j);
    assert(s.subrange(j, j + 1) =~= (":")@);
    lemma_tok_complete(s, j, (":")@);
}

/// One character of an embedded sequence.
proof fn lemma_embed_char(s: Seq<char>, i: int, lit: Seq<char>, t: int)
    requires
        0 <= i,
        i + lit.len() <= s.len(),
        s.subrange(i, i + lit.len() as int) == lit,
        0 <= t < lit.len(),
    ensures
        s[i + t] == lit[t],
{
    assert(s.subrange(i, i + lit.len() as int)[t] == lit[t]);
}

/// A slice of an embedded sequence is itself embedded.
proof fn lemma_embed_slice(s: Seq<char>, i: int, lit: Seq<char>, t1: int, t2: int)
    requires
        0 <= i,
        i + lit.len() <= s.len(),
        s.subrange(i, i + lit.len() as int) == lit,
        0 <= t1 <= t2 <= lit.len(),
    ensures
        s.subrange(i + t1, i + t2) == lit.subrange(t1, t2),
{
    assert forall|v: int|
        0 <= v < t2 - t1 implies s.subrange(i + t1, i + t2)[v] == lit.subrange(t1, t2)[v] by {
        assert(s.subrange(i + t1, i + t2)[v] == s[i + t1 + v]);
        assert(s.subrange(i, i + lit.len() as int)[t1 + v] == s[i + (t1 + v)]);
        assert(lit.subrange(t1, t2)[v] == lit[t1 + v]);
    }
    assert(s.subrange(i + t1, i + t2) =~= lit.subrange(t1, t2));
}

/// An embedded serialized grid position is parsed back unchanged.
proof fn lemma_grid_pos_complete(s: Seq<char>, i: int, p: GridPos)
    requires
        0 <= i,
        i + json_of_grid_pos(p).len() <= s.len(),
        s.subrange(i, i + json_of_grid_pos(p).len() as int) == json_of_grid_pos(p),
    ensures
        spec_parse_grid_pos(s, i) == Some((p, i + json_of_grid_pos(p).len() as int)),
{
    reveal_strlit("{\"x\":");
    reveal_strlit(",\"y\":");
    reveal_strlit("}");
    reveal_strlit("{");
    reveal_strlit("\"x\"");
    reveal_strlit("\"y\"");
    reveal_strlit(",");
    let a1 = ("{\"x\":")@;
    let d1 = dec_of(p.x as nat);
    let a2 = (",\"y\":")@;
    let d2 = dec_of(p.y as nat);
    let a3 = ("}")@;
    lemma_dec_of_props(p.x as nat);
    lemma_dec_of_props(p.y as nat);
    let i1 = i + 5;
    let i2 = i1 + d1.len() as int;
    let i3 = i2 + 5;
    let i4 = i3 + d2.len() as int;
    let e = i4 + 1;
    lemma_split(s, i, a1 + d1 + a2 + d2, a3);
    lemma_split(s, i, a1 + d1 + a2, d2);
    lemma_split(s, i, a1 + d1, a2);
    lemma_split(s, i, a1, d1);
    // `{`
    lemma_embed_slice(s, i, a1, 0, 1);
    assert(a1.subrange(0, 1) =~= ("{")@);
    lemma_tok_complete(s, i, ("{")@);
    // `"x"` and its colon
    lemma_embed_slice(s, i, a1, 1, 4);
    assert(a1.subrange(1, 4) =~= ("\"x\"")@);
    lemma_embed_char(s, i, a1, 4);
    lemma_key_complete(s, i + 1, ("\"x\"")@);
    // the x coordinate, followed by the non-digit `,`
    lemma_embed_char(s, i1, d1, 0);
    assert(!is_ws(s[i1]));
    assert(skip_ws(s, i1) == i1);
    lemma_embed_char(s, i2, a2, 0);
    lemma_parse_usize_complete(s, i1, p.x as nat);
    // `,`
    lemma_embed_slice(s, i2, a2, 0, 1);
    assert(a2.subrange(0, 1) =~= (",")@);
    lemma_tok_complete(s, i2, (",")@);
    // `"y"` and its colon
    lemma_embed_slice(s, i2, a2, 1, 4);
    assert(a2.subrange(1, 4) =~= ("\"y\"")@);
    lemma_embed_char(s, i2, a2, 4);
    lemma_key_complete(s, i2 + 1, ("\"y\"")@);
    // the y coordinate, followed by the non-digit `}`
    lemma_embed_char(s, i3, d2, 0);
    assert(!is_ws(s[i3]));
    assert(skip_ws(s, i3) == i3);
    lemma_embed_char(s, i4, a3, 0);
    lemma_parse_usize_complete(s, i3, p.y as nat);
    // `}`
    lemma_tok_complete(s, i4, ("}")@);
    assert(spec_parse_grid_pos(s, i) == Some((GridPos { x: p.x, y: p.y }, e)));
    assert(GridPos { x: p.x, y: p.y } == p);
}

/// An embedded serialized health record is parsed back unchanged.
proof fn lemma_health_complete(s: Seq<char>, i: int, h: Health)
    requires
        0 <= i,
        i + json_of_health(h).len() <= s.len(),
        s.subrange(i, i + json_of_health(h).len() as int) == json_of_health(h),
    ensures
        spec_parse_health(s, i) == Some((h, i + json_of_health(h).len() as int)),
{
    reveal_strlit("{\"max\":");
    reveal_strlit(",\"current\":");
    reveal_strlit("}");
    reveal_strlit("{");
    reveal_strlit("\"max\"");
    reveal_strlit("\"current\"");
    reveal_strlit(",");
    let a1 = ("{\"max\":")@;
    let d1 = dec_of(h.max as nat);
    let a2 = (",\"current\":")@;
    let d2 = dec_of(h.current as nat);
    let a3 = ("}")@;
    lemma_dec_of_props(h.max as nat);
    lemma_dec_of_props(h.current as nat);
    let i1 = i + 7;
    let i2 = i1 + d1.len() as int;
    let i3 = i2 + 11;
    let i4 = i3 + d2.len() as int;
    let e = i4 + 1;
    lemma_split(s, i, a1 + d1 + a2 + d2, a3);
    lemma_split(s, i, a1 + d1 + a2, d2);
    lemma_split(s, i, a1 + d1, a2);
    lemma_split(s, i, a1, d1);
    // `{`
    lemma_embed_slice(s, i, a1, 0, 1);
    assert(a1.subrange(0, 1) =~= ("{")@);
    lemma_tok_complete(s, i, ("{")@);
    // `"max"` and its colon
    lemma_embed_slice(s, i, a1, 1, 6);
    assert(a1.subrange(1, 6) =~= ("\"max\"")@);
    lemma_embed_char(s, i, a1, 6);
    lemma_key_complete(s, i + 1, ("\"max\"")@);
    // the maximum, followed by the non-digit `,`
    lemma_embed_char(s, i1, d1, 0);
    assert(!is_ws(s[i1]));
    assert(skip_ws(s, i1) == i1);
    lemma_embed_char(s, i2, a2, 0);
    lemma_parse_usize_complete(s, i1, h.max as nat);
    // `,`
    lemma_embed_slice(s, i2, a2, 0, 1);
    assert(a2.subrange(0, 1) =~= (",")@);
    lemma_tok_complete(s, i2, (",")@);
    // `"current"` and its colon
    lemma_embed_slice(s, i2, a2, 1, 10);
    assert(a2.subrange(1, 10) =~= ("\"current\"")@);
    lemma_embed_char(s, i2, a2, 10);
    lemma_key_complete(s, i2 + 1, ("\"current\"")@);
    // the current value, followed by the non-digit `}`
    lemma_embed_char(s, i3, d2, 0);
    assert(!is_ws(s[i3]));
    assert(skip_ws(s, i3) == i3);
    lemma_embed_char(s, i4, a3, 0);
    lemma_parse_usize_complete(s, i3, h.current as nat);
    // `}`
    lemma_tok_complete(s, i4, ("}")@);
    assert(spec_parse_health(s, i) == Some((Health { max: h.max, current: h.current }, e)));
    assert(Health { max: h.max, current: h.current } == h);
}

/// A nonempty `null` list starts with `null` and has at least four
/// characters.
proof fn lemma_nulls_props(n: nat)
    requires
        n >= 1,
    ensures
        nulls(n).len() >= 4,
        nulls(n)[0] == 'n',
    decreases n,
{
    reveal_strlit("null");
    reveal_strlit(",null");
    if n == 1 {
    } else {
        lemma_nulls_props((n - 1) as nat);
        assert(nulls(n)[0] == nulls((n - 1) as nat)[0]);
    }
}

/// A `null` list of two or more reads as one `null`, a comma, and the rest.
proof fn lemma_nulls_front(n: nat)
    requires
        n >= 2,
    ensures
        nulls(n) == ("null")@ + (",")@ + nulls((n - 1) as nat),
    decreases n,
{
    reveal_strlit("null");
    reveal_strlit(",");
    reveal_strlit(",null");
    if n == 2 {
        assert(("null")@ + (",")@ + ("null")@ =~= ("null")@ + (",null")@);
    } else {
        lemma_nulls_front((n - 1) as nat);
        assert(nulls(n) == (("null")@ + (",")@ + nulls((n - 2) as nat)) + (",null")@);
        assert((("null")@ + (",")@ + nulls((n - 2) as nat)) + (",null")@ =~= ("null")@ + (",")@
            + (nulls((n - 2) as nat) + (",null")@));
    }
}

/// An embedded `null` list followed by `]` is parsed back with its count.
proof fn lemma_nulls_complete(s: Seq<char>, i: int, n: nat)
    requires
        n >= 1,
        0 <= i,
        i + nulls(n).len() < s.len(),
        s.subrange(i, i + nulls(n).len() as int) == nulls(n),
        s[i + nulls(n).len() as int] == ']',
    ensures
        spec_parse_nulls(s, i) == Some((n, i + nulls(n).len() as int)),
    decreases n,
{
    reveal_strlit("null");
    reveal_strlit(",");
    if n == 1 {
        lemma_tok_complete(s, i, ("null")@);
        let j = i + 4;
        assert(s[j] == ']');
        assert(!is_ws(s[j]));
        lemma_tok_mismatch(s, j, (",")@, 0);
    } else {
        lemma_nulls_front(n);
        let rest = nulls((n - 1) as nat);
        lemma_split(s, i, ("null")@ + (",")@, rest);
        lemma_split(s, i, ("null")@, (",")@);
        lemma_tok_complete(s, i, ("null")@);
        lemma_tok_complete(s, i + 4, (",")@);
        lemma_nulls_complete(s, i + 5, (n - 1) as nat);
    }
}

/// An embedded serialized action list is parsed back with its count.
proof fn lemma_actions_complete(s: Seq<char>, i: int, n: nat)
    requires
        0 <= i,
        i + json_of_actions(n).len() <= s.len(),
        s.subrange(i, i + json_of_actions(n).len() as int) == json_of_actions(n),
    ensures
        spec_parse_actions(s, i) == Some((n, i + json_of_actions(n).len() as int)),
{
    reveal_strlit("[");
    reveal_strlit("]");
    reveal_strlit("null");
    let b = nulls(n);
    let i1 = i + 1;
    let i2 = i1 + b.len() as int;
    lemma_split(s, i, ("[")@ + b, ("]")@);
    lemma_split(s, i, ("[")@, b);
    lemma_tok_complete(s, i, ("[")@);
    lemma_embed_char(s, i2, ("]")@, 0);
    if n == 0 {
        assert(b == Seq::<char>::empty());
        assert(s.subrange(i1, i1 + 1) == ("]")@);
        lemma_tok_complete(s, i1, ("]")@);
    } else {
        lemma_nulls_props(n);
        lemma_embed_char(s, i1, b, 0);
        assert(!is_ws(s[i1]));
        lemma_tok_mismatch(s, i1, ("]")@, 0);
        lemma_nulls_complete(s, i1, n);
        lemma_tok_complete(s, i2, ("]")@);
    }
}

/// An embedded serialized nonempty pending turn is parsed back unchanged.
#[verifier::rlimit(100)]
proof fn lemma_turn_complete(s: Seq<char>, i: int, t: PlayerTurnV)
    requires
        !t.is_empty(),
        0 <= i,
        i + json_of_turn(t).len() <= s.len(),
        s.subrange(i, i + json_of_turn(t).len() as int) == json_of_turn(t),
    ensures
        spec_parse_turn(s, i) == Some(
            ((t.movement, t.actions.len()), i + json_of_turn(t).len() as int),
        ),
{
    reveal_strlit("{\"movement\":");
    reveal_strlit(",\"actions\":");
    reveal_strlit("{\"actions\":");
    reveal_strlit("{");
    reveal_strlit("}");
    reveal_strlit(",");
    reveal_strlit("\"movement\"");
    reveal_strlit("\"actions\"");
    match t.movement {
        Some(pos) => {
            let l1 = ("{\"movement\":")@;
            let g = json_of_grid_pos(pos);
            if t.actions.len() == 0 {
                let l4 = ("}")@;
                lemma_split(s, i, l1 + g, l4);
                lemma_split(s, i, l1, g);
                lemma_embed_slice(s, i, l1, 0, 1);
                assert(l1.subrange(0, 1) =~= ("{")@);
                lemma_tok_complete(s, i, ("{")@);
                lemma_embed_slice(s, i, l1, 1, 11);
                assert(l1.subrange(1, 11) =~= ("\"movement\"")@);
                lemma_embed_char(s, i, l1, 11);
                lemma_key_complete(s, i + 1, ("\"movement\"")@);
                let i2 = i + 12;
                lemma_grid_pos_complete(s, i2, pos);
                let i3 = i2 + g.len() as int;
                lemma_embed_char(s, i3, l4, 0);
                assert(!is_ws(s[i3]));
                lemma_tok_mismatch(s, i3, (",")@, 0);
                lemma_tok_complete(s, i3, ("}")@);
            } else {
                let l3 = (",\"actions\":")@;
                let a = json_of_actions(t.actions.len());
                let l4 = ("}")@;
                lemma_split(s, i, l1 + g + l3 + a, l4);
                lemma_split(s, i, l1 + g + l3, a);
                lemma_split(s, i, l1 + g, l3);
                lemma_split(s, i, l1, g);
                lemma_embed_slice(s, i, l1, 0, 1);
                assert(l1.subrange(0, 1) =~= ("{")@);
                lemma_tok_complete(s, i, ("{")@);
                lemma_embed_slice(s, i, l1, 1, 11);
                assert(l1.subrange(1, 11) =~= ("\"movement\"")@);
                lemma_embed_char(s, i, l1, 11);
                lemma_key_complete(s, i + 1, ("\"movement\"")@);
                let i2 = i + 12;
                lemma_grid_pos_complete(s, i2, pos);
                let i3 = i2 + g.len() as int;
                lemma_embed_slice(s, i3, l3, 0, 1);
                assert(l3.subrange(0, 1) =~= (",")@);
                lemma_tok_complete(s, i3, (",")@);
                lemma_embed_slice(s, i3, l3, 1, 10);
                assert(l3.subrange(1, 10) =~= ("\"actions\"")@);
                lemma_embed_char(s, i3, l3, 10);
                lemma_key_complete(s, i3 + 1, ("\"actions\"")@);
                let i4 = i3 + 11;
                lemma_actions_complete(s, i4, t.actions.len());
                let i5 = i4 + a.len() as int;
                lemma_tok_complete(s, i5, ("}")@);
            }
        },
        None => {
            let l1 = ("{\"actions\":")@;
            let a = json_of_actions(t.actions.len());
            let l4 = ("}")@;
            lemma_split(s, i, l1 + a, l4);
            lemma_split(s, i, l1, a);
            lemma_embed_slice(s, i, l1, 0, 1);
            assert(l1.subrange(0, 1) =~= ("{")@);
            lemma_tok_complete(s, i, ("{")@);
            // the text holds `"actions"`, so the `"movement"` key fails
            lemma_embed_char(s, i, l1, 1);
            lemma_embed_char(s, i, l1, 2);
            assert(!is_ws(s[i + 1]));
            lemma_tok_mismatch(s, i + 1, ("\"movement\"")@, 1);
            lemma_embed_slice(s, i, l1, 1, 10);
            assert(l1.subrange(1, 10) =~= ("\"actions\"")@);
            lemma_embed_char(s, i, l1, 10);
            lemma_key_complete(s, i + 1, ("\"actions\"")@);
            let i2 = i + 11;
            lemma_actions_complete(s, i2, t.actions.len());
            let i3 = i2 + a.len() as int;
            lemma_tok_complete(s, i3, ("}")@);
        },
    }
}

/// An embedded serialized player record is parsed back unchanged.
#[verifier::rlimit(100)]
proof fn lemma_player_complete(s: Seq<char>, i: int, p: PlayerV)
    requires
        0 <= i,
        i + json_of_player(p).len() <= s.len(),
        s.subrange(i, i + json_of_player(p).len() as int) == json_of_player(p),
    ensures
        spec_parse_player(s, i) == Some((p, i + json_of_player(p).len() as int)),
{
    reveal_strlit("{\"pos\":");
    reveal_strlit(",\"health\":");
    reveal_strlit(",\"pending_turn\":");
    reveal_strlit("{");
    reveal_strlit("}");
    reveal_strlit(",");
    reveal_strlit("\"pos\"");
    reveal_strlit("\"health\"");
    reveal_strlit("\"pending_turn\"");
    let l1 = ("{\"pos\":")@;
    let g = json_of_grid_pos(p.pos);
    let l2 = (",\"health\":")@;
    let h = json_of_health(p.health);
    let l4 = ("}")@;
    let i1 = i + 7;
    let i2 = i1 + g.len() as int;
    let i3 = i2 + 10;
    let i4 = i3 + h.len() as int;
    if p.pending_turn.is_empty() {
        assert(json_of_player(p) =~= l1 + g + l2 + h + l4);
        assert(s.subrange(i, i + (l1 + g + l2 + h + l4).len() as int) == l1 + g + l2 + h + l4);
        lemma_split(s, i, l1 + g + l2 + h, l4);
        lemma_split(s, i, l1 + g + l2, h);
        lemma_split(s, i, l1 + g, l2);
        lemma_split(s, i, l1, g);
        lemma_embed_slice(s, i, l1, 0, 1);
        assert(l1.subrange(0, 1) =~= ("{")@);
        lemma_tok_complete(s, i, ("{")@);
        lemma_embed_slice(s, i, l1, 1, 6);
        assert(l1.subrange(1, 6) =~= ("\"pos\"")@);
        lemma_embed_char(s, i, l1, 6);
        lemma_key_complete(s, i + 1, ("\"pos\"")@);
        lemma_grid_pos_complete(s, i1, p.pos);
        lemma_embed_slice(s, i2, l2, 0, 1);
        assert(l2.subrange(0, 1) =~= (",")@);
        lemma_tok_complete(s, i2, (",")@);
        lemma_embed_slice(s, i2, l2, 1, 9);
        assert(l2.subrange(1, 9) =~= ("\"health\"")@);
        lemma_embed_char(s, i2, l2, 9);
        lemma_key_complete(s, i2 + 1, ("\"health\"")@);
        lemma_health_complete(s, i3, p.health);
        lemma_embed_char(s, i4, l4, 0);
        assert(!is_ws(s[i4]));
        lemma_tok_mismatch(s, i4, (",")@, 0);
        lemma_tok_complete(s, i4, ("}")@);
        assert(parsed_player(p.pos, p.health, None, 0).pending_turn.actions
            =~= p.pending_turn.actions);
        assert(parsed_player(p.pos, p.health, None, 0) =~= p);
    } else {
        let l3 = (",\"pending_turn\":")@;
        let t = json_of_turn(p.pending_turn);
        assert(json_of_player(p) =~= l1 + g + l2 + h + l3 + t + l4);
        assert(s.subrange(i, i + (l1 + g + l2 + h + l3 + t + l4).len() as int) == l1 + g + l2 + h
            + l3 + t + l4);
        lemma_split(s, i, l1 + g + l2 + h + l3 + t, l4);
        lemma_split(s, i, l1 + g + l2 + h + l3, t);
        lemma_split(s, i, l1 + g + l2 + h, l3);
        lemma_split(s, i, l1 + g + l2, h);
        lemma_split(s, i, l1 + g, l2);
        lemma_split(s, i, l1, g);
        lemma_embed_slice(s, i, l1, 0, 1);
        assert(l1.subrange(0, 1) =~= ("{")@);
        lemma_tok_complete(s, i, ("{")@);
        lemma_embed_slice(s, i, l1, 1, 6);
        assert(l1.subrange(1, 6) =~= ("\"pos\"")@);
        lemma_embed_char(s, i, l1, 6);
        lemma_key_complete(s, i + 1, ("\"pos\"")@);
        lemma_grid_pos_complete(s, i1, p.pos);
        lemma_embed_slice(s, i2, l2, 0, 1);
        assert(l2.subrange(0, 1) =~= (",")@);
        lemma_tok_complete(s, i2, (",")@);
        lemma_embed_slice(s, i2, l2, 1, 9);
        assert(l2.subrange(1, 9) =~= ("\"health\"")@);
        lemma_embed_char(s, i2, l2, 9);
        lemma_key_complete(s, i2 + 1, ("\"health\"")@);
        lemma_health_complete(s, i3, p.health);
        lemma_embed_slice(s, i4, l3, 0, 1);
        assert(l3.subrange(0, 1) =~= (",")@);
        lemma_tok_complete(s, i4, (",")@);
        lemma_embed_slice(s, i4, l3, 1, 15);
        assert(l3.subrange(1, 15) =~= ("\"pending_turn\"")@);
        lemma_embed_char(s, i4, l3, 15);
        lemma_key_complete(s, i4 + 1, ("\"pending_turn\"")@);
        let i5 = i4 + 16;
        lemma_turn_complete(s, i5, p.pending_turn);
        let i6 = i5 + t.len() as int;
        lemma_tok_complete(s, i6, ("}")@);
        assert(parsed_player(
            p.pos,
            p.health,
            p.pending_turn.movement,
            p.pending_turn.actions.len(),
        ).pending_turn.actions =~= p.pending_turn.actions);
        assert(parsed_player(
            p.pos,
            p.health,
            p.pending_turn.movement,
            p.pending_turn.actions.len(),
        ) =~= p);
    }
}

/// The snapshot entries from index `k` on, read from the front: the entry
/// for `k`, then a comma and the rest while more follow.
pub open spec fn entries_from(ps: Seq<PlayerV>, k: int) -> Seq<char>
    decreases ps.len() - k,
{
    if k < 0 || k >= ps.len() {
        Seq::empty()
    } else if k == ps.len() - 1 {
        json_of_entry(k as nat, ps[k])
    } else {
        json_of_entry(k as nat, ps[k]) + (",")@ + entries_from(ps, k + 1)
    }
}

/// Reading the entries from the front and writing them from the back agree:
/// dropping the last player drops the last entry.
proof fn lemma_entries_from_snoc(ps: Seq<PlayerV>, k: int)
    requires
        ps.len() >= 2,
        0 <= k <= ps.len() - 2,
    ensures
        entries_from(ps, k) == entries_from(ps.drop_last(), k) + (",")@ + json_of_entry(
            (ps.len() - 1) as nat,
            ps.last(),
        ),
    decreases ps.len() - k,
{
    let q = ps.drop_last();
    assert(q[k] == ps[k]);
    if k == ps.len() - 2 {
        assert(entries_from(ps, k + 1) == json_of_entry((ps.len() - 1) as nat, ps.last()));
        assert(entries_from(q, k) == json_of_entry(k as nat, ps[k]));
    } else {
        lemma_entries_from_snoc(ps, k + 1);
        assert(entries_from(q, k) == json_of_entry(k as nat, ps[k]) + (",")@ + entries_from(
            q,
            k + 1,
        ));
        assert((json_of_entry(k as nat, ps[k]) + (",")@ + entries_from(q, k + 1)) + (",")@
            + json_of_entry((ps.len() - 1) as nat, ps.last()) =~= json_of_entry(k as nat, ps[k])
            + (",")@ + (entries_from(q, k + 1) + (",")@ + json_of_entry(
            (ps.len() - 1) as nat,
            ps.last(),
        )));
    }
}

/// The serialized entries are the entries read from the front.
proof fn lemma_entries_eq(ps: Seq<PlayerV>)
    ensures
        json_of_entries(ps) == entries_from(ps, 0),
    decreases ps.len(),
{
    if ps.len() <= 1 {
    } else {
        lemma_entries_eq(ps.drop_last());
        lemma_entries_from_snoc(ps, 0);
    }
}

/// The parse steps of one embedded serialized snapshot entry: the quoted
/// id, its closing quote and colon, then the player record.
#[verifier::rlimit(100)]
proof fn lemma_entry_complete(s: Seq<char>, i: int, k: int, p: PlayerV)
    requires
        0 <= k <= usize::MAX,
        0 <= i,
        i + json_of_entry(k as nat, p).len() <= s.len(),
        s.subrange(i, i + json_of_entry(k as nat, p).len() as int) == json_of_entry(k as nat, p),
    ensures
        ({
            let d = dec_of(k as nat);
            let i2 = i + 1 + d.len() as int;
            &&& spec_tok(s, i, ("\"")@) == Some(i + 1)
            &&& spec_parse_usize(s, i + 1) == Some((k as usize, i2))
            &&& spec_parse_lit(s, i2, ("\"")@) == Some(i2 + 1)
            &&& spec_tok(s, i2 + 1, (":")@) == Some(i2 + 2)
            &&& spec_parse_player(s, i2 + 2) == Some(
                (p, i + json_of_entry(k as nat, p).len() as int),
            )
        }),
{
    reveal_strlit("\"");
    reveal_strlit("\":");
    reveal_strlit(":");
    let d = dec_of(k as nat);
    let pj = json_of_player(p);
    let i1 = i + 1;
    let i2 = i1 + d.len() as int;
    let i3 = i2 + 2;
    lemma_dec_of_props(k as nat);
    lemma_split(s, i, ("\"")@ + d + ("\":")@, pj);
    lemma_split(s, i, ("\"")@ + d, ("\":")@);
    lemma_split(s, i, ("\"")@, d);
    lemma_tok_complete(s, i, ("\"")@);
    lemma_embed_char(s, i2, ("\":")@, 0);
    lemma_parse_usize_complete(s, i1, k as nat);
    lemma_embed_slice(s, i2, ("\":")@, 0, 1);
    assert(("\":")@.subrange(0, 1) =~= ("\"")@);
    lemma_embed_slice(s, i2, ("\":")@, 1, 2);
    assert(("\":")@.subrange(1, 2) =~= (":")@);
    lemma_tok_complete(s, i2 + 1, (":")@);
    lemma_player_complete(s, i3, p);
}

/// Embedded serialized entries, followed by `}`, are parsed back unchanged.
#[verifier::rlimit(100)]
proof fn lemma_entries_complete(s: Seq<char>, i: int, ps: Seq<PlayerV>, k: int)
    requires
        0 <= k < ps.len(),
        ps.len() <= usize::MAX,
        0 <= i,
        i + entries_from(ps, k).len() < s.len(),
        s.subrange(i, i + entries_from(ps, k).len() as int) == entries_from(ps, k),
        s[i + entries_from(ps, k).len() as int] == '}',
    ensures
        spec_parse_entries(s, i, k as nat) == Some(
            (ps.skip(k), i + entries_from(ps, k).len() as int),
        ),
    decreases ps.len() - k,
{
    reveal_strlit("\"");
    reveal_strlit(",");
    let d = dec_of(k as nat);
    let entry = json_of_entry(k as nat, ps[k]);
    let i2 = i + 1 + d.len() as int;
    let i4 = i + entry.len() as int;
    if k < ps.len() - 1 {
        let rest = entries_from(ps, k + 1);
        lemma_split(s, i, entry + (",")@, rest);
        lemma_split(s, i, entry, (",")@);
    }
    assert(s.subrange(i, i + entry.len() as int) == entry);
    lemma_entry_complete(s, i, k, ps[k]);
    if k == ps.len() - 1 {
        assert(s[i4] == '}');
        assert(!is_ws(s[i4]));
        lemma_tok_mismatch(s, i4, (",")@, 0);
        assert(seq![ps[k]] =~= ps.skip(k));
    } else {
        lemma_tok_complete(s, i4, (",")@);
        lemma_entries_complete(s, i4 + 1, ps, k + 1);
        assert(seq![ps[k]] + ps.skip(k + 1) =~= ps.skip(k));
    }
}

/// The parse steps of the serialized snapshot's frame: the opening brace,
/// the `players` key, the inner brace, the embedded entries, and the two
/// closing braces at the very end of the text.
#[verifier::rlimit(100)]
proof fn lemma_world_state_frame(ps: Seq<PlayerV>)
    ensures
        ({
            let s = json_of_world_state(ps);
            let b = json_of_entries(ps);
            let i4 = 12 + b.len() as int;
            &&& s.len() == 14 + b.len()
            &&& spec_tok(s, 0, ("{")@) == Some(1int)
            &&& spec_key(s, 1, ("\"players\"")@) == Some(11int)
            &&& spec_tok(s, 11, ("{")@) == Some(12int)
            &&& s.subrange(12, i4) == b
            &&& s[i4] == '}'
            &&& spec_tok(s, i4, ("}")@) == Some(i4 + 1)
            &&& spec_tok(s, i4 + 1, ("}")@) == Some(i4 + 2)
            &&& skip_ws(s, s.len() as int) == s.len()
        }),
{
    let s = json_of_world_state(ps);
    reveal_strlit("{\"players\":{");
    reveal_strlit("}}");
    reveal_strlit("{");
    reveal_strlit("}");
    reveal_strlit("\"players\"");
    let l1 = ("{\"players\":{")@;
    let b = json_of_entries(ps);
    let l2 = ("}}")@;
    assert(s.subrange(0, s.len() as int) =~= s);
    lemma_split(s, 0, l1 + b, l2);
    lemma_split(s, 0, l1, b);
    lemma_embed_slice(s, 0, l1, 0, 1);
    assert(l1.subrange(0, 1) =~= ("{")@);
    lemma_tok_complete(s, 0, ("{")@);
    lemma_embed_slice(s, 0, l1, 1, 10);
    assert(l1.subrange(1, 10) =~= ("\"players\"")@);
    lemma_embed_char(s, 0, l1, 10);
    lemma_key_complete(s, 1, ("\"players\"")@);
    lemma_embed_slice(s, 0, l1, 11, 12);
    assert(l1.subrange(11, 12) =~= ("{")@);
    lemma_tok_complete(s, 11, ("{")@);
    let i4 = 12 + b.len() as int;
    lemma_embed_char(s, i4, l2, 0);
    lemma_embed_slice(s, i4, l2, 0, 1);
    assert(l2.subrange(0, 1) =~= ("}")@);
    lemma_tok_complete(s, i4, ("}")@);
    lemma_embed_slice(s, i4, l2, 1, 2);
    assert(l2.subrange(1, 2) =~= ("}")@);
    lemma_tok_complete(s, i4 + 1, ("}")@);
    assert(skip_ws(s, s.len() as int) == s.len());
}

/// Parsing back a serialized world state yields exactly the players that
/// were serialized, whatever they hold.
#[verifier::rlimit(100)]
pub proof fn lemma_world_state_round_trip(ps: Seq<PlayerV>)
    requires
        ps.len() <= usize::MAX,
    ensures
        spec_parse_world_state(json_of_world_state(ps)) == Some(ps),
{
    let s = json_of_world_state(ps);
    let b = json_of_entries(ps);
    let i3: int = 12;
    let i4 = i3 + b.len() as int;
    lemma_world_state_frame(ps);
    if ps.len() == 0 {
        assert(b == Seq::<char>::empty());
        assert(Seq::<PlayerV>::empty() =~= ps);
    } else {
        lemma_entries_eq(ps);
        assert(b[0] == '"') by {
            reveal_strlit("\"");
            if ps.len() == 1 {
                assert(b == json_of_entry(0, ps[0]));
            } else {
                assert(b == json_of_entry(0, ps[0]) + (",")@ + entries_from(ps, 1));
                assert(b[0] == json_of_entry(0, ps[0])[0]);
            }
            assert(json_of_entry(0, ps[0])[0] == ("\"")@[0]);
        }
        lemma_embed_char(s, i3, b, 0);
        assert(!is_ws(s[i3]));
        lemma_tok_mismatch(s, i3, ("}")@, 0);
        lemma_entries_complete(s, i3, ps, 0);
        assert(ps.skip(0) =~= ps);
    }
}

/// The serialized empty world state is exactly `{"players":{}}`.
proof fn lemma_empty_world_state_text()
    ensures
        json_of_world_state(Seq::<PlayerV>::empty()) == ("{\"players\":{}}")@,
{
    reveal_strlit("{\"players\":{}}");
    reveal_strlit("{\"players\":{");
    reveal_strlit("}}");
    assert(json_of_entries(Seq::<PlayerV>::empty()) == Seq::<char>::empty());
    assert(json_of_world_state(Seq::<PlayerV>::empty()) =~= ("{\"players\":{}}")@);
}

/// Serializing the empty world state gives exactly `{"players":{}}`, and
/// parsing that text back yields zero player records.
pub proof fn lemma_empty_world_state_round_trip()
    ensures
        json_of_world_state(Seq::<PlayerV>::empty()) == ("{\"players\":{}}")@,
        spec_parse_world_state(("{\"players\":{}}")@) == Some(Seq::<PlayerV>::empty()),
{
    lemma_empty_world_state_text();
    lemma_world_state_round_trip(Seq::<PlayerV>::empty());
}

} // verus!
