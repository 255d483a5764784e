//! Laws of a full move — placing a disc on an empty cell and resolving
//! its captures — stated over the board model and proved once and for
//! all.

use vstd::prelude::*;
use crate::board::{board_wf, cell_index, count_in, count_stone, in_range,
    lemma_discs_match_occupied, place};
use crate::capture::{flips, lemma_flip_cell_opponent, move_result, opponent};

verus! {

proof fn lemma_count_mono(s1: Seq<u8>, s2: Seq<u8>, v: u8, n: int)
    requires
        s1.len() == s2.len(),
        0 <= n <= s1.len(),
        forall|i: int| 0 <= i < n ==> (s1[i] == v ==> s2[i] == v),
    ensures
        count_in(s1, v, n) <= count_in(s2, v, n),
    decreases n,
{
    if n > 0 {
        lemma_count_mono(s1, s2, v, n - 1);
    }
}

proof fn lemma_count_grows(s1: Seq<u8>, s2: Seq<u8>, v: u8, n: int, j: int)
    requires
        s1.len() == s2.len(),
        0 <= n <= s1.len(),
        forall|i: int| 0 <= i < n ==> (s1[i] == v ==> s2[i] == v),
        0 <= j < n,
        s1[j] != v,
        s2[j] == v,
    ensures
        count_in(s2, v, n) >= count_in(s1, v, n) + 1,
    decreases n,
{
    if j == n - 1 {
        lemma_count_mono(s1, s2, v, n - 1);
    } else {
        lemma_count_grows(s1, s2, v, n - 1, j);
    }
}

proof fn lemma_count_eq(s1: Seq<u8>, s2: Seq<u8>, v: u8, n: int)
    requires
        s1.len() == s2.len(),
        0 <= n <= s1.len(),
        forall|i: int| 0 <= i < n ==> (s1[i] == v <==> s2[i] == v),
    ensures
        count_in(s1, v, n) == count_in(s2, v, n),
    decreases n,
{
    if n > 0 {
        lemma_count_eq(s1, s2, v, n - 1);
    }
}

proof fn lemma_count_drops(s1: Seq<u8>, s2: Seq<u8>, v: u8, n: int, j: int)
    requires
        s1.len() == s2.len(),
        0 <= n <= s1.len(),
        forall|i: int| 0 <= i < n && i != j ==> (s1[i] == v <==> s2[i] == v),
        0 <= j < n,
        s1[j] == v,
        s2[j] != v,
    ensures
        count_in(s2, v, n) == count_in(s1, v, n) - 1,
    decreases n,
{
    if j == n - 1 {
        lemma_count_eq(s1, s2, v, n - 1);
    } else {
        lemma_count_drops(s1, s2, v, n - 1, j);
    }
}

/// A full move never decreases the acting player's disc count — the
/// placed disc alone grows it — and never increases the opponent's:
/// every flip converts an opponent disc into one of the actor's.
pub proof fn lemma_move_counts(b: Seq<u8>, x: int, y: int, stone: u8)
    requires
        board_wf(b),
        in_range(x, y),
        b[cell_index(x, y)] == 0,
        stone == 1 || stone == 2,
    ensures
        count_stone(move_result(b, x, y, stone), stone) >= count_stone(b, stone) + 1,
        count_stone(move_result(b, x, y, stone), opponent(stone)) <= count_stone(
            b,
            opponent(stone),
        ),
{
    let placed = place(b, x, y, stone);
    let after = move_result(b, x, y, stone);
    let idx = cell_index(x, y);
    let opp = opponent(stone);
    assert(0 <= idx < 64);
    assert forall|i: int| 0 <= i < 64 implies (b[i] == stone ==> after[i] == stone) by {
        if b[i] == stone && !flips(placed, x, y, stone, i) {
            assert(after[i] == placed[i]);
        }
    }
    assert(after[idx] == stone);
    lemma_count_grows(b, after, stone, 64, idx);
    assert forall|i: int| 0 <= i < 64 implies (after[i] == opp ==> b[i] == opp) by {
        if after[i] == opp {
            assert(!flips(placed, x, y, stone, i));
            assert(placed[i] == opp);
            assert(i != idx);
        }
    }
    lemma_count_mono(after, b, opp, 64);
}

/// A full move fills exactly one cell — the placed disc — and flips
/// never empty one, so the board stays well-formed and the total disc
/// count grows by exactly one.
pub proof fn lemma_move_adds_one_disc(b: Seq<u8>, x: int, y: int, stone: u8)
    requires
        board_wf(b),
        in_range(x, y),
        b[cell_index(x, y)] == 0,
        stone == 1 || stone == 2,
    ensures
        board_wf(move_result(b, x, y, stone)),
        count_in(move_result(b, x, y, stone), 0, 64) == count_in(b, 0, 64) - 1,
        count_stone(move_result(b, x, y, stone), 1) + count_stone(move_result(b, x, y, stone), 2)
            == count_stone(b, 1) + count_stone(b, 2) + 1,
{
    let placed = place(b, x, y, stone);
    let after = move_result(b, x, y, stone);
    let idx = cell_index(x, y);
    assert(0 <= idx < 64);
    assert forall|i: int|
        0 <= i < 64 implies (after[i] == 0 || after[i] == 1 || after[i] == 2) by {
        if !flips(placed, x, y, stone, i) {
            assert(after[i] == placed[i]);
        }
    }
    assert(board_wf(after));
    assert forall|i: int| 0 <= i < 64 && i != idx implies (b[i] == 0 <==> after[i] == 0) by {
        if flips(placed, x, y, stone, i) {
            lemma_flip_cell_opponent(placed, x, y, stone, i);
            assert(b[i] == placed[i]);
            assert(b[i] == opponent(stone));
            assert(after[i] == stone);
        } else {
            assert(after[i] == placed[i]);
            assert(placed[i] == b[i]);
        }
    }
    assert(after[idx] == stone);
    lemma_count_drops(b, after, 0, 64, idx);
    lemma_discs_match_occupied(b);
    lemma_discs_match_occupied(after);
}

} // verus!
