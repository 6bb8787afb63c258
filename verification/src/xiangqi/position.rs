use vstd::prelude::*;
use super::{PieceType, XiangqiColor, XiangqiPiece, other_side, xq_initial_cell};
use super::moves::{XiangqiMove, xmove, on_xboard, xsq, abs, min, max, palace, own_side, crossed, forward, is_xq,
    free_or_enemy, has_general, general_square, general_from, lemma_general_square, row_clear, col_clear, row_count,
    col_count, xq_attacks, xq_attacked, xq_in_check, orth_dr, orth_dc, diag_dr, diag_dc, horse_dr, horse_dc,
    horse_bdr, horse_bdc, jump_count, jump_dr, jump_dc, jump_ok, jumps_from, orth_steps, chariot_from,
    cannon_from, cannon_capture_from, chariot_moves, cannon_moves, soldier_side, soldier_moves, xq_piece_moves,
    xq_pseudo_upto, xq_pseudo_moves, xq_apply, xq_keeps_safe, xq_legal_filter, xq_legal_moves,
    xq_generals_survive};
use super::ai::{xq_search_safe, xq_root_safe, lemma_xq_legal_filter_members};

verus! {

pub proof fn lemma_xsq(r: int, c: int)
    requires
        on_xboard(r, c),
    ensures
        0 <= xsq(r, c) < 90,
        xsq(r, c) / 9 == r,
        xsq(r, c) % 9 == c,
{
}

pub proof fn lemma_xq_row_col(s: int)
    requires
        0 <= s < 90,
    ensures
        on_xboard(s / 9, s % 9),
        xsq(s / 9, s % 9) == s,
{
}

/// Facts about a pseudo-legal move of `c` that the rules of movement
/// guarantee: it moves a piece of `c`, never onto a piece of `c`, and
/// whatever it takes is attacked by `c`.
pub open spec fn xq_move_facts(b: Seq<Option<XiangqiPiece>>, c: XiangqiColor, m: XiangqiMove) -> bool {
    &&& m.from < 90
    &&& m.to < 90
    &&& b[m.from as int] is Some
    &&& b[m.from as int]->0.color == c
    &&& free_or_enemy(b[m.to as int], c)
    &&& b[m.to as int] is Some ==> xq_attacked(b, m.to as int, c)
}

pub open spec fn xq_all_facts(b: Seq<Option<XiangqiPiece>>, c: XiangqiColor, s: Seq<XiangqiMove>) -> bool {
    forall|k: int| 0 <= k < s.len() ==> xq_move_facts(b, c, #[trigger] s[k])
}

proof fn lemma_xq_all_facts_add(b: Seq<Option<XiangqiPiece>>, c: XiangqiColor, x: Seq<XiangqiMove>, y: Seq<XiangqiMove>)
    requires
        xq_all_facts(b, c, x),
        xq_all_facts(b, c, y),
    ensures
        xq_all_facts(b, c, x + y),
{
    assert forall|k: int| 0 <= k < (x + y).len() implies xq_move_facts(b, c, #[trigger] (x + y)[k]) by {
        if k < x.len() {
            assert((x + y)[k] == x[k]);
        } else {
            assert((x + y)[k] == y[k - x.len()]);
        }
    }
}

/// A piece on `sq` that attacks `t` makes `t` attacked by its side.
proof fn lemma_attack_witness(b: Seq<Option<XiangqiPiece>>, c: XiangqiColor, sq: int, t: int)
    requires
        0 <= sq < 90,
        0 <= t < 90,
        b[sq] is Some,
        b[sq]->0.color == c,
        xq_attacks(b, sq / 9, sq % 9, b[sq]->0.piece_type, c, t / 9, t % 9),
    ensures
        xq_attacked(b, t, c),
{
}

pub open spec fn jump_kind_type(kind: int) -> PieceType {
    if kind == 0 {
        PieceType::General
    } else if kind == 1 {
        PieceType::Advisor
    } else if kind == 2 {
        PieceType::Elephant
    } else {
        PieceType::Horse
    }
}

proof fn lemma_jumps_facts(b: Seq<Option<XiangqiPiece>>, c: XiangqiColor, sq: int, kind: int, k: int)
    requires
        0 <= sq < 90,
        0 <= kind < 4,
        0 <= k,
        b[sq] == Some(XiangqiPiece { piece_type: jump_kind_type(kind), color: c }),
    ensures
        xq_all_facts(b, c, jumps_from(b, c, sq, sq / 9, sq % 9, kind, k)),
    decreases 8 - k,
{
    let r = sq / 9;
    let cc = sq % 9;
    lemma_xq_row_col(sq);
    if k < jump_count(kind) && k < 8 {
        lemma_jumps_facts(b, c, sq, kind, k + 1);
        let first = if jump_ok(b, c, kind, r, cc, k) {
            seq![xmove(sq, xsq(r + jump_dr(kind, k), cc + jump_dc(kind, k)))]
        } else {
            Seq::empty()
        };
        if jump_ok(b, c, kind, r, cc, k) {
            let nr = r + jump_dr(kind, k);
            let nc = cc + jump_dc(kind, k);
            lemma_xsq(nr, nc);
            let t = xsq(nr, nc);
            if kind == 2 {
                assert(jump_dr(kind, k) / 2 == diag_dr(k));
                assert(jump_dc(kind, k) / 2 == diag_dc(k));
            }
            if kind == 3 {
                if k < 4 {
                    assert(horse_dr(k) / 2 == horse_bdr(k));
                } else {
                    assert(horse_dc(k) / 2 == horse_bdc(k));
                }
            }
            assert(xq_attacks(b, r, cc, jump_kind_type(kind), c, nr, nc));
            lemma_attack_witness(b, c, sq, t);
            assert(xq_move_facts(b, c, xmove(sq, t)));
        }
        assert(xq_all_facts(b, c, first));
        lemma_xq_all_facts_add(b, c, first, jumps_from(b, c, sq, r, cc, kind, k + 1));
    }
}

pub open spec fn orth_dir(dr: int, dc: int) -> bool {
    (dr == -1 && dc == 0) || (dr == 1 && dc == 0) || (dr == 0 && dc == -1) || (dr == 0 && dc == 1)
}

/// The steps `lo..hi` from (`r`, `c`) along (`dr`, `dc`) are empty.
pub open spec fn steps_clear(b: Seq<Option<XiangqiPiece>>, r: int, c: int, dr: int, dc: int, lo: int, hi: int) -> bool {
    forall|j: int| lo <= j < hi ==> (#[trigger] b[xsq(r + orth_steps(j, dr), c + orth_steps(j, dc))]) is None
}

/// A clear line from (`r`, `c`) to the `k`-th step gives the chariot attack.
proof fn lemma_line_clear(b: Seq<Option<XiangqiPiece>>, r: int, c: int, dr: int, dc: int, k: int)
    requires
        on_xboard(r, c),
        orth_dir(dr, dc),
        1 <= k,
        on_xboard(r + orth_steps(k, dr), c + orth_steps(k, dc)),
        steps_clear(b, r, c, dr, dc, 1, k),
    ensures
        ({
            let tr = r + orth_steps(k, dr);
            let tc = c + orth_steps(k, dc);
            if dr == 0 {
                row_clear(b, tr, min(tc, c) + 1, max(tc, c))
            } else {
                col_clear(b, tc, min(tr, r) + 1, max(tr, r))
            }
        }),
{
    let tr = r + orth_steps(k, dr);
    let tc = c + orth_steps(k, dc);
    if dr == 0 {
        assert forall|x: int| min(tc, c) + 1 <= x < max(tc, c) implies (#[trigger] b[xsq(tr, x)]) is None by {
            let j = if dc > 0 { x - c } else { c - x };
            assert(b[xsq(r + orth_steps(j, dr), c + orth_steps(j, dc))] is None);
        }
    } else {
        assert forall|y: int| min(tr, r) + 1 <= y < max(tr, r) implies (#[trigger] b[xsq(y, tc)]) is None by {
            let j = if dr > 0 { y - r } else { r - y };
            assert(b[xsq(r + orth_steps(j, dr), c + orth_steps(j, dc))] is None);
        }
    }
}

proof fn lemma_chariot_facts(b: Seq<Option<XiangqiPiece>>, c: XiangqiColor, sq: int, dr: int, dc: int, n: int)
    requires
        0 <= sq < 90,
        orth_dir(dr, dc),
        1 <= n,
        b[sq] == Some(XiangqiPiece { piece_type: PieceType::Chariot, color: c }),
        steps_clear(b, sq / 9, sq % 9, dr, dc, 1, n),
    ensures
        xq_all_facts(b, c, chariot_from(b, c, sq, sq / 9, sq % 9, dr, dc, n)),
    decreases 10 - n,
{
    let r = sq / 9;
    let cc = sq % 9;
    lemma_xq_row_col(sq);
    if !(n < 1 || n >= 10 || !on_xboard(r + orth_steps(n, dr), cc + orth_steps(n, dc))) {
        let tr = r + orth_steps(n, dr);
        let tc = cc + orth_steps(n, dc);
        lemma_xsq(tr, tc);
        let t = xsq(tr, tc);
        lemma_line_clear(b, r, cc, dr, dc, n);
        assert(xq_attacks(b, r, cc, PieceType::Chariot, c, tr, tc));
        lemma_attack_witness(b, c, sq, t);
        let m = xmove(sq, t);
        if b[t] is None {
            assert(xq_move_facts(b, c, m));
            assert(xq_all_facts(b, c, seq![m]));
            assert forall|j: int| 1 <= j < n + 1 implies (#[trigger] b[xsq(r + orth_steps(j, dr), cc + orth_steps(j, dc))]) is None by {
                if j < n {
                    assert(b[xsq(r + orth_steps(j, dr), cc + orth_steps(j, dc))] is None);
                }
            }
            lemma_chariot_facts(b, c, sq, dr, dc, n + 1);
            lemma_xq_all_facts_add(b, c, seq![m], chariot_from(b, c, sq, r, cc, dr, dc, n + 1));
        } else if b[t]->0.color != c {
            assert(xq_move_facts(b, c, m));
            assert(xq_all_facts(b, c, seq![m]));
        }
    }
}

proof fn lemma_row_count_zero(b: Seq<Option<XiangqiPiece>>, r: int, lo: int, hi: int)
    requires
        row_clear(b, r, lo, hi),
    ensures
        row_count(b, r, lo, hi) == 0,
    decreases hi - lo,
{
    if hi > lo {
        assert(b[xsq(r, hi - 1)] is None);
        lemma_row_count_zero(b, r, lo, hi - 1);
    }
}

proof fn lemma_row_count_one(b: Seq<Option<XiangqiPiece>>, r: int, lo: int, hi: int, x0: int)
    requires
        lo <= x0 < hi,
        b[xsq(r, x0)] is Some,
        row_clear(b, r, lo, x0),
        row_clear(b, r, x0 + 1, hi),
    ensures
        row_count(b, r, lo, hi) == 1,
    decreases hi - lo,
{
    if hi - 1 == x0 {
        lemma_row_count_zero(b, r, lo, x0);
    } else {
        assert(b[xsq(r, hi - 1)] is None);
        lemma_row_count_one(b, r, lo, hi - 1, x0);
    }
}

proof fn lemma_col_count_zero(b: Seq<Option<XiangqiPiece>>, c: int, lo: int, hi: int)
    requires
        col_clear(b, c, lo, hi),
    ensures
        col_count(b, c, lo, hi) == 0,
    decreases hi - lo,
{
    if hi > lo {
        assert(b[xsq(hi - 1, c)] is None);
        lemma_col_count_zero(b, c, lo, hi - 1);
    }
}

proof fn lemma_col_count_one(b: Seq<Option<XiangqiPiece>>, c: int, lo: int, hi: int, y0: int)
    requires
        lo <= y0 < hi,
        b[xsq(y0, c)] is Some,
        col_clear(b, c, lo, y0),
        col_clear(b, c, y0 + 1, hi),
    ensures
        col_count(b, c, lo, hi) == 1,
    decreases hi - lo,
{
    if hi - 1 == y0 {
        lemma_col_count_zero(b, c, lo, y0);
    } else {
        assert(b[xsq(hi - 1, c)] is None);
        lemma_col_count_one(b, c, lo, hi - 1, y0);
    }
}

/// Exactly one piece (the screen at step `s`) between the cannon and step `k` gives the cannon attack.
proof fn lemma_cannon_line(b: Seq<Option<XiangqiPiece>>, r: int, c: int, dr: int, dc: int, s: int, k: int)
    requires
        on_xboard(r, c),
        orth_dir(dr, dc),
        1 <= s < k,
        on_xboard(r + orth_steps(k, dr), c + orth_steps(k, dc)),
        steps_clear(b, r, c, dr, dc, 1, s),
        b[xsq(r + orth_steps(s, dr), c + orth_steps(s, dc))] is Some,
        steps_clear(b, r, c, dr, dc, s + 1, k),
    ensures
        ({
            let tr = r + orth_steps(k, dr);
            let tc = c + orth_steps(k, dc);
            if dr == 0 {
                row_count(b, tr, min(tc, c) + 1, max(tc, c)) == 1
            } else {
                col_count(b, tc, min(tr, r) + 1, max(tr, r)) == 1
            }
        }),
{
    let tr = r + orth_steps(k, dr);
    let tc = c + orth_steps(k, dc);
    if dr == 0 {
        let x0 = c + orth_steps(s, dc);
        let lo = min(tc, c) + 1;
        let hi = max(tc, c);
        assert forall|x: int| lo <= x < hi && x != x0 implies (#[trigger] b[xsq(tr, x)]) is None by {
            let j = if dc > 0 { x - c } else { c - x };
            assert(b[xsq(r + orth_steps(j, dr), c + orth_steps(j, dc))] is None);
        }
        assert(row_clear(b, tr, lo, x0));
        assert(row_clear(b, tr, x0 + 1, hi));
        lemma_row_count_one(b, tr, lo, hi, x0);
    } else {
        let y0 = r + orth_steps(s, dr);
        let lo = min(tr, r) + 1;
        let hi = max(tr, r);
        assert forall|y: int| lo <= y < hi && y != y0 implies (#[trigger] b[xsq(y, tc)]) is None by {
            let j = if dr > 0 { y - r } else { r - y };
            assert(b[xsq(r + orth_steps(j, dr), c + orth_steps(j, dc))] is None);
        }
        assert(col_clear(b, tc, lo, y0));
        assert(col_clear(b, tc, y0 + 1, hi));
        lemma_col_count_one(b, tc, lo, hi, y0);
    }
}

proof fn lemma_cannon_capture_facts(b: Seq<Option<XiangqiPiece>>, c: XiangqiColor, sq: int, dr: int, dc: int, s: int, n: int)
    requires
        0 <= sq < 90,
        orth_dir(dr, dc),
        1 <= s < n,
        b[sq] == Some(XiangqiPiece { piece_type: PieceType::Cannon, color: c }),
        steps_clear(b, sq / 9, sq % 9, dr, dc, 1, s),
        b[xsq(sq / 9 + orth_steps(s, dr), sq % 9 + orth_steps(s, dc))] is Some,
        steps_clear(b, sq / 9, sq % 9, dr, dc, s + 1, n),
    ensures
        xq_all_facts(b, c, cannon_capture_from(b, c, sq, sq / 9, sq % 9, dr, dc, n)),
    decreases 10 - n,
{
    let r = sq / 9;
    let cc = sq % 9;
    lemma_xq_row_col(sq);
    if !(n < 1 || n >= 10 || !on_xboard(r + orth_steps(n, dr), cc + orth_steps(n, dc))) {
        let tr = r + orth_steps(n, dr);
        let tc = cc + orth_steps(n, dc);
        lemma_xsq(tr, tc);
        let t = xsq(tr, tc);
        if b[t] is Some {
            if b[t]->0.color != c {
                lemma_cannon_line(b, r, cc, dr, dc, s, n);
                assert(xq_attacks(b, r, cc, PieceType::Cannon, c, tr, tc));
                lemma_attack_witness(b, c, sq, t);
                assert(xq_move_facts(b, c, xmove(sq, t)));
                assert(xq_all_facts(b, c, seq![xmove(sq, t)]));
            }
        } else {
            assert forall|j: int| s + 1 <= j < n + 1 implies (#[trigger] b[xsq(r + orth_steps(j, dr), cc + orth_steps(j, dc))]) is None by {
                if j < n {
                    assert(b[xsq(r + orth_steps(j, dr), cc + orth_steps(j, dc))] is None);
                }
            }
            lemma_cannon_capture_facts(b, c, sq, dr, dc, s, n + 1);
        }
    }
}

proof fn lemma_cannon_facts(b: Seq<Option<XiangqiPiece>>, c: XiangqiColor, sq: int, dr: int, dc: int, n: int)
    requires
        0 <= sq < 90,
        orth_dir(dr, dc),
        1 <= n,
        b[sq] == Some(XiangqiPiece { piece_type: PieceType::Cannon, color: c }),
        steps_clear(b, sq / 9, sq % 9, dr, dc, 1, n),
    ensures
        xq_all_facts(b, c, cannon_from(b, c, sq, sq / 9, sq % 9, dr, dc, n)),
    decreases 10 - n,
{
    let r = sq / 9;
    let cc = sq % 9;
    lemma_xq_row_col(sq);
    if !(n < 1 || n >= 10 || !on_xboard(r + orth_steps(n, dr), cc + orth_steps(n, dc))) {
        let tr = r + orth_steps(n, dr);
        let tc = cc + orth_steps(n, dc);
        lemma_xsq(tr, tc);
        let t = xsq(tr, tc);
        if b[t] is Some {
            assert(steps_clear(b, r, cc, dr, dc, n + 1, n + 1));
            lemma_cannon_capture_facts(b, c, sq, dr, dc, n, n + 1);
        } else {
            let m = xmove(sq, t);
            assert(xq_move_facts(b, c, m));
            assert(xq_all_facts(b, c, seq![m]));
            assert forall|j: int| 1 <= j < n + 1 implies (#[trigger] b[xsq(r + orth_steps(j, dr), cc + orth_steps(j, dc))]) is None by {
                if j < n {
                    assert(b[xsq(r + orth_steps(j, dr), cc + orth_steps(j, dc))] is None);
                }
            }
            lemma_cannon_facts(b, c, sq, dr, dc, n + 1);
            lemma_xq_all_facts_add(b, c, seq![m], cannon_from(b, c, sq, r, cc, dr, dc, n + 1));
        }
    }
}

proof fn lemma_soldier_facts(b: Seq<Option<XiangqiPiece>>, c: XiangqiColor, sq: int)
    requires
        0 <= sq < 90,
        b[sq] == Some(XiangqiPiece { piece_type: PieceType::Soldier, color: c }),
    ensures
        xq_all_facts(b, c, soldier_moves(b, c, sq, sq / 9, sq % 9)),
{
    let r = sq / 9;
    let cc = sq % 9;
    lemma_xq_row_col(sq);
    let nr = r + forward(c);
    let f = if on_xboard(nr, cc) && free_or_enemy(b[xsq(nr, cc)], c) {
        seq![xmove(sq, xsq(nr, cc))]
    } else {
        Seq::empty()
    };
    if on_xboard(nr, cc) && free_or_enemy(b[xsq(nr, cc)], c) {
        lemma_xsq(nr, cc);
        lemma_attack_witness(b, c, sq, xsq(nr, cc));
    }
    assert(xq_all_facts(b, c, f));
    let sl = soldier_side(b, c, sq, r, cc, -1);
    let sr = soldier_side(b, c, sq, r, cc, 1);
    if crossed(r, c) {
        if on_xboard(r, cc - 1) && free_or_enemy(b[xsq(r, cc - 1)], c) {
            lemma_xsq(r, cc - 1);
            lemma_attack_witness(b, c, sq, xsq(r, cc - 1));
        }
        if on_xboard(r, cc + 1) && free_or_enemy(b[xsq(r, cc + 1)], c) {
            lemma_xsq(r, cc + 1);
            lemma_attack_witness(b, c, sq, xsq(r, cc + 1));
        }
        assert(xq_all_facts(b, c, sl));
        assert(xq_all_facts(b, c, sr));
        lemma_xq_all_facts_add(b, c, sl, sr);
        lemma_xq_all_facts_add(b, c, f, sl + sr);
    } else {
        lemma_xq_all_facts_add(b, c, f, Seq::empty());
        assert(f + Seq::<XiangqiMove>::empty() =~= f);
    }
}

proof fn lemma_xq_piece_facts(b: Seq<Option<XiangqiPiece>>, c: XiangqiColor, sq: int)
    requires
        0 <= sq < 90,
    ensures
        xq_all_facts(b, c, xq_piece_moves(b, c, sq)),
{
    let r = sq / 9;
    let cc = sq % 9;
    if b[sq] is Some && b[sq]->0.color == c {
        match b[sq]->0.piece_type {
            PieceType::General => lemma_jumps_facts(b, c, sq, 0, 0),
            PieceType::Advisor => lemma_jumps_facts(b, c, sq, 1, 0),
            PieceType::Elephant => lemma_jumps_facts(b, c, sq, 2, 0),
            PieceType::Horse => lemma_jumps_facts(b, c, sq, 3, 0),
            PieceType::Chariot => {
                reveal(chariot_moves);
                lemma_chariot_facts(b, c, sq, -1, 0, 1);
                lemma_chariot_facts(b, c, sq, 1, 0, 1);
                lemma_chariot_facts(b, c, sq, 0, -1, 1);
                lemma_chariot_facts(b, c, sq, 0, 1, 1);
                let s1 = chariot_from(b, c, sq, r, cc, -1, 0, 1);
                let s2 = chariot_from(b, c, sq, r, cc, 1, 0, 1);
                let s3 = chariot_from(b, c, sq, r, cc, 0, -1, 1);
                let s4 = chariot_from(b, c, sq, r, cc, 0, 1, 1);
                lemma_xq_all_facts_add(b, c, s1, s2);
                lemma_xq_all_facts_add(b, c, s1 + s2, s3);
                lemma_xq_all_facts_add(b, c, s1 + s2 + s3, s4);
            },
            PieceType::Cannon => {
                reveal(cannon_moves);
                lemma_cannon_facts(b, c, sq, -1, 0, 1);
                lemma_cannon_facts(b, c, sq, 1, 0, 1);
                lemma_cannon_facts(b, c, sq, 0, -1, 1);
                lemma_cannon_facts(b, c, sq, 0, 1, 1);
                let s1 = cannon_from(b, c, sq, r, cc, -1, 0, 1);
                let s2 = cannon_from(b, c, sq, r, cc, 1, 0, 1);
                let s3 = cannon_from(b, c, sq, r, cc, 0, -1, 1);
                let s4 = cannon_from(b, c, sq, r, cc, 0, 1, 1);
                lemma_xq_all_facts_add(b, c, s1, s2);
                lemma_xq_all_facts_add(b, c, s1 + s2, s3);
                lemma_xq_all_facts_add(b, c, s1 + s2 + s3, s4);
            },
            PieceType::Soldier => lemma_soldier_facts(b, c, sq),
        }
    }
}

proof fn lemma_xq_pseudo_upto_facts(b: Seq<Option<XiangqiPiece>>, c: XiangqiColor, n: int)
    requires
        0 <= n <= 90,
    ensures
        xq_all_facts(b, c, xq_pseudo_upto(b, c, n)),
    decreases n,
{
    if n > 0 {
        lemma_xq_pseudo_upto_facts(b, c, n - 1);
        lemma_xq_piece_facts(b, c, n - 1);
        lemma_xq_all_facts_add(b, c, xq_pseudo_upto(b, c, n - 1), xq_piece_moves(b, c, n - 1));
    }
}

/// Every pseudo-legal move satisfies `xq_move_facts`.
pub proof fn lemma_xq_pseudo_facts(b: Seq<Option<XiangqiPiece>>, c: XiangqiColor)
    ensures
        xq_all_facts(b, c, xq_pseudo_moves(b, c)),
{
    lemma_xq_pseudo_upto_facts(b, c, 90);
}

// ---------------------------------------------------------------------------
// Positions that arise in play

/// A position with `c` to move that can arise in a game: both generals are
/// on the board and the side that just moved has not left its general attacked.
pub open spec fn xq_position_ok(b: Seq<Option<XiangqiPiece>>, c: XiangqiColor) -> bool {
    &&& b.len() == 90
    &&& has_general(b, c)
    &&& has_general(b, other_side(c))
    &&& !xq_attacked(b, general_square(b, other_side(c)), c)
}

/// After a pseudo-legal move from a game position both generals are still on the board.
pub proof fn lemma_xq_child_generals(b: Seq<Option<XiangqiPiece>>, c: XiangqiColor, m: XiangqiMove)
    requires
        xq_position_ok(b, c),
        xq_move_facts(b, c, m),
    ensures
        has_general(xq_apply(b, m), c),
        has_general(xq_apply(b, m), other_side(c)),
{
    let child = xq_apply(b, m);
    lemma_general_square(b, c);
    lemma_general_square(b, other_side(c));
    let k = general_square(b, c);
    let q = general_square(b, other_side(c));
    assert(m.to != m.from);
    if m.from == k {
        assert(is_xq(child[m.to as int], c, PieceType::General));
    } else {
        assert(k != m.to);
        assert(child[k] == b[k]);
        assert(is_xq(child[k], c, PieceType::General));
    }
    assert(q != m.to) by {
        if q == m.to {
            assert(xq_attacked(b, m.to as int, c));
        }
    }
    assert(child[q] == b[q]);
    assert(is_xq(child[q], other_side(c), PieceType::General));
}

/// In a game position both generals survive each pseudo-legal move of the mover.
pub proof fn lemma_xq_position_generals_survive(b: Seq<Option<XiangqiPiece>>, c: XiangqiColor)
    requires
        xq_position_ok(b, c),
    ensures
        xq_generals_survive(b, c),
{
    lemma_xq_pseudo_facts(b, c);
    assert forall|k: int| 0 <= k < xq_pseudo_moves(b, c).len() implies {
        let child = xq_apply(b, #[trigger] xq_pseudo_moves(b, c)[k]);
        &&& has_general(child, c)
        &&& !xq_in_check(child, c) ==> has_general(child, other_side(c))
    } by {
        lemma_xq_child_generals(b, c, xq_pseudo_moves(b, c)[k]);
    }
}

proof fn lemma_xq_legal_filter_safe(b: Seq<Option<XiangqiPiece>>, c: XiangqiColor, s: Seq<XiangqiMove>)
    ensures
        forall|k: int| 0 <= k < xq_legal_filter(b, c, s).len() ==> xq_keeps_safe(b, c, #[trigger] xq_legal_filter(b, c, s)[k]),
    decreases s.len(),
{
    if s.len() > 0 {
        lemma_xq_legal_filter_safe(b, c, s.drop_last());
        let a = xq_legal_filter(b, c, s.drop_last());
        let l = xq_legal_filter(b, c, s);
        assert forall|k: int| 0 <= k < l.len() implies xq_keeps_safe(b, c, #[trigger] l[k]) by {
            if k < a.len() {
                assert(l[k] == a[k]);
            }
        }
    }
}

/// A legal move is a pseudo-legal move after which the mover's general is
/// not attacked and the generals do not face each other.
pub proof fn lemma_xq_legal_move(b: Seq<Option<XiangqiPiece>>, c: XiangqiColor, k: int)
    requires
        0 <= k < xq_legal_moves(b, c).len(),
    ensures
        xq_move_facts(b, c, xq_legal_moves(b, c)[k]),
        xq_keeps_safe(b, c, xq_legal_moves(b, c)[k]),
{
    let ps = xq_pseudo_moves(b, c);
    lemma_xq_pseudo_facts(b, c);
    lemma_xq_legal_filter_members(b, c, ps);
    lemma_xq_legal_filter_safe(b, c, ps);
    let m = xq_legal_moves(b, c)[k];
    assert(ps.contains(m));
    let j = choose|j: int| 0 <= j < ps.len() && ps[j] == m;
    assert(xq_move_facts(b, c, ps[j]));
}

/// Playing a legal move from a game position gives a game position with the
/// other side to move.
pub proof fn lemma_xq_legal_move_keeps_position(b: Seq<Option<XiangqiPiece>>, c: XiangqiColor, k: int)
    requires
        xq_position_ok(b, c),
        0 <= k < xq_legal_moves(b, c).len(),
    ensures
        xq_position_ok(xq_apply(b, xq_legal_moves(b, c)[k]), other_side(c)),
{
    let m = xq_legal_moves(b, c)[k];
    lemma_xq_legal_move(b, c, k);
    lemma_xq_child_generals(b, c, m);
    assert(other_side(other_side(c)) == c);
}

/// From a game position, the search to any depth stays safe.
pub proof fn lemma_xq_position_search_safe(b: Seq<Option<XiangqiPiece>>, c: XiangqiColor, depth: int)
    requires
        xq_position_ok(b, c),
    ensures
        xq_search_safe(b, c, depth),
    decreases depth,
{
    if depth > 0 {
        lemma_xq_position_generals_survive(b, c);
        assert forall|k: int| 0 <= k < xq_legal_moves(b, c).len() implies xq_search_safe(
            xq_apply(b, #[trigger] xq_legal_moves(b, c)[k]),
            other_side(c),
            depth - 1,
        ) by {
            lemma_xq_legal_move_keeps_position(b, c, k);
            lemma_xq_position_search_safe(xq_apply(b, xq_legal_moves(b, c)[k]), other_side(c), depth - 1);
        }
    }
}

/// From a game position the computer's root search is safe.
pub proof fn lemma_xq_position_root_safe(b: Seq<Option<XiangqiPiece>>, c: XiangqiColor)
    requires
        xq_position_ok(b, c),
    ensures
        xq_root_safe(b, c),
{
    lemma_xq_position_search_safe(b, c, 3);
}

/// The standard starting position with Red to move is a game position.
pub proof fn lemma_xq_initial_position_ok(b: Seq<Option<XiangqiPiece>>)
    requires
        b.len() == 90,
        forall|i: int| 0 <= i < 90 ==> #[trigger] b[i] == xq_initial_cell(i),
    ensures
        xq_position_ok(b, XiangqiColor::Red),
{
    assert(b[85] == xq_initial_cell(85));
    assert(is_xq(b[85], XiangqiColor::Red, PieceType::General));
    assert(b[4] == xq_initial_cell(4));
    assert(is_xq(b[4], XiangqiColor::Black, PieceType::General));
    assert(b[0] == xq_initial_cell(0));
    assert(b[1] == xq_initial_cell(1));
    assert(b[2] == xq_initial_cell(2));
    assert(b[3] == xq_initial_cell(3));
    assert(general_from(b, XiangqiColor::Black, 4) == 4);
    assert(general_from(b, XiangqiColor::Black, 3) == 4);
    assert(general_from(b, XiangqiColor::Black, 2) == 4);
    assert(general_from(b, XiangqiColor::Black, 1) == 4);
    assert(general_from(b, XiangqiColor::Black, 0) == 4);
    assert(general_square(b, XiangqiColor::Black) == 4);
    assert forall|s: int|
        0 <= s < 90 && b[s] is Some && b[s]->0.color == XiangqiColor::Red implies !#[trigger] xq_attacks(
        b,
        s / 9,
        s % 9,
        b[s]->0.piece_type,
        XiangqiColor::Red,
        0int,
        4int,
    ) by {
        assert(b[s] == xq_initial_cell(s));
        assert(s >= 54);
    }
}

} // verus!
