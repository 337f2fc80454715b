//! Laws of the enclosing-tag locator: inside a tag it finds exactly that tag;
//! outside any tag, or in the gap between two tags, it fails.

use crate::locate::{langle_pos, located, rangle_pos, scan_left, scan_right,
    snippet_at, snippet_bytes, ScanFind, LANGLE, RANGLE};
use vstd::prelude::*;

verus! {

/// Textual order on (line, column) positions.
pub open spec fn pos_le(a: (int, int), b: (int, int)) -> bool {
    a.0 < b.0 || (a.0 == b.0 && a.1 <= b.1)
}

pub open spec fn pos_lt(a: (int, int), b: (int, int)) -> bool {
    pos_le(a, b) && a != b
}

/// The position names a character of the buffer.
pub open spec fn valid_pos(lines: Seq<Seq<u8>>, p: (int, int)) -> bool {
    0 <= p.0 < lines.len() && 0 <= p.1 < lines[p.0].len()
}

pub open spec fn is_bracket(c: u8) -> bool {
    c == LANGLE || c == RANGLE
}

/// No bracket stands strictly between positions `s` and `e`.
pub open spec fn clean_between(lines: Seq<Seq<u8>>, s: (int, int), e: (int, int)) -> bool {
    forall|li: int, k: int|
        valid_pos(lines, (li, k)) && pos_lt(s, (li, k)) && pos_lt((li, k), e) ==> !is_bracket(
            #[trigger] lines[li][k],
        )
}

proof fn lemma_scan_left_found(line: Seq<u8>, from: int, skip: Option<int>, t: int)
    requires
        0 <= t <= from < line.len(),
        line[t] == LANGLE,
        forall|k: int|
            t < k <= from ==> #[trigger] line[k] != LANGLE && (line[k] != RANGLE || skip == Some(
                k,
            )),
    ensures
        scan_left(line, from, skip) == ScanFind::Found(t),
    decreases from - t,
{
    if from > t {
        lemma_scan_left_found(line, from - 1, skip, t);
    }
}

proof fn lemma_scan_left_missing(line: Seq<u8>, from: int, skip: Option<int>)
    requires
        -1 <= from < line.len(),
        forall|k: int|
            0 <= k <= from ==> #[trigger] line[k] != LANGLE && (line[k] != RANGLE || skip == Some(
                k,
            )),
    ensures
        scan_left(line, from, skip) == ScanFind::Missing,
    decreases from + 1,
{
    if from >= 0 {
        lemma_scan_left_missing(line, from - 1, skip);
    }
}

proof fn lemma_scan_left_blocked(line: Seq<u8>, from: int, skip: Option<int>, a: int)
    requires
        0 <= a <= from < line.len(),
        line[a] == RANGLE,
        skip != Some(a),
        forall|k: int|
            a < k <= from ==> #[trigger] line[k] != LANGLE && (line[k] != RANGLE || skip == Some(
                k,
            )),
    ensures
        scan_left(line, from, skip) == ScanFind::Blocked,
    decreases from - a,
{
    if from > a {
        lemma_scan_left_blocked(line, from - 1, skip, a);
    }
}

proof fn lemma_scan_left_found_props(line: Seq<u8>, from: int, skip: Option<int>)
    requires
        -1 <= from < line.len(),
    ensures
        scan_left(line, from, skip) matches ScanFind::Found(t) ==> 0 <= t <= from && t < line.len()
            && line[t] == LANGLE,
    decreases from + 1,
{
    if from >= 0 {
        lemma_scan_left_found_props(line, from - 1, skip);
    }
}

proof fn lemma_scan_right_found(line: Seq<u8>, from: int, skip: Option<int>, t: int)
    requires
        0 <= from <= t < line.len(),
        line[t] == RANGLE,
        forall|k: int|
            from <= k < t ==> #[trigger] line[k] != RANGLE && (line[k] != LANGLE || skip == Some(
                k,
            )),
    ensures
        scan_right(line, from, skip) == ScanFind::Found(t),
    decreases t - from,
{
    if from < t {
        lemma_scan_right_found(line, from + 1, skip, t);
    }
}

proof fn lemma_scan_right_missing(line: Seq<u8>, from: int, skip: Option<int>)
    requires
        0 <= from,
    ensures
        (forall|k: int|
            from <= k < line.len() ==> #[trigger] line[k] != RANGLE && (line[k] != LANGLE || skip
                == Some(k))) ==> scan_right(line, from, skip) == ScanFind::Missing,
    decreases line.len() - from,
{
    if from < line.len() {
        lemma_scan_right_missing(line, from + 1, skip);
    }
}

/// The backward scan only ever reports a `<` at or before the cursor.
proof fn lemma_langle_sound(lines: Seq<Seq<u8>>, ci: int, cj: int, ii: int)
    requires
        -1 <= ii <= ci,
        0 <= cj < lines[ci].len(),
    ensures
        langle_pos(lines, ci, cj, ii) matches Some(p) ==> 0 <= p.0 <= ii && 0 <= p.1
            < lines[p.0].len() && lines[p.0][p.1] == LANGLE && pos_le(p, (ci, cj)),
    decreases ii + 1,
{
    if ii >= 0 {
        let from = if ii == ci {
            cj
        } else {
            lines[ii].len() - 1
        };
        let skip: Option<int> = if ii == ci {
            Some(cj)
        } else {
            None
        };
        lemma_scan_left_found_props(lines[ii], from, skip);
        if scan_left(lines[ii], from, skip) is Missing {
            lemma_langle_sound(lines, ci, cj, ii - 1);
        }
    }
}

proof fn lemma_langle_finds(
    lines: Seq<Seq<u8>>,
    si: int,
    sj: int,
    ei: int,
    ej: int,
    ci: int,
    cj: int,
    ii: int,
)
    requires
        valid_pos(lines, (si, sj)),
        valid_pos(lines, (ei, ej)),
        valid_pos(lines, (ci, cj)),
        lines[si][sj] == LANGLE,
        lines[ei][ej] == RANGLE,
        clean_between(lines, (si, sj), (ei, ej)),
        pos_le((si, sj), (ci, cj)),
        pos_le((ci, cj), (ei, ej)),
        si <= ii <= ci,
    ensures
        langle_pos(lines, ci, cj, ii) == Some((si, sj)),
    decreases ii - si,
{
    let line = lines[ii];
    let from = if ii == ci {
        cj
    } else {
        line.len() - 1
    };
    let skip: Option<int> = if ii == ci {
        Some(cj)
    } else {
        None
    };
    let lo: int = if ii == si {
        sj
    } else {
        -1
    };
    assert forall|k: int| lo < k <= from implies #[trigger] line[k] != LANGLE && (line[k] != RANGLE
        || skip == Some(k)) by {
        assert(valid_pos(lines, (ii, k)));
        assert(pos_lt((si, sj), (ii, k)));
        if (ii, k) == (ei, ej) {
            assert(ii == ci && k == cj);
        } else {
            assert(pos_lt((ii, k), (ei, ej)));
            assert(!is_bracket(lines[ii][k]));
        }
    }
    if ii == si {
        lemma_scan_left_found(line, from, skip, sj);
    } else {
        lemma_scan_left_missing(line, from, skip);
        lemma_langle_finds(lines, si, sj, ei, ej, ci, cj, ii - 1);
    }
}

proof fn lemma_rangle_finds(
    lines: Seq<Seq<u8>>,
    si: int,
    sj: int,
    ei: int,
    ej: int,
    ci: int,
    cj: int,
    ii: int,
)
    requires
        valid_pos(lines, (si, sj)),
        valid_pos(lines, (ei, ej)),
        valid_pos(lines, (ci, cj)),
        lines[si][sj] == LANGLE,
        lines[ei][ej] == RANGLE,
        clean_between(lines, (si, sj), (ei, ej)),
        pos_le((si, sj), (ci, cj)),
        pos_le((ci, cj), (ei, ej)),
        ci <= ii <= ei,
    ensures
        rangle_pos(lines, ci, cj, ii) == Some((ei, ej)),
    decreases ei - ii,
{
    let line = lines[ii];
    let from = if ii == ci {
        cj
    } else {
        0
    };
    let skip: Option<int> = if ii == ci {
        Some(cj)
    } else {
        None
    };
    let hi: int = if ii == ei {
        ej
    } else {
        line.len() as int
    };
    assert forall|k: int| from <= k < hi implies #[trigger] line[k] != RANGLE && (line[k] != LANGLE
        || skip == Some(k)) by {
        assert(valid_pos(lines, (ii, k)));
        assert(pos_lt((ii, k), (ei, ej)));
        if (ii, k) == (si, sj) {
            assert(ii == ci && k == cj);
        } else {
            assert(pos_lt((si, sj), (ii, k)));
            assert(!is_bracket(lines[ii][k]));
        }
    }
    if ii == ei {
        lemma_scan_right_found(line, from, skip, ej);
    } else {
        lemma_scan_right_missing(line, from, skip);
        lemma_rangle_finds(lines, si, sj, ei, ej, ci, cj, ii + 1);
    }
}

/// For every cursor position between a tag's `<` at (si, sj) and its own `>`
/// at (ei, ej) — both bracket positions included, no other bracket between
/// them — the locator finds exactly that tag's span, and so returns its raw
/// text, space-joined at line breaks, whatever whitespace or newlines lie
/// inside the tag.
pub proof fn lemma_locator_finds_enclosing_tag(
    lines: Seq<Seq<u8>>,
    si: int,
    sj: int,
    ei: int,
    ej: int,
    ci: int,
    cj: int,
)
    requires
        valid_pos(lines, (si, sj)),
        valid_pos(lines, (ei, ej)),
        valid_pos(lines, (ci, cj)),
        lines[si][sj] == LANGLE,
        lines[ei][ej] == RANGLE,
        clean_between(lines, (si, sj), (ei, ej)),
        pos_le((si, sj), (ci, cj)),
        pos_le((ci, cj), (ei, ej)),
    ensures
        located(lines, ci, cj) == Some(((si, sj), (ei, ej))),
        snippet_at(lines, ci, cj) == snippet_bytes(lines, si, sj, ei, ej),
{
    lemma_langle_finds(lines, si, sj, ei, ej, ci, cj, ci);
    lemma_rangle_finds(lines, si, sj, ei, ej, ci, cj, ci);
}

/// For a cursor positioned outside any tag, with no `<` anywhere at or before
/// it, the locator fails.
pub proof fn lemma_locator_fails_outside(lines: Seq<Seq<u8>>, ci: int, cj: int)
    requires
        valid_pos(lines, (ci, cj)),
        forall|li: int, k: int|
            valid_pos(lines, (li, k)) && pos_le((li, k), (ci, cj)) ==> #[trigger] lines[li][k]
                != LANGLE,
    ensures
        located(lines, ci, cj) is None,
{
    lemma_langle_sound(lines, ci, cj, ci);
}

/// For a cursor in the gap between two tags on one line — the left
/// neighbour's `>` at column `a`, no bracket from there through the cursor —
/// the locator fails: it attributes the cursor to neither neighbour.
pub proof fn lemma_locator_fails_between(lines: Seq<Seq<u8>>, ci: int, cj: int, a: int)
    requires
        valid_pos(lines, (ci, cj)),
        0 <= a < cj,
        lines[ci][a] == RANGLE,
        forall|k: int| a < k <= cj ==> !is_bracket(#[trigger] lines[ci][k]),
    ensures
        located(lines, ci, cj) is None,
{
    assert forall|k: int| a < k <= cj implies #[trigger] lines[ci][k] != LANGLE && (lines[ci][k]
        != RANGLE || Some(k) == Some(cj)) by {
        assert(!is_bracket(lines[ci][k]));
    }
    lemma_scan_left_blocked(lines[ci], cj, Some(cj), a);
}

} // verus!
