//! Enclosing-tag location: given a line buffer of raw bytes and a cursor
//! position, find the nearest unmatched `<` scanning backward and the nearest
//! unmatched `>` scanning forward, and reconstruct the raw tag snippet with a
//! single space joining what were separate source lines.

use vstd::prelude::*;

verus! {

/// Byte value of `<`.
pub const LANGLE: u8 = 60;

/// Byte value of `>`.
pub const RANGLE: u8 = 62;

/// Byte value of the space that joins line parts in a snippet.
pub const SPACE: u8 = 32;

/// The view of a line buffer: each line as its byte sequence.
pub open spec fn lines_view(v: Seq<Vec<u8>>) -> Seq<Seq<u8>> {
    Seq::new(v.len(), |k: int| v[k]@)
}

/// Outcome of scanning a single line for a bracket (specification level):
/// the sought bracket stands at this column, a bracket of the opposite kind
/// blocks the scan, or the line holds neither in the scanned range.
pub enum ScanFind {
    Found(int),
    Blocked,
    Missing,
}

/// Scan one line right-to-left from column `from` for `<`. A `>` anywhere but
/// at the column `skip` (the cursor itself) blocks the scan.
pub open spec fn scan_left(line: Seq<u8>, from: int, skip: Option<int>) -> ScanFind
    decreases from + 1 when from >= -1
{
    if from < 0 {
        ScanFind::Missing
    } else if line[from] == LANGLE {
        ScanFind::Found(from)
    } else if line[from] == RANGLE && skip != Some(from) {
        ScanFind::Blocked
    } else {
        scan_left(line, from - 1, skip)
    }
}

/// Scan one line left-to-right from column `from` for `>`. A `<` anywhere but
/// at the column `skip` (the cursor itself) blocks the scan.
pub open spec fn scan_right(line: Seq<u8>, from: int, skip: Option<int>) -> ScanFind
    decreases line.len() - from when 0 <= from
{
    if from >= line.len() {
        ScanFind::Missing
    } else if line[from] == RANGLE {
        ScanFind::Found(from)
    } else if line[from] == LANGLE && skip != Some(from) {
        ScanFind::Blocked
    } else {
        scan_right(line, from + 1, skip)
    }
}

/// Position of the nearest unmatched `<` at or above line `ii`, scanning
/// backward from the cursor (ci, cj). On the cursor's own line the scan
/// starts at the cursor column and a `>` right at the cursor does not block.
pub open spec fn langle_pos(lines: Seq<Seq<u8>>, ci: int, cj: int, ii: int) -> Option<(int, int)>
    decreases ii + 1 when ii >= -1
{
    if ii < 0 {
        None
    } else {
        let from = if ii == ci { cj } else { lines[ii].len() - 1 };
        let skip = if ii == ci { Some(cj) } else { None };
        match scan_left(lines[ii], from, skip) {
            ScanFind::Found(k) => Some((ii, k)),
            ScanFind::Blocked => None,
            ScanFind::Missing => langle_pos(lines, ci, cj, ii - 1),
        }
    }
}

/// Position of the nearest unmatched `>` at or below line `ii`, scanning
/// forward from the cursor (ci, cj), symmetric to `langle_pos`.
pub open spec fn rangle_pos(lines: Seq<Seq<u8>>, ci: int, cj: int, ii: int) -> Option<(int, int)>
    decreases lines.len() - ii when 0 <= ii
{
    if ii >= lines.len() {
        None
    } else {
        let from = if ii == ci { cj } else { 0 };
        let skip = if ii == ci { Some(cj) } else { None };
        match scan_right(lines[ii], from, skip) {
            ScanFind::Found(k) => Some((ii, k)),
            ScanFind::Blocked => None,
            ScanFind::Missing => rangle_pos(lines, ci, cj, ii + 1),
        }
    }
}

/// The bracket pair enclosing the cursor, if both scans succeed.
pub open spec fn located(lines: Seq<Seq<u8>>, ci: int, cj: int) -> Option<((int, int), (int, int))> {
    match (langle_pos(lines, ci, cj, ci), rangle_pos(lines, ci, cj, ci)) {
        (Some(l), Some(r)) => Some((l, r)),
        _ => None,
    }
}

/// The part line `li` contributes to the snippet delimited by the `<` at
/// (si, sj) and the `>` at (ei, ej), both inclusive.
pub open spec fn line_part(lines: Seq<Seq<u8>>, si: int, sj: int, ei: int, ej: int, li: int) -> Seq<u8> {
    let line = lines[li];
    let lo = if li == si { sj } else { 0 };
    let hi = if li == ei { ej + 1 } else { line.len() as int };
    line.subrange(lo, hi)
}

/// The parts of lines `li ..= ei`, joined by a single space.
pub open spec fn snippet_from(lines: Seq<Seq<u8>>, si: int, sj: int, ei: int, ej: int, li: int) -> Seq<u8>
    decreases ei - li,
{
    if li >= ei {
        line_part(lines, si, sj, ei, ej, ei)
    } else {
        line_part(lines, si, sj, ei, ej, li) + seq![SPACE] + snippet_from(lines, si, sj, ei, ej, li + 1)
    }
}

/// The raw snippet between the `<` at (si, sj) and the `>` at (ei, ej).
pub open spec fn snippet_bytes(lines: Seq<Seq<u8>>, si: int, sj: int, ei: int, ej: int) -> Seq<u8> {
    snippet_from(lines, si, sj, ei, ej, si)
}

/// The snippet of the tag enclosing the cursor (ci, cj), when one is located.
pub open spec fn snippet_at(lines: Seq<Seq<u8>>, ci: int, cj: int) -> Seq<u8> {
    match located(lines, ci, cj) {
        Some(pos) => snippet_bytes(lines, pos.0.0, pos.0.1, pos.1.0, pos.1.1),
        None => Seq::empty(),
    }
}

/// What `String::from_utf8_lossy` returns: a function of the bytes alone.
pub uninterp spec fn lossy_of(bytes: Seq<u8>) -> Seq<char>;

/// Relies on `String::from_utf8_lossy`: its result depends on the bytes
/// alone, and bytes that are valid UTF-8 decode unchanged.
#[verifier::external_body]
fn lossy_string(bytes: &Vec<u8>) -> (s: String)
    ensures
        s@ == lossy_of(bytes@),
        vstd::utf8::valid_utf8(bytes@) ==> s@ == vstd::utf8::decode_utf8(bytes@),
{
    String::from_utf8_lossy(bytes).into_owned()
}

/// Outcome of scanning a single line (executable level).
enum LineScan {
    Found(usize),
    Blocked,
    Missing,
}

spec fn opt_col(o: Option<usize>) -> Option<int> {
    match o {
        Some(k) => Some(k as int),
        None => None,
    }
}

spec fn opt_pos(o: Option<(usize, usize)>) -> Option<(int, int)> {
    match o {
        Some(p) => Some((p.0 as int, p.1 as int)),
        None => None,
    }
}

fn scan_line_left(line: &Vec<u8>, from: usize, skip_col: Option<usize>) -> (r: LineScan)
    requires
        from < line@.len(),
    ensures
        (match r {
            LineScan::Found(k) => scan_left(line@, from as int, opt_col(skip_col))
                == ScanFind::Found(k as int) && k <= from,
            LineScan::Blocked => scan_left(line@, from as int, opt_col(skip_col)) == ScanFind::Blocked,
            LineScan::Missing => scan_left(line@, from as int, opt_col(skip_col)) == ScanFind::Missing,
        }),
{
    let n = line.len();
    let mut k: usize = from + 1;
    while k > 0
        invariant
            k <= from + 1,
            from < line@.len(),
            scan_left(line@, from as int, opt_col(skip_col)) == scan_left(
                line@,
                k as int - 1,
                opt_col(skip_col),
            ),
        decreases k,
    {
        k = k - 1;
        let c = line[k];
        if c == LANGLE {
            return LineScan::Found(k);
        }
        let at_skip = match skip_col {
            Some(s) => s == k,
            None => false,
        };
        if c == RANGLE && !at_skip {
            proof {
                assert(opt_col(skip_col) != Some(k as int));
            }
            return LineScan::Blocked;
        }
        proof {
            assert(scan_left(line@, k as int, opt_col(skip_col)) == scan_left(
                line@,
                k as int - 1,
                opt_col(skip_col),
            ));
        }
    }
    LineScan::Missing
}

fn scan_line_right(line: &Vec<u8>, from: usize, skip_col: Option<usize>) -> (r: LineScan)
    requires
        from <= line@.len(),
    ensures
        (match r {
            LineScan::Found(k) => scan_right(line@, from as int, opt_col(skip_col))
                == ScanFind::Found(k as int) && from <= k && k < line@.len(),
            LineScan::Blocked => scan_right(line@, from as int, opt_col(skip_col))
                == ScanFind::Blocked,
            LineScan::Missing => scan_right(line@, from as int, opt_col(skip_col))
                == ScanFind::Missing,
        }),
{
    let mut k: usize = from;
    while k < line.len()
        invariant
            from <= k <= line@.len(),
            scan_right(line@, from as int, opt_col(skip_col)) == scan_right(
                line@,
                k as int,
                opt_col(skip_col),
            ),
        decreases line@.len() - k,
    {
        let c = line[k];
        if c == RANGLE {
            return LineScan::Found(k);
        }
        let at_skip = match skip_col {
            Some(s) => s == k,
            None => false,
        };
        if c == LANGLE && !at_skip {
            proof {
                assert(opt_col(skip_col) != Some(k as int));
            }
            return LineScan::Blocked;
        }
        proof {
            assert(scan_right(line@, k as int, opt_col(skip_col)) == scan_right(
                line@,
                k as int + 1,
                opt_col(skip_col),
            ));
        }
        k = k + 1;
    }
    LineScan::Missing
}

fn find_langle(contents: &Vec<Vec<u8>>, ci: usize, cj: usize) -> (r: Option<(usize, usize)>)
    requires
        ci < contents@.len(),
        cj < contents@[ci as int]@.len(),
    ensures
        opt_pos(r) == langle_pos(lines_view(contents@), ci as int, cj as int, ci as int),
        r matches Some(p) ==> p.0 <= ci && p.1 < contents@[p.0 as int]@.len() && (p.0 == ci
            ==> p.1 <= cj),
{
    let ghost lines = lines_view(contents@);
    let mut ii: usize = ci;
    loop
        invariant
            ii <= ci,
            ci < contents@.len(),
            cj < contents@[ci as int]@.len(),
            lines == lines_view(contents@),
            langle_pos(lines, ci as int, cj as int, ci as int) == langle_pos(
                lines,
                ci as int,
                cj as int,
                ii as int,
            ),
        decreases ii,
    {
        let line = &contents[ii];
        let scan = if ii == ci {
            scan_line_left(line, cj, Some(cj))
        } else if line.len() > 0 {
            scan_line_left(line, line.len() - 1, None)
        } else {
            proof {
                assert(scan_left(lines[ii as int], lines[ii as int].len() - 1, None)
                    == ScanFind::Missing);
            }
            LineScan::Missing
        };
        match scan {
            LineScan::Found(k) => {
                return Some((ii, k));
            },
            LineScan::Blocked => {
                return None;
            },
            LineScan::Missing => {
                if ii == 0 {
                    return None;
                }
                ii = ii - 1;
            },
        }
    }
}

fn find_rangle(contents: &Vec<Vec<u8>>, ci: usize, cj: usize) -> (r: Option<(usize, usize)>)
    requires
        ci < contents@.len(),
        cj < contents@[ci as int]@.len(),
    ensures
        opt_pos(r) == rangle_pos(lines_view(contents@), ci as int, cj as int, ci as int),
        r matches Some(p) ==> ci <= p.0 && p.0 < contents@.len() && p.1 < contents@[p.0 as int]@.len()
            && (p.0 == ci ==> cj <= p.1),
{
    let ghost lines = lines_view(contents@);
    let mut ii: usize = ci;
    while ii < contents.len()
        invariant
            ci <= ii <= contents@.len(),
            ci < contents@.len(),
            cj < contents@[ci as int]@.len(),
            lines == lines_view(contents@),
            rangle_pos(lines, ci as int, cj as int, ci as int) == rangle_pos(
                lines,
                ci as int,
                cj as int,
                ii as int,
            ),
        decreases contents@.len() - ii,
    {
        let line = &contents[ii];
        let scan = if ii == ci {
            scan_line_right(line, cj, Some(cj))
        } else {
            scan_line_right(line, 0, None)
        };
        match scan {
            LineScan::Found(k) => {
                return Some((ii, k));
            },
            LineScan::Blocked => {
                return None;
            },
            LineScan::Missing => {
                ii = ii + 1;
            },
        }
    }
    None
}

/// Append `line[lo .. hi]` to `acc`.
fn push_range(acc: &mut Vec<u8>, line: &Vec<u8>, lo: usize, hi: usize)
    requires
        lo <= hi <= line@.len(),
    ensures
        final(acc)@ == old(acc)@ + line@.subrange(lo as int, hi as int),
{
    proof {
        assert(old(acc)@ + line@.subrange(lo as int, lo as int) =~= old(acc)@);
    }
    let mut k: usize = lo;
    while k < hi
        invariant
            lo <= k <= hi <= line@.len(),
            acc@ == old(acc)@ + line@.subrange(lo as int, k as int),
        decreases hi - k,
    {
        acc.push(line[k]);
        k = k + 1;
        proof {
            assert(line@.subrange(lo as int, k as int) =~= line@.subrange(
                lo as int,
                k as int - 1,
            ).push(line@[k as int - 1]));
            assert(acc@ =~= old(acc)@ + line@.subrange(lo as int, k as int));
        }
    }
}

/// Locate the tag enclosing the cursor at line `i`, column `j`: the nearest
/// unmatched `<` backward and `>` forward. On success the snippet between the
/// two brackets, inclusive, is returned, line parts joined by single spaces.
pub fn find_enclosing_tag(contents: &Vec<Vec<u8>>, i: usize, j: usize) -> (r: Result<String, ()>)
    requires
        i < contents@.len(),
        j < contents@[i as int]@.len(),
    ensures
        r is Ok <==> located(lines_view(contents@), i as int, j as int) is Some,
        r matches Ok(s) ==> s@ == lossy_of(snippet_at(lines_view(contents@), i as int, j as int)),
{
    let ghost lines = lines_view(contents@);
    let langle = find_langle(contents, i, j);
    let rangle = find_rangle(contents, i, j);
    let (si, sj) = match langle {
        Some(p) => p,
        None => {
            return Err(());
        },
    };
    let (ei, ej) = match rangle {
        Some(p) => p,
        None => {
            return Err(());
        },
    };
    proof {
        assert(located(lines, i as int, j as int) == Some(
            ((si as int, sj as int), (ei as int, ej as int)),
        ));
        assert(si <= i <= ei);
        assert(si == ei ==> sj <= ej);
    }
    let mut acc: Vec<u8> = Vec::new();
    let mut li: usize = si;
    while li < ei
        invariant
            si <= li <= ei,
            ei < contents@.len(),
            sj < contents@[si as int]@.len(),
            ej < contents@[ei as int]@.len(),
            si == ei ==> sj <= ej,
            lines == lines_view(contents@),
            snippet_bytes(lines, si as int, sj as int, ei as int, ej as int) == acc@ + snippet_from(
                lines,
                si as int,
                sj as int,
                ei as int,
                ej as int,
                li as int,
            ),
        decreases ei - li,
    {
        let line = &contents[li];
        let lo = if li == si {
            sj
        } else {
            0
        };
        let ghost acc_before = acc@;
        push_range(&mut acc, line, lo, line.len());
        acc.push(SPACE);
        proof {
            assert(acc@ =~= acc_before + line_part(
                lines,
                si as int,
                sj as int,
                ei as int,
                ej as int,
                li as int,
            ) + seq![SPACE]);
            assert(acc@ + snippet_from(lines, si as int, sj as int, ei as int, ej as int, li + 1)
                =~= acc_before + snippet_from(
                lines,
                si as int,
                sj as int,
                ei as int,
                ej as int,
                li as int,
            ));
        }
        li = li + 1;
    }
    let line = &contents[ei];
    let lo = if ei == si {
        sj
    } else {
        0
    };
    let n = line.len();
    let ghost acc_before = acc@;
    push_range(&mut acc, line, lo, ej + 1);
    proof {
        assert(acc@ =~= acc_before + line_part(
            lines,
            si as int,
            sj as int,
            ei as int,
            ej as int,
            ei as int,
        ));
        assert(acc@ =~= snippet_bytes(lines, si as int, sj as int, ei as int, ej as int));
        assert(snippet_at(lines, i as int, j as int) == snippet_bytes(
            lines,
            si as int,
            sj as int,
            ei as int,
            ej as int,
        ));
    }
    let s = lossy_string(&acc);
    Ok(s)
}

} // verus!
