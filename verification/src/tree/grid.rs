//! Bento placement for a grid: items cover whole cells of a lattice
//! `columns` wide, spanning several columns and rows, and are placed
//! first-fit — top to bottom, left to right, into the first free block
//! that holds their span.
use vstd::prelude::*;

verus! {

/// Where an item lands on the lattice: its top-left cell and its span.
#[derive(Clone, Copy, Debug, PartialEq, Eq, Structural)]
pub struct BentoCell {
    pub row: usize,
    pub col: usize,
    pub col_span: usize,
    pub row_span: usize,
}

/// `p` covers lattice cell `(r, c)`.
pub open spec fn covers(p: BentoCell, r: int, c: int) -> bool {
    p.row <= r < p.row + p.row_span && p.col <= c < p.col + p.col_span
}

/// Some placed item covers `(r, c)`.
pub open spec fn occupied(placed: Seq<BentoCell>, r: int, c: int) -> bool {
    exists|k: int| 0 <= k < placed.len() && #[trigger] covers(placed[k], r, c)
}

/// No placed item covers any cell of the `cs × rs` block at `(row, col)`.
pub open spec fn block_free(placed: Seq<BentoCell>, row: int, col: int, cs: int, rs: int) -> bool {
    forall|r: int, c: int| row <= r < row + rs && col <= c < col + cs ==> !#[trigger] occupied(placed, r, c)
}

/// `(row, col)` is the first position, top to bottom and left to right, at
/// which a `cs × rs` block fits inside the `columns` and over no placed item.
pub open spec fn first_fit_at(placed: Seq<BentoCell>, columns: int, cs: int, rs: int, row: int, col: int) -> bool {
    &&& 0 <= row
    &&& 0 <= col
    &&& col + cs <= columns
    &&& block_free(placed, row, col, cs, rs)
    &&& forall|r2: int, c2: int|
        0 <= r2 && 0 <= c2 && c2 + cs <= columns && (r2 < row || (r2 == row && c2 < col))
            ==> !#[trigger] block_free(placed, r2, c2, cs, rs)
}

/// A column span clamped to `1..=columns`.
pub open spec fn clamp_col_span(cs: u16, columns: usize) -> usize {
    if cs < 1 {
        1
    } else if cs as usize > columns {
        columns
    } else {
        cs as usize
    }
}

/// A row span of at least 1.
pub open spec fn clamp_row_span(rs: u16) -> usize {
    if rs < 1 {
        1
    } else {
        rs as usize
    }
}

/// Lattice rows the placed items reach down to.
pub open spec fn rows_used(out: Seq<BentoCell>) -> int
    decreases out.len(),
{
    if out.len() == 0 {
        0
    } else {
        let p = out.last();
        let m = rows_used(out.drop_last());
        if p.row + p.row_span > m {
            p.row + p.row_span
        } else {
            m
        }
    }
}

/// `out` places the items of `spans`, in order, each at its first fit
/// among the ones before it, with its span clamped.
pub open spec fn bento_placement(columns: usize, spans: Seq<(u16, u16)>, out: Seq<BentoCell>) -> bool {
    &&& out.len() == spans.len()
    &&& forall|i: int| 0 <= i < out.len() ==> {
        &&& (#[trigger] out[i]).col_span == clamp_col_span(spans[i].0, columns)
        &&& out[i].row_span == clamp_row_span(spans[i].1)
        &&& first_fit_at(out.take(i), columns as int, out[i].col_span as int, out[i].row_span as int, out[i].row as int, out[i].col as int)
    }
}

pub open spec fn grid_view(occ: Seq<Vec<bool>>) -> Seq<Seq<bool>> {
    occ.map_values(|l: Vec<bool>| l@)
}

/// The occupancy lattice describes `placed` exactly.
spec fn occ_matches(occ: Seq<Seq<bool>>, placed: Seq<BentoCell>, columns: int) -> bool {
    &&& occ.len() == rows_used(placed)
    &&& forall|r: int| 0 <= r < occ.len() ==> (#[trigger] occ[r]).len() == columns
    &&& forall|r: int, c: int| 0 <= r < occ.len() && 0 <= c < columns ==> occ[r][c] == #[trigger] occupied(placed, r, c)
    &&& forall|k: int| 0 <= k < placed.len() ==> (#[trigger] placed[k]).col + placed[k].col_span <= columns
}

proof fn lemma_rows_used_bounds(placed: Seq<BentoCell>)
    ensures
        rows_used(placed) >= 0,
        forall|k: int| 0 <= k < placed.len() ==> (#[trigger] placed[k]).row + placed[k].row_span <= rows_used(placed),
    decreases placed.len(),
{
    if placed.len() > 0 {
        lemma_rows_used_bounds(placed.drop_last());
        assert forall|k: int| 0 <= k < placed.len() implies (#[trigger] placed[k]).row + placed[k].row_span <= rows_used(placed) by {
            if k < placed.len() - 1 {
                assert(placed[k] == placed.drop_last()[k]);
            }
        }
    }
}

/// Cells at or below the rows in use are free.
proof fn lemma_free_below(placed: Seq<BentoCell>, r: int, c: int)
    requires
        r >= rows_used(placed),
    ensures
        !occupied(placed, r, c),
{
    lemma_rows_used_bounds(placed);
    if occupied(placed, r, c) {
        let k = choose|k: int| 0 <= k < placed.len() && #[trigger] covers(placed[k], r, c);
        assert(placed[k].row + placed[k].row_span <= rows_used(placed));
    }
}

proof fn lemma_occupied_push(placed: Seq<BentoCell>, p: BentoCell, r: int, c: int)
    ensures
        occupied(placed.push(p), r, c) == (occupied(placed, r, c) || covers(p, r, c)),
{
    let s = placed.push(p);
    if occupied(placed, r, c) {
        let k = choose|k: int| 0 <= k < placed.len() && #[trigger] covers(placed[k], r, c);
        assert(s[k] == placed[k]);
    }
    if covers(p, r, c) {
        assert(s[placed.len() as int] == p);
    }
    if occupied(s, r, c) {
        let k = choose|k: int| 0 <= k < s.len() && #[trigger] covers(s[k], r, c);
        if k < placed.len() {
            assert(s[k] == placed[k]);
        }
    }
}

/// Whether the `cs × rs` block at `(row, col)` is free.
fn block_fits(
    occ: &Vec<Vec<bool>>,
    Ghost(placed): Ghost<Seq<BentoCell>>,
    columns: usize,
    row: usize,
    col: usize,
    cs: usize,
    rs: usize,
) -> (r: bool)
    requires
        occ_matches(grid_view(occ@), placed, columns as int),
        col + cs <= columns,
        row + rs <= usize::MAX,
    ensures
        r == block_free(placed, row as int, col as int, cs as int, rs as int),
{
    let h = occ.len();
    let end: usize = if row + rs < h { row + rs } else { h };
    let mut r: usize = row;
    while r < end
        invariant
            row <= r,
            end <= h == occ@.len(),
            end <= row + rs,
            col + cs <= columns,
            occ_matches(grid_view(occ@), placed, columns as int),
            forall|r2: int, c2: int| row <= r2 < r && col <= c2 < col + cs ==> !#[trigger] occupied(placed, r2, c2),
        decreases end - r,
    {
        let mut c: usize = col;
        while c < col + cs
            invariant
                row <= r < end,
                end <= h == occ@.len(),
                end <= row + rs,
                col <= c <= col + cs,
                col + cs <= columns,
                occ_matches(grid_view(occ@), placed, columns as int),
                forall|r2: int, c2: int| row <= r2 < r && col <= c2 < col + cs ==> !#[trigger] occupied(placed, r2, c2),
                forall|c2: int| col <= c2 < c ==> !#[trigger] occupied(placed, r as int, c2),
            decreases col + cs - c,
        {
            proof {
                assert(grid_view(occ@)[r as int] == occ@[r as int]@);
                assert(grid_view(occ@)[r as int].len() == columns);
            }
            if occ[r][c] {
                proof {
                    assert(grid_view(occ@)[r as int][c as int]);
                    assert(occupied(placed, r as int, c as int));
                }
                return false;
            }
            proof {
                assert(!grid_view(occ@)[r as int][c as int]);
            }
            c = c + 1;
        }
        r = r + 1;
    }
    proof {
        assert forall|r2: int, c2: int| row <= r2 < row + rs && col <= c2 < col + cs implies !#[trigger] occupied(
            placed,
            r2,
            c2,
        ) by {
            if r2 >= end {
                lemma_free_below(placed, r2, c2);
            }
        }
    }
    true
}

/// The first position at which a `cs × rs` block fits.
fn first_fit(occ: &Vec<Vec<bool>>, Ghost(placed): Ghost<Seq<BentoCell>>, columns: usize, cs: usize, rs: usize) -> (res: (
    usize,
    usize,
))
    requires
        occ_matches(grid_view(occ@), placed, columns as int),
        1 <= cs <= columns,
        occ@.len() + rs <= usize::MAX,
    ensures
        first_fit_at(placed, columns as int, cs as int, rs as int, res.0 as int, res.1 as int),
        res.0 <= occ@.len(),
{
    let h = occ.len();
    let mut row: usize = 0;
    while row < h
        invariant
            row <= h == occ@.len(),
            1 <= cs <= columns,
            h + rs <= usize::MAX,
            occ_matches(grid_view(occ@), placed, columns as int),
            forall|r2: int, c2: int|
                0 <= r2 < row && 0 <= c2 && c2 + cs <= columns ==> !#[trigger] block_free(placed, r2, c2, cs as int, rs as int),
        decreases h - row,
    {
        let mut col: usize = 0;
        while col <= columns - cs
            invariant
                row < h == occ@.len(),
                1 <= cs <= columns,
                col <= columns - cs + 1,
                h + rs <= usize::MAX,
                occ_matches(grid_view(occ@), placed, columns as int),
                forall|r2: int, c2: int|
                    0 <= r2 < row && 0 <= c2 && c2 + cs <= columns ==> !#[trigger] block_free(placed, r2, c2, cs as int, rs as int),
                forall|c2: int| 0 <= c2 < col ==> !#[trigger] block_free(placed, row as int, c2, cs as int, rs as int),
            decreases columns - col,
        {
            if block_fits(occ, Ghost(placed), columns, row, col, cs, rs) {
                return (row, col);
            }
            col = col + 1;
        }
        proof {
            assert forall|r2: int, c2: int|
                0 <= r2 < row + 1 && 0 <= c2 && c2 + cs <= columns implies !#[trigger] block_free(placed, r2, c2, cs as int, rs as int) by {
                if r2 == row {
                    assert(c2 < col);
                }
            }
        }
        row = row + 1;
    }
    proof {
        assert forall|r: int, c: int| h <= r < h + rs && 0 <= c < cs implies !#[trigger] occupied(placed, r, c) by {
            lemma_free_below(placed, r, c);
        }
    }
    (h, 0)
}

/// `line` with cells `col..col + cs` set.
fn marked(line: &Vec<bool>, col: usize, cs: usize) -> (r: Vec<bool>)
    requires
        col + cs <= line@.len(),
    ensures
        r@.len() == line@.len(),
        forall|c: int| 0 <= c < line@.len() ==> r@[c] == (line@[c] || (col <= c < col + cs)),
{
    let mut out: Vec<bool> = Vec::new();
    let mut c: usize = 0;
    while c < line.len()
        invariant
            c <= line@.len(),
            col + cs <= line@.len(),
            out@.len() == c,
            forall|c2: int| 0 <= c2 < c ==> out@[c2] == (line@[c2] || (col <= c2 < col + cs)),
        decreases line@.len() - c,
    {
        out.push(line[c] || (col <= c && c < col + cs));
        c = c + 1;
    }
    out
}

/// A row of `columns` free cells.
fn free_line(columns: usize) -> (r: Vec<bool>)
    ensures
        r@.len() == columns,
        forall|c: int| 0 <= c < columns ==> !r@[c],
{
    let mut out: Vec<bool> = Vec::new();
    let mut c: usize = 0;
    while c < columns
        invariant
            c <= columns,
            out@.len() == c,
            forall|c2: int| 0 <= c2 < c ==> !out@[c2],
        decreases columns - c,
    {
        out.push(false);
        c = c + 1;
    }
    out
}

/// Places each item of `spans` (its column and row span) on a lattice
/// `columns` wide, first-fit and in order, and reports the lattice rows in
/// use. Spans are clamped to `1..=columns` columns and at least one row.
pub fn bento_cells(columns: usize, spans: &Vec<(u16, u16)>) -> (r: (Vec<BentoCell>, usize))
    requires
        columns >= 1,
        spans@.len() * 65535 <= usize::MAX,
    ensures
        bento_placement(columns, spans@, r.0@),
        r.1 == rows_used(r.0@),
{
    let mut occ: Vec<Vec<bool>> = Vec::new();
    let mut placed: Vec<BentoCell> = Vec::new();
    let mut i: usize = 0;
    proof {
        assert(grid_view(occ@) =~= Seq::<Seq<bool>>::empty());
    }
    while i < spans.len()
        invariant
            i <= spans@.len(),
            columns >= 1,
            spans@.len() * 65535 <= usize::MAX,
            placed@.len() == i,
            occ_matches(grid_view(occ@), placed@, columns as int),
            rows_used(placed@) <= i * 65535,
            forall|j: int| 0 <= j < i ==> {
                &&& (#[trigger] placed@[j]).col_span == clamp_col_span(spans@[j].0, columns)
                &&& placed@[j].row_span == clamp_row_span(spans@[j].1)
                &&& first_fit_at(
                    placed@.take(j),
                    columns as int,
                    placed@[j].col_span as int,
                    placed@[j].row_span as int,
                    placed@[j].row as int,
                    placed@[j].col as int,
                )
            },
        decreases spans@.len() - i,
    {
        let (c16, r16) = spans[i];
        let cs: usize = if c16 < 1 { 1 } else if c16 as usize > columns { columns } else { c16 as usize };
        let rs: usize = if r16 < 1 { 1 } else { r16 as usize };
        let ghost before = placed@;
        let ghost g0 = grid_view(occ@);
        proof {
            assert(occ@.len() == rows_used(before));
            assert(occ@.len() + rs <= (i + 1) * 65535) by (nonlinear_arith)
                requires
                    occ@.len() <= i * 65535,
                    rs <= 65535,
            ;
            assert((i + 1) * 65535 <= spans@.len() * 65535) by (nonlinear_arith)
                requires
                    i + 1 <= spans@.len(),
            ;
        }
        let (row, col) = first_fit(&occ, Ghost(before), columns, cs, rs);
        let top = row + rs;
        let cell = BentoCell { row, col, col_span: cs, row_span: rs };
        // Grow the lattice down to the block's last row.
        while occ.len() < top
            invariant
                g0.len() <= occ@.len(),
                occ@.len() == g0.len() || occ@.len() <= top,
                columns >= 1,
                forall|r: int| 0 <= r < g0.len() ==> grid_view(occ@)[r] == g0[r],
                forall|r: int| g0.len() <= r < occ@.len() ==> grid_view(occ@)[r].len() == columns
                    && forall|c: int| 0 <= c < columns ==> !grid_view(occ@)[r][c],
            decreases top - occ@.len(),
        {
            let line = free_line(columns);
            let ghost gv = grid_view(occ@);
            let ghost lv = line@;
            occ.push(line);
            proof {
                assert(grid_view(occ@) =~= gv.push(lv));
            }
        }
        let ghost g1 = grid_view(occ@);
        // Mark the block.
        let mut r: usize = row;
        while r < top
            invariant
                row <= r <= top,
                top == row + rs,
                occ@.len() >= top,
                col + cs <= columns,
                grid_view(occ@).len() == g1.len(),
                forall|q: int| 0 <= q < g1.len() ==> (#[trigger] grid_view(occ@)[q]).len() == g1[q].len(),
                forall|q: int, c: int| 0 <= q < g1.len() && 0 <= c < g1[q].len() ==> #[trigger] grid_view(occ@)[q][c] == (g1[q][c] || (
                    row <= q < r && col <= c < col + cs)),
                forall|q: int| g0.len() <= q < g1.len() ==> g1[q].len() == columns
                    && forall|c: int| 0 <= c < columns ==> !g1[q][c],
                forall|q: int| 0 <= q < g0.len() ==> g1[q] == g0[q],
                occ_matches(g0, before, columns as int),
            decreases top - r,
        {
            proof {
                assert(grid_view(occ@)[r as int] == occ@[r as int]@);
                if r < g0.len() {
                    assert(g1[r as int].len() == columns);
                }
            }
            let ghost gv = grid_view(occ@);
            let line = marked(&occ[r], col, cs);
            let ghost lv = line@;
            proof {
                assert(gv[r as int] == occ@[r as int]@);
                assert(lv.len() == gv[r as int].len());
            }
            occ.set(r, line);
            proof {
                assert(grid_view(occ@) =~= gv.update(r as int, lv));
            }
            proof {
                assert forall|q: int| 0 <= q < g1.len() implies (#[trigger] grid_view(occ@)[q]).len() == g1[q].len() by {
                    if q == r {
                        assert(grid_view(occ@)[q] == lv);
                    } else {
                        assert(grid_view(occ@)[q] == gv[q]);
                    }
                }
                assert forall|q: int, c: int| 0 <= q < g1.len() && 0 <= c < g1[q].len() implies grid_view(occ@)[q][c] == (g1[q][c]
                    || (row <= q < r + 1 && col <= c < col + cs)) by {
                    if q == r {
                        assert(grid_view(occ@)[q] == lv);
                        assert(gv[q].len() == g1[q].len());
                        assert(c < lv.len());
                        assert(lv[c] == (gv[q][c] || (col <= c < col + cs)));
                        assert(gv[q][c] == (g1[q][c] || (row <= q < r && col <= c < col + cs)));
                        assert(gv[q][c] == g1[q][c]);
                    } else {
                        assert(grid_view(occ@)[q] == gv[q]);
                        assert(gv[q].len() == g1[q].len());
                        assert(gv[q][c] == (g1[q][c] || (row <= q < r && col <= c < col + cs)));
                    }
                }
            }
            r = r + 1;
        }
        placed.push(cell);
        proof {
            let after = placed@;
            assert(after == before.push(cell));
            let g2 = grid_view(occ@);
            lemma_rows_used_bounds(before);
            assert(after.drop_last() =~= before);
            assert(rows_used(after) == if top > rows_used(before) { top as int } else { rows_used(before) });
            assert(g2.len() == rows_used(after));
            assert(g1.len() == if g0.len() >= top { g0.len() as int } else { top as int });
            assert forall|q: int| 0 <= q < g2.len() implies (#[trigger] g2[q]).len() == columns by {
                if q < g0.len() {
                    assert(g1[q] == g0[q]);
                }
            }
            assert forall|q: int, c: int| 0 <= q < g2.len() && 0 <= c < columns implies g2[q][c] == #[trigger] occupied(after, q, c) by {
                lemma_occupied_push(before, cell, q, c);
                if q < g0.len() {
                    assert(g1[q] == g0[q]);
                    assert(g0[q].len() == columns);
                    assert(g0[q][c] == occupied(before, q, c));
                } else {
                    assert(g1[q].len() == columns);
                    assert(!g1[q][c]);
                    lemma_free_below(before, q, c);
                }
                assert(g2[q][c] == (g1[q][c] || (row <= q < top && col <= c < col + cs)));
            }
            assert forall|k: int| 0 <= k < after.len() implies (#[trigger] after[k]).col + after[k].col_span <= columns by {
                if k < before.len() {
                    assert(after[k] == before[k]);
                }
            }
            assert forall|j: int| 0 <= j < i + 1 implies {
                &&& (#[trigger] after[j]).col_span == clamp_col_span(spans@[j].0, columns)
                &&& after[j].row_span == clamp_row_span(spans@[j].1)
                &&& first_fit_at(
                    after.take(j),
                    columns as int,
                    after[j].col_span as int,
                    after[j].row_span as int,
                    after[j].row as int,
                    after[j].col as int,
                )
            } by {
                if j < i {
                    assert(after[j] == before[j]);
                    assert(after.take(j) =~= before.take(j));
                } else {
                    assert(after.take(j) =~= before);
                }
            }
        }
        i = i + 1;
    }
    proof {
        assert(placed@.len() == spans@.len());
    }
    let used = occ.len();
    (placed, used)
}

/// Placed items never overlap: no lattice cell is covered twice.
pub proof fn law_bento_no_overlap(columns: usize, spans: Seq<(u16, u16)>, out: Seq<BentoCell>, i: int, j: int, r: int, c: int)
    requires
        bento_placement(columns, spans, out),
        0 <= i < j < out.len(),
    ensures
        !(covers(out[i], r, c) && covers(out[j], r, c)),
{
    if covers(out[i], r, c) && covers(out[j], r, c) {
        let before = out.take(j);
        assert(before[i] == out[i]);
        assert(occupied(before, r, c));
        assert(first_fit_at(before, columns as int, out[j].col_span as int, out[j].row_span as int, out[j].row as int, out[j].col as int));
    }
}

/// Every placed item lies within the lattice's columns.
pub proof fn law_bento_within_columns(columns: usize, spans: Seq<(u16, u16)>, out: Seq<BentoCell>, i: int)
    requires
        columns >= 1,
        bento_placement(columns, spans, out),
        0 <= i < out.len(),
    ensures
        out[i].col + out[i].col_span <= columns,
        out[i].col_span >= 1,
        out[i].row_span >= 1,
{
    assert(first_fit_at(out.take(i), columns as int, out[i].col_span as int, out[i].row_span as int, out[i].row as int, out[i].col as int));
}

} // verus!
