//! The flood-fill reveal: from a clear starting tile, the sweep expands
//! across orthogonally connected tiles, stopping at counts and mines.
//!
//! The result is characterized exactly: it is the least sweep-closed set
//! of indices that holds the starting index.

use vstd::prelude::*;
use crate::grid::col_of;
use crate::grid::contains_usize;
use crate::grid::lemma_cell_index;
use crate::grid::lemma_row_col;
use crate::grid::row_of;
use crate::tile::Tile;
use crate::tile::TileType;

verus! {

/// Two board cells are orthogonal neighbors: both on the board, in the
/// same row with adjacent columns, or in the same column with adjacent
/// rows.
pub open spec fn orth_adj(w: int, h: int, i: int, j: int) -> bool {
    &&& 0 <= i < w * h
    &&& 0 <= j < w * h
    &&& {
        let ri = row_of(i, w);
        let ci = col_of(i, w);
        let rj = row_of(j, w);
        let cj = col_of(j, w);
        ||| (ri == rj && (ci == cj + 1 || cj == ci + 1))
        ||| (ci == cj && (ri == rj + 1 || rj == ri + 1))
    }
}

/// A set of indices is sweep-closed when every orthogonal neighbor of
/// every clear member is also a member: a sweep can never leave such a
/// set.
pub open spec fn sweep_closed(map: Seq<Tile>, w: int, h: int, b: Set<int>) -> bool {
    forall|i: int, j: int|
        b.contains(i) && 0 <= i < map.len() && map[i].tiletype is Clear && #[trigger] orth_adj(
            w,
            h,
            i,
            j,
        ) ==> b.contains(j)
}

/// The region a sweep from `start` reveals: the least sweep-closed set
/// holding `start`, taken as the intersection of all of them.
pub open spec fn flood(map: Seq<Tile>, w: int, h: int, start: int) -> Set<int> {
    Set::new(
        |j: int|
            forall|b: Set<int>|
                #[trigger] sweep_closed(map, w, h, b) && b.contains(start) ==> b.contains(j),
    )
}

/// The indices a list of reveal positions stands for.
pub open spec fn idx_set(r: Seq<usize>) -> Set<int> {
    Set::new(|j: int| exists|k: int| 0 <= k < r.len() && r[k] as int == j)
}

/// A list holds a position exactly when its index set does.
pub proof fn lemma_idx_contains(r: Seq<usize>, x: usize)
    ensures
        r.contains(x) <==> idx_set(r).contains(x as int),
{
    if r.contains(x) {
        let k = choose|k: int| 0 <= k < r.len() && r[k] == x;
        assert(r[k] as int == x as int);
    }
    if idx_set(r).contains(x as int) {
        let k = choose|k: int| 0 <= k < r.len() && r[k] as int == x as int;
        assert(r[k] == x);
    }
}

/// Appending a position inserts it into the index set.
pub proof fn lemma_idx_push(r: Seq<usize>, x: usize)
    ensures
        idx_set(r.push(x)) =~= idx_set(r).insert(x as int),
{
    assert forall|j: int| idx_set(r.push(x)).contains(j) implies idx_set(r).insert(
        x as int,
    ).contains(j) by {
        let k = choose|k: int| 0 <= k < r.push(x).len() && r.push(x)[k] as int == j;
        if k < r.len() {
            assert(r[k] as int == j);
        }
    }
    assert forall|j: int| idx_set(r).insert(x as int).contains(j) implies idx_set(
        r.push(x),
    ).contains(j) by {
        if idx_set(r).contains(j) {
            let k = choose|k: int| 0 <= k < r.len() && r[k] as int == j;
            assert(r.push(x)[k] as int == j);
        } else {
            assert(r.push(x)[r.len() as int] as int == j);
        }
    }
}

/// A duplicate-free list of positions below `n` has at most `n` entries.
pub proof fn lemma_nodup_bounded_len(r: Seq<usize>, n: int)
    requires
        r.no_duplicates(),
        forall|k: int| 0 <= k < r.len() ==> r[k] < n,
        0 <= n,
    ensures
        r.len() <= n,
{
    let m = r.map_values(|u: usize| u as int);
    assert(m.no_duplicates()) by {
        assert forall|i: int, j: int|
            0 <= i < m.len() && 0 <= j < m.len() && i != j implies m[i] != m[j] by {
            assert(r[i] != r[j]);
        }
    }
    m.unique_seq_to_set();
    assert(m.to_set().subset_of(vstd::set_lib::set_int_range(0, n))) by {
        assert forall|j: int| m.to_set().contains(j) implies 0 <= j < n by {
            let k = choose|k: int| 0 <= k < m.len() && m[k] == j;
            assert(r[k] < n);
        }
    }
    vstd::set_lib::lemma_int_range(0, n);
    vstd::set_lib::lemma_len_subset(m.to_set(), vstd::set_lib::set_int_range(0, n));
}

/// Appending a fresh element keeps a list duplicate-free.
pub proof fn lemma_push_nodup(s: Seq<usize>, x: usize)
    requires
        s.no_duplicates(),
        !s.contains(x),
    ensures
        s.push(x).no_duplicates(),
{
    assert forall|i: int, j: int|
        0 <= i < s.push(x).len() && 0 <= j < s.push(x).len() && i != j implies s.push(x)[i]
        != s.push(x)[j] by {
        if i < s.len() && j < s.len() {
            assert(s[i] != s[j]);
        } else if i < s.len() {
            assert(s.contains(s[i]));
        } else if j < s.len() {
            assert(s.contains(s[j]));
        }
    }
}

/// The flood region holds its starting index.
pub proof fn lemma_flood_start(map: Seq<Tile>, w: int, h: int, start: int)
    ensures
        flood(map, w, h, start).contains(start),
{
}

/// The flood region is itself sweep-closed.
pub proof fn lemma_flood_closed(map: Seq<Tile>, w: int, h: int, start: int)
    ensures
        sweep_closed(map, w, h, flood(map, w, h, start)),
{
    let f = flood(map, w, h, start);
    assert forall|i: int, j: int|
        f.contains(i) && 0 <= i < map.len() && map[i].tiletype is Clear && #[trigger] orth_adj(
            w,
            h,
            i,
            j,
        ) implies f.contains(j) by {
        assert forall|b: Set<int>|
            #[trigger] sweep_closed(map, w, h, b) && b.contains(start) implies b.contains(j) by {
            assert(b.contains(i));
        }
    }
}

/// The sweep never escapes a sweep-closed region around its start: a wall
/// of counts or mines surrounding the start confines the whole reveal.
pub proof fn lemma_flood_least(map: Seq<Tile>, w: int, h: int, start: int, b: Set<int>)
    requires
        sweep_closed(map, w, h, b),
        b.contains(start),
    ensures
        flood(map, w, h, start).subset_of(b),
{
}

/// Splitting a list leaves the union of the two index sets.
pub proof fn lemma_idx_concat(a: Seq<usize>, b: Seq<usize>)
    ensures
        idx_set(a + b) =~= idx_set(a).union(idx_set(b)),
{
    assert forall|j: int| idx_set(a + b).contains(j) implies idx_set(a).union(idx_set(b)).contains(
        j,
    ) by {
        let k = choose|k: int| 0 <= k < (a + b).len() && (a + b)[k] as int == j;
        if k < a.len() {
            assert(a[k] as int == j);
        } else {
            assert(b[k - a.len()] as int == j);
        }
    }
    assert forall|j: int| idx_set(a).union(idx_set(b)).contains(j) implies idx_set(a + b).contains(
        j,
    ) by {
        if idx_set(a).contains(j) {
            let k = choose|k: int| 0 <= k < a.len() && a[k] as int == j;
            assert((a + b)[k] as int == j);
        } else {
            let k = choose|k: int| 0 <= k < b.len() && b[k] as int == j;
            assert((a + b)[a.len() + k] as int == j);
        }
    }
}

/// Concatenating two duplicate-free lists with no common entry stays
/// duplicate-free.
pub proof fn lemma_disjoint_concat_nodup(a: Seq<usize>, b: Seq<usize>)
    requires
        a.no_duplicates(),
        b.no_duplicates(),
        forall|x: usize| !(a.contains(x) && b.contains(x)),
    ensures
        (a + b).no_duplicates(),
{
    assert forall|i: int, j: int|
        0 <= i < (a + b).len() && 0 <= j < (a + b).len() && i != j implies (a + b)[i] != (a + b)[j]
        by {
        if i < a.len() && j < a.len() {
            assert(a[i] != a[j]);
        } else if i < a.len() && j >= a.len() {
            assert(a.contains(a[i]) && b.contains(b[j - a.len()]));
        } else if i >= a.len() && j < a.len() {
            assert(a.contains(a[j]) && b.contains(b[i - a.len()]));
        } else {
            assert(b[i - a.len()] != b[j - a.len()]);
        }
    }
}

/// Stepping one cell up, down, left or right from the cell in row `r`,
/// column `c` reaches an orthogonal neighbor.
pub proof fn lemma_orth_step(w: int, h: int, r: int, c: int, dr: int, dc: int)
    requires
        1 <= w,
        1 <= h,
        0 <= r < h,
        0 <= c < w,
        0 <= r + dr < h,
        0 <= c + dc < w,
        (dr == 0 && (dc == 1 || dc == -1)) || (dc == 0 && (dr == 1 || dr == -1)),
    ensures
        orth_adj(w, h, r * w + c, (r * w + c) + dr * w + dc),
{
    lemma_cell_index(w, h, r, c);
    crate::board::lemma_nbr_index(w, h, r, c, dr, dc);
}

/// An orthogonal neighbor of index `i` is one of the four indices directly
/// beside it, each available only off the matching border.
pub proof fn lemma_orth_cases(w: int, h: int, i: int, j: int)
    requires
        1 <= w,
        1 <= h,
        orth_adj(w, h, i, j),
    ensures
        (col_of(i, w) > 0 && j == i - 1) || (col_of(i, w) < w - 1 && j == i + 1) || (row_of(i, w)
            > 0 && j == i - w) || (row_of(i, w) < h - 1 && j == i + w),
{
    lemma_row_col(w, h, i);
    lemma_row_col(w, h, j);
    let ri = row_of(i, w);
    let ci = col_of(i, w);
    let rj = row_of(j, w);
    let cj = col_of(j, w);
    assert(i == ri * w + ci);
    assert(j == rj * w + cj);
    if ri == rj {
        assert(rj * w == ri * w);
    } else if ci == cj {
        if ri == rj + 1 {
            assert(ri * w == rj * w + w) by (nonlinear_arith)
                requires
                    ri == rj + 1,
            ;
        } else {
            assert(rj * w == ri * w + w) by (nonlinear_arith)
                requires
                    rj == ri + 1,
            ;
        }
    }
}

/// Every index of the flood region lies on the board.
pub proof fn lemma_flood_in_bounds(map: Seq<Tile>, w: int, h: int, start: int)
    requires
        0 <= start < w * h,
    ensures
        flood(map, w, h, start).subset_of(vstd::set_lib::set_int_range(0, w * h)),
{
    let rng = vstd::set_lib::set_int_range(0, w * h);
    assert(sweep_closed(map, w, h, rng));
    lemma_flood_least(map, w, h, start, rng);
}

/// On a board of nothing but clear tiles, the flood from any start
/// reaches any index: walk toward the start one orthogonal step at a time.
pub proof fn lemma_flood_all_clear(map: Seq<Tile>, w: int, h: int, start: int, j: int)
    requires
        1 <= w,
        1 <= h,
        map.len() == w * h,
        forall|i: int| 0 <= i < w * h ==> map[i].tiletype is Clear,
        0 <= start < w * h,
        0 <= j < w * h,
    ensures
        flood(map, w, h, start).contains(j),
    decreases vstd::math::abs(row_of(j, w) - row_of(start, w)) + vstd::math::abs(
        col_of(j, w) - col_of(start, w),
    ),
{
    lemma_row_col(w, h, start);
    lemma_row_col(w, h, j);
    let rs = row_of(start, w);
    let cs = col_of(start, w);
    let rj = row_of(j, w);
    let cj = col_of(j, w);
    if rj == rs && cj == cs {
        assert(j == start);
        lemma_flood_start(map, w, h, start);
    } else {
        lemma_flood_closed(map, w, h, start);
        if rj > rs {
            lemma_cell_index(w, h, rj - 1, cj);
            assert((rj - 1) * w + cj == j - w) by (nonlinear_arith)
                requires
                    j == rj * w + cj,
            ;
            lemma_flood_all_clear(map, w, h, start, j - w);
            lemma_orth_step(w, h, rj - 1, cj, 1, 0);
        } else if rj < rs {
            lemma_cell_index(w, h, rj + 1, cj);
            assert((rj + 1) * w + cj == j + w) by (nonlinear_arith)
                requires
                    j == rj * w + cj,
            ;
            lemma_flood_all_clear(map, w, h, start, j + w);
            lemma_orth_step(w, h, rj + 1, cj, -1, 0);
        } else if cj > cs {
            lemma_cell_index(w, h, rj, cj - 1);
            lemma_flood_all_clear(map, w, h, start, j - 1);
            lemma_orth_step(w, h, rj, cj - 1, 0, 1);
        } else {
            lemma_cell_index(w, h, rj, cj + 1);
            lemma_flood_all_clear(map, w, h, start, j + 1);
            lemma_orth_step(w, h, rj, cj + 1, 0, -1);
        }
    }
}

/// Sweeping a mine-free board reveals the whole board exactly once: a
/// duplicate-free reveal list whose index set is the flood region names
/// every board index, and its length is the full board area.
pub proof fn lemma_sweep_mine_free(map: Seq<Tile>, w: int, h: int, start: int, r: Seq<usize>)
    requires
        1 <= w,
        1 <= h,
        map.len() == w * h,
        forall|i: int| 0 <= i < w * h ==> map[i].tiletype is Clear,
        0 <= start < w * h,
        r.no_duplicates(),
        idx_set(r) == flood(map, w, h, start),
    ensures
        forall|j: int| 0 <= j < w * h ==> idx_set(r).contains(j),
        r.len() == w * h,
{
    assert forall|j: int| 0 <= j < w * h implies idx_set(r).contains(j) by {
        lemma_flood_all_clear(map, w, h, start, j);
    }
    lemma_flood_in_bounds(map, w, h, start);
    let rng = vstd::set_lib::set_int_range(0, w * h);
    assert(idx_set(r) =~= rng);
    let m = r.map_values(|u: usize| u as int);
    assert(m.no_duplicates()) by {
        assert forall|i: int, k: int|
            0 <= i < m.len() && 0 <= k < m.len() && i != k implies m[i] != m[k] by {
            assert(r[i] != r[k]);
        }
    }
    m.unique_seq_to_set();
    assert(m.to_set() =~= idx_set(r)) by {
        assert forall|j: int| m.to_set().contains(j) implies idx_set(r).contains(j) by {
            let k = choose|k: int| 0 <= k < m.len() && m[k] == j;
            assert(r[k] as int == j);
        }
        assert forall|j: int| idx_set(r).contains(j) implies m.to_set().contains(j) by {
            let k = choose|k: int| 0 <= k < r.len() && r[k] as int == j;
            assert(m[k] == j);
        }
    }
    vstd::set_lib::lemma_int_range(0, w * h);
}

/// Collects the indices to reveal when digging a clear tile: the frontier
/// starts at the dug tile and expands through clear tiles to their four
/// orthogonal neighbors, so counts and mines bound the reveal.  The result
/// lists, without duplicates, exactly the least sweep-closed region around
/// the start.
#[verifier::loop_isolation(false)]
pub fn minesweeper(map: &Vec<Tile>, cursor_vec: usize, width: u32, height: u32) -> (r: Vec<usize>)
    requires
        1 <= width,
        1 <= height,
        width as int * height as int <= u32::MAX,
        map@.len() == width as int * height as int,
        cursor_vec < width as int * height as int,
    ensures
        r@.no_duplicates(),
        forall|k: int| 0 <= k < r@.len() ==> r@[k] < width as int * height as int,
        r@.contains(cursor_vec),
        idx_set(r@) == flood(map@, width as int, height as int, cursor_vec as int),
{
    let ghost w = width as int;
    let ghost h = height as int;
    let ghost gm = map@;
    let ghost start = cursor_vec as int;
    let mut ret: Vec<usize> = Vec::new();
    let mut edge: Vec<usize> = Vec::new();
    edge.push(cursor_vec);
    proof {
        assert(edge@[0] == cursor_vec);
        lemma_idx_contains(edge@, cursor_vec);
    }
    while edge.len() > 0
        invariant
            forall|k: int| 0 <= k < ret@.len() ==> ret@[k] < w * h,
            forall|k: int| 0 <= k < edge@.len() ==> edge@[k] < w * h,
            ret@.no_duplicates(),
            edge@.no_duplicates(),
            forall|x: usize| !(ret@.contains(x) && edge@.contains(x)),
            ret@.contains(cursor_vec) || edge@.contains(cursor_vec),
            forall|i: int, j: int|
                idx_set(ret@).contains(i) && gm[i].tiletype is Clear && #[trigger] orth_adj(
                    w,
                    h,
                    i,
                    j,
                ) ==> idx_set(ret@).contains(j) || idx_set(edge@).contains(j),
            forall|b: Set<int>|
                #[trigger] sweep_closed(gm, w, h, b) && b.contains(start) ==> idx_set(
                    ret@,
                ).union(idx_set(edge@)).subset_of(b),
            ret@.len() + edge@.len() <= w * h,
        decreases w * h - ret@.len(),
    {
        let ghost ret0 = ret@;
        let ghost edge0 = edge@;
        let current = edge;
        edge = Vec::new();
        let mut k: usize = 0;
        while k < current.len()
            invariant
                k <= current@.len(),
                ret@ == ret0 + current@.subrange(0, k as int),
            decreases current@.len() - k,
        {
            let x = current[k];
            ret.push(x);
            proof {
                assert(ret@ =~= ret0 + current@.subrange(0, k as int + 1));
            }
            k += 1;
        }
        proof {
            assert(ret@ =~= ret0 + edge0);
            lemma_disjoint_concat_nodup(ret0, edge0);
            lemma_idx_concat(ret0, edge0);
            assert forall|x: usize| ret@.contains(x) implies ret0.contains(x) || edge0.contains(x)
            by {
                let kk = choose|kk: int| 0 <= kk < ret@.len() && ret@[kk] == x;
                if kk < ret0.len() {
                } else {
                    assert(edge0[kk - ret0.len()] == x);
                }
            }
            assert(ret@.contains(cursor_vec)) by {
                if ret0.contains(cursor_vec) {
                    let kk = choose|kk: int| 0 <= kk < ret0.len() && ret0[kk] == cursor_vec;
                    assert(ret@[kk] == cursor_vec);
                } else {
                    let kk = choose|kk: int| 0 <= kk < edge0.len() && edge0[kk] == cursor_vec;
                    assert(ret@[ret0.len() + kk] == cursor_vec);
                }
            }
        }
        let mut m: usize = 0;
        while m < current.len()
            invariant
                m <= current@.len(),
                forall|k2: int| 0 <= k2 < edge@.len() ==> edge@[k2] < w * h,
                edge@.no_duplicates(),
                forall|x: usize| !(ret@.contains(x) && edge@.contains(x)),
                forall|i: int, j: int|
                    idx_set(ret@).contains(i) && !(exists|k2: int|
                        m <= k2 < current@.len() && current@[k2] as int == i) && gm[i].tiletype
                        is Clear && #[trigger] orth_adj(w, h, i, j) ==> idx_set(ret@).contains(j)
                        || idx_set(edge@).contains(j),
                forall|b: Set<int>|
                    #[trigger] sweep_closed(gm, w, h, b) && b.contains(start) ==> idx_set(
                        ret@,
                    ).union(idx_set(edge@)).subset_of(b),
            decreases current@.len() - m,
        {
            let x = current[m];
            proof {
                assert(edge0.contains(x));
                assert(ret@[ret0.len() + m as int] == x);
                lemma_idx_contains(ret@, x);
                assert(idx_set(ret@).contains(x as int));
            }
            let tiletype = map[x].tiletype;
            if let TileType::Clear = tiletype {
                let wz = width as usize;
                let r = x / wz;
                let c = x % wz;
                proof {
                    lemma_row_col(w, h, x as int);
                }
                if r > 0 {
                    proof {
                        crate::board::lemma_nbr_index(w, h, r as int, c as int, -1, 0);
                        lemma_orth_step(w, h, r as int, c as int, -1, 0);
                    }
                    push_new_neighbor(&ret, &mut edge, x - wz, Ghost(gm), Ghost(w), Ghost(h), Ghost(start), Ghost(x));
                }
                if r + 1 < height as usize {
                    proof {
                        crate::board::lemma_nbr_index(w, h, r as int, c as int, 1, 0);
                        lemma_orth_step(w, h, r as int, c as int, 1, 0);
                    }
                    push_new_neighbor(&ret, &mut edge, x + wz, Ghost(gm), Ghost(w), Ghost(h), Ghost(start), Ghost(x));
                }
                if c > 0 {
                    proof {
                        crate::board::lemma_nbr_index(w, h, r as int, c as int, 0, -1);
                        lemma_orth_step(w, h, r as int, c as int, 0, -1);
                    }
                    push_new_neighbor(&ret, &mut edge, x - 1, Ghost(gm), Ghost(w), Ghost(h), Ghost(start), Ghost(x));
                }
                if c + 1 < wz {
                    proof {
                        crate::board::lemma_nbr_index(w, h, r as int, c as int, 0, 1);
                        lemma_orth_step(w, h, r as int, c as int, 0, 1);
                    }
                    push_new_neighbor(&ret, &mut edge, x + 1, Ghost(gm), Ghost(w), Ghost(h), Ghost(start), Ghost(x));
                }
                proof {
                    assert forall|j: int| #[trigger] orth_adj(w, h, x as int, j) implies idx_set(
                        ret@,
                    ).contains(j) || idx_set(edge@).contains(j) by {
                        lemma_orth_cases(w, h, x as int, j);
                    }
                }
            }
            proof {
                assert forall|i: int, j: int|
                    idx_set(ret@).contains(i) && !(exists|k2: int|
                        m + 1 <= k2 < current@.len() && current@[k2] as int == i) && gm[i].tiletype
                        is Clear && #[trigger] orth_adj(w, h, i, j) implies idx_set(
                    ret@,
                ).contains(j) || idx_set(edge@).contains(j) by {
                    if i != x as int {
                        assert(!(exists|k2: int|
                            m <= k2 < current@.len() && current@[k2] as int == i));
                    }
                }
            }
            m += 1;
        }
        proof {
            lemma_disjoint_concat_nodup(ret@, edge@);
            lemma_nodup_bounded_len(ret@ + edge@, w * h);
        }
    }
    proof {
        assert(edge@.len() == 0);
        assert forall|j: int| !idx_set(edge@).contains(j) by {}
        let rs = idx_set(ret@);
        assert(sweep_closed(gm, w, h, rs));
        lemma_idx_contains(ret@, cursor_vec);
        assert(rs.contains(start));
        assert forall|j: int| flood(gm, w, h, start).contains(j) implies rs.contains(j) by {
            assert(sweep_closed(gm, w, h, rs) && rs.contains(start));
        }
        assert forall|j: int| rs.contains(j) implies flood(gm, w, h, start).contains(j) by {
            assert forall|b: Set<int>|
                #[trigger] sweep_closed(gm, w, h, b) && b.contains(start) implies b.contains(j) by {
                assert(idx_set(ret@).union(idx_set(edge@)).subset_of(b));
            }
        }
        assert(rs =~= flood(gm, w, h, start));
    }
    ret
}

/// Pushes a not-yet-seen orthogonal neighbor of a swept clear tile onto
/// the frontier, keeping every bookkeeping property of the sweep.
#[verifier::loop_isolation(false)]
fn push_new_neighbor(
    ret: &Vec<usize>,
    edge: &mut Vec<usize>,
    n: usize,
    Ghost(gm): Ghost<Seq<Tile>>,
    Ghost(w): Ghost<int>,
    Ghost(h): Ghost<int>,
    Ghost(start): Ghost<int>,
    Ghost(x): Ghost<usize>,
)
    requires
        n < w * h,
        gm.len() == w * h,
        idx_set(ret@).contains(x as int),
        gm[x as int].tiletype is Clear,
        (x as int) < w * h,
        orth_adj(w, h, x as int, n as int),
        forall|k: int| 0 <= k < old(edge)@.len() ==> old(edge)@[k] < w * h,
        old(edge)@.no_duplicates(),
        forall|y: usize| !(ret@.contains(y) && old(edge)@.contains(y)),
        forall|b: Set<int>|
            #[trigger] sweep_closed(gm, w, h, b) && b.contains(start) ==> idx_set(ret@).union(
                idx_set(old(edge)@),
            ).subset_of(b),
    ensures
        forall|k: int| 0 <= k < final(edge)@.len() ==> final(edge)@[k] < w * h,
        final(edge)@.no_duplicates(),
        forall|y: usize| !(ret@.contains(y) && final(edge)@.contains(y)),
        forall|b: Set<int>|
            #[trigger] sweep_closed(gm, w, h, b) && b.contains(start) ==> idx_set(ret@).union(
                idx_set(final(edge)@),
            ).subset_of(b),
        idx_set(final(edge)@) =~= idx_set(old(edge)@) || idx_set(final(edge)@) =~= idx_set(
            old(edge)@,
        ).insert(n as int),
        idx_set(ret@).contains(n as int) || idx_set(final(edge)@).contains(n as int),
        forall|j: int|
            idx_set(old(edge)@).contains(j) ==> idx_set(final(edge)@).contains(j),
{
    let in_ret = contains_usize(ret, n);
    let in_edge = contains_usize(edge, n);
    proof {
        lemma_idx_contains(ret@, n);
        lemma_idx_contains(edge@, n);
    }
    if !in_ret && !in_edge {
        proof {
            lemma_push_nodup(edge@, n);
            lemma_idx_push(edge@, n);
            assert forall|b: Set<int>|
                #[trigger] sweep_closed(gm, w, h, b) && b.contains(start) implies idx_set(
                ret@,
            ).union(idx_set(edge@).insert(n as int)).subset_of(b) by {
                assert(idx_set(ret@).union(idx_set(edge@)).subset_of(b));
                assert(b.contains(x as int));
                assert(b.contains(n as int));
            }
        }
        edge.push(n);
        proof {
            assert forall|y: usize| !(ret@.contains(y) && edge@.contains(y)) by {
                if edge@.contains(y) {
                    let kk = choose|kk: int| 0 <= kk < edge@.len() && edge@[kk] == y;
                    if kk < old(edge)@.len() {
                        assert(old(edge)@.contains(y));
                    }
                }
            }
            lemma_idx_contains(edge@, n);
        }
    }
}

} // verus!
