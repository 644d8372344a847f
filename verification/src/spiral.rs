//! Square-spiral (Chebyshev-distance) ordering of the block grid.
//!
//! Blocks are processed in rings expanding from the grid center, so that a
//! progressively rendered preview fills from the middle of the image
//! outwards. The ordering is a property of block-grid geometry alone.

use vstd::prelude::*;
use vstd::seq_lib::*;
use crate::render::RenderBlock;
use crate::render::BLOCK_SIZE;
use crate::render::block_at;
use crate::render::block_count;
use crate::render::blocks_across;
use crate::render::blocks_down;
use crate::render::lemma_counts_bounded;
use crate::render::valid_dims;

verus! {

/// Absolute value.
pub open spec fn abs_i(x: int) -> int {
    if x < 0 {
        -x
    } else {
        x
    }
}

/// Chebyshev distance between the origin and (dx, dy).
pub open spec fn cheb_dist(dx: int, dy: int) -> int {
    if abs_i(dx) >= abs_i(dy) {
        abs_i(dx)
    } else {
        abs_i(dy)
    }
}

/// The k-th cell (0 <= k < 8r) of the ring at Chebyshev distance r >= 1
/// around (cx, cy): top edge left to right, then right edge top to bottom,
/// then bottom edge right to left, then left edge bottom to top.
pub open spec fn ring_cell(cx: int, cy: int, r: int, k: int) -> (int, int) {
    if k < 2 * r {
        (cx - r + k, cy - r)
    } else if k < 4 * r {
        (cx + r, cy - r + (k - 2 * r))
    } else if k < 6 * r {
        (cx + r - (k - 4 * r), cy + r)
    } else {
        (cx - r, cy + r - (k - 6 * r))
    }
}

/// All cells at Chebyshev distance exactly r from (cx, cy), in ring order.
pub open spec fn ring_seq(cx: int, cy: int, r: int) -> Seq<(int, int)> {
    if r <= 0 {
        seq![(cx, cy)]
    } else {
        Seq::new((8 * r) as nat, |k: int| ring_cell(cx, cy, r, k))
    }
}

/// All cells at Chebyshev distance at most `radius`, ring by ring outwards.
pub open spec fn spiral_seq(cx: int, cy: int, radius: int) -> Seq<(int, int)>
    decreases radius,
{
    if radius <= 0 {
        ring_seq(cx, cy, 0)
    } else {
        spiral_seq(cx, cy, radius - 1) + ring_seq(cx, cy, radius)
    }
}

/// Position of a distance-r cell within its ring; the inverse of `ring_cell`.
pub open spec fn ring_index_of(cx: int, cy: int, r: int, x: int, y: int) -> int {
    let dx = x - cx;
    let dy = y - cy;
    if dy == -r && dx < r {
        dx + r
    } else if dx == r && dy < r {
        2 * r + (dy + r)
    } else if dy == r && dx > -r {
        4 * r + (r - dx)
    } else {
        6 * r + (r - dy)
    }
}

/// Every ring cell lies at Chebyshev distance exactly r.
proof fn lemma_ring_cell_dist(cx: int, cy: int, r: int, k: int)
    requires
        r >= 1,
        0 <= k < 8 * r,
    ensures
        cheb_dist(ring_cell(cx, cy, r, k).0 - cx, ring_cell(cx, cy, r, k).1 - cy) == r,
{
}

/// `ring_index_of` inverts `ring_cell`: walking the ring never repeats a cell.
proof fn lemma_ring_cell_inverse(cx: int, cy: int, r: int, k: int)
    requires
        r >= 1,
        0 <= k < 8 * r,
    ensures
        ring_index_of(cx, cy, r, ring_cell(cx, cy, r, k).0, ring_cell(cx, cy, r, k).1) == k,
{
}

/// Every cell at Chebyshev distance exactly r appears in the ring.
proof fn lemma_ring_complete(cx: int, cy: int, r: int, x: int, y: int)
    requires
        r >= 1,
        cheb_dist(x - cx, y - cy) == r,
    ensures
        0 <= ring_index_of(cx, cy, r, x, y) < 8 * r,
        ring_cell(cx, cy, r, ring_index_of(cx, cy, r, x, y)) == (x, y),
{
}

/// The ring holds exactly the cells at distance r, each exactly once.
proof fn lemma_ring_props(cx: int, cy: int, r: int)
    requires
        r >= 0,
    ensures
        ring_seq(cx, cy, r).no_duplicates(),
        forall|p: (int, int)|
            ring_seq(cx, cy, r).contains(p) <==> cheb_dist(p.0 - cx, p.1 - cy) == r,
{
    let s = ring_seq(cx, cy, r);
    if r == 0 {
        assert(s[0] == (cx, cy));
        assert forall|p: (int, int)| s.contains(p) <==> cheb_dist(p.0 - cx, p.1 - cy) == 0 by {
            if cheb_dist(p.0 - cx, p.1 - cy) == 0 {
                assert(p == (cx, cy));
                assert(s[0] == p);
            }
        }
    } else {
        assert forall|i: int, j: int| 0 <= i < j < s.len() implies s[i] != s[j] by {
            lemma_ring_cell_inverse(cx, cy, r, i);
            lemma_ring_cell_inverse(cx, cy, r, j);
        }
        assert forall|p: (int, int)| s.contains(p) <==> cheb_dist(p.0 - cx, p.1 - cy) == r by {
            if s.contains(p) {
                let i = choose|i: int| 0 <= i < s.len() && s[i] == p;
                lemma_ring_cell_dist(cx, cy, r, i);
            }
            if cheb_dist(p.0 - cx, p.1 - cy) == r {
                lemma_ring_complete(cx, cy, r, p.0, p.1);
                let k = ring_index_of(cx, cy, r, p.0, p.1);
                assert(s[k] == p);
            }
        }
    }
}

/// The spiral holds exactly the cells within `radius`, each exactly once,
/// beginning at the center.
pub proof fn lemma_spiral_props(cx: int, cy: int, radius: int)
    requires
        radius >= 0,
    ensures
        spiral_seq(cx, cy, radius).no_duplicates(),
        forall|p: (int, int)|
            spiral_seq(cx, cy, radius).contains(p) <==> cheb_dist(p.0 - cx, p.1 - cy) <= radius,
        spiral_seq(cx, cy, radius).len() > 0,
        spiral_seq(cx, cy, radius)[0] == (cx, cy),
    decreases radius,
{
    let s = spiral_seq(cx, cy, radius);
    if radius == 0 {
        lemma_ring_props(cx, cy, 0);
        assert(s[0] == (cx, cy));
        assert forall|p: (int, int)| s.contains(p) <==> cheb_dist(p.0 - cx, p.1 - cy) <= 0 by {
            if cheb_dist(p.0 - cx, p.1 - cy) <= 0 {
                assert(p == (cx, cy));
                assert(s[0] == p);
            }
        }
    } else {
        let a = spiral_seq(cx, cy, radius - 1);
        let b = ring_seq(cx, cy, radius);
        lemma_spiral_props(cx, cy, radius - 1);
        lemma_ring_props(cx, cy, radius);
        assert forall|i: int, j: int|
            0 <= i < a.len() && 0 <= j < b.len() implies a[i] != b[j] by {
            assert(a.contains(a[i]));
            assert(b.contains(b[j]));
        }
        lemma_no_dup_in_concat(a, b);
        assert forall|p: (int, int)|
            s.contains(p) <==> cheb_dist(p.0 - cx, p.1 - cy) <= radius by {
            if s.contains(p) {
                let i = choose|i: int| 0 <= i < s.len() && s[i] == p;
                if i < a.len() {
                    assert(a.contains(p));
                } else {
                    assert(b[i - a.len()] == p);
                    assert(b.contains(p));
                }
            }
            if cheb_dist(p.0 - cx, p.1 - cy) <= radius {
                if cheb_dist(p.0 - cx, p.1 - cy) <= radius - 1 {
                    assert(a.contains(p));
                    let i = choose|i: int| 0 <= i < a.len() && a[i] == p;
                    assert(s[i] == p);
                } else {
                    assert(b.contains(p));
                    let j = choose|j: int| 0 <= j < b.len() && b[j] == p;
                    assert(s[a.len() + j] == p);
                }
            }
        }
        assert(s[0] == a[0]);
    }
}

/// Block-grid column of the spiral center: the column of the block that
/// holds the image's center.
pub open spec fn grid_center_x(bcx: int) -> int {
    (bcx - 1) / 2
}

/// Block-grid row of the spiral center: the row of the block that holds
/// the image's center.
pub open spec fn grid_center_y(bcy: int) -> int {
    (bcy - 1) / 2
}

/// Spiral radius large enough to cover the whole block grid.
pub open spec fn grid_radius(bcx: int, bcy: int) -> int {
    (if bcx >= bcy {
        bcx
    } else {
        bcy
    }) / 2 + 1
}

/// Is (column, row) a cell of the bcx x bcy block grid?
pub open spec fn in_grid(bcx: int, bcy: int, p: (int, int)) -> bool {
    0 <= p.0 < bcx && 0 <= p.1 < bcy
}

/// Membership predicate for the block grid, as a value.
pub open spec fn in_grid_pred(bcx: int, bcy: int) -> spec_fn((int, int)) -> bool {
    |p: (int, int)| in_grid(bcx, bcy, p)
}

/// Row-major index of a grid cell, as a value.
pub open spec fn row_major_of(bcx: int) -> spec_fn((int, int)) -> int {
    |p: (int, int)| p.1 * bcx + p.0
}

/// The spiral cells that lie inside the block grid, in spiral order.
pub open spec fn spiral_cells(bcx: int, bcy: int) -> Seq<(int, int)> {
    spiral_seq(grid_center_x(bcx), grid_center_y(bcy), grid_radius(bcx, bcy)).filter(
        in_grid_pred(bcx, bcy),
    )
}

/// Row-major block indices in spiral processing order.
pub open spec fn spiral_order(bcx: int, bcy: int) -> Seq<int> {
    spiral_cells(bcx, bcy).map_values(row_major_of(bcx))
}

/// Every grid cell lies within the spiral radius of the grid center.
proof fn lemma_grid_covered(bcx: int, bcy: int, p: (int, int))
    requires
        0 < bcx,
        0 < bcy,
        in_grid(bcx, bcy, p),
    ensures
        cheb_dist(p.0 - grid_center_x(bcx), p.1 - grid_center_y(bcy)) <= grid_radius(bcx, bcy),
{
    let m = if bcx >= bcy {
        bcx
    } else {
        bcy
    };
    vstd::arithmetic::div_mod::lemma_fundamental_div_mod(bcx - 1, 2);
    vstd::arithmetic::div_mod::lemma_fundamental_div_mod(bcy - 1, 2);
    vstd::arithmetic::div_mod::lemma_fundamental_div_mod(m, 2);
    vstd::arithmetic::div_mod::lemma_div_is_ordered(bcx - 1, m, 2);
    vstd::arithmetic::div_mod::lemma_div_is_ordered(bcy - 1, m, 2);
}

/// Filtering a sequence keeps only elements of the sequence.
proof fn lemma_filter_subset<A>(s: Seq<A>, pred: spec_fn(A) -> bool)
    ensures
        forall|x: A| #[trigger] s.filter(pred).contains(x) ==> s.contains(x),
    decreases s.len(),
{
    reveal(Seq::filter);
    if s.len() > 0 {
        lemma_filter_subset(s.drop_last(), pred);
        assert forall|x: A| #[trigger] s.filter(pred).contains(x) implies s.contains(x) by {
            if s.drop_last().filter(pred).contains(x) {
                assert(s.drop_last().contains(x));
                let i = choose|i: int| 0 <= i < s.drop_last().len() && s.drop_last()[i] == x;
                assert(s[i] == x);
            } else {
                assert(x == s.last());
            }
        }
    }
}

/// Filtering preserves freedom from duplicates.
proof fn lemma_filter_no_dup<A>(s: Seq<A>, pred: spec_fn(A) -> bool)
    requires
        s.no_duplicates(),
    ensures
        s.filter(pred).no_duplicates(),
    decreases s.len(),
{
    reveal(Seq::filter);
    if s.len() > 0 {
        let d = s.drop_last();
        lemma_filter_no_dup(d, pred);
        lemma_filter_subset(d, pred);
        if pred(s.last()) {
            assert forall|i: int, j: int|
                0 <= i < j < s.filter(pred).len() implies s.filter(pred)[i] != s.filter(
                pred,
            )[j] by {
                if j < s.filter(pred).len() - 1 {
                    assert(d.filter(pred)[i] != d.filter(pred)[j]);
                } else {
                    assert(s.filter(pred)[j] == s.last());
                    assert(d.filter(pred).contains(d.filter(pred)[i]));
                    assert(d.contains(s.filter(pred)[i]));
                    let m = choose|m: int| 0 <= m < d.len() && d[m] == s.filter(pred)[i];
                    assert(s[m] == s.filter(pred)[i]);
                    assert(s[m] != s[s.len() - 1]);
                }
            }
        }
    }
}

/// If the first element passes the filter, it stays first.
proof fn lemma_filter_first<A>(s: Seq<A>, pred: spec_fn(A) -> bool)
    requires
        s.len() > 0,
        pred(s[0]),
    ensures
        s.filter(pred).len() > 0,
        s.filter(pred)[0] == s[0],
    decreases s.len(),
{
    reveal(Seq::filter);
    if s.len() == 1 {
        assert(s.filter(pred) =~= seq![s[0]]);
    } else {
        let d = s.drop_last();
        assert(d[0] == s[0]);
        lemma_filter_first(d, pred);
    }
}

/// The spiral ordering of the block grid is a permutation of the row-major
/// block indices `0 .. bcx*bcy`, beginning with the center block whenever
/// the center lies inside the grid.
pub proof fn lemma_spiral_order_is_permutation(bcx: int, bcy: int)
    requires
        0 < bcx,
        0 < bcy,
    ensures
        spiral_order(bcx, bcy).no_duplicates(),
        spiral_order(bcx, bcy).len() == bcx * bcy,
        forall|v: int| spiral_order(bcx, bcy).contains(v) ==> 0 <= v < bcx * bcy,
        forall|v: int| 0 <= v < bcx * bcy ==> spiral_order(bcx, bcy).contains(v),
        in_grid(bcx, bcy, (grid_center_x(bcx), grid_center_y(bcy))) ==> spiral_order(
            bcx,
            bcy,
        )[0] == grid_center_y(bcy) * bcx + grid_center_x(bcx),
{
    let cx = grid_center_x(bcx);
    let cy = grid_center_y(bcy);
    let radius = grid_radius(bcx, bcy);
    let pred = in_grid_pred(bcx, bcy);
    let f = row_major_of(bcx);
    let sp = spiral_seq(cx, cy, radius);
    let cells = spiral_cells(bcx, bcy);
    let order = spiral_order(bcx, bcy);
    assert(radius >= 1);
    lemma_spiral_props(cx, cy, radius);
    lemma_filter_no_dup(sp, pred);
    lemma_filter_subset(sp, pred);

    // Each kept cell lies in the grid.
    assert forall|i: int| 0 <= i < cells.len() implies pred(cells[i]) by {
        sp.lemma_filter_pred(pred, i);
    }
    assert(order.len() == cells.len());
    assert forall|i: int| 0 <= i < order.len() implies order[i] == f(cells[i]) by {}

    // Indices of distinct grid cells are distinct.
    assert forall|i: int, j: int| 0 <= i < j < order.len() implies order[i] != order[j] by {
        let p = cells[i];
        let q = cells[j];
        assert(pred(p) && pred(q) && p != q);
        vstd::arithmetic::div_mod::lemma_fundamental_div_mod_converse(f(p), bcx, p.1, p.0);
        vstd::arithmetic::div_mod::lemma_fundamental_div_mod_converse(f(q), bcx, q.1, q.0);
    }
    assert(order.no_duplicates());

    // Membership: exactly the row-major indices of the grid.
    assert forall|v: int| order.contains(v) implies 0 <= v < bcx * bcy by {
        let i = choose|i: int| 0 <= i < order.len() && order[i] == v;
        let p = cells[i];
        assert(pred(p));
        assert(0 <= p.1 * bcx + p.0 < bcx * bcy) by (nonlinear_arith)
            requires
                0 <= p.0 < bcx,
                0 <= p.1 < bcy,
        {}
    }
    assert forall|v: int| 0 <= v < bcx * bcy implies order.contains(v) by {
        let px = v % bcx;
        let py = v / bcx;
        vstd::arithmetic::div_mod::lemma_fundamental_div_mod(v, bcx);
        assert(0 <= py < bcy) by (nonlinear_arith)
            requires
                v == bcx * py + px,
                0 <= px < bcx,
                0 <= v < bcx * bcy,
                bcx > 0,
        {}
        let p = (px, py);
        lemma_grid_covered(bcx, bcy, p);
        assert(sp.contains(p));
        let i = choose|i: int| 0 <= i < sp.len() && sp[i] == p;
        sp.lemma_filter_contains(pred, i);
        assert(cells.contains(p));
        let j = choose|j: int| 0 <= j < cells.len() && cells[j] == p;
        assert(order[j] == f(p));
        assert(f(p) == v) by (nonlinear_arith)
            requires
                v == bcx * py + px,
                f(p) == py * bcx + px,
        {}
    }

    // Length: a duplicate-free sequence over exactly bcx*bcy values.
    order.unique_seq_to_set();
    let range = vstd::set_lib::set_int_range(0, bcx * bcy);
    assert(order.to_set() =~= range);
    vstd::set_lib::lemma_int_range(0, bcx * bcy);

    // First element.
    if in_grid(bcx, bcy, (cx, cy)) {
        lemma_filter_first(sp, pred);
        assert(cells[0] == sp[0]);
    }
}

/// Appending one element extends the filtered sequence by that element
/// exactly when it passes the filter.
proof fn lemma_filter_push<A>(s: Seq<A>, pred: spec_fn(A) -> bool, x: A)
    ensures
        pred(x) ==> s.push(x).filter(pred) == s.filter(pred).push(x),
        !pred(x) ==> s.push(x).filter(pred) == s.filter(pred),
{
    reveal(Seq::filter);
    assert(s.push(x).drop_last() =~= s);
    assert(s.push(x).last() == x);
}

/// The emitted blocks correspond, through the grid filter, to the spiral
/// cells handled so far.
pub open spec fn corresponds(
    v: Seq<RenderBlock>,
    done: Seq<(int, int)>,
    iw: int,
    ih: int,
) -> bool {
    let bcx = blocks_across(iw);
    let cells = done.filter(in_grid_pred(bcx, blocks_down(ih)));
    &&& v.len() == cells.len()
    &&& forall|t: int|
        0 <= t < v.len() ==> v[t] == block_at(iw, ih, row_major_of(bcx)(#[trigger] cells[t]))
}

proof fn lemma_corresponds_step(
    v: Seq<RenderBlock>,
    done: Seq<(int, int)>,
    iw: int,
    ih: int,
    p: (int, int),
    b: RenderBlock,
)
    requires
        corresponds(v, done, iw, ih),
        in_grid(blocks_across(iw), blocks_down(ih), p) ==> b == block_at(
            iw,
            ih,
            row_major_of(blocks_across(iw))(p),
        ),
    ensures
        in_grid(blocks_across(iw), blocks_down(ih), p) ==> corresponds(
            v.push(b),
            done.push(p),
            iw,
            ih,
        ),
        !in_grid(blocks_across(iw), blocks_down(ih), p) ==> corresponds(v, done.push(p), iw, ih),
{
    let bcx = blocks_across(iw);
    let bcy = blocks_down(ih);
    lemma_filter_push(done, in_grid_pred(bcx, bcy), p);
}

/// Arrange the row-major `blocks` of an image in spiral processing order,
/// expanding outwards from the center of the block grid.
pub fn spiral_blocks(image_width: u32, image_height: u32, blocks: &Vec<RenderBlock>) -> (v: Vec<
    RenderBlock,
>)
    requires
        valid_dims(image_width as int, image_height as int),
        blocks@.len() == block_count(image_width as int, image_height as int),
        forall|i: int|
            0 <= i < blocks@.len() ==> blocks@[i] == block_at(
                image_width as int,
                image_height as int,
                i,
            ),
    ensures
        ({
            let order = spiral_order(
                blocks_across(image_width as int),
                blocks_down(image_height as int),
            );
            &&& v@.len() == order.len()
            &&& forall|k: int|
                0 <= k < v@.len() ==> v@[k] == block_at(
                    image_width as int,
                    image_height as int,
                    order[k],
                )
        }),
{
    let ghost iw = image_width as int;
    let ghost ih = image_height as int;
    proof {
        lemma_counts_bounded(iw, ih);
    }
    let bcx: u32 = crate::shared::ceil_div(image_width, BLOCK_SIZE);
    let bcy: u32 = crate::shared::ceil_div(image_height, BLOCK_SIZE);
    let ghost bcxi = bcx as int;
    let ghost bcyi = bcy as int;
    let cx: i64 = ((bcx - 1) / 2) as i64;
    let cy: i64 = ((bcy - 1) / 2) as i64;
    let mx: u32 = if bcx >= bcy {
        bcx
    } else {
        bcy
    };
    let radius: i64 = (mx / 2) as i64 + 1;
    proof {
        assert(cx as int == grid_center_x(bcxi));
        assert(cy as int == grid_center_y(bcyi));
        assert(radius as int == grid_radius(bcxi, bcyi));
    }

    let mut v: Vec<RenderBlock> = Vec::new();
    let ghost mut done: Seq<(int, int)> = ring_seq(cx as int, cy as int, 0);

    // The center cell: the whole innermost ring.
    if 0 <= cx && cx < bcx as i64 && 0 <= cy && cy < bcy as i64 {
        proof {
            assert(0 <= (cy as int) * bcxi + (cx as int) && (cy as int) * bcxi + (cx as int)
                < bcxi * bcyi && bcxi * bcyi <= 0x100000) by (nonlinear_arith)
                requires
                    0 <= (cx as int) < bcxi <= 1024,
                    0 <= (cy as int) < bcyi <= 1024,
            {}
        }
        let idx_i: i64 = cy * (bcx as i64) + cx;
        let idx: usize = idx_i as usize;
        v.push(blocks[idx]);
    }
    proof {
        assert(Seq::<(int, int)>::empty().filter(in_grid_pred(bcxi, bcyi)) =~= Seq::empty()) by {
            reveal(Seq::filter);
        }
        assert(corresponds(Seq::empty(), Seq::empty(), iw, ih));
        lemma_corresponds_step(Seq::empty(), Seq::empty(), iw, ih, (cx as int, cy as int), v@[0]);
        assert(Seq::<(int, int)>::empty().push((cx as int, cy as int)) =~= done);
        if in_grid(bcxi, bcyi, (cx as int, cy as int)) {
            assert(v@ =~= Seq::empty().push(v@[0]));
        } else {
            assert(v@ =~= Seq::<RenderBlock>::empty());
        }
        assert(corresponds(v@, done, iw, ih));
    }

    let mut r: i64 = 1;
    while r <= radius
        invariant
            1 <= r <= radius + 1,
            radius as int == grid_radius(bcxi, bcyi),
            cx as int == grid_center_x(bcxi),
            cy as int == grid_center_y(bcyi),
            bcxi == blocks_across(iw),
            bcyi == blocks_down(ih),
            bcx as int == bcxi,
            bcy as int == bcyi,
            0 < bcxi <= 1024,
            0 < bcyi <= 1024,
            1 <= radius <= 513,
            valid_dims(iw, ih),
            iw == image_width as int,
            ih == image_height as int,
            blocks@.len() == block_count(iw, ih),
            forall|i: int| 0 <= i < blocks@.len() ==> blocks@[i] == block_at(iw, ih, i),
            done == spiral_seq(cx as int, cy as int, r - 1),
            corresponds(v@, done, iw, ih),
        decreases radius + 1 - r,
    {
        proof {
            let rs = ring_seq(cx as int, cy as int, r as int);
            assert(done + rs.take(0) =~= done);
        }
        let mut k: i64 = 0;
        let bound: i64 = 8 * r;
        while k < bound
            invariant
                0 <= k <= bound,
                bound == 8 * r,
                1 <= r <= radius,
                radius as int == grid_radius(bcxi, bcyi),
                cx as int == grid_center_x(bcxi),
                cy as int == grid_center_y(bcyi),
                bcxi == blocks_across(iw),
                bcyi == blocks_down(ih),
                bcx as int == bcxi,
                bcy as int == bcyi,
                0 < bcxi <= 1024,
                0 < bcyi <= 1024,
                1 <= radius <= 513,
                valid_dims(iw, ih),
                iw == image_width as int,
                ih == image_height as int,
                blocks@.len() == block_count(iw, ih),
                forall|i: int| 0 <= i < blocks@.len() ==> blocks@[i] == block_at(iw, ih, i),
                done == spiral_seq(cx as int, cy as int, r - 1) + ring_seq(
                    cx as int,
                    cy as int,
                    r as int,
                ).take(k as int),
                corresponds(v@, done, iw, ih),
            decreases bound - k,
        {
            let two_r: i64 = 2 * r;
            let (x, y): (i64, i64) = if k < two_r {
                (cx - r + k, cy - r)
            } else if k < 2 * two_r {
                (cx + r, cy - r + (k - two_r))
            } else if k < 3 * two_r {
                (cx + r - (k - 2 * two_r), cy + r)
            } else {
                (cx - r, cy + r - (k - 3 * two_r))
            };
            let ghost p = ring_cell(cx as int, cy as int, r as int, k as int);
            proof {
                assert(p == (x as int, y as int));
            }
            if 0 <= x && x < bcx as i64 && 0 <= y && y < bcy as i64 {
                proof {
                    assert(0 <= (y as int) * bcxi + (x as int) && (y as int) * bcxi + (x as int)
                        < bcxi * bcyi && bcxi * bcyi <= 0x100000) by (nonlinear_arith)
                        requires
                            0 <= (x as int) < bcxi <= 1024,
                            0 <= (y as int) < bcyi <= 1024,
                    {}
                }
                let idx_i: i64 = y * (bcx as i64) + x;
                let idx: usize = idx_i as usize;
                let b = blocks[idx];
                proof {
                    lemma_corresponds_step(v@, done, iw, ih, p, b);
                }
                v.push(b);
            } else {
                proof {
                    lemma_corresponds_step(v@, done, iw, ih, p, v@[0]);
                }
            }
            proof {
                let ghost rs = ring_seq(cx as int, cy as int, r as int);
                assert(rs.take(k as int).push(p) =~= rs.take(k + 1 as int));
                done = done.push(p);
                assert(done == spiral_seq(cx as int, cy as int, r - 1) + rs.take(k + 1 as int))
                    by {
                    assert(spiral_seq(cx as int, cy as int, r - 1) + rs.take(k as int).push(p)
                        =~= (spiral_seq(cx as int, cy as int, r - 1) + rs.take(k as int)).push(p));
                }
            }
            k = k + 1;
        }
        proof {
            let ghost rs = ring_seq(cx as int, cy as int, r as int);
            assert(rs.take(bound as int) =~= rs);
            assert(done == spiral_seq(cx as int, cy as int, r as int));
        }
        r = r + 1;
    }
    proof {
        assert(done == spiral_seq(cx as int, cy as int, radius as int));
        assert(done.filter(in_grid_pred(bcxi, bcyi)) == spiral_cells(bcxi, bcyi));
        let cells = spiral_cells(bcxi, bcyi);
        let order = spiral_order(bcxi, bcyi);
        assert(order.len() == cells.len());
        assert forall|t: int| 0 <= t < v@.len() implies v@[t] == block_at(iw, ih, order[t]) by {
            assert(order[t] == row_major_of(bcxi)(cells[t]));
        }
    }
    v
}

} // verus!
