//! The pixel sort / unsort engine.
//!
//! A sort pass never moves pixels directly: it computes a permutation. Keys
//! are tagged with their position and ordered by `(key, position)`, which is
//! a total order, so the sorting permutation is unique and stable. A second
//! pass over the sorted positions yields the inverse permutation, recorded
//! in a position grid: cell `(x, y)` of the grid names the source cell whose
//! pixel lands at `(x, y)` when the grid is applied to an image.

use vstd::prelude::*;
use vstd::relations::{sorted_by, total_ordering};
use vstd::seq_lib::lemma_multiset_commutative;
use vstd::seq_lib::lemma_sorted_unique;

use crate::common::{ImgGrid, Pixel, Raster, SortBy, SortKey, SortOrder, spec_dir};
use crate::matrix::{lemma_row_major_bound, Matrix};
use crate::sortfns::{lemma_key_range, sort_key_value, spec_key};

verus! {

/// Ascending `(key, original position)` order: ties between equal keys are
/// broken by the position, which makes the order total and the sort stable.
pub open spec fn pair_leq(a: (i64, usize), b: (i64, usize)) -> bool {
    a.0 < b.0 || (a.0 == b.0 && a.1 <= b.1)
}

/// The pair order as a relation value.
pub open spec fn pair_order() -> spec_fn((i64, usize), (i64, usize)) -> bool {
    |a: (i64, usize), b: (i64, usize)| pair_leq(a, b)
}

/// The pair order is a total ordering.
pub proof fn lemma_pair_order_total()
    ensures
        total_ordering(pair_order()),
{
    let r = pair_order();
    assert forall|a: (i64, usize), b: (i64, usize)| #[trigger] r(a, b) && r(b, a) implies a == b by {
        assert(a.0 == b.0 && a.1 == b.1);
    }
}

/// Each key tagged with its position.
pub open spec fn key_pairs(keys: Seq<i64>) -> Seq<(i64, usize)> {
    Seq::new(keys.len(), |i: int| (keys[i], i as usize))
}

/// The stable sorting permutation of `keys`: position `j` of the result
/// holds the original position of the `j`-th entry in ascending
/// `(key, position)` order.
pub open spec fn sort_perm(keys: Seq<i64>) -> Seq<usize> {
    key_pairs(keys).sort_by(pair_order()).map_values(|p: (i64, usize)| p.1)
}

/// Inserting anywhere into a sequence inserts into its multiset.
proof fn lemma_to_multiset_insert<A>(s: Seq<A>, i: int, v: A)
    requires
        0 <= i <= s.len(),
    ensures
        s.insert(i, v).to_multiset() =~= s.to_multiset().insert(v),
{
    broadcast use vstd::seq_lib::group_to_multiset_ensures;
    broadcast use vstd::multiset::group_multiset_axioms;

    let left = s.subrange(0, i);
    let right = s.subrange(i, s.len() as int);
    assert(s =~= left + right);
    assert(s.insert(i, v) =~= left.push(v) + right);
    lemma_multiset_commutative(left, right);
    lemma_multiset_commutative(left.push(v), right);
    assert(left.push(v).to_multiset() =~= left.to_multiset().insert(v));
    assert(left.to_multiset().insert(v).add(right.to_multiset()) =~= left.to_multiset().add(
        right.to_multiset(),
    ).insert(v));
}

/// Some position of the sorting permutation holds the value `v`.
pub open spec fn perm_hits(keys: Seq<i64>, v: int) -> bool {
    exists|j: int| 0 <= j < keys.len() && (#[trigger] sort_perm(keys)[j]) as int == v
}

/// What the sorting permutation guarantees: it has one entry per key, its
/// entries are in-range positions, every position occurs, and walking it
/// visits the keys in ascending order with ties in position order.
pub proof fn lemma_sort_perm_props(keys: Seq<i64>)
    requires
        keys.len() <= usize::MAX,
    ensures
        sort_perm(keys).len() == keys.len(),
        forall|j: int| 0 <= j < keys.len() ==> (#[trigger] sort_perm(keys)[j]) < keys.len(),
        forall|j1: int, j2: int|
            0 <= j1 < j2 < keys.len() ==> (keys[sort_perm(keys)[j1] as int]
                < keys[sort_perm(keys)[j2] as int] || (keys[sort_perm(keys)[j1] as int]
                == keys[sort_perm(keys)[j2] as int] && sort_perm(keys)[j1] < sort_perm(
                keys,
            )[j2])),
        forall|v: int| 0 <= v < keys.len() ==> #[trigger] perm_hits(keys, v),
{
    broadcast use vstd::seq_lib::group_to_multiset_ensures;
    broadcast use vstd::multiset::group_multiset_axioms;

    let ord = pair_order();
    let ps = key_pairs(keys);
    let ss = ps.sort_by(ord);
    lemma_pair_order_total();
    ps.lemma_sort_by_ensures(ord);
    assert(ps.to_multiset() =~= ss.to_multiset());
    assert(ss.len() == ss.to_multiset().len());
    assert(ps.len() == ps.to_multiset().len());
    assert(ss.len() == ps.len());
    assert forall|i1: int, i2: int|
        0 <= i1 < ps.len() && 0 <= i2 < ps.len() && i1 != i2 implies ps[i1] != ps[i2] by {
        assert(ps[i1].1 == i1 as usize && ps[i2].1 == i2 as usize);
    }
    ps.lemma_multiset_has_no_duplicates();
    ss.lemma_multiset_has_no_duplicates_conv();
    assert forall|j: int| 0 <= j < ss.len() implies (ss[j].1 < keys.len() && ss[j].0
        == keys[ss[j].1 as int]) by {
        assert(ss.contains(ss[j]));
        assert(ss.to_multiset().count(ss[j]) > 0);
        assert(ps.to_multiset().count(ss[j]) > 0);
        assert(ps.contains(ss[j]));
        let i = choose|i: int| 0 <= i < ps.len() && ps[i] == ss[j];
        assert(ps[i] == (keys[i], i as usize));
    }
    assert forall|j1: int, j2: int| 0 <= j1 < j2 < keys.len() implies (keys[sort_perm(
        keys,
    )[j1] as int] < keys[sort_perm(keys)[j2] as int] || (keys[sort_perm(keys)[j1] as int]
        == keys[sort_perm(keys)[j2] as int] && sort_perm(keys)[j1] < sort_perm(keys)[j2])) by {
        assert(ord(ss[j1], ss[j2]));
        assert(ss.no_duplicates());
        assert(ss[j1] != ss[j2]);
        assert(sort_perm(keys)[j1] == ss[j1].1 && sort_perm(keys)[j2] == ss[j2].1);
    }
    assert forall|v: int| 0 <= v < keys.len() implies #[trigger] perm_hits(keys, v) by {
        assert(ps[v] == (keys[v], v as usize));
        assert(ps.contains(ps[v]));
        assert(ps.to_multiset().count(ps[v]) > 0);
        assert(ss.to_multiset().count(ps[v]) > 0);
        assert(ss.contains(ps[v]));
        let j = choose|j: int| 0 <= j < ss.len() && ss[j] == ps[v];
        assert(sort_perm(keys)[j] == ss[j].1);
        assert(sort_perm(keys)[j] as int == v);
    }
}

fn pair_le(a: (i64, usize), b: (i64, usize)) -> (r: bool)
    ensures
        r == pair_leq(a, b),
{
    a.0 < b.0 || (a.0 == b.0 && a.1 <= b.1)
}

/// Stable sort of position-tagged keys: the `(key, position)` pairs in
/// ascending pair order.
fn sort_pairs(keys: &Vec<i64>) -> (out: Vec<(i64, usize)>)
    ensures
        out@ == key_pairs(keys@).sort_by(pair_order()),
{
    let mut out: Vec<(i64, usize)> = Vec::new();
    let mut j: usize = 0;
    proof {
        assert(out@ =~= key_pairs(keys@.subrange(0, 0)));
    }
    while j < keys.len()
        invariant
            j <= keys@.len(),
            sorted_by(out@, pair_order()),
            out@.to_multiset() == key_pairs(keys@.subrange(0, j as int)).to_multiset(),
            out@.len() == j,
        decreases keys@.len() - j,
    {
        broadcast use vstd::seq_lib::group_to_multiset_ensures;
        broadcast use vstd::multiset::group_multiset_axioms;

        let kj = keys[j];
        let item = (kj, j);
        let mut p: usize = 0;
        while p < out.len() && pair_le(out[p], item)
            invariant
                p <= out@.len(),
                forall|t: int| 0 <= t < p ==> pair_leq(#[trigger] out@[t], item),
            decreases out@.len() - p,
        {
            p = p + 1;
        }
        let ghost old_out = out@;
        let ghost ord = pair_order();
        proof {
            assert(p == old_out.len() || !pair_leq(old_out[p as int], item));
            assert forall|s: int| p <= s < old_out.len() implies pair_leq(item, old_out[s]) by {
                assert(!pair_leq(old_out[p as int], item));
                assert(pair_leq(item, old_out[p as int]));
                if s > p {
                    assert(ord(old_out[p as int], old_out[s]));
                }
            }
        }
        out.insert(p, item);
        proof {
            let newv = out@;
            assert(newv == old_out.insert(p as int, item));
            assert forall|t1: int, t2: int| 0 <= t1 < t2 < newv.len() implies #[trigger] ord(
                newv[t1],
                newv[t2],
            ) by {
                if t2 < p {
                    assert(ord(old_out[t1], old_out[t2]));
                } else if t1 < p && t2 == p {
                    assert(pair_leq(old_out[t1], item));
                } else if t1 < p && t2 > p {
                    assert(pair_leq(old_out[t1], item));
                    assert(pair_leq(item, old_out[t2 - 1]));
                } else if t1 == p {
                    assert(pair_leq(item, old_out[t2 - 1]));
                } else {
                    assert(ord(old_out[t1 - 1], old_out[t2 - 1]));
                }
            }
            lemma_to_multiset_insert(old_out, p as int, item);
            assert(key_pairs(keys@.subrange(0, j + 1)) =~= key_pairs(
                keys@.subrange(0, j as int),
            ).push((keys@[j as int], j)));
            assert(key_pairs(keys@.subrange(0, j + 1)).to_multiset() =~= key_pairs(
                keys@.subrange(0, j as int),
            ).to_multiset().insert(item));
        }
        j = j + 1;
    }
    proof {
        assert(keys@.subrange(0, keys@.len() as int) =~= keys@);
        lemma_pair_order_total();
        key_pairs(keys@).lemma_sort_by_ensures(pair_order());
        lemma_sorted_unique(out@, key_pairs(keys@).sort_by(pair_order()), pair_order());
    }
    out
}

/// Row `y` of a matrix, as a sequence.
pub open spec fn row_seq<T>(m: Matrix<T>, y: int) -> Seq<T> {
    Seq::new(m.width as nat, |x: int| m.at(x, y))
}

/// Column `x` of a matrix, as a sequence.
pub open spec fn col_seq<T>(m: Matrix<T>, x: int) -> Seq<T> {
    Seq::new(m.height as nat, |y: int| m.at(x, y))
}

/// Every entry of the grid points inside a `w` by `h` image.
pub open spec fn grid_in_bounds(g: ImgGrid, w: int, h: int) -> bool {
    forall|x: int, y: int|
        0 <= x < g.width && 0 <= y < g.height ==> (#[trigger] g.at(x, y)).0 < w && g.at(x, y).1 < h
}

/// The comparison key of a grid entry: the sort order's sign times the
/// sort key of the pixel the entry points at.
pub open spec fn entry_key(img: Raster, k: SortKey, o: SortOrder, e: (usize, usize)) -> i64 {
    (spec_dir(o) * spec_key(k, img.at(e.0 as int, e.1 as int))) as i64
}

/// The comparison keys of a line of grid entries.
pub open spec fn entry_key_seq(img: Raster, k: SortKey, o: SortOrder, line: Seq<(usize, usize)>) -> Seq<
    i64,
> {
    Seq::new(line.len(), |t: int| entry_key(img, k, o, line[t]))
}

/// The column coordinate of each entry, as a sort key.
pub open spec fn col_key_seq(line: Seq<(usize, usize)>) -> Seq<i64> {
    Seq::new(line.len(), |t: int| line[t].0 as i64)
}

/// The row coordinate of each entry, as a sort key.
pub open spec fn row_key_seq(line: Seq<(usize, usize)>) -> Seq<i64> {
    Seq::new(line.len(), |t: int| line[t].1 as i64)
}

/// The pixels an entry line points at.
pub open spec fn pixels_at(img: Raster, line: Seq<(usize, usize)>) -> Seq<Pixel> {
    Seq::new(line.len(), |t: int| img.at(line[t].0 as int, line[t].1 as int))
}

/// The grid entries of `line` in ascending `(key, position)` order.
pub open spec fn sorted_entries(img: Raster, k: SortKey, o: SortOrder, line: Seq<(usize, usize)>) -> Seq<
    (usize, usize),
> {
    let perm = sort_perm(entry_key_seq(img, k, o, line));
    Seq::new(line.len(), |j: int| line[perm[j] as int])
}

/// One row pass over a grid row: sort its entries by the keyed pixels they
/// point at, then rank the sorted entries by their column so that the new
/// entry at column `j` names the rank at which column `j`'s entry landed.
pub open spec fn map_row_pass(
    img: Raster,
    k: SortKey,
    o: SortOrder,
    row: Seq<(usize, usize)>,
    y: usize,
) -> Seq<(usize, usize)> {
    let tau = sort_perm(col_key_seq(sorted_entries(img, k, o, row)));
    Seq::new(row.len(), |j: int| (tau[j], y))
}

/// One column pass over a grid column, the transposed mirror of
/// [`map_row_pass`].
pub open spec fn map_col_pass(
    img: Raster,
    k: SortKey,
    o: SortOrder,
    col: Seq<(usize, usize)>,
    x: usize,
) -> Seq<(usize, usize)> {
    let tau = sort_perm(row_key_seq(sorted_entries(img, k, o, col)));
    Seq::new(col.len(), |j: int| (x, tau[j]))
}

/// The entries of row `y` of the identity grid.
pub open spec fn identity_row(w: int, y: int) -> Seq<(usize, usize)> {
    Seq::new(w as nat, |x: int| (x as usize, y as usize))
}

/// The entries of column `x` of the identity grid.
pub open spec fn identity_col(h: int, x: int) -> Seq<(usize, usize)> {
    Seq::new(h as nat, |y: int| (x as usize, y as usize))
}

/// The grid that maps every cell to itself.
pub fn identity_grid(width: usize, height: usize) -> (g: ImgGrid)
    requires
        width * height <= usize::MAX,
    ensures
        g.wf(),
        g.width == width,
        g.height == height,
        forall|x: int, y: int|
            0 <= x < width && 0 <= y < height ==> #[trigger] g.at(x, y) == (x as usize, y as usize),
{
    let f = |x: usize, y: usize| -> (e: (usize, usize))
        ensures
            e == (x, y),
        { (x, y) };
    let g = Matrix::<(usize, usize)>::generate(width, height, f);
    proof {
        assert forall|x: int, y: int| 0 <= x < width && 0 <= y < height implies #[trigger] g.at(
            x,
            y,
        ) == (x as usize, y as usize) by {
            assert(call_ensures(f, (x as usize, y as usize), g.at(x, y)));
        }
    }
    g
}

fn img_pixel(img: &Raster, x: usize, y: usize) -> (p: Pixel)
    requires
        img.wf(),
        x < img.width,
        y < img.height,
    ensures
        p == img.at(x as int, y as int),
{
    let r = img.get(x, y);
    r.unwrap()
}

/// The line of comparison keys for a sequence of grid entries.
fn entry_keys(img: &Raster, key: SortKey, order: SortOrder, line: &Vec<(usize, usize)>) -> (keys:
    Vec<i64>)
    requires
        img.wf(),
        forall|t: int|
            0 <= t < line@.len() ==> (#[trigger] line@[t]).0 < img.width && line@[t].1
                < img.height,
    ensures
        keys@ == entry_key_seq(*img, key, order, line@),
{
    let d: i64 = order.dir() as i64;
    let mut keys: Vec<i64> = Vec::new();
    let mut i: usize = 0;
    while i < line.len()
        invariant
            i <= line@.len(),
            img.wf(),
            d == spec_dir(order),
            forall|t: int|
                0 <= t < line@.len() ==> (#[trigger] line@[t]).0 < img.width && line@[t].1
                    < img.height,
            keys@ == entry_key_seq(*img, key, order, line@.subrange(0, i as int)),
        decreases line@.len() - i,
    {
        let e = line[i];
        let px = img_pixel(img, e.0, e.1);
        let kv = sort_key_value(key, px);
        proof {
            lemma_key_range(key, px);
        }
        keys.push(d * (kv as i64));
        proof {
            assert(keys@ =~= entry_key_seq(*img, key, order, line@.subrange(0, i + 1)));
        }
        i = i + 1;
    }
    proof {
        assert(line@.subrange(0, line@.len() as int) =~= line@);
    }
    keys
}

/// The entries of `line` in ascending `(key, position)` order: one
/// executed sort pass.
#[verifier::loop_isolation(false)]
fn sort_line(img: &Raster, key: SortKey, order: SortOrder, line: &Vec<(usize, usize)>) -> (sline:
    Vec<(usize, usize)>)
    requires
        img.wf(),
        forall|t: int|
            0 <= t < line@.len() ==> (#[trigger] line@[t]).0 < img.width && line@[t].1
                < img.height,
    ensures
        sline@ == sorted_entries(*img, key, order, line@),
        sline@.len() == line@.len(),
        forall|t: int|
            0 <= t < sline@.len() ==> (#[trigger] sline@[t]).0 < img.width && sline@[t].1
                < img.height,
{
    let keys = entry_keys(img, key, order, line);
    let n = keys.len();
    let pairs = sort_pairs(&keys);
    proof {
        lemma_sort_perm_props(keys@);
        assert(sort_perm(keys@) =~= pairs@.map_values(|p: (i64, usize)| p.1));
        assert forall|t: int| 0 <= t < pairs@.len() implies (#[trigger] pairs@[t]).1 == sort_perm(
            keys@,
        )[t] && pairs@[t].1 < line@.len() by {
            assert(sort_perm(keys@)[t] == pairs@.map_values(|p: (i64, usize)| p.1)[t]);
        }
    }
    let mut sline: Vec<(usize, usize)> = Vec::new();
    let mut j: usize = 0;
    while j < n
        invariant
            j <= n,
            sline@ == sorted_entries(*img, key, order, line@).subrange(0, j as int),
        decreases n - j,
    {
        let idx = pairs[j].1;
        sline.push(line[idx]);
        proof {
            assert(sline@ =~= sorted_entries(*img, key, order, line@).subrange(0, j + 1));
        }
        j = j + 1;
    }
    proof {
        assert(sorted_entries(*img, key, order, line@).subrange(
            0,
            line@.len() as int,
        ) =~= sorted_entries(*img, key, order, line@));
    }
    sline
}

/// Rank the entries of a sorted line by one coordinate (the column when
/// `by_col`, else the row): the second, re-ranking sort of a pass. Entry
/// `j` of the result is the rank at which the line entry with the `j`-th
/// smallest coordinate stands.
#[verifier::loop_isolation(false)]
fn rank_line(sline: &Vec<(usize, usize)>, by_col: bool) -> (tau: Vec<usize>)
    requires
        forall|t: int|
            0 <= t < sline@.len() ==> (#[trigger] sline@[t]).0 <= 0x7fff_ffff_ffff_ffffi64
                && sline@[t].1 <= 0x7fff_ffff_ffff_ffffi64,
    ensures
        by_col ==> tau@ == sort_perm(col_key_seq(sline@)),
        !by_col ==> tau@ == sort_perm(row_key_seq(sline@)),
        tau@.len() == sline@.len(),
        forall|t: int| 0 <= t < tau@.len() ==> (#[trigger] tau@[t]) < sline@.len(),
{
    let mut xs: Vec<i64> = Vec::new();
    let mut i: usize = 0;
    while i < sline.len()
        invariant
            i <= sline@.len(),
            by_col ==> xs@ == col_key_seq(sline@.subrange(0, i as int)),
            !by_col ==> xs@ == row_key_seq(sline@.subrange(0, i as int)),
        decreases sline@.len() - i,
    {
        let e = sline[i];
        if by_col {
            xs.push(e.0 as i64);
            proof {
                assert(xs@ =~= col_key_seq(sline@.subrange(0, i + 1)));
            }
        } else {
            xs.push(e.1 as i64);
            proof {
                assert(xs@ =~= row_key_seq(sline@.subrange(0, i + 1)));
            }
        }
        i = i + 1;
    }
    proof {
        assert(sline@.subrange(0, sline@.len() as int) =~= sline@);
    }
    let n = xs.len();
    let pairs = sort_pairs(&xs);
    proof {
        lemma_sort_perm_props(xs@);
        assert(sort_perm(xs@) =~= pairs@.map_values(|p: (i64, usize)| p.1));
        assert forall|t: int| 0 <= t < pairs@.len() implies (#[trigger] pairs@[t]).1 == sort_perm(
            xs@,
        )[t] && pairs@[t].1 < sline@.len() by {
            assert(sort_perm(xs@)[t] == pairs@.map_values(|p: (i64, usize)| p.1)[t]);
        }
    }
    let mut tau: Vec<usize> = Vec::new();
    let mut j: usize = 0;
    while j < n
        invariant
            j <= n,
            tau@ == sort_perm(xs@).subrange(0, j as int),
        decreases n - j,
    {
        tau.push(pairs[j].1);
        proof {
            assert(tau@ =~= sort_perm(xs@).subrange(0, j + 1));
        }
        j = j + 1;
    }
    proof {
        assert(sort_perm(xs@).subrange(0, sline@.len() as int) =~= sort_perm(xs@));
    }
    tau
}

/// Build a position grid whose rows record, for each row of the input
/// grid, the inverse of that row's sorting permutation: the new entry at
/// column `j` names the rank at which column `j`'s entry landed in the
/// sort, so applying the grid to the row-sorted image restores the
/// original. Passing `None` starts from the identity grid; passing the
/// result of an earlier pass compounds the two.
#[verifier::loop_isolation(false)]
pub fn pixel_map_row(img: &Raster, key: SortKey, order: SortOrder, grid: Option<ImgGrid>) -> (r:
    ImgGrid)
    requires
        img.wf(),
        img.width <= 0x7fff_ffff_ffff_ffffi64,
        img.height <= 0x7fff_ffff_ffff_ffffi64,
        img.width * img.height <= usize::MAX,
        grid matches Some(g) ==> g.wf() && grid_in_bounds(
            g,
            img.width as int,
            img.height as int,
        ),
    ensures
        r.wf(),
        grid matches Some(g) ==> r.width == g.width && r.height == g.height && forall|y: int|
            0 <= y < r.height ==> row_seq(r, y) == map_row_pass(
                *img,
                key,
                order,
                row_seq(g, y),
                y as usize,
            ),
        grid is None ==> r.width == img.width && r.height == img.height && forall|y: int|
            0 <= y < r.height ==> row_seq(r, y) == map_row_pass(
                *img,
                key,
                order,
                identity_row(img.width as int, y),
                y as usize,
            ),
{
    let gin: ImgGrid = match grid {
        Some(g) => g,
        None => identity_grid(img.width, img.height),
    };
    proof {
        assert(grid_in_bounds(gin, img.width as int, img.height as int));
        if grid is None {
            assert forall|y: int| 0 <= y < gin.height implies row_seq(gin, y) == identity_row(
                img.width as int,
                y,
            ) by {
                assert(row_seq(gin, y) =~= identity_row(img.width as int, y));
            }
        }
    }
    let w = gin.width;
    let h = gin.height;
    let mut data: Vec<(usize, usize)> = Vec::new();
    let mut y: usize = 0;
    while y < h
        invariant
            y <= h,
            data.len() == y * w,
            forall|yy: int, x: int|
                0 <= yy < y && 0 <= x < w ==> #[trigger] data[yy * (w as int) + x] == map_row_pass(
                    *img,
                    key,
                    order,
                    row_seq(gin, yy),
                    yy as usize,
                )[x],
        decreases h - y,
    {
        let row = gin.get_row(y);
        proof {
            assert(row@ =~= row_seq(gin, y as int));
            assert forall|t: int| 0 <= t < row@.len() implies (#[trigger] row@[t]).0 < img.width
                && row@[t].1 < img.height by {
                assert(gin.at(t, y as int).0 < img.width && gin.at(t, y as int).1 < img.height);
            }
        }
        let sline = sort_line(img, key, order, &row);
        let tau = rank_line(&sline, true);
        proof {
            assert(tau@ == sort_perm(col_key_seq(sorted_entries(*img, key, order, row_seq(
                gin,
                y as int,
            )))));
        }
        let mut x: usize = 0;
        while x < w
            invariant
                x <= w,
                data.len() == y * w + x,
                forall|yy: int, x2: int|
                    0 <= yy < y && 0 <= x2 < w ==> #[trigger] data[yy * (w as int) + x2]
                        == map_row_pass(
                        *img,
                        key,
                        order,
                        row_seq(gin, yy),
                        yy as usize,
                    )[x2],
                forall|t: int|
                    0 <= t < x ==> #[trigger] data[(y as int) * (w as int) + t] == map_row_pass(
                        *img,
                        key,
                        order,
                        row_seq(gin, y as int),
                        y,
                    )[t],
            decreases w - x,
        {
            data.push((tau[x], y));
            proof {
                assert forall|yy: int, x2: int|
                    0 <= yy < y && 0 <= x2 < w implies #[trigger] data[yy * (w as int) + x2]
                    == map_row_pass(
                    *img,
                    key,
                    order,
                    row_seq(gin, yy),
                    yy as usize,
                )[x2] by {
                    lemma_row_major_bound(x2, yy, w as int, y as int);
                }
                assert(data[(y as int) * (w as int) + x] == map_row_pass(
                    *img,
                    key,
                    order,
                    row_seq(gin, y as int),
                    y,
                )[x as int]);
            }
            x = x + 1;
        }
        proof {
            assert(((y + 1) as int) * (w as int) == (y as int) * (w as int) + (w as int))
                by (nonlinear_arith);
        }
        y = y + 1;
    }
    let r = Matrix { width: w, height: h, data };
    proof {
        assert((w as int) * (h as int) == (h as int) * (w as int)) by (nonlinear_arith);
        assert forall|yy: int| 0 <= yy < h implies row_seq(r, yy) == map_row_pass(
            *img,
            key,
            order,
            row_seq(gin, yy),
            yy as usize,
        ) by {
            assert forall|x: int| 0 <= x < w implies row_seq(r, yy)[x] == map_row_pass(
                *img,
                key,
                order,
                row_seq(gin, yy),
                yy as usize,
            )[x] by {
                lemma_row_major_bound(x, yy, w as int, h as int);
            }
            assert(row_seq(r, yy) =~= map_row_pass(*img, key, order, row_seq(gin, yy), yy as usize));
        }
    }
    r
}

/// The pixels of row `y`, sorted by the key in the given order.
pub open spec fn sorted_row_pixels(img: Raster, k: SortKey, o: SortOrder, y: int) -> Seq<Pixel> {
    pixels_at(img, sorted_entries(img, k, o, identity_row(img.width as int, y)))
}

/// The pixels of column `x`, sorted by the key in the given order.
pub open spec fn sorted_col_pixels(img: Raster, k: SortKey, o: SortOrder, x: int) -> Seq<Pixel> {
    pixels_at(img, sorted_entries(img, k, o, identity_col(img.height as int, x)))
}

/// Build a position grid whose columns record, for each column of the
/// input grid, the inverse of that column's sorting permutation: the
/// transposed mirror of [`pixel_map_row`].
#[verifier::loop_isolation(false)]
pub fn pixel_map_column(img: &Raster, key: SortKey, order: SortOrder, grid: Option<ImgGrid>) -> (r:
    ImgGrid)
    requires
        img.wf(),
        img.width <= 0x7fff_ffff_ffff_ffffi64,
        img.height <= 0x7fff_ffff_ffff_ffffi64,
        img.width * img.height <= usize::MAX,
        grid matches Some(g) ==> g.wf() && grid_in_bounds(
            g,
            img.width as int,
            img.height as int,
        ),
    ensures
        r.wf(),
        grid matches Some(g) ==> r.width == g.width && r.height == g.height && forall|x: int|
            0 <= x < r.width ==> col_seq(r, x) == map_col_pass(
                *img,
                key,
                order,
                col_seq(g, x),
                x as usize,
            ),
        grid is None ==> r.width == img.width && r.height == img.height && forall|x: int|
            0 <= x < r.width ==> col_seq(r, x) == map_col_pass(
                *img,
                key,
                order,
                identity_col(img.height as int, x),
                x as usize,
            ),
{
    let gin: ImgGrid = match grid {
        Some(g) => g,
        None => identity_grid(img.width, img.height),
    };
    proof {
        assert(grid_in_bounds(gin, img.width as int, img.height as int));
        if grid is None {
            assert forall|x: int| 0 <= x < gin.width implies col_seq(gin, x) == identity_col(
                img.height as int,
                x,
            ) by {
                assert(col_seq(gin, x) =~= identity_col(img.height as int, x));
            }
        }
    }
    let w = gin.width;
    let h = gin.height;
    let mut taus: Vec<Vec<usize>> = Vec::new();
    let mut x: usize = 0;
    while x < w
        invariant
            x <= w,
            taus@.len() == x,
            forall|xx: int|
                0 <= xx < x ==> (#[trigger] taus@[xx])@ == sort_perm(
                    row_key_seq(sorted_entries(*img, key, order, col_seq(gin, xx))),
                ),
            forall|xx: int| 0 <= xx < x ==> (#[trigger] taus@[xx])@.len() == h,
            forall|xx: int, t: int|
                0 <= xx < x && 0 <= t < h ==> (#[trigger] taus@[xx]@[t]) < h,
        decreases w - x,
    {
        let col = gin.get_column(x);
        proof {
            assert(col@ =~= col_seq(gin, x as int));
            assert forall|t: int| 0 <= t < col@.len() implies (#[trigger] col@[t]).0 < img.width
                && col@[t].1 < img.height by {
                assert(gin.at(x as int, t).0 < img.width && gin.at(x as int, t).1 < img.height);
            }
        }
        let sline = sort_line(img, key, order, &col);
        let tau = rank_line(&sline, false);
        taus.push(tau);
        x = x + 1;
    }
    let mut data: Vec<(usize, usize)> = Vec::new();
    let mut y: usize = 0;
    while y < h
        invariant
            y <= h,
            data.len() == y * w,
            forall|yy: int, xx: int|
                0 <= yy < y && 0 <= xx < w ==> #[trigger] data[yy * (w as int) + xx] == (
                xx as usize,
                taus@[xx]@[yy],
                ),
        decreases h - y,
    {
        let mut x2: usize = 0;
        while x2 < w
            invariant
                x2 <= w,
                data.len() == y * w + x2,
                forall|yy: int, xx: int|
                    0 <= yy < y && 0 <= xx < w ==> #[trigger] data[yy * (w as int) + xx] == (
                    xx as usize,
                    taus@[xx]@[yy],
                    ),
                forall|t: int|
                    0 <= t < x2 ==> #[trigger] data[(y as int) * (w as int) + t] == (
                    t as usize,
                    taus@[t]@[y as int],
                    ),
            decreases w - x2,
        {
            let tv = taus[x2][y];
            data.push((x2, tv));
            proof {
                assert forall|yy: int, xx: int|
                    0 <= yy < y && 0 <= xx < w implies #[trigger] data[yy * (w as int) + xx] == (
                    xx as usize,
                    taus@[xx]@[yy],
                    ) by {
                    lemma_row_major_bound(xx, yy, w as int, y as int);
                }
            }
            x2 = x2 + 1;
        }
        proof {
            assert(((y + 1) as int) * (w as int) == (y as int) * (w as int) + (w as int))
                by (nonlinear_arith);
        }
        y = y + 1;
    }
    let r = Matrix { width: w, height: h, data };
    proof {
        assert((w as int) * (h as int) == (h as int) * (w as int)) by (nonlinear_arith);
        assert forall|xx: int| 0 <= xx < w implies col_seq(r, xx) == map_col_pass(
            *img,
            key,
            order,
            col_seq(gin, xx),
            xx as usize,
        ) by {
            assert forall|yy: int| 0 <= yy < h implies col_seq(r, xx)[yy] == map_col_pass(
                *img,
                key,
                order,
                col_seq(gin, xx),
                xx as usize,
            )[yy] by {
                lemma_row_major_bound(xx, yy, w as int, h as int);
            }
            assert(col_seq(r, xx) =~= map_col_pass(*img, key, order, col_seq(gin, xx), xx as usize));
        }
    }
    r
}

/// Apply a position grid to an image: output pixel `(x, y)` is the input
/// pixel at the cell the grid names there. With a grid built by sorting
/// one image, this scrambles another image by the same rearrangement.
#[verifier::loop_isolation(false)]
pub fn pixel_unsort(img: &Raster, px_map: &ImgGrid) -> (out: Raster)
    requires
        img.wf(),
        px_map.wf(),
        px_map.width == img.width,
        px_map.height == img.height,
        grid_in_bounds(*px_map, img.width as int, img.height as int),
    ensures
        out.wf(),
        out.width == img.width,
        out.height == img.height,
        forall|x: int, y: int|
            0 <= x < out.width && 0 <= y < out.height ==> #[trigger] out.at(x, y) == img.at(
                px_map.at(x, y).0 as int,
                px_map.at(x, y).1 as int,
            ),
{
    let w = img.width;
    let h = img.height;
    let mut data: Vec<Pixel> = Vec::new();
    let mut y: usize = 0;
    while y < h
        invariant
            y <= h,
            data.len() == y * w,
            forall|yy: int, xx: int|
                0 <= yy < y && 0 <= xx < w ==> #[trigger] data[yy * (w as int) + xx] == img.at(
                    px_map.at(xx, yy).0 as int,
                    px_map.at(xx, yy).1 as int,
                ),
        decreases h - y,
    {
        let mut x: usize = 0;
        while x < w
            invariant
                x <= w,
                data.len() == y * w + x,
                forall|yy: int, xx: int|
                    0 <= yy < y && 0 <= xx < w ==> #[trigger] data[yy * (w as int) + xx] == img.at(
                        px_map.at(xx, yy).0 as int,
                        px_map.at(xx, yy).1 as int,
                    ),
                forall|t: int|
                    0 <= t < x ==> #[trigger] data[(y as int) * (w as int) + t] == img.at(
                        px_map.at(t, y as int).0 as int,
                        px_map.at(t, y as int).1 as int,
                    ),
            decreases w - x,
        {
            let e = px_map.get(x, y).unwrap();
            let px = img_pixel(img, e.0, e.1);
            data.push(px);
            proof {
                assert forall|yy: int, xx: int|
                    0 <= yy < y && 0 <= xx < w implies #[trigger] data[yy * (w as int) + xx]
                    == img.at(px_map.at(xx, yy).0 as int, px_map.at(xx, yy).1 as int) by {
                    lemma_row_major_bound(xx, yy, w as int, y as int);
                }
            }
            x = x + 1;
        }
        proof {
            assert(((y + 1) as int) * (w as int) == (y as int) * (w as int) + (w as int))
                by (nonlinear_arith);
        }
        y = y + 1;
    }
    let out = Matrix { width: w, height: h, data };
    proof {
        assert((w as int) * (h as int) == (h as int) * (w as int)) by (nonlinear_arith);
        assert forall|x: int, y2: int| 0 <= x < w && 0 <= y2 < h implies #[trigger] out.at(x, y2)
            == img.at(px_map.at(x, y2).0 as int, px_map.at(x, y2).1 as int) by {
            lemma_row_major_bound(x, y2, w as int, h as int);
        }
    }
    out
}

fn identity_line_row(w: usize, y: usize) -> (line: Vec<(usize, usize)>)
    ensures
        line@ == identity_row(w as int, y as int),
{
    let mut line: Vec<(usize, usize)> = Vec::new();
    let mut x: usize = 0;
    while x < w
        invariant
            x <= w,
            line@ == identity_row(x as int, y as int),
        decreases w - x,
    {
        line.push((x, y));
        proof {
            assert(line@ =~= identity_row(x + 1, y as int));
        }
        x = x + 1;
    }
    line
}

fn identity_line_col(h: usize, x: usize) -> (line: Vec<(usize, usize)>)
    ensures
        line@ == identity_col(h as int, x as int),
{
    let mut line: Vec<(usize, usize)> = Vec::new();
    let mut y: usize = 0;
    while y < h
        invariant
            y <= h,
            line@ == identity_col(y as int, x as int),
        decreases h - y,
    {
        line.push((x, y));
        proof {
            assert(line@ =~= identity_col(y + 1, x as int));
        }
        y = y + 1;
    }
    line
}

/// Sort each row's pixels by the key, in the given order.
#[verifier::loop_isolation(false)]
pub fn pixel_sort_row(img: &Raster, key: SortKey, order: SortOrder) -> (out: Raster)
    requires
        img.wf(),
    ensures
        out.wf(),
        out.width == img.width,
        out.height == img.height,
        forall|y: int|
            0 <= y < out.height ==> row_seq(out, y) == sorted_row_pixels(*img, key, order, y),
{
    let w = img.width;
    let h = img.height;
    let mut data: Vec<Pixel> = Vec::new();
    let mut y: usize = 0;
    while y < h
        invariant
            y <= h,
            data.len() == y * w,
            forall|yy: int, xx: int|
                0 <= yy < y && 0 <= xx < w ==> #[trigger] data[yy * (w as int) + xx]
                    == sorted_row_pixels(*img, key, order, yy)[xx],
        decreases h - y,
    {
        let line = identity_line_row(w, y);
        proof {
            assert forall|t: int| 0 <= t < line@.len() implies (#[trigger] line@[t]).0 < img.width
                && line@[t].1 < img.height by {}
        }
        let sline = sort_line(img, key, order, &line);
        let mut x: usize = 0;
        while x < w
            invariant
                x <= w,
                data.len() == y * w + x,
                forall|yy: int, xx: int|
                    0 <= yy < y && 0 <= xx < w ==> #[trigger] data[yy * (w as int) + xx]
                        == sorted_row_pixels(*img, key, order, yy)[xx],
                forall|t: int|
                    0 <= t < x ==> #[trigger] data[(y as int) * (w as int) + t]
                        == sorted_row_pixels(*img, key, order, y as int)[t],
            decreases w - x,
        {
            let e = sline[x];
            let px = img_pixel(img, e.0, e.1);
            data.push(px);
            proof {
                assert forall|yy: int, xx: int|
                    0 <= yy < y && 0 <= xx < w implies #[trigger] data[yy * (w as int) + xx]
                    == sorted_row_pixels(*img, key, order, yy)[xx] by {
                    lemma_row_major_bound(xx, yy, w as int, y as int);
                }
                assert(sorted_row_pixels(*img, key, order, y as int)[x as int] == img.at(
                    sline@[x as int].0 as int,
                    sline@[x as int].1 as int,
                ));
            }
            x = x + 1;
        }
        proof {
            assert(((y + 1) as int) * (w as int) == (y as int) * (w as int) + (w as int))
                by (nonlinear_arith);
        }
        y = y + 1;
    }
    let out = Matrix { width: w, height: h, data };
    proof {
        assert((w as int) * (h as int) == (h as int) * (w as int)) by (nonlinear_arith);
        assert forall|yy: int| 0 <= yy < h implies row_seq(out, yy) == sorted_row_pixels(
            *img,
            key,
            order,
            yy,
        ) by {
            assert forall|xx: int| 0 <= xx < w implies row_seq(out, yy)[xx] == sorted_row_pixels(
                *img,
                key,
                order,
                yy,
            )[xx] by {
                lemma_row_major_bound(xx, yy, w as int, h as int);
            }
            assert(row_seq(out, yy) =~= sorted_row_pixels(*img, key, order, yy));
        }
    }
    out
}

/// Sort each column's pixels by the key, in the given order: the
/// transposed mirror of [`pixel_sort_row`].
#[verifier::loop_isolation(false)]
pub fn pixel_sort_column(img: &Raster, key: SortKey, order: SortOrder) -> (out: Raster)
    requires
        img.wf(),
    ensures
        out.wf(),
        out.width == img.width,
        out.height == img.height,
        forall|x: int|
            0 <= x < out.width ==> col_seq(out, x) == sorted_col_pixels(*img, key, order, x),
{
    let w = img.width;
    let h = img.height;
    let mut cols: Vec<Vec<Pixel>> = Vec::new();
    let mut x: usize = 0;
    while x < w
        invariant
            x <= w,
            cols@.len() == x,
            forall|xx: int|
                0 <= xx < x ==> (#[trigger] cols@[xx])@ == sorted_col_pixels(*img, key, order, xx),
            forall|xx: int| 0 <= xx < x ==> (#[trigger] cols@[xx])@.len() == h,
        decreases w - x,
    {
        let line = identity_line_col(h, x);
        proof {
            assert forall|t: int| 0 <= t < line@.len() implies (#[trigger] line@[t]).0 < img.width
                && line@[t].1 < img.height by {}
        }
        let sline = sort_line(img, key, order, &line);
        let mut cdata: Vec<Pixel> = Vec::new();
        let mut j: usize = 0;
        while j < h
            invariant
                j <= h,
                cdata@ == sorted_col_pixels(*img, key, order, x as int).subrange(0, j as int),
            decreases h - j,
        {
            let e = sline[j];
            let px = img_pixel(img, e.0, e.1);
            cdata.push(px);
            proof {
                assert(cdata@ =~= sorted_col_pixels(*img, key, order, x as int).subrange(0, j + 1));
            }
            j = j + 1;
        }
        proof {
            assert(sorted_col_pixels(*img, key, order, x as int).subrange(
                0,
                h as int,
            ) =~= sorted_col_pixels(*img, key, order, x as int));
        }
        cols.push(cdata);
        x = x + 1;
    }
    let mut data: Vec<Pixel> = Vec::new();
    let mut y: usize = 0;
    while y < h
        invariant
            y <= h,
            data.len() == y * w,
            forall|yy: int, xx: int|
                0 <= yy < y && 0 <= xx < w ==> #[trigger] data[yy * (w as int) + xx]
                    == cols@[xx]@[yy],
        decreases h - y,
    {
        let mut x2: usize = 0;
        while x2 < w
            invariant
                x2 <= w,
                data.len() == y * w + x2,
                forall|yy: int, xx: int|
                    0 <= yy < y && 0 <= xx < w ==> #[trigger] data[yy * (w as int) + xx]
                        == cols@[xx]@[yy],
                forall|t: int|
                    0 <= t < x2 ==> #[trigger] data[(y as int) * (w as int) + t]
                        == cols@[t]@[y as int],
            decreases w - x2,
        {
            let px = cols[x2][y];
            data.push(px);
            proof {
                assert forall|yy: int, xx: int|
                    0 <= yy < y && 0 <= xx < w implies #[trigger] data[yy * (w as int) + xx]
                    == cols@[xx]@[yy] by {
                    lemma_row_major_bound(xx, yy, w as int, y as int);
                }
            }
            x2 = x2 + 1;
        }
        proof {
            assert(((y + 1) as int) * (w as int) == (y as int) * (w as int) + (w as int))
                by (nonlinear_arith);
        }
        y = y + 1;
    }
    let out = Matrix { width: w, height: h, data };
    proof {
        assert((w as int) * (h as int) == (h as int) * (w as int)) by (nonlinear_arith);
        assert forall|xx: int| 0 <= xx < w implies col_seq(out, xx) == sorted_col_pixels(
            *img,
            key,
            order,
            xx,
        ) by {
            assert forall|yy: int| 0 <= yy < h implies col_seq(out, xx)[yy] == sorted_col_pixels(
                *img,
                key,
                order,
                xx,
            )[yy] by {
                lemma_row_major_bound(xx, yy, w as int, h as int);
            }
            assert(col_seq(out, xx) =~= sorted_col_pixels(*img, key, order, xx));
        }
    }
    out
}


proof fn lemma_perm_keys_strict(keys: Seq<i64>, j1: int, j2: int)
    requires
        keys.len() <= usize::MAX,
        forall|t1: int, t2: int| 0 <= t1 < t2 < keys.len() ==> #[trigger] keys[t1] != #[trigger] keys[t2],
        0 <= j1 < j2 < keys.len(),
    ensures
        keys[sort_perm(keys)[j1] as int] < keys[sort_perm(keys)[j2] as int],
{
    lemma_sort_perm_props(keys);
    let p = sort_perm(keys);
    if keys[p[j1] as int] == keys[p[j2] as int] {
        assert(p[j1] < p[j2]);
        assert(keys[p[j1] as int] != keys[p[j2] as int]);
    }
}

proof fn lemma_perm_sorted_lb(keys: Seq<i64>, j: int)
    requires
        keys.len() <= usize::MAX,
        forall|t: int| 0 <= t < keys.len() ==> 0 <= #[trigger] keys[t],
        forall|t1: int, t2: int| 0 <= t1 < t2 < keys.len() ==> #[trigger] keys[t1] != #[trigger] keys[t2],
        0 <= j < keys.len(),
    ensures
        keys[sort_perm(keys)[j] as int] >= j,
    decreases j,
{
    lemma_sort_perm_props(keys);
    if j > 0 {
        lemma_perm_sorted_lb(keys, j - 1);
        lemma_perm_keys_strict(keys, j - 1, j);
    }
}

proof fn lemma_perm_sorted_ub(keys: Seq<i64>, j: int)
    requires
        keys.len() <= usize::MAX,
        forall|t: int| 0 <= t < keys.len() ==> #[trigger] keys[t] < keys.len(),
        forall|t1: int, t2: int| 0 <= t1 < t2 < keys.len() ==> #[trigger] keys[t1] != #[trigger] keys[t2],
        0 <= j < keys.len(),
    ensures
        keys[sort_perm(keys)[j] as int] <= j,
    decreases keys.len() - j,
{
    lemma_sort_perm_props(keys);
    if j < keys.len() - 1 {
        lemma_perm_sorted_ub(keys, j + 1);
        lemma_perm_keys_strict(keys, j, j + 1);
    }
}

/// Keys that are themselves a permutation of their positions sort back to
/// the identity: the `j`-th smallest key is `j`, so the sorting
/// permutation inverts the keys.
pub proof fn lemma_sort_perm_inverse(keys: Seq<i64>)
    requires
        keys.len() <= usize::MAX,
        forall|t: int| 0 <= t < keys.len() ==> 0 <= #[trigger] keys[t] < keys.len(),
        forall|t1: int, t2: int| 0 <= t1 < t2 < keys.len() ==> #[trigger] keys[t1] != #[trigger] keys[t2],
    ensures
        forall|j: int| 0 <= j < keys.len() ==> keys[(#[trigger] sort_perm(keys)[j]) as int] == j,
{
    lemma_sort_perm_props(keys);
    assert forall|j: int| 0 <= j < keys.len() implies keys[(#[trigger] sort_perm(keys)[j]) as int]
        == j by {
        lemma_perm_sorted_lb(keys, j);
        lemma_perm_sorted_ub(keys, j);
    }
}

/// Round trip of the sort/unsort pair over one image: sort each row's
/// pixels by any key in any order, and build the position grid of a fresh
/// row pass over the same image. The grid entry at `(x, y)` stays in row
/// `y`, stays in range, and points at the rank where the pixel of `(x, y)`
/// landed, so applying the grid to the row-sorted image restores the
/// original image pixel for pixel.
pub proof fn lemma_unsort_inverts_row_sort(
    img: Raster,
    key: SortKey,
    order: SortOrder,
    x: int,
    y: int,
)
    requires
        img.wf(),
        img.width <= 0x7fff_ffff_ffff_ffffi64,
        0 <= x < img.width,
        0 <= y < img.height,
    ensures
        ({
            let grow = map_row_pass(img, key, order, identity_row(img.width as int, y), y as usize);
            grow[x].1 == y && grow[x].0 < img.width && sorted_row_pixels(img, key, order, y)[(
            grow[x].0) as int] == img.at(x, y)
        }),
{
    let w = img.width as int;
    let line = identity_row(w, y);
    let keys = entry_key_seq(img, key, order, line);
    lemma_sort_perm_props(keys);
    let sigma = sort_perm(keys);
    let srow = sorted_entries(img, key, order, line);
    assert forall|j: int| 0 <= j < w implies #[trigger] srow[j] == (
        sigma[j],
        y as usize,
    ) by {
        assert(line[sigma[j] as int] == (sigma[j] as int as usize, y as usize));
    }
    let xs = col_key_seq(srow);
    assert forall|j: int| 0 <= j < w implies #[trigger] xs[j] == sigma[j] as i64 by {}
    assert forall|t1: int, t2: int| 0 <= t1 < t2 < xs.len() implies #[trigger] xs[t1]
        != #[trigger] xs[t2] by {
        if sigma[t1] == sigma[t2] {
            assert(keys[sigma[t1] as int] == keys[sigma[t2] as int]);
        }
    }
    lemma_sort_perm_inverse(xs);
    lemma_sort_perm_props(xs);
    let tau = sort_perm(xs);
    let grow = map_row_pass(img, key, order, line, y as usize);
    assert(grow[x] == (tau[x], y as usize));
    assert(xs[tau[x] as int] == x);
    assert(sigma[tau[x] as int] as int == x);
    assert(sorted_row_pixels(img, key, order, y)[tau[x] as int] == img.at(
        srow[tau[x] as int].0 as int,
        srow[tau[x] as int].1 as int,
    ));
}


/// A row pass keeps its length, stays inside the row's width, and keeps
/// every entry in row `y`.
pub proof fn lemma_map_row_pass_bounds(
    img: Raster,
    key: SortKey,
    order: SortOrder,
    row: Seq<(usize, usize)>,
    y: usize,
)
    requires
        row.len() <= usize::MAX,
    ensures
        map_row_pass(img, key, order, row, y).len() == row.len(),
        forall|j: int|
            0 <= j < row.len() ==> (#[trigger] map_row_pass(img, key, order, row, y)[j]).0
                < row.len() && map_row_pass(img, key, order, row, y)[j].1 == y,
{
    let xs = col_key_seq(sorted_entries(img, key, order, row));
    lemma_sort_perm_props(xs);
}

/// A column pass keeps its length, stays inside the column's height, and
/// keeps every entry in column `x`.
pub proof fn lemma_map_col_pass_bounds(
    img: Raster,
    key: SortKey,
    order: SortOrder,
    col: Seq<(usize, usize)>,
    x: usize,
)
    requires
        col.len() <= usize::MAX,
    ensures
        map_col_pass(img, key, order, col, x).len() == col.len(),
        forall|j: int|
            0 <= j < col.len() ==> (#[trigger] map_col_pass(img, key, order, col, x)[j]).1
                < col.len() && map_col_pass(img, key, order, col, x)[j].0 == x,
{
    let xs = row_key_seq(sorted_entries(img, key, order, col));
    lemma_sort_perm_props(xs);
}

/// Column `x` of the grid a fresh row pass builds.
pub open spec fn row_pass_col(a: Raster, key: SortKey, ro: SortOrder, x: int) -> Seq<
    (usize, usize),
> {
    Seq::new(
        a.height as nat,
        |j: int| map_row_pass(a, key, ro, identity_row(a.width as int, j), j as usize)[x],
    )
}

/// Row `y` of the grid a fresh column pass builds.
pub open spec fn col_pass_row(a: Raster, key: SortKey, co: SortOrder, y: int) -> Seq<
    (usize, usize),
> {
    Seq::new(
        a.width as nat,
        |i: int| map_col_pass(a, key, co, identity_col(a.height as int, i), i as usize)[y],
    )
}

/// The source cell that the unsort grid of image `a` records for the
/// output cell `(x, y)` under the configured axis mode: one fresh pass
/// along the axis, or two compounded passes where the second starts from
/// the grid the first built.
pub open spec fn unsort_entry(
    a: Raster,
    key: SortKey,
    by: SortBy,
    ro: SortOrder,
    co: SortOrder,
    x: int,
    y: int,
) -> (usize, usize) {
    match by {
        SortBy::Row => map_row_pass(a, key, ro, identity_row(a.width as int, y), y as usize)[x],
        SortBy::Column => map_col_pass(a, key, co, identity_col(a.height as int, x), x as usize)[y],
        SortBy::RowCol => map_col_pass(a, key, co, row_pass_col(a, key, ro, x), x as usize)[y],
        SortBy::ColRow => map_row_pass(a, key, ro, col_pass_row(a, key, co, y), y as usize)[x],
    }
}

/// Scramble image `b` with the spatial rearrangement discovered by
/// sorting image `a`: build the position grid for the configured axis
/// mode from `a`'s keyed pixels, then apply it to `b`.
pub fn unsort_images(
    a: &Raster,
    b: &Raster,
    key: SortKey,
    by: SortBy,
    row_order: SortOrder,
    col_order: SortOrder,
) -> (out: Raster)
    requires
        a.wf(),
        b.wf(),
        b.width == a.width,
        b.height == a.height,
        a.width <= 0x7fff_ffff_ffff_ffffi64,
        a.height <= 0x7fff_ffff_ffff_ffffi64,
        a.width * a.height <= usize::MAX,
    ensures
        out.wf(),
        out.width == a.width,
        out.height == a.height,
        forall|x: int, y: int|
            0 <= x < a.width && 0 <= y < a.height ==> #[trigger] out.at(x, y) == b.at(
                unsort_entry(*a, key, by, row_order, col_order, x, y).0 as int,
                unsort_entry(*a, key, by, row_order, col_order, x, y).1 as int,
            ),
{
    let w = a.width;
    let h = a.height;
    let px_map: ImgGrid = match by {
        SortBy::Row => {
            let pm = pixel_map_row(a, key, row_order, None);
            proof {
                assert forall|x: int, y: int| 0 <= x < w && 0 <= y < h implies (#[trigger] pm.at(
                    x,
                    y,
                )).0 < w && pm.at(x, y).1 < h && pm.at(x, y) == unsort_entry(
                    *a,
                    key,
                    by,
                    row_order,
                    col_order,
                    x,
                    y,
                ) by {
                    lemma_map_row_pass_bounds(
                        *a,
                        key,
                        row_order,
                        identity_row(w as int, y),
                        y as usize,
                    );
                    assert(pm.at(x, y) == row_seq(pm, y)[x]);
                }
            }
            pm
        },
        SortBy::Column => {
            let pm = pixel_map_column(a, key, col_order, None);
            proof {
                assert forall|x: int, y: int| 0 <= x < w && 0 <= y < h implies (#[trigger] pm.at(
                    x,
                    y,
                )).0 < w && pm.at(x, y).1 < h && pm.at(x, y) == unsort_entry(
                    *a,
                    key,
                    by,
                    row_order,
                    col_order,
                    x,
                    y,
                ) by {
                    lemma_map_col_pass_bounds(
                        *a,
                        key,
                        col_order,
                        identity_col(h as int, x),
                        x as usize,
                    );
                    assert(pm.at(x, y) == col_seq(pm, x)[y]);
                }
            }
            pm
        },
        SortBy::RowCol => {
            let pm = pixel_map_row(a, key, row_order, None);
            proof {
                assert forall|x: int, y: int| 0 <= x < w && 0 <= y < h implies (#[trigger] pm.at(
                    x,
                    y,
                )).0 < w && pm.at(x, y).1 < h by {
                    lemma_map_row_pass_bounds(
                        *a,
                        key,
                        row_order,
                        identity_row(w as int, y),
                        y as usize,
                    );
                    assert(pm.at(x, y) == row_seq(pm, y)[x]);
                }
            }
            let pm2 = pixel_map_column(a, key, col_order, Some(pm));
            proof {
                assert forall|x: int, y: int| 0 <= x < w && 0 <= y < h implies (#[trigger] pm2.at(
                    x,
                    y,
                )).0 < w && pm2.at(x, y).1 < h && pm2.at(x, y) == unsort_entry(
                    *a,
                    key,
                    by,
                    row_order,
                    col_order,
                    x,
                    y,
                ) by {
                    assert forall|j: int| 0 <= j < h implies #[trigger] col_seq(pm, x)[j]
                        == row_pass_col(*a, key, row_order, x)[j] by {
                        assert(pm.at(x, j) == row_seq(pm, j)[x]);
                    }
                    assert(col_seq(pm, x) =~= row_pass_col(*a, key, row_order, x));
                    lemma_map_col_pass_bounds(
                        *a,
                        key,
                        col_order,
                        row_pass_col(*a, key, row_order, x),
                        x as usize,
                    );
                    assert(pm2.at(x, y) == col_seq(pm2, x)[y]);
                }
            }
            pm2
        },
        SortBy::ColRow => {
            let pm = pixel_map_column(a, key, col_order, None);
            proof {
                assert forall|x: int, y: int| 0 <= x < w && 0 <= y < h implies (#[trigger] pm.at(
                    x,
                    y,
                )).0 < w && pm.at(x, y).1 < h by {
                    lemma_map_col_pass_bounds(
                        *a,
                        key,
                        col_order,
                        identity_col(h as int, x),
                        x as usize,
                    );
                    assert(pm.at(x, y) == col_seq(pm, x)[y]);
                }
            }
            let pm2 = pixel_map_row(a, key, row_order, Some(pm));
            proof {
                assert forall|x: int, y: int| 0 <= x < w && 0 <= y < h implies (#[trigger] pm2.at(
                    x,
                    y,
                )).0 < w && pm2.at(x, y).1 < h && pm2.at(x, y) == unsort_entry(
                    *a,
                    key,
                    by,
                    row_order,
                    col_order,
                    x,
                    y,
                ) by {
                    assert forall|i: int| 0 <= i < w implies #[trigger] row_seq(pm, y)[i]
                        == col_pass_row(*a, key, col_order, y)[i] by {
                        assert(pm.at(i, y) == col_seq(pm, i)[y]);
                    }
                    assert(row_seq(pm, y) =~= col_pass_row(*a, key, col_order, y));
                    lemma_map_row_pass_bounds(
                        *a,
                        key,
                        row_order,
                        col_pass_row(*a, key, col_order, y),
                        y as usize,
                    );
                    assert(pm2.at(x, y) == row_seq(pm2, y)[x]);
                }
            }
            pm2
        },
    };
    pixel_unsort(b, &px_map)
}


/// The transposed round trip: sort each column's pixels by any key in any
/// order, and build the position grid of a fresh column pass over the
/// same image. The grid entry at `(x, y)` stays in column `x`, stays in
/// range, and points at the rank where the pixel of `(x, y)` landed, so
/// applying the grid to the column-sorted image restores the original.
pub proof fn lemma_unsort_inverts_col_sort(
    img: Raster,
    key: SortKey,
    order: SortOrder,
    x: int,
    y: int,
)
    requires
        img.wf(),
        img.height <= 0x7fff_ffff_ffff_ffffi64,
        0 <= x < img.width,
        0 <= y < img.height,
    ensures
        ({
            let gcol = map_col_pass(img, key, order, identity_col(img.height as int, x), x as usize);
            gcol[y].0 == x && gcol[y].1 < img.height && sorted_col_pixels(img, key, order, x)[(
            gcol[y].1) as int] == img.at(x, y)
        }),
{
    let h = img.height as int;
    let line = identity_col(h, x);
    let keys = entry_key_seq(img, key, order, line);
    lemma_sort_perm_props(keys);
    let sigma = sort_perm(keys);
    let scol = sorted_entries(img, key, order, line);
    assert forall|j: int| 0 <= j < h implies #[trigger] scol[j] == (
        x as usize,
        sigma[j],
    ) by {
        assert(line[sigma[j] as int] == (x as usize, sigma[j] as int as usize));
    }
    let xs = row_key_seq(scol);
    assert forall|j: int| 0 <= j < h implies #[trigger] xs[j] == sigma[j] as i64 by {}
    assert forall|t1: int, t2: int| 0 <= t1 < t2 < xs.len() implies #[trigger] xs[t1]
        != #[trigger] xs[t2] by {
        if sigma[t1] == sigma[t2] {
            assert(keys[sigma[t1] as int] == keys[sigma[t2] as int]);
        }
    }
    lemma_sort_perm_inverse(xs);
    lemma_sort_perm_props(xs);
    let tau = sort_perm(xs);
    let gcol = map_col_pass(img, key, order, line, x as usize);
    assert(gcol[y] == (x as usize, tau[y]));
    assert(xs[tau[y] as int] == y);
    assert(sigma[tau[y] as int] as int == y);
    assert(sorted_col_pixels(img, key, order, x)[tau[y] as int] == img.at(
        scol[tau[y] as int].0 as int,
        scol[tau[y] as int].1 as int,
    ));
}

} // verus!
