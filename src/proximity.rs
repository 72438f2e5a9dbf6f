//! Brute-force nearest-neighbour search over the particles' positions.

use vstd::prelude::*;

use crate::particle::{all_valid, Node, Position, COORD_LIMIT};

verus! {

/// Squared Euclidean distance.
pub open spec fn sq_dist(a: Position, b: Position) -> int {
    (a.x - b.x) * (a.x - b.x) + (a.y - b.y) * (a.y - b.y)
}

/// Seen from particle `i`, particle `a` comes before particle `b`: it is
/// closer, or as close and of lower index. This is a total order on indices.
pub open spec fn before(nodes: Seq<Node>, i: int, a: int, b: int) -> bool {
    let da = sq_dist(nodes[i].pos, nodes[a].pos);
    let db = sq_dist(nodes[i].pos, nodes[b].pos);
    da < db || (da == db && a < b)
}

/// `row` lists the `k` particles other than `i` that come first in the order
/// seen from `i`, in that order.
pub open spec fn is_row(nodes: Seq<Node>, k: int, i: int, row: Seq<usize>) -> bool {
    &&& row.len() == k
    &&& forall|p: int| 0 <= p < row.len() ==> #[trigger] row[p] < nodes.len() && row[p] != i
    &&& forall|p: int, q: int|
        0 <= p < q < row.len() ==> before(nodes, i, #[trigger] row[p] as int, #[trigger] row[q] as int)
    &&& forall|j: int, p: int|
        0 <= j < nodes.len() && j != i && !row.contains(j as usize) && 0 <= p < row.len()
            ==> #[trigger] before(nodes, i, row[p] as int, j)
}

/// `rows[i]` is the neighbour row of each particle `i`.
pub open spec fn is_table(nodes: Seq<Node>, k: int, rows: Seq<Seq<usize>>) -> bool {
    &&& rows.len() == nodes.len()
    &&& forall|i: int| 0 <= i < nodes.len() ==> is_row(nodes, k, i, #[trigger] rows[i])
}

/// The squared distance between two valid positions, exactly.
pub fn squared_distance(a: &Position, b: &Position) -> (r: i128)
    requires
        a.valid(),
        b.valid(),
    ensures
        r == sq_dist(*a, *b),
{
    let dx: i128 = (a.x as i128) - (b.x as i128);
    let dy: i128 = (a.y as i128) - (b.y as i128);
    proof {
        lemma_square_fits(dx as int);
        lemma_square_fits(dy as int);
    }
    dx * dx + dy * dy
}

proof fn lemma_square_fits(d: int)
    requires
        -2 * COORD_LIMIT <= d <= 2 * COORD_LIMIT,
    ensures
        0 <= d * d <= 0x3fff_ffff_ffff_ffff_ffff_ffff_ffff_ffff,
{
    assert(0 <= d * d <= 0x3fff_ffff_ffff_ffff_ffff_ffff_ffff_ffff) by (nonlinear_arith)
        requires
            -0x7fff_ffff_ffff_fffe <= d <= 0x7fff_ffff_ffff_fffe,
    ;
}

/// `row` is ordered as seen from `i`, and `dists` holds the squared distance
/// of each of its entries.
spec fn ranked(s: Seq<Node>, i: int, j: int, row: Seq<usize>, dists: Seq<i128>) -> bool {
    &&& row.len() == dists.len()
    &&& forall|p: int| 0 <= p < row.len() ==> #[trigger] dists[p] == sq_dist(s[i].pos, s[row[p] as int].pos)
    &&& forall|p: int| 0 <= p < row.len() ==> #[trigger] row[p] < j && row[p] != i
    &&& forall|p: int, q: int|
        0 <= p < q < row.len() ==> before(s, i, #[trigger] row[p] as int, #[trigger] row[q] as int)
}

/// Every particle below `j` that `row` leaves out comes after all of `row`,
/// which is then full.
spec fn leaves_only_farther(s: Seq<Node>, k: int, i: int, j: int, row: Seq<usize>) -> bool {
    &&& forall|l: int| 0 <= l < j && l != i && !(#[trigger] row.contains(l as usize)) ==> row.len() == k
    &&& forall|l: int, p: int|
        0 <= l < j && l != i && !row.contains(l as usize) && 0 <= p < row.len()
            ==> #[trigger] before(s, i, row[p] as int, l)
}

/// Offers particle `j`, at squared distance `d` from `i`, to a row that
/// holds the nearest of the particles below `j`.
fn offer(nodes: &Vec<Node>, k: usize, i: usize, j: usize, d: i128, row: &mut Vec<usize>, dists: &mut Vec<i128>)
    requires
        i < nodes.len(),
        j < nodes.len(),
        j != i,
        d == sq_dist(nodes@[i as int].pos, nodes@[j as int].pos),
        old(row).len() <= k,
        ranked(nodes@, i as int, j as int, old(row)@, old(dists)@),
        leaves_only_farther(nodes@, k as int, i as int, j as int, old(row)@),
    ensures
        final(row).len() == if old(row).len() < k { old(row).len() + 1 } else { k as int },
        ranked(nodes@, i as int, j + 1, final(row)@, final(dists)@),
        leaves_only_farther(nodes@, k as int, i as int, j + 1, final(row)@),
{
    let ghost s = nodes@;
    let mut p: usize = 0;
    while p < row.len() && dists[p] <= d
        invariant
            p <= row.len(),
            row.len() == dists.len(),
            forall|q: int| 0 <= q < p ==> #[trigger] dists[q] <= d,
        decreases row.len() - p,
    {
        p += 1;
    }
    proof {
        assert forall|q: int| 0 <= q < p implies before(s, i as int, #[trigger] row[q] as int, j as int) by {
            assert(dists[q] <= d);
            assert(row[q] < j);
        }
        assert forall|q: int| p <= q < row.len() implies before(s, i as int, j as int, #[trigger] row[q] as int) by {
            assert(dists[p as int] > d);
            if q > p {
                assert(before(s, i as int, row[p as int] as int, row[q] as int));
            }
        }
    }
    if p < k {
        let ghost old_row = row@;
        let ghost old_dists = dists@;
        row.insert(p, j);
        dists.insert(p, d);
        let ghost new1 = row@;
        let ghost full = old_row.len() == k;
        if row.len() > k {
            row.pop();
            dists.pop();
        }
        proof {
            assert forall|q: int| 0 <= q < new1.len() implies #[trigger] new1[q] == if q < p {
                old_row[q]
            } else if q == p {
                j
            } else {
                old_row[q - 1]
            } by {}
            assert forall|q: int| 0 <= q < row.len() implies #[trigger] row[q] == new1[q] by {}
            assert forall|a: int, b: int|
                0 <= a < b < new1.len() implies before(s, i as int, #[trigger] new1[a] as int, #[trigger] new1[b] as int) by {
                if a < p && b > p {
                    assert(before(s, i as int, old_row[a] as int, old_row[b - 1] as int));
                } else if a < p && b == p {
                } else if a == p {
                } else if b < p {
                    assert(before(s, i as int, old_row[a] as int, old_row[b] as int));
                } else {
                    assert(before(s, i as int, old_row[a - 1] as int, old_row[b - 1] as int));
                }
            }
            assert forall|l: int| 0 <= l < j + 1 && l != i && !(#[trigger] row@.contains(l as usize)) implies row.len() == k by {
                if l == j {
                    assert(row[p as int] == j);
                } else if old_row.contains(l as usize) {
                    let w = choose|w: int| 0 <= w < old_row.len() && old_row[w] == l as usize;
                    let w1 = if w < p { w } else { w + 1 };
                    assert(new1[w1] == l);
                    if w1 < row.len() {
                        assert(row[w1] == l);
                    }
                }
            }
            assert forall|l: int, q: int|
                0 <= l < j + 1 && l != i && !row@.contains(l as usize) && 0 <= q < row.len()
                    implies #[trigger] before(s, i as int, row[q] as int, l) by {
                if l == j {
                    assert(row[p as int] == j);
                } else if old_row.contains(l as usize) {
                    let w = choose|w: int| 0 <= w < old_row.len() && old_row[w] == l as usize;
                    let w1 = if w < p { w } else { w + 1 };
                    assert(new1[w1] == l);
                    if w1 < row.len() {
                        assert(row[w1] == l);
                    }
                    assert(before(s, i as int, new1[q] as int, new1[w1] as int));
                } else {
                    if q < p {
                        assert(before(s, i as int, old_row[q] as int, l));
                    } else if q == p {
                        assert(before(s, i as int, old_row[p as int] as int, l));
                    } else {
                        assert(before(s, i as int, old_row[q - 1] as int, l));
                    }
                }
            }
            assert forall|q: int| 0 <= q < row.len() implies #[trigger] dists[q] == sq_dist(s[i as int].pos, s[row[q] as int].pos) by {
                if q < p {
                    assert(old_dists[q] == sq_dist(s[i as int].pos, s[old_row[q] as int].pos));
                } else if q > p {
                    assert(old_dists[q - 1] == sq_dist(s[i as int].pos, s[old_row[q - 1] as int].pos));
                }
            }
        }
    } else {
        proof {
            assert forall|l: int, q: int|
                0 <= l < j + 1 && l != i && !row@.contains(l as usize) && 0 <= q < row.len()
                    implies #[trigger] before(s, i as int, row[q] as int, l) by {
                if l == j {
                    assert(before(s, i as int, row[q] as int, j as int));
                }
            }
        }
    }
}

/// The neighbour row of particle `i`: the `k` other particles nearest to it,
/// nearest first, equal distances by lower index first.
pub fn nearest(nodes: &Vec<Node>, k: usize, i: usize) -> (row: Vec<usize>)
    requires
        k < nodes.len(),
        i < nodes.len(),
        all_valid(nodes@),
    ensures
        is_row(nodes@, k as int, i as int, row@),
{
    let n = nodes.len();
    let mut row: Vec<usize> = Vec::new();
    let mut dists: Vec<i128> = Vec::new();
    let mut j: usize = 0;
    while j < n
        invariant
            n == nodes@.len(),
            k < n,
            i < n,
            j <= n,
            all_valid(nodes@),
            row.len() == if (j - (if i < j { 1int } else { 0int })) < k {
                j - (if i < j { 1int } else { 0int })
            } else {
                k as int
            },
            ranked(nodes@, i as int, j as int, row@, dists@),
            leaves_only_farther(nodes@, k as int, i as int, j as int, row@),
        decreases n - j,
    {
        if j != i {
            let d = squared_distance(&nodes[i].pos, &nodes[j].pos);
            offer(nodes, k, i, j, d, &mut row, &mut dists);
        } else {
            assert(leaves_only_farther(nodes@, k as int, i as int, j + 1, row@));
        }
        j += 1;
    }
    row
}

/// Two rows for the same particle agree at every position below `p`.
proof fn lemma_rows_agree_below(s: Seq<Node>, k: int, i: int, r1: Seq<usize>, r2: Seq<usize>, p: int)
    requires
        is_row(s, k, i, r1),
        is_row(s, k, i, r2),
        0 <= p <= k,
    ensures
        forall|q: int| 0 <= q < p ==> #[trigger] r1[q] == r2[q],
    decreases p,
{
    if p > 0 {
        lemma_rows_agree_below(s, k, i, r1, r2, p - 1);
        let q = p - 1;
        lemma_rows_agree_at(s, k, i, r1, r2, q);
        lemma_rows_agree_at(s, k, i, r2, r1, q);
    }
}

/// Where two rows agree below `q`, the entry of `r1` at `q` cannot come
/// strictly before that of `r2`.
proof fn lemma_rows_agree_at(s: Seq<Node>, k: int, i: int, r1: Seq<usize>, r2: Seq<usize>, q: int)
    requires
        is_row(s, k, i, r1),
        is_row(s, k, i, r2),
        0 <= q < k,
        forall|w: int| 0 <= w < q ==> #[trigger] r1[w] == r2[w],
    ensures
        !(r1[q] != r2[q] && before(s, i, r1[q] as int, r2[q] as int)),
{
    let a = r1[q];
    let b = r2[q];
    if a != b && before(s, i, a as int, b as int) {
        if r2.contains(a) {
            let w = choose|w: int| 0 <= w < r2.len() && r2[w] == a;
            if w < q {
                assert(r1[w] == a);
                assert(before(s, i, r1[w] as int, r1[q] as int));
            } else {
                assert(before(s, i, r2[q] as int, r2[w] as int));
            }
        } else {
            assert(before(s, i, r2[q] as int, a as int));
        }
    }
}

/// Rebuilding twice from the same positions gives the same table: a table
/// is determined by the positions and the neighbour count alone.
pub proof fn lemma_table_unique(nodes: Seq<Node>, k: int, t1: Seq<Seq<usize>>, t2: Seq<Seq<usize>>)
    requires
        is_table(nodes, k, t1),
        is_table(nodes, k, t2),
    ensures
        t1 == t2,
{
    assert forall|i: int| 0 <= i < t1.len() implies #[trigger] t1[i] == t2[i] by {
        lemma_rows_agree_below(nodes, k, i, t1[i], t2[i], k);
        assert(t1[i] =~= t2[i]);
    }
    assert(t1 =~= t2);
}

/// The neighbour table: for each particle, the `k` other particles nearest
/// to it. It only reads positions, and is replaced whole on each rebuild.
pub struct ProximityIndex {
    k: usize,
    rows: Vec<Vec<usize>>,
}

impl ProximityIndex {
    /// Neighbours kept per particle.
    pub closed spec fn neighbors(&self) -> nat {
        self.k as nat
    }

    /// The rows of the table, as sequences of particle indices.
    pub closed spec fn table(&self) -> Seq<Seq<usize>> {
        self.rows@.map_values(|r: Vec<usize>| r@)
    }

    /// An index keeping `k` neighbours per particle, with no rows yet.
    pub fn new(k: usize) -> (r: ProximityIndex)
        ensures
            r.neighbors() == k,
            r.table() == Seq::<Seq<usize>>::empty(),
    {
        let r = ProximityIndex { k, rows: Vec::new() };
        assert(r.table() =~= Seq::<Seq<usize>>::empty());
        r
    }

    pub fn neighbor_count(&self) -> (r: usize)
        ensures
            r == self.neighbors(),
    {
        self.k
    }

    /// Number of rows: zero before the first rebuild, then one per particle.
    pub fn len(&self) -> (r: usize)
        ensures
            r == self.table().len(),
    {
        self.rows.len()
    }

    /// The neighbours of particle `i`, nearest first.
    pub fn row(&self, i: usize) -> (r: &Vec<usize>)
        requires
            i < self.table().len(),
        ensures
            r@ == self.table()[i as int],
    {
        &self.rows[i]
    }

    /// Recomputes every row from the current positions.
    pub fn rebuild(&mut self, nodes: &Vec<Node>)
        requires
            old(self).neighbors() < nodes.len(),
            all_valid(nodes@),
        ensures
            final(self).neighbors() == old(self).neighbors(),
            is_table(nodes@, final(self).neighbors() as int, final(self).table()),
    {
        let n = nodes.len();
        let mut rows: Vec<Vec<usize>> = Vec::new();
        let mut i: usize = 0;
        while i < n
            invariant
                n == nodes@.len(),
                self.k < n,
                i <= n,
                all_valid(nodes@),
                rows.len() == i,
                forall|q: int| 0 <= q < i ==> is_row(nodes@, self.k as int, q, #[trigger] rows@[q]@),
            decreases n - i,
        {
            let row = nearest(nodes, self.k, i);
            rows.push(row);
            i += 1;
        }
        self.rows = rows;
        assert(is_table(nodes@, self.k as int, self.table()));
    }
}

} // verus!
