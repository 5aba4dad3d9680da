use crate::chunking::chunk::{lemma_chunk_pos_ordered, ChunkPos};
use std::collections::BTreeSet;
use vstd::prelude::*;

verus! {

broadcast use vstd::laws_cmp::group_laws_cmp, vstd::std_specs::btree::group_btree_axioms;

/// Vertical offset of the `t`-th chunk of a column: 0, -1, 1, -2, 2, ...
pub open spec fn column_y(t: int) -> int {
    if t % 2 == 0 {
        t / 2
    } else {
        -((t + 1) / 2)
    }
}

/// Whether cell (x, z) lies on the square ring of radius `r`.
pub open spec fn on_ring(r: int, x: int, z: int) -> bool {
    x == -r || x == r || z == -r || z == r
}

/// The column of chunk positions above and below cell (x, z) around
/// `center`, nearest first: 2 * radius + 1 positions.
pub open spec fn column(center: ChunkPos, radius: int, x: int, z: int) -> Seq<ChunkPos> {
    Seq::new(
        (2 * radius + 1) as nat,
        |t: int| ((center.0 + x) as i64, (center.1 + column_y(t)) as i64, (center.2 + z) as i64),
    )
}

/// Columns of the first `k` cells of row x of the ring of radius `r`.
pub open spec fn ring_row(center: ChunkPos, radius: int, r: int, x: int, k: nat) -> Seq<ChunkPos>
    decreases k,
{
    if k == 0 {
        Seq::empty()
    } else {
        let z = -r + k - 1;
        ring_row(center, radius, r, x, (k - 1) as nat) + if on_ring(r, x, z) {
            column(center, radius, x, z)
        } else {
            Seq::empty()
        }
    }
}

/// Columns of the first `k` rows of the ring of radius `r`.
pub open spec fn ring(center: ChunkPos, radius: int, r: int, k: nat) -> Seq<ChunkPos>
    decreases k,
{
    if k == 0 {
        Seq::empty()
    } else {
        ring(center, radius, r, (k - 1) as nat) + ring_row(center, radius, r, -r + k - 1, (2 * r + 1) as nat)
    }
}

/// Columns of the rings of radius 0 up to `n - 1`.
pub open spec fn shells(center: ChunkPos, radius: int, n: nat) -> Seq<ChunkPos>
    decreases n,
{
    if n == 0 {
        Seq::empty()
    } else {
        shells(center, radius, (n - 1) as nat) + ring(center, radius, n - 1, (2 * (n - 1) + 1) as nat)
    }
}

/// Every chunk position that loading around `center` with the given radius
/// visits, in visiting order: ring by ring outwards, row by row, and in
/// each column from the centre's height outwards.
pub open spec fn candidates(center: ChunkPos, radius: int) -> Seq<ChunkPos> {
    if radius <= 0 {
        Seq::empty()
    } else {
        shells(center, radius, radius as nat)
    }
}

/// The radius and centre for which every visited position fits in `i64`.
pub open spec fn positions_fit(center: ChunkPos, radius: int) -> bool {
    &&& radius <= i64::MAX / 2 - 1
    &&& i64::MIN + radius <= center.0 && center.0 <= i64::MAX - radius
    &&& i64::MIN + radius <= center.1 && center.1 <= i64::MAX - radius
    &&& i64::MIN + radius <= center.2 && center.2 <= i64::MAX - radius
}

/// Whether `p` lies within loading range of `center`: less than `radius`
/// chunks away along x and z, and at most `radius` chunks above or below.
pub open spec fn in_load_range(center: ChunkPos, radius: int, p: ChunkPos) -> bool {
    &&& -radius < p.0 - center.0 < radius
    &&& -radius < p.2 - center.2 < radius
    &&& -radius <= p.1 - center.1 <= radius
}

/// An element of either part is an element of a concatenation.
proof fn lemma_contains_concat(a: Seq<ChunkPos>, b: Seq<ChunkPos>, p: ChunkPos)
    requires
        a.contains(p) || b.contains(p),
    ensures
        (a + b).contains(p),
{
    if a.contains(p) {
        let k = choose|k: int| 0 <= k < a.len() && a[k] == p;
        assert((a + b)[k] == p);
    } else {
        let k = choose|k: int| 0 <= k < b.len() && b[k] == p;
        assert((a + b)[a.len() + k] == p);
    }
}

/// The column of a cell holds exactly the positions above and below it
/// within `radius`.
proof fn lemma_column(center: ChunkPos, radius: int, x: int, z: int)
    requires
        positions_fit(center, radius),
        radius >= 0,
        -radius <= x <= radius,
        -radius <= z <= radius,
    ensures
        forall|j: int|
            0 <= j < column(center, radius, x, z).len() ==> {
                let p = #[trigger] column(center, radius, x, z)[j];
                &&& p.0 == center.0 + x
                &&& p.2 == center.2 + z
                &&& -radius <= p.1 - center.1 <= radius
            },
        forall|dy: int|
            -radius <= dy <= radius ==> #[trigger] column(center, radius, x, z).contains(
                ((center.0 + x) as i64, (center.1 + dy) as i64, (center.2 + z) as i64),
            ),
{
    let col = column(center, radius, x, z);
    assert forall|dy: int| -radius <= dy <= radius implies #[trigger] col.contains(
        ((center.0 + x) as i64, (center.1 + dy) as i64, (center.2 + z) as i64),
    ) by {
        let t = if dy >= 0 { 2 * dy } else { -2 * dy - 1 };
        assert(column_y(t) == dy);
        assert(col[t] == ((center.0 + x) as i64, (center.1 + dy) as i64, (center.2 + z) as i64));
    }
}

/// The first `k` cells of row x of ring r lie on that row, from z = -r on.
proof fn lemma_ring_row(center: ChunkPos, radius: int, r: int, x: int, k: nat)
    requires
        positions_fit(center, radius),
        0 <= r < radius,
        -r <= x <= r,
        k <= 2 * r + 1,
    ensures
        forall|j: int|
            0 <= j < ring_row(center, radius, r, x, k).len() ==> {
                let p = #[trigger] ring_row(center, radius, r, x, k)[j];
                &&& p.0 == center.0 + x
                &&& -r <= p.2 - center.2 < -r + k
                &&& -radius <= p.1 - center.1 <= radius
            },
        forall|z: int, dy: int|
            -r <= z < -r + k && on_ring(r, x, z) && -radius <= dy <= radius ==> #[trigger] ring_row(
                center,
                radius,
                r,
                x,
                k,
            ).contains(((center.0 + x) as i64, (center.1 + dy) as i64, (center.2 + z) as i64)),
    decreases k,
{
    if k > 0 {
        lemma_ring_row(center, radius, r, x, (k - 1) as nat);
        let z0 = -r + k - 1;
        let prev = ring_row(center, radius, r, x, (k - 1) as nat);
        let tail = if on_ring(r, x, z0) {
            column(center, radius, x, z0)
        } else {
            Seq::empty()
        };
        lemma_column(center, radius, x, z0);
        let all = ring_row(center, radius, r, x, k);
        assert(all == prev + tail);
        assert forall|j: int| 0 <= j < all.len() implies {
            let p = #[trigger] all[j];
            &&& p.0 == center.0 + x
            &&& -r <= p.2 - center.2 < -r + k
            &&& -radius <= p.1 - center.1 <= radius
        } by {
            if j < prev.len() {
                assert(all[j] == prev[j]);
            } else {
                assert(all[j] == tail[j - prev.len()]);
            }
        }
        assert forall|z: int, dy: int|
            -r <= z < -r + k && on_ring(r, x, z) && -radius <= dy <= radius implies #[trigger] all.contains(
            ((center.0 + x) as i64, (center.1 + dy) as i64, (center.2 + z) as i64),
        ) by {
            let p = ((center.0 + x) as i64, (center.1 + dy) as i64, (center.2 + z) as i64);
            if z < z0 {
                assert(prev.contains(p));
            } else {
                assert(tail.contains(p));
            }
            lemma_contains_concat(prev, tail, p);
        }
    }
}

/// The first `k` rows of ring r lie from x = -r on.
proof fn lemma_ring(center: ChunkPos, radius: int, r: int, k: nat)
    requires
        positions_fit(center, radius),
        0 <= r < radius,
        k <= 2 * r + 1,
    ensures
        forall|j: int|
            0 <= j < ring(center, radius, r, k).len() ==> {
                let p = #[trigger] ring(center, radius, r, k)[j];
                &&& -r <= p.0 - center.0 < -r + k
                &&& -r <= p.2 - center.2 <= r
                &&& -radius <= p.1 - center.1 <= radius
            },
        forall|x: int, z: int, dy: int|
            -r <= x < -r + k && -r <= z <= r && on_ring(r, x, z) && -radius <= dy <= radius
                ==> #[trigger] ring(center, radius, r, k).contains(
                ((center.0 + x) as i64, (center.1 + dy) as i64, (center.2 + z) as i64),
            ),
    decreases k,
{
    if k > 0 {
        lemma_ring(center, radius, r, (k - 1) as nat);
        let x0 = -r + k - 1;
        let prev = ring(center, radius, r, (k - 1) as nat);
        let tail = ring_row(center, radius, r, x0, (2 * r + 1) as nat);
        lemma_ring_row(center, radius, r, x0, (2 * r + 1) as nat);
        let all = ring(center, radius, r, k);
        assert(all == prev + tail);
        assert forall|j: int| 0 <= j < all.len() implies {
            let p = #[trigger] all[j];
            &&& -r <= p.0 - center.0 < -r + k
            &&& -r <= p.2 - center.2 <= r
            &&& -radius <= p.1 - center.1 <= radius
        } by {
            if j < prev.len() {
                assert(all[j] == prev[j]);
            } else {
                assert(all[j] == tail[j - prev.len()]);
            }
        }
        assert forall|x: int, z: int, dy: int|
            -r <= x < -r + k && -r <= z <= r && on_ring(r, x, z) && -radius <= dy <= radius
                implies #[trigger] all.contains(
            ((center.0 + x) as i64, (center.1 + dy) as i64, (center.2 + z) as i64),
        ) by {
            let p = ((center.0 + x) as i64, (center.1 + dy) as i64, (center.2 + z) as i64);
            if x < x0 {
                assert(prev.contains(p));
            } else {
                assert(tail.contains(p));
            }
            lemma_contains_concat(prev, tail, p);
        }
    }
}

/// The rings of radius below `n` lie less than `n` away along x and z.
proof fn lemma_shells(center: ChunkPos, radius: int, n: nat)
    requires
        positions_fit(center, radius),
        n <= radius,
    ensures
        forall|j: int|
            0 <= j < shells(center, radius, n).len() ==> {
                let p = #[trigger] shells(center, radius, n)[j];
                &&& -n < p.0 - center.0 < n
                &&& -n < p.2 - center.2 < n
                &&& -radius <= p.1 - center.1 <= radius
            },
        forall|x: int, z: int, dy: int|
            -n < x < n && -n < z < n && -radius <= dy <= radius ==> #[trigger] shells(
                center,
                radius,
                n,
            ).contains(((center.0 + x) as i64, (center.1 + dy) as i64, (center.2 + z) as i64)),
    decreases n,
{
    if n > 0 {
        let r = n - 1;
        lemma_shells(center, radius, r as nat);
        let prev = shells(center, radius, r as nat);
        let tail = ring(center, radius, r, (2 * r + 1) as nat);
        lemma_ring(center, radius, r, (2 * r + 1) as nat);
        let all = shells(center, radius, n);
        assert(all == prev + tail);
        assert forall|j: int| 0 <= j < all.len() implies {
            let p = #[trigger] all[j];
            &&& -n < p.0 - center.0 < n
            &&& -n < p.2 - center.2 < n
            &&& -radius <= p.1 - center.1 <= radius
        } by {
            if j < prev.len() {
                assert(all[j] == prev[j]);
            } else {
                assert(all[j] == tail[j - prev.len()]);
            }
        }
        assert forall|x: int, z: int, dy: int|
            -n < x < n && -n < z < n && -radius <= dy <= radius implies #[trigger] all.contains(
            ((center.0 + x) as i64, (center.1 + dy) as i64, (center.2 + z) as i64),
        ) by {
            let p = ((center.0 + x) as i64, (center.1 + dy) as i64, (center.2 + z) as i64);
            if -r < x < r && -r < z < r {
                assert(prev.contains(p));
            } else {
                assert(on_ring(r, x, z));
                assert(tail.contains(p));
            }
            lemma_contains_concat(prev, tail, p);
        }
    }
}

/// Loading around `center` visits exactly the positions within loading
/// range.
pub proof fn lemma_candidates_in_range(center: ChunkPos, radius: int)
    requires
        positions_fit(center, radius),
    ensures
        forall|p: ChunkPos|
            #[trigger] candidates(center, radius).contains(p) <==> radius > 0 && in_load_range(center, radius, p),
{
    assert forall|p: ChunkPos| #[trigger] candidates(center, radius).contains(p) <==> radius > 0 && in_load_range(center, radius, p) by {
        if radius > 0 {
            lemma_shells(center, radius, radius as nat);
            if candidates(center, radius).contains(p) {
                let j = choose|j: int| 0 <= j < candidates(center, radius).len() && candidates(center, radius)[j] == p;
                assert(candidates(center, radius)[j] == p);
            }
            if in_load_range(center, radius, p) {
                let x = p.0 - center.0;
                let z = p.2 - center.2;
                let dy = p.1 - center.1;
                assert(((center.0 + x) as i64, (center.1 + dy) as i64, (center.2 + z) as i64) == p);
            }
        }
    }
}

/// Every position that loading around `center` visits, in visiting order.
pub fn candidate_positions(center: ChunkPos, load_radius: i64) -> (r: Vec<ChunkPos>)
    requires
        positions_fit(center, load_radius as int),
    ensures
        r@ == candidates(center, load_radius as int),
{
    let mut out: Vec<ChunkPos> = Vec::new();
    let mut radius: i64 = 0;
    while radius < load_radius
        invariant
            positions_fit(center, load_radius as int),
            0 <= radius,
            radius < load_radius ==> out@ == shells(center, load_radius as int, radius as nat),
            radius >= load_radius ==> out@ == candidates(center, load_radius as int),
        decreases load_radius - radius,
    {
        let ghost before_ring = out@;
        let mut x: i64 = -radius;
        while x <= radius
            invariant
                positions_fit(center, load_radius as int),
                0 <= radius < load_radius,
                -radius <= x <= radius + 1,
                before_ring == shells(center, load_radius as int, radius as nat),
                out@ == before_ring + ring(center, load_radius as int, radius as int, (x + radius) as nat),
            decreases radius + 1 - x,
        {
            let ghost before_row = out@;
            let mut z: i64 = -radius;
            while z <= radius
                invariant
                    positions_fit(center, load_radius as int),
                    0 <= radius < load_radius,
                    -radius <= x <= radius,
                    -radius <= z <= radius + 1,
                    before_row == before_ring + ring(center, load_radius as int, radius as int, (x + radius) as nat),
                    out@ == before_row + ring_row(center, load_radius as int, radius as int, x as int, (z + radius) as nat),
                decreases radius + 1 - z,
            {
                let ghost before_column = out@;
                if !(x != -radius && x != radius && z != -radius && z != radius) {
                    let mut t: i64 = 0;
                    while t <= 2 * load_radius
                        invariant
                            positions_fit(center, load_radius as int),
                            0 <= radius < load_radius,
                            -radius <= x <= radius,
                            -radius <= z <= radius,
                            0 <= t <= 2 * load_radius + 1,
                            out@ == before_column + column(center, load_radius as int, x as int, z as int).take(t as int),
                        decreases 2 * load_radius + 1 - t,
                    {
                        let y = if t % 2 == 0 {
                            t / 2
                        } else {
                            -((t + 1) / 2)
                        };
                        let pos = (center.0 + x, center.1 + y, center.2 + z);
                        out.push(pos);
                        assert(column(center, load_radius as int, x as int, z as int).take(t + 1)
                            =~= column(center, load_radius as int, x as int, z as int).take(t as int).push(pos));
                        t += 1;
                    }
                    assert(column(center, load_radius as int, x as int, z as int).take(2 * load_radius + 1)
                        =~= column(center, load_radius as int, x as int, z as int));
                }
                assert(out@ =~= before_row + ring_row(center, load_radius as int, radius as int, x as int, (z + 1 + radius) as nat));
                z += 1;
            }
            assert(out@ =~= before_ring + ring(center, load_radius as int, radius as int, (x + 1 + radius) as nat));
            x += 1;
        }
        assert(out@ =~= shells(center, load_radius as int, (radius + 1) as nat));
        radius += 1;
    }
    out
}

} // verus!

verus! {

/// Walking `s` in order, the positions that are not yet in `generated`, at
/// most `budget` of them; each one is counted as generated from then on.
pub open spec fn schedule(s: Seq<ChunkPos>, generated: Set<ChunkPos>, budget: nat) -> Seq<ChunkPos>
    decreases s.len(),
{
    if s.len() == 0 || budget == 0 {
        Seq::empty()
    } else if generated.contains(s[0]) {
        schedule(s.drop_first(), generated, budget)
    } else {
        seq![s[0]] + schedule(s.drop_first(), generated.insert(s[0]), (budget - 1) as nat)
    }
}

/// The generated set after `schedule(s, generated, budget)`.
pub open spec fn schedule_set(s: Seq<ChunkPos>, generated: Set<ChunkPos>, budget: nat) -> Set<ChunkPos>
    decreases s.len(),
{
    if s.len() == 0 || budget == 0 {
        generated
    } else if generated.contains(s[0]) {
        schedule_set(s.drop_first(), generated, budget)
    } else {
        schedule_set(s.drop_first(), generated.insert(s[0]), (budget - 1) as nat)
    }
}

/// Scheduling hands out at most `budget` positions, each taken from `s`,
/// none of them handed out before and none twice; afterwards the handed-out
/// set is the old one together with the new positions.
pub proof fn lemma_schedule_fresh(s: Seq<ChunkPos>, generated: Set<ChunkPos>, budget: nat)
    ensures
        schedule(s, generated, budget).len() <= budget,
        forall|k: int|
            0 <= k < schedule(s, generated, budget).len() ==> !generated.contains(
                #[trigger] schedule(s, generated, budget)[k],
            ) && s.contains(schedule(s, generated, budget)[k]),
        schedule(s, generated, budget).no_duplicates(),
        forall|p: ChunkPos|
            #[trigger] schedule_set(s, generated, budget).contains(p) <==> generated.contains(p)
                || schedule(s, generated, budget).contains(p),
    decreases s.len(),
{
    if s.len() == 0 || budget == 0 {
        assert(schedule(s, generated, budget) =~= Seq::<ChunkPos>::empty());
        assert(schedule_set(s, generated, budget) == generated);
    } else if generated.contains(s[0]) {
        lemma_schedule_fresh(s.drop_first(), generated, budget);
        let r = schedule(s.drop_first(), generated, budget);
        assert(schedule(s, generated, budget) == r);
        assert(schedule_set(s, generated, budget) == schedule_set(s.drop_first(), generated, budget));
        assert forall|k: int| 0 <= k < r.len() implies s.contains(#[trigger] r[k]) by {
            let j = choose|j: int| 0 <= j < s.drop_first().len() && s.drop_first()[j] == r[k];
            assert(s[j + 1] == r[k]);
        }
    } else {
        let g2 = generated.insert(s[0]);
        lemma_schedule_fresh(s.drop_first(), g2, (budget - 1) as nat);
        let r = schedule(s.drop_first(), g2, (budget - 1) as nat);
        let t = seq![s[0]] + r;
        assert(schedule(s, generated, budget) == t);
        assert(schedule_set(s, generated, budget) == schedule_set(s.drop_first(), g2, (budget - 1) as nat));
        assert forall|k: int| 0 <= k < t.len() implies !generated.contains(#[trigger] t[k]) && s.contains(t[k]) by {
            if k == 0 {
                assert(s[0] == t[0]);
            } else {
                assert(t[k] == r[k - 1]);
                let j = choose|j: int| 0 <= j < s.drop_first().len() && s.drop_first()[j] == r[k - 1];
                assert(s[j + 1] == t[k]);
            }
        }
        assert forall|a: int, b: int| 0 <= a < t.len() && 0 <= b < t.len() && a != b implies t[a] != t[b] by {
            if a == 0 {
                assert(t[b] == r[b - 1]);
                assert(!g2.contains(r[b - 1]));
            } else if b == 0 {
                assert(t[a] == r[a - 1]);
                assert(!g2.contains(r[a - 1]));
            } else {
                assert(t[a] == r[a - 1]);
                assert(t[b] == r[b - 1]);
            }
        }
        assert forall|p: ChunkPos| #[trigger] schedule_set(s, generated, budget).contains(p) <==> generated.contains(p)
            || t.contains(p) by {
            if t.contains(p) {
                let k = choose|k: int| 0 <= k < t.len() && t[k] == p;
                if k > 0 {
                    assert(r[k - 1] == p);
                }
            }
            if r.contains(p) {
                let k = choose|k: int| 0 <= k < r.len() && r[k] == p;
                assert(t[k + 1] == p);
            }
            if p == s[0] {
                assert(t[0] == p);
            }
        }
    }
}

/// With a budget as long as the walk, every visited position ends up
/// handed out.
pub proof fn lemma_schedule_covers(s: Seq<ChunkPos>, generated: Set<ChunkPos>, budget: nat)
    requires
        budget >= s.len(),
    ensures
        forall|p: ChunkPos| s.contains(p) ==> #[trigger] schedule_set(s, generated, budget).contains(p),
        forall|p: ChunkPos| generated.contains(p) ==> #[trigger] schedule_set(s, generated, budget).contains(p),
    decreases s.len(),
{
    if s.len() > 0 {
        let rest = s.drop_first();
        let g2 = if generated.contains(s[0]) { generated } else { generated.insert(s[0]) };
        let b2: nat = if generated.contains(s[0]) { budget } else { (budget - 1) as nat };
        lemma_schedule_covers(rest, g2, b2);
        assert(schedule_set(s, generated, budget) == schedule_set(rest, g2, b2));
        assert forall|p: ChunkPos| s.contains(p) implies #[trigger] schedule_set(s, generated, budget).contains(p) by {
            let k = choose|k: int| 0 <= k < s.len() && s[k] == p;
            if k > 0 {
                assert(rest[k - 1] == p);
            } else {
                assert(g2.contains(p));
            }
        }
    }
}

/// The jobs of one call lie within loading range of the centre, were not
/// handed out before, come once each and number at most the budget; after
/// the call the handed-out set is the old one with the jobs added. A budget
/// as large as the number of visited positions hands out everything in
/// range.
pub proof fn lemma_generate_chunks_jobs(center: ChunkPos, radius: int, generated: Set<ChunkPos>, num: nat)
    requires
        positions_fit(center, radius),
    ensures
        ({
            let jobs = schedule(candidates(center, radius), generated, num);
            let after = schedule_set(candidates(center, radius), generated, num);
            &&& jobs.len() <= num
            &&& jobs.no_duplicates()
            &&& forall|k: int|
                0 <= k < jobs.len() ==> in_load_range(center, radius, #[trigger] jobs[k]) && !generated.contains(jobs[k])
            &&& forall|p: ChunkPos| #[trigger] after.contains(p) <==> generated.contains(p) || jobs.contains(p)
            &&& num >= candidates(center, radius).len() ==> forall|p: ChunkPos|
                radius > 0 && in_load_range(center, radius, p) ==> #[trigger] after.contains(p)
        }),
{
    let cands = candidates(center, radius);
    lemma_schedule_fresh(cands, generated, num);
    lemma_candidates_in_range(center, radius);
    let jobs = schedule(cands, generated, num);
    assert forall|k: int| 0 <= k < jobs.len() implies in_load_range(center, radius, #[trigger] jobs[k]) by {
        assert(cands.contains(jobs[k]));
    }
    if num >= cands.len() {
        lemma_schedule_covers(cands, generated, num);
        assert forall|p: ChunkPos| radius > 0 && in_load_range(center, radius, p) implies #[trigger] schedule_set(cands, generated, num).contains(p) by {
            assert(cands.contains(p));
        }
    }
}

/// A request to generate the chunk at `pos`.
#[derive(Clone, Copy, PartialEq, Eq, Debug)]
pub struct ChunkJob {
    pub pos: ChunkPos,
}

/// Decides which chunks to generate next around the player: remembers every
/// position already handed out, and hands out new ones ring by ring.
pub struct WorldGenerator {
    pub load_radius: i64,
    pub generated_chunks: BTreeSet<ChunkPos>,
}

impl WorldGenerator {
    /// A generator that has handed out nothing yet.
    pub fn new(load_radius: i64) -> (g: Self)
        ensures
            g.load_radius == load_radius,
            g.generated_chunks@ == Set::<ChunkPos>::empty(),
    {
        Self { load_radius, generated_chunks: BTreeSet::new() }
    }

    /// The next chunks to generate around `center_chunk`: the first `num`
    /// positions, in the order of `candidates`, that were not handed out
    /// before; they count as handed out from now on. With `num == 0` every
    /// visited position must already have been handed out.
    pub fn generate_chunks(&mut self, center_chunk: ChunkPos, num: u32) -> (jobs: Vec<ChunkJob>)
        requires
            positions_fit(center_chunk, old(self).load_radius as int),
            num == 0 ==> forall|k: int|
                0 <= k < candidates(center_chunk, old(self).load_radius as int).len()
                    ==> old(self).generated_chunks@.contains(
                    #[trigger] candidates(center_chunk, old(self).load_radius as int)[k],
                ),
        ensures
            final(self).load_radius == old(self).load_radius,
            jobs@.len() == schedule(
                candidates(center_chunk, old(self).load_radius as int),
                old(self).generated_chunks@,
                num as nat,
            ).len(),
            forall|k: int|
                0 <= k < jobs@.len() ==> (#[trigger] jobs@[k]).pos == schedule(
                    candidates(center_chunk, old(self).load_radius as int),
                    old(self).generated_chunks@,
                    num as nat,
                )[k],
            final(self).generated_chunks@ == schedule_set(
                candidates(center_chunk, old(self).load_radius as int),
                old(self).generated_chunks@,
                num as nat,
            ),
    {
        let ghost cands = candidates(center_chunk, self.load_radius as int);
        let ghost g0 = self.generated_chunks@;
        let positions = candidate_positions(center_chunk, self.load_radius);
        let mut jobs: Vec<ChunkJob> = Vec::new();
        let ghost mut picked: Seq<ChunkPos> = Seq::empty();
        let mut remaining = num;
        let mut i: usize = 0;
        assert(cands.subrange(0, cands.len() as int) =~= cands);
        assert(picked + schedule(cands, g0, num as nat) =~= schedule(cands, g0, num as nat));
        while i < positions.len() && remaining > 0
            invariant
                self.load_radius == old(self).load_radius,
                positions@ == cands,
                0 <= i <= positions@.len(),
                jobs@.len() == picked.len(),
                forall|k: int| 0 <= k < jobs@.len() ==> (#[trigger] jobs@[k]).pos == picked[k],
                picked + schedule(cands.subrange(i as int, cands.len() as int), self.generated_chunks@, remaining as nat)
                    == schedule(cands, g0, num as nat),
                schedule_set(cands.subrange(i as int, cands.len() as int), self.generated_chunks@, remaining as nat)
                    == schedule_set(cands, g0, num as nat),
            decreases positions@.len() - i,
        {
            let pos = positions[i];
            let ghost rest = cands.subrange(i as int, cands.len() as int);
            assert(rest.drop_first() =~= cands.subrange(i + 1, cands.len() as int));
            assert(rest[0] == pos);
            let ghost g_before = self.generated_chunks@;
            proof {
                lemma_chunk_pos_ordered();
            }
            let ghost r_before = remaining as nat;
            assert(schedule(rest, g_before, r_before) == if g_before.contains(pos) {
                schedule(rest.drop_first(), g_before, r_before)
            } else {
                seq![pos] + schedule(rest.drop_first(), g_before.insert(pos), (r_before - 1) as nat)
            });
            assert(schedule_set(rest, g_before, r_before) == if g_before.contains(pos) {
                schedule_set(rest.drop_first(), g_before, r_before)
            } else {
                schedule_set(rest.drop_first(), g_before.insert(pos), (r_before - 1) as nat)
            });
            if self.generated_chunks.insert(pos) {
                jobs.push(ChunkJob { pos });
                proof {
                    assert(picked.push(pos) + schedule(rest.drop_first(), self.generated_chunks@, (remaining - 1) as nat)
                        =~= picked + (seq![pos] + schedule(rest.drop_first(), self.generated_chunks@, (remaining - 1) as nat)));
                    picked = picked.push(pos);
                }
                remaining -= 1;
            } else {
                assert(g_before.insert(pos) =~= g_before);
            }
            assert(picked + schedule(cands.subrange(i + 1, cands.len() as int), self.generated_chunks@, remaining as nat)
                    == schedule(cands, g0, num as nat));
            i += 1;
        }
        proof {
            let rest = cands.subrange(i as int, cands.len() as int);
            assert(picked + schedule(rest, self.generated_chunks@, remaining as nat) =~= picked);
        }
        jobs
    }
}

} // verus!
