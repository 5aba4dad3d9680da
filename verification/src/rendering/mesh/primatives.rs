use vstd::prelude::*;

verus! {

/// The six indices of the quad between latitude rows `lat - 1` and `lat`
/// and longitude columns `long - 1` and `long` of a UV sphere whose rows
/// hold `longs + 1` vertices each.
pub open spec fn sphere_quad(longs: int, lat: int, long: int) -> Seq<u32> {
    let prev = (lat - 1) * (longs + 1);
    let this = lat * (longs + 1);
    seq![
        (prev + long - 1) as u32,
        (prev + long) as u32,
        (this + long - 1) as u32,
        (prev + long) as u32,
        (this + long) as u32,
        (this + long - 1) as u32,
    ]
}

/// The quads of the first `k` columns of latitude row `lat`.
pub open spec fn sphere_row(longs: int, lat: int, k: nat) -> Seq<u32>
    decreases k,
{
    if k == 0 {
        Seq::empty()
    } else {
        sphere_row(longs, lat, (k - 1) as nat) + sphere_quad(longs, lat, k as int)
    }
}

/// The quads of latitude rows 1 to `n`.
pub open spec fn sphere_rows(longs: int, n: nat) -> Seq<u32>
    decreases n,
{
    if n == 0 {
        Seq::empty()
    } else {
        sphere_rows(longs, (n - 1) as nat) + sphere_row(longs, n as int, longs as nat)
    }
}

/// A row of `k` quads holds six indices per quad, each naming a vertex of
/// the two latitude rows it spans.
pub proof fn lemma_sphere_row(longs: int, lat: int, k: nat)
    requires
        1 <= lat,
        k <= longs,
        (lat + 1) * (longs + 1) <= u32::MAX + 1,
    ensures
        sphere_row(longs, lat, k).len() == 6 * k,
        forall|j: int|
            0 <= j < sphere_row(longs, lat, k).len() ==> (#[trigger] sphere_row(longs, lat, k)[j]) < (lat + 1) * (longs + 1),
    decreases k,
{
    if k > 0 {
        lemma_sphere_row(longs, lat, (k - 1) as nat);
        let prev = (lat - 1) * (longs + 1);
        let this = lat * (longs + 1);
        assert(prev >= 0 && this >= 0 && prev + longs + 1 == this && this + longs + 1 == (lat + 1) * (longs + 1)) by (nonlinear_arith)
            requires
                lat >= 1,
                longs >= 0,
                prev == (lat - 1) * (longs + 1),
                this == lat * (longs + 1),
        ;
        let q = sphere_quad(longs, lat, k as int);
        let r = sphere_row(longs, lat, (k - 1) as nat);
        assert forall|j: int| 0 <= j < sphere_row(longs, lat, k).len() implies (#[trigger] sphere_row(longs, lat, k)[j]) < (lat + 1) * (longs + 1) by {
            if j < r.len() {
                assert(sphere_row(longs, lat, k)[j] == r[j]);
            } else {
                assert(sphere_row(longs, lat, k)[j] == q[j - r.len()]);
            }
        }
    }
}

/// The rows 1 to `n` hold six indices per quad, each naming one of the
/// first `n + 1` latitude rows' vertices.
pub proof fn lemma_sphere_rows(longs: int, n: nat)
    requires
        longs >= 0,
        (n + 1) * (longs + 1) <= u32::MAX + 1,
    ensures
        sphere_rows(longs, n).len() == 6 * n * longs,
        forall|j: int|
            0 <= j < sphere_rows(longs, n).len() ==> (#[trigger] sphere_rows(longs, n)[j]) < (n + 1) * (longs + 1),
    decreases n,
{
    if n == 0 {
        assert(6 * n * longs == 0) by (nonlinear_arith)
            requires
                n == 0,
        ;
    } else {
        assert(n * (longs + 1) <= (n + 1) * (longs + 1)) by (nonlinear_arith)
            requires
                longs >= 0,
                n >= 0,
        ;
        lemma_sphere_rows(longs, (n - 1) as nat);
        lemma_sphere_row(longs, n as int, longs as nat);
        assert(6 * (n - 1) * longs + 6 * longs == 6 * n * longs) by (nonlinear_arith);
        let a = sphere_rows(longs, (n - 1) as nat);
        let b = sphere_row(longs, n as int, longs as nat);
        assert forall|j: int| 0 <= j < sphere_rows(longs, n).len() implies (#[trigger] sphere_rows(longs, n)[j]) < (n + 1) * (longs + 1) by {
            if j < a.len() {
                assert(sphere_rows(longs, n)[j] == a[j]);
            } else {
                assert(sphere_rows(longs, n)[j] == b[j - a.len()]);
            }
        }
    }
}

/// The triangle indices of a UV sphere with `lats` latitude bands and
/// `longs` longitude bands, whose vertices are laid out row by row, `longs
/// + 1` per row and `lats + 1` rows: two triangles per band crossing.
pub fn uv_sphere_indices(lats: usize, longs: usize) -> (indices: Vec<u32>)
    requires
        (lats + 1) * (longs + 1) <= usize::MAX,
    ensures
        indices@ == sphere_rows(longs as int, lats as nat),
        (lats + 1) * (longs + 1) <= u32::MAX + 1 ==> {
            &&& indices@.len() == 6 * lats * longs
            &&& forall|j: int| 0 <= j < indices@.len() ==> (#[trigger] indices@[j]) < (lats + 1) * (longs + 1)
        },
{
    let mut indices: Vec<u32> = Vec::new();
    let mut this_row: usize = 0;
    let mut prev_row: usize = 0;
    let mut point: usize = 0;
    let mut lat: usize = 0;
    proof {
        assert((lats + 1) * (longs + 1) >= (longs + 1)) by (nonlinear_arith)
            requires lats >= 0, longs >= 0;
        assert((lats + 1) * (longs + 1) >= (lats + 1)) by (nonlinear_arith)
            requires lats >= 0, longs >= 0;
    }
    while lat <= lats
        invariant
            (lats + 1) * (longs + 1) <= usize::MAX,
            lats + 1 <= usize::MAX,
            0 <= lat <= lats + 1,
            lat > 0 ==> prev_row + longs + 1 == this_row,
            point == lat * (longs + 1),
            this_row == lat * (longs + 1),
            lat > 0 ==> prev_row == (lat - 1) * (longs + 1),
            lat > 0 ==> indices@ == sphere_rows(longs as int, (lat - 1) as nat),
            lat == 0 ==> indices@ == Seq::<u32>::empty(),
        decreases lats + 1 - lat,
    {
        proof {
            assert((lat + 1) * (longs + 1) <= (lats + 1) * (longs + 1)) by (nonlinear_arith)
                requires lat <= lats;
            assert((lat + 1) * (longs + 1) == lat * (longs + 1) + longs + 1) by (nonlinear_arith);
        }
        let ghost row_start = indices@;
        let mut long: usize = 0;
        while long <= longs
            invariant
                (lats + 1) * (longs + 1) <= usize::MAX,
                0 <= lat <= lats,
                0 <= long <= longs + 1,
                (lat + 1) * (longs + 1) <= usize::MAX,
                (lat + 1) * (longs + 1) == lat * (longs + 1) + longs + 1,
                point == lat * (longs + 1) + long,
                this_row == lat * (longs + 1),
                lat > 0 ==> prev_row == (lat - 1) * (longs + 1),
                lat > 0 ==> prev_row + longs + 1 == this_row,
                lat > 0 && long > 0 ==> indices@ == row_start + sphere_row(longs as int, lat as int, (long - 1) as nat),
                lat == 0 || long == 0 ==> indices@ == row_start,
            decreases longs + 1 - long,
        {
            point += 1;
            if lat > 0 && long > 0 {
                indices.push((prev_row + long - 1) as u32);
                indices.push((prev_row + long) as u32);
                indices.push((this_row + long - 1) as u32);

                indices.push((prev_row + long) as u32);
                indices.push((this_row + long) as u32);
                indices.push((this_row + long - 1) as u32);
                proof {
                    let prefix = if long > 1 {
                        sphere_row(longs as int, lat as int, (long - 1) as nat)
                    } else {
                        Seq::empty()
                    };
                    assert(sphere_row(longs as int, lat as int, long as nat) == prefix + sphere_quad(longs as int, lat as int, long as int));
                    assert(indices@ =~= row_start + sphere_row(longs as int, lat as int, long as nat));
                }
            }
            long += 1;
        }
        proof {
            if lat > 0 {
                assert(indices@ =~= sphere_rows(longs as int, lat as nat));
            }
        }
        proof {
            assert((lat + 1 - 1) * (longs + 1) == lat * (longs + 1));
        }
        prev_row = this_row;
        this_row = point;
        lat += 1;
    }
    proof {
        if (lats + 1) * (longs + 1) <= u32::MAX + 1 {
            lemma_sphere_rows(longs as int, lats as nat);
        }
    }
    indices
}

} // verus!
