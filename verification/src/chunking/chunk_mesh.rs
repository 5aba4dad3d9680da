use crate::chunking::blocks::block_mesh::{face_corner, spec_face_corner};
use crate::chunking::blocks::{spec_is_solid, Block, BlockFace};
use crate::chunking::chunk::{
    all_empty, block_index, index_x, index_y, index_z, lemma_block_index, lemma_index_coords,
    Chunk, ChunkContainer, ChunkPos,
};
use crate::rendering::mesh::MeshData;
use crate::vertex::GridVertex;
use vstd::prelude::*;

verus! {

/// A visible face: the linear index of the block it belongs to, and which
/// of that block's faces it is.
pub type FaceRef = (int, BlockFace);

/// `seq![(owner, face)]` when `cond` holds, the empty sequence otherwise.
pub open spec fn opt_face(cond: bool, owner: int, face: BlockFace) -> Seq<FaceRef> {
    if cond {
        seq![(owner, face)]
    } else {
        Seq::empty()
    }
}

/// The chunk-grid position next to `pos` across the chunk's side `face`,
/// if the grid has one.
pub open spec fn neighbor_pos(pos: ChunkPos, face: BlockFace) -> Option<ChunkPos> {
    match face {
        BlockFace::Back => if pos.0 > i64::MIN { Some(((pos.0 - 1) as i64, pos.1, pos.2)) } else { None },
        BlockFace::Front => if pos.0 < i64::MAX { Some(((pos.0 + 1) as i64, pos.1, pos.2)) } else { None },
        BlockFace::Bottom => if pos.1 > i64::MIN { Some((pos.0, (pos.1 - 1) as i64, pos.2)) } else { None },
        BlockFace::Top => if pos.1 < i64::MAX { Some((pos.0, (pos.1 + 1) as i64, pos.2)) } else { None },
        BlockFace::Right => if pos.2 > i64::MIN { Some((pos.0, pos.1, (pos.2 - 1) as i64)) } else { None },
        BlockFace::Left => if pos.2 < i64::MAX { Some((pos.0, pos.1, (pos.2 + 1) as i64)) } else { None },
    }
}

/// The linear index, in the neighbouring chunk, of the block across the
/// chunk's side `face` from the border block `owner`.
pub open spec fn across_index(owner: int, face: BlockFace) -> int {
    match face {
        BlockFace::Back => owner + 31 * 1024,
        BlockFace::Front => owner - 31 * 1024,
        BlockFace::Bottom => owner + 31 * 32,
        BlockFace::Top => owner - 31 * 32,
        BlockFace::Right => owner + 31,
        BlockFace::Left => owner - 31,
    }
}

/// Whether the block across side `face` of the chunk at `pos`, next to its
/// border block `owner`, is solid. A neighbouring chunk that is not loaded
/// counts as empty.
pub open spec fn outside_solid(chunks: Map<ChunkPos, Chunk>, pos: ChunkPos, owner: int, face: BlockFace) -> bool {
    match neighbor_pos(pos, face) {
        Some(q) => chunks.contains_key(q) && spec_is_solid(chunks[q].blocks()[across_index(owner, face)]),
        None => false,
    }
}

/// The faces that the mesh builder emits at block `i` of the chunk at
/// `pos`, whose neighbouring chunks are looked up in `chunks`. A solid
/// block gets its faces towards an empty neighbour on the low x, low y and
/// low z side, and on the chunk's borders its faces towards an empty block
/// of the neighbouring chunk, on all six sides; an empty block gives the
/// faces of a solid neighbour inside the chunk on its low sides that point
/// at it.
pub open spec fn block_faces(blocks: Seq<Block>, chunks: Map<ChunkPos, Chunk>, pos: ChunkPos, i: int) -> Seq<FaceRef> {
    if spec_is_solid(blocks[i]) {
        opt_face(
            if index_x(i) > 0 { !spec_is_solid(blocks[i - 1024]) } else { !outside_solid(chunks, pos, i, BlockFace::Back) },
            i,
            BlockFace::Back,
        ) + opt_face(
            if index_y(i) > 0 { !spec_is_solid(blocks[i - 32]) } else { !outside_solid(chunks, pos, i, BlockFace::Bottom) },
            i,
            BlockFace::Bottom,
        ) + opt_face(
            if index_z(i) > 0 { !spec_is_solid(blocks[i - 1]) } else { !outside_solid(chunks, pos, i, BlockFace::Right) },
            i,
            BlockFace::Right,
        ) + opt_face(index_x(i) == 31 && !outside_solid(chunks, pos, i, BlockFace::Front), i, BlockFace::Front)
            + opt_face(index_y(i) == 31 && !outside_solid(chunks, pos, i, BlockFace::Top), i, BlockFace::Top)
            + opt_face(index_z(i) == 31 && !outside_solid(chunks, pos, i, BlockFace::Left), i, BlockFace::Left)
    } else {
        opt_face(index_x(i) > 0 && spec_is_solid(blocks[i - 1024]), i - 1024, BlockFace::Front)
            + opt_face(index_y(i) > 0 && spec_is_solid(blocks[i - 32]), i - 32, BlockFace::Top)
            + opt_face(index_z(i) > 0 && spec_is_solid(blocks[i - 1]), i - 1, BlockFace::Left)
    }
}

/// The faces emitted for the first `n` blocks, in block order.
pub open spec fn chunk_faces(blocks: Seq<Block>, chunks: Map<ChunkPos, Chunk>, pos: ChunkPos, n: int) -> Seq<FaceRef>
    decreases n,
{
    if n <= 0 {
        Seq::empty()
    } else {
        chunk_faces(blocks, chunks, pos, n - 1) + block_faces(blocks, chunks, pos, n - 1)
    }
}

/// Corner `k` of the face `f`.
pub open spec fn face_vertex(blocks: Seq<Block>, f: FaceRef, k: int) -> GridVertex {
    let c = spec_face_corner(f.1, k);
    GridVertex {
        block: (index_x(f.0) as u8, index_y(f.0) as u8, index_z(f.0) as u8),
        corner_offset: (c.0 as i8, c.1 as i8, c.2 as i8),
        corner: k as u8,
        block_type: blocks[f.0].block_type,
    }
}

/// The vertex list holds four corners per face, face after face.
pub open spec fn vertices_match(vs: Seq<GridVertex>, blocks: Seq<Block>, faces: Seq<FaceRef>) -> bool {
    &&& vs.len() == 4 * faces.len()
    &&& forall|j: int| 0 <= j < vs.len() ==> #[trigger] vs[j] == face_vertex(blocks, faces[j / 4], j % 4)
}

/// Index `j` of the index list: face `j / 6` is drawn as the two triangles
/// (0, 1, 2) and (2, 3, 0) of its corners.
pub open spec fn quad_index(j: int) -> int {
    let r = j % 6;
    4 * (j / 6) + if r == 0 || r == 5 {
        0int
    } else if r == 1 {
        1int
    } else if r == 2 || r == 3 {
        2int
    } else {
        3int
    }
}

/// The index list draws `n` faces, two triangles each.
pub open spec fn indices_match(ids: Seq<u32>, n: int) -> bool {
    &&& ids.len() == 6 * n
    &&& forall|j: int| 0 <= j < ids.len() ==> #[trigger] ids[j] == quad_index(j)
}

/// `m` is the mesh of exactly the faces `faces`.
pub open spec fn mesh_of_faces(m: MeshData<GridVertex>, blocks: Seq<Block>, faces: Seq<FaceRef>) -> bool {
    &&& vertices_match(m.vertices@, blocks, faces)
    &&& indices_match(m.indices@, faces.len() as int)
    &&& m.vertex_count == 4 * faces.len()
}

/// The four corners of face `f`.
pub open spec fn face_quad(blocks: Seq<Block>, f: FaceRef) -> Seq<GridVertex> {
    Seq::new(4, |k: int| face_vertex(blocks, f, k))
}

/// Appending a face's four corners extends a matching vertex list by that
/// face.
pub proof fn lemma_vertices_push(vs: Seq<GridVertex>, blocks: Seq<Block>, faces: Seq<FaceRef>, f: FaceRef)
    requires
        vertices_match(vs, blocks, faces),
    ensures
        vertices_match(vs + face_quad(blocks, f), blocks, faces.push(f)),
{
    let ws = vs + face_quad(blocks, f);
    let gs = faces.push(f);
    assert forall|j: int| 0 <= j < ws.len() implies #[trigger] ws[j] == face_vertex(blocks, gs[j / 4], j % 4) by {
        if j < vs.len() {
            assert(ws[j] == vs[j]);
            assert(j / 4 < faces.len());
            assert(gs[j / 4] == faces[j / 4]);
        } else {
            let k = j - vs.len();
            assert(j / 4 == faces.len());
            assert(j % 4 == k);
            assert(ws[j] == face_quad(blocks, f)[k]);
        }
    }
}

/// The corners of the faces `fs`, four per face, face after face.
pub open spec fn faces_quads(blocks: Seq<Block>, fs: Seq<FaceRef>) -> Seq<GridVertex>
    decreases fs.len(),
{
    if fs.len() == 0 {
        Seq::empty()
    } else {
        faces_quads(blocks, fs.drop_last()) + face_quad(blocks, fs.last())
    }
}

/// The corners of faces `fs` match `fs`.
pub proof fn lemma_faces_quads_match(blocks: Seq<Block>, fs: Seq<FaceRef>)
    ensures
        vertices_match(faces_quads(blocks, fs), blocks, fs),
    decreases fs.len(),
{
    if fs.len() > 0 {
        lemma_faces_quads_match(blocks, fs.drop_last());
        lemma_vertices_push(faces_quads(blocks, fs.drop_last()), blocks, fs.drop_last(), fs.last());
        assert(fs.drop_last().push(fs.last()) =~= fs);
    }
}

/// Matching vertex lists put one after the other match the faces put one
/// after the other.
pub proof fn lemma_vertices_concat(
    vs: Seq<GridVertex>,
    ws: Seq<GridVertex>,
    blocks: Seq<Block>,
    fs: Seq<FaceRef>,
    gs: Seq<FaceRef>,
)
    requires
        vertices_match(vs, blocks, fs),
        vertices_match(ws, blocks, gs),
    ensures
        vertices_match(vs + ws, blocks, fs + gs),
{
    let all = vs + ws;
    let hs = fs + gs;
    assert forall|j: int| 0 <= j < all.len() implies #[trigger] all[j] == face_vertex(blocks, hs[j / 4], j % 4) by {
        if j >= vs.len() {
            let k = j - vs.len();
            assert(all[j] == ws[k]);
            assert(k / 4 == j / 4 - fs.len());
            assert(k % 4 == j % 4);
        }
    }
}

/// The indices that draw `k` faces whose corners start at vertex `base`:
/// the two triangles (0, 1, 2) and (2, 3, 0) of each face.
pub open spec fn quad_indices(base: int, k: int) -> Seq<u32> {
    Seq::new((6 * k) as nat, |j: int| (base + quad_index(j)) as u32)
}

/// A mesh whose vertex count is its number of vertices, with two indices
/// for every three vertices, each naming one of its vertices.
pub open spec fn mesh_consistent(m: MeshData<GridVertex>) -> bool {
    &&& m.vertex_count == m.vertices@.len()
    &&& 3 * m.vertices@.len() == 2 * m.indices@.len()
    &&& forall|j: int| 0 <= j < m.indices@.len() ==> (#[trigger] m.indices@[j]) < m.vertex_count
}

/// Whether `new` is `old` with the faces `gs` appended: their corners after
/// the old vertices, and their triangles after the old indices.
pub open spec fn appends_faces(
    old: MeshData<GridVertex>,
    new: MeshData<GridVertex>,
    blocks: Seq<Block>,
    gs: Seq<FaceRef>,
) -> bool {
    &&& new.vertices@ == old.vertices@ + faces_quads(blocks, gs)
    &&& new.indices@ == old.indices@ + quad_indices(old.vertex_count as int, gs.len() as int)
    &&& new.vertex_count == old.vertex_count + 4 * gs.len()
}

/// Appending faces keeps a mesh consistent.
pub proof fn lemma_append_consistent(
    old: MeshData<GridVertex>,
    new: MeshData<GridVertex>,
    blocks: Seq<Block>,
    gs: Seq<FaceRef>,
)
    requires
        appends_faces(old, new, blocks, gs),
        mesh_consistent(old),
    ensures
        mesh_consistent(new),
{
    lemma_faces_quads_match(blocks, gs);
    let k = gs.len() as int;
    let n = old.indices@.len() as int;
    assert forall|j: int| 0 <= j < new.indices@.len() implies (#[trigger] new.indices@[j]) < new.vertex_count by {
        if j >= n {
            let r = j - n;
            assert(new.indices@[j] == quad_indices(old.vertex_count as int, k)[r]);
            assert(r / 6 < k);
        }
    }
}

/// Appending the faces `gs` to the mesh of the faces `fs` gives the mesh of
/// `fs` followed by `gs`.
pub proof fn lemma_append_faces(
    old: MeshData<GridVertex>,
    new: MeshData<GridVertex>,
    blocks: Seq<Block>,
    fs: Seq<FaceRef>,
    gs: Seq<FaceRef>,
)
    requires
        mesh_of_faces(old, blocks, fs),
        appends_faces(old, new, blocks, gs),
    ensures
        mesh_of_faces(new, blocks, fs + gs),
{
    lemma_faces_quads_match(blocks, gs);
    lemma_vertices_concat(old.vertices@, faces_quads(blocks, gs), blocks, fs, gs);
    let n = fs.len() as int;
    let ids = new.indices@;
    assert forall|j: int| 0 <= j < ids.len() implies #[trigger] ids[j] == quad_index(j) by {
        if j >= 6 * n {
            let r = j - 6 * n;
            assert(ids[j] == quad_indices(4 * n, gs.len() as int)[r]);
            assert(r / 6 == j / 6 - n);
            assert(r % 6 == j % 6);
        }
    }
}

/// A block emits at most six faces.
pub proof fn lemma_block_faces_len(blocks: Seq<Block>, chunks: Map<ChunkPos, Chunk>, pos: ChunkPos, i: int)
    ensures
        block_faces(blocks, chunks, pos, i).len() <= 6,
{
}

/// The first `n` blocks emit at most six faces each.
pub proof fn lemma_chunk_faces_len(blocks: Seq<Block>, chunks: Map<ChunkPos, Chunk>, pos: ChunkPos, n: int)
    requires
        n >= 0,
    ensures
        chunk_faces(blocks, chunks, pos, n).len() <= 6 * n,
    decreases n,
{
    if n > 0 {
        lemma_chunk_faces_len(blocks, chunks, pos, n - 1);
        lemma_block_faces_len(blocks, chunks, pos, n - 1);
    }
}

/// Every index of a face mesh names one of its vertices.
pub proof fn lemma_mesh_indices_valid(m: MeshData<GridVertex>, blocks: Seq<Block>, faces: Seq<FaceRef>)
    requires
        mesh_of_faces(m, blocks, faces),
    ensures
        forall|j: int| 0 <= j < m.indices@.len() ==> (#[trigger] m.indices@[j]) < m.vertices@.len(),
{
    assert forall|j: int| 0 <= j < m.indices@.len() implies (#[trigger] m.indices@[j]) < m.vertices@.len() by {
        assert(j / 6 < faces.len());
    }
}

/// A chunk whose blocks are all empty has no faces.
pub proof fn lemma_empty_blocks_no_faces(blocks: Seq<Block>, chunks: Map<ChunkPos, Chunk>, pos: ChunkPos, n: int)
    requires
        0 <= n <= 32768,
        blocks.len() == 32768,
        all_empty(blocks),
    ensures
        chunk_faces(blocks, chunks, pos, n).len() == 0,
    decreases n,
{
    if n > 0 {
        lemma_empty_blocks_no_faces(blocks, chunks, pos, n - 1);
        let i = n - 1;
        lemma_index_coords(i);
        assert(!spec_is_solid(blocks[i]));
        if index_x(i) > 0 {
            assert(!spec_is_solid(blocks[i - 1024]));
        }
        if index_y(i) > 0 {
            assert(!spec_is_solid(blocks[i - 32]));
        }
        if index_z(i) > 0 {
            assert(!spec_is_solid(blocks[i - 1]));
        }
    }
}

/// The block that face `face` of block `owner` looks at.
pub open spec fn face_neighbor(owner: int, face: BlockFace) -> int {
    match face {
        BlockFace::Back => owner - 1024,
        BlockFace::Front => owner + 1024,
        BlockFace::Bottom => owner - 32,
        BlockFace::Top => owner + 32,
        BlockFace::Right => owner - 1,
        BlockFace::Left => owner + 1,
    }
}

/// The outward direction of face `face` of a block.
pub open spec fn face_normal(face: BlockFace) -> (int, int, int) {
    match face {
        BlockFace::Front => (1, 0, 0),
        BlockFace::Back => (-1, 0, 0),
        BlockFace::Top => (0, 1, 0),
        BlockFace::Bottom => (0, -1, 0),
        BlockFace::Left => (0, 0, 1),
        BlockFace::Right => (0, 0, -1),
    }
}

/// The cross product of `a - o` and `b - o`.
pub open spec fn corner_cross(o: (int, int, int), a: (int, int, int), b: (int, int, int)) -> (int, int, int) {
    let u = (a.0 - o.0, a.1 - o.1, a.2 - o.2);
    let v = (b.0 - o.0, b.1 - o.1, b.2 - o.2);
    (u.1 * v.2 - u.2 * v.1, u.2 * v.0 - u.0 * v.2, u.0 * v.1 - u.1 * v.0)
}

/// Every face is the square on its side of the block, and both of its
/// triangles, (0, 1, 2) and (2, 3, 0), wind counter-clockwise seen from
/// outside: their normal points along the face's outward direction, the
/// direction of the block it looks at. Corners 0 and 2, and 1 and 3, are
/// opposite corners of the square.
pub proof fn lemma_faces_wind_outward(face: BlockFace, owner: int)
    by (nonlinear_arith)
    ensures
        ({
            let n = face_normal(face);
            let c0 = spec_face_corner(face, 0);
            let c1 = spec_face_corner(face, 1);
            let c2 = spec_face_corner(face, 2);
            let c3 = spec_face_corner(face, 3);
            &&& face_neighbor(owner, face) == owner + 1024 * n.0 + 32 * n.1 + n.2
            &&& forall|k: int|
                0 <= k < 4 ==> {
                    let c = #[trigger] spec_face_corner(face, k);
                    &&& c.0 * n.0 + c.1 * n.1 + c.2 * n.2 == 1
                    &&& -1 <= c.0 <= 1 && -1 <= c.1 <= 1 && -1 <= c.2 <= 1
                    &&& c.0 != 0 && c.1 != 0 && c.2 != 0
                }
            &&& corner_cross(c0, c1, c2) == (4 * n.0, 4 * n.1, 4 * n.2)
            &&& corner_cross(c2, c3, c0) == (4 * n.0, 4 * n.1, 4 * n.2)
            &&& c0.0 + c2.0 == 2 * n.0 && c0.1 + c2.1 == 2 * n.1 && c0.2 + c2.2 == 2 * n.2
            &&& c1.0 + c3.0 == 2 * n.0 && c1.1 + c3.1 == 2 * n.1 && c1.2 + c3.2 == 2 * n.2
        }),
{
    let n = face_normal(face);
    assert forall|k: int| 0 <= k < 4 implies {
        let c = #[trigger] spec_face_corner(face, k);
        &&& c.0 * n.0 + c.1 * n.1 + c.2 * n.2 == 1
        &&& -1 <= c.0 <= 1 && -1 <= c.1 <= 1 && -1 <= c.2 <= 1
        &&& c.0 != 0 && c.1 != 0 && c.2 != 0
    } by {
        if k == 0 {
        } else if k == 1 {
        } else if k == 2 {
        } else {
        }
    }
    let c0 = spec_face_corner(face, 0);
    let c1 = spec_face_corner(face, 1);
    let c2 = spec_face_corner(face, 2);
    let c3 = spec_face_corner(face, 3);
    match face {
        BlockFace::Front => {
            assert(corner_cross(c0, c1, c2) == (4int, 0int, 0int));
            assert(corner_cross(c2, c3, c0) == (4int, 0int, 0int));
        },
        BlockFace::Back => {
            assert(corner_cross(c0, c1, c2) == (-4int, 0int, 0int));
            assert(corner_cross(c2, c3, c0) == (-4int, 0int, 0int));
        },
        BlockFace::Top => {
            assert(corner_cross(c0, c1, c2) == (0int, 4int, 0int));
            assert(corner_cross(c2, c3, c0) == (0int, 4int, 0int));
        },
        BlockFace::Bottom => {
            assert(corner_cross(c0, c1, c2) == (0int, -4int, 0int));
            assert(corner_cross(c2, c3, c0) == (0int, -4int, 0int));
        },
        BlockFace::Left => {
            assert(corner_cross(c0, c1, c2) == (0int, 0int, 4int));
            assert(corner_cross(c2, c3, c0) == (0int, 0int, 4int));
        },
        BlockFace::Right => {
            assert(corner_cross(c0, c1, c2) == (0int, 0int, -4int));
            assert(corner_cross(c2, c3, c0) == (0int, 0int, -4int));
        },
    }
}

/// Whether face `face` of block `owner` looks at a block of the same chunk.
pub open spec fn neighbor_inside(owner: int, face: BlockFace) -> bool {
    match face {
        BlockFace::Back => index_x(owner) > 0,
        BlockFace::Front => index_x(owner) < 31,
        BlockFace::Bottom => index_y(owner) > 0,
        BlockFace::Top => index_y(owner) < 31,
        BlockFace::Right => index_z(owner) > 0,
        BlockFace::Left => index_z(owner) < 31,
    }
}

/// Whether face `f` belongs to a solid block of the chunk at `pos` and
/// looks at an empty block: inside the chunk, or across its border in the
/// neighbouring chunk (a missing neighbour counts as empty).
pub open spec fn is_surface_face(blocks: Seq<Block>, chunks: Map<ChunkPos, Chunk>, pos: ChunkPos, f: FaceRef) -> bool {
    &&& 0 <= f.0 < 32768
    &&& spec_is_solid(blocks[f.0])
    &&& if neighbor_inside(f.0, f.1) {
        0 <= face_neighbor(f.0, f.1) < 32768 && !spec_is_solid(blocks[face_neighbor(f.0, f.1)])
    } else {
        !outside_solid(chunks, pos, f.0, f.1)
    }
}

/// Whether every face of `s` is a surface face.
pub open spec fn all_surface(blocks: Seq<Block>, chunks: Map<ChunkPos, Chunk>, pos: ChunkPos, s: Seq<FaceRef>) -> bool {
    forall|q: int| 0 <= q < s.len() ==> is_surface_face(blocks, chunks, pos, #[trigger] s[q])
}

/// Surface faces put one after the other are surface faces.
proof fn lemma_all_surface_concat(
    blocks: Seq<Block>,
    chunks: Map<ChunkPos, Chunk>,
    pos: ChunkPos,
    s: Seq<FaceRef>,
    t: Seq<FaceRef>,
)
    requires
        all_surface(blocks, chunks, pos, s),
        all_surface(blocks, chunks, pos, t),
    ensures
        all_surface(blocks, chunks, pos, s + t),
{
    assert forall|q: int| 0 <= q < (s + t).len() implies is_surface_face(blocks, chunks, pos, #[trigger] (s + t)[q]) by {
        if q < s.len() {
            assert((s + t)[q] == s[q]);
        } else {
            assert((s + t)[q] == t[q - s.len()]);
        }
    }
}

/// A face emitted on a condition that makes it a surface face.
proof fn lemma_opt_surface(
    blocks: Seq<Block>,
    chunks: Map<ChunkPos, Chunk>,
    pos: ChunkPos,
    cond: bool,
    owner: int,
    face: BlockFace,
)
    requires
        cond ==> is_surface_face(blocks, chunks, pos, (owner, face)),
    ensures
        all_surface(blocks, chunks, pos, opt_face(cond, owner, face)),
{
}

/// Every face that the mesh builder emits at one block is a surface face.
pub proof fn lemma_block_faces_on_surface(blocks: Seq<Block>, chunks: Map<ChunkPos, Chunk>, pos: ChunkPos, i: int)
    requires
        0 <= i < 32768,
        blocks.len() == 32768,
    ensures
        all_surface(blocks, chunks, pos, block_faces(blocks, chunks, pos, i)),
{
    lemma_index_coords(i);
    let x = index_x(i);
    let y = index_y(i);
    let z = index_z(i);
    if x > 0 {
        lemma_index_coords(i - 1024);
        lemma_block_index(x - 1, y, z);
    }
    if y > 0 {
        lemma_index_coords(i - 32);
        lemma_block_index(x, y - 1, z);
    }
    if z > 0 {
        lemma_index_coords(i - 1);
        lemma_block_index(x, y, z - 1);
    }
    if spec_is_solid(blocks[i]) {
        let c1 = if x > 0 { !spec_is_solid(blocks[i - 1024]) } else { !outside_solid(chunks, pos, i, BlockFace::Back) };
        let c2 = if y > 0 { !spec_is_solid(blocks[i - 32]) } else { !outside_solid(chunks, pos, i, BlockFace::Bottom) };
        let c3 = if z > 0 { !spec_is_solid(blocks[i - 1]) } else { !outside_solid(chunks, pos, i, BlockFace::Right) };
        let c4 = x == 31 && !outside_solid(chunks, pos, i, BlockFace::Front);
        let c5 = y == 31 && !outside_solid(chunks, pos, i, BlockFace::Top);
        let c6 = z == 31 && !outside_solid(chunks, pos, i, BlockFace::Left);
        lemma_opt_surface(blocks, chunks, pos, c1, i, BlockFace::Back);
        lemma_opt_surface(blocks, chunks, pos, c2, i, BlockFace::Bottom);
        lemma_opt_surface(blocks, chunks, pos, c3, i, BlockFace::Right);
        lemma_opt_surface(blocks, chunks, pos, c4, i, BlockFace::Front);
        lemma_opt_surface(blocks, chunks, pos, c5, i, BlockFace::Top);
        lemma_opt_surface(blocks, chunks, pos, c6, i, BlockFace::Left);
        let s1 = opt_face(c1, i, BlockFace::Back);
        let s2 = opt_face(c2, i, BlockFace::Bottom);
        let s3 = opt_face(c3, i, BlockFace::Right);
        let s4 = opt_face(c4, i, BlockFace::Front);
        let s5 = opt_face(c5, i, BlockFace::Top);
        let s6 = opt_face(c6, i, BlockFace::Left);
        lemma_all_surface_concat(blocks, chunks, pos, s1, s2);
        lemma_all_surface_concat(blocks, chunks, pos, s1 + s2, s3);
        lemma_all_surface_concat(blocks, chunks, pos, s1 + s2 + s3, s4);
        lemma_all_surface_concat(blocks, chunks, pos, s1 + s2 + s3 + s4, s5);
        lemma_all_surface_concat(blocks, chunks, pos, s1 + s2 + s3 + s4 + s5, s6);
    } else {
        let c1 = x > 0 && spec_is_solid(blocks[i - 1024]);
        let c2 = y > 0 && spec_is_solid(blocks[i - 32]);
        let c3 = z > 0 && spec_is_solid(blocks[i - 1]);
        if c1 {
            lemma_index_coords(i - 1024);
        }
        if c2 {
            lemma_index_coords(i - 32);
        }
        if c3 {
            lemma_index_coords(i - 1);
        }
        lemma_opt_surface(blocks, chunks, pos, c1, i - 1024, BlockFace::Front);
        lemma_opt_surface(blocks, chunks, pos, c2, i - 32, BlockFace::Top);
        lemma_opt_surface(blocks, chunks, pos, c3, i - 1, BlockFace::Left);
        let t1 = opt_face(c1, i - 1024, BlockFace::Front);
        let t2 = opt_face(c2, i - 32, BlockFace::Top);
        let t3 = opt_face(c3, i - 1, BlockFace::Left);
        lemma_all_surface_concat(blocks, chunks, pos, t1, t2);
        lemma_all_surface_concat(blocks, chunks, pos, t1 + t2, t3);
    }
}

/// Every face that the mesh builder emits is a surface face.
pub proof fn lemma_faces_on_surface(blocks: Seq<Block>, chunks: Map<ChunkPos, Chunk>, pos: ChunkPos, n: int)
    requires
        0 <= n <= 32768,
        blocks.len() == 32768,
    ensures
        forall|q: int|
            0 <= q < chunk_faces(blocks, chunks, pos, n).len() ==> is_surface_face(
                blocks,
                chunks,
                pos,
                #[trigger] chunk_faces(blocks, chunks, pos, n)[q],
            ),
    decreases n,
{
    if n > 0 {
        lemma_faces_on_surface(blocks, chunks, pos, n - 1);
        let i = n - 1;
        lemma_block_faces_on_surface(blocks, chunks, pos, i);
        assert(all_surface(blocks, chunks, pos, block_faces(blocks, chunks, pos, i)));
        let prev = chunk_faces(blocks, chunks, pos, n - 1);
        let here = block_faces(blocks, chunks, pos, i);
        assert forall|q: int| 0 <= q < chunk_faces(blocks, chunks, pos, n).len() implies is_surface_face(
            blocks,
            chunks,
            pos,
            #[trigger] chunk_faces(blocks, chunks, pos, n)[q],
        ) by {
            if q < prev.len() {
                assert(chunk_faces(blocks, chunks, pos, n)[q] == prev[q]);
            } else {
                assert(chunk_faces(blocks, chunks, pos, n)[q] == here[q - prev.len()]);
            }
        }
    }
}

/// The faces of block `i` are among the faces of the first `n` blocks, for
/// every `n` past `i`.
pub proof fn lemma_block_faces_kept(
    blocks: Seq<Block>,
    chunks: Map<ChunkPos, Chunk>,
    pos: ChunkPos,
    i: int,
    n: int,
    f: FaceRef,
)
    requires
        0 <= i < n,
        block_faces(blocks, chunks, pos, i).contains(f),
    ensures
        chunk_faces(blocks, chunks, pos, n).contains(f),
    decreases n,
{
    let prev = chunk_faces(blocks, chunks, pos, n - 1);
    let all = chunk_faces(blocks, chunks, pos, n);
    if i == n - 1 {
        let k = choose|k: int|
            0 <= k < block_faces(blocks, chunks, pos, i).len() && block_faces(blocks, chunks, pos, i)[k] == f;
        assert(all[prev.len() + k] == f);
    } else {
        lemma_block_faces_kept(blocks, chunks, pos, i, n - 1, f);
        let k = choose|k: int| 0 <= k < prev.len() && prev[k] == f;
        assert(all[k] == f);
    }
}

/// An element of either part is an element of the whole.
proof fn lemma_concat_contains(s: Seq<FaceRef>, t: Seq<FaceRef>, f: FaceRef)
    requires
        s.contains(f) || t.contains(f),
    ensures
        (s + t).contains(f),
{
    if s.contains(f) {
        let k = choose|k: int| 0 <= k < s.len() && s[k] == f;
        assert((s + t)[k] == f);
    } else {
        let k = choose|k: int| 0 <= k < t.len() && t[k] == f;
        assert((s + t)[s.len() + k] == f);
    }
}

/// Every surface face of a solid block is in the mesh: towards an empty
/// neighbour inside the chunk on any side, and towards an empty (or
/// missing) block of the neighbouring chunk on the chunk's borders.
pub proof fn lemma_surface_faces_emitted(
    blocks: Seq<Block>,
    chunks: Map<ChunkPos, Chunk>,
    pos: ChunkPos,
    i: int,
    face: BlockFace,
)
    requires
        blocks.len() == 32768,
        is_surface_face(blocks, chunks, pos, (i, face)),
    ensures
        chunk_faces(blocks, chunks, pos, 32768).contains((i, face)),
{
    lemma_index_coords(i);
    let f = (i, face);
    let x = index_x(i);
    let y = index_y(i);
    let z = index_z(i);
    let s1 = opt_face(
        if x > 0 { !spec_is_solid(blocks[i - 1024]) } else { !outside_solid(chunks, pos, i, BlockFace::Back) },
        i,
        BlockFace::Back,
    );
    let s2 = opt_face(
        if y > 0 { !spec_is_solid(blocks[i - 32]) } else { !outside_solid(chunks, pos, i, BlockFace::Bottom) },
        i,
        BlockFace::Bottom,
    );
    let s3 = opt_face(
        if z > 0 { !spec_is_solid(blocks[i - 1]) } else { !outside_solid(chunks, pos, i, BlockFace::Right) },
        i,
        BlockFace::Right,
    );
    let s4 = opt_face(x == 31 && !outside_solid(chunks, pos, i, BlockFace::Front), i, BlockFace::Front);
    let s5 = opt_face(y == 31 && !outside_solid(chunks, pos, i, BlockFace::Top), i, BlockFace::Top);
    let s6 = opt_face(z == 31 && !outside_solid(chunks, pos, i, BlockFace::Left), i, BlockFace::Left);
    let here = block_faces(blocks, chunks, pos, i);
    assert(here == s1 + s2 + s3 + s4 + s5 + s6);
    match face {
        BlockFace::Back => {
            assert(s1[0] == f);
            lemma_concat_contains(s1, s2, f);
            lemma_concat_contains(s1 + s2, s3, f);
            lemma_concat_contains(s1 + s2 + s3, s4, f);
            lemma_concat_contains(s1 + s2 + s3 + s4, s5, f);
            lemma_concat_contains(s1 + s2 + s3 + s4 + s5, s6, f);
            lemma_block_faces_kept(blocks, chunks, pos, i, 32768, f);
        },
        BlockFace::Bottom => {
            assert(s2[0] == f);
            lemma_concat_contains(s1, s2, f);
            lemma_concat_contains(s1 + s2, s3, f);
            lemma_concat_contains(s1 + s2 + s3, s4, f);
            lemma_concat_contains(s1 + s2 + s3 + s4, s5, f);
            lemma_concat_contains(s1 + s2 + s3 + s4 + s5, s6, f);
            lemma_block_faces_kept(blocks, chunks, pos, i, 32768, f);
        },
        BlockFace::Right => {
            assert(s3[0] == f);
            lemma_concat_contains(s1 + s2, s3, f);
            lemma_concat_contains(s1 + s2 + s3, s4, f);
            lemma_concat_contains(s1 + s2 + s3 + s4, s5, f);
            lemma_concat_contains(s1 + s2 + s3 + s4 + s5, s6, f);
            lemma_block_faces_kept(blocks, chunks, pos, i, 32768, f);
        },
        BlockFace::Front => {
            if x == 31 {
                assert(s4[0] == f);
                lemma_concat_contains(s1 + s2 + s3, s4, f);
                lemma_concat_contains(s1 + s2 + s3 + s4, s5, f);
                lemma_concat_contains(s1 + s2 + s3 + s4 + s5, s6, f);
                lemma_block_faces_kept(blocks, chunks, pos, i, 32768, f);
            } else {
                let j = i + 1024;
                lemma_block_index(x + 1, y, z);
                lemma_index_coords(j);
                let t1 = opt_face(index_x(j) > 0 && spec_is_solid(blocks[j - 1024]), j - 1024, BlockFace::Front);
                let t2 = opt_face(index_y(j) > 0 && spec_is_solid(blocks[j - 32]), j - 32, BlockFace::Top);
                let t3 = opt_face(index_z(j) > 0 && spec_is_solid(blocks[j - 1]), j - 1, BlockFace::Left);
                assert(block_faces(blocks, chunks, pos, j) == t1 + t2 + t3);
                assert(t1[0] == f);
                lemma_concat_contains(t1, t2, f);
                lemma_concat_contains(t1 + t2, t3, f);
                lemma_block_faces_kept(blocks, chunks, pos, j, 32768, f);
            }
        },
        BlockFace::Top => {
            if y == 31 {
                assert(s5[0] == f);
                lemma_concat_contains(s1 + s2 + s3 + s4, s5, f);
                lemma_concat_contains(s1 + s2 + s3 + s4 + s5, s6, f);
                lemma_block_faces_kept(blocks, chunks, pos, i, 32768, f);
            } else {
                let j = i + 32;
                lemma_block_index(x, y + 1, z);
                lemma_index_coords(j);
                let t1 = opt_face(index_x(j) > 0 && spec_is_solid(blocks[j - 1024]), j - 1024, BlockFace::Front);
                let t2 = opt_face(index_y(j) > 0 && spec_is_solid(blocks[j - 32]), j - 32, BlockFace::Top);
                let t3 = opt_face(index_z(j) > 0 && spec_is_solid(blocks[j - 1]), j - 1, BlockFace::Left);
                assert(block_faces(blocks, chunks, pos, j) == t1 + t2 + t3);
                assert(t2[0] == f);
                lemma_concat_contains(t1, t2, f);
                lemma_concat_contains(t1 + t2, t3, f);
                lemma_block_faces_kept(blocks, chunks, pos, j, 32768, f);
            }
        },
        BlockFace::Left => {
            if z == 31 {
                assert(s6[0] == f);
                lemma_concat_contains(s1 + s2 + s3 + s4 + s5, s6, f);
                lemma_block_faces_kept(blocks, chunks, pos, i, 32768, f);
            } else {
                let j = i + 1;
                lemma_block_index(x, y, z + 1);
                lemma_index_coords(j);
                let t1 = opt_face(index_x(j) > 0 && spec_is_solid(blocks[j - 1024]), j - 1024, BlockFace::Front);
                let t2 = opt_face(index_y(j) > 0 && spec_is_solid(blocks[j - 32]), j - 32, BlockFace::Top);
                let t3 = opt_face(index_z(j) > 0 && spec_is_solid(blocks[j - 1]), j - 1, BlockFace::Left);
                assert(block_faces(blocks, chunks, pos, j) == t1 + t2 + t3);
                assert(t3[0] == f);
                lemma_concat_contains(t1 + t2, t3, f);
                lemma_block_faces_kept(blocks, chunks, pos, j, 32768, f);
            }
        },
    }
}

/// For a chunk whose empty flag tells the truth, as the constructors set
/// it, skipping an empty chunk changes nothing: its mesh is the mesh of its
/// faces.
pub proof fn lemma_empty_flag_consistent(chunk: Chunk, chunks: Map<ChunkPos, Chunk>, m: MeshData<GridVertex>)
    requires
        chunk.wf(),
        chunk.empty == all_empty(chunk.blocks()),
        chunk.empty,
        m.vertices@.len() == 0,
        m.indices@.len() == 0,
        m.vertex_count == 0,
    ensures
        mesh_of_faces(m, chunk.blocks(), chunk_faces(chunk.blocks(), chunks, chunk.world_offset, 32768)),
{
    lemma_empty_blocks_no_faces(chunk.blocks(), chunks, chunk.world_offset, 32768);
}

/// Whether the block across side `face` of `chunk` from its border block
/// at `block_pos` is solid, looked up among the loaded chunks.
fn across_is_solid(neighbors: &ChunkContainer, chunk: &Chunk, block_pos: (u8, u8, u8), face: BlockFace) -> (r: bool)
    requires
        neighbors.wf(),
        block_pos.0 < 32,
        block_pos.1 < 32,
        block_pos.2 < 32,
        face == BlockFace::Back ==> block_pos.0 == 0,
        face == BlockFace::Front ==> block_pos.0 == 31,
        face == BlockFace::Bottom ==> block_pos.1 == 0,
        face == BlockFace::Top ==> block_pos.1 == 31,
        face == BlockFace::Right ==> block_pos.2 == 0,
        face == BlockFace::Left ==> block_pos.2 == 31,
    ensures
        r == outside_solid(
            neighbors.chunks@,
            chunk.world_offset,
            block_index(block_pos.0 as int, block_pos.1 as int, block_pos.2 as int),
            face,
        ),
{
    let (x, y, z) = block_pos;
    let p = chunk.world_offset;
    let (q, across) = match face {
        BlockFace::Back => (if p.0 > i64::MIN { Some((p.0 - 1, p.1, p.2)) } else { None }, (31u8, y, z)),
        BlockFace::Front => (if p.0 < i64::MAX { Some((p.0 + 1, p.1, p.2)) } else { None }, (0u8, y, z)),
        BlockFace::Bottom => (if p.1 > i64::MIN { Some((p.0, p.1 - 1, p.2)) } else { None }, (x, 31u8, z)),
        BlockFace::Top => (if p.1 < i64::MAX { Some((p.0, p.1 + 1, p.2)) } else { None }, (x, 0u8, z)),
        BlockFace::Right => (if p.2 > i64::MIN { Some((p.0, p.1, p.2 - 1)) } else { None }, (x, y, 31u8)),
        BlockFace::Left => (if p.2 < i64::MAX { Some((p.0, p.1, p.2 + 1)) } else { None }, (x, y, 0u8)),
    };
    assert(q == neighbor_pos(p, face));
    assert(block_index(across.0 as int, across.1 as int, across.2 as int) == across_index(
        block_index(x as int, y as int, z as int),
        face,
    ));
    proof {
        lemma_block_index(across.0 as int, across.1 as int, across.2 as int);
    }
    match q {
        Some(q) => match neighbors.get_chunk(q) {
            Some(c) => c.block_is_solid(across),
            None => false,
        },
        None => false,
    }
}

impl MeshData<GridVertex> {
    /// Builds the mesh of a chunk: for every block, the faces that
    /// `block_faces` names, four vertices and six indices per face. The
    /// faces on the chunk's borders are decided by the neighbouring chunks
    /// found in `neighbors`; a neighbour that is not loaded counts as empty.
    /// An empty chunk gives an empty mesh without looking at its blocks.
    pub fn from_chunk(chunk: &Chunk, neighbors: &ChunkContainer) -> (m: Self)
        requires
            chunk.wf(),
            neighbors.wf(),
        ensures
            chunk.empty ==> m.vertices@.len() == 0 && m.indices@.len() == 0 && m.vertex_count == 0,
            !chunk.empty ==> mesh_of_faces(
                m,
                chunk.blocks(),
                chunk_faces(chunk.blocks(), neighbors.chunks@, chunk.world_offset, 32768),
            ),
            mesh_consistent(m),
    {
        let mut mesh_data = Self { vertices: Vec::new(), indices: Vec::new(), vertex_count: 0 };
        let ghost blocks = chunk.blocks();
        let ghost nb = neighbors.chunks@;
        let ghost pos = chunk.world_offset;
        if !chunk.empty {
            let mut i: usize = 0;
            while i < 32768
                invariant
                    0 <= i <= 32768,
                    chunk.wf(),
                    neighbors.wf(),
                    blocks == chunk.blocks(),
                    nb == neighbors.chunks@,
                    pos == chunk.world_offset,
                    mesh_of_faces(mesh_data, blocks, chunk_faces(blocks, nb, pos, i as int)),
                decreases 32768 - i,
            {
                proof {
                    lemma_index_coords(i as int);
                    lemma_chunk_faces_len(blocks, nb, pos, i as int);
                }
                let x = (i / 1024) as u8;
                let y = ((i / 32) % 32) as u8;
                let z = (i % 32) as u8;
                let ghost before = mesh_data;
                mesh_data.generate_block((x, y, z), chunk, neighbors);
                proof {
                    lemma_append_faces(
                        before,
                        mesh_data,
                        blocks,
                        chunk_faces(blocks, nb, pos, i as int),
                        block_faces(blocks, nb, pos, i as int),
                    );
                }
                i += 1;
            }
            proof {
                lemma_mesh_indices_valid(mesh_data, blocks, chunk_faces(blocks, nb, pos, 32768));
            }
        }
        mesh_data
    }

    /// Appends the faces that `block_faces` names at the block at
    /// `block_pos`: four corners per face after the old vertices, and the
    /// two triangles of each face after the old indices. A consistent mesh
    /// stays consistent.
    #[verifier::rlimit(60)]
    #[verifier::spinoff_prover]
    fn generate_block(&mut self, block_pos: (u8, u8, u8), chunk: &Chunk, neighbors: &ChunkContainer)
        requires
            chunk.wf(),
            neighbors.wf(),
            block_pos.0 < 32,
            block_pos.1 < 32,
            block_pos.2 < 32,
            old(self).vertex_count + 24 <= u32::MAX,
        ensures
            appends_faces(
                *old(self),
                *final(self),
                chunk.blocks(),
                block_faces(
                    chunk.blocks(),
                    neighbors.chunks@,
                    chunk.world_offset,
                    block_index(block_pos.0 as int, block_pos.1 as int, block_pos.2 as int),
                ),
            ),
            mesh_consistent(*old(self)) ==> mesh_consistent(*final(self)),
    {
        let (x, y, z) = block_pos;
        let ghost i = block_index(x as int, y as int, z as int);
        let ghost blocks = chunk.blocks();
        let ghost nb = neighbors.chunks@;
        let ghost pos = chunk.world_offset;
        let ghost start = *self;
        proof {
            lemma_block_index(x as int, y as int, z as int);
            if x > 0 {
                lemma_block_index(x - 1, y as int, z as int);
            }
            if y > 0 {
                lemma_block_index(x as int, y - 1, z as int);
            }
            if z > 0 {
                lemma_block_index(x as int, y as int, z - 1);
            }
        }
        let mut num_faces: u8 = 0;
        let ghost mut added: Seq<FaceRef> = Seq::empty();
        assert(faces_quads(blocks, added) =~= Seq::<GridVertex>::empty());
        assert(self.vertices@ =~= start.vertices@ + faces_quads(blocks, added));
        if let Some(block) = chunk.solid_block_at(block_pos) {
            let back = if x == 0 {
                !across_is_solid(neighbors, chunk, block_pos, BlockFace::Back)
            } else {
                !chunk.block_is_solid((x - 1, y, z))
            };
            if back {
                self.push_face(block, BlockFace::Back, block_pos, Ghost(blocks), Ghost(i), Ghost(added));
                proof {
                    added = added.push((i, BlockFace::Back));
                    assert(self.vertices@ =~= start.vertices@ + faces_quads(blocks, added));
                }
                num_faces += 1;
            }
            let ghost o1 = added;
            let bottom = if y == 0 {
                !across_is_solid(neighbors, chunk, block_pos, BlockFace::Bottom)
            } else {
                !chunk.block_is_solid((x, y - 1, z))
            };
            if bottom {
                self.push_face(block, BlockFace::Bottom, block_pos, Ghost(blocks), Ghost(i), Ghost(added));
                proof {
                    added = added.push((i, BlockFace::Bottom));
                    assert(self.vertices@ =~= start.vertices@ + faces_quads(blocks, added));
                }
                num_faces += 1;
            }
            let ghost o2 = added;
            let right = if z == 0 {
                !across_is_solid(neighbors, chunk, block_pos, BlockFace::Right)
            } else {
                !chunk.block_is_solid((x, y, z - 1))
            };
            if right {
                self.push_face(block, BlockFace::Right, block_pos, Ghost(blocks), Ghost(i), Ghost(added));
                proof {
                    added = added.push((i, BlockFace::Right));
                    assert(self.vertices@ =~= start.vertices@ + faces_quads(blocks, added));
                }
                num_faces += 1;
            }
            let ghost o3 = added;
            if x == 31 && !across_is_solid(neighbors, chunk, block_pos, BlockFace::Front) {
                self.push_face(block, BlockFace::Front, block_pos, Ghost(blocks), Ghost(i), Ghost(added));
                proof {
                    added = added.push((i, BlockFace::Front));
                    assert(self.vertices@ =~= start.vertices@ + faces_quads(blocks, added));
                }
                num_faces += 1;
            }
            let ghost o4 = added;
            if y == 31 && !across_is_solid(neighbors, chunk, block_pos, BlockFace::Top) {
                self.push_face(block, BlockFace::Top, block_pos, Ghost(blocks), Ghost(i), Ghost(added));
                proof {
                    added = added.push((i, BlockFace::Top));
                    assert(self.vertices@ =~= start.vertices@ + faces_quads(blocks, added));
                }
                num_faces += 1;
            }
            let ghost o5 = added;
            if z == 31 && !across_is_solid(neighbors, chunk, block_pos, BlockFace::Left) {
                self.push_face(block, BlockFace::Left, block_pos, Ghost(blocks), Ghost(i), Ghost(added));
                proof {
                    added = added.push((i, BlockFace::Left));
                    assert(self.vertices@ =~= start.vertices@ + faces_quads(blocks, added));
                }
                num_faces += 1;
            }
            proof {
                let s1 = opt_face(back, i, BlockFace::Back);
                let s2 = opt_face(bottom, i, BlockFace::Bottom);
                let s3 = opt_face(right, i, BlockFace::Right);
                assert(o1 =~= s1);
                assert(o2 =~= s1 + s2);
                assert(o3 =~= s1 + s2 + s3);
                assert(added =~= block_faces(blocks, nb, pos, i));
            }
        } else {
            if x == 0 || x >= 32 {
            } else if let Some(block) = chunk.solid_block_at((x - 1, y, z)) {
                self.push_face(block, BlockFace::Front, (x - 1, y, z), Ghost(blocks), Ghost(i - 1024), Ghost(added));
                proof {
                    added = added.push((i - 1024, BlockFace::Front));
                    assert(self.vertices@ =~= start.vertices@ + faces_quads(blocks, added));
                }
                num_faces += 1;
            }
            let ghost o1 = added;
            if y == 0 || y >= 32 {
            } else if let Some(block) = chunk.solid_block_at((x, y - 1, z)) {
                self.push_face(block, BlockFace::Top, (x, y - 1, z), Ghost(blocks), Ghost(i - 32), Ghost(added));
                proof {
                    added = added.push((i - 32, BlockFace::Top));
                    assert(self.vertices@ =~= start.vertices@ + faces_quads(blocks, added));
                }
                num_faces += 1;
            }
            let ghost o2 = added;
            if z == 0 || z >= 32 {
            } else if let Some(block) = chunk.solid_block_at((x, y, z - 1)) {
                self.push_face(block, BlockFace::Left, (x, y, z - 1), Ghost(blocks), Ghost(i - 1), Ghost(added));
                proof {
                    added = added.push((i - 1, BlockFace::Left));
                    assert(self.vertices@ =~= start.vertices@ + faces_quads(blocks, added));
                }
                num_faces += 1;
            }
            proof {
                let t1 = opt_face(x > 0 && spec_is_solid(blocks[i - 1024]), i - 1024, BlockFace::Front);
                let t2 = opt_face(y > 0 && spec_is_solid(blocks[i - 32]), i - 32, BlockFace::Top);
                assert(o1 =~= t1);
                assert(o2 =~= t1 + t2);
                assert(added =~= block_faces(blocks, nb, pos, i));
            }
        }
        assert(num_faces == added.len());
        self.add_indices(num_faces);
        proof {
            if mesh_consistent(start) {
                lemma_append_consistent(start, *self, blocks, added);
            }
        }
    }

    /// Appends the four corners of face `face` of the block at `position`,
    /// the block with linear index `owner`, after the corners of the faces
    /// `added` already appended to the mesh.
    fn push_face(
        &mut self,
        block: &Block,
        face: BlockFace,
        position: (u8, u8, u8),
        Ghost(blocks): Ghost<Seq<Block>>,
        Ghost(owner): Ghost<int>,
        Ghost(added): Ghost<Seq<FaceRef>>,
    )
        requires
            0 <= owner < blocks.len(),
            *block == blocks[owner],
            position.0 as int == index_x(owner),
            position.1 as int == index_y(owner),
            position.2 as int == index_z(owner),
        ensures
            final(self).indices@ == old(self).indices@,
            final(self).vertex_count == old(self).vertex_count,
            final(self).vertices@ == old(self).vertices@ + face_quad(blocks, (owner, face)),
            faces_quads(blocks, added.push((owner, face))) == faces_quads(blocks, added) + face_quad(
                blocks,
                (owner, face),
            ),
    {
        assert(added.push((owner, face)).drop_last() =~= added);
        self.add_face(block, face, position, Ghost(blocks), Ghost(owner));
    }

    /// Appends the four corners of face `face` of the block at `position`,
    /// the block with linear index `owner`.
    fn add_face(
        &mut self,
        block: &Block,
        face: BlockFace,
        position: (u8, u8, u8),
        Ghost(blocks): Ghost<Seq<Block>>,
        Ghost(owner): Ghost<int>,
    )
        requires
            0 <= owner < blocks.len(),
            *block == blocks[owner],
            position.0 as int == index_x(owner),
            position.1 as int == index_y(owner),
            position.2 as int == index_z(owner),
        ensures
            final(self).indices@ == old(self).indices@,
            final(self).vertex_count == old(self).vertex_count,
            final(self).vertices@ == old(self).vertices@ + face_quad(blocks, (owner, face)),
    {
        let ghost start = self.vertices@;
        let mut k: usize = 0;
        while k < 4
            invariant
                0 <= k <= 4,
                0 <= owner < blocks.len(),
                *block == blocks[owner],
                position.0 as int == index_x(owner),
                position.1 as int == index_y(owner),
                position.2 as int == index_z(owner),
                self.indices@ == old(self).indices@,
                self.vertex_count == old(self).vertex_count,
                self.vertices@ == start + face_quad(blocks, (owner, face)).take(k as int),
            decreases 4 - k,
        {
            let corner_offset = face_corner(face, k);
            self.vertices.push(
                GridVertex { block: position, corner_offset, corner: k as u8, block_type: block.block_type },
            );
            assert(face_quad(blocks, (owner, face)).take(k + 1) == face_quad(blocks, (owner, face)).take(k as int).push(face_vertex(blocks, (owner, face), k as int)));
            k += 1;
        }
        assert(face_quad(blocks, (owner, face)).take(4) == face_quad(blocks, (owner, face)));
    }

    /// Appends the two triangles of each of the last `num_faces` faces,
    /// whose corners are the last `4 * num_faces` vertices before the vertex
    /// count, and counts their corners.
    fn add_indices(&mut self, num_faces: u8)
        requires
            old(self).vertex_count + 4 * num_faces <= u32::MAX,
        ensures
            final(self).vertices@ == old(self).vertices@,
            final(self).indices@ == old(self).indices@ + quad_indices(
                old(self).vertex_count as int,
                num_faces as int,
            ),
            final(self).vertex_count == old(self).vertex_count + 4 * num_faces,
    {
        let ghost base = self.vertex_count as int;
        let mut f: u8 = 0;
        while f < num_faces
            invariant
                0 <= f <= num_faces,
                base == old(self).vertex_count,
                base + 4 * num_faces <= u32::MAX,
                self.vertices@ == old(self).vertices@,
                self.indices@ == old(self).indices@ + quad_indices(base, f as int),
                self.vertex_count == base + 4 * f,
            decreases num_faces - f,
        {
            let start = self.vertex_count;
            self.indices.push(start);
            self.indices.push(1 + start);
            self.indices.push(2 + start);
            self.indices.push(2 + start);
            self.indices.push(3 + start);
            self.indices.push(start);
            proof {
                let ids = self.indices@;
                let want = old(self).indices@ + quad_indices(base, f + 1);
                assert forall|j: int| 0 <= j < want.len() implies #[trigger] want[j] == ids[j] by {
                    let n = old(self).indices@.len() as int;
                    if j >= n + 6 * f {
                        assert((j - n) / 6 == f);
                    }
                }
                assert(ids =~= want);
            }
            self.vertex_count = start + 4;
            f += 1;
        }
    }
}

} // verus!
