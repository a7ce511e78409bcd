use std::collections::HashMap;

use vstd::prelude::*;

use vstd::std_specs::iter::IteratorSpec;

use crate::tiles::{flag_of, get_tile_flag, TileFlag, WALL_TILE};

verus! {

broadcast use vstd::std_specs::hash::group_hash_axioms;

/// A 16x16 block of stored tile ids, row-major, placed at tile `(x, y)`.
#[derive(Clone, Debug)]
pub struct Chunk {
    pub x: i16,
    pub y: i16,
    pub tiles: Vec<i16>,
}

impl Chunk {
    /// The tile at local offset `(x, y)`, if the offset lies in the grid.
    pub fn tile_at(&self, x: usize, y: usize) -> (r: Option<i16>)
        ensures
            r == (if x < 16 && y < 16 && x + y * 16 < self.tiles@.len() {
                Some(self.tiles@[x + y * 16])
            } else {
                None
            }),
    {
        if x >= 16 || y >= 16 {
            return None;
        }
        let i: usize = x + y * 16;
        if i < self.tiles.len() {
            Some(self.tiles[i])
        } else {
            None
        }
    }
}

/// Key under which the chunk with origin `(x, y)` is stored.
pub open spec fn chunk_key(x: int, y: int) -> int {
    x * 0x1_0000 + y
}

pub open spec fn is_i16(v: int) -> bool {
    i16::MIN <= v <= i16::MAX
}

/// A chunk origin lies on the 16-tile grid.
pub open spec fn on_grid(x: int, y: int) -> bool {
    x % 16 == 0 && y % 16 == 0
}

fn key_of(x: i16, y: i16) -> (r: i64)
    ensures
        r == chunk_key(x as int, y as int),
{
    x as i64 * 0x1_0000 + y as i64
}

proof fn lemma_key_injective(x1: int, y1: int, x2: int, y2: int)
    requires
        is_i16(x1),
        is_i16(y1),
        is_i16(x2),
        is_i16(y2),
        chunk_key(x1, y1) == chunk_key(x2, y2),
    ensures
        x1 == x2,
        y1 == y2,
{
    assert(x1 == x2) by (nonlinear_arith)
        requires
            x1 * 0x1_0000 + y1 == x2 * 0x1_0000 + y2,
            -0x8000 <= y1 < 0x8000,
            -0x8000 <= y2 < 0x8000,
    ;
}

/// A sparse layer of chunks, keyed by chunk origin.
#[derive(Debug)]
pub struct ChunkLayer {
    chunks: HashMap<i64, Chunk>,
}

impl View for ChunkLayer {
    /// Chunk origin to the chunk's 256 tile ids.
    type V = Map<(int, int), Seq<i16>>;

    closed spec fn view(&self) -> Map<(int, int), Seq<i16>> {
        Map::new(
            |p: (int, int)|
                is_i16(p.0) && is_i16(p.1) && self.chunks@.contains_key(chunk_key(p.0, p.1) as i64),
            |p: (int, int)| self.chunks@[chunk_key(p.0, p.1) as i64].tiles@,
        )
    }
}

impl ChunkLayer {
    /// Every stored chunk sits under its own origin's key, on the grid, with
    /// 256 tiles.
    #[verifier::type_invariant]
    spec fn inv(&self) -> bool {
        forall|k: i64| #[trigger]
            self.chunks@.contains_key(k) ==> {
                let c = self.chunks@[k];
                &&& k == chunk_key(c.x as int, c.y as int)
                &&& on_grid(c.x as int, c.y as int)
                &&& c.tiles@.len() == 256
            }
    }

    pub fn new() -> (r: ChunkLayer)
        ensures
            r@ == Map::<(int, int), Seq<i16>>::empty(),
    {
        let r = ChunkLayer { chunks: HashMap::new() };
        assert(r@ =~= Map::<(int, int), Seq<i16>>::empty());
        r
    }

    /// Stores a chunk under its origin, replacing one stored there before.
    /// A chunk off the 16-tile grid, or without exactly 256 tiles, could
    /// never be read back by tile lookup: it is refused, and `false` returned.
    pub fn insert(&mut self, chunk: Chunk) -> (accepted: bool)
        ensures
            accepted == (on_grid(chunk.x as int, chunk.y as int) && chunk.tiles@.len() == 256),
            final(self)@ == (if accepted {
                old(self)@.insert((chunk.x as int, chunk.y as int), chunk.tiles@)
            } else {
                old(self)@
            }),
    {
        proof {
            use_type_invariant(&*self);
        }
        if chunk.x % 16 != 0 || chunk.y % 16 != 0 || chunk.tiles.len() != 256 {
            return false;
        }
        let ghost p = (chunk.x as int, chunk.y as int);
        let ghost tiles = chunk.tiles@;
        let k = key_of(chunk.x, chunk.y);
        let mut chunks: HashMap<i64, Chunk> = HashMap::new();
        std::mem::swap(&mut chunks, &mut self.chunks);
        chunks.insert(k, chunk);
        let ghost before = old(self)@;
        let ghost cm = chunks@;
        self.chunks = chunks;
        assert forall|q: (int, int)| #[trigger] self@.contains_key(q) == before.insert(
            p,
            tiles,
        ).contains_key(q) && (self@.contains_key(q) ==> self@[q] == before.insert(p, tiles)[q]) by {
            if is_i16(q.0) && is_i16(q.1) && chunk_key(q.0, q.1) == k {
                lemma_key_injective(q.0, q.1, p.0, p.1);
            }
        }
        assert(self@ =~= before.insert(p, tiles));
        true
    }

    /// The chunk stored with origin `(x, y)`, if any.
    pub fn get(&self, x: i16, y: i16) -> (r: Option<&Chunk>)
        ensures
            match r {
                Some(c) => self@.contains_key((x as int, y as int)) && c.tiles@ == self@[(
                    x as int,
                    y as int,
                )] && c.x == x && c.y == y && c.tiles@.len() == 256,
                None => !self@.contains_key((x as int, y as int)),
            },
    {
        proof {
            use_type_invariant(self);
        }
        let k = key_of(x, y);
        let r = self.chunks.get(&k);
        match r {
            Some(c) => {
                proof {
                    lemma_key_injective(x as int, y as int, c.x as int, c.y as int);
                }
            },
            None => {},
        }
        r
    }
}

/// World tile `p` lies in chunk `c` and holds `id` there.
pub open spec fn chunk_holds(c: Chunk, p: (i16, i16), id: int) -> bool {
    &&& c.x <= p.0 < c.x + 16
    &&& c.y <= p.1 < c.y + 16
    &&& c.tiles@[(p.0 - c.x) + (p.1 - c.y) * 16] == id
}

impl ChunkLayer {
    proof fn lemma_holds_iff_stored(&self, k: i64, p: (i16, i16), id: int)
        requires
            self.inv(),
            self.chunks@.contains_key(k),
        ensures
            chunk_holds(self.chunks@[k], p, id) ==> is_authored(self@, p.0 as int, p.1 as int)
                && stored_tile(self@, p.0 as int, p.1 as int) == id,
    {
        let c = self.chunks@[k];
        if chunk_holds(c, p, id) {
            lemma_origin_of_local(c.x as int, p.0 - c.x);
            lemma_origin_of_local(c.y as int, p.1 - c.y);
            assert(self@.contains_key((c.x as int, c.y as int)));
        }
    }

    proof fn lemma_holds_same_key(&self, j: i64, k: i64, p: (i16, i16), id: int)
        requires
            self.inv(),
            self.chunks@.contains_key(j),
            self.chunks@.contains_key(k),
            chunk_holds(self.chunks@[j], p, id),
            chunk_holds(self.chunks@[k], p, id),
        ensures
            j == k,
    {
        let a = self.chunks@[j];
        let b = self.chunks@[k];
        lemma_origin_of_local(a.x as int, p.0 - a.x);
        lemma_origin_of_local(a.y as int, p.1 - a.y);
        lemma_origin_of_local(b.x as int, p.0 - b.x);
        lemma_origin_of_local(b.y as int, p.1 - b.y);
    }

    proof fn lemma_stored_has_chunk(&self, p: (i16, i16), id: int)
        requires
            self.inv(),
            is_authored(self@, p.0 as int, p.1 as int),
            stored_tile(self@, p.0 as int, p.1 as int) == id,
        ensures
            self.chunks@.contains_key(chunk_key(chunk_origin(p.0 as int), chunk_origin(p.1 as int))
                as i64),
            chunk_holds(
                self.chunks@[chunk_key(chunk_origin(p.0 as int), chunk_origin(p.1 as int)) as i64],
                p,
                id,
            ),
    {
        let k = chunk_key(chunk_origin(p.0 as int), chunk_origin(p.1 as int)) as i64;
        let c = self.chunks@[k];
        lemma_key_injective(
            chunk_origin(p.0 as int),
            chunk_origin(p.1 as int),
            c.x as int,
            c.y as int,
        );
    }

    /// Every world tile of the layer's chunks that holds `id`, each once.
    pub fn positions_of(&self, id: i16) -> (r: Vec<(i16, i16)>)
        ensures
            forall|p: (i16, i16)|
                r@.contains(p) <==> is_authored(self@, p.0 as int, p.1 as int) && stored_tile(
                    self@,
                    p.0 as int,
                    p.1 as int,
                ) == id,
            r@.no_duplicates(),
    {
        proof {
            use_type_invariant(self);
        }
        let mut r: Vec<(i16, i16)> = Vec::new();
        let ghost keys0 = vstd::std_specs::hash::spec_keys_iter(&self.chunks).remaining();
        let ghost mut done: int = 0;
        for k in it: self.chunks.keys()
            invariant
                self.inv(),
                it.seq() == keys0,
                done == it.index(),
                keys0.unref().to_set() == self.chunks@.dom(),
                keys0.no_duplicates(),
                r@.no_duplicates(),
                forall|p: (i16, i16)|
                    r@.contains(p) <==> seen_in(self.chunks@, it.seq(), it.index(), p, id as int),
        {
            proof {
                assert(it.seq().unref()[it.index()] == *k);
                assert(it.seq().unref().to_set().contains(*k));
            }
            let c = self.chunks.get(k).unwrap();
            let ghost n = done;
            let ghost keys = keys0;
            assert(on_grid(c.x as int, c.y as int));
            let mut i: usize = 0;
            while i < 256
                invariant
                    0 <= i <= 256,
                    0 <= n < keys.len(),
                    *c == self.chunks@[*keys[n]],
                    c.tiles@.len() == 256,
                    on_grid(c.x as int, c.y as int),
                    self.inv(),
                    keys == keys0,
                    keys0.unref().to_set() == self.chunks@.dom(),
                    keys0.no_duplicates(),
                    r@.no_duplicates(),
                    forall|p: (i16, i16)|
                        r@.contains(p) <==> seen_in(self.chunks@, keys, n, p, id as int) || (
                        chunk_holds(*c, p, id as int) && (p.0 - c.x) + (p.1 - c.y) * 16 < i),
                decreases 256 - i,
            {
                if c.tiles[i] == id {
                    let q = (c.x + (i % 16) as i16, c.y + (i / 16) as i16);
                    let ghost before = r@;
                    proof {
                        assert(chunk_holds(*c, q, id as int));
                        assert(!before.contains(q)) by {
                            if seen_in(self.chunks@, keys, n, q, id as int) {
                                let j = choose|j: int|
                                    0 <= j < n && #[trigger] chunk_holds(
                                        self.chunks@[*keys[j]],
                                        q,
                                        id as int,
                                    );
                                assert(keys0.unref()[j] == *keys0[j]);
                                assert(keys0.unref().to_set().contains(*keys0[j]));
                                assert(keys0.unref()[n] == *keys0[n]);
                                assert(keys0.unref().to_set().contains(*keys0[n]));
                                self.lemma_holds_same_key(*keys[j], *keys[n], q, id as int);
                            }
                        }
                    }
                    r.push(q);
                    proof {
                        assert forall|a: int, b: int|
                            0 <= a < r@.len() && 0 <= b < r@.len() && a != b implies r@[a]
                            != r@[b] by {
                            if a < before.len() && b < before.len() {
                                assert(before[a] != before[b]);
                            } else if a < before.len() {
                                assert(before.contains(before[a]));
                            } else if b < before.len() {
                                assert(before.contains(before[b]));
                            }
                        }
                        assert forall|p: (i16, i16)|
                            r@.contains(p) <==> seen_in(self.chunks@, keys, n, p, id as int) || (
                            chunk_holds(*c, p, id as int) && (p.0 - c.x) + (p.1 - c.y) * 16 < i
                                + 1) by {
                            if p == q {
                                assert(r@[r@.len() - 1] == q);
                            }
                            if r@.contains(p) && p != q {
                                let w = choose|w: int| 0 <= w < r@.len() && r@[w] == p;
                                assert(before[w] == p);
                                assert(before.contains(p));
                            }
                            if before.contains(p) {
                                let w = choose|w: int| 0 <= w < before.len() && before[w] == p;
                                assert(r@[w] == p);
                            }
                            if chunk_holds(*c, p, id as int) && (p.0 - c.x) + (p.1 - c.y) * 16
                                == i {
                                lemma_local_unique(p.0 - c.x, p.1 - c.y, i as int);
                            }
                        }
                    }
                }
                i += 1;
            }
            proof {
                assert forall|p: (i16, i16)|
                    seen_in(self.chunks@, keys, n + 1, p, id as int) <==> seen_in(
                        self.chunks@,
                        keys,
                        n,
                        p,
                        id as int,
                    ) || chunk_holds(*c, p, id as int) by {
                    if chunk_holds(*c, p, id as int) {
                        assert(chunk_holds(self.chunks@[*keys[n]], p, id as int));
                    }
                    if seen_in(self.chunks@, keys, n + 1, p, id as int) {
                        let j = choose|j: int|
                            0 <= j < n + 1 && #[trigger] chunk_holds(
                                self.chunks@[*keys[j]],
                                p,
                                id as int,
                            );
                        if j < n {
                            assert(seen_in(self.chunks@, keys, n, p, id as int));
                        }
                    }
                }
                done = done + 1;
            }
        }
        proof {
            let keys = keys0;
            assert(done == keys.len());
            assert forall|p: (i16, i16)|
                r@.contains(p) <==> is_authored(self@, p.0 as int, p.1 as int) && stored_tile(
                    self@,
                    p.0 as int,
                    p.1 as int,
                ) == id by {
                if seen_in(self.chunks@, keys, keys.len() as int, p, id as int) {
                    let j = choose|j: int|
                        0 <= j < keys.len() && #[trigger] chunk_holds(
                            self.chunks@[*keys[j]],
                            p,
                            id as int,
                        );
                    assert(keys.unref()[j] == *keys[j]);
                    assert(keys.unref().to_set().contains(*keys[j]));
                    self.lemma_holds_iff_stored(*keys[j], p, id as int);
                }
                if is_authored(self@, p.0 as int, p.1 as int) && stored_tile(
                    self@,
                    p.0 as int,
                    p.1 as int,
                ) == id {
                    self.lemma_stored_has_chunk(p, id as int);
                    let k = chunk_key(chunk_origin(p.0 as int), chunk_origin(p.1 as int)) as i64;
                    assert(keys.unref().to_set().contains(k));
                    let j = choose|j: int| 0 <= j < keys.unref().len() && keys.unref()[j] == k;
                    assert(chunk_holds(self.chunks@[*keys[j]], p, id as int));
                }
            }
        }
        r
    }
}

impl ChunkLayer {
    /// The topmost row at which world column 0 holds a solid tile, if any.
    pub fn top_solid_at_left_edge(&self) -> (r: Option<i16>)
        ensures
            match r {
                Some(y) => flag_of(stored_tile(self@, 0, y as int)) == TileFlag::Collision && forall|
                    z: i16,
                | flag_of(#[trigger] stored_tile(self@, 0, z as int)) == TileFlag::Collision ==> y
                    <= z,
                None => forall|z: i16|
                    flag_of(#[trigger] stored_tile(self@, 0, z as int)) != TileFlag::Collision,
            },
    {
        proof {
            use_type_invariant(self);
        }
        // i32::MAX stands for "none found yet"
        let mut best: i32 = i32::MAX;
        let ghost keys0 = vstd::std_specs::hash::spec_keys_iter(&self.chunks).remaining();
        let ghost mut done: int = 0;
        for k in it: self.chunks.keys()
            invariant
                self.inv(),
                it.seq() == keys0,
                done == it.index(),
                keys0.unref().to_set() == self.chunks@.dom(),
                forall|z: i16| #[trigger] edge_seen(self.chunks@, keys0, done, z) ==> best <= z,
                best == i32::MAX || (is_i16(best as int) && edge_seen(
                    self.chunks@,
                    keys0,
                    done,
                    best as i16,
                )),
        {
            proof {
                assert(it.seq().unref()[it.index()] == *k);
                assert(it.seq().unref().to_set().contains(*k));
            }
            let c = self.chunks.get(k).unwrap();
            let ghost n = done;
            assert(on_grid(c.x as int, c.y as int));
            if c.x == 0 {
                let mut row: usize = 0;
                while row < 16
                    invariant
                        0 <= row <= 16,
                        0 <= n < keys0.len(),
                        *c == self.chunks@[*keys0[n]],
                        c.x == 0,
                        c.tiles@.len() == 256,
                        on_grid(c.x as int, c.y as int),
                        forall|z: i16| #[trigger]
                            edge_cand(self.chunks@, keys0, n, *c, row as int, z) ==> best <= z,
                        best == i32::MAX || (is_i16(best as int) && edge_cand(
                            self.chunks@,
                            keys0,
                            n,
                            *c,
                            row as int,
                            best as i16,
                        )),
                    decreases 16 - row,
                {
                    let tile = c.tiles[row * 16];
                    let y = c.y + row as i16;
                    assert(y - c.y == row);
                    let solid = get_tile_flag(tile).is_collision();
                    proof {
                        assert forall|z: i16|
                            #[trigger] edge_cand(self.chunks@, keys0, n, *c, row + 1, z) <==> edge_cand(
                                self.chunks@,
                                keys0,
                                n,
                                *c,
                                row as int,
                                z,
                            ) || (solid && z == y) by {
                            if edge_solid(*c, z) && z - c.y == row {
                                assert(z == y);
                            }
                            if solid && z == y {
                                assert(edge_solid(*c, z));
                            }
                        }
                    }
                    if solid && (y as i32) < best {
                        best = y as i32;
                    }
                    row += 1;
                }
            }
            proof {
                assert forall|z: i16|
                    #[trigger] edge_seen(self.chunks@, keys0, n + 1, z) <==> edge_cand(
                        self.chunks@,
                        keys0,
                        n,
                        *c,
                        16,
                        z,
                    ) by {
                    if edge_solid(*c, z) {
                        assert(edge_solid(self.chunks@[*keys0[n]], z));
                    }
                    if edge_seen(self.chunks@, keys0, n + 1, z) {
                        let j = choose|j: int|
                            0 <= j < n + 1 && #[trigger] edge_solid(self.chunks@[*keys0[j]], z);
                        if j < n {
                            assert(edge_seen(self.chunks@, keys0, n, z));
                        }
                    }
                }
                if c.x != 0 {
                    assert forall|z: i16| !edge_solid(*c, z) by {}
                }
                done = done + 1;
            }
        }
        proof {
            assert(done == keys0.len());
            assert forall|z: i16|
                edge_seen(self.chunks@, keys0, done, z) <==> flag_of(
                    #[trigger] stored_tile(self@, 0, z as int),
                ) == TileFlag::Collision by {
                if edge_seen(self.chunks@, keys0, done, z) {
                    let j = choose|j: int|
                        0 <= j < keys0.len() && #[trigger] edge_solid(self.chunks@[*keys0[j]], z);
                    assert(keys0.unref()[j] == *keys0[j]);
                    assert(keys0.unref().to_set().contains(*keys0[j]));
                    let c = self.chunks@[*keys0[j]];
                    self.lemma_holds_iff_stored(*keys0[j], (0, z), c.tiles@[(z - c.y) * 16] as int);
                }
                let id = stored_tile(self@, 0, z as int);
                if flag_of(id) == TileFlag::Collision {
                    self.lemma_stored_has_chunk((0, z), id);
                    let k = chunk_key(chunk_origin(0), chunk_origin(z as int)) as i64;
                    assert(keys0.unref().to_set().contains(k));
                    let j = choose|j: int| 0 <= j < keys0.unref().len() && keys0.unref()[j] == k;
                    assert(edge_solid(self.chunks@[*keys0[j]], z));
                }
            }
        }
        if best == i32::MAX {
            None
        } else {
            Some(best as i16)
        }
    }
}

/// Tile `z` of column 0 is solid in a chunk under the first `n` keys, or in
/// chunk `c` above row `row`.
spec fn edge_cand(
    chunks: Map<i64, Chunk>,
    keys: Seq<&i64>,
    n: int,
    c: Chunk,
    row: int,
    z: i16,
) -> bool {
    edge_seen(chunks, keys, n, z) || (edge_solid(c, z) && z - c.y < row)
}

impl ChunkLayer {
    /// The origins of all chunks of the layer, each once.
    pub fn origins(&self) -> (r: Vec<(i16, i16)>)
        ensures
            forall|p: (i16, i16)| r@.contains(p) <==> self@.contains_key((p.0 as int, p.1 as int)),
            r@.no_duplicates(),
    {
        proof {
            use_type_invariant(self);
        }
        let mut r: Vec<(i16, i16)> = Vec::new();
        let ghost keys0 = vstd::std_specs::hash::spec_keys_iter(&self.chunks).remaining();
        let ghost mut done: int = 0;
        for k in it: self.chunks.keys()
            invariant
                self.inv(),
                it.seq() == keys0,
                done == it.index(),
                keys0.unref().to_set() == self.chunks@.dom(),
                keys0.no_duplicates(),
                r@.len() == done,
                forall|j: int|
                    0 <= j < done ==> {
                        let c = self.chunks@[*keys0[j]];
                        #[trigger] r@[j] == (c.x, c.y)
                    },
        {
            proof {
                assert(it.seq().unref()[it.index()] == *k);
                assert(it.seq().unref().to_set().contains(*k));
            }
            let c = self.chunks.get(k).unwrap();
            r.push((c.x, c.y));
            proof {
                done = done + 1;
            }
        }
        proof {
            assert(done == keys0.len());
            assert forall|p: (i16, i16)|
                r@.contains(p) <==> self@.contains_key((p.0 as int, p.1 as int)) by {
                if r@.contains(p) {
                    let j = choose|j: int| 0 <= j < r@.len() && r@[j] == p;
                    assert(keys0.unref()[j] == *keys0[j]);
                    assert(keys0.unref().to_set().contains(*keys0[j]));
                }
                if self@.contains_key((p.0 as int, p.1 as int)) {
                    let k = chunk_key(p.0 as int, p.1 as int) as i64;
                    assert(keys0.unref().to_set().contains(k));
                    let j = choose|j: int| 0 <= j < keys0.unref().len() && keys0.unref()[j] == k;
                    let c = self.chunks@[k];
                    lemma_key_injective(p.0 as int, p.1 as int, c.x as int, c.y as int);
                    assert(r@[j] == p);
                }
            }
            assert forall|a: int, b: int|
                0 <= a < r@.len() && 0 <= b < r@.len() && a != b implies r@[a] != r@[b] by {
                let ca = self.chunks@[*keys0[a]];
                let cb = self.chunks@[*keys0[b]];
                assert(keys0.unref()[a] == *keys0[a]);
                assert(keys0.unref()[b] == *keys0[b]);
                assert(keys0.unref().to_set().contains(*keys0[a]));
                assert(keys0.unref().to_set().contains(*keys0[b]));
                assert(*keys0[a] != *keys0[b]);
            }
        }
        r
    }
}

/// Chunk `c` sits at the level's left edge and holds a solid tile at row `z`
/// of column 0.
pub open spec fn edge_solid(c: Chunk, z: i16) -> bool {
    let id = c.tiles@[(z - c.y) * 16] as int;
    &&& c.x == 0
    &&& chunk_holds(c, (0, z), id)
    &&& flag_of(id) == TileFlag::Collision
}

/// Some chunk under the first `n` keys holds a solid tile at row `z` of
/// column 0.
spec fn edge_seen(chunks: Map<i64, Chunk>, keys: Seq<&i64>, n: int, z: i16) -> bool {
    exists|j: int| 0 <= j < n && #[trigger] edge_solid(chunks[*keys[j]], z)
}

/// Tile `p` holds `id` in one of the chunks under the first `n` keys.
spec fn seen_in(chunks: Map<i64, Chunk>, keys: Seq<&i64>, n: int, p: (i16, i16), id: int) -> bool {
    exists|j: int| 0 <= j < n && #[trigger] chunk_holds(chunks[*keys[j]], p, id)
}

proof fn lemma_local_unique(a: int, b: int, i: int)
    requires
        0 <= a < 16,
        0 <= b < 16,
        a + b * 16 == i,
    ensures
        a == i % 16,
        b == i / 16,
{
}

proof fn lemma_origin_of_local(o: int, l: int)
    requires
        o % 16 == 0,
        0 <= l < 16,
    ensures
        chunk_origin(o + l) == o,
{
}

/// Origin of the chunk that holds tile coordinate `v`.
pub open spec fn chunk_origin(v: int) -> int {
    (v - v % 16)
}

/// A chunk of the layer covers world tile `(x, y)`.
pub open spec fn is_authored(layer: Map<(int, int), Seq<i16>>, x: int, y: int) -> bool {
    layer.contains_key((chunk_origin(x), chunk_origin(y)))
}

/// The id stored at world tile `(x, y)`: 0 where no chunk holds it.
pub open spec fn stored_tile(layer: Map<(int, int), Seq<i16>>, x: int, y: int) -> int {
    let cx = chunk_origin(x);
    let cy = chunk_origin(y);
    let i = (x - cx) + (y - cy) * 16;
    if layer.contains_key((cx, cy)) && i < layer[(cx, cy)].len() {
        layer[(cx, cy)][i] as int
    } else {
        0
    }
}

/// The id that collision sees at world tile `(x, y)`: left of the level a
/// wall, elsewhere the stored id.
pub open spec fn tile_in_layer(layer: Map<(int, int), Seq<i16>>, x: int, y: int) -> int {
    if x < 0 {
        WALL_TILE as int
    } else {
        stored_tile(layer, x, y)
    }
}

pub(crate) fn origin_of(v: i16) -> (r: i16)
    ensures
        r == chunk_origin(v as int),
        0 <= v - r < 16,
{
    let w: i32 = v as i32;
    let m: i32 = w % 16;
    let m2: i32 = if m < 0 { m + 16 } else { m };
    assert(m2 == (v as int) % 16);
    (w - m2) as i16
}

/// Tile id at world tile `(x, y)`. Total: left of the level it is a wall,
/// where no chunk was authored it is empty.
pub fn get_tile(chunks: &ChunkLayer, x: i16, y: i16) -> (r: i16)
    ensures
        r == tile_in_layer(chunks@, x as int, y as int),
        x < 0 ==> r == WALL_TILE,
        x >= 0 && !chunks@.contains_key((chunk_origin(x as int), chunk_origin(y as int))) ==> r
            == 0,
{
    if x < 0 {
        // the left edge of the level acts as a wall
        return WALL_TILE;
    }
    let tx = origin_of(x);
    let ty = origin_of(y);
    match chunks.get(tx, ty) {
        Some(c) => {
            let lx: usize = (x - tx) as usize;
            let ly: usize = (y - ty) as usize;
            match c.tile_at(lx, ly) {
                Some(t) => t,
                None => 0,
            }
        },
        None => 0,
    }
}

} // verus!
