//! Choosing the map grid size of a room from the tiles it holds.
use vstd::prelude::*;

use crate::schema::{background_index, find_background, BackgroundDef, Gms2TileLayer, RoomData, TileData};

verus! {

// ---------------------------------------------------------------------------------------------
// GMS2 tile layers
// ---------------------------------------------------------------------------------------------

/// Number of non-zero tile words in the first `c` cells of a row.
pub open spec fn nonzero_in_row(row: Seq<u32>, c: int) -> nat
    decreases c,
{
    if c <= 0 {
        0
    } else {
        nonzero_in_row(row, c - 1) + if row[c - 1] != 0 { 1nat } else { 0nat }
    }
}

/// Number of non-zero tile words in the first `r` rows of a layer.
pub open spec fn nonzero_in_rows(rows: Seq<Vec<u32>>, r: int) -> nat
    decreases r,
{
    if r <= 0 {
        0
    } else {
        nonzero_in_rows(rows, r - 1) + nonzero_in_row(rows[r - 1]@, rows[r - 1]@.len() as int)
    }
}

/// Number of non-zero tile words of a layer.
pub open spec fn layer_nonzero(layer: Gms2TileLayer) -> nat {
    nonzero_in_rows(layer.tile_data@, layer.tile_data@.len() as int)
}

/// `n`, capped at the largest `u64`.
pub open spec fn cap_u64(n: nat) -> nat {
    if n > u64::MAX {
        u64::MAX as nat
    } else {
        n
    }
}

/// The GMS2 tile size a layer votes for, if its tileset is known and records one.
pub open spec fn layer_key(bgs: Seq<BackgroundDef>, layer: Gms2TileLayer) -> Option<(u32, u32)> {
    match background_index(bgs, layer.background@) {
        Some(i) => if bgs[i].gms2_tile_width != 0 && bgs[i].gms2_tile_height != 0 {
            Some((bgs[i].gms2_tile_width, bgs[i].gms2_tile_height))
        } else {
            None
        },
        None => None,
    }
}

/// The weight of a layer's vote: its non-zero tiles (capped), and at least one.
pub open spec fn layer_weight(layer: Gms2TileLayer) -> nat {
    let n = cap_u64(layer_nonzero(layer));
    if n == 0 {
        1
    } else {
        n
    }
}

/// Sum of the votes for tile size `k` among the first `n` layers.
pub open spec fn key_votes(bgs: Seq<BackgroundDef>, layers: Seq<Gms2TileLayer>, n: int, k: (u32, u32)) -> nat
    decreases n,
{
    if n <= 0 {
        0
    } else {
        key_votes(bgs, layers, n - 1, k) + if layer_key(bgs, layers[n - 1]) == Some(k) {
            layer_weight(layers[n - 1])
        } else {
            0nat
        }
    }
}

/// Whether some of the first `n` layers votes for tile size `k`.
pub open spec fn key_voted(bgs: Seq<BackgroundDef>, layers: Seq<Gms2TileLayer>, n: int, k: (u32, u32)) -> bool {
    exists|j: int| 0 <= j < n && layer_key(bgs, layers[j]) == Some(k)
}

/// The score of tile size `k` in the GMS2 vote: total votes (capped), whether it is
/// square, and its width; compared lexicographically.
pub open spec fn key_score_le(a: (nat, bool, u32), b: (nat, bool, u32)) -> bool {
    a.0 < b.0 || (a.0 == b.0 && ((!a.1 && b.1) || (a.1 == b.1 && a.2 <= b.2)))
}

pub open spec fn key_score(room: RoomData, bgs: Seq<BackgroundDef>, k: (u32, u32)) -> (nat, bool, u32) {
    let layers = room.gms2_tile_layers@;
    (cap_u64(key_votes(bgs, layers, layers.len() as int, k)), k.0 == k.1, k.0)
}

/// `k` is a tile size that wins the GMS2 vote of the room.
pub open spec fn gms2_winner(room: RoomData, bgs: Seq<BackgroundDef>, k: (u32, u32)) -> bool {
    let layers = room.gms2_tile_layers@;
    &&& key_voted(bgs, layers, layers.len() as int, k)
    &&& forall|k2: (u32, u32)|
        key_voted(bgs, layers, layers.len() as int, k2) ==> key_score_le(
            key_score(room, bgs, k2),
            key_score(room, bgs, k),
        )
}

/// Tile size from the GMS2 layers: the winning size when it is square, else none.
pub open spec fn spec_detect_gms2(room: RoomData, bgs: Seq<BackgroundDef>) -> Option<u32> {
    if exists|k: (u32, u32)| gms2_winner(room, bgs, k) {
        let k = choose|k: (u32, u32)| gms2_winner(room, bgs, k);
        if k.0 == k.1 {
            Some(k.0)
        } else {
            None
        }
    } else {
        None
    }
}

/// Two winners of the GMS2 vote agree on whether they are square, and on the size
/// when they are.
pub proof fn lemma_gms2_winners_agree(room: RoomData, bgs: Seq<BackgroundDef>, a: (u32, u32), b: (u32, u32))
    requires
        gms2_winner(room, bgs, a),
        gms2_winner(room, bgs, b),
    ensures
        (a.0 == a.1) == (b.0 == b.1),
        a.0 == a.1 ==> a == b,
{
}

fn row_nonzero(row: &Vec<u32>) -> (r: u64)
    ensures
        r == cap_u64(nonzero_in_row(row@, row@.len() as int)),
{
    let mut count: u64 = 0;
    let mut c: usize = 0;
    while c < row.len()
        invariant
            c <= row@.len(),
            count == cap_u64(nonzero_in_row(row@, c as int)),
        decreases row.len() - c,
    {
        if row[c] != 0 {
            count = count.saturating_add(1);
        }
        c += 1;
    }
    count
}

fn layer_nonzero_count(layer: &Gms2TileLayer) -> (r: u64)
    ensures
        r == cap_u64(layer_nonzero(*layer)),
{
    let mut count: u64 = 0;
    let mut r: usize = 0;
    while r < layer.tile_data.len()
        invariant
            r <= layer.tile_data@.len(),
            count == cap_u64(nonzero_in_rows(layer.tile_data@, r as int)),
        decreases layer.tile_data.len() - r,
    {
        let n = row_nonzero(&layer.tile_data[r]);
        count = count.saturating_add(n);
        r += 1;
    }
    count
}

/// Tile size from the GMS2 layers of a room: the tile size of the tilesets that the most
/// non-zero tiles use, when that size is square.
fn detect_gms2_room_tile_size(room: &RoomData, backgrounds: &Vec<BackgroundDef>) -> (r: Option<u32>)
    ensures
        r == spec_detect_gms2(*room, backgrounds@),
{
    let ghost bgs = backgrounds@;
    let ghost layers = room.gms2_tile_layers@;
    // Votes per tile size, in order of first vote.
    let mut keys: Vec<(u32, u32)> = Vec::new();
    let mut votes: Vec<u64> = Vec::new();
    let mut i: usize = 0;
    while i < room.gms2_tile_layers.len()
        invariant
            i <= layers.len(),
            layers == room.gms2_tile_layers@,
            bgs == backgrounds@,
            keys@.len() == votes@.len(),
            forall|a: int, b: int| 0 <= a < b < keys@.len() ==> keys@[a] != keys@[b],
            forall|a: int|
                0 <= a < keys@.len() ==> #[trigger] votes@[a] == cap_u64(
                    key_votes(bgs, layers, i as int, keys@[a]),
                ),
            forall|a: int| 0 <= a < keys@.len() ==> key_voted(bgs, layers, i as int, #[trigger] keys@[a]),
            forall|k: (u32, u32)| key_voted(bgs, layers, i as int, k) ==> keys@.contains(k),
        decreases layers.len() - i,
    {
        let layer = &room.gms2_tile_layers[i];
        proof {
            crate::schema::lemma_background_index(bgs, layer.background@);
        }
        let mut key: Option<(u32, u32)> = None;
        if let Some(bi) = find_background(backgrounds, &layer.background) {
            let bg = &backgrounds[bi];
            if bg.gms2_tile_width != 0 && bg.gms2_tile_height != 0 {
                key = Some((bg.gms2_tile_width, bg.gms2_tile_height));
            }
        }
        assert(key == layer_key(bgs, layers[i as int]));
        match key {
            None => {
                assert forall|k: (u32, u32)| #[trigger] key_voted(bgs, layers, i + 1, k) implies keys@.contains(k) by {
                    let j = choose|j: int| 0 <= j < i + 1 && layer_key(bgs, layers[j]) == Some(k);
                    assert(key_voted(bgs, layers, i as int, k));
                }
                assert forall|a: int| 0 <= a < keys@.len() implies key_voted(bgs, layers, i + 1, #[trigger] keys@[a]) by {
                    assert(key_voted(bgs, layers, i as int, keys@[a]));
                    let j = choose|j: int| 0 <= j < i && layer_key(bgs, layers[j]) == Some(keys@[a]);
                    assert(0 <= j < i + 1 && layer_key(bgs, layers[j]) == Some(keys@[a]));
                }
            },
            Some(k) => {
                let nz = layer_nonzero_count(layer);
                let w: u64 = if nz == 0 { 1 } else { nz };
                assert(w == layer_weight(layers[i as int]));
                let mut pos: usize = 0;
                while pos < keys.len() && !(keys[pos].0 == k.0 && keys[pos].1 == k.1)
                    invariant
                        pos <= keys@.len(),
                        forall|a: int| 0 <= a < pos ==> keys@[a] != k,
                    decreases keys.len() - pos,
                {
                    pos += 1;
                }
                let ghost old_keys = keys@;
                let ghost old_votes = votes@;
                if pos < keys.len() && keys[pos].0 == k.0 && keys[pos].1 == k.1 {
                    let v = votes[pos].saturating_add(w);
                    votes.set(pos, v);
                } else {
                    keys.push(k);
                    votes.push(w);
                    assert(!key_voted(bgs, layers, i as int, k)) by {
                        if key_voted(bgs, layers, i as int, k) {
                            assert(old_keys.contains(k));
                            let a = choose|a: int| 0 <= a < old_keys.len() && old_keys[a] == k;
                            assert(old_keys[a] != k);
                        }
                    }
                }
                assert forall|a: int| 0 <= a < keys@.len() implies #[trigger] votes@[a] == cap_u64(
                    key_votes(bgs, layers, i + 1, keys@[a]),
                ) && key_voted(bgs, layers, i + 1, keys@[a]) by {
                    if a < old_keys.len() {
                        assert(key_voted(bgs, layers, i as int, old_keys[a]));
                        let j = choose|j: int| 0 <= j < i && layer_key(bgs, layers[j]) == Some(old_keys[a]);
                        assert(0 <= j < i + 1 && layer_key(bgs, layers[j]) == Some(old_keys[a]));
                    } else {
                        assert(key_votes(bgs, layers, i as int, k) == 0) by {
                            lemma_unvoted_has_no_votes(bgs, layers, i as int, k);
                        }
                    }
                }
                assert forall|k2: (u32, u32)| #[trigger] key_voted(bgs, layers, i + 1, k2) implies keys@.contains(k2) by {
                    let j = choose|j: int| 0 <= j < i + 1 && layer_key(bgs, layers[j]) == Some(k2);
                    if j < i {
                        assert(key_voted(bgs, layers, i as int, k2));
                        assert(old_keys.contains(k2));
                        let a = choose|a: int| 0 <= a < old_keys.len() && old_keys[a] == k2;
                        assert(keys@[a] == k2);
                    } else {
                        assert(keys@[pos as int] == k2 || keys@[keys@.len() - 1] == k2);
                    }
                }
            },
        }
        i += 1;
    }
    // Pick the best-scoring size; equal scores are decided the same way whichever is taken.
    if keys.len() == 0 {
        assert forall|k: (u32, u32)| !gms2_winner(*room, bgs, k) by {
            if gms2_winner(*room, bgs, k) {
                assert(keys@.contains(k));
            }
        }
        return None;
    }
    let mut best: usize = 0;
    let mut j: usize = 1;
    while j < keys.len()
        invariant
            1 <= j <= keys@.len(),
            best < j,
            keys@.len() == votes@.len(),
            forall|a: int| 0 <= a < j ==> key_score_le(
                (votes@[a] as nat, keys@[a].0 == keys@[a].1, keys@[a].0),
                (votes@[best as int] as nat, keys@[best as int].0 == keys@[best as int].1, keys@[best as int].0),
            ),
        decreases keys.len() - j,
    {
        let (bw, bh) = keys[best];
        let (kw, kh) = keys[j];
        let bv = votes[best];
        let kv = votes[j];
        let better = kv > bv || (kv == bv && (((kw == kh) && (bw != bh)) || ((kw == kh) == (bw == bh)
            && kw > bw)));
        if better {
            best = j;
        }
        j += 1;
    }
    let (bw, bh) = keys[best];
    proof {
        let kb = keys@[best as int];
        assert forall|k2: (u32, u32)| key_voted(bgs, layers, layers.len() as int, k2) implies key_score_le(
            key_score(*room, bgs, k2),
            key_score(*room, bgs, kb),
        ) by {
            assert(keys@.contains(k2));
            let a = choose|a: int| 0 <= a < keys@.len() && keys@[a] == k2;
            assert(votes@[a] == cap_u64(key_votes(bgs, layers, i as int, keys@[a])));
        }
        assert(votes@[best as int] == cap_u64(key_votes(bgs, layers, i as int, keys@[best as int])));
        assert(gms2_winner(*room, bgs, kb));
        let k = choose|k: (u32, u32)| gms2_winner(*room, bgs, k);
        lemma_gms2_winners_agree(*room, bgs, k, kb);
    }
    if bw == bh {
        Some(bw)
    } else {
        None
    }
}

proof fn lemma_unvoted_has_no_votes(bgs: Seq<BackgroundDef>, layers: Seq<Gms2TileLayer>, n: int, k: (u32, u32))
    requires
        !key_voted(bgs, layers, n, k),
    ensures
        key_votes(bgs, layers, n, k) == 0,
    decreases n,
{
    if n > 0 {
        assert(!key_voted(bgs, layers, n - 1, k)) by {
            if key_voted(bgs, layers, n - 1, k) {
                let j = choose|j: int| 0 <= j < n - 1 && layer_key(bgs, layers[j]) == Some(k);
                assert(0 <= j < n && layer_key(bgs, layers[j]) == Some(k));
            }
        }
        lemma_unvoted_has_no_votes(bgs, layers, n - 1, k);
        assert(layer_key(bgs, layers[n - 1]) != Some(k)) by {
            if layer_key(bgs, layers[n - 1]) == Some(k) {
                assert(0 <= n - 1 < n);
            }
        }
    }
}

// ---------------------------------------------------------------------------------------------
// GMS1 tiles
// ---------------------------------------------------------------------------------------------

/// The tile's position is on the grid of size `c`.
pub open spec fn position_aligned(t: TileData, c: int) -> bool {
    t.x >= 0 && t.y >= 0 && (t.x as int) % c == 0 && (t.y as int) % c == 0
}

/// The tile is exactly one cell of the grid of size `c`.
pub open spec fn exact_for(t: TileData, c: int) -> bool {
    position_aligned(t, c) && t.width == c && t.height == c
}

/// The tile covers whole cells of the grid of size `c`.
pub open spec fn aligned_for(t: TileData, c: int) -> bool {
    position_aligned(t, c) && (t.width as int) % c == 0 && (t.height as int) % c == 0
}

/// Number of the first `n` tiles that are exactly one cell of size `c`.
pub open spec fn exact_count(tiles: Seq<TileData>, c: int, n: int) -> nat
    decreases n,
{
    if n <= 0 {
        0
    } else {
        exact_count(tiles, c, n - 1) + if exact_for(tiles[n - 1], c) { 1nat } else { 0nat }
    }
}

/// Number of the first `n` tiles that cover whole cells of size `c`.
pub open spec fn aligned_count(tiles: Seq<TileData>, c: int, n: int) -> nat
    decreases n,
{
    if n <= 0 {
        0
    } else {
        aligned_count(tiles, c, n - 1) + if aligned_for(tiles[n - 1], c) { 1nat } else { 0nat }
    }
}

/// A grid size worth considering: the non-zero width or height of some tile.
pub open spec fn gms1_candidate(tiles: Seq<TileData>, c: u32) -> bool {
    c != 0 && exists|i: int| 0 <= i < tiles.len() && (tiles[i].width == c || tiles[i].height == c)
}

/// The score of a grid size: exactly fitting tiles, then whole-cell tiles, then smaller size
/// first. `gms1_score_lt(a, b)`: `a` scores below `b`.
pub open spec fn gms1_score_lt(tiles: Seq<TileData>, a: u32, b: u32) -> bool {
    let n = tiles.len() as int;
    let ea = exact_count(tiles, a as int, n);
    let eb = exact_count(tiles, b as int, n);
    let aa = aligned_count(tiles, a as int, n);
    let ab = aligned_count(tiles, b as int, n);
    ea < eb || (ea == eb && (aa < ab || (aa == ab && a > b)))
}

/// `c` is the best-scoring candidate among those that cover some tile with whole cells.
pub open spec fn gms1_winner(tiles: Seq<TileData>, c: u32) -> bool {
    let n = tiles.len() as int;
    &&& gms1_candidate(tiles, c)
    &&& aligned_count(tiles, c as int, n) > 0
    &&& forall|c2: u32|
        gms1_candidate(tiles, c2) && aligned_count(tiles, c2 as int, n) > 0 && c2 != c
            ==> gms1_score_lt(tiles, c2, c)
}

/// Grid size from the GMS1 tiles: the winning candidate, if any tile is covered by one.
pub open spec fn spec_detect_gms1(room: RoomData) -> Option<u32> {
    let tiles = room.tiles@;
    if exists|c: u32| gms1_winner(tiles, c) {
        Some(choose|c: u32| gms1_winner(tiles, c))
    } else {
        None
    }
}

/// The grid size chosen for a room: from the GMS2 layers, else from the GMS1 tiles, else
/// the fallback (at least 1).
pub open spec fn spec_detect_room_tile_size(room: RoomData, bgs: Seq<BackgroundDef>, fallback: u32) -> u32 {
    match spec_detect_gms2(room, bgs) {
        Some(s) => s,
        None => match spec_detect_gms1(room) {
            Some(c) => c,
            None => if fallback == 0 {
                1
            } else {
                fallback
            },
        },
    }
}

fn grid_counts(tiles: &Vec<TileData>, c: u32) -> (r: (usize, usize))
    requires
        c > 0,
    ensures
        r.0 == exact_count(tiles@, c as int, tiles@.len() as int),
        r.1 == aligned_count(tiles@, c as int, tiles@.len() as int),
{
    let mut exact: usize = 0;
    let mut aligned: usize = 0;
    let mut i: usize = 0;
    while i < tiles.len()
        invariant
            c > 0,
            i <= tiles@.len(),
            exact == exact_count(tiles@, c as int, i as int),
            aligned == aligned_count(tiles@, c as int, i as int),
            exact <= i,
            aligned <= i,
        decreases tiles.len() - i,
    {
        let t = &tiles[i];
        if t.x >= 0 && t.y >= 0 && (t.x as u32) % c == 0 && (t.y as u32) % c == 0 {
            if t.width == c && t.height == c {
                assert((c as int) % (c as int) == 0) by (nonlinear_arith)
                    requires
                        c > 0,
                ;
                exact += 1;
                aligned += 1;
            } else if t.width % c == 0 && t.height % c == 0 {
                aligned += 1;
            }
        }
        i += 1;
    }
    (exact, aligned)
}

/// Grid size from the GMS1 tiles of a room: among the tile widths and heights, the one
/// that the most tiles fit exactly, then that the most tiles cover with whole cells, then
/// the smallest.
fn detect_gms1_room_tile_size(room: &RoomData) -> (r: Option<u32>)
    ensures
        r == spec_detect_gms1(*room),
{
    let ghost tiles = room.tiles@;
    let ghost n = tiles.len() as int;
    // best: (candidate, exact, aligned) of the best candidate seen so far
    let mut best: Option<(u32, usize, usize)> = None;
    let mut i: usize = 0;
    while i < room.tiles.len()
        invariant
            tiles == room.tiles@,
            n == tiles.len(),
            i <= n,
            best matches Some(b) ==> {
                &&& gms1_candidate(tiles, b.0)
                &&& b.1 == exact_count(tiles, b.0 as int, n)
                &&& b.2 == aligned_count(tiles, b.0 as int, n)
                &&& b.2 > 0
                &&& exists|j: int| 0 <= j < i && (tiles[j].width == b.0 || tiles[j].height == b.0)
            },
            forall|j: int, c2: u32|
                0 <= j < i && (tiles[j].width == c2 || tiles[j].height == c2) && c2 != 0
                    && aligned_count(tiles, c2 as int, n) > 0 ==> (best matches Some(b) && (c2 == b.0
                    || gms1_score_lt(tiles, c2, b.0))),
        decreases n - i,
    {
        let mut k: usize = 0;
        while k < 2
            invariant
                tiles == room.tiles@,
                n == tiles.len(),
                i < n,
                k <= 2,
                best matches Some(b) ==> {
                    &&& gms1_candidate(tiles, b.0)
                    &&& b.1 == exact_count(tiles, b.0 as int, n)
                    &&& b.2 == aligned_count(tiles, b.0 as int, n)
                    &&& b.2 > 0
                    &&& exists|j: int| 0 <= j <= i && (tiles[j].width == b.0 || tiles[j].height == b.0)
                },
                forall|j: int, c2: u32|
                    ((0 <= j < i && (tiles[j].width == c2 || tiles[j].height == c2)) || (j == i && ((k > 0
                        && tiles[j].width == c2) || (k > 1 && tiles[j].height == c2)))) && c2 != 0
                        && aligned_count(tiles, c2 as int, n) > 0 ==> (best matches Some(b) && (c2
                        == b.0 || gms1_score_lt(tiles, c2, b.0))),
            decreases 2 - k,
        {
            let c = if k == 0 {
                room.tiles[i].width
            } else {
                room.tiles[i].height
            };
            if c != 0 {
                let (exact, aligned) = grid_counts(&room.tiles, c);
                if aligned > 0 {
                    let better = match best {
                        None => true,
                        Some((bc, be, ba)) => exact > be || (exact == be && (aligned > ba || (aligned
                            == ba && c < bc))),
                    };
                    if better {
                        best = Some((c, exact, aligned));
                    }
                }
            }
            k += 1;
        }
        i += 1;
    }
    match best {
        None => {
            assert forall|c: u32| !gms1_winner(tiles, c) by {
                if gms1_winner(tiles, c) {
                    let j = choose|j: int| 0 <= j < tiles.len() && (tiles[j].width == c || tiles[j].height == c);
                }
            }
            None
        },
        Some((bc, _, _)) => {
            assert(gms1_winner(tiles, bc)) by {
                assert forall|c2: u32|
                    gms1_candidate(tiles, c2) && aligned_count(tiles, c2 as int, n) > 0 && c2 != bc
                        implies gms1_score_lt(tiles, c2, bc) by {
                    let j = choose|j: int| 0 <= j < tiles.len() && (tiles[j].width == c2 || tiles[j].height == c2);
                }
            }
            let ghost w = choose|c: u32| gms1_winner(tiles, c);
            assert(w == bc) by {
                if w != bc {
                    assert(gms1_score_lt(tiles, w, bc));
                    assert(gms1_score_lt(tiles, bc, w));
                }
            }
            Some(bc)
        },
    }
}

/// The grid size for a room's map. GMS2 layers decide first: the tile size of the tilesets
/// used by the most non-zero tiles, when that size is square. Otherwise the GMS1 tiles
/// decide: the tile width or height that the most tiles fit exactly, then that the most
/// tiles cover with whole cells, then the smallest. Otherwise `fallback_tile_size`, and
/// never 0.
pub fn detect_room_tile_size(room: &RoomData, backgrounds: &Vec<BackgroundDef>, fallback_tile_size: u32) -> (r: u32)
    ensures
        r == spec_detect_room_tile_size(*room, backgrounds@, fallback_tile_size),
        r >= 1,
{
    proof {
        lemma_detected_size_positive(*room, backgrounds@, fallback_tile_size);
    }
    match detect_gms2_room_tile_size(room, backgrounds) {
        Some(s) => s,
        None => match detect_gms1_room_tile_size(room) {
            Some(c) => c,
            None => if fallback_tile_size == 0 {
                1
            } else {
                fallback_tile_size
            },
        },
    }
}

/// The grid size chosen for a room is never 0.
pub proof fn lemma_detected_size_positive(room: RoomData, bgs: Seq<BackgroundDef>, fallback: u32)
    ensures
        spec_detect_room_tile_size(room, bgs, fallback) >= 1,
{
    if let Some(s) = spec_detect_gms2(room, bgs) {
        let k = choose|k: (u32, u32)| gms2_winner(room, bgs, k);
        let layers = room.gms2_tile_layers@;
        let j = choose|j: int| 0 <= j < layers.len() && layer_key(bgs, layers[j]) == Some(k);
    } else if let Some(c) = spec_detect_gms1(room) {
    }
}


// ---------------------------------------------------------------------------------------------
// The order of tiles and layers does not matter
// ---------------------------------------------------------------------------------------------

/// The sum of `f` over the elements of `s`.
pub open spec fn sum_of<A>(s: Seq<A>, f: spec_fn(A) -> nat) -> nat
    decreases s.len(),
{
    if s.len() == 0 {
        0
    } else {
        sum_of(s.drop_last(), f) + f(s.last())
    }
}

proof fn lemma_sum_of_remove<A>(s: Seq<A>, f: spec_fn(A) -> nat, i: int)
    requires
        0 <= i < s.len(),
    ensures
        sum_of(s, f) == sum_of(s.remove(i), f) + f(s[i]),
    decreases s.len(),
{
    if i == s.len() - 1 {
        assert(s.remove(i) =~= s.drop_last());
    } else {
        lemma_sum_of_remove(s.drop_last(), f, i);
        assert(s.remove(i).drop_last() =~= s.drop_last().remove(i));
        assert(s.remove(i).last() == s.last());
    }
}

/// Sums over two orderings of the same elements agree.
proof fn lemma_sum_of_perm<A>(s1: Seq<A>, s2: Seq<A>, f: spec_fn(A) -> nat)
    requires
        s1.to_multiset() == s2.to_multiset(),
    ensures
        sum_of(s1, f) == sum_of(s2, f),
    decreases s1.len(),
{
    broadcast use vstd::seq_lib::group_to_multiset_ensures, vstd::multiset::group_multiset_axioms;

    if s1.len() == 0 {
        assert(s2.to_multiset().len() == 0);
        assert(s2.len() == 0);
    } else {
        let x = s1.last();
        assert(s1.contains(x)) by {
            assert(s1[s1.len() - 1] == x);
        }
        assert(s1.to_multiset().count(x) > 0);
        assert(s2.to_multiset().count(x) > 0);
        assert(s2.contains(x));
        let j = choose|j: int| 0 <= j < s2.len() && s2[j] == x;
        assert(s1.remove(s1.len() - 1) =~= s1.drop_last());
        assert(s1.drop_last().to_multiset() == s1.to_multiset().remove(x));
        assert(s2.remove(j).to_multiset() == s2.to_multiset().remove(x));
        lemma_sum_of_perm(s1.drop_last(), s2.remove(j), f);
        lemma_sum_of_remove(s2, f, j);
    }
}

/// Membership is the same in two orderings of the same elements.
proof fn lemma_contains_perm<A>(s1: Seq<A>, s2: Seq<A>, x: A)
    requires
        s1.to_multiset() == s2.to_multiset(),
    ensures
        s1.contains(x) == s2.contains(x),
{
    broadcast use vstd::seq_lib::group_to_multiset_ensures;

    assert(s1.contains(x) == (s1.to_multiset().count(x) > 0));
    assert(s2.contains(x) == (s2.to_multiset().count(x) > 0));
}

pub open spec fn exact_ind(c: int) -> spec_fn(TileData) -> nat {
    |t: TileData|
        if exact_for(t, c) {
            1nat
        } else {
            0nat
        }
}

pub open spec fn aligned_ind(c: int) -> spec_fn(TileData) -> nat {
    |t: TileData|
        if aligned_for(t, c) {
            1nat
        } else {
            0nat
        }
}

pub open spec fn vote_of(bgs: Seq<BackgroundDef>, k: (u32, u32)) -> spec_fn(Gms2TileLayer) -> nat {
    |l: Gms2TileLayer|
        if layer_key(bgs, l) == Some(k) {
            layer_weight(l)
        } else {
            0nat
        }
}

proof fn lemma_counts_as_sums(tiles: Seq<TileData>, c: int, n: int)
    requires
        0 <= n <= tiles.len(),
    ensures
        exact_count(tiles, c, n) == sum_of(tiles.take(n), exact_ind(c)),
        aligned_count(tiles, c, n) == sum_of(tiles.take(n), aligned_ind(c)),
    decreases n,
{
    if n > 0 {
        lemma_counts_as_sums(tiles, c, n - 1);
        assert(tiles.take(n).drop_last() =~= tiles.take(n - 1));
        assert(tiles.take(n).last() == tiles[n - 1]);
    }
}

proof fn lemma_votes_as_sums(bgs: Seq<BackgroundDef>, layers: Seq<Gms2TileLayer>, n: int, k: (u32, u32))
    requires
        0 <= n <= layers.len(),
    ensures
        key_votes(bgs, layers, n, k) == sum_of(layers.take(n), vote_of(bgs, k)),
    decreases n,
{
    if n > 0 {
        lemma_votes_as_sums(bgs, layers, n - 1, k);
        assert(layers.take(n).drop_last() =~= layers.take(n - 1));
        assert(layers.take(n).last() == layers[n - 1]);
    }
}

proof fn lemma_gms1_winner_unique(tiles: Seq<TileData>, a: u32, b: u32)
    requires
        gms1_winner(tiles, a),
        gms1_winner(tiles, b),
    ensures
        a == b,
{
}

/// The grid size chosen for a room does not depend on the order of its tiles or of its GMS2
/// layers: rooms whose tiles and layers are the same up to order get the same size.
pub proof fn lemma_detection_ignores_order(room: RoomData, room2: RoomData, bgs: Seq<BackgroundDef>, fallback: u32)
    requires
        room2.tiles@.to_multiset() == room.tiles@.to_multiset(),
        room2.gms2_tile_layers@.to_multiset() == room.gms2_tile_layers@.to_multiset(),
    ensures
        spec_detect_room_tile_size(room2, bgs, fallback) == spec_detect_room_tile_size(room, bgs, fallback),
{
    broadcast use vstd::seq_lib::group_to_multiset_ensures;

    let t1 = room.tiles@;
    let t2 = room2.tiles@;
    let l1 = room.gms2_tile_layers@;
    let l2 = room2.gms2_tile_layers@;
    assert(t1.len() == t1.to_multiset().len());
    assert(t2.len() == t2.to_multiset().len());
    assert(l1.len() == l1.to_multiset().len());
    assert(l2.len() == l2.to_multiset().len());
    assert(t1.take(t1.len() as int) =~= t1);
    assert(t2.take(t2.len() as int) =~= t2);
    assert(l1.take(l1.len() as int) =~= l1);
    assert(l2.take(l2.len() as int) =~= l2);
    // GMS1: the same counts and candidates for every grid size.
    assert forall|c: int| #![trigger exact_count(t2, c, t2.len() as int)]
        exact_count(t2, c, t2.len() as int) == exact_count(t1, c, t1.len() as int) && aligned_count(
            t2,
            c,
            t2.len() as int,
        ) == aligned_count(t1, c, t1.len() as int) by {
        lemma_counts_as_sums(t1, c, t1.len() as int);
        lemma_counts_as_sums(t2, c, t2.len() as int);
        lemma_sum_of_perm(t2, t1, exact_ind(c));
        lemma_sum_of_perm(t2, t1, aligned_ind(c));
    }
    assert forall|c: u32| #[trigger] gms1_candidate(t2, c) == gms1_candidate(t1, c) by {
        if gms1_candidate(t1, c) {
            let i = choose|i: int| 0 <= i < t1.len() && (t1[i].width == c || t1[i].height == c);
            lemma_contains_perm(t1, t2, t1[i]);
            assert(t1.contains(t1[i]));
            let j = choose|j: int| 0 <= j < t2.len() && t2[j] == t1[i];
        }
        if gms1_candidate(t2, c) {
            let i = choose|i: int| 0 <= i < t2.len() && (t2[i].width == c || t2[i].height == c);
            lemma_contains_perm(t2, t1, t2[i]);
            assert(t2.contains(t2[i]));
            let j = choose|j: int| 0 <= j < t1.len() && t1[j] == t2[i];
        }
    }
    assert forall|c: u32| #[trigger] gms1_winner(t2, c) == gms1_winner(t1, c) by {
        let n = t1.len() as int;
        assert(exact_count(t2, c as int, n) == exact_count(t1, c as int, n));
        assert(gms1_candidate(t2, c) == gms1_candidate(t1, c));
        if gms1_winner(t1, c) {
            assert forall|c2: u32|
                gms1_candidate(t2, c2) && aligned_count(t2, c2 as int, n) > 0 && c2 != c implies gms1_score_lt(
                t2,
                c2,
                c,
            ) by {
                assert(exact_count(t2, c2 as int, n) == exact_count(t1, c2 as int, n));
                assert(gms1_candidate(t2, c2) == gms1_candidate(t1, c2));
                assert(gms1_score_lt(t1, c2, c));
            }
        }
        if gms1_winner(t2, c) {
            assert forall|c2: u32|
                gms1_candidate(t1, c2) && aligned_count(t1, c2 as int, n) > 0 && c2 != c implies gms1_score_lt(
                t1,
                c2,
                c,
            ) by {
                assert(exact_count(t2, c2 as int, n) == exact_count(t1, c2 as int, n));
                assert(gms1_candidate(t2, c2) == gms1_candidate(t1, c2));
                assert(gms1_score_lt(t2, c2, c));
            }
        }
    }
    if exists|c: u32| gms1_winner(t1, c) {
        let a = choose|c: u32| gms1_winner(t1, c);
        assert(gms1_winner(t2, a));
        let b = choose|c: u32| gms1_winner(t2, c);
        assert(gms1_winner(t1, b));
        lemma_gms1_winner_unique(t1, a, b);
        assert(spec_detect_gms1(room2) == spec_detect_gms1(room));
    } else {
        assert forall|c: u32| !gms1_winner(t2, c) by {
            assert(gms1_winner(t2, c) == gms1_winner(t1, c));
        }
        assert(spec_detect_gms1(room2) == spec_detect_gms1(room));
    }
    // GMS2: the same votes for every tile size.
    assert forall|k: (u32, u32)| #[trigger] key_score(room2, bgs, k) == key_score(room, bgs, k) by {
        lemma_votes_as_sums(bgs, l1, l1.len() as int, k);
        lemma_votes_as_sums(bgs, l2, l2.len() as int, k);
        lemma_sum_of_perm(l2, l1, vote_of(bgs, k));
    }
    assert forall|k: (u32, u32)| #[trigger] key_voted(bgs, l2, l2.len() as int, k) == key_voted(
        bgs,
        l1,
        l1.len() as int,
        k,
    ) by {
        if key_voted(bgs, l1, l1.len() as int, k) {
            let i = choose|i: int| 0 <= i < l1.len() && layer_key(bgs, l1[i]) == Some(k);
            lemma_contains_perm(l1, l2, l1[i]);
            assert(l1.contains(l1[i]));
            let j = choose|j: int| 0 <= j < l2.len() && l2[j] == l1[i];
        }
        if key_voted(bgs, l2, l2.len() as int, k) {
            let i = choose|i: int| 0 <= i < l2.len() && layer_key(bgs, l2[i]) == Some(k);
            lemma_contains_perm(l2, l1, l2[i]);
            assert(l2.contains(l2[i]));
            let j = choose|j: int| 0 <= j < l1.len() && l1[j] == l2[i];
        }
    }
    assert forall|k: (u32, u32)| #[trigger] gms2_winner(room2, bgs, k) == gms2_winner(room, bgs, k) by {
        assert(key_score(room2, bgs, k) == key_score(room, bgs, k));
        assert(key_voted(bgs, l2, l2.len() as int, k) == key_voted(bgs, l1, l1.len() as int, k));
        assert forall|k2: (u32, u32)|
            key_voted(bgs, l2, l2.len() as int, k2) == key_voted(bgs, l1, l1.len() as int, k2)
                && key_score(room2, bgs, k2) == key_score(room, bgs, k2) by {
            assert(key_score(room2, bgs, k2) == key_score(room, bgs, k2));
            assert(key_voted(bgs, l2, l2.len() as int, k2) == key_voted(bgs, l1, l1.len() as int, k2));
        }
    }
    if exists|k: (u32, u32)| gms2_winner(room, bgs, k) {
        let a = choose|k: (u32, u32)| gms2_winner(room, bgs, k);
        assert(gms2_winner(room2, bgs, a));
        let b = choose|k: (u32, u32)| gms2_winner(room2, bgs, k);
        assert(gms2_winner(room, bgs, b));
        lemma_gms2_winners_agree(room, bgs, a, b);
        assert(spec_detect_gms2(room2, bgs) == spec_detect_gms2(room, bgs));
    } else {
        assert forall|k: (u32, u32)| !gms2_winner(room2, bgs, k) by {
            assert(gms2_winner(room2, bgs, k) == gms2_winner(room, bgs, k));
        }
        assert(spec_detect_gms2(room2, bgs) == spec_detect_gms2(room, bgs));
    }
}


// ---------------------------------------------------------------------------------------------
// What a GMS2 layer's vote weighs
// ---------------------------------------------------------------------------------------------

pub open spec fn is_nonzero(w: u32) -> bool {
    w != 0
}

pub open spec fn row_tiles(r: Vec<u32>) -> nat {
    r@.filter(|w: u32| is_nonzero(w)).len()
}

proof fn lemma_nonzero_in_row_filter(row: Seq<u32>, c: int)
    requires
        0 <= c <= row.len(),
    ensures
        nonzero_in_row(row, c) == row.take(c).filter(|w: u32| is_nonzero(w)).len(),
    decreases c,
{
    if c == 0 {
        reveal(Seq::filter);
        assert(row.take(0).filter(|w: u32| is_nonzero(w)) =~= Seq::<u32>::empty());
    } else {
        lemma_nonzero_in_row_filter(row, c - 1);
        assert(row.take(c) =~= row.take(c - 1).push(row[c - 1]));
        row.take(c - 1).lemma_filter_push(row[c - 1], |w: u32| is_nonzero(w));
    }
}

/// A GMS2 layer's vote weighs the number of its non-zero tile words (capped, and at least
/// one): the non-zero words of each row, summed over the rows. A zero word adds nothing.
pub proof fn lemma_layer_weight_counts_nonzero_words(layer: Gms2TileLayer)
    ensures
        layer_nonzero(layer) == sum_of(layer.tile_data@, |r: Vec<u32>| row_tiles(r)),
        layer_weight(layer) == (if layer_nonzero(layer) == 0 {
            1
        } else if layer_nonzero(layer) > u64::MAX {
            u64::MAX as nat
        } else {
            layer_nonzero(layer)
        }),
{
    lemma_rows_sum(layer.tile_data@, layer.tile_data@.len() as int);
    assert(layer.tile_data@.take(layer.tile_data@.len() as int) =~= layer.tile_data@);
}

proof fn lemma_rows_sum(rows: Seq<Vec<u32>>, r: int)
    requires
        0 <= r <= rows.len(),
    ensures
        nonzero_in_rows(rows, r) == sum_of(rows.take(r), |x: Vec<u32>| row_tiles(x)),
    decreases r,
{
    if r > 0 {
        lemma_rows_sum(rows, r - 1);
        assert(rows.take(r).drop_last() =~= rows.take(r - 1));
        assert(rows.take(r).last() == rows[r - 1]);
        let row = rows[r - 1]@;
        lemma_nonzero_in_row_filter(row, row.len() as int);
        assert(row.take(row.len() as int) =~= row);
    }
}

} // verus!
