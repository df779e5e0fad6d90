//! The position cache of the search: scores found so far, by position, side
//! to move and remaining depth.

use crate::types::{Colour, Tile, Type};
use std::collections::HashMap;
use vstd::prelude::*;

verus! {

broadcast use vstd::std_specs::hash::group_hash_axioms;

/// What a cached score belongs to: the tiles of a position, the side to
/// move and the remaining search depth.
#[derive(Copy, Clone)]
pub struct PositionKey {
    pub tiles: [[Tile; 8]; 8],
    pub is_white: bool,
    pub depth: i32,
}

/// The key of the given tiles, side to move and remaining depth.
pub open spec fn position_key(tiles: [[Tile; 8]; 8], is_white: bool, depth: i32) -> PositionKey {
    PositionKey { tiles, is_white, depth }
}

/// One remembered score.
struct CacheEntry {
    key: PositionKey,
    score: i32,
}

/// A map from position keys to scores. Entries are found again through a
/// fingerprint of their key, and compared in full before they are used.
pub struct PositionCache {
    buckets: HashMap<u64, Vec<CacheEntry>>,
}

/// A number for each kind of piece.
spec fn kind_code(kind: Type) -> u64 {
    match kind {
        Type::Empty => 0,
        Type::Pawn(false) => 1,
        Type::Pawn(true) => 2,
        Type::Rook(false) => 3,
        Type::Rook(true) => 4,
        Type::Knight => 5,
        Type::Bishop => 6,
        Type::Queen => 7,
        Type::King(false) => 8,
        Type::King(true) => 9,
    }
}

/// A number for what stands on a tile.
spec fn tile_code(tile: Tile) -> u64 {
    if tile.piece.colour == Colour::White {
        kind_code(tile.piece.piece_type)
    } else {
        (kind_code(tile.piece.piece_type) + 10) as u64
    }
}

/// Folds one more number into a fingerprint.
spec fn mix(hash: u64, code: u64) -> u64 {
    hash.wrapping_mul(1099511628211).wrapping_add(code)
}

/// The fingerprint of the first `n` tiles in row-major order.
spec fn tiles_fingerprint(tiles: [[Tile; 8]; 8], n: nat) -> u64
    decreases n,
{
    if n == 0 {
        14695981039346656037
    } else {
        mix(tiles_fingerprint(tiles, (n - 1) as nat), tile_code(tiles[(n - 1) / 8][(n - 1) % 8]))
    }
}

/// The number under which the entries of a key are kept.
spec fn fingerprint(key: PositionKey) -> u64 {
    mix(
        mix(
            tiles_fingerprint(key.tiles, 64),
            if key.is_white {
                1
            } else {
                0
            },
        ),
        key.depth as u32 as u64,
    )
}

/// The score of the first of the first `n` entries that has the key `key`.
spec fn first_match(entries: Seq<CacheEntry>, key: PositionKey, n: nat) -> Option<i32>
    decreases n,
{
    if n == 0 {
        None
    } else {
        match first_match(entries, key, (n - 1) as nat) {
            Some(score) => Some(score),
            None => if entries[n - 1].key == key {
                Some(entries[n - 1].score)
            } else {
                None
            },
        }
    }
}

/// Once found, a match stays the first.
proof fn lemma_first_match_stays(entries: Seq<CacheEntry>, key: PositionKey, i: nat, n: nat)
    requires
        first_match(entries, key, i) is Some,
        i <= n,
    ensures
        first_match(entries, key, n) == first_match(entries, key, i),
    decreases n,
{
    if i < n {
        lemma_first_match_stays(entries, key, i, (n - 1) as nat);
    }
}

/// Two lists that agree on the entries of a key give it the same match.
proof fn lemma_first_match_agrees(
    one: Seq<CacheEntry>,
    two: Seq<CacheEntry>,
    key: PositionKey,
    n: nat,
)
    requires
        n <= one.len(),
        n <= two.len(),
        forall|j: int| 0 <= j < n ==> (#[trigger] one[j].key == key) == (two[j].key == key),
        forall|j: int| 0 <= j < n && one[j].key == key ==> #[trigger] one[j].score == two[j].score,
    ensures
        first_match(one, key, n) == first_match(two, key, n),
    decreases n,
{
    if n > 0 {
        lemma_first_match_agrees(one, two, key, (n - 1) as nat);
        assert((one[n - 1].key == key) == (two[n - 1].key == key));
    }
}

impl PositionCache {
    /// The entries kept under the fingerprint of `key`.
    spec fn bucket(&self, key: PositionKey) -> Seq<CacheEntry> {
        if self.buckets@.contains_key(fingerprint(key)) {
            self.buckets@[fingerprint(key)]@
        } else {
            Seq::empty()
        }
    }

    /// The score remembered for `key`, if any.
    spec fn find(&self, key: PositionKey) -> Option<i32> {
        first_match(self.bucket(key), key, self.bucket(key).len())
    }
}

impl View for PositionCache {
    type V = Map<PositionKey, int>;

    /// The cache as a map from keys to scores.
    closed spec fn view(&self) -> Map<PositionKey, int> {
        Map::new(
            |key: PositionKey| self.find(key) is Some,
            |key: PositionKey| self.find(key)->0 as int,
        )
    }
}

/// The number of a tile.
fn code_of(tile: &Tile) -> (code: u64)
    ensures
        code == tile_code(*tile),
{
    let kind: u64 = match tile.piece.piece_type {
        Type::Empty => 0,
        Type::Pawn(false) => 1,
        Type::Pawn(true) => 2,
        Type::Rook(false) => 3,
        Type::Rook(true) => 4,
        Type::Knight => 5,
        Type::Bishop => 6,
        Type::Queen => 7,
        Type::King(false) => 8,
        Type::King(true) => 9,
    };
    match tile.piece.colour {
        Colour::White => kind,
        Colour::Black => kind + 10,
    }
}

/// The fingerprint of a key.
fn fingerprint_of(tiles: &[[Tile; 8]; 8], is_white: bool, depth: i32) -> (hash: u64)
    ensures
        hash == fingerprint(position_key(*tiles, is_white, depth)),
{
    let mut hash: u64 = 14695981039346656037;
    let mut k: usize = 0;
    while k < 64
        invariant
            k <= 64,
            hash == tiles_fingerprint(*tiles, k as nat),
        decreases 64 - k,
    {
        let code = code_of(&tiles[k / 8][k % 8]);
        hash = hash.wrapping_mul(1099511628211).wrapping_add(code);
        k += 1;
    }
    let side: u64 = if is_white {
        1
    } else {
        0
    };
    hash = hash.wrapping_mul(1099511628211).wrapping_add(side);
    hash.wrapping_mul(1099511628211).wrapping_add(depth as u32 as u64)
}

/// Whether two rows hold the same tiles.
fn same_row(one: &[Tile; 8], two: &[Tile; 8]) -> (same: bool)
    ensures
        same == (*one == *two),
{
    let mut col: usize = 0;
    while col < 8
        invariant
            col <= 8,
            forall|c: int| 0 <= c < col ==> one[c] == two[c],
        decreases 8 - col,
    {
        if one[col] != two[col] {
            return false;
        }
        col += 1;
    }
    assert(*one =~= *two);
    true
}

/// Whether two grids hold the same tiles.
fn same_tiles(one: &[[Tile; 8]; 8], two: &[[Tile; 8]; 8]) -> (same: bool)
    ensures
        same == (*one == *two),
{
    let mut row: usize = 0;
    while row < 8
        invariant
            row <= 8,
            forall|r: int| 0 <= r < row ==> one[r] == two[r],
        decreases 8 - row,
    {
        if !same_row(&one[row], &two[row]) {
            return false;
        }
        row += 1;
    }
    assert(*one =~= *two);
    true
}

/// Whether an entry has the given key.
fn has_key(entry: &CacheEntry, tiles: &[[Tile; 8]; 8], is_white: bool, depth: i32) -> (same: bool)
    ensures
        same == (entry.key == position_key(*tiles, is_white, depth)),
{
    entry.key.is_white == is_white && entry.key.depth == depth && same_tiles(
        &entry.key.tiles,
        tiles,
    )
}

/// The index of the first entry with the given key.
fn position_of(
    entries: &Vec<CacheEntry>,
    tiles: &[[Tile; 8]; 8],
    is_white: bool,
    depth: i32,
) -> (at: Option<usize>)
    ensures
        match at {
            Some(i) => {
                &&& i < entries.len()
                &&& entries[i as int].key == position_key(*tiles, is_white, depth)
                &&& first_match(
                    entries@,
                    position_key(*tiles, is_white, depth),
                    i as nat,
                ) is None
            },
            None => first_match(
                entries@,
                position_key(*tiles, is_white, depth),
                entries@.len(),
            ) is None,
        },
{
    let ghost key = position_key(*tiles, is_white, depth);
    let mut i: usize = 0;
    while i < entries.len()
        invariant
            i <= entries.len(),
            key == position_key(*tiles, is_white, depth),
            first_match(entries@, key, i as nat) is None,
        decreases entries.len() - i,
    {
        if has_key(&entries[i], tiles, is_white, depth) {
            return Some(i);
        }
        i += 1;
    }
    None
}

impl PositionCache {
    /// An empty cache.
    pub fn new() -> (cache: Self)
        ensures
            cache@ == Map::<PositionKey, int>::empty(),
    {
        let cache = PositionCache { buckets: HashMap::new() };
        assert(cache@ =~= Map::<PositionKey, int>::empty());
        cache
    }

    /// The score remembered for exactly these tiles, this side to move and
    /// this depth.
    pub fn get(&self, tiles: &[[Tile; 8]; 8], is_white: bool, depth: i32) -> (found: Option<i32>)
        ensures
            match found {
                Some(score) => self@.contains_key(position_key(*tiles, is_white, depth))
                    && self@[position_key(*tiles, is_white, depth)] == score,
                None => !self@.contains_key(position_key(*tiles, is_white, depth)),
            },
    {
        let ghost key = position_key(*tiles, is_white, depth);
        let hash = fingerprint_of(tiles, is_white, depth);
        match self.buckets.get(&hash) {
            Some(entries) => {
                match position_of(entries, tiles, is_white, depth) {
                    Some(i) => {
                        proof {
                            assert(first_match(entries@, key, (i + 1) as nat) == Some(
                                entries[i as int].score,
                            ));
                            lemma_first_match_stays(
                                entries@,
                                key,
                                (i + 1) as nat,
                                entries@.len(),
                            );
                        }
                        Some(entries[i].score)
                    },
                    None => None,
                }
            },
            None => None,
        }
    }

    /// Remembers `score` for these tiles, this side to move and this depth,
    /// in place of any score remembered for them before.
    pub fn insert(&mut self, tiles: [[Tile; 8]; 8], is_white: bool, depth: i32, score: i32)
        ensures
            final(self)@ == old(self)@.insert(position_key(tiles, is_white, depth), score as int),
    {
        let key = PositionKey { tiles, is_white, depth };
        let hash = fingerprint_of(&tiles, is_white, depth);
        let mut entries = match self.buckets.remove(&hash) {
            Some(entries) => entries,
            None => Vec::new(),
        };
        let ghost before = entries@;
        assert(before == old(self).bucket(key));
        match position_of(&entries, &tiles, is_white, depth) {
            Some(i) => {
                entries.set(i, CacheEntry { key, score });
                proof {
                    assert(first_match(entries@, key, (i + 1) as nat) == Some(score)) by {
                        lemma_first_match_agrees(before, entries@, key, i as nat);
                    }
                    lemma_first_match_stays(entries@, key, (i + 1) as nat, entries@.len());
                }
            },
            None => {
                entries.push(CacheEntry { key, score });
                proof {
                    lemma_first_match_agrees(before, entries@, key, before.len());
                }
            },
        }
        let ghost after = entries@;
        self.buckets.insert(hash, entries);
        proof {
            assert(self.bucket(key) == after);
            assert(self.find(key) == Some(score));
            assert forall|other: PositionKey| other != key implies self.find(other) == old(
                self,
            ).find(other) by {
                if fingerprint(other) == hash {
                    assert(self.bucket(other) == after);
                    assert(old(self).bucket(other) == before);
                    lemma_first_match_agrees(before, after, other, before.len());
                    if after.len() > before.len() {
                        assert(first_match(after, other, after.len()) == first_match(
                            after,
                            other,
                            before.len(),
                        ));
                    }
                } else {
                    assert(self.bucket(other) == old(self).bucket(other));
                }
            }
            assert(self@ =~= old(self)@.insert(key, score as int));
        }
    }
}

} // verus!
