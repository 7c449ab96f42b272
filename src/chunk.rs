//! Chunks and their tile grids.

use vstd::prelude::*;

verus! {

/// Width and height of a chunk, in tiles.
pub const CHUNK_SIZE: u32 = 8;

/// A chunk's tiles: `grid[i][j]` is the tile at offset `i` along x and `j`
/// along y; `None` is empty space.
pub type TileGrid = Vec<Vec<Option<String>>>;

/// `CHUNK_SIZE` rows of `CHUNK_SIZE` cells each.
pub open spec fn square<T>(g: Seq<Vec<T>>) -> bool {
    &&& g.len() == CHUNK_SIZE
    &&& forall|i: int| 0 <= i < g.len() ==> (#[trigger] g[i])@.len() == CHUNK_SIZE
}

/// Whether `g` has `CHUNK_SIZE` rows of `CHUNK_SIZE` cells.
pub fn is_square<T>(g: &Vec<Vec<T>>) -> (r: bool)
    ensures
        r == square(g@),
{
    if g.len() != CHUNK_SIZE as usize {
        return false;
    }
    let mut i: usize = 0;
    while i < g.len()
        invariant
            i <= g@.len(),
            forall|k: int| 0 <= k < i ==> (#[trigger] g@[k])@.len() == CHUNK_SIZE,
        decreases g@.len() - i,
    {
        if g[i].len() != CHUNK_SIZE as usize {
            return false;
        }
        i = i + 1;
    }
    true
}

/// The tiles of a resident chunk.
pub struct Chunk {
    pub grid: TileGrid,
}

impl Chunk {
    /// A chunk of empty space.
    pub fn new() -> (r: Chunk)
        ensures
            square(r.grid@),
            forall|i: int, j: int|
                0 <= i < CHUNK_SIZE && 0 <= j < CHUNK_SIZE ==> (#[trigger] r.grid@[i]@[j]) is None,
    {
        let mut grid: TileGrid = Vec::new();
        let mut i: u32 = 0;
        while i < CHUNK_SIZE
            invariant
                i <= CHUNK_SIZE,
                grid@.len() == i,
                forall|k: int| 0 <= k < i ==> (#[trigger] grid@[k])@.len() == CHUNK_SIZE,
                forall|k: int, j: int| 0 <= k < i && 0 <= j < CHUNK_SIZE ==> (#[trigger] grid@[k]@[j]) is None,
            decreases CHUNK_SIZE - i,
        {
            let mut row: Vec<Option<String>> = Vec::new();
            let mut j: u32 = 0;
            while j < CHUNK_SIZE
                invariant
                    j <= CHUNK_SIZE,
                    row@.len() == j,
                    forall|k: int| 0 <= k < j ==> (#[trigger] row@[k]) is None,
                decreases CHUNK_SIZE - j,
            {
                row.push(None);
                j = j + 1;
            }
            grid.push(row);
            i = i + 1;
        }
        Chunk { grid }
    }

    /// A chunk holding `grid`.
    pub fn with_grid(grid: TileGrid) -> (r: Chunk)
        ensures
            r.grid == grid,
    {
        Chunk { grid }
    }
}

} // verus!
