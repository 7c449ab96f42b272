//! Materialising a chunk's grid: reusing the persisted one, or generating it.

use crate::catalog::{classification_allowed, NoiseSample, TileCatalog};
use crate::chunk::{is_square, square, TileGrid, CHUNK_SIZE};
use crate::random::{noise_seed_for, seeded_rng_and_first_draw};
use rand::rngs::StdRng;
use vstd::prelude::*;

verus! {

/// Why a chunk could not be materialised.
#[derive(Clone, Copy, Debug, PartialEq, Eq, Structural)]
pub enum LoadError {
    /// Reading or writing the chunk file failed.
    Io,
    /// The persisted chunk is malformed.
    Deserialization,
    /// The noise samples or the catalog do not fit together.
    Generation,
}

/// A materialised grid, and whether it was generated just now (and so still
/// has to be persisted before anyone may see it).
pub struct LoadedGrid {
    pub grid: TileGrid,
    pub fresh: bool,
}

/// Every cell of `grid` is a classification that `tiles` allows for the
/// sample at the same place.
pub open spec fn generated_from(
    tiles: Seq<crate::catalog::Tile>,
    samples: Seq<Vec<NoiseSample>>,
    grid: Seq<Vec<Option<String>>>,
) -> bool {
    &&& square(grid)
    &&& forall|i: int, j: int|
        0 <= i < CHUNK_SIZE && 0 <= j < CHUNK_SIZE ==> classification_allowed(
            tiles,
            samples[i]@[j] as int,
            #[trigger] grid[i]@[j],
        )
}

/// Two loaders made from one seed sample the same noise field.
pub proof fn lemma_same_seed_same_noise(a: ChunkLoader, b: ChunkLoader, seed: u64)
    requires
        a.noise_seed_of() == noise_seed_for(seed),
        b.noise_seed_of() == noise_seed_for(seed),
    ensures
        a.noise_seed_of() == b.noise_seed_of(),
{
}

/// Generates chunk grids from noise samples with a generator seeded once.
pub struct ChunkLoader {
    rng: StdRng,
    noise_seed: u32,
}

impl ChunkLoader {
    pub closed spec fn noise_seed_of(&self) -> u32 {
        self.noise_seed
    }

    /// A loader for the world seeded with `seed`. The seed of the noise field
    /// is the generator's first draw, so loaders of one seed share it.
    pub fn new(seed: u64) -> (r: ChunkLoader)
        ensures
            r.noise_seed_of() == noise_seed_for(seed),
            r.noise_seed_of() < u32::MAX,
    {
        let (rng, noise_seed) = seeded_rng_and_first_draw(seed);
        ChunkLoader { rng, noise_seed }
    }

    /// The seed of the noise field that the samples are taken from.
    pub fn noise_seed(&self) -> (r: u32)
        ensures
            r == self.noise_seed_of(),
    {
        self.noise_seed
    }

    /// Classifies every sample, row by row.
    pub fn generate(&mut self, samples: &Vec<Vec<NoiseSample>>, catalog: &TileCatalog) -> (r: TileGrid)
        requires
            square(samples@),
            catalog.wf(),
        ensures
            generated_from(catalog.tiles@, samples@, r@),
            final(self).noise_seed_of() == old(self).noise_seed_of(),
    {
        let mut grid: TileGrid = Vec::new();
        let mut i: usize = 0;
        while i < CHUNK_SIZE as usize
            invariant
                square(samples@),
                catalog.wf(),
                self.noise_seed == old(self).noise_seed,
                i <= CHUNK_SIZE,
                grid@.len() == i,
                forall|k: int| 0 <= k < i ==> (#[trigger] grid@[k])@.len() == CHUNK_SIZE,
                forall|k: int, j: int|
                    0 <= k < i && 0 <= j < CHUNK_SIZE ==> classification_allowed(
                        catalog.tiles@,
                        samples@[k]@[j] as int,
                        #[trigger] grid@[k]@[j],
                    ),
            decreases CHUNK_SIZE - i,
        {
            let mut row: Vec<Option<String>> = Vec::new();
            let mut j: usize = 0;
            while j < CHUNK_SIZE as usize
                invariant
                    square(samples@),
                    catalog.wf(),
                    self.noise_seed == old(self).noise_seed,
                    i < CHUNK_SIZE,
                    j <= CHUNK_SIZE,
                    row@.len() == j,
                    forall|k: int|
                        0 <= k < j ==> classification_allowed(
                            catalog.tiles@,
                            samples@[i as int]@[k] as int,
                            #[trigger] row@[k],
                        ),
                decreases CHUNK_SIZE - j,
            {
                assert(samples@[i as int]@.len() == CHUNK_SIZE);
                let cell = catalog.classify(&mut self.rng, samples[i][j]);
                row.push(cell);
                j = j + 1;
            }
            grid.push(row);
            proof {
                assert forall|k: int, j: int|
                    0 <= k < i + 1 && 0 <= j < CHUNK_SIZE implies classification_allowed(
                        catalog.tiles@,
                        samples@[k]@[j] as int,
                        #[trigger] grid@[k]@[j],
                    ) by {
                    if k == i {
                        assert(grid@[k]@ == row@);
                    }
                }
            }
            i = i + 1;
        }
        grid
    }

    /// The grid of a chunk. A persisted grid is returned as it stands, and
    /// nothing is generated or drawn: what was once persisted never changes,
    /// whatever the catalog holds now. Otherwise the grid is generated from
    /// `samples` and marked fresh.
    pub fn load(
        &mut self,
        persisted: Option<TileGrid>,
        samples: &Vec<Vec<NoiseSample>>,
        catalog: &TileCatalog,
    ) -> (r: Result<LoadedGrid, LoadError>)
        ensures
            persisted is Some ==> *final(self) == *old(self),
            persisted matches Some(g) ==> (square(g@) ==> (r matches Ok(l) && l.grid == g && !l.fresh)),
            persisted matches Some(g) ==> (!square(g@) ==> r == Err::<LoadedGrid, LoadError>(
                LoadError::Deserialization,
            )),
            persisted is None ==> (r is Err <==> !(square(samples@) && catalog.wf())),
            persisted is None ==> (r is Err ==> r == Err::<LoadedGrid, LoadError>(LoadError::Generation)),
            persisted is None ==> (r matches Ok(l) ==> l.fresh && generated_from(catalog.tiles@, samples@, l.grid@)),
            final(self).noise_seed_of() == old(self).noise_seed_of(),
    {
        match persisted {
            Some(grid) => {
                if is_square(&grid) {
                    Ok(LoadedGrid { grid, fresh: false })
                } else {
                    Err(LoadError::Deserialization)
                }
            },
            None => {
                if !is_square(samples) || !catalog.is_valid() {
                    return Err(LoadError::Generation);
                }
                let grid = self.generate(samples, catalog);
                Ok(LoadedGrid { grid, fresh: true })
            },
        }
    }
}

} // verus!
