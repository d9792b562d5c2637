use vstd::prelude::*;

verus! {

/// One grid cell. `soil` marks usable ground (always true for tiles made by
/// this library), `seed` a sown seed, `plant` a grown plant.
#[derive(Clone, Copy, PartialEq, Eq, Structural, Debug)]
pub struct Tile {
    pub soil: bool,
    pub seed: bool,
    pub plant: bool,
}

impl Tile {
    /// A tile never carries a seed and a grown plant at once.
    pub open spec fn wf(self) -> bool {
        !(self.seed && self.plant)
    }

    /// Fresh soil, optionally sown with a seed.
    pub fn default(seeded: bool) -> (t: Tile)
        ensures
            t == (Tile { soil: true, seed: seeded, plant: false }),
    {
        let mut tile = Tile { soil: true, seed: false, plant: false };
        if seeded {
            tile.seed = true;
        }
        tile
    }
}

} // verus!
