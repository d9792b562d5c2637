use vstd::prelude::*;

use crate::rng::rand_below;
use crate::tile::Tile;

verus! {

/// The full grid: a dense row-major sequence of `height * width` tiles
/// (index = row * width + col), plus the simulation clock and configuration.
pub struct Field {
    pub height: i32,
    pub width: i32,
    pub year: i32,
    pub plant_rarity: i32,
    pub timer: i32,
    pub tiles: Vec<Tile>,
}

/// An all-bare grid of `n` tiles.
pub open spec fn bare_tiles(n: int) -> Seq<Tile> {
    Seq::new(n as nat, |i: int| Tile { soil: true, seed: false, plant: false })
}

/// Sowing one seed at flattened index `p`: a no-op unless `p` is in bounds
/// and names a soil tile without a grown plant; an already-seeded tile is
/// re-seeded idempotently. A grown plant is never overwritten.
pub open spec fn spec_sow(ts: Seq<Tile>, p: int) -> Seq<Tile> {
    if 0 <= p < ts.len() && ts[p].soil && !ts[p].plant {
        ts.update(p, Tile { soil: ts[p].soil, seed: true, plant: ts[p].plant })
    } else {
        ts
    }
}

/// Scattering from a planted tile at index `p`: sow into the 8 neighbours,
/// with the west-side triple guarded by `p % w != 0` (or `p == 0`) and the
/// east-side triple by `p % w - 1 != 0` (or `p == 0`). The guards are a
/// boundary heuristic of the simulation, kept as observable behaviour: they
/// do not suppress horizontal wrap-around for every edge index.
pub open spec fn spec_scatter(ts: Seq<Tile>, p: int, w: int) -> Seq<Tile> {
    let west = if p % w != 0 || p == 0 {
        spec_sow(spec_sow(spec_sow(ts, p - 1), p - (w + 1)), p + (w - 1))
    } else {
        ts
    };
    let east = if p % w - 1 != 0 || p == 0 {
        spec_sow(spec_sow(spec_sow(west, p + 1), p - (w - 1)), p + (w + 1))
    } else {
        west
    };
    spec_sow(spec_sow(east, p - w), p + w)
}

impl Field {
    /// Structural well-formedness: positive dimensions, a dense grid of
    /// exactly `height * width` tiles, room in `i32` for neighbour
    /// arithmetic, and no tile both seeded and planted.
    pub open spec fn wf(self) -> bool {
        &&& 1 <= self.height
        &&& 1 <= self.width
        &&& self.tiles@.len() == self.height * self.width
        &&& self.height * self.width + self.width < i32::MAX
        &&& forall|i: int| 0 <= i < self.tiles@.len() ==> self.tiles@[i].wf()
    }

    /// Dimensions and configuration, without the clock.
    pub open spec fn same_dims(self, other: Field) -> bool {
        &&& self.height == other.height
        &&& self.width == other.width
        &&& self.plant_rarity == other.plant_rarity
        &&& self.timer == other.timer
    }

    /// Everything but the tiles: dimensions, configuration and clock.
    pub open spec fn same_config(self, other: Field) -> bool {
        &&& self.same_dims(other)
        &&& self.year == other.year
    }

    /// Number of tiles in the field.
    pub fn total_tiles(&self) -> (n: usize)
        ensures
            n == self.tiles@.len(),
    {
        self.tiles.len()
    }

    /// A field with randomly seeded tiles: each tile is sown with
    /// probability 1 / `plant_rarity`. The year starts at 1.
    pub fn initialise(height: i32, width: i32, plant_rarity: i32, timer: i32) -> (f: Field)
        requires
            1 <= height,
            1 <= width,
            1 <= plant_rarity,
            height * width + width < i32::MAX,
        ensures
            f.wf(),
            f.height == height,
            f.width == width,
            f.year == 1,
            f.plant_rarity == plant_rarity,
            f.timer == timer,
            f.tiles@.len() == height * width,
            forall|i: int| 0 <= i < f.tiles@.len() ==> f.tiles@[i].soil && !f.tiles@[i].plant,
    {
        let mut x = Field {
            height,
            width,
            year: 1,
            plant_rarity,
            timer,
            tiles: Vec::new(),
        };
        x.populate();
        x
    }

    /// Fill an empty field with `height * width` tiles in row-major order,
    /// sowing each with probability 1 / `plant_rarity`.
    pub fn populate(&mut self)
        requires
            old(self).tiles@.len() == 0,
            1 <= old(self).height,
            1 <= old(self).width,
            1 <= old(self).plant_rarity,
            old(self).height * old(self).width + old(self).width < i32::MAX,
        ensures
            final(self).wf(),
            final(self).same_config(*old(self)),
            forall|i: int|
                0 <= i < final(self).tiles@.len()
                    ==> final(self).tiles@[i].soil && !final(self).tiles@[i].plant,
    {
        let mut i: i32 = 0;
        while i < self.height
            invariant
                0 <= i <= self.height,
                self.same_config(*old(self)),
                1 <= self.height,
                1 <= self.width,
                1 <= self.plant_rarity,
                self.height * self.width + self.width < i32::MAX,
                self.tiles@.len() == i * self.width,
                forall|k: int|
                    0 <= k < self.tiles@.len() ==> self.tiles@[k].soil && !self.tiles@[k].plant
                        && self.tiles@[k].wf(),
            decreases self.height - i,
        {
            let mut j: i32 = 0;
            while j < self.width
                invariant
                    0 <= i < self.height,
                    0 <= j <= self.width,
                    self.same_config(*old(self)),
                    1 <= self.height,
                    1 <= self.width,
                    1 <= self.plant_rarity,
                    self.height * self.width + self.width < i32::MAX,
                    self.tiles@.len() == i * self.width + j,
                    forall|k: int|
                        0 <= k < self.tiles@.len() ==> self.tiles@[k].soil && !self.tiles@[k].plant
                            && self.tiles@[k].wf(),
                decreases self.width - j,
            {
                proof {
                    assert(i * self.width + self.width <= self.height * self.width) by (nonlinear_arith)
                        requires
                            i < self.height,
                            1 <= self.width,
                    ;
                }
                if rand_below(self.plant_rarity) == 0 {
                    self.tiles.push(Tile::default(true));
                } else {
                    self.tiles.push(Tile::default(false));
                }
                j = j + 1;
            }
            proof {
                assert((i + 1) * self.width == i * self.width + self.width) by (nonlinear_arith);
            }
            i = i + 1;
        }
    }

    /// A field seeded only at the tile nearest the grid centre, derived as
    /// row = height / 2 - 1, col = width / 2 - 1 (integer division); for
    /// dimensions where that index falls outside the grid, nothing is sown.
    /// The year starts at 1, and `plant_rarity` is fixed at 1 (unused by
    /// this seeding policy).
    pub fn initialise_center(height: i32, width: i32, timer: i32) -> (f: Field)
        requires
            1 <= height,
            1 <= width,
            height * width + width < i32::MAX,
        ensures
            f.wf(),
            f.height == height,
            f.width == width,
            f.year == 1,
            f.timer == timer,
            f.tiles@ == spec_sow(
                bare_tiles(height * width),
                (height / 2 - 1) * width + (width / 2 - 1),
            ),
    {
        let mut tiles: Vec<Tile> = Vec::new();
        let mut count: i32 = 0;
        while count < height
            invariant
                0 <= count <= height,
                1 <= width,
                height * width + width < i32::MAX,
                tiles@.len() == count * width,
                tiles@ =~= bare_tiles(count * width),
            decreases height - count,
        {
            let mut j: i32 = 0;
            while j < width
                invariant
                    0 <= count < height,
                    0 <= j <= width,
                    1 <= width,
                    height * width + width < i32::MAX,
                    tiles@.len() == count * width + j,
                    tiles@ =~= bare_tiles(count * width + j),
                decreases width - j,
            {
                proof {
                    assert(count * width + width <= height * width) by (nonlinear_arith)
                        requires
                            count < height,
                            1 <= width,
                    ;
                }
                tiles.push(Tile::default(false));
                j = j + 1;
            }
            proof {
                assert((count + 1) * width == count * width + width) by (nonlinear_arith);
            }
            count = count + 1;
        }
        let mut f = Field { height, width, year: 1, plant_rarity: 1, timer, tiles };
        proof {
            assert(f.tiles@ =~= bare_tiles(height * width));
            assert(-width <= (height / 2 - 1) * width <= height * width) by (nonlinear_arith)
                requires
                    1 <= height,
                    1 <= width,
            ;
        }
        let centre = (height / 2 - 1) * width + (width / 2 - 1);
        f.plant_seed(centre);
        f
    }

    /// Sow one seed at flattened index `position`. Out-of-range positions
    /// (negative or past the last tile) are a no-op, as are tiles without
    /// soil or with a grown plant: a plant is never overwritten and a tile
    /// is never un-planted.
    pub fn plant_seed(&mut self, position: i32)
        requires
            old(self).wf(),
        ensures
            final(self).wf(),
            final(self).same_config(*old(self)),
            final(self).tiles@ == spec_sow(old(self).tiles@, position as int),
    {
        if position >= 0 {
            let p = position as usize;
            if p < self.tiles.len() && self.tiles[p].soil && !self.tiles[p].plant {
                self.tiles[p].seed = true;
                proof {
                    assert(self.tiles@ =~= spec_sow(old(self).tiles@, position as int));
                }
            }
        }
    }

    /// Scatter seeds from the planted tile at `position` into its 8
    /// neighbours, under the edge guards of `spec_scatter`.
    pub fn plant_seeds(&mut self, position: i32)
        requires
            old(self).wf(),
            0 <= position < old(self).tiles@.len(),
        ensures
            final(self).wf(),
            final(self).same_config(*old(self)),
            final(self).tiles@ == spec_scatter(
                old(self).tiles@,
                position as int,
                old(self).width as int,
            ),
    {
        proof {
            assert(position + self.width + 1 < i32::MAX);
            assert(position % self.width == (position as int) % (self.width as int));
        }
        if (position % self.width != 0) || (position == 0) {
            self.plant_seed(position - 1);
            self.plant_seed(position - (self.width + 1));
            self.plant_seed(position + (self.width - 1));
        }
        if (position % self.width - 1 != 0) || (position == 0) {
            self.plant_seed(position + 1);
            self.plant_seed(position - (self.width - 1));
            self.plant_seed(position + (self.width + 1));
        }
        self.plant_seed(position - self.width);
        self.plant_seed(position + self.width);
    }
}

/// Sowing at an index that is out of range, without soil, or already holding
/// a grown plant changes nothing; sowing anywhere else only sets that tile's
/// seed flag. In particular a seed never overwrites a plant and no tile is
/// ever un-planted.
pub proof fn lemma_sow_cases(ts: Seq<Tile>, p: int)
    ensures
        (p < 0 || p >= ts.len() || !ts[p].soil || ts[p].plant) ==> spec_sow(ts, p) == ts,
        spec_sow(ts, p).len() == ts.len(),
        forall|j: int| 0 <= j < ts.len() ==> spec_sow(ts, p)[j].plant == ts[j].plant,
        forall|j: int| 0 <= j < ts.len() ==> spec_sow(ts, p)[j].soil == ts[j].soil,
        forall|j: int| 0 <= j < ts.len() && ts[j].seed ==> spec_sow(ts, p)[j].seed,
        forall|j: int| 0 <= j < ts.len() && ts[j].plant ==> spec_sow(ts, p)[j] == ts[j],
{
}

/// Scattering from any index preserves the grid size, every plant and soil
/// flag, and every existing seed: it never overwrites a plant with a seed
/// and never un-plants a tile.
pub proof fn lemma_scatter_preserves_plants(ts: Seq<Tile>, p: int, w: int)
    ensures
        spec_scatter(ts, p, w).len() == ts.len(),
        forall|j: int| 0 <= j < ts.len() ==> spec_scatter(ts, p, w)[j].plant == ts[j].plant,
        forall|j: int| 0 <= j < ts.len() ==> spec_scatter(ts, p, w)[j].soil == ts[j].soil,
        forall|j: int| 0 <= j < ts.len() && ts[j].seed ==> spec_scatter(ts, p, w)[j].seed,
        forall|j: int| 0 <= j < ts.len() && ts[j].plant ==> spec_scatter(ts, p, w)[j] == ts[j],
{
    lemma_sow_cases(ts, p - 1);
    lemma_sow_cases(spec_sow(ts, p - 1), p - (w + 1));
    lemma_sow_cases(spec_sow(spec_sow(ts, p - 1), p - (w + 1)), p + (w - 1));
    let west = if p % w != 0 || p == 0 {
        spec_sow(spec_sow(spec_sow(ts, p - 1), p - (w + 1)), p + (w - 1))
    } else {
        ts
    };
    lemma_sow_cases(west, p + 1);
    lemma_sow_cases(spec_sow(west, p + 1), p - (w - 1));
    lemma_sow_cases(spec_sow(spec_sow(west, p + 1), p - (w - 1)), p + (w + 1));
    let east = if p % w - 1 != 0 || p == 0 {
        spec_sow(spec_sow(spec_sow(west, p + 1), p - (w - 1)), p + (w + 1))
    } else {
        west
    };
    lemma_sow_cases(east, p - w);
    lemma_sow_cases(spec_sow(east, p - w), p + w);
}

} // verus!
