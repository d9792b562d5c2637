use vstd::prelude::*;

use crate::field::{lemma_scatter_preserves_plants, spec_scatter, Field};
use crate::rng::rand_below;
use crate::tile::Tile;

verus! {

/// Germination: a seeded tile becomes a planted one; others are unchanged.
pub open spec fn germinate_tile(t: Tile) -> Tile {
    if t.seed {
        Tile { soil: t.soil, seed: false, plant: true }
    } else {
        t
    }
}

/// Spring germination over the whole grid.
pub open spec fn spec_germinate(ts: Seq<Tile>) -> Seq<Tile> {
    Seq::new(ts.len(), |i: int| germinate_tile(ts[i]))
}

/// A tile with its plant (if any) removed.
pub open spec fn unplant_tile(t: Tile) -> Tile {
    Tile { soil: t.soil, seed: t.seed, plant: false }
}

/// One culling scan from index `i` onward, with running plant count `c`:
/// every planted tile raises the count by one, and a planted tile is killed
/// exactly when the count it receives is divisible by `m`.
pub open spec fn spec_cull_from(ts: Seq<Tile>, m: int, i: int, c: int) -> Seq<Tile>
    decreases ts.len() - i,
{
    if i < 0 || i >= ts.len() {
        ts
    } else if ts[i].plant {
        let ts2 = if (c + 1) % m == 0 {
            ts.update(i, unplant_tile(ts[i]))
        } else {
            ts
        };
        spec_cull_from(ts2, m, i + 1, c + 1)
    } else {
        spec_cull_from(ts, m, i + 1, c)
    }
}

/// The whole culling scan: kill every `m`-th planted tile in grid order,
/// counting from 1.
pub open spec fn spec_cull(ts: Seq<Tile>, m: int) -> Seq<Tile> {
    spec_cull_from(ts, m, 0, 0)
}

/// Spring: germinate every seed, then, if a frost strikes, kill every 3rd
/// planted tile in grid order.
pub open spec fn spec_spring(ts: Seq<Tile>, frost: bool) -> Seq<Tile> {
    if frost {
        spec_cull(spec_germinate(ts), 3)
    } else {
        spec_germinate(ts)
    }
}

/// Summer: if a drought strikes, kill every 2nd planted tile in grid order.
pub open spec fn spec_summer(ts: Seq<Tile>, drought: bool) -> Seq<Tile> {
    if drought {
        spec_cull(ts, 2)
    } else {
        ts
    }
}

/// Autumn from index `i` onward: every planted tile scatters seeds to its 8
/// neighbours, in grid order.
pub open spec fn spec_autumn_from(ts: Seq<Tile>, w: int, i: int) -> Seq<Tile>
    decreases ts.len() - i,
{
    if i < 0 || i >= ts.len() {
        ts
    } else {
        let ts2 = if ts[i].plant {
            spec_scatter(ts, i, w)
        } else {
            ts
        };
        spec_autumn_from(ts2, w, i + 1)
    }
}

/// Winter: every plant dies; seeds survive into the next year.
pub open spec fn spec_winter(ts: Seq<Tile>) -> Seq<Tile> {
    Seq::new(ts.len(), |i: int| unplant_tile(ts[i]))
}

/// One full simulated year on the tiles, given the frost and drought draws.
pub open spec fn spec_year(ts: Seq<Tile>, w: int, frost: bool, drought: bool) -> Seq<Tile> {
    spec_winter(spec_autumn_from(spec_summer(spec_spring(ts, frost), drought), w, 0))
}

/// Number of planted tiles among indices `lo <= k < hi` (indices outside the
/// grid count as bare).
pub open spec fn plants_between(ts: Seq<Tile>, lo: int, hi: int) -> int
    decreases hi - lo,
{
    if lo >= hi {
        0
    } else {
        (if 0 <= lo < ts.len() && ts[lo].plant {
            1int
        } else {
            0int
        }) + plants_between(ts, lo + 1, hi)
    }
}

/// The 1-based rank of index `j` in a culling scan: how many planted tiles
/// lie at indices `0..=j`.
pub open spec fn plant_rank(ts: Seq<Tile>, j: int) -> int {
    plants_between(ts, 0, j + 1)
}

impl Field {
    /// Kill every `m`-th planted tile, scanning in grid order with a running
    /// count that starts at 0.
    fn cull(&mut self, m: i32)
        requires
            old(self).wf(),
            1 <= m,
        ensures
            final(self).wf(),
            final(self).same_config(*old(self)),
            final(self).tiles@ == spec_cull(old(self).tiles@, m as int),
    {
        let mut plant_count: i32 = 0;
        let mut i: usize = 0;
        while i < self.tiles.len()
            invariant
                self.wf(),
                self.same_config(*old(self)),
                self.tiles@.len() == old(self).tiles@.len(),
                0 <= i <= self.tiles@.len(),
                0 <= plant_count <= i,
                1 <= m,
                spec_cull_from(self.tiles@, m as int, i as int, plant_count as int)
                    == spec_cull(old(self).tiles@, m as int),
            decreases self.tiles@.len() - i,
        {
            let ghost pre = self.tiles@;
            if self.tiles[i].plant {
                plant_count = plant_count + 1;
                if plant_count % m == 0 {
                    self.tiles[i].plant = false;
                    proof {
                        assert(self.tiles@ =~= pre.update(i as int, unplant_tile(pre[i as int])));
                    }
                }
            }
            i = i + 1;
        }
    }

    /// Spring: germinate every seeded tile into a plant, then, when `frost`
    /// holds, cull every 3rd planted tile in grid order.
    pub fn sim_spring_with(&mut self, frost: bool)
        requires
            old(self).wf(),
        ensures
            final(self).wf(),
            final(self).same_config(*old(self)),
            final(self).tiles@ == spec_spring(old(self).tiles@, frost),
    {
        let mut i: usize = 0;
        while i < self.tiles.len()
            invariant
                self.wf(),
                self.same_config(*old(self)),
                self.tiles@.len() == old(self).tiles@.len(),
                0 <= i <= self.tiles@.len(),
                forall|k: int| 0 <= k < i ==> self.tiles@[k] == germinate_tile(old(self).tiles@[k]),
                forall|k: int| i <= k < self.tiles@.len() ==> self.tiles@[k] == old(self).tiles@[k],
            decreases self.tiles@.len() - i,
        {
            if self.tiles[i].seed {
                self.tiles[i].seed = false;
                self.tiles[i].plant = true;
            }
            i = i + 1;
        }
        proof {
            assert(self.tiles@ =~= spec_germinate(old(self).tiles@));
        }
        if frost {
            self.cull(3);
        }
    }

    /// Spring with a random frost draw (probability 1/2); returns whether a
    /// frost struck.
    pub fn sim_spring(&mut self) -> (frost: bool)
        requires
            old(self).wf(),
        ensures
            final(self).wf(),
            final(self).same_config(*old(self)),
            final(self).tiles@ == spec_spring(old(self).tiles@, frost),
    {
        let frost = rand_below(2) == 1;
        self.sim_spring_with(frost);
        frost
    }

    /// Summer: when `drought` holds, cull every 2nd planted tile in grid
    /// order; otherwise nothing changes.
    pub fn sim_summer_with(&mut self, drought: bool)
        requires
            old(self).wf(),
        ensures
            final(self).wf(),
            final(self).same_config(*old(self)),
            final(self).tiles@ == spec_summer(old(self).tiles@, drought),
    {
        if drought {
            self.cull(2);
        }
    }

    /// Summer with a random drought draw (probability 1/3); returns whether
    /// a drought struck.
    pub fn sim_summer(&mut self) -> (drought: bool)
        requires
            old(self).wf(),
        ensures
            final(self).wf(),
            final(self).same_config(*old(self)),
            final(self).tiles@ == spec_summer(old(self).tiles@, drought),
    {
        let drought = rand_below(3) == 0;
        self.sim_summer_with(drought);
        drought
    }

    /// Autumn: every planted tile scatters seeds to its 8 neighbours, in
    /// grid order. No plant dies in this season.
    pub fn sim_autumn(&mut self)
        requires
            old(self).wf(),
        ensures
            final(self).wf(),
            final(self).same_config(*old(self)),
            final(self).tiles@ == spec_autumn_from(old(self).tiles@, old(self).width as int, 0),
    {
        let length = self.tiles.len();
        let mut i: usize = 0;
        while i < length
            invariant
                self.wf(),
                self.same_config(*old(self)),
                self.tiles@.len() == length,
                length == old(self).tiles@.len(),
                0 <= i <= length,
                spec_autumn_from(self.tiles@, self.width as int, i as int)
                    == spec_autumn_from(old(self).tiles@, self.width as int, 0),
            decreases length - i,
        {
            if self.tiles[i].plant {
                self.plant_seeds(i as i32);
            }
            i = i + 1;
        }
    }

    /// Winter: every plant dies and the field goes bare except for seeds;
    /// the year counter then advances by exactly one.
    pub fn sim_winter(&mut self)
        requires
            old(self).wf(),
            old(self).year < i32::MAX,
        ensures
            final(self).wf(),
            final(self).same_dims(*old(self)),
            final(self).year == old(self).year + 1,
            final(self).tiles@ == spec_winter(old(self).tiles@),
    {
        let mut i: usize = 0;
        while i < self.tiles.len()
            invariant
                self.wf(),
                self.same_config(*old(self)),
                self.tiles@.len() == old(self).tiles@.len(),
                0 <= i <= self.tiles@.len(),
                forall|k: int| 0 <= k < i ==> self.tiles@[k] == unplant_tile(old(self).tiles@[k]),
                forall|k: int| i <= k < self.tiles@.len() ==> self.tiles@[k] == old(self).tiles@[k],
            decreases self.tiles@.len() - i,
        {
            if self.tiles[i].plant {
                self.tiles[i].plant = false;
            }
            i = i + 1;
        }
        proof {
            assert(self.tiles@ =~= spec_winter(old(self).tiles@));
        }
        self.year = self.year + 1;
    }

    /// One simulated year: spring with the given frost outcome, summer with
    /// the given drought outcome, autumn scattering, then winter clearing.
    /// The year counter increments exactly once, inside winter.
    pub fn sim_year_with(&mut self, frost: bool, drought: bool)
        requires
            old(self).wf(),
            old(self).year < i32::MAX,
        ensures
            final(self).wf(),
            final(self).same_dims(*old(self)),
            final(self).year == old(self).year + 1,
            final(self).tiles@ == spec_year(
                old(self).tiles@,
                old(self).width as int,
                frost,
                drought,
            ),
    {
        self.sim_spring_with(frost);
        self.sim_summer_with(drought);
        self.sim_autumn();
        self.sim_winter();
    }

    /// One simulated year with random frost and drought draws; returns the
    /// pair (frost struck, drought struck).
    pub fn sim_year(&mut self) -> (events: (bool, bool))
        requires
            old(self).wf(),
            old(self).year < i32::MAX,
        ensures
            final(self).wf(),
            final(self).same_dims(*old(self)),
            final(self).year == old(self).year + 1,
            final(self).tiles@ == spec_year(
                old(self).tiles@,
                old(self).width as int,
                events.0,
                events.1,
            ),
    {
        let frost = self.sim_spring();
        let drought = self.sim_summer();
        self.sim_autumn();
        self.sim_winter();
        (frost, drought)
    }
}

/// Two grids with the same plant flags over `lo <= k < hi` hold the same
/// number of plants there.
proof fn lemma_plants_between_equal(ts1: Seq<Tile>, ts2: Seq<Tile>, lo: int, hi: int)
    requires
        ts1.len() == ts2.len(),
        forall|k: int| lo <= k < hi && 0 <= k < ts1.len() ==> ts1[k].plant == ts2[k].plant,
    ensures
        plants_between(ts1, lo, hi) == plants_between(ts2, lo, hi),
    decreases hi - lo,
{
    if lo < hi {
        lemma_plants_between_equal(ts1, ts2, lo + 1, hi);
    }
}

/// Full characterisation of a culling scan that starts at index `i` with
/// running count `c`: the prefix is untouched, soil and seed flags are kept
/// everywhere, and a scanned tile stays planted exactly when the count it
/// receives is not divisible by `m`.
proof fn lemma_cull_from_char(ts: Seq<Tile>, m: int, i: int, c: int)
    requires
        m >= 1,
        0 <= i <= ts.len(),
    ensures
        spec_cull_from(ts, m, i, c).len() == ts.len(),
        forall|j: int| 0 <= j < i ==> spec_cull_from(ts, m, i, c)[j] == ts[j],
        forall|j: int| i <= j < ts.len() ==> spec_cull_from(ts, m, i, c)[j].soil == ts[j].soil,
        forall|j: int| i <= j < ts.len() ==> spec_cull_from(ts, m, i, c)[j].seed == ts[j].seed,
        forall|j: int|
            i <= j < ts.len() ==> (spec_cull_from(ts, m, i, c)[j].plant <==> (ts[j].plant && (c
                + plants_between(ts, i, j + 1)) % m != 0)),
    decreases ts.len() - i,
{
    let r = spec_cull_from(ts, m, i, c);
    if i >= ts.len() {
        assert(r == ts);
    } else if ts[i].plant {
        let c2 = c + 1;
        let ts2 = if c2 % m == 0 {
            ts.update(i, unplant_tile(ts[i]))
        } else {
            ts
        };
        assert(r == spec_cull_from(ts2, m, i + 1, c2));
        lemma_cull_from_char(ts2, m, i + 1, c2);
        assert forall|j: int| 0 <= j < i implies r[j] == ts[j] by {
            assert(r[j] == ts2[j]);
            assert(ts2[j] == ts[j]);
        };
        assert forall|j: int|
            i <= j < ts.len() implies r[j].soil == ts[j].soil && r[j].seed == ts[j].seed && (
        r[j].plant <==> (ts[j].plant && (c + plants_between(ts, i, j + 1)) % m != 0)) by {
            assert(plants_between(ts, i, j + 1) == 1 + plants_between(ts, i + 1, j + 1));
            if j == i {
                assert(r[i] == ts2[i]);
                assert(plants_between(ts, i + 1, i + 1) == 0);
            } else {
                lemma_plants_between_equal(ts2, ts, i + 1, j + 1);
                assert(r[j].soil == ts2[j].soil);
                assert(r[j].seed == ts2[j].seed);
                assert(r[j].plant <==> (ts2[j].plant && (c2 + plants_between(ts2, i + 1, j + 1))
                    % m != 0));
                assert(ts2[j] == ts[j]);
            }
        };
    } else {
        assert(r == spec_cull_from(ts, m, i + 1, c));
        lemma_cull_from_char(ts, m, i + 1, c);
        assert forall|j: int|
            i <= j < ts.len() implies r[j].soil == ts[j].soil && r[j].seed == ts[j].seed && (
        r[j].plant <==> (ts[j].plant && (c + plants_between(ts, i, j + 1)) % m != 0)) by {
            assert(plants_between(ts, i, j + 1) == plants_between(ts, i + 1, j + 1));
            if j == i {
                assert(r[i] == ts[i]);
            } else {
                assert(r[j].plant <==> (ts[j].plant && (c + plants_between(ts, i + 1, j + 1)) % m
                    != 0));
            }
        };
    }
}

/// Frost and drought culls are deterministic given the planted tiles and the
/// modulus (3 for frost, 2 for drought): soil and seed flags are kept
/// everywhere, and the tile at index `j` stays planted exactly when it was
/// planted and its 1-based rank among planted tiles in grid order is not
/// divisible by `m`.
pub proof fn lemma_cull_kills_every_mth(ts: Seq<Tile>, m: int)
    requires
        m >= 1,
    ensures
        spec_cull(ts, m).len() == ts.len(),
        forall|j: int| 0 <= j < ts.len() ==> spec_cull(ts, m)[j].soil == ts[j].soil,
        forall|j: int| 0 <= j < ts.len() ==> spec_cull(ts, m)[j].seed == ts[j].seed,
        forall|j: int|
            0 <= j < ts.len() ==> (spec_cull(ts, m)[j].plant <==> (ts[j].plant && plant_rank(ts, j)
                % m != 0)),
{
    lemma_cull_from_char(ts, m, 0, 0);
}

/// Germination comes first in spring, and nothing in spring sows: after
/// spring no tile is seeded, and absent frost every previously seeded tile
/// carries a plant.
pub proof fn lemma_spring_germination(ts: Seq<Tile>, frost: bool)
    ensures
        spec_spring(ts, frost).len() == ts.len(),
        forall|j: int| 0 <= j < ts.len() ==> !spec_spring(ts, frost)[j].seed,
        !frost ==> forall|j: int|
            0 <= j < ts.len() && ts[j].seed ==> spec_spring(ts, frost)[j].plant,
{
    let g = spec_germinate(ts);
    if frost {
        lemma_cull_kills_every_mth(g, 3);
        assert forall|j: int| 0 <= j < ts.len() implies !spec_spring(ts, frost)[j].seed by {
            assert(spec_cull(g, 3)[j].seed == g[j].seed);
            assert(g[j] == germinate_tile(ts[j]));
        };
    } else {
        assert forall|j: int| 0 <= j < ts.len() implies !spec_spring(ts, frost)[j].seed by {
            assert(g[j] == germinate_tile(ts[j]));
        };
    }
}

/// Autumn only adds seeds: no plant is created or destroyed, soil is
/// unchanged, and no existing seed is lost.
pub proof fn lemma_autumn_preserves_plants(ts: Seq<Tile>, w: int, i: int)
    requires
        0 <= i <= ts.len(),
    ensures
        spec_autumn_from(ts, w, i).len() == ts.len(),
        forall|j: int| 0 <= j < ts.len() ==> spec_autumn_from(ts, w, i)[j].plant == ts[j].plant,
        forall|j: int| 0 <= j < ts.len() ==> spec_autumn_from(ts, w, i)[j].soil == ts[j].soil,
        forall|j: int| 0 <= j < ts.len() && ts[j].seed ==> spec_autumn_from(ts, w, i)[j].seed,
    decreases ts.len() - i,
{
    if i < ts.len() {
        let ts2 = if ts[i].plant {
            spec_scatter(ts, i, w)
        } else {
            ts
        };
        lemma_scatter_preserves_plants(ts, i, w);
        lemma_autumn_preserves_plants(ts2, w, i + 1);
    }
}

} // verus!
