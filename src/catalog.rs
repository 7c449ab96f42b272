//! The tile catalog: rules that turn one noise sample into a tile id.

use crate::random::{choose_one, draw_ratio};
use rand::rngs::StdRng;
use vstd::prelude::*;

verus! {

/// A noise sample in millionths: `1_000_000` stands for `1.0`.
pub type NoiseSample = i32;

/// One rule of the catalog: the closed interval `[min, max]` of samples it
/// accepts, and the chance `numerator / denominator` that it is kept when it
/// does accept.
#[derive(Clone, Debug)]
pub struct Tile {
    pub id: String,
    pub min: NoiseSample,
    pub max: NoiseSample,
    pub numerator: u32,
    pub denominator: u32,
}

impl Tile {
    /// The chance is a probability.
    pub open spec fn valid(self) -> bool {
        &&& 0 < self.denominator
        &&& self.numerator <= self.denominator
    }

    pub open spec fn accepts(self, sample: int) -> bool {
        self.min <= sample <= self.max
    }

    /// The draw always keeps the rule.
    pub open spec fn certain(self) -> bool {
        self.numerator == self.denominator
    }

    pub fn new(id: String, min: NoiseSample, max: NoiseSample, numerator: u32, denominator: u32) -> (r: Tile)
        requires
            0 < denominator,
            numerator <= denominator,
        ensures
            r.valid(),
            r.id == id,
            r.min == min,
            r.max == max,
            r.numerator == numerator,
            r.denominator == denominator,
    {
        Tile { id, min, max, numerator, denominator }
    }

    /// Plain rock: samples from 0.25 to 1.0, always kept.
    pub fn asteroid_1() -> (r: Tile)
        ensures
            r.valid(),
            r.id@ == seq!['a', 's', 't', 'e', 'r', 'o', 'i', 'd', '_', '1'],
            r.min == 250_000,
            r.max == 1_000_000,
            r.numerator == 1,
            r.denominator == 1,
    {
        proof {
            reveal_strlit("asteroid_1");
        }
        Tile::new(String::from_str("asteroid_1"), 250_000, 1_000_000, 1, 1)
    }

    /// The second rock texture: the same rule as the first.
    pub fn asteroid_2() -> (r: Tile)
        ensures
            r.valid(),
            r.id@ == seq!['a', 's', 't', 'e', 'r', 'o', 'i', 'd', '_', '2'],
            r.min == 250_000,
            r.max == 1_000_000,
            r.numerator == 1,
            r.denominator == 1,
    {
        proof {
            reveal_strlit("asteroid_2");
        }
        Tile::new(String::from_str("asteroid_2"), 250_000, 1_000_000, 1, 1)
    }

    /// Metal ore: samples from 2/3 to 1.0, kept two times in three.
    pub fn metal() -> (r: Tile)
        ensures
            r.valid(),
            r.id@ == seq!['m', 'e', 't', 'a', 'l'],
            r.min == 666_667,
            r.max == 1_000_000,
            r.numerator == 2,
            r.denominator == 3,
    {
        proof {
            reveal_strlit("metal");
        }
        Tile::new(String::from_str("metal"), 666_667, 1_000_000, 2, 3)
    }

    /// The id of this rule, given the outcome of its draw: present when the
    /// draw kept it and the sample lies in its interval.
    pub fn pass(&self, sample: NoiseSample, kept: bool) -> (r: Option<String>)
        ensures
            r == (if kept && self.accepts(sample as int) {
                Some(self.id)
            } else {
                None
            }),
    {
        if kept && self.min <= sample && sample <= self.max {
            Some(self.id.clone())
        } else {
            None
        }
    }

    /// Draws this rule's chance, then tests the sample against its interval.
    pub fn check(&self, rng: &mut StdRng, sample: NoiseSample) -> (r: Option<String>)
        requires
            self.valid(),
        ensures
            r matches Some(s) ==> s == self.id && self.accepts(sample as int) && self.numerator > 0,
            r is None ==> !(self.accepts(sample as int) && self.certain()),
    {
        let kept = draw_ratio(rng, self.numerator, self.denominator);
        self.pass(sample, kept)
    }
}

/// The ids of the rules that accept `sample` and whose draw kept them, in
/// catalog order; `kept[i]` is the outcome of the draw of rule `i`.
pub open spec fn retained_ids(tiles: Seq<Tile>, sample: int, kept: Seq<bool>) -> Seq<String>
    decreases tiles.len(),
{
    if tiles.len() == 0 {
        Seq::empty()
    } else {
        let k = tiles.len() - 1;
        let rest = retained_ids(tiles.drop_last(), sample, kept);
        if kept[k] && tiles[k].accepts(sample) {
            rest.push(tiles[k].id)
        } else {
            rest
        }
    }
}

proof fn lemma_retained_from_rule(tiles: Seq<Tile>, sample: int, kept: Seq<bool>, s: String)
    requires
        retained_ids(tiles, sample, kept).contains(s),
    ensures
        exists|i: int| 0 <= i < tiles.len() && kept[i] && tiles[i].accepts(sample) && tiles[i].id == s,
    decreases tiles.len(),
{
    let k = tiles.len() - 1;
    let rest = retained_ids(tiles.drop_last(), sample, kept);
    if !(kept[k] && tiles[k].accepts(sample) && s == tiles[k].id) {
        if kept[k] && tiles[k].accepts(sample) {
            let j = choose|j: int| 0 <= j < rest.push(tiles[k].id).len() && rest.push(tiles[k].id)[j] == s;
            assert(rest[j] == s);
        }
        assert(rest.contains(s));
        lemma_retained_from_rule(tiles.drop_last(), sample, kept, s);
        let i = choose|i: int|
            0 <= i < tiles.drop_last().len() && kept[i] && tiles.drop_last()[i].accepts(sample)
                && tiles.drop_last()[i].id == s;
        assert(tiles[i] == tiles.drop_last()[i]);
    }
}

proof fn lemma_retained_nonempty(tiles: Seq<Tile>, sample: int, kept: Seq<bool>, i: int)
    requires
        0 <= i < tiles.len(),
        kept[i],
        tiles[i].accepts(sample),
    ensures
        retained_ids(tiles, sample, kept).len() > 0,
    decreases tiles.len(),
{
    let k = tiles.len() - 1;
    if i < k {
        assert(tiles.drop_last()[i] == tiles[i]);
        lemma_retained_nonempty(tiles.drop_last(), sample, kept, i);
    }
}

/// What a classification of `sample` may give: empty space only when no
/// rule that accepts the sample is certain to be kept, and otherwise the id
/// of a rule that accepts the sample and has a chance to be kept.
pub open spec fn classification_allowed(tiles: Seq<Tile>, sample: int, cell: Option<String>) -> bool {
    &&& cell is None ==> forall|i: int|
        0 <= i < tiles.len() && (#[trigger] tiles[i]).accepts(sample) ==> !tiles[i].certain()
    &&& cell matches Some(s) ==> exists|i: int|
        0 <= i < tiles.len() && (#[trigger] tiles[i]).accepts(sample) && tiles[i].numerator > 0
            && tiles[i].id == s
}

/// With a single rule that is always kept, a classification is exact: the
/// rule's id where it accepts the sample, empty space elsewhere.
pub proof fn lemma_single_certain_rule(tiles: Seq<Tile>, sample: int, cell: Option<String>)
    requires
        tiles.len() == 1,
        tiles[0].valid(),
        tiles[0].certain(),
        classification_allowed(tiles, sample, cell),
    ensures
        cell == (if tiles[0].accepts(sample) {
            Some(tiles[0].id)
        } else {
            None::<String>
        }),
{
    if tiles[0].accepts(sample) {
        assert(cell is Some);
    } else if cell is Some {
        let i = choose|i: int|
            0 <= i < tiles.len() && (#[trigger] tiles[i]).accepts(sample) && tiles[i].numerator > 0
                && tiles[i].id == cell->0;
        assert(i == 0);
    }
}

/// The rule table. Rules are consulted in order.
#[derive(Clone, Debug)]
pub struct TileCatalog {
    pub tiles: Vec<Tile>,
}

impl TileCatalog {
    /// Every rule's chance is a probability.
    pub open spec fn wf(&self) -> bool {
        forall|i: int| 0 <= i < self.tiles@.len() ==> (#[trigger] self.tiles@[i]).valid()
    }

    pub fn is_valid(&self) -> (r: bool)
        ensures
            r == self.wf(),
    {
        let mut i: usize = 0;
        while i < self.tiles.len()
            invariant
                i <= self.tiles@.len(),
                forall|j: int| 0 <= j < i ==> (#[trigger] self.tiles@[j]).valid(),
            decreases self.tiles@.len() - i,
        {
            if self.tiles[i].denominator == 0 || self.tiles[i].numerator > self.tiles[i].denominator {
                return false;
            }
            i = i + 1;
        }
        true
    }

    pub fn new() -> (r: TileCatalog)
        ensures
            r.wf(),
            r.tiles@.len() == 0,
    {
        TileCatalog { tiles: Vec::new() }
    }

    /// The catalog of the game: two rock rules and metal ore.
    pub fn standard() -> (r: TileCatalog)
        ensures
            r.wf(),
            r.tiles@.len() == 3,
            r.tiles@[0].id@ == seq!['a', 's', 't', 'e', 'r', 'o', 'i', 'd', '_', '1'],
            r.tiles@[0].min == 250_000 && r.tiles@[0].max == 1_000_000,
            r.tiles@[0].numerator == 1 && r.tiles@[0].denominator == 1,
            r.tiles@[1].id@ == seq!['a', 's', 't', 'e', 'r', 'o', 'i', 'd', '_', '2'],
            r.tiles@[1].min == 250_000 && r.tiles@[1].max == 1_000_000,
            r.tiles@[1].numerator == 1 && r.tiles@[1].denominator == 1,
            r.tiles@[2].id@ == seq!['m', 'e', 't', 'a', 'l'],
            r.tiles@[2].min == 666_667 && r.tiles@[2].max == 1_000_000,
            r.tiles@[2].numerator == 2 && r.tiles@[2].denominator == 3,
    {
        let mut c = TileCatalog::new();
        c.add(Tile::asteroid_1());
        c.add(Tile::asteroid_2());
        c.add(Tile::metal());
        c
    }

    /// Appends a rule.
    pub fn add(&mut self, tile: Tile)
        requires
            old(self).wf(),
            tile.valid(),
        ensures
            final(self).wf(),
            final(self).tiles@ == old(self).tiles@.push(tile),
    {
        self.tiles.push(tile);
    }

    /// Removes every rule with the given id; the others keep their order.
    pub fn remove(&mut self, id: &str)
        requires
            old(self).wf(),
        ensures
            final(self).wf(),
            final(self).tiles@ == old(self).tiles@.filter(|t: Tile| t.id@ != id@),
    {
        let target = String::from_str(id);
        let ghost pred = |t: Tile| t.id@ != id@;
        let ghost all = self.tiles@;
        let ghost mut j: int = 0;
        let mut i: usize = 0;
        while i < self.tiles.len()
            invariant
                self.wf(),
                target@ == id@,
                pred == (|t: Tile| t.id@ != id@),
                0 <= j <= all.len(),
                i == all.take(j).filter(pred).len(),
                self.tiles@ == all.take(j).filter(pred) + all.skip(j),
            decreases self.tiles@.len() - i,
        {
            proof {
                reveal(Seq::filter);
                assert(all.take(j + 1).drop_last() == all.take(j));
                assert(self.tiles@[i as int] == all[j]);
            }
            if self.tiles[i].id.eq(&target) {
                let _ = self.tiles.remove(i);
                proof {
                    reveal(Seq::filter);
                    assert(all.take(j + 1).drop_last() == all.take(j));
                    assert(!pred(all[j]));
                    assert(all.take(j + 1).filter(pred) == all.take(j).filter(pred));
                    assert(self.tiles@ =~= all.take(j + 1).filter(pred) + all.skip(j + 1));
                }
            } else {
                proof {
                    reveal(Seq::filter);
                    assert(all.take(j + 1).drop_last() == all.take(j));
                    assert(pred(all[j]));
                    assert(all.take(j + 1).filter(pred) == all.take(j).filter(pred).push(all[j]));
                    assert(self.tiles@ =~= all.take(j + 1).filter(pred) + all.skip(j + 1));
                }
                i = i + 1;
            }
            proof {
                j = j + 1;
            }
        }
        proof {
            if j < all.len() {
                assert(self.tiles@.len() > i);
            }
            assert(all.take(j) == all);
            assert(self.tiles@ =~= all.filter(pred));
        }
    }

    /// The ids retained for `sample` when the draws came out as `kept`.
    pub fn retained(&self, sample: NoiseSample, kept: &Vec<bool>) -> (r: Vec<String>)
        requires
            kept@.len() == self.tiles@.len(),
        ensures
            r@ == retained_ids(self.tiles@, sample as int, kept@),
    {
        let mut r: Vec<String> = Vec::new();
        let mut i: usize = 0;
        while i < self.tiles.len()
            invariant
                i <= self.tiles@.len(),
                kept@.len() == self.tiles@.len(),
                r@ == retained_ids(self.tiles@.take(i as int), sample as int, kept@),
            decreases self.tiles@.len() - i,
        {
            assert(self.tiles@.take(i as int + 1).drop_last() == self.tiles@.take(i as int));
            match self.tiles[i].pass(sample, kept[i]) {
                Some(id) => r.push(id),
                None => {},
            }
            i = i + 1;
        }
        assert(self.tiles@.take(i as int) == self.tiles@);
        r
    }

    /// Classifies one noise sample: every rule draws its chance, the rules
    /// that were kept and accept the sample are retained, and one of those is
    /// picked at random. `None` (empty space) when none is retained.
    pub fn classify(&self, rng: &mut StdRng, sample: NoiseSample) -> (r: Option<String>)
        requires
            self.wf(),
        ensures
            classification_allowed(self.tiles@, sample as int, r),
    {
        let mut kept: Vec<bool> = Vec::new();
        let mut i: usize = 0;
        while i < self.tiles.len()
            invariant
                self.wf(),
                i <= self.tiles@.len(),
                kept@.len() == i,
                forall|j: int| 0 <= j < i ==> (#[trigger] kept@[j]) ==> self.tiles@[j].numerator > 0,
                forall|j: int| 0 <= j < i ==> (#[trigger] self.tiles@[j]).certain() ==> kept@[j],
            decreases self.tiles@.len() - i,
        {
            assert(self.tiles@[i as int].valid());
            let k = draw_ratio(rng, self.tiles[i].numerator, self.tiles[i].denominator);
            kept.push(k);
            i = i + 1;
        }
        let candidates = self.retained(sample, &kept);
        let r = choose_one(rng, &candidates);
        proof {
            if r is None {
                assert forall|i: int|
                    0 <= i < self.tiles@.len() && (#[trigger] self.tiles@[i]).accepts(sample as int)
                        implies !self.tiles@[i].certain() by {
                    if self.tiles@[i].certain() {
                        lemma_retained_nonempty(self.tiles@, sample as int, kept@, i);
                    }
                }
            }
            if r is Some {
                lemma_retained_from_rule(self.tiles@, sample as int, kept@, r->0);
            }
        }
        r
    }
}

} // verus!
