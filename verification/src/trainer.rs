//! The evolutionary search: genomes, fitness, and the generational trainer.
//!
//! A genome is a shared base grid plus an ordered list of cell overrides;
//! its phenotype is the grid obtained by folding the overrides over the
//! base, and its fitness is that grid's score. The trainer owns a fixed-size
//! population of genomes and a seeded random generator, and each generation
//! ranks the population, reseeds the weakest band and breeds the middle band
//! from the elite.

use vstd::prelude::*;

use rayon::slice::ParallelSliceMut;

use crate::crop::Crop;
use crate::crop::GridView;
use crate::crop::SetCrop;
use crate::crop::lemma_penalty_upto_bounds;
use crate::crop::lemma_row_major_index_in_range;
use crate::rng::rng_choose_position;
use crate::rng::rng_range_u8;
use crate::rng::rng_sample_indices;
use crate::rng::rng_two_indices;

verus! {

/// Fold an override list, in order, over a row-major cell sequence: later
/// overrides win at a shared position.
pub open spec fn spec_apply_edits(cells: Seq<u8>, width: nat, changes: Seq<SetCrop>) -> Seq<u8>
    decreases changes.len(),
{
    if changes.len() == 0 {
        cells
    } else {
        spec_apply_edits(cells, width, changes.drop_last()).update(
            changes.last().xy.1 * width + changes.last().xy.0,
            changes.last().croptype,
        )
    }
}

/// Folding in-bounds overrides never changes how many cells there are.
pub proof fn lemma_apply_edits_len(cells: Seq<u8>, width: nat, height: nat, changes: Seq<SetCrop>)
    requires
        cells.len() == width * height,
        forall|i: int|
            0 <= i < changes.len() ==> {
                let c = #[trigger] changes[i];
                c.xy.0 < width && c.xy.1 < height
            },
    ensures
        spec_apply_edits(cells, width, changes).len() == cells.len(),
    decreases changes.len(),
{
    if changes.len() > 0 {
        lemma_apply_edits_len(cells, width, height, changes.drop_last());
        let c = changes.last();
        let g = GridView {
            width,
            height,
            cells: spec_apply_edits(cells, width, changes.drop_last()),
        };
        lemma_row_major_index_in_range(g, c.xy.0 as int, c.xy.1 as int);
    }
}

/// Mathematical model of a genome: the base grid, the ordered overrides,
/// and the number of crop types the search may assign.
pub ghost struct GenomeView {
    pub start: GridView,
    pub changes: Seq<SetCrop>,
    pub num_croptypes: u8,
}

impl GenomeView {
    /// The base grid is a dense rectangle small enough for its worst score
    /// to fit the score type, and every override addresses a cell of it.
    pub open spec fn wf(self) -> bool {
        &&& self.start.wf()
        &&& 40 * (self.start.width * self.start.height) <= i32::MAX
        &&& forall|i: int|
            0 <= i < self.changes.len() ==> {
                let c = #[trigger] self.changes[i];
                c.xy.0 < self.start.width && c.xy.1 < self.start.height
            }
    }

    /// The grid this genome denotes: the overrides folded over the base.
    pub open spec fn derived(self) -> GridView {
        GridView {
            width: self.start.width,
            height: self.start.height,
            cells: spec_apply_edits(self.start.cells, self.start.width, self.changes),
        }
    }

    /// The genome's fitness: the score of its derived grid.
    pub open spec fn score(self) -> int {
        self.derived().score()
    }
}

/// Only the derived grid matters for fitness: two genomes that denote the
/// same grid score identically, however their override lists differ. In
/// particular any permutation of the overrides that leaves every final cell
/// label alone leaves the score alone.
pub proof fn lemma_score_depends_on_derived_only(a: GenomeView, b: GenomeView)
    requires
        a.derived() == b.derived(),
    ensures
        a.score() == b.score(),
{
}

/// Every cell of the grid carries a label in `0..=n`.
pub open spec fn labels_bounded(g: GridView, n: u8) -> bool {
    forall|i: int| 0 <= i < g.cells.len() ==> #[trigger] g.cells[i] <= n
}

/// A genome keeps the grid invariant: when the base grid's labels and every
/// override's label lie in `0..=num_croptypes`, so do the labels of the
/// derived grid.
pub proof fn lemma_derived_labels_bounded(g: GenomeView)
    requires
        g.wf(),
        labels_bounded(g.start, g.num_croptypes),
        forall|i: int|
            0 <= i < g.changes.len() ==> (#[trigger] g.changes[i]).croptype <= g.num_croptypes,
    ensures
        labels_bounded(g.derived(), g.num_croptypes),
    decreases g.changes.len(),
{
    if g.changes.len() == 0 {
    } else {
        let shorter = GenomeView {
            start: g.start,
            changes: g.changes.drop_last(),
            num_croptypes: g.num_croptypes,
        };
        assert(forall|i: int|
            0 <= i < shorter.changes.len() ==> #[trigger] shorter.changes[i] == g.changes[i]);
        lemma_derived_labels_bounded(shorter);
        let c = g.changes.last();
        lemma_apply_edits_len(g.start.cells, g.start.width, g.start.height, shorter.changes);
        lemma_row_major_index_in_range(shorter.derived(), c.xy.0 as int, c.xy.1 as int);
        assert(g.derived().cells == shorter.derived().cells.update(
            c.xy.1 * g.start.width + c.xy.0,
            c.croptype,
        ));
    }
}

/// The configuration and state faults the engine rejects.
#[derive(Clone, Copy, PartialEq, Eq, Structural, Debug)]
pub enum CropError {
    /// `num_croptypes` was 0, so no random label can be drawn.
    ZeroCropTypes,
    /// A band fraction was malformed or the elite band exceeded the
    /// survivor band.
    InvalidParams,
    /// The derived grid has no active cell, so there is no mutation
    /// candidate.
    NoActiveCells,
}

/// A candidate solution: a base grid plus an ordered list of overrides.
pub struct Genome {
    start: Crop,
    changes: Vec<SetCrop>,
    num_croptypes: u8,
}

impl View for Genome {
    type V = GenomeView;

    closed spec fn view(&self) -> GenomeView {
        GenomeView {
            start: self.start@,
            changes: self.changes@,
            num_croptypes: self.num_croptypes,
        }
    }
}

impl Clone for Genome {
    fn clone(&self) -> (r: Self)
        ensures
            r@ == self@,
    {
        let mut changes: Vec<SetCrop> = Vec::new();
        let n = self.changes.len();
        let mut i: usize = 0;
        while i < n
            invariant
                n == self.changes@.len(),
                i <= n,
                changes@ == self.changes@.take(i as int),
            decreases n - i,
        {
            changes.push(self.changes[i]);
            proof {
                assert(self.changes@.take(i + 1) =~= self.changes@.take(i as int).push(
                    self.changes@[i as int],
                ));
            }
            i += 1;
        }
        proof {
            assert(self.changes@.take(n as int) =~= self.changes@);
        }
        Genome { start: self.start.clone(), changes, num_croptypes: self.num_croptypes }
    }
}

impl Genome {
    /// A genome that leaves the base grid untouched.
    pub fn new(base: &Crop, num_croptypes: u8) -> (r: Self)
        ensures
            r@.start == base@,
            r@.changes.len() == 0,
            r@.num_croptypes == num_croptypes,
    {
        Genome { start: base.clone(), changes: Vec::new(), num_croptypes }
    }

    pub fn changes_len(&self) -> (r: usize)
        ensures
            r == self@.changes.len(),
    {
        self.changes.len()
    }

    pub fn change_at(&self, i: usize) -> (r: SetCrop)
        requires
            i < self@.changes.len(),
        ensures
            r == self@.changes[i as int],
    {
        self.changes[i]
    }

    pub fn num_croptypes(&self) -> (r: u8)
        ensures
            r == self@.num_croptypes,
    {
        self.num_croptypes
    }

    /// Append one override.
    pub fn add_change(&mut self, pos: (usize, usize), new_croptype: u8)
        ensures
            final(self)@.start == old(self)@.start,
            final(self)@.num_croptypes == old(self)@.num_croptypes,
            final(self)@.changes == old(self)@.changes.push(
                SetCrop { xy: pos, croptype: new_croptype },
            ),
    {
        self.changes.push(SetCrop { xy: pos, croptype: new_croptype });
    }

    /// Materialise the genome: fold the overrides, in order, over a copy of
    /// the base grid. Deterministic, and later overrides win at a shared
    /// position.
    pub fn generate(&self) -> (r: Crop)
        requires
            self@.wf(),
        ensures
            r@ == self@.derived(),
            r@.wf(),
    {
        let mut new_crop = self.start.clone();
        let n = self.changes.len();
        let mut i: usize = 0;
        while i < n
            invariant
                self@.wf(),
                n == self@.changes.len(),
                i <= n,
                new_crop@.width == self@.start.width,
                new_crop@.height == self@.start.height,
                new_crop@.wf(),
                new_crop@.cells == spec_apply_edits(
                    self@.start.cells,
                    self@.start.width,
                    self@.changes.take(i as int),
                ),
            decreases n - i,
        {
            let change = self.changes[i];
            change.apply(&mut new_crop);
            proof {
                let pre = self@.changes.take(i as int);
                let post = self@.changes.take(i + 1);
                assert(post.drop_last() =~= pre);
                assert(post.last() == self@.changes[i as int]);
            }
            i += 1;
        }
        proof {
            assert(self@.changes.take(n as int) =~= self@.changes);
            lemma_apply_edits_len(self@.start.cells, self@.start.width, self@.start.height, self@.changes);
        }
        new_crop
    }

    /// The genome's fitness, computed from its derived grid. Exactly the
    /// mathematical score, so equal derived grids always score equally.
    pub fn score(&self) -> (r: i32)
        requires
            self@.wf(),
        ensures
            r as int == self@.score(),
    {
        let crop = self.generate();
        let w = crop.width();
        let h = crop.height();
        let ghost g = crop@;
        let mut score: i32 = 0;
        let mut y: usize = 0;
        while y < h
            invariant
                y <= h,
                w == g.width,
                h == g.height,
                crop@ == g,
                g.wf(),
                40 * (g.width * g.height) <= i32::MAX,
                score as int == g.penalty_upto(y * w),
            decreases h - y,
        {
            let mut x: usize = 0;
            while x < w
                invariant
                    x <= w,
                    y < h,
                    w == g.width,
                    h == g.height,
                    crop@ == g,
                    g.wf(),
                    40 * (g.width * g.height) <= i32::MAX,
                    score as int == g.penalty_upto(y * w + x),
                decreases w - x,
            {
                let ghost i = y * w + x;
                proof {
                    assert(0 <= i < g.width * g.height) by (nonlinear_arith)
                        requires
                            0 <= x < g.width,
                            0 <= y < g.height,
                            i == y * w + x,
                            w == g.width,
                            h == g.height,
                    ;
                    lemma_penalty_upto_bounds(g, i);
                    assert(-40 * i >= -40 * (g.width * g.height - 1)) by (nonlinear_arith)
                        requires
                            0 <= i <= g.width * g.height - 1,
                    ;
                    assert(x < isize::MAX && y < isize::MAX) by (nonlinear_arith)
                        requires
                            0 <= x < g.width,
                            0 <= y < g.height,
                            40 * (g.width * g.height) <= i32::MAX,
                    ;
                    vstd::arithmetic::div_mod::lemma_fundamental_div_mod_converse(
                        i as int,
                        w as int,
                        y as int,
                        x as int,
                    );
                }
                if crop.cell_at(x, y) != 0 {
                    if crop.axially_stunted((x as isize, y as isize)) || crop.diagonal_neighbours(
                        (x as isize, y as isize),
                    ) != 0 {
                        score = score - 32;
                    }
                    let fc = crop.farmland_neighbours((x as isize, y as isize));
                    score = score - (8 - fc as i32);
                }
                proof {
                    assert(score as int == g.penalty_upto(i) + g.cell_penalty(x as int, y as int));
                    assert(g.penalty_upto(i + 1) == g.penalty_upto(i) + g.cell_penalty(
                        (i as int) % (g.width as int),
                        (i as int) / (g.width as int),
                    ));
                }
                x += 1;
            }
            proof {
                assert(y * w + w == (y + 1) * w) by (nonlinear_arith);
            }
            y += 1;
        }
        proof {
            assert(h * w == g.width * g.height) by (nonlinear_arith)
                requires
                    w == g.width,
                    h == g.height,
            ;
            assert(g.cells.len() == g.width * g.height);
        }
        score
    }
}

impl Genome {
    /// A child equal to this genome plus one random override: a uniformly
    /// chosen active cell of the derived grid is assigned a uniformly
    /// chosen label in `1..=num_croptypes`. The receiver is untouched.
    /// Fails exactly when the derived grid has no active cell.
    pub fn mutate(&self, rng: &mut rand::rngs::StdRng) -> (r: Result<Genome, CropError>)
        requires
            self@.wf(),
            self@.num_croptypes >= 1,
        ensures
            match r {
                Ok(g) => {
                    &&& g@.wf()
                    &&& g@.start == self@.start
                    &&& g@.num_croptypes == self@.num_croptypes
                    &&& g@.changes.len() == self@.changes.len() + 1
                    &&& g@.changes.drop_last() == self@.changes
                    &&& self@.derived().is_active(
                        g@.changes.last().xy.0 as int,
                        g@.changes.last().xy.1 as int,
                    )
                    &&& 1 <= g@.changes.last().croptype <= self@.num_croptypes
                },
                Err(e) => {
                    &&& e == CropError::NoActiveCells
                    &&& forall|x: int, y: int| !(#[trigger] self@.derived().is_active(x, y))
                },
            },
    {
        let crop = self.generate();
        let ghost g = crop@;
        let w = crop.width();
        let h = crop.height();
        let mut positions: Vec<(usize, usize)> = Vec::new();
        let mut y: usize = 0;
        while y < h
            invariant
                y <= h,
                w == g.width,
                h == g.height,
                crop@ == g,
                g.wf(),
                forall|k: int|
                    0 <= k < positions@.len() ==> {
                        let p = #[trigger] positions@[k];
                        g.is_active(p.0 as int, p.1 as int)
                    },
                forall|a: int, b: int|
                    0 <= b < y && #[trigger] g.is_active(a, b) ==> positions@.contains(
                        ((a as usize), (b as usize)),
                    ),
            decreases h - y,
        {
            let mut x: usize = 0;
            while x < w
                invariant
                    x <= w,
                    y < h,
                    w == g.width,
                    h == g.height,
                    crop@ == g,
                    g.wf(),
                    forall|k: int|
                        0 <= k < positions@.len() ==> {
                            let p = #[trigger] positions@[k];
                            g.is_active(p.0 as int, p.1 as int)
                        },
                    forall|a: int, b: int|
                        0 <= b < y && #[trigger] g.is_active(a, b) ==> positions@.contains(
                            ((a as usize), (b as usize)),
                        ),
                    forall|a: int|
                        0 <= a < x && #[trigger] g.is_active(a, y as int) ==> positions@.contains(
                            ((a as usize), (y as usize)),
                        ),
                decreases w - x,
            {
                if crop.cell_at(x, y) != 0 {
                    let ghost oldp = positions@;
                    positions.push((x, y));
                    proof {
                        assert forall|c: (usize, usize)| oldp.contains(c) implies positions@
                            .contains(c) by {
                            vstd::seq_lib::lemma_seq_contains_after_push(oldp, (x, y), c);
                        }
                        vstd::seq_lib::lemma_seq_contains_after_push(oldp, (x, y), (x, y));
                    }
                }
                x += 1;
            }
            y += 1;
        }
        match rng_choose_position(rng, &positions) {
            None => {
                proof {
                    assert forall|x: int, y: int| !(#[trigger] g.is_active(x, y)) by {
                        if g.is_active(x, y) {
                            assert(positions@.contains(((x as usize), (y as usize))));
                        }
                    }
                }
                Err(CropError::NoActiveCells)
            },
            Some(pos) => {
                let ghost k = choose|k: int| 0 <= k < positions@.len() && positions@[k] == pos;
                let new_croptype = rng_range_u8(rng, 1, self.num_croptypes);
                let mut res = self.clone();
                res.add_change(pos, new_croptype);
                proof {
                    assert(g.is_active(positions@[k].0 as int, positions@[k].1 as int));
                    assert(res@.changes.drop_last() =~= self@.changes);
                }
                Ok(res)
            },
        }
    }

    /// A child over `a`'s base whose override list is `floor((|a| + |b|) / 2)`
    /// overrides sampled without replacement from the two parents'
    /// concatenated lists: a subsequence of that concatenation, so every
    /// inherited override originates in one of the parents and the sampled
    /// overrides keep their relative order.
    pub fn breed(a: &Genome, b: &Genome, rng: &mut rand::rngs::StdRng) -> (r: Genome)
        requires
            a@.wf(),
            b@.wf(),
            a@.start.width == b@.start.width,
            a@.start.height == b@.start.height,
        ensures
            r@.wf(),
            r@.start == a@.start,
            r@.num_croptypes == a@.num_croptypes,
            r@.changes.len() == (a@.changes.len() + b@.changes.len()) / 2,
            subsequence_of(r@.changes, a@.changes + b@.changes),
            forall|i: int|
                0 <= i < r@.changes.len() ==> (a@.changes + b@.changes).contains(
                    #[trigger] r@.changes[i],
                ),
    {
        let mut merged: Vec<SetCrop> = Vec::new();
        let na = a.changes.len();
        let mut i: usize = 0;
        while i < na
            invariant
                na == a@.changes.len(),
                i <= na,
                merged@ == a@.changes.take(i as int),
            decreases na - i,
        {
            merged.push(a.changes[i]);
            proof {
                assert(a@.changes.take(i + 1) =~= a@.changes.take(i as int).push(
                    a@.changes[i as int],
                ));
            }
            i += 1;
        }
        let nb = b.changes.len();
        let mut j: usize = 0;
        while j < nb
            invariant
                na == a@.changes.len(),
                nb == b@.changes.len(),
                j <= nb,
                merged@ == a@.changes.take(na as int) + b@.changes.take(j as int),
            decreases nb - j,
        {
            merged.push(b.changes[j]);
            proof {
                assert(a@.changes.take(na as int) + b@.changes.take(j + 1) =~= (a@.changes.take(
                    na as int,
                ) + b@.changes.take(j as int)).push(b@.changes[j as int]));
            }
            j += 1;
        }
        proof {
            assert(a@.changes.take(na as int) =~= a@.changes);
            assert(b@.changes.take(nb as int) =~= b@.changes);
            assert(merged@ =~= a@.changes + b@.changes);
        }
        let total = merged.len();
        let amount = total / 2;
        let mut idx = rng_sample_indices(rng, total, amount);
        let ghost drawn = idx@;
        sort_ascending(&mut idx);
        proof {
            broadcast use vstd::seq_lib::to_multiset_contains;

            assert(drawn.no_duplicates());
            drawn.lemma_multiset_has_no_duplicates();
            idx@.lemma_multiset_has_no_duplicates_conv();
            assert forall|k: int| 0 <= k < idx@.len() implies #[trigger] idx@[k] < total by {
                assert(idx@.to_multiset().count(idx@[k]) > 0);
                assert(drawn.contains(idx@[k]));
            }
            assert forall|p: int, q: int| 0 <= p < q < idx@.len() implies idx@[p] < idx@[q] by {
                assert(idx@[p] <= idx@[q]);
                assert(idx@[p] != idx@[q]);
            }
        }
        let mut picked: Vec<SetCrop> = Vec::new();
        let mut k: usize = 0;
        while k < amount
            invariant
                k <= amount,
                amount == idx@.len(),
                total == merged@.len(),
                picked@.len() == k,
                forall|p: int| 0 <= p < amount ==> #[trigger] idx@[p] < total,
                forall|p: int, q: int| 0 <= p < q < amount ==> idx@[p] < idx@[q],
                forall|p: int| 0 <= p < k ==> picked@[p] == merged@[#[trigger] idx@[p] as int],
            decreases amount - k,
        {
            picked.push(merged[idx[k]]);
            k += 1;
        }
        proof {
            let sel = Seq::new(idx@.len(), |p: int| idx@[p] as int);
            assert(selects(sel, picked@, merged@));
            assert(subsequence_of(picked@, merged@));
        }
        let mut res = a.clone();
        res.changes = picked;
        proof {
            assert forall|i: int|
                0 <= i < res@.changes.len() implies (a@.changes + b@.changes).contains(
                #[trigger] res@.changes[i],
            ) by {
                assert(res@.changes[i] == merged@[idx@[i] as int]);
            }
        }
        proof {
            assert forall|i: int|
                0 <= i < res@.changes.len() implies {
                let c = #[trigger] res@.changes[i];
                c.xy.0 < res@.start.width && c.xy.1 < res@.start.height
            } by {
                let c = res@.changes[i];
                assert(merged@.contains(c));
                let k = choose|k: int| 0 <= k < merged@.len() && merged@[k] == c;
                if k < na {
                    assert(a@.changes[k] == c);
                } else {
                    assert(b@.changes[k - na] == c);
                }
            }
        }
        res
    }
}

/// A fraction of the population, as an explicit rational in `[0, 1]`.
#[derive(Clone, Copy, PartialEq, Eq, Structural, Debug)]
pub struct Fraction {
    pub num: u32,
    pub den: u32,
}

impl Fraction {
    /// A usable fraction: a positive denominator and a value at most 1.
    pub open spec fn valid(self) -> bool {
        self.den >= 1 && self.num <= self.den
    }

    /// The population-relative index the fraction cuts at: the floor of the
    /// fraction times the population size.
    pub open spec fn spec_cutoff(self, len: int) -> int {
        (self.num * len) / (self.den as int)
    }

    pub fn is_valid(&self) -> (r: bool)
        ensures
            r == self.valid(),
    {
        self.den >= 1 && self.num <= self.den
    }
}

/// `a` is at most `b` as a rational: `a.num / a.den <= b.num / b.den`.
pub open spec fn frac_le(a: Fraction, b: Fraction) -> bool {
    a.num * b.den <= b.num * a.den
}

fn frac_le_exec(a: &Fraction, b: &Fraction) -> (r: bool)
    ensures
        r == frac_le(*a, *b),
{
    proof {
        assert((a.num as int) * (b.den as int) <= u64::MAX && (b.num as int) * (a.den as int)
            <= u64::MAX) by (nonlinear_arith)
            requires
                a.num <= u32::MAX,
                b.den <= u32::MAX,
                b.num <= u32::MAX,
                a.den <= u32::MAX,
        ;
    }
    (a.num as u64) * (b.den as u64) <= (b.num as u64) * (a.den as u64)
}

/// A valid fraction cuts within the population: `0 <= cutoff <= len`.
pub proof fn lemma_cutoff_le_len(f: Fraction, len: int)
    requires
        f.valid(),
        len >= 0,
    ensures
        0 <= f.spec_cutoff(len) <= len,
{
    let p = (f.num as int) * len;
    let q = (f.den as int) * len;
    assert(0 <= p <= q) by (nonlinear_arith)
        requires
            0 <= f.num <= f.den,
            len >= 0,
            p == (f.num as int) * len,
            q == (f.den as int) * len,
    ;
    vstd::arithmetic::div_mod::lemma_div_is_ordered(0, p, f.den as int);
    vstd::arithmetic::div_mod::lemma_div_is_ordered(p, q, f.den as int);
    assert(q == len * (f.den as int)) by (nonlinear_arith)
        requires
            q == (f.den as int) * len,
    ;
    vstd::arithmetic::div_mod::lemma_div_by_multiple(len, f.den as int);
    assert(0int / (f.den as int) == 0) by {
        vstd::arithmetic::div_mod::lemma_div_of0(f.den as int);
    }
}

/// Cutoffs respect the rational order: a smaller fraction never cuts past a
/// larger one.
pub proof fn lemma_cutoff_mono(a: Fraction, b: Fraction, len: int)
    requires
        a.valid(),
        b.valid(),
        frac_le(a, b),
        len >= 0,
    ensures
        a.spec_cutoff(len) <= b.spec_cutoff(len),
{
    let d1 = a.den as int;
    let d2 = b.den as int;
    let p = (a.num as int) * len;
    let q = (b.num as int) * len;
    assert(p >= 0 && q >= 0) by (nonlinear_arith)
        requires
            a.num >= 0,
            b.num >= 0,
            len >= 0,
            p == (a.num as int) * len,
            q == (b.num as int) * len,
    ;
    vstd::arithmetic::div_mod::lemma_div_by_multiple(p, d2);
    vstd::arithmetic::div_mod::lemma_div_denominator(p * d2, d2, d1);
    assert(p / d1 == (p * d2) / (d2 * d1));
    vstd::arithmetic::div_mod::lemma_div_by_multiple(q, d1);
    vstd::arithmetic::div_mod::lemma_div_denominator(q * d1, d1, d2);
    assert(q / d2 == (q * d1) / (d1 * d2));
    assert(p * d2 <= q * d1) by (nonlinear_arith)
        requires
            (a.num as int) * d2 <= (b.num as int) * d1,
            len >= 0,
            p == (a.num as int) * len,
            q == (b.num as int) * len,
    ;
    assert(d2 * d1 == d1 * d2) by (nonlinear_arith);
    vstd::arithmetic::div_mod::lemma_div_is_ordered(p * d2, q * d1, d1 * d2);
}

/// The floor of a valid fraction times a population size.
pub fn frac_cutoff(f: Fraction, len: usize) -> (r: usize)
    requires
        f.valid(),
    ensures
        r as int == f.spec_cutoff(len as int),
        r <= len,
{
    proof {
        lemma_cutoff_le_len(f, len as int);
        assert((f.num as int) * (len as int) <= u128::MAX) by (nonlinear_arith)
            requires
                f.num <= u32::MAX,
                len <= u64::MAX,
        ;
    }
    let p: u128 = (f.num as u128) * (len as u128);
    let q: u128 = p / (f.den as u128);
    q as usize
}

/// The two band fractions of the trainer: the elite band `[0, elite)` is
/// kept, the middle band `[elite, survivors)` is bred anew, the tail is
/// reseeded at random.
#[derive(Clone, Copy, PartialEq, Eq, Structural, Debug)]
pub struct TrainerParams {
    pub elite: Fraction,
    pub survivors: Fraction,
}

impl TrainerParams {
    /// Both fractions usable and the elite band no larger than the
    /// survivor band.
    pub open spec fn valid(self) -> bool {
        self.elite.valid() && self.survivors.valid() && frac_le(self.elite, self.survivors)
    }

    pub fn is_valid(&self) -> (r: bool)
        ensures
            r == self.valid(),
    {
        self.elite.is_valid() && self.survivors.is_valid() && frac_le_exec(
            &self.elite,
            &self.survivors,
        )
    }
}

/// Best first: scores never increase along the sequence.
pub open spec fn sorted_desc(s: Seq<Genome>) -> bool {
    forall|i: int, j: int|
        0 <= i <= j < s.len() ==> (#[trigger] s[i])@.score() >= (#[trigger] s[j])@.score()
}

/// The coordinates of the active cells among the first `n` cells of the
/// grid, in row-major order.
pub open spec fn active_cells_upto(g: GridView, n: int) -> Seq<(usize, usize)>
    decreases n,
{
    if n <= 0 {
        Seq::empty()
    } else {
        let prev = active_cells_upto(g, n - 1);
        if g.cells[n - 1] != 0u8 {
            prev.push(
                (((n - 1) % (g.width as int)) as usize, ((n - 1) / (g.width as int)) as usize),
            )
        } else {
            prev
        }
    }
}

/// The coordinates of all active cells of the grid, in row-major order.
pub open spec fn active_cells(g: GridView) -> Seq<(usize, usize)> {
    active_cells_upto(g, g.cells.len() as int)
}

/// Every listed coordinate is an active cell of the grid.
pub proof fn lemma_active_cells_are_active(g: GridView, n: int)
    requires
        g.wf(),
        g.cells.len() <= usize::MAX,
        0 <= n <= g.cells.len(),
    ensures
        forall|i: int|
            0 <= i < active_cells_upto(g, n).len() ==> {
                let p = #[trigger] active_cells_upto(g, n)[i];
                g.is_active(p.0 as int, p.1 as int)
            },
    decreases n,
{
    if n > 0 {
        lemma_active_cells_are_active(g, n - 1);
        let prev = active_cells_upto(g, n - 1);
        let cur = active_cells_upto(g, n);
        if g.cells[n - 1] != 0u8 {
            let w = g.width as int;
            assert(w > 0) by (nonlinear_arith)
                requires
                    g.cells.len() == g.width * g.height,
                    g.cells.len() > 0,
                    w == g.width as int,
            ;
            let x = (n - 1) % w;
            let y = (n - 1) / w;
            vstd::arithmetic::div_mod::lemma_fundamental_div_mod(n - 1, w);
            vstd::arithmetic::div_mod::lemma_mod_bound(n - 1, w);
            vstd::arithmetic::div_mod::lemma_div_pos_is_pos(n - 1, w);
            assert(y < g.height) by (nonlinear_arith)
                requires
                    y * w + x == n - 1,
                    0 <= n - 1 < g.width * g.height,
                    0 <= x < w,
                    w == g.width as int,
                    y >= 0,
            ;
            assert(y * g.width + x == n - 1);
            assert(g.cell(x, y) == g.cells[n - 1]);
            assert(0 <= x <= n - 1 <= usize::MAX && 0 <= y <= n - 1 <= usize::MAX)
                by (nonlinear_arith)
                requires
                    y * w + x == n - 1,
                    0 <= x < w,
                    w >= 1,
                    y >= 0,
                    n - 1 <= usize::MAX,
            ;
            assert(cur == prev.push(((x as usize), (y as usize))));
            assert forall|i: int| 0 <= i < cur.len() implies {
                let p = #[trigger] cur[i];
                g.is_active(p.0 as int, p.1 as int)
            } by {
                if i < prev.len() {
                    assert(cur[i] == prev[i]);
                } else {
                    assert(cur[i] == ((x as usize), (y as usize)));
                    assert(g.is_active(x, y));
                }
            }
        } else {
            assert(cur == prev);
            assert forall|i: int| 0 <= i < cur.len() implies {
                let p = #[trigger] cur[i];
                g.is_active(p.0 as int, p.1 as int)
            } by {
                assert(cur[i] == prev[i]);
            }
        }
    }
}

/// A fully random genome: it starts from `base`, its history is exactly one
/// override per active cell of `base`, in row-major order, and every
/// override carries a label in `1..=n`.
pub open spec fn fresh_random(g: GenomeView, base: GridView, n: u8) -> bool {
    &&& g.start == base
    &&& g.num_croptypes == n
    &&& g.changes.len() == active_cells(base).len()
    &&& forall|i: int|
        0 <= i < g.changes.len() ==> {
            let c = #[trigger] g.changes[i];
            c.xy == active_cells(base)[i] && 1 <= c.croptype <= n
        }
}

/// `sel` picks `sub` out of `sup`: strictly increasing positions of `sup`,
/// one per element of `sub`, in order.
pub open spec fn selects(sel: Seq<int>, sub: Seq<SetCrop>, sup: Seq<SetCrop>) -> bool {
    &&& sel.len() == sub.len()
    &&& forall|i: int| 0 <= i < sel.len() ==> 0 <= #[trigger] sel[i] < sup.len()
    &&& forall|i: int, j: int| 0 <= i < j < sel.len() ==> sel[i] < sel[j]
    &&& forall|i: int| 0 <= i < sel.len() ==> sub[i] == sup[#[trigger] sel[i]]
}

/// `sub` is a subsequence of `sup`: its elements stand at strictly
/// increasing positions of `sup`, in the same relative order. In
/// particular `sub` is drawn from `sup` without replacement.
pub open spec fn subsequence_of(sub: Seq<SetCrop>, sup: Seq<SetCrop>) -> bool {
    exists|sel: Seq<int>| #[trigger] selects(sel, sub, sup)
}

/// Insertion sort, ascending. The vector afterwards holds exactly the
/// values it held before.
fn sort_ascending(v: &mut Vec<usize>)
    ensures
        final(v)@.len() == old(v)@.len(),
        final(v)@.to_multiset() == old(v)@.to_multiset(),
        forall|i: int, j: int| 0 <= i <= j < final(v)@.len() ==> final(v)@[i] <= final(v)@[j],
{
    let n = v.len();
    if n < 2 {
        return ;
    }
    let mut i: usize = 1;
    while i < n
        invariant
            1 <= i <= n,
            n == v@.len(),
            v@.to_multiset() == old(v)@.to_multiset(),
            forall|a: int, b: int| 0 <= a <= b < i ==> v@[a] <= v@[b],
        decreases n - i,
    {
        let mut j: usize = i;
        while j > 0 && v[j - 1] > v[j]
            invariant
                0 <= j <= i < n,
                n == v@.len(),
                v@.to_multiset() == old(v)@.to_multiset(),
                forall|a: int, b: int| 0 <= a <= b < j ==> v@[a] <= v@[b],
                forall|a: int, b: int| j <= a <= b <= i ==> v@[a] <= v@[b],
                forall|a: int, b: int| 0 <= a < j && j < b <= i ==> v@[a] <= v@[b],
            decreases j,
        {
            let lo = v[j - 1];
            let hi = v[j];
            let ghost pre = v@;
            v[j - 1] = hi;
            v[j] = lo;
            proof {
                broadcast use vstd::seq_lib::to_multiset_update;
                broadcast use vstd::seq_lib::to_multiset_contains;
                broadcast use vstd::multiset::group_multiset_axioms;

                let s1 = pre.update(j - 1, hi);
                assert(v@ == s1.update(j as int, lo));
                assert(s1.to_multiset() == pre.to_multiset().insert(hi).remove(lo));
                assert(s1[j as int] == hi);
                assert(v@.to_multiset() == s1.to_multiset().insert(lo).remove(hi));
                assert(pre.contains(lo) && pre.contains(hi));
                assert(pre.to_multiset().count(lo) >= 1 && pre.to_multiset().count(hi) >= 1);
                assert forall|x: usize| v@.to_multiset().count(x) == pre.to_multiset().count(x) by {
                    let m = pre.to_multiset();
                    assert(v@.to_multiset().count(x) == m.insert(hi).remove(lo).insert(lo).remove(
                        hi,
                    ).count(x));
                }
                assert(v@.to_multiset() =~= pre.to_multiset());
            }
            j -= 1;
        }
        i += 1;
    }
}

/// Every override of a genome addresses an active cell of `base` with a
/// label in `1..=n`. Fully random and bred genomes both keep this, and it
/// is what makes the search leave empty cells empty.
pub open spec fn edits_target_active(g: GenomeView, base: GridView, n: u8) -> bool {
    forall|i: int|
        0 <= i < g.changes.len() ==> {
            let c = #[trigger] g.changes[i];
            base.is_active(c.xy.0 as int, c.xy.1 as int) && 1 <= c.croptype <= n
        }
}

/// A fully random genome only edits active cells of its base.
pub proof fn lemma_fresh_random_targets_active(g: GenomeView, base: GridView, n: u8)
    requires
        base.wf(),
        base.cells.len() <= usize::MAX,
        fresh_random(g, base, n),
    ensures
        edits_target_active(g, base, n),
{
    lemma_active_cells_are_active(base, base.cells.len() as int);
}

/// A child bred from the two parents: it shares the first parent's base,
/// keeps half of the parents' combined overrides, and every override
/// originates in one of the parents.
pub open spec fn bred_from(c: GenomeView, p1: GenomeView, p2: GenomeView) -> bool {
    &&& c.start == p1.start
    &&& c.num_croptypes == p1.num_croptypes
    &&& c.changes.len() == (p1.changes.len() + p2.changes.len()) / 2
    &&& forall|i: int|
        0 <= i < c.changes.len() ==> (p1.changes + p2.changes).contains(#[trigger] c.changes[i])
}

/// A child of two parents that only edit active base cells only edits
/// active base cells itself.
pub proof fn lemma_bred_targets_active(
    c: GenomeView,
    p1: GenomeView,
    p2: GenomeView,
    base: GridView,
    n: u8,
)
    requires
        bred_from(c, p1, p2),
        edits_target_active(p1, base, n),
        edits_target_active(p2, base, n),
    ensures
        edits_target_active(c, base, n),
{
    let s = p1.changes + p2.changes;
    assert forall|i: int| 0 <= i < c.changes.len() implies {
        let ch = #[trigger] c.changes[i];
        base.is_active(ch.xy.0 as int, ch.xy.1 as int) && 1 <= ch.croptype <= n
    } by {
        assert(s.contains(c.changes[i]));
        let k = choose|k: int| 0 <= k < s.len() && s[k] == c.changes[i];
        if k < p1.changes.len() {
            assert(p1.changes[k] == c.changes[i]);
        } else {
            assert(p2.changes[k - p1.changes.len()] == c.changes[i]);
        }
    }
}

/// A genome that only edits active cells of its base leaves every empty
/// base cell empty in its derived grid.
pub proof fn lemma_derived_keeps_empty_cells(g: GenomeView, n: u8)
    requires
        g.wf(),
        edits_target_active(g, g.start, n),
    ensures
        forall|i: int|
            0 <= i < g.start.cells.len() && g.start.cells[i] == 0u8 ==> #[trigger] g.derived()
                .cells[i] == 0u8,
    decreases g.changes.len(),
{
    if g.changes.len() > 0 {
        let shorter = GenomeView {
            start: g.start,
            changes: g.changes.drop_last(),
            num_croptypes: g.num_croptypes,
        };
        assert(forall|i: int|
            0 <= i < shorter.changes.len() ==> #[trigger] shorter.changes[i] == g.changes[i]);
        lemma_derived_keeps_empty_cells(shorter, n);
        let c = g.changes.last();
        let w = g.start.width as int;
        lemma_apply_edits_len(g.start.cells, g.start.width, g.start.height, shorter.changes);
        lemma_row_major_index_in_range(shorter.derived(), c.xy.0 as int, c.xy.1 as int);
        assert(g.derived().cells == shorter.derived().cells.update(
            c.xy.1 * g.start.width + c.xy.0,
            c.croptype,
        ));
        assert(g.start.is_active(c.xy.0 as int, c.xy.1 as int));
        assert(g.start.cells[c.xy.1 * w + c.xy.0] != 0u8);
    }
}

/// A genome that only edits active cells, with labels from 1 up, keeps
/// every active base cell active in its derived grid.
pub proof fn lemma_derived_keeps_active_cells(g: GenomeView, n: u8)
    requires
        g.wf(),
        edits_target_active(g, g.start, n),
    ensures
        forall|i: int|
            0 <= i < g.start.cells.len() && g.start.cells[i] != 0u8 ==> #[trigger] g.derived()
                .cells[i] != 0u8,
    decreases g.changes.len(),
{
    if g.changes.len() > 0 {
        let shorter = GenomeView {
            start: g.start,
            changes: g.changes.drop_last(),
            num_croptypes: g.num_croptypes,
        };
        assert(forall|i: int|
            0 <= i < shorter.changes.len() ==> #[trigger] shorter.changes[i] == g.changes[i]);
        lemma_derived_keeps_active_cells(shorter, n);
        let c = g.changes.last();
        lemma_apply_edits_len(g.start.cells, g.start.width, g.start.height, shorter.changes);
        lemma_row_major_index_in_range(shorter.derived(), c.xy.0 as int, c.xy.1 as int);
        assert(g.derived().cells == shorter.derived().cells.update(
            c.xy.1 * g.start.width + c.xy.0,
            c.croptype,
        ));
        assert(c.croptype >= 1);
    }
}

/// A well-formed genome over the given base and crop-type count whose
/// every override targets an active base cell: the shape of every genome
/// the search ever holds.
pub open spec fn genome_over(g: GenomeView, base: GridView, n: u8) -> bool {
    &&& g.wf()
    &&& g.start == base
    &&& g.num_croptypes == n
    &&& edits_target_active(g, base, n)
}

/// The initial population: the first `rc` genomes fully random, the rest
/// untouched copies of the base with empty edit histories.
pub open spec fn seeded_population(pop: Seq<Genome>, rc: int, base: GridView, n: u8) -> bool {
    &&& forall|i: int| 0 <= i < rc && i < pop.len() ==> fresh_random((#[trigger] pop[i])@, base, n)
    &&& forall|i: int|
        rc <= i < pop.len() ==> {
            let g = (#[trigger] pop[i])@;
            g.changes.len() == 0 && g.start == base && g.num_croptypes == n
        }
}

/// A child bred from two distinct members of the elite band.
pub open spec fn bred_from_band(g: GenomeView, elite: Seq<Genome>) -> bool {
    exists|j: int, k: int|
        0 <= j < elite.len() && 0 <= k < elite.len() && j != k && bred_from(
            g,
            (#[trigger] elite[j])@,
            (#[trigger] elite[k])@,
        )
}

/// What one generation does, relative to the ranking `ranked` fixed when
/// the generation sorted its population: the elite band survives in place
/// and unmutated, the middle band is bred from two distinct elite members,
/// and the tail band is reseeded with fully random genomes.
pub open spec fn generation_step(
    ranked: Seq<Genome>,
    post: Seq<Genome>,
    e: int,
    s: int,
    base: GridView,
    n: u8,
) -> bool {
    &&& post.len() == ranked.len()
    &&& forall|i: int| 0 <= i < e ==> post[i] == ranked[i]
    &&& forall|i: int| e <= i < s ==> bred_from_band((#[trigger] post[i])@, ranked.take(e))
    &&& forall|i: int| s <= i < post.len() ==> fresh_random((#[trigger] post[i])@, base, n)
}

/// One generation as a relation between the population before it and after
/// it: some best-first ranking of the previous population is the frame the
/// three bands are taken over.
pub open spec fn generation_rel(
    pre: Seq<Genome>,
    ranked: Seq<Genome>,
    post: Seq<Genome>,
    e: int,
    s: int,
    base: GridView,
    n: u8,
) -> bool {
    &&& ranked.len() == pre.len()
    &&& ranked.to_multiset() == pre.to_multiset()
    &&& sorted_desc(ranked)
    &&& generation_step(ranked, post, e, s, base, n)
}

/// The breeding phase as a relation between the population before it and
/// after it: a best-first ranking of the previous population whose elite
/// and tail bands survive in place while the middle band is bred anew.
pub open spec fn breeding_rel(
    pre: Seq<Genome>,
    ranked: Seq<Genome>,
    post: Seq<Genome>,
    e: int,
    s: int,
) -> bool {
    &&& ranked.len() == pre.len()
    &&& ranked.to_multiset() == pre.to_multiset()
    &&& sorted_desc(ranked)
    &&& post.len() == ranked.len()
    &&& forall|i: int| 0 <= i < e ==> post[i] == ranked[i]
    &&& forall|i: int| s <= i < post.len() ==> post[i] == ranked[i]
    &&& forall|i: int| e <= i < s ==> bred_from_band((#[trigger] post[i])@, ranked.take(e))
}

/// Relies on rayon's ParallelSliceMut::par_sort_by_key: a stable parallel
/// sort, ascending by the key function — here the negated fitness, so the
/// population ends ordered best first and holds exactly the same genomes.
#[verifier::external_body]
fn sort_by_score_desc(pop: &mut Vec<Genome>)
    requires
        forall|i: int| 0 <= i < old(pop)@.len() ==> (#[trigger] old(pop)@[i])@.wf(),
    ensures
        final(pop)@.len() == old(pop)@.len(),
        final(pop)@.to_multiset() == old(pop)@.to_multiset(),
        forall|i: int| 0 <= i < final(pop)@.len() ==> old(pop)@.contains(#[trigger] final(pop)@[i]),
        sorted_desc(final(pop)@),
{
    pop.par_sort_by_key(|g| g.sort_key());
}

impl Genome {
    /// The ranking key: the negated fitness, so that an ascending sort by
    /// this key ranks the best genome first.
    pub fn sort_key(&self) -> (r: i32)
        requires
            self@.wf(),
        ensures
            r as int == -self@.score(),
    {
        let s = self.score();
        proof {
            let g = self@.derived();
            lemma_apply_edits_len(
                self@.start.cells,
                self@.start.width,
                self@.start.height,
                self@.changes,
            );
            lemma_penalty_upto_bounds(g, g.cells.len() as int);
        }
        -s
    }
}

/// Two trainers that agree on base, parameters, crop-type count and
/// population are equally well-formed, whatever their generator states.
pub proof fn lemma_wf_same_fields(a: CropTrainer, b: CropTrainer)
    requires
        a.wf(),
        b.spec_base() == a.spec_base(),
        b.spec_params() == a.spec_params(),
        b.spec_num_croptypes() == a.spec_num_croptypes(),
        b.spec_population() == a.spec_population(),
    ensures
        b.wf(),
{
    assert forall|i: int| 0 <= i < b.spec_population().len() implies {
        let g = #[trigger] b.spec_population()[i];
        g@.wf() && g@.start == b.spec_base() && g@.num_croptypes == b.spec_num_croptypes()
            && edits_target_active(g@, b.spec_base(), b.spec_num_croptypes())
    } by {
        assert(a.spec_population()[i] == b.spec_population()[i]);
    }
}

/// The generational trainer: a fixed-size population of genomes over one
/// shared base grid, ranked and renewed in place, with a seeded random
/// generator so whole runs are reproducible.
pub struct CropTrainer {
    base: Crop,
    population: Vec<Genome>,
    num_croptypes: u8,
    pub params: TrainerParams,
    rng: rand::rngs::StdRng,
}

impl CropTrainer {
    pub closed spec fn spec_base(self) -> GridView {
        self.base@
    }

    pub closed spec fn spec_population(self) -> Seq<Genome> {
        self.population@
    }

    pub closed spec fn spec_num_croptypes(self) -> u8 {
        self.num_croptypes
    }

    pub closed spec fn spec_params(self) -> TrainerParams {
        self.params
    }

    /// Where the elite band ends.
    pub open spec fn elite_cutoff(self) -> int {
        self.spec_params().elite.spec_cutoff(self.spec_population().len() as int)
    }

    /// Where the survivor bands end and random reseeding begins.
    pub open spec fn survivors_cutoff(self) -> int {
        self.spec_params().survivors.spec_cutoff(self.spec_population().len() as int)
    }

    /// The trainer's invariant: a well-formed base small enough to score,
    /// at least one crop type, valid band fractions, and a population of
    /// well-formed genomes that all share the base and the type count.
    pub open spec fn wf(self) -> bool {
        &&& self.spec_base().wf()
        &&& 40 * (self.spec_base().width * self.spec_base().height) <= i32::MAX
        &&& self.spec_num_croptypes() >= 1
        &&& self.spec_params().valid()
        &&& forall|i: int|
            0 <= i < self.spec_population().len() ==> {
                let g = #[trigger] self.spec_population()[i];
                g@.wf() && g@.start == self.spec_base() && g@.num_croptypes
                    == self.spec_num_croptypes() && edits_target_active(
                    g@,
                    self.spec_base(),
                    self.spec_num_croptypes(),
                )
            }
    }

    pub fn population_len(&self) -> (r: usize)
        ensures
            r == self.spec_population().len(),
    {
        self.population.len()
    }

    /// A copy of the genome at one rank.
    pub fn genome_at(&self, i: usize) -> (g: Genome)
        requires
            i < self.spec_population().len(),
        ensures
            g@ == self.spec_population()[i as int]@,
    {
        self.population[i].clone()
    }

    fn cutoff_index(&self, cutoff: Fraction) -> (r: usize)
        requires
            cutoff.valid(),
        ensures
            r as int == cutoff.spec_cutoff(self.spec_population().len() as int),
            r <= self.spec_population().len(),
    {
        frac_cutoff(cutoff, self.population.len())
    }

    /// Rank the population best first. The population afterwards holds
    /// exactly the genomes it held before.
    fn sort(&mut self)
        requires
            old(self).wf(),
        ensures
            final(self).wf(),
            final(self).spec_base() == old(self).spec_base(),
            final(self).spec_params() == old(self).spec_params(),
            final(self).spec_num_croptypes() == old(self).spec_num_croptypes(),
            final(self).spec_population().len() == old(self).spec_population().len(),
            final(self).spec_population().to_multiset() == old(self).spec_population().to_multiset(),
            sorted_desc(final(self).spec_population()),
    {
        sort_by_score_desc(&mut self.population);
        proof {
            assert forall|i: int| 0 <= i < self.spec_population().len() implies {
                let g = #[trigger] self.spec_population()[i];
                g@.wf() && g@.start == self.spec_base() && g@.num_croptypes
                    == self.spec_num_croptypes() && edits_target_active(
                    g@,
                    self.spec_base(),
                    self.spec_num_croptypes(),
                )
            } by {
                let g = self.spec_population()[i];
                let k = choose|k: int|
                    0 <= k < old(self).spec_population().len() && old(self).spec_population()[k]
                        == g;
            }
        }
    }

    /// A copy of the base grid with every active cell re-assigned a random
    /// label in `1..=num_croptypes`; empty cells stay empty.
    pub fn make_random_crop(&mut self) -> (r: Crop)
        requires
            old(self).wf(),
        ensures
            final(self).wf(),
            final(self).spec_base() == old(self).spec_base(),
            final(self).spec_params() == old(self).spec_params(),
            final(self).spec_num_croptypes() == old(self).spec_num_croptypes(),
            final(self).spec_population() == old(self).spec_population(),
            r@.wf(),
            r@.width == old(self).spec_base().width,
            r@.height == old(self).spec_base().height,
            forall|i: int|
                0 <= i < r@.cells.len() ==> {
                    let b = old(self).spec_base().cells[i];
                    (b == 0 ==> #[trigger] r@.cells[i] == 0) && (b != 0 ==> 1 <= r@.cells[i]
                        <= old(self).spec_num_croptypes())
                },
    {
        let ghost base = self.base@;
        let ghost n = self.num_croptypes;
        let mut crop = self.base.clone();
        let w = crop.width();
        let h = crop.height();
        let mut y: usize = 0;
        while y < h
            invariant
                y <= h,
                w == base.width,
                h == base.height,
                self.base@ == base,
                self.base == old(self).base,
                self.population == old(self).population,
                self.spec_params() == old(self).spec_params(),
                self.num_croptypes == old(self).num_croptypes,
                old(self).wf(),
                n == self.num_croptypes,
                n >= 1,
                base.wf(),
                crop@.wf(),
                crop@.width == base.width,
                crop@.height == base.height,
                forall|i: int|
                    0 <= i < y * w ==> {
                        let b = base.cells[i];
                        (b == 0 ==> #[trigger] crop@.cells[i] == 0) && (b != 0 ==> 1
                            <= crop@.cells[i] <= n)
                    },
                forall|i: int| y * w <= i < base.cells.len() ==> crop@.cells[i] == base.cells[i],
            decreases h - y,
        {
            let mut x: usize = 0;
            while x < w
                invariant
                    x <= w,
                    y < h,
                    w == base.width,
                    h == base.height,
                    self.base@ == base,
                    self.base == old(self).base,
                    self.population == old(self).population,
                    self.spec_params() == old(self).spec_params(),
                    self.num_croptypes == old(self).num_croptypes,
                    old(self).wf(),
                    n == self.num_croptypes,
                    n >= 1,
                    base.wf(),
                    crop@.wf(),
                    crop@.width == base.width,
                    crop@.height == base.height,
                    forall|i: int|
                        0 <= i < y * w + x ==> {
                            let b = base.cells[i];
                            (b == 0 ==> #[trigger] crop@.cells[i] == 0) && (b != 0 ==> 1
                                <= crop@.cells[i] <= n)
                        },
                    forall|i: int|
                        y * w + x <= i < base.cells.len() ==> crop@.cells[i] == base.cells[i],
                decreases w - x,
            {
                proof {
                    lemma_row_major_index_in_range(base, x as int, y as int);
                    assert(y * w + x < base.cells.len());
                }
                if crop.cell_at(x, y) != 0 {
                    let label = rng_range_u8(&mut self.rng, 1, self.num_croptypes);
                    crop.set_cell(x, y, label);
                }
                x += 1;
            }
            proof {
                assert(y * w + w == (y + 1) * w) by (nonlinear_arith);
            }
            y += 1;
        }
        proof {
            assert(h * w == base.width * base.height) by (nonlinear_arith)
                requires
                    w == base.width,
                    h == base.height,
            ;
            lemma_wf_same_fields(*old(self), *self);
        }
        crop
    }

    /// A fully random genome: one override per active cell of the base,
    /// each with a random label in `1..=num_croptypes`, over an empty
    /// history.
    pub fn make_random_genome(&mut self) -> (g: Genome)
        requires
            old(self).wf(),
        ensures
            final(self).wf(),
            final(self).spec_base() == old(self).spec_base(),
            final(self).spec_params() == old(self).spec_params(),
            final(self).spec_num_croptypes() == old(self).spec_num_croptypes(),
            final(self).spec_population() == old(self).spec_population(),
            g@.wf(),
            fresh_random(g@, old(self).spec_base(), old(self).spec_num_croptypes()),
            edits_target_active(g@, old(self).spec_base(), old(self).spec_num_croptypes()),
    {
        let ghost base = self.base@;
        let ghost n = self.num_croptypes;
        let mut genome = Genome::new(&self.base, self.num_croptypes);
        let w = self.base.width();
        let h = self.base.height();
        let mut y: usize = 0;
        while y < h
            invariant
                y <= h,
                w == base.width,
                h == base.height,
                self.base@ == base,
                self.base == old(self).base,
                self.population == old(self).population,
                self.spec_params() == old(self).spec_params(),
                self.num_croptypes == old(self).num_croptypes,
                old(self).wf(),
                n == self.num_croptypes,
                n >= 1,
                base.wf(),
                40 * (base.width * base.height) <= i32::MAX,
                genome@.start == base,
                genome@.num_croptypes == n,
                genome@.wf(),
                genome@.changes.len() == active_cells_upto(base, y * w).len(),
                forall|i: int|
                    0 <= i < genome@.changes.len() ==> {
                        let c = #[trigger] genome@.changes[i];
                        c.xy == active_cells_upto(base, y * w)[i] && 1 <= c.croptype <= n
                    },
            decreases h - y,
        {
            let mut x: usize = 0;
            while x < w
                invariant
                    x <= w,
                    y < h,
                    w == base.width,
                    h == base.height,
                    self.base@ == base,
                    self.base == old(self).base,
                    self.population == old(self).population,
                    self.spec_params() == old(self).spec_params(),
                    self.num_croptypes == old(self).num_croptypes,
                    old(self).wf(),
                    n == self.num_croptypes,
                    n >= 1,
                    base.wf(),
                    40 * (base.width * base.height) <= i32::MAX,
                    genome@.start == base,
                    genome@.num_croptypes == n,
                    genome@.wf(),
                    genome@.changes.len() == active_cells_upto(base, y * w + x).len(),
                    forall|i: int|
                        0 <= i < genome@.changes.len() ==> {
                            let c = #[trigger] genome@.changes[i];
                            c.xy == active_cells_upto(base, y * w + x)[i] && 1 <= c.croptype <= n
                        },
                decreases w - x,
            {
                let ghost flat = y * w + x;
                proof {
                    lemma_row_major_index_in_range(base, x as int, y as int);
                    vstd::arithmetic::div_mod::lemma_fundamental_div_mod_converse(
                        flat as int,
                        w as int,
                        y as int,
                        x as int,
                    );
                    assert(base.cells[flat as int] == base.cell(x as int, y as int));
                }
                if self.base.cell_at(x, y) != 0 {
                    let label = rng_range_u8(&mut self.rng, 1, self.num_croptypes);
                    genome.add_change((x, y), label);
                    proof {
                        assert(active_cells_upto(base, flat + 1) == active_cells_upto(
                            base,
                            flat as int,
                        ).push((x, y)));
                    }
                } else {
                    proof {
                        assert(active_cells_upto(base, flat + 1) == active_cells_upto(
                            base,
                            flat as int,
                        ));
                    }
                }
                x += 1;
            }
            proof {
                assert(y * w + w == (y + 1) * w) by (nonlinear_arith);
            }
            y += 1;
        }
        proof {
            assert(h * w == base.width * base.height) by (nonlinear_arith)
                requires
                    w == base.width,
                    h == base.height,
            ;
            assert(base.cells.len() == base.width * base.height);
            assert(base.cells.len() <= usize::MAX);
            lemma_fresh_random_targets_active(genome@, base, n);
            lemma_wf_same_fields(*old(self), *self);
        }
        genome
    }

    /// One bred child: two distinct parents drawn uniformly without
    /// replacement from the first `cutoff` ranks.
    fn new_breed(&mut self, cutoff: usize) -> (g: Genome)
        requires
            old(self).wf(),
            2 <= cutoff <= old(self).spec_population().len(),
        ensures
            final(self).wf(),
            final(self).spec_base() == old(self).spec_base(),
            final(self).spec_params() == old(self).spec_params(),
            final(self).spec_num_croptypes() == old(self).spec_num_croptypes(),
            final(self).spec_population() == old(self).spec_population(),
            g@.wf(),
            g@.start == old(self).spec_base(),
            g@.num_croptypes == old(self).spec_num_croptypes(),
            edits_target_active(g@, old(self).spec_base(), old(self).spec_num_croptypes()),
            bred_from_band(g@, old(self).spec_population().take(cutoff as int)),
    {
        let (j, k) = rng_two_indices(&mut self.rng, cutoff);
        let g = Genome::breed(&self.population[j], &self.population[k], &mut self.rng);
        proof {
            let elite = old(self).spec_population().take(cutoff as int);
            assert(elite[j as int] == old(self).spec_population()[j as int]);
            assert(elite[k as int] == old(self).spec_population()[k as int]);
            assert(bred_from(g@, elite[j as int]@, elite[k as int]@));
            lemma_bred_targets_active(
                g@,
                old(self).spec_population()[j as int]@,
                old(self).spec_population()[k as int]@,
                old(self).spec_base(),
                old(self).spec_num_croptypes(),
            );
        }
        g
    }

    /// Breed the middle band `[elite, survivors)` in place from pairs of
    /// distinct elite members, leaving every other rank untouched.
    fn breed_band(&mut self)
        requires
            old(self).wf(),
            old(self).elite_cutoff() >= 2 || old(self).survivors_cutoff() == old(self).elite_cutoff(),
        ensures
            final(self).wf(),
            final(self).spec_base() == old(self).spec_base(),
            final(self).spec_params() == old(self).spec_params(),
            final(self).spec_num_croptypes() == old(self).spec_num_croptypes(),
            final(self).spec_population().len() == old(self).spec_population().len(),
            forall|i: int|
                0 <= i < old(self).elite_cutoff() ==> final(self).spec_population()[i] == old(self).spec_population()[i],
            forall|i: int|
                old(self).survivors_cutoff() <= i < old(self).spec_population().len() ==> final(self).spec_population()[i] == old(self).spec_population()[i],
            forall|i: int|
                old(self).elite_cutoff() <= i < old(self).survivors_cutoff() ==> bred_from_band(
                    (#[trigger] final(self).spec_population()[i])@,
                    old(self).spec_population().take(old(self).elite_cutoff()),
                ),
    {
        let e = self.cutoff_index(self.params.elite);
        let s = self.cutoff_index(self.params.survivors);
        let ghost elite = old(self).spec_population().take(e as int);
        proof {
            lemma_cutoff_mono(
                self.params.elite,
                self.params.survivors,
                self.spec_population().len() as int,
            );
        }
        let mut i: usize = e;
        while i < s
            invariant
                e <= i <= s <= self.spec_population().len(),
                e as int == old(self).elite_cutoff(),
                s as int == old(self).survivors_cutoff(),
                e >= 2 || s == e,
                elite == old(self).spec_population().take(e as int),
                self.wf(),
                self.spec_base() == old(self).spec_base(),
                self.spec_params() == old(self).spec_params(),
                self.spec_num_croptypes() == old(self).spec_num_croptypes(),
                self.spec_population().len() == old(self).spec_population().len(),
                forall|j: int|
                    0 <= j < e ==> self.spec_population()[j] == old(self).spec_population()[j],
                forall|j: int|
                    i <= j < self.spec_population().len() ==> self.spec_population()[j] == old(
                        self,
                    ).spec_population()[j],
                forall|j: int|
                    e <= j < i ==> bred_from_band((#[trigger] self.spec_population()[j])@, elite),
            decreases s - i,
        {
            let ghost pre = self.spec_population();
            let g = self.new_breed(e);
            proof {
                assert(pre.take(e as int) =~= elite);
            }
            self.population[i] = g;
            proof {
                assert(self.spec_population()[i as int] == g);
                assert(bred_from_band(g@, elite));
                assert forall|j: int| e <= j < i + 1 implies bred_from_band(
                    (#[trigger] self.spec_population()[j])@,
                    elite,
                ) by {
                    if j != i {
                        assert(self.spec_population()[j] == pre[j]);
                        assert(bred_from_band(pre[j]@, elite));
                    }
                }
            }
            i += 1;
        }
    }

    /// Re-rank the population, then breed the middle band from the elite of
    /// that fresh ranking.
    pub fn mutate(&mut self)
        requires
            old(self).wf(),
            old(self).elite_cutoff() >= 2 || old(self).survivors_cutoff() == old(self).elite_cutoff(),
        ensures
            final(self).wf(),
            final(self).spec_base() == old(self).spec_base(),
            final(self).spec_params() == old(self).spec_params(),
            final(self).spec_num_croptypes() == old(self).spec_num_croptypes(),
            final(self).spec_population().len() == old(self).spec_population().len(),
            exists|ranked: Seq<Genome>|
                #[trigger] breeding_rel(
                    old(self).spec_population(),
                    ranked,
                    final(self).spec_population(),
                    old(self).elite_cutoff(),
                    old(self).survivors_cutoff(),
                ),
    {
        self.sort();
        let ghost ranked = self.spec_population();
        self.breed_band();
        proof {
            assert(breeding_rel(
                old(self).spec_population(),
                ranked,
                self.spec_population(),
                old(self).elite_cutoff(),
                old(self).survivors_cutoff(),
            ));
        }
    }

    /// Replace every rank at or past the survivor cutoff with a fresh fully
    /// random genome; every earlier rank is untouched.
    pub fn repopulate_lumpen(&mut self)
        requires
            old(self).wf(),
        ensures
            final(self).wf(),
            final(self).spec_base() == old(self).spec_base(),
            final(self).spec_params() == old(self).spec_params(),
            final(self).spec_num_croptypes() == old(self).spec_num_croptypes(),
            final(self).spec_population().len() == old(self).spec_population().len(),
            forall|i: int|
                0 <= i < old(self).survivors_cutoff() ==> final(self).spec_population()[i] == old(self).spec_population()[i],
            forall|i: int|
                old(self).survivors_cutoff() <= i < old(self).spec_population().len()
                    ==> fresh_random(
                    (#[trigger] final(self).spec_population()[i])@,
                    old(self).spec_base(),
                    old(self).spec_num_croptypes(),
                ),
    {
        let s = self.cutoff_index(self.params.survivors);
        let len = self.population.len();
        let mut i: usize = s;
        while i < len
            invariant
                s <= i <= len,
                s as int == old(self).survivors_cutoff(),
                len == old(self).spec_population().len(),
                self.wf(),
                self.spec_base() == old(self).spec_base(),
                self.spec_params() == old(self).spec_params(),
                self.spec_num_croptypes() == old(self).spec_num_croptypes(),
                self.spec_population().len() == len,
                forall|j: int|
                    0 <= j < i ==> j < s ==> self.spec_population()[j] == old(self).spec_population()[j],
                forall|j: int|
                    i <= j < len ==> self.spec_population()[j] == old(self).spec_population()[j],
                forall|j: int|
                    s <= j < i ==> fresh_random(
                        (#[trigger] self.spec_population()[j])@,
                        old(self).spec_base(),
                        old(self).spec_num_croptypes(),
                    ),
            decreases len - i,
        {
            let g = self.make_random_genome();
            self.population[i] = g;
            i += 1;
        }
    }

    /// One generation: rank the population, reseed the tail band with
    /// fresh random genomes, then breed the middle band. Breeding reads the
    /// ranking fixed before the reseeding, so the elite of that ranking is
    /// carried forward in place and unmutated.
    pub fn step(&mut self)
        requires
            old(self).wf(),
            old(self).elite_cutoff() >= 2 || old(self).survivors_cutoff() == old(self).elite_cutoff(),
        ensures
            final(self).wf(),
            final(self).spec_base() == old(self).spec_base(),
            final(self).spec_params() == old(self).spec_params(),
            final(self).spec_num_croptypes() == old(self).spec_num_croptypes(),
            final(self).spec_population().len() == old(self).spec_population().len(),
            exists|ranked: Seq<Genome>|
                #[trigger] generation_rel(
                    old(self).spec_population(),
                    ranked,
                    final(self).spec_population(),
                    old(self).elite_cutoff(),
                    old(self).survivors_cutoff(),
                    old(self).spec_base(),
                    old(self).spec_num_croptypes(),
                ),
    {
        self.sort();
        let ghost ranked = self.spec_population();
        self.repopulate_lumpen();
        let ghost mid = *self;
        self.breed_band();
        proof {
            let e = old(self).elite_cutoff();
            let s = old(self).survivors_cutoff();
            lemma_cutoff_mono(self.params.elite, self.params.survivors, ranked.len() as int);
            lemma_cutoff_le_len(self.params.survivors, ranked.len() as int);
            assert(mid.elite_cutoff() == e);
            assert(mid.survivors_cutoff() == s);
            assert(mid.spec_population().take(e) =~= ranked.take(e));
            assert(generation_rel(
                old(self).spec_population(),
                ranked,
                self.spec_population(),
                e,
                s,
                old(self).spec_base(),
                old(self).spec_num_croptypes(),
            ));
        }
    }

    /// Rank the population and return a copy of the best genome: no member
    /// of the population scores above it.
    pub fn best(&mut self) -> (g: Genome)
        requires
            old(self).wf(),
            old(self).spec_population().len() >= 1,
        ensures
            final(self).wf(),
            final(self).spec_base() == old(self).spec_base(),
            final(self).spec_params() == old(self).spec_params(),
            final(self).spec_num_croptypes() == old(self).spec_num_croptypes(),
            final(self).spec_population().len() == old(self).spec_population().len(),
            final(self).spec_population().to_multiset() == old(self).spec_population().to_multiset(),
            g@ == final(self).spec_population()[0]@,
            g@.wf(),
            g@.start == old(self).spec_base(),
            forall|i: int|
                0 <= i < final(self).spec_population().len() ==> (#[trigger] final(self).spec_population()[i])@.score() <= g@.score(),
    {
        self.sort();
        let g = self.population[0].clone();
        g
    }

    /// Seed a trainer: `init_pop` unmodified copies of the base, the first
    /// `floor(randomized * init_pop)` of them overwritten with fully random
    /// genomes, ranked once. Fails exactly when `num_croptypes` is 0 or a
    /// fraction is malformed or the elite band exceeds the survivor band.
    pub fn new(
        base: &Crop,
        init_pop: usize,
        num_croptypes: u8,
        randomized: Fraction,
        params: TrainerParams,
        seed: u64,
    ) -> (r: Result<CropTrainer, CropError>)
        requires
            base@.wf(),
            40 * (base@.width * base@.height) <= i32::MAX,
        ensures
            match r {
                Ok(t) => {
                    &&& num_croptypes >= 1
                    &&& randomized.valid()
                    &&& params.valid()
                    &&& t.wf()
                    &&& t.spec_base() == base@
                    &&& t.spec_num_croptypes() == num_croptypes
                    &&& t.spec_params() == params
                    &&& t.spec_population().len() == init_pop
                    &&& sorted_desc(t.spec_population())
                    &&& exists|pre: Seq<Genome>|
                        pre.to_multiset() == t.spec_population().to_multiset()
                            && #[trigger] seeded_population(
                            pre,
                            randomized.spec_cutoff(init_pop as int),
                            base@,
                            num_croptypes,
                        )
                },
                Err(e) => match e {
                    CropError::ZeroCropTypes => num_croptypes == 0,
                    CropError::InvalidParams => num_croptypes >= 1 && !(randomized.valid()
                        && params.valid()),
                    CropError::NoActiveCells => false,
                },
            },
    {
        if num_croptypes == 0 {
            return Err(CropError::ZeroCropTypes);
        }
        if !randomized.is_valid() || !params.is_valid() {
            return Err(CropError::InvalidParams);
        }
        let mut population: Vec<Genome> = Vec::new();
        let mut i: usize = 0;
        while i < init_pop
            invariant
                i <= init_pop,
                population@.len() == i,
                base@.wf(),
                40 * (base@.width * base@.height) <= i32::MAX,
                forall|j: int|
                    0 <= j < i ==> {
                        let g = #[trigger] population@[j];
                        g@.wf() && g@.start == base@ && g@.num_croptypes == num_croptypes
                            && g@.changes.len() == 0
                    },
            decreases init_pop - i,
        {
            population.push(Genome::new(base, num_croptypes));
            i += 1;
        }
        let mut t = CropTrainer {
            base: base.clone(),
            population,
            num_croptypes,
            params,
            rng: crate::rng::rng_from_seed(seed),
        };
        let rc = frac_cutoff(randomized, init_pop);
        let mut j: usize = 0;
        while j < rc
            invariant
                j <= rc <= init_pop,
                rc as int == randomized.spec_cutoff(init_pop as int),
                t.wf(),
                t.spec_base() == base@,
                t.spec_params() == params,
                t.spec_num_croptypes() == num_croptypes,
                t.spec_population().len() == init_pop,
                forall|i: int|
                    0 <= i < j ==> fresh_random(
                        (#[trigger] t.spec_population()[i])@,
                        base@,
                        num_croptypes,
                    ),
                forall|i: int|
                    j <= i < init_pop ==> (#[trigger] t.spec_population()[i])@.changes.len() == 0,
            decreases rc - j,
        {
            let g = t.make_random_genome();
            t.population[j] = g;
            j += 1;
        }
        let ghost pre = t.spec_population();
        proof {
            assert(seeded_population(pre, rc as int, base@, num_croptypes));
        }
        t.sort();
        Ok(t)
    }

    /// The whole search: seed a trainer, run `iterations` generations, and
    /// materialise the best genome found. The result is the derived grid of
    /// a genome of the search over `from`: it has `from`'s dimensions,
    /// keeps every empty cell of `from` empty, and introduces no label
    /// beyond `num_croptypes`. Reproducible: the result is a function of
    /// the arguments, including the seed.
    pub fn improve(
        from: &Crop,
        population: usize,
        num_croptypes: u8,
        randomized: Fraction,
        params: TrainerParams,
        iterations: usize,
        seed: u64,
    ) -> (r: Result<Crop, CropError>)
        requires
            from@.wf(),
            40 * (from@.width * from@.height) <= i32::MAX,
            population >= 1,
            params.valid() ==> (params.elite.spec_cutoff(population as int) >= 2
                || params.survivors.spec_cutoff(population as int) == params.elite.spec_cutoff(
                population as int,
            )),
        ensures
            match r {
                Ok(c) => {
                    &&& num_croptypes >= 1
                    &&& randomized.valid()
                    &&& params.valid()
                    &&& c@.wf()
                    &&& c@.width == from@.width
                    &&& c@.height == from@.height
                    &&& forall|i: int|
                        0 <= i < from@.cells.len() && from@.cells[i] == 0u8 ==> #[trigger] c@
                            .cells[i] == 0u8
                    &&& forall|i: int|
                        0 <= i < from@.cells.len() && from@.cells[i] != 0u8 ==> #[trigger] c@
                            .cells[i] != 0u8
                    &&& labels_bounded(from@, num_croptypes) ==> labels_bounded(
                        c@,
                        num_croptypes,
                    )
                    &&& exists|g: GenomeView|
                        #[trigger] genome_over(g, from@, num_croptypes) && c@ == g.derived()
                },
                Err(e) => match e {
                    CropError::ZeroCropTypes => num_croptypes == 0,
                    CropError::InvalidParams => num_croptypes >= 1 && !(randomized.valid()
                        && params.valid()),
                    CropError::NoActiveCells => false,
                },
            },
    {
        let mut trainer = match Self::new(from, population, num_croptypes, randomized, params, seed) {
            Ok(t) => t,
            Err(e) => {
                return Err(e);
            },
        };
        let mut it: usize = 0;
        while it < iterations
            invariant
                trainer.wf(),
                trainer.spec_base() == from@,
                trainer.spec_params() == params,
                trainer.spec_num_croptypes() == num_croptypes,
                trainer.spec_population().len() == population,
                params.valid(),
                population >= 1,
                params.elite.spec_cutoff(population as int) >= 2 || params.survivors.spec_cutoff(
                    population as int,
                ) == params.elite.spec_cutoff(population as int),
            decreases iterations - it,
        {
            trainer.step();
            it += 1;
        }
        let top = trainer.best();
        let out = top.generate();
        proof {
            let p0 = trainer.spec_population()[0];
            assert(p0@.wf() && p0@.start == trainer.spec_base() && p0@.num_croptypes
                == trainer.spec_num_croptypes() && edits_target_active(
                p0@,
                trainer.spec_base(),
                trainer.spec_num_croptypes(),
            ));
            assert(genome_over(top@, from@, num_croptypes));
            lemma_derived_keeps_empty_cells(top@, num_croptypes);
            lemma_derived_keeps_active_cells(top@, num_croptypes);
            if labels_bounded(from@, num_croptypes) {
                lemma_derived_labels_bounded(top@);
            }
        }
        Ok(out)
    }
}

} // verus!
