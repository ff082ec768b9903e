//! A fitness-bounded pool of organisms driving one evolutionary step at a
//! time: mutate every slot against a random mate, score the offspring
//! through a caller-supplied capability, and truncate the pool back to
//! its capacity, best first.

use vstd::prelude::*;

use crate::fitness::FitnessTrait;
use crate::organism_trait::OrganismTrait;
use crate::rng::RandomSource;
use vstd::multiset::Multiset;

verus! {

broadcast use vstd::seq_lib::group_to_multiset_ensures;

/// The rank of a fitness word: a total order on the 32-bit words that
/// agrees with the numeric order of the IEEE single-precision values they
/// encode (negative values below positive ones).
pub open spec fn rank_of(bits: u32) -> int {
    if bits >= 0x8000_0000 {
        0xffff_ffffint - bits
    } else {
        bits + 0x8000_0000
    }
}

/// The exec mirror of [`rank_of`].
pub fn fitness_rank(bits: u32) -> (r: u64)
    ensures
        r == rank_of(bits),
{
    if bits >= 0x80000000 {
        (0xffffffffu64) - (bits as u64)
    } else {
        (bits as u64) + 0x80000000
    }
}

/// Whether the organisms are ordered by descending fitness rank.
pub open spec fn sorted_desc<C, T: OrganismTrait<C>>(s: Seq<T>) -> bool {
    forall|i: int, j: int|
        0 <= i < j < s.len() ==> rank_of(s[i].fitness()) >= rank_of(s[j].fitness())
}

/// Sorts organisms by descending fitness rank; the result holds exactly
/// the given organisms.
fn sort_organisms<C, T: OrganismTrait<C>>(v: Vec<T>) -> (r: Vec<T>)
    ensures
        r@.to_multiset() == v@.to_multiset(),
        sorted_desc::<C, T>(r@),
{
    let ghost orig = v@;
    let mut rest = v;
    let mut out: Vec<T> = Vec::new();
    while rest.len() > 0
        invariant
            out@.to_multiset().add(rest@.to_multiset()) == orig.to_multiset(),
            sorted_desc::<C, T>(out@),
            forall|a: int, b: int|
                0 <= a < out@.len() && 0 <= b < rest@.len() ==> rank_of(
                    #[trigger] out@[a].fitness(),
                ) >= rank_of(#[trigger] rest@[b].fitness()),
        decreases rest@.len(),
    {
        let mut mi: usize = 0;
        let mut mr: u64 = fitness_rank(rest[0].get_fitness());
        let mut j: usize = 1;
        while j < rest.len()
            invariant
                rest@.len() > 0,
                mi < rest@.len(),
                j <= rest@.len(),
                mr == rank_of(rest@[mi as int].fitness()),
                forall|k: int| 0 <= k < j ==> rank_of(#[trigger] rest@[k].fitness()) <= mr,
            decreases rest@.len() - j,
        {
            let rj = fitness_rank(rest[j].get_fitness());
            if rj > mr {
                mi = j;
                mr = rj;
            }
            j += 1;
        }
        let ghost pre_rest = rest@;
        let ghost pre_out = out@;
        let x = rest.remove(mi);
        out.push(x);
        proof {
            assert(pre_rest.remove(mi as int).to_multiset() =~= pre_rest.to_multiset().remove(
                pre_rest[mi as int],
            ));
            assert(pre_out.push(x).to_multiset() =~= pre_out.to_multiset().insert(x));
            assert(pre_rest.to_multiset().count(x) > 0) by {
                assert(pre_rest.contains(x));
            }
            assert(pre_out.to_multiset().insert(x).add(pre_rest.to_multiset().remove(x))
                =~= pre_out.to_multiset().add(pre_rest.to_multiset()));
            assert forall|b: int| 0 <= b < rest@.len() implies rank_of(
                #[trigger] rest@[b].fitness(),
            ) <= rank_of(x.fitness()) by {
                if b < mi as int {
                    assert(rest@[b] == pre_rest[b]);
                } else {
                    assert(rest@[b] == pre_rest[b + 1]);
                }
            }
        }
    }
    proof {
        assert(rest@.to_multiset() =~= Multiset::empty());
        assert(out@.to_multiset() =~= orig.to_multiset());
    }
    out
}

/// The bounded pool of organisms together with the evolution
/// configuration.
pub struct Population<C, T> {
    pub size: usize,
    pub organisms: Vec<T>,
    pub config: C,
}

impl<C, T: OrganismTrait<C>> Population<C, T> {
    /// An empty population with the given capacity and configuration.
    pub fn new(size: usize, config: C) -> (r: Population<C, T>)
        ensures
            r.size == size,
            r.config == config,
            r.organisms@.len() == 0,
    {
        Population { size, config, organisms: Vec::new() }
    }

    /// The number of organisms currently held.
    pub fn len(&self) -> (r: usize)
        ensures
            r == self.organisms@.len(),
    {
        self.organisms.len()
    }

    /// Whether the population holds no organism.
    pub fn is_empty(&self) -> (r: bool)
        ensures
            r == (self.organisms@.len() == 0),
    {
        self.organisms.is_empty()
    }

    /// Adds an organism, provided the pool is under its capacity;
    /// otherwise the pool is left unchanged.
    pub fn add_organism(&mut self, organism: T)
        ensures
            final(self).size == old(self).size,
            final(self).config == old(self).config,
            old(self).organisms@.len() < old(self).size ==> final(self).organisms@ == old(
                self,
            ).organisms@.push(organism),
            old(self).organisms@.len() >= old(self).size ==> final(self).organisms@ == old(
                self,
            ).organisms@,
    {
        if self.organisms.len() < self.size {
            self.organisms.push(organism);
        }
    }

    /// Sorts the pool by descending fitness and truncates it to the
    /// capacity; the survivors are the best of the pool, best first.
    pub fn cut_costs(&mut self)
        ensures
            final(self).size == old(self).size,
            final(self).config == old(self).config,
            final(self).organisms@.len() <= old(self).size,
            final(self).organisms@.len() == vstd::math::min(
                old(self).organisms@.len() as int,
                old(self).size as int,
            ),
            sorted_desc::<C, T>(final(self).organisms@),
            final(self).organisms@.to_multiset().subset_of(
                old(self).organisms@.to_multiset(),
            ),
            forall|k: int|
                0 <= k < old(self).organisms@.len() && final(self).organisms@.len() > 0
                    ==> rank_of(final(self).organisms@[0].fitness()) >= rank_of(
                    #[trigger] old(self).organisms@[k].fitness(),
                ),
            forall|i: int, x: T|
                #![trigger final(self).organisms@[i], old(self).organisms@.to_multiset().count(x)]
                0 <= i < final(self).organisms@.len() && old(self).organisms@.to_multiset().count(
                    x,
                ) > final(self).organisms@.to_multiset().count(x) ==> rank_of(
                    final(self).organisms@[i].fitness(),
                ) >= rank_of(x.fitness()),
    {
        let mut taken: Vec<T> = Vec::new();
        core::mem::swap(&mut self.organisms, &mut taken);
        let ghost pre = taken@;
        let sorted = sort_organisms(taken);
        proof {
            assert forall|k: int|
                0 <= k < pre.len() && sorted@.len() > 0 implies rank_of(sorted@[0].fitness())
                >= rank_of(#[trigger] pre[k].fitness()) by {
                assert(pre.contains(pre[k]));
                assert(pre.to_multiset().count(pre[k]) > 0);
                assert(sorted@.to_multiset().count(pre[k]) > 0);
                assert(sorted@.contains(pre[k]));
                let i = choose|i: int| 0 <= i < sorted@.len() && sorted@[i] == pre[k];
                assert(rank_of(sorted@[0].fitness()) >= rank_of(sorted@[i].fitness()));
            }
        }
        proof {
            assert(sorted@.len() == sorted@.to_multiset().len());
            assert(pre.len() == pre.to_multiset().len());
        }
        self.organisms = sorted;
        let ghost before_cut = self.organisms@;
        self.organisms.truncate(self.size);
        proof {
            if self.size as int <= before_cut.len() {
                assert(self.organisms@ == before_cut.subrange(0, self.size as int));
            } else {
                assert(self.organisms@ == before_cut);
            }
            let kept = self.organisms@;
            let dropped = before_cut.subrange(kept.len() as int, before_cut.len() as int);
            assert(before_cut =~= kept + dropped);
            vstd::seq_lib::lemma_multiset_commutative(kept, dropped);
            assert(kept.to_multiset().add(dropped.to_multiset()) == before_cut.to_multiset());
            assert(kept.to_multiset().subset_of(pre.to_multiset()));
            assert forall|i: int, x: T|
                #![trigger kept[i], pre.to_multiset().count(x)]
                0 <= i < kept.len() && pre.to_multiset().count(x) > kept.to_multiset().count(x)
                    implies rank_of(kept[i].fitness()) >= rank_of(x.fitness()) by {
                assert(dropped.to_multiset().count(x) > 0);
                assert(dropped.contains(x));
                let d = choose|d: int| 0 <= d < dropped.len() && dropped[d] == x;
                assert(before_cut[kept.len() + d] == x);
                assert(rank_of(before_cut[i].fitness()) >= rank_of(
                    before_cut[kept.len() + d].fitness(),
                ));
                assert(kept[i] == before_cut[i]);
            }
        }
    }

    /// Scores every organism through the capability and cuts the pool
    /// back to its capacity.
    pub fn calculate_fitness<D: FitnessTrait<T>>(&mut self, dataset: &D)
        ensures
            final(self).size == old(self).size,
            final(self).config == old(self).config,
            final(self).organisms@.len() <= old(self).size,
            sorted_desc::<C, T>(final(self).organisms@),
    {
        let mut i: usize = 0;
        while i < self.organisms.len()
            invariant
                self.size == old(self).size,
                self.config == old(self).config,
                i <= self.organisms@.len(),
            decreases self.organisms@.len() - i,
        {
            let mut org = self.organisms.remove(i);
            let score = dataset.calculate(&org);
            org.set_fitness(score);
            self.organisms.insert(i, org);
            i += 1;
        }
        self.cut_costs();
    }

    /// One evolutionary step: every current organism is mutated against a
    /// mate at a random index, successful offspring are scored by the
    /// capability and join the pool, and the pool is cut back to its
    /// capacity. Returns the best organism, whose stagnation count is
    /// raised by one; the best organism after the step ranks at least as
    /// high as every organism that entered it.
    pub fn epoch<D: FitnessTrait<T>, R: RandomSource>(&mut self, dataset: &D, rng: &mut R) -> (r:
        Option<&T>)
        ensures
            final(self).size == old(self).size,
            final(self).organisms@.len() <= old(self).size,
            old(self).organisms@.len() >= old(self).size ==> final(self).organisms@.len() == old(
                self,
            ).size,
            sorted_desc::<C, T>(final(self).organisms@),
            r is Some <==> (old(self).organisms@.len() > 0 && old(self).size > 0),
            r matches Some(best) ==> *best == final(self).organisms@[0]
                && best.stagnation() >= 1,
            r matches Some(best) ==> forall|k: int|
                0 <= k < old(self).organisms@.len() ==> rank_of(best.fitness()) >= rank_of(
                    #[trigger] old(self).organisms@[k].fitness(),
                ),
    {
        let size = self.organisms.len();
        let ghost entered = self.organisms@;
        let mut i: usize = 0;
        while i < size
            invariant
                self.size == old(self).size,
                self.config == old(self).config,
                size == entered.len(),
                self.organisms@.len() >= size,
                self.organisms@.len() <= size + i,
                i <= size,
                forall|k: int| 0 <= k < size ==> self.organisms@[k] == entered[k],
            decreases size - i,
        {
            let min_j = if size >= 2 {
                rng.next_below(size - 1)
            } else {
                0
            };
            let offspring = self.organisms[i].mutate(Some(&self.organisms[min_j]), &self.config);
            match offspring {
                Ok(mut organism) => {
                    let score = dataset.calculate(&organism);
                    organism.set_fitness(score);
                    self.organisms.push(organism);
                },
                Err(_) => {},
            }
            i += 1;
        }
        proof {
            assert forall|k: int| 0 <= k < entered.len() implies #[trigger] self.organisms@[k]
                == entered[k] by {}
        }
        let ghost pool = self.organisms@;
        self.cut_costs();
        proof {
            assert forall|k: int|
                0 <= k < entered.len() && self.organisms@.len() > 0 implies rank_of(
                    self.organisms@[0].fitness(),
                ) >= rank_of(#[trigger] entered[k].fitness()) by {
                assert(pool[k] == entered[k]);
            }
        }
        if self.organisms.len() > 0 && self.size > 0 {
            let mut best = self.organisms.remove(0);
            best.inc_stagnation();
            self.organisms.insert(0, best);
            proof {
                assert(self.organisms@[0] == best);
            }
            Some(&self.organisms[0])
        } else {
            None
        }
    }
}

} // verus!
