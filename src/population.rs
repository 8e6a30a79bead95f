//! Populations of graded individuals and the generational transition.
use vstd::prelude::*;

use crate::parallel::par_map_range;
use crate::random::random_range;
use crate::rank::{sort_by_rank, sorted_by_rank};

verus! {

/// A candidate solution that can produce a mutated copy of itself.
pub trait Individual: Clone + Sized {
    /// `self` is one of the values that `parent.mutate()` may return.
    spec fn is_mutant_of(&self, parent: &Self) -> bool;

    fn mutate(&self) -> (r: Self)
        ensures
            r.is_mutant_of(self),
    ;
}

/// A source of fresh individuals, and of offspring of two parents.
pub trait Generator<I> {
    /// `x` is one of the values that `generate` may return.
    spec fn is_generated(&self, x: &I) -> bool;

    /// `child` is one of the values that `evolve(a, b)` may return.
    spec fn is_offspring(&self, a: &I, b: &I, child: &I) -> bool;

    fn generate(&self) -> (r: I)
        ensures
            self.is_generated(&r),
    ;

    fn evolve(&self, a: &I, b: &I) -> (r: I)
        ensures
            self.is_offspring(a, b, &r),
    ;
}

/// An individual together with its fitness, given as the bit pattern of a
/// single-precision float.
#[derive(Clone)]
pub struct GradedIndividual<I>
    where I: Individual + Send + Sync,
{
    pub individual: I,
    pub fitness: u32,
}

impl<I> GradedIndividual<I>
    where I: Individual + Send + Sync,
{
    pub fn new(individual: I, fitness: u32) -> (r: Self)
        ensures
            r.individual == individual,
            r.fitness == fitness,
    {
        GradedIndividual { individual, fitness }
    }
}

/// The number of top-ranked individuals carried over unchanged from one
/// generation to the next: a tenth of the population, rounded down.
pub open spec fn elite_count(len: nat) -> nat {
    len / 10
}

/// Every entry carries a fitness that `fitness` may return for its individual.
pub open spec fn graded_by<I, F>(s: Seq<GradedIndividual<I>>, fitness: F) -> bool
    where I: Individual + Send + Sync, F: Fn(&I) -> u32,
{
    forall|j: int| 0 <= j < s.len() ==> fitness.ensures((&s[j].individual,), #[trigger] s[j].fitness)
}

/// Every entry holds an individual that `generator` may generate.
pub open spec fn generated_by<I, G>(s: Seq<GradedIndividual<I>>, generator: G) -> bool
    where I: Individual + Send + Sync, G: Generator<I>,
{
    forall|j: int| 0 <= j < s.len() ==> generator.is_generated(&#[trigger] s[j].individual)
}

/// What may stand in slot `k + i` of the generation after `before`, whose
/// first `k` entries are elite: a mutation of the parent in that slot at an
/// even distance `i` from `k`; at an odd distance, an offspring of that parent
/// with some parent of the whole generation.
pub open spec fn slot_child<I, G>(before: Seq<GradedIndividual<I>>, k: int, i: int, child: I, generator: G) -> bool
    where I: Individual + Send + Sync, G: Generator<I>,
{
    if i % 2 == 0 {
        child.is_mutant_of(&before[k + i].individual)
    } else {
        exists|o: int| 0 <= o < before.len()
            && #[trigger] generator.is_offspring(&before[k + i].individual, &before[o].individual, &child)
    }
}

/// Entry `i` of `offspring` is a child for slot `k + i` of `before`.
pub open spec fn bred_from<I, G>(before: Seq<GradedIndividual<I>>, k: int, offspring: Seq<GradedIndividual<I>>, generator: G) -> bool
    where I: Individual + Send + Sync, G: Generator<I>,
{
    forall|i: int| 0 <= i < offspring.len() ==> #[trigger] slot_child(before, k, i, offspring[i].individual, generator)
}

/// A generation, kept sorted by descending fitness.
pub struct Population<I>
    where I: Individual + Send + Sync,
{
    pub individuals: Vec<GradedIndividual<I>>,
}

/// Generates and scores one fresh individual.
fn grade_fresh<I, G, F>(generator: &G, fitness: &F) -> (r: GradedIndividual<I>)
    where I: Individual + Send + Sync, G: Generator<I>, F: Fn(&I) -> u32,
    requires
        forall|x: &I| fitness.requires((x,)),
    ensures
        fitness.ensures((&r.individual,), r.fitness),
        generator.is_generated(&r.individual),
{
    let individual = generator.generate();
    let score = fitness(&individual);
    GradedIndividual::new(individual, score)
}

impl<I> Population<I>
    where I: Individual + Send + Sync,
{
    /// Builds an initial population of `size - 1` fresh individuals (none for
    /// a size of zero), each scored once, sorted by descending fitness.
    pub fn new<G, F>(size: usize, generator: &G, fitness: &F) -> (r: Self)
        where G: Generator<I> + Send + Sync, F: Fn(&I) -> u32 + Send + Sync,
        requires
            forall|x: &I| fitness.requires((x,)),
        ensures
            size == 0 ==> r.individuals.len() == 0,
            size > 0 ==> r.individuals.len() == size - 1,
            sorted_by_rank(r.individuals@),
            graded_by(r.individuals@, fitness),
            generated_by(r.individuals@, *generator),
    {
        let count: usize = if size == 0 { 0 } else { size - 1 };
        let fresh = |_j: usize| -> (g: GradedIndividual<I>)
            ensures
                fitness.ensures((&g.individual,), g.fitness),
                generator.is_generated(&g.individual),
        { grade_fresh(generator, fitness) };
        let mut individuals = par_map_range(0, count, fresh);
        assert(graded_by(individuals@, fitness));
        assert(generated_by(individuals@, *generator));
        let ghost before = individuals@;
        sort_by_rank(&mut individuals);
        proof {
            lemma_graded_by_permutation(before, individuals@, fitness);
            lemma_generated_by_permutation(before, individuals@, *generator);
        }
        Population { individuals }
    }

    /// Produces the next generation: the top tenth (rounded down) is carried
    /// over unchanged; every other slot is replaced by one offspring of the
    /// individual there, a mutation or a crossover by alternating slot,
    /// scored once. The result is sorted by descending fitness.
    pub fn evolve<G, F>(self, generator: &G, fitness: &F) -> (r: Self)
        where G: Generator<I> + Send + Sync, F: Fn(&I) -> u32 + Send + Sync,
        requires
            forall|x: &I| fitness.requires((x,)),
        ensures
            r.individuals.len() == self.individuals.len(),
            sorted_by_rank(r.individuals@),
            forall|i: int| 0 <= i < elite_count(self.individuals.len() as nat) ==>
                r.individuals@.contains(#[trigger] self.individuals@[i]),
            is_next_generation(self.individuals@, r.individuals@, *generator, fitness),
            graded_by(self.individuals@, fitness) ==> graded_by(r.individuals@, fitness),
    {
        let n = self.individuals.len();
        let k = n / 10;
        let parents = &self.individuals;
        let slot = |j: usize| -> (g: GradedIndividual<I>)
            requires
                k <= j < parents.len(),
            ensures
                fitness.ensures((&g.individual,), g.fitness),
                slot_child(parents@, k as int, j - k, g.individual, *generator),
        { grade_slot(parents, k, j, generator, fitness) };
        let mut offspring = par_map_range(k, n, slot);
        assert(graded_by(offspring@, fitness));
        assert(bred_from(self.individuals@, k as int, offspring@, *generator)) by {
            assert forall|i: int| 0 <= i < offspring@.len() implies
                #[trigger] slot_child(self.individuals@, k as int, i, offspring@[i].individual, *generator) by {
                assert(((k + i) as usize) - k == i);
            }
        }
        let mut next = self.individuals;
        next.truncate(k);
        let ghost elites = next@;
        let ghost off = offspring@;
        next.append(&mut offspring);
        let ghost joined = next@;
        sort_by_rank(&mut next);
        proof {
            broadcast use vstd::seq_lib::group_to_multiset_ensures;
            assert(joined == elites + off);
            joined.to_multiset_ensures();
            next@.to_multiset_ensures();
            assert forall|i: int| 0 <= i < elite_count(n as nat) implies
                next@.contains(#[trigger] self.individuals@[i]) by {
                assert(joined[i] == self.individuals@[i]);
                assert(joined.contains(joined[i]));
                assert(joined.to_multiset().count(joined[i]) > 0);
                assert(next@.to_multiset().count(joined[i]) > 0);
            }
            assert(elites == self.individuals@.take(k as int));
            if graded_by(self.individuals@, fitness) {
                assert(graded_by(joined, fitness)) by {
                    assert forall|j: int| 0 <= j < joined.len() implies
                        fitness.ensures((&joined[j].individual,), #[trigger] joined[j].fitness) by {
                        if j < k {
                            assert(joined[j] == self.individuals@[j]);
                        } else {
                            assert(joined[j] == off[j - k]);
                        }
                    }
                }
                lemma_graded_by_permutation(joined, next@, fitness);
            }
        }
        Population { individuals: next }
    }
}

/// Scores the offspring for slot `j` of a generation whose first `k`
/// entries are elite: slots at an even distance from `k` hold a mutation of
/// the parent in that slot, the others a crossover of that parent with one
/// drawn from the whole generation.
fn grade_slot<I, G, F>(parents: &Vec<GradedIndividual<I>>, k: usize, j: usize, generator: &G, fitness: &F) -> (r: GradedIndividual<I>)
    where I: Individual + Send + Sync, G: Generator<I>, F: Fn(&I) -> u32,
    requires
        k <= j < parents.len(),
        forall|x: &I| fitness.requires((x,)),
    ensures
        fitness.ensures((&r.individual,), r.fitness),
        slot_child(parents@, k as int, j - k, r.individual, *generator),
{
    let parent = &parents[j].individual;
    let child = if (j - k) % 2 == 0 {
        parent.mutate()
    } else {
        let other = random_range(0, parents.len());
        let c = generator.evolve(parent, &parents[other].individual);
        assert(generator.is_offspring(&parents@[k + (j - k)].individual, &parents@[other as int].individual, &c));
        c
    };
    let score = fitness(&child);
    GradedIndividual::new(child, score)
}

/// `after` is a next generation of `before`: its entries are the elite of
/// `before`, unchanged, and for each other slot one freshly scored child of
/// the parent in that slot (see `slot_child`), in some order.
pub open spec fn is_next_generation<I, G, F>(before: Seq<GradedIndividual<I>>, after: Seq<GradedIndividual<I>>, generator: G, fitness: F) -> bool
    where I: Individual + Send + Sync, G: Generator<I>, F: Fn(&I) -> u32,
{
    exists|offspring: Seq<GradedIndividual<I>>|
        #![trigger before.take(elite_count(before.len()) as int) + offspring]
        offspring.len() + elite_count(before.len()) == before.len()
        && graded_by(offspring, fitness)
        && bred_from(before, elite_count(before.len()) as int, offspring, generator)
        && after.to_multiset() == (before.take(elite_count(before.len()) as int) + offspring).to_multiset()
}

/// `fitness` gives one score only for each individual.
pub open spec fn is_deterministic<I, F>(fitness: F) -> bool
    where I: Individual + Send + Sync, F: Fn(&I) -> u32,
{
    forall|x: &I, a: u32, b: u32| fitness.ensures((x,), a) && fitness.ensures((x,), b) ==> a == b
}

/// With a deterministic fitness function, an individual carries the same
/// score wherever it is graded: in one population, or in two generations.
pub proof fn scoring_is_repeatable<I, F>(fitness: F, s: Seq<GradedIndividual<I>>, t: Seq<GradedIndividual<I>>, i: int, j: int)
    where I: Individual + Send + Sync, F: Fn(&I) -> u32,
    requires
        is_deterministic::<I, F>(fitness),
        graded_by(s, fitness),
        graded_by(t, fitness),
        0 <= i < s.len(),
        0 <= j < t.len(),
        s[i].individual == t[j].individual,
    ensures
        s[i].fitness == t[j].fitness,
{
    assert(fitness.ensures((&s[i].individual,), s[i].fitness));
    assert(fitness.ensures((&t[j].individual,), t[j].fitness));
}

/// Reordering entries keeps each one's origin.
proof fn lemma_generated_by_permutation<I, G>(a: Seq<GradedIndividual<I>>, b: Seq<GradedIndividual<I>>, generator: G)
    where I: Individual + Send + Sync, G: Generator<I>,
    requires
        generated_by(a, generator),
        a.to_multiset() == b.to_multiset(),
    ensures
        generated_by(b, generator),
{
    broadcast use vstd::seq_lib::group_to_multiset_ensures;
    assert forall|j: int| 0 <= j < b.len() implies generator.is_generated(&#[trigger] b[j].individual) by {
        assert(b.contains(b[j]));
        assert(a.to_multiset().count(b[j]) > 0);
        let i = choose|i: int| 0 <= i < a.len() && a[i] == b[j];
        assert(generator.is_generated(&a[i].individual));
    }
}

/// Reordering entries keeps each one's grading.
proof fn lemma_graded_by_permutation<I, F>(a: Seq<GradedIndividual<I>>, b: Seq<GradedIndividual<I>>, fitness: F)
    where I: Individual + Send + Sync, F: Fn(&I) -> u32,
    requires
        graded_by(a, fitness),
        a.to_multiset() == b.to_multiset(),
    ensures
        graded_by(b, fitness),
        b.len() == a.len(),
{
    broadcast use vstd::seq_lib::group_to_multiset_ensures;
    a.to_multiset_ensures();
    b.to_multiset_ensures();
    assert forall|j: int| 0 <= j < b.len() implies fitness.ensures((&b[j].individual,), #[trigger] b[j].fitness) by {
        assert(b.contains(b[j]));
        assert(a.to_multiset().count(b[j]) > 0);
        let i = choose|i: int| 0 <= i < a.len() && a[i] == b[j];
    }
}

} // verus!
