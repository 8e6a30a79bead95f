//! The phrase domain: individuals are ten lowercase letters, scored on how
//! close each letter is to the letter of a target phrase.
use vstd::prelude::*;

use crate::population::{Generator, Individual};
use crate::random::random_range;

verus! {

/// A candidate phrase of ten letters.
#[derive(Clone, Copy)]
pub struct StringIndividual {
    pub genes: [u8; 10],
}

pub open spec fn is_lowercase(c: u8) -> bool {
    0x61 <= c <= 0x7a
}

/// A random lowercase letter.
fn random_letter() -> (r: u8)
    ensures
        is_lowercase(r),
{
    0x61u8 + random_range(0, 26) as u8
}

impl StringIndividual {
    /// A phrase of ten random lowercase letters.
    pub fn new() -> (r: StringIndividual)
        ensures
            all_lowercase(r.genes@),
    {
        StringIndividual {
            genes: [
                random_letter(),
                random_letter(),
                random_letter(),
                random_letter(),
                random_letter(),
                random_letter(),
                random_letter(),
                random_letter(),
                random_letter(),
                random_letter(),
            ],
        }
    }

    /// This phrase with the letter at `index` replaced by `letter`.
    pub fn with_gene(&self, index: usize, letter: u8) -> (r: StringIndividual)
        requires
            index < 10,
        ensures
            r.genes@ == self.genes@.update(index as int, letter),
    {
        let mut ind = *self;
        ind.genes[index] = letter;
        assert(ind.genes@ =~= self.genes@.update(index as int, letter));
        ind
    }

    /// The first `mid` letters of `self` followed by the rest of `other`.
    pub fn crossover(&self, other: &StringIndividual, mid: usize) -> (r: StringIndividual)
        requires
            mid <= 10,
        ensures
            forall|i: int| 0 <= i < 10 ==> #[trigger] r.genes@[i] == if i < mid { self.genes@[i] } else { other.genes@[i] },
    {
        let mut ind = *self;
        let mut i: usize = mid;
        while i < 10
            invariant
                mid <= i <= 10,
                forall|j: int| 0 <= j < 10 ==> #[trigger] ind.genes@[j] == if j < mid || j >= i { self.genes@[j] } else { other.genes@[j] },
            decreases 10 - i,
        {
            ind.genes[i] = other.genes[i];
            i = i + 1;
        }
        ind
    }
}

/// Every letter of `genes` is lowercase.
pub open spec fn all_lowercase(genes: Seq<u8>) -> bool {
    forall|i: int| 0 <= i < genes.len() ==> is_lowercase(#[trigger] genes[i])
}

impl Individual for StringIndividual {
    /// One letter replaced by a lowercase letter.
    open spec fn is_mutant_of(&self, parent: &Self) -> bool {
        exists|index: int, letter: u8|
            0 <= index < 10 && is_lowercase(letter)
            && #[trigger] parent.genes@.update(index, letter) == self.genes@
    }

    /// Replaces one random letter by a random lowercase letter.
    fn mutate(&self) -> StringIndividual {
        let index = random_range(0, 10);
        let letter = random_letter();
        let r = self.with_gene(index, letter);
        assert(self.genes@.update(index as int, letter) == r.genes@);
        r
    }
}

/// The letters of `a` before `mid`, those of `b` from it on.
pub open spec fn crossed(a: Seq<u8>, b: Seq<u8>, mid: int) -> Seq<u8> {
    Seq::new(a.len(), |i: int| if i < mid { a[i] } else { b[i] })
}

/// Fresh random phrases; the offspring of two phrases takes the letters of
/// the second from a random position on.
pub struct StringGenerator {}

impl Generator<StringIndividual> for StringGenerator {
    /// Ten lowercase letters.
    open spec fn is_generated(&self, x: &StringIndividual) -> bool {
        all_lowercase(x.genes@)
    }

    /// The letters of `a` before some cut point below 9, those of `b` from it
    /// on.
    open spec fn is_offspring(&self, a: &StringIndividual, b: &StringIndividual, child: &StringIndividual) -> bool {
        exists|mid: int| 0 <= mid < 9 && #[trigger] crossed(a.genes@, b.genes@, mid) == child.genes@
    }

    fn generate(&self) -> StringIndividual {
        StringIndividual::new()
    }

    fn evolve(&self, a: &StringIndividual, b: &StringIndividual) -> StringIndividual {
        let mid = random_range(0, 9);
        let r = a.crossover(b, mid);
        assert(crossed(a.genes@, b.genes@, mid as int) =~= r.genes@);
        r
    }
}

/// The score of one letter against its target: one for a match, less by the
/// distance between the two codes otherwise.
pub open spec fn letter_score(target: u8, gene: u8) -> int {
    let d = target as int - gene as int;
    1 - (if d < 0 { -d } else { d })
}

/// The sum of the letter scores of the first `n` positions.
pub open spec fn phrase_score(target: Seq<u8>, genes: Seq<u8>, n: nat) -> int
    decreases n,
{
    if n == 0 {
        0
    } else {
        phrase_score(target, genes, (n - 1) as nat) + letter_score(target[n - 1], genes[n - 1])
    }
}

/// Scores phrases against a target of ten lowercase letters.
pub struct StringFitness {
    pub target: [u8; 10],
}

/// A target phrase: ten bytes, each a lowercase letter.
pub open spec fn is_target(phrase: Seq<u8>) -> bool {
    phrase.len() == 10 && forall|i: int| 0 <= i < 10 ==> is_lowercase(#[trigger] phrase[i])
}

/// The scorer for target `phrase`, or `None` unless it is ten lowercase
/// letters.
pub fn string_fitness(phrase: &[u8]) -> (r: Option<StringFitness>)
    ensures
        r is Some <==> is_target(phrase@),
        r matches Some(f) ==> f.target@ == phrase@,
{
    if phrase.len() != 10 {
        return None;
    }
    let mut target: [u8; 10] = [0u8; 10];
    let mut i: usize = 0;
    while i < 10
        invariant
            phrase@.len() == 10,
            i <= 10,
            forall|j: int| 0 <= j < i ==> is_lowercase(#[trigger] phrase@[j]) && target@[j] == phrase@[j],
        decreases 10 - i,
    {
        let c = phrase[i];
        if c < 0x61 || c > 0x7a {
            return None;
        }
        target[i] = c;
        i = i + 1;
    }
    assert(target@ =~= phrase@);
    Some(StringFitness { target })
}

impl StringFitness {
    /// The score of `s`: the sum over its letters of `letter_score`.
    pub fn score(&self, s: &StringIndividual) -> (r: i32)
        ensures
            r == phrase_score(self.target@, s.genes@, 10),
    {
        let mut score: i32 = 0;
        let mut i: usize = 0;
        while i < 10
            invariant
                i <= 10,
                score == phrase_score(self.target@, s.genes@, i as nat),
                -255 * (i as int) <= score <= i,
            decreases 10 - i,
        {
            let delta = self.target[i] as i32 - s.genes[i] as i32;
            let dist = if delta < 0 { -delta } else { delta };
            score = score + (1 - dist);
            i = i + 1;
        }
        score
    }
}

/// The target phrase itself scores one per letter, ten in all.
pub proof fn target_scores_ten(target: Seq<u8>)
    requires
        target.len() == 10,
    ensures
        phrase_score(target, target, 10) == 10,
{
    lemma_score_of_self(target, 10);
}

proof fn lemma_score_of_self(target: Seq<u8>, n: nat)
    requires
        n <= target.len(),
    ensures
        phrase_score(target, target, n) == n,
    decreases n,
{
    if n > 0 {
        lemma_score_of_self(target, (n - 1) as nat);
    }
}

/// A phrase that differs from the target in one letter only, by a distance of
/// `d` between the two codes, scores `10 - d`.
pub proof fn one_letter_off_scores_less(target: Seq<u8>, index: int, letter: u8)
    requires
        target.len() == 10,
        0 <= index < 10,
    ensures
        phrase_score(target, target.update(index, letter), 10)
            == 10 - (if target[index] >= letter { target[index] - letter } else { letter - target[index] }),
{
    lemma_one_off(target, index, letter, 10);
}

proof fn lemma_one_off(target: Seq<u8>, index: int, letter: u8, n: nat)
    requires
        n <= target.len(),
        0 <= index < target.len(),
    ensures
        phrase_score(target, target.update(index, letter), n)
            == n - (if index < n { if target[index] >= letter { target[index] - letter } else { letter - target[index] } } else { 0 }),
    decreases n,
{
    if n > 0 {
        lemma_one_off(target, index, letter, (n - 1) as nat);
    }
}

} // verus!
