use ga::rank::{fitness_key, rank_cmp};
use ga::{Generator, GradedIndividual, Individual, Population};
use std::cmp::Ordering;
use std::sync::atomic::{AtomicUsize, Ordering as AtomicOrdering};

#[derive(Clone, Debug, PartialEq)]
struct Num(u32);

impl Individual for Num {
    fn is_mutant_of(&self, parent: &Self) -> bool {
        self.0 == parent.0 + 1
    }

    fn mutate(&self) -> Self {
        Num(self.0 + 1)
    }
}

struct Counter {
    next: AtomicUsize,
}

impl Generator<Num> for Counter {
    fn is_generated(&self, x: &Num) -> bool {
        (x.0 as usize) < self.next.load(AtomicOrdering::SeqCst)
    }

    fn is_offspring(&self, a: &Num, b: &Num, child: &Num) -> bool {
        child.0 == a.0 + b.0
    }

    fn generate(&self) -> Num {
        Num(self.next.fetch_add(1, AtomicOrdering::SeqCst) as u32)
    }

    fn evolve(&self, a: &Num, b: &Num) -> Num {
        Num(a.0 + b.0)
    }
}

fn score(n: &Num) -> u32 {
    (n.0 as f32).to_bits()
}

fn fitness_of(g: &GradedIndividual<Num>) -> f32 {
    f32::from_bits(g.fitness)
}

fn assert_sorted(p: &Population<Num>) {
    for w in p.individuals.windows(2) {
        assert!(fitness_of(&w[0]) >= fitness_of(&w[1]));
    }
}

#[test]
fn key_orders_as_total_cmp() {
    let values = [f32::NEG_INFINITY, -2.5, -1.0, -0.0, 0.0, 1.0, 1.5, f32::INFINITY, f32::NAN];
    for a in values.iter() {
        for b in values.iter() {
            let by_key = fitness_key(a.to_bits()).cmp(&fitness_key(b.to_bits()));
            assert_eq!(by_key, a.total_cmp(b));
        }
    }
    assert_eq!(fitness_key(0), 0);
    assert_eq!(fitness_key((-0.0f32).to_bits()), -1);
    assert_eq!(fitness_key(1.0f32.to_bits()), 0x3f80_0000);
}

#[test]
fn rank_cmp_puts_higher_fitness_first() {
    let hi = GradedIndividual::new(Num(1), 2.0f32.to_bits());
    let lo = GradedIndividual::new(Num(2), (-3.0f32).to_bits());
    assert_eq!(rank_cmp(&hi, &lo), Ordering::Less);
    assert_eq!(rank_cmp(&lo, &hi), Ordering::Greater);
    assert_eq!(rank_cmp(&hi, &hi), Ordering::Equal);
}

#[test]
fn new_builds_one_fewer_than_size_sorted() {
    let gen = Counter { next: AtomicUsize::new(0) };
    let p = Population::new(11, &gen, &score);
    assert_eq!(p.individuals.len(), 10);
    assert_sorted(&p);
    assert_eq!(p.individuals[0].individual, Num(9));
    assert_eq!(fitness_of(&p.individuals[0]), 9.0);
    assert_eq!(p.individuals[9].individual, Num(0));
    for g in p.individuals.iter() {
        assert_eq!(g.fitness, score(&g.individual));
        assert!(gen.is_generated(&g.individual));
    }
}

#[test]
fn evolve_children_come_from_their_slots() {
    let gen = Counter { next: AtomicUsize::new(0) };
    let parents = Population { individuals: (0..20u32).rev().map(|i| GradedIndividual::new(Num(i * 100), score(&Num(i * 100)))).collect() };
    let before: Vec<Num> = parents.individuals.iter().map(|g| g.individual.clone()).collect();
    let next = parents.evolve(&gen, &score);
    // the elite of two is 1900 and 1800; slot 2 + i holds a child of before[2 + i]
    let kids: Vec<&Num> = next.individuals.iter().map(|g| &g.individual).collect();
    assert!(kids.contains(&&Num(1900)) && kids.contains(&&Num(1800)));
    for i in 0..18 {
        let parent = &before[2 + i];
        let found = kids.iter().any(|c| {
            if i % 2 == 0 {
                c.is_mutant_of(parent)
            } else {
                before.iter().any(|o| gen.is_offspring(parent, o, c))
            }
        });
        assert!(found);
    }
}

#[test]
fn new_of_size_zero_or_one_is_empty() {
    let gen = Counter { next: AtomicUsize::new(0) };
    assert_eq!(Population::new(0, &gen, &score).individuals.len(), 0);
    assert_eq!(Population::new(1, &gen, &score).individuals.len(), 0);
}

#[test]
fn evolve_keeps_size_order_and_elite() {
    let gen = Counter { next: AtomicUsize::new(0) };
    let mut p = Population::new(41, &gen, &score);
    for _ in 0..5 {
        let len = p.individuals.len();
        let elite: Vec<(Num, u32)> =
            p.individuals.iter().take(len / 10).map(|g| (g.individual.clone(), g.fitness)).collect();
        p = p.evolve(&gen, &score);
        assert_eq!(p.individuals.len(), len);
        assert_sorted(&p);
        for (ind, fit) in elite.iter() {
            assert!(p.individuals.iter().any(|g| g.individual == *ind && g.fitness == *fit));
        }
        for g in p.individuals.iter() {
            assert_eq!(g.fitness, score(&g.individual));
        }
    }
}

#[test]
fn evolve_scores_each_non_elite_once() {
    let calls = AtomicUsize::new(0);
    let counted = |n: &Num| -> u32 {
        calls.fetch_add(1, AtomicOrdering::SeqCst);
        score(n)
    };
    let gen = Counter { next: AtomicUsize::new(0) };
    let mut p = Population::new(101, &gen, &counted);
    assert_eq!(calls.load(AtomicOrdering::SeqCst), 100);
    for _ in 0..3 {
        calls.store(0, AtomicOrdering::SeqCst);
        p = p.evolve(&gen, &counted);
        assert_eq!(calls.load(AtomicOrdering::SeqCst), 100 - 10);
    }
}

#[test]
fn evolve_of_tiny_populations() {
    let gen = Counter { next: AtomicUsize::new(5) };
    let empty = Population::<Num> { individuals: Vec::new() };
    assert_eq!(empty.evolve(&gen, &score).individuals.len(), 0);
    let one = Population { individuals: vec![GradedIndividual::new(Num(3), score(&Num(3)))] };
    let next = one.evolve(&gen, &score);
    assert_eq!(next.individuals.len(), 1);
    assert_eq!(next.individuals[0].individual, Num(4));
}

#[test]
fn evolve_sorts_nan_fitness_last_of_negatives() {
    let gen = Counter { next: AtomicUsize::new(0) };
    let nan_score = |n: &Num| -> u32 { if n.0 % 2 == 0 { f32::NAN.to_bits() } else { (-(n.0 as f32)).to_bits() } };
    let p = Population::new(20, &gen, &nan_score);
    for w in p.individuals.windows(2) {
        assert_ne!(fitness_of(&w[0]).total_cmp(&fitness_of(&w[1])), Ordering::Less);
    }
}
