//! The generational selection loop.
use crate::chance::Probability;
use crate::engine::{draws_fit, is_outcome, play, play_match, score_first, RoundDraws};
use crate::game::PayoffMatrix;
use crate::strategy::{display_name, roster, roster_at, ROSTER_SIZE};
use crate::tournament::pairings_fit;
use vstd::prelude::*;

verus! {

/// A snapshot of the population: each roster strategy's name and count.
#[derive(Debug)]
pub struct Generation {
    pub gen_number: u32,
    pub populations: Vec<(String, u32)>,
}

/// The total number of individuals.
pub open spec fn pop_sum(s: Seq<u32>) -> int
    decreases s.len(),
{
    if s.len() == 0 {
        0
    } else {
        pop_sum(s.drop_last()) + s.last()
    }
}

/// How many slots have a positive count.
pub open spec fn active_count(s: Seq<u32>) -> nat
    decreases s.len(),
{
    if s.len() == 0 {
        0
    } else {
        active_count(s.drop_last()) + if s.last() > 0 {
            1nat
        } else {
            0
        }
    }
}

/// Among the active slots before `n`, `b` has the highest fitness, and is the
/// first slot with that fitness.
pub open spec fn is_fittest_before(pop: Seq<u32>, fit: Seq<i128>, b: int, n: int) -> bool {
    &&& 0 <= b < n
    &&& pop[b] > 0
    &&& forall|j: int|
        0 <= j < n && #[trigger] pop[j] > 0 ==> fit[j] <= fit[b] && (j < b ==> fit[j] < fit[b])
}

/// Among the active slots before `n`, `w` has the lowest fitness, and is the
/// first slot with that fitness.
pub open spec fn is_weakest_before(pop: Seq<u32>, fit: Seq<i128>, w: int, n: int) -> bool {
    &&& 0 <= w < n
    &&& pop[w] > 0
    &&& forall|j: int|
        0 <= j < n && #[trigger] pop[j] > 0 ==> fit[j] >= fit[w] && (j < w ==> fit[j] > fit[w])
}

/// The fittest grows by one and the weakest shrinks by one, unless they are
/// the same slot.
pub open spec fn reallocate(pop: Seq<u32>, b: int, w: int) -> Seq<u32> {
    if b == w {
        pop
    } else {
        pop.update(b, (pop[b] + 1) as u32).update(w, (pop[w] - 1) as u32)
    }
}

/// `next` is what selection makes of `pop` under fitness `fit`.
pub open spec fn selected(pop: Seq<u32>, fit: Seq<i128>, next: Seq<u32>) -> bool {
    if active_count(pop) == 0 {
        next == pop
    } else {
        exists|b: int, w: int|
            is_fittest_before(pop, fit, b, pop.len() as int) && is_weakest_before(
                pop,
                fit,
                w,
                pop.len() as int,
            ) && #[trigger] reallocate(pop, b, w) == next
    }
}

proof fn lemma_pop_sum_update(s: Seq<u32>, i: int, v: u32)
    requires
        0 <= i < s.len(),
    ensures
        pop_sum(s.update(i, v)) == pop_sum(s) - s[i] + v,
    decreases s.len(),
{
    let t = s.update(i, v);
    if i < s.len() - 1 {
        lemma_pop_sum_update(s.drop_last(), i, v);
        assert(t.drop_last() =~= s.drop_last().update(i, v));
    } else {
        assert(t.drop_last() =~= s.drop_last());
    }
}

proof fn lemma_pop_sum_nonneg(s: Seq<u32>)
    ensures
        pop_sum(s) >= 0,
    decreases s.len(),
{
    if s.len() > 0 {
        lemma_pop_sum_nonneg(s.drop_last());
    }
}

proof fn lemma_active_count_positive(s: Seq<u32>, i: int)
    requires
        0 <= i < s.len(),
        s[i] > 0,
    ensures
        active_count(s) > 0,
    decreases s.len(),
{
    if i < s.len() - 1 {
        lemma_active_count_positive(s.drop_last(), i);
    }
}

/// Selection moves one individual from one slot to another: the total
/// population is the same after it.
pub proof fn lemma_selection_preserves_total(pop: Seq<u32>, fit: Seq<i128>, next: Seq<u32>)
    requires
        selected(pop, fit, next),
        pop_sum(pop) <= u32::MAX,
    ensures
        pop_sum(next) == pop_sum(pop),
{
    if active_count(pop) > 0 {
        let (b, w) = choose|b: int, w: int|
            is_fittest_before(pop, fit, b, pop.len() as int) && is_weakest_before(
                pop,
                fit,
                w,
                pop.len() as int,
            ) && #[trigger] reallocate(pop, b, w) == next;
        if b != w {
            lemma_reallocate_bounds(pop, b, w);
            let up = pop.update(b, (pop[b] + 1) as u32);
            lemma_pop_sum_update(pop, b, (pop[b] + 1) as u32);
            lemma_pop_sum_update(up, w, (pop[w] - 1) as u32);
        }
    }
}

/// Two distinct slots together hold no more than the whole population.
proof fn lemma_reallocate_bounds(pop: Seq<u32>, b: int, w: int)
    requires
        0 <= b < pop.len(),
        0 <= w < pop.len(),
        b != w,
    ensures
        pop[b] + pop[w] <= pop_sum(pop),
{
    let z = pop.update(b, 0u32);
    lemma_pop_sum_update(pop, b, 0u32);
    lemma_pop_sum_update(z, w, 0u32);
    lemma_pop_sum_nonneg(z.update(w, 0u32));
}

/// One selection step: among the active slots, the first of the highest
/// fitness gains one individual and the first of the lowest loses one; nothing
/// changes when they coincide or no slot is active.
pub fn select(population: &mut Vec<u32>, fitness: &Vec<i128>)
    requires
        old(population).len() == fitness.len(),
        pop_sum(old(population)@) <= u32::MAX,
    ensures
        selected(old(population)@, fitness@, final(population)@),
{
    let ghost pop = population@;
    let n = population.len();
    let mut found = false;
    let mut best: usize = 0;
    let mut worst: usize = 0;
    let mut i: usize = 0;
    while i < n
        invariant
            n == population.len(),
            n == fitness.len(),
            pop == population@,
            i <= n,
            found ==> is_fittest_before(pop, fitness@, best as int, i as int),
            found ==> is_weakest_before(pop, fitness@, worst as int, i as int),
            !found ==> forall|j: int| 0 <= j < i ==> #[trigger] pop[j] == 0,
        decreases n - i,
    {
        if population[i] > 0 {
            if !found {
                best = i;
                worst = i;
                found = true;
            } else {
                if fitness[i] > fitness[best] {
                    best = i;
                }
                if fitness[i] < fitness[worst] {
                    worst = i;
                }
            }
        }
        i += 1;
    }
    if !found {
        proof {
            assert forall|j: int| 0 <= j < pop.len() implies #[trigger] pop[j] == 0 by {}
            lemma_active_count_zero(pop);
        }
        return;
    }
    proof {
        lemma_active_count_positive(pop, best as int);
    }
    if best != worst {
        proof {
            lemma_reallocate_bounds(pop, best as int, worst as int);
        }
        population.set(best, population[best] + 1);
        population.set(worst, population[worst] - 1);
    }
    proof {
        assert(population@ =~= reallocate(pop, best as int, worst as int));
    }
}

proof fn lemma_active_count_zero(s: Seq<u32>)
    requires
        forall|j: int| 0 <= j < s.len() ==> #[trigger] s[j] == 0,
    ensures
        active_count(s) == 0,
    decreases s.len(),
{
    if s.len() > 0 {
        let t = s.drop_last();
        assert forall|j: int| 0 <= j < t.len() implies #[trigger] t[j] == 0 by {
            assert(t[j] == s[j]);
        }
        lemma_active_count_zero(t);
    }
}

/// How many opponents of type `j` an individual of type `i` meets: itself
/// excluded when `i == j`.
pub open spec fn opponents(pop: Seq<u32>, i: int, j: int) -> int {
    if i == j {
        pop[j] - 1
    } else {
        pop[j] as int
    }
}

/// Slot `i`'s fitness from the slots before `n`: for each active pair, the
/// score of one representative match times the number of such opponents.
pub open spec fn fitness_before(
    pop: Seq<u32>,
    m: PayoffMatrix,
    i: int,
    row: Seq<Seq<RoundDraws>>,
    n: int,
) -> int
    decreases n,
{
    if n <= 0 {
        0
    } else {
        fitness_before(pop, m, i, row, n - 1) + if pop[i] > 0 && pop[n - 1] > 0 {
            score_first(play(roster()[i], roster()[n - 1], m, row[n - 1]), m) * opponents(
                pop,
                i,
                n - 1,
            )
        } else {
            0
        }
    }
}

/// `fit` holds each slot's fitness, the matches played under `dd`.
pub open spec fn is_fitness(
    fit: Seq<i128>,
    pop: Seq<u32>,
    m: PayoffMatrix,
    dd: Seq<Seq<Seq<RoundDraws>>>,
) -> bool {
    &&& fit.len() == ROSTER_SIZE
    &&& forall|i: int|
        0 <= i < ROSTER_SIZE ==> #[trigger] fit[i] == fitness_before(pop, m, i, dd[i], ROSTER_SIZE as int)
}

proof fn lemma_fitness_prefix(
    pop: Seq<u32>,
    m: PayoffMatrix,
    i: int,
    a: Seq<Seq<RoundDraws>>,
    b: Seq<Seq<RoundDraws>>,
    n: int,
)
    requires
        n <= a.len() <= b.len(),
        forall|k: int| 0 <= k < a.len() ==> a[k] == b[k],
    ensures
        fitness_before(pop, m, i, a, n) == fitness_before(pop, m, i, b, n),
    decreases n,
{
    if n > 0 {
        lemma_fitness_prefix(pop, m, i, a, b, n - 1);
    }
}

/// Evaluates the fitness of every slot of the roster.
pub fn compute_fitness(
    population: &Vec<u32>,
    rounds: u32,
    noise: Probability,
    matrix: &PayoffMatrix,
    rng: &mut rand::rngs::StdRng,
) -> (r: Vec<i128>)
    requires
        population.len() == ROSTER_SIZE,
        noise.wf(),
    ensures
        exists|dd: Seq<Seq<Seq<RoundDraws>>>|
            #[trigger] pairings_fit(dd, rounds, noise) && is_fitness(r@, population@, *matrix, dd),
{
    let ghost pop = population@;
    let ghost unplayed = Seq::new(
        rounds as nat,
        |k: int|
            RoundDraws {
                coin1: false,
                coin2: false,
                flip1: noise.is_certain(),
                flip2: noise.is_certain(),
            },
    );
    assert(draws_fit(unplayed, noise));
    let mut fitness: Vec<i128> = Vec::new();
    let ghost mut dd: Seq<Seq<Seq<RoundDraws>>> = Seq::empty();
    let mut i: usize = 0;
    while i < ROSTER_SIZE
        invariant
            noise.wf(),
            pop == population@,
            pop.len() == ROSTER_SIZE,
            unplayed.len() == rounds,
            draws_fit(unplayed, noise),
            i <= ROSTER_SIZE,
            fitness.len() == i,
            dd.len() == i,
            forall|a: int| 0 <= a < i ==> (#[trigger] dd[a]).len() == ROSTER_SIZE,
            forall|a: int, b: int|
                0 <= a < i && 0 <= b < ROSTER_SIZE ==> (#[trigger] dd[a][b]).len() == rounds
                    && draws_fit(dd[a][b], noise),
            forall|a: int|
                0 <= a < i ==> #[trigger] fitness[a] == fitness_before(
                    pop,
                    *matrix,
                    a,
                    dd[a],
                    ROSTER_SIZE as int,
                ),
        decreases ROSTER_SIZE - i,
    {
        let p1 = roster_at(i);
        let mut acc: i128 = 0;
        let ghost mut row: Seq<Seq<RoundDraws>> = Seq::empty();
        let mut j: usize = 0;
        while j < ROSTER_SIZE
            invariant
                noise.wf(),
                pop == population@,
                pop.len() == ROSTER_SIZE,
                unplayed.len() == rounds,
                draws_fit(unplayed, noise),
                i < ROSTER_SIZE,
                p1 == roster()[i as int],
                j <= ROSTER_SIZE,
                row.len() == j,
                forall|b: int| 0 <= b < j ==> (#[trigger] row[b]).len() == rounds && draws_fit(row[b], noise),
                acc == fitness_before(pop, *matrix, i as int, row, j as int),
                -(j * 0x8000_0000_0000_0000_0000_0000) <= acc <= j * 0x8000_0000_0000_0000_0000_0000,
            decreases ROSTER_SIZE - j,
        {
            let ghost old_row = row;
            if population[i] > 0 && population[j] > 0 {
                let p2 = roster_at(j);
                let result = play_match(p1, p2, rounds, noise, matrix, rng);
                let ghost d = choose|d: Seq<RoundDraws>|
                    d.len() == rounds && draws_fit(d, noise) && #[trigger] is_outcome(result, p1, p2, *matrix, d);
                proof {
                    row = row.push(d);
                }
                let opp: u32 = if i == j {
                    population[j] - 1
                } else {
                    population[j]
                };
                let score = result.player_score;
                assert(-0x8000_0000_0000_0000_0000_0000 <= score as int * opp as int
                    <= 0x8000_0000_0000_0000_0000_0000) by (nonlinear_arith)
                    requires
                        -0x8000_0000_0000_0000 <= score <= 0x8000_0000_0000_0000,
                        0 <= opp <= 0x1_0000_0000,
                ;
                acc = acc + (score as i128) * (opp as i128);
            } else {
                proof {
                    row = row.push(unplayed);
                }
            }
            proof {
                assert forall|n: int| 0 <= n <= j implies fitness_before(pop, *matrix, i as int, row, n)
                    == fitness_before(pop, *matrix, i as int, old_row, n) by {
                    lemma_fitness_prefix(pop, *matrix, i as int, old_row, row, n);
                }
            }
            j += 1;
        }
        fitness.push(acc);
        proof {
            dd = dd.push(row);
        }
        i += 1;
    }
    assert(pairings_fit(dd, rounds, noise));
    fitness
}

/// Count assigned to each slot when the caller's vector does not fit the roster.
pub const DEFAULT_COUNT: u32 = 5;

/// The population an evolution starts from: the caller's vector when it has
/// one count per roster slot, else the uniform default.
pub open spec fn start_population(initial: Seq<u32>) -> Seq<u32> {
    if initial.len() == ROSTER_SIZE {
        initial
    } else {
        Seq::new(ROSTER_SIZE as nat, |i: int| DEFAULT_COUNT)
    }
}

/// The counts of a snapshot.
pub open spec fn counts(g: Generation) -> Seq<u32> {
    g.populations@.map_values(|e: (String, u32)| e.1)
}

/// The snapshot names every roster slot with its count in `pop`.
pub open spec fn is_snapshot(g: Generation, pop: Seq<u32>) -> bool {
    &&& g.populations.len() == ROSTER_SIZE
    &&& pop.len() == ROSTER_SIZE
    &&& forall|i: int|
        0 <= i < ROSTER_SIZE ==> (#[trigger] g.populations[i]).0@ == display_name(roster()[i])
            && g.populations[i].1 == pop[i]
}

/// `next` follows `pop` by one generation: fitness from representative
/// matches whose random outcomes fit the noise, then selection.
pub open spec fn evolves(
    pop: Seq<u32>,
    next: Seq<u32>,
    rounds: u32,
    noise: Probability,
    m: PayoffMatrix,
) -> bool {
    exists|dd: Seq<Seq<Seq<RoundDraws>>>, fit: Seq<i128>|
        #![trigger pairings_fit(dd, rounds, noise), selected(pop, fit, next)]
        pairings_fit(dd, rounds, noise) && is_fitness(fit, pop, m, dd) && selected(pop, fit, next)
}

/// Every generation transition keeps the total population.
pub proof fn lemma_generation_preserves_total(
    pop: Seq<u32>,
    next: Seq<u32>,
    rounds: u32,
    noise: Probability,
    m: PayoffMatrix,
)
    requires
        evolves(pop, next, rounds, noise, m),
        pop_sum(pop) <= u32::MAX,
    ensures
        pop_sum(next) == pop_sum(pop),
{
    let (dd, fit) = choose|dd: Seq<Seq<Seq<RoundDraws>>>, fit: Seq<i128>|
        #![trigger pairings_fit(dd, rounds, noise), selected(pop, fit, next)]
        pairings_fit(dd, rounds, noise) && is_fitness(fit, pop, m, dd) && selected(pop, fit, next);
    lemma_selection_preserves_total(pop, fit, next);
}

fn default_population() -> (r: Vec<u32>)
    ensures
        r@ == start_population(Seq::empty()),
        pop_sum(r@) == DEFAULT_COUNT * ROSTER_SIZE,
{
    let mut v: Vec<u32> = Vec::new();
    while v.len() < ROSTER_SIZE
        invariant
            v.len() <= ROSTER_SIZE,
            forall|k: int| 0 <= k < v.len() ==> #[trigger] v[k] == DEFAULT_COUNT,
            pop_sum(v@) == DEFAULT_COUNT * v.len(),
        decreases ROSTER_SIZE - v.len(),
    {
        let ghost old_v = v@;
        v.push(DEFAULT_COUNT);
        assert(v@.drop_last() =~= old_v);
    }
    assert(v@ =~= start_population(Seq::empty()));
    v
}

/// Counts the active slots.
pub fn count_active(population: &Vec<u32>) -> (r: usize)
    ensures
        r == active_count(population@),
{
    let mut c: usize = 0;
    let mut i: usize = 0;
    while i < population.len()
        invariant
            i <= population.len(),
            c <= i,
            c == active_count(population@.take(i as int)),
        decreases population.len() - i,
    {
        assert(population@.take(i + 1).drop_last() =~= population@.take(i as int));
        if population[i] > 0 {
            c += 1;
        }
        i += 1;
    }
    assert(population@.take(population.len() as int) =~= population@);
    c
}

/// Whether a caller's initial vector meets `run_evolution`'s bound: a vector
/// of roster length whose counts add up to at most `u32::MAX`, or any vector
/// of another length (the uniform default replaces it).
pub fn pop_sum_fits(initial_populations: &Vec<u32>) -> (r: bool)
    ensures
        r == (initial_populations.len() == ROSTER_SIZE ==> pop_sum(initial_populations@) <= u32::MAX),
{
    if initial_populations.len() != ROSTER_SIZE {
        return true;
    }
    let mut acc: u64 = 0;
    let mut i: usize = 0;
    while i < ROSTER_SIZE
        invariant
            initial_populations.len() == ROSTER_SIZE,
            i <= ROSTER_SIZE,
            acc == pop_sum(initial_populations@.take(i as int)),
            acc <= i * 0xFFFF_FFFF,
        decreases ROSTER_SIZE - i,
    {
        assert(initial_populations@.take(i + 1).drop_last() =~= initial_populations@.take(i as int));
        acc = acc + initial_populations[i] as u64;
        i += 1;
    }
    assert(initial_populations@.take(ROSTER_SIZE as int) =~= initial_populations@);
    acc <= 0xFFFF_FFFF
}

/// A snapshot of the population, tagged with its generation number.
pub fn snapshot(population: &Vec<u32>, gen_number: u32) -> (r: Generation)
    requires
        population.len() == ROSTER_SIZE,
    ensures
        r.gen_number == gen_number,
        is_snapshot(r, population@),
        counts(r) == population@,
{
    let mut entries: Vec<(String, u32)> = Vec::new();
    let mut i: usize = 0;
    while i < ROSTER_SIZE
        invariant
            population.len() == ROSTER_SIZE,
            i <= ROSTER_SIZE,
            entries.len() == i,
            forall|k: int|
                0 <= k < i ==> (#[trigger] entries[k]).0@ == display_name(roster()[k]) && entries[k].1
                    == population[k],
        decreases ROSTER_SIZE - i,
    {
        entries.push((roster_at(i).name(), population[i]));
        i += 1;
    }
    let r = Generation { gen_number, populations: entries };
    assert(counts(r) =~= population@);
    r
}

/// Runs up to `generation_count` generations. Each generation records a
/// snapshot, stops the run when at most one slot is active, and otherwise
/// evaluates fitness and applies one selection step.
pub fn run_evolution(
    rounds: u32,
    noise: Probability,
    initial_populations: Vec<u32>,
    generation_count: u32,
    matrix: &PayoffMatrix,
    rng: &mut rand::rngs::StdRng,
) -> (r: Vec<Generation>)
    requires
        noise.wf(),
        initial_populations.len() == ROSTER_SIZE ==> pop_sum(initial_populations@) <= u32::MAX,
    ensures
        r.len() <= generation_count,
        generation_count > 0 ==> r.len() > 0,
        r.len() > 0 ==> counts(r[0]) == start_population(initial_populations@),
        forall|k: int|
            0 <= k < r.len() ==> (#[trigger] r[k]).gen_number == k + 1 && is_snapshot(r[k], counts(r[k]))
                && pop_sum(counts(r[k])) == pop_sum(start_population(initial_populations@)),
        forall|k: int|
            0 <= k < r.len() - 1 ==> active_count(counts(#[trigger] r[k])) >= 2 && evolves(
                counts(r[k]),
                counts(r[k + 1]),
                rounds,
                noise,
                *matrix,
            ),
        r.len() < generation_count ==> r.len() > 0 && active_count(counts(r[r.len() - 1])) <= 1,
{
    let ghost start = start_population(initial_populations@);
    let mut population = if initial_populations.len() == ROSTER_SIZE {
        initial_populations
    } else {
        default_population()
    };
    let ghost total = pop_sum(start);
    let mut generations: Vec<Generation> = Vec::new();
    let mut done = false;
    while !done && generations.len() < generation_count as usize
        invariant
            noise.wf(),
            population.len() == ROSTER_SIZE,
            total <= u32::MAX,
            pop_sum(population@) == total,
            total == pop_sum(start),
            generations.len() <= generation_count,
            generations.len() == 0 ==> population@ == start && !done,
            generations.len() > 0 ==> counts(generations[0]) == start,
            forall|k: int|
                0 <= k < generations.len() ==> (#[trigger] generations[k]).gen_number == k + 1
                    && is_snapshot(generations[k], counts(generations[k])) && pop_sum(
                    counts(generations[k]),
                ) == total,
            forall|k: int|
                0 <= k < generations.len() - 1 ==> active_count(counts(#[trigger] generations[k]))
                    >= 2 && evolves(counts(generations[k]), counts(generations[k + 1]), rounds, noise, *matrix),
            !done && generations.len() > 0 ==> active_count(counts(generations[generations.len() - 1]))
                >= 2 && evolves(
                counts(generations[generations.len() - 1]),
                population@,
                rounds,
                noise,
                *matrix,
            ),
            done ==> generations.len() > 0 && active_count(counts(generations[generations.len() - 1]))
                <= 1,
        decreases generation_count - generations.len(),
    {
        let snap = snapshot(&population, (generations.len() + 1) as u32);
        generations.push(snap);
        let active = count_active(&population);
        if active <= 1 {
            done = true;
        } else {
            let fitness = compute_fitness(&population, rounds, noise, matrix, rng);
            let ghost before = population@;
            select(&mut population, &fitness);
            proof {
                lemma_selection_preserves_total(before, fitness@, population@);
                let dd = choose|dd: Seq<Seq<Seq<RoundDraws>>>|
                    #[trigger] pairings_fit(dd, rounds, noise) && is_fitness(
                        fitness@,
                        before,
                        *matrix,
                        dd,
                    );
                assert(pairings_fit(dd, rounds, noise) && selected(before, fitness@, population@));
            }
        }
    }
    generations
}

} // verus!
