//! A generation of genomes, their fitness, and reproduction by
//! fitness-proportionate selection and crossover.
use vstd::prelude::*;

use crate::chance::random_u64;
use crate::network::{copy_vec, endpoints, offspring_weights, valid_layer_sizes, NetError, NN};

verus! {

/// How many index and threshold pairs selection draws before it settles on
/// a fittest individual.
pub const MAX_DRAWS: usize = 100000;

/// Whether `child` is an offspring of `a` and `b`: it has `a`'s widths,
/// nodes and edges, and its weights are a crossover of theirs in which some
/// were drawn afresh from `init`.
pub open spec fn is_offspring<W, F: Fn() -> W>(
    child: NN<W>,
    a: NN<W>,
    b: NN<W>,
    init: F,
) -> bool {
    &&& child.wf()
    &&& child.sizes() == a.sizes()
    &&& child.node_seq() == a.node_seq()
    &&& endpoints(child.connection_seq()) == endpoints(a.connection_seq())
    &&& exists|split: int|
        0 <= split && (split < a.connection_seq().len() || split == 0)
            && #[trigger] offspring_weights(child.weights(), a.weights(), b.weights(), split, init)
}

/// Whether `child` is an offspring of two eligible members of a population
/// with the given members and fitness.
pub open spec fn bred_from<W, F: Fn() -> W>(
    child: NN<W>,
    members: Seq<NN<W>>,
    fitness: Seq<u64>,
    init: F,
) -> bool {
    exists|a: int, b: int|
        eligible(fitness, a) && eligible(fitness, b) && #[trigger] is_offspring(
            child,
            members[a],
            members[b],
            init,
        )
}

/// Whether two networks have the same widths, nodes and connections.
pub open spec fn same_network<W>(a: NN<W>, b: NN<W>) -> bool {
    &&& a.sizes() == b.sizes()
    &&& a.node_seq() == b.node_seq()
    &&& a.connection_seq() == b.connection_seq()
}

/// Whether index `i` may be chosen as a parent: when some individual has
/// positive fitness, only such an individual may.
pub open spec fn eligible(fitness: Seq<u64>, i: int) -> bool {
    &&& 0 <= i < fitness.len()
    &&& (exists|j: int| 0 <= j < fitness.len() && fitness[j] > 0) ==> fitness[i] > 0
}

/// The sum of a fitness sequence.
pub open spec fn total(s: Seq<u64>) -> int
    decreases s.len(),
{
    if s.len() == 0 {
        0
    } else {
        total(s.drop_last()) + s.last()
    }
}

/// The individuals of one generation with their fitness, and the best
/// individual seen in any generation.
pub struct Population<W> {
    population: Vec<NN<W>>,
    pop_fitness: Vec<u64>,
    pop_size: usize,
    generation: usize,
    best_individual: NN<W>,
    best_fitness: u64,
    has_solved: bool,
    solve_threshold: u64,
    layer_sizes: Vec<usize>,
}

impl<W> Population<W> {
    pub closed spec fn members(&self) -> Seq<NN<W>> {
        self.population@
    }

    pub closed spec fn fitness(&self) -> Seq<u64> {
        self.pop_fitness@
    }

    pub closed spec fn size(&self) -> nat {
        self.pop_size as nat
    }

    pub closed spec fn gen(&self) -> nat {
        self.generation as nat
    }

    pub closed spec fn best(&self) -> NN<W> {
        self.best_individual
    }

    pub closed spec fn best_fit(&self) -> u64 {
        self.best_fitness
    }

    pub closed spec fn solved(&self) -> bool {
        self.has_solved
    }

    pub closed spec fn threshold(&self) -> u64 {
        self.solve_threshold
    }

    pub closed spec fn sizes(&self) -> Seq<usize> {
        self.layer_sizes@
    }

    /// Every individual and the best one are well formed and share the
    /// population's layer widths; fitness is aligned with the individuals.
    pub open spec fn wf(&self) -> bool {
        &&& self.size() > 0
        &&& self.members().len() == self.size()
        &&& self.fitness().len() == self.size()
        &&& forall|i: int|
            0 <= i < self.size() ==> (#[trigger] self.members()[i]).wf()
                && self.members()[i].sizes() == self.sizes()
        &&& self.best().wf()
        &&& self.best().sizes() == self.sizes()
    }
}

impl<W: Copy> Population<W> {
    /// A population of `pop_size` networks with the given layer widths, each
    /// weight a fresh value of `init`. Fitness starts at zero everywhere, as
    /// do the generation and the best fitness; the population is not solved.
    /// An individual whose fitness reaches `solve_threshold` solves the task.
    pub fn new<F: Fn() -> W>(
        nn_info: Vec<usize>,
        pop_size: usize,
        solve_threshold: u64,
        init: &F,
    ) -> (r: Result<Population<W>, NetError>)
        requires
            pop_size > 0,
            init.requires(()),
        ensures
            r is Err <==> !valid_layer_sizes(nn_info@),
            r is Err ==> r == Err::<Population<W>, NetError>(NetError::InvalidTopology),
            r is Ok ==> {
                let p = r->Ok_0;
                &&& p.wf()
                &&& p.sizes() == nn_info@
                &&& p.size() == pop_size
                &&& p.gen() == 0
                &&& p.fitness() == Seq::new(pop_size as nat, |i: int| 0u64)
                &&& p.best_fit() == 0
                &&& !p.solved()
                &&& p.threshold() == solve_threshold
                &&& forall|i: int, k: int|
                    0 <= i < pop_size && 0 <= k < p.members()[i].connection_seq().len()
                        ==> init.ensures((), #[trigger] p.members()[i].connection_seq()[k].weight)
            },
    {
        let best_individual = match NN::new(copy_vec(&nn_info), init) {
            Ok(net) => net,
            Err(e) => return Err(e),
        };
        let mut population: Vec<NN<W>> = Vec::new();
        let mut pop_fitness: Vec<u64> = Vec::new();
        let mut i: usize = 0;
        while i < pop_size
            invariant
                valid_layer_sizes(nn_info@),
                init.requires(()),
                i <= pop_size,
                population@.len() == i,
                pop_fitness@ == Seq::new(i as nat, |t: int| 0u64),
                forall|t: int|
                    0 <= t < i ==> (#[trigger] population@[t]).wf() && population@[t].sizes()
                        == nn_info@,
                forall|t: int, k: int|
                    0 <= t < i && 0 <= k < population@[t].connection_seq().len() ==> init.ensures(
                        (),
                        #[trigger] population@[t].connection_seq()[k].weight,
                    ),
            decreases pop_size - i,
        {
            match NN::new(copy_vec(&nn_info), init) {
                Ok(net) => population.push(net),
                Err(e) => return Err(e),
            }
            pop_fitness.push(0);
            i += 1;
            assert(pop_fitness@ =~= Seq::new(i as nat, |t: int| 0u64));
        }
        Ok(Population {
            population,
            pop_fitness,
            pop_size,
            generation: 0,
            best_individual,
            best_fitness: 0,
            has_solved: false,
            solve_threshold,
            layer_sizes: nn_info,
        })
    }

    /// Whether some individual has reached the solving threshold.
    pub fn get_has_solved(&self) -> (r: bool)
        ensures
            r == self.solved(),
    {
        self.has_solved
    }

    /// The number of generations produced so far.
    pub fn get_generation(&self) -> (r: usize)
        ensures
            r == self.gen(),
    {
        self.generation
    }

    /// The number of individuals.
    pub fn get_pop_size(&self) -> (r: usize)
        ensures
            r == self.size(),
    {
        self.pop_size
    }

    /// The best fitness seen in any generation.
    pub fn get_best_fitness(&self) -> (r: u64)
        ensures
            r == self.best_fit(),
    {
        self.best_fitness
    }

    /// The best individual seen in any generation.
    pub fn get_best_individual(&self) -> (r: &NN<W>)
        ensures
            *r == self.best(),
    {
        &self.best_individual
    }

    /// The individual at `index`.
    pub fn get_individual(&self, index: usize) -> (r: &NN<W>)
        requires
            self.wf(),
            index < self.size(),
        ensures
            *r == self.members()[index as int],
    {
        &self.population[index]
    }

    /// The fitness of the individual at `index`.
    pub fn get_fitness(&self, index: usize) -> (r: u64)
        requires
            self.wf(),
            index < self.size(),
        ensures
            r == self.fitness()[index as int],
    {
        self.pop_fitness[index]
    }

    /// Records the fitness of the individual at `index`. A fitness above
    /// the best seen so far replaces it, and a copy of the individual becomes
    /// the best individual; one that reaches the threshold marks the
    /// population solved for good.
    pub fn record_fitness(&mut self, index: usize, fitness: u64)
        requires
            old(self).wf(),
            index < old(self).size(),
        ensures
            final(self).wf(),
            final(self).members() == old(self).members(),
            final(self).size() == old(self).size(),
            final(self).gen() == old(self).gen(),
            final(self).sizes() == old(self).sizes(),
            final(self).threshold() == old(self).threshold(),
            final(self).fitness() == old(self).fitness().update(index as int, fitness),
            fitness > old(self).best_fit() ==> final(self).best_fit() == fitness && same_network(
                final(self).best(),
                old(self).members()[index as int],
            ),
            fitness <= old(self).best_fit() ==> final(self).best_fit() == old(self).best_fit()
                && final(self).best() == old(self).best(),
            final(self).solved() == (old(self).solved() || fitness >= old(self).threshold()),
    {
        self.pop_fitness.set(index, fitness);
        if fitness > self.best_fitness {
            self.best_fitness = fitness;
            self.best_individual = self.population[index].duplicate();
        }
        if fitness >= self.solve_threshold {
            self.has_solved = true;
        }
    }

    /// Records one fitness per individual, in order, as `record_fitness`
    /// does. The best fitness never decreases: it becomes the larger of its
    /// old value and the best of `scores`.
    pub fn evaluate_generation(&mut self, scores: &Vec<u64>)
        requires
            old(self).wf(),
            scores@.len() == old(self).size(),
        ensures
            final(self).wf(),
            final(self).members() == old(self).members(),
            final(self).size() == old(self).size(),
            final(self).gen() == old(self).gen(),
            final(self).sizes() == old(self).sizes(),
            final(self).threshold() == old(self).threshold(),
            final(self).fitness() == scores@,
            final(self).best_fit() >= old(self).best_fit(),
            forall|i: int| 0 <= i < scores@.len() ==> final(self).best_fit() >= #[trigger] scores@[i],
            final(self).best_fit() == old(self).best_fit() ==> final(self).best() == old(self).best(),
            final(self).best_fit() > old(self).best_fit() ==> exists|i: int|
                0 <= i < scores@.len() && #[trigger] scores@[i] == final(self).best_fit()
                    && same_network(final(self).best(), old(self).members()[i]) && forall|j: int|
                    0 <= j < i ==> #[trigger] scores@[j] < final(self).best_fit(),
            final(self).solved() == (old(self).solved() || exists|i: int|
                0 <= i < scores@.len() && #[trigger] scores@[i] >= old(self).threshold()),
    {
        let n = self.pop_size;
        let mut i: usize = 0;
        while i < n
            invariant
                n == self.size(),
                n == scores@.len(),
                i <= n,
                self.wf(),
                self.members() == old(self).members(),
                self.size() == old(self).size(),
                self.gen() == old(self).gen(),
                self.sizes() == old(self).sizes(),
                self.threshold() == old(self).threshold(),
                forall|t: int| 0 <= t < i ==> #[trigger] self.fitness()[t] == scores@[t],
                self.best_fit() >= old(self).best_fit(),
                forall|t: int| 0 <= t < i ==> self.best_fit() >= #[trigger] scores@[t],
                self.best_fit() == old(self).best_fit() ==> self.best() == old(self).best(),
                self.best_fit() > old(self).best_fit() ==> exists|t: int|
                    0 <= t < i && #[trigger] scores@[t] == self.best_fit() && same_network(
                        self.best(),
                        old(self).members()[t],
                    ) && forall|j: int| 0 <= j < t ==> #[trigger] scores@[j] < self.best_fit(),
                self.solved() == (old(self).solved() || exists|t: int|
                    0 <= t < i && #[trigger] scores@[t] >= old(self).threshold()),
            decreases n - i,
        {
            self.record_fitness(i, scores[i]);
            i += 1;
        }
        assert(self.fitness() =~= scores@);
    }

    /// One draw of rejection sampling: the individual at `index_draw` modulo
    /// the population size is accepted when `threshold_draw` modulo the best
    /// fitness lies below its fitness.
    pub fn pick_by_fitness(&self, index_draw: u64, threshold_draw: u64) -> (r: Option<usize>)
        requires
            self.wf(),
            self.best_fit() > 0,
        ensures
            ({
                let i = (index_draw % (self.size() as u64)) as int;
                &&& threshold_draw % self.best_fit() < self.fitness()[i] ==> r == Some(i as usize)
                &&& threshold_draw % self.best_fit() >= self.fitness()[i] ==> r is None
            }),
    {
        let i = (index_draw % (self.pop_size as u64)) as usize;
        if threshold_draw % self.best_fitness < self.pop_fitness[i] {
            Some(i)
        } else {
            None
        }
    }

    /// A parent drawn uniformly: `draw` modulo the population size.
    pub fn pick_uniform(&self, draw: u64) -> (r: usize)
        requires
            self.wf(),
        ensures
            r == draw % (self.size() as u64),
    {
        (draw % (self.pop_size as u64)) as usize
    }

    /// Picks a parent by fitness-proportionate rejection sampling: draws an
    /// index and a threshold below the best fitness until the individual's
    /// fitness exceeds the threshold. When no individual has positive fitness
    /// the index is drawn uniformly instead; after `MAX_DRAWS` rejected draws
    /// the first fittest individual is taken. The result is always an index
    /// of the population, of positive fitness whenever one has it.
    pub fn select_parent(&self) -> (r: usize)
        requires
            self.wf(),
        ensures
            eligible(self.fitness(), r as int),
    {
        let n = self.pop_size;
        let mut top: usize = 0;
        let mut i: usize = 1;
        while i < n
            invariant
                self.wf(),
                n == self.size(),
                1 <= i <= n,
                top < n,
                forall|t: int| 0 <= t < i ==> #[trigger] self.fitness()[t] <= self.fitness()[top as int],
            decreases n - i,
        {
            if self.pop_fitness[i] > self.pop_fitness[top] {
                top = i;
            }
            i += 1;
        }
        if self.pop_fitness[top] == 0 {
            let r = self.pick_uniform(random_u64());
            assert(!(exists|j: int| 0 <= j < self.fitness().len() && self.fitness()[j] > 0));
            return r;
        }
        if self.best_fitness > 0 {
            let mut k: usize = 0;
            while k < MAX_DRAWS
                invariant
                    self.wf(),
                    n == self.size(),
                    self.best_fit() > 0,
                decreases MAX_DRAWS - k,
            {
                let index_draw = random_u64();
                let threshold_draw = random_u64();
                if let Some(idx) = self.pick_by_fitness(index_draw, threshold_draw) {
                    return idx;
                }
                k += 1;
            }
        }
        top
    }

    /// Replaces the population by the next generation: for each slot two
    /// parents are selected by `select_parent` and their crossover, drawing
    /// fresh weights from `init`, fills it. The generation counter goes up
    /// by one; fitness, the best individual and the solved flag stay.
    pub fn produce_new_gen<F: Fn() -> W>(&mut self, init: &F)
        requires
            old(self).wf(),
            old(self).gen() < usize::MAX,
            init.requires(()),
        ensures
            final(self).wf(),
            final(self).gen() == old(self).gen() + 1,
            final(self).size() == old(self).size(),
            final(self).sizes() == old(self).sizes(),
            final(self).threshold() == old(self).threshold(),
            final(self).fitness() == old(self).fitness(),
            final(self).best() == old(self).best(),
            final(self).best_fit() == old(self).best_fit(),
            final(self).solved() == old(self).solved(),
            forall|k: int|
                0 <= k < final(self).size() ==> #[trigger] bred_from(
                    final(self).members()[k],
                    old(self).members(),
                    old(self).fitness(),
                    *init,
                ),
    {
        self.generation = self.generation + 1;
        let n = self.pop_size;
        let mut next: Vec<NN<W>> = Vec::new();
        let mut i: usize = 0;
        while i < n
            invariant
                self.wf(),
                n == self.size(),
                i <= n,
                init.requires(()),
                self.members() == old(self).members(),
                self.fitness() == old(self).fitness(),
                next@.len() == i,
                forall|t: int|
                    0 <= t < i ==> (#[trigger] next@[t]).wf() && next@[t].sizes() == self.sizes(),
                forall|t: int|
                    0 <= t < i ==> #[trigger] bred_from(
                        next@[t],
                        old(self).members(),
                        old(self).fitness(),
                        *init,
                    ),
            decreases n - i,
        {
            let a = self.select_parent();
            let b = self.select_parent();
            match self.population[a].crossover(&self.population[b], init) {
                Ok(child) => {
                    let ghost prev = next@;
                    next.push(child);
                    assert forall|t: int| 0 <= t < i + 1 implies #[trigger] bred_from(
                        next@[t],
                        old(self).members(),
                        old(self).fitness(),
                        *init,
                    ) by {
                        if t < i {
                            assert(next@[t] == prev[t]);
                        } else {
                            assert(next@[t] == child);
                            assert(is_offspring(
                                next@[t],
                                old(self).members()[a as int],
                                old(self).members()[b as int],
                                *init,
                            ));
                        }
                    }
                },
                Err(_) => {
                    assert(false);
                },
            }
            i += 1;
        }
        self.population = next;
        assert(self.members() == next@);
    }

    /// The sum of the current fitness values.
    pub fn get_total_fitness(&self) -> (r: u128)
        requires
            self.wf(),
        ensures
            r == total(self.fitness()),
    {
        let mut t: u128 = 0;
        let mut i: usize = 0;
        while i < self.pop_size
            invariant
                self.wf(),
                i <= self.size(),
                t == total(self.fitness().subrange(0, i as int)),
                t <= i * 0xffff_ffff_ffff_ffffu128,
            decreases self.size() - i,
        {
            let ghost prefix = self.fitness().subrange(0, i as int);
            assert(self.fitness().subrange(0, i + 1).drop_last() =~= prefix);
            t = t + self.pop_fitness[i] as u128;
            i += 1;
        }
        assert(self.fitness().subrange(0, i as int) =~= self.fitness());
        t
    }
}

} // verus!
