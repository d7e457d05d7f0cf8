//! The generational evolutionary loop on byte-string genomes.
//!
//! An `Epoch` owns a population of genomes; each generation draws a
//! tournament, scores the combatants by edit distance to the configured
//! target, requeues the bystanders, breeds the two best combatants and
//! culls the worst.  A generation transition consumes the old epoch and
//! produces a new one; superseded populations are never mutated.

use rand::seq::SliceRandom;
use vstd::multiset::Multiset;
use vstd::prelude::*;

use crate::observer::Window;
use crate::rng::{random_alnum_byte, random_below, random_coin};

verus! {

/// Edit distance between two byte strings, as the distance crate computes
/// it.
pub uninterp spec fn lev_of(a: Seq<u8>, b: Seq<u8>) -> nat;

/// Relies on distance::levenshtein: the edit distance of two strings,
/// zero exactly for equal strings.  ASCII input keeps bytes and
/// characters in step.
#[verifier::external_body]
fn levenshtein_bytes(a: &Vec<u8>, b: &Vec<u8>) -> (r: usize)
    requires
        forall|i: int| 0 <= i < a@.len() ==> a@[i] < 0x80,
        forall|i: int| 0 <= i < b@.len() ==> b@[i] < 0x80,
    ensures
        r == lev_of(a@, b@),
        r == 0 <==> a@ == b@,
{
    let sa = core::str::from_utf8(a).unwrap();
    let sb = core::str::from_utf8(b).unwrap();
    distance::levenshtein(sa, sb)
}

/// A printable ASCII byte, the domain validity constraint on genes.
pub open spec fn printable(b: u8) -> bool {
    0x20 <= b <= 0x7e
}

/// A gene string is nonempty and printable throughout.
pub open spec fn genes_ok(s: Seq<u8>) -> bool {
    s.len() > 0 && forall|i: int| 0 <= i < s.len() ==> printable(#[trigger] s[i])
}

/// An ASCII alphanumeric byte, the range the initial sampler draws from.
pub open spec fn alphanumeric(b: u8) -> bool {
    0x30 <= b <= 0x39 || 0x41 <= b <= 0x5a || 0x61 <= b <= 0x7a
}

/// `c` equals `b` except in at most one position, whose byte is
/// printable.
pub open spec fn mutated_within_one(b: Seq<u8>, c: Seq<u8>) -> bool {
    c.len() == b.len() && (c == b || (exists|i: int|
        0 <= i < b.len() && printable(#[trigger] c[i]) && (forall|j: int|
            0 <= j < b.len() && j != i ==> c[j] == b[j])))
}

/// `c` is a crossover of the parents `m` and `f` at some split points,
/// altered in at most one printable position by mutation.
pub open spec fn child_of(m: Seq<u8>, f: Seq<u8>, c: Seq<u8>) -> bool {
    exists|s1: int, s2: int|
        #![trigger m.take(s1), f.skip(s2)]
        #![trigger m.skip(s1), f.take(s2)]
        0 <= s1 < m.len() && 0 <= s2 < f.len() && (mutated_within_one(m.take(s1) + f.skip(s2), c)
            || mutated_within_one(m.skip(s1) + f.take(s2), c))
}

/// One candidate: a printable byte string and a memoized fitness.
#[derive(Clone, Debug)]
pub struct Genome {
    pub genes: Vec<u8>,
    pub fitness: Option<usize>,
}

/// Strictly better: both scored and a strictly lower distance.
pub open spec fn fitter_spec(a: Genome, b: Genome) -> bool {
    match (a.fitness, b.fitness) {
        (Some(fa), Some(fb)) => fa < fb,
        _ => false,
    }
}

impl Genome {
    pub open spec fn wf(&self) -> bool {
        genes_ok(self.genes@)
    }

    /// Any cached fitness is the true edit distance to `target`, and zero
    /// exactly when the genes equal the target.
    pub open spec fn scored_ok(&self, target: Seq<u8>) -> bool {
        match self.fitness {
            Some(f) => f == lev_of(self.genes@, target) && (f == 0 <==> self.genes@ == target),
            None => true,
        }
    }

    /// A random alphanumeric genome of length `len`, unscored.
    pub fn new(len: usize) -> (r: Genome)
        requires
            len > 0,
        ensures
            r.wf(),
            r.genes@.len() == len,
            r.fitness is None,
            forall|k: int| 0 <= k < len ==> alphanumeric(#[trigger] r.genes@[k]),
    {
        let mut genes: Vec<u8> = Vec::new();
        let mut i: usize = 0;
        while i < len
            invariant
                i <= len,
                genes@.len() == i,
                forall|k: int| 0 <= k < i ==> alphanumeric(#[trigger] genes@[k]),
            decreases len - i,
        {
            genes.push(random_alnum_byte());
            i += 1;
        }
        Genome { genes, fitness: None }
    }

    pub fn len(&self) -> (r: usize)
        ensures
            r == self.genes@.len(),
    {
        self.genes.len()
    }

    /// A field-for-field copy.
    pub fn duplicate(&self) -> (r: Genome)
        ensures
            r.genes@ == self.genes@,
            r.fitness == self.fitness,
    {
        let genes = self.genes.clone();
        proof {
            assert(genes@ =~= self.genes@);
        }
        Genome { genes, fitness: self.fitness }
    }

    /// Recombines two parents at the given split points: the children are
    /// head-of-self + tail-of-mate and tail-of-self + head-of-mate, so
    /// their combined length equals the parents' combined length.
    pub fn crossover_at(&self, mate: &Genome, split_m: usize, split_f: usize) -> (r: (
        Genome,
        Genome,
    ))
        requires
            split_m < self.genes@.len(),
            split_f < mate.genes@.len(),
        ensures
            r.0.genes@ == self.genes@.take(split_m as int) + mate.genes@.skip(split_f as int),
            r.1.genes@ == self.genes@.skip(split_m as int) + mate.genes@.take(split_f as int),
            r.0.genes@.len() + r.1.genes@.len() == self.genes@.len() + mate.genes@.len(),
            r.0.fitness is None,
            r.1.fitness is None,
            self.wf() && mate.wf() ==> r.0.wf() && r.1.wf(),
    {
        let mut g0: Vec<u8> = Vec::new();
        copy_range(&self.genes, 0, split_m, &mut g0);
        copy_range(&mate.genes, split_f, mate.genes.len(), &mut g0);
        let mut g1: Vec<u8> = Vec::new();
        copy_range(&self.genes, split_m, self.genes.len(), &mut g1);
        copy_range(&mate.genes, 0, split_f, &mut g1);
        proof {
            assert(g0@ =~= self.genes@.take(split_m as int) + mate.genes@.skip(split_f as int));
            assert(g1@ =~= self.genes@.skip(split_m as int) + mate.genes@.take(split_f as int));
        }
        let c0 = Genome { genes: g0, fitness: None };
        let c1 = Genome { genes: g1, fitness: None };
        (c0, c1)
    }

    /// Recombines at independent random split points: the children are
    /// head-of-self + tail-of-mate and tail-of-self + head-of-mate for
    /// one pair of split points, so their combined length equals the
    /// parents' combined length; both children are fresh.
    pub fn crossover(&self, mate: &Genome) -> (r: (Genome, Genome))
        requires
            self.wf(),
            mate.wf(),
        ensures
            r.0.wf(),
            r.1.wf(),
            r.0.genes@.len() + r.1.genes@.len() == self.genes@.len() + mate.genes@.len(),
            r.0.fitness is None,
            r.1.fitness is None,
            exists|s1: int, s2: int|
                #![trigger self.genes@.take(s1), mate.genes@.skip(s2)]
                0 <= s1 < self.genes@.len() && 0 <= s2 < mate.genes@.len() && r.0.genes@
                    == self.genes@.take(s1) + mate.genes@.skip(s2) && r.1.genes@
                    == self.genes@.skip(s1) + mate.genes@.take(s2),
    {
        let split_m = random_below(self.genes.len());
        let split_f = random_below(mate.genes.len());
        let r = self.crossover_at(mate, split_m, split_f);
        proof {
            assert(r.0.genes@ == self.genes@.take(split_m as int) + mate.genes@.skip(
                split_f as int,
            ));
        }
        r
    }

    /// Perturbs one randomly chosen gene to a random printable byte and
    /// drops the cached fitness; every other gene stays as it was.
    pub fn mutate(&mut self)
        requires
            old(self).wf(),
        ensures
            final(self).wf(),
            final(self).genes@.len() == old(self).genes@.len(),
            final(self).fitness is None,
            exists|i: int|
                0 <= i < old(self).genes@.len() && printable(#[trigger] final(self).genes@[i]) && (
                forall|j: int|
                    0 <= j < old(self).genes@.len() && j != i ==> final(self).genes@[j] == old(
                        self,
                    ).genes@[j]),
    {
        let i = random_below(self.genes.len());
        let b = 0x20 + (random_below(0x5f) as u8);
        self.genes.set(i, b);
        self.fitness = None;
        proof {
            assert(printable(self.genes@[i as int]));
            assert(forall|j: int|
                0 <= j < old(self).genes@.len() && j != i ==> self.genes@[j] == old(
                    self,
                ).genes@[j]);
        }
    }

    /// Crossover followed by independent chance-`mut_rate` mutation of
    /// each child; yields exactly two fresh children, each a crossover of
    /// the two parents altered in at most one printable position, whose
    /// combined length equals the parents' combined length.
    pub fn mate(&self, other: &Genome, mut_rate_ppm: u32) -> (r: Vec<Genome>)
        requires
            self.wf(),
            other.wf(),
            mut_rate_ppm <= 1_000_000,
        ensures
            r@.len() == 2,
            r@[0].wf() && r@[1].wf(),
            r@[0].fitness is None && r@[1].fitness is None,
            r@[0].genes@.len() + r@[1].genes@.len() == self.genes@.len() + other.genes@.len(),
            child_of(self.genes@, other.genes@, r@[0].genes@),
            child_of(self.genes@, other.genes@, r@[1].genes@),
    {
        let (mut c0, mut c1) = self.crossover(other);
        let ghost s1 = choose|s1: int, s2: int|
            #![trigger self.genes@.take(s1), other.genes@.skip(s2)]
            0 <= s1 < self.genes@.len() && 0 <= s2 < other.genes@.len() && c0.genes@
                == self.genes@.take(s1) + other.genes@.skip(s2) && c1.genes@ == self.genes@.skip(
                s1,
            ) + other.genes@.take(s2);
        let ghost g0 = c0.genes@;
        let ghost g1 = c1.genes@;
        if random_coin(mut_rate_ppm, 1_000_000) {
            c0.mutate();
        }
        if random_coin(mut_rate_ppm, 1_000_000) {
            c1.mutate();
        }
        proof {
            assert(mutated_within_one(g0, c0.genes@));
            assert(mutated_within_one(g1, c1.genes@));
            assert(g0 == self.genes@.take(s1.0) + other.genes@.skip(s1.1));
            assert(g1 == self.genes@.skip(s1.0) + other.genes@.take(s1.1));
            assert(child_of(self.genes@, other.genes@, c0.genes@));
            assert(child_of(self.genes@, other.genes@, c1.genes@));
        }
        let mut out: Vec<Genome> = Vec::new();
        out.push(c0);
        out.push(c1);
        out
    }

    /// Strictly better than `other`: both scored, strictly lower distance.
    pub fn fitter_than(&self, other: &Genome) -> (r: bool)
        ensures
            r == fitter_spec(*self, *other),
    {
        match (self.fitness, other.fitness) {
            (Some(a), Some(b)) => a < b,
            _ => false,
        }
    }

    /// The memoized edit distance to `target`: computed once, then reused
    /// until crossover or mutation invalidates it.
    pub fn score_mut(&mut self, target: &Vec<u8>) -> (r: usize)
        requires
            old(self).wf(),
            genes_ok(target@),
            old(self).scored_ok(target@),
        ensures
            final(self).genes@ == old(self).genes@,
            final(self).fitness == Some(r),
            final(self).wf(),
            final(self).scored_ok(target@),
            r == lev_of(old(self).genes@, target@),
    {
        if self.fitness.is_none() {
            proof {
                assert(forall|i: int|
                    0 <= i < self.genes@.len() ==> printable(#[trigger] self.genes@[i]));
            }
            let d = levenshtein_bytes(&self.genes, target);
            self.fitness = Some(d);
        }
        self.fitness.unwrap()
    }
}

/// Copies `src[from..to]` onto the end of `dst`.
fn copy_range(src: &Vec<u8>, from: usize, to: usize, dst: &mut Vec<u8>)
    requires
        from <= to <= src@.len(),
    ensures
        final(dst)@ == old(dst)@ + src@.subrange(from as int, to as int),
{
    let mut i: usize = from;
    proof {
        assert(dst@ =~= old(dst)@ + src@.subrange(from as int, from as int));
    }
    while i < to
        invariant
            from <= i <= to <= src@.len(),
            dst@ == old(dst)@ + src@.subrange(from as int, i as int),
        decreases to - i,
    {
        dst.push(src[i]);
        i += 1;
        proof {
            assert(dst@ =~= old(dst)@ + src@.subrange(from as int, i as int));
        }
    }
}

/// Relies on rand's SliceRandom::shuffle: a uniformly random permutation
/// of the population, in place.
#[verifier::external_body]
fn shuffle_genomes(v: &mut Vec<Genome>)
    ensures
        final(v)@.to_multiset() == old(v)@.to_multiset(),
{
    v.shuffle(&mut rand::rng())
}

/// Why a configuration was rejected at startup.
#[derive(Copy, Clone, PartialEq, Eq, Structural, Debug)]
pub enum ConfigError {
    TournamentTooSmall,
    MutRateOverUnity,
    ZeroInitLen,
    ZeroPopSize,
    ZeroWindowSize,
    BadTarget,
}

/// Population and tournament parameters, the mutation rate in parts per
/// million, the target byte string and the observer window size.
#[derive(Clone, Debug)]
pub struct Config {
    pub mut_rate_ppm: u32,
    pub init_len: usize,
    pub pop_size: usize,
    pub tournament_size: usize,
    pub num_offspring: usize,
    pub target: Vec<u8>,
    pub window_size: usize,
}

impl Config {
    pub open spec fn wf(&self) -> bool {
        &&& self.tournament_size >= self.num_offspring + 2
        &&& self.mut_rate_ppm <= 1_000_000
        &&& self.init_len > 0
        &&& self.pop_size > 0
        &&& self.window_size > 0
        &&& genes_ok(self.target@)
    }

    /// Validates the parameters; a tournament too small to leave two
    /// parents after culling is rejected here, never discovered mid-run.
    pub fn new(
        mut_rate_ppm: u32,
        init_len: usize,
        pop_size: usize,
        tournament_size: usize,
        num_offspring: usize,
        target: Vec<u8>,
        window_size: usize,
    ) -> (r: Result<Config, ConfigError>)
        ensures
            r is Ok <==> num_offspring + 2 <= tournament_size && mut_rate_ppm <= 1_000_000
                && init_len > 0 && pop_size > 0 && window_size > 0 && genes_ok(target@),
            r matches Ok(c) ==> c.mut_rate_ppm == mut_rate_ppm && c.init_len == init_len
                && c.pop_size == pop_size && c.tournament_size == tournament_size
                && c.num_offspring == num_offspring && c.target == target && c.window_size
                == window_size && c.wf(),
            tournament_size < num_offspring + 2 ==> r == Err::<Config, ConfigError>(
                ConfigError::TournamentTooSmall,
            ),
    {
        if num_offspring > usize::MAX - 2 || tournament_size < num_offspring + 2 {
            return Err(ConfigError::TournamentTooSmall);
        }
        if mut_rate_ppm > 1_000_000 {
            return Err(ConfigError::MutRateOverUnity);
        }
        if init_len == 0 {
            return Err(ConfigError::ZeroInitLen);
        }
        if pop_size == 0 {
            return Err(ConfigError::ZeroPopSize);
        }
        if window_size == 0 {
            return Err(ConfigError::ZeroWindowSize);
        }
        let mut ok = target.len() > 0;
        let mut i: usize = 0;
        while i < target.len()
            invariant
                i <= target@.len(),
                ok == (target@.len() > 0 && forall|k: int|
                    0 <= k < i ==> printable(#[trigger] target@[k])),
            decreases target@.len() - i,
        {
            let b = target[i];
            if b < 0x20 || b > 0x7e {
                ok = false;
            }
            i += 1;
        }
        if !ok {
            return Err(ConfigError::BadTarget);
        }
        Ok(
            Config {
                mut_rate_ppm,
                init_len,
                pop_size,
                tournament_size,
                num_offspring,
                target,
                window_size,
            },
        )
    }
}

impl Config {
    /// A field-for-field copy.
    pub fn duplicate(&self) -> (r: Config)
        ensures
            r.mut_rate_ppm == self.mut_rate_ppm,
            r.init_len == self.init_len,
            r.pop_size == self.pop_size,
            r.tournament_size == self.tournament_size,
            r.num_offspring == self.num_offspring,
            r.target@ == self.target@,
            r.window_size == self.window_size,
            self.wf() ==> r.wf(),
    {
        let target = self.target.clone();
        proof {
            assert(target@ =~= self.target@);
        }
        Config {
            mut_rate_ppm: self.mut_rate_ppm,
            init_len: self.init_len,
            pop_size: self.pop_size,
            tournament_size: self.tournament_size,
            num_offspring: self.num_offspring,
            target,
            window_size: self.window_size,
        }
    }
}

/// One generation: the population, the configuration, the best candidate
/// found so far, and the generation index.
pub struct Epoch {
    pub population: Vec<Genome>,
    pub config: Config,
    pub best: Option<Genome>,
    pub iteration: usize,
}

impl Epoch {
    /// Every genome valid and truthfully scored, the best (if any) scored.
    pub open spec fn wf(&self) -> bool {
        &&& self.config.wf()
        &&& forall|i: int|
            0 <= i < self.population@.len() ==> (#[trigger] self.population@[i]).wf()
                && self.population@[i].scored_ok(self.config.target@)
        &&& match self.best {
            Some(b) => b.wf() && b.fitness is Some && b.scored_ok(self.config.target@),
            None => true,
        }
    }

    /// A fresh world: a randomly sampled population of `pop_size`
    /// genomes, no best yet, generation zero.
    pub fn new(config: Config) -> (r: Epoch)
        requires
            config.wf(),
        ensures
            r.wf(),
            r.config == config,
            r.population@.len() == config.pop_size,
            r.best is None,
            r.iteration == 0,
    {
        let mut population: Vec<Genome> = Vec::new();
        let mut i: usize = 0;
        while i < config.pop_size
            invariant
                i <= config.pop_size,
                population@.len() == i,
                config.init_len > 0,
                forall|k: int|
                    0 <= k < i ==> (#[trigger] population@[k]).wf() && population@[k].fitness
                        is None,
            decreases config.pop_size - i,
        {
            population.push(Genome::new(config.init_len));
            i += 1;
        }
        Epoch { population, config, best: None, iteration: 0 }
    }

    /// Replaces the running best when the challenger is strictly better,
    /// or when there is no best yet.
    pub fn update_best(&mut self, champ: &Genome)
        ensures
            final(self).population == old(self).population,
            final(self).config == old(self).config,
            final(self).iteration == old(self).iteration,
            final(self).best matches Some(nb) && (match old(self).best {
                Some(b) => if fitter_spec(*champ, b) {
                    same_genome(nb, *champ)
                } else {
                    nb == b
                },
                None => same_genome(nb, *champ),
            }),
    {
        let replace = match &self.best {
            Some(b) => champ.fitter_than(b),
            None => true,
        };
        if replace {
            self.best = Some(champ.duplicate());
        }
    }
}

/// Same genes and the same cached fitness.
pub open spec fn same_genome(a: Genome, b: Genome) -> bool {
    a.genes@ == b.genes@ && a.fitness == b.fitness
}


/// The cached fitness as an integer, for comparing scored genomes.
pub open spec fn fit_of(g: Genome) -> int {
    match g.fitness {
        Some(f) => f as int,
        None => -1,
    }
}

/// Removes the combatant with the lowest cached fitness.
fn extract_best(v: &mut Vec<Genome>) -> (r: Genome)
    requires
        old(v)@.len() > 0,
        forall|i: int| 0 <= i < old(v)@.len() ==> (#[trigger] old(v)@[i]).fitness is Some,
    ensures
        exists|idx: int|
            0 <= idx < old(v)@.len() && r == old(v)@[idx] && final(v)@ == old(v)@.remove(idx),
        r.fitness is Some,
        final(v)@.len() == old(v)@.len() - 1,
        forall|i: int| 0 <= i < old(v)@.len() ==> fit_of(r) <= fit_of(#[trigger] old(v)@[i]),
{
    let mut bi: usize = 0;
    let mut i: usize = 1;
    while i < v.len()
        invariant
            bi < v@.len(),
            i <= v@.len(),
            v@ == old(v)@,
            v@.len() > 0,
            forall|k: int| 0 <= k < v@.len() ==> (#[trigger] v@[k]).fitness is Some,
            forall|k: int| 0 <= k < i ==> fit_of(v@[bi as int]) <= fit_of(#[trigger] v@[k]),
        decreases v@.len() - i,
    {
        let better = match (v[i].fitness, v[bi].fitness) {
            (Some(a), Some(b)) => a < b,
            _ => false,
        };
        if better {
            bi = i;
        }
        i += 1;
    }
    v.remove(bi)
}

/// Removes the combatant with the highest cached fitness.
fn extract_worst(v: &mut Vec<Genome>) -> (r: Genome)
    requires
        old(v)@.len() > 0,
        forall|i: int| 0 <= i < old(v)@.len() ==> (#[trigger] old(v)@[i]).fitness is Some,
    ensures
        exists|idx: int|
            0 <= idx < old(v)@.len() && r == old(v)@[idx] && final(v)@ == old(v)@.remove(idx),
        final(v)@.len() == old(v)@.len() - 1,
        forall|i: int| 0 <= i < old(v)@.len() ==> fit_of(r) >= fit_of(#[trigger] old(v)@[i]),
{
    let mut bi: usize = 0;
    let mut i: usize = 1;
    while i < v.len()
        invariant
            bi < v@.len(),
            i <= v@.len(),
            v@ == old(v)@,
            v@.len() > 0,
            forall|k: int| 0 <= k < v@.len() ==> (#[trigger] v@[k]).fitness is Some,
            forall|k: int| 0 <= k < i ==> fit_of(v@[bi as int]) >= fit_of(#[trigger] v@[k]),
        decreases v@.len() - i,
    {
        let worse = match (v[i].fitness, v[bi].fitness) {
            (Some(a), Some(b)) => a > b,
            _ => false,
        };
        if worse {
            bi = i;
        }
        i += 1;
    }
    v.remove(bi)
}

/// All of a genome vector valid, truthfully scored, and actually scored.
spec fn all_scored(s: Seq<Genome>, target: Seq<u8>) -> bool {
    forall|i: int|
        0 <= i < s.len() ==> (#[trigger] s[i]).wf() && s[i].scored_ok(target) && s[i].fitness
            is Some
}

/// All of a genome vector valid and truthfully scored where scored.
spec fn all_ok(s: Seq<Genome>, target: Seq<u8>) -> bool {
    forall|i: int| 0 <= i < s.len() ==> (#[trigger] s[i]).wf() && s[i].scored_ok(target)
}


/// The multiset of gene strings of a genome sequence.  Scoring fills a
/// genome's fitness cache but never touches its genes, so drawing,
/// scoring and requeueing are tracked gene-wise.
pub open spec fn gene_bag(s: Seq<Genome>) -> Multiset<Seq<u8>> {
    s.map_values(|g: Genome| g.genes@).to_multiset()
}

proof fn lemma_gene_bag_empty()
    ensures
        gene_bag(Seq::<Genome>::empty()) == Multiset::<Seq<u8>>::empty(),
{
    broadcast use vstd::seq_lib::group_to_multiset_ensures;
    broadcast use vstd::multiset::group_multiset_axioms;

    assert(Seq::<Genome>::empty().map_values(|g: Genome| g.genes@) =~= Seq::<Seq<u8>>::empty());
    assert(gene_bag(Seq::<Genome>::empty()) =~= Multiset::<Seq<u8>>::empty());
}

proof fn lemma_gene_bag_push(s: Seq<Genome>, g: Genome)
    ensures
        gene_bag(s.push(g)) == gene_bag(s).insert(g.genes@),
{
    broadcast use vstd::seq_lib::group_to_multiset_ensures;
    broadcast use vstd::multiset::group_multiset_axioms;

    let f = |x: Genome| x.genes@;
    assert(s.push(g).map_values(f) =~= s.map_values(f).push(g.genes@));
}

proof fn lemma_gene_bag_drop_last(s: Seq<Genome>)
    requires
        s.len() > 0,
    ensures
        gene_bag(s) == gene_bag(s.drop_last()).insert(s.last().genes@),
{
    assert(s =~= s.drop_last().push(s.last()));
    lemma_gene_bag_push(s.drop_last(), s.last());
}

proof fn lemma_gene_bag_remove(s: Seq<Genome>, i: int)
    requires
        0 <= i < s.len(),
    ensures
        gene_bag(s) == gene_bag(s.remove(i)).insert(s[i].genes@),
{
    broadcast use vstd::seq_lib::group_to_multiset_ensures;
    broadcast use vstd::multiset::group_multiset_axioms;

    let f = |x: Genome| x.genes@;
    assert(s.remove(i).map_values(f) =~= s.map_values(f).remove(i));
    assert(s.map_values(f)[i] == s[i].genes@);
    assert(s.map_values(f).contains(s[i].genes@));
    assert(s.map_values(f).to_multiset().count(s[i].genes@) > 0);
    assert(gene_bag(s) =~= gene_bag(s.remove(i)).insert(s[i].genes@));
}

/// The Genome-level multiset shrinks by exactly the removed element.
proof fn lemma_remove_multiset(s: Seq<Genome>, i: int)
    requires
        0 <= i < s.len(),
    ensures
        s.to_multiset() == s.remove(i).to_multiset().insert(s[i]),
{
    broadcast use vstd::seq_lib::group_to_multiset_ensures;
    broadcast use vstd::multiset::group_multiset_axioms;

    assert(s.contains(s[i]));
    assert(s.to_multiset().count(s[i]) > 0);
    assert(s.to_multiset() =~= s.remove(i).to_multiset().insert(s[i]));
}

/// Gene bags are permutation-invariant.
proof fn lemma_gene_bag_permutation(a: Seq<Genome>, b: Seq<Genome>)
    requires
        a.to_multiset() == b.to_multiset(),
    ensures
        gene_bag(a) == gene_bag(b),
    decreases a.len(),
{
    broadcast use vstd::seq_lib::group_to_multiset_ensures;
    broadcast use vstd::multiset::group_multiset_axioms;

    if a.len() == 0 {
        assert(b.to_multiset().len() == 0);
        assert(b.len() == 0);
        assert(a =~= b);
    } else {
        let x = a.last();
        assert(a.contains(x));
        assert(a.to_multiset().count(x) > 0);
        assert(b.contains(x));
        let i = choose|i: int| 0 <= i < b.len() && b[i] == x;
        lemma_remove_multiset(b, i);
        assert(a =~= a.drop_last().push(x));
        assert(a.to_multiset() == a.drop_last().to_multiset().insert(x));
        assert(a.drop_last().to_multiset() =~= b.remove(i).to_multiset());
        lemma_gene_bag_permutation(a.drop_last(), b.remove(i));
        lemma_gene_bag_drop_last(a);
        lemma_gene_bag_remove(b, i);
    }
}

/// The pieces of one tournament: the combatants drawn and scored, the
/// untouched remainder, the two parents, the requeued bystanders, the
/// culled losers and the bred children.
pub ghost struct TournamentView {
    pub combatants: Seq<Genome>,
    pub rest: Seq<Genome>,
    pub mother: Genome,
    pub father: Genome,
    pub bystanders: Seq<Genome>,
    pub culled: Seq<Genome>,
    pub children: Seq<Genome>,
}

/// What one generation does, laid out piece by piece: the old population
/// splits gene-wise into an untouched remainder and the drawn
/// combatants; the combatants, truthfully scored, split into the two
/// fittest (the parents), the bystanders, and the `num_offspring` least
/// fit (the culled), every bystander at least as fit as every culled
/// one; exactly `num_offspring` children are bred from the two parents;
/// and the new population is exactly the remainder, the bystanders, the
/// parents and the children.
pub open spec fn tournament_ok(
    t: TournamentView,
    cfg: Config,
    before: Seq<Genome>,
    after: Seq<Genome>,
) -> bool {
    &&& gene_bag(before) == gene_bag(t.rest).add(gene_bag(t.combatants))
    &&& t.combatants.len() == if before.len() < cfg.tournament_size {
        before.len() as int
    } else {
        cfg.tournament_size as int
    }
    &&& forall|i: int|
        0 <= i < t.combatants.len() ==> (#[trigger] t.combatants[i]).wf()
            && t.combatants[i].scored_ok(cfg.target@) && t.combatants[i].fitness is Some
    &&& exists|im: int, jf: int|
        #![trigger t.combatants[im], t.combatants[jf]]
        0 <= im < t.combatants.len() && 0 <= jf < t.combatants.len() && im != jf && t.mother
            == t.combatants[im] && t.father == t.combatants[jf] && (forall|i: int|
            0 <= i < t.combatants.len() ==> fit_of(t.mother) <= fit_of(
                #[trigger] t.combatants[i],
            )) && (forall|i: int|
            0 <= i < t.combatants.len() && i != im ==> fit_of(t.father) <= fit_of(
                #[trigger] t.combatants[i],
            ))
    &&& t.combatants.to_multiset() == t.bystanders.to_multiset().insert(t.mother).insert(
        t.father,
    ).add(t.culled.to_multiset())
    &&& t.culled.len() == cfg.num_offspring
    &&& forall|i: int, j: int|
        0 <= i < t.bystanders.len() && 0 <= j < t.culled.len() ==> fit_of(
            #[trigger] t.bystanders[i],
        ) <= fit_of(#[trigger] t.culled[j])
    &&& t.children.len() == cfg.num_offspring
    &&& forall|i: int|
        0 <= i < t.children.len() ==> child_of(
            t.mother.genes@,
            t.father.genes@,
            (#[trigger] t.children[i]).genes@,
        ) && t.children[i].fitness is None
    &&& gene_bag(after) == gene_bag(t.rest).add(gene_bag(t.bystanders)).insert(
        t.mother.genes@,
    ).insert(t.father.genes@).add(gene_bag(t.children))
}

impl Epoch {
    /// One generation of tournament selection: shuffle, draw combatants,
    /// score and observe each, rank, cull the `num_offspring` worst,
    /// requeue the bystanders, breed the two best, and return parents,
    /// bystanders and children to the population.  Consumes this epoch;
    /// the population size is conserved, and the whole tournament is laid
    /// out by [`tournament_ok`].
    #[verifier::rlimit(80)]
    #[verifier::spinoff_prover]
    pub fn evolve(self, observer: &mut Window) -> (r: Epoch)
        requires
            self.wf(),
            old(observer).wf(),
            self.population@.len() >= self.config.num_offspring + 2,
            self.iteration < usize::MAX,
        ensures
            final(observer).wf(),
            r.wf(),
            r.config == self.config,
            r.iteration == self.iteration + 1,
            r.population@.len() == self.population@.len(),
            r.best is Some,
            match r.best {
                Some(nb) => nb.fitness is Some && (nb.fitness == Some(0usize) ==> nb.genes@
                    == self.config.target@),
                None => false,
            },
            match (self.best, r.best) {
                (Some(b0), Some(nb)) => fit_of(nb) <= fit_of(b0),
                _ => true,
            },
            exists|t: TournamentView|
                #[trigger] tournament_ok(t, self.config, self.population@, r.population@),
    {
        let Epoch { mut population, config, best, iteration } = self;
        let ghost target = config.target@;
        let ghost before_shuffle = population@;
        shuffle_genomes(&mut population);
        proof {
            broadcast use vstd::seq_lib::group_to_multiset_ensures;
            broadcast use vstd::multiset::group_multiset_axioms;

            assert(population@.len() == before_shuffle.len()) by {
                assert(population@.to_multiset().len() == before_shuffle.to_multiset().len());
            }
            assert forall|i: int|
                0 <= i < population@.len() implies (#[trigger] population@[i]).wf()
                && population@[i].scored_ok(target) by {
                let x = population@[i];
                assert(population@.contains(x));
                assert(population@.to_multiset().count(x) > 0);
                assert(before_shuffle.to_multiset().count(x) > 0);
                assert(before_shuffle.contains(x));
                let j = choose|j: int| 0 <= j < before_shuffle.len() && before_shuffle[j] == x;
                assert(before_shuffle[j].wf() && before_shuffle[j].scored_ok(target));
            }
        }
        let ghost pre_draw = population@;
        let mut combatants: Vec<Genome> = Vec::new();
        proof {
            lemma_gene_bag_empty();
            broadcast use vstd::multiset::group_multiset_axioms;

            assert(gene_bag(pre_draw) =~= gene_bag(population@).add(gene_bag(combatants@)));
        }
        while combatants.len() < config.tournament_size && population.len() > 0
            invariant
                observer.wf(),
                config.wf(),
                config.target@ == target,
                combatants@.len() <= config.tournament_size,
                combatants@.len() + population@.len() == pre_draw.len(),
                all_ok(population@, target),
                all_scored(combatants@, target),
                gene_bag(pre_draw) == gene_bag(population@).add(gene_bag(combatants@)),
            decreases population@.len(),
        {
            let ghost pop_before = population@;
            let ghost comb_before = combatants@;
            let popped = population.pop();
            match popped {
                Some(mut combatant) => {
                    let f = combatant.score_mut(&config.target);
                    let _report = observer.insert(f);
                    combatants.push(combatant);
                    proof {
                        broadcast use vstd::multiset::group_multiset_axioms;

                        lemma_gene_bag_drop_last(pop_before);
                        lemma_gene_bag_push(comb_before, combatant);
                        assert(combatant.genes@ == pop_before.last().genes@);
                        assert(gene_bag(pre_draw) =~= gene_bag(population@).add(
                            gene_bag(combatants@),
                        ));
                    }
                },
                None => {
                    proof {
                        assert(false);
                    }
                },
            }
        }
        let k = combatants.len();
        proof {
            if k < config.tournament_size {
                assert(population@.len() == 0);
            }
            assert(k >= config.num_offspring + 2);
            lemma_gene_bag_permutation(before_shuffle, pre_draw);
        }
        let ghost rest = population@;
        let ghost c0 = combatants@;
        let mother = extract_best(&mut combatants);
        let ghost im = choose|idx: int|
            0 <= idx < c0.len() && mother == c0[idx] && combatants@ == c0.remove(idx);
        proof {
            lemma_remove_multiset(c0, im);
            assert forall|i: int|
                0 <= i < combatants@.len() implies (#[trigger] combatants@[i]).wf()
                && combatants@[i].scored_ok(target) && combatants@[i].fitness is Some by {
                if i < im {
                    assert(combatants@[i] == c0[i]);
                } else {
                    assert(combatants@[i] == c0[i + 1]);
                }
            }
        }
        let ghost c1 = combatants@;
        let father = extract_best(&mut combatants);
        let ghost i1 = choose|idx: int|
            0 <= idx < c1.len() && father == c1[idx] && combatants@ == c1.remove(idx);
        let ghost jf: int = if i1 < im {
            i1
        } else {
            i1 + 1
        };
        proof {
            lemma_remove_multiset(c1, i1);
            assert(father == c0[jf] && jf != im);
            assert forall|i: int|
                0 <= i < c0.len() && i != im implies fit_of(father) <= fit_of(
                #[trigger] c0[i],
            ) by {
                let m: int = if i < im {
                    i
                } else {
                    i - 1
                };
                assert(c1[m] == c0[i]);
            }
            assert forall|i: int|
                0 <= i < combatants@.len() implies (#[trigger] combatants@[i]).wf()
                && combatants@[i].scored_ok(target) && combatants@[i].fitness is Some by {
                if i < i1 {
                    assert(combatants@[i] == c1[i]);
                } else {
                    assert(combatants@[i] == c1[i + 1]);
                }
            }
        }
        let ghost c2 = combatants@;
        let new_best: Option<Genome> = match best {
            Some(b) => {
                if mother.fitter_than(&b) {
                    Some(mother.duplicate())
                } else {
                    Some(b)
                }
            },
            None => Some(mother.duplicate()),
        };
        let mut culled: usize = 0;
        let ghost mut dead_list: Seq<Genome> = Seq::empty();
        proof {
            broadcast use vstd::seq_lib::group_to_multiset_ensures;
            broadcast use vstd::multiset::group_multiset_axioms;

            assert(c2.to_multiset() =~= combatants@.to_multiset().add(dead_list.to_multiset()));
        }
        while culled < config.num_offspring
            invariant
                culled <= config.num_offspring,
                k <= usize::MAX,
                k >= config.num_offspring + 2,
                combatants@.len() == k - 2 - culled,
                config.target@ == target,
                all_scored(combatants@, target),
                dead_list.len() == culled,
                c2.to_multiset() == combatants@.to_multiset().add(dead_list.to_multiset()),
                forall|i: int, j: int|
                    0 <= i < combatants@.len() && 0 <= j < dead_list.len() ==> fit_of(
                        #[trigger] combatants@[i],
                    ) <= fit_of(#[trigger] dead_list[j]),
            decreases config.num_offspring - culled,
        {
            let ghost cw = combatants@;
            let ghost dl_before = dead_list;
            let dead = extract_worst(&mut combatants);
            proof {
                dead_list = dead_list.push(dead);
                broadcast use vstd::seq_lib::group_to_multiset_ensures;
                broadcast use vstd::multiset::group_multiset_axioms;

                let idx = choose|idx: int|
                    0 <= idx < cw.len() && dead == cw[idx] && combatants@ == cw.remove(idx);
                lemma_remove_multiset(cw, idx);
                assert(c2.to_multiset() =~= combatants@.to_multiset().add(
                    dead_list.to_multiset(),
                ));
                assert forall|i: int|
                    0 <= i < combatants@.len() implies (#[trigger] combatants@[i]).wf()
                    && combatants@[i].scored_ok(target) && combatants@[i].fitness is Some
                    && fit_of(combatants@[i]) <= fit_of(dead) by {
                    if i < idx {
                        assert(combatants@[i] == cw[i]);
                    } else {
                        assert(combatants@[i] == cw[i + 1]);
                    }
                }
                assert forall|i: int, j: int|
                    0 <= i < combatants@.len() && 0 <= j < dead_list.len() implies fit_of(
                    #[trigger] combatants@[i]) <= fit_of(#[trigger] dead_list[j]) by {
                    if j < dl_before.len() {
                        assert(dead_list[j] == dl_before[j]);
                        let m: int = if i < idx {
                            i
                        } else {
                            i + 1
                        };
                        assert(combatants@[i] == cw[m]);
                    } else {
                        assert(dead_list[j] == dead);
                    }
                }
            }
            culled += 1;
        }
        let ghost bystanders = combatants@.len() as int;
        let ghost byst_seq = combatants@;
        proof {
            broadcast use vstd::multiset::group_multiset_axioms;

            assert(gene_bag(population@).add(gene_bag(combatants@)) =~= gene_bag(rest).add(
                gene_bag(byst_seq),
            ));
        }
        while combatants.len() > 0
            invariant
                config.target@ == target,
                all_scored(combatants@, target),
                all_ok(population@, target),
                population@.len() + combatants@.len() == pre_draw.len() - k + bystanders,
                gene_bag(population@).add(gene_bag(combatants@)) == gene_bag(rest).add(
                    gene_bag(byst_seq),
                ),
            decreases combatants@.len(),
        {
            let ghost pop_before = population@;
            let ghost comb_before = combatants@;
            let popped = combatants.pop();
            match popped {
                Some(c) => {
                    population.push(c);
                    proof {
                        broadcast use vstd::multiset::group_multiset_axioms;

                        lemma_gene_bag_drop_last(comb_before);
                        lemma_gene_bag_push(pop_before, c);
                        assert(gene_bag(population@).add(gene_bag(combatants@)) =~= gene_bag(
                            rest,
                        ).add(gene_bag(byst_seq)));
                    }
                },
                None => {
                    proof {
                        assert(false);
                    }
                },
            }
        }
        proof {
            lemma_gene_bag_empty();
            broadcast use vstd::multiset::group_multiset_axioms;

            assert(combatants@ =~= Seq::<Genome>::empty());
            assert(gene_bag(population@) =~= gene_bag(rest).add(gene_bag(byst_seq)));
        }
        let mut children: Vec<Genome> = Vec::new();
        while children.len() < config.num_offspring
            invariant
                config.wf(),
                config.target@ == target,
                mother.wf(),
                father.wf(),
                children@.len() <= config.num_offspring,
                all_ok(children@, target),
                forall|i: int|
                    0 <= i < children@.len() ==> child_of(
                        mother.genes@,
                        father.genes@,
                        (#[trigger] children@[i]).genes@,
                    ) && children@[i].fitness is None,
            decreases config.num_offspring - children@.len(),
        {
            let mut pair = mother.mate(&father, config.mut_rate_ppm);
            let second = pair.pop();
            let first = pair.pop();
            match first {
                Some(c) => {
                    children.push(c);
                },
                None => {
                    proof {
                        assert(false);
                    }
                },
            }
            if children.len() < config.num_offspring {
                match second {
                    Some(c) => {
                        children.push(c);
                    },
                    None => {
                        proof {
                            assert(false);
                        }
                    },
                }
            }
        }
        let ghost kids = children@;
        let ghost pop_pre_parents = population@;
        population.push(mother);
        population.push(father);
        let ghost final_bag = gene_bag(rest).add(gene_bag(byst_seq)).insert(
            mother.genes@,
        ).insert(father.genes@).add(gene_bag(kids));
        proof {
            broadcast use vstd::multiset::group_multiset_axioms;

            lemma_gene_bag_push(pop_pre_parents, mother);
            lemma_gene_bag_push(pop_pre_parents.push(mother), father);
            assert(gene_bag(population@).add(gene_bag(children@)) =~= final_bag);
        }
        let ghost before_children = population@.len() + children@.len();
        while children.len() > 0
            invariant
                config.target@ == target,
                all_ok(children@, target),
                all_ok(population@, target),
                population@.len() + children@.len() == before_children,
                gene_bag(population@).add(gene_bag(children@)) == final_bag,
            decreases children@.len(),
        {
            let ghost pop_before = population@;
            let ghost kids_before = children@;
            let popped = children.pop();
            match popped {
                Some(c) => {
                    population.push(c);
                    proof {
                        broadcast use vstd::multiset::group_multiset_axioms;

                        lemma_gene_bag_drop_last(kids_before);
                        lemma_gene_bag_push(pop_before, c);
                        assert(gene_bag(population@).add(gene_bag(children@)) =~= final_bag);
                    }
                },
                None => {
                    proof {
                        assert(false);
                    }
                },
            }
        }
        proof {
            assert(children@.len() == 0);
            assert(population@.len() == pre_draw.len() - k + bystanders + 2
                + config.num_offspring as int);
            assert(bystanders == k - 2 - config.num_offspring as int);
            assert(population@.len() == pre_draw.len());
            broadcast use vstd::multiset::group_multiset_axioms;

            lemma_gene_bag_empty();
            assert(children@ =~= Seq::<Genome>::empty());
            assert(gene_bag(population@) =~= final_bag);
            let t = TournamentView {
                combatants: c0,
                rest,
                mother,
                father,
                bystanders: byst_seq,
                culled: dead_list,
                children: kids,
            };
            assert(gene_bag(before_shuffle) == gene_bag(rest).add(gene_bag(c0)));
            assert(c0.len() == if before_shuffle.len() < config.tournament_size {
                before_shuffle.len() as int
            } else {
                config.tournament_size as int
            });
            assert(c0[im] == mother && c0[jf] == father && im != jf);
            assert(c0.to_multiset() =~= byst_seq.to_multiset().insert(mother).insert(
                father,
            ).add(dead_list.to_multiset()));
            assert(tournament_ok(t, config, before_shuffle, population@));
        }
        Epoch { population, config, best: new_best, iteration: iteration + 1 }
    }
}

/// Runs generations until a candidate's edit distance to the target
/// reaches zero, or until `max_generations` pass without one.  A returned
/// genome's payload equals the configured target exactly.
pub fn run(config: &Config, max_generations: usize) -> (r: Option<Genome>)
    requires
        config.wf(),
        config.pop_size >= config.num_offspring + 2,
    ensures
        match r {
            Some(g) => g.genes@ == config.target@ && g.fitness == Some(0usize),
            None => true,
        },
{
    let mut world = Epoch::new(config.duplicate());
    let mut observer = Window::new(world.config.window_size);
    let mut gens: usize = 0;
    while gens < max_generations
        invariant
            world.wf(),
            world.config.target@ == config.target@,
            world.config.num_offspring == config.num_offspring,
            world.config.pop_size == config.pop_size,
            observer.wf(),
            world.population@.len() == config.pop_size,
            config.pop_size >= config.num_offspring + 2,
            world.iteration <= gens,
            gens <= max_generations,
        decreases max_generations - gens,
    {
        world = world.evolve(&mut observer);
        let found = match &world.best {
            Some(b) => match b.fitness {
                Some(f) => f == 0,
                None => false,
            },
            None => false,
        };
        if found {
            match &world.best {
                Some(b) => {
                    proof {
                        assert(b.fitness == Some(0usize));
                        assert(b.scored_ok(world.config.target@));
                        assert(b.genes@ == config.target@);
                    }
                    return Some(b.duplicate());
                },
                None => {
                    proof {
                        assert(false);
                    }
                },
            }
        }
        gens += 1;
    }
    None
}

} // verus!
