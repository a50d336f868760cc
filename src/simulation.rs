//! The simulation: a population, its environment, a generator and an id counter,
//! advanced one generation at a time.
use crate::environment::Environment;
use crate::fixed::{clamp_spec, saturate, shifted_within, UNIT};
use crate::organism::{
    metabolic_cost, movement_cost, next_generation, offspring_size, organism_id, organism_name,
    photosynthesis_gain, step_of_length, travel, Organism, OrganismSnapshot, JITTER, MIN_ACTIVE, MIN_SIZE,
    REPRODUCTION_ENERGY, REPRODUCTION_GENE, SIZE_FACTOR_LOW, SIZE_FACTOR_SPAN,
};
use crate::random::seeded;
use crate::traits::OrganismTraits;
use rand::rngs::SmallRng;
use vstd::prelude::*;

verus! {

/// The energy an initial organism starts with.
pub const INITIAL_ENERGY: i64 = 100 * UNIT;

/// The amount of each resource an environment starts with.
pub const INITIAL_RESOURCE: i64 = 100 * UNIT;

/// The genes that every initial organism is given besides motility and photosynthesis.
pub const INITIAL_MINOR_GENE: i64 = 100_000;

pub const INITIAL_REPRODUCTION: i64 = 500_000;

pub const INITIAL_METABOLISM: i64 = 500_000;

pub struct Simulation {
    organisms: Vec<Organism>,
    environment: Environment,
    rng: SmallRng,
    next_id: u64,
}

/// An organism's energy after paying its metabolism.
pub open spec fn energy_after_metabolism(o: Organism) -> int {
    saturate(o.energy - metabolic_cost(o.traits.metabolism as int, o.size as int))
}

/// An organism's energy after metabolism and, where it is motile enough, a move.
pub open spec fn energy_after_moving(o: Organism) -> int {
    if o.traits.motility >= MIN_ACTIVE {
        saturate(energy_after_metabolism(o) - movement_cost(o.traits.motility as int, o.size as int))
    } else {
        energy_after_metabolism(o)
    }
}

/// An organism's energy at the reproduction check: after moving and, where it
/// photosynthesises, its gain under `light`.
pub open spec fn energy_at_check(o: Organism, light: int) -> int {
    if o.traits.photosynthesis >= MIN_ACTIVE {
        saturate(energy_after_moving(o) + photosynthesis_gain(o.traits.photosynthesis as int, light, o.size as int))
    } else {
        energy_after_moving(o)
    }
}

/// `o`, with energy `e`, can reproduce.
pub open spec fn can_reproduce_with(o: Organism, e: int) -> bool {
    e >= REPRODUCTION_ENERGY && o.traits.reproduction >= REPRODUCTION_GENE
}

/// One organism's turn under `light`: `pre` became `post`, with offspring `child`,
/// while the id counter went from `c0` to `c1`.
pub open spec fn turn(pre: Organism, post: Organism, child: Option<Organism>, c0: u64, c1: u64, light: int) -> bool {
    let e1 = energy_after_metabolism(pre);
    let e2 = energy_after_moving(pre);
    let e = energy_at_check(pre, light);
    &&& post.wf()
    &&& pre.energy <= 0 ==> post == pre && child is None && c1 == c0
    &&& pre.energy > 0 ==> {
        &&& post.age == if pre.age < u32::MAX { pre.age + 1 } else { pre.age as int }
        &&& post.id == pre.id
        &&& post.size == pre.size
        &&& post.traits == pre.traits
        &&& post.generation == pre.generation
        &&& post.parent_id == pre.parent_id
    }
    &&& pre.energy > 0 && e1 <= 0 ==> {
        &&& post.energy == e1
        &&& post.position == pre.position
        &&& post.actions == pre.actions
        &&& child is None
        &&& c1 == c0
    }
    &&& pre.energy > 0 && e1 > 0 ==> {
        &&& post.position.y == pre.position.y
        &&& pre.traits.motility < MIN_ACTIVE ==> post.position == pre.position
        &&& pre.traits.motility >= MIN_ACTIVE ==> {
            let t = travel(pre.traits.motility as int, pre.size as int);
            &&& shifted_within(pre.position.x, post.position.x, t)
            &&& shifted_within(pre.position.z, post.position.z, t)
            &&& exists|dx: int, dz: int| #[trigger] step_of_length(dx, dz, t)
                && post.position.x == saturate(pre.position.x + dx)
                && post.position.z == saturate(pre.position.z + dz)
        }
    }
    &&& pre.energy > 0 && e1 > 0 && e2 <= 0 ==> post.energy == e2 && child is None && c1 == c0
    &&& pre.energy > 0 && e1 > 0 && e2 > 0 ==> {
        &&& child is None ==> post.energy == e && c1 == c0
        &&& can_reproduce_with(pre, e) && pre.traits.reproduction * e >= 200 * UNIT as int * UNIT as int
            && c0 < u64::MAX ==> child is Some
        &&& child matches Some(c) ==> {
            &&& can_reproduce_with(pre, e)
            &&& c.wf()
            &&& c.energy == e * 3 / 10
            &&& post.energy == e * 7 / 10
            &&& c.id@ == organism_name(c0 as nat)
            &&& c1 == c0 + 1
            &&& c.parent_id == Some(pre.id)
            &&& c.generation == next_generation(pre.generation)
            &&& c.age == 0
            &&& c.actions@ == Seq::<Seq<char>>::empty()
            &&& c.position.y == post.position.y
            &&& shifted_within(post.position.x, c.position.x, JITTER as int)
            &&& shifted_within(post.position.z, c.position.z, JITTER as int)
            &&& exists|f: int| SIZE_FACTOR_LOW <= f < SIZE_FACTOR_LOW + SIZE_FACTOR_SPAN
                && c.size == #[trigger] offspring_size(pre.size as int, f)
            &&& exists|ws: Seq<(String, i64)>| #[trigger] pre.traits.mutates_to(c.traits, ws)
            &&& post.actions@.last() == "reproduced"@
        }
    }
}

/// The next population that the turns' results make: for each organism in order,
/// its offspring, if any, then itself if its energy is positive.
pub open spec fn assemble(posts: Seq<Organism>, children: Seq<Option<Organism>>) -> Seq<Organism>
    decreases posts.len(),
{
    if posts.len() == 0 || children.len() < posts.len() {
        Seq::empty()
    } else {
        let k = posts.len() - 1;
        let before = assemble(posts.drop_last(), children.subrange(0, k));
        let with_child = match children[k] {
            Some(c) => before.push(c),
            None => before,
        };
        if posts[k].energy > 0 {
            with_child.push(posts[k])
        } else {
            with_child
        }
    }
}

/// The organisms of `pre` took their turns in order, giving `posts` and `children`
/// while the id counter passed through `counters`, and `post` holds what they made.
pub open spec fn turns_make(
    pre: Simulation,
    post: Simulation,
    posts: Seq<Organism>,
    children: Seq<Option<Organism>>,
    counters: Seq<u64>,
) -> bool {
    let n = pre.population().len();
    &&& posts.len() == n
    &&& children.len() == n
    &&& counters.len() == n + 1
    &&& counters[0] == pre.id_counter()
    &&& counters[n as int] == post.id_counter()
    &&& forall|i: int| 0 <= i < n ==> #[trigger] turn(pre.population()[i], posts[i], children[i], counters[i], counters[i + 1], pre.env().light_level as int)
    &&& post.population() == assemble(posts, children)
}

/// `post` is one generation after `pre`: the environment is kept, every organism of
/// the new population is well formed and alive, there are at most twice as many,
/// the counter has advanced by the number of offspring at most, and the new
/// population is what the organisms' turns, taken in order, made.
pub open spec fn follows(pre: Simulation, post: Simulation) -> bool {
    &&& post.wf()
    &&& post.env() == pre.env()
    &&& forall|i: int| 0 <= i < post.population().len() ==> (#[trigger] post.population()[i]).energy > 0
    &&& post.population().len() <= 2 * pre.population().len()
    &&& pre.id_counter() <= post.id_counter() <= pre.id_counter() + pre.population().len()
    &&& exists|posts: Seq<Organism>, children: Seq<Option<Organism>>, counters: Seq<u64>|
        #[trigger] turns_make(pre, post, posts, children, counters)
}

/// Each state of `run` is one generation after the one before it.
pub open spec fn is_run(run: Seq<Simulation>) -> bool {
    forall|i: int| 0 <= i < run.len() - 1 ==> follows(#[trigger] run[i], run[i + 1])
}

/// `post` is what `n` generations in turn make of `pre`: a run of `n + 1` states
/// leads from one to the other.
pub open spec fn follows_after(pre: Simulation, post: Simulation, n: nat) -> bool {
    exists|run: Seq<Simulation>| #[trigger] is_run(run) && run.len() == n + 1 && run[0] == pre && run[n as int] == post
}

/// The organism built by `create_initial_organism` as the `n`-th allocation.
pub open spec fn initial_organism(o: Organism, n: nat, motility: i64, photosynthesis: i64, size: i64) -> bool {
    &&& o.wf()
    &&& o.id@ == organism_name(n)
    &&& o.position.x == 0 && o.position.y == 0 && o.position.z == 0
    &&& o.size == if size < MIN_SIZE { MIN_SIZE } else { size }
    &&& o.traits.motility == clamp_spec(motility as int, 0, UNIT as int)
    &&& o.traits.photosynthesis == clamp_spec(photosynthesis as int, 0, UNIT as int)
    &&& o.traits.predation == INITIAL_MINOR_GENE
    &&& o.traits.defense == INITIAL_MINOR_GENE
    &&& o.traits.sensory == INITIAL_MINOR_GENE
    &&& o.traits.reproduction == INITIAL_REPRODUCTION
    &&& o.traits.metabolism == INITIAL_METABOLISM
    &&& o.energy == INITIAL_ENERGY
    &&& o.age == 0
    &&& o.generation == 0
    &&& o.parent_id is None
    &&& o.actions@ == Seq::<Seq<char>>::empty()
}

impl Simulation {
    /// The current population, in insertion order.
    pub closed spec fn population(&self) -> Seq<Organism> {
        self.organisms@
    }

    pub closed spec fn env(&self) -> Environment {
        self.environment
    }

    /// The state of the generator.
    pub closed spec fn generator(&self) -> SmallRng {
        self.rng
    }

    /// The number of ids allocated so far.
    pub closed spec fn id_counter(&self) -> u64 {
        self.next_id
    }

    pub open spec fn wf(&self) -> bool {
        &&& self.env().wf()
        &&& forall|i: int| 0 <= i < self.population().len() ==> #[trigger] self.population()[i].wf()
    }

    /// An empty simulation whose environment has the given levels, saturated into
    /// `[0, UNIT]`, and `100` of each resource; the generator is seeded with `seed`.
    pub fn new(env_temperature: i64, env_light: i64, env_moisture: i64, seed: u64) -> (r: Simulation)
        ensures
            r.wf(),
            r.population() == Seq::<Organism>::empty(),
            r.id_counter() == 0,
            r.env().temperature == clamp_spec(env_temperature as int, 0, UNIT as int),
            r.env().light_level == clamp_spec(env_light as int, 0, UNIT as int),
            r.env().moisture == clamp_spec(env_moisture as int, 0, UNIT as int),
            r.env().resources.organic == INITIAL_RESOURCE,
            r.env().resources.minerals == INITIAL_RESOURCE,
            r.env().resources.light == INITIAL_RESOURCE,
    {
        let environment = Environment::new(
            env_temperature,
            env_light,
            env_moisture,
            INITIAL_RESOURCE,
            INITIAL_RESOURCE,
            INITIAL_RESOURCE,
        );
        let r = Simulation { organisms: Vec::new(), environment, rng: seeded(seed), next_id: 0 };
        assert(r.population() =~= Seq::<Organism>::empty());
        r
    }

    /// The environment.
    pub fn environment(&self) -> (r: Environment)
        ensures
            r == self.env(),
    {
        self.environment
    }

    /// The number of ids allocated so far.
    pub fn ids_allocated(&self) -> (r: u64)
        ensures
            r == self.id_counter(),
    {
        self.next_id
    }

    /// Appends a generation-zero organism at the origin with 100 energy, the given
    /// motility, photosynthesis and size, and fixed minor genes, under the next id.
    pub fn create_initial_organism(&mut self, motility: i64, photosynthesis: i64, size: i64) -> (r:
        OrganismSnapshot)
        requires
            old(self).wf(),
            old(self).id_counter() < u64::MAX,
        ensures
            final(self).wf(),
            final(self).env() == old(self).env(),
            final(self).id_counter() == old(self).id_counter() + 1,
            final(self).generator() == old(self).generator(),
            final(self).population().len() == old(self).population().len() + 1,
            final(self).population().drop_last() == old(self).population(),
            initial_organism(final(self).population().last(), old(self).id_counter() as nat, motility, photosynthesis, size),
            r.shows(&final(self).population().last()),
    {
        let traits = OrganismTraits::new(
            motility,
            photosynthesis,
            INITIAL_MINOR_GENE,
            INITIAL_MINOR_GENE,
            INITIAL_MINOR_GENE,
            INITIAL_REPRODUCTION,
            INITIAL_METABOLISM,
        );
        let id = organism_id(self.next_id);
        self.next_id = self.next_id + 1;
        let organism = Organism::new(
            id,
            crate::fixed::Position::new(0, 0, 0),
            size,
            traits,
            INITIAL_ENERGY,
            0,
            None,
        );
        let r = organism.snapshot();
        self.organisms.push(organism);
        assert(self.population().drop_last() =~= old(self).population());
        r
    }

    /// One organism's turn in a generation, steps 1 to 6: a dead organism is left
    /// alone; otherwise it ages, pays its metabolism, moves, photosynthesises under
    /// the environment's light and may reproduce. It survives into the next
    /// generation iff its energy is then positive; the offspring, if any, is returned.
    pub fn advance_organism(&mut self, organism: &mut Organism) -> (r: Option<Organism>)
        requires
            old(self).wf(),
            old(organism).wf(),
        ensures
            final(self).wf(),
            final(self).population() == old(self).population(),
            final(self).env() == old(self).env(),
            final(organism).wf(),
            turn(*old(organism), *final(organism), r, old(self).id_counter(), final(self).id_counter(), old(self).env().light_level as int),
    {
        if organism.energy <= 0 {
            return None;
        }
        organism.age = if organism.age < u32::MAX { organism.age + 1 } else { organism.age };
        organism.metabolize();
        if organism.energy <= 0 {
            return None;
        }
        organism.move_organism(&mut self.rng);
        if organism.energy <= 0 {
            return None;
        }
        organism.process_photosynthesis(self.environment.light_level);
        let r = organism.reproduce(&mut self.rng, &mut self.next_id);
        assert(forall|i: int| 0 <= i < old(self).population().len() ==> #[trigger] old(self).population()[i].wf());
        r
    }

    /// Snapshots of the population, in order.
    pub fn snapshots(&self) -> (r: Vec<OrganismSnapshot>)
        ensures
            r.len() == self.population().len(),
            forall|i: int| 0 <= i < r.len() ==> #[trigger] r@[i].shows(&self.population()[i]),
    {
        let mut r: Vec<OrganismSnapshot> = Vec::new();
        let mut i: usize = 0;
        while i < self.organisms.len()
            invariant
                i <= self.organisms.len(),
                r.len() == i,
                forall|k: int| 0 <= k < i ==> #[trigger] r@[k].shows(&self.organisms@[k]),
            decreases self.organisms.len() - i,
        {
            r.push(self.organisms[i].snapshot());
            i = i + 1;
        }
        r
    }

    /// Advances one generation: each organism of the population takes its turn in
    /// order, and the next population lists, for each, its offspring and then itself
    /// if it survived. Returns the new population.
    pub fn simulate_generation(&mut self) -> (r: Vec<OrganismSnapshot>)
        requires
            old(self).wf(),
        ensures
            follows(*old(self), *final(self)),
            r.len() == final(self).population().len(),
            forall|i: int| 0 <= i < r.len() ==> #[trigger] r@[i].shows(&final(self).population()[i]),
    {
        let ghost n0 = self.organisms.len();
        let ghost c0 = self.next_id;
        let ghost orig = self.organisms@;
        let mut pending: Vec<Organism> = Vec::new();
        while self.organisms.len() > 0
            invariant
                self.wf(),
                self.env() == old(self).env(),
                self.next_id == c0,
                pending.len() + self.organisms.len() == n0,
                orig.len() == n0,
                self.organisms@ == orig.subrange(0, self.organisms.len() as int),
                forall|j: int| 0 <= j < pending.len() ==> #[trigger] pending@[j] == orig[n0 - 1 - j],
                forall|i: int| 0 <= i < pending.len() ==> #[trigger] pending@[i].wf(),
            decreases self.organisms.len(),
        {
            let ghost before = self.organisms@;
            assert(self.population() == before);
            assert(forall|i: int| 0 <= i < before.len() ==> #[trigger] before[i].wf());
            match self.organisms.pop() {
                Some(o) => {
                    assert(o.wf());
                    pending.push(o);
                },
                None => {},
            }
            assert(self.organisms@ =~= before.drop_last());
            assert(self.organisms@ =~= orig.subrange(0, self.organisms.len() as int));
            assert forall|i: int| 0 <= i < self.population().len() implies #[trigger] self.population()[i].wf() by {
                assert(self.population()[i] == before[i]);
            }
        }
        let mut next: Vec<Organism> = Vec::new();
        let ghost mut posts: Seq<Organism> = Seq::empty();
        let ghost mut children: Seq<Option<Organism>> = Seq::empty();
        let ghost mut counters: Seq<u64> = seq![c0];
        while pending.len() > 0
            invariant
                self.wf(),
                self.population().len() == 0,
                self.env() == old(self).env(),
                c0 <= self.next_id <= c0 + (n0 - pending.len()),
                pending.len() <= n0,
                orig.len() == n0,
                old(self).population() == orig,
                old(self).id_counter() == c0,
                forall|j: int| 0 <= j < pending.len() ==> #[trigger] pending@[j] == orig[n0 - 1 - j],
                next.len() <= 2 * (n0 - pending.len()),
                forall|i: int| 0 <= i < pending.len() ==> #[trigger] pending@[i].wf(),
                forall|i: int| 0 <= i < next.len() ==> #[trigger] next@[i].wf() && next@[i].energy > 0,
                posts.len() == n0 - pending.len(),
                children.len() == posts.len(),
                counters.len() == posts.len() + 1,
                counters[0] == c0,
                counters[posts.len() as int] == self.next_id,
                forall|i: int| 0 <= i < posts.len() ==> #[trigger] turn(orig[i], posts[i], children[i], counters[i], counters[i + 1], old(self).env().light_level as int),
                next@ == assemble(posts, children),
            decreases pending.len(),
        {
            let ghost k = posts.len();
            let ghost count_before = self.next_id;
            match pending.pop() {
                Some(o) => {
                    assert(o == orig[k as int]);
                    let mut organism = o;
                    let child = self.advance_organism(&mut organism);
                    proof {
                        let old_posts = posts;
                        let old_children = children;
                        let old_counters = counters;
                        posts = posts.push(organism);
                        children = children.push(child);
                        counters = counters.push(self.next_id);
                        assert(posts.drop_last() =~= old_posts);
                        assert(children.subrange(0, k as int) =~= old_children);
                        assert forall|i: int| 0 <= i < posts.len() implies #[trigger] turn(orig[i], posts[i], children[i], counters[i], counters[i + 1], old(self).env().light_level as int) by {
                            if i < k {
                                assert(turn(orig[i], old_posts[i], old_children[i], old_counters[i], old_counters[i + 1], old(self).env().light_level as int));
                            }
                        }
                    }
                    match child {
                        Some(c) => next.push(c),
                        None => {},
                    }
                    if organism.energy > 0 {
                        next.push(organism);
                    }
                },
                None => {},
            }
        }
        self.organisms = next;
        assert(self.population() == next@);
        assert(forall|i: int| 0 <= i < self.population().len() ==> (#[trigger] self.population()[i]).wf() && self.population()[i].energy > 0);
        assert(turns_make(*old(self), *self, posts, children, counters));
        self.snapshots()
    }

    /// Advances `generations` generations, exactly as that many calls of
    /// `simulate_generation` in turn, and returns the final population.
    pub fn fast_forward(&mut self, generations: u32) -> (r: Vec<OrganismSnapshot>)
        requires
            old(self).wf(),
        ensures
            final(self).wf(),
            follows_after(*old(self), *final(self), generations as nat),
            r.len() == final(self).population().len(),
            forall|i: int| 0 <= i < r.len() ==> #[trigger] r@[i].shows(&final(self).population()[i]),
    {
        let mut i: u32 = 0;
        let ghost mut run: Seq<Simulation> = seq![*self];
        while i < generations
            invariant
                i <= generations,
                self.wf(),
                is_run(run),
                run.len() == i + 1,
                run[0] == *old(self),
                run[i as int] == *self,
            decreases generations - i,
        {
            self.simulate_generation();
            proof {
                let prev = run;
                run = run.push(*self);
                assert forall|k: int| 0 <= k < run.len() - 1 implies follows(#[trigger] run[k], run[k + 1]) by {
                    if k < prev.len() - 1 {
                        assert(follows(prev[k], prev[k + 1]));
                    }
                }
            }
            i = i + 1;
        }
        assert(is_run(run) && run.len() == generations + 1 && run[0] == *old(self) && run[generations as int] == *self);
        self.snapshots()
    }

    /// The organism at `index` in the population.
    pub fn organism(&self, index: usize) -> (r: &Organism)
        requires
            index < self.population().len(),
        ensures
            *r == self.population()[index as int],
    {
        &self.organisms[index]
    }

    /// The number of organisms in the population.
    pub fn get_organism_count(&self) -> (r: usize)
        ensures
            r == self.population().len(),
    {
        self.organisms.len()
    }
}

} // verus!
