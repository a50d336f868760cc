use ecosim::environment::Environment;
use ecosim::fixed::Position;
use ecosim::organism::{Organism, OrganismSnapshot};
use ecosim::simulation::Simulation;
use ecosim::traits::OrganismTraits;

const U: i64 = 1_000_000;

fn traits(motility: i64, photosynthesis: i64, reproduction: i64, metabolism: i64) -> OrganismTraits {
    OrganismTraits::new(motility, photosynthesis, U / 10, U / 10, U / 10, reproduction, metabolism)
}

fn organism(t: OrganismTraits, size: i64, energy: i64) -> Organism {
    Organism::new("parent".to_string(), Position::new(0, 0, 0), size, t, energy, 0, None)
}

fn same(a: &[OrganismSnapshot], b: &[OrganismSnapshot]) -> bool {
    a.len() == b.len()
        && a.iter().zip(b.iter()).all(|(x, y)| {
            x.id == y.id
                && x.position.x == y.position.x
                && x.position.y == y.position.y
                && x.position.z == y.position.z
                && x.size == y.size
                && x.energy == y.energy
                && x.age == y.age
                && x.generation == y.generation
                && x.parent_id == y.parent_id
                && x.traits.motility == y.traits.motility
                && x.traits.photosynthesis == y.traits.photosynthesis
                && x.traits.reproduction == y.traits.reproduction
                && x.traits.metabolism == y.traits.metabolism
        })
}

#[test]
fn initial_organism_example() {
    let mut sim = Simulation::new(U / 2, U / 2, U / 2, 1);
    let o = sim.create_initial_organism(U / 2, U / 2, U);
    assert_eq!(o.id, "organism-0");
    assert_eq!((o.position.x, o.position.y, o.position.z), (0, 0, 0));
    assert_eq!(o.energy, 100 * U);
    assert_eq!(o.generation, 0);
    assert_eq!(o.age, 0);
    assert!(o.parent_id.is_none());
    assert_eq!(o.traits.reproduction, U / 2);
    assert_eq!(o.traits.metabolism, U / 2);
    assert_eq!(o.traits.predation, U / 10);
    assert_eq!(sim.get_organism_count(), 1);
    assert_eq!(sim.ids_allocated(), 1);
}

#[test]
fn ids_are_sequential_decimal() {
    let mut sim = Simulation::new(U / 2, U / 2, U / 2, 1);
    let mut last = String::new();
    for _ in 0..13 {
        last = sim.create_initial_organism(U / 2, U / 2, U).id;
    }
    assert_eq!(last, "organism-12");
    assert_eq!(sim.get_organism_count(), 13);
}

#[test]
fn reproduction_example() {
    for seed in 0..20u64 {
        let mut sim = Simulation::new(U / 2, 0, U / 2, seed);
        let mut parent = organism(traits(0, U, U, 0), U, 200 * U);
        let child = sim.advance_organism(&mut parent).expect("reproduction is certain");
        assert_eq!(child.energy, 60 * U);
        assert_eq!(parent.energy, 140 * U);
        assert_eq!(child.generation, 1);
        assert_eq!(child.parent_id.as_deref(), Some("parent"));
        assert_eq!(child.id, "organism-0");
        assert_eq!(parent.age, 1);
        assert_eq!(parent.get_actions(), vec!["photosynthesis".to_string(), "reproduced".to_string()]);
        assert!(child.size >= 800_000 && child.size < 1_200_000);
        assert!((child.position.x).abs() <= 250_000 && (child.position.z).abs() <= 250_000);
        assert_eq!(child.position.y, 0);
        assert_eq!(sim.ids_allocated(), 1);
    }
}

#[test]
fn no_offspring_without_reproduction_capacity() {
    for seed in 0..20u64 {
        let mut sim = Simulation::new(U / 2, U, U / 2, seed);
        let mut low_energy = organism(traits(0, 0, U, 0), U, 40 * U);
        assert!(sim.advance_organism(&mut low_energy).is_none());
        let mut low_gene = organism(traits(0, 0, 199_999, 0), U, 200 * U);
        assert!(sim.advance_organism(&mut low_gene).is_none());
        assert_eq!(low_gene.energy, 200 * U);
        assert_eq!(sim.ids_allocated(), 0);
    }
}

#[test]
fn dead_organism_is_left_alone() {
    let mut sim = Simulation::new(U / 2, U, U / 2, 3);
    let mut dead = organism(traits(U, U, U, U), U, 0);
    assert!(sim.advance_organism(&mut dead).is_none());
    assert_eq!(dead.age, 0);
    assert_eq!(dead.energy, 0);
}

#[test]
fn starved_organisms_leave_the_population() {
    let mut sim = Simulation::new(U / 2, U / 2, U / 2, 5);
    sim.create_initial_organism(U / 2, U / 2, 1000 * U);
    sim.create_initial_organism(0, 0, U);
    let next = sim.simulate_generation();
    assert!(next.iter().all(|o| o.id != "organism-0"));
    let survivor = next.iter().find(|o| o.id == "organism-1").expect("survives");
    assert_eq!(survivor.age, 1);
    assert!(survivor.energy == 100 * U - U / 2 || survivor.energy == (100 * U - U / 2) / 10 * 7);
    assert!(next.iter().all(|o| o.energy > 0));
    assert_eq!(sim.get_organism_count(), next.len());
}

#[test]
fn fast_forward_matches_repeated_generations() {
    let mut a = Simulation::new(U / 2, U, U / 2, 42);
    let mut b = Simulation::new(U / 2, U, U / 2, 42);
    for _ in 0..3 {
        a.create_initial_organism(U / 2, U, U);
        b.create_initial_organism(U / 2, U, U);
    }
    let fast = a.fast_forward(6);
    let mut slow = Vec::new();
    for _ in 0..6 {
        slow = b.simulate_generation();
    }
    assert!(same(&fast, &slow));
    assert_eq!(a.get_organism_count(), b.get_organism_count());
    assert!(fast.iter().all(|o| o.energy > 0));
}

#[test]
fn fast_forward_zero_keeps_population() {
    let mut sim = Simulation::new(U / 2, U / 2, U / 2, 9);
    sim.create_initial_organism(U / 2, U / 2, U);
    let r = sim.fast_forward(0);
    assert_eq!(r.len(), 1);
    assert_eq!(r[0].age, 0);
    assert_eq!(r[0].energy, 100 * U);
}

#[test]
fn simulation_environment_is_clamped() {
    let sim = Simulation::new(-3, 2 * U, U / 4, 0);
    let env = sim.environment();
    assert_eq!(env.temperature, 0);
    assert_eq!(env.light_level, U);
    assert_eq!(env.moisture, U / 4);
    assert_eq!(env.resources.organic, 100 * U);
    assert_eq!(env.resources.minerals, 100 * U);
    assert_eq!(env.resources.light, 100 * U);
    assert_eq!(sim.get_organism_count(), 0);
}

#[test]
fn environment_keeps_resources() {
    let env = Environment::new(U / 2, -1, U + 1, -5, 7, 9);
    assert_eq!((env.temperature, env.light_level, env.moisture), (U / 2, 0, U));
    assert_eq!((env.resources.organic, env.resources.minerals, env.resources.light), (-5, 7, 9));
}

#[test]
fn organism_accessor_reads_population() {
    let mut sim = Simulation::new(U / 2, U / 2, U / 2, 2);
    sim.create_initial_organism(0, U, U);
    let o = sim.organism(0);
    assert_eq!(o.id, "organism-0");
    assert!(o.get_actions().is_empty());
    sim.simulate_generation();
    let actions = sim.organism(sim.get_organism_count() - 1).get_actions();
    assert_eq!(actions[0], "photosynthesis");
}
