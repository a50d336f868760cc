use ecosim::fixed::Position;
use ecosim::organism::Organism;
use ecosim::traits::{mutate_gene, OrganismTraits};
use rand::rngs::SmallRng;
use rand::SeedableRng;

const U: i64 = 1_000_000;

fn traits(motility: i64, photosynthesis: i64, reproduction: i64, metabolism: i64) -> OrganismTraits {
    OrganismTraits::new(motility, photosynthesis, U / 10, U / 10, U / 10, reproduction, metabolism)
}

fn organism(t: OrganismTraits, size: i64, energy: i64) -> Organism {
    Organism::new("o".to_string(), Position::new(1, 2, 3), size, t, energy, 0, None)
}

fn genes(t: &OrganismTraits) -> [i64; 7] {
    [t.motility, t.photosynthesis, t.predation, t.defense, t.sensory, t.reproduction, t.metabolism]
}

fn weight(o: &Organism, label: &str) -> Option<u32> {
    o.get_action_weights().into_iter().find(|(l, _)| l == label).map(|(_, c)| c)
}

#[test]
fn traits_are_clamped_at_construction() {
    let t = OrganismTraits::new(-5, 2 * U, U / 2, 0, U, i64::MIN, i64::MAX);
    assert_eq!(genes(&t), [0, U, U / 2, 0, U, 0, U]);
}

#[test]
fn mutation_stays_in_range() {
    let weights = vec![
        ("motility".to_string(), i64::MAX),
        ("defense".to_string(), i64::MIN),
    ];
    for seed in 0..50u64 {
        let mut rng = SmallRng::seed_from_u64(seed);
        for t in [OrganismTraits::new(0, 0, 0, 0, 0, 0, 0), OrganismTraits::new(U, U, U, U, U, U, U)] {
            let m = t.mutate(&mut rng, &weights);
            assert!(genes(&m).iter().all(|g| (0..=U).contains(g)));
        }
    }
}

#[test]
fn mutation_is_a_copy() {
    let t = traits(U / 2, U / 2, U / 2, U / 2);
    let mut rng = SmallRng::seed_from_u64(1);
    let m = t.mutate(&mut rng, &Vec::new());
    assert_eq!(genes(&t), [U / 2, U / 2, U / 10, U / 10, U / 10, U / 2, U / 2]);
    assert!(genes(&m).iter().zip(genes(&t).iter()).all(|(a, b)| (a - b).abs() <= 50_000));
}

#[test]
fn history_bias_pushes_up() {
    let weights = vec![("photosynthesis".to_string(), U)];
    let t = traits(U / 2, U / 2, U / 2, U / 2);
    let mut rng = SmallRng::seed_from_u64(3);
    let mut total: i64 = 0;
    for _ in 0..200 {
        total += t.mutate(&mut rng, &weights).photosynthesis - U / 2;
    }
    assert!(total > 0);
}

#[test]
fn mutate_gene_formula() {
    assert_eq!(mutate_gene(U / 2, 0, 50_000, 0), U / 2);
    assert_eq!(mutate_gene(U / 2, 0, 0, 0), U / 2 - 50_000);
    assert_eq!(mutate_gene(U / 2, U, 50_000, U / 2), U / 2 + 25_000);
    assert_eq!(mutate_gene(U / 2, -U, 50_000, U / 2), U / 2 - 25_000);
    assert_eq!(mutate_gene(U, U, 99_999, 999_999), U);
    assert_eq!(mutate_gene(0, 0, 0, 0), 0);
}

#[test]
fn size_is_floored_at_construction() {
    let o = organism(traits(0, 0, 0, 0), 0, 10);
    assert_eq!(o.size, 100_000);
    assert_eq!(o.age, 0);
    assert!(o.get_actions().is_empty());
    assert!(o.get_action_weights().is_empty());
}

#[test]
fn history_keeps_last_twenty() {
    let mut o = organism(traits(0, 0, 0, 0), U, 10);
    for i in 0..25 {
        o.record_action(format!("a{}", i % 3));
    }
    let actions = o.get_actions();
    assert_eq!(actions.len(), 20);
    assert_eq!(actions[0], "a2");
    assert_eq!(actions[19], "a0");
    for label in ["a0", "a1", "a2"] {
        let count = actions.iter().filter(|a| *a == label).count() as u32;
        assert_eq!(weight(&o, label), Some(count));
    }
    assert_eq!(o.get_action_weights().len(), 3);
}

#[test]
fn evicted_label_leaves_the_tally() {
    let mut o = organism(traits(0, 0, 0, 0), U, 10);
    o.record_action("old".to_string());
    for _ in 0..20 {
        o.record_action("new".to_string());
    }
    assert_eq!(weight(&o, "old"), None);
    assert_eq!(weight(&o, "new"), Some(20));
    assert_eq!(o.get_action_weights().len(), 1);
}

#[test]
fn frequencies_are_normalised() {
    let mut o = organism(traits(0, 0, 0, 0), U, 10);
    for a in ["moved", "moved", "photosynthesis", "x"] {
        o.record_action(a.to_string());
    }
    let f = o.actions.frequencies();
    let get = |l: &str| f.iter().find(|(k, _)| k == l).map(|(_, v)| *v);
    assert_eq!(get("moved"), Some(U / 2));
    assert_eq!(get("photosynthesis"), Some(U / 4));
    assert_eq!(get("x"), Some(U / 4));
    assert_eq!(f.len(), 3);
}

#[test]
fn sluggish_organism_does_not_move() {
    let mut o = organism(traits(49_999, 0, 0, 0), U, 10 * U);
    let mut rng = SmallRng::seed_from_u64(2);
    o.move_organism(&mut rng);
    assert_eq!((o.position.x, o.position.y, o.position.z), (1, 2, 3));
    assert_eq!(o.energy, 10 * U);
    assert!(o.get_actions().is_empty());
}

#[test]
fn moving_costs_energy() {
    for seed in 0..20u64 {
        let mut o = organism(traits(U, 0, 0, 0), U, 10 * U);
        let mut rng = SmallRng::seed_from_u64(seed);
        o.move_organism(&mut rng);
        assert_eq!(o.energy, 9 * U);
        assert_eq!(o.position.y, 2);
        assert!((o.position.x - 1).abs() <= U / 2 && (o.position.z - 3).abs() <= U / 2);
        let d2 = (o.position.x - 1).pow(2) + (o.position.z - 3).pow(2);
        assert!(d2 >= (U / 2 - 5).pow(2) && d2 <= 500_977i64.pow(2));
        assert_eq!(o.get_actions(), vec!["moved".to_string()]);
    }
}

#[test]
fn small_organisms_travel_further() {
    let mut o = organism(traits(U / 2, 0, 0, 0), U / 2, 10 * U);
    let mut rng = SmallRng::seed_from_u64(4);
    o.move_organism(&mut rng);
    assert_eq!(o.energy, 10 * U - U / 2);
    let d2 = (o.position.x - 1).pow(2) + (o.position.z - 3).pow(2);
    assert!(d2 >= (U / 2 - 5).pow(2) && d2 <= 500_977i64.pow(2));
}

#[test]
fn photosynthesis_gain() {
    let mut o = organism(traits(0, U / 2, 0, 0), U, 10 * U);
    o.process_photosynthesis(U);
    assert_eq!(o.energy, 10 * U + 2_500_000);
    assert_eq!(o.get_actions(), vec!["photosynthesis".to_string()]);
    let mut dim = organism(traits(0, 49_999, 0, 0), U, 10 * U);
    dim.process_photosynthesis(U);
    assert_eq!(dim.energy, 10 * U);
    assert!(dim.get_actions().is_empty());
}

#[test]
fn reproduction_thresholds() {
    assert!(organism(traits(0, 0, 200_000, 0), U, 50 * U).can_reproduce());
    assert!(!organism(traits(0, 0, 200_000, 0), U, 50 * U - 1).can_reproduce());
    assert!(!organism(traits(0, 0, 199_999, 0), U, 500 * U).can_reproduce());
}

#[test]
fn reproduction_chance_is_uncapped() {
    assert_eq!(organism(traits(0, 0, U, 0), U, 200 * U).reproduction_chance(), U);
    assert_eq!(organism(traits(0, 0, U / 2, 0), U, 100 * U).reproduction_chance(), U / 4);
    assert_eq!(organism(traits(0, 0, U, 0), U, 1000 * U).reproduction_chance(), 5 * U);
    assert_eq!(organism(traits(0, 0, U, 0), U, -1).reproduction_chance(), -1);
}

#[test]
fn metabolism_cost() {
    let mut o = organism(traits(0, 0, 0, U / 2), 2 * U, 10 * U);
    o.metabolize();
    assert_eq!(o.energy, 9 * U);
}

#[test]
fn reproduce_directly() {
    let mut o = organism(traits(0, 0, U, 0), U, 300 * U);
    o.record_action("moved".to_string());
    let mut rng = SmallRng::seed_from_u64(8);
    let mut next: u64 = 41;
    let child = o.reproduce(&mut rng, &mut next).expect("certain");
    assert_eq!(next, 42);
    assert_eq!(child.id, "organism-41");
    assert_eq!(child.energy, 90 * U);
    assert_eq!(o.energy, 210 * U);
    assert_eq!(o.get_actions(), vec!["moved".to_string(), "reproduced".to_string()]);
    assert!(child.get_actions().is_empty());
}

#[test]
fn distance_is_euclidean() {
    let a = Position::new(0, 0, 0);
    let b = Position::new(3 * U, 4 * U, 0);
    assert_eq!(a.distance(&b), 5 * U as u128);
    assert_eq!(b.distance(&b), 0);
    assert_eq!(Position::new(0, 0, 0).distance(&Position::new(1, 1, 1)), 1);
}

#[test]
fn tally_tracks_window_after_every_record() {
    let mut o = organism(traits(0, 0, 0, 0), U, 10);
    let labels = ["moved", "photosynthesis", "reproduced", "rest"];
    let mut all: Vec<String> = Vec::new();
    let mut state: u64 = 17;
    for _ in 0..120 {
        state = state.wrapping_mul(6364136223846793005).wrapping_add(1442695040888963407);
        let label = labels[(state >> 60) as usize % labels.len()].to_string();
        all.push(label.clone());
        o.record_action(label);
        let start = all.len().saturating_sub(20);
        let window = &all[start..];
        assert_eq!(o.get_actions(), window.to_vec());
        let weights = o.get_action_weights();
        for l in labels {
            let expected = window.iter().filter(|a| *a == l).count() as u32;
            let got = weights.iter().find(|(k, _)| k == l).map(|(_, c)| *c);
            if expected == 0 {
                assert_eq!(got, None);
            } else {
                assert_eq!(got, Some(expected));
            }
        }
    }
}

#[test]
fn reproduction_draw_decides_exactly() {
    let certain = organism(traits(0, 0, U, 0), U, 200 * U);
    assert!(certain.reproduction_succeeds(999_999, 0));
    assert!(!certain.reproduction_succeeds(0, u64::MAX));
    let quarter = organism(traits(0, 0, U / 2, 0), U, 100 * U);
    assert!(quarter.reproduction_succeeds(249_999, 5));
    assert!(!quarter.reproduction_succeeds(250_000, 5));
    let weak = organism(traits(0, 0, U, 0), U, 50 * U - 1);
    assert!(!weak.reproduction_succeeds(0, 5));
}

#[test]
fn offspring_fields_are_exact() {
    let mut parent = Organism::new(
        "p".to_string(),
        Position::new(10 * U, 7, -3 * U),
        2 * U,
        traits(U / 2, U / 2, U, 0),
        101 * U,
        4,
        None,
    );
    parent.record_action("moved".to_string());
    let child_traits = traits(1, 2, 3, 4);
    let child = parent.build_offspring("organism-9".to_string(), child_traits, -250_000, 249_999, 1_199_999);
    assert_eq!(child.id, "organism-9");
    assert_eq!((child.position.x, child.position.y, child.position.z), (10 * U - 250_000, 7, -3 * U + 249_999));
    assert_eq!(child.size, 2 * 1_199_999);
    assert_eq!(child.energy, 30_300_000);
    assert_eq!(child.generation, 5);
    assert_eq!(child.age, 0);
    assert_eq!(child.parent_id.as_deref(), Some("p"));
    assert_eq!(child.traits.motility, 1);
    assert!(child.get_actions().is_empty());
    let tiny = organism(traits(0, 0, 0, 0), 100_000, 0);
    assert_eq!(tiny.build_offspring("x".to_string(), child_traits, 0, 0, 800_000).size, 100_000);
}

#[test]
fn organism_ids_are_decimal() {
    assert_eq!(ecosim::organism::organism_id(0), "organism-0");
    assert_eq!(ecosim::organism::organism_id(1_234_567), "organism-1234567");
    assert_eq!(ecosim::organism::organism_id(u64::MAX), "organism-18446744073709551615");
}
