//! The seven behavioural genes of an organism and their mutation.
use crate::fixed::{clamp, clamp_spec, UNIT};
use crate::random::draw_below;
use rand::rngs::SmallRng;
use vstd::prelude::*;

verus! {

/// The width of the unbiased drift: a gene moves by less than half of it either way.
pub const DRIFT_SPAN: i64 = 100_000;

/// A label-to-weight table; the first entry with a label is the one that counts.
pub open spec fn weight_from(ws: Seq<(String, i64)>, name: Seq<char>, i: int) -> int
    decreases ws.len() - i,
{
    if i < 0 || i >= ws.len() {
        0
    } else if ws[i].0@ == name {
        ws[i].1 as int
    } else {
        weight_from(ws, name, i + 1)
    }
}

/// The weight of `name` in `ws`, zero where it is absent.
pub open spec fn weight_of(ws: Seq<(String, i64)>, name: Seq<char>) -> int {
    weight_from(ws, name, 0)
}

/// The first entry labelled `name` from `i` on is at `j`, so it gives the weight.
pub proof fn lemma_weight_found(ws: Seq<(String, i64)>, name: Seq<char>, i: int, j: int)
    requires
        0 <= i <= j < ws.len(),
        ws[j].0@ == name,
        forall|k: int| i <= k < j ==> ws[k].0@ != name,
    ensures
        weight_from(ws, name, i) == ws[j].1,
    decreases j - i,
{
    if i < j {
        lemma_weight_found(ws, name, i + 1, j);
    }
}

/// No entry from `i` on is labelled `name`, so its weight is zero.
pub proof fn lemma_weight_absent(ws: Seq<(String, i64)>, name: Seq<char>, i: int)
    requires
        0 <= i <= ws.len(),
        forall|k: int| i <= k < ws.len() ==> ws[k].0@ != name,
    ensures
        weight_from(ws, name, i) == 0,
    decreases ws.len() - i,
{
    if i < ws.len() {
        lemma_weight_absent(ws, name, i + 1);
    }
}

/// The history bias of one mutation: `weight * 0.05 * bias_draw`, rounded toward zero.
pub open spec fn bias_spec(weight: int, bias_draw: int) -> int {
    if weight >= 0 {
        weight * bias_draw / (20 * UNIT)
    } else {
        -((-weight) * bias_draw / (20 * UNIT))
    }
}

/// One gene after mutation, from the two uniform draws that drive it.
pub open spec fn mutated_gene(value: int, weight: int, base_draw: int, bias_draw: int) -> int {
    clamp_spec(value + (base_draw - DRIFT_SPAN / 2) + bias_spec(weight, bias_draw), 0, UNIT as int)
}

/// `new` is one possible mutation of `old` under `weight`.
pub open spec fn drifts_to(old: i64, new: i64, weight: int) -> bool {
    exists|b: int, u: int|
        0 <= b < DRIFT_SPAN && 0 <= u < UNIT && new == mutated_gene(old as int, weight, b, u)
}

/// Mutates one gene: `base_draw` in `[0, DRIFT_SPAN)` gives the unbiased drift,
/// `bias_draw` in `[0, UNIT)` scales the history bias.
pub fn mutate_gene(value: i64, weight: i64, base_draw: i64, bias_draw: i64) -> (r: i64)
    requires
        0 <= base_draw < DRIFT_SPAN,
        0 <= bias_draw < UNIT,
    ensures
        r == mutated_gene(value as int, weight as int, base_draw as int, bias_draw as int),
        0 <= r <= UNIT,
{
    let w: i128 = weight as i128;
    let u: i128 = bias_draw as i128;
    assert(-0x8000_0000_0000_0000_0000_0000 <= w * u <= 0x8000_0000_0000_0000_0000_0000)
        by (nonlinear_arith)
        requires
            -0x8000_0000_0000_0000 <= w <= 0x8000_0000_0000_0000,
            0 <= u < 1_000_000;
    assert(-0x8000_0000_0000_0000_0000_0000 <= (-w) * u <= 0x8000_0000_0000_0000_0000_0000)
        by (nonlinear_arith)
        requires
            -0x8000_0000_0000_0000 <= w <= 0x8000_0000_0000_0000,
            0 <= u < 1_000_000;
    let bias: i128 = if w >= 0 {
        w * u / (20 * UNIT as i128)
    } else {
        -((-w) * u / (20 * UNIT as i128))
    };
    assert(-0x8000_0000_0000_0000 <= bias <= 0x8000_0000_0000_0000) by (nonlinear_arith)
        requires
            -0x8000_0000_0000_0000 <= w <= 0x8000_0000_0000_0000,
            0 <= u < 1_000_000,
            bias == bias_spec(w as int, u as int);
    let moved: i128 = value as i128 + (base_draw as i128 - (DRIFT_SPAN / 2) as i128) + bias;
    let r: i128 = if moved < 0 {
        0
    } else if moved > UNIT as i128 {
        UNIT as i128
    } else {
        moved
    };
    r as i64
}

/// The weight that `ws` gives `name`: the first matching entry, else zero.
pub fn lookup_weight(ws: &Vec<(String, i64)>, name: &String) -> (r: i64)
    ensures
        r == weight_of(ws@, name@),
{
    let mut i: usize = 0;
    while i < ws.len()
        invariant
            i <= ws.len(),
            weight_from(ws@, name@, 0) == weight_from(ws@, name@, i as int),
        decreases ws.len() - i,
    {
        if ws[i].0 == *name {
            return ws[i].1;
        }
        i = i + 1;
    }
    0
}

/// Seven genes, each a fixed-point value in `[0, UNIT]`. Predation, defense and
/// sensory are carried and inherited but drive no behaviour.
#[derive(Clone, Copy, Debug)]
pub struct OrganismTraits {
    pub motility: i64,
    pub photosynthesis: i64,
    pub predation: i64,
    pub defense: i64,
    pub sensory: i64,
    pub reproduction: i64,
    pub metabolism: i64,
}

pub open spec fn in_unit(v: i64) -> bool {
    0 <= v <= UNIT
}

impl OrganismTraits {
    /// Every gene lies in `[0, UNIT]`.
    pub open spec fn wf(&self) -> bool {
        in_unit(self.motility) && in_unit(self.photosynthesis) && in_unit(self.predation)
            && in_unit(self.defense) && in_unit(self.sensory) && in_unit(self.reproduction)
            && in_unit(self.metabolism)
    }

    /// Builds a trait vector, saturating each gene into `[0, UNIT]`.
    pub fn new(
        motility: i64,
        photosynthesis: i64,
        predation: i64,
        defense: i64,
        sensory: i64,
        reproduction: i64,
        metabolism: i64,
    ) -> (r: OrganismTraits)
        ensures
            r.wf(),
            r.motility == clamp_spec(motility as int, 0, UNIT as int),
            r.photosynthesis == clamp_spec(photosynthesis as int, 0, UNIT as int),
            r.predation == clamp_spec(predation as int, 0, UNIT as int),
            r.defense == clamp_spec(defense as int, 0, UNIT as int),
            r.sensory == clamp_spec(sensory as int, 0, UNIT as int),
            r.reproduction == clamp_spec(reproduction as int, 0, UNIT as int),
            r.metabolism == clamp_spec(metabolism as int, 0, UNIT as int),
    {
        OrganismTraits {
            motility: clamp(motility, 0, UNIT),
            photosynthesis: clamp(photosynthesis, 0, UNIT),
            predation: clamp(predation, 0, UNIT),
            defense: clamp(defense, 0, UNIT),
            sensory: clamp(sensory, 0, UNIT),
            reproduction: clamp(reproduction, 0, UNIT),
            metabolism: clamp(metabolism, 0, UNIT),
        }
    }

    /// `child` is one possible mutation of `self`, each gene biased by the weight that
    /// `ws` gives the gene's name.
    pub open spec fn mutates_to(&self, child: OrganismTraits, ws: Seq<(String, i64)>) -> bool {
        &&& drifts_to(self.motility, child.motility, weight_of(ws, "motility"@))
        &&& drifts_to(self.photosynthesis, child.photosynthesis, weight_of(ws, "photosynthesis"@))
        &&& drifts_to(self.predation, child.predation, weight_of(ws, "predation"@))
        &&& drifts_to(self.defense, child.defense, weight_of(ws, "defense"@))
        &&& drifts_to(self.sensory, child.sensory, weight_of(ws, "sensory"@))
        &&& drifts_to(self.reproduction, child.reproduction, weight_of(ws, "reproduction"@))
        &&& drifts_to(self.metabolism, child.metabolism, weight_of(ws, "metabolism"@))
    }

    /// A mutated copy: every gene drifts uniformly by less than `DRIFT_SPAN / 2`
    /// either way, plus a bias of `weight * 0.05 * U(0,1)` where `action_weights`
    /// names the gene, then is clamped to `[0, UNIT]`. `self` is left as it was.
    pub fn mutate(&self, rng: &mut SmallRng, action_weights: &Vec<(String, i64)>) -> (r:
        OrganismTraits)
        ensures
            r.wf(),
            self.mutates_to(r, action_weights@),
    {
        let motility = mutate_named(self.motility, rng, action_weights, "motility");
        let photosynthesis = mutate_named(self.photosynthesis, rng, action_weights, "photosynthesis");
        let predation = mutate_named(self.predation, rng, action_weights, "predation");
        let defense = mutate_named(self.defense, rng, action_weights, "defense");
        let sensory = mutate_named(self.sensory, rng, action_weights, "sensory");
        let reproduction = mutate_named(self.reproduction, rng, action_weights, "reproduction");
        let metabolism = mutate_named(self.metabolism, rng, action_weights, "metabolism");
        OrganismTraits {
            motility,
            photosynthesis,
            predation,
            defense,
            sensory,
            reproduction,
            metabolism,
        }
    }
}

/// An owned copy of `s`.
pub fn text(s: &str) -> (r: String)
    ensures
        r@ == s@,
{
    let r = s.to_string();
    proof {
        vstd::string::to_string_from_display_ensures_for_str(s, r);
    }
    r
}

/// Mutates one gene, biased by the weight of `name` in `ws`.
fn mutate_named(value: i64, rng: &mut SmallRng, ws: &Vec<(String, i64)>, name: &str) -> (r: i64)
    ensures
        0 <= r <= UNIT,
        drifts_to(value, r, weight_of(ws@, name@)),
{
    let label = text(name);
    let weight = lookup_weight(ws, &label);
    let base_draw = draw_below(rng, DRIFT_SPAN as u64) as i64;
    let bias_draw = draw_below(rng, UNIT as u64) as i64;
    let r = mutate_gene(value, weight, base_draw, bias_draw);
    assert(0 <= base_draw < DRIFT_SPAN && 0 <= bias_draw < UNIT
        && r == mutated_gene(value as int, weight as int, base_draw as int, bias_draw as int));
    r
}

} // verus!
