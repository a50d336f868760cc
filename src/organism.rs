//! An organism: identity, position, size, genes, energy, lineage, and a bounded
//! action history kept in lockstep with a per-label tally.
use crate::fixed::{floor_sqrt, is_floor_sqrt, saturate, saturate_wide, shifted_within, Position, UNIT};
use crate::random::draw_below;
use crate::traits::{lemma_weight_absent, lemma_weight_found, text, weight_of, OrganismTraits};
use rand::rngs::SmallRng;
use vstd::multiset::Multiset;
use vstd::prelude::*;

verus! {

/// The number of most recent actions an organism remembers.
pub const HISTORY_CAP: usize = 20;

/// The smallest size an organism is built with.
pub const MIN_SIZE: i64 = 100_000;

/// Genes below this level do not act.
pub const MIN_ACTIVE: i64 = 50_000;

/// The energy an organism needs to reproduce.
pub const REPRODUCTION_ENERGY: i64 = 50 * UNIT;

/// The reproduction gene an organism needs to reproduce.
pub const REPRODUCTION_GENE: i64 = 200_000;

/// How often `l` occurs in `s`.
pub open spec fn occurrences(s: Seq<Seq<char>>, l: Seq<char>) -> nat
    decreases s.len(),
{
    if s.len() == 0 {
        0
    } else {
        occurrences(s.drop_last(), l) + if s.last() == l {
            1nat
        } else {
            0nat
        }
    }
}

/// The multiset counts of `s`: each label that occurs, with how often it does.
pub open spec fn tally(s: Seq<Seq<char>>) -> Map<Seq<char>, nat> {
    Map::new(|l: Seq<char>| occurrences(s, l) > 0, |l: Seq<char>| occurrences(s, l))
}

/// The last `HISTORY_CAP` entries of `s`.
pub open spec fn window(s: Seq<Seq<char>>) -> Seq<Seq<char>> {
    if s.len() > HISTORY_CAP {
        s.subrange(s.len() - HISTORY_CAP, s.len() as int)
    } else {
        s
    }
}

pub open spec fn labels(s: Seq<String>) -> Seq<Seq<char>> {
    s.map_values(|a: String| a@)
}

/// The map that a table of `(label, count)` entries stands for.
pub open spec fn table(ws: Seq<(String, u32)>) -> Map<Seq<char>, nat>
    decreases ws.len(),
{
    if ws.len() == 0 {
        Map::empty()
    } else {
        table(ws.drop_last()).insert(ws.last().0@, ws.last().1 as nat)
    }
}

pub open spec fn distinct_labels(ws: Seq<(String, u32)>) -> bool {
    forall|i: int, j: int| 0 <= i < j < ws.len() ==> ws[i].0@ != ws[j].0@
}

/// The table holds each label of `h` once, with its positive count, and no other.
pub open spec fn counts_match(ws: Seq<(String, u32)>, h: Seq<Seq<char>>) -> bool {
    &&& distinct_labels(ws)
    &&& forall|i: int| 0 <= i < ws.len() ==> ws[i].1 > 0 && ws[i].1 == occurrences(h, #[trigger] ws[i].0@)
    &&& forall|l: Seq<char>| occurrences(h, l) > 0 ==> exists|i: int| 0 <= i < ws.len() && ws[i].0@ == l
}

/// `occurrences` is the multiplicity in the sequence's multiset, so the tally of
/// a history is exactly its multiset counts.
pub proof fn lemma_tally_is_multiset_count(s: Seq<Seq<char>>)
    ensures
        forall|l: Seq<char>| #[trigger] s.to_multiset().count(l) == occurrences(s, l),
        forall|l: Seq<char>| tally(s).contains_key(l) <==> s.to_multiset().count(l) > 0,
        forall|l: Seq<char>| tally(s).contains_key(l) ==> tally(s)[l] == s.to_multiset().count(l),
    decreases s.len(),
{
    broadcast use vstd::seq_lib::group_to_multiset_ensures;
    if s.len() > 0 {
        let t = s.drop_last();
        lemma_tally_is_multiset_count(t);
        assert(t.push(s.last()) =~= s);
        assert(s.to_multiset() =~= t.to_multiset().insert(s.last()));
    } else {
        assert(s.to_multiset() =~= Multiset::<Seq<char>>::empty());
    }
}

proof fn lemma_occurrences_push(s: Seq<Seq<char>>, a: Seq<char>)
    ensures
        forall|l: Seq<char>| occurrences(s.push(a), l) == occurrences(s, l) + if a == l { 1nat } else { 0nat },
{
    assert(s.push(a).drop_last() =~= s);
}

proof fn lemma_occurrences_front(s: Seq<Seq<char>>, l: Seq<char>)
    requires
        s.len() > 0,
    ensures
        occurrences(s, l) == occurrences(s.subrange(1, s.len() as int), l) + if s[0] == l { 1nat } else { 0nat },
    decreases s.len(),
{
    let t = s.subrange(1, s.len() as int);
    if s.len() == 1 {
        assert(s.drop_last() =~= Seq::<Seq<char>>::empty());
        assert(t =~= Seq::<Seq<char>>::empty());
    } else {
        lemma_occurrences_front(s.drop_last(), l);
        assert(t.drop_last() =~= s.drop_last().subrange(1, s.len() - 1));
    }
}

proof fn lemma_occurrences_bound(s: Seq<Seq<char>>, l: Seq<char>)
    ensures
        occurrences(s, l) <= s.len(),
    decreases s.len(),
{
    if s.len() > 0 {
        lemma_occurrences_bound(s.drop_last(), l);
    }
}

proof fn lemma_table_at(ws: Seq<(String, u32)>, i: int)
    requires
        distinct_labels(ws),
        0 <= i < ws.len(),
    ensures
        table(ws).contains_key(ws[i].0@),
        table(ws)[ws[i].0@] == ws[i].1 as nat,
    decreases ws.len(),
{
    if i < ws.len() - 1 {
        lemma_table_at(ws.drop_last(), i);
    }
}

proof fn lemma_table_absent(ws: Seq<(String, u32)>, l: Seq<char>)
    requires
        forall|i: int| 0 <= i < ws.len() ==> ws[i].0@ != l,
    ensures
        !table(ws).contains_key(l),
    decreases ws.len(),
{
    if ws.len() > 0 {
        lemma_table_absent(ws.drop_last(), l);
    }
}

/// A table that matches a history stands for the history's tally.
proof fn lemma_table_is_tally(ws: Seq<(String, u32)>, h: Seq<Seq<char>>)
    requires
        counts_match(ws, h),
    ensures
        table(ws) == tally(h),
{
    assert forall|l: Seq<char>| #[trigger] table(ws).contains_key(l) == tally(h).contains_key(l)
        && (table(ws).contains_key(l) ==> table(ws)[l] == tally(h)[l]) by {
        if exists|i: int| 0 <= i < ws.len() && ws[i].0@ == l {
            let i = choose|i: int| 0 <= i < ws.len() && ws[i].0@ == l;
            lemma_table_at(ws, i);
        } else {
            lemma_table_absent(ws, l);
        }
    }
    assert(table(ws) =~= tally(h));
}

/// The index of the entry labelled `a`, if there is one.
fn find_label(ws: &Vec<(String, u32)>, a: &String) -> (r: Option<usize>)
    ensures
        r matches Some(i) ==> i < ws.len() && ws@[i as int].0@ == a@,
        r is None ==> forall|i: int| 0 <= i < ws.len() ==> ws@[i].0@ != a@,
{
    let mut i: usize = 0;
    while i < ws.len()
        invariant
            i <= ws.len(),
            forall|j: int| 0 <= j < i ==> ws@[j].0@ != a@,
        decreases ws.len() - i,
    {
        if ws[i].0 == *a {
            return Some(i);
        }
        i = i + 1;
    }
    None
}

/// The last `HISTORY_CAP` action labels, oldest first, with a tally of each
/// label kept in lockstep.
pub struct ActionHistory {
    records: Vec<String>,
    counts: Vec<(String, u32)>,
}

impl View for ActionHistory {
    type V = Seq<Seq<char>>;

    closed spec fn view(&self) -> Seq<Seq<char>> {
        labels(self.records@)
    }
}

impl ActionHistory {
    /// The label-to-count mapping kept beside the history.
    pub closed spec fn weights(&self) -> Map<Seq<char>, nat> {
        table(self.counts@)
    }

    /// The history holds at most `HISTORY_CAP` labels and the table counts them.
    pub closed spec fn wf(&self) -> bool {
        &&& self.records.len() <= HISTORY_CAP
        &&& counts_match(self.counts@, self@)
    }

    /// Whatever actions were recorded, the tally holds exactly the labels of the
    /// history window, each with its multiplicity there.
    pub proof fn lemma_weights_are_counts(&self)
        requires
            self.wf(),
        ensures
            self.weights() == tally(self@),
            self@.len() <= HISTORY_CAP,
            forall|l: Seq<char>| self.weights().contains_key(l) <==> self@.to_multiset().count(l) > 0,
            forall|l: Seq<char>| self.weights().contains_key(l) ==> self.weights()[l] == self@.to_multiset().count(l),
    {
        lemma_table_is_tally(self.counts@, self@);
        lemma_tally_is_multiset_count(self@);
    }

    pub fn new() -> (r: ActionHistory)
        ensures
            r.wf(),
            r@ == Seq::<Seq<char>>::empty(),
    {
        let r = ActionHistory { records: Vec::new(), counts: Vec::new() };
        assert(r@ =~= Seq::<Seq<char>>::empty());
        r
    }

    /// The remembered labels, oldest first.
    pub fn actions(&self) -> (r: Vec<String>)
        ensures
            labels(r@) == self@,
    {
        let mut r: Vec<String> = Vec::new();
        let mut i: usize = 0;
        while i < self.records.len()
            invariant
                i <= self.records.len(),
                r@ == self.records@.subrange(0, i as int),
            decreases self.records.len() - i,
        {
            r.push(self.records[i].clone());
            assert(r@ =~= self.records@.subrange(0, i + 1));
            i = i + 1;
        }
        assert(r@ =~= self.records@);
        r
    }

    /// The tally as `(label, count)` entries, each label once.
    pub fn weight_entries(&self) -> (r: Vec<(String, u32)>)
        requires
            self.wf(),
        ensures
            distinct_labels(r@),
            forall|i: int| 0 <= i < r.len() ==> self.weights().contains_key(#[trigger] r@[i].0@)
                && self.weights()[r@[i].0@] == r@[i].1 as nat,
            forall|l: Seq<char>| self.weights().contains_key(l) ==> exists|i: int| 0 <= i < r.len() && r@[i].0@ == l,
    {
        let mut r: Vec<(String, u32)> = Vec::new();
        let mut i: usize = 0;
        while i < self.counts.len()
            invariant
                i <= self.counts.len(),
                r@ == self.counts@.subrange(0, i as int),
            decreases self.counts.len() - i,
        {
            r.push((self.counts[i].0.clone(), self.counts[i].1));
            assert(r@ =~= self.counts@.subrange(0, i + 1));
            i = i + 1;
        }
        assert(r@ =~= self.counts@);
        proof {
            assert forall|k: int| 0 <= k < r.len() implies self.weights().contains_key(#[trigger] r@[k].0@)
                && self.weights()[r@[k].0@] == r@[k].1 as nat by {
                lemma_table_at(self.counts@, k);
            }
            lemma_table_is_tally(self.counts@, self@);
        }
        r
    }

    /// The share of the history that `name` takes, in millionths.
    pub open spec fn frequency(&self, name: Seq<char>) -> int {
        if self.weights().contains_key(name) {
            self.weights()[name] * UNIT as int / (self@.len() as int)
        } else {
            0
        }
    }

    /// The normalised tally: each label once, with its count divided by the
    /// history's length, in millionths.
    pub fn frequencies(&self) -> (r: Vec<(String, i64)>)
        requires
            self.wf(),
        ensures
            forall|i: int, j: int| 0 <= i < j < r.len() ==> r@[i].0@ != r@[j].0@,
            forall|i: int| 0 <= i < r.len() ==> self.weights().contains_key(#[trigger] r@[i].0@)
                && r@[i].1 == self.weights()[r@[i].0@] * UNIT / (self@.len() as int),
            forall|l: Seq<char>| self.weights().contains_key(l) ==> exists|i: int| 0 <= i < r.len() && r@[i].0@ == l,
            forall|l: Seq<char>| #[trigger] weight_of(r@, l) == self.frequency(l),
    {
        let mut r: Vec<(String, i64)> = Vec::new();
        let n = self.records.len();
        let mut i: usize = 0;
        proof {
            lemma_table_is_tally(self.counts@, self@);
        }
        while i < self.counts.len()
            invariant
                i <= self.counts.len(),
                r.len() == i,
                self.wf(),
                n == self@.len(),
                forall|k: int| 0 <= k < i ==> r@[k].0@ == self.counts@[k].0@ && r@[k].1 == self.counts@[k].1 * UNIT / (n as int),
            decreases self.counts.len() - i,
        {
            let c = self.counts[i].1;
            proof {
                lemma_occurrences_bound(self@, self.counts@[i as int].0@);
            }
            r.push((self.counts[i].0.clone(), (c as i64) * UNIT / (n as i64)));
            i = i + 1;
        }
        proof {
            assert forall|k: int| 0 <= k < r.len() implies self.weights().contains_key(#[trigger] r@[k].0@)
                && r@[k].1 == self.weights()[r@[k].0@] * UNIT / (self@.len() as int) by {
                lemma_table_at(self.counts@, k);
            }
            assert forall|l: Seq<char>| self.weights().contains_key(l) implies exists|k: int| 0 <= k < r.len() && r@[k].0@ == l by {
                let k = choose|k: int| 0 <= k < self.counts.len() && self.counts@[k].0@ == l;
                assert(r@[k].0@ == l);
            }
            assert forall|l: Seq<char>| #[trigger] weight_of(r@, l) == self.frequency(l) by {
                if exists|k: int| 0 <= k < r.len() && r@[k].0@ == l {
                    let k = choose|k: int| 0 <= k < r.len() && r@[k].0@ == l;
                    assert forall|m: int| 0 <= m < k implies r@[m].0@ != l by {
                        assert(self.counts@[m].0@ != self.counts@[k].0@);
                    }
                    lemma_weight_found(r@, l, 0, k);
                } else {
                    lemma_weight_absent(r@, l, 0);
                }
            }
        }
        r
    }

    /// Appends `action` and counts it; beyond `HISTORY_CAP` entries the oldest is
    /// dropped and uncounted, and a label whose count falls to zero leaves the tally.
    pub fn record(&mut self, action: String)
        requires
            old(self).wf(),
        ensures
            final(self).wf(),
            final(self)@ == window(old(self)@.push(action@)),
            final(self).weights() == tally(final(self)@),
    {
        let ghost h0 = self@;
        let ghost a = action@;
        self.records.push(action.clone());
        let ghost h1 = self@;
        assert(h1 =~= h0.push(a));
        proof {
            lemma_occurrences_push(h0, a);
        }
        match find_label(&self.counts, &action) {
            Some(i) => {
                let c = self.counts[i].1;
                proof {
                    lemma_occurrences_bound(h0, a);
                }
                let ghost ws0 = self.counts@;
                self.counts.set(i, (action, c + 1));
                let ghost ws1 = self.counts@;
                assert forall|j: int| 0 <= j < ws1.len() implies ws1[j].1 > 0 && ws1[j].1
                    == occurrences(h1, #[trigger] ws1[j].0@) by {
                    if j != i {
                        assert(ws0[j].0@ != ws0[i as int].0@);
                    }
                }
                assert forall|l: Seq<char>| occurrences(h1, l) > 0 implies exists|j: int|
                    0 <= j < ws1.len() && ws1[j].0@ == l by {
                    if l == a {
                        assert(ws1[i as int].0@ == l);
                    } else {
                        let j = choose|j: int| 0 <= j < ws0.len() && ws0[j].0@ == l;
                        assert(ws1[j].0@ == l);
                    }
                }
            },
            None => {
                let ghost ws0 = self.counts@;
                proof {
                    if occurrences(h0, a) > 0 {
                        let j = choose|j: int| 0 <= j < ws0.len() && ws0[j].0@ == a;
                        assert(ws0[j].0@ == a);
                    }
                }
                self.counts.push((action, 1));
                let ghost ws1 = self.counts@;
                assert forall|j: int| 0 <= j < ws1.len() implies ws1[j].1 > 0 && ws1[j].1
                    == occurrences(h1, #[trigger] ws1[j].0@) by {
                    if j < ws0.len() {
                        assert(ws0[j].0@ != a);
                    }
                }
                assert forall|l: Seq<char>| occurrences(h1, l) > 0 implies exists|j: int|
                    0 <= j < ws1.len() && ws1[j].0@ == l by {
                    if l == a {
                        assert(ws1[ws0.len() as int].0@ == l);
                    } else {
                        let j = choose|j: int| 0 <= j < ws0.len() && ws0[j].0@ == l;
                        assert(ws1[j].0@ == l);
                    }
                }
            },
        }
        assert(counts_match(self.counts@, h1));
        if self.records.len() > HISTORY_CAP {
            let ghost ws1 = self.counts@;
            let removed = self.records.remove(0);
            let ghost h2 = self@;
            assert(removed@ == h1[0]);
            assert(h2 =~= h1.subrange(1, h1.len() as int));
            assert forall|l: Seq<char>| occurrences(h2, l) == occurrences(h1, l) - if h1[0] == l { 1int } else { 0int } by {
                lemma_occurrences_front(h1, l);
            }
            proof {
                lemma_occurrences_front(h1, h1[0]);
            }
            assert(occurrences(h1, h1[0]) > 0);
            match find_label(&self.counts, &removed) {
                Some(i) => {
                    let c = self.counts[i].1;
                    if c <= 1 {
                        self.counts.remove(i);
                        let ghost ws2 = self.counts@;
                        assert forall|j: int, k: int| 0 <= j < k < ws2.len() implies ws2[j].0@
                            != ws2[k].0@ by {
                            let jj = if j < i { j } else { j + 1 };
                            let kk = if k < i { k } else { k + 1 };
                            assert(ws2[j] == ws1[jj] && ws2[k] == ws1[kk]);
                        }
                        assert forall|j: int| 0 <= j < ws2.len() implies ws2[j].1 > 0 && ws2[j].1
                            == occurrences(h2, #[trigger] ws2[j].0@) by {
                            let jj = if j < i { j } else { j + 1 };
                            assert(ws2[j] == ws1[jj]);
                            assert(ws1[jj].0@ != ws1[i as int].0@);
                        }
                        assert forall|l: Seq<char>| occurrences(h2, l) > 0 implies exists|j: int|
                            0 <= j < ws2.len() && ws2[j].0@ == l by {
                            let j = choose|j: int| 0 <= j < ws1.len() && ws1[j].0@ == l;
                            if j < i {
                                assert(ws2[j].0@ == l);
                            } else {
                                assert(ws2[j - 1].0@ == l);
                            }
                        }
                    } else {
                        self.counts.set(i, (removed, c - 1));
                        let ghost ws2 = self.counts@;
                        assert forall|j: int| 0 <= j < ws2.len() implies ws2[j].1 > 0 && ws2[j].1
                            == occurrences(h2, #[trigger] ws2[j].0@) by {
                            if j != i {
                                assert(ws1[j].0@ != ws1[i as int].0@);
                            }
                        }
                        assert forall|l: Seq<char>| occurrences(h2, l) > 0 implies exists|j: int|
                            0 <= j < ws2.len() && ws2[j].0@ == l by {
                            let j = choose|j: int| 0 <= j < ws1.len() && ws1[j].0@ == l;
                            assert(ws2[j].0@ == l);
                        }
                    }
                },
                None => {
                    proof {
                        let j = choose|j: int| 0 <= j < ws1.len() && ws1[j].0@ == h1[0];
                        assert(ws1[j].0@ == removed@);
                    }
                },
            }
            assert(counts_match(self.counts@, h2));
            assert(h2 =~= window(h0.push(a)));
        }
        proof {
            lemma_table_is_tally(self.counts@, self@);
        }
    }
}

/// A living or dead organism. Sizes, energies and positions are in millionths.
pub struct Organism {
    pub id: String,
    pub position: Position,
    pub size: i64,
    pub traits: OrganismTraits,
    pub energy: i64,
    pub age: u32,
    pub generation: u32,
    pub parent_id: Option<String>,
    pub actions: ActionHistory,
}

impl Organism {
    /// The organism's invariant: its size is at least `MIN_SIZE`, its genes are in
    /// range, and its history is bounded and tallied.
    pub open spec fn wf(&self) -> bool {
        &&& self.size >= MIN_SIZE
        &&& self.traits.wf()
        &&& self.actions.wf()
    }

    /// Everything but the history and its tally is as in `other`.
    pub open spec fn same_state(&self, other: &Organism) -> bool {
        &&& self.id == other.id
        &&& self.position == other.position
        &&& self.size == other.size
        &&& self.traits == other.traits
        &&& self.energy == other.energy
        &&& self.age == other.age
        &&& self.generation == other.generation
        &&& self.parent_id == other.parent_id
    }

    /// A new organism of age zero with an empty history. A size below `MIN_SIZE`
    /// is raised to it.
    pub fn new(
        id: String,
        position: Position,
        size: i64,
        traits: OrganismTraits,
        energy: i64,
        generation: u32,
        parent_id: Option<String>,
    ) -> (r: Organism)
        requires
            traits.wf(),
        ensures
            r.wf(),
            r.id == id,
            r.position == position,
            r.size == if size < MIN_SIZE { MIN_SIZE } else { size },
            r.traits == traits,
            r.energy == energy,
            r.age == 0,
            r.generation == generation,
            r.parent_id == parent_id,
            r.actions@ == Seq::<Seq<char>>::empty(),
    {
        Organism {
            id,
            position,
            size: if size < MIN_SIZE { MIN_SIZE } else { size },
            traits,
            energy,
            age: 0,
            generation,
            parent_id,
            actions: ActionHistory::new(),
        }
    }

    /// Appends `action` to the organism's history (see `ActionHistory::record`).
    pub fn record_action(&mut self, action: String)
        requires
            old(self).wf(),
        ensures
            final(self).wf(),
            final(self).same_state(old(self)),
            final(self).actions@ == window(old(self).actions@.push(action@)),
            final(self).actions.weights() == tally(final(self).actions@),
    {
        self.actions.record(action);
    }

    /// The remembered actions, oldest first.
    pub fn get_actions(&self) -> (r: Vec<String>)
        ensures
            labels(r@) == self.actions@,
    {
        self.actions.actions()
    }

    /// The tally of the remembered actions, as `(label, count)` entries.
    pub fn get_action_weights(&self) -> (r: Vec<(String, u32)>)
        requires
            self.wf(),
        ensures
            distinct_labels(r@),
            forall|i: int| 0 <= i < r.len() ==> self.actions.weights().contains_key(#[trigger] r@[i].0@)
                && self.actions.weights()[r@[i].0@] == r@[i].1 as nat,
            forall|l: Seq<char>| self.actions.weights().contains_key(l) ==> exists|i: int| 0 <= i < r.len() && r@[i].0@ == l,
    {
        self.actions.weight_entries()
    }

    /// Whether the organism has the energy and the gene to reproduce.
    pub open spec fn can_reproduce_spec(&self) -> bool {
        self.energy >= REPRODUCTION_ENERGY && self.traits.reproduction >= REPRODUCTION_GENE
    }

    /// True iff energy is at least 50 and the reproduction gene at least 0.2.
    pub fn can_reproduce(&self) -> (r: bool)
        ensures
            r == self.can_reproduce_spec(),
    {
        self.energy >= REPRODUCTION_ENERGY && self.traits.reproduction >= REPRODUCTION_GENE
    }

    /// `reproduction * energy / 200`, in millionths, rounded down; not capped at one.
    pub fn reproduction_chance(&self) -> (r: i64)
        requires
            self.traits.wf(),
        ensures
            r == chance_spec(self.traits.reproduction as int, self.energy as int),
    {
        let g: i128 = self.traits.reproduction as i128;
        let e: i128 = self.energy as i128;
        assert(-0x1000_0000_0000_0000_0000_0000 <= g * e <= 0x1000_0000_0000_0000_0000_0000) by (nonlinear_arith)
            requires 0 <= g <= 1_000_000, -0x8000_0000_0000_0000 <= e < 0x8000_0000_0000_0000;
        let n: i128 = g * e;
        let d: i128 = 200 * UNIT as i128;
        assert(-0x1000_0000_0000_0000_0000_0000 <= n <= 0x1000_0000_0000_0000_0000_0000) by (nonlinear_arith)
            requires
                0 <= self.traits.reproduction <= 1_000_000,
                -0x8000_0000_0000_0000 <= self.energy < 0x8000_0000_0000_0000,
                n == self.traits.reproduction * self.energy;
        let r: i128 = if n >= 0 {
            n / d
        } else {
            -((-n + d - 1) / d)
        };
        assert(-0x8000_0000_0000_0000 <= r < 0x8000_0000_0000_0000) by (nonlinear_arith)
            requires
                0 <= self.traits.reproduction <= 1_000_000,
                -0x8000_0000_0000_0000 <= self.energy < 0x8000_0000_0000_0000,
                n == self.traits.reproduction * self.energy,
                d == 200_000_000,
                r == chance_spec(self.traits.reproduction as int, self.energy as int);
        r as i64
    }

    /// Subtracts the base metabolic cost, `metabolism * size`.
    pub fn metabolize(&mut self)
        requires
            old(self).wf(),
        ensures
            final(self).wf(),
            final(self).energy == saturate(old(self).energy - metabolic_cost(old(self).traits.metabolism as int, old(self).size as int)),
            final(self).position == old(self).position,
            final(self).id == old(self).id,
            final(self).size == old(self).size,
            final(self).traits == old(self).traits,
            final(self).age == old(self).age,
            final(self).generation == old(self).generation,
            final(self).parent_id == old(self).parent_id,
            final(self).actions == old(self).actions,
    {
        let m: i128 = self.traits.metabolism as i128;
        let sz: i128 = self.size as i128;
        assert(0 <= m * sz <= 0x8000_0000_0000_0000_0000_0000) by (nonlinear_arith)
            requires 0 <= m <= 1_000_000, 0 <= sz < 0x8000_0000_0000_0000;
        let cost: i128 = m * sz / UNIT as i128;
        self.energy = saturate_wide(self.energy as i128 - cost);
    }

    /// Moves a distance of `motility / size * 0.5` in a uniformly drawn horizontal
    /// direction and pays `distance * size * 2` energy. Nothing happens below
    /// `MIN_ACTIVE` motility. Energy may fall to zero or below.
    pub fn move_organism(&mut self, rng: &mut SmallRng)
        requires
            old(self).wf(),
        ensures
            final(self).wf(),
            old(self).traits.motility < MIN_ACTIVE ==> *final(self) == *old(self) && *final(rng) == *old(rng),
            old(self).traits.motility >= MIN_ACTIVE ==> {
                let t = travel(old(self).traits.motility as int, old(self).size as int);
                &&& final(self).energy == saturate(old(self).energy - movement_cost(old(self).traits.motility as int, old(self).size as int))
                &&& final(self).position.y == old(self).position.y
                &&& shifted_within(old(self).position.x, final(self).position.x, t)
                &&& shifted_within(old(self).position.z, final(self).position.z, t)
                &&& exists|dx: int, dz: int| #[trigger] step_of_length(dx, dz, t)
                    && final(self).position.x == saturate(old(self).position.x + dx)
                    && final(self).position.z == saturate(old(self).position.z + dz)
                &&& final(self).actions@ == window(old(self).actions@.push("moved"@))
                &&& final(self).id == old(self).id
                &&& final(self).size == old(self).size
                &&& final(self).traits == old(self).traits
                &&& final(self).age == old(self).age
                &&& final(self).generation == old(self).generation
                &&& final(self).parent_id == old(self).parent_id
            },
    {
        if self.traits.motility < MIN_ACTIVE {
            return;
        }
        let m: i128 = self.traits.motility as i128;
        let sz: i128 = self.size as i128;
        let t: i128 = m * UNIT as i128 / (2 * sz);
        assert(0 <= t <= 1_000_000_000_000) by (nonlinear_arith)
            requires 0 <= m <= 1_000_000, sz >= 100_000, t == m * 1_000_000 / (2 * sz);
        let (a, b, r) = random_direction(rng);
        let dx = scaled_step(a, t, r);
        let dz = scaled_step(b, t, r);
        proof {
            assert(abs(a as int) * abs(a as int) + abs(b as int) * abs(b as int) == a * a + b * b) by (nonlinear_arith);
            lemma_step_length(abs(a as int), abs(b as int), r as int, t as int, abs(dx as int), abs(dz as int));
            assert(abs(dx as int) * abs(dx as int) == dx * dx) by (nonlinear_arith);
            assert(abs(dz as int) * abs(dz as int) == dz * dz) by (nonlinear_arith);
            assert(step_of_length(dx as int, dz as int, t as int));
        }
        let ghost x0 = self.position.x;
        let ghost z0 = self.position.z;
        self.position.x = saturate_wide(self.position.x as i128 + dx);
        self.position.z = saturate_wide(self.position.z as i128 + dz);
        assert(0 <= t * sz <= 0x100_0000_0000_0000_0000_0000_0000) by (nonlinear_arith)
            requires 0 <= t <= 1_000_000_000_000, 0 <= sz < 0x8000_0000_0000_0000;
        assert(0 <= t * sz * 2 <= 0x200_0000_0000_0000_0000_0000_0000) by (nonlinear_arith)
            requires 0 <= t <= 1_000_000_000_000, 0 <= sz < 0x8000_0000_0000_0000;
        let cost: i128 = t * sz * 2 / UNIT as i128;
        self.energy = saturate_wide(self.energy as i128 - cost);
        assert(self.position.x == saturate(x0 + dx as int) && self.position.z == saturate(z0 + dz as int));
        assert(shifted_within(x0, self.position.x, t as int));
        assert(shifted_within(z0, self.position.z, t as int));
        self.record_action(text("moved"));
    }

    /// Gains `photosynthesis * light_level * size * 5` energy, uncapped. Nothing
    /// happens below `MIN_ACTIVE` photosynthesis.
    pub fn process_photosynthesis(&mut self, light_level: i64)
        requires
            old(self).wf(),
            0 <= light_level <= UNIT,
        ensures
            final(self).wf(),
            old(self).traits.photosynthesis < MIN_ACTIVE ==> *final(self) == *old(self),
            old(self).traits.photosynthesis >= MIN_ACTIVE ==> {
                &&& final(self).energy == saturate(old(self).energy + photosynthesis_gain(old(self).traits.photosynthesis as int, light_level as int, old(self).size as int))
                &&& final(self).actions@ == window(old(self).actions@.push("photosynthesis"@))
                &&& final(self).position == old(self).position
                &&& final(self).id == old(self).id
                &&& final(self).size == old(self).size
                &&& final(self).traits == old(self).traits
                &&& final(self).age == old(self).age
                &&& final(self).generation == old(self).generation
                &&& final(self).parent_id == old(self).parent_id
            },
    {
        if self.traits.photosynthesis < MIN_ACTIVE {
            return;
        }
        let p: i128 = self.traits.photosynthesis as i128;
        let l: i128 = light_level as i128;
        let sz: i128 = self.size as i128;
        assert(0 <= p * l <= 1_000_000_000_000) by (nonlinear_arith)
            requires 0 <= p <= 1_000_000, 0 <= l <= 1_000_000;
        let pl: i128 = p * l;
        assert(0 <= pl * sz <= 0x100_0000_0000_0000_0000_0000_0000) by (nonlinear_arith)
            requires 0 <= pl <= 1_000_000_000_000, 0 <= sz < 0x8000_0000_0000_0000;
        assert(p * l * sz * 5 == pl * sz * 5);
        let gain: i128 = p * l * sz * 5 / 1_000_000_000_000;
        self.energy = saturate_wide(self.energy as i128 + gain);
        self.record_action(text("photosynthesis"));
    }
}

/// The reproduction chance in millionths: `reproduction * energy / 200`, rounded down.
pub open spec fn chance_spec(reproduction: int, energy: int) -> int {
    let n = reproduction * energy;
    if n >= 0 {
        n / (200 * UNIT as int)
    } else {
        -((-n + 200 * UNIT as int - 1) / (200 * UNIT as int))
    }
}

/// The energy that metabolism costs per generation: `metabolism * size`.
pub open spec fn metabolic_cost(metabolism: int, size: int) -> int {
    metabolism * size / (UNIT as int)
}

/// How far an organism travels in one move: `motility / size * 0.5`.
pub open spec fn travel(motility: int, size: int) -> int {
    motility * UNIT as int / (2 * size)
}

/// The energy one move costs: `distance * size * 2`.
pub open spec fn movement_cost(motility: int, size: int) -> int {
    travel(motility, size) * size * 2 / (UNIT as int)
}

/// The energy that photosynthesis yields: `photosynthesis * light * size * 5`.
pub open spec fn photosynthesis_gain(photosynthesis: int, light: int, size: int) -> int {
    photosynthesis * light * size * 5 / (UNIT as int * UNIT as int)
}

pub open spec fn abs(v: int) -> int {
    if v < 0 {
        -v
    } else {
        v
    }
}

/// `(dx, dz)` has length `t` up to rounding: its square is at most `129 / 128`
/// of `t * t`, and rounding each component one unit away from zero reaches `t`.
pub open spec fn step_of_length(dx: int, dz: int, t: int) -> bool {
    &&& 128 * (dx * dx + dz * dz) <= 129 * (t * t)
    &&& (abs(dx) + 1) * (abs(dx) + 1) + (abs(dz) + 1) * (abs(dz) + 1) > t * t
}

/// Scaling a direction of rounded length `r >= 512` by `t / r`, component by
/// component and rounded toward zero, gives a step of length `t`.
proof fn lemma_step_length(a: int, b: int, r: int, t: int, x: int, z: int)
    requires
        r >= 512,
        t >= 0,
        0 <= a && 0 <= b && 0 <= x && 0 <= z,
        r * r <= a * a + b * b < (r + 1) * (r + 1),
        x * r <= a * t < (x + 1) * r,
        z * r <= b * t < (z + 1) * r,
    ensures
        128 * (x * x + z * z) <= 129 * (t * t),
        (x + 1) * (x + 1) + (z + 1) * (z + 1) > t * t,
{
    let n = a * a + b * b;
    let r2 = r * r;
    let t2 = t * t;
    let q = (r + 1) * (r + 1);
    let p = x * x + z * z;
    assert(x * x * r2 <= a * a * t2) by (nonlinear_arith)
        requires 0 <= x * r <= a * t, r2 == r * r, t2 == t * t;
    assert(z * z * r2 <= b * b * t2) by (nonlinear_arith)
        requires 0 <= z * r <= b * t, r2 == r * r, t2 == t * t;
    assert(p * r2 <= n * t2) by (nonlinear_arith)
        requires
            x * x * r2 <= a * a * t2,
            z * z * r2 <= b * b * t2,
            p == x * x + z * z,
            n == a * a + b * b;
    assert(n * t2 <= q * t2) by (nonlinear_arith)
        requires n < q, t2 >= 0;
    assert(128 * q <= 129 * r2) by (nonlinear_arith)
        requires r >= 512, q == (r + 1) * (r + 1), r2 == r * r;
    assert(128 * (q * t2) <= 129 * (r2 * t2)) by (nonlinear_arith)
        requires 128 * q <= 129 * r2, t2 >= 0;
    assert(128 * p * r2 <= 129 * t2 * r2) by (nonlinear_arith)
        requires p * r2 <= n * t2, n * t2 <= q * t2, 128 * (q * t2) <= 129 * (r2 * t2);
    assert(128 * p <= 129 * t2) by (nonlinear_arith)
        requires 128 * p * r2 <= 129 * t2 * r2, r2 > 0;
    assert((x + 1) * (x + 1) * (r * r) > a * a * (t * t) || a * t == 0) by (nonlinear_arith)
        requires 0 <= a * t < (x + 1) * r;
    assert((x + 1) * (x + 1) * (r * r) >= a * a * (t * t)) by (nonlinear_arith)
        requires 0 <= a * t < (x + 1) * r;
    assert((z + 1) * (z + 1) * (r * r) >= b * b * (t * t)) by (nonlinear_arith)
        requires 0 <= b * t < (z + 1) * r;
    assert((z + 1) * (z + 1) * (r * r) > b * b * (t * t)) by (nonlinear_arith)
        requires 0 <= b * t < (z + 1) * r, r >= 1;
    assert(((x + 1) * (x + 1) + (z + 1) * (z + 1)) * (r * r) > (t * t) * (r * r)) by (nonlinear_arith)
        requires
            (x + 1) * (x + 1) * (r * r) >= a * a * (t * t),
            (z + 1) * (z + 1) * (r * r) > b * b * (t * t),
            r * r <= a * a + b * b,
            t >= 0;
    assert((x + 1) * (x + 1) + (z + 1) * (z + 1) > t * t) by (nonlinear_arith)
        requires ((x + 1) * (x + 1) + (z + 1) * (z + 1)) * (r * r) > (t * t) * (r * r), r >= 1;
}

/// The radius of the square that candidate directions are drawn from.
pub const DIRECTION_RADIUS: i64 = 1024;

/// The number of candidate directions tried before falling back to the x axis.
pub const DIRECTION_TRIES: u32 = 64;

/// A uniformly drawn horizontal direction `(a, b)` of length about `r`: a point of
/// the ring between radii `DIRECTION_RADIUS / 2` and `DIRECTION_RADIUS`, by
/// rejection, so that `r`, its length rounded down, is within a fraction of a
/// percent of the exact length.
fn random_direction(rng: &mut SmallRng) -> (r: (i128, i128, i128))
    ensures
        DIRECTION_RADIUS / 2 <= r.2 <= DIRECTION_RADIUS,
        -r.2 <= r.0 <= r.2,
        -r.2 <= r.1 <= r.2,
        is_floor_sqrt(r.0 * r.0 + r.1 * r.1, r.2 as int),
{
    let mut tries: u32 = 0;
    while tries < DIRECTION_TRIES
        decreases DIRECTION_TRIES - tries,
    {
        let a: i128 = draw_below(rng, (2 * DIRECTION_RADIUS + 1) as u64) as i128 - DIRECTION_RADIUS as i128;
        let b: i128 = draw_below(rng, (2 * DIRECTION_RADIUS + 1) as u64) as i128 - DIRECTION_RADIUS as i128;
        assert(0 <= a * a <= 1_048_576 && 0 <= b * b <= 1_048_576) by (nonlinear_arith)
            requires -1024 <= a <= 1024, -1024 <= b <= 1024;
        let n: i128 = a * a + b * b;
        if n >= (DIRECTION_RADIUS * DIRECTION_RADIUS / 4) as i128 && n <= (DIRECTION_RADIUS * DIRECTION_RADIUS) as i128 {
            let root = floor_sqrt(n as u128);
            assert(root <= 1024) by (nonlinear_arith)
                requires root * root <= n, n <= 1_048_576, root >= 0;
            let r = root as i128;
            assert(r <= DIRECTION_RADIUS);
            assert(r >= 512) by (nonlinear_arith)
                requires n >= 262_144, n < (r + 1) * (r + 1), r >= 0;
            assert(r >= 1 && -r <= a <= r && -r <= b <= r) by (nonlinear_arith)
                requires
                    n == a * a + b * b,
                    n >= 1,
                    r * r <= n,
                    n < (r + 1) * (r + 1),
                    r >= 0;
            return (a, b, r);
        }
        tries = tries + 1;
    }
    assert(is_floor_sqrt(512int * 512 + 0int * 0, 512));
    (512, 0, 512)
}

proof fn lemma_floor_division(v: int, r: int)
    requires
        v >= 0,
        r >= 1,
    ensures
        (v / r) * r <= v < (v / r + 1) * r,
        v / r >= 0,
{
    vstd::arithmetic::div_mod::lemma_fundamental_div_mod(v, r);
    vstd::arithmetic::div_mod::lemma_mod_bound(v, r);
    let q = v / r;
    let m = v % r;
    assert(q * r <= v < (q + 1) * r) by (nonlinear_arith)
        requires v == r * q + m, 0 <= m < r;
    vstd::arithmetic::div_mod::lemma_div_pos_is_pos(v, r);
}

/// `a / r` of the distance `t`, rounded toward zero.
fn scaled_step(a: i128, t: i128, r: i128) -> (d: i128)
    requires
        1 <= r <= DIRECTION_RADIUS,
        -r <= a <= r,
        0 <= t <= 1_000_000_000_000,
    ensures
        -t <= d <= t,
        (a >= 0) == (d >= 0) || d == 0,
        abs(d as int) * r <= abs(a as int) * t < (abs(d as int) + 1) * r,
{
    if a >= 0 {

        assert(0 <= a * t <= 1024 * 1_000_000_000_000) by (nonlinear_arith)
            requires 0 <= a <= 1024, 0 <= t <= 1_000_000_000_000;
        assert(0 <= (a as int) * (t as int) / (r as int) <= t) by (nonlinear_arith)
            requires r >= 1, 0 <= a <= r, 0 <= t;
        let q = a * t / r;
        proof {
            lemma_floor_division((a * t) as int, r as int);
        }
        q
    } else {
        assert(0 <= (-a) * t <= 1024 * 1_000_000_000_000) by (nonlinear_arith)
            requires 0 <= -a <= 1024, 0 <= t <= 1_000_000_000_000;

        assert(0 <= (-a as int) * (t as int) / (r as int) <= t) by (nonlinear_arith)
            requires r >= 1, 0 < -a <= r, 0 <= t;
        let q = (-a) * t / r;
        proof {
            lemma_floor_division(((-a) * t) as int, r as int);
        }
        -q
    }
}

/// The decimal digits of `n`, most significant first.
pub open spec fn decimal(n: nat) -> Seq<char>
    decreases n,
{
    if n < 10 {
        seq![digit(n)]
    } else {
        decimal(n / 10).push(digit(n % 10))
    }
}

pub open spec fn digit(d: nat) -> char {
    "0123456789"@[d as int]
}

/// The id given to the organism allocated `n`-th.
pub open spec fn organism_name(n: nat) -> Seq<char> {
    "organism-"@ + decimal(n)
}

/// Relies on std's `format!` with `Display` for `u64`, which writes a number in
/// decimal digits with no sign or padding after the given text.
#[verifier::external_body]
fn with_number(prefix: &str, n: u64) -> (r: String)
    ensures
        r@ == prefix@ + decimal(n as nat),
{
    format!("{}{}", prefix, n)
}

/// The id of the organism allocated `n`-th: "organism-" and `n` in decimal.
pub fn organism_id(n: u64) -> (r: String)
    ensures
        r@ == organism_name(n as nat),
{
    with_number("organism-", n)
}

/// The largest horizontal offset of an offspring from its parent: 0.25.
pub const JITTER: i64 = 250_000;

/// The offspring size factor is drawn from `[SIZE_FACTOR_LOW, SIZE_FACTOR_LOW + SIZE_FACTOR_SPAN)`.
pub const SIZE_FACTOR_LOW: i64 = 800_000;

pub const SIZE_FACTOR_SPAN: i64 = 400_000;

/// An offspring's size: the parent's scaled by `factor`, no smaller than `MIN_SIZE`.
pub open spec fn offspring_size(size: int, factor: int) -> int {
    let s = saturate(size * factor / (UNIT as int));
    if s < MIN_SIZE {
        MIN_SIZE as int
    } else {
        s
    }
}

pub open spec fn next_generation(g: u32) -> u32 {
    if g < u32::MAX {
        (g + 1) as u32
    } else {
        g
    }
}

/// Whether reproduction is certain: the chance `reproduction * energy / 200` is at least one.
pub open spec fn certain_to_reproduce(o: &Organism) -> bool {
    o.traits.reproduction * o.energy >= 200 * UNIT as int * UNIT as int
}

/// Whether a reproduction draw `draw` (a uniform value in millionths) succeeds for
/// `o` when `next_id` is the next id: `o` can reproduce, the draw falls below its
/// chance `reproduction * energy / 200`, and ids are not exhausted.
pub open spec fn reproduction_succeeds_spec(o: &Organism, draw: int, next_id: int) -> bool {
    &&& o.can_reproduce_spec()
    &&& draw * 200 * UNIT < o.traits.reproduction * o.energy
    &&& next_id < u64::MAX
}

impl Organism {
    /// Whether reproduction happens with the uniform draw `draw`, in millionths.
    pub fn reproduction_succeeds(&self, draw: u64, next_id: u64) -> (r: bool)
        requires
            self.traits.wf(),
            draw < UNIT,
        ensures
            r == reproduction_succeeds_spec(self, draw as int, next_id as int),
    {
        if !self.can_reproduce() || next_id == u64::MAX {
            return false;
        }
        let d: i128 = draw as i128;
        let g: i128 = self.traits.reproduction as i128;
        let e: i128 = self.energy as i128;
        assert(0 <= g * e <= 0x1000_0000_0000_0000_0000_0000) by (nonlinear_arith)
            requires 0 <= g <= 1_000_000, 0 <= e < 0x8000_0000_0000_0000;
        assert(0 <= d * 200 * (UNIT as i128) <= 200_000_000_000_000) by (nonlinear_arith)
            requires 0 <= d < 1_000_000;
        d * 200 * (UNIT as i128) < g * e
    }

    /// The offspring built from the parent's state, its id, its mutated traits, the
    /// two position jitters in `[-JITTER, JITTER)` and the size factor in
    /// `[SIZE_FACTOR_LOW, SIZE_FACTOR_LOW + SIZE_FACTOR_SPAN)`.
    pub fn build_offspring(
        &self,
        id: String,
        traits: OrganismTraits,
        jitter_x: i64,
        jitter_z: i64,
        factor: i64,
    ) -> (c: Organism)
        requires
            self.wf(),
            self.energy >= 0,
            traits.wf(),
            -JITTER <= jitter_x < JITTER,
            -JITTER <= jitter_z < JITTER,
            SIZE_FACTOR_LOW <= factor < SIZE_FACTOR_LOW + SIZE_FACTOR_SPAN,
        ensures
            c.wf(),
            c.id == id,
            c.position.x == saturate(self.position.x + jitter_x),
            c.position.y == self.position.y,
            c.position.z == saturate(self.position.z + jitter_z),
            c.size == offspring_size(self.size as int, factor as int),
            c.traits == traits,
            c.energy == self.energy * 3 / 10,
            c.age == 0,
            c.generation == next_generation(self.generation),
            c.parent_id == Some(self.id),
            c.actions@ == Seq::<Seq<char>>::empty(),
    {
        let position = Position::new(
            saturate_wide(self.position.x as i128 + jitter_x as i128),
            self.position.y,
            saturate_wide(self.position.z as i128 + jitter_z as i128),
        );
        let sz: i128 = self.size as i128;
        let f: i128 = factor as i128;
        assert(0 <= sz * f <= 0x1000_0000_0000_0000_0000_0000) by (nonlinear_arith)
            requires 0 <= sz < 0x8000_0000_0000_0000, 0 <= f <= 1_200_000;
        let size = saturate_wide(sz * f / UNIT as i128);
        let size = if size < MIN_SIZE { MIN_SIZE } else { size };
        let parent_id = self.id.clone();
        Organism::new(
            id,
            position,
            size,
            traits,
            self.energy / 10 * 3 + self.energy % 10 * 3 / 10,
            if self.generation < u32::MAX { self.generation + 1 } else { self.generation },
            Some(parent_id),
        )
    }

    /// Step 6 of a generation. If the organism can reproduce and a uniform draw falls
    /// below its reproduction chance, allocates the next id and returns an offspring:
    /// traits mutated under the normalised action history, placed within `JITTER` of
    /// the parent on x and z, size scaled by a factor in `[0.8, 1.2)` (and floored at
    /// `MIN_SIZE`, as at construction), 30% of the parent's energy, one generation
    /// deeper. The parent keeps 70% of its energy and records "reproduced".
    pub fn reproduce(&mut self, rng: &mut SmallRng, next_id: &mut u64) -> (r: Option<Organism>)
        requires
            old(self).wf(),
        ensures
            final(self).wf(),
            r is Some ==> old(self).can_reproduce_spec(),
            !old(self).can_reproduce_spec() ==> *final(rng) == *old(rng),
            r is None ==> *final(self) == *old(self) && *final(next_id) == *old(next_id),
            old(self).can_reproduce_spec() && certain_to_reproduce(old(self)) && *old(next_id) < u64::MAX
                ==> r is Some,
            exists|d: int| 0 <= d < UNIT && (r is Some <==> #[trigger] reproduction_succeeds_spec(old(self), d, *old(next_id) as int)),
            r matches Some(c) ==> {
                &&& c.wf()
                &&& c.id@ == organism_name(*old(next_id) as nat)
                &&& *final(next_id) == *old(next_id) + 1
                &&& c.energy == old(self).energy * 3 / 10
                &&& final(self).energy == old(self).energy * 7 / 10
                &&& c.generation == next_generation(old(self).generation)
                &&& c.parent_id == Some(old(self).id)
                &&& c.age == 0
                &&& c.actions@ == Seq::<Seq<char>>::empty()
                &&& c.position.y == old(self).position.y
                &&& shifted_within(old(self).position.x, c.position.x, JITTER as int)
                &&& shifted_within(old(self).position.z, c.position.z, JITTER as int)
                &&& exists|f: int| SIZE_FACTOR_LOW <= f < SIZE_FACTOR_LOW + SIZE_FACTOR_SPAN
                    && c.size == #[trigger] offspring_size(old(self).size as int, f)
                &&& exists|ws: Seq<(String, i64)>| #[trigger] old(self).traits.mutates_to(c.traits, ws)
                    && forall|l: Seq<char>| #[trigger] weight_of(ws, l) == old(self).actions.frequency(l)
                &&& final(self).actions@ == window(old(self).actions@.push("reproduced"@))
                &&& final(self).position == old(self).position
                &&& final(self).id == old(self).id
                &&& final(self).size == old(self).size
                &&& final(self).traits == old(self).traits
                &&& final(self).age == old(self).age
                &&& final(self).generation == old(self).generation
                &&& final(self).parent_id == old(self).parent_id
            },
    {
        if !self.can_reproduce() {
            assert(!reproduction_succeeds_spec(self, 0, *next_id as int));
            return None;
        }
        let draw = draw_below(rng, UNIT as u64);
        if !self.reproduction_succeeds(draw, *next_id) {
            return None;
        }
        let id = organism_id(*next_id);
        *next_id = *next_id + 1;
        let frequencies = self.actions.frequencies();
        let traits = self.traits.mutate(rng, &frequencies);
        let jx = draw_below(rng, (2 * JITTER) as u64) as i64 - JITTER;
        let jz = draw_below(rng, (2 * JITTER) as u64) as i64 - JITTER;
        let factor = SIZE_FACTOR_LOW + draw_below(rng, SIZE_FACTOR_SPAN as u64) as i64;
        let child = self.build_offspring(id, traits, jx, jz, factor);
        assert(shifted_within(self.position.x, child.position.x, JITTER as int));
        assert(shifted_within(self.position.z, child.position.z, JITTER as int));
        self.energy = self.energy / 10 * 7 + self.energy % 10 * 7 / 10;
        self.record_action(text("reproduced"));
        Some(child)
    }
}

/// What the outside sees of an organism: everything but its action history.
#[derive(Debug)]
pub struct OrganismSnapshot {
    pub id: String,
    pub position: Position,
    pub size: i64,
    pub traits: OrganismTraits,
    pub energy: i64,
    pub age: u32,
    pub generation: u32,
    pub parent_id: Option<String>,
}

impl OrganismSnapshot {
    /// The snapshot shows `o` as it is.
    pub open spec fn shows(&self, o: &Organism) -> bool {
        &&& self.id == o.id
        &&& self.position == o.position
        &&& self.size == o.size
        &&& self.traits == o.traits
        &&& self.energy == o.energy
        &&& self.age == o.age
        &&& self.generation == o.generation
        &&& self.parent_id == o.parent_id
    }
}

impl Organism {
    /// A fresh copy of the organism's public state.
    pub fn snapshot(&self) -> (r: OrganismSnapshot)
        ensures
            r.shows(self),
    {
        let parent_id = match &self.parent_id {
            Some(p) => Some(p.clone()),
            None => None,
        };
        OrganismSnapshot {
            id: self.id.clone(),
            position: self.position,
            size: self.size,
            traits: self.traits,
            energy: self.energy,
            age: self.age,
            generation: self.generation,
            parent_id,
        }
    }
}

} // verus!
