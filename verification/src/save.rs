//! What the game keeps between sessions: best scores, the last solution of
//! each level, and the music volume.

use vstd::prelude::*;
use bevy::platform::collections::HashMap;
use bevy::platform::hash::FixedHasher;
use crate::geom::RoadSegment;
use vstd::set::fold::{is_fun_commutative, lemma_fold_insert, lemma_fold_empty};

verus! {

#[verifier::external_type_specification]
#[verifier::external_body]
#[verifier::reject_recursive_types(K)]
#[verifier::reject_recursive_types(V)]
#[verifier::reject_recursive_types(S)]
pub struct ExHashMap<K, V, S>(HashMap<K, V, S>);

#[verifier::external_type_specification]
#[verifier::external_body]
pub struct ExFixedHasher(FixedHasher);

/// The best score of each level, by level number, that a table holds.
pub uninterp spec fn score_table(m: HashMap<u32, u32>) -> Map<u32, u32>;

/// The segments of the saved solution of each level, by level number, that a
/// table holds.
pub uninterp spec fn solution_table(m: HashMap<u32, Solution>) -> Map<u32, Seq<RoadSegment>>;

/// `HashMap::new`: an empty table of scores.
#[verifier::external_body]
fn scores_new() -> (r: HashMap<u32, u32>)
    ensures
        score_table(r).dom() == Set::<u32>::empty(),
{
    HashMap::new()
}

/// `HashMap::get`: the score held for `level`, if any.
#[verifier::external_body]
fn scores_get(m: &HashMap<u32, u32>, level: u32) -> (r: Option<u32>)
    ensures
        r == (if score_table(*m).dom().contains(level) {
            Some(score_table(*m)[level])
        } else {
            None
        }),
{
    m.get(&level).copied()
}

/// `HashMap::insert`: holds `score` for `level`, replacing what was held.
#[verifier::external_body]
fn scores_insert(m: &mut HashMap<u32, u32>, level: u32, score: u32)
    ensures
        score_table(*final(m)) == score_table(*old(m)).insert(level, score),
{
    m.insert(level, score);
}

/// `HashMap::iter`: every level and its score, each once, in the table's own
/// order.
#[verifier::external_body]
fn scores_entries(m: &HashMap<u32, u32>) -> (r: Vec<(u32, u32)>)
    ensures
        r@.map_values(|e: (u32, u32)| e.0).no_duplicates(),
        forall|i: int| 0 <= i < r@.len() ==> score_table(*m).dom().contains(#[trigger] r@[i].0) && score_table(*m)[r@[i].0] == r@[i].1,
        forall|k: u32| #[trigger] score_table(*m).dom().contains(k) ==> exists|i: int| 0 <= i < r@.len() && r@[i].0 == k,
{
    m.iter().map(|(k, v)| (*k, *v)).collect()
}

/// `HashMap::new`: an empty table of solutions.
#[verifier::external_body]
fn solutions_new() -> (r: HashMap<u32, Solution>)
    ensures
        solution_table(r).dom() == Set::<u32>::empty(),
{
    HashMap::new()
}

/// `HashMap::get`: the solution held for `level`, if any.
#[verifier::external_body]
fn solutions_get(m: &HashMap<u32, Solution>, level: u32) -> (r: Option<&Solution>)
    ensures
        r is Some == solution_table(*m).dom().contains(level),
        r matches Some(s) ==> s.segments@ == solution_table(*m)[level],
{
    m.get(&level)
}

/// `HashMap::insert`: holds `solution` for `level`, replacing what was held.
#[verifier::external_body]
fn solutions_insert(m: &mut HashMap<u32, Solution>, level: u32, solution: Solution)
    ensures
        solution_table(*final(m)) == solution_table(*old(m)).insert(level, solution.segments@),
{
    m.insert(level, solution);
}

/// The best score reached on each level, by level number.
pub struct BestScores(pub HashMap<u32, u32>);

impl View for BestScores {
    type V = Map<u32, u32>;

    open spec fn view(&self) -> Map<u32, u32> {
        score_table(self.0)
    }
}

/// The table after recording `score` for `level`: it becomes the best score
/// of the level when the level has none or a lower one.
pub open spec fn record_spec(m: Map<u32, u32>, level: u32, score: u32) -> Map<u32, u32> {
    if m.dom().contains(level) && m[level] >= score {
        m
    } else {
        m.insert(level, score)
    }
}

impl BestScores {
    pub fn new() -> (s: Self)
        ensures
            s@ == Map::<u32, u32>::empty(),
    {
        let r = BestScores(scores_new());
        assert(r@ =~= Map::<u32, u32>::empty());
        r
    }

    /// The best score of `level`, if it has one.
    pub fn best(&self, level: u32) -> (r: Option<u32>)
        ensures
            r == (if self@.dom().contains(level) {
                Some(self@[level])
            } else {
                None
            }),
    {
        scores_get(&self.0, level)
    }

    /// Records a score reached on `level`.
    pub fn record(&mut self, level: u32, score: u32)
        ensures
            final(self)@ == record_spec(old(self)@, level, score),
    {
        match scores_get(&self.0, level) {
            Some(best) => {
                if best < score {
                    scores_insert(&mut self.0, level, score);
                }
            },
            None => {
                scores_insert(&mut self.0, level, score);
            },
        }
    }
}

/// The sum of the best scores of all levels.
pub open spec fn total_score_spec(m: Map<u32, u32>) -> int {
    m.dom().fold(0int, |acc: int, k: u32| acc + m[k])
}

impl BestScores {
    /// The sum of the best scores of all levels, when it fits in a `u32`.
    pub fn total(&self) -> (r: Option<u32>)
        ensures
            r == (if total_score_spec(self@) <= u32::MAX {
                Some(total_score_spec(self@) as u32)
            } else {
                None
            }),
    {
        let entries = scores_entries(&self.0);
        let ghost m = self@;
        let ghost f = |acc: int, k: u32| acc + m[k];
        let ghost keys = entries@.map_values(|e: (u32, u32)| e.0);
        assert(is_fun_commutative(f));
        let mut acc: u32 = 0;
        let mut overflow = false;
        let mut i: usize = 0;
        proof {
            assert(keys.take(0).to_set() =~= Set::<u32>::empty());
            lemma_fold_empty::<u32, int>(0int, f);
        }
        while i < entries.len()
            invariant
                i <= entries.len(),
                keys == entries@.map_values(|e: (u32, u32)| e.0),
                keys.no_duplicates(),
                f == (|acc: int, k: u32| acc + m[k]),
                is_fun_commutative(f),
                forall|j: int| 0 <= j < entries@.len() ==> m.dom().contains(#[trigger] entries@[j].0) && m[entries@[j].0] == entries@[j].1,
                keys.take(i as int).to_set().finite(),
                !overflow ==> acc == keys.take(i as int).to_set().fold(0int, f),
                overflow ==> keys.take(i as int).to_set().fold(0int, f) > u32::MAX,
                keys.take(i as int).to_set().fold(0int, f) >= 0,
            decreases entries.len() - i,
        {
            let ghost s0 = keys.take(i as int).to_set();
            let ghost k = keys[i as int];
            proof {
                assert(keys.take(i + 1) =~= keys.take(i as int).push(k));
                keys.take(i as int).lemma_push_to_set_commute(k);
                assert(keys.take(i + 1).to_set() =~= s0.insert(k));
                assert(!s0.contains(k)) by {
                    if s0.contains(k) {
                        let j = choose|j: int| 0 <= j < i && keys.take(i as int)[j] == k;
                        assert(keys[j] == keys[i as int]);
                    }
                }
                lemma_fold_insert::<u32, int>(s0, 0int, f, k);
                assert(s0.insert(k).finite());
                assert(entries@[i as int].1 == m[k]);
            }
            let v = entries[i].1;
            if !overflow {
                match acc.checked_add(v) {
                    Some(next) => {
                        acc = next;
                    },
                    None => {
                        overflow = true;
                    },
                }
            }
            i = i + 1;
        }
        proof {
            assert(keys.take(entries@.len() as int) =~= keys);
            assert(keys.to_set() =~= m.dom()) by {
                assert forall|k: u32| keys.to_set().contains(k) implies m.dom().contains(k) by {
                    let j = choose|j: int| 0 <= j < keys.len() && keys[j] == k;
                    assert(m.dom().contains(entries@[j].0));
                }
                assert forall|k: u32| m.dom().contains(k) implies keys.to_set().contains(k) by {
                    let j = choose|j: int| 0 <= j < entries@.len() && entries@[j].0 == k;
                    assert(keys[j] == k);
                }
            }
        }
        if overflow {
            None
        } else {
            Some(acc)
        }
    }
}

impl Default for BestScores {
    fn default() -> (s: Self)
        ensures
            s@ == Map::<u32, u32>::empty(),
    {
        Self::new()
    }
}

/// Recording a score never lowers the best score of a level, leaves the other
/// levels alone, and leaves the level's best score at least as high as the
/// recorded one (equal to the higher of the two).
pub proof fn lemma_record_keeps_best(m: Map<u32, u32>, level: u32, score: u32)
    ensures
        ({
            let r = record_spec(m, level, score);
            &&& r.dom() == m.dom().insert(level)
            &&& r[level] == (if m.dom().contains(level) && m[level] > score {
                m[level]
            } else {
                score
            })
            &&& forall|l: u32| #[trigger] m.dom().contains(l) ==> r[l] >= m[l]
            &&& forall|l: u32| l != level ==> #[trigger] r.dom().contains(l) == m.dom().contains(l) && (m.dom().contains(l) ==> r[l] == m[l])
        }),
{
    let r = record_spec(m, level, score);
    if m.dom().contains(level) && m[level] >= score {
        assert(m.dom().insert(level) =~= m.dom());
    }
    assert(r.dom() =~= m.dom().insert(level));
}

/// The road segments of a saved solution.
pub struct Solution {
    pub segments: Vec<RoadSegment>,
}

/// The last solution drawn on each level, by level number.
pub struct Solutions(pub HashMap<u32, Solution>);

impl View for Solutions {
    type V = Map<u32, Seq<RoadSegment>>;

    open spec fn view(&self) -> Map<u32, Seq<RoadSegment>> {
        solution_table(self.0)
    }
}

impl Solutions {
    pub fn new() -> (s: Self)
        ensures
            s@ == Map::<u32, Seq<RoadSegment>>::empty(),
    {
        let r = Solutions(solutions_new());
        assert(r@ =~= Map::<u32, Seq<RoadSegment>>::empty());
        r
    }

    /// The saved solution of `level`, if any.
    pub fn get(&self, level: u32) -> (r: Option<&Solution>)
        ensures
            r is Some == self@.dom().contains(level),
            r matches Some(s) ==> s.segments@ == self@[level],
    {
        solutions_get(&self.0, level)
    }

    /// Saves the road segments on the field as the solution of `level`.
    pub fn save(&mut self, level: u32, segments: Vec<RoadSegment>)
        ensures
            final(self)@ == old(self)@.insert(level, segments@),
    {
        solutions_insert(&mut self.0, level, Solution { segments });
    }
}

impl Default for Solutions {
    fn default() -> (s: Self)
        ensures
            s@ == Map::<u32, Seq<RoadSegment>>::empty(),
    {
        Self::new()
    }
}

/// The music volume, in percent.
#[derive(Clone, Copy, Debug, PartialEq, Eq, Structural)]
pub struct MusicVolume(pub u8);

impl Default for MusicVolume {
    fn default() -> (s: Self)
        ensures
            s.0 == 50,
    {
        MusicVolume(50)
    }
}

impl MusicVolume {
    pub fn is_muted(&self) -> (r: bool)
        ensures
            r == (self.0 == 0),
    {
        self.0 == 0
    }

    /// The volume after pressing "up": 10 more, at most 100.
    pub fn raised(&self) -> (r: MusicVolume)
        requires
            self.0 + 10 <= u8::MAX,
        ensures
            r.0 == (if self.0 + 10 < 100 { self.0 + 10 } else { 100 }),
    {
        let v = self.0 + 10;
        MusicVolume(if v < 100 { v } else { 100 })
    }

    /// The volume after pressing "down": 10 less, at least 0.
    pub fn lowered(&self) -> (r: MusicVolume)
        ensures
            r.0 == (if self.0 >= 10 { self.0 - 10 } else { 0 }),
    {
        MusicVolume(if self.0 >= 10 { self.0 - 10 } else { 0 })
    }
}


/// What to do with the game music after the volume changed.
#[derive(Clone, Copy, Debug, PartialEq, Eq, Structural)]
pub enum MusicAction {
    /// Start playing it.
    Start,
    /// Stop playing it.
    Stop,
    /// Play it at the new volume.
    SetVolume,
    /// Nothing: it is muted and not playing.
    Nothing,
}

/// What a change of the music volume does to the music, given whether it is
/// playing.
pub fn music_action(volume: MusicVolume, playing: bool) -> (r: MusicAction)
    ensures
        r == (if volume.0 == 0 {
            if playing {
                MusicAction::Stop
            } else {
                MusicAction::Nothing
            }
        } else if playing {
            MusicAction::SetVolume
        } else {
            MusicAction::Start
        }),
{
    match (volume.is_muted(), !playing) {
        (false, true) => MusicAction::Start,
        (true, false) => MusicAction::Stop,
        (false, false) => MusicAction::SetVolume,
        (true, true) => MusicAction::Nothing,
    }
}

} // verus!
