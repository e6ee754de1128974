//! How pixies that see another pixie ahead on their road react: pixies of
//! different colors that come too close annihilate, a pixie is drawn towards
//! a pixie of another color, and a pixie slows down behind a pixie of its own
//! color.

use vstd::prelude::*;
use bevy::platform::collections::{HashMap, HashSet};
use crate::road_drawing::EntityId;

verus! {

#[verifier::external_type_specification]
#[verifier::external_body]
#[verifier::reject_recursive_types(T)]
#[verifier::reject_recursive_types(S)]
pub struct ExHashSet<T, S>(HashSet<T, S>);

/// The entities a set holds.
pub uninterp spec fn id_set(s: HashSet<EntityId>) -> Set<EntityId>;

/// Who follows whom in a table of followers: pixie to lead.
pub uninterp spec fn id_map(m: HashMap<EntityId, EntityId>) -> Map<EntityId, EntityId>;

/// `HashSet::new`: a set that holds no entity.
#[verifier::external_body]
pub(crate) fn id_set_new() -> (r: HashSet<EntityId>)
    ensures
        id_set(r) == Set::<EntityId>::empty(),
{
    HashSet::new()
}

/// `HashSet::contains`: whether the set holds `x`.
#[verifier::external_body]
pub(crate) fn id_set_contains(s: &HashSet<EntityId>, x: EntityId) -> (r: bool)
    ensures
        r == id_set(*s).contains(x),
{
    s.contains(&x)
}

/// `HashSet::insert`: the set comes to hold `x`; says whether it did not
/// hold it before.
#[verifier::external_body]
pub(crate) fn id_set_insert(s: &mut HashSet<EntityId>, x: EntityId) -> (r: bool)
    ensures
        id_set(*final(s)) == id_set(*old(s)).insert(x),
        r == !id_set(*old(s)).contains(x),
{
    s.insert(x)
}

/// `HashSet::clear`: the set comes to hold nothing.
#[verifier::external_body]
pub(crate) fn id_set_clear(s: &mut HashSet<EntityId>)
    ensures
        id_set(*final(s)) == Set::<EntityId>::empty(),
{
    s.clear();
}

/// `HashMap::new`: a table that holds no follower.
#[verifier::external_body]
fn id_map_new() -> (r: HashMap<EntityId, EntityId>)
    ensures
        id_map(r).dom() == Set::<EntityId>::empty(),
{
    HashMap::new()
}

/// `HashMap::get`: the lead held for `key`, if any.
#[verifier::external_body]
fn id_map_get(m: &HashMap<EntityId, EntityId>, key: EntityId) -> (r: Option<EntityId>)
    ensures
        r == (if id_map(*m).dom().contains(key) {
            Some(id_map(*m)[key])
        } else {
            None
        }),
{
    m.get(&key).copied()
}

/// `HashMap::insert`: holds `value` for `key`, replacing what was held.
#[verifier::external_body]
fn id_map_insert(m: &mut HashMap<EntityId, EntityId>, key: EntityId, value: EntityId)
    ensures
        id_map(*final(m)) == id_map(*old(m)).insert(key, value),
{
    m.insert(key, value);
}

/// A pixie and the nearest pixie it sees ahead of it on its road.
#[derive(Clone, Copy, Debug)]
pub struct Encounter {
    pub pixie: EntityId,
    pub lead: EntityId,
    /// The two pixies have the same color.
    pub same_color: bool,
    /// The lead is within annihilation distance.
    pub within_explosion_distance: bool,
}

/// A pixie that follows (`attractor == false`) or is drawn towards
/// (`attractor == true`) its lead; `encounter` indexes the encounter it comes
/// from.
#[derive(Clone, Copy, Debug, PartialEq, Eq, Structural)]
pub struct Following {
    pub pixie: EntityId,
    pub lead: EntityId,
    pub attractor: bool,
    pub encounter: usize,
}

/// The map that a sequence of insertions of `(key, value)` pairs builds.
pub open spec fn pairs_to_map(s: Seq<(EntityId, EntityId)>) -> Map<EntityId, EntityId>
    decreases s.len(),
{
    if s.len() == 0 {
        Map::empty()
    } else {
        pairs_to_map(s.drop_last()).insert(s.last().0, s.last().1)
    }
}

/// The state of the resolution of encounters: the pixies to annihilate, the
/// pixies drawing another pixie towards them, who follows whom, and the
/// followings so far.
pub struct Resolution {
    pub explosions: Seq<EntityId>,
    pub attractors: Seq<EntityId>,
    pub followers: Seq<(EntityId, EntityId)>,
    pub followings: Seq<Following>,
}

/// Resolves the encounter `e` (the `idx`-th): nothing happens to a pixie
/// that annihilates or whose lead does; pixies of different colors within
/// annihilation distance annihilate; a pixie that already draws another
/// towards it ignores a lead of another color; a lead of another color draws
/// the pixie towards it; and a pixie never follows the pixie that follows it.
pub open spec fn resolve_step(s: Resolution, e: Encounter, idx: int) -> Resolution {
    if s.explosions.contains(e.pixie) || s.explosions.contains(e.lead) {
        s
    } else if !e.same_color && e.within_explosion_distance {
        Resolution { explosions: s.explosions.push(e.pixie).push(e.lead), ..s }
    } else if s.attractors.contains(e.pixie) && !e.same_color {
        s
    } else {
        let attractors = if !e.same_color {
            s.attractors.push(e.lead)
        } else {
            s.attractors
        };
        let fm = pairs_to_map(s.followers);
        if fm.dom().contains(e.lead) && fm[e.lead] == e.pixie {
            Resolution { attractors, ..s }
        } else {
            Resolution {
                explosions: s.explosions,
                attractors,
                followers: s.followers.push((e.pixie, e.lead)),
                followings: s.followings.push(
                    Following {
                        pixie: e.pixie,
                        lead: e.lead,
                        attractor: !e.same_color,
                        encounter: idx as usize,
                    },
                ),
            }
        }
    }
}

/// The resolution of the first `n` encounters, in order.
pub open spec fn resolve_upto(es: Seq<Encounter>, n: int) -> Resolution
    decreases n,
{
    if n <= 0 {
        Resolution {
            explosions: Seq::empty(),
            attractors: Seq::empty(),
            followers: Seq::empty(),
            followings: Seq::empty(),
        }
    } else {
        resolve_step(resolve_upto(es, n - 1), es[n - 1], n - 1)
    }
}

/// Resolves the encounters of a simulation step, in order: gives the pixies
/// that annihilate and the pixies that follow or are drawn towards a lead.
pub fn resolve_encounters(encounters: &Vec<Encounter>) -> (r: (HashSet<EntityId>, Vec<Following>))
    ensures
        id_set(r.0) == resolve_upto(encounters@, encounters@.len() as int).explosions.to_set(),
        r.1@ == resolve_upto(encounters@, encounters@.len() as int).followings,
{
    let mut explosions = id_set_new();
    let mut attractors = id_set_new();
    let mut followers = id_map_new();
    let mut followings: Vec<Following> = Vec::new();
    let mut i: usize = 0;
    proof {
        assert(Seq::<EntityId>::empty().to_set() =~= Set::<EntityId>::empty());
        assert(pairs_to_map(Seq::<(EntityId, EntityId)>::empty()) =~= Map::empty());
    }
    while i < encounters.len()
        invariant
            i <= encounters.len(),
            ({
                let s = resolve_upto(encounters@, i as int);
                &&& id_set(explosions) == s.explosions.to_set()
                &&& id_set(attractors) == s.attractors.to_set()
                &&& id_map(followers) == pairs_to_map(s.followers)
                &&& followings@ == s.followings
            }),
        decreases encounters.len() - i,
    {
        let e = encounters[i];
        let ghost s = resolve_upto(encounters@, i as int);
        if id_set_contains(&explosions, e.pixie) || id_set_contains(&explosions, e.lead) {
        } else if !e.same_color && e.within_explosion_distance {
            id_set_insert(&mut explosions, e.pixie);
            id_set_insert(&mut explosions, e.lead);
            proof {
                s.explosions.lemma_push_to_set_commute(e.pixie);
                s.explosions.push(e.pixie).lemma_push_to_set_commute(e.lead);
            }
        } else if id_set_contains(&attractors, e.pixie) && !e.same_color {
        } else {
            if !e.same_color {
                id_set_insert(&mut attractors, e.lead);
                proof {
                    s.attractors.lemma_push_to_set_commute(e.lead);
                }
            }
            let followed_by = id_map_get(&followers, e.lead);
            let skip = match followed_by {
                Some(f) => f == e.pixie,
                None => false,
            };
            if !skip {
                followings.push(
                    Following { pixie: e.pixie, lead: e.lead, attractor: !e.same_color, encounter: i },
                );
                id_map_insert(&mut followers, e.pixie, e.lead);
                proof {
                    let f2 = s.followers.push((e.pixie, e.lead));
                    assert(f2.drop_last() =~= s.followers);
                }
            }
        }
        i = i + 1;
    }
    (explosions, followings)
}

/// Only an encounter of pixies of different colors within annihilation
/// distance makes pixies annihilate: each pixie that the first `n`
/// encounters annihilate is the pixie or the lead of such an encounter among
/// them.
pub proof fn lemma_explosions_come_from_close_encounters(es: Seq<Encounter>, n: int)
    requires
        0 <= n <= es.len(),
    ensures
        forall|x: EntityId| #[trigger] resolve_upto(es, n).explosions.contains(x) ==> exists|i: int|
            0 <= i < n && !(#[trigger] es[i]).same_color && es[i].within_explosion_distance && (es[i].pixie == x
                || es[i].lead == x),
    decreases n,
{
    if n > 0 {
        lemma_explosions_come_from_close_encounters(es, n - 1);
        let s0 = resolve_upto(es, n - 1);
        let s = resolve_upto(es, n);
        let e = es[n - 1];
        assert forall|x: EntityId| #[trigger] s.explosions.contains(x) implies exists|i: int|
            0 <= i < n && !(#[trigger] es[i]).same_color && es[i].within_explosion_distance && (es[i].pixie == x
                || es[i].lead == x) by {
            if s.explosions == s0.explosions {
                assert(s0.explosions.contains(x));
            } else {
                assert(s.explosions == s0.explosions.push(e.pixie).push(e.lead));
                let k = choose|k: int| 0 <= k < s.explosions.len() && s.explosions[k] == x;
                if k < s0.explosions.len() {
                    assert(s0.explosions[k] == x);
                    assert(s0.explosions.contains(x));
                } else {
                    assert(es[n - 1] == e);
                }
            }
        }
    }
}

/// Annihilation is never undone: the pixies that the first `m` encounters
/// annihilate open the list of those that the first `n` annihilate, for
/// `m <= n`.
pub proof fn lemma_explosions_grow(es: Seq<Encounter>, m: int, n: int)
    requires
        0 <= m <= n <= es.len(),
    ensures
        resolve_upto(es, m).explosions.is_prefix_of(resolve_upto(es, n).explosions),
    decreases n - m,
{
    if m < n {
        lemma_explosions_grow(es, m, n - 1);
        let a = resolve_upto(es, m).explosions;
        let b = resolve_upto(es, n - 1).explosions;
        let c = resolve_upto(es, n).explosions;
        assert(b.is_prefix_of(c)) by {
            if c != b {
                let e = es[n - 1];
                assert(c == b.push(e.pixie).push(e.lead));
                assert(b =~= c.subrange(0, b.len() as int));
            } else {
                assert(b =~= c.subrange(0, b.len() as int));
            }
        }
        assert(a =~= c.subrange(0, a.len() as int)) by {
            assert forall|i: int| 0 <= i < a.len() implies a[i] == c[i] by {
                assert(a[i] == b.subrange(0, a.len() as int)[i]);
                assert(b[i] == c.subrange(0, b.len() as int)[i]);
            }
        }
    } else {
        assert(resolve_upto(es, m).explosions =~= resolve_upto(es, n).explosions.subrange(
            0,
            resolve_upto(es, m).explosions.len() as int,
        ));
    }
}

/// `a` follows `b` in the map of followers.
pub open spec fn follows(m: Map<EntityId, EntityId>, a: EntityId, b: EntityId) -> bool {
    m.dom().contains(a) && m[a] == b
}

/// No two distinct pixies follow each other.
pub proof fn lemma_no_mutual_following(es: Seq<Encounter>, n: int)
    requires
        0 <= n <= es.len(),
    ensures
        ({
            let m = pairs_to_map(resolve_upto(es, n).followers);
            forall|a: EntityId, b: EntityId|
                #![trigger follows(m, a, b), follows(m, b, a)]
                follows(m, a, b) && follows(m, b, a) ==> a == b
        }),
    decreases n,
{
    if n > 0 {
        lemma_no_mutual_following(es, n - 1);
        let s = resolve_upto(es, n - 1);
        let e = es[n - 1];
        let fm = pairs_to_map(s.followers);
        let m = pairs_to_map(resolve_upto(es, n).followers);
        assert forall|a: EntityId, b: EntityId|
            #![trigger follows(m, a, b), follows(m, b, a)]
            follows(m, a, b) && follows(m, b, a) implies a == b by {
            if resolve_upto(es, n).followers != s.followers {
                assert(resolve_upto(es, n).followers == s.followers.push((e.pixie, e.lead)));
                assert(resolve_upto(es, n).followers.drop_last() =~= s.followers);
                assert(m == fm.insert(e.pixie, e.lead));
                assert(!follows(fm, e.lead, e.pixie));
                if a != b {
                    if a == e.pixie {
                        assert(follows(fm, b, a));
                    } else if b == e.pixie {
                        assert(follows(fm, a, b));
                    } else {
                        assert(follows(fm, a, b) && follows(fm, b, a));
                    }
                }
            } else {
                assert(follows(fm, a, b) && follows(fm, b, a));
            }
        }
    }
}


/// Each pixie sees one lead: no pixie has two encounters.
pub open spec fn one_lead_each(es: Seq<Encounter>) -> bool {
    forall|i: int, j: int| 0 <= i < j < es.len() ==> (#[trigger] es[i]).pixie != (#[trigger] es[j]).pixie
}

/// The followings match the followers pair for pair, and each comes from an
/// earlier encounter of its pixie and lead than the next one.
proof fn lemma_resolution_shape(es: Seq<Encounter>, n: int)
    requires
        0 <= n <= es.len(),
        es.len() <= usize::MAX,
    ensures
        ({
            let s = resolve_upto(es, n);
            &&& s.followers.len() == s.followings.len()
            &&& forall|i: int| 0 <= i < s.followings.len() ==> {
                let f = #[trigger] s.followings[i];
                &&& s.followers[i] == (f.pixie, f.lead)
                &&& f.encounter < n
                &&& es[f.encounter as int].pixie == f.pixie
            }
            &&& forall|i: int, j: int| 0 <= i < j < s.followings.len() ==> (#[trigger] s.followings[i]).encounter
                < (#[trigger] s.followings[j]).encounter
        }),
    decreases n,
{
    if n > 0 {
        lemma_resolution_shape(es, n - 1);
        let s0 = resolve_upto(es, n - 1);
        let s = resolve_upto(es, n);
        if s.followings.len() != s0.followings.len() {
            let e = es[n - 1];
            assert(s.followers == s0.followers.push((e.pixie, e.lead)));
            assert(s.followings == s0.followings.push(
                Following { pixie: e.pixie, lead: e.lead, attractor: !e.same_color, encounter: (n - 1) as usize },
            ));
            assert forall|i: int| 0 <= i < s.followings.len() implies {
                let f = #[trigger] s.followings[i];
                &&& s.followers[i] == (f.pixie, f.lead)
                &&& f.encounter < n
                &&& es[f.encounter as int].pixie == f.pixie
            } by {
                if i < s0.followings.len() {
                    assert(s.followings[i] == s0.followings[i]);
                    assert(s.followers[i] == s0.followers[i]);
                }
            }
            assert forall|i: int, j: int| 0 <= i < j < s.followings.len() implies (#[trigger] s.followings[i]).encounter
                < (#[trigger] s.followings[j]).encounter by {
                assert(s.followings[i] == s0.followings[i]);
                if j < s0.followings.len() {
                    assert(s.followings[j] == s0.followings[j]);
                }
            }
        } else {
            assert(s.followings == s0.followings);
            assert(s.followers == s0.followers);
        }
    }
}

/// In the map that insertions of pairs build, a pair whose key is not
/// inserted again holds.
proof fn lemma_pairs_last_wins(s: Seq<(EntityId, EntityId)>, i: int)
    requires
        0 <= i < s.len(),
        forall|j: int| i < j < s.len() ==> (#[trigger] s[j]).0 != s[i].0,
    ensures
        pairs_to_map(s).dom().contains(s[i].0),
        pairs_to_map(s)[s[i].0] == s[i].1,
    decreases s.len(),
{
    if i < s.len() - 1 {
        let init = s.drop_last();
        assert forall|j: int| i < j < init.len() implies (#[trigger] init[j]).0 != init[i].0 by {
            assert(init[j] == s[j]);
        }
        lemma_pairs_last_wins(init, i);
        assert(s.last().0 != s[i].0);
    }
}

/// When each pixie sees one lead, no two pixies follow each other: of a
/// pixie that follows another, the other does not follow it back.
pub proof fn lemma_no_mutual_followings(es: Seq<Encounter>)
    requires
        one_lead_each(es),
        es.len() <= usize::MAX,
    ensures
        ({
            let f = resolve_upto(es, es.len() as int).followings;
            forall|i: int, j: int|
                0 <= i < f.len() && 0 <= j < f.len() && (#[trigger] f[i]).pixie == (#[trigger] f[j]).lead
                    && f[i].lead == f[j].pixie ==> f[i].pixie == f[i].lead
        }),
{
    let n = es.len() as int;
    let s = resolve_upto(es, n);
    let f = s.followings;
    lemma_resolution_shape(es, n);
    lemma_no_mutual_following(es, n);
    let m = pairs_to_map(s.followers);
    assert forall|i: int| 0 <= i < f.len() implies follows(m, #[trigger] f[i].pixie, f[i].lead) by {
        assert forall|j: int| i < j < s.followers.len() implies (#[trigger] s.followers[j]).0 != s.followers[i].0 by {
            let fi = f[i];
            let fj = f[j];
            assert(fi.encounter < fj.encounter);
            assert(es[fi.encounter as int].pixie != es[fj.encounter as int].pixie);
        }
        lemma_pairs_last_wins(s.followers, i);
    }
    assert forall|i: int, j: int|
        0 <= i < f.len() && 0 <= j < f.len() && (#[trigger] f[i]).pixie == (#[trigger] f[j]).lead
            && f[i].lead == f[j].pixie implies f[i].pixie == f[i].lead by {
        assert(follows(m, f[i].pixie, f[i].lead));
        assert(follows(m, f[j].pixie, f[j].lead));
    }
}


/// The layer a pixie on the `index`-th segment of its path is drawn above:
/// the lower layer of the next segment as it comes near it (`near_next`),
/// else the lower layer of the previous segment while it is still near that
/// one (`near_prev`), else the layer of its own segment.
pub open spec fn draw_layer_spec(layers: Seq<u32>, index: int, near_next: bool, near_prev: bool) -> u32 {
    let current = layers[index];
    let next = if index < layers.len() - 1 { layers[index + 1] } else { current };
    let prev = if index >= 1 { layers[index - 1] } else { current };
    if next < current && near_next {
        next
    } else if prev < current && near_prev {
        prev
    } else {
        current
    }
}

/// The layer a pixie is drawn above while it stays on the `index`-th
/// segment of its path, whose segments have the layers `layers`.
pub fn pixie_draw_layer(layers: &Vec<u32>, index: usize, near_next: bool, near_prev: bool) -> (r: u32)
    requires
        index < layers@.len(),
    ensures
        r == draw_layer_spec(layers@, index as int, near_next, near_prev),
{
    let current = layers[index];
    let next = if index < layers.len() - 1 {
        layers[index + 1]
    } else {
        current
    };
    let prev = if index >= 1 {
        layers[index - 1]
    } else {
        current
    };
    if next < current && near_next {
        next
    } else if prev < current && near_prev {
        prev
    } else {
        current
    }
}

/// A pixie whose path index is past the last segment of its (non-empty)
/// path has arrived: it leaves the field and counts.
pub fn pixie_arrived(path_index: usize, path_len: usize) -> (r: bool)
    requires
        path_len >= 1,
    ensures
        r == (path_index > path_len - 1),
{
    path_index > path_len - 1
}

} // verus!
