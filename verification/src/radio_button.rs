//! Radio button groups: selecting one button of a group unselects the others.

use vstd::prelude::*;
use crate::road_drawing::EntityId;

verus! {

/// The other members of `members` than `button`, in order.
pub open spec fn others(members: Seq<EntityId>, button: EntityId) -> Seq<EntityId>
    decreases members.len(),
{
    if members.len() == 0 {
        Seq::empty()
    } else if members.last() == button {
        others(members.drop_last(), button)
    } else {
        others(members.drop_last(), button).push(members.last())
    }
}

/// The buttons to unselect, in order, for the buttons that changed: each
/// changed button comes with whether it is now selected and the members of
/// its group, or `None` when its group is missing. Only a button that became
/// selected unselects the other members of its group.
pub open spec fn unselect_spec(changed: Seq<(EntityId, bool, Option<Seq<EntityId>>)>) -> Seq<EntityId>
    decreases changed.len(),
{
    if changed.len() == 0 {
        Seq::empty()
    } else {
        unselect_spec(changed.drop_last()) + match changed.last().2 {
            Some(members) => if changed.last().1 {
                others(members, changed.last().0)
            } else {
                Seq::empty()
            },
            None => Seq::empty(),
        }
    }
}

pub open spec fn changed_view(c: (EntityId, bool, Option<Vec<EntityId>>)) -> (EntityId, bool, Option<Seq<EntityId>>) {
    (c.0, c.1, match c.2 {
        Some(m) => Some(m@),
        None => None,
    })
}

/// The buttons to unselect after some radio buttons changed: every other
/// member of the group of each changed button that is now selected.
pub fn buttons_to_unselect(changed: &Vec<(EntityId, bool, Option<Vec<EntityId>>)>) -> (r: Vec<EntityId>)
    ensures
        r@ == unselect_spec(changed@.map_values(|c: (EntityId, bool, Option<Vec<EntityId>>)| changed_view(c))),
{
    let ghost cs = changed@.map_values(|c: (EntityId, bool, Option<Vec<EntityId>>)| changed_view(c));
    let mut r: Vec<EntityId> = Vec::new();
    let mut i: usize = 0;
    while i < changed.len()
        invariant
            i <= changed.len(),
            cs == changed@.map_values(|c: (EntityId, bool, Option<Vec<EntityId>>)| changed_view(c)),
            r@ == unselect_spec(cs.take(i as int)),
        decreases changed.len() - i,
    {
        let ghost take_next = cs.take(i + 1);
        assert(take_next.drop_last() =~= cs.take(i as int));
        assert(take_next.last() == changed_view(changed@[i as int]));
        let button = changed[i].0;
        let selected = changed[i].1;
        match &changed[i].2 {
            Some(members) if selected => {
                let ghost before = r@;
                let mut j: usize = 0;
                while j < members.len()
                    invariant
                        j <= members.len(),
                        r@ == before + others(members@.take(j as int), button),
                    decreases members.len() - j,
                {
                    let ghost t = members@.take(j + 1);
                    assert(t.drop_last() =~= members@.take(j as int));
                    if members[j] != button {
                        r.push(members[j]);
                    }
                    assert(r@ =~= before + others(t, button));
                    j = j + 1;
                }
                assert(members@.take(members@.len() as int) =~= members@);
            },
            _ => {},
        }
        assert(r@ =~= unselect_spec(take_next));
        i = i + 1;
    }
    assert(cs.take(cs.len() as int) =~= cs);
    r
}

} // verus!
