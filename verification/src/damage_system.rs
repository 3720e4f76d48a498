//! Takes pending damage from health, and queues the removal of the dead.

use vstd::prelude::*;
use crate::components::{CombatStats, SufferDamage};
use crate::store::{attach, clear, contents, doom, fetch, ready, roster, Store};

verus! {

/// The sum of the amounts.
pub open spec fn total(amounts: Seq<i32>) -> int {
    amounts.fold_left(0int, |sum: int, amount: i32| sum + amount)
}

/// `value`, or the nearest number that health can hold.
pub open spec fn clamp(value: int) -> i32 {
    if value < i32::MIN {
        i32::MIN
    } else if value > i32::MAX {
        i32::MAX
    } else {
        value as i32
    }
}

/// The stats after the amounts have been taken from the health, which may
/// fall below zero.
pub open spec fn suffered(stats: CombatStats, amounts: Seq<i32>) -> CombatStats {
    CombatStats { hp: clamp(stats.hp - total(amounts)), ..stats }
}

/// The combat stats once the entities of `done` have taken their pending
/// damage.
pub open spec fn stats_after(s: Store, done: Seq<specs::Entity>) -> Map<specs::Entity, CombatStats> {
    Map::new(
        |e: specs::Entity| s.combat_stats.dom().contains(e),
        |e: specs::Entity|
            if s.suffer_damage.dom().contains(e) && done.contains(e) {
                suffered(s.combat_stats[e], s.suffer_damage[e])
            } else {
                s.combat_stats[e]
            },
    )
}

/// The world after damage has been applied: every entity with combat stats
/// has taken its pending damage, and no damage is pending.
pub open spec fn after_damage(s: Store) -> Store {
    Store { combat_stats: stats_after(s, s.roster), suffer_damage: Map::empty(), ..s }
}

/// Whether `e` has combat stats and no health left.
pub open spec fn dead(s: Store, e: specs::Entity) -> bool {
    s.combat_stats.dom().contains(e) && s.combat_stats[e].hp <= 0
}

/// The removal queue once the dead among `done` have joined it.
pub open spec fn doomed_after(s: Store, done: Seq<specs::Entity>) -> Set<specs::Entity> {
    s.doomed.union(Set::new(|e: specs::Entity| done.contains(e) && dead(s, e)))
}

/// The world with the removal of every dead entity queued.
pub open spec fn with_dead_doomed(s: Store) -> Store {
    Store { doomed: doomed_after(s, s.roster), ..s }
}

/// What a list holds after a push is what it held before, and the new item.
proof fn lemma_contains_after_push(list: Seq<specs::Entity>, e: specs::Entity)
    ensures
        forall|x: specs::Entity| #[trigger] list.push(e).contains(x) <==> list.contains(x) || x == e,
{
    assert forall|x: specs::Entity| #[trigger] list.push(e).contains(x) <==> list.contains(x) || x == e by {
        vstd::seq_lib::lemma_seq_contains_after_push(list, e, x);
    }
}

/// The sum of the amounts.
fn sum_damage(amounts: &Vec<i32>) -> (sum: i128)
    ensures
        sum == total(amounts@),
        -0x8000_0000_0000_0000_0000_0000 <= sum <= 0x8000_0000_0000_0000_0000_0000,
{
    let count: usize = amounts.len();
    assert((count as int) * 0x8000_0000 <= 0x8000_0000_0000_0000_0000_0000) by (nonlinear_arith)
        requires
            count <= 0x1_0000_0000_0000_0000,
    ;
    let mut sum: i128 = 0;
    let mut i: usize = 0;
    while i < amounts.len()
        invariant
            i <= amounts@.len(),
            count == amounts@.len(),
            (count as int) * 0x8000_0000 <= 0x8000_0000_0000_0000_0000_0000,
            sum == total(amounts@.take(i as int)),
            -(i as int) * 0x8000_0000 <= sum <= (i as int) * 0x8000_0000,
        decreases amounts@.len() - i,
    {
        assert(amounts@.take(i + 1).drop_last() == amounts@.take(i as int));
        assert((i as int + 1) * 0x8000_0000 <= (count as int) * 0x8000_0000) by (nonlinear_arith)
            requires
                i < count,
        ;
        sum = sum + amounts[i] as i128;
        i += 1;
    }
    assert(amounts@.take(i as int) == amounts@);
    sum
}

/// The system that applies pending damage.
pub struct DamageSystem {}

impl DamageSystem {
    /// Takes from the health of every entity the sum of the damage pending
    /// for it, then drops all pending damage.
    pub fn run(&mut self, ecs: &mut specs::World)
        requires
            ready(*old(ecs)),
        ensures
            ready(*final(ecs)),
            contents(*final(ecs)) == after_damage(contents(*old(ecs))),
    {
        let ghost s = contents(*ecs);
        let list = roster(ecs);
        proof {
            assert(stats_after(s, list@.take(0)) =~= s.combat_stats);
        }
        let mut k: usize = 0;
        while k < list.len()
            invariant
                ready(*ecs),
                s.wf(),
                list@ == s.roster,
                k <= list@.len(),
                contents(*ecs) == (Store { combat_stats: stats_after(s, list@.take(k as int)), ..s }),
            decreases list@.len() - k,
        {
            let entity = list[k];
            let ghost so_far = list@.take(k as int);
            let stats: Option<CombatStats> = fetch(ecs, entity);
            let damage: Option<SufferDamage> = fetch(ecs, entity);
            proof {
                assert(list@.take(k + 1) =~= so_far.push(entity));
                assert(!so_far.contains(entity));
                lemma_contains_after_push(so_far, entity);
            }
            if let (Some(stats), Some(damage)) = (stats, damage) {
                let sum: i128 = sum_damage(&damage.amount);
                let left: i128 = stats.hp as i128 - sum;
                let hp: i32 = if left < i32::MIN as i128 {
                    i32::MIN
                } else if left > i32::MAX as i128 {
                    i32::MAX
                } else {
                    left as i32
                };
                let hurt = CombatStats { max_hp: stats.max_hp, hp, defense: stats.defense, power: stats.power };
                assert(hurt == suffered(s.combat_stats[entity], s.suffer_damage[entity]));
                attach(ecs, entity, hurt);
                assert(stats_after(s, so_far.push(entity)) =~= stats_after(s, so_far).insert(entity, hurt));
            } else {
                assert(stats_after(s, so_far.push(entity)) =~= stats_after(s, so_far));
            }
            k += 1;
        }
        proof {
            assert(list@.take(k as int) =~= list@);
        }
        clear::<SufferDamage>(ecs);
    }
}

/// Queues the removal of every entity that has combat stats and no health
/// left. The entities stay in the world until it is next maintained.
pub fn delete_the_dead(ecs: &mut specs::World)
    requires
        ready(*old(ecs)),
    ensures
        ready(*final(ecs)),
        contents(*final(ecs)) == with_dead_doomed(contents(*old(ecs))),
{
    let ghost s = contents(*ecs);
    let list = roster(ecs);
    proof {
        assert(doomed_after(s, list@.take(0)) =~= s.doomed);
    }
    let mut k: usize = 0;
    while k < list.len()
        invariant
            ready(*ecs),
            s.wf(),
            list@ == s.roster,
            k <= list@.len(),
            contents(*ecs) == (Store { doomed: doomed_after(s, list@.take(k as int)), ..s }),
        decreases list@.len() - k,
    {
        let entity = list[k];
        let ghost so_far = list@.take(k as int);
        let stats: Option<CombatStats> = fetch(ecs, entity);
        proof {
            assert(list@.take(k + 1) =~= so_far.push(entity));
            lemma_contains_after_push(so_far, entity);
        }
        let mut gone: bool = false;
        if let Some(stats) = stats {
            if stats.hp < 1 {
                gone = true;
            }
        }
        if gone {
            doom(ecs, entity);
            assert(doomed_after(s, so_far.push(entity)) =~= doomed_after(s, so_far).insert(entity));
        } else {
            assert(doomed_after(s, so_far.push(entity)) =~= doomed_after(s, so_far));
        }
        k += 1;
    }
    proof {
        assert(list@.take(k as int) =~= list@);
    }
}

/// An entity whose health has fallen to zero or below is queued for removal
/// by `delete_the_dead`, and once the world has been maintained it is no
/// longer among the living and carries no component.
pub proof fn lemma_dead_are_removed(s: Store, e: specs::Entity)
    requires
        s.wf(),
        dead(s, e),
    ensures
        with_dead_doomed(s).doomed.contains(e),
        !with_dead_doomed(s).purged().has(e),
        !with_dead_doomed(s).purged().positions.dom().contains(e),
        !with_dead_doomed(s).purged().renderables.dom().contains(e),
        !with_dead_doomed(s).purged().players.dom().contains(e),
        !with_dead_doomed(s).purged().viewsheds.dom().contains(e),
        !with_dead_doomed(s).purged().monsters.dom().contains(e),
        !with_dead_doomed(s).purged().names.dom().contains(e),
        !with_dead_doomed(s).purged().blockers.dom().contains(e),
        !with_dead_doomed(s).purged().combat_stats.dom().contains(e),
        !with_dead_doomed(s).purged().wants_to_melee.dom().contains(e),
        !with_dead_doomed(s).purged().suffer_damage.dom().contains(e),
{
    let queued = with_dead_doomed(s);
    assert(s.has(e));
    assert(queued.doomed.contains(e));
    let kept = |x: specs::Entity| !queued.doomed.contains(x);
    if queued.roster.filter(kept).contains(e) {
        let i = choose|i: int| 0 <= i < queued.roster.filter(kept).len() && queued.roster.filter(kept)[i] == e;
        queued.roster.lemma_filter_pred(kept, i);
    }
}

} // verus!
