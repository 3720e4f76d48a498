//! Turns the wish to strike into pending damage.

use vstd::prelude::*;
use crate::components::{CombatStats, Name, SufferDamage, WantsToMelee};
use crate::store::{attach, clear, contents, fetch, ready, roster, Store};

verus! {

/// The damage of one blow: the attacker's power less the target's defense,
/// not below zero, and not above what an amount of damage can hold.
pub open spec fn melee_damage(power: i32, defense: i32) -> int {
    if power - defense <= 0 {
        0
    } else if power - defense > i32::MAX {
        i32::MAX as int
    } else {
        power - defense
    }
}

/// The damage of one blow.
pub fn compute_damage(power: i32, defense: i32) -> (damage: i32)
    ensures
        damage == melee_damage(power, defense),
{
    let difference: i64 = power as i64 - defense as i64;
    if difference <= 0 {
        0
    } else if difference > i32::MAX as i64 {
        i32::MAX
    } else {
        difference as i32
    }
}

/// Wherever the difference of power and defense can be held as an amount
/// of damage, the damage of a blow is that difference, or zero if the
/// difference is negative.
pub proof fn lemma_damage_formula(power: i32, defense: i32)
    requires
        power - defense <= i32::MAX,
    ensures
        melee_damage(power, defense) == if power - defense > 0 {
            power - defense
        } else {
            0
        },
{
}

/// The damage that is pending for `e`, blow by blow; none if `e` has no
/// `SufferDamage`.
pub open spec fn pending(s: Store, e: specs::Entity) -> Seq<i32> {
    if s.suffer_damage.dom().contains(e) {
        s.suffer_damage[e]
    } else {
        Seq::empty()
    }
}

/// Whether `a` is fit to attack: it wants to strike, has a name and combat
/// stats, and is alive.
pub open spec fn attacks(s: Store, a: specs::Entity) -> bool {
    &&& s.wants_to_melee.dom().contains(a)
    &&& s.names.dom().contains(a)
    &&& s.combat_stats.dom().contains(a)
    &&& s.combat_stats[a].hp > 0
}

/// Whether `a` lands a blow on `t` that hurts: `a` is fit to attack, `t` is
/// its target and alive, and the damage is not zero.
pub open spec fn strikes(s: Store, a: specs::Entity, t: specs::Entity) -> bool {
    &&& attacks(s, a)
    &&& s.wants_to_melee[a].target == t
    &&& s.combat_stats.dom().contains(t)
    &&& s.combat_stats[t].hp > 0
    &&& melee_damage(s.combat_stats[a].power, s.combat_stats[t].defense) > 0
}

/// The damage of the blows that the entities of `attackers` land on `t`, in
/// their order.
pub open spec fn blows(s: Store, attackers: Seq<specs::Entity>, t: specs::Entity) -> Seq<i32> {
    attackers.filter(|a: specs::Entity| strikes(s, a, t)).map_values(
        |a: specs::Entity| melee_damage(s.combat_stats[a].power, s.combat_stats[t].defense) as i32,
    )
}

/// The pending damage after the entities of `attackers` have struck: each
/// blow is added to what was pending for its target.
pub open spec fn damage_after(s: Store, attackers: Seq<specs::Entity>) -> Map<specs::Entity, Seq<i32>> {
    Map::new(
        |t: specs::Entity| s.suffer_damage.dom().contains(t) || blows(s, attackers, t).len() > 0,
        |t: specs::Entity| pending(s, t) + blows(s, attackers, t),
    )
}

/// Whether the target of every entity fit to attack has combat stats.
pub open spec fn targets_armed(s: Store) -> bool {
    forall|a: specs::Entity| #[trigger] attacks(s, a) ==> s.combat_stats.dom().contains(s.wants_to_melee[a].target)
}

/// The world after a round of melee: the blows are pending on their
/// targets, and nobody wants to strike any more.
pub open spec fn after_melee(s: Store) -> Store {
    Store { suffer_damage: damage_after(s, s.roster), wants_to_melee: Map::empty(), ..s }
}

impl SufferDamage {
    /// Adds `amount` to the damage pending for `victim`, which need not have
    /// any pending yet.
    pub fn new_damage(ecs: &mut specs::World, victim: specs::Entity, amount: i32)
        requires
            ready(*old(ecs)),
            contents(*old(ecs)).has(victim),
        ensures
            ready(*final(ecs)),
            contents(*final(ecs)) == (Store {
                suffer_damage: contents(*old(ecs)).suffer_damage.insert(
                    victim,
                    pending(contents(*old(ecs)), victim).push(amount),
                ),
                ..contents(*old(ecs))
            }),
    {
        let suffering: Option<SufferDamage> = fetch(ecs, victim);
        match suffering {
            Some(mut suffering) => {
                suffering.amount.push(amount);
                attach(ecs, victim, suffering);
            },
            None => {
                let mut amounts: Vec<i32> = Vec::new();
                amounts.push(amount);
                assert(amounts@ =~= Seq::<i32>::empty().push(amount));
                attach(ecs, victim, SufferDamage { amount: amounts });
            },
        }
    }
}

/// One blow of a round of melee: who struck whom, and the damage done,
/// which is zero where the attacker could not hurt the target.
#[derive(Clone, Copy, Debug)]
pub struct Blow {
    pub attacker: specs::Entity,
    pub target: specs::Entity,
    pub damage: i32,
}

/// Whether `a` strikes a blow: it is fit to attack, and its target has
/// combat stats and is alive.
pub open spec fn lands(s: Store, a: specs::Entity) -> bool {
    &&& attacks(s, a)
    &&& s.combat_stats.dom().contains(s.wants_to_melee[a].target)
    &&& s.combat_stats[s.wants_to_melee[a].target].hp > 0
}

/// The blow that `a` strikes.
pub open spec fn blow_of(s: Store, a: specs::Entity) -> Blow {
    Blow {
        attacker: a,
        target: s.wants_to_melee[a].target,
        damage: melee_damage(s.combat_stats[a].power, s.combat_stats[s.wants_to_melee[a].target].defense) as i32,
    }
}

/// The blows that the entities of `attackers` strike, in their order.
pub open spec fn blows_struck(s: Store, attackers: Seq<specs::Entity>) -> Seq<Blow> {
    attackers.filter(|a: specs::Entity| lands(s, a)).map_values(|a: specs::Entity| blow_of(s, a))
}

/// The system that resolves melee.
pub struct MeleeCombatSystem {}

impl MeleeCombatSystem {
    /// Lets every entity that wants to strike, has a name and combat stats
    /// and is alive strike its target, if the target is alive: the damage
    /// is the attacker's power less the target's defense, and where it is
    /// not zero it is added to the target's pending damage. Then every wish
    /// to strike is dropped, acted on or not. The blows are handed back in
    /// the order in which they were struck, the harmless ones among them.
    pub fn run(&mut self, ecs: &mut specs::World) -> (struck: Vec<Blow>)
        requires
            ready(*old(ecs)),
            targets_armed(contents(*old(ecs))),
        ensures
            ready(*final(ecs)),
            contents(*final(ecs)) == after_melee(contents(*old(ecs))),
            struck@ == blows_struck(contents(*old(ecs)), contents(*old(ecs)).roster),
    {
        let ghost s = contents(*ecs);
        let list = roster(ecs);
        let mut struck: Vec<Blow> = Vec::new();
        proof {
            assert(list@.take(0) =~= Seq::<specs::Entity>::empty());
            assert(blows_struck(s, list@.take(0)) =~= Seq::<Blow>::empty()) by {
                reveal(Seq::filter);
            }
            assert forall|t: specs::Entity| blows(s, list@.take(0), t).len() == 0 by {
                reveal(Seq::filter);
            }
            assert(damage_after(s, list@.take(0)) =~= s.suffer_damage);
        }
        let mut k: usize = 0;
        while k < list.len()
            invariant
                ready(*ecs),
                s.wf(),
                targets_armed(s),
                list@ == s.roster,
                k <= list@.len(),
                contents(*ecs) == (Store { suffer_damage: damage_after(s, list@.take(k as int)), ..s }),
                struck@ == blows_struck(s, list@.take(k as int)),
            decreases list@.len() - k,
        {
            let attacker = list[k];
            let ghost so_far = list@.take(k as int);
            let ghost mut hit: Option<specs::Entity> = None;
            let ghost told = struck@;
            let wants: Option<WantsToMelee> = fetch(ecs, attacker);
            let name: Option<Name> = fetch(ecs, attacker);
            let stats: Option<CombatStats> = fetch(ecs, attacker);
            if let (Some(wants), Some(_), Some(stats)) = (wants, name, stats) {
                if stats.hp > 0 {
                    assert(attacks(s, attacker));
                    let target_stats: Option<CombatStats> = fetch(ecs, wants.target);
                    let target_stats: CombatStats = target_stats.unwrap();
                    if target_stats.hp > 0 {
                        let damage: i32 = compute_damage(stats.power, target_stats.defense);
                        struck.push(Blow { attacker, target: wants.target, damage });
                        if damage != 0 {
                            proof {
                                hit = Some(wants.target);
                                assert(s.has(wants.target));
                            }
                            SufferDamage::new_damage(ecs, wants.target, damage);
                        }
                    }
                }
            }
            proof {
                assert(list@.take(k + 1) =~= so_far.push(attacker));
                let landed = |a: specs::Entity| lands(s, a);
                let told_of = |a: specs::Entity| blow_of(s, a);
                so_far.lemma_filter_push(attacker, landed);
                if landed(attacker) {
                    assert(so_far.filter(landed).push(attacker).map_values(told_of) =~= so_far.filter(
                        landed,
                    ).map_values(told_of).push(told_of(attacker)));
                    assert(struck@ == told.push(blow_of(s, attacker)));
                } else {
                    assert(struck@ == told);
                }
                assert forall|t: specs::Entity|
                    blows(s, so_far.push(attacker), t) == if hit == Some(t) {
                        blows(s, so_far, t).push(
                            melee_damage(s.combat_stats[attacker].power, s.combat_stats[t].defense) as i32,
                        )
                    } else {
                        blows(s, so_far, t)
                    } by {
                    let pred = |a: specs::Entity| strikes(s, a, t);
                    let f = |a: specs::Entity|
                        melee_damage(s.combat_stats[a].power, s.combat_stats[t].defense) as i32;
                    so_far.lemma_filter_push(attacker, pred);
                    assert(pred(attacker) == (hit == Some(t)));
                    if pred(attacker) {
                        assert(so_far.filter(pred).push(attacker).map_values(f) =~= so_far.filter(pred).map_values(
                            f,
                        ).push(f(attacker)));
                    }
                }
                let earlier = damage_after(s, so_far);
                let later = damage_after(s, so_far.push(attacker));
                match hit {
                    Some(t) => {
                        let d = melee_damage(s.combat_stats[attacker].power, s.combat_stats[t].defense) as i32;
                        let was = Store { suffer_damage: earlier, ..s };
                        assert(pending(was, t) =~= pending(s, t) + blows(s, so_far, t));
                        assert((pending(s, t) + blows(s, so_far, t)).push(d) =~= pending(s, t) + blows(
                            s,
                            so_far,
                            t,
                        ).push(d));
                        assert(later =~= earlier.insert(t, pending(was, t).push(d)));
                    },
                    None => {
                        assert(later =~= earlier);
                    },
                }
            }
            k += 1;
        }
        proof {
            assert(list@.take(k as int) =~= list@);
            lemma_damage_keeps_wf(s, s.roster);
        }
        clear::<WantsToMelee>(ecs);
        struck
    }
}

/// Pending damage lands on living entities only.
pub proof fn lemma_damage_keeps_wf(s: Store, attackers: Seq<specs::Entity>)
    requires
        s.wf(),
    ensures
        (Store { suffer_damage: damage_after(s, attackers), ..s }).wf(),
        (Store { suffer_damage: damage_after(s, attackers), wants_to_melee: Map::empty(), ..s }).wf(),
{
    assert forall|t: specs::Entity| #[trigger] damage_after(s, attackers).dom().contains(t) implies s.has(t) by {
        if !s.suffer_damage.dom().contains(t) {
            let pred = |a: specs::Entity| strikes(s, a, t);
            let struck = attackers.filter(pred);
            assert(struck.len() > 0);
            attackers.lemma_filter_pred(pred, 0);
            assert(pred(struck[0]));
            assert(s.combat_stats.dom().contains(t));
        }
    }
}

} // verus!
