//! Meals and potions, which last longer than an encounter.

use crate::engine::buff_state::BuffStateSnapshot;
use crate::engine::encounter::{ConsumableTimer, Encounter, EncounterView, PlayerConsumables};
use crate::engine::walk::{key_list, lemma_next_key};
use std::collections::HashMap;
use vstd::prelude::*;
use vstd::std_specs::hash::*;

verus! {

/// The effects that come from meals and from potions.
pub struct ConsumableIds {
    pub food: Vec<i32>,
    pub syrup: Vec<i32>,
}

/// Neither a meal nor a potion.
pub open spec fn nothing_used() -> PlayerConsumables {
    PlayerConsumables { food: None, syrup: None }
}

/// The timer of an effect that is seen at `now`.
pub open spec fn timer_of(s: BuffStateSnapshot, now: u128) -> ConsumableTimer {
    ConsumableTimer {
        base_id: s.base_id,
        duration_ms: s.duration_ms,
        ends_at_ms: if now + s.remaining_ms > u128::MAX {
            u128::MAX
        } else {
            (now + s.remaining_ms) as u128
        },
    }
}

/// What a player uses after an effect was seen: one that has not ended and comes from a meal or a
/// potion takes the place of the one before.
pub open spec fn noticed(
    c: PlayerConsumables,
    s: BuffStateSnapshot,
    ids: ConsumableIds,
    now: u128,
) -> PlayerConsumables {
    if s.remaining_ms <= 0 {
        c
    } else if ids.food@.contains(s.base_id) {
        PlayerConsumables { food: Some(timer_of(s, now)), ..c }
    } else if ids.syrup@.contains(s.base_id) {
        PlayerConsumables { syrup: Some(timer_of(s, now)), ..c }
    } else {
        c
    }
}

/// What a player uses after effects were seen, one by one.
pub open spec fn all_noticed(
    c: PlayerConsumables,
    snaps: Seq<BuffStateSnapshot>,
    ids: ConsumableIds,
    now: u128,
) -> PlayerConsumables
    decreases snaps.len(),
{
    if snaps.len() == 0 {
        c
    } else {
        noticed(all_noticed(c, snaps.drop_last(), ids, now), snaps.last(), ids, now)
    }
}

/// What a player uses.
pub open spec fn used_by(m: Map<i64, PlayerConsumables>, uid: i64) -> PlayerConsumables {
    if m.contains_key(uid) {
        m[uid]
    } else {
        nothing_used()
    }
}

/// What players use after the effects on some of them were seen.
pub open spec fn players_noticed(
    m: Map<i64, PlayerConsumables>,
    seen: Seq<(i64, Vec<BuffStateSnapshot>)>,
    ids: ConsumableIds,
    now: u128,
) -> Map<i64, PlayerConsumables>
    decreases seen.len(),
{
    if seen.len() == 0 {
        m
    } else {
        let before = players_noticed(m, seen.drop_last(), ids, now);
        let uid = seen.last().0;
        before.insert(uid, all_noticed(used_by(before, uid), seen.last().1@, ids, now))
    }
}

/// A timer that has not ended.
pub open spec fn running(t: Option<ConsumableTimer>, now: u128) -> Option<ConsumableTimer> {
    match t {
        Some(t) => if t.ends_at_ms > now {
            Some(t)
        } else {
            None
        },
        None => None,
    }
}

/// What a player still uses.
pub open spec fn still_used(c: PlayerConsumables, now: u128) -> PlayerConsumables {
    PlayerConsumables { food: running(c.food, now), syrup: running(c.syrup, now) }
}

/// What players still use; those who use nothing are left out.
pub open spec fn swept(m: Map<i64, PlayerConsumables>, now: u128) -> Map<i64, PlayerConsumables> {
    Map::new(
        |uid: i64| m.contains_key(uid) && still_used(m[uid], now) != nothing_used(),
        |uid: i64| still_used(m[uid], now),
    )
}

/// Whether a list holds a number.
fn lists(ids: &Vec<i32>, id: i32) -> (b: bool)
    ensures
        b == ids@.contains(id),
{
    let n: usize = ids.len();
    for i in 0..n
        invariant
            n == ids@.len(),
            forall|j: int| 0 <= j < i ==> ids@[j] != id,
    {
        if ids[i] == id {
            return true;
        }
    }
    false
}

/// Notices an effect.
fn notice(c: &mut PlayerConsumables, s: &BuffStateSnapshot, ids: &ConsumableIds, now: u128)
    ensures
        *final(c) == noticed(*old(c), *s, *ids, now),
{
    if s.remaining_ms <= 0 {
        return;
    }
    let left: u128 = s.remaining_ms as u128;
    let ends_at_ms: u128 = if now > u128::MAX - left {
        u128::MAX
    } else {
        now + left
    };
    let timer = ConsumableTimer { base_id: s.base_id, duration_ms: s.duration_ms, ends_at_ms };
    if lists(&ids.food, s.base_id) {
        c.food = Some(timer);
    } else if lists(&ids.syrup, s.base_id) {
        c.syrup = Some(timer);
    }
}

/// A timer that has not ended.
fn running_timer(t: &Option<ConsumableTimer>, now: u128) -> (r: Option<ConsumableTimer>)
    ensures
        r == running(*t, now),
{
    match t {
        Some(t) => if t.ends_at_ms > now {
            Some(*t)
        } else {
            None
        },
        None => None,
    }
}

/// Takes in the effects that are seen on players.
fn notice_players(
    m: &mut HashMap<i64, PlayerConsumables>,
    seen: &Vec<(i64, Vec<BuffStateSnapshot>)>,
    ids: &ConsumableIds,
    now: u128,
)
    ensures
        final(m)@ == players_noticed(old(m)@, seen@, *ids, now),
{
    broadcast use group_hash_axioms;

    let ghost before = m@;
    let n: usize = seen.len();
    assert(seen@.take(0) =~= Seq::<(i64, Vec<BuffStateSnapshot>)>::empty());
    for i in 0..n
        invariant
            n == seen@.len(),
            m@ == players_noticed(before, seen@.take(i as int), *ids, now),
    {
        broadcast use group_hash_axioms;

        let ghost now_m = m@;
        let uid: i64 = seen[i].0;
        let snaps: &Vec<BuffStateSnapshot> = &seen[i].1;
        let mut c: PlayerConsumables = match m.get(&uid) {
            Some(c) => *c,
            None => PlayerConsumables { food: None, syrup: None },
        };
        let ghost first = c;
        let k: usize = snaps.len();
        assert(snaps@.take(0) =~= Seq::<BuffStateSnapshot>::empty());
        for j in 0..k
            invariant
                k == snaps@.len(),
                c == all_noticed(first, snaps@.take(j as int), *ids, now),
        {
            assert(snaps@.take(j + 1).drop_last() =~= snaps@.take(j as int));
            notice(&mut c, &snaps[j], ids, now);
        }
        proof {
            assert(snaps@.take(k as int) =~= snaps@);
            assert(seen@.take(i + 1).drop_last() =~= seen@.take(i as int));
            assert(seen@.take(i + 1).last() == seen@[i as int]);
        }
        m.insert(uid, c);
    }
    assert(seen@.take(n as int) =~= seen@);
}

/// Leaves out what has ended.
fn sweep(m: &mut HashMap<i64, PlayerConsumables>, now: u128)
    ensures
        final(m)@ == swept(old(m)@, now),
{
    broadcast use group_hash_axioms;

    let ghost before = m@;
    let keys: Vec<i64> = key_list(m);
    let mut i: usize = 0;
    while i < keys.len()
        invariant
            i <= keys@.len(),
            keys@.no_duplicates(),
            forall|k: i64| #[trigger] keys@.contains(k) <==> before.contains_key(k),
            forall|k: i64| #[trigger]
                m@.contains_key(k) <==> before.contains_key(k) && !(keys@.take(i as int).contains(k)
                    && still_used(before[k], now) == nothing_used()),
            forall|k: i64|
                m@.contains_key(k) ==> #[trigger] m@[k] == if keys@.take(i as int).contains(k) {
                    still_used(before[k], now)
                } else {
                    before[k]
                },
        decreases keys@.len() - i,
    {
        broadcast use group_hash_axioms;

        let k: i64 = keys[i];
        proof {
            lemma_next_key(keys@, i as int);
            assert(m@.contains_key(k));
        }
        if let Some(c) = m.remove(&k) {
            let food: Option<ConsumableTimer> = running_timer(&c.food, now);
            let syrup: Option<ConsumableTimer> = running_timer(&c.syrup, now);
            if food.is_some() || syrup.is_some() {
                m.insert(k, PlayerConsumables { food, syrup });
            }
        }
        i += 1;
    }
    proof {
        assert(keys@.take(i as int) =~= keys@);
        assert(m@ =~= swept(before, now));
    }
}

/// Takes in the effects that are seen on players at `now`, and leaves out meals and potions that
/// have ended. What is not seen any more stays until it ends.
pub fn refresh_consumables(
    encounter: &mut Encounter,
    seen: &Vec<(i64, Vec<BuffStateSnapshot>)>,
    ids: &ConsumableIds,
    now: u128,
)
    ensures
        final(encounter)@ == (EncounterView {
            consumables: swept(
                players_noticed(old(encounter)@.consumables, seen@, *ids, now),
                now,
            ),
            ..old(encounter)@
        }),
{
    notice_players(&mut encounter.consumables, seen, ids, now);
    sweep(&mut encounter.consumables, now);
}

/// Effects on others do not matter to a player.
proof fn lemma_unseen(
    m: Map<i64, PlayerConsumables>,
    seen: Seq<(i64, Vec<BuffStateSnapshot>)>,
    ids: ConsumableIds,
    now: u128,
    uid: i64,
)
    requires
        forall|i: int| 0 <= i < seen.len() ==> (#[trigger] seen[i]).0 != uid,
    ensures
        players_noticed(m, seen, ids, now).contains_key(uid) == m.contains_key(uid),
        m.contains_key(uid) ==> players_noticed(m, seen, ids, now)[uid] == m[uid],
    decreases seen.len(),
{
    if seen.len() > 0 {
        assert(seen[seen.len() - 1].0 != uid);
        lemma_unseen(m, seen.drop_last(), ids, now, uid);
    }
}

/// A meal or potion on whose player no effect is seen is kept as it was until it ends, and is not
/// kept longer.
pub proof fn law_unseen_meals_stay(
    m: Map<i64, PlayerConsumables>,
    seen: Seq<(i64, Vec<BuffStateSnapshot>)>,
    ids: ConsumableIds,
    now: u128,
    uid: i64,
)
    requires
        m.contains_key(uid),
        forall|i: int| 0 <= i < seen.len() ==> (#[trigger] seen[i]).0 != uid,
    ensures
        ({
            let after = swept(players_noticed(m, seen, ids, now), now);
            &&& after.contains_key(uid) == (still_used(m[uid], now) != nothing_used())
            &&& after.contains_key(uid) ==> after[uid] == still_used(m[uid], now)
        }),
{
    lemma_unseen(m, seen, ids, now, uid);
}

} // verus!
