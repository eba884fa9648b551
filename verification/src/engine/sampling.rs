//! The course of an encounter: what everyone had done at certain times.

use crate::engine::combat_stats::CombatStats;
use crate::engine::encounter::{entity_views, Encounter, EncounterView, MeasureMode};
use crate::engine::entity::{series_views, Entity, EntityView, TimeSeriesPoint};
use crate::engine::runtime_settings::RuntimeSettings;
use crate::engine::walk::{key_list, lemma_next_key};
use crate::protocol::messages::EntityKind;
use std::collections::{HashMap, VecDeque};
use vstd::prelude::*;
use vstd::std_specs::hash::*;

verus! {

/// The last `cap` points of a course.
pub open spec fn last_points(s: Seq<TimeSeriesPoint>, cap: usize) -> Seq<TimeSeriesPoint> {
    if s.len() > cap {
        s.skip(s.len() - cap)
    } else {
        s
    }
}

/// The number of points that are kept: as many as set, but the whole of a measurement of fixed
/// length.
pub open spec fn point_cap(mode: MeasureMode, settings: RuntimeSettings) -> usize
    recommends
        settings.ts_interval_ms > 0,
{
    match mode {
        MeasureMode::Active3Min { armed_at_ms, duration_ms } => {
            let n = (duration_ms as int / settings.ts_interval_ms as int) % (usize::MAX + 1) + 2;
            if n > usize::MAX {
                usize::MAX
            } else if n > settings.ts_samples {
                n as usize
            } else {
                settings.ts_samples
            }
        },
        _ => settings.ts_samples,
    }
}

/// How a point is taken.
pub struct Sampling {
    /// Milliseconds since the beginning.
    pub t_ms: u128,
    /// Milliseconds since the sample before.
    pub window_ms: u128,
    /// The number of points that are kept.
    pub cap: usize,
}

/// The time since the last sample.
pub open spec fn sample_gap(v: EncounterView, ts: u128) -> int {
    if ts >= v.last_sample_ms {
        ts - v.last_sample_ms
    } else {
        0
    }
}

/// Whether a sample is due: one was never taken, or the time between samples has passed.
pub open spec fn sample_due(v: EncounterView, settings: RuntimeSettings, ts: u128) -> bool {
    v.last_sample_ms == 0 || sample_gap(v, ts) >= settings.ts_interval_ms
}

/// Whether a sample is taken: one that is due, or one that is asked for at a later time than the
/// last.
pub open spec fn samples_now(
    v: EncounterView,
    settings: RuntimeSettings,
    ts: u128,
    force: bool,
) -> bool {
    settings.ts_interval_ms != 0 && (sample_due(v, settings, ts) || (force && sample_gap(v, ts)
        > 0))
}

/// How a sample is taken at a time.
pub open spec fn sampling_at(v: EncounterView, settings: RuntimeSettings, ts: u128) -> Sampling {
    Sampling {
        t_ms: if ts >= v.start_ms {
            (ts - v.start_ms) as u128
        } else {
            0
        },
        window_ms: if v.last_sample_ms == 0 {
            settings.ts_interval_ms as u128
        } else {
            sample_gap(v, ts) as u128
        },
        cap: point_cap(v.mode, settings),
    }
}

/// A course with one point more.
pub open spec fn extended(
    s: Seq<TimeSeriesPoint>,
    total: i64,
    previous: i64,
    how: Sampling,
) -> Seq<TimeSeriesPoint> {
    last_points(
        s.push(
            TimeSeriesPoint {
                t_ms: how.t_ms,
                total_dmg: total,
                previous_dmg: previous,
                window_ms: how.window_ms,
            },
        ),
        how.cap,
    )
}

/// The course of a skill.
pub open spec fn series_at(m: Map<i32, Seq<TimeSeriesPoint>>, k: i32) -> Seq<TimeSeriesPoint> {
    if m.contains_key(k) {
        m[k]
    } else {
        Seq::empty()
    }
}

/// The total of a skill at its last sample.
pub open spec fn last_at(m: Map<i32, i64>, k: i32) -> i64 {
    if m.contains_key(k) {
        m[k]
    } else {
        0
    }
}

/// The courses of skills after a sample of each that dealt damage.
pub open spec fn skills_sampled(
    series: Map<i32, Seq<TimeSeriesPoint>>,
    last: Map<i32, i64>,
    dmg: Map<i32, CombatStats>,
    how: Sampling,
) -> Map<i32, Seq<TimeSeriesPoint>> {
    series.union_prefer_right(
        dmg.map_entries(
            |k: i32, s: CombatStats|
                extended(series_at(series, k), s.total, last_at(last, k), how),
        ),
    )
}

/// The totals of skills at their last samples, after a sample of each that dealt damage.
pub open spec fn skill_totals(last: Map<i32, i64>, dmg: Map<i32, CombatStats>) -> Map<i32, i64> {
    last.union_prefer_right(dmg.map_values(|s: CombatStats| s.total))
}

/// An entity after a sample: of players that dealt damage or have a course already.
pub open spec fn sampled_entity(e: EntityView, how: Sampling) -> EntityView {
    if e.entity_type != EntityKind::Player || (e.dmg.total == 0 && e.series.len() == 0) {
        e
    } else {
        EntityView {
            series: extended(e.series, e.dmg.total, e.last_sample, how),
            last_sample: e.dmg.total,
            skill_series: skills_sampled(e.skill_series, e.skill_last, e.skill_dmg, how),
            skill_last: skill_totals(e.skill_last, e.skill_dmg),
            ..e
        }
    }
}

/// The encounter after a sample at `ts`.
pub open spec fn sampled(
    v: EncounterView,
    settings: RuntimeSettings,
    ts: u128,
    force: bool,
) -> EncounterView {
    if samples_now(v, settings, ts, force) {
        let how = sampling_at(v, settings, ts);
        EncounterView {
            series: extended(v.series, v.dmg.total, v.last_sample, how),
            entities: v.entities.map_values(|e: EntityView| sampled_entity(e, how)),
            last_sample_ms: ts,
            last_sample: v.dmg.total,
            ..v
        }
    } else {
        v
    }
}

/// Adds a point to a course.
fn extend_series(series: &mut VecDeque<TimeSeriesPoint>, total: i64, previous: i64, how: &Sampling)
    ensures
        final(series)@ == extended(old(series)@, total, previous, *how),
{
    series.push_back(
        TimeSeriesPoint {
            t_ms: how.t_ms,
            total_dmg: total,
            previous_dmg: previous,
            window_ms: how.window_ms,
        },
    );
    let ghost all = series@;
    while series.len() > how.cap
        invariant
            last_points(series@, how.cap) == last_points(all, how.cap),
        decreases series@.len(),
    {
        let ghost now = series@;
        series.pop_front();
        proof {
            assert(series@ =~= now.skip(1));
            assert(now.skip(1).skip(now.len() - 1 - how.cap) =~= now.skip(now.len() - how.cap));
            if series@.len() == how.cap {
                assert(now.skip(now.len() - how.cap) =~= series@);
            }
        }
    }
}

/// Takes a sample of each skill.
fn sample_skills(
    dmg: &HashMap<i32, CombatStats>,
    series: &mut HashMap<i32, VecDeque<TimeSeriesPoint>>,
    last: &mut HashMap<i32, i64>,
    how: &Sampling,
)
    ensures
        series_views(final(series)@) == skills_sampled(
            series_views(old(series)@),
            old(last)@,
            dmg@,
            *how,
        ),
        final(last)@ == skill_totals(old(last)@, dmg@),
{
    broadcast use group_hash_axioms;

    let ghost s0 = series_views(series@);
    let ghost l0 = last@;
    let keys: Vec<i32> = key_list(dmg);
    let mut i: usize = 0;
    while i < keys.len()
        invariant
            i <= keys@.len(),
            keys@.no_duplicates(),
            forall|k: i32| #[trigger] keys@.contains(k) <==> dmg@.contains_key(k),
            forall|k: i32| #[trigger]
                series@.contains_key(k) <==> s0.contains_key(k) || keys@.take(i as int).contains(k),
            forall|k: i32|
                series@.contains_key(k) ==> (#[trigger] series@[k])@ == if keys@.take(
                    i as int,
                ).contains(k) {
                    extended(series_at(s0, k), dmg@[k].total, last_at(l0, k), *how)
                } else {
                    s0[k]
                },
            forall|k: i32| #[trigger]
                last@.contains_key(k) <==> l0.contains_key(k) || keys@.take(i as int).contains(k),
            forall|k: i32|
                last@.contains_key(k) ==> #[trigger] last@[k] == if keys@.take(i as int).contains(
                    k,
                ) {
                    dmg@[k].total
                } else {
                    l0[k]
                },
        decreases keys@.len() - i,
    {
        broadcast use group_hash_axioms;

        let k: i32 = keys[i];
        proof {
            lemma_next_key(keys@, i as int);
        }
        let total: i64 = match dmg.get(&k) {
            Some(s) => s.total,
            None => 0,
        };
        let previous: i64 = match last.get(&k) {
            Some(x) => *x,
            None => 0,
        };
        let mut course: VecDeque<TimeSeriesPoint> = match series.remove(&k) {
            Some(c) => c,
            None => VecDeque::new(),
        };
        assert(course@ =~= series_at(s0, k));
        extend_series(&mut course, total, previous, how);
        series.insert(k, course);
        last.insert(k, total);
        i += 1;
    }
    proof {
        assert(keys@.take(i as int) =~= keys@);
        assert(last@ =~= skill_totals(l0, dmg@));
        assert(series_views(series@) =~= skills_sampled(s0, l0, dmg@, *how));
    }
}

/// Takes a sample of an entity.
fn sample_entity(e: &mut Entity, how: &Sampling)
    ensures
        final(e)@ == sampled_entity(old(e)@, *how),
{
    if e.entity_type != EntityKind::Player {
        return;
    }
    if e.dmg_stats.total == 0 && e.time_series.len() == 0 {
        return;
    }
    extend_series(&mut e.time_series, e.dmg_stats.total, e.last_sample_total_dmg, how);
    e.last_sample_total_dmg = e.dmg_stats.total;
    sample_skills(
        &e.skill_uid_to_dps_stats,
        &mut e.skill_time_series,
        &mut e.skill_last_sample_total_dmg,
        how,
    );
}

/// Takes a sample of every entity.
fn sample_entities(entities: &mut HashMap<i64, Entity>, how: &Sampling)
    ensures
        entity_views(final(entities)@) == entity_views(old(entities)@).map_values(
            |e: EntityView| sampled_entity(e, *how),
        ),
{
    broadcast use group_hash_axioms;

    let ghost before = entity_views(entities@);
    let keys: Vec<i64> = key_list(entities);
    let mut i: usize = 0;
    while i < keys.len()
        invariant
            i <= keys@.len(),
            keys@.no_duplicates(),
            forall|k: i64| #[trigger] keys@.contains(k) <==> before.contains_key(k),
            forall|k: i64| #[trigger] entities@.contains_key(k) <==> before.contains_key(k),
            forall|k: i64|
                entities@.contains_key(k) ==> (#[trigger] entities@[k])@ == if keys@.take(
                    i as int,
                ).contains(k) {
                    sampled_entity(before[k], *how)
                } else {
                    before[k]
                },
        decreases keys@.len() - i,
    {
        broadcast use group_hash_axioms;

        let k: i64 = keys[i];
        proof {
            lemma_next_key(keys@, i as int);
        }
        if let Some(mut e) = entities.remove(&k) {
            sample_entity(&mut e, how);
            entities.insert(k, e);
        }
        i += 1;
    }
    proof {
        assert(keys@.take(i as int) =~= keys@);
        assert(entity_views(entities@) =~= before.map_values(
            |e: EntityView| sampled_entity(e, *how),
        ));
    }
}

/// The number of points that are kept.
fn point_cap_of(mode: &MeasureMode, settings: &RuntimeSettings) -> (cap: usize)
    requires
        settings.ts_interval_ms > 0,
    ensures
        cap == point_cap(*mode, *settings),
{
    match mode {
        MeasureMode::Active3Min { armed_at_ms, duration_ms } => {
            let intervals: u128 = *duration_ms / settings.ts_interval_ms as u128;
            let low: usize = (intervals % (usize::MAX as u128 + 1)) as usize;
            let n: usize = if low > usize::MAX - 2 {
                usize::MAX
            } else {
                low + 2
            };
            if n > settings.ts_samples {
                n
            } else {
                settings.ts_samples
            }
        },
        _ => settings.ts_samples,
    }
}

/// Takes a sample at the time `ts`, where one is due. With `force` one is taken earlier too, unless
/// the last was taken at that very time, so that the course reaches to the end of a measurement.
pub fn take_time_series_sample(
    encounter: &mut Encounter,
    settings: &RuntimeSettings,
    ts: u128,
    force: bool,
)
    ensures
        final(encounter)@ == sampled(old(encounter)@, *settings, ts, force),
{
    if settings.ts_interval_ms == 0 {
        return;
    }
    let gap: u128 = if ts >= encounter.last_sample_ms {
        ts - encounter.last_sample_ms
    } else {
        0
    };
    let first: bool = encounter.last_sample_ms == 0;
    let due: bool = first || gap >= settings.ts_interval_ms as u128;
    if !due && (!force || gap == 0) {
        return;
    }
    let t_ms: u128 = if ts >= encounter.time_fight_start_ms {
        ts - encounter.time_fight_start_ms
    } else {
        0
    };
    let window_ms: u128 = if first {
        settings.ts_interval_ms as u128
    } else {
        gap
    };
    let how = Sampling { t_ms, window_ms, cap: point_cap_of(&encounter.measure_mode, settings) };
    let total: i64 = encounter.dmg_stats.total;
    extend_series(&mut encounter.time_series, total, encounter.last_sample_total_dmg, &how);
    sample_entities(&mut encounter.entities, &how);
    encounter.last_sample_ms = ts;
    encounter.last_sample_total_dmg = total;
}

/// Whether the points of a course are at least `interval` apart.
pub open spec fn spaced(s: Seq<TimeSeriesPoint>, interval: int) -> bool {
    forall|i: int| 0 < i < s.len() ==> (#[trigger] s[i]).t_ms >= s[i - 1].t_ms + interval
}

/// Whether the last point of the encounter's course is the last sample.
pub open spec fn course_ends_at_last(v: EncounterView) -> bool {
    &&& v.series.len() > 0
    &&& v.last_sample_ms != 0
    &&& v.last_sample_ms == v.start_ms + v.series.last().t_ms
}

proof fn lemma_spaced_length(s: Seq<TimeSeriesPoint>, interval: int)
    requires
        spaced(s, interval),
        s.len() > 0,
    ensures
        s.last().t_ms >= (s.len() - 1) * interval,
    decreases s.len(),
{
    if s.len() > 1 {
        let r = s.drop_last();
        assert forall|i: int| 0 < i < r.len() implies (#[trigger] r[i]).t_ms >= r[i - 1].t_ms
            + interval by {
            assert(r[i] == s[i]);
        }
        lemma_spaced_length(r, interval);
        assert(s[s.len() - 1].t_ms >= s[s.len() - 2].t_ms + interval);
        assert((s.len() - 1) * interval == (r.len() - 1) * interval + interval)
            by (nonlinear_arith)
            requires
                s.len() == r.len() + 1,
        ;
    } else {
        assert((s.len() - 1) * interval == 0) by (nonlinear_arith)
            requires
                s.len() == 1,
        ;
    }
}

/// No course is longer than the number of points that are kept.
pub proof fn law_course_is_bounded(
    v: EncounterView,
    settings: RuntimeSettings,
    ts: u128,
    force: bool,
    uid: i64,
)
    requires
        samples_now(v, settings, ts, force),
        v.entities.contains_key(uid),
        v.entities[uid].series.len() <= point_cap(v.mode, settings),
    ensures
        sampled(v, settings, ts, force).series.len() <= point_cap(v.mode, settings),
        sampled(v, settings, ts, force).entities[uid].series.len() <= point_cap(v.mode, settings),
{
}

/// A measurement of fixed length keeps its whole course: as long as the points lie within its
/// duration and were taken when due, one point more drops none, so that the course begins at the
/// left edge.
pub proof fn law_measurement_keeps_course(
    v: EncounterView,
    settings: RuntimeSettings,
    ts: u128,
    force: bool,
)
    requires
        settings.ts_interval_ms > 0,
        spaced(v.series, settings.ts_interval_ms as int),
        v.mode matches MeasureMode::Active3Min { armed_at_ms, duration_ms } && duration_ms as int
            / settings.ts_interval_ms as int + 2 <= usize::MAX && (v.series.len() > 0
            ==> v.series.last().t_ms <= duration_ms),
    ensures
        v.series.is_prefix_of(sampled(v, settings, ts, force).series),
{
    if let MeasureMode::Active3Min { armed_at_ms, duration_ms } = v.mode {
        let n = settings.ts_interval_ms as int;
        let q = duration_ms as int / n;
        vstd::arithmetic::div_mod::lemma_div_pos_is_pos(duration_ms as int, n);
        vstd::arithmetic::div_mod::lemma_small_mod(q as nat, (usize::MAX + 1) as nat);
        if v.series.len() > 0 {
            lemma_spaced_length(v.series, n);
            let m = v.series.len() - 1;
            vstd::arithmetic::div_mod::lemma_div_is_ordered(m * n, duration_ms as int, n);
            vstd::arithmetic::div_mod::lemma_div_multiples_vanish(m, n);
            assert(m * n == n * m) by (nonlinear_arith);
            assert(m <= q);
        }
        assert(v.series.len() + 1 <= q + 2);
        assert(q + 2 <= point_cap(v.mode, settings));
        let how = sampling_at(v, settings, ts);
        let p = TimeSeriesPoint {
            t_ms: how.t_ms,
            total_dmg: v.dmg.total,
            previous_dmg: v.last_sample,
            window_ms: how.window_ms,
        };
        assert(v.series.push(p).take(v.series.len() as int) =~= v.series);
    }
}

/// Points that are taken when due stay apart, and the last one is the last sample.
pub proof fn law_due_samples_are_spaced(v: EncounterView, settings: RuntimeSettings, ts: u128)
    requires
        course_ends_at_last(v),
        spaced(v.series, settings.ts_interval_ms as int),
        ts >= v.last_sample_ms,
        point_cap(v.mode, settings) > 0,
        settings.ts_interval_ms > 0,
    ensures
        course_ends_at_last(sampled(v, settings, ts, false)),
        spaced(sampled(v, settings, ts, false).series, settings.ts_interval_ms as int),
{
    let w = sampled(v, settings, ts, false);
    if samples_now(v, settings, ts, false) {
        let how = sampling_at(v, settings, ts);
        let p = TimeSeriesPoint {
            t_ms: how.t_ms,
            total_dmg: v.dmg.total,
            previous_dmg: v.last_sample,
            window_ms: how.window_ms,
        };
        let all = v.series.push(p);
        assert(spaced(all, settings.ts_interval_ms as int));
        let d = all.len() - w.series.len();
        assert forall|i: int| 0 <= i < w.series.len() implies w.series[i] == all[i + d] by {}
        assert forall|i: int| 0 < i < w.series.len() implies (#[trigger] w.series[i]).t_ms
            >= w.series[i - 1].t_ms + settings.ts_interval_ms by {
            assert(all[i + d].t_ms >= all[i + d - 1].t_ms + settings.ts_interval_ms);
        }
    }
}

/// A sample that is asked for at the end of a measurement closes its course: the last point lies at
/// that very time, and is there once.
pub proof fn law_forced_sample_reaches_end(v: EncounterView, settings: RuntimeSettings, ts: u128)
    requires
        course_ends_at_last(v),
        ts >= v.last_sample_ms,
        point_cap(v.mode, settings) > 0,
        settings.ts_interval_ms > 0,
    ensures
        course_ends_at_last(sampled(v, settings, ts, true)),
        sampled(v, settings, ts, true).series.last().t_ms == ts - v.start_ms,
        ts == v.last_sample_ms ==> sampled(v, settings, ts, true) == v,
{
}

} // verus!
