//! The laws of the engine, stated and proved once and for all: periodicity
//! of green windows, non-overlap within a block, the inertness of
//! unscheduled streets, FIFO release order, the agreement of the two score
//! aggregation strategies, and determinism of the score.
use vstd::prelude::*;

use crate::data::{PCarPath, PInputData, PIntersectionSchedule, POutputData, PStreet};
use crate::model::{
    advance_upto, apply_block_upto, block_period, car_contribution, cars_score,
    compile_upto, inv_state, lemma_advance_upto_preserves, lemma_init_inv,
    lemma_release_upto_preserves, lemma_run_preserves, prefix_duration, queued_ok, release_upto,
    spec_compile, spec_init, spec_run, spec_tick, wf_prog, SpecState,
};
use crate::score::{
    green_at, lemma_prefix_duration_mono, lookup_street, spec_is_green, spec_total_score,
    wf_block, wf_car_path, LightSchedule,
};

verus! {

// ---------------------------------------------------------------------------
// Periodicity
// ---------------------------------------------------------------------------

/// A compiled green window repeats with its period: whether a street is
/// green at tick `t` depends only on `t` modulo the period.
pub proof fn lemma_is_green_periodic(t: int, ls: LightSchedule)
    requires
        ls.2 >= 1,
        0 <= t,
    ensures
        spec_is_green(t, ls) == spec_is_green(t + ls.2, ls),
{
    vstd::arithmetic::div_mod::lemma_mod_add_multiples_vanish(t, ls.2 as int);
}

// ---------------------------------------------------------------------------
// Non-overlap within a block
// ---------------------------------------------------------------------------

/// Within one intersection's compiled block, at most one street is green at
/// any tick: the block's windows are contiguous and non-overlapping over one
/// period. Entry `e` of a block compiles to the window whose offset is the
/// sum of the durations before it and whose period is the block's total.
pub proof fn lemma_block_at_most_one_green(lights: Seq<(Vec<u8>, usize)>, t: int, e1: int, e2: int)
    requires
        0 <= e1 < lights.len(),
        0 <= e2 < lights.len(),
        e1 != e2,
        block_period(lights) >= 1,
    ensures
        !(green_at(t, prefix_duration(lights, e1), lights[e1].1 as int, block_period(lights))
            && green_at(t, prefix_duration(lights, e2), lights[e2].1 as int, block_period(
            lights,
        ))),
{
    let lo = if e1 < e2 {
        e1
    } else {
        e2
    };
    let hi = if e1 < e2 {
        e2
    } else {
        e1
    };
    lemma_prefix_duration_mono(lights, lo + 1, hi);
}

/// The green window that entry `e` of a block compiles to.
pub open spec fn block_window_of(lights: Seq<(Vec<u8>, usize)>, e: int) -> LightSchedule {
    (prefix_duration(lights, e) as usize, lights[e].1, block_period(lights) as usize)
}

/// The map entry of street `s` is the window of one of the block's first
/// `k` entries.
pub open spec fn entry_from_block_prefix(
    m2: Seq<Option<LightSchedule>>,
    streets: Seq<PStreet>,
    lights: Seq<(Vec<u8>, usize)>,
    k: int,
    s: int,
) -> bool {
    exists|e: int|
        0 <= e < k && #[trigger] lookup_street(streets, lights[e].0@) == Some(s) && m2[s] == Some(
            block_window_of(lights, e),
        )
}

/// The map entry of street `s` is the window of an entry of one of the
/// first `kmax` blocks.
pub open spec fn entry_from_some_block(
    m2: Seq<Option<LightSchedule>>,
    streets: Seq<PStreet>,
    blocks: Seq<PIntersectionSchedule>,
    kmax: int,
    s: int,
) -> bool {
    exists|k: int|
        0 <= k < kmax && #[trigger] entry_from_block_prefix(
            m2,
            streets,
            blocks[k].light_schedules@,
            blocks[k].light_schedules@.len() as int,
            s,
        )
}

proof fn lemma_apply_block_entry(
    m: Seq<Option<LightSchedule>>,
    streets: Seq<PStreet>,
    lights: Seq<(Vec<u8>, usize)>,
    k: int,
    s: int,
)
    requires
        0 <= k <= lights.len(),
        0 <= s < m.len(),
        m.len() == streets.len(),
    ensures
        apply_block_upto(m, streets, lights, k).len() == m.len(),
        apply_block_upto(m, streets, lights, k)[s] == m[s] || entry_from_block_prefix(
            apply_block_upto(m, streets, lights, k),
            streets,
            lights,
            k,
            s,
        ),
    decreases k,
{
    if k > 0 {
        lemma_apply_block_entry(m, streets, lights, k - 1, s);
        let m1 = apply_block_upto(m, streets, lights, k - 1);
        let m2 = apply_block_upto(m, streets, lights, k);
        match lookup_street(streets, lights[k - 1].0@) {
            Some(id) => {
                crate::score::lemma_lookup_street_in_range(streets, lights[k - 1].0@);
                if id == s {
                    assert(m2[s] == Some(block_window_of(lights, k - 1)));
                    assert(entry_from_block_prefix(m2, streets, lights, k, s));
                } else {
                    assert(m2[s] == m1[s]);
                    if m1[s] != m[s] {
                        let e = choose|e: int|
                            0 <= e < k - 1 && #[trigger] lookup_street(streets, lights[e].0@)
                                == Some(s) && m1[s] == Some(block_window_of(lights, e));
                        assert(lookup_street(streets, lights[e].0@) == Some(s));
                        assert(entry_from_block_prefix(m2, streets, lights, k, s));
                    }
                }
            },
            None => {},
        }
    }
}

/// Every compiled window comes from one schedule block: its offset is the
/// sum of the green durations before its entry in that block, its period
/// the block's total.
pub proof fn lemma_compiled_window_from_block(
    streets: Seq<PStreet>,
    blocks: Seq<PIntersectionSchedule>,
    kk: int,
    s: int,
)
    requires
        0 <= s < streets.len(),
        0 <= kk <= blocks.len(),
        compile_upto(streets, blocks, kk)[s] is Some,
    ensures
        compile_upto(streets, blocks, kk).len() == streets.len(),
        entry_from_some_block(compile_upto(streets, blocks, kk), streets, blocks, kk, s),
    decreases kk,
{
    if kk > 0 {
        let m1 = compile_upto(streets, blocks, kk - 1);
        let m2 = compile_upto(streets, blocks, kk);
        let lights = blocks[kk - 1].light_schedules@;
        assert(m1.len() == streets.len()) by {
            lemma_compile_len(streets, blocks, kk - 1);
        }
        lemma_apply_block_entry(m1, streets, lights, lights.len() as int, s);
        if m2[s] == m1[s] {
            lemma_compiled_window_from_block(streets, blocks, kk - 1, s);
            let k0 = choose|k: int|
                0 <= k < kk - 1 && #[trigger] entry_from_block_prefix(
                    m1,
                    streets,
                    blocks[k].light_schedules@,
                    blocks[k].light_schedules@.len() as int,
                    s,
                );
            let l0 = blocks[k0].light_schedules@;
            let e = choose|e: int|
                0 <= e < l0.len() && #[trigger] lookup_street(streets, l0[e].0@) == Some(s)
                    && m1[s] == Some(block_window_of(l0, e));
            assert(lookup_street(streets, l0[e].0@) == Some(s));
            assert(entry_from_block_prefix(m2, streets, l0, l0.len() as int, s));
            assert(entry_from_some_block(m2, streets, blocks, kk, s));
        } else {
            assert(entry_from_block_prefix(m2, streets, lights, lights.len() as int, s));
            assert(entry_from_some_block(m2, streets, blocks, kk, s));
        }
    }
}

proof fn lemma_compile_len(streets: Seq<PStreet>, blocks: Seq<PIntersectionSchedule>, kk: int)
    requires
        0 <= kk <= blocks.len(),
    ensures
        compile_upto(streets, blocks, kk).len() == streets.len(),
    decreases kk,
{
    if kk > 0 {
        lemma_compile_len(streets, blocks, kk - 1);
        lemma_apply_block_len_only(
            compile_upto(streets, blocks, kk - 1),
            streets,
            blocks[kk - 1].light_schedules@,
            blocks[kk - 1].light_schedules@.len() as int,
        );
    }
}

proof fn lemma_apply_block_len_only(
    m: Seq<Option<LightSchedule>>,
    streets: Seq<PStreet>,
    lights: Seq<(Vec<u8>, usize)>,
    k: int,
)
    requires
        0 <= k <= lights.len(),
        m.len() == streets.len(),
    ensures
        apply_block_upto(m, streets, lights, k).len() == m.len(),
    decreases k,
{
    if k > 0 {
        lemma_apply_block_len_only(m, streets, lights, k - 1);
        match lookup_street(streets, lights[k - 1].0@) {
            Some(id) => {
                crate::score::lemma_lookup_street_in_range(streets, lights[k - 1].0@);
            },
            None => {},
        }
    }
}

/// Two distinct streets whose compiled windows come from the same block are
/// never green at the same tick: within one intersection's compiled block,
/// at most one street is green.
pub proof fn lemma_same_block_not_both_green(
    streets: Seq<PStreet>,
    blocks: Seq<PIntersectionSchedule>,
    t: int,
    k: int,
    e1: int,
    e2: int,
    s1: int,
    s2: int,
)
    requires
        0 <= k < blocks.len(),
        wf_block(blocks[k]),
        0 <= e1 < blocks[k].light_schedules@.len(),
        0 <= e2 < blocks[k].light_schedules@.len(),
        lookup_street(streets, blocks[k].light_schedules@[e1].0@) == Some(s1),
        lookup_street(streets, blocks[k].light_schedules@[e2].0@) == Some(s2),
        s1 != s2,
        spec_compile(streets, blocks)[s1] == Some(
            block_window_of(blocks[k].light_schedules@, e1),
        ),
        spec_compile(streets, blocks)[s2] == Some(
            block_window_of(blocks[k].light_schedules@, e2),
        ),
    ensures
        !(spec_is_green(t, spec_compile(streets, blocks)[s1]->Some_0) && spec_is_green(
            t,
            spec_compile(streets, blocks)[s2]->Some_0,
        )),
{
    let lights = blocks[k].light_schedules@;
    assert(e1 != e2);
    lemma_prefix_duration_mono(lights, e1, e1);
    lemma_prefix_duration_mono(lights, e1 + 1, lights.len() as int);
    lemma_prefix_duration_mono(lights, e2, e2);
    lemma_prefix_duration_mono(lights, e2 + 1, lights.len() as int);
    assert(block_period(lights) >= 1);
    lemma_block_at_most_one_green(lights, t, e1, e2);
}

// ---------------------------------------------------------------------------
// Score aggregation and the worth of an unfinished car
// ---------------------------------------------------------------------------

/// The two aggregation strategies of the score agree: after any number of
/// ticks from the initial state, the incrementally accumulated score equals
/// the sum over all cars of their terminal contributions. A car that has not
/// finished contributes nothing to that sum.
pub proof fn lemma_score_is_sum_of_contributions(
    streets: Seq<PStreet>,
    car_paths: Seq<PCarPath>,
    scheds: Seq<Option<LightSchedule>>,
    duration: int,
    bonus: int,
    t: int,
)
    requires
        forall|j: int| 0 <= j < car_paths.len() ==> wf_car_path(#[trigger] car_paths[j]),
        car_paths.len() <= usize::MAX,
        streets.len() <= usize::MAX,
        scheds.len() == streets.len(),
        0 <= t <= usize::MAX,
    ensures
        spec_run(spec_init(streets, car_paths), scheds, duration, bonus, t).score == cars_score(
            spec_run(spec_init(streets, car_paths), scheds, duration, bonus, t).cars,
            duration,
            bonus,
        ),
{
    lemma_init_inv(streets, car_paths, duration, bonus);
    lemma_run_preserves(
        spec_init(streets, car_paths),
        scheds,
        duration,
        bonus,
        t,
        streets.len() as int,
        car_paths.len() as int,
    );
}

/// A car still waiting in some street queue has not finished its route and
/// contributes nothing to the terminal-pass sum.
pub proof fn lemma_queued_car_contributes_zero(
    st: SpecState,
    s: int,
    j: int,
    n_streets: int,
    n_cars: int,
    duration: int,
    bonus: int,
)
    requires
        inv_state(st, n_streets, n_cars),
        0 <= s < n_streets,
        0 <= j < st.queues[s].len(),
    ensures
        car_contribution(st.cars[st.queues[s][j] as int].actions, duration, bonus) == 0,
{
    assert(queued_ok(st, s, j));
}

// ---------------------------------------------------------------------------
// Queue discipline
// ---------------------------------------------------------------------------

/// The car a street releases at a tick, if any: with a compiled window,
/// a green light, and a non-empty queue, the queue's head.
pub open spec fn releases(
    st: SpecState,
    scheds: Seq<Option<LightSchedule>>,
    t: int,
    s: int,
) -> Option<usize> {
    match scheds[s] {
        Some(ls) => if spec_is_green(t, ls) && st.queues[s].len() > 0 {
            Some(st.queues[s][0])
        } else {
            None
        },
        None => None,
    }
}

/// The release step touches each queue exactly once: street `s` keeps its
/// queue, except that its head leaves when a release fires there.
pub proof fn lemma_release_upto_queue(
    st: SpecState,
    scheds: Seq<Option<LightSchedule>>,
    t: int,
    k: int,
    s: int,
)
    requires
        st.queues.len() == scheds.len(),
        0 <= s < scheds.len(),
        0 <= k <= scheds.len(),
    ensures
        release_upto(st, scheds, t, k).queues.len() == st.queues.len(),
        release_upto(st, scheds, t, k).queues[s] == (if s < k && releases(st, scheds, t, s)
            is Some {
            st.queues[s].drop_first()
        } else {
            st.queues[s]
        }),
    decreases k,
{
    if k > 0 {
        lemma_release_upto_queue(st, scheds, t, k - 1, s);
        lemma_release_upto_queue(st, scheds, t, k - 1, k - 1);
    }
}

/// The arrival step only appends to queues: what a queue held stays, in
/// place, and newly queued cars stand behind it.
pub proof fn lemma_advance_upto_queue_prefix(
    st: SpecState,
    t: int,
    duration: int,
    bonus: int,
    k: int,
    s: int,
    n_streets: int,
    n_cars: int,
)
    requires
        inv_state(st, n_streets, n_cars),
        0 <= s < n_streets,
        0 <= k <= n_cars,
        0 <= t <= usize::MAX,
        n_streets <= usize::MAX,
        n_cars <= usize::MAX,
    ensures
        advance_upto(st, t, duration, bonus, k).queues.len() == n_streets,
        advance_upto(st, t, duration, bonus, k).queues[s].len() >= st.queues[s].len(),
        forall|j: int|
            0 <= j < st.queues[s].len() ==> advance_upto(st, t, duration, bonus, k).queues[s][j]
                == st.queues[s][j],
    decreases k,
{
    if k > 0 {
        lemma_advance_upto_queue_prefix(st, t, duration, bonus, k - 1, s, n_streets, n_cars);
        lemma_advance_upto_preserves(st, t, duration, bonus, k - 1, n_streets, n_cars);
        let mid = advance_upto(st, t, duration, bonus, k - 1);
        let car = mid.cars[k - 1];
        if car.actions.len() > 0 && car.actions[0] is Driving && car.distance
            >= car.actions[0]->Driving_1 as int && car.actions.drop_first().len() > 0 {
            assert(wf_prog(car.actions, n_streets));
            assert(car.actions[1] is Waiting);
        }
    }
}

/// What one tick does to one street's queue: the head leaves if the street
/// releases, and cars arriving during the tick are appended behind what
/// remains.
pub proof fn lemma_tick_queue_shape(
    st: SpecState,
    scheds: Seq<Option<LightSchedule>>,
    t: int,
    duration: int,
    bonus: int,
    s: int,
    n_streets: int,
    n_cars: int,
)
    requires
        inv_state(st, n_streets, n_cars),
        scheds.len() == n_streets,
        0 <= s < n_streets,
        0 <= t <= usize::MAX,
        n_streets <= usize::MAX,
        n_cars <= usize::MAX,
    ensures
        spec_tick(st, scheds, t, duration, bonus).queues.len() == n_streets,
        ({
            let base = if releases(st, scheds, t, s) is Some {
                st.queues[s].drop_first()
            } else {
                st.queues[s]
            };
            let q1 = spec_tick(st, scheds, t, duration, bonus).queues[s];
            &&& q1.len() >= base.len()
            &&& (forall|j: int| 0 <= j < base.len() ==> q1[j] == base[j])
        }),
{
    lemma_release_upto_queue(st, scheds, t, n_streets, s);
    lemma_release_upto_preserves(st, scheds, t, n_streets, n_streets, n_cars, duration, bonus);
    let st1 = release_upto(st, scheds, t, n_streets);
    lemma_advance_upto_queue_prefix(st1, t, duration, bonus, n_cars, s, n_streets, n_cars);
}

// ---------------------------------------------------------------------------
// Unscheduled streets
// ---------------------------------------------------------------------------

/// A street with no compiled window is never green at any tick: no release
/// ever fires there.
pub proof fn lemma_unscheduled_never_releases(
    st: SpecState,
    scheds: Seq<Option<LightSchedule>>,
    t: int,
    s: int,
)
    requires
        0 <= s < scheds.len(),
        scheds[s] is None,
    ensures
        releases(st, scheds, t, s) is None,
{
}

/// A car waiting at a street absent from every schedule waits forever:
/// from any tick to any later tick, the queue there keeps everything it
/// held, in place.
pub proof fn lemma_unscheduled_queue_persists(
    st: SpecState,
    scheds: Seq<Option<LightSchedule>>,
    duration: int,
    bonus: int,
    t1: int,
    t2: int,
    s: int,
    n_streets: int,
    n_cars: int,
)
    requires
        inv_state(st, n_streets, n_cars),
        scheds.len() == n_streets,
        0 <= s < n_streets,
        scheds[s] is None,
        0 <= t1 <= t2 <= usize::MAX,
        n_streets <= usize::MAX,
        n_cars <= usize::MAX,
    ensures
        spec_run(st, scheds, duration, bonus, t2).queues[s].len() >= spec_run(
            st,
            scheds,
            duration,
            bonus,
            t1,
        ).queues[s].len(),
        forall|j: int|
            0 <= j < spec_run(st, scheds, duration, bonus, t1).queues[s].len() ==> spec_run(
                st,
                scheds,
                duration,
                bonus,
                t2,
            ).queues[s][j] == spec_run(st, scheds, duration, bonus, t1).queues[s][j],
    decreases t2 - t1,
{
    if t2 > t1 {
        lemma_unscheduled_queue_persists(
            st,
            scheds,
            duration,
            bonus,
            t1,
            t2 - 1,
            s,
            n_streets,
            n_cars,
        );
        lemma_run_preserves(st, scheds, duration, bonus, t2 - 1, n_streets, n_cars);
        lemma_tick_queue_shape(
            spec_run(st, scheds, duration, bonus, t2 - 1),
            scheds,
            t2 - 1,
            duration,
            bonus,
            s,
            n_streets,
            n_cars,
        );
    }
}

/// A car standing, at any tick, in the queue of a street absent from every
/// schedule is still standing there when the horizon is reached: it never
/// finishes its route and contributes nothing to the final score.
pub proof fn lemma_unscheduled_car_scores_zero(
    st: SpecState,
    scheds: Seq<Option<LightSchedule>>,
    duration: int,
    bonus: int,
    t: int,
    s: int,
    j: int,
    n_streets: int,
    n_cars: int,
)
    requires
        inv_state(st, n_streets, n_cars),
        scheds.len() == n_streets,
        0 <= s < n_streets,
        scheds[s] is None,
        0 <= t <= duration <= usize::MAX,
        n_streets <= usize::MAX,
        n_cars <= usize::MAX,
        0 <= j < spec_run(st, scheds, duration, bonus, t).queues[s].len(),
    ensures
        car_contribution(
            spec_run(st, scheds, duration, bonus, duration).cars[spec_run(
                st,
                scheds,
                duration,
                bonus,
                t,
            ).queues[s][j] as int].actions,
            duration,
            bonus,
        ) == 0,
{
    lemma_unscheduled_queue_persists(st, scheds, duration, bonus, t, duration, s, n_streets, n_cars);
    lemma_run_preserves(st, scheds, duration, bonus, duration, n_streets, n_cars);
    let fin = spec_run(st, scheds, duration, bonus, duration);
    lemma_queued_car_contributes_zero(fin, s, j, n_streets, n_cars, duration, bonus);
}

// ---------------------------------------------------------------------------
// FIFO release order
// ---------------------------------------------------------------------------

/// Car `a` stands strictly ahead of car `b` in the queue of street `s`.
pub open spec fn ahead_in_queue(st: SpecState, s: int, a: usize, b: usize) -> bool {
    exists|ia: int, ib: int|
        0 <= ia < ib < st.queues[s].len() && #[trigger] st.queues[s][ia] == a
            && #[trigger] st.queues[s][ib] == b
}

/// While `a` has not been released from street `s`, it stays ahead of `b`:
/// only the head ever leaves a queue, and arrivals join at the back.
proof fn lemma_fifo_progress(
    st: SpecState,
    scheds: Seq<Option<LightSchedule>>,
    duration: int,
    bonus: int,
    m: int,
    s: int,
    a: usize,
    b: usize,
    n_streets: int,
    n_cars: int,
)
    requires
        inv_state(st, n_streets, n_cars),
        scheds.len() == n_streets,
        0 <= s < n_streets,
        ahead_in_queue(st, s, a, b),
        0 <= m <= usize::MAX,
        n_streets <= usize::MAX,
        n_cars <= usize::MAX,
    ensures
        ahead_in_queue(spec_run(st, scheds, duration, bonus, m), s, a, b) || (exists|m2: int|
            0 <= m2 < m && #[trigger] releases(
                spec_run(st, scheds, duration, bonus, m2),
                scheds,
                m2,
                s,
            ) == Some(a)),
    decreases m,
{
    if m > 0 {
        lemma_fifo_progress(st, scheds, duration, bonus, m - 1, s, a, b, n_streets, n_cars);
        let stm = spec_run(st, scheds, duration, bonus, m - 1);
        lemma_run_preserves(st, scheds, duration, bonus, m - 1, n_streets, n_cars);
        if ahead_in_queue(stm, s, a, b) {
            let (ia, ib) = choose|ia: int, ib: int|
                0 <= ia < ib < stm.queues[s].len() && #[trigger] stm.queues[s][ia] == a
                    && #[trigger] stm.queues[s][ib] == b;
            lemma_tick_queue_shape(stm, scheds, m - 1, duration, bonus, s, n_streets, n_cars);
            let q1 = spec_run(st, scheds, duration, bonus, m).queues[s];
            match releases(stm, scheds, m - 1, s) {
                Some(c) => {
                    if c == a {
                        assert(releases(spec_run(st, scheds, duration, bonus, m - 1), scheds, m - 1, s)
                            == Some(a));
                    } else {
                        // The head that leaves is neither car: both shift
                        // forward by one and keep their order.
                        assert(stm.queues[s][0] == c);
                        assert(ia != 0);
                        let base = stm.queues[s].drop_first();
                        assert(base[ia - 1] == stm.queues[s][ia]);
                        assert(base[ib - 1] == stm.queues[s][ib]);
                        assert(q1[ia - 1] == a);
                        assert(q1[ib - 1] == b);
                        assert(ahead_in_queue(spec_run(st, scheds, duration, bonus, m), s, a, b));
                    }
                },
                None => {
                    assert(q1[ia] == a);
                    assert(q1[ib] == b);
                    assert(ahead_in_queue(spec_run(st, scheds, duration, bonus, m), s, a, b));
                },
            }
        }
    }
}

/// FIFO law: if car `a` is enqueued ahead of car `b` at street `s`, and `b`
/// is the car the street releases at tick `m`, then `a` was released there
/// at some strictly earlier tick. A later arrival never overtakes an
/// earlier one, under any schedule and any timing.
pub proof fn lemma_queue_fifo(
    st: SpecState,
    scheds: Seq<Option<LightSchedule>>,
    duration: int,
    bonus: int,
    m: int,
    s: int,
    a: usize,
    b: usize,
    n_streets: int,
    n_cars: int,
)
    requires
        inv_state(st, n_streets, n_cars),
        scheds.len() == n_streets,
        0 <= s < n_streets,
        ahead_in_queue(st, s, a, b),
        releases(spec_run(st, scheds, duration, bonus, m), scheds, m, s) == Some(b),
        0 <= m <= usize::MAX,
        n_streets <= usize::MAX,
        n_cars <= usize::MAX,
    ensures
        exists|m2: int|
            0 <= m2 < m && #[trigger] releases(
                spec_run(st, scheds, duration, bonus, m2),
                scheds,
                m2,
                s,
            ) == Some(a),
{
    lemma_fifo_progress(st, scheds, duration, bonus, m, s, a, b, n_streets, n_cars);
    let stm = spec_run(st, scheds, duration, bonus, m);
    if ahead_in_queue(stm, s, a, b) {
        // Impossible: `b` would both head the queue and stand strictly
        // behind `a` in it, but a car stands in queues only once.
        lemma_run_preserves(st, scheds, duration, bonus, m, n_streets, n_cars);
        let (ia, ib) = choose|ia: int, ib: int|
            0 <= ia < ib < stm.queues[s].len() && #[trigger] stm.queues[s][ia] == a
                && #[trigger] stm.queues[s][ib] == b;
        assert(stm.queues[s][0] == b);
        assert(false);
    }
}

// ---------------------------------------------------------------------------
// Determinism
// ---------------------------------------------------------------------------

/// Determinism: the score is a pure function of the two documents. Any two
/// results that meet the engine's contract on the same documents are equal.
pub proof fn lemma_score_deterministic(
    r1: usize,
    r2: usize,
    input: PInputData,
    output: POutputData,
)
    requires
        r1 as int == spec_total_score(input, output),
        r2 as int == spec_total_score(input, output),
    ensures
        r1 == r2,
{
}

} // verus!

