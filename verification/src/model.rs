//! Mathematical model of the simulation: ghost state, the per-tick transition
//! written as spec functions, the structural invariants of a running
//! simulation, and the lemmas that the engine and the laws build on.
//!
//! The executable engine in `score` is proved to track this model step by
//! step, so the score it returns is exactly `spec_run(...)` applied to the
//! compiled documents.
use vstd::prelude::*;

use crate::data::{PCarPath, PIntersectionSchedule, PStreet};
use crate::score::{
    lemma_lookup_street_in_range, lookup_street, spec_is_green, wf_car_path, Action, CarTracker,
    LightSchedule,
};

verus! {

/// Ghost per-car simulation state: the remaining action program and the
/// distance already driven on the current street.
pub ghost struct SpecCar {
    pub actions: Seq<Action>,
    pub distance: int,
}

/// Ghost state of a whole simulation: per-car states, one FIFO queue of car
/// ids per street, and the score accumulated so far.
pub ghost struct SpecState {
    pub cars: Seq<SpecCar>,
    pub queues: Seq<Seq<usize>>,
    pub score: int,
}

// ---------------------------------------------------------------------------
// Light-schedule compilation
// ---------------------------------------------------------------------------

/// Sum of the green durations of the first `i` entries of one intersection's
/// block: the offset of entry `i` within the block's period.
pub open spec fn prefix_duration(lights: Seq<(Vec<u8>, usize)>, i: int) -> int
    decreases i,
{
    if i <= 0 {
        0
    } else {
        prefix_duration(lights, i - 1) + lights[i - 1].1
    }
}

/// The period of one intersection's block: the sum of all its durations.
pub open spec fn block_period(lights: Seq<(Vec<u8>, usize)>) -> int {
    prefix_duration(lights, lights.len() as int)
}

/// Enter the first `k` entries of one block into the per-street schedule map.
/// A later entry for the same street overwrites an earlier one.
pub open spec fn apply_block_upto(
    m: Seq<Option<LightSchedule>>,
    streets: Seq<PStreet>,
    lights: Seq<(Vec<u8>, usize)>,
    k: int,
) -> Seq<Option<LightSchedule>>
    decreases k,
{
    if k <= 0 {
        m
    } else {
        let m1 = apply_block_upto(m, streets, lights, k - 1);
        match lookup_street(streets, lights[k - 1].0@) {
            Some(id) => m1.update(
                id,
                Some(
                    (
                        prefix_duration(lights, k - 1) as usize,
                        lights[k - 1].1,
                        block_period(lights) as usize,
                    ),
                ),
            ),
            None => m1,
        }
    }
}

/// Enter the first `k` blocks of the schedule document into the map.
pub open spec fn compile_upto(
    streets: Seq<PStreet>,
    blocks: Seq<PIntersectionSchedule>,
    k: int,
) -> Seq<Option<LightSchedule>>
    decreases k,
{
    if k <= 0 {
        Seq::new(streets.len(), |i| None)
    } else {
        apply_block_upto(
            compile_upto(streets, blocks, k - 1),
            streets,
            blocks[k - 1].light_schedules@,
            blocks[k - 1].light_schedules@.len() as int,
        )
    }
}

/// The compiled schedule map: for each street id, its green window, or `None`
/// for a street never listed in any block — by definition permanently red.
pub open spec fn spec_compile(
    streets: Seq<PStreet>,
    blocks: Seq<PIntersectionSchedule>,
) -> Seq<Option<LightSchedule>> {
    compile_upto(streets, blocks, blocks.len() as int)
}

// ---------------------------------------------------------------------------
// Route plans and initial state
// ---------------------------------------------------------------------------

/// Actions contributed by street `i` of a route: a drive across it for every
/// street but the first (the car starts at the far end of its first street),
/// and a wait to cross at its end for every street but the last.
pub open spec fn route_seg(streets: Seq<PStreet>, names: Seq<Vec<u8>>, i: int) -> Seq<Action> {
    match lookup_street(streets, names[i]@) {
        Some(id) => {
            let drive: Seq<Action> = if i > 0 {
                seq![Action::Driving(id as usize, streets[id].street_length)]
            } else {
                Seq::empty()
            };
            let wait: Seq<Action> = if i + 1 < names.len() {
                seq![Action::Waiting(id as usize)]
            } else {
                Seq::empty()
            };
            drive + wait
        },
        None => Seq::empty(),
    }
}

/// The action program of a car: the segments of its first `k` streets.
pub open spec fn route_actions_upto(
    streets: Seq<PStreet>,
    names: Seq<Vec<u8>>,
    k: int,
) -> Seq<Action>
    decreases k,
{
    if k <= 0 {
        Seq::empty()
    } else {
        route_actions_upto(streets, names, k - 1) + route_seg(streets, names, k - 1)
    }
}

pub open spec fn route_actions(streets: Seq<PStreet>, names: Seq<Vec<u8>>) -> Seq<Action> {
    route_actions_upto(streets, names, names.len() as int)
}

pub open spec fn empty_queues(n: int) -> Seq<Seq<usize>> {
    Seq::new(n as nat, |i| Seq::empty())
}

/// Initial street queues: every car is enqueued at the end of the first
/// street of its route, in car order.
pub open spec fn seed_queues_upto(
    streets: Seq<PStreet>,
    car_paths: Seq<PCarPath>,
    k: int,
) -> Seq<Seq<usize>>
    decreases k,
{
    if k <= 0 {
        empty_queues(streets.len() as int)
    } else {
        let q = seed_queues_upto(streets, car_paths, k - 1);
        match lookup_street(streets, car_paths[k - 1].street_names@[0]@) {
            Some(id) => q.update(id, q[id].push((k - 1) as usize)),
            None => q,
        }
    }
}

pub open spec fn init_cars_upto(
    streets: Seq<PStreet>,
    car_paths: Seq<PCarPath>,
    k: int,
) -> Seq<SpecCar>
    decreases k,
{
    if k <= 0 {
        Seq::empty()
    } else {
        init_cars_upto(streets, car_paths, k - 1).push(
            SpecCar {
                actions: route_actions(streets, car_paths[k - 1].street_names@),
                distance: 0,
            },
        )
    }
}

/// The state in which the simulation starts at tick 0.
pub open spec fn spec_init(streets: Seq<PStreet>, car_paths: Seq<PCarPath>) -> SpecState {
    SpecState {
        cars: init_cars_upto(streets, car_paths, car_paths.len() as int),
        queues: seed_queues_upto(streets, car_paths, car_paths.len() as int),
        score: 0,
    }
}

// ---------------------------------------------------------------------------
// The per-tick transition
// ---------------------------------------------------------------------------

/// Release at street `s` at tick `t`: if the street has a compiled schedule,
/// its light is green, and cars are waiting, the queue head crosses the
/// intersection — it is popped, its blocking wait action is discarded, and it
/// is already one unit into its next street.
pub open spec fn release_one(
    st: SpecState,
    scheds: Seq<Option<LightSchedule>>,
    t: int,
    s: int,
) -> SpecState {
    match scheds[s] {
        Some(ls) => if spec_is_green(t, ls) && st.queues[s].len() > 0 {
            let c = st.queues[s][0] as int;
            let car = st.cars[c];
            let popped = if car.actions.len() > 0 {
                car.actions.drop_first()
            } else {
                car.actions
            };
            SpecState {
                cars: st.cars.update(c, SpecCar { actions: popped, distance: 1 }),
                queues: st.queues.update(s, st.queues[s].drop_first()),
                score: st.score,
            }
        } else {
            st
        },
        None => st,
    }
}

/// Release at the first `k` streets, in ascending street id order.
pub open spec fn release_upto(
    st: SpecState,
    scheds: Seq<Option<LightSchedule>>,
    t: int,
    k: int,
) -> SpecState
    decreases k,
{
    if k <= 0 {
        st
    } else {
        release_one(release_upto(st, scheds, t, k - 1), scheds, t, k - 1)
    }
}

/// Points for completing a route at tick `t`: the arrival is observable one
/// tick later, and the car earns the bonus plus the ticks then remaining.
pub open spec fn finish_points(t: int, duration: int, bonus: int) -> int {
    if t + 1 <= duration {
        bonus + (duration - (t + 1))
    } else {
        0
    }
}

/// Advance car `c` at tick `t`: a driving car that has covered its street
/// either queues up at the street's end (a wait follows), or completes its
/// route (nothing follows) and scores; a driving car short of the end moves
/// one unit. Cars that are waiting or finished do nothing.
pub open spec fn advance_one(
    st: SpecState,
    t: int,
    duration: int,
    bonus: int,
    c: int,
) -> SpecState {
    let car = st.cars[c];
    if car.actions.len() > 0 && car.actions[0] is Driving {
        let len = car.actions[0]->Driving_1 as int;
        if car.distance >= len {
            let rest = car.actions.drop_first();
            if rest.len() == 0 {
                SpecState {
                    cars: st.cars.update(
                        c,
                        SpecCar { actions: seq![Action::Finished(t as usize)], distance: 0 },
                    ),
                    queues: st.queues,
                    score: st.score + finish_points(t, duration, bonus),
                }
            } else {
                match rest[0] {
                    Action::Waiting(s2) => SpecState {
                        cars: st.cars.update(c, SpecCar { actions: rest, distance: 0 }),
                        queues: st.queues.update(
                            s2 as int,
                            st.queues[s2 as int].push(c as usize),
                        ),
                        score: st.score,
                    },
                    _ => st,
                }
            }
        } else {
            SpecState {
                cars: st.cars.update(
                    c,
                    SpecCar { actions: car.actions, distance: car.distance + 1 },
                ),
                queues: st.queues,
                score: st.score,
            }
        }
    } else {
        st
    }
}

/// Advance the first `k` cars, in ascending car id order.
pub open spec fn advance_upto(
    st: SpecState,
    t: int,
    duration: int,
    bonus: int,
    k: int,
) -> SpecState
    decreases k,
{
    if k <= 0 {
        st
    } else {
        advance_one(advance_upto(st, t, duration, bonus, k - 1), t, duration, bonus, k - 1)
    }
}

/// One whole tick: releases at every street, then advancement of every car.
pub open spec fn spec_tick(
    st: SpecState,
    scheds: Seq<Option<LightSchedule>>,
    t: int,
    duration: int,
    bonus: int,
) -> SpecState {
    let st1 = release_upto(st, scheds, t, scheds.len() as int);
    advance_upto(st1, t, duration, bonus, st1.cars.len() as int)
}

/// The state after the first `t` ticks.
pub open spec fn spec_run(
    st: SpecState,
    scheds: Seq<Option<LightSchedule>>,
    duration: int,
    bonus: int,
    t: int,
) -> SpecState
    decreases t,
{
    if t <= 0 {
        st
    } else {
        spec_tick(spec_run(st, scheds, duration, bonus, t - 1), scheds, t - 1, duration, bonus)
    }
}

// ---------------------------------------------------------------------------
// Structural invariants
// ---------------------------------------------------------------------------

/// Well-formed action program: a drive is always followed by a wait (if
/// anything follows), a finish marker only ever stands alone, and every wait
/// names a declared street.
pub open spec fn wf_prog(a: Seq<Action>, n_streets: int) -> bool {
    &&& (forall|i: int| 0 <= i < a.len() - 1 && (#[trigger] a[i]) is Driving ==> a[i + 1] is Waiting)
    &&& (forall|i: int| 0 <= i < a.len() && (#[trigger] a[i]) is Finished ==> a.len() == 1)
    &&& (forall|i: int| 0 <= i < a.len() && (#[trigger] a[i]) is Waiting ==> a[i]->Waiting_0 < n_streets)
}

/// A valid queue entry: the car id is in range, and the car is either
/// waiting to cross at the end of this very street or has an exhausted
/// program (a single-street route, which never drives again).
pub open spec fn queued_ok(st: SpecState, s: int, j: int) -> bool {
    let c = st.queues[s][j] as int;
    &&& st.queues[s][j] < st.cars.len()
    &&& (st.cars[c].actions.len() == 0 || st.cars[c].actions[0] == Action::Waiting(s as usize))
}

/// No car appears twice across all street queues.
pub open spec fn no_dup(queues: Seq<Seq<usize>>) -> bool {
    forall|s1: int, j1: int, s2: int, j2: int|
        0 <= s1 < queues.len() && 0 <= j1 < queues[s1].len() && 0 <= s2 < queues.len() && 0 <= j2
            < queues[s2].len() && (s1 != s2 || j1 != j2) ==> #[trigger] queues[s1][j1]
            != #[trigger] queues[s2][j2]
}

/// The invariant every reachable simulation state satisfies.
pub open spec fn inv_state(st: SpecState, n_streets: int, n_cars: int) -> bool {
    &&& st.cars.len() == n_cars
    &&& st.queues.len() == n_streets
    &&& (forall|c: int| 0 <= c < n_cars ==> wf_prog((#[trigger] st.cars[c]).actions, n_streets))
    &&& (forall|s: int, j: int|
        0 <= s < n_streets && 0 <= j < st.queues[s].len() ==> #[trigger] queued_ok(st, s, j))
    &&& no_dup(st.queues)
}

// ---------------------------------------------------------------------------
// Score aggregation
// ---------------------------------------------------------------------------

/// What one car's terminal state is worth: its finish points if it completed
/// its route, nothing otherwise.
pub open spec fn car_contribution(a: Seq<Action>, duration: int, bonus: int) -> int {
    if a.len() == 1 && a[0] is Finished {
        finish_points(a[0]->Finished_0 as int, duration, bonus)
    } else {
        0
    }
}

pub open spec fn cars_score_upto(cars: Seq<SpecCar>, duration: int, bonus: int, k: int) -> int
    decreases k,
{
    if k <= 0 {
        0
    } else {
        cars_score_upto(cars, duration, bonus, k - 1) + car_contribution(
            cars[k - 1].actions,
            duration,
            bonus,
        )
    }
}

/// Sum of the contributions of all cars: the terminal-pass view of the score.
pub open spec fn cars_score(cars: Seq<SpecCar>, duration: int, bonus: int) -> int {
    cars_score_upto(cars, duration, bonus, cars.len() as int)
}

/// The incrementally accumulated score always equals the sum over terminal
/// car states — the two aggregation strategies coincide.
pub open spec fn score_ok(st: SpecState, duration: int, bonus: int) -> bool {
    st.score == cars_score(st.cars, duration, bonus)
}

// ---------------------------------------------------------------------------
// Basic lemmas
// ---------------------------------------------------------------------------

pub proof fn lemma_wf_prog_drop_first(a: Seq<Action>, n_streets: int)
    requires
        wf_prog(a, n_streets),
        a.len() > 0,
    ensures
        wf_prog(a.drop_first(), n_streets),
{
    let b = a.drop_first();
    assert forall|i: int| 0 <= i < b.len() - 1 && (#[trigger] b[i]) is Driving implies b[i + 1]
        is Waiting by {
        assert(a[i + 1] is Driving);
    }
    assert forall|i: int| 0 <= i < b.len() && (#[trigger] b[i]) is Finished implies b.len()
        == 1 by {
        assert(a[i + 1] is Finished);
    }
    assert forall|i: int| 0 <= i < b.len() && (#[trigger] b[i]) is Waiting implies b[i]->Waiting_0
        < n_streets by {
        assert(a[i + 1] is Waiting);
    }
}

pub proof fn lemma_cars_score_upto_update(
    cars: Seq<SpecCar>,
    c: int,
    car2: SpecCar,
    duration: int,
    bonus: int,
    k: int,
)
    requires
        0 <= c < cars.len(),
        0 <= k <= cars.len(),
    ensures
        cars_score_upto(cars.update(c, car2), duration, bonus, k) == cars_score_upto(
            cars,
            duration,
            bonus,
            k,
        ) + if c < k {
            car_contribution(car2.actions, duration, bonus) - car_contribution(
                cars[c].actions,
                duration,
                bonus,
            )
        } else {
            0
        },
    decreases k,
{
    if k > 0 {
        lemma_cars_score_upto_update(cars, c, car2, duration, bonus, k - 1);
    }
}

/// The score update lemma at full length.
pub proof fn lemma_cars_score_update(
    cars: Seq<SpecCar>,
    c: int,
    car2: SpecCar,
    duration: int,
    bonus: int,
)
    requires
        0 <= c < cars.len(),
    ensures
        cars_score(cars.update(c, car2), duration, bonus) == cars_score(cars, duration, bonus)
            + car_contribution(car2.actions, duration, bonus) - car_contribution(
            cars[c].actions,
            duration,
            bonus,
        ),
{
    lemma_cars_score_upto_update(cars, c, car2, duration, bonus, cars.len() as int);
}

pub proof fn lemma_cars_score_upto_bounds(cars: Seq<SpecCar>, duration: int, bonus: int, k: int)
    requires
        0 <= k <= cars.len(),
        duration >= 0,
        bonus >= 0,
    ensures
        0 <= cars_score_upto(cars, duration, bonus, k) <= k * (bonus + duration),
    decreases k,
{
    if k > 0 {
        lemma_cars_score_upto_bounds(cars, duration, bonus, k - 1);
        assert(0 <= car_contribution(cars[k - 1].actions, duration, bonus) <= bonus + duration);
        assert((k - 1) * (bonus + duration) + (bonus + duration) == k * (bonus + duration))
            by (nonlinear_arith);
    }
}

// ---------------------------------------------------------------------------
// The executable state, viewed in the model
// ---------------------------------------------------------------------------

/// The model view of one executable car tracker.
pub open spec fn car_of(ct: CarTracker) -> SpecCar {
    SpecCar { actions: ct.actions@, distance: ct.distance_current_street as int }
}

/// The model view of the engine's whole mutable state.
pub open spec fn state_of(
    trackers: Seq<CarTracker>,
    queues: Seq<std::collections::VecDeque<usize>>,
    score: int,
) -> SpecState {
    SpecState {
        cars: trackers.map_values(|ct: CarTracker| car_of(ct)),
        queues: queues.map_values(|q: std::collections::VecDeque<usize>| q@),
        score,
    }
}

/// A well-formed compiled schedule map: every entry has a positive period
/// and a green window whose end fits the machine word.
pub open spec fn wf_scheds(scheds: Seq<Option<LightSchedule>>) -> bool {
    forall|s: int|
        0 <= s < scheds.len() && (#[trigger] scheds[s]) is Some ==> {
            let ls = scheds[s]->Some_0;
            &&& ls.2 >= 1
            &&& ls.0 + ls.1 <= usize::MAX
        }
}

// ---------------------------------------------------------------------------
// The initial state satisfies the invariant
// ---------------------------------------------------------------------------

pub proof fn lemma_route_actions_upto_wf(streets: Seq<PStreet>, names: Seq<Vec<u8>>, k: int)
    requires
        0 <= k <= names.len(),
    ensures
        wf_prog(route_actions_upto(streets, names, k), streets.len() as int),
        forall|i: int|
            0 <= i < route_actions_upto(streets, names, k).len() ==> !((
            #[trigger] route_actions_upto(streets, names, k)[i]) is Finished),
        k < names.len() && route_actions_upto(streets, names, k).len() > 0
            ==> route_actions_upto(streets, names, k).last() is Waiting,
    decreases k,
{
    if k > 0 {
        lemma_route_actions_upto_wf(streets, names, k - 1);
        let prev = route_actions_upto(streets, names, k - 1);
        let seg = route_seg(streets, names, k - 1);
        let cur = route_actions_upto(streets, names, k);
        assert(cur == prev + seg);
        match lookup_street(streets, names[k - 1]@) {
            Some(id) => {
                lemma_lookup_street_in_range(streets, names[k - 1]@);
                assert(0 <= id < streets.len());
            },
            None => {},
        }
        // Every element of the segment is in order: a drive (with a wait
        // following inside the segment whenever the route goes on), never a
        // finish marker, and waits name real streets.
        assert forall|i: int|
            0 <= i < cur.len() - 1 && (#[trigger] cur[i]) is Driving implies cur[i + 1]
            is Waiting by {
            if i < prev.len() - 1 {
                assert(cur[i] == prev[i] && cur[i + 1] == prev[i + 1]);
            } else if i == prev.len() - 1 {
                assert(cur[i] == prev.last());
            } else {
                assert(cur[i] == seg[i - prev.len()]);
                assert(cur[i + 1] == seg[i + 1 - prev.len()]);
            }
        }
        assert forall|i: int| 0 <= i < cur.len() implies !((#[trigger] cur[i]) is Finished) by {
            if i < prev.len() {
                assert(cur[i] == prev[i]);
            } else {
                assert(cur[i] == seg[i - prev.len()]);
            }
        }
        assert forall|i: int|
            0 <= i < cur.len() && (#[trigger] cur[i]) is Waiting implies cur[i]->Waiting_0
            < streets.len() by {
            if i < prev.len() {
                assert(cur[i] == prev[i]);
            } else {
                assert(cur[i] == seg[i - prev.len()]);
            }
        }
        if k < names.len() && cur.len() > 0 {
            if seg.len() > 0 {
                assert(cur.last() == seg.last());
            } else {
                assert(cur.last() == prev.last());
            }
        }
    }
}

/// A route of two or more streets starts waiting to cross at the end of its
/// first street.
pub proof fn lemma_route_actions_first(streets: Seq<PStreet>, names: Seq<Vec<u8>>, k: int)
    requires
        1 <= k <= names.len(),
        names.len() > 1,
        lookup_street(streets, names[0]@) is Some,
    ensures
        route_actions_upto(streets, names, k).len() > 0,
        route_actions_upto(streets, names, k)[0] == Action::Waiting(
            lookup_street(streets, names[0]@)->Some_0 as usize,
        ),
    decreases k,
{
    if k == 1 {
        let seg = route_seg(streets, names, 0);
        assert(route_actions_upto(streets, names, 1) == route_actions_upto(streets, names, 0)
            + seg);
        assert(route_actions_upto(streets, names, 1) =~= seg);
    } else {
        lemma_route_actions_first(streets, names, k - 1);
        let prev = route_actions_upto(streets, names, k - 1);
        let cur = route_actions_upto(streets, names, k);
        assert(cur[0] == prev[0]);
    }
}

/// A single-street route has an empty action program.
pub proof fn lemma_route_actions_single(streets: Seq<PStreet>, names: Seq<Vec<u8>>)
    requires
        names.len() == 1,
    ensures
        route_actions(streets, names).len() == 0,
{
    let seg = route_seg(streets, names, 0);
    assert(seg.len() == 0);
    assert(route_actions_upto(streets, names, 1) == route_actions_upto(streets, names, 0) + seg);
}

pub proof fn lemma_init_cars_upto_index(streets: Seq<PStreet>, car_paths: Seq<PCarPath>, k: int)
    requires
        0 <= k <= car_paths.len(),
    ensures
        init_cars_upto(streets, car_paths, k).len() == k,
        forall|j: int|
            0 <= j < k ==> #[trigger] init_cars_upto(streets, car_paths, k)[j] == (SpecCar {
                actions: route_actions(streets, car_paths[j].street_names@),
                distance: 0,
            }),
    decreases k,
{
    if k > 0 {
        lemma_init_cars_upto_index(streets, car_paths, k - 1);
    }
}

pub proof fn lemma_seed_queues_upto_props(streets: Seq<PStreet>, car_paths: Seq<PCarPath>, k: int)
    requires
        0 <= k <= car_paths.len(),
        car_paths.len() <= usize::MAX,
    ensures
        seed_queues_upto(streets, car_paths, k).len() == streets.len(),
        forall|s: int, j: int|
            0 <= s < streets.len() && 0 <= j < seed_queues_upto(streets, car_paths, k)[s].len()
                ==> ((#[trigger] seed_queues_upto(streets, car_paths, k)[s][j]) as int) < k,
        no_dup(seed_queues_upto(streets, car_paths, k)),
        forall|s: int, j: int|
            0 <= s < streets.len() && 0 <= j < seed_queues_upto(streets, car_paths, k)[s].len()
                ==> lookup_street(
                streets,
                car_paths[(#[trigger] seed_queues_upto(streets, car_paths, k)[s][j]) as int].street_names@[0]@,
            ) == Some(s),
    decreases k,
{
    if k > 0 {
        lemma_seed_queues_upto_props(streets, car_paths, k - 1);
        let prev = seed_queues_upto(streets, car_paths, k - 1);
        let cur = seed_queues_upto(streets, car_paths, k);
        match lookup_street(streets, car_paths[k - 1].street_names@[0]@) {
            Some(id) => {
                lemma_lookup_street_in_range(streets, car_paths[k - 1].street_names@[0]@);
                assert(cur == prev.update(id, prev[id].push((k - 1) as usize)));
                assert forall|s: int, j: int|
                    0 <= s < streets.len() && 0 <= j < cur[s].len() implies ((
                #[trigger] cur[s][j]) as int) < k && lookup_street(
                    streets,
                    car_paths[cur[s][j] as int].street_names@[0]@,
                ) == Some(s) by {
                    if s == id && j == prev[id].len() {
                        assert(cur[s][j] == (k - 1) as usize);
                    } else {
                        assert(cur[s][j] == prev[s][j]);
                    }
                }
                assert forall|s1: int, j1: int, s2: int, j2: int|
                    0 <= s1 < cur.len() && 0 <= j1 < cur[s1].len() && 0 <= s2 < cur.len() && 0
                        <= j2 < cur[s2].len() && (s1 != s2 || j1 != j2) implies #[trigger] cur[s1][j1]
                    != #[trigger] cur[s2][j2] by {
                    if s1 == id && j1 == prev[id].len() {
                        assert(cur[s2][j2] == prev[s2][j2]);
                        assert((cur[s2][j2] as int) < k - 1 + 1);
                        assert(prev[s2][j2] as int != k - 1);
                    } else if s2 == id && j2 == prev[id].len() {
                        assert(cur[s1][j1] == prev[s1][j1]);
                        assert(prev[s1][j1] as int != k - 1);
                    } else {
                        assert(cur[s1][j1] == prev[s1][j1]);
                        assert(cur[s2][j2] == prev[s2][j2]);
                    }
                }
            },
            None => {},
        }
    } else {
        assert(seed_queues_upto(streets, car_paths, 0).len() == streets.len());
    }
}

pub proof fn lemma_init_score_zero(
    streets: Seq<PStreet>,
    car_paths: Seq<PCarPath>,
    duration: int,
    bonus: int,
    k: int,
)
    requires
        0 <= k <= car_paths.len(),
    ensures
        cars_score_upto(init_cars_upto(streets, car_paths, car_paths.len() as int), duration, bonus, k)
            == 0,
    decreases k,
{
    if k > 0 {
        lemma_init_score_zero(streets, car_paths, duration, bonus, k - 1);
        lemma_init_cars_upto_index(streets, car_paths, car_paths.len() as int);
        let names = car_paths[k - 1].street_names@;
        lemma_route_actions_upto_wf(streets, names, names.len() as int);
        let a = route_actions(streets, names);
        if a.len() == 1 && a[0] is Finished {
            assert(false);
        }
    }
}

/// The initial state of any well-formed pair of documents satisfies the
/// simulation invariant, and its score, zero, equals the terminal-pass sum.
pub proof fn lemma_init_inv(
    streets: Seq<PStreet>,
    car_paths: Seq<PCarPath>,
    duration: int,
    bonus: int,
)
    requires
        forall|j: int| 0 <= j < car_paths.len() ==> wf_car_path(#[trigger] car_paths[j]),
        car_paths.len() <= usize::MAX,
    ensures
        inv_state(spec_init(streets, car_paths), streets.len() as int, car_paths.len() as int),
        score_ok(spec_init(streets, car_paths), duration, bonus),
{
    let st = spec_init(streets, car_paths);
    let n_streets = streets.len() as int;
    let n_cars = car_paths.len() as int;
    lemma_init_cars_upto_index(streets, car_paths, n_cars);
    lemma_seed_queues_upto_props(streets, car_paths, n_cars);
    assert forall|c: int| 0 <= c < n_cars implies wf_prog(
        (#[trigger] st.cars[c]).actions,
        n_streets,
    ) by {
        let names = car_paths[c].street_names@;
        lemma_route_actions_upto_wf(streets, names, names.len() as int);
    }
    assert forall|s: int, j: int|
        0 <= s < n_streets && 0 <= j < st.queues[s].len() implies #[trigger] queued_ok(
        st,
        s,
        j,
    ) by {
        let c = st.queues[s][j] as int;
        let names = car_paths[c].street_names@;
        assert(lookup_street(streets, names[0]@) == Some(s));
        if names.len() == 1 {
            lemma_route_actions_single(streets, names);
        } else {
            lemma_route_actions_first(streets, names, names.len() as int);
        }
    }
    lemma_init_score_zero(streets, car_paths, duration, bonus, n_cars);
}

// ---------------------------------------------------------------------------
// Invariant preservation
// ---------------------------------------------------------------------------

pub proof fn lemma_release_one_preserves(
    st: SpecState,
    scheds: Seq<Option<LightSchedule>>,
    t: int,
    s: int,
    n_streets: int,
    n_cars: int,
    duration: int,
    bonus: int,
)
    requires
        inv_state(st, n_streets, n_cars),
        scheds.len() == n_streets,
        0 <= s < n_streets,
    ensures
        inv_state(release_one(st, scheds, t, s), n_streets, n_cars),
        release_one(st, scheds, t, s).score == st.score,
        cars_score(release_one(st, scheds, t, s).cars, duration, bonus) == cars_score(
            st.cars,
            duration,
            bonus,
        ),
{
    let st2 = release_one(st, scheds, t, s);
    if scheds[s] is Some && spec_is_green(t, scheds[s]->Some_0) && st.queues[s].len() > 0 {
        assert(queued_ok(st, s, 0));
        let c = st.queues[s][0] as int;
        let car = st.cars[c];
        let popped = if car.actions.len() > 0 {
            car.actions.drop_first()
        } else {
            car.actions
        };
        if car.actions.len() > 0 {
            lemma_wf_prog_drop_first(car.actions, n_streets);
        }
        assert forall|c2: int| 0 <= c2 < n_cars implies wf_prog(
            (#[trigger] st2.cars[c2]).actions,
            n_streets,
        ) by {
            if c2 != c {
                assert(st2.cars[c2] == st.cars[c2]);
            }
        }
        assert forall|s2: int, j2: int|
            0 <= s2 < n_streets && 0 <= j2 < st2.queues[s2].len() implies #[trigger] queued_ok(
            st2,
            s2,
            j2,
        ) by {
            let j_old: int = if s2 == s {
                j2 + 1
            } else {
                j2
            };
            assert(st2.queues[s2][j2] == st.queues[s2][j_old]);
            assert(queued_ok(st, s2, j_old));
            let c2 = st.queues[s2][j_old] as int;
            assert(c2 != c);
            assert(st2.cars[c2] == st.cars[c2]);
        }
        assert forall|s1: int, j1: int, s2: int, j2: int|
            0 <= s1 < n_streets && 0 <= j1 < st2.queues[s1].len() && 0 <= s2 < n_streets && 0 <= j2
                < st2.queues[s2].len() && (s1 != s2 || j1 != j2) implies #[trigger] st2.queues[s1][j1]
            != #[trigger] st2.queues[s2][j2] by {
            let i1: int = if s1 == s {
                j1 + 1
            } else {
                j1
            };
            let i2: int = if s2 == s {
                j2 + 1
            } else {
                j2
            };
            assert(st2.queues[s1][j1] == st.queues[s1][i1]);
            assert(st2.queues[s2][j2] == st.queues[s2][i2]);
        }
        assert(car_contribution(car.actions, duration, bonus) == 0);
        if popped.len() == 1 && popped[0] is Finished {
            assert(car.actions[1] is Finished);
            assert(false);
        }
        assert(car_contribution(popped, duration, bonus) == 0);
        lemma_cars_score_update(
            st.cars,
            c,
            SpecCar { actions: popped, distance: 1 },
            duration,
            bonus,
        );
    }
}

pub proof fn lemma_release_upto_preserves(
    st: SpecState,
    scheds: Seq<Option<LightSchedule>>,
    t: int,
    k: int,
    n_streets: int,
    n_cars: int,
    duration: int,
    bonus: int,
)
    requires
        inv_state(st, n_streets, n_cars),
        scheds.len() == n_streets,
        0 <= k <= n_streets,
    ensures
        inv_state(release_upto(st, scheds, t, k), n_streets, n_cars),
        release_upto(st, scheds, t, k).score == st.score,
        cars_score(release_upto(st, scheds, t, k).cars, duration, bonus) == cars_score(
            st.cars,
            duration,
            bonus,
        ),
    decreases k,
{
    if k > 0 {
        lemma_release_upto_preserves(st, scheds, t, k - 1, n_streets, n_cars, duration, bonus);
        lemma_release_one_preserves(
            release_upto(st, scheds, t, k - 1),
            scheds,
            t,
            k - 1,
            n_streets,
            n_cars,
            duration,
            bonus,
        );
    }
}

#[verifier::rlimit(60)]
pub proof fn lemma_advance_one_preserves(
    st: SpecState,
    t: int,
    duration: int,
    bonus: int,
    c: int,
    n_streets: int,
    n_cars: int,
)
    requires
        inv_state(st, n_streets, n_cars),
        0 <= c < n_cars,
        0 <= t <= usize::MAX,
        n_streets <= usize::MAX,
        n_cars <= usize::MAX,
    ensures
        inv_state(advance_one(st, t, duration, bonus, c), n_streets, n_cars),
        advance_one(st, t, duration, bonus, c).score - cars_score(
            advance_one(st, t, duration, bonus, c).cars,
            duration,
            bonus,
        ) == st.score - cars_score(st.cars, duration, bonus),
{
    let st2 = advance_one(st, t, duration, bonus, c);
    let car = st.cars[c];
    if car.actions.len() > 0 && car.actions[0] is Driving {
        // A car about to drive is in no queue: queued cars wait or are done.
        assert forall|s: int, j: int|
            0 <= s < n_streets && 0 <= j < st.queues[s].len() implies (
        #[trigger] st.queues[s][j]) as int != c by {
            assert(queued_ok(st, s, j));
        }
        let len = car.actions[0]->Driving_1 as int;
        if car.distance >= len {
            let rest = car.actions.drop_first();
            lemma_wf_prog_drop_first(car.actions, n_streets);
            if rest.len() == 0 {
                let fin = seq![Action::Finished(t as usize)];
                assert(fin.len() == 1 && fin[0] == Action::Finished(t as usize));
                assert(wf_prog(fin, n_streets));
                assert forall|c2: int| 0 <= c2 < n_cars implies wf_prog(
                    (#[trigger] st2.cars[c2]).actions,
                    n_streets,
                ) by {
                    if c2 != c {
                        assert(st2.cars[c2] == st.cars[c2]);
                    }
                }
                assert forall|s2: int, j2: int|
                    0 <= s2 < n_streets && 0 <= j2 < st2.queues[s2].len() implies #[trigger] queued_ok(
                    st2,
                    s2,
                    j2,
                ) by {
                    assert(queued_ok(st, s2, j2));
                    assert(st.queues[s2][j2] as int != c);
                    assert(st2.cars[st.queues[s2][j2] as int] == st.cars[st.queues[s2][j2] as int]);
                }
                assert(car_contribution(car.actions, duration, bonus) == 0);
                assert(car_contribution(fin, duration, bonus) == finish_points(t, duration, bonus));
                lemma_cars_score_update(
                    st.cars,
                    c,
                    SpecCar { actions: fin, distance: 0 },
                    duration,
                    bonus,
                );
            } else {
                assert(car.actions[1] is Waiting);
                assert(rest[0] == car.actions[1]);
                match rest[0] {
                    Action::Waiting(s2) => {
                        assert(car.actions[1]->Waiting_0 < n_streets);
                        let s2i = s2 as int;
                        assert forall|c2: int| 0 <= c2 < n_cars implies wf_prog(
                            (#[trigger] st2.cars[c2]).actions,
                            n_streets,
                        ) by {
                            if c2 != c {
                                assert(st2.cars[c2] == st.cars[c2]);
                            }
                        }
                        assert forall|sx: int, jx: int|
                            0 <= sx < n_streets && 0 <= jx < st2.queues[sx].len() implies #[trigger] queued_ok(
                            st2,
                            sx,
                            jx,
                        ) by {
                            if sx == s2i && jx == st.queues[s2i].len() {
                                assert(st2.queues[sx][jx] == c as usize);
                                assert(st2.cars[c].actions == rest);
                            } else {
                                assert(st2.queues[sx][jx] == st.queues[sx][jx]);
                                assert(queued_ok(st, sx, jx));
                                assert(st.queues[sx][jx] as int != c);
                                assert(st2.cars[st.queues[sx][jx] as int] == st.cars[st.queues[sx][jx] as int]);
                            }
                        }
                        assert forall|s1: int, j1: int, sx: int, j2: int|
                            0 <= s1 < n_streets && 0 <= j1 < st2.queues[s1].len() && 0 <= sx
                                < n_streets && 0 <= j2 < st2.queues[sx].len() && (s1 != sx || j1
                                != j2) implies #[trigger] st2.queues[s1][j1]
                            != #[trigger] st2.queues[sx][j2] by {
                            if s1 == s2i && j1 == st.queues[s2i].len() {
                                assert(st2.queues[sx][j2] == st.queues[sx][j2]);
                            } else if sx == s2i && j2 == st.queues[s2i].len() {
                                assert(st2.queues[s1][j1] == st.queues[s1][j1]);
                            } else {
                                assert(st2.queues[s1][j1] == st.queues[s1][j1]);
                                assert(st2.queues[sx][j2] == st.queues[sx][j2]);
                            }
                        }
                        assert(car_contribution(car.actions, duration, bonus) == 0);
                        if rest.len() == 1 && rest[0] is Finished {
                            assert(false);
                        }
                        assert(car_contribution(rest, duration, bonus) == 0);
                        lemma_cars_score_update(
                            st.cars,
                            c,
                            SpecCar { actions: rest, distance: 0 },
                            duration,
                            bonus,
                        );
                    },
                    _ => {},
                }
            }
        } else {
            assert forall|c2: int| 0 <= c2 < n_cars implies wf_prog(
                (#[trigger] st2.cars[c2]).actions,
                n_streets,
            ) by {
                if c2 != c {
                    assert(st2.cars[c2] == st.cars[c2]);
                }
            }
            assert forall|s2: int, j2: int|
                0 <= s2 < n_streets && 0 <= j2 < st2.queues[s2].len() implies #[trigger] queued_ok(
                st2,
                s2,
                j2,
            ) by {
                assert(queued_ok(st, s2, j2));
                assert(st.queues[s2][j2] as int != c);
                assert(st2.cars[st.queues[s2][j2] as int] == st.cars[st.queues[s2][j2] as int]);
            }
            lemma_cars_score_update(
                st.cars,
                c,
                SpecCar { actions: car.actions, distance: car.distance + 1 },
                duration,
                bonus,
            );
        }
    }
}

pub proof fn lemma_advance_upto_preserves(
    st: SpecState,
    t: int,
    duration: int,
    bonus: int,
    k: int,
    n_streets: int,
    n_cars: int,
)
    requires
        inv_state(st, n_streets, n_cars),
        0 <= k <= n_cars,
        0 <= t <= usize::MAX,
        n_streets <= usize::MAX,
        n_cars <= usize::MAX,
    ensures
        inv_state(advance_upto(st, t, duration, bonus, k), n_streets, n_cars),
        advance_upto(st, t, duration, bonus, k).score - cars_score(
            advance_upto(st, t, duration, bonus, k).cars,
            duration,
            bonus,
        ) == st.score - cars_score(st.cars, duration, bonus),
    decreases k,
{
    if k > 0 {
        lemma_advance_upto_preserves(st, t, duration, bonus, k - 1, n_streets, n_cars);
        lemma_advance_one_preserves(
            advance_upto(st, t, duration, bonus, k - 1),
            t,
            duration,
            bonus,
            k - 1,
            n_streets,
            n_cars,
        );
    }
}

pub proof fn lemma_tick_preserves(
    st: SpecState,
    scheds: Seq<Option<LightSchedule>>,
    t: int,
    duration: int,
    bonus: int,
    n_streets: int,
    n_cars: int,
)
    requires
        inv_state(st, n_streets, n_cars),
        scheds.len() == n_streets,
        0 <= t <= usize::MAX,
        n_streets <= usize::MAX,
        n_cars <= usize::MAX,
    ensures
        inv_state(spec_tick(st, scheds, t, duration, bonus), n_streets, n_cars),
        spec_tick(st, scheds, t, duration, bonus).score - cars_score(
            spec_tick(st, scheds, t, duration, bonus).cars,
            duration,
            bonus,
        ) == st.score - cars_score(st.cars, duration, bonus),
{
    lemma_release_upto_preserves(st, scheds, t, n_streets, n_streets, n_cars, duration, bonus);
    let st1 = release_upto(st, scheds, t, n_streets);
    lemma_advance_upto_preserves(st1, t, duration, bonus, n_cars, n_streets, n_cars);
}

pub proof fn lemma_run_preserves(
    st: SpecState,
    scheds: Seq<Option<LightSchedule>>,
    duration: int,
    bonus: int,
    t: int,
    n_streets: int,
    n_cars: int,
)
    requires
        inv_state(st, n_streets, n_cars),
        scheds.len() == n_streets,
        0 <= t,
        t <= usize::MAX,
        n_streets <= usize::MAX,
        n_cars <= usize::MAX,
    ensures
        inv_state(spec_run(st, scheds, duration, bonus, t), n_streets, n_cars),
        spec_run(st, scheds, duration, bonus, t).score - cars_score(
            spec_run(st, scheds, duration, bonus, t).cars,
            duration,
            bonus,
        ) == st.score - cars_score(st.cars, duration, bonus),
    decreases t,
{
    if t > 0 {
        lemma_run_preserves(st, scheds, duration, bonus, t - 1, n_streets, n_cars);
        lemma_tick_preserves(
            spec_run(st, scheds, duration, bonus, t - 1),
            scheds,
            t - 1,
            duration,
            bonus,
            n_streets,
            n_cars,
        );
    }
}

} // verus!
