//! The scoring engine: street-name interning, light-schedule compilation,
//! and the tick-by-tick replay of the traffic simulation.
use vstd::prelude::*;

use crate::data::{PCarPath, PInputData, PIntersectionSchedule, POutputData, PStreet};
use crate::model::{
    advance_one, advance_upto, apply_block_upto, block_period, car_of, compile_upto,
    init_cars_upto, inv_state, lemma_advance_one_preserves, lemma_advance_upto_preserves,
    lemma_cars_score_upto_bounds, lemma_init_inv, lemma_release_one_preserves,
    lemma_release_upto_preserves, prefix_duration, queued_ok, release_one, release_upto,
    route_actions_upto, score_ok, seed_queues_upto, spec_compile, spec_init, spec_run, spec_tick,
    state_of, wf_prog, wf_scheds,
};
use std::collections::VecDeque;

verus! {

/// A compiled periodic green window for one street: (offset, duration, period).
/// The window is green at tick `t` iff `t % period` lies in
/// `[offset, offset + duration)`.
pub type LightSchedule = (usize, usize, usize);

/// Errors reaching the engine boundary: a schedule or a route names a street
/// that the network never declared.
#[derive(Debug, Clone, PartialEq, Eq)]
pub enum ScoreError {
    UnknownStreet(Vec<u8>),
}

/// One step of a car's action program: wait to cross at the end of a street,
/// drive across a street of the given length, or done at the given tick.
#[derive(Debug, Clone, Copy, PartialEq, Eq, Structural)]
pub enum Action {
    Waiting(usize),
    Driving(usize, usize),
    Finished(usize),
}

/// Mutable per-car simulation state: the remaining action program, consumed
/// from the front, and the distance driven on the current street.
#[derive(Debug)]
pub struct CarTracker {
    pub id: usize,
    pub actions: VecDeque<Action>,
    pub distance_current_street: usize,
}

/// Mathematical green-window test: `t % period` falls in
/// `[offset, offset + duration)`.
pub open spec fn green_at(t: int, offset: int, duration: int, period: int) -> bool {
    offset <= t % period < offset + duration
}

pub open spec fn spec_is_green(t: int, ls: LightSchedule) -> bool {
    green_at(t, ls.0 as int, ls.1 as int, ls.2 as int)
}

/// The sole primitive by which the engine decides releases: a pure function
/// of the tick and the compiled schedule, independent of simulation history.
pub fn is_green(time: usize, light_schedule: &LightSchedule) -> (r: bool)
    requires
        light_schedule.2 > 0,
        light_schedule.0 + light_schedule.1 <= usize::MAX,
    ensures
        r == spec_is_green(time as int, *light_schedule),
{
    let (offset, duration, period) = *light_schedule;
    let tmod = time % period;
    offset <= tmod && tmod < offset + duration
}

/// Index of the street a name resolves to: the last street declared with
/// that name (a later declaration of the same name shadows an earlier one).
pub open spec fn lookup_street(streets: Seq<PStreet>, name: Seq<u8>) -> Option<int>
    decreases streets.len(),
{
    if streets.len() == 0 {
        None
    } else if streets.last().street_name@ == name {
        Some(streets.len() - 1)
    } else {
        lookup_street(streets.drop_last(), name)
    }
}

pub broadcast proof fn lemma_lookup_street_in_range(streets: Seq<PStreet>, name: Seq<u8>)
    ensures
        #[trigger] lookup_street(streets, name) matches Some(i) ==> 0 <= i < streets.len()
            && streets[i].street_name@ == name,
    decreases streets.len(),
{
    if streets.len() > 0 && streets.last().street_name@ != name {
        lemma_lookup_street_in_range(streets.drop_last(), name);
    }
}

/// Byte-wise equality of two byte strings.
fn bytes_eq(a: &[u8], b: &[u8]) -> (r: bool)
    ensures
        r == (a@ == b@),
{
    if a.len() != b.len() {
        assert(a@ != b@) by {
            assert(a@.len() != b@.len());
        }
        return false;
    }
    let mut i: usize = 0;
    while i < a.len()
        invariant
            0 <= i <= a.len(),
            a@.len() == b@.len(),
            forall|j: int| 0 <= j < i ==> a@[j] == b@[j],
        decreases a.len() - i,
    {
        if a[i] != b[i] {
            return false;
        }
        i += 1;
    }
    proof {
        assert(a@ =~= b@);
    }
    true
}

/// Resolve a street name to its integer id by scanning the declared streets
/// from the last to the first.
pub fn find_street(streets: &Vec<PStreet>, name: &[u8]) -> (r: Option<usize>)
    ensures
        match r {
            Some(i) => lookup_street(streets@, name@) == Some(i as int),
            None => lookup_street(streets@, name@) is None,
        },
{
    let mut k: usize = streets.len();
    proof {
        assert(streets@.take(streets@.len() as int) =~= streets@);
    }
    while k > 0
        invariant
            0 <= k <= streets@.len(),
            lookup_street(streets@, name@) == lookup_street(streets@.take(k as int), name@),
        decreases k,
    {
        proof {
            assert(streets@.take(k as int).last() == streets@[k - 1]);
            assert(streets@.take(k as int).drop_last() =~= streets@.take(k - 1));
        }
        if bytes_eq(streets[k - 1].street_name.as_slice(), name) {
            return Some(k - 1);
        }
        k -= 1;
    }
    proof {
        assert(streets@.take(0) =~= Seq::<PStreet>::empty());
    }
    None
}

// ---------------------------------------------------------------------------
// Document well-formedness
// ---------------------------------------------------------------------------

/// A valid schedule block: every green duration is at least one tick, and the
/// block's period fits the machine word.
pub open spec fn wf_block(b: PIntersectionSchedule) -> bool {
    &&& (forall|e: int|
        0 <= e < b.light_schedules@.len() ==> (#[trigger] b.light_schedules@[e]).1 >= 1)
    &&& block_period(b.light_schedules@) <= usize::MAX
}

/// A valid schedule document, as the parser or any other producer must hand
/// it to the engine.
pub open spec fn wf_output(output: POutputData) -> bool {
    forall|k: int|
        0 <= k < output.intersection_schedules@.len() ==> wf_block(
            #[trigger] output.intersection_schedules@[k],
        )
}

/// A valid car route: non-empty, with the announced street count matching the
/// listed names.
pub open spec fn wf_car_path(p: PCarPath) -> bool {
    &&& p.streets as int == p.street_names@.len()
    &&& p.streets >= 1
}

/// A valid network document.
pub open spec fn wf_input(input: PInputData) -> bool {
    forall|k: int|
        0 <= k < input.body.car_paths@.len() ==> wf_car_path(#[trigger] input.body.car_paths@[k])
}

// ---------------------------------------------------------------------------
// Unknown street names
// ---------------------------------------------------------------------------

/// First name from entry `e` on in one block that resolves to no street.
pub open spec fn first_unknown_in_block(
    streets: Seq<PStreet>,
    lights: Seq<(Vec<u8>, usize)>,
    e: int,
) -> Option<Seq<u8>>
    decreases lights.len() - e,
{
    if e < 0 || e >= lights.len() {
        None
    } else if lookup_street(streets, lights[e].0@) is None {
        Some(lights[e].0@)
    } else {
        first_unknown_in_block(streets, lights, e + 1)
    }
}

/// First unresolvable name in the schedule document from block `k` on,
/// scanning blocks and entries in document order.
pub open spec fn first_unknown_sched(
    streets: Seq<PStreet>,
    blocks: Seq<PIntersectionSchedule>,
    k: int,
) -> Option<Seq<u8>>
    decreases blocks.len() - k,
{
    if k < 0 || k >= blocks.len() {
        None
    } else {
        match first_unknown_in_block(streets, blocks[k].light_schedules@, 0) {
            Some(n) => Some(n),
            None => first_unknown_sched(streets, blocks, k + 1),
        }
    }
}

/// First name from position `e` on in one route that resolves to no street.
pub open spec fn first_unknown_in_path(
    streets: Seq<PStreet>,
    names: Seq<Vec<u8>>,
    e: int,
) -> Option<Seq<u8>>
    decreases names.len() - e,
{
    if e < 0 || e >= names.len() {
        None
    } else if lookup_street(streets, names[e]@) is None {
        Some(names[e]@)
    } else {
        first_unknown_in_path(streets, names, e + 1)
    }
}

/// First unresolvable name in the car routes from route `k` on.
pub open spec fn first_unknown_routes(
    streets: Seq<PStreet>,
    car_paths: Seq<PCarPath>,
    k: int,
) -> Option<Seq<u8>>
    decreases car_paths.len() - k,
{
    if k < 0 || k >= car_paths.len() {
        None
    } else {
        match first_unknown_in_path(streets, car_paths[k].street_names@, 0) {
            Some(n) => Some(n),
            None => first_unknown_routes(streets, car_paths, k + 1),
        }
    }
}

/// The name the engine reports on failure: the first street name of the
/// schedule document, then of the routes, that the network never declared.
pub open spec fn spec_first_unknown(input: PInputData, output: POutputData) -> Option<Seq<u8>> {
    match first_unknown_sched(input.body.streets@, output.intersection_schedules@, 0) {
        Some(n) => Some(n),
        None => first_unknown_routes(input.body.streets@, input.body.car_paths@, 0),
    }
}

proof fn lemma_no_unknown_in_block(streets: Seq<PStreet>, lights: Seq<(Vec<u8>, usize)>, e: int)
    requires
        first_unknown_in_block(streets, lights, e) is None,
        0 <= e,
    ensures
        forall|e2: int|
            e <= e2 < lights.len() ==> lookup_street(streets, (#[trigger] lights[e2]).0@)
                is Some,
    decreases lights.len() - e,
{
    if e < lights.len() {
        lemma_no_unknown_in_block(streets, lights, e + 1);
    }
}

proof fn lemma_no_unknown_in_path(streets: Seq<PStreet>, names: Seq<Vec<u8>>, e: int)
    requires
        first_unknown_in_path(streets, names, e) is None,
        0 <= e,
    ensures
        forall|e2: int|
            e <= e2 < names.len() ==> lookup_street(streets, (#[trigger] names[e2])@) is Some,
    decreases names.len() - e,
{
    if e < names.len() {
        lemma_no_unknown_in_path(streets, names, e + 1);
    }
}

/// When the scan of the schedule document reports no unknown name, every
/// street name in every block resolves.
pub proof fn lemma_no_unknown_sched_names(
    streets: Seq<PStreet>,
    blocks: Seq<PIntersectionSchedule>,
)
    requires
        first_unknown_sched(streets, blocks, 0) is None,
    ensures
        forall|k: int, e: int|
            0 <= k < blocks.len() && 0 <= e < blocks[k].light_schedules@.len() ==> lookup_street(
                streets,
                (#[trigger] blocks[k].light_schedules@[e]).0@,
            ) is Some,
{
    lemma_no_unknown_sched_names_from(streets, blocks, 0);
}

proof fn lemma_no_unknown_sched_names_from(
    streets: Seq<PStreet>,
    blocks: Seq<PIntersectionSchedule>,
    k: int,
)
    requires
        first_unknown_sched(streets, blocks, k) is None,
        0 <= k,
    ensures
        forall|k2: int, e: int|
            k <= k2 < blocks.len() && 0 <= e < blocks[k2].light_schedules@.len()
                ==> lookup_street(streets, (#[trigger] blocks[k2].light_schedules@[e]).0@)
                is Some,
    decreases blocks.len() - k,
{
    if k < blocks.len() {
        lemma_no_unknown_in_block(streets, blocks[k].light_schedules@, 0);
        lemma_no_unknown_sched_names_from(streets, blocks, k + 1);
    }
}

/// When the scan of the routes reports no unknown name, every street name
/// of every route resolves.
pub proof fn lemma_no_unknown_route_names(streets: Seq<PStreet>, car_paths: Seq<PCarPath>)
    requires
        first_unknown_routes(streets, car_paths, 0) is None,
    ensures
        forall|k: int, e: int|
            0 <= k < car_paths.len() && 0 <= e < car_paths[k].street_names@.len()
                ==> lookup_street(streets, (#[trigger] car_paths[k].street_names@[e])@) is Some,
{
    lemma_no_unknown_route_names_from(streets, car_paths, 0);
}

proof fn lemma_no_unknown_route_names_from(
    streets: Seq<PStreet>,
    car_paths: Seq<PCarPath>,
    k: int,
)
    requires
        first_unknown_routes(streets, car_paths, k) is None,
        0 <= k,
    ensures
        forall|k2: int, e: int|
            k <= k2 < car_paths.len() && 0 <= e < car_paths[k2].street_names@.len()
                ==> lookup_street(streets, (#[trigger] car_paths[k2].street_names@[e])@)
                is Some,
    decreases car_paths.len() - k,
{
    if k < car_paths.len() {
        lemma_no_unknown_in_path(streets, car_paths[k].street_names@, 0);
        lemma_no_unknown_route_names_from(streets, car_paths, k + 1);
    }
}

// ---------------------------------------------------------------------------
// Light schedule compilation
// ---------------------------------------------------------------------------

pub proof fn lemma_prefix_duration_mono(lights: Seq<(Vec<u8>, usize)>, i: int, j: int)
    requires
        0 <= i <= j,
    ensures
        prefix_duration(lights, i) <= prefix_duration(lights, j),
        0 <= prefix_duration(lights, i),
    decreases j,
{
    if j > 0 {
        if i == j {
            lemma_prefix_duration_mono(lights, j - 1, j - 1);
        } else {
            lemma_prefix_duration_mono(lights, i, j - 1);
        }
    }
}

/// Compile the schedule document into a per-street-id green-window map:
/// each entry's period is the sum of its block's durations, its offset the
/// sum of the durations before it in the same block.
pub fn build_light_schedule(
    streets: &Vec<PStreet>,
    output: &POutputData,
) -> (r: Result<Vec<Option<LightSchedule>>, ScoreError>)
    requires
        wf_output(*output),
    ensures
        match r {
            Ok(m) => {
                &&& first_unknown_sched(streets@, output.intersection_schedules@, 0) is None
                &&& m@ == spec_compile(streets@, output.intersection_schedules@)
                &&& m@.len() == streets@.len()
                &&& wf_scheds(m@)
            },
            Err(e) => {
                &&& e matches ScoreError::UnknownStreet(n) && first_unknown_sched(
                    streets@,
                    output.intersection_schedules@,
                    0,
                ) == Some(n@)
            },
        },
{
    let ghost blocks = output.intersection_schedules@;
    let mut m: Vec<Option<LightSchedule>> = Vec::new();
    let n_streets = streets.len();
    while m.len() < n_streets
        invariant
            m@.len() <= n_streets == streets@.len(),
            forall|i: int| 0 <= i < m@.len() ==> m@[i] is None,
        decreases n_streets - m.len(),
    {
        m.push(None);
    }
    proof {
        assert(m@ =~= compile_upto(streets@, blocks, 0));
    }
    let n_blocks = output.intersection_schedules.len();
    let mut k: usize = 0;
    while k < n_blocks
        invariant
            0 <= k <= n_blocks == blocks.len(),
            wf_output(*output),
            blocks == output.intersection_schedules@,
            m@ == compile_upto(streets@, blocks, k as int),
            m@.len() == streets@.len(),
            wf_scheds(m@),
            first_unknown_sched(streets@, blocks, 0) == first_unknown_sched(
                streets@,
                blocks,
                k as int,
            ),
        decreases n_blocks - k,
    {
        let block = &output.intersection_schedules[k];
        let ghost lights = block.light_schedules@;
        let n_lights = block.light_schedules.len();
        // First pass: the block's period.
        let mut period: usize = 0;
        let mut e: usize = 0;
        while e < n_lights
            invariant
                0 <= e <= n_lights == lights.len(),
                wf_block(*block),
                lights == block.light_schedules@,
                period == prefix_duration(lights, e as int),
            decreases n_lights - e,
        {
            proof {
                lemma_prefix_duration_mono(lights, e as int, e as int);
                lemma_prefix_duration_mono(lights, e + 1, lights.len() as int);
            }
            period = period + block.light_schedules[e].1;
            e = e + 1;
        }
        // Second pass: running offsets, and the map entries.
        let mut offset: usize = 0;
        e = 0;
        while e < n_lights
            invariant
                0 <= e <= n_lights == lights.len(),
                wf_block(*block),
                lights == block.light_schedules@,
                blocks == output.intersection_schedules@,
                0 <= (k as int) < blocks.len(),
                lights == blocks[k as int].light_schedules@,
                period == block_period(lights),
                offset == prefix_duration(lights, e as int),
                m@.len() == streets@.len(),
                m@ == apply_block_upto(
                    compile_upto(streets@, blocks, k as int),
                    streets@,
                    lights,
                    e as int,
                ),
                wf_scheds(m@),
                first_unknown_in_block(streets@, lights, 0) == first_unknown_in_block(
                    streets@,
                    lights,
                    e as int,
                ),
                first_unknown_sched(streets@, blocks, 0) == first_unknown_sched(
                    streets@,
                    blocks,
                    k as int,
                ),
            decreases n_lights - e,
        {
            let name = &block.light_schedules[e].0;
            let dur = block.light_schedules[e].1;
            match find_street(streets, name.as_slice()) {
                Some(id) => {
                    proof {
                        lemma_lookup_street_in_range(streets@, name@);
                        lemma_prefix_duration_mono(lights, e as int, e as int);
                        lemma_prefix_duration_mono(lights, e + 1, lights.len() as int);
                    }
                    m[id] = Some((offset, dur, period));
                    offset = offset + dur;
                },
                None => {
                    proof {
                        assert(first_unknown_in_block(streets@, lights, e as int) == Some(
                            lights[e as int].0@,
                        ));
                        assert(first_unknown_sched(streets@, blocks, k as int) == Some(
                            lights[e as int].0@,
                        ));
                    }
                    return Err(ScoreError::UnknownStreet(vstd::slice::slice_to_vec(name.as_slice())));
                },
            }
            e = e + 1;
        }
        k = k + 1;
    }
    Ok(m)
}

// ---------------------------------------------------------------------------
// Route plan building
// ---------------------------------------------------------------------------

/// Build the per-car action programs and seed the street queues: every car
/// starts enqueued at the far end of the first street of its route; each
/// further street contributes a drive across it, followed by a wait to cross
/// at its end for every street but the last.
pub fn build_car_plans(
    streets: &Vec<PStreet>,
    car_paths: &Vec<PCarPath>,
) -> (r: Result<(Vec<CarTracker>, Vec<VecDeque<usize>>), ScoreError>)
    requires
        forall|j: int| 0 <= j < car_paths@.len() ==> wf_car_path(#[trigger] car_paths@[j]),
    ensures
        match r {
            Ok(tq) => {
                &&& first_unknown_routes(streets@, car_paths@, 0) is None
                &&& state_of(tq.0@, tq.1@, 0) == spec_init(streets@, car_paths@)
                &&& tq.0@.len() == car_paths@.len()
                &&& tq.1@.len() == streets@.len()
                &&& (forall|i: int| 0 <= i < tq.0@.len() ==> (#[trigger] tq.0@[i]).id == i)
            },
            Err(e) => e matches ScoreError::UnknownStreet(n) && first_unknown_routes(
                streets@,
                car_paths@,
                0,
            ) == Some(n@),
        },
{
    let ghost gstreets = streets@;
    let ghost gpaths = car_paths@;
    let mut queues: Vec<VecDeque<usize>> = Vec::new();
    let n_streets = streets.len();
    while queues.len() < n_streets
        invariant
            queues@.len() <= n_streets == streets@.len(),
            forall|i: int| 0 <= i < queues@.len() ==> (#[trigger] queues@[i])@ == Seq::<
                usize,
            >::empty(),
        decreases n_streets - queues.len(),
    {
        queues.push(VecDeque::new());
    }
    proof {
        assert(queues@.map_values(|q: VecDeque<usize>| q@) =~= seed_queues_upto(
            gstreets,
            gpaths,
            0,
        ));
    }
    let mut trackers: Vec<CarTracker> = Vec::new();
    let n_cars = car_paths.len();
    let mut car_id: usize = 0;
    while car_id < n_cars
        invariant
            0 <= car_id <= n_cars == gpaths.len(),
            gstreets == streets@,
            gpaths == car_paths@,
            forall|j: int| 0 <= j < gpaths.len() ==> wf_car_path(#[trigger] gpaths[j]),
            trackers@.len() == car_id,
            queues@.len() == gstreets.len(),
            trackers@.map_values(|ct: CarTracker| car_of(ct)) == init_cars_upto(
                gstreets,
                gpaths,
                car_id as int,
            ),
            queues@.map_values(|q: VecDeque<usize>| q@) == seed_queues_upto(
                gstreets,
                gpaths,
                car_id as int,
            ),
            forall|i: int| 0 <= i < car_id ==> (#[trigger] trackers@[i]).id == i,
            first_unknown_routes(gstreets, gpaths, 0) == first_unknown_routes(
                gstreets,
                gpaths,
                car_id as int,
            ),
        decreases n_cars - car_id,
    {
        let ghost names = gpaths[car_id as int].street_names@;
        let n_names = car_paths[car_id].street_names.len();
        // The first street: the car starts at its far end, queued to cross.
        let id0 = match find_street(streets, car_paths[car_id].street_names[0].as_slice()) {
            Some(id) => id,
            None => {
                proof {
                    assert(first_unknown_in_path(gstreets, names, 0) == Some(names[0]@));
                    assert(first_unknown_routes(gstreets, gpaths, car_id as int) == Some(
                        names[0]@,
                    ));
                }
                return Err(
                    ScoreError::UnknownStreet(
                        vstd::slice::slice_to_vec(car_paths[car_id].street_names[0].as_slice()),
                    ),
                );
            },
        };
        proof {
            lemma_lookup_street_in_range(gstreets, names[0]@);
        }
        queues[id0].push_back(car_id);
        proof {
            assert(queues@.map_values(|q: VecDeque<usize>| q@) =~= seed_queues_upto(
                gstreets,
                gpaths,
                car_id + 1,
            ));
        }
        let mut actions: VecDeque<Action> = VecDeque::new();
        if n_names > 1 {
            actions.push_back(Action::Waiting(id0));
        }
        proof {
            assert(lookup_street(gstreets, names[0]@) == Some(id0 as int));
            let seg = crate::model::route_seg(gstreets, names, 0);
            if n_names > 1 {
                assert(seg =~= seq![Action::Waiting(id0)]);
            } else {
                assert(seg =~= Seq::<Action>::empty());
            }
            assert(route_actions_upto(gstreets, names, 1) == route_actions_upto(gstreets, names, 0)
                + seg);
            assert(actions@ =~= route_actions_upto(gstreets, names, 1));
        }
        // The remaining streets: drive across each, wait at all but the last.
        let mut i: usize = 1;
        while i < n_names
            invariant
                1 <= i <= n_names,
                gstreets == streets@,
                gpaths == car_paths@,
                0 <= car_id < gpaths.len(),
                names == gpaths[car_id as int].street_names@,
                n_names == names.len(),
                actions@ == route_actions_upto(gstreets, names, i as int),
                first_unknown_in_path(gstreets, names, 0) == first_unknown_in_path(
                    gstreets,
                    names,
                    i as int,
                ),
                first_unknown_routes(gstreets, gpaths, 0) == first_unknown_routes(
                    gstreets,
                    gpaths,
                    car_id as int,
                ),
            decreases n_names - i,
        {
            match find_street(streets, car_paths[car_id].street_names[i].as_slice()) {
                Some(sid) => {
                    proof {
                        lemma_lookup_street_in_range(gstreets, names[i as int]@);
                    }
                    let slen = streets[sid].street_length;
                    actions.push_back(Action::Driving(sid, slen));
                    if i + 1 < n_names {
                        actions.push_back(Action::Waiting(sid));
                    }
                    proof {
                        assert(actions@ =~= route_actions_upto(gstreets, names, i + 1));
                    }
                },
                None => {
                    proof {
                        assert(first_unknown_in_path(gstreets, names, i as int) == Some(
                            names[i as int]@,
                        ));
                        assert(first_unknown_routes(gstreets, gpaths, car_id as int) == Some(
                            names[i as int]@,
                        ));
                    }
                    return Err(
                        ScoreError::UnknownStreet(
                            vstd::slice::slice_to_vec(car_paths[car_id].street_names[i].as_slice()),
                        ),
                    );
                },
            }
            i = i + 1;
        }
        trackers.push(CarTracker { id: car_id, actions, distance_current_street: 0 });
        proof {
            assert(trackers@.map_values(|ct: CarTracker| car_of(ct)) =~= init_cars_upto(
                gstreets,
                gpaths,
                car_id + 1,
            ));
        }
        car_id = car_id + 1;
    }
    proof {
        let st = state_of(trackers@, queues@, 0);
        let si = spec_init(gstreets, gpaths);
        assert(st.cars == si.cars);
        assert(st.queues == si.queues);
        assert(st == si);
    }
    Ok((trackers, queues))
}

// ---------------------------------------------------------------------------
// The tick loop
// ---------------------------------------------------------------------------

/// Release step of one tick: for every street in ascending id order, if its
/// light is green and cars are waiting, the queue head crosses — it leaves
/// the queue, drops the wait it was blocked on, and is one unit into its
/// next street.
fn release_phase(
    trackers: &mut Vec<CarTracker>,
    queues: &mut Vec<VecDeque<usize>>,
    scheds: &Vec<Option<LightSchedule>>,
    time: usize,
    score: Ghost<int>,
)
    requires
        inv_state(
            state_of(old(trackers)@, old(queues)@, score@),
            old(queues)@.len() as int,
            old(trackers)@.len() as int,
        ),
        scheds@.len() == old(queues)@.len(),
        wf_scheds(scheds@),
    ensures
        state_of(final(trackers)@, final(queues)@, score@) == release_upto(
            state_of(old(trackers)@, old(queues)@, score@),
            scheds@,
            time as int,
            scheds@.len() as int,
        ),
        final(trackers)@.len() == old(trackers)@.len(),
        final(queues)@.len() == old(queues)@.len(),
        forall|i: int|
            0 <= i < final(trackers)@.len() ==> (#[trigger] final(trackers)@[i]).id == old(
                trackers,
            )@[i].id,
{
    let ghost st0 = state_of(old(trackers)@, old(queues)@, score@);
    let ghost n_cars = old(trackers)@.len() as int;
    let n_streets = queues.len();
    let mut s: usize = 0;
    while s < n_streets
        invariant
            0 <= s <= n_streets,
            queues@.len() == n_streets,
            scheds@.len() == n_streets,
            wf_scheds(scheds@),
            trackers@.len() == n_cars,
            st0.cars.len() == n_cars,
            state_of(trackers@, queues@, score@) == release_upto(
                st0,
                scheds@,
                time as int,
                s as int,
            ),
            inv_state(
                state_of(trackers@, queues@, score@),
                n_streets as int,
                n_cars,
            ),
            forall|i: int|
                0 <= i < trackers@.len() ==> (#[trigger] trackers@[i]).id == old(trackers)@[i].id,
        decreases n_streets - s,
    {
        let ghost prev = state_of(trackers@, queues@, score@);
        match scheds[s] {
            Some(ls) => {
                if queues[s].len() > 0 && is_green(time, &ls) {
                    proof {
                        assert(queued_ok(prev, s as int, 0));
                    }
                    match queues[s].pop_front() {
                        Some(c) => {
                            trackers[c].distance_current_street = 1;
                            trackers[c].actions.pop_front();
                            proof {
                                let nxt = release_one(prev, scheds@, time as int, s as int);
                                let cur = state_of(trackers@, queues@, score@);
                                assert(cur.cars =~= nxt.cars);
                                assert(cur.queues =~= nxt.queues);
                                assert(cur == nxt);
                            }
                        },
                        None => {
                            proof {
                                assert(false);
                            }
                        },
                    }
                } else {
                    proof {
                        assert(state_of(trackers@, queues@, score@) == release_one(
                            prev,
                            scheds@,
                            time as int,
                            s as int,
                        ));
                    }
                }
            },
            None => {
                proof {
                    assert(state_of(trackers@, queues@, score@) == release_one(
                        prev,
                        scheds@,
                        time as int,
                        s as int,
                    ));
                }
            },
        }
        proof {
            lemma_release_one_preserves(
                prev,
                scheds@,
                time as int,
                s as int,
                n_streets as int,
                n_cars,
                0,
                0,
            );
        }
        s = s + 1;
    }
}

/// Advance one car at one tick: if it is driving and has covered its
/// street, it queues up at the street's end or completes its route and
/// scores; if it is driving but short of the end, it moves one unit.
#[verifier::rlimit(100)]
fn advance_one_car(
    trackers: &mut Vec<CarTracker>,
    queues: &mut Vec<VecDeque<usize>>,
    score: &mut usize,
    time: usize,
    duration: usize,
    bonus: usize,
    c: usize,
)
    requires
        inv_state(
            state_of(old(trackers)@, old(queues)@, *old(score) as int),
            old(queues)@.len() as int,
            old(trackers)@.len() as int,
        ),
        score_ok(
            state_of(old(trackers)@, old(queues)@, *old(score) as int),
            duration as int,
            bonus as int,
        ),
        c < old(trackers)@.len(),
        old(trackers)@.len() * (bonus + duration) <= usize::MAX,
        time < duration,
        forall|i: int| 0 <= i < old(trackers)@.len() ==> (#[trigger] old(trackers)@[i]).id == i,
    ensures
        state_of(final(trackers)@, final(queues)@, *final(score) as int) == advance_one(
            state_of(old(trackers)@, old(queues)@, *old(score) as int),
            time as int,
            duration as int,
            bonus as int,
            c as int,
        ),
        final(trackers)@.len() == old(trackers)@.len(),
        final(queues)@.len() == old(queues)@.len(),
        forall|i: int|
            0 <= i < final(trackers)@.len() ==> (#[trigger] final(trackers)@[i]).id == i,
{
    let ghost prev = state_of(old(trackers)@, old(queues)@, *old(score) as int);
    let ghost n_streets = old(queues)@.len() as int;
    let ghost n_cars = old(trackers)@.len() as int;
    let n_cars_exec = trackers.len();
    let n_queues_exec = queues.len();
    proof {
        assert(n_cars == n_cars_exec as int);
        assert(n_streets == n_queues_exec as int);
    }
    let front: Option<Action> = if trackers[c].actions.len() > 0 {
        Some(trackers[c].actions[0])
    } else {
        None
    };
    match front {
        Some(Action::Driving(_street, slen)) => {
            if trackers[c].distance_current_street >= slen {
                trackers[c].distance_current_street = 0;
                trackers[c].actions.pop_front();
                let next: Option<Action> = if trackers[c].actions.len() > 0 {
                    Some(trackers[c].actions[0])
                } else {
                    None
                };
                match next {
                    Some(Action::Waiting(s2)) => {
                        proof {
                            assert(wf_prog(prev.cars[c as int].actions, n_streets));
                            assert(prev.cars[c as int].actions[1] is Waiting);
                        }
                        let cid = trackers[c].id;
                        queues[s2].push_back(cid);
                        proof {
                            let nxt = advance_one(
                                prev,
                                time as int,
                                duration as int,
                                bonus as int,
                                c as int,
                            );
                            let cur = state_of(trackers@, queues@, *score as int);
                            assert(cur.cars =~= nxt.cars);
                            assert(cur.queues =~= nxt.queues);
                            assert(cur == nxt);
                        }
                    },
                    None => {
                        trackers[c].actions.push_back(Action::Finished(time));
                        let time_matlab = time + 1;
                        proof {
                            let nxt = advance_one(
                                prev,
                                time as int,
                                duration as int,
                                bonus as int,
                                c as int,
                            );
                            lemma_advance_one_preserves(
                                prev,
                                time as int,
                                duration as int,
                                bonus as int,
                                c as int,
                                n_streets,
                                n_cars,
                            );
                            lemma_cars_score_upto_bounds(
                                nxt.cars,
                                duration as int,
                                bonus as int,
                                n_cars,
                            );
                        }
                        if time_matlab <= duration {
                            *score = *score + (bonus + (duration - time_matlab));
                        }
                        proof {
                            let nxt = advance_one(
                                prev,
                                time as int,
                                duration as int,
                                bonus as int,
                                c as int,
                            );
                            let cur = state_of(trackers@, queues@, *score as int);
                            assert(trackers@[c as int].actions@ =~= seq![
                                Action::Finished(time),
                            ]);
                            assert(cur.cars =~= nxt.cars);
                            assert(cur.queues =~= nxt.queues);
                            assert(cur == nxt);
                        }
                    },
                    Some(_) => {
                        proof {
                            assert(wf_prog(prev.cars[c as int].actions, n_streets));
                            assert(prev.cars[c as int].actions[1] is Waiting);
                            assert(false);
                        }
                    },
                }
            } else {
                trackers[c].distance_current_street = trackers[c].distance_current_street + 1;
                proof {
                    let nxt = advance_one(
                        prev,
                        time as int,
                        duration as int,
                        bonus as int,
                        c as int,
                    );
                    let cur = state_of(trackers@, queues@, *score as int);
                    assert(cur.cars =~= nxt.cars);
                    assert(cur.queues =~= nxt.queues);
                    assert(cur == nxt);
                }
            }
        },
        _ => {
            proof {
                assert(state_of(trackers@, queues@, *score as int) == advance_one(
                    prev,
                    time as int,
                    duration as int,
                    bonus as int,
                    c as int,
                ));
            }
        },
    }
}

/// Arrival step of one tick: every driving car that has covered its street
/// queues up at its end or completes its route and scores; every other
/// driving car moves one unit along its street.
fn advance_phase(
    trackers: &mut Vec<CarTracker>,
    queues: &mut Vec<VecDeque<usize>>,
    score: &mut usize,
    time: usize,
    duration: usize,
    bonus: usize,
)
    requires
        inv_state(
            state_of(old(trackers)@, old(queues)@, *old(score) as int),
            old(queues)@.len() as int,
            old(trackers)@.len() as int,
        ),
        score_ok(
            state_of(old(trackers)@, old(queues)@, *old(score) as int),
            duration as int,
            bonus as int,
        ),
        old(trackers)@.len() * (bonus + duration) <= usize::MAX,
        time < duration,
        forall|i: int| 0 <= i < old(trackers)@.len() ==> (#[trigger] old(trackers)@[i]).id == i,
    ensures
        state_of(final(trackers)@, final(queues)@, *final(score) as int) == advance_upto(
            state_of(old(trackers)@, old(queues)@, *old(score) as int),
            time as int,
            duration as int,
            bonus as int,
            old(trackers)@.len() as int,
        ),
        final(trackers)@.len() == old(trackers)@.len(),
        final(queues)@.len() == old(queues)@.len(),
        forall|i: int|
            0 <= i < final(trackers)@.len() ==> (#[trigger] final(trackers)@[i]).id == i,
{
    let ghost st0 = state_of(old(trackers)@, old(queues)@, *old(score) as int);
    let ghost n_streets = old(queues)@.len() as int;
    let n_cars = trackers.len();
    let n_queues = queues.len();
    let mut c: usize = 0;
    while c < n_cars
        invariant
            0 <= c <= n_cars,
            trackers@.len() == n_cars,
            queues@.len() == n_queues,
            n_streets == n_queues as int,
            st0.cars.len() == n_cars,
            n_cars * (bonus + duration) <= usize::MAX,
            time < duration,
            state_of(trackers@, queues@, *score as int) == advance_upto(
                st0,
                time as int,
                duration as int,
                bonus as int,
                c as int,
            ),
            inv_state(state_of(trackers@, queues@, *score as int), n_streets, n_cars as int),
            score_ok(
                state_of(trackers@, queues@, *score as int),
                duration as int,
                bonus as int,
            ),
            forall|i: int| 0 <= i < trackers@.len() ==> (#[trigger] trackers@[i]).id == i,
        decreases n_cars - c,
    {
        let ghost prev = state_of(trackers@, queues@, *score as int);
        advance_one_car(trackers, queues, score, time, duration, bonus, c);
        proof {
            lemma_advance_one_preserves(
                prev,
                time as int,
                duration as int,
                bonus as int,
                c as int,
                n_streets,
                n_cars as int,
            );
        }
        c = c + 1;
    }
}

// ---------------------------------------------------------------------------
// The engine
// ---------------------------------------------------------------------------

/// What the engine computes: the score of the simulation run over the full
/// horizon, starting from the seeded initial state under the compiled
/// schedule.
pub open spec fn spec_total_score(input: PInputData, output: POutputData) -> int {
    let streets = input.body.streets@;
    let scheds = spec_compile(streets, output.intersection_schedules@);
    let st0 = spec_init(streets, input.body.car_paths@);
    spec_run(
        st0,
        scheds,
        input.header.simulation_duration as int,
        input.header.bonus as int,
        input.header.simulation_duration as int,
    ).score
}

/// Evaluate the candidate schedule against the network: compile the lights,
/// seed the routes, deterministically replay the traffic tick by tick, and
/// return the total score — or the first street name, in document order of
/// the schedule and then of the routes, that the network never declared.
///
/// A route of a single street yields an empty action program: such a car
/// starts queued at its only street, completion is detected only when a
/// drive runs out, so the car is never marked finished and contributes
/// nothing. This is a deliberate choice, kept as the model defines it.
pub fn compute_score(input: &PInputData, output: &POutputData) -> (r: Result<usize, ScoreError>)
    requires
        wf_input(*input),
        wf_output(*output),
        input.body.car_paths@.len() * (input.header.bonus + input.header.simulation_duration)
            <= usize::MAX,
    ensures
        match r {
            Ok(score) => {
                &&& spec_first_unknown(*input, *output) is None
                &&& score as int == spec_total_score(*input, *output)
            },
            Err(e) => e matches ScoreError::UnknownStreet(n) && spec_first_unknown(
                *input,
                *output,
            ) == Some(n@),
        },
{
    let scheds = match build_light_schedule(&input.body.streets, output) {
        Ok(m) => m,
        Err(e) => {
            return Err(e);
        },
    };
    let plans = match build_car_plans(&input.body.streets, &input.body.car_paths) {
        Ok(p) => p,
        Err(e) => {
            return Err(e);
        },
    };
    let (mut trackers, mut queues) = plans;
    let duration = input.header.simulation_duration;
    let bonus = input.header.bonus;
    let n_cars = trackers.len();
    let n_queues = queues.len();
    let ghost gstreets = input.body.streets@;
    let ghost gpaths = input.body.car_paths@;
    let ghost st0 = spec_init(gstreets, gpaths);
    let ghost gscheds = spec_compile(gstreets, output.intersection_schedules@);
    proof {
        lemma_init_inv(gstreets, gpaths, duration as int, bonus as int);
    }
    let mut score: usize = 0;
    let mut time: usize = 0;
    while time < duration
        invariant
            0 <= time <= duration,
            trackers@.len() == n_cars,
            queues@.len() == n_queues,
            scheds@ == gscheds,
            scheds@.len() == n_queues as int,
            wf_scheds(scheds@),
            st0.cars.len() == n_cars as int,
            n_cars * (bonus + duration) <= usize::MAX,
            state_of(trackers@, queues@, score as int) == spec_run(
                st0,
                gscheds,
                duration as int,
                bonus as int,
                time as int,
            ),
            inv_state(
                state_of(trackers@, queues@, score as int),
                n_queues as int,
                n_cars as int,
            ),
            score_ok(
                state_of(trackers@, queues@, score as int),
                duration as int,
                bonus as int,
            ),
            forall|i: int| 0 <= i < trackers@.len() ==> (#[trigger] trackers@[i]).id == i,
        decreases duration - time,
    {
        let ghost st_t = state_of(trackers@, queues@, score as int);
        release_phase(&mut trackers, &mut queues, &scheds, time, Ghost(score as int));
        proof {
            lemma_release_upto_preserves(
                st_t,
                gscheds,
                time as int,
                n_queues as int,
                n_queues as int,
                n_cars as int,
                duration as int,
                bonus as int,
            );
        }
        advance_phase(&mut trackers, &mut queues, &mut score, time, duration, bonus);
        proof {
            let st1 = release_upto(st_t, gscheds, time as int, gscheds.len() as int);
            assert(st1.cars.len() == n_cars as int);
            lemma_advance_upto_preserves(
                st1,
                time as int,
                duration as int,
                bonus as int,
                n_cars as int,
                n_queues as int,
                n_cars as int,
            );
            assert(state_of(trackers@, queues@, score as int) == spec_tick(
                st_t,
                gscheds,
                time as int,
                duration as int,
                bonus as int,
            ));
        }
        time = time + 1;
    }
    Ok(score)
}

} // verus!
