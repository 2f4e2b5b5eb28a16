use traffic_score::data::{
    InputHeader, PCarPath, PInputBody, PInputData, PIntersectionSchedule, POutputData, PStreet,
};
use traffic_score::parser::{parse_input, parse_output};
use traffic_score::score::{build_light_schedule, compute_score, is_green, ScoreError};

fn engine_input_data() -> PInputData {
    PInputData {
        header: InputHeader {
            simulation_duration: 6,
            intersections: 4,
            streets: 5,
            cars: 2,
            bonus: 1000,
        },
        body: PInputBody {
            streets: vec![
                PStreet {
                    intersection_start: 2,
                    intersection_end: 0,
                    street_name: b"rue-de-londres".to_vec(),
                    street_length: 1,
                },
                PStreet {
                    intersection_start: 0,
                    intersection_end: 1,
                    street_name: b"rue-d-amsterdam".to_vec(),
                    street_length: 1,
                },
                PStreet {
                    intersection_start: 3,
                    intersection_end: 1,
                    street_name: b"rue-d-athenes".to_vec(),
                    street_length: 1,
                },
                PStreet {
                    intersection_start: 2,
                    intersection_end: 3,
                    street_name: b"rue-de-rome".to_vec(),
                    street_length: 2,
                },
                PStreet {
                    intersection_start: 1,
                    intersection_end: 2,
                    street_name: b"rue-de-moscou".to_vec(),
                    street_length: 3,
                },
            ],
            car_paths: vec![
                PCarPath {
                    streets: 4,
                    street_names: vec![
                        b"rue-de-londres".to_vec(),
                        b"rue-d-amsterdam".to_vec(),
                        b"rue-de-moscou".to_vec(),
                        b"rue-de-rome".to_vec(),
                    ],
                },
                PCarPath {
                    streets: 3,
                    street_names: vec![
                        b"rue-d-athenes".to_vec(),
                        b"rue-de-moscou".to_vec(),
                        b"rue-de-londres".to_vec(),
                    ],
                },
            ],
        },
    }
}

fn engine_output_data() -> POutputData {
    POutputData {
        schedules: 3,
        intersection_schedules: vec![
            PIntersectionSchedule {
                intersection_id: 1,
                incoming_streets: 2,
                light_schedules: vec![
                    (b"rue-d-athenes".to_vec(), 2),
                    (b"rue-d-amsterdam".to_vec(), 1),
                ],
            },
            PIntersectionSchedule {
                intersection_id: 0,
                incoming_streets: 1,
                light_schedules: vec![(b"rue-de-londres".to_vec(), 2)],
            },
            PIntersectionSchedule {
                intersection_id: 2,
                incoming_streets: 1,
                light_schedules: vec![(b"rue-de-moscou".to_vec(), 1)],
            },
        ],
    }
}

/// A small network for targeted scenarios: streets `a` (into intersection
/// 1), `b` and `c` out of it.
fn small_input(simulation_duration: usize, bonus: usize) -> PInputData {
    PInputData {
        header: InputHeader {
            simulation_duration,
            intersections: 4,
            streets: 3,
            cars: 2,
            bonus,
        },
        body: PInputBody {
            streets: vec![
                PStreet {
                    intersection_start: 0,
                    intersection_end: 1,
                    street_name: b"a".to_vec(),
                    street_length: 1,
                },
                PStreet {
                    intersection_start: 1,
                    intersection_end: 2,
                    street_name: b"b".to_vec(),
                    street_length: 1,
                },
                PStreet {
                    intersection_start: 1,
                    intersection_end: 3,
                    street_name: b"c".to_vec(),
                    street_length: 5,
                },
            ],
            car_paths: vec![
                PCarPath {
                    streets: 2,
                    street_names: vec![b"a".to_vec(), b"b".to_vec()],
                },
                PCarPath {
                    streets: 2,
                    street_names: vec![b"a".to_vec(), b"c".to_vec()],
                },
            ],
        },
    }
}

/// A schedule that keeps street `a`'s light green at every tick.
fn small_output_always_green() -> POutputData {
    POutputData {
        schedules: 1,
        intersection_schedules: vec![PIntersectionSchedule {
            intersection_id: 1,
            incoming_streets: 1,
            light_schedules: vec![(b"a".to_vec(), 1)],
        }],
    }
}

#[test]
fn test_compute_score_example() {
    let input_data = engine_input_data();
    let output_data = engine_output_data();
    let score = compute_score(&input_data, &output_data);
    assert_eq!(score, Ok(1002));
}

#[test]
fn test_full_pipeline_example() {
    let input = b"6 4 5 2 1000\n\
                  2 0 rue-de-londres 1\n\
                  0 1 rue-d-amsterdam 1\n\
                  3 1 rue-d-athenes 1\n\
                  2 3 rue-de-rome 2\n\
                  1 2 rue-de-moscou 3\n\
                  4 rue-de-londres rue-d-amsterdam rue-de-moscou rue-de-rome\n\
                  3 rue-d-athenes rue-de-moscou rue-de-londres\n";
    let output = b"3\n\
                   1\n\
                   2\n\
                   rue-d-athenes 2\n\
                   rue-d-amsterdam 1\n\
                   0\n\
                   1\n\
                   rue-de-londres 2\n\
                   2\n\
                   1\n\
                   rue-de-moscou 1\n";
    let input_data = parse_input(input).unwrap();
    let output_data = parse_output(output).unwrap();
    assert_eq!(compute_score(&input_data, &output_data), Ok(1002));
}

#[test]
fn test_compute_score_is_deterministic() {
    let input_data = engine_input_data();
    let output_data = engine_output_data();
    let first = compute_score(&input_data, &output_data);
    let second = compute_score(&input_data, &output_data);
    assert_eq!(first, second);
    assert_eq!(first, Ok(1002));
}

#[test]
fn test_build_light_schedule_offsets() {
    // Street ids by declaration order: londres 0, amsterdam 1, athenes 2,
    // rome 3, moscou 4.
    let input_data = engine_input_data();
    let output_data = engine_output_data();
    let m = build_light_schedule(&input_data.body.streets, &output_data).unwrap();
    assert_eq!(m.len(), 5);
    assert_eq!(m[2], Some((0, 2, 3))); // athenes: first in its block
    assert_eq!(m[1], Some((2, 1, 3))); // amsterdam: offset after athenes
    assert_eq!(m[0], Some((0, 2, 2))); // londres: alone in its block
    assert_eq!(m[4], Some((0, 1, 1))); // moscou: alone, always green
    assert_eq!(m[3], None); // rome is never scheduled: permanently red
}

#[test]
fn test_is_green_windows() {
    // athenes (0, 2, 3): green in the first two ticks of each period of 3.
    let athenes = (0, 2, 3);
    assert!(is_green(0, &athenes));
    assert!(is_green(1, &athenes));
    assert!(!is_green(2, &athenes));
    assert!(is_green(3, &athenes));
    // amsterdam (2, 1, 3): green in the last tick of each period of 3.
    let amsterdam = (2, 1, 3);
    assert!(!is_green(0, &amsterdam));
    assert!(!is_green(1, &amsterdam));
    assert!(is_green(2, &amsterdam));
    assert!(!is_green(3, &amsterdam));
    // moscou (0, 1, 1): always green.
    let moscou = (0, 1, 1);
    for t in 0..10 {
        assert!(is_green(t, &moscou));
    }
}

#[test]
fn test_is_green_periodicity() {
    let athenes = (0, 2, 3);
    for t in 0..30 {
        assert_eq!(is_green(t, &athenes), is_green(t + 3, &athenes));
    }
    let amsterdam = (2, 1, 3);
    for t in 0..30 {
        assert_eq!(is_green(t, &amsterdam), is_green(t + 3, &amsterdam));
    }
}

#[test]
fn test_block_windows_do_not_overlap() {
    // Within intersection 1's block, athenes and amsterdam are never green
    // at the same tick.
    let athenes = (0, 2, 3);
    let amsterdam = (2, 1, 3);
    for t in 0..30 {
        assert!(!(is_green(t, &athenes) && is_green(t, &amsterdam)));
    }
}

#[test]
fn test_unknown_street_in_schedule() {
    let input_data = engine_input_data();
    let mut output_data = engine_output_data();
    output_data.intersection_schedules[0].light_schedules[0].0 = b"rue-imaginaire".to_vec();
    assert_eq!(
        compute_score(&input_data, &output_data),
        Err(ScoreError::UnknownStreet(b"rue-imaginaire".to_vec()))
    );
}

#[test]
fn test_unknown_street_in_route() {
    let mut input_data = engine_input_data();
    let output_data = engine_output_data();
    input_data.body.car_paths[1].street_names[1] = b"rue-perdue".to_vec();
    assert_eq!(
        compute_score(&input_data, &output_data),
        Err(ScoreError::UnknownStreet(b"rue-perdue".to_vec()))
    );
}

#[test]
fn test_unscheduled_street_scores_zero() {
    // No intersection is scheduled at all: every light stays red, every car
    // stays queued at its first street, and the total is zero — no error.
    let input_data = small_input(10, 1000);
    let output_data = POutputData {
        schedules: 0,
        intersection_schedules: vec![],
    };
    assert_eq!(compute_score(&input_data, &output_data), Ok(0));
}

#[test]
fn test_horizon_too_short_scores_zero() {
    // Street c takes five ticks, but the horizon is three: neither the slow
    // car nor the queued-behind car can matter beyond its own finish.
    let input_data = small_input(1, 0);
    let output_data = small_output_always_green();
    // Car 0 is released at tick 0 and finishes at tick 0, worth 1 - 1 = 0;
    // car 1 never completes street c. Nothing scores, nothing errors.
    assert_eq!(compute_score(&input_data, &output_data), Ok(0));
}

#[test]
fn test_fifo_release_order() {
    // Cars 0 and 1 both start on street a; car 0 was enqueued first. With a
    // horizon of 3 only the first-released car can finish: car 0 (fast
    // route b) must be it, worth 100 + (3 - 1) = 102. Were the order ever
    // inverted, the slow car would block and the total would drop to 101.
    let input_data = small_input(3, 100);
    let output_data = small_output_always_green();
    assert_eq!(compute_score(&input_data, &output_data), Ok(102));
}

#[test]
fn test_single_street_route_never_scores() {
    // A one-street route has an empty action program: the car starts
    // queued, is released, but no drive ever completes, so it never scores.
    let input_data = PInputData {
        header: InputHeader {
            simulation_duration: 10,
            intersections: 2,
            streets: 1,
            cars: 1,
            bonus: 500,
        },
        body: PInputBody {
            streets: vec![PStreet {
                intersection_start: 0,
                intersection_end: 1,
                street_name: b"only".to_vec(),
                street_length: 1,
            }],
            car_paths: vec![PCarPath {
                streets: 1,
                street_names: vec![b"only".to_vec()],
            }],
        },
    };
    let output_data = POutputData {
        schedules: 1,
        intersection_schedules: vec![PIntersectionSchedule {
            intersection_id: 1,
            incoming_streets: 1,
            light_schedules: vec![(b"only".to_vec(), 1)],
        }],
    };
    assert_eq!(compute_score(&input_data, &output_data), Ok(0));
}

#[test]
fn test_duplicate_street_name_resolves_to_last() {
    // Two streets share a name; the schedule and routes resolve it to the
    // later declaration.
    let input_data = PInputData {
        header: InputHeader {
            simulation_duration: 4,
            intersections: 3,
            streets: 3,
            cars: 1,
            bonus: 10,
        },
        body: PInputBody {
            streets: vec![
                PStreet {
                    intersection_start: 0,
                    intersection_end: 1,
                    street_name: b"in".to_vec(),
                    street_length: 1,
                },
                PStreet {
                    intersection_start: 1,
                    intersection_end: 2,
                    street_name: b"twin".to_vec(),
                    street_length: 3,
                },
                PStreet {
                    intersection_start: 1,
                    intersection_end: 2,
                    street_name: b"twin".to_vec(),
                    street_length: 1,
                },
            ],
            car_paths: vec![PCarPath {
                streets: 2,
                street_names: vec![b"in".to_vec(), b"twin".to_vec()],
            }],
        },
    };
    let output_data = POutputData {
        schedules: 1,
        intersection_schedules: vec![PIntersectionSchedule {
            intersection_id: 1,
            incoming_streets: 1,
            light_schedules: vec![(b"in".to_vec(), 1)],
        }],
    };
    // `twin` resolves to the later declaration of length one: the car is
    // released at tick 0 and finishes at tick 0, worth 10 + (4 - 1) = 13.
    // Under the length-three declaration it would only be worth 11.
    assert_eq!(compute_score(&input_data, &output_data), Ok(13));
}
