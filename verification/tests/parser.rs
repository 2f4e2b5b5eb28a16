use traffic_score::data::{
    InputHeader, PCarPath, PInputBody, PInputData, PIntersectionSchedule, POutputData, PStreet,
};
use traffic_score::parser::{
    car_path, car_path_line, input_header, input_header_line, intersection_schedule,
    light_schedule, number, parse_input, parse_output, positive_number, single_space,
    str_list_exact, street, street_line, ParseError,
};

fn example_input_data() -> PInputData {
    PInputData {
        header: InputHeader {
            simulation_duration: 6,
            intersections: 4,
            streets: 5,
            cars: 2,
            bonus: 1000,
        },
        body: PInputBody {
            streets: vec![
                PStreet {
                    intersection_start: 2,
                    intersection_end: 0,
                    street_name: b"rue-de-londres".to_vec(),
                    street_length: 1,
                },
                PStreet {
                    intersection_start: 0,
                    intersection_end: 1,
                    street_name: b"rue-d-amsterdam".to_vec(),
                    street_length: 1,
                },
                PStreet {
                    intersection_start: 3,
                    intersection_end: 1,
                    street_name: b"rue-d-athenes".to_vec(),
                    street_length: 1,
                },
                PStreet {
                    intersection_start: 2,
                    intersection_end: 3,
                    street_name: b"rue-de-rome".to_vec(),
                    street_length: 2,
                },
                PStreet {
                    intersection_start: 1,
                    intersection_end: 2,
                    street_name: b"rue-de-moscou".to_vec(),
                    street_length: 3,
                },
            ],
            car_paths: vec![
                PCarPath {
                    streets: 4,
                    street_names: vec![
                        b"rue-de-londres".to_vec(),
                        b"rue-d-amsterdam".to_vec(),
                        b"rue-de-moscou".to_vec(),
                        b"rue-de-rome".to_vec(),
                    ],
                },
                PCarPath {
                    streets: 3,
                    street_names: vec![
                        b"rue-d-athenes".to_vec(),
                        b"rue-de-moscou".to_vec(),
                        b"rue-de-londres".to_vec(),
                    ],
                },
            ],
        },
    }
}

fn example_output_data() -> POutputData {
    POutputData {
        schedules: 3,
        intersection_schedules: vec![
            PIntersectionSchedule {
                intersection_id: 1,
                incoming_streets: 2,
                light_schedules: vec![
                    (b"rue-d-athenes".to_vec(), 2),
                    (b"rue-d-amsterdam".to_vec(), 1),
                ],
            },
            PIntersectionSchedule {
                intersection_id: 0,
                incoming_streets: 1,
                light_schedules: vec![(b"rue-de-londres".to_vec(), 2)],
            },
            PIntersectionSchedule {
                intersection_id: 2,
                incoming_streets: 1,
                light_schedules: vec![(b"rue-de-moscou".to_vec(), 1)],
            },
        ],
    }
}

#[test]
fn test_number() {
    let n = number(b"42");
    assert_eq!(n, Ok((&b""[..], &b"42"[..])))
}

#[test]
fn test_positive_number() {
    let n = positive_number(b"42");
    assert_eq!(n, Ok((&b""[..], 42)))
}

#[test]
fn test_single_space() {
    let s = single_space(b" ");
    assert_eq!(s, Ok((&b""[..], &b" "[..])))
}

#[test]
fn test_str_list_exact() {
    let sl = str_list_exact(b"a bc d", 3);
    assert_eq!(sl, Ok((&b""[..], vec![&b"a"[..], &b"bc"[..], &b"d"[..]])))
}

#[test]
fn test_input_header() {
    let h = input_header(b"1 2 3 4 5");
    assert_eq!(
        h,
        Ok((
            &b""[..],
            InputHeader {
                simulation_duration: 1,
                intersections: 2,
                streets: 3,
                cars: 4,
                bonus: 5
            }
        ))
    )
}

#[test]
fn test_input_header_line() {
    let h = input_header_line(b"1 2 3 4 5\n");
    assert_eq!(
        h,
        Ok((
            &b""[..],
            InputHeader {
                simulation_duration: 1,
                intersections: 2,
                streets: 3,
                cars: 4,
                bonus: 5
            }
        ))
    )
}

#[test]
fn test_street() {
    let s = street(b"1 2 hello-street 4");
    assert_eq!(
        s,
        Ok((
            &b""[..],
            PStreet {
                intersection_start: 1,
                intersection_end: 2,
                street_name: b"hello-street".to_vec(),
                street_length: 4
            }
        ))
    )
}

#[test]
fn test_street_line() {
    let s = street_line(b"1 2 hello-street 4\n");
    assert_eq!(
        s,
        Ok((
            &b""[..],
            PStreet {
                intersection_start: 1,
                intersection_end: 2,
                street_name: b"hello-street".to_vec(),
                street_length: 4
            }
        ))
    )
}

#[test]
fn test_car_path() {
    let s = car_path(b"4 s1 s2 s3 s4");
    assert_eq!(
        s,
        Ok((
            &b""[..],
            PCarPath {
                streets: 4,
                street_names: vec![
                    b"s1".to_vec(),
                    b"s2".to_vec(),
                    b"s3".to_vec(),
                    b"s4".to_vec()
                ]
            }
        ))
    )
}

#[test]
fn test_car_path_line() {
    let s = car_path_line(b"4 s1 s2 s3 s4\n");
    assert_eq!(
        s,
        Ok((
            &b""[..],
            PCarPath {
                streets: 4,
                street_names: vec![
                    b"s1".to_vec(),
                    b"s2".to_vec(),
                    b"s3".to_vec(),
                    b"s4".to_vec()
                ]
            }
        ))
    )
}

#[test]
fn test_example_input() {
    let input = b"6 4 5 2 1000\n\
                  2 0 rue-de-londres 1\n\
                  0 1 rue-d-amsterdam 1\n\
                  3 1 rue-d-athenes 1\n\
                  2 3 rue-de-rome 2\n\
                  1 2 rue-de-moscou 3\n\
                  4 rue-de-londres rue-d-amsterdam rue-de-moscou rue-de-rome\n\
                  3 rue-d-athenes rue-de-moscou rue-de-londres\n";
    let d = parse_input(input);
    let input_data = example_input_data();
    assert_eq!(d.unwrap(), input_data)
}

#[test]
fn test_light_schedule() {
    let ls = light_schedule(b"hello-street 4");
    assert_eq!(ls, Ok((&b""[..], (&b"hello-street"[..], 4))));
}

#[test]
fn test_intersection_schedule() {
    let ls = intersection_schedule(b"1\n2\nrue-d-athenes 2\nrue-d-amsterdam 1\n");
    assert_eq!(
        ls,
        Ok((
            &b""[..],
            PIntersectionSchedule {
                intersection_id: 1,
                incoming_streets: 2,
                light_schedules: vec![
                    (b"rue-d-athenes".to_vec(), 2),
                    (b"rue-d-amsterdam".to_vec(), 1)
                ]
            }
        ))
    );
}

#[test]
fn test_example_output() {
    let output = b"3\n\
                   1\n\
                   2\n\
                   rue-d-athenes 2\n\
                   rue-d-amsterdam 1\n\
                   0\n\
                   1\n\
                   rue-de-londres 2\n\
                   2\n\
                   1\n\
                   rue-de-moscou 1\n";
    let d = parse_output(output);
    let output_data = example_output_data();
    assert_eq!(d.unwrap(), output_data)
}

#[test]
fn test_number_rejects_letters() {
    assert_eq!(number(b"abc"), Err(ParseError));
    assert_eq!(number(b""), Err(ParseError));
}

#[test]
fn test_positive_number_rejects_overflow() {
    // Far beyond any machine word.
    assert_eq!(
        positive_number(b"99999999999999999999999999999999999999"),
        Err(ParseError)
    );
}

#[test]
fn test_number_stops_at_non_digit() {
    assert_eq!(number(b"12 3"), Ok((&b" 3"[..], &b"12"[..])));
}

#[test]
fn test_str_list_exact_rejects_wrong_count() {
    assert_eq!(str_list_exact(b"a bc d", 2), Err(ParseError));
    assert_eq!(str_list_exact(b"a bc d", 4), Err(ParseError));
}

#[test]
fn test_input_header_rejects_short_line() {
    assert_eq!(input_header(b"1 2 3"), Err(ParseError));
}

#[test]
fn test_parse_input_rejects_truncated_body() {
    // Header announces two streets, only one line follows.
    let input = b"6 4 2 0 1000\n2 0 rue-de-londres 1\n";
    assert_eq!(parse_input(input), Err(ParseError));
}

#[test]
fn test_parse_output_rejects_truncated_block() {
    let output = b"1\n1\n2\nrue-d-athenes 2\n";
    assert_eq!(parse_output(output), Err(ParseError));
}

#[test]
fn test_intersection_schedule_zero_lights() {
    let ls = intersection_schedule(b"5\n0\n");
    assert_eq!(
        ls,
        Ok((
            &b""[..],
            PIntersectionSchedule {
                intersection_id: 5,
                incoming_streets: 0,
                light_schedules: vec![]
            }
        ))
    );
}

#[test]
fn test_parse_output_zero_blocks() {
    let d = parse_output(b"0\n");
    assert_eq!(
        d,
        Ok(POutputData {
            schedules: 0,
            intersection_schedules: vec![]
        })
    );
}

#[test]
fn test_positive_number_leading_zeros() {
    assert_eq!(positive_number(b"007"), Ok((&b""[..], 7)));
}
