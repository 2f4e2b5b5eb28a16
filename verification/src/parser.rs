//! The wire format of the two documents, written down as a grammar of spec
//! functions over byte sequences, and the verified parsers for it.
//!
//! Every parsing function consumes a prefix of its input and hands back the
//! rest, so a parser for a composite line is the composition of the parsers
//! for its fields. The spec functions mirror that shape: each maps the
//! remaining input to the parsed value and the rest, or to `None` where the
//! input does not match the grammar.
use vstd::prelude::*;

use crate::data::{InputHeader, PCarPath, PInputBody, PInputData, PIntersectionSchedule,
    POutputData, PStreet};
use crate::score::{wf_car_path, wf_input};

verus! {

/// A document that does not match the wire format.
#[derive(Debug, Clone, PartialEq, Eq, Structural)]
pub struct ParseError;

pub open spec fn is_digit(c: u8) -> bool {
    48 <= c <= 57
}

/// Bytes allowed in a street name: anything but a space or a newline.
pub open spec fn is_name_byte(c: u8) -> bool {
    c != 32 && c != 10
}

pub open spec fn digit_pred() -> spec_fn(u8) -> bool {
    |c: u8| is_digit(c)
}

pub open spec fn name_pred() -> spec_fn(u8) -> bool {
    |c: u8| is_name_byte(c)
}

/// First position at or after `pos` whose byte fails `p`, or the end.
pub open spec fn scan_end(s: Seq<u8>, pos: int, p: spec_fn(u8) -> bool) -> int
    decreases s.len() - pos,
{
    if pos < 0 || pos >= s.len() {
        s.len() as int
    } else if p(s[pos]) {
        scan_end(s, pos + 1, p)
    } else {
        pos
    }
}

pub proof fn lemma_scan_end(s: Seq<u8>, pos: int, p: spec_fn(u8) -> bool)
    requires
        0 <= pos <= s.len(),
    ensures
        pos <= scan_end(s, pos, p) <= s.len(),
        forall|j: int| pos <= j < scan_end(s, pos, p) ==> p(s[j]),
        scan_end(s, pos, p) < s.len() ==> !p(s[scan_end(s, pos, p)]),
    decreases s.len() - pos,
{
    if pos < s.len() && p(s[pos]) {
        lemma_scan_end(s, pos + 1, p);
    }
}

pub proof fn lemma_scan_end_eq(s: Seq<u8>, pos: int, p: spec_fn(u8) -> bool, i: int)
    requires
        0 <= pos <= i <= s.len(),
        forall|j: int| pos <= j < i ==> p(s[j]),
        i < s.len() ==> !p(s[i]),
    ensures
        scan_end(s, pos, p) == i,
    decreases i - pos,
{
    if pos < i {
        lemma_scan_end_eq(s, pos + 1, p, i);
    }
}

/// End of the digit token starting the input.
pub open spec fn digit_end(s: Seq<u8>) -> int {
    scan_end(s, 0, digit_pred())
}

/// End of the name token starting the input.
pub open spec fn name_end(s: Seq<u8>) -> int {
    scan_end(s, 0, name_pred())
}

/// Base-10 value of a digit string.
pub open spec fn digits_val(s: Seq<u8>) -> int
    decreases s.len(),
{
    if s.len() == 0 {
        0
    } else {
        digits_val(s.drop_last()) * 10 + (s.last() - 48)
    }
}

pub proof fn lemma_digits_val_bounds(s: Seq<u8>, j: int, m: int)
    requires
        0 <= j <= m <= s.len(),
        forall|i: int| 0 <= i < s.len() ==> is_digit(#[trigger] s[i]),
    ensures
        0 <= digits_val(s.take(j)) <= digits_val(s.take(m)),
    decreases m,
{
    if m == 0 {
        assert(s.take(0) =~= Seq::<u8>::empty());
    } else if j == m {
        lemma_digits_val_bounds(s, j - 1, m - 1);
        assert(s.take(m).drop_last() =~= s.take(m - 1));
        assert(s.take(m).last() == s[m - 1]);
    } else {
        lemma_digits_val_bounds(s, j, m - 1);
        assert(s.take(m).drop_last() =~= s.take(m - 1));
        assert(s.take(m).last() == s[m - 1]);
    }
}

// ---------------------------------------------------------------------------
// The grammar, one spec function per form
// ---------------------------------------------------------------------------

/// A non-empty run of decimal digits: the token and the rest.
pub open spec fn spec_number(s: Seq<u8>) -> Option<(Seq<u8>, Seq<u8>)> {
    let e = digit_end(s);
    if e > 0 {
        Some((s.take(e), s.skip(e)))
    } else {
        None
    }
}

/// A digit run read as a machine-word number; a value beyond the machine
/// word does not parse.
pub open spec fn spec_positive_number(s: Seq<u8>) -> Option<(int, Seq<u8>)> {
    match spec_number(s) {
        Some((tok, rest)) => if digits_val(tok) <= usize::MAX {
            Some((digits_val(tok), rest))
        } else {
            None
        },
        None => None,
    }
}

/// Exactly one space.
pub open spec fn spec_space(s: Seq<u8>) -> Option<Seq<u8>> {
    if s.len() > 0 && s[0] == 32 {
        Some(s.skip(1))
    } else {
        None
    }
}

/// Exactly one newline.
pub open spec fn spec_newline(s: Seq<u8>) -> Option<Seq<u8>> {
    if s.len() > 0 && s[0] == 10 {
        Some(s.skip(1))
    } else {
        None
    }
}

/// A non-empty run of name bytes: the token and the rest.
pub open spec fn spec_name(s: Seq<u8>) -> Option<(Seq<u8>, Seq<u8>)> {
    let e = name_end(s);
    if e > 0 {
        Some((s.take(e), s.skip(e)))
    } else {
        None
    }
}

// ---------------------------------------------------------------------------
// Leaf parsers
// ---------------------------------------------------------------------------

/// Longest run of bytes satisfying the digit test, at least one.
pub fn number(input: &[u8]) -> (r: Result<(&[u8], &[u8]), ParseError>)
    ensures
        match r {
            Ok((rest, tok)) => spec_number(input@) == Some((tok@, rest@)),
            Err(_) => spec_number(input@) is None,
        },
{
    let mut i: usize = 0;
    while i < input.len() && input[i] >= 48 && input[i] <= 57
        invariant
            0 <= i <= input@.len(),
            forall|j: int| 0 <= j < i ==> is_digit(#[trigger] input@[j]),
        decreases input@.len() - i,
    {
        i += 1;
    }
    proof {
        lemma_scan_end_eq(input@, 0, digit_pred(), i as int);
    }
    if i == 0 {
        return Err(ParseError);
    }
    let tok = vstd::slice::slice_subrange(input, 0, i);
    let rest = vstd::slice::slice_subrange(input, i, input.len());
    Ok((rest, tok))
}

/// Longest run of name bytes (no space, no newline), at least one.
pub fn non_space_or_unix_eol(input: &[u8]) -> (r: Result<(&[u8], &[u8]), ParseError>)
    ensures
        match r {
            Ok((rest, tok)) => spec_name(input@) == Some((tok@, rest@)),
            Err(_) => spec_name(input@) is None,
        },
{
    let mut i: usize = 0;
    while i < input.len() && input[i] != 32 && input[i] != 10
        invariant
            0 <= i <= input@.len(),
            forall|j: int| 0 <= j < i ==> is_name_byte(#[trigger] input@[j]),
        decreases input@.len() - i,
    {
        i += 1;
    }
    proof {
        lemma_scan_end_eq(input@, 0, name_pred(), i as int);
    }
    if i == 0 {
        return Err(ParseError);
    }
    let tok = vstd::slice::slice_subrange(input, 0, i);
    let rest = vstd::slice::slice_subrange(input, i, input.len());
    Ok((rest, tok))
}

/// Exactly one space.
pub fn single_space(input: &[u8]) -> (r: Result<(&[u8], &[u8]), ParseError>)
    ensures
        match r {
            Ok((rest, sp)) => spec_space(input@) == Some(rest@) && sp@ == input@.take(1),
            Err(_) => spec_space(input@) is None,
        },
{
    if input.len() > 0 && input[0] == 32 {
        let sp = vstd::slice::slice_subrange(input, 0, 1);
        let rest = vstd::slice::slice_subrange(input, 1, input.len());
        Ok((rest, sp))
    } else {
        Err(ParseError)
    }
}

/// Exactly one newline, discarded.
fn newline(input: &[u8]) -> (r: Result<&[u8], ParseError>)
    ensures
        match r {
            Ok(rest) => spec_newline(input@) == Some(rest@),
            Err(_) => spec_newline(input@) is None,
        },
{
    if input.len() > 0 && input[0] == 10 {
        Ok(vstd::slice::slice_subrange(input, 1, input.len()))
    } else {
        Err(ParseError)
    }
}

/// A digit run read as a number; fails if there is no digit or the value
/// does not fit the machine word.
pub fn positive_number(input: &[u8]) -> (r: Result<(&[u8], usize), ParseError>)
    ensures
        match r {
            Ok((rest, v)) => spec_positive_number(input@) == Some((v as int, rest@)),
            Err(_) => spec_positive_number(input@) is None,
        },
{
    let (rest, tok) = match number(input) {
        Ok(p) => p,
        Err(e) => {
            return Err(e);
        },
    };
    proof {
        lemma_scan_end(input@, 0, digit_pred());
        assert(forall|i: int| 0 <= i < tok@.len() ==> is_digit(#[trigger] tok@[i]));
    }
    let mut v: usize = 0;
    let mut j: usize = 0;
    let n = tok.len();
    while j < n
        invariant
            0 <= j <= n == tok@.len(),
            spec_number(input@) == Some((tok@, rest@)),
            forall|i: int| 0 <= i < tok@.len() ==> is_digit(#[trigger] tok@[i]),
            v as int == digits_val(tok@.take(j as int)),
        decreases n - j,
    {
        let d = (tok[j] - 48) as usize;
        proof {
            assert(tok@.take(j + 1).drop_last() =~= tok@.take(j as int));
            assert(tok@.take(j + 1).last() == tok@[j as int]);
        }
        if v > (usize::MAX - d) / 10 {
            proof {
                assert(v as int * 10 + d > usize::MAX) by (nonlinear_arith)
                    requires
                        v > (usize::MAX - d) / 10,
                        0 <= d <= 9,
                ;
                assert(digits_val(tok@.take(j + 1)) == digits_val(tok@.take(j as int)) * 10 + (
                tok@[j as int] - 48));
                assert(digits_val(tok@.take(j + 1)) > usize::MAX);
                lemma_digits_val_bounds(tok@, j + 1, tok@.len() as int);
                assert(tok@.take(tok@.len() as int) =~= tok@);
                assert(digits_val(tok@) > usize::MAX);
                assert(spec_positive_number(input@) is None);
            }
            return Err(ParseError);
        }
        proof {
            assert(v as int * 10 + d <= usize::MAX) by (nonlinear_arith)
                requires
                    v <= (usize::MAX - d) / 10,
                    0 <= d <= 9,
            ;
        }
        v = v * 10 + d;
        j += 1;
    }
    proof {
        assert(tok@.take(tok@.len() as int) =~= tok@);
    }
    Ok((rest, v))
}

// ---------------------------------------------------------------------------
// Space-separated name lists
// ---------------------------------------------------------------------------

/// Greedy continuation of a name list: as long as a space followed by a name
/// comes next, both are consumed; the pair of the names read and the rest.
pub open spec fn spec_list_cont(s: Seq<u8>) -> (Seq<Seq<u8>>, Seq<u8>)
    decreases s.len(),
    via spec_list_cont_decreases
{
    match spec_space(s) {
        Some(s1) => match spec_name(s1) {
            Some((tok, rest)) => {
                let r = spec_list_cont(rest);
                (seq![tok] + r.0, r.1)
            },
            None => (Seq::empty(), s),
        },
        None => (Seq::empty(), s),
    }
}

#[via_fn]
proof fn spec_list_cont_decreases(s: Seq<u8>) {
    match spec_space(s) {
        Some(s1) => match spec_name(s1) {
            Some((tok, rest)) => {
                lemma_scan_end(s1, 0, name_pred());
            },
            None => {},
        },
        None => {},
    }
}

/// A list of exactly `expected` names separated by single spaces, read
/// greedily: more or fewer names than expected do not parse.
pub open spec fn spec_str_list(s: Seq<u8>, expected: int) -> Option<(Seq<Seq<u8>>, Seq<u8>)> {
    match spec_name(s) {
        Some((first, s1)) => {
            let r = spec_list_cont(s1);
            let items = seq![first] + r.0;
            if items.len() == expected {
                Some((items, r.1))
            } else {
                None
            }
        },
        None => None,
    }
}

pub open spec fn names_views(ns: Seq<&[u8]>) -> Seq<Seq<u8>> {
    ns.map_values(|n: &[u8]| n@)
}

pub open spec fn vecs_views(ns: Seq<Vec<u8>>) -> Seq<Seq<u8>> {
    ns.map_values(|n: Vec<u8>| n@)
}

/// A space-separated list of names whose length must equal `expected_size`.
pub fn str_list_exact<'a>(s: &'a [u8], expected_size: usize) -> (r: Result<
    (&'a [u8], Vec<&'a [u8]>),
    ParseError,
>)
    ensures
        match r {
            Ok((rest, list)) => spec_str_list(s@, expected_size as int) == Some(
                (names_views(list@), rest@),
            ),
            Err(_) => spec_str_list(s@, expected_size as int) is None,
        },
{
    let (first_rest, first) = match non_space_or_unix_eol(s) {
        Ok(p) => p,
        Err(e) => {
            return Err(e);
        },
    };
    let ghost rest0 = first_rest@;
    let mut items: Vec<&'a [u8]> = Vec::new();
    items.push(first);
    let mut rest: &'a [u8] = first_rest;
    let mut go = true;
    proof {
        assert(names_views(items@) =~= seq![first@]);
    }
    while go
        invariant
            names_views(items@) + spec_list_cont(rest@).0 =~= seq![first@] + spec_list_cont(
                rest0,
            ).0,
            spec_list_cont(rest@).1 == spec_list_cont(rest0).1,
            !go ==> spec_list_cont(rest@) == (Seq::<Seq<u8>>::empty(), rest@),
        decreases rest@.len(), (if go { 1int } else { 0int }),
    {
        if rest.len() > 0 && rest[0] == 32 {
            let after_sp = vstd::slice::slice_subrange(rest, 1, rest.len());
            match non_space_or_unix_eol(after_sp) {
                Ok((r2, tok)) => {
                    proof {
                        assert(spec_space(rest@) == Some(after_sp@));
                        assert(spec_list_cont(rest@).0 =~= seq![tok@] + spec_list_cont(r2@).0);
                        assert(names_views(items@.push(tok)) =~= names_views(items@) + seq![tok@]);
                        assert(names_views(items@.push(tok)) + spec_list_cont(r2@).0 =~= (
                        names_views(items@) + seq![tok@]) + spec_list_cont(r2@).0);
                        assert((names_views(items@) + seq![tok@]) + spec_list_cont(r2@).0 =~= names_views(
                            items@,
                        ) + (seq![tok@] + spec_list_cont(r2@).0));
                        lemma_scan_end(after_sp@, 0, name_pred());
                    }
                    items.push(tok);
                    rest = r2;
                },
                Err(_) => {
                    go = false;
                },
            }
        } else {
            go = false;
        }
    }
    proof {
        assert(names_views(items@) =~= seq![first@] + spec_list_cont(rest0).0);
    }
    if items.len() != expected_size {
        return Err(ParseError);
    }
    Ok((rest, items))
}

// ---------------------------------------------------------------------------
// The network document
// ---------------------------------------------------------------------------

/// The header line's fields: horizon, intersections, streets, cars, bonus.
pub open spec fn spec_input_header(s: Seq<u8>) -> Option<(InputHeader, Seq<u8>)> {
    match spec_positive_number(s) {
        Some((d, s1)) => match spec_space(s1) {
            Some(s2) => match spec_positive_number(s2) {
                Some((its, s3)) => match spec_space(s3) {
                    Some(s4) => match spec_positive_number(s4) {
                        Some((sts, s5)) => match spec_space(s5) {
                            Some(s6) => match spec_positive_number(s6) {
                                Some((cars, s7)) => match spec_space(s7) {
                                    Some(s8) => match spec_positive_number(s8) {
                                        Some((bonus, s9)) => Some(
                                            (
                                                InputHeader {
                                                    simulation_duration: d as usize,
                                                    intersections: its as usize,
                                                    streets: sts as usize,
                                                    cars: cars as usize,
                                                    bonus: bonus as usize,
                                                },
                                                s9,
                                            ),
                                        ),
                                        None => None,
                                    },
                                    None => None,
                                },
                                None => None,
                            },
                            None => None,
                        },
                        None => None,
                    },
                    None => None,
                },
                None => None,
            },
            None => None,
        },
        None => None,
    }
}

pub open spec fn spec_input_header_line(s: Seq<u8>) -> Option<(InputHeader, Seq<u8>)> {
    match spec_input_header(s) {
        Some((h, r)) => match spec_newline(r) {
            Some(r2) => Some((h, r2)),
            None => None,
        },
        None => None,
    }
}

/// A street line's fields: start, end, name, length.
pub open spec fn spec_street(s: Seq<u8>) -> Option<((int, int, Seq<u8>, int), Seq<u8>)> {
    match spec_positive_number(s) {
        Some((a, s1)) => match spec_space(s1) {
            Some(s2) => match spec_positive_number(s2) {
                Some((b, s3)) => match spec_space(s3) {
                    Some(s4) => match spec_name(s4) {
                        Some((nm, s5)) => match spec_space(s5) {
                            Some(s6) => match spec_positive_number(s6) {
                                Some((l, s7)) => Some(((a, b, nm, l), s7)),
                                None => None,
                            },
                            None => None,
                        },
                        None => None,
                    },
                    None => None,
                },
                None => None,
            },
            None => None,
        },
        None => None,
    }
}

pub open spec fn spec_street_line(s: Seq<u8>) -> Option<((int, int, Seq<u8>, int), Seq<u8>)> {
    match spec_street(s) {
        Some((v, r)) => match spec_newline(r) {
            Some(r2) => Some((v, r2)),
            None => None,
        },
        None => None,
    }
}

/// A car line's fields: the announced count and exactly that many names.
pub open spec fn spec_car_path(s: Seq<u8>) -> Option<((int, Seq<Seq<u8>>), Seq<u8>)> {
    match spec_positive_number(s) {
        Some((n, s1)) => match spec_space(s1) {
            Some(s2) => match spec_str_list(s2, n) {
                Some((items, s3)) => Some(((n, items), s3)),
                None => None,
            },
            None => None,
        },
        None => None,
    }
}

pub open spec fn spec_car_path_line(s: Seq<u8>) -> Option<((int, Seq<Seq<u8>>), Seq<u8>)> {
    match spec_car_path(s) {
        Some((v, r)) => match spec_newline(r) {
            Some(r2) => Some((v, r2)),
            None => None,
        },
        None => None,
    }
}

/// The five space-separated header numbers.
pub fn input_header(input: &[u8]) -> (r: Result<(&[u8], InputHeader), ParseError>)
    ensures
        match r {
            Ok((rest, h)) => spec_input_header(input@) == Some((h, rest@)),
            Err(_) => spec_input_header(input@) is None,
        },
{
    let (r1, simulation_duration) = match positive_number(input) {
        Ok(p) => p,
        Err(e) => {
            return Err(e);
        },
    };
    let r2 = match single_space(r1) {
        Ok(p) => p.0,
        Err(e) => {
            return Err(e);
        },
    };
    let (r3, intersections) = match positive_number(r2) {
        Ok(p) => p,
        Err(e) => {
            return Err(e);
        },
    };
    let r4 = match single_space(r3) {
        Ok(p) => p.0,
        Err(e) => {
            return Err(e);
        },
    };
    let (r5, streets) = match positive_number(r4) {
        Ok(p) => p,
        Err(e) => {
            return Err(e);
        },
    };
    let r6 = match single_space(r5) {
        Ok(p) => p.0,
        Err(e) => {
            return Err(e);
        },
    };
    let (r7, cars) = match positive_number(r6) {
        Ok(p) => p,
        Err(e) => {
            return Err(e);
        },
    };
    let r8 = match single_space(r7) {
        Ok(p) => p.0,
        Err(e) => {
            return Err(e);
        },
    };
    let (r9, bonus) = match positive_number(r8) {
        Ok(p) => p,
        Err(e) => {
            return Err(e);
        },
    };
    Ok((r9, InputHeader { simulation_duration, intersections, streets, cars, bonus }))
}

/// A header line: the header fields, then a newline.
pub fn input_header_line(s: &[u8]) -> (r: Result<(&[u8], InputHeader), ParseError>)
    ensures
        match r {
            Ok((rest, h)) => spec_input_header_line(s@) == Some((h, rest@)),
            Err(_) => spec_input_header_line(s@) is None,
        },
{
    let (r1, h) = match input_header(s) {
        Ok(p) => p,
        Err(e) => {
            return Err(e);
        },
    };
    let r2 = match newline(r1) {
        Ok(p) => p,
        Err(e) => {
            return Err(e);
        },
    };
    Ok((r2, h))
}

/// One street declaration: two endpoints, a name, and a length.
pub fn street(input: &[u8]) -> (r: Result<(&[u8], PStreet), ParseError>)
    ensures
        match r {
            Ok((rest, st)) => spec_street(input@) == Some(
                (
                    (
                        st.intersection_start as int,
                        st.intersection_end as int,
                        st.street_name@,
                        st.street_length as int,
                    ),
                    rest@,
                ),
            ),
            Err(_) => spec_street(input@) is None,
        },
{
    let (r1, intersection_start) = match positive_number(input) {
        Ok(p) => p,
        Err(e) => {
            return Err(e);
        },
    };
    let r2 = match single_space(r1) {
        Ok(p) => p.0,
        Err(e) => {
            return Err(e);
        },
    };
    let (r3, intersection_end) = match positive_number(r2) {
        Ok(p) => p,
        Err(e) => {
            return Err(e);
        },
    };
    let r4 = match single_space(r3) {
        Ok(p) => p.0,
        Err(e) => {
            return Err(e);
        },
    };
    let (r5, name) = match non_space_or_unix_eol(r4) {
        Ok(p) => p,
        Err(e) => {
            return Err(e);
        },
    };
    let r6 = match single_space(r5) {
        Ok(p) => p.0,
        Err(e) => {
            return Err(e);
        },
    };
    let (r7, street_length) = match positive_number(r6) {
        Ok(p) => p,
        Err(e) => {
            return Err(e);
        },
    };
    Ok(
        (
            r7,
            PStreet {
                intersection_start,
                intersection_end,
                street_name: vstd::slice::slice_to_vec(name),
                street_length,
            },
        ),
    )
}

/// A street line: a street declaration, then a newline.
pub fn street_line(s: &[u8]) -> (r: Result<(&[u8], PStreet), ParseError>)
    ensures
        match r {
            Ok((rest, st)) => spec_street_line(s@) == Some(
                (
                    (
                        st.intersection_start as int,
                        st.intersection_end as int,
                        st.street_name@,
                        st.street_length as int,
                    ),
                    rest@,
                ),
            ),
            Err(_) => spec_street_line(s@) is None,
        },
{
    let (r1, st) = match street(s) {
        Ok(p) => p,
        Err(e) => {
            return Err(e);
        },
    };
    let r2 = match newline(r1) {
        Ok(p) => p,
        Err(e) => {
            return Err(e);
        },
    };
    Ok((r2, st))
}

/// One car route: the street count, then exactly that many names.
pub fn car_path(input: &[u8]) -> (r: Result<(&[u8], PCarPath), ParseError>)
    ensures
        match r {
            Ok((rest, p)) => spec_car_path(input@) == Some(
                ((p.streets as int, vecs_views(p.street_names@)), rest@),
            ),
            Err(_) => spec_car_path(input@) is None,
        },
{
    let (r1, streets) = match positive_number(input) {
        Ok(p) => p,
        Err(e) => {
            return Err(e);
        },
    };
    let r2 = match single_space(r1) {
        Ok(p) => p.0,
        Err(e) => {
            return Err(e);
        },
    };
    let (r3, names) = match str_list_exact(r2, streets) {
        Ok(p) => p,
        Err(e) => {
            return Err(e);
        },
    };
    let mut street_names: Vec<Vec<u8>> = Vec::new();
    let mut i: usize = 0;
    while i < names.len()
        invariant
            0 <= i <= names@.len(),
            street_names@.len() == i,
            forall|j: int| 0 <= j < i ==> (#[trigger] street_names@[j])@ == names@[j]@,
        decreases names@.len() - i,
    {
        street_names.push(vstd::slice::slice_to_vec(names[i]));
        i += 1;
    }
    proof {
        assert(vecs_views(street_names@) =~= names_views(names@));
    }
    Ok((r3, PCarPath { streets, street_names }))
}

/// A car line: a route, then a newline.
pub fn car_path_line(s: &[u8]) -> (r: Result<(&[u8], PCarPath), ParseError>)
    ensures
        match r {
            Ok((rest, p)) => spec_car_path_line(s@) == Some(
                ((p.streets as int, vecs_views(p.street_names@)), rest@),
            ),
            Err(_) => spec_car_path_line(s@) is None,
        },
{
    let (r1, p) = match car_path(s) {
        Ok(p) => p,
        Err(e) => {
            return Err(e);
        },
    };
    let r2 = match newline(r1) {
        Ok(p) => p,
        Err(e) => {
            return Err(e);
        },
    };
    Ok((r2, p))
}

// ---------------------------------------------------------------------------
// Whole documents
// ---------------------------------------------------------------------------

pub open spec fn streets_views(ps: Seq<PStreet>) -> Seq<(int, int, Seq<u8>, int)> {
    ps.map_values(
        |p: PStreet|
            (
                p.intersection_start as int,
                p.intersection_end as int,
                p.street_name@,
                p.street_length as int,
            ),
    )
}

pub open spec fn paths_views(ps: Seq<PCarPath>) -> Seq<(int, Seq<Seq<u8>>)> {
    ps.map_values(|p: PCarPath| (p.streets as int, vecs_views(p.street_names@)))
}

pub open spec fn lights_views(ls: Seq<(Vec<u8>, usize)>) -> Seq<(Seq<u8>, int)> {
    ls.map_values(|l: (Vec<u8>, usize)| (l.0@, l.1 as int))
}

pub open spec fn blocks_views(bs: Seq<PIntersectionSchedule>) -> Seq<
    (int, int, Seq<(Seq<u8>, int)>),
> {
    bs.map_values(
        |b: PIntersectionSchedule|
            (b.intersection_id as int, b.incoming_streets as int, lights_views(
                b.light_schedules@,
            )),
    )
}

/// Exactly `n` street lines.
pub open spec fn spec_streets_n(s: Seq<u8>, n: int) -> Option<
    (Seq<(int, int, Seq<u8>, int)>, Seq<u8>),
>
    decreases n,
{
    if n <= 0 {
        Some((Seq::empty(), s))
    } else {
        match spec_street_line(s) {
            Some((st, s1)) => match spec_streets_n(s1, n - 1) {
                Some((v, s2)) => Some((seq![st] + v, s2)),
                None => None,
            },
            None => None,
        }
    }
}

/// Exactly `n` car lines.
pub open spec fn spec_car_paths_n(s: Seq<u8>, n: int) -> Option<
    (Seq<(int, Seq<Seq<u8>>)>, Seq<u8>),
>
    decreases n,
{
    if n <= 0 {
        Some((Seq::empty(), s))
    } else {
        match spec_car_path_line(s) {
            Some((p, s1)) => match spec_car_paths_n(s1, n - 1) {
                Some((v, s2)) => Some((seq![p] + v, s2)),
                None => None,
            },
            None => None,
        }
    }
}

/// The network document's body: the declared number of street lines, then
/// the declared number of car lines.
pub open spec fn spec_input_body(s: Seq<u8>, h: InputHeader) -> Option<
    ((Seq<(int, int, Seq<u8>, int)>, Seq<(int, Seq<Seq<u8>>)>), Seq<u8>),
> {
    match spec_streets_n(s, h.streets as int) {
        Some((sts, s1)) => match spec_car_paths_n(s1, h.cars as int) {
            Some((cps, s2)) => Some(((sts, cps), s2)),
            None => None,
        },
        None => None,
    }
}

/// A whole network document: header line, then body. Trailing bytes after
/// the body are not part of the grammar and are left unread.
pub open spec fn spec_parse_input(s: Seq<u8>) -> Option<
    ((InputHeader, Seq<(int, int, Seq<u8>, int)>, Seq<(int, Seq<Seq<u8>>)>), Seq<u8>),
> {
    match spec_input_header_line(s) {
        Some((h, s1)) => match spec_input_body(s1, h) {
            Some(((sts, cps), s2)) => Some(((h, sts, cps), s2)),
            None => None,
        },
        None => None,
    }
}

/// One light entry of a block: a street name and its green duration.
pub open spec fn spec_light_schedule(s: Seq<u8>) -> Option<((Seq<u8>, int), Seq<u8>)> {
    match spec_name(s) {
        Some((nm, s1)) => match spec_space(s1) {
            Some(s2) => match spec_positive_number(s2) {
                Some((d, s3)) => Some(((nm, d), s3)),
                None => None,
            },
            None => None,
        },
        None => None,
    }
}

/// Exactly `n` light entries, each on its own line.
pub open spec fn spec_lights_n(s: Seq<u8>, n: int) -> Option<(Seq<(Seq<u8>, int)>, Seq<u8>)>
    decreases n,
{
    if n <= 0 {
        Some((Seq::empty(), s))
    } else {
        match spec_light_schedule(s) {
            Some((l, s1)) => match spec_newline(s1) {
                Some(s2) => match spec_lights_n(s2, n - 1) {
                    Some((v, s3)) => Some((seq![l] + v, s3)),
                    None => None,
                },
                None => None,
            },
            None => None,
        }
    }
}

/// One block of the schedule document: the intersection id, the number of
/// lighted incoming streets, and that many light entries.
pub open spec fn spec_intersection_schedule(s: Seq<u8>) -> Option<
    ((int, int, Seq<(Seq<u8>, int)>), Seq<u8>),
> {
    match spec_positive_number(s) {
        Some((id, s1)) => match spec_newline(s1) {
            Some(s2) => match spec_positive_number(s2) {
                Some((n, s3)) => match spec_newline(s3) {
                    Some(s4) => match spec_lights_n(s4, n) {
                        Some((ls, s5)) => Some(((id, n, ls), s5)),
                        None => None,
                    },
                    None => None,
                },
                None => None,
            },
            None => None,
        },
        None => None,
    }
}

/// Exactly `n` blocks.
pub open spec fn spec_blocks_n(s: Seq<u8>, n: int) -> Option<
    (Seq<(int, int, Seq<(Seq<u8>, int)>)>, Seq<u8>),
>
    decreases n,
{
    if n <= 0 {
        Some((Seq::empty(), s))
    } else {
        match spec_intersection_schedule(s) {
            Some((b, s1)) => match spec_blocks_n(s1, n - 1) {
                Some((v, s2)) => Some((seq![b] + v, s2)),
                None => None,
            },
            None => None,
        }
    }
}

/// A whole schedule document: the block count on its own line, then that
/// many blocks. Trailing bytes are left unread.
pub open spec fn spec_parse_output(s: Seq<u8>) -> Option<
    ((int, Seq<(int, int, Seq<(Seq<u8>, int)>)>), Seq<u8>),
> {
    match spec_positive_number(s) {
        Some((n, s1)) => match spec_newline(s1) {
            Some(s2) => match spec_blocks_n(s2, n) {
                Some((bs, s3)) => Some(((n, bs), s3)),
                None => None,
            },
            None => None,
        },
        None => None,
    }
}

/// The network document's body: exactly the announced numbers of street
/// lines and car lines.
pub fn parse_input_body<'a>(s: &'a [u8], header: &InputHeader) -> (r: Result<
    (&'a [u8], PInputBody),
    ParseError,
>)
    ensures
        match r {
            Ok((rest, b)) => spec_input_body(s@, *header) == Some(
                ((streets_views(b.streets@), paths_views(b.car_paths@)), rest@),
            ),
            Err(_) => spec_input_body(s@, *header) is None,
        },
{
    let n_streets = header.streets;
    let mut streets: Vec<PStreet> = Vec::new();
    let mut rest: &[u8] = s;
    let mut k: usize = 0;
    while k < n_streets
        invariant
            0 <= k <= n_streets,
            n_streets == header.streets,
            streets@.len() == k,
            match spec_streets_n(rest@, n_streets - k) {
                Some((v, r)) => spec_streets_n(s@, n_streets as int) == Some(
                    (streets_views(streets@) + v, r),
                ),
                None => spec_streets_n(s@, n_streets as int) is None,
            },
        decreases n_streets - k,
    {
        match street_line(rest) {
            Ok((r1, st)) => {
                proof {
                    let stv = (
                        st.intersection_start as int,
                        st.intersection_end as int,
                        st.street_name@,
                        st.street_length as int,
                    );
                    assert(streets_views(streets@.push(st)) =~= streets_views(streets@) + seq![
                        stv,
                    ]);
                    if spec_streets_n(r1@, n_streets - k - 1) is Some {
                        let (v, r) = spec_streets_n(r1@, n_streets - k - 1)->Some_0;
                        assert(streets_views(streets@.push(st)) + v =~= streets_views(streets@)
                            + (seq![stv] + v));
                    }
                }
                streets.push(st);
                rest = r1;
            },
            Err(e) => {
                return Err(e);
            },
        }
        k += 1;
    }
    let n_cars = header.cars;
    let ghost s_cars = rest@;
    let mut car_paths: Vec<PCarPath> = Vec::new();
    let mut j: usize = 0;
    while j < n_cars
        invariant
            0 <= j <= n_cars,
            n_cars == header.cars,
            car_paths@.len() == j,
            spec_streets_n(s@, header.streets as int) == Some((streets_views(streets@), s_cars)),
            match spec_car_paths_n(rest@, n_cars - j) {
                Some((v, r)) => spec_car_paths_n(s_cars, n_cars as int) == Some(
                    (paths_views(car_paths@) + v, r),
                ),
                None => spec_car_paths_n(s_cars, n_cars as int) is None,
            },
        decreases n_cars - j,
    {
        match car_path_line(rest) {
            Ok((r1, p)) => {
                proof {
                    let pv = (p.streets as int, vecs_views(p.street_names@));
                    assert(paths_views(car_paths@.push(p)) =~= paths_views(car_paths@) + seq![pv]);
                    if spec_car_paths_n(r1@, n_cars - j - 1) is Some {
                        let (v, r) = spec_car_paths_n(r1@, n_cars - j - 1)->Some_0;
                        assert(paths_views(car_paths@.push(p)) + v =~= paths_views(car_paths@) + (
                        seq![pv] + v));
                    }
                }
                car_paths.push(p);
                rest = r1;
            },
            Err(e) => {
                return Err(e);
            },
        }
        j += 1;
    }
    Ok((rest, PInputBody { streets, car_paths }))
}

fn parse_input_inner(s: &[u8]) -> (r: Result<(&[u8], PInputData), ParseError>)
    ensures
        match r {
            Ok((rest, d)) => spec_parse_input(s@) == Some(
                (
                    (d.header, streets_views(d.body.streets@), paths_views(d.body.car_paths@)),
                    rest@,
                ),
            ),
            Err(_) => spec_parse_input(s@) is None,
        },
{
    let (r1, header) = match input_header_line(s) {
        Ok(p) => p,
        Err(e) => {
            return Err(e);
        },
    };
    let (r2, body) = match parse_input_body(r1, &header) {
        Ok(p) => p,
        Err(e) => {
            return Err(e);
        },
    };
    Ok((r2, PInputData { header, body }))
}

/// Parse a network document; anything after the body is ignored, as the
/// documents carry nothing else.
pub fn parse_input(s: &[u8]) -> (r: Result<PInputData, ParseError>)
    ensures
        match r {
            Ok(d) => spec_parse_input(s@) is Some && spec_parse_input(s@)->Some_0.0 == (
                d.header,
                streets_views(d.body.streets@),
                paths_views(d.body.car_paths@),
            ),
            Err(_) => spec_parse_input(s@) is None,
        },
{
    match parse_input_inner(s) {
        Ok((_rest, d)) => Ok(d),
        Err(e) => Err(e),
    }
}

/// One light entry: a street name, a space, and a duration.
pub fn light_schedule(s: &[u8]) -> (r: Result<(&[u8], (&[u8], usize)), ParseError>)
    ensures
        match r {
            Ok((rest, l)) => spec_light_schedule(s@) == Some(((l.0@, l.1 as int), rest@)),
            Err(_) => spec_light_schedule(s@) is None,
        },
{
    let (r1, nm) = match non_space_or_unix_eol(s) {
        Ok(p) => p,
        Err(e) => {
            return Err(e);
        },
    };
    let r2 = match single_space(r1) {
        Ok(p) => p.0,
        Err(e) => {
            return Err(e);
        },
    };
    let (r3, d) = match positive_number(r2) {
        Ok(p) => p,
        Err(e) => {
            return Err(e);
        },
    };
    Ok((r3, (nm, d)))
}

/// One block of the schedule document.
pub fn intersection_schedule(s: &[u8]) -> (r: Result<(&[u8], PIntersectionSchedule), ParseError>)
    ensures
        match r {
            Ok((rest, b)) => spec_intersection_schedule(s@) == Some(
                (
                    (b.intersection_id as int, b.incoming_streets as int, lights_views(
                        b.light_schedules@,
                    )),
                    rest@,
                ),
            ),
            Err(_) => spec_intersection_schedule(s@) is None,
        },
{
    let (r1, intersection_id) = match positive_number(s) {
        Ok(p) => p,
        Err(e) => {
            return Err(e);
        },
    };
    let r2 = match newline(r1) {
        Ok(p) => p,
        Err(e) => {
            return Err(e);
        },
    };
    let (r3, incoming_streets) = match positive_number(r2) {
        Ok(p) => p,
        Err(e) => {
            return Err(e);
        },
    };
    let r4 = match newline(r3) {
        Ok(p) => p,
        Err(e) => {
            return Err(e);
        },
    };
    let ghost s_lights = r4@;
    let mut light_schedules: Vec<(Vec<u8>, usize)> = Vec::new();
    let mut rest: &[u8] = r4;
    let mut k: usize = 0;
    while k < incoming_streets
        invariant
            0 <= k <= incoming_streets,
            light_schedules@.len() == k,
            match spec_lights_n(rest@, incoming_streets - k) {
                Some((v, r)) => spec_lights_n(s_lights, incoming_streets as int) == Some(
                    (lights_views(light_schedules@) + v, r),
                ),
                None => spec_lights_n(s_lights, incoming_streets as int) is None,
            },
            match spec_lights_n(s_lights, incoming_streets as int) {
                Some((v, r)) => spec_intersection_schedule(s@) == Some(
                    ((intersection_id as int, incoming_streets as int, v), r),
                ),
                None => spec_intersection_schedule(s@) is None,
            },
        decreases incoming_streets - k,
    {
        match light_schedule(rest) {
            Ok((r5, l)) => {
                match newline(r5) {
                    Ok(r6) => {
                        let owned: (Vec<u8>, usize) = (vstd::slice::slice_to_vec(l.0), l.1);
                        proof {
                            let lv = (owned.0@, owned.1 as int);
                            assert(lights_views(light_schedules@.push(owned)) =~= lights_views(
                                light_schedules@,
                            ) + seq![lv]);
                            if spec_lights_n(r6@, incoming_streets - k - 1) is Some {
                                let (v, r) = spec_lights_n(r6@, incoming_streets - k - 1)->Some_0;
                                assert(lights_views(light_schedules@.push(owned)) + v
                                    =~= lights_views(light_schedules@) + (seq![lv] + v));
                            }
                        }
                        light_schedules.push(owned);
                        rest = r6;
                    },
                    Err(e) => {
                        return Err(e);
                    },
                }
            },
            Err(e) => {
                return Err(e);
            },
        }
        k += 1;
    }
    Ok((rest, PIntersectionSchedule { intersection_id, incoming_streets, light_schedules }))
}

fn parse_output_inner(s: &[u8]) -> (r: Result<(&[u8], POutputData), ParseError>)
    ensures
        match r {
            Ok((rest, d)) => spec_parse_output(s@) == Some(
                ((d.schedules as int, blocks_views(d.intersection_schedules@)), rest@),
            ),
            Err(_) => spec_parse_output(s@) is None,
        },
{
    let (r1, schedules) = match positive_number(s) {
        Ok(p) => p,
        Err(e) => {
            return Err(e);
        },
    };
    let r2 = match newline(r1) {
        Ok(p) => p,
        Err(e) => {
            return Err(e);
        },
    };
    let ghost s_blocks = r2@;
    let mut intersection_schedules: Vec<PIntersectionSchedule> = Vec::new();
    let mut rest: &[u8] = r2;
    let mut k: usize = 0;
    while k < schedules
        invariant
            0 <= k <= schedules,
            intersection_schedules@.len() == k,
            match spec_blocks_n(rest@, schedules - k) {
                Some((v, r)) => spec_blocks_n(s_blocks, schedules as int) == Some(
                    (blocks_views(intersection_schedules@) + v, r),
                ),
                None => spec_blocks_n(s_blocks, schedules as int) is None,
            },
            match spec_blocks_n(s_blocks, schedules as int) {
                Some((v, r)) => spec_parse_output(s@) == Some(((schedules as int, v), r)),
                None => spec_parse_output(s@) is None,
            },
        decreases schedules - k,
    {
        match intersection_schedule(rest) {
            Ok((r3, b)) => {
                proof {
                    let bv = (
                        b.intersection_id as int,
                        b.incoming_streets as int,
                        lights_views(b.light_schedules@),
                    );
                    assert(blocks_views(intersection_schedules@.push(b)) =~= blocks_views(
                        intersection_schedules@,
                    ) + seq![bv]);
                    if spec_blocks_n(r3@, schedules - k - 1) is Some {
                        let (v, r) = spec_blocks_n(r3@, schedules - k - 1)->Some_0;
                        assert(blocks_views(intersection_schedules@.push(b)) + v =~= blocks_views(
                            intersection_schedules@,
                        ) + (seq![bv] + v));
                    }
                }
                intersection_schedules.push(b);
                rest = r3;
            },
            Err(e) => {
                return Err(e);
            },
        }
        k += 1;
    }
    Ok((rest, POutputData { schedules, intersection_schedules }))
}

proof fn lemma_car_paths_n_wf(s: Seq<u8>, n: int)
    ensures
        spec_car_paths_n(s, n) matches Some(r) ==> forall|i: int|
            0 <= i < r.0.len() ==> (#[trigger] r.0[i]).0 == r.0[i].1.len() && r.0[i].0 >= 1,
    decreases n,
{
    if n > 0 {
        match spec_car_path_line(s) {
            Some((p, s1)) => {
                lemma_car_paths_n_wf(s1, n - 1);
            },
            None => {},
        }
    }
}

/// A parsed network document is a valid document model for the engine:
/// every route announces exactly as many streets as it lists, at least one.
pub proof fn lemma_parse_input_wf(s: Seq<u8>, d: PInputData)
    requires
        spec_parse_input(s) is Some,
        spec_parse_input(s)->Some_0.0 == (
            d.header,
            streets_views(d.body.streets@),
            paths_views(d.body.car_paths@),
        ),
    ensures
        wf_input(d),
{
    let (h, s1) = spec_input_header_line(s)->Some_0;
    let (sts, s2) = spec_streets_n(s1, h.streets as int)->Some_0;
    lemma_car_paths_n_wf(s2, h.cars as int);
    let cps = paths_views(d.body.car_paths@);
    assert forall|k: int| 0 <= k < d.body.car_paths@.len() implies wf_car_path(
        #[trigger] d.body.car_paths@[k],
    ) by {
        let p = d.body.car_paths@[k];
        assert(cps[k] == (p.streets as int, vecs_views(p.street_names@)));
        assert(cps[k].0 == cps[k].1.len() && cps[k].0 >= 1);
    }
}

/// Parse a schedule document; trailing bytes are ignored.
pub fn parse_output(s: &[u8]) -> (r: Result<POutputData, ParseError>)
    ensures
        match r {
            Ok(d) => spec_parse_output(s@) is Some && spec_parse_output(s@)->Some_0.0 == (
                d.schedules as int,
                blocks_views(d.intersection_schedules@),
            ),
            Err(_) => spec_parse_output(s@) is None,
        },
{
    match parse_output_inner(s) {
        Ok((_rest, d)) => Ok(d),
        Err(e) => Err(e),
    }
}

} // verus!
