//! The track wire format: a fixed JSON encoding of a stored track — its
//! identity strings and its timeline — used to move tracks between the
//! editor, the backend and the player. Actions serialize as externally
//! tagged variants, durations as their millisecond counts, and strings
//! quoted with the quote and the backslash escaped (every other
//! character is carried as it stands). The encoding is canonical: the
//! serializer emits exactly one text per track, and the parser reads
//! that canonical form. Round-tripping a timeline or a whole track
//! through the wire is proved to give back the same values.

use vstd::prelude::*;
use vstd::string::StrSliceExecFns;
use vstd::string::StringExecFns;
use crate::text::ParseError;
use crate::text::all_digits;
use crate::text::digit_char_val;
use crate::text::digits_val;
use crate::text::is_digit_char;
use crate::track::Action;
use crate::track::Duration;
use crate::track::Fret;
use crate::track::HandPosition;
use crate::track::Interval;
use crate::track::Track;
use crate::track::TrackData;

verus! {

/// The character of one decimal digit.
pub open spec fn digit_char(d: int) -> char {
    if d == 0 {
        '0'
    } else if d == 1 {
        '1'
    } else if d == 2 {
        '2'
    } else if d == 3 {
        '3'
    } else if d == 4 {
        '4'
    } else if d == 5 {
        '5'
    } else if d == 6 {
        '6'
    } else if d == 7 {
        '7'
    } else if d == 8 {
        '8'
    } else {
        '9'
    }
}

/// The decimal digits of a number, most significant first.
pub open spec fn dec_digits(n: int) -> Seq<char>
    decreases n,
{
    if n < 10 {
        seq![digit_char(n)]
    } else {
        dec_digits(n / 10).push(digit_char(n % 10))
    }
}

pub proof fn lemma_digit_char_val(d: int)
    requires
        0 <= d <= 9,
    ensures
        is_digit_char(digit_char(d)),
        digit_char_val(digit_char(d)) == d,
{
}

pub proof fn lemma_dec_digits(n: int)
    requires
        n >= 0,
    ensures
        dec_digits(n).len() >= 1,
        all_digits(dec_digits(n)),
        digits_val(dec_digits(n)) == n,
    decreases n,
{
    if n < 10 {
        let s = dec_digits(n);
        lemma_digit_char_val(n);
        assert(s.len() == 1);
        assert(s.drop_last() =~= Seq::<char>::empty());
        assert(digits_val(Seq::<char>::empty()) == 0);
        assert(digits_val(s) == 0 * 10 + digit_char_val(s.last()));
    } else {
        lemma_dec_digits(n / 10);
        lemma_digit_char_val(n % 10);
        let s = dec_digits(n);
        assert(s.drop_last() =~= dec_digits(n / 10));
        assert(forall|i: int|
            0 <= i < s.len() - 1 ==> s[i] == dec_digits(n / 10)[i]);
        assert(digits_val(s) == n / 10 * 10 + n % 10);
    }
}

/// Where a run of digits starting at `pos` ends.
pub open spec fn digits_end(s: Seq<char>, pos: int) -> int
    decreases s.len() - pos,
{
    if 0 <= pos && pos < s.len() && is_digit_char(s[pos]) {
        digits_end(s, pos + 1)
    } else {
        pos
    }
}

/// A maximal digit run is delimited by its first non-digit.
pub proof fn lemma_digits_end_of_run(s: Seq<char>, pos: int, e: int)
    requires
        0 <= pos <= e <= s.len(),
        forall|i: int| pos <= i < e ==> is_digit_char(s[i]),
        e == s.len() || !is_digit_char(s[e]),
    ensures
        digits_end(s, pos) == e,
    decreases e - pos,
{
    if pos < e {
        lemma_digits_end_of_run(s, pos + 1, e);
    }
}

/// Read a number at `pos`: the maximal digit run there, when it is
/// non-empty and its value fits the bound. Yields the value and the
/// position just past the run.
pub open spec fn spec_parse_number_at(s: Seq<char>, pos: int, max: int) -> Option<(int, int)> {
    let e = digits_end(s, pos);
    if e > pos && digits_val(s.subrange(pos, e)) <= max {
        Some((digits_val(s.subrange(pos, e)), e))
    } else {
        None
    }
}

/// A serialized number parses back to itself and consumes exactly its
/// digits, whenever what follows is not a digit.
pub proof fn lemma_parse_number_at(s: Seq<char>, pos: int, n: int, max: int)
    requires
        0 <= n <= max,
        0 <= pos,
        pos + dec_digits(n).len() <= s.len(),
        s.subrange(pos, pos + dec_digits(n).len()) == dec_digits(n),
        pos + dec_digits(n).len() == s.len() || !is_digit_char(s[pos + dec_digits(n).len()]),
    ensures
        spec_parse_number_at(s, pos, max) == Some((n, pos + dec_digits(n).len())),
{
    let d = dec_digits(n);
    lemma_dec_digits(n);
    assert(forall|i: int| pos <= i < pos + d.len() ==> s[i] == d[i - pos]);
    assert(forall|i: int| pos <= i < pos + d.len() ==> is_digit_char(s[i]));
    lemma_digits_end_of_run(s, pos, pos + d.len());
    assert(s.subrange(pos, pos + d.len()) == d);
}

/// Match a fixed token at `pos`; yields the position just past it.
pub open spec fn spec_expect(s: Seq<char>, pos: int, tok: Seq<char>) -> Option<int> {
    if 0 <= pos && pos + tok.len() <= s.len() && s.subrange(pos, pos + tok.len()) == tok {
        Some(pos + tok.len())
    } else {
        None
    }
}

/// Splitting a matched subrange at an interior point matches both halves.
pub proof fn lemma_subrange_split(s: Seq<char>, pos: int, a: Seq<char>, b: Seq<char>)
    requires
        0 <= pos,
        pos + a.len() + b.len() <= s.len(),
        s.subrange(pos, pos + a.len() + b.len()) == a + b,
    ensures
        s.subrange(pos, pos + a.len()) == a,
        s.subrange(pos + a.len(), pos + a.len() + b.len()) == b,
{
    let whole = s.subrange(pos, pos + a.len() + b.len());
    assert(forall|i: int| 0 <= i < whole.len() ==> whole[i] == s[pos + i]);
    assert forall|j: int| 0 <= j < a.len() implies s.subrange(pos, pos + a.len())[j] == a[j] by {
        assert(whole[j] == s[pos + j]);
        assert(whole[j] == (a + b)[j]);
    }
    assert(s.subrange(pos, pos + a.len()) =~= a);
    assert forall|j: int|
        0 <= j < b.len() implies s.subrange(pos + a.len(), pos + a.len() + b.len())[j] == b[
        j] by {
        assert(whole[a.len() + j] == s[pos + a.len() + j]);
        assert(whole[a.len() + j] == (a + b)[a.len() + j]);
    }
    assert(s.subrange(pos + a.len(), pos + a.len() + b.len()) =~= b);
}

/// The wire text of one fret hit, fields in declaration order.
pub open spec fn json_of_fret(f: Fret) -> Seq<char> {
    "{\"fret\":"@ + (dec_digits(f.fret as int) + (",\"string\":"@ + (dec_digits(
        f.string as int,
    ) + (",\"ends_at\":"@ + (dec_digits(f.ends_at.millis as int) + (",\"starts_at\":"@ + (
    dec_digits(f.starts_at.millis as int) + "}"@)))))))
}

/// The wire text of a bend interval.
pub open spec fn json_of_interval(iv: Interval) -> Seq<char> {
    match iv {
        Interval::HalfStep => "\"HalfStep\""@,
        Interval::Step => "\"Step\""@,
        Interval::DoubleStep => "\"DoubleStep\""@,
    }
}

/// The wire text of one action, externally tagged by its variant.
pub open spec fn json_of_action(a: Action) -> Seq<char> {
    match a {
        Action::Fret(f) => "{\"Fret\":"@ + (json_of_fret(f) + "}"@),
        Action::Slide(f1, f2) => "{\"Slide\":["@ + (json_of_fret(f1) + (seq![','] + (
        json_of_fret(f2) + "]}"@))),
        Action::Bend(f, iv) => "{\"Bend\":["@ + (json_of_fret(f) + (seq![','] + (
        json_of_interval(iv) + "]}"@))),
    }
}

/// One or more actions joined by commas.
pub open spec fn json_of_actions(items: Seq<Action>) -> Seq<char>
    decreases items.len(),
{
    if items.len() == 0 {
        Seq::<char>::empty()
    } else if items.len() == 1 {
        json_of_action(items[0])
    } else {
        json_of_action(items[0]) + (seq![','] + json_of_actions(items.drop_first()))
    }
}

/// The wire text of one hand-position marker.
pub open spec fn json_of_hand(p: HandPosition) -> Seq<char> {
    "{\"fret\":"@ + (dec_digits(p.fret as int) + (",\"at\":"@ + (dec_digits(
        p.at.millis as int,
    ) + "}"@)))
}

/// One or more hand positions joined by commas.
pub open spec fn json_of_hands(items: Seq<HandPosition>) -> Seq<char>
    decreases items.len(),
{
    if items.len() == 0 {
        Seq::<char>::empty()
    } else if items.len() == 1 {
        json_of_hand(items[0])
    } else {
        json_of_hand(items[0]) + (seq![','] + json_of_hands(items.drop_first()))
    }
}

/// A bracketed, possibly empty action array.
pub open spec fn json_of_action_array(items: Seq<Action>) -> Seq<char> {
    seq!['['] + (json_of_actions(items) + seq![']'])
}

/// A bracketed, possibly empty hand-position array.
pub open spec fn json_of_hand_array(items: Seq<HandPosition>) -> Seq<char> {
    seq!['['] + (json_of_hands(items) + seq![']'])
}

/// The wire text of a whole timeline.
pub open spec fn json_of_track_data(actions: Seq<Action>, hands: Seq<HandPosition>) -> Seq<
    char,
> {
    "{\"actions\":"@ + (json_of_action_array(actions) + (",\"hand_positions\":"@ + (
    json_of_hand_array(hands) + seq!['}'])))
}

/// Read one fret object at `pos`.
pub open spec fn spec_parse_fret_at(s: Seq<char>, pos: int) -> Option<(Fret, int)> {
    match spec_expect(s, pos, "{\"fret\":"@) {
        None => None,
        Some(p1) => match spec_parse_number_at(s, p1, u8::MAX as int) {
            None => None,
            Some((fret, p2)) => match spec_expect(s, p2, ",\"string\":"@) {
                None => None,
                Some(p3) => match spec_parse_number_at(s, p3, u8::MAX as int) {
                    None => None,
                    Some((string, p4)) => match spec_expect(s, p4, ",\"ends_at\":"@) {
                        None => None,
                        Some(p5) => match spec_parse_number_at(s, p5, u64::MAX as int) {
                            None => None,
                            Some((ends, p6)) => match spec_expect(
                                s,
                                p6,
                                ",\"starts_at\":"@,
                            ) {
                                None => None,
                                Some(p7) => match spec_parse_number_at(s, p7, u64::MAX as int) {
                                    None => None,
                                    Some((starts, p8)) => match spec_expect(s, p8, "}"@) {
                                        None => None,
                                        Some(p9) => Some(
                                            (
                                                Fret {
                                                    fret: fret as u8,
                                                    string: string as u8,
                                                    ends_at: Duration { millis: ends as u64 },
                                                    starts_at: Duration { millis: starts as u64 },
                                                },
                                                p9,
                                            ),
                                        ),
                                    },
                                },
                            },
                        },
                    },
                },
            },
        },
    }
}

/// Read a bend interval at `pos`.
pub open spec fn spec_parse_interval_at(s: Seq<char>, pos: int) -> Option<(Interval, int)> {
    if spec_expect(s, pos, "\"HalfStep\""@) is Some {
        Some((Interval::HalfStep, spec_expect(s, pos, "\"HalfStep\""@)->0))
    } else if spec_expect(s, pos, "\"Step\""@) is Some {
        Some((Interval::Step, spec_expect(s, pos, "\"Step\""@)->0))
    } else if spec_expect(s, pos, "\"DoubleStep\""@) is Some {
        Some((Interval::DoubleStep, spec_expect(s, pos, "\"DoubleStep\""@)->0))
    } else {
        None
    }
}

/// Read one tagged action at `pos`.
pub open spec fn spec_parse_action_at(s: Seq<char>, pos: int) -> Option<(Action, int)> {
    if spec_expect(s, pos, "{\"Fret\":"@) is Some {
        match spec_parse_fret_at(s, spec_expect(s, pos, "{\"Fret\":"@)->0) {
            None => None,
            Some((f, p)) => match spec_expect(s, p, "}"@) {
                None => None,
                Some(q) => Some((Action::Fret(f), q)),
            },
        }
    } else if spec_expect(s, pos, "{\"Slide\":["@) is Some {
        match spec_parse_fret_at(s, spec_expect(s, pos, "{\"Slide\":["@)->0) {
            None => None,
            Some((f1, p)) => match spec_expect(s, p, seq![',']) {
                None => None,
                Some(p2) => match spec_parse_fret_at(s, p2) {
                    None => None,
                    Some((f2, p3)) => match spec_expect(s, p3, "]}"@) {
                        None => None,
                        Some(q) => Some((Action::Slide(f1, f2), q)),
                    },
                },
            },
        }
    } else if spec_expect(s, pos, "{\"Bend\":["@) is Some {
        match spec_parse_fret_at(s, spec_expect(s, pos, "{\"Bend\":["@)->0) {
            None => None,
            Some((f, p)) => match spec_expect(s, p, seq![',']) {
                None => None,
                Some(p2) => match spec_parse_interval_at(s, p2) {
                    None => None,
                    Some((iv, p3)) => match spec_expect(s, p3, "]}"@) {
                        None => None,
                        Some(q) => Some((Action::Bend(f, iv), q)),
                    },
                },
            },
        }
    } else {
        None
    }
}

/// Read one or more comma-separated actions at `pos`.
pub open spec fn spec_parse_actions_at(s: Seq<char>, pos: int) -> Option<(Seq<Action>, int)>
    decreases s.len() - pos,
{
    match spec_parse_action_at(s, pos) {
        None => None,
        Some((a, p)) => if 0 <= pos && p < s.len() && s[p] == ',' && pos < p + 1 && p + 1
            <= s.len() {
            match spec_parse_actions_at(s, p + 1) {
                None => None,
                Some((rest, q)) => Some((seq![a] + rest, q)),
            }
        } else {
            Some((seq![a], p))
        },
    }
}

/// Read a possibly empty action array at `pos`.
pub open spec fn spec_parse_action_array_at(s: Seq<char>, pos: int) -> Option<
    (Seq<Action>, int),
> {
    if 0 <= pos && pos < s.len() && s[pos] == '[' {
        if pos + 1 < s.len() && s[pos + 1] == ']' {
            Some((Seq::<Action>::empty(), pos + 2))
        } else {
            match spec_parse_actions_at(s, pos + 1) {
                None => None,
                Some((items, q)) => if q < s.len() && s[q] == ']' {
                    Some((items, q + 1))
                } else {
                    None
                },
            }
        }
    } else {
        None
    }
}

/// Read one hand-position object at `pos`.
pub open spec fn spec_parse_hand_at(s: Seq<char>, pos: int) -> Option<(HandPosition, int)> {
    match spec_expect(s, pos, "{\"fret\":"@) {
        None => None,
        Some(p1) => match spec_parse_number_at(s, p1, u8::MAX as int) {
            None => None,
            Some((fret, p2)) => match spec_expect(s, p2, ",\"at\":"@) {
                None => None,
                Some(p3) => match spec_parse_number_at(s, p3, u64::MAX as int) {
                    None => None,
                    Some((at, p4)) => match spec_expect(s, p4, "}"@) {
                        None => None,
                        Some(p5) => Some(
                            (
                                HandPosition {
                                    fret: fret as u8,
                                    at: Duration { millis: at as u64 },
                                },
                                p5,
                            ),
                        ),
                    },
                },
            },
        },
    }
}

/// Read one or more comma-separated hand positions at `pos`.
pub open spec fn spec_parse_hands_at(s: Seq<char>, pos: int) -> Option<
    (Seq<HandPosition>, int),
>
    decreases s.len() - pos,
{
    match spec_parse_hand_at(s, pos) {
        None => None,
        Some((h, p)) => if 0 <= pos && p < s.len() && s[p] == ',' && pos < p + 1 && p + 1
            <= s.len() {
            match spec_parse_hands_at(s, p + 1) {
                None => None,
                Some((rest, q)) => Some((seq![h] + rest, q)),
            }
        } else {
            Some((seq![h], p))
        },
    }
}

/// Read a possibly empty hand-position array at `pos`.
pub open spec fn spec_parse_hand_array_at(s: Seq<char>, pos: int) -> Option<
    (Seq<HandPosition>, int),
> {
    if 0 <= pos && pos < s.len() && s[pos] == '[' {
        if pos + 1 < s.len() && s[pos + 1] == ']' {
            Some((Seq::<HandPosition>::empty(), pos + 2))
        } else {
            match spec_parse_hands_at(s, pos + 1) {
                None => None,
                Some((items, q)) => if q < s.len() && s[q] == ']' {
                    Some((items, q + 1))
                } else {
                    None
                },
            }
        }
    } else {
        None
    }
}

/// Read one timeline object at `pos`.
pub open spec fn spec_parse_track_data_at(s: Seq<char>, pos: int) -> Option<
    ((Seq<Action>, Seq<HandPosition>), int),
> {
    match spec_expect(s, pos, "{\"actions\":"@) {
        None => None,
        Some(p1) => match spec_parse_action_array_at(s, p1) {
            None => None,
            Some((actions, p2)) => match spec_expect(s, p2, ",\"hand_positions\":"@) {
                None => None,
                Some(p3) => match spec_parse_hand_array_at(s, p3) {
                    None => None,
                    Some((hands, p4)) => if p4 < s.len() && s[p4] == '}' {
                        Some(((actions, hands), p4 + 1))
                    } else {
                        None
                    },
                },
            },
        },
    }
}

/// The functional specification of parsing a whole wire text: the two
/// sequences, provided the text is consumed exactly.
pub open spec fn spec_parse_track_json(s: Seq<char>) -> Option<
    (Seq<Action>, Seq<HandPosition>),
> {
    match spec_parse_track_data_at(s, 0) {
        None => None,
        Some((td, p)) => if p == s.len() {
            Some(td)
        } else {
            None
        },
    }
}

/// A serialized fret parses back to itself, consuming exactly its text.
pub proof fn lemma_parse_fret_at(s: Seq<char>, pos: int, f: Fret)
    requires
        0 <= pos,
        pos + json_of_fret(f).len() <= s.len(),
        s.subrange(pos, pos + json_of_fret(f).len()) == json_of_fret(f),
    ensures
        spec_parse_fret_at(s, pos) == Some((f, pos + json_of_fret(f).len())),
{
    reveal_strlit("{\"fret\":");
    reveal_strlit(",\"string\":");
    reveal_strlit(",\"ends_at\":");
    reveal_strlit(",\"starts_at\":");
    reveal_strlit("}");
    let t1 = "{\"fret\":"@;
    let t2 = ",\"string\":"@;
    let t3 = ",\"ends_at\":"@;
    let t4 = ",\"starts_at\":"@;
    let t5 = "}"@;
    let d1 = dec_digits(f.fret as int);
    let d2 = dec_digits(f.string as int);
    let d3 = dec_digits(f.ends_at.millis as int);
    let d4 = dec_digits(f.starts_at.millis as int);
    let r1 = d1 + (t2 + (d2 + (t3 + (d3 + (t4 + (d4 + t5))))));
    let r2 = t2 + (d2 + (t3 + (d3 + (t4 + (d4 + t5)))));
    let r3 = d2 + (t3 + (d3 + (t4 + (d4 + t5))));
    let r4 = t3 + (d3 + (t4 + (d4 + t5)));
    let r5 = d3 + (t4 + (d4 + t5));
    let r6 = t4 + (d4 + t5);
    let r7 = d4 + t5;
    lemma_subrange_split(s, pos, t1, r1);
    let p1 = pos + t1.len();
    assert(spec_expect(s, pos, t1) == Some(p1));
    lemma_subrange_split(s, p1, d1, r2);
    let p2 = p1 + d1.len();
    assert(s[p2] == r2[0]);
    assert(!is_digit_char(s[p2]));
    lemma_parse_number_at(s, p1, f.fret as int, u8::MAX as int);
    lemma_subrange_split(s, p2, t2, r3);
    let p3 = p2 + t2.len();
    assert(spec_expect(s, p2, t2) == Some(p3));
    lemma_subrange_split(s, p3, d2, r4);
    let p4 = p3 + d2.len();
    assert(s[p4] == r4[0]);
    assert(!is_digit_char(s[p4]));
    lemma_parse_number_at(s, p3, f.string as int, u8::MAX as int);
    lemma_subrange_split(s, p4, t3, r5);
    let p5 = p4 + t3.len();
    assert(spec_expect(s, p4, t3) == Some(p5));
    lemma_subrange_split(s, p5, d3, r6);
    let p6 = p5 + d3.len();
    assert(s[p6] == r6[0]);
    assert(!is_digit_char(s[p6]));
    lemma_parse_number_at(s, p5, f.ends_at.millis as int, u64::MAX as int);
    lemma_subrange_split(s, p6, t4, r7);
    let p7 = p6 + t4.len();
    assert(spec_expect(s, p6, t4) == Some(p7));
    lemma_subrange_split(s, p7, d4, t5);
    let p8 = p7 + d4.len();
    assert(s[p8] == t5[0]);
    assert(!is_digit_char(s[p8]));
    lemma_parse_number_at(s, p7, f.starts_at.millis as int, u64::MAX as int);
    let p9 = p8 + t5.len();
    assert(spec_expect(s, p8, t5) == Some(p9));
    assert(p9 == pos + json_of_fret(f).len());
}

/// A serialized hand position parses back to itself, consuming exactly
/// its text.
pub proof fn lemma_parse_hand_at(s: Seq<char>, pos: int, h: HandPosition)
    requires
        0 <= pos,
        pos + json_of_hand(h).len() <= s.len(),
        s.subrange(pos, pos + json_of_hand(h).len()) == json_of_hand(h),
    ensures
        spec_parse_hand_at(s, pos) == Some((h, pos + json_of_hand(h).len())),
{
    reveal_strlit("{\"fret\":");
    reveal_strlit(",\"at\":");
    reveal_strlit("}");
    let t1 = "{\"fret\":"@;
    let t2 = ",\"at\":"@;
    let t3 = "}"@;
    let d1 = dec_digits(h.fret as int);
    let d2 = dec_digits(h.at.millis as int);
    let r1 = d1 + (t2 + (d2 + t3));
    let r2 = t2 + (d2 + t3);
    let r3 = d2 + t3;
    lemma_subrange_split(s, pos, t1, r1);
    let p1 = pos + t1.len();
    assert(spec_expect(s, pos, t1) == Some(p1));
    lemma_subrange_split(s, p1, d1, r2);
    let p2 = p1 + d1.len();
    assert(s[p2] == r2[0]);
    assert(!is_digit_char(s[p2]));
    lemma_parse_number_at(s, p1, h.fret as int, u8::MAX as int);
    lemma_subrange_split(s, p2, t2, r3);
    let p3 = p2 + t2.len();
    assert(spec_expect(s, p2, t2) == Some(p3));
    lemma_subrange_split(s, p3, d2, t3);
    let p4 = p3 + d2.len();
    assert(s[p4] == t3[0]);
    assert(!is_digit_char(s[p4]));
    lemma_parse_number_at(s, p3, h.at.millis as int, u64::MAX as int);
    let p5 = p4 + t3.len();
    assert(spec_expect(s, p4, t3) == Some(p5));
    assert(p5 == pos + json_of_hand(h).len());
}

/// A serialized interval parses back to itself; the three tag texts are
/// told apart by their second character.
pub proof fn lemma_parse_interval_at(s: Seq<char>, pos: int, iv: Interval)
    requires
        0 <= pos,
        pos + json_of_interval(iv).len() <= s.len(),
        s.subrange(pos, pos + json_of_interval(iv).len()) == json_of_interval(iv),
    ensures
        spec_parse_interval_at(s, pos) == Some((iv, pos + json_of_interval(iv).len())),
{
    reveal_strlit("\"HalfStep\"");
    reveal_strlit("\"Step\"");
    reveal_strlit("\"DoubleStep\"");
    let half = "\"HalfStep\""@;
    let step = "\"Step\""@;
    let dbl = "\"DoubleStep\""@;
    match iv {
        Interval::HalfStep => {
            assert(spec_expect(s, pos, half) == Some(pos + half.len()));
        },
        Interval::Step => {
            assert(s[pos + 1] == step[1]);
            assert(spec_expect(s, pos, half) is None) by {
                if pos + half.len() <= s.len() && s.subrange(pos, pos + half.len()) == half {
                    assert(s.subrange(pos, pos + half.len())[1] == s[pos + 1]);
                }
            }
            assert(spec_expect(s, pos, step) == Some(pos + step.len()));
        },
        Interval::DoubleStep => {
            assert(s[pos + 1] == dbl[1]);
            assert(spec_expect(s, pos, half) is None) by {
                if pos + half.len() <= s.len() && s.subrange(pos, pos + half.len()) == half {
                    assert(s.subrange(pos, pos + half.len())[1] == s[pos + 1]);
                }
            }
            assert(spec_expect(s, pos, step) is None) by {
                if pos + step.len() <= s.len() && s.subrange(pos, pos + step.len()) == step {
                    assert(s.subrange(pos, pos + step.len())[1] == s[pos + 1]);
                }
            }
            assert(spec_expect(s, pos, dbl) == Some(pos + dbl.len()));
        },
    }
}

/// A serialized action parses back to itself; the three variant tags are
/// told apart by their third character.
#[verifier::rlimit(60)]
pub proof fn lemma_parse_action_at(s: Seq<char>, pos: int, a: Action)
    requires
        0 <= pos,
        pos + json_of_action(a).len() <= s.len(),
        s.subrange(pos, pos + json_of_action(a).len()) == json_of_action(a),
    ensures
        spec_parse_action_at(s, pos) == Some((a, pos + json_of_action(a).len())),
{
    reveal_strlit("{\"Fret\":");
    reveal_strlit("{\"Slide\":[");
    reveal_strlit("{\"Bend\":[");
    reveal_strlit("}");
    reveal_strlit("]}");
    let tf = "{\"Fret\":"@;
    let ts = "{\"Slide\":["@;
    let tb = "{\"Bend\":["@;
    let close = "}"@;
    let close2 = "]}"@;
    match a {
        Action::Fret(f) => {
            let rest = json_of_fret(f) + close;
            lemma_subrange_split(s, pos, tf, rest);
            let p1 = pos + tf.len();
            assert(spec_expect(s, pos, tf) == Some(p1));
            lemma_subrange_split(s, p1, json_of_fret(f), close);
            lemma_parse_fret_at(s, p1, f);
            let p2 = p1 + json_of_fret(f).len();
            assert(spec_expect(s, p2, close) == Some(p2 + close.len()));
        },
        Action::Slide(f1, f2) => {
            assert(s.subrange(pos, pos + json_of_action(a).len())[2] == s[pos + 2]);
            assert(s[pos + 2] == ts[2]);
            assert(spec_expect(s, pos, tf) is None) by {
                if pos + tf.len() <= s.len() && s.subrange(pos, pos + tf.len()) == tf {
                    assert(s.subrange(pos, pos + tf.len())[2] == s[pos + 2]);
                }
            }
            let rest = json_of_fret(f1) + (seq![','] + (json_of_fret(f2) + close2));
            lemma_subrange_split(s, pos, ts, rest);
            let p1 = pos + ts.len();
            assert(spec_expect(s, pos, ts) == Some(p1));
            lemma_subrange_split(s, p1, json_of_fret(f1), seq![','] + (json_of_fret(f2)
                + close2));
            lemma_parse_fret_at(s, p1, f1);
            let p2 = p1 + json_of_fret(f1).len();
            lemma_subrange_split(s, p2, seq![','], json_of_fret(f2) + close2);
            let p3 = p2 + 1;
            assert(spec_expect(s, p2, seq![',']) == Some(p3));
            lemma_subrange_split(s, p3, json_of_fret(f2), close2);
            lemma_parse_fret_at(s, p3, f2);
            let p4 = p3 + json_of_fret(f2).len();
            assert(spec_expect(s, p4, close2) == Some(p4 + close2.len()));
        },
        Action::Bend(f, iv) => {
            assert(s.subrange(pos, pos + json_of_action(a).len())[2] == s[pos + 2]);
            assert(s[pos + 2] == tb[2]);
            assert(spec_expect(s, pos, tf) is None) by {
                if pos + tf.len() <= s.len() && s.subrange(pos, pos + tf.len()) == tf {
                    assert(s.subrange(pos, pos + tf.len())[2] == s[pos + 2]);
                }
            }
            assert(spec_expect(s, pos, ts) is None) by {
                if pos + ts.len() <= s.len() && s.subrange(pos, pos + ts.len()) == ts {
                    assert(s.subrange(pos, pos + ts.len())[2] == s[pos + 2]);
                }
            }
            let rest = json_of_fret(f) + (seq![','] + (json_of_interval(iv) + close2));
            lemma_subrange_split(s, pos, tb, rest);
            let p1 = pos + tb.len();
            assert(spec_expect(s, pos, tb) == Some(p1));
            lemma_subrange_split(s, p1, json_of_fret(f), seq![','] + (json_of_interval(iv)
                + close2));
            lemma_parse_fret_at(s, p1, f);
            let p2 = p1 + json_of_fret(f).len();
            lemma_subrange_split(s, p2, seq![','], json_of_interval(iv) + close2);
            let p3 = p2 + 1;
            assert(spec_expect(s, p2, seq![',']) == Some(p3));
            lemma_subrange_split(s, p3, json_of_interval(iv), close2);
            lemma_parse_interval_at(s, p3, iv);
            let p4 = p3 + json_of_interval(iv).len();
            assert(spec_expect(s, p4, close2) == Some(p4 + close2.len()));
        },
    }
}

/// Every serialized action and hand position opens with a brace, so a
/// non-empty array is never mistaken for an empty one.
pub proof fn lemma_json_first_char(a: Action, h: HandPosition)
    ensures
        json_of_action(a).len() > 2,
        json_of_action(a)[0] == '{',
        json_of_hand(h).len() > 2,
        json_of_hand(h)[0] == '{',
{
    reveal_strlit("{\"Fret\":");
    reveal_strlit("{\"Slide\":[");
    reveal_strlit("{\"Bend\":[");
    reveal_strlit("{\"fret\":");
    match a {
        Action::Fret(f) => {},
        Action::Slide(f1, f2) => {},
        Action::Bend(f, iv) => {},
    }
}

/// A serialized comma-joined run of actions parses back to itself when
/// the character after it is not another comma.
#[verifier::rlimit(100)]
pub proof fn lemma_parse_actions_at(s: Seq<char>, pos: int, items: Seq<Action>)
    requires
        items.len() >= 1,
        0 <= pos,
        pos + json_of_actions(items).len() <= s.len(),
        s.subrange(pos, pos + json_of_actions(items).len()) == json_of_actions(items),
        pos + json_of_actions(items).len() == s.len() || s[pos + json_of_actions(items).len()]
            != ',',
    ensures
        spec_parse_actions_at(s, pos) == Some((items, pos + json_of_actions(items).len())),
    decreases items.len(),
{
    if items.len() == 1 {
        lemma_parse_action_at(s, pos, items[0]);
        assert(seq![items[0]] =~= items);
    } else {
        let head = json_of_action(items[0]);
        let tail = json_of_actions(items.drop_first());
        lemma_json_first_char(items[0], HandPosition { fret: 0, at: Duration { millis: 0 } });
        lemma_json_first_char(
            items.drop_first()[0],
            HandPosition { fret: 0, at: Duration { millis: 0 } },
        );
        lemma_subrange_split(s, pos, head, seq![','] + tail);
        lemma_parse_action_at(s, pos, items[0]);
        let p = pos + head.len();
        lemma_subrange_split(s, p, seq![','], tail);
        assert(s.subrange(p, p + 1)[0] == s[p]);
        assert(s[p] == ',');
        if items.drop_first().len() == 1 {
            assert(tail == json_of_action(items.drop_first()[0]));
        }
        assert(tail.len() > 0);
        lemma_parse_actions_at(s, p + 1, items.drop_first());
        assert(seq![items[0]] + items.drop_first() =~= items);
    }
}

/// A serialized comma-joined run of hand positions parses back to itself
/// when the character after it is not another comma.
pub proof fn lemma_parse_hands_at(s: Seq<char>, pos: int, items: Seq<HandPosition>)
    requires
        items.len() >= 1,
        0 <= pos,
        pos + json_of_hands(items).len() <= s.len(),
        s.subrange(pos, pos + json_of_hands(items).len()) == json_of_hands(items),
        pos + json_of_hands(items).len() == s.len() || s[pos + json_of_hands(items).len()]
            != ',',
    ensures
        spec_parse_hands_at(s, pos) == Some((items, pos + json_of_hands(items).len())),
    decreases items.len(),
{
    let ghost some_action = Action::Fret(
        Fret {
            fret: 0,
            string: 0,
            ends_at: Duration { millis: 1 },
            starts_at: Duration { millis: 0 },
        },
    );
    if items.len() == 1 {
        lemma_parse_hand_at(s, pos, items[0]);
        assert(seq![items[0]] =~= items);
    } else {
        let head = json_of_hand(items[0]);
        let tail = json_of_hands(items.drop_first());
        lemma_json_first_char(some_action, items[0]);
        lemma_json_first_char(some_action, items.drop_first()[0]);
        lemma_subrange_split(s, pos, head, seq![','] + tail);
        lemma_parse_hand_at(s, pos, items[0]);
        let p = pos + head.len();
        lemma_subrange_split(s, p, seq![','], tail);
        assert(s.subrange(p, p + 1)[0] == s[p]);
        assert(s[p] == ',');
        if items.drop_first().len() == 1 {
            assert(tail == json_of_hand(items.drop_first()[0]));
        }
        assert(tail.len() > 0);
        lemma_parse_hands_at(s, p + 1, items.drop_first());
        assert(seq![items[0]] + items.drop_first() =~= items);
    }
}

/// A serialized action array parses back to itself.
pub proof fn lemma_parse_action_array_at(s: Seq<char>, pos: int, items: Seq<Action>)
    requires
        0 <= pos,
        pos + json_of_action_array(items).len() <= s.len(),
        s.subrange(pos, pos + json_of_action_array(items).len()) == json_of_action_array(items),
    ensures
        spec_parse_action_array_at(s, pos) == Some(
            (items, pos + json_of_action_array(items).len()),
        ),
{
    let inner = json_of_actions(items);
    lemma_subrange_split(s, pos, seq!['['], inner + seq![']']);
    assert(s.subrange(pos, pos + 1)[0] == s[pos]);
    assert(s[pos] == '[');
    lemma_subrange_split(s, pos + 1, inner, seq![']']);
    assert(s.subrange(pos + 1 + inner.len(), pos + 1 + inner.len() + 1)[0] == s[pos + 1
        + inner.len()]);
    assert(s[pos + 1 + inner.len()] == ']');
    if items.len() == 0 {
        assert(inner.len() == 0);
        assert(s[pos + 1] == ']');
    } else {
        lemma_json_first_char(items[0], HandPosition { fret: 0, at: Duration { millis: 0 } });
        assert(s.subrange(pos + 1, pos + 1 + inner.len())[0] == s[pos + 1]);
        if items.len() == 1 {
            assert(inner == json_of_action(items[0]));
        }
        assert(s[pos + 1] == '{');
        lemma_parse_actions_at(s, pos + 1, items);
    }
}

/// A serialized hand-position array parses back to itself.
pub proof fn lemma_parse_hand_array_at(s: Seq<char>, pos: int, items: Seq<HandPosition>)
    requires
        0 <= pos,
        pos + json_of_hand_array(items).len() <= s.len(),
        s.subrange(pos, pos + json_of_hand_array(items).len()) == json_of_hand_array(items),
    ensures
        spec_parse_hand_array_at(s, pos) == Some(
            (items, pos + json_of_hand_array(items).len()),
        ),
{
    let ghost some_action = Action::Fret(
        Fret {
            fret: 0,
            string: 0,
            ends_at: Duration { millis: 1 },
            starts_at: Duration { millis: 0 },
        },
    );
    let inner = json_of_hands(items);
    lemma_subrange_split(s, pos, seq!['['], inner + seq![']']);
    assert(s.subrange(pos, pos + 1)[0] == s[pos]);
    assert(s[pos] == '[');
    lemma_subrange_split(s, pos + 1, inner, seq![']']);
    assert(s.subrange(pos + 1 + inner.len(), pos + 1 + inner.len() + 1)[0] == s[pos + 1
        + inner.len()]);
    assert(s[pos + 1 + inner.len()] == ']');
    if items.len() == 0 {
        assert(inner.len() == 0);
        assert(s[pos + 1] == ']');
    } else {
        lemma_json_first_char(some_action, items[0]);
        assert(s.subrange(pos + 1, pos + 1 + inner.len())[0] == s[pos + 1]);
        if items.len() == 1 {
            assert(inner == json_of_hand(items[0]));
        }
        assert(s[pos + 1] == '{');
        lemma_parse_hands_at(s, pos + 1, items);
    }
}

/// A serialized timeline object parses back to itself, consuming exactly
/// its text.
#[verifier::rlimit(100)]
#[verifier::spinoff_prover]
pub proof fn lemma_parse_track_data_at(
    s: Seq<char>,
    pos: int,
    actions: Seq<Action>,
    hands: Seq<HandPosition>,
)
    requires
        0 <= pos,
        pos + json_of_track_data(actions, hands).len() <= s.len(),
        s.subrange(pos, pos + json_of_track_data(actions, hands).len()) == json_of_track_data(
            actions,
            hands,
        ),
    ensures
        spec_parse_track_data_at(s, pos) == Some(
            ((actions, hands), pos + json_of_track_data(actions, hands).len()),
        ),
{
    reveal_strlit("{\"actions\":");
    reveal_strlit(",\"hand_positions\":");
    let t1 = "{\"actions\":"@;
    let t2 = ",\"hand_positions\":"@;
    let aa = json_of_action_array(actions);
    let ha = json_of_hand_array(hands);
    let r1 = aa + (t2 + (ha + seq!['}']));
    let r2 = t2 + (ha + seq!['}']);
    let r3 = ha + seq!['}'];
    let p1 = pos + t1.len();
    let p2 = p1 + aa.len();
    let p3 = p2 + t2.len();
    let p4 = p3 + ha.len();
    lemma_subrange_split(s, pos, t1, r1);
    assert(spec_expect(s, pos, t1) == Some(p1));
    lemma_subrange_split(s, p1, aa, r2);
    assert(spec_parse_action_array_at(s, p1) == Some((actions, p2))) by {
        lemma_parse_action_array_at(s, p1, actions);
    }
    lemma_subrange_split(s, p2, t2, r3);
    assert(spec_expect(s, p2, t2) == Some(p3));
    lemma_subrange_split(s, p3, ha, seq!['}']);
    assert(spec_parse_hand_array_at(s, p3) == Some((hands, p4))) by {
        lemma_parse_hand_array_at(s, p3, hands);
    }
    assert(s[p4] == '}') by {
        assert(s.subrange(p4, p4 + 1)[0] == s[p4]);
    }
    assert(spec_parse_track_data_at(s, pos) == Some(((actions, hands), p4 + 1)));
}

/// Round trip: parsing the wire text of any timeline gives back exactly
/// its action and hand-position sequences.
pub proof fn lemma_wire_round_trip(actions: Seq<Action>, hands: Seq<HandPosition>)
    ensures
        spec_parse_track_json(json_of_track_data(actions, hands)) == Some((actions, hands)),
{
    let s = json_of_track_data(actions, hands);
    assert(s.subrange(0, s.len() as int) =~= s);
    lemma_parse_track_data_at(s, 0, actions, hands);
}

/// The decimal text of one digit.
fn digit_str(d: u64) -> (r: &'static str)
    requires
        d < 10,
    ensures
        r@ == seq![digit_char(d as int)],
{
    match d {
        0 => {
            proof {
                reveal_strlit("0");
            }
            "0"
        },
        1 => {
            proof {
                reveal_strlit("1");
            }
            "1"
        },
        2 => {
            proof {
                reveal_strlit("2");
            }
            "2"
        },
        3 => {
            proof {
                reveal_strlit("3");
            }
            "3"
        },
        4 => {
            proof {
                reveal_strlit("4");
            }
            "4"
        },
        5 => {
            proof {
                reveal_strlit("5");
            }
            "5"
        },
        6 => {
            proof {
                reveal_strlit("6");
            }
            "6"
        },
        7 => {
            proof {
                reveal_strlit("7");
            }
            "7"
        },
        8 => {
            proof {
                reveal_strlit("8");
            }
            "8"
        },
        _ => {
            proof {
                reveal_strlit("9");
            }
            "9"
        },
    }
}

/// The decimal text of a number, exactly `dec_digits`.
pub(crate) fn u64_to_string(n: u64) -> (r: String)
    ensures
        r@ == dec_digits(n as int),
    decreases n,
{
    if n < 10 {
        String::from_str(digit_str(n))
    } else {
        let rest = u64_to_string(n / 10);
        rest.concat(digit_str(n % 10))
    }
}

/// Serialize one fret hit.
fn fret_to_json(f: &Fret) -> (r: String)
    ensures
        r@ == json_of_fret(*f),
{
    let mut out = String::from_str("{\"fret\":");
    out.append(u64_to_string(f.fret as u64).as_str());
    out.append(",\"string\":");
    out.append(u64_to_string(f.string as u64).as_str());
    out.append(",\"ends_at\":");
    out.append(u64_to_string(f.ends_at.millis).as_str());
    out.append(",\"starts_at\":");
    out.append(u64_to_string(f.starts_at.millis).as_str());
    out.append("}");
    proof {
        assert(out@ =~= json_of_fret(*f));
    }
    out
}

/// Serialize one bend interval.
fn interval_to_json(iv: &Interval) -> (r: String)
    ensures
        r@ == json_of_interval(*iv),
{
    match iv {
        Interval::HalfStep => String::from_str("\"HalfStep\""),
        Interval::Step => String::from_str("\"Step\""),
        Interval::DoubleStep => String::from_str("\"DoubleStep\""),
    }
}

/// Serialize one action with its variant tag.
fn action_to_json(a: &Action) -> (r: String)
    ensures
        r@ == json_of_action(*a),
{
    proof {
        reveal_strlit(",");
    }
    match a {
        Action::Fret(f) => {
            let mut out = String::from_str("{\"Fret\":");
            out.append(fret_to_json(f).as_str());
            out.append("}");
            proof {
                assert(out@ =~= json_of_action(*a));
            }
            out
        },
        Action::Slide(f1, f2) => {
            let mut out = String::from_str("{\"Slide\":[");
            out.append(fret_to_json(f1).as_str());
            out.append(",");
            out.append(fret_to_json(f2).as_str());
            out.append("]}");
            proof {
                assert(","@ =~= seq![',']);
                assert(out@ =~= json_of_action(*a));
            }
            out
        },
        Action::Bend(f, iv) => {
            let mut out = String::from_str("{\"Bend\":[");
            out.append(fret_to_json(f).as_str());
            out.append(",");
            out.append(interval_to_json(iv).as_str());
            out.append("]}");
            proof {
                assert(","@ =~= seq![',']);
                assert(out@ =~= json_of_action(*a));
            }
            out
        },
    }
}

/// Serialize the actions from index `i` on, joined by commas.
fn actions_to_json(v: &Vec<Action>, i: usize) -> (r: String)
    requires
        i <= v@.len(),
    ensures
        r@ == json_of_actions(v@.skip(i as int)),
    decreases v@.len() - i,
{
    proof {
        reveal_strlit(",");
    }
    if i == v.len() {
        proof {
            assert(v@.skip(i as int) =~= Seq::<Action>::empty());
        }
        String::new()
    } else if i + 1 == v.len() {
        proof {
            assert(v@.skip(i as int).len() == 1);
            assert(v@.skip(i as int)[0] == v@[i as int]);
        }
        action_to_json(&v[i])
    } else {
        let mut out = action_to_json(&v[i]);
        out.append(",");
        out.append(actions_to_json(v, i + 1).as_str());
        proof {
            assert(","@ =~= seq![',']);
            assert(v@.skip(i as int)[0] == v@[i as int]);
            assert(v@.skip(i as int).drop_first() =~= v@.skip(i + 1));
            assert(out@ =~= json_of_actions(v@.skip(i as int)));
        }
        out
    }
}

/// Serialize one hand-position marker.
fn hand_to_json(h: &HandPosition) -> (r: String)
    ensures
        r@ == json_of_hand(*h),
{
    let mut out = String::from_str("{\"fret\":");
    out.append(u64_to_string(h.fret as u64).as_str());
    out.append(",\"at\":");
    out.append(u64_to_string(h.at.millis).as_str());
    out.append("}");
    proof {
        assert(out@ =~= json_of_hand(*h));
    }
    out
}

/// Serialize the hand positions from index `i` on, joined by commas.
fn hands_to_json(v: &Vec<HandPosition>, i: usize) -> (r: String)
    requires
        i <= v@.len(),
    ensures
        r@ == json_of_hands(v@.skip(i as int)),
    decreases v@.len() - i,
{
    proof {
        reveal_strlit(",");
    }
    if i == v.len() {
        proof {
            assert(v@.skip(i as int) =~= Seq::<HandPosition>::empty());
        }
        String::new()
    } else if i + 1 == v.len() {
        proof {
            assert(v@.skip(i as int).len() == 1);
            assert(v@.skip(i as int)[0] == v@[i as int]);
        }
        hand_to_json(&v[i])
    } else {
        let mut out = hand_to_json(&v[i]);
        out.append(",");
        out.append(hands_to_json(v, i + 1).as_str());
        proof {
            assert(","@ =~= seq![',']);
            assert(v@.skip(i as int)[0] == v@[i as int]);
            assert(v@.skip(i as int).drop_first() =~= v@.skip(i + 1));
            assert(out@ =~= json_of_hands(v@.skip(i as int)));
        }
        out
    }
}

impl TrackData {
    /// Serialize this timeline to its wire text.
    pub fn to_json(&self) -> (r: String)
        ensures
            r@ == json_of_track_data(self.actions@, self.hand_positions@),
    {
        proof {
            reveal_strlit("[");
            reveal_strlit("]");
            reveal_strlit("}");
        }
        let mut out = String::from_str("{\"actions\":");
        out.append("[");
        out.append(actions_to_json(&self.actions, 0).as_str());
        out.append("]");
        out.append(",\"hand_positions\":");
        out.append("[");
        out.append(hands_to_json(&self.hand_positions, 0).as_str());
        out.append("]");
        out.append("}");
        proof {
            assert("["@ =~= seq!['[']);
            assert("]"@ =~= seq![']']);
            assert("}"@ =~= seq!['}']);
            assert(self.actions@.skip(0) =~= self.actions@);
            assert(self.hand_positions@.skip(0) =~= self.hand_positions@);
            assert(out@ =~= json_of_track_data(self.actions@, self.hand_positions@));
        }
        out
    }
}

/// Match a fixed token in the character buffer, exactly as `spec_expect`
/// describes.
fn expect_at(s: &Vec<char>, pos: usize, tok: &str) -> (r: Option<usize>)
    ensures
        match r {
            Some(p) => spec_expect(s@, pos as int, tok@) == Some(p as int),
            None => spec_expect(s@, pos as int, tok@) is None,
        },
{
    let tlen = tok.unicode_len();
    let n = s.len();
    if pos > n || n - pos < tlen {
        return None;
    }
    let mut i: usize = 0;
    while i < tlen
        invariant
            i <= tlen,
            tlen == tok@.len(),
            pos + tlen <= n,
            n == s@.len(),
            forall|j: int| 0 <= j < i ==> s@[pos + j] == tok@[j],
        decreases tlen - i,
    {
        if s[pos + i] != tok.get_char(i) {
            proof {
                assert(s@.subrange(pos as int, pos + tlen)[i as int] == s@[pos + i]);
            }
            return None;
        }
        i = i + 1;
    }
    proof {
        assert(s@.subrange(pos as int, pos + tlen) =~= tok@);
    }
    Some(pos + tlen)
}

/// Read a bounded number in the character buffer, exactly as
/// `spec_parse_number_at` describes.
fn parse_json_number_at(s: &Vec<char>, pos: usize, max: u64) -> (r: Option<(u64, usize)>)
    requires
        max >= 9,
    ensures
        match r {
            Some((v, p)) => spec_parse_number_at(s@, pos as int, max as int) == Some(
                (v as int, p as int),
            ),
            None => spec_parse_number_at(s@, pos as int, max as int) is None,
        },
{
    if pos > s.len() {
        proof {
            assert(digits_end(s@, pos as int) == pos);
        }
        return None;
    }
    let mut e: usize = pos;
    while e < s.len() && matches!(crate::text::char_digit_value(s[e]), Some(_))
        invariant
            pos <= e <= s@.len(),
            digits_end(s@, pos as int) == digits_end(s@, e as int),
            forall|j: int| pos <= j < e ==> is_digit_char(s@[j]),
        decreases s@.len() - e,
    {
        e = e + 1;
    }
    proof {
        assert(digits_end(s@, e as int) == e);
        assert(digits_end(s@, pos as int) == e);
    }
    if e == pos {
        return None;
    }
    let ghost run = s@.subrange(pos as int, e as int);
    proof {
        assert(all_digits(run));
    }
    let mut acc: u64 = 0;
    let mut i: usize = pos;
    while i < e
        invariant
            pos <= i <= e <= s@.len(),
            digits_end(s@, pos as int) == e,
            run == s@.subrange(pos as int, e as int),
            all_digits(run),
            forall|j: int| pos <= j < e ==> is_digit_char(s@[j]),
            acc == digits_val(run.take(i - pos)),
            acc <= max,
            9 <= max,
        decreases e - i,
    {
        let d: u64 = match crate::text::char_digit_value(s[i]) {
            Some(d) => d,
            None => {
                proof {
                    assert(run[i - pos] == s@[i as int]);
                }
                return None;
            },
        };
        proof {
            assert(run.take(i - pos + 1).drop_last() =~= run.take(i - pos));
            assert(run.take(i - pos + 1).last() == run[i - pos]);
            assert(run[i - pos] == s@[i as int]);
        }
        if acc > (max - d) / 10 {
            proof {
                assert(acc * 10 + d > max) by (nonlinear_arith)
                    requires
                        acc > (max - d) / 10,
                        d <= max,
                        (max - d) / 10 >= 0,
                        acc >= 0,
                ;
                crate::text::lemma_digits_val_prefix_le(run, i - pos + 1);
                assert(digits_val(run) > max);
            }
            return None;
        }
        acc = acc * 10 + d;
        i = i + 1;
    }
    proof {
        assert(run.take(e - pos) =~= run);
    }
    Some((acc, e))
}

/// Read one fret object, exactly as `spec_parse_fret_at` describes.
fn parse_json_fret_at(s: &Vec<char>, pos: usize) -> (r: Option<(Fret, usize)>)
    ensures
        match r {
            Some((f, p)) => spec_parse_fret_at(s@, pos as int) == Some((f, p as int)),
            None => spec_parse_fret_at(s@, pos as int) is None,
        },
{
    let p1 = match expect_at(s, pos, "{\"fret\":") {
        Some(p) => p,
        None => {
            return None;
        },
    };
    let (fret, p2) = match parse_json_number_at(s, p1, 255) {
        Some(v) => v,
        None => {
            return None;
        },
    };
    let p3 = match expect_at(s, p2, ",\"string\":") {
        Some(p) => p,
        None => {
            return None;
        },
    };
    let (string, p4) = match parse_json_number_at(s, p3, 255) {
        Some(v) => v,
        None => {
            return None;
        },
    };
    let p5 = match expect_at(s, p4, ",\"ends_at\":") {
        Some(p) => p,
        None => {
            return None;
        },
    };
    let (ends, p6) = match parse_json_number_at(s, p5, u64::MAX) {
        Some(v) => v,
        None => {
            return None;
        },
    };
    let p7 = match expect_at(s, p6, ",\"starts_at\":") {
        Some(p) => p,
        None => {
            return None;
        },
    };
    let (starts, p8) = match parse_json_number_at(s, p7, u64::MAX) {
        Some(v) => v,
        None => {
            return None;
        },
    };
    let p9 = match expect_at(s, p8, "}") {
        Some(p) => p,
        None => {
            return None;
        },
    };
    Some(
        (
            Fret {
                fret: fret as u8,
                string: string as u8,
                ends_at: Duration::from_millis(ends),
                starts_at: Duration::from_millis(starts),
            },
            p9,
        ),
    )
}

/// Read one bend interval, exactly as `spec_parse_interval_at` describes.
fn parse_json_interval_at(s: &Vec<char>, pos: usize) -> (r: Option<(Interval, usize)>)
    ensures
        match r {
            Some((iv, p)) => spec_parse_interval_at(s@, pos as int) == Some((iv, p as int)),
            None => spec_parse_interval_at(s@, pos as int) is None,
        },
{
    if let Some(p) = expect_at(s, pos, "\"HalfStep\"") {
        Some((Interval::HalfStep, p))
    } else if let Some(p) = expect_at(s, pos, "\"Step\"") {
        Some((Interval::Step, p))
    } else if let Some(p) = expect_at(s, pos, "\"DoubleStep\"") {
        Some((Interval::DoubleStep, p))
    } else {
        None
    }
}

/// Read one tagged action, exactly as `spec_parse_action_at` describes.
fn parse_json_action_at(s: &Vec<char>, pos: usize) -> (r: Option<(Action, usize)>)
    ensures
        match r {
            Some((a, p)) => spec_parse_action_at(s@, pos as int) == Some((a, p as int)),
            None => spec_parse_action_at(s@, pos as int) is None,
        },
{
    if let Some(p0) = expect_at(s, pos, "{\"Fret\":") {
        let (f, p) = match parse_json_fret_at(s, p0) {
            Some(v) => v,
            None => {
                return None;
            },
        };
        match expect_at(s, p, "}") {
            Some(q) => Some((Action::Fret(f), q)),
            None => None,
        }
    } else if let Some(p0) = expect_at(s, pos, "{\"Slide\":[") {
        let (f1, p) = match parse_json_fret_at(s, p0) {
            Some(v) => v,
            None => {
                return None;
            },
        };
        let p2 = match expect_at(s, p, ",") {
            Some(q) => q,
            None => {
                proof {
                    reveal_strlit(",");
                    assert(","@ =~= seq![',']);
                }
                return None;
            },
        };
        proof {
            reveal_strlit(",");
            assert(","@ =~= seq![',']);
        }
        let (f2, p3) = match parse_json_fret_at(s, p2) {
            Some(v) => v,
            None => {
                return None;
            },
        };
        match expect_at(s, p3, "]}") {
            Some(q) => Some((Action::Slide(f1, f2), q)),
            None => None,
        }
    } else if let Some(p0) = expect_at(s, pos, "{\"Bend\":[") {
        let (f, p) = match parse_json_fret_at(s, p0) {
            Some(v) => v,
            None => {
                return None;
            },
        };
        let p2 = match expect_at(s, p, ",") {
            Some(q) => q,
            None => {
                proof {
                    reveal_strlit(",");
                    assert(","@ =~= seq![',']);
                }
                return None;
            },
        };
        proof {
            reveal_strlit(",");
            assert(","@ =~= seq![',']);
        }
        let (iv, p3) = match parse_json_interval_at(s, p2) {
            Some(v) => v,
            None => {
                return None;
            },
        };
        match expect_at(s, p3, "]}") {
            Some(q) => Some((Action::Bend(f, iv), q)),
            None => None,
        }
    } else {
        None
    }
}

/// Read one or more comma-separated actions, exactly as
/// `spec_parse_actions_at` describes.
fn parse_json_actions_at(s: &Vec<char>, pos: usize) -> (r: Option<(Vec<Action>, usize)>)
    ensures
        match r {
            Some((items, p)) => spec_parse_actions_at(s@, pos as int) == Some(
                (items@, p as int),
            ),
            None => spec_parse_actions_at(s@, pos as int) is None,
        },
    decreases s@.len() - pos,
{
    let (a, p) = match parse_json_action_at(s, pos) {
        Some(v) => v,
        None => {
            return None;
        },
    };
    if p < s.len() && s[p] == ',' && pos < p + 1 {
        match parse_json_actions_at(s, p + 1) {
            Some((mut rest, q)) => {
                let ghost tail = rest@;
                rest.insert(0, a);
                proof {
                    assert(rest@ =~= seq![a] + tail);
                }
                Some((rest, q))
            },
            None => None,
        }
    } else {
        let mut items: Vec<Action> = Vec::new();
        items.push(a);
        proof {
            assert(items@ =~= seq![a]);
        }
        Some((items, p))
    }
}

/// Read a possibly empty action array, exactly as
/// `spec_parse_action_array_at` describes.
fn parse_json_action_array_at(s: &Vec<char>, pos: usize) -> (r: Option<(Vec<Action>, usize)>)
    ensures
        match r {
            Some((items, p)) => spec_parse_action_array_at(s@, pos as int) == Some(
                (items@, p as int),
            ),
            None => spec_parse_action_array_at(s@, pos as int) is None,
        },
{
    if pos < s.len() && s[pos] == '[' {
        if pos + 1 < s.len() && s[pos + 1] == ']' {
            let items: Vec<Action> = Vec::new();
            proof {
                assert(items@ =~= Seq::<Action>::empty());
            }
            Some((items, pos + 2))
        } else {
            match parse_json_actions_at(s, pos + 1) {
                Some((items, q)) => {
                    if q < s.len() && s[q] == ']' {
                        Some((items, q + 1))
                    } else {
                        None
                    }
                },
                None => None,
            }
        }
    } else {
        None
    }
}

/// Read one hand-position object, exactly as `spec_parse_hand_at`
/// describes.
fn parse_json_hand_at(s: &Vec<char>, pos: usize) -> (r: Option<(HandPosition, usize)>)
    ensures
        match r {
            Some((h, p)) => spec_parse_hand_at(s@, pos as int) == Some((h, p as int)),
            None => spec_parse_hand_at(s@, pos as int) is None,
        },
{
    let p1 = match expect_at(s, pos, "{\"fret\":") {
        Some(p) => p,
        None => {
            return None;
        },
    };
    let (fret, p2) = match parse_json_number_at(s, p1, 255) {
        Some(v) => v,
        None => {
            return None;
        },
    };
    let p3 = match expect_at(s, p2, ",\"at\":") {
        Some(p) => p,
        None => {
            return None;
        },
    };
    let (at, p4) = match parse_json_number_at(s, p3, u64::MAX) {
        Some(v) => v,
        None => {
            return None;
        },
    };
    let p5 = match expect_at(s, p4, "}") {
        Some(p) => p,
        None => {
            return None;
        },
    };
    Some((HandPosition { fret: fret as u8, at: Duration::from_millis(at) }, p5))
}

/// Read one or more comma-separated hand positions, exactly as
/// `spec_parse_hands_at` describes.
fn parse_json_hands_at(s: &Vec<char>, pos: usize) -> (r: Option<(Vec<HandPosition>, usize)>)
    ensures
        match r {
            Some((items, p)) => spec_parse_hands_at(s@, pos as int) == Some(
                (items@, p as int),
            ),
            None => spec_parse_hands_at(s@, pos as int) is None,
        },
    decreases s@.len() - pos,
{
    let (h, p) = match parse_json_hand_at(s, pos) {
        Some(v) => v,
        None => {
            return None;
        },
    };
    if p < s.len() && s[p] == ',' && pos < p + 1 {
        match parse_json_hands_at(s, p + 1) {
            Some((mut rest, q)) => {
                let ghost tail = rest@;
                rest.insert(0, h);
                proof {
                    assert(rest@ =~= seq![h] + tail);
                }
                Some((rest, q))
            },
            None => None,
        }
    } else {
        let mut items: Vec<HandPosition> = Vec::new();
        items.push(h);
        proof {
            assert(items@ =~= seq![h]);
        }
        Some((items, p))
    }
}

/// Read a possibly empty hand-position array, exactly as
/// `spec_parse_hand_array_at` describes.
fn parse_json_hand_array_at(s: &Vec<char>, pos: usize) -> (r: Option<
    (Vec<HandPosition>, usize),
>)
    ensures
        match r {
            Some((items, p)) => spec_parse_hand_array_at(s@, pos as int) == Some(
                (items@, p as int),
            ),
            None => spec_parse_hand_array_at(s@, pos as int) is None,
        },
{
    if pos < s.len() && s[pos] == '[' {
        if pos + 1 < s.len() && s[pos + 1] == ']' {
            let items: Vec<HandPosition> = Vec::new();
            proof {
                assert(items@ =~= Seq::<HandPosition>::empty());
            }
            Some((items, pos + 2))
        } else {
            match parse_json_hands_at(s, pos + 1) {
                Some((items, q)) => {
                    if q < s.len() && s[q] == ']' {
                        Some((items, q + 1))
                    } else {
                        None
                    }
                },
                None => None,
            }
        }
    } else {
        None
    }
}

/// Read one timeline object, exactly as `spec_parse_track_data_at`
/// describes.
fn parse_json_track_data_at(s: &Vec<char>, pos: usize) -> (r: Option<(TrackData, usize)>)
    ensures
        match r {
            Some((td, p)) => spec_parse_track_data_at(s@, pos as int) == Some(
                ((td.actions@, td.hand_positions@), p as int),
            ),
            None => spec_parse_track_data_at(s@, pos as int) is None,
        },
{
    let p1 = match expect_at(s, pos, "{\"actions\":") {
        Some(p) => p,
        None => {
            return None;
        },
    };
    let (actions, p2) = match parse_json_action_array_at(s, p1) {
        Some(v) => v,
        None => {
            return None;
        },
    };
    let p3 = match expect_at(s, p2, ",\"hand_positions\":") {
        Some(p) => p,
        None => {
            return None;
        },
    };
    let (hand_positions, p4) = match parse_json_hand_array_at(s, p3) {
        Some(v) => v,
        None => {
            return None;
        },
    };
    if p4 < s.len() && s[p4] == '}' {
        Some((TrackData { actions, hand_positions }, p4 + 1))
    } else {
        None
    }
}

impl TrackData {
    /// Parse a wire text back into a timeline: exactly the canonical
    /// texts are accepted, anything else is `InvalidFormat`.
    pub fn from_json(content: &str) -> (r: Result<TrackData, ParseError>)
        ensures
            match r {
                Ok(td) => spec_parse_track_json(content@) == Some(
                    (td.actions@, td.hand_positions@),
                ),
                Err(_) => spec_parse_track_json(content@) is None,
            },
    {
        let s = crate::text::str_to_chars(content);
        match parse_json_track_data_at(&s, 0) {
            Some((td, p)) => {
                if p == s.len() {
                    Ok(td)
                } else {
                    Err(ParseError::InvalidFormat)
                }
            },
            None => Err(ParseError::InvalidFormat),
        }
    }
}

/// The wire text of one character inside a quoted string: the quote and
/// the backslash are escaped with a backslash; every other character is
/// carried as it stands.
pub open spec fn escape_char(c: char) -> Seq<char> {
    if c == '"' || c == '\\' {
        seq!['\\', c]
    } else {
        seq![c]
    }
}

/// The wire text of a string's characters, without the enclosing quotes.
pub open spec fn json_of_string(s: Seq<char>) -> Seq<char>
    decreases s.len(),
{
    if s.len() == 0 {
        Seq::<char>::empty()
    } else {
        escape_char(s[0]) + json_of_string(s.drop_first())
    }
}

proof fn lemma_json_of_string_concat(a: Seq<char>, b: Seq<char>)
    ensures
        json_of_string(a + b) == json_of_string(a) + json_of_string(b),
    decreases a.len(),
{
    if a.len() == 0 {
        assert(a + b =~= b);
        assert(json_of_string(a) + json_of_string(b) =~= json_of_string(b));
    } else {
        assert((a + b)[0] == a[0]);
        assert((a + b).drop_first() =~= a.drop_first() + b);
        lemma_json_of_string_concat(a.drop_first(), b);
        assert(escape_char(a[0]) + (json_of_string(a.drop_first()) + json_of_string(b))
            =~= (escape_char(a[0]) + json_of_string(a.drop_first())) + json_of_string(b));
    }
}

proof fn lemma_json_of_string_raw(a: Seq<char>)
    requires
        forall|i: int| 0 <= i < a.len() ==> a[i] != '"' && a[i] != '\\',
    ensures
        json_of_string(a) == a,
    decreases a.len(),
{
    if a.len() > 0 {
        lemma_json_of_string_raw(a.drop_first());
        assert(seq![a[0]] + a.drop_first() =~= a);
    }
}

/// Serialize a string's characters, exactly as `json_of_string` describes.
fn string_to_json(s: &str) -> (r: String)
    ensures
        r@ == json_of_string(s@),
{
    proof {
        reveal_strlit("\\\"");
        reveal_strlit("\\\\");
    }
    let n = s.unicode_len();
    let mut out = String::new();
    let mut a: usize = 0;
    let mut i: usize = 0;
    while i < n
        invariant
            a <= i <= n,
            n == s@.len(),
            out@ == json_of_string(s@.take(a as int)),
            forall|k: int| a <= k < i ==> s@[k] != '"' && s@[k] != '\\',
        decreases n - i,
    {
        let c = s.get_char(i);
        if c == '"' || c == '\\' {
            out.append(s.substring_char(a, i));
            if c == '"' {
                out.append("\\\"");
                proof {
                    reveal_strlit("\\\"");
                    assert("\\\""@ =~= seq!['\\', '"']);
                }
            } else {
                out.append("\\\\");
                proof {
                    reveal_strlit("\\\\");
                    assert("\\\\"@ =~= seq!['\\', '\\']);
                }
            }
            proof {
                let run = s@.subrange(a as int, i as int);
                lemma_json_of_string_raw(run);
                lemma_json_of_string_concat(s@.take(a as int), run);
                assert(s@.take(a as int) + run =~= s@.take(i as int));
                lemma_json_of_string_concat(s@.take(i as int), seq![s@[i as int]]);
                assert(s@.take(i as int) + seq![s@[i as int]] =~= s@.take(i + 1));
                assert(seq![s@[i as int]].drop_first() =~= Seq::<char>::empty());
                assert(json_of_string(Seq::<char>::empty()) =~= Seq::<char>::empty());
                assert(json_of_string(seq![s@[i as int]]) =~= escape_char(s@[i as int]));
                assert(out@ =~= json_of_string(s@.take(i + 1)));
            }
            a = i + 1;
        }
        i = i + 1;
    }
    out.append(s.substring_char(a, n));
    proof {
        let run = s@.subrange(a as int, n as int);
        lemma_json_of_string_raw(run);
        lemma_json_of_string_concat(s@.take(a as int), run);
        assert(s@.take(a as int) + run =~= s@.take(n as int));
        assert(s@.take(n as int) =~= s@);
    }
    out
}

/// Read the characters of a quoted string at `pos`, stopping at (not
/// consuming) the closing quote.
pub open spec fn spec_parse_string_at(s: Seq<char>, pos: int) -> Option<(Seq<char>, int)>
    decreases s.len() - pos,
{
    if 0 <= pos && pos < s.len() {
        if s[pos] == '"' {
            Some((Seq::<char>::empty(), pos))
        } else if s[pos] == '\\' {
            if pos + 2 <= s.len() && (s[pos + 1] == '"' || s[pos + 1] == '\\') {
                match spec_parse_string_at(s, pos + 2) {
                    None => None,
                    Some((rest, e)) => Some((seq![s[pos + 1]] + rest, e)),
                }
            } else {
                None
            }
        } else {
            match spec_parse_string_at(s, pos + 1) {
                None => None,
                Some((rest, e)) => Some((seq![s[pos]] + rest, e)),
            }
        }
    } else {
        None
    }
}

/// A serialized string parses back to itself, stopping at the closing
/// quote that follows it.
pub proof fn lemma_parse_string_at(s: Seq<char>, pos: int, v: Seq<char>)
    requires
        0 <= pos,
        pos + json_of_string(v).len() < s.len(),
        s.subrange(pos, pos + json_of_string(v).len()) == json_of_string(v),
        s[pos + json_of_string(v).len()] == '"',
    ensures
        spec_parse_string_at(s, pos) == Some((v, pos + json_of_string(v).len())),
    decreases v.len(),
{
    if v.len() == 0 {
        assert(s[pos] == '"');
    } else {
        let e0 = escape_char(v[0]);
        let rest = json_of_string(v.drop_first());
        lemma_subrange_split(s, pos, e0, rest);
        if v[0] == '"' || v[0] == '\\' {
            assert(s.subrange(pos, pos + 2)[0] == s[pos]);
            assert(s.subrange(pos, pos + 2)[1] == s[pos + 1]);
            assert(s[pos] == '\\' && s[pos + 1] == v[0]);
            lemma_parse_string_at(s, pos + 2, v.drop_first());
            assert(seq![s[pos + 1]] + v.drop_first() =~= v);
        } else {
            assert(s.subrange(pos, pos + 1)[0] == s[pos]);
            assert(s[pos] == v[0]);
            lemma_parse_string_at(s, pos + 1, v.drop_first());
            assert(seq![s[pos]] + v.drop_first() =~= v);
        }
    }
}

/// Read a quoted string's characters, exactly as `spec_parse_string_at`
/// describes; pieces are copied out of the original slice.
fn parse_json_string_at(content: &str, s: &Vec<char>, pos: usize) -> (r: Option<
    (String, usize),
>)
    requires
        s@ == content@,
    ensures
        match r {
            Some((v, p)) => spec_parse_string_at(s@, pos as int) == Some((v@, p as int)),
            None => spec_parse_string_at(s@, pos as int) is None,
        },
    decreases s@.len() - pos,
{
    if pos >= s.len() {
        return None;
    }
    let c = s[pos];
    if c == '"' {
        Some((String::new(), pos))
    } else if c == '\\' {
        if pos + 1 < s.len() && (s[pos + 1] == '"' || s[pos + 1] == '\\') {
            match parse_json_string_at(content, s, pos + 2) {
                None => None,
                Some((rest, e)) => {
                    let piece = content.substring_char(pos + 1, pos + 2).to_owned();
                    proof {
                        assert(content@.subrange(pos + 1, pos + 2) =~= seq![s@[pos + 1]]);
                    }
                    Some((piece.concat(rest.as_str()), e))
                },
            }
        } else {
            None
        }
    } else {
        match parse_json_string_at(content, s, pos + 1) {
            None => None,
            Some((rest, e)) => {
                let piece = content.substring_char(pos, pos + 1).to_owned();
                proof {
                    assert(content@.subrange(pos as int, pos + 1) =~= seq![s@[pos as int]]);
                }
                Some((piece.concat(rest.as_str()), e))
            },
        }
    }
}

/// The wire text of a stored track: its identity strings quoted and
/// escaped, then its timeline under `data`.
pub open spec fn json_of_track(
    id: Seq<char>,
    name: Seq<char>,
    youtube_id: Seq<char>,
    actions: Seq<Action>,
    hands: Seq<HandPosition>,
) -> Seq<char> {
    "{\"id\":\""@ + (json_of_string(id) + ("\",\"name\":\""@ + (json_of_string(name) + (
    "\",\"youtube_id\":\""@ + (json_of_string(youtube_id) + ("\",\"data\":"@ + (
    json_of_track_data(actions, hands) + seq!['}'])))))))
}

/// The functional specification of parsing a stored track: its three
/// strings and its timeline, provided the text is consumed exactly.
pub open spec fn spec_parse_track(s: Seq<char>) -> Option<
    (Seq<char>, Seq<char>, Seq<char>, (Seq<Action>, Seq<HandPosition>)),
> {
    match spec_expect(s, 0, "{\"id\":\""@) {
        None => None,
        Some(p1) => match spec_parse_string_at(s, p1) {
            None => None,
            Some((id, p2)) => match spec_expect(s, p2, "\",\"name\":\""@) {
                None => None,
                Some(p3) => match spec_parse_string_at(s, p3) {
                    None => None,
                    Some((name, p4)) => match spec_expect(s, p4, "\",\"youtube_id\":\""@) {
                        None => None,
                        Some(p5) => match spec_parse_string_at(s, p5) {
                            None => None,
                            Some((youtube_id, p6)) => match spec_expect(
                                s,
                                p6,
                                "\",\"data\":"@,
                            ) {
                                None => None,
                                Some(p7) => match spec_parse_track_data_at(s, p7) {
                                    None => None,
                                    Some((td, p8)) => if p8 + 1 == s.len() && p8 < s.len()
                                        && s[p8] == '}' {
                                        Some((id, name, youtube_id, td))
                                    } else {
                                        None
                                    },
                                },
                            },
                        },
                    },
                },
            },
        },
    }
}

/// Round trip: parsing the wire text of any stored track gives back its
/// identity strings and its timeline exactly.
#[verifier::rlimit(100)]
#[verifier::spinoff_prover]
pub proof fn lemma_track_round_trip(
    id: Seq<char>,
    name: Seq<char>,
    youtube_id: Seq<char>,
    actions: Seq<Action>,
    hands: Seq<HandPosition>,
)
    ensures
        spec_parse_track(json_of_track(id, name, youtube_id, actions, hands)) == Some(
            (id, name, youtube_id, (actions, hands)),
        ),
{
    reveal_strlit("{\"id\":\"");
    reveal_strlit("\",\"name\":\"");
    reveal_strlit("\",\"youtube_id\":\"");
    reveal_strlit("\",\"data\":");
    let s = json_of_track(id, name, youtube_id, actions, hands);
    let t1 = "{\"id\":\""@;
    let t2 = "\",\"name\":\""@;
    let t3 = "\",\"youtube_id\":\""@;
    let t4 = "\",\"data\":"@;
    let e1 = json_of_string(id);
    let e2 = json_of_string(name);
    let e3 = json_of_string(youtube_id);
    let dd = json_of_track_data(actions, hands);
    let r1 = e1 + (t2 + (e2 + (t3 + (e3 + (t4 + (dd + seq!['}']))))));
    let r2 = t2 + (e2 + (t3 + (e3 + (t4 + (dd + seq!['}'])))));
    let r3 = e2 + (t3 + (e3 + (t4 + (dd + seq!['}']))));
    let r4 = t3 + (e3 + (t4 + (dd + seq!['}'])));
    let r5 = e3 + (t4 + (dd + seq!['}']));
    let r6 = t4 + (dd + seq!['}']);
    let r7 = dd + seq!['}'];
    let p1 = t1.len() as int;
    let p2 = p1 + e1.len();
    let p3 = p2 + t2.len();
    let p4 = p3 + e2.len();
    let p5 = p4 + t3.len();
    let p6 = p5 + e3.len();
    let p7 = p6 + t4.len();
    let p8 = p7 + dd.len();
    assert(s.subrange(0, s.len() as int) =~= s);
    lemma_subrange_split(s, 0, t1, r1);
    assert(spec_expect(s, 0, t1) == Some(p1));
    lemma_subrange_split(s, p1, e1, r2);
    assert(spec_parse_string_at(s, p1) == Some((id, p2))) by {
        assert(s.subrange(p2, p2 + r2.len())[0] == s[p2]);
        lemma_parse_string_at(s, p1, id);
    }
    lemma_subrange_split(s, p2, t2, r3);
    assert(spec_expect(s, p2, t2) == Some(p3));
    lemma_subrange_split(s, p3, e2, r4);
    assert(spec_parse_string_at(s, p3) == Some((name, p4))) by {
        assert(s.subrange(p4, p4 + r4.len())[0] == s[p4]);
        lemma_parse_string_at(s, p3, name);
    }
    lemma_subrange_split(s, p4, t3, r5);
    assert(spec_expect(s, p4, t3) == Some(p5));
    lemma_subrange_split(s, p5, e3, r6);
    assert(spec_parse_string_at(s, p5) == Some((youtube_id, p6))) by {
        assert(s.subrange(p6, p6 + r6.len())[0] == s[p6]);
        lemma_parse_string_at(s, p5, youtube_id);
    }
    lemma_subrange_split(s, p6, t4, r7);
    assert(spec_expect(s, p6, t4) == Some(p7));
    lemma_subrange_split(s, p7, dd, seq!['}']);
    assert(spec_parse_track_data_at(s, p7) == Some(((actions, hands), p8))) by {
        lemma_parse_track_data_at(s, p7, actions, hands);
    }
    assert(s[p8] == '}') by {
        assert(s.subrange(p8, p8 + 1)[0] == s[p8]);
    }
    assert(p8 + 1 == s.len());
    assert(spec_parse_track(s) == Some((id, name, youtube_id, (actions, hands))));
}

impl Track {
    /// Serialize this stored track to its wire text.
    pub fn to_json(&self) -> (r: String)
        ensures
            r@ == json_of_track(
                self.id@,
                self.name@,
                self.youtube_id@,
                self.data.actions@,
                self.data.hand_positions@,
            ),
    {
        proof {
            reveal_strlit("\"");
            reveal_strlit("}");
        }
        let mut out = String::from_str("{\"id\":\"");
        out.append(string_to_json(self.id.as_str()).as_str());
        out.append("\",\"name\":\"");
        out.append(string_to_json(self.name.as_str()).as_str());
        out.append("\",\"youtube_id\":\"");
        out.append(string_to_json(self.youtube_id.as_str()).as_str());
        out.append("\",\"data\":");
        out.append(self.data.to_json().as_str());
        out.append("}");
        proof {
            assert("}"@ =~= seq!['}']);
            assert(out@ =~= json_of_track(
                self.id@,
                self.name@,
                self.youtube_id@,
                self.data.actions@,
                self.data.hand_positions@,
            ));
        }
        out
    }

    /// Parse a stored track's wire text: exactly the canonical texts are
    /// accepted, anything else is `InvalidFormat`.
    pub fn from_json(content: &str) -> (r: Result<Track, ParseError>)
        ensures
            match r {
                Ok(t) => spec_parse_track(content@) == Some(
                    (t.id@, t.name@, t.youtube_id@, (t.data.actions@, t.data.hand_positions@)),
                ),
                Err(_) => spec_parse_track(content@) is None,
            },
    {
        let s = crate::text::str_to_chars(content);
        let p1 = match expect_at(&s, 0, "{\"id\":\"") {
            Some(p) => p,
            None => {
                return Err(ParseError::InvalidFormat);
            },
        };
        let (id, p2) = match parse_json_string_at(content, &s, p1) {
            Some(v) => v,
            None => {
                return Err(ParseError::InvalidFormat);
            },
        };
        let p3 = match expect_at(&s, p2, "\",\"name\":\"") {
            Some(p) => p,
            None => {
                return Err(ParseError::InvalidFormat);
            },
        };
        let (name, p4) = match parse_json_string_at(content, &s, p3) {
            Some(v) => v,
            None => {
                return Err(ParseError::InvalidFormat);
            },
        };
        let p5 = match expect_at(&s, p4, "\",\"youtube_id\":\"") {
            Some(p) => p,
            None => {
                return Err(ParseError::InvalidFormat);
            },
        };
        let (youtube_id, p6) = match parse_json_string_at(content, &s, p5) {
            Some(v) => v,
            None => {
                return Err(ParseError::InvalidFormat);
            },
        };
        let p7 = match expect_at(&s, p6, "\",\"data\":") {
            Some(p) => p,
            None => {
                return Err(ParseError::InvalidFormat);
            },
        };
        let (data, p8) = match parse_json_track_data_at(&s, p7) {
            Some(v) => v,
            None => {
                return Err(ParseError::InvalidFormat);
            },
        };
        if p8 < s.len() && p8 + 1 == s.len() && s[p8] == '}' {
            Ok(Track { id, name, youtube_id, data })
        } else {
            Err(ParseError::InvalidFormat)
        }
    }
}

} // verus!
