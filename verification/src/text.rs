//! The authoring text format: one record per line, fields separated by
//! colons. `fret:<starts_at_ms>:<ends_at_ms>:<fret>:<string>` yields a fret
//! action, `hand:<at_ms>:<fret>` a hand-position marker, any other first
//! field is skipped, and a malformed record is a fatal parse error.

use vstd::prelude::*;
use vstd::string::StrSliceExecFns;
use crate::track::Action;
use crate::track::Duration;
use crate::track::Fret;
use crate::track::HandPosition;
use crate::track::TrackData;

verus! {

/// The single way a track text can be rejected: a record whose numeric
/// field is missing or does not parse as its expected integer type.
#[derive(Clone, Copy, PartialEq, Eq, Structural, Debug)]
pub enum ParseError {
    InvalidFormat,
}

pub open spec fn is_digit_char(c: char) -> bool {
    48 <= c as int <= 57
}

pub open spec fn digit_char_val(c: char) -> int {
    c as int - 48
}

pub open spec fn all_digits(s: Seq<char>) -> bool {
    forall|i: int| 0 <= i < s.len() ==> is_digit_char(s[i])
}

/// The value of a digit string read in base ten.
pub open spec fn digits_val(s: Seq<char>) -> int
    decreases s.len(),
{
    if s.len() == 0 {
        0
    } else {
        digits_val(s.drop_last()) * 10 + digit_char_val(s.last())
    }
}

/// A numeric field parses when it is a non-empty run of digits, allowed
/// one leading plus sign, whose value fits below the given bound — the
/// same shape Rust's unsigned integer parsing accepts.
pub open spec fn spec_number_digits(s: Seq<char>) -> Seq<char> {
    if s.len() > 0 && s[0] == '+' {
        s.drop_first()
    } else {
        s
    }
}

pub open spec fn spec_parse_number(s: Seq<char>, max: int) -> Option<int> {
    let digits = spec_number_digits(s);
    if digits.len() > 0 && all_digits(digits) && digits_val(digits) <= max {
        Some(digits_val(digits))
    } else {
        None
    }
}

/// Split a character sequence at every occurrence of `sep`; the result
/// always has one more segment than there are separators.
pub open spec fn split_on(s: Seq<char>, sep: char) -> Seq<Seq<char>>
    decreases s.len(),
{
    if s.len() == 0 {
        seq![Seq::<char>::empty()]
    } else {
        let r = split_on(s.drop_last(), sep);
        if s.last() == sep {
            r.push(Seq::<char>::empty())
        } else {
            r.update(r.len() - 1, r.last().push(s.last()))
        }
    }
}

/// What one line contributes to the track: nothing, one action, or one
/// hand position; `None` when the line is a malformed record.
pub open spec fn spec_parse_line(line: Seq<char>) -> Option<(Seq<Action>, Seq<HandPosition>)> {
    let segs = split_on(line, ':');
    if segs[0] == seq!['f', 'r', 'e', 't'] {
        if segs.len() >= 5 {
            match (spec_parse_number(segs[1], u64::MAX as int), spec_parse_number(
                segs[2],
                u64::MAX as int,
            ), spec_parse_number(segs[3], u8::MAX as int), spec_parse_number(
                segs[4],
                u8::MAX as int,
            )) {
                (Some(starts), Some(ends), Some(fret), Some(string)) => Some(
                    (
                        seq![
                            Action::Fret(
                                Fret {
                                    fret: fret as u8,
                                    string: string as u8,
                                    starts_at: Duration { millis: starts as u64 },
                                    ends_at: Duration { millis: ends as u64 },
                                },
                            )
                        ],
                        Seq::<HandPosition>::empty(),
                    ),
                ),
                _ => None,
            }
        } else {
            None
        }
    } else if segs[0] == seq!['h', 'a', 'n', 'd'] {
        if segs.len() >= 3 {
            match (spec_parse_number(segs[1], u64::MAX as int), spec_parse_number(
                segs[2],
                u8::MAX as int,
            )) {
                (Some(at), Some(fret)) => Some(
                    (
                        Seq::<Action>::empty(),
                        seq![HandPosition { fret: fret as u8, at: Duration { millis: at as u64 } }],
                    ),
                ),
                _ => None,
            }
        } else {
            None
        }
    } else {
        Some((Seq::<Action>::empty(), Seq::<HandPosition>::empty()))
    }
}

/// The whole parse: every line's contribution concatenated in order, or
/// `None` as soon as any line is malformed.
pub open spec fn spec_parse_lines(lines: Seq<Seq<char>>) -> Option<
    (Seq<Action>, Seq<HandPosition>),
>
    decreases lines.len(),
{
    if lines.len() == 0 {
        Some((Seq::<Action>::empty(), Seq::<HandPosition>::empty()))
    } else {
        match spec_parse_lines(lines.drop_last()) {
            None => None,
            Some((actions, hands)) => match spec_parse_line(lines.last()) {
                None => None,
                Some((a2, h2)) => Some((actions + a2, hands + h2)),
            },
        }
    }
}

/// The functional specification of `TrackData::parse`.
pub open spec fn spec_parse_track(s: Seq<char>) -> Option<(Seq<Action>, Seq<HandPosition>)> {
    spec_parse_lines(split_on(s, '\n'))
}

/// The value of a digit string is never negative.
pub(crate) proof fn lemma_digits_val_nonneg(s: Seq<char>)
    requires
        all_digits(s),
    ensures
        digits_val(s) >= 0,
    decreases s.len(),
{
    if s.len() > 0 {
        assert(all_digits(s.drop_last())) by {
            assert(forall|i: int|
                0 <= i < s.len() - 1 ==> s.drop_last()[i] == s[i]);
        }
        lemma_digits_val_nonneg(s.drop_last());
    }
}

/// A digit string never loses value when digits are appended.
pub(crate) proof fn lemma_digits_val_prefix_le(s: Seq<char>, k: int)
    requires
        all_digits(s),
        0 <= k <= s.len(),
    ensures
        digits_val(s.take(k)) <= digits_val(s),
    decreases s.len() - k,
{
    if k < s.len() {
        lemma_digits_val_prefix_le(s, k + 1);
        assert(s.take(k + 1).drop_last() =~= s.take(k));
        assert(digits_val(s.take(k + 1)) == digits_val(s.take(k)) * 10 + digit_char_val(
            s.take(k + 1).last(),
        ));
        assert(all_digits(s.take(k))) by {
            assert(forall|i: int| 0 <= i < k ==> s.take(k)[i] == s[i]);
        }
        lemma_digits_val_nonneg(s.take(k));
    } else {
        assert(s.take(k) =~= s);
    }
}

/// The base-ten value of a digit character, or nothing for any other
/// character.
pub(crate) fn char_digit_value(c: char) -> (r: Option<u64>)
    ensures
        match r {
            Some(d) => is_digit_char(c) && d == digit_char_val(c),
            None => !is_digit_char(c),
        },
{
    match c {
        '0' => Some(0),
        '1' => Some(1),
        '2' => Some(2),
        '3' => Some(3),
        '4' => Some(4),
        '5' => Some(5),
        '6' => Some(6),
        '7' => Some(7),
        '8' => Some(8),
        '9' => Some(9),
        _ => None,
    }
}

/// Parse a run of characters as a base-ten number no larger than `max`,
/// exactly as `spec_parse_number` describes.
pub(crate) fn parse_number_chars(s: &Vec<char>, max: u64) -> (r: Option<u64>)
    requires
        max >= 9,
    ensures
        match r {
            Some(v) => spec_parse_number(s@, max as int) == Some(v as int),
            None => spec_parse_number(s@, max as int) is None,
        },
{
    let n = s.len();
    let start: usize = if n > 0 && s[0] == '+' {
        1
    } else {
        0
    };
    let ghost digits = spec_number_digits(s@);
    proof {
        assert(digits =~= s@.subrange(start as int, n as int));
    }
    if n == start {
        return None;
    }
    let mut acc: u64 = 0;
    let mut i: usize = start;
    while i < n
        invariant
            start <= i <= n,
            n == s@.len(),
            start <= 1,
            digits == spec_number_digits(s@),
            digits == s@.subrange(start as int, n as int),
            all_digits(digits.take(i - start)),
            acc == digits_val(digits.take(i - start)),
            acc <= max,
            9 <= max,
        decreases n - i,
    {
        let c = s[i];
        proof {
            assert(digits[i - start] == s@[i as int]);
        }
        let d: u64 = match char_digit_value(c) {
            Some(d) => d,
            None => {
                proof {
                    assert(!all_digits(digits));
                }
                return None;
            },
        };
        proof {
            assert(digits.take(i - start + 1).drop_last() =~= digits.take(i - start));
            assert(digits.take(i - start + 1).last() == digits[i - start]);
            assert(digits_val(digits.take(i - start + 1)) == acc * 10 + d);
        }
        if acc > (max - d) / 10 {
            proof {
                assert(acc * 10 + d > max) by (nonlinear_arith)
                    requires
                        acc > (max - d) / 10,
                        d <= max,
                        (max - d) / 10 >= 0,
                        acc >= 0,
                ;
                assert(all_digits(digits.take(i - start + 1)));
                if all_digits(digits) {
                    lemma_digits_val_prefix_le(digits, i - start + 1);
                    assert(digits_val(digits) > max);
                }
            }
            return None;
        }
        acc = acc * 10 + d;
        i = i + 1;
    }
    proof {
        assert(digits.take(n - start) =~= digits);
    }
    Some(acc)
}

/// Collect the characters of a string slice into a vector.
pub(crate) fn str_to_chars(s: &str) -> (r: Vec<char>)
    ensures
        r@ == s@,
{
    let n = s.unicode_len();
    let mut r: Vec<char> = Vec::new();
    let mut i: usize = 0;
    while i < n
        invariant
            n == s@.len(),
            i <= n,
            r@ == s@.take(i as int),
        decreases n - i,
    {
        r.push(s.get_char(i));
        proof {
            assert(s@.take(i + 1) =~= s@.take(i as int).push(s@[i as int]));
        }
        i = i + 1;
    }
    proof {
        assert(s@.take(n as int) =~= s@);
    }
    r
}

pub open spec fn seq_views(s: Seq<Vec<char>>) -> Seq<Seq<char>> {
    s.map_values(|v: Vec<char>| v@)
}

/// Split a character vector at every occurrence of `sep`, exactly as
/// `split_on` describes.
fn split_chars(s: &Vec<char>, sep: char) -> (r: Vec<Vec<char>>)
    ensures
        seq_views(r@) == split_on(s@, sep),
        r@.len() >= 1,
{
    let mut out: Vec<Vec<char>> = Vec::new();
    let mut cur: Vec<char> = Vec::new();
    let mut i: usize = 0;
    while i < s.len()
        invariant
            i <= s@.len(),
            seq_views(out@).push(cur@) =~~= split_on(s@.take(i as int), sep),
        decreases s@.len() - i,
    {
        let ghost prev_out = out@;
        let ghost prev_cur = cur@;
        let c = s[i];
        if c == sep {
            out.push(cur);
            cur = Vec::new();
        } else {
            cur.push(c);
        }
        proof {
            assert(s@.take(i + 1).drop_last() =~= s@.take(i as int));
            assert(s@.take(i + 1).last() == s@[i as int]);
            if s@[i as int] == sep {
                assert(seq_views(out@).push(cur@) =~~= split_on(s@.take(i as int), sep).push(
                    Seq::<char>::empty(),
                ));
            } else {
                let r0 = split_on(s@.take(i as int), sep);
                assert(r0 =~~= seq_views(prev_out).push(prev_cur));
                assert(r0.len() == prev_out.len() + 1);
                assert(r0.last() == prev_cur);
                assert(seq_views(out@).push(cur@) =~~= r0.update(
                    r0.len() - 1,
                    r0.last().push(s@[i as int]),
                ));
            }
        }
        i = i + 1;
    }
    proof {
        assert(s@.take(s@.len() as int) =~= s@);
    }
    out.push(cur);
    proof {
        assert(seq_views(out@) =~~= seq_views(out@.drop_last()).push(cur@));
    }
    out
}

/// True exactly when the characters read `fret`.
fn is_fret_keyword(s: &Vec<char>) -> (r: bool)
    ensures
        r == (s@ == seq!['f', 'r', 'e', 't']),
{
    if s.len() == 4 && s[0] == 'f' && s[1] == 'r' && s[2] == 'e' && s[3] == 't' {
        proof {
            assert(s@ =~= seq!['f', 'r', 'e', 't']);
        }
        true
    } else {
        false
    }
}

/// True exactly when the characters read `hand`.
fn is_hand_keyword(s: &Vec<char>) -> (r: bool)
    ensures
        r == (s@ == seq!['h', 'a', 'n', 'd']),
{
    if s.len() == 4 && s[0] == 'h' && s[1] == 'a' && s[2] == 'n' && s[3] == 'd' {
        proof {
            assert(s@ =~= seq!['h', 'a', 'n', 'd']);
        }
        true
    } else {
        false
    }
}

/// What one line of the text format contributes.
enum LineOutcome {
    Skip,
    ActionLine(Action),
    HandLine(HandPosition),
}

/// Parse one line, exactly as `spec_parse_line` describes.
fn parse_line(line: &Vec<char>) -> (r: Result<LineOutcome, ParseError>)
    ensures
        match r {
            Ok(LineOutcome::Skip) => spec_parse_line(line@) == Some(
                (Seq::<Action>::empty(), Seq::<HandPosition>::empty()),
            ),
            Ok(LineOutcome::ActionLine(a)) => spec_parse_line(line@) == Some(
                (seq![a], Seq::<HandPosition>::empty()),
            ),
            Ok(LineOutcome::HandLine(p)) => spec_parse_line(line@) == Some(
                (Seq::<Action>::empty(), seq![p]),
            ),
            Err(_) => spec_parse_line(line@) is None,
        },
{
    let segs = split_chars(line, ':');
    proof {
        assert(seq_views(segs@)[0] == segs@[0]@);
    }
    if is_fret_keyword(&segs[0]) {
        if segs.len() < 5 {
            return Err(ParseError::InvalidFormat);
        }
        proof {
            assert(seq_views(segs@)[1] == segs@[1]@);
            assert(seq_views(segs@)[2] == segs@[2]@);
            assert(seq_views(segs@)[3] == segs@[3]@);
            assert(seq_views(segs@)[4] == segs@[4]@);
        }
        let starts = parse_number_chars(&segs[1], u64::MAX);
        let ends = parse_number_chars(&segs[2], u64::MAX);
        let fret = parse_number_chars(&segs[3], 255);
        let string = parse_number_chars(&segs[4], 255);
        match (starts, ends, fret, string) {
            (Some(starts), Some(ends), Some(fret), Some(string)) => Ok(
                LineOutcome::ActionLine(
                    Action::Fret(
                        Fret {
                            fret: fret as u8,
                            string: string as u8,
                            starts_at: Duration::from_millis(starts),
                            ends_at: Duration::from_millis(ends),
                        },
                    ),
                ),
            ),
            _ => Err(ParseError::InvalidFormat),
        }
    } else if is_hand_keyword(&segs[0]) {
        if segs.len() < 3 {
            return Err(ParseError::InvalidFormat);
        }
        proof {
            assert(seq_views(segs@)[1] == segs@[1]@);
            assert(seq_views(segs@)[2] == segs@[2]@);
        }
        let at = parse_number_chars(&segs[1], u64::MAX);
        let fret = parse_number_chars(&segs[2], 255);
        match (at, fret) {
            (Some(at), Some(fret)) => Ok(
                LineOutcome::HandLine(
                    HandPosition { fret: fret as u8, at: Duration::from_millis(at) },
                ),
            ),
            _ => Err(ParseError::InvalidFormat),
        }
    } else {
        Ok(LineOutcome::Skip)
    }
}

impl TrackData {
    /// Parse the authoring text format. Returns the parsed timeline exactly
    /// when `spec_parse_track` accepts the text, and `InvalidFormat`
    /// exactly when some record in it is malformed.
    pub fn parse(content: &str) -> (r: Result<TrackData, ParseError>)
        ensures
            match r {
                Ok(td) => spec_parse_track(content@) == Some((td.actions@, td.hand_positions@)),
                Err(_) => spec_parse_track(content@) is None,
            },
    {
        let chars = str_to_chars(content);
        let lines = split_chars(&chars, '\n');
        let ghost line_views = seq_views(lines@);
        let mut actions: Vec<Action> = Vec::new();
        let mut hand_positions: Vec<HandPosition> = Vec::new();
        let mut i: usize = 0;
        while i < lines.len()
            invariant
                i <= lines@.len(),
                line_views == seq_views(lines@),
                line_views == split_on(chars@, '\n'),
                chars@ == content@,
                spec_parse_lines(line_views.take(i as int)) == Some(
                    (actions@, hand_positions@),
                ),
            decreases lines@.len() - i,
        {
            proof {
                assert(line_views.take(i + 1).drop_last() =~~= line_views.take(i as int));
                assert(line_views.take(i + 1).last() == line_views[i as int]);
                assert(line_views[i as int] == lines@[i as int]@);
            }
            match parse_line(&lines[i]) {
                Ok(LineOutcome::Skip) => {
                    proof {
                        assert(actions@ + Seq::<Action>::empty() =~= actions@);
                        assert(hand_positions@ + Seq::<HandPosition>::empty()
                            =~= hand_positions@);
                    }
                },
                Ok(LineOutcome::ActionLine(a)) => {
                    let ghost prev = actions@;
                    actions.push(a);
                    proof {
                        assert(actions@ =~= prev + seq![a]);
                        assert(hand_positions@ + Seq::<HandPosition>::empty()
                            =~= hand_positions@);
                    }
                },
                Ok(LineOutcome::HandLine(p)) => {
                    let ghost prev = hand_positions@;
                    hand_positions.push(p);
                    proof {
                        assert(hand_positions@ =~= prev + seq![p]);
                        assert(actions@ + Seq::<Action>::empty() =~= actions@);
                    }
                },
                Err(e) => {
                    proof {
                        lemma_spec_parse_lines_prefix_none(line_views, i + 1);
                    }
                    return Err(e);
                },
            }
            i = i + 1;
        }
        proof {
            assert(line_views.take(lines@.len() as int) =~~= line_views);
        }
        Ok(TrackData { actions, hand_positions })
    }
}

/// Once a prefix of the lines fails to parse, the whole sequence fails.
proof fn lemma_spec_parse_lines_prefix_none(lines: Seq<Seq<char>>, k: int)
    requires
        0 <= k <= lines.len(),
        spec_parse_lines(lines.take(k)) is None,
    ensures
        spec_parse_lines(lines) is None,
    decreases lines.len() - k,
{
    if k < lines.len() {
        assert(lines.take(k + 1).drop_last() =~~= lines.take(k));
        lemma_spec_parse_lines_prefix_none(lines, k + 1);
    } else {
        assert(lines.take(k) =~~= lines);
    }
}

} // verus!
