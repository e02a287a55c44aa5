use rustmith::text::ParseError;
use rustmith::track::fret_action;
use rustmith::track::hand_position;
use rustmith::track::Action;
use rustmith::track::Duration;
use rustmith::track::DurationExt;
use rustmith::track::Fret;
use rustmith::track::Interval;
use rustmith::track::TrackData;

#[test]
fn test_view_1() {
    let actions = vec![
        fret_action(2000, 2200, 10, 3),
        fret_action(2400, 2600, 10, 3),
        fret_action(2800, 3000, 10, 3),
        fret_action(3200, 4200, 10, 3),
        fret_action(4400, 5400, 10, 3),
    ];
    let hand_positions = vec![];
    let track = TrackData { actions, hand_positions };
    assert_eq!(0, track.view(Duration::from_millis(4500)).actions.len());
    assert_eq!(1, track.view(Duration::from_millis(3300)).actions.len());
    assert_eq!(2, track.view(Duration::from_millis(2900)).actions.len());
    assert_eq!(3, track.view(Duration::from_millis(2500)).actions.len());
    assert_eq!(4, track.view(Duration::from_millis(2100)).actions.len());
    assert_eq!(5, track.view(Duration::from_millis(0)).actions.len());
    for action in &track.actions {
        assert_eq!(true, action.starts_at() < action.ends_at())
    }
}

fn fret(starts: u64, ends: u64) -> Fret {
    Fret {
        fret: 2,
        string: 4,
        starts_at: Duration::from_millis(starts),
        ends_at: Duration::from_millis(ends),
    }
}

#[test]
fn action_spans_are_positive_for_every_variant() {
    let cases = vec![
        Action::Fret(fret(10, 20)),
        Action::Slide(fret(10, 20), fret(15, 18)),
        Action::Slide(fret(30, 35), fret(5, 12)),
        Action::Slide(fret(5, 40), fret(10, 20)),
        Action::Bend(fret(7, 9), Interval::HalfStep),
        Action::Bend(fret(0, 1), Interval::Step),
        Action::Bend(fret(1, 1000), Interval::DoubleStep),
    ];
    for a in &cases {
        assert!(a.starts_at() < a.ends_at());
    }
}

#[test]
fn slide_takes_earliest_start_and_latest_end() {
    let a = Action::Slide(fret(30, 35), fret(5, 12));
    assert_eq!(5, a.starts_at().millis);
    assert_eq!(35, a.ends_at().millis);
}

#[test]
fn view_includes_hand_positions_from_the_instant_on() {
    let track = TrackData {
        actions: vec![],
        hand_positions: vec![hand_position(1000, 2), hand_position(3000, 5), hand_position(99000, 7)],
    };
    assert_eq!(3, track.view(Duration::from_millis(0)).hand_positions.len());
    assert_eq!(2, track.view(Duration::from_millis(2000)).hand_positions.len());
    assert_eq!(1, track.view(Duration::from_millis(3001)).hand_positions.len());
    // the upper window bound does not apply to hand positions
    assert_eq!(1, track.view(Duration::from_millis(30000)).hand_positions.len());
}

#[test]
fn view_excludes_partially_visible_actions_entirely() {
    let track = TrackData {
        actions: vec![fret_action(1000, 2000, 1, 1), fret_action(59000, 62000, 1, 1)],
        hand_positions: vec![],
    };
    // the second action ends after from + 60s and is not clipped
    let v = track.view(Duration::from_millis(1000));
    assert_eq!(vec![0], v.actions);
}

#[test]
fn parse_reads_fret_and_hand_records() {
    let td = TrackData::parse("fret:2000:2200:10:3\nhand:1500:5").unwrap();
    assert_eq!(vec![fret_action(2000, 2200, 10, 3)], td.actions);
    assert_eq!(vec![hand_position(1500, 5)], td.hand_positions);
}

#[test]
fn parse_skips_unknown_records_and_blank_lines() {
    let td = TrackData::parse("\ncomment:hello\n\nfret:1:2:3:4\n").unwrap();
    assert_eq!(1, td.actions.len());
    assert_eq!(0, td.hand_positions.len());
}

#[test]
fn parse_ignores_extra_fields() {
    let td = TrackData::parse("fret:1:2:3:4:junk:junk").unwrap();
    assert_eq!(vec![fret_action(1, 2, 3, 4)], td.actions);
}

#[test]
fn parse_rejects_non_numeric_fields() {
    assert_eq!(Err(ParseError::InvalidFormat), TrackData::parse("fret:abc:2200:10:3"));
    assert_eq!(Err(ParseError::InvalidFormat), TrackData::parse("hand:1500:x"));
    assert_eq!(Err(ParseError::InvalidFormat), TrackData::parse("fret:2000::10:3"));
}

#[test]
fn parse_rejects_short_records() {
    assert_eq!(Err(ParseError::InvalidFormat), TrackData::parse("fret:2000:2200"));
    assert_eq!(Err(ParseError::InvalidFormat), TrackData::parse("hand:1500"));
    assert_eq!(Err(ParseError::InvalidFormat), TrackData::parse("fret"));
}

#[test]
fn parse_rejects_out_of_range_numbers() {
    assert_eq!(
        Err(ParseError::InvalidFormat),
        TrackData::parse("fret:99999999999999999999999:1:1:1")
    );
    assert_eq!(Err(ParseError::InvalidFormat), TrackData::parse("fret:1:2:256:1"));
    assert_eq!(Err(ParseError::InvalidFormat), TrackData::parse("hand:1:256"));
}

#[test]
fn parse_does_not_check_time_ordering() {
    // the parser builds the record as written; ordering is the author's duty
    let td = TrackData::parse("fret:2200:2000:10:3").unwrap();
    assert_eq!(2200, td.actions[0].starts_at().millis);
    assert_eq!(2000, td.actions[0].ends_at().millis);
}

#[test]
fn total_millis_reads_back_the_duration() {
    assert_eq!(61500, Duration::from_millis(61500).total_millis());
    assert_eq!(60000, Duration::from_secs(60).total_millis());
}

#[test]
fn parse_accepts_a_leading_plus_sign_on_numbers() {
    let td = TrackData::parse("fret:+2000:+2200:+10:+3\nhand:+1500:5").unwrap();
    assert_eq!(vec![fret_action(2000, 2200, 10, 3)], td.actions);
    assert_eq!(vec![hand_position(1500, 5)], td.hand_positions);
    assert_eq!(Err(ParseError::InvalidFormat), TrackData::parse("fret:++1:2:3:4"));
    assert_eq!(Err(ParseError::InvalidFormat), TrackData::parse("hand:+:5"));
    assert_eq!(Err(ParseError::InvalidFormat), TrackData::parse("fret:-1:2:3:4"));
}
