use rustmith::text::ParseError;
use rustmith::track::fret_action;
use rustmith::track::hand_position;
use rustmith::track::Action;
use rustmith::track::Duration;
use rustmith::track::Fret;
use rustmith::track::Interval;
use rustmith::track::Track;
use rustmith::track::TrackData;

fn fret(starts: u64, ends: u64, fret: u8, string: u8) -> Fret {
    Fret {
        fret,
        string,
        starts_at: Duration::from_millis(starts),
        ends_at: Duration::from_millis(ends),
    }
}

#[test]
fn wire_text_is_canonical_json() {
    let td = TrackData {
        actions: vec![fret_action(2000, 2200, 10, 3)],
        hand_positions: vec![hand_position(1500, 5)],
    };
    assert_eq!(
        "{\"actions\":[{\"Fret\":{\"fret\":10,\"string\":3,\"ends_at\":2200,\"starts_at\":2000}}],\"hand_positions\":[{\"fret\":5,\"at\":1500}]}",
        td.to_json()
    );
}

#[test]
fn wire_round_trip_from_text_track() {
    let td = TrackData::parse("fret:2000:2200:10:3\nfret:2400:2600:9:2\nhand:1500:5").unwrap();
    let back = TrackData::from_json(&td.to_json()).unwrap();
    assert_eq!(td.actions, back.actions);
    assert_eq!(td.hand_positions, back.hand_positions);
}

#[test]
fn wire_round_trip_covers_every_variant() {
    let td = TrackData {
        actions: vec![
            Action::Fret(fret(0, 1, 0, 0)),
            Action::Slide(fret(10, 20, 1, 2), fret(15, 30, 3, 4)),
            Action::Bend(fret(5, 9, 12, 6), Interval::HalfStep),
            Action::Bend(fret(5, 9, 12, 6), Interval::Step),
            Action::Bend(fret(5, 9, 12, 6), Interval::DoubleStep),
            Action::Fret(fret(u64::MAX - 1, u64::MAX, 255, 255)),
        ],
        hand_positions: vec![hand_position(0, 0), hand_position(u64::MAX, 255)],
    };
    let back = TrackData::from_json(&td.to_json()).unwrap();
    assert_eq!(td, back);
}

#[test]
fn wire_round_trip_of_empty_track() {
    let td = TrackData { actions: vec![], hand_positions: vec![] };
    assert_eq!("{\"actions\":[],\"hand_positions\":[]}", td.to_json());
    let back = TrackData::from_json(&td.to_json()).unwrap();
    assert_eq!(td, back);
}

#[test]
fn wire_parse_rejects_malformed_text() {
    assert_eq!(Err(ParseError::InvalidFormat), TrackData::from_json(""));
    assert_eq!(Err(ParseError::InvalidFormat), TrackData::from_json("{\"actions\":[]}"));
    assert_eq!(
        Err(ParseError::InvalidFormat),
        TrackData::from_json("{\"actions\":[],\"hand_positions\":[]} ")
    );
    assert_eq!(
        Err(ParseError::InvalidFormat),
        TrackData::from_json("{\"actions\":[],\"hand_positions\":[{\"fret\":5,\"at\":-3}]}")
    );
    assert_eq!(
        Err(ParseError::InvalidFormat),
        TrackData::from_json("{\"actions\":[],\"hand_positions\":[{\"fret\":999,\"at\":3}]}")
    );
}

#[test]
fn track_wire_text_is_canonical_json() {
    let t = Track {
        id: "42".to_string(),
        name: "Open Strings".to_string(),
        youtube_id: "abc123".to_string(),
        data: TrackData { actions: vec![fret_action(1, 2, 3, 4)], hand_positions: vec![] },
    };
    assert_eq!(
        "{\"id\":\"42\",\"name\":\"Open Strings\",\"youtube_id\":\"abc123\",\"data\":{\"actions\":[{\"Fret\":{\"fret\":3,\"string\":4,\"ends_at\":2,\"starts_at\":1}}],\"hand_positions\":[]}}",
        t.to_json()
    );
}

#[test]
fn track_round_trip_escapes_quotes_and_backslashes() {
    let t = Track {
        id: "".to_string(),
        name: "He said \"play\" \\ loud".to_string(),
        youtube_id: "x\\y\"z".to_string(),
        data: TrackData {
            actions: vec![Action::Bend(fret(5, 9, 12, 6), Interval::Step)],
            hand_positions: vec![hand_position(7, 2)],
        },
    };
    let back = Track::from_json(&t.to_json()).unwrap();
    assert_eq!(t, back);
}

#[test]
fn track_wire_parse_rejects_malformed_text() {
    assert!(Track::from_json("").is_err());
    assert!(Track::from_json("{\"id\":\"1\"}").is_err());
    assert!(
        Track::from_json(
            "{\"id\":\"1\",\"name\":\"n\",\"youtube_id\":\"y\",\"data\":{\"actions\":[],\"hand_positions\":[]}} "
        )
        .is_err()
    );
    assert!(
        Track::from_json(
            "{\"id\":\"unterminated"
        )
        .is_err()
    );
}
