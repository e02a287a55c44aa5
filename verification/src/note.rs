//! The reference pitch table: one equal-tempered chromatic scale starting
//! at C2, each step flanked by a quarter-tone-flat and quarter-tone-sharp
//! neighbour. The classifier reports detections as indices into this exact
//! sequence, so its length, ordering and every entry are load-bearing, and
//! the table contract fixes them all.

use vstd::prelude::*;
use vstd::string::StringExecFns;

verus! {

/// One reference pitch. The frequency is held in millihertz so that the
/// table is exact, ordered integer data; callers that need hertz divide by
/// a thousand.
#[derive(Clone, PartialEq, Debug)]
pub struct Note {
    pub frequency_millihertz: u64,
    pub name: String,
}

/// The twelve pitch-class names, in chromatic order from C.
pub open spec fn pitch_class_name(i: int) -> Seq<char> {
    if i == 0 {
        "C"@
    } else if i == 1 {
        "C#"@
    } else if i == 2 {
        "D"@
    } else if i == 3 {
        "D#"@
    } else if i == 4 {
        "E"@
    } else if i == 5 {
        "F"@
    } else if i == 6 {
        "F#"@
    } else if i == 7 {
        "G"@
    } else if i == 8 {
        "G#"@
    } else if i == 9 {
        "A"@
    } else if i == 10 {
        "A#"@
    } else {
        "B"@
    }
}

/// The tempered pitch of chromatic step `s`: 65.41 Hz times the twelfth
/// root of two raised to `s`, rounded to millihertz.
pub open spec fn step_natural_millihertz(s: int) -> u64 {
    if s == 0 {
        65410
    } else if s == 1 {
        69299
    } else if s == 2 {
        73420
    } else if s == 3 {
        77786
    } else if s == 4 {
        82411
    } else if s == 5 {
        87312
    } else if s == 6 {
        92504
    } else if s == 7 {
        98004
    } else if s == 8 {
        103832
    } else if s == 9 {
        110006
    } else if s == 10 {
        116547
    } else if s == 11 {
        123478
    } else if s == 12 {
        130820
    } else if s == 13 {
        138599
    } else if s == 14 {
        146840
    } else if s == 15 {
        155572
    } else if s == 16 {
        164823
    } else if s == 17 {
        174624
    } else if s == 18 {
        185007
    } else if s == 19 {
        196009
    } else if s == 20 {
        207664
    } else if s == 21 {
        220012
    } else if s == 22 {
        233095
    } else if s == 23 {
        246955
    } else if s == 24 {
        261640
    } else if s == 25 {
        277198
    } else if s == 26 {
        293681
    } else if s == 27 {
        311144
    } else if s == 28 {
        329646
    } else {
        349247
    }
}

/// The quarter-tone-flat neighbour of step `s`: the tempered pitch divided
/// by the forty-eighth root of two, rounded to millihertz.
pub open spec fn step_flat_millihertz(s: int) -> u64 {
    if s == 0 {
        64472
    } else if s == 1 {
        68306
    } else if s == 2 {
        72368
    } else if s == 3 {
        76671
    } else if s == 4 {
        81230
    } else if s == 5 {
        86060
    } else if s == 6 {
        91178
    } else if s == 7 {
        96599
    } else if s == 8 {
        102343
    } else if s == 9 {
        108429
    } else if s == 10 {
        114876
    } else if s == 11 {
        121707
    } else if s == 12 {
        128944
    } else if s == 13 {
        136612
    } else if s == 14 {
        144735
    } else if s == 15 {
        153342
    } else if s == 16 {
        162460
    } else if s == 17 {
        172120
    } else if s == 18 {
        182355
    } else if s == 19 {
        193198
    } else if s == 20 {
        204687
    } else if s == 21 {
        216858
    } else if s == 22 {
        229753
    } else if s == 23 {
        243415
    } else if s == 24 {
        257889
    } else if s == 25 {
        273224
    } else if s == 26 {
        289471
    } else if s == 27 {
        306683
    } else if s == 28 {
        324920
    } else {
        344240
    }
}

/// The quarter-tone-sharp neighbour of step `s`: the tempered pitch times
/// the forty-eighth root of two, rounded to millihertz.
pub open spec fn step_sharp_millihertz(s: int) -> u64 {
    if s == 0 {
        66361
    } else if s == 1 {
        70307
    } else if s == 2 {
        74488
    } else if s == 3 {
        78917
    } else if s == 4 {
        83610
    } else if s == 5 {
        88582
    } else if s == 6 {
        93849
    } else if s == 7 {
        99430
    } else if s == 8 {
        105342
    } else if s == 9 {
        111606
    } else if s == 10 {
        118243
    } else if s == 11 {
        125274
    } else if s == 12 {
        132723
    } else if s == 13 {
        140615
    } else if s == 14 {
        148976
    } else if s == 15 {
        157835
    } else if s == 16 {
        167220
    } else if s == 17 {
        177164
    } else if s == 18 {
        187698
    } else if s == 19 {
        198860
    } else if s == 20 {
        210684
    } else if s == 21 {
        223212
    } else if s == 22 {
        236485
    } else if s == 23 {
        250547
    } else if s == 24 {
        265446
    } else if s == 25 {
        281230
    } else if s == 26 {
        297953
    } else if s == 27 {
        315670
    } else if s == 28 {
        334441
    } else {
        354327
    }
}

/// The frequency of table entry `k`: three probes per step, the flat
/// neighbour first, then the tempered pitch, then the sharp neighbour.
pub open spec fn probe_frequency_millihertz(k: int) -> u64 {
    if k % 3 == 0 {
        step_flat_millihertz(k / 3)
    } else if k % 3 == 1 {
        step_natural_millihertz(k / 3)
    } else {
        step_sharp_millihertz(k / 3)
    }
}

/// The name of table entry `k`: the step's pitch-class name, suffixed for
/// the two quarter-tone neighbours.
pub open spec fn probe_name(k: int) -> Seq<char> {
    let name = pitch_class_name((k / 3) % 12);
    if k % 3 == 0 {
        name + " (a bit flat)"@
    } else if k % 3 == 1 {
        name
    } else {
        name + " (a bit sharp)"@
    }
}

/// The first `steps` chromatic steps of the table, every entry exact.
pub open spec fn table_prefix_ok(s: Seq<Note>, steps: int) -> bool {
    &&& s.len() == 3 * steps
    &&& forall|k: int|
        0 <= k < s.len() ==> (#[trigger] s[k]).frequency_millihertz
            == probe_frequency_millihertz(k) && s[k].name@ == probe_name(k)
}

/// Strictly ascending, strictly positive frequencies.
pub open spec fn frequencies_ascending(s: Seq<Note>) -> bool {
    &&& forall|i: int, j: int|
        0 <= i < j < s.len() ==> s[i].frequency_millihertz < s[j].frequency_millihertz
    &&& forall|i: int| 0 <= i < s.len() ==> s[i].frequency_millihertz > 0
}

/// Append the three probes of one chromatic step: the quarter-tone-flat
/// neighbour, the tempered pitch itself, and the quarter-tone-sharp
/// neighbour, in that order.
fn push_step(out: &mut Vec<Note>, name: &str, flat: u64, natural: u64, sharp: u64)
    requires
        0 < flat < natural < sharp,
        frequencies_ascending(old(out)@),
        old(out)@.len() > 0 ==> old(out)@.last().frequency_millihertz < flat,
        table_prefix_ok(old(out)@, old(out)@.len() as int / 3),
        name@ == pitch_class_name((old(out)@.len() as int / 3) % 12),
        flat == step_flat_millihertz(old(out)@.len() as int / 3),
        natural == step_natural_millihertz(old(out)@.len() as int / 3),
        sharp == step_sharp_millihertz(old(out)@.len() as int / 3),
    ensures
        final(out)@.len() == old(out)@.len() + 3,
        frequencies_ascending(final(out)@),
        final(out)@.last().frequency_millihertz == sharp,
        table_prefix_ok(final(out)@, old(out)@.len() as int / 3 + 1),
{
    let below_name = String::from_str(name).concat(" (a bit flat)");
    let natural_name = String::from_str(name);
    let above_name = String::from_str(name).concat(" (a bit sharp)");
    let ghost prev = out@;
    out.push(Note { frequency_millihertz: flat, name: below_name });
    out.push(Note { frequency_millihertz: natural, name: natural_name });
    out.push(Note { frequency_millihertz: sharp, name: above_name });
    proof {
        assert forall|i: int, j: int|
            0 <= i < j < out@.len() implies out@[i].frequency_millihertz
            < out@[j].frequency_millihertz by {
            if j < prev.len() {
            } else if i < prev.len() {
                assert(prev[i].frequency_millihertz <= prev.last().frequency_millihertz);
            }
        }
        let steps = prev.len() as int / 3;
        assert(prev.len() == 3 * steps);
        assert forall|k: int|
            0 <= k < out@.len() implies (#[trigger] out@[k]).frequency_millihertz
            == probe_frequency_millihertz(k) && out@[k].name@ == probe_name(k) by {
            if k < prev.len() {
                assert(out@[k] == prev[k]);
            } else {
                assert(k / 3 == steps && k % 3 == k - prev.len());
            }
        }
    }
}

impl Note {
    /// The fixed bank of ninety correlation probes: thirty chromatic steps
    /// upward from C2 (65.41 Hz), three probes per step, every entry's
    /// frequency and name fixed by `probe_frequency_millihertz` and
    /// `probe_name`, strictly ascending in frequency. An index into the
    /// table therefore identifies one pitch unambiguously, and any two
    /// calls return tables equal entry for entry.
    pub fn make_test_frequencies() -> (r: Vec<Note>)
        ensures
            r@.len() == 90,
            frequencies_ascending(r@),
            forall|k: int|
                0 <= k < 90 ==> (#[trigger] r@[k]).frequency_millihertz
                    == probe_frequency_millihertz(k) && r@[k].name@ == probe_name(k),
    {
        let mut r: Vec<Note> = Vec::new();
        push_step(&mut r, "C", 64472, 65410, 66361);
        push_step(&mut r, "C#", 68306, 69299, 70307);
        push_step(&mut r, "D", 72368, 73420, 74488);
        push_step(&mut r, "D#", 76671, 77786, 78917);
        push_step(&mut r, "E", 81230, 82411, 83610);
        push_step(&mut r, "F", 86060, 87312, 88582);
        push_step(&mut r, "F#", 91178, 92504, 93849);
        push_step(&mut r, "G", 96599, 98004, 99430);
        push_step(&mut r, "G#", 102343, 103832, 105342);
        push_step(&mut r, "A", 108429, 110006, 111606);
        push_step(&mut r, "A#", 114876, 116547, 118243);
        push_step(&mut r, "B", 121707, 123478, 125274);
        push_step(&mut r, "C", 128944, 130820, 132723);
        push_step(&mut r, "C#", 136612, 138599, 140615);
        push_step(&mut r, "D", 144735, 146840, 148976);
        push_step(&mut r, "D#", 153342, 155572, 157835);
        push_step(&mut r, "E", 162460, 164823, 167220);
        push_step(&mut r, "F", 172120, 174624, 177164);
        push_step(&mut r, "F#", 182355, 185007, 187698);
        push_step(&mut r, "G", 193198, 196009, 198860);
        push_step(&mut r, "G#", 204687, 207664, 210684);
        push_step(&mut r, "A", 216858, 220012, 223212);
        push_step(&mut r, "A#", 229753, 233095, 236485);
        push_step(&mut r, "B", 243415, 246955, 250547);
        push_step(&mut r, "C", 257889, 261640, 265446);
        push_step(&mut r, "C#", 273224, 277198, 281230);
        push_step(&mut r, "D", 289471, 293681, 297953);
        push_step(&mut r, "D#", 306683, 311144, 315670);
        push_step(&mut r, "E", 324920, 329646, 334441);
        push_step(&mut r, "F", 344240, 349247, 354327);
        r
    }
}

} // verus!
