//! Search results and how partial result pages are combined. The backend
//! answers a term with a batch of items and, when more remain, a
//! continuation token; a follow-up page for the same term is appended to
//! what is already shown, while a page for a new term replaces it.

use vstd::prelude::*;
use crate::service::make_youtube_url;
use crate::text::parse_number_chars;
use crate::text::spec_parse_number;
use crate::text::str_to_chars;
use crate::wire::dec_digits;
use crate::wire::u64_to_string;

verus! {

/// One track in a search result list.
#[derive(Clone, PartialEq, Debug)]
pub struct SearchItem {
    pub name: String,
    pub id: String,
    pub youtube_id: String,
}

/// A search answer: a result page for a term, or a collapsed error.
#[derive(Clone, PartialEq, Debug)]
pub enum SearchResponse {
    Result { term: String, items: Vec<SearchItem>, continuation_token: Option<String> },
    Error,
}

impl SearchResponse {
    pub open spec fn spec_term(&self) -> Seq<char> {
        match self {
            SearchResponse::Result { term, .. } => term@,
            SearchResponse::Error => Seq::<char>::empty(),
        }
    }

    pub open spec fn spec_items(&self) -> Seq<SearchItem> {
        match self {
            SearchResponse::Result { items, .. } => items@,
            SearchResponse::Error => Seq::<SearchItem>::empty(),
        }
    }

    pub open spec fn spec_token(&self) -> Option<String> {
        match self {
            SearchResponse::Result { continuation_token, .. } => *continuation_token,
            SearchResponse::Error => None,
        }
    }

    /// Fold a newly arrived page into what is already shown: an error on
    /// the left wins, an error on the right keeps the left page, a page
    /// for the same term appends its items and takes the new token, and a
    /// page for a different term replaces the old one wholesale.
    pub fn combine(left: SearchResponse, right: SearchResponse) -> (r: SearchResponse)
        ensures
            left is Error ==> r is Error,
            left is Result && right is Error ==> r == left,
            left is Result && right is Result && left.spec_term() == right.spec_term() ==> {
                &&& r is Result
                &&& r.spec_term() == left.spec_term()
                &&& r.spec_items() == left.spec_items() + right.spec_items()
                &&& r.spec_token() == right.spec_token()
            },
            left is Result && right is Result && left.spec_term() != right.spec_term() ==> {
                &&& r is Result
                &&& r.spec_term() == right.spec_term()
                &&& r.spec_items() == right.spec_items()
                &&& r.spec_token() == right.spec_token()
            },
    {
        match (left, right) {
            (SearchResponse::Error, _) => SearchResponse::Error,
            (l, SearchResponse::Error) => l,
            (
                SearchResponse::Result { term: left_term, items: mut left_items, .. },
                SearchResponse::Result {
                    term: right_term,
                    items: mut right_items,
                    continuation_token: right_token,
                },
            ) => {
                if left_term == right_term {
                    left_items.append(&mut right_items);
                    SearchResponse::Result {
                        term: left_term,
                        items: left_items,
                        continuation_token: right_token,
                    }
                } else {
                    SearchResponse::Result {
                        term: right_term,
                        items: right_items,
                        continuation_token: right_token,
                    }
                }
            },
        }
    }
}

/// ASCII case folding, character by character; other characters stand as
/// they are.
pub open spec fn lower_char(c: char) -> char {
    if c == 'A' {
        'a'
    } else if c == 'B' {
        'b'
    } else if c == 'C' {
        'c'
    } else if c == 'D' {
        'd'
    } else if c == 'E' {
        'e'
    } else if c == 'F' {
        'f'
    } else if c == 'G' {
        'g'
    } else if c == 'H' {
        'h'
    } else if c == 'I' {
        'i'
    } else if c == 'J' {
        'j'
    } else if c == 'K' {
        'k'
    } else if c == 'L' {
        'l'
    } else if c == 'M' {
        'm'
    } else if c == 'N' {
        'n'
    } else if c == 'O' {
        'o'
    } else if c == 'P' {
        'p'
    } else if c == 'Q' {
        'q'
    } else if c == 'R' {
        'r'
    } else if c == 'S' {
        's'
    } else if c == 'T' {
        't'
    } else if c == 'U' {
        'u'
    } else if c == 'V' {
        'v'
    } else if c == 'W' {
        'w'
    } else if c == 'X' {
        'x'
    } else if c == 'Y' {
        'y'
    } else if c == 'Z' {
        'z'
    } else {
        c
    }
}

fn to_lower(c: char) -> (r: char)
    ensures
        r == lower_char(c),
{
    match c {
        'A' => 'a',
        'B' => 'b',
        'C' => 'c',
        'D' => 'd',
        'E' => 'e',
        'F' => 'f',
        'G' => 'g',
        'H' => 'h',
        'I' => 'i',
        'J' => 'j',
        'K' => 'k',
        'L' => 'l',
        'M' => 'm',
        'N' => 'n',
        'O' => 'o',
        'P' => 'p',
        'Q' => 'q',
        'R' => 'r',
        'S' => 's',
        'T' => 't',
        'U' => 'u',
        'V' => 'v',
        'W' => 'w',
        'X' => 'x',
        'Y' => 'y',
        'Z' => 'z',
        _ => c,
    }
}

/// The term occurs at offset `i` of the name, compared case-folded.
pub open spec fn matches_at(name: Seq<char>, term: Seq<char>, i: int) -> bool {
    forall|j: int| 0 <= j < term.len() ==> lower_char(name[i + j]) == lower_char(term[j])
}

/// The term occurs somewhere in the name, compared case-folded.
pub open spec fn name_matches(name: Seq<char>, term: Seq<char>) -> bool {
    exists|i: int| 0 <= i && i + term.len() <= name.len() && matches_at(name, term, i)
}

fn chars_match_at(name: &Vec<char>, term: &Vec<char>, i: usize) -> (r: bool)
    requires
        i + term@.len() <= name@.len(),
    ensures
        r == matches_at(name@, term@, i as int),
{
    let n = name.len();
    let mut j: usize = 0;
    while j < term.len()
        invariant
            j <= term@.len(),
            n == name@.len(),
            i + term@.len() <= n,
            forall|k: int| 0 <= k < j ==> lower_char(name@[i + k]) == lower_char(term@[k]),
        decreases term@.len() - j,
    {
        if to_lower(name[i + j]) != to_lower(term[j]) {
            assert(!matches_at(name@, term@, i as int)) by {
                assert(lower_char(name@[i + j]) != lower_char(term@[j as int]));
            }
            return false;
        }
        j = j + 1;
    }
    true
}

/// Case-folded substring search, as the catalog filter uses it.
fn name_contains(name: &Vec<char>, term: &Vec<char>) -> (r: bool)
    ensures
        r == name_matches(name@, term@),
{
    if term.len() > name.len() {
        return false;
    }
    let mut i: usize = 0;
    while i <= name.len() - term.len()
        invariant
            term@.len() <= name@.len(),
            i <= name@.len() - term@.len() + 1,
            forall|k: int| 0 <= k < i ==> !matches_at(name@, term@, k),
        decreases name@.len() - term@.len() + 1 - i,
    {
        if chars_match_at(name, term, i) {
            return true;
        }
        i = i + 1;
    }
    false
}

/// The plain content of one search item: name, identifier, video address.
pub open spec fn item_view(i: SearchItem) -> (Seq<char>, Seq<char>, Seq<char>) {
    (i.name@, i.id@, i.youtube_id@)
}

pub open spec fn item_views(s: Seq<SearchItem>) -> Seq<(Seq<char>, Seq<char>, Seq<char>)> {
    s.map_values(|i: SearchItem| item_view(i))
}

/// The catalog entries whose names contain the term, in catalog order.
pub open spec fn matching_views(items: Seq<SearchItem>, term: Seq<char>) -> Seq<
    (Seq<char>, Seq<char>, Seq<char>),
>
    decreases items.len(),
{
    if items.len() == 0 {
        Seq::<(Seq<char>, Seq<char>, Seq<char>)>::empty()
    } else {
        matching_views(items.drop_last(), term) + (if name_matches(items.last().name@, term) {
            seq![item_view(items.last())]
        } else {
            Seq::<(Seq<char>, Seq<char>, Seq<char>)>::empty()
        })
    }
}

/// One result page: what remains of the matches after `skip`, at most
/// three entries of it.
pub open spec fn result_page(m: Seq<(Seq<char>, Seq<char>, Seq<char>)>, skip: int) -> Seq<
    (Seq<char>, Seq<char>, Seq<char>),
> {
    if 0 <= skip <= m.len() {
        if m.len() - skip > 3 {
            m.skip(skip).take(3)
        } else {
            m.skip(skip)
        }
    } else {
        Seq::<(Seq<char>, Seq<char>, Seq<char>)>::empty()
    }
}

/// How far into the matches a continuation token points.
pub open spec fn spec_skip_count(tok: Option<&String>) -> int {
    match tok {
        None => 0,
        Some(t) => spec_parse_number(t@, (usize::MAX - 3) as int)->0,
    }
}


/// The name of catalog entry `k`.
pub open spec fn catalog_name(k: int) -> Seq<char> {
    if k == 0 {
        "Jimi Hendrix - Foxey Lady"@
    } else if k == 1 {
        "Queen - Bohemian Rhapsody"@
    } else if k == 2 {
        "Guns N' Roses - Welcome To The Jungle"@
    } else if k == 3 {
        "Guns N' Roses - Knockin' On Heaven's Door"@
    } else if k == 4 {
        "AC/DC - Highway to Hell"@
    } else if k == 5 {
        "Michael Jackson - Beat It"@
    } else if k == 6 {
        "Daft Punk - Get Lucky"@
    } else if k == 7 {
        "Scorpions - Wind Of Change"@
    } else if k == 8 {
        "The Cranberries - Zombie"@
    } else if k == 9 {
        "The Police - Every Breath You Take"@
    } else if k == 10 {
        "Dire Straits - Sultans Of Swing"@
    } else if k == 11 {
        "Led Zeppelin - Stairway To Heaven"@
    } else if k == 12 {
        "Metallica - Nothing Else Matters"@
    } else if k == 13 {
        "Black Sabbath - Paranoid"@
    } else if k == 14 {
        "Ozzy Osbourne - Crazy Train"@
    } else {
        "Lynyrd Skynyrd - Sweet Home Alabama"@
    }
}

/// The video code of catalog entry `k`.
pub open spec fn catalog_code(k: int) -> Seq<char> {
    if k == 0 {
        "vsI15ei76bg"@
    } else if k == 1 {
        "fJ9rUzIMcZQ"@
    } else if k == 2 {
        "o1tj2zJ2Wvg"@
    } else if k == 3 {
        "0BRUDmTxdmA"@
    } else if k == 4 {
        "l482T0yNkeo"@
    } else if k == 5 {
        "oRdxUFDoQe0"@
    } else if k == 6 {
        "5NV6Rdv1a3I"@
    } else if k == 7 {
        "n4RjJKxsamQ"@
    } else if k == 8 {
        "6Ejga4kJUts"@
    } else if k == 9 {
        "OMOGaugKpzs"@
    } else if k == 10 {
        "0fAQhSRLQnM"@
    } else if k == 11 {
        "D9ioyEvdggk"@
    } else if k == 12 {
        "tAGnKpE4NCI"@
    } else if k == 13 {
        "uk_wUT1CvWM"@
    } else if k == 14 {
        "vy1V5LHXWbg"@
    } else {
        "ye5BuYf8q4o"@
    }
}

/// The first `upto` catalog entries hold exactly the fixed catalog: the
/// song's name, its position written in decimal, and the embed address of
/// its video code.
pub open spec fn catalog_prefix_ok(s: Seq<SearchItem>, upto: int) -> bool {
    &&& s.len() == upto
    &&& forall|k: int|
        0 <= k < s.len() ==> (#[trigger] s[k]).name@ == catalog_name(k) && s[k].id@
            == dec_digits(k) && s[k].youtube_id@ == "https://www.youtube.com/embed/"@
            + catalog_code(k) + "?autoplay=1&loop=1"@
}

/// The built-in demo catalog: sixteen songs, identified by their position.
pub struct StubSearchService {
    items: Vec<SearchItem>,
}

/// Append one catalog entry; its identifier is its position written in
/// decimal, and its address is the embed form of the video code.
fn push_song(items: &mut Vec<SearchItem>, name: &str, code: &str)
    requires
        catalog_prefix_ok(old(items)@, old(items)@.len() as int),
        name@ == catalog_name(old(items)@.len() as int),
        code@ == catalog_code(old(items)@.len() as int),
    ensures
        final(items)@.len() == old(items)@.len() + 1,
        catalog_prefix_ok(final(items)@, old(items)@.len() as int + 1),
{
    let ghost prev = items@;
    let id = u64_to_string(items.len() as u64);
    items.push(
        SearchItem { name: String::from_str(name), id, youtube_id: make_youtube_url(code) },
    );
    proof {
        assert(forall|k: int| 0 <= k < prev.len() ==> items@[k] == prev[k]);
    }
}

impl StubSearchService {
    pub closed spec fn spec_catalog(&self) -> Seq<SearchItem> {
        self.items@
    }

    /// The demo catalog, in a fixed order; each entry's identifier is its
    /// position written in decimal.
    pub fn new() -> (s: StubSearchService)
        ensures
            catalog_prefix_ok(s.spec_catalog(), 16),
    {
        let mut items: Vec<SearchItem> = Vec::new();
        push_song(&mut items, "Jimi Hendrix - Foxey Lady", "vsI15ei76bg");
        push_song(&mut items, "Queen - Bohemian Rhapsody", "fJ9rUzIMcZQ");
        push_song(&mut items, "Guns N' Roses - Welcome To The Jungle", "o1tj2zJ2Wvg");
        push_song(&mut items, "Guns N' Roses - Knockin' On Heaven's Door", "0BRUDmTxdmA");
        push_song(&mut items, "AC/DC - Highway to Hell", "l482T0yNkeo");
        push_song(&mut items, "Michael Jackson - Beat It", "oRdxUFDoQe0");
        push_song(&mut items, "Daft Punk - Get Lucky", "5NV6Rdv1a3I");
        push_song(&mut items, "Scorpions - Wind Of Change", "n4RjJKxsamQ");
        push_song(&mut items, "The Cranberries - Zombie", "6Ejga4kJUts");
        push_song(&mut items, "The Police - Every Breath You Take", "OMOGaugKpzs");
        push_song(&mut items, "Dire Straits - Sultans Of Swing", "0fAQhSRLQnM");
        push_song(&mut items, "Led Zeppelin - Stairway To Heaven", "D9ioyEvdggk");
        push_song(&mut items, "Metallica - Nothing Else Matters", "tAGnKpE4NCI");
        push_song(&mut items, "Black Sabbath - Paranoid", "uk_wUT1CvWM");
        push_song(&mut items, "Ozzy Osbourne - Crazy Train", "vy1V5LHXWbg");
        push_song(&mut items, "Lynyrd Skynyrd - Sweet Home Alabama", "ye5BuYf8q4o");
        StubSearchService { items }
    }

    /// Answer a term with the next page of matching songs: skip as many
    /// matches as the continuation token says, return at most three, and
    /// hand back a new token exactly when more remain. The token must be
    /// a number the stub itself issued.
    pub fn search(&self, term: &str, continuation_token: Option<&String>) -> (r: SearchResponse)
        requires
            match continuation_token {
                None => true,
                Some(t) => spec_parse_number(t@, (usize::MAX - 3) as int) is Some,
            },
        ensures
            r is Result,
            r.spec_term() == term@,
            ({
                let m = matching_views(self.spec_catalog(), term@);
                let skip = spec_skip_count(continuation_token);
                &&& item_views(r.spec_items()) == result_page(m, skip)
                &&& if m.len() > skip + 3 {
                    r.spec_token() matches Some(tk) && tk@ == dec_digits(skip + 3)
                } else {
                    r.spec_token() is None
                }
            }),
    {
        let term_chars = str_to_chars(term);
        let skip: usize = match continuation_token {
            None => 0,
            Some(t) => {
                let tc = str_to_chars(t.as_str());
                match parse_number_chars(&tc, (usize::MAX - 3) as u64) {
                    Some(v) => v as usize,
                    None => {
                        proof {
                            assert(false);
                        }
                        0
                    },
                }
            },
        };
        let ghost m_full = matching_views(self.items@, term@);
        let mut out: Vec<SearchItem> = Vec::new();
        let mut count: usize = 0;
        let mut i: usize = 0;
        while i < self.items.len()
            invariant
                i <= self.items@.len(),
                count == matching_views(self.items@.take(i as int), term@).len(),
                count <= i,
                term_chars@ == term@,
                skip <= usize::MAX - 3,
                skip == spec_skip_count(continuation_token),
                item_views(out@) == result_page(
                    matching_views(self.items@.take(i as int), term@),
                    skip as int,
                ),
                out@.len() <= 3,
            decreases self.items@.len() - i,
        {
            let ghost m_pref = matching_views(self.items@.take(i as int), term@);
            proof {
                assert(self.items@.take(i + 1).drop_last() =~= self.items@.take(i as int));
                assert(self.items@.take(i + 1).last() == self.items@[i as int]);
            }
            let item = &self.items[i];
            let name_chars = str_to_chars(item.name.as_str());
            if name_contains(&name_chars, &term_chars) {
                let ghost m_next = matching_views(self.items@.take(i + 1), term@);
                proof {
                    assert(m_next =~= m_pref.push(item_view(self.items@[i as int])));
                }
                if count >= skip && out.len() < 3 {
                    let ghost prev_out = out@;
                    out.push(
                        SearchItem {
                            name: item.name.clone(),
                            id: item.id.clone(),
                            youtube_id: item.youtube_id.clone(),
                        },
                    );
                    proof {
                        assert(item_views(out@) =~= item_views(prev_out).push(
                            item_view(self.items@[i as int]),
                        ));
                        assert(item_views(out@) =~= result_page(m_next, skip as int));
                    }
                } else {
                    proof {
                        assert(item_views(out@) =~= result_page(m_next, skip as int));
                    }
                }
                count = count + 1;
            } else {
                proof {
                    assert(matching_views(self.items@.take(i + 1), term@) =~= m_pref
                        + Seq::<(Seq<char>, Seq<char>, Seq<char>)>::empty());
                    assert(matching_views(self.items@.take(i + 1), term@) =~= m_pref);
                }
            }
            i = i + 1;
        }
        proof {
            assert(self.items@.take(self.items@.len() as int) =~= self.items@);
        }
        let continuation = if count > skip + 3 {
            Some(u64_to_string((skip + 3) as u64))
        } else {
            None
        };
        SearchResponse::Result {
            term: String::from_str(term),
            items: out,
            continuation_token: continuation,
        }
    }
}

impl Default for StubSearchService {
    /// The same catalog as `new`.
    fn default() -> (s: StubSearchService)
        ensures
            catalog_prefix_ok(s.spec_catalog(), 16),
    {
        StubSearchService::new()
    }
}

} // verus!
