use rustmith::search::SearchItem;
use rustmith::search::SearchResponse;
use rustmith::search::StubSearchService;
use rustmith::service::make_youtube_url;
use rustmith::service::ApiError;
use rustmith::text::ParseError;

fn item(name: &str) -> SearchItem {
    SearchItem { name: name.to_string(), id: "1".to_string(), youtube_id: "x".to_string() }
}

fn page(term: &str, names: &[&str], token: Option<&str>) -> SearchResponse {
    SearchResponse::Result {
        term: term.to_string(),
        items: names.iter().map(|n| item(n)).collect(),
        continuation_token: token.map(|t| t.to_string()),
    }
}

fn names(r: &SearchResponse) -> Vec<String> {
    match r {
        SearchResponse::Result { items, .. } => items.iter().map(|i| i.name.clone()).collect(),
        SearchResponse::Error => panic!("expected a result"),
    }
}

#[test]
fn combine_appends_a_page_for_the_same_term() {
    let combined = SearchResponse::combine(
        page("zep", &["a", "b"], Some("2")),
        page("zep", &["c"], None),
    );
    assert_eq!(vec!["a", "b", "c"], names(&combined));
    match &combined {
        SearchResponse::Result { term, continuation_token, .. } => {
            assert_eq!("zep", term);
            assert_eq!(&None, continuation_token);
        },
        SearchResponse::Error => panic!("expected a result"),
    }
}

#[test]
fn combine_replaces_the_page_for_a_new_term() {
    let combined = SearchResponse::combine(
        page("zep", &["a", "b"], None),
        page("floyd", &["c"], Some("3")),
    );
    assert_eq!(vec!["c"], names(&combined));
}

#[test]
fn combine_keeps_the_left_page_on_a_right_error() {
    let combined = SearchResponse::combine(page("zep", &["a"], None), SearchResponse::Error);
    assert_eq!(vec!["a"], names(&combined));
}

#[test]
fn combine_collapses_to_error_on_a_left_error() {
    let combined = SearchResponse::combine(SearchResponse::Error, page("zep", &["a"], None));
    assert!(matches!(combined, SearchResponse::Error));
}

#[test]
fn youtube_url_embeds_the_video_id() {
    assert_eq!(
        "https://www.youtube.com/embed/vsI15ei76bg?autoplay=1&loop=1",
        make_youtube_url("vsI15ei76bg")
    );
}

#[test]
fn parse_errors_surface_as_invalid_format() {
    assert_eq!(ApiError::InvalidFormatError, ApiError::from(ParseError::InvalidFormat));
}

#[test]
fn stub_search_filters_case_insensitively() {
    let stub = StubSearchService::new();
    let r = stub.search("GUNS", None);
    assert_eq!(
        vec!["Guns N' Roses - Welcome To The Jungle", "Guns N' Roses - Knockin' On Heaven's Door"],
        names(&r)
    );
    match &r {
        SearchResponse::Result { term, continuation_token, .. } => {
            assert_eq!("GUNS", term);
            assert_eq!(&None, continuation_token);
        },
        SearchResponse::Error => panic!("expected a result"),
    }
}

#[test]
fn stub_search_answers_an_unmatched_term_with_an_empty_page() {
    let stub = StubSearchService::new();
    assert_eq!(Vec::<String>::new(), names(&stub.search("zzz", None)));
}

#[test]
fn stub_search_pages_through_matches_with_continuation_tokens() {
    let stub = StubSearchService::new();
    let first = stub.search("he", None);
    assert_eq!(
        vec!["Jimi Hendrix - Foxey Lady", "Queen - Bohemian Rhapsody",
             "Guns N' Roses - Welcome To The Jungle"],
        names(&first)
    );
    let token = match &first {
        SearchResponse::Result { continuation_token, .. } => continuation_token.clone().unwrap(),
        SearchResponse::Error => panic!("expected a result"),
    };
    assert_eq!("3", token);
    let second = stub.search("he", Some(&token));
    assert_eq!(
        vec!["Guns N' Roses - Knockin' On Heaven's Door", "AC/DC - Highway to Hell",
             "The Cranberries - Zombie"],
        names(&second)
    );
    let token = match &second {
        SearchResponse::Result { continuation_token, .. } => continuation_token.clone().unwrap(),
        SearchResponse::Error => panic!("expected a result"),
    };
    assert_eq!("6", token);
    let third = stub.search("he", Some(&token));
    assert_eq!(
        vec!["The Police - Every Breath You Take", "Led Zeppelin - Stairway To Heaven"],
        names(&third)
    );
    match &third {
        SearchResponse::Result { continuation_token, .. } => {
            assert_eq!(&None, continuation_token)
        },
        SearchResponse::Error => panic!("expected a result"),
    }
}

#[test]
fn stub_catalog_identifies_songs_by_position() {
    let stub = StubSearchService::default();
    let r = stub.search("Paranoid", None);
    match &r {
        SearchResponse::Result { items, .. } => {
            assert_eq!(1, items.len());
            assert_eq!("13", items[0].id);
            assert_eq!("https://www.youtube.com/embed/uk_wUT1CvWM?autoplay=1&loop=1", items[0].youtube_id);
        },
        SearchResponse::Error => panic!("expected a result"),
    }
}
