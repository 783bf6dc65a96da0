use ytm_core::lyrics::{Attempt, Failure, Lyrics, LyricsQuery};
use ytm_core::search::{by_id, Ask, Collection, Lookup};

fn query(duration: Option<i64>) -> LyricsQuery {
    LyricsQuery {
        title: "Echo".into(),
        artist: "Crusher-P".into(),
        album: "Al".into(),
        duration: duration.map(|s| s * 1_000_000_000),
    }
}

fn record(id: u64, secs: i64, timed: bool) -> Lyrics {
    Lyrics {
        id,
        track_name: "Echo".into(),
        artist_name: "Crusher-P".into(),
        album_name: String::new(),
        duration: Some(secs * 1_000_000_000),
        instrumental: false,
        plain_lyrics: Some("words".into()),
        synced_lyrics: if timed { Some("[00:01.00]words".into()) } else { None },
    }
}

fn not_found() -> Failure {
    Failure { status: Some(404), message: "not found".into() }
}

fn down() -> Failure {
    Failure { status: None, message: "down".into() }
}

#[test]
fn a_missing_record_is_no_error() {
    assert!(matches!(by_id(Err(not_found())), Ok(None)));
    assert!(matches!(by_id(Err(down())), Err(e) if e == "down"));
    assert!(matches!(by_id(Ok(record(7, 1, true))), Ok(Some(t)) if t.id == 7));
}

#[test]
fn a_choice_by_hand_wins_outright() {
    let mut l = Lookup::start(query(Some(244)), Some(9));
    assert!(matches!(l.ask(), Ask::ById(9)));
    let out = l.take_record(Ok(record(9, 400, false)));
    assert!(matches!(out, Some(Ok(Some(t))) if t.id == 9));
    assert!(matches!(l.ask(), Ask::Nothing));
}

#[test]
fn a_choice_that_is_gone_falls_back_to_the_best_match() {
    let mut l = Lookup::start(query(Some(244)), Some(9));
    assert!(l.take_record(Err(not_found())).is_none());
    assert!(matches!(l.ask(), Ask::Exact));
    let out = l.take_record(Ok(record(3, 244, true)));
    assert!(matches!(out, Some(Ok(Some(t))) if t.id == 3));
}

#[test]
fn a_close_timed_hit_ends_the_search_at_once() {
    let mut l = Lookup::start(query(Some(244)), None);
    assert!(matches!(l.ask(), Ask::Exact));
    assert!(matches!(l.take_record(Ok(record(1, 246, true))), Some(Ok(Some(t))) if t.id == 1));
}

#[test]
fn without_a_length_the_ladder_is_climbed_at_once() {
    let l = Lookup::start(query(None), None);
    match l.ask() {
        Ask::Search(a) => assert_eq!(
            *a,
            Attempt::Meta {
                track: "Echo".into(),
                artist: "Crusher-P".into(),
                album: "Al".into()
            }
        ),
        _ => panic!("a search was expected"),
    }
}

/// Climbs the ladder with the same reply to every request.
fn climb(
    l: &mut Lookup,
    reply: impl Fn() -> Result<Vec<Lyrics>, String>,
) -> Result<Option<u64>, String> {
    for _ in 0..20 {
        if let Some(out) = l.take_search(reply()) {
            return out.map(|t| t.map(|t| t.id));
        }
    }
    panic!("the ladder has no end");
}

#[test]
fn an_untimed_hit_waits_for_a_timed_one() {
    let mut l = Lookup::start(query(Some(244)), None);
    assert!(l.take_record(Ok(record(1, 244, false))).is_none());
    assert!(l.take_search(Ok(vec![record(2, 244, false)])).is_none());
    let out = l.take_search(Ok(vec![record(3, 244, false), record(4, 245, true)]));
    assert!(matches!(out, Some(Ok(Some(t))) if t.id == 4));
}

#[test]
fn with_nothing_timed_the_exact_untimed_hit_stays() {
    let mut l = Lookup::start(query(Some(244)), None);
    l.take_record(Ok(record(1, 244, false)));
    assert_eq!(climb(&mut l, || Ok(vec![record(2, 244, false)])), Ok(Some(1)));
}

#[test]
fn a_loose_timed_hit_is_ranked_with_the_rest() {
    let mut l = Lookup::start(query(Some(244)), None);
    assert!(l.take_record(Ok(record(1, 248, true))).is_none());
    assert_eq!(climb(&mut l, || Ok(vec![record(2, 244, true)])), Ok(Some(2)));
}

#[test]
fn a_dead_network_is_an_error_and_nothing_found_is_not() {
    let mut l = Lookup::start(query(Some(244)), None);
    l.take_record(Err(down()));
    assert_eq!(climb(&mut l, || Err("down".into())), Err("down".into()));

    let mut l = Lookup::start(query(Some(244)), None);
    l.take_record(Err(not_found()));
    assert_eq!(climb(&mut l, || Ok(Vec::new())), Ok(None));
}

#[test]
fn a_failed_search_falls_back_to_the_exact_untimed_hit() {
    let mut l = Lookup::start(query(Some(244)), None);
    l.take_record(Ok(record(1, 244, false)));
    assert_eq!(climb(&mut l, || Err("down".into())), Ok(Some(1)));
}

#[test]
fn every_candidate_is_collected_once() {
    let mut c = Collection::start(query(Some(244)));
    let mut asked = 0;
    while c.ask().is_some() {
        asked += 1;
        c.take_search(Ok(vec![record(1, 244, false), record(asked + 1, 244, true)]));
    }
    let out = c.finish().unwrap();
    let mut ids: Vec<u64> = out.iter().map(|t| t.id).collect();
    assert_eq!(ids.last(), Some(&1), "the untimed record comes last");
    ids.sort();
    assert_eq!(ids, (1..=asked + 1).collect::<Vec<_>>());
}

#[test]
fn a_collection_fails_only_where_it_holds_nothing() {
    let mut c = Collection::start(query(None));
    while c.ask().is_some() {
        c.take_search(Err("down".into()));
    }
    assert_eq!(c.finish().err(), Some("down".to_string()));

    let mut c = Collection::start(query(None));
    c.take_search(Ok(vec![record(5, 1, true)]));
    while c.ask().is_some() {
        c.take_search(Err("down".into()));
    }
    assert_eq!(c.finish().unwrap().len(), 1);
}
