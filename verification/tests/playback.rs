use ytm_core::deck::{Deck, Order, MAX_LOOKAHEAD};
use ytm_core::playback::{
    is_load_failure, resolved_url, watch_url, Action, Cmd, Engine, PlayerEvent, Purpose,
    MAX_PREFETCH,
};

fn id(s: &str) -> String {
    s.to_string()
}

/// The address of the only thing that is loaded.
fn loaded(actions: Vec<Action>) -> String {
    assert_eq!(actions.len(), 1);
    match actions.into_iter().next().unwrap() {
        Action::Load(url) => url,
        _ => panic!("nothing was loaded"),
    }
}

#[test]
fn a_song_waits_for_its_address() {
    let mut e = Engine::new();
    let a = e.on_command(Cmd::Play(id("a")));
    assert!(matches!(&a[..], [Action::Resolve { id, purpose: Purpose::Resolve }] if id == "a"));
    assert!(e.state().loading);
    assert_eq!(loaded(e.on_resolved(id("a"), Some(id("http://a")))), "http://a");
    // Known now: no lookup.
    assert_eq!(loaded(e.on_command(Cmd::Play(id("a")))), "http://a");
}

#[test]
fn a_song_without_an_address_plays_from_its_page() {
    let mut e = Engine::new();
    e.on_command(Cmd::Play(id("a")));
    assert_eq!(
        loaded(e.on_resolved(id("a"), None)),
        "https://music.youtube.com/watch?v=a"
    );
    assert_eq!(watch_url("a"), "https://music.youtube.com/watch?v=a");
}

#[test]
fn a_late_answer_starts_nothing() {
    let mut e = Engine::new();
    e.on_command(Cmd::Play(id("a")));
    e.on_command(Cmd::Play(id("b")));
    assert!(e.on_resolved(id("a"), Some(id("http://a"))).is_empty());
    assert!(matches!(e.on_command(Cmd::Stop)[..], [Action::Halt]));
    assert!(e.on_resolved(id("b"), Some(id("http://b"))).is_empty());
}

#[test]
fn a_load_that_fails_is_tried_once_more() {
    let mut e = Engine::new();
    e.on_command(Cmd::Play(id("a")));
    e.on_resolved(id("a"), Some(id("http://old")));
    let a = e.on_event(PlayerEvent::Failed(-13));
    assert!(matches!(&a[..], [Action::Resolve { purpose: Purpose::ReResolve, .. }]));
    assert_eq!(loaded(e.on_resolved(id("a"), Some(id("http://new")))), "http://new");
    assert!(e.on_event(PlayerEvent::Failed(-17)).is_empty());
    assert_eq!(e.state().error.as_deref(), Some("playback failed"));
    assert!(!e.state().loading);
    assert!(is_load_failure(-16));
    assert!(!is_load_failure(-10));
}

#[test]
fn lookups_ahead_of_time_are_limited() {
    let mut e = Engine::new();
    for i in 0..MAX_PREFETCH {
        assert_eq!(e.on_command(Cmd::Prefetch(i.to_string())).len(), 1);
    }
    assert!(e.on_command(Cmd::Prefetch(id("x"))).is_empty());
    e.on_resolved(id("0"), None);
    assert_eq!(e.on_command(Cmd::Prefetch(id("x"))).len(), 1);
    assert!(e.on_command(Cmd::Prefetch(id("x"))).is_empty());
}

#[test]
fn commands_are_handed_on() {
    let mut e = Engine::new();
    assert!(matches!(e.on_command(Cmd::Pause)[..], [Action::SetPause(true)]));
    assert!(matches!(e.on_command(Cmd::Resume)[..], [Action::SetPause(false)]));
    assert!(matches!(e.on_command(Cmd::Seek(-5))[..], [Action::SeekRelative(-5)]));
    assert!(matches!(e.on_command(Cmd::SeekAbs(7))[..], [Action::SeekAbsolute(7)]));
    assert!(matches!(e.on_command(Cmd::Volume(30))[..], [Action::SetVolume(30)]));
}

#[test]
fn reports_show_in_the_state() {
    let mut e = Engine::new();
    e.on_event(PlayerEvent::StartFile);
    assert!(e.state().loading);
    e.on_event(PlayerEvent::Duration(9));
    e.on_event(PlayerEvent::TimePos(4));
    e.on_event(PlayerEvent::Pause(true));
    assert_eq!((e.state().total, e.state().elapsed, e.state().paused), (9, 4, true));
    assert!(!e.state().loading);
    e.on_event(PlayerEvent::EofReached(true));
    e.on_event(PlayerEvent::EofReached(false));
    assert!(e.take_song_ended());
    assert!(!e.take_song_ended());
    e.report_error(id("no"));
    assert_eq!(e.state().error.as_deref(), Some("no"));
}

#[test]
fn the_first_line_printed_is_the_address() {
    assert_eq!(resolved_url(" https://x/y\nhttps://z\n").as_deref(), Some("https://x/y"));
    assert_eq!(resolved_url("ERROR: no"), None);
    assert_eq!(resolved_url("\n"), None);
}

fn loads(orders: &[Order]) -> Vec<&str> {
    orders
        .iter()
        .filter_map(|o| match o {
            Order::Load(url) => Some(url.as_str()),
            _ => None,
        })
        .collect()
}

#[test]
fn a_deck_starts_from_the_page_and_switches_over() {
    let mut d = Deck::new();
    let o = d.on_command(Cmd::Play(id("a")));
    assert!(matches!(&o[0], Order::Resolve(x) if x == "a"));
    assert_eq!(loads(&o), ["https://music.youtube.com/watch?v=a"]);
    let o = d.on_resolved(id("a"), Some(id("http://a")));
    assert_eq!(loads(&o), ["http://a"]);
    let o = d.on_command(Cmd::Play(id("a")));
    assert_eq!(loads(&o), ["http://a"]);
}

#[test]
fn a_deck_does_not_reload_what_plays() {
    let mut d = Deck::new();
    d.on_command(Cmd::Play(id("a")));
    d.on_event(PlayerEvent::Duration(9));
    assert!(d.on_resolved(id("a"), Some(id("http://a"))).is_empty());
    d.on_event(PlayerEvent::EofReached(true));
    assert!(d.take_song_ended());
    assert_eq!(d.state().total, 9);
}

#[test]
fn a_deck_looks_a_little_ahead() {
    let mut d = Deck::new();
    for i in 0..MAX_LOOKAHEAD {
        assert_eq!(d.on_command(Cmd::Prefetch(i.to_string())).len(), 1);
    }
    assert!(d.on_command(Cmd::Prefetch(id("x"))).is_empty());
    assert!(matches!(d.on_command(Cmd::Stop)[..], [Order::Halt]));
}
