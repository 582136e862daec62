use jong_talk::identity::{new_identity, random_game_id};
use jong_talk::ui::{back_target, host_port, talk_visible, track_screen, Font, MainState, ModalState};

#[test]
fn fonts() {
    assert_eq!(Font::Bold.get(), "Paperlogy-7Bold.ttf");
    assert_eq!(Font::Medium.get(), "Paperlogy-5Medium.ttf");
}

#[test]
fn screen_tracking() {
    let (last, seen) = track_screen(None, None, MainState::MainHome);
    assert_eq!((last, seen), (None, Some(MainState::MainHome)));
    let (last, seen) = track_screen(last, seen, MainState::Host);
    assert_eq!((last, seen), (Some(MainState::MainHome), Some(MainState::Host)));
    let (last2, seen2) = track_screen(last, seen, MainState::Host);
    assert_eq!((last2, seen2), (last, seen));
    assert_eq!(back_target(None), MainState::MainHome);
    assert_eq!(back_target(Some(MainState::Join)), MainState::Join);
    assert!(talk_visible(MainState::Hidden));
    assert!(!talk_visible(MainState::Setting));
    assert_eq!(ModalState::Display.on_escape(), (ModalState::Hidden, true));
    assert_eq!(ModalState::Hidden.on_escape(), (ModalState::Display, false));
}

#[test]
fn ports() {
    assert_eq!(host_port("8080", 0), 8080);
    assert_eq!(host_port("+70000", 0), 70000 % 65536);
    assert_eq!(host_port("4294967296", 65537), 1);
    assert_eq!(host_port("-1", 131075), 3);
    assert_eq!(host_port("", 65536), 0);
}

#[test]
fn identities() {
    let (t, n) = new_identity();
    assert_eq!(t.chars().count(), 12);
    assert_eq!(n.chars().count(), 5);
    assert!(t.chars().all(|c| c.is_ascii_alphanumeric()));
    assert!(n.chars().all(|c| c.is_ascii_alphanumeric()));
    let id = random_game_id();
    assert_eq!(id.len(), 3);
    assert!(id.iter().all(|b| *b >= 1));
}
