use jong_talk::assoc::Assoc;
use jong_talk::client::{
    answer_challenge, compose_message, game_data_event, is_off_for_me, is_own_message, join_frames,
    make_move, name_event, new_challenge, rps_event, user_click, ClickAction, EventState, OffList,
    RpsList, RpsModalType, RpsTimer,
};
use jong_talk::protocol::{Data, DataType, DataTypeKind, RPSType};
use std::sync::Arc;

fn s(t: &str) -> Arc<String> {
    Arc::new(t.to_string())
}

fn rps(from: &str, r: RPSType) -> Data {
    Data { token: Some(s(from)), type_kind: DataTypeKind::RPS, inform: DataType::RPS(r) }
}

fn users() -> Assoc<String, String> {
    let mut u = Assoc::new();
    u.insert("alice".to_string(), "Alice".to_string());
    u.insert("bob".to_string(), "Bob".to_string());
    u
}

#[test]
fn a_challenge_to_me_opens_the_prompt() {
    let u = users();
    let mut l = RpsList::new();
    let mut o = OffList::new();
    let me = "bob".to_string();
    let p = rps_event(&u, &mut l, &mut o, &me, &rps("alice", RPSType::Send(vec![1, 2, 3], s("bob"))));
    match p {
        Some(RpsModalType::Accept(id, name)) => {
            assert_eq!(id, vec![1, 2, 3]);
            assert_eq!(name, "Alice");
        }
        _ => panic!("expected the prompt"),
    }
    assert!(l.is_busy(&"alice".to_string()));
    assert!(l.is_busy(&"bob".to_string()));
    assert!(!l.is_busy(&"carol".to_string()));
    let p = rps_event(&u, &mut l, &mut o, &me, &rps("bob", RPSType::Game(vec![1, 2, 3])));
    assert!(matches!(p, Some(RpsModalType::Game(id)) if id == vec![1, 2, 3]));
    let p = rps_event(&u, &mut l, &mut o, &"carol".to_string(), &rps("x", RPSType::Game(vec![1, 2, 3])));
    assert!(p.is_none());
}

#[test]
fn a_refusal_drops_the_challenge() {
    let u = users();
    let mut l = RpsList::new();
    let mut o = OffList::new();
    let me = "carol".to_string();
    assert!(rps_event(&u, &mut l, &mut o, &me, &rps("alice", RPSType::Send(vec![1, 2, 3], s("bob")))).is_none());
    rps_event(&u, &mut l, &mut o, &me, &rps("bob", RPSType::Accept(vec![1, 2, 3], false)));
    assert!(!l.is_busy(&"alice".to_string()));
}

#[test]
fn a_result_gives_the_winner_a_right() {
    let u = users();
    let mut l = RpsList::new();
    let mut o = OffList::new();
    let me = "carol".to_string();
    rps_event(&u, &mut l, &mut o, &me, &rps("alice", RPSType::Send(vec![1, 2, 3], s("bob"))));
    rps_event(&u, &mut l, &mut o, &me, &Data {
        token: None,
        type_kind: DataTypeKind::RPS,
        inform: DataType::RPS(RPSType::Result(vec![1, 2, 3], [0, 2], s("alice"))),
    });
    assert!(o.may_switch_off(&"alice".to_string(), &"bob".to_string()));
    assert!(!o.may_switch_off(&"bob".to_string(), &"alice".to_string()));
}

#[test]
fn replayed_challenges_and_rights() {
    let mut l = RpsList::new();
    let mut o = OffList::new();
    game_data_event(&mut l, &mut o, &rps("alice", RPSType::Data(vec![4, 4, 4], s("bob"))));
    assert!(l.is_busy(&"bob".to_string()));
    game_data_event(&mut l, &mut o, &Data {
        token: Some(s("bob")),
        type_kind: DataTypeKind::OffData,
        inform: DataType::OffData(s("alice")),
    });
    assert!(o.may_switch_off(&"bob".to_string(), &"alice".to_string()));
}

#[test]
fn clicks_on_a_player() {
    let me = "me".to_string();
    let t = "you".to_string();
    assert!(matches!(user_click(EventState::RPS, false, &me, &t), ClickAction::Ignore));
    assert!(matches!(user_click(EventState::RPS, true, &me, &t), ClickAction::Prompt(RpsModalType::Send(x)) if x == "you"));
    match user_click(EventState::OFF, true, &me, &t) {
        ClickAction::Send(d) => {
            assert_eq!(d.type_kind, DataTypeKind::IsOff);
            assert!(matches!(&d.inform, DataType::IsOff(x) if x.as_str() == "you"));
        }
        _ => panic!("expected a request"),
    }
    assert_eq!(EventState::RPS.toggled(), EventState::OFF);
    assert_eq!(EventState::OFF.label(), "OFF");
}

#[test]
fn prompt_answers() {
    let me = "me".to_string();
    let d = answer_challenge(&me, &RpsModalType::Accept(vec![1, 2, 3], "A".to_string()), true);
    assert!(matches!(&d.inform, DataType::RPS(RPSType::Accept(id, true)) if *id == vec![1, 2, 3]));
    let d = make_move(&me, &RpsModalType::Game(vec![3, 2, 1]), 1);
    assert!(matches!(&d.inform, DataType::RPS(RPSType::Paper(id)) if *id == vec![3, 2, 1]));
    let d = make_move(&me, &RpsModalType::Idle, 3);
    assert!(matches!(&d.inform, DataType::RPS(RPSType::Fail(id)) if id.is_empty()));
    let d = new_challenge(&me, &RpsModalType::Send("you".to_string()));
    match &d.inform {
        DataType::RPS(RPSType::Send(id, t)) => {
            assert_eq!(id.len(), 3);
            assert!(id.iter().all(|b| *b >= 1));
            assert_eq!(t.as_str(), "you");
        }
        _ => panic!("expected a challenge"),
    }
}

#[test]
fn timers() {
    let now = std::time::Instant::now();
    assert!(!RpsTimer::Accept(now).expired(179));
    assert!(RpsTimer::Accept(now).expired(180));
    assert!(!RpsTimer::Game(now).expired(59));
    assert!(RpsTimer::Game(now).expired(60));
    assert!(!RpsTimer::Idle.expired(1000));
}

#[test]
fn chat_frames() {
    let me = "me".to_string();
    assert!(compose_message(&me, "  \t ").is_none());
    let d = compose_message(&me, "  hello \n").unwrap();
    assert!(matches!(&d.inform, DataType::Message(m) if m.as_str() == "hello"));
    assert!(is_own_message(&me, &d));
    assert!(!is_own_message(&"x".to_string(), &d));
    let off = Data { token: None, type_kind: DataTypeKind::Off, inform: DataType::Off(s("me")) };
    assert!(is_off_for_me(&me, &off));
    assert!(!is_off_for_me(&"x".to_string(), &off));
    let (t, n) = join_frames(&"tok".to_string(), &"Nm".to_string());
    assert_eq!(t.type_kind, DataTypeKind::Token);
    assert_eq!(n.type_kind, DataTypeKind::Name);
    let mut u = Assoc::new();
    name_event(&mut u, &Data { token: Some(s("tok")), type_kind: DataTypeKind::Name, inform: DataType::Name(s("Nm")) });
    assert_eq!(u.get(&"tok".to_string()), Some(&"Nm".to_string()));
}

#[test]
fn renaming() {
    assert_eq!(jong_talk::client::rename("  Kim  "), Some("Kim".to_string()));
    assert_eq!(jong_talk::client::rename(" \u{3000} "), None);
}
