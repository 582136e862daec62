use jong_talk::assoc::Assoc;
use jong_talk::client::{game_data_event, name_event, OffList, RpsList};
use jong_talk::protocol::{Data, DataType, DataTypeKind, RPSType};
use jong_talk::server::{farewell, greeting_name, greeting_token, ServerState};
use std::sync::Arc;

fn s(t: &str) -> Arc<String> {
    Arc::new(t.to_string())
}

fn rps(from: &str, r: RPSType) -> Data {
    Data { token: Some(s(from)), type_kind: DataTypeKind::RPS, inform: DataType::RPS(r) }
}

fn id() -> Vec<u8> {
    vec![5, 6, 7]
}

fn start_game(st: &mut ServerState) {
    let me = "me".to_string();
    let (out, _) = st.handle(&me, &rps("alice", RPSType::Send(id(), s("bob"))));
    assert!(out.is_empty());
    let (out, _) = st.handle(&me, &rps("bob", RPSType::Accept(id(), true)));
    assert_eq!(out.len(), 1);
    assert!(matches!(&out[0].inform, DataType::RPS(RPSType::Game(g)) if *g == id()));
}

#[test]
fn a_game_is_settled_by_the_second_move() {
    let mut st = ServerState::new();
    let me = "me".to_string();
    start_game(&mut st);
    let (out, stop) = st.handle(&me, &rps("alice", RPSType::Rock(id())));
    assert!(out.is_empty());
    assert!(!stop);
    let (out, _) = st.handle(&me, &rps("bob", RPSType::Scissor(id())));
    assert_eq!(out.len(), 2);
    match &out[0].inform {
        DataType::RPS(RPSType::Result(g, c, w)) => {
            assert_eq!(*g, id());
            assert_eq!(*c, [0, 2]);
            assert_eq!(w.as_str(), "alice");
        }
        _ => panic!("expected a result"),
    }
    assert_eq!(out[1].token.as_deref().map(|t| t.as_str()), Some("alice"));
    assert!(matches!(&out[1].inform, DataType::OffData(l) if l.as_str() == "bob"));
    assert!(st.rps_games.get(&id()).is_none());
    assert!(st.rps_list.get(&id()).is_none());
    assert_eq!(st.off_list.get(&"alice".to_string()).unwrap(), &vec!["bob".to_string()]);
}

#[test]
fn a_draw_gives_no_right() {
    let mut st = ServerState::new();
    let me = "me".to_string();
    start_game(&mut st);
    st.handle(&me, &rps("alice", RPSType::Paper(id())));
    let (out, _) = st.handle(&me, &rps("bob", RPSType::Paper(id())));
    assert_eq!(out.len(), 1);
    assert!(matches!(&out[0].inform, DataType::RPS(RPSType::Result(_, _, w)) if w.as_str() == "None"));
    assert!(st.off_list.get(&"alice".to_string()).is_none());
}

#[test]
fn a_refused_challenge_is_dropped() {
    let mut st = ServerState::new();
    let me = "me".to_string();
    st.handle(&me, &rps("alice", RPSType::Send(id(), s("bob"))));
    assert!(st.rps_list.get(&id()).is_some());
    let (out, _) = st.handle(&me, &rps("bob", RPSType::Accept(id(), false)));
    assert!(out.is_empty());
    assert!(st.rps_list.get(&id()).is_none());
}

#[test]
fn a_right_is_used_once() {
    let mut st = ServerState::new();
    let me = "me".to_string();
    start_game(&mut st);
    st.handle(&me, &rps("alice", RPSType::Fail(id())));
    st.handle(&me, &rps("bob", RPSType::Rock(id())));
    let ask = Data { token: Some(s("bob")), type_kind: DataTypeKind::IsOff, inform: DataType::IsOff(s("alice")) };
    let (out, _) = st.handle(&me, &ask);
    assert_eq!(out.len(), 1);
    assert!(out[0].token.is_none());
    assert!(matches!(&out[0].inform, DataType::Off(t) if t.as_str() == "alice"));
    let (out, _) = st.handle(&me, &ask);
    assert!(out.is_empty());
    assert_eq!(st.off_list.get(&"bob".to_string()).unwrap().len(), 0);
}

#[test]
fn own_remove_ends_the_connection() {
    let mut st = ServerState::new();
    let (_, room) = st.welcome("me".to_string(), "Me".to_string());
    assert_eq!(room.len(), 1);
    let (out, stop) = st.handle(&"me".to_string(), &farewell(&"me".to_string()));
    assert!(stop);
    assert!(out.is_empty());
    assert!(st.users.get(&"me".to_string()).is_none());
    let (_, stop) = st.handle(&"me".to_string(), &farewell(&"other".to_string()));
    assert!(!stop);
}

#[test]
fn welcome_replays_the_room() {
    let mut st = ServerState::new();
    let me = "me".to_string();
    st.welcome("alice".to_string(), "Alice".to_string());
    st.welcome("bob".to_string(), "Bob".to_string());
    st.handle(&me, &rps("alice", RPSType::Send(id(), s("bob"))));
    let (direct, room) = st.welcome("carol".to_string(), "Carol".to_string());
    assert_eq!(direct.len(), 2);
    assert!(matches!(&direct[0].inform, DataType::Name(n) if n.as_str() == "Alice"));
    assert!(matches!(&direct[1].inform, DataType::Name(n) if n.as_str() == "Bob"));
    assert_eq!(room.len(), 2);
    assert!(matches!(&room[0].inform, DataType::Name(n) if n.as_str() == "Carol"));
    assert_eq!(room[1].token.as_deref().map(|t| t.as_str()), Some("alice"));
    assert!(matches!(&room[1].inform, DataType::RPS(RPSType::Data(g, t)) if *g == id() && t.as_str() == "bob"));
}

#[test]
fn a_stranger_move_that_settles_faults() {
    let mut st = ServerState::new();
    let me = "me".to_string();
    start_game(&mut st);
    st.handle(&me, &rps("alice", RPSType::Rock(id())));
    let stranger = rps("carol", RPSType::Rock(id()));
    assert!(st.faults(&me, &stranger));
    assert!(!st.faults(&me, &rps("bob", RPSType::Rock(id()))));
}

#[test]
fn greetings() {
    let t = Data { token: None, type_kind: DataTypeKind::Token, inform: DataType::Token(s("abc")) };
    assert_eq!(greeting_token(&t), Some("abc".to_string()));
    let odd = Data { token: None, type_kind: DataTypeKind::Token, inform: DataType::Remove };
    assert_eq!(greeting_token(&odd), Some(String::new()));
    assert_eq!(greeting_name(&t), None);
    let n = Data { token: None, type_kind: DataTypeKind::Name, inform: DataType::Name(s("Al")) };
    assert_eq!(greeting_name(&n), Some("Al".to_string()));
}

#[test]
fn newcomer_learns_the_room() {
    let mut st = ServerState::new();
    let me = "me".to_string();
    st.welcome("alice".to_string(), "Alice".to_string());
    st.welcome("bob".to_string(), "Bob".to_string());
    start_game(&mut st);
    st.handle(&me, &rps("alice", RPSType::Rock(id())));
    st.handle(&me, &rps("bob", RPSType::Scissor(id())));
    st.handle(&me, &rps("alice", RPSType::Send(vec![1, 1, 1], s("bob"))));
    let (direct, room) = st.welcome("carol".to_string(), "Carol".to_string());
    let mut names = Assoc::new();
    for d in &direct {
        name_event(&mut names, d);
    }
    assert_eq!(names.get(&"alice".to_string()), Some(&"Alice".to_string()));
    assert_eq!(names.get(&"bob".to_string()), Some(&"Bob".to_string()));
    let mut l = RpsList::new();
    let mut o = OffList::new();
    for d in &room {
        game_data_event(&mut l, &mut o, d);
    }
    assert!(l.is_busy(&"alice".to_string()));
    assert!(l.is_busy(&"bob".to_string()));
    assert!(o.may_switch_off(&"alice".to_string(), &"bob".to_string()));
}
