use jong_talk::protocol::{Data, DataType, DataTypeKind, FrameError, RPSType};
use std::sync::Arc;

fn s(t: &str) -> Arc<String> {
    Arc::new(t.to_string())
}

fn text_of(d: &DataType) -> Option<String> {
    match d {
        DataType::Token(t)
        | DataType::Name(t)
        | DataType::Message(t)
        | DataType::Off(t)
        | DataType::IsOff(t)
        | DataType::OffData(t) => Some(t.to_string()),
        _ => None,
    }
}

#[test]
fn kind_codes_round_trip() {
    let kinds = [
        DataTypeKind::Token,
        DataTypeKind::Name,
        DataTypeKind::Remove,
        DataTypeKind::Message,
        DataTypeKind::Image,
        DataTypeKind::RPS,
        DataTypeKind::Off,
        DataTypeKind::IsOff,
        DataTypeKind::OffData,
    ];
    let codes = [1u8, 2, 3, 101, 102, 103, 104, 105, 106];
    for (k, c) in kinds.iter().zip(codes.iter()) {
        assert_eq!(k.code(), *c);
        assert_eq!(DataTypeKind::from_u8(*c), Some(*k));
    }
    assert_eq!(DataTypeKind::from_u8(0), None);
    assert_eq!(DataTypeKind::from_u8(4), None);
    assert_eq!(DataTypeKind::from_u8(255), None);
}

#[test]
fn change_bytes_of_texts_and_empty_kinds() {
    assert_eq!(DataType::Message(s("hi 한")).change_bytes(), "hi 한".as_bytes().to_vec());
    assert_eq!(DataType::Remove.change_bytes(), vec![0u8]);
    assert_eq!(DataType::Image.change_bytes(), vec![0u8]);
}

#[test]
fn change_bytes_of_game_messages() {
    let id = vec![7u8, 8, 9];
    assert_eq!(
        DataType::RPS(RPSType::Send(id.clone(), s("tok"))).change_bytes(),
        vec![1, 7, 8, 9, b't', b'o', b'k']
    );
    assert_eq!(DataType::RPS(RPSType::Accept(id.clone(), true)).change_bytes(), vec![2, 7, 8, 9, 1]);
    assert_eq!(DataType::RPS(RPSType::Accept(id.clone(), false)).change_bytes(), vec![2, 7, 8, 9, 0]);
    assert_eq!(DataType::RPS(RPSType::Rock(id.clone())).change_bytes(), vec![3, 7, 8, 9]);
    assert_eq!(DataType::RPS(RPSType::Paper(id.clone())).change_bytes(), vec![4, 7, 8, 9]);
    assert_eq!(DataType::RPS(RPSType::Scissor(id.clone())).change_bytes(), vec![5, 7, 8, 9]);
    assert_eq!(DataType::RPS(RPSType::Game(id.clone())).change_bytes(), vec![6, 7, 8, 9]);
    assert_eq!(DataType::RPS(RPSType::Fail(id.clone())).change_bytes(), vec![7, 7, 8, 9]);
    assert_eq!(
        DataType::RPS(RPSType::Result(id.clone(), [0, 2], s("w"))).change_bytes(),
        vec![8, 7, 8, 9, 0, 2, b'w']
    );
    assert_eq!(
        DataType::RPS(RPSType::Data(id.clone(), s("z"))).change_bytes(),
        vec![9, 7, 8, 9, b'z']
    );
}

#[test]
fn from_bytes_trims_and_reads_lossily() {
    let d = DataType::from_bytes(DataTypeKind::Name, b"  bob \n");
    assert_eq!(text_of(&d), Some("bob".to_string()));
    let d = DataType::from_bytes(DataTypeKind::Message, &[b'a', 0xff, b'b']);
    assert_eq!(text_of(&d), Some("a\u{FFFD}b".to_string()));
    assert!(matches!(DataType::from_bytes(DataTypeKind::Remove, &[]), DataType::Remove));
    assert!(matches!(DataType::from_bytes(DataTypeKind::Image, &[1, 2]), DataType::Image));
}

#[test]
fn from_bytes_reads_game_messages() {
    match DataType::from_bytes(DataTypeKind::RPS, &[8, 1, 2, 3, 0, 2, b' ', b'w', b' ']) {
        DataType::RPS(RPSType::Result(id, c, w)) => {
            assert_eq!(id, vec![1, 2, 3]);
            assert_eq!(c, [0, 2]);
            assert_eq!(w.as_str(), "w");
        }
        _ => panic!("not a result"),
    }
    match DataType::from_bytes(DataTypeKind::RPS, &[2, 1, 2, 3, 5]) {
        DataType::RPS(RPSType::Accept(id, a)) => {
            assert_eq!(id, vec![1, 2, 3]);
            assert!(!a);
        }
        _ => panic!("not an answer"),
    }
    match DataType::from_bytes(DataTypeKind::RPS, &[42, 1, 2, 3]) {
        DataType::RPS(RPSType::Rock(id)) => assert_eq!(id, vec![0]),
        _ => panic!("unknown tags read as rock"),
    }
}

#[test]
fn decodable_guards_short_game_payloads() {
    assert!(!DataType::decodable(DataTypeKind::RPS, &[3, 1, 2]));
    assert!(DataType::decodable(DataTypeKind::RPS, &[3, 1, 2, 3]));
    assert!(!DataType::decodable(DataTypeKind::RPS, &[2, 1, 2, 3]));
    assert!(!DataType::decodable(DataTypeKind::RPS, &[8, 1, 2, 3, 0]));
    assert!(DataType::decodable(DataTypeKind::Name, &[]));
}

#[test]
fn frame_layout() {
    let d = Data { token: None, type_kind: DataTypeKind::Name, inform: DataType::Name(s("ab")) };
    assert_eq!(d.frame(), vec![2, 0, 0, 0, 4, b'N', b'o', b'n', b'e', 0, 0, 0, 2, b'a', b'b']);
}

#[test]
fn frame_round_trip_with_trailing_bytes() {
    let d = Data {
        token: Some(s("tok12")),
        type_kind: DataTypeKind::RPS,
        inform: DataType::RPS(RPSType::Result(vec![9, 8, 7], [1, 0], s("tok12"))),
    };
    let mut buf = d.frame();
    let len = buf.len();
    buf.extend_from_slice(&[1, 2, 3]);
    match Data::decode_frame(&buf) {
        Ok((n, back)) => {
            assert_eq!(n, len);
            assert_eq!(back.token.as_deref().map(|t| t.as_str()), Some("tok12"));
            assert_eq!(back.type_kind, DataTypeKind::RPS);
            match back.inform {
                DataType::RPS(RPSType::Result(id, c, w)) => {
                    assert_eq!(id, vec![9, 8, 7]);
                    assert_eq!(c, [1, 0]);
                    assert_eq!(w.as_str(), "tok12");
                }
                _ => panic!("content changed"),
            }
        }
        Err(e) => panic!("{:?}", e),
    }
}

#[test]
fn none_token_reads_back_as_absent() {
    let d = Data { token: None, type_kind: DataTypeKind::Remove, inform: DataType::Remove };
    let (_, back) = Data::decode_frame(&d.frame()).unwrap();
    assert!(back.token.is_none());
    assert!(matches!(back.inform, DataType::Remove));
}

#[test]
fn frame_errors() {
    assert_eq!(Data::decode_frame(&[]).err(), Some(FrameError::Truncated));
    assert_eq!(Data::decode_frame(&[200, 0, 0, 0, 0]).err(), Some(FrameError::UnknownKind));
    assert_eq!(Data::decode_frame(&[1, 0, 0]).err(), Some(FrameError::Truncated));
    assert_eq!(Data::decode_frame(&[1, 0, 0, 0, 5, b'a']).err(), Some(FrameError::Truncated));
    assert_eq!(
        Data::decode_frame(&[103, 0, 0, 0, 0, 0, 0, 0, 2, 3, 1]).err(),
        Some(FrameError::Malformed)
    );
}
