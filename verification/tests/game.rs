use jong_talk::game::{choice_to_string, game_result, FORFEIT, PAPER, ROCK, SCISSOR};

fn play(c0: u8, c1: u8) -> String {
    game_result(("a".to_string(), "b".to_string()), (c0, c1))
}

#[test]
fn rules_of_the_game() {
    assert_eq!(play(ROCK, SCISSOR), "a");
    assert_eq!(play(PAPER, ROCK), "a");
    assert_eq!(play(SCISSOR, PAPER), "a");
    assert_eq!(play(SCISSOR, ROCK), "b");
    assert_eq!(play(ROCK, PAPER), "b");
    assert_eq!(play(PAPER, SCISSOR), "b");
}

#[test]
fn draws_and_forfeits() {
    for c in 0..=3u8 {
        assert_eq!(play(c, c), "None");
    }
    for c in 0..3u8 {
        assert_eq!(play(FORFEIT, c), "b");
        assert_eq!(play(c, FORFEIT), "a");
    }
}

#[test]
fn swapping_players_keeps_the_winner() {
    for c0 in 0..=3u8 {
        for c1 in 0..=3u8 {
            let w = game_result(("a".to_string(), "b".to_string()), (c0, c1));
            let v = game_result(("b".to_string(), "a".to_string()), (c1, c0));
            assert_eq!(w, v);
        }
    }
}

#[test]
fn unknown_choices_go_to_the_second_player() {
    assert_eq!(play(7, ROCK), "b");
}

#[test]
fn choice_names() {
    assert_eq!(choice_to_string(0), "Rock");
    assert_eq!(choice_to_string(1), "Paper");
    assert_eq!(choice_to_string(2), "Scissor");
    assert_eq!(choice_to_string(3), "Forfeit");
    assert_eq!(choice_to_string(9), "Err");
}
