use crate::protocol::none_text;
use vstd::prelude::*;

verus! {

/// The choice bytes of a game: rock, paper, scissors, and a forfeit.
pub const ROCK: u8 = 0;
pub const PAPER: u8 = 1;
pub const SCISSOR: u8 = 2;
pub const FORFEIT: u8 = 3;

/// Whether choice `a` beats choice `b` by the rules: rock blunts scissors, paper
/// wraps rock, scissors cut paper.
pub open spec fn beats(a: u8, b: u8) -> bool {
    ||| (a == ROCK && b == SCISSOR)
    ||| (a == PAPER && b == ROCK)
    ||| (a == SCISSOR && b == PAPER)
}

/// The token of the winner of a game between `t0` choosing `c0` and `t1`
/// choosing `c1`, or "None" for a draw. Equal choices draw; a forfeit loses to
/// anything else; otherwise the rules decide, and a pair they do not order goes
/// to the second player.
pub open spec fn game_winner(t0: Seq<char>, t1: Seq<char>, c0: u8, c1: u8) -> Seq<char> {
    if c0 == c1 {
        none_text()
    } else if c0 == FORFEIT {
        t1
    } else if c1 == FORFEIT {
        t0
    } else if beats(c0, c1) {
        t0
    } else {
        t1
    }
}

/// Decides a game: the token of the winner, or "None" for a draw.
pub fn game_result(tokens: (String, String), choices: (u8, u8)) -> (r: String)
    ensures
        r@ == game_winner(tokens.0@, tokens.1@, choices.0, choices.1),
{
    if choices.0 == choices.1 {
        let none = "None".to_owned();
        proof {
            reveal_strlit("None");
        }
        assert(none@ =~= none_text());
        none
    } else if choices.0 == FORFEIT {
        tokens.1
    } else if choices.1 == FORFEIT {
        tokens.0
    } else if (choices.0 == ROCK && choices.1 == SCISSOR) || (choices.0 == PAPER && choices.1
        == ROCK) || (choices.0 == SCISSOR && choices.1 == PAPER) {
        tokens.0
    } else {
        tokens.1
    }
}

/// The name shown for a choice byte.
pub open spec fn choice_name(choice: u8) -> Seq<char> {
    if choice == ROCK {
        seq!['R', 'o', 'c', 'k']
    } else if choice == PAPER {
        seq!['P', 'a', 'p', 'e', 'r']
    } else if choice == SCISSOR {
        seq!['S', 'c', 'i', 's', 's', 'o', 'r']
    } else if choice == FORFEIT {
        seq!['F', 'o', 'r', 'f', 'e', 'i', 't']
    } else {
        seq!['E', 'r', 'r']
    }
}

/// The name shown for a choice byte.
pub fn choice_to_string(choice: u8) -> (s: String)
    ensures
        s@ == choice_name(choice),
{
    match choice {
        0 => {
            let s = "Rock".to_owned();
            proof {
                reveal_strlit("Rock");
            }
            assert(s@ =~= choice_name(choice));
            s
        },
        1 => {
            let s = "Paper".to_owned();
            proof {
                reveal_strlit("Paper");
            }
            assert(s@ =~= choice_name(choice));
            s
        },
        2 => {
            let s = "Scissor".to_owned();
            proof {
                reveal_strlit("Scissor");
            }
            assert(s@ =~= choice_name(choice));
            s
        },
        3 => {
            let s = "Forfeit".to_owned();
            proof {
                reveal_strlit("Forfeit");
            }
            assert(s@ =~= choice_name(choice));
            s
        },
        _ => {
            let s = "Err".to_owned();
            proof {
                reveal_strlit("Err");
            }
            assert(s@ =~= choice_name(choice));
            s
        },
    }
}

/// The result names one of the two players, or reports a draw.
pub proof fn lemma_winner_is_a_player(t0: Seq<char>, t1: Seq<char>, c0: u8, c1: u8)
    ensures
        game_winner(t0, t1, c0, c1) == t0 || game_winner(t0, t1, c0, c1) == t1
            || game_winner(t0, t1, c0, c1) == none_text(),
{
}

/// A game is a draw exactly when both players made the same choice (for players
/// whose tokens are not the text "None").
pub proof fn lemma_draw_iff_same_choice(t0: Seq<char>, t1: Seq<char>, c0: u8, c1: u8)
    requires
        t0 != none_text(),
        t1 != none_text(),
    ensures
        (game_winner(t0, t1, c0, c1) == none_text()) <==> (c0 == c1),
{
}

/// Swapping the two players swaps nothing in the outcome, for the four choices
/// that the game offers.
pub proof fn lemma_winner_symmetric(t0: Seq<char>, t1: Seq<char>, c0: u8, c1: u8)
    requires
        c0 <= FORFEIT,
        c1 <= FORFEIT,
    ensures
        game_winner(t0, t1, c0, c1) == game_winner(t1, t0, c1, c0),
{
}

/// Between two different choices of rock, paper and scissors exactly one beats
/// the other.
pub proof fn lemma_beats_total_antisymmetric(a: u8, b: u8)
    requires
        a <= SCISSOR,
        b <= SCISSOR,
        a != b,
    ensures
        beats(a, b) != beats(b, a),
{
}

/// A forfeit loses to every other choice and wins against none.
pub proof fn lemma_forfeit_loses(t0: Seq<char>, t1: Seq<char>, c: u8)
    requires
        c != FORFEIT,
    ensures
        game_winner(t0, t1, FORFEIT, c) == t1,
        game_winner(t0, t1, c, FORFEIT) == t0,
{
}

/// Between two different choices of rock, paper and scissors the rules alone
/// decide, whatever the players' tokens: rock blunts scissors, paper wraps rock,
/// scissors cut paper; the player with the winning choice wins.
pub proof fn lemma_rules_decide(t0: Seq<char>, t1: Seq<char>)
    ensures
        game_winner(t0, t1, ROCK, SCISSOR) == t0,
        game_winner(t0, t1, SCISSOR, ROCK) == t1,
        game_winner(t0, t1, PAPER, ROCK) == t0,
        game_winner(t0, t1, ROCK, PAPER) == t1,
        game_winner(t0, t1, SCISSOR, PAPER) == t0,
        game_winner(t0, t1, PAPER, SCISSOR) == t1,
{
}

/// The winner by the rules: the first player when its choice beats the other's,
/// the second player when the other's choice beats it.
pub proof fn lemma_beating_choice_wins(t0: Seq<char>, t1: Seq<char>, c0: u8, c1: u8)
    ensures
        beats(c0, c1) ==> game_winner(t0, t1, c0, c1) == t0,
        beats(c1, c0) ==> game_winner(t0, t1, c0, c1) == t1,
{
}

} // verus!
