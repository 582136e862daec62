use crate::assoc::Assoc;
use crate::bytes::copy_range;
use crate::game::{game_result, game_winner, FORFEIT, PAPER, ROCK, SCISSOR};
use crate::protocol::{
    none_text, opt_text, owned_text, share, CopyStr, Data, DataType, DataTypeKind, RPSType, SpecData,
    SpecDataType, SpecRps,
};
use vstd::prelude::*;

verus! {

/// The values of a list of frames.
pub open spec fn views(v: Seq<Data>) -> Seq<SpecData> {
    v.map_values(|d: Data| d@)
}

/// What the server keeps about the room.
pub struct SpecServer {
    /// The name of each connected token.
    pub users: Map<Seq<char>, Seq<char>>,
    /// Each pending challenge, by game id: the challenger and the challenged.
    pub rps_list: Map<Seq<u8>, (Seq<char>, Seq<char>)>,
    /// Each running game, by game id: the choices made so far, by token.
    pub rps_games: Map<Seq<u8>, Map<Seq<char>, u8>>,
    /// For each winner, the players whose computer it may switch off, one entry per win.
    pub off_list: Map<Seq<char>, Seq<Seq<char>>>,
}

/// The server's state, shared by the connections.
pub struct ServerState {
    pub users: Assoc<String, String>,
    pub rps_list: Assoc<Vec<u8>, (String, String)>,
    pub rps_games: Assoc<Vec<u8>, Assoc<String, u8>>,
    pub off_list: Assoc<String, Vec<String>>,
}

impl View for ServerState {
    type V = SpecServer;

    open spec fn view(&self) -> SpecServer {
        SpecServer {
            users: self.users@,
            rps_list: self.rps_list@,
            rps_games: self.rps_games@,
            off_list: self.off_list@,
        }
    }
}

/// The list of a winner in the switch-off table (empty when absent).
pub open spec fn off_entry(off: Map<Seq<char>, Seq<Seq<char>>>, t: Seq<char>) -> Seq<Seq<char>> {
    if off.contains_key(t) {
        off[t]
    } else {
        seq![]
    }
}

/// `s` without the first occurrence of `x`.
pub open spec fn remove_first<T>(s: Seq<T>, x: T) -> Seq<T>
    decreases s.len(),
{
    if s.len() == 0 {
        s
    } else if s[0] == x {
        s.drop_first()
    } else {
        seq![s[0]] + remove_first(s.drop_first(), x)
    }
}

/// Removing the entry at the first index that holds `x` removes the first `x`.
proof fn lemma_remove_first<T>(s: Seq<T>, x: T, i: int)
    requires
        0 <= i < s.len(),
        s[i] == x,
        forall|j: int| 0 <= j < i ==> s[j] != x,
    ensures
        s.remove(i) == remove_first(s, x),
    decreases i,
{
    if i == 0 {
        assert(s.remove(0) =~= s.drop_first());
    } else {
        lemma_remove_first(s.drop_first(), x, i - 1);
        assert(s.remove(i) =~= seq![s[0]] + s.drop_first().remove(i - 1));
    }
}

/// The frame that tells everyone to switch off the computer of `t`.
pub open spec fn off_notice(t: Seq<char>) -> SpecData {
    SpecData { token: None, type_kind: DataTypeKind::Off, inform: SpecDataType::Off(t) }
}

/// The frame that starts a game.
pub open spec fn game_notice(id: Seq<u8>) -> SpecData {
    SpecData {
        token: None,
        type_kind: DataTypeKind::RPS,
        inform: SpecDataType::RPS(SpecRps::Game(id)),
    }
}

/// The frame that reports a game's choices and winner.
pub open spec fn result_notice(id: Seq<u8>, c0: u8, c1: u8, w: Seq<char>) -> SpecData {
    SpecData {
        token: None,
        type_kind: DataTypeKind::RPS,
        inform: SpecDataType::RPS(SpecRps::Result(id, seq![c0, c1], w)),
    }
}

/// The frame that records that `w` may switch off the computer of `l`.
pub open spec fn loss_notice(w: Seq<char>, l: Seq<char>) -> SpecData {
    SpecData { token: Some(w), type_kind: DataTypeKind::OffData, inform: SpecDataType::OffData(l) }
}

/// The frame that announces the name of a token.
pub open spec fn name_notice(t: Seq<char>, n: Seq<char>) -> SpecData {
    SpecData { token: Some(t), type_kind: DataTypeKind::Name, inform: SpecDataType::Name(n) }
}

/// The frame that replays a pending challenge.
pub open spec fn challenge_notice(id: Seq<u8>, from: Seq<char>, to: Seq<char>) -> SpecData {
    SpecData {
        token: Some(from),
        type_kind: DataTypeKind::RPS,
        inform: SpecDataType::RPS(SpecRps::Data(id, to)),
    }
}

/// The frame that says a token left.
pub open spec fn leave_notice(t: Seq<char>) -> SpecData {
    SpecData { token: Some(t), type_kind: DataTypeKind::Remove, inform: SpecDataType::Remove }
}

/// A request to switch off a computer: honoured, and the right used up, when the
/// sender holds a right against that player. The sender's entry is created either way.
pub open spec fn is_off_step(s: SpecServer, d: SpecData) -> (SpecServer, Seq<SpecData>) {
    match d.token {
        Some(send) => match d.inform {
            SpecDataType::IsOff(t) => {
                let list = off_entry(s.off_list, send);
                if list.contains(t) {
                    (
                        SpecServer { off_list: s.off_list.insert(send, remove_first(list, t)), ..s },
                        seq![off_notice(t)],
                    )
                } else {
                    (SpecServer { off_list: s.off_list.insert(send, list), ..s }, seq![])
                }
            },
            _ => (s, seq![]),
        },
        None => (s, seq![]),
    }
}

/// The game id and choice byte of a move.
pub open spec fn choice_of(r: SpecRps) -> Option<(Seq<u8>, u8)> {
    match r {
        SpecRps::Rock(id) => Some((id, ROCK)),
        SpecRps::Paper(id) => Some((id, PAPER)),
        SpecRps::Scissor(id) => Some((id, SCISSOR)),
        SpecRps::Fail(id) => Some((id, FORFEIT)),
        _ => None,
    }
}

/// The games after `t` chose `c` in game `id` (no change for an unknown game).
pub open spec fn record_choice(
    games: Map<Seq<u8>, Map<Seq<char>, u8>>,
    id: Seq<u8>,
    t: Seq<char>,
    c: u8,
) -> Map<Seq<u8>, Map<Seq<char>, u8>> {
    if games.contains_key(id) {
        games.insert(id, games[id].insert(t, c))
    } else {
        games
    }
}

/// The switch-off table and frames after a game won by `w` between `t0` and `t1`:
/// the winner gains a right against the first of the two players who is not the winner.
pub open spec fn settle_offs(
    off: Map<Seq<char>, Seq<Seq<char>>>,
    t0: Seq<char>,
    t1: Seq<char>,
    w: Seq<char>,
) -> (Map<Seq<char>, Seq<Seq<char>>>, Seq<SpecData>) {
    if w == none_text() {
        (off, seq![])
    } else if t0 != w {
        (off.insert(w, off_entry(off, w).push(t0)), seq![loss_notice(w, t0)])
    } else if t1 != w {
        (off.insert(w, off_entry(off, w).push(t1)), seq![loss_notice(w, t1)])
    } else {
        (off, seq![])
    }
}

/// A move by `token` in game `id`. Once the game holds two choices it is
/// settled: the result is announced (when the challenge is known), the winner
/// gains a right, and the game and the challenge are dropped.
pub open spec fn choice_step(s: SpecServer, token: Option<Seq<char>>, id: Seq<u8>, c: u8) -> (
    SpecServer,
    Seq<SpecData>,
) {
    match token {
        None => (s, seq![]),
        Some(t) => {
            let games = record_choice(s.rps_games, id, t, c);
            if games.contains_key(id) && games[id].len() == 2 {
                if s.rps_list.contains_key(id) {
                    let t0 = s.rps_list[id].0;
                    let t1 = s.rps_list[id].1;
                    let c0 = games[id][t0];
                    let c1 = games[id][t1];
                    let w = game_winner(t0, t1, c0, c1);
                    let settled = settle_offs(s.off_list, t0, t1, w);
                    (
                        SpecServer {
                            users: s.users,
                            rps_list: s.rps_list.remove(id),
                            rps_games: games.remove(id),
                            off_list: settled.0,
                        },
                        seq![result_notice(id, c0, c1, w)] + settled.1,
                    )
                } else {
                    (SpecServer { rps_games: games.remove(id), ..s }, seq![])
                }
            } else {
                (SpecServer { rps_games: games, ..s }, seq![])
            }
        },
    }
}

/// A settled game whose two choices do not belong to the two players of its
/// challenge: the server has no choice for one of them to judge by.
pub open spec fn choice_faults(s: SpecServer, token: Option<Seq<char>>, id: Seq<u8>, c: u8) -> bool {
    match token {
        None => false,
        Some(t) => {
            let games = record_choice(s.rps_games, id, t, c);
            &&& games.contains_key(id)
            &&& games[id].len() == 2
            &&& s.rps_list.contains_key(id)
            &&& !(games[id].contains_key(s.rps_list[id].0) && games[id].contains_key(
                s.rps_list[id].1,
            ))
        },
    }
}

/// A game message: a challenge is recorded, a refusal drops it, an acceptance
/// starts the game, and a move is taken.
pub open spec fn rps_step(s: SpecServer, d: SpecData) -> (SpecServer, Seq<SpecData>) {
    match d.inform {
        SpecDataType::RPS(r) => match r {
            SpecRps::Send(id, t) => match d.token {
                Some(send) => (SpecServer { rps_list: s.rps_list.insert(id, (send, t)), ..s }, seq![]),
                None => (s, seq![]),
            },
            SpecRps::Accept(id, a) => if a {
                (
                    SpecServer { rps_games: s.rps_games.insert(id, Map::empty()), ..s },
                    seq![game_notice(id)],
                )
            } else {
                (SpecServer { rps_list: s.rps_list.remove(id), ..s }, seq![])
            },
            SpecRps::Rock(id) => choice_step(s, d.token, id, ROCK),
            SpecRps::Paper(id) => choice_step(s, d.token, id, PAPER),
            SpecRps::Scissor(id) => choice_step(s, d.token, id, SCISSOR),
            SpecRps::Fail(id) => choice_step(s, d.token, id, FORFEIT),
            _ => (s, seq![]),
        },
        _ => (s, seq![]),
    }
}

/// What a connection of the token `me` does with a frame that went out to the
/// room: the new state, the frames it sends to the room, and whether the
/// connection ends. A `Remove` of its own token ends it and drops the user.
pub open spec fn server_step(s: SpecServer, me: Seq<char>, d: SpecData) -> (
    SpecServer,
    Seq<SpecData>,
    bool,
) {
    if d.type_kind == DataTypeKind::Remove && d.token == Some(me) {
        (SpecServer { users: s.users.remove(me), ..s }, seq![], true)
    } else {
        let a = if d.type_kind == DataTypeKind::IsOff {
            is_off_step(s, d)
        } else {
            (s, seq![])
        };
        let b = if d.type_kind == DataTypeKind::RPS {
            rps_step(a.0, d)
        } else {
            (a.0, seq![])
        };
        (b.0, a.1 + b.1, false)
    }
}

/// The frames on which a connection cannot go on: a move that settles a game
/// whose choices do not belong to its two players.
pub open spec fn step_faults(s: SpecServer, me: Seq<char>, d: SpecData) -> bool {
    &&& !(d.type_kind == DataTypeKind::Remove && d.token == Some(me))
    &&& d.type_kind == DataTypeKind::RPS
    &&& match d.inform {
        SpecDataType::RPS(r) => match choice_of(r) {
            Some(m) => choice_faults(s, d.token, m.0, m.1),
            None => false,
        },
        _ => false,
    }
}

/// The value of a byte vector as a key is its contents.
pub proof fn lemma_bytes_key(v: &Vec<u8>)
    ensures
        v.deep_view() == v@,
{
    assert(v.deep_view() =~= v@);
}

/// The token a connection learns from its first frames: a `Token` frame ends
/// the wait, with its text (or the empty text if the content is not a token);
/// any other frame is skipped.
pub open spec fn token_greeting(d: SpecData) -> Option<Seq<char>> {
    if d.type_kind == DataTypeKind::Token {
        match d.inform {
            SpecDataType::Token(t) => Some(t),
            _ => Some(seq![]),
        }
    } else {
        None
    }
}

/// The name a connection learns after the token, in the same way.
pub open spec fn name_greeting(d: SpecData) -> Option<Seq<char>> {
    if d.type_kind == DataTypeKind::Name {
        match d.inform {
            SpecDataType::Name(t) => Some(t),
            _ => Some(seq![]),
        }
    } else {
        None
    }
}

/// The frames that tell a newcomer who is in the room.
pub open spec fn roster(users: Seq<(Seq<char>, Seq<char>)>) -> Seq<SpecData> {
    users.map_values(|p: (Seq<char>, Seq<char>)| name_notice(p.0, p.1))
}

/// The frames that replay the pending challenges.
pub open spec fn challenge_replay(list: Seq<(Seq<u8>, (Seq<char>, Seq<char>))>) -> Seq<SpecData> {
    list.map_values(|e: (Seq<u8>, (Seq<char>, Seq<char>))| challenge_notice(e.0, e.1.0, e.1.1))
}

/// The frames that replay one winner's rights.
pub open spec fn rights_replay(w: Seq<char>, losers: Seq<Seq<char>>) -> Seq<SpecData> {
    losers.map_values(|l: Seq<char>| loss_notice(w, l))
}

/// The frames that replay the whole switch-off table, winner by winner.
pub open spec fn off_replay(off: Seq<(Seq<char>, Seq<Seq<char>>)>) -> Seq<SpecData>
    decreases off.len(),
{
    if off.len() == 0 {
        seq![]
    } else {
        off_replay(off.drop_last()) + rights_replay(off.last().0, off.last().1)
    }
}

/// Reads the token from a frame that opens a connection.
pub fn greeting_token(data: &Data) -> (r: Option<String>)
    ensures
        match r {
            Some(t) => token_greeting(data@) == Some(t@),
            None => token_greeting(data@) is None,
        },
{
    if data.type_kind == DataTypeKind::Token {
        match &data.inform {
            DataType::Token(t) => Some(owned_text(t)),
            _ => Some(String::new()),
        }
    } else {
        None
    }
}

/// Reads the name from the frame that follows the token.
pub fn greeting_name(data: &Data) -> (r: Option<String>)
    ensures
        match r {
            Some(t) => name_greeting(data@) == Some(t@),
            None => name_greeting(data@) is None,
        },
{
    if data.type_kind == DataTypeKind::Name {
        match &data.inform {
            DataType::Name(t) => Some(owned_text(t)),
            _ => Some(String::new()),
        }
    } else {
        None
    }
}

/// The frame that tells the room a token has left.
pub fn farewell(token: &String) -> (d: Data)
    ensures
        d@ == leave_notice(token@),
{
    Data { token: Some(share(token.clone())), type_kind: DataTypeKind::Remove, inform: DataType::Remove }
}

/// A copy of a game id.
fn copy_id(id: &Vec<u8>) -> (r: Vec<u8>)
    ensures
        r@ == id@,
        r.deep_view() == id@,
        id.deep_view() == id@,
{
    let r = copy_range(id.as_slice(), 0, id.len());
    proof {
        lemma_bytes_key(&r);
        lemma_bytes_key(id);
    }
    r
}

/// Appends `loser` to the list of `w`.
pub fn push_off(off: &mut Assoc<String, Vec<String>>, w: String, loser: String)
    ensures
        final(off)@ == old(off)@.insert(w@, off_entry(old(off)@, w@).push(loser@)),
{
    let mut list = match off.remove(&w) {
        Some(l) => l,
        None => {
            let l: Vec<String> = Vec::new();
            assert(l.deep_view() =~= Seq::<Seq<char>>::empty());
            l
        },
    };
    let ghost before = list.deep_view();
    let ghost lv = loser@;
    list.push(loser);
    assert(list.deep_view() =~= before.push(lv));
    off.insert(w, list);
    assert(final(off)@ =~= old(off)@.insert(w@, off_entry(old(off)@, w@).push(lv)));
}

impl ServerState {
    /// A room with nobody in it.
    pub fn new() -> (s: Self)
        ensures
            s@.users == Map::<Seq<char>, Seq<char>>::empty(),
            s@.rps_list == Map::<Seq<u8>, (Seq<char>, Seq<char>)>::empty(),
            s@.rps_games == Map::<Seq<u8>, Map<Seq<char>, u8>>::empty(),
            s@.off_list == Map::<Seq<char>, Seq<Seq<char>>>::empty(),
    {
        ServerState {
            users: Assoc::new(),
            rps_list: Assoc::new(),
            rps_games: Assoc::new(),
            off_list: Assoc::new(),
        }
    }

    /// Handles a request to switch off a computer.
    fn is_off(&mut self, data: &Data, out: &mut Vec<Data>)
        ensures
            final(self)@ == is_off_step(old(self)@, data@).0,
            views(final(out)@) == views(old(out)@) + is_off_step(old(self)@, data@).1,
    {
        let ghost s0 = self@;
        if let Some(send) = &data.token {
            if let DataType::IsOff(tok) = &data.inform {
                let send_s = owned_text(send);
                let tok_s = owned_text(tok);
                let mut list = match self.off_list.remove(&send_s) {
                    Some(l) => l,
                    None => {
                        let l: Vec<String> = Vec::new();
                        assert(l.deep_view() =~= Seq::<Seq<char>>::empty());
                        l
                    },
                };
                let ghost lv = list.deep_view();
                assert(lv == off_entry(s0.off_list, send@));
                let mut i: usize = 0;
                let mut found = false;
                while i < list.len()
                    invariant_except_break
                        !found,
                    invariant
                        i <= list@.len(),
                        list.deep_view() == lv,
                        forall|j: int| 0 <= j < i ==> lv[j] != tok_s@,
                    ensures
                        i <= list@.len(),
                        forall|j: int| 0 <= j < i ==> lv[j] != tok_s@,
                        found ==> i < list@.len() && lv[i as int] == tok_s@,
                        !found ==> i == list@.len(),
                    decreases list@.len() - i,
                {
                    if list[i] == tok_s {
                        found = true;
                        break;
                    }
                    i = i + 1;
                }
                if found {
                    proof {
                        lemma_remove_first(lv, tok_s@, i as int);
                    }
                    list.remove(i);
                    assert(list.deep_view() =~= lv.remove(i as int));
                    self.off_list.insert(send_s, list);
                    let notice = Data {
                        token: None,
                        type_kind: DataTypeKind::Off,
                        inform: DataType::Off(share(tok_s)),
                    };
                    let ghost o = out@;
                    out.push(notice);
                    assert(views(out@) =~= views(o) + is_off_step(s0, data@).1);
                } else {
                    assert(!lv.contains(tok_s@));
                    self.off_list.insert(send_s, list);
                    assert(views(out@) =~= views(old(out)@) + is_off_step(s0, data@).1);
                }
                assert(self@.off_list =~= is_off_step(s0, data@).0.off_list);
                return;
            }
        }
        assert(views(out@) =~= views(old(out)@) + is_off_step(s0, data@).1);
    }

    /// Takes a move by `token` in game `id`.
    fn take_choice(&mut self, token: &Option<CopyStr>, id: &Vec<u8>, c: u8, out: &mut Vec<Data>)
        requires
            !choice_faults(old(self)@, opt_text(*token), id@, c),
        ensures
            final(self)@ == choice_step(old(self)@, opt_text(*token), id@, c).0,
            views(final(out)@) == views(old(out)@) + choice_step(
                old(self)@,
                opt_text(*token),
                id@,
                c,
            ).1,
    {
        let ghost s0 = self@;
        let ghost o0 = out@;
        match token {
            None => {
                assert(views(out@) =~= views(o0) + choice_step(s0, opt_text(*token), id@, c).1);
            },
            Some(t) => {
                proof {
                    lemma_bytes_key(id);
                }
                let ts = owned_text(t);
                match self.rps_games.remove(id) {
                    Some(mut m) => {
                        m.insert(ts, c);
                        self.rps_games.insert(copy_id(id), m);
                    },
                    None => {},
                }
                let ghost games = record_choice(s0.rps_games, id@, t@, c);
                assert(self.rps_games@ =~= games);
                let mut full = false;
                let mut settled: Option<(String, String, u8, u8)> = None;
                match self.rps_games.get(id) {
                    Some(m) => {
                        if m.len() == 2 {
                            full = true;
                            match self.rps_list.get(id) {
                                Some(pair) => {
                                    let c0 = *m.get(&pair.0).unwrap();
                                    let c1 = *m.get(&pair.1).unwrap();
                                    settled = Some((pair.0.clone(), pair.1.clone(), c0, c1));
                                },
                                None => {},
                            }
                        }
                    },
                    None => {},
                }
                if full {
                    match settled {
                        Some((t0, t1, c0, c1)) => {
                            let w = game_result((t0.clone(), t1.clone()), (c0, c1));
                            let choice: [u8; 2] = [c0, c1];
                            assert(choice@ =~= seq![c0, c1]);
                            out.push(
                                Data {
                                    token: None,
                                    type_kind: DataTypeKind::RPS,
                                    inform: DataType::RPS(
                                        RPSType::Result(copy_id(id), choice, share(w.clone())),
                                    ),
                                },
                            );
                            let ghost o1 = out@;
                            let none = "None".to_owned();
                            proof {
                                reveal_strlit("None");
                            }
                            assert(none@ =~= none_text());
                            if !(w == none) {
                                if !(t0 == w) {
                                    push_off(&mut self.off_list, w.clone(), t0.clone());
                                    out.push(
                                        Data {
                                            token: Some(share(w)),
                                            type_kind: DataTypeKind::OffData,
                                            inform: DataType::OffData(share(t0)),
                                        },
                                    );
                                } else if !(t1 == w) {
                                    push_off(&mut self.off_list, w.clone(), t1.clone());
                                    out.push(
                                        Data {
                                            token: Some(share(w)),
                                            type_kind: DataTypeKind::OffData,
                                            inform: DataType::OffData(share(t1)),
                                        },
                                    );
                                }
                            }
                        },
                        None => {},
                    }
                    self.rps_games.remove(id);
                    self.rps_list.remove(id);
                }
                assert(self@.rps_games =~= choice_step(s0, opt_text(*token), id@, c).0.rps_games);
                assert(self@.rps_list =~= choice_step(s0, opt_text(*token), id@, c).0.rps_list);
                assert(self@.off_list =~= choice_step(s0, opt_text(*token), id@, c).0.off_list);
                assert(views(out@) =~= views(o0) + choice_step(s0, opt_text(*token), id@, c).1);
            },
        }
    }

    /// Handles a game message.
    fn rps(&mut self, data: &Data, out: &mut Vec<Data>)
        requires
            !(match data@.inform {
                SpecDataType::RPS(r) => match choice_of(r) {
                    Some(m) => choice_faults(old(self)@, data@.token, m.0, m.1),
                    None => false,
                },
                _ => false,
            }),
        ensures
            final(self)@ == rps_step(old(self)@, data@).0,
            views(final(out)@) == views(old(out)@) + rps_step(old(self)@, data@).1,
    {
        let ghost s0 = self@;
        let ghost o0 = out@;
        match &data.inform {
            DataType::RPS(rps) => match rps {
                RPSType::Send(id, tok) => {
                    proof {
                        lemma_bytes_key(id);
                    }
                    if let Some(send) = &data.token {
                        self.rps_list.insert(copy_id(id), (owned_text(send), owned_text(tok)));
                    }
                    assert(views(out@) =~= views(o0) + rps_step(s0, data@).1);
                },
                RPSType::Accept(id, is_accept) => {
                    proof {
                        lemma_bytes_key(id);
                    }
                    if !*is_accept {
                        self.rps_list.remove(id);
                        assert(views(out@) =~= views(o0) + rps_step(s0, data@).1);
                    } else {
                        out.push(
                            Data {
                                token: None,
                                type_kind: DataTypeKind::RPS,
                                inform: DataType::RPS(RPSType::Game(copy_id(id))),
                            },
                        );
                        let games: Assoc<String, u8> = Assoc::new();
                        self.rps_games.insert(copy_id(id), games);
                        assert(views(out@) =~= views(o0) + rps_step(s0, data@).1);
                    }
                },
                RPSType::Rock(id) => self.take_choice(&data.token, id, ROCK, out),
                RPSType::Paper(id) => self.take_choice(&data.token, id, PAPER, out),
                RPSType::Scissor(id) => self.take_choice(&data.token, id, SCISSOR, out),
                RPSType::Fail(id) => self.take_choice(&data.token, id, FORFEIT, out),
                _ => {
                    assert(views(out@) =~= views(o0) + rps_step(s0, data@).1);
                },
            },
            _ => {
                assert(views(out@) =~= views(o0) + rps_step(s0, data@).1);
            },
        }
    }

    /// What the connection of the token `me` does with a frame that went out to
    /// the room: the frames it sends to the room, and whether it ends.
    pub fn handle(&mut self, me: &String, data: &Data) -> (r: (Vec<Data>, bool))
        requires
            !step_faults(old(self)@, me@, data@),
        ensures
            final(self)@ == server_step(old(self)@, me@, data@).0,
            views(r.0@) == server_step(old(self)@, me@, data@).1,
            r.1 == server_step(old(self)@, me@, data@).2,
    {
        let ghost s0 = self@;
        let mut out: Vec<Data> = Vec::new();
        if data.type_kind == DataTypeKind::Remove {
            if let Some(t) = &data.token {
                if owned_text(t) == *me {
                    self.users.remove(me);
                    assert(views(out@) =~= seq![]);
                    return (out, true);
                }
            }
        }
        if data.type_kind == DataTypeKind::IsOff {
            self.is_off(data, &mut out);
        }
        if data.type_kind == DataTypeKind::RPS {
            self.rps(data, &mut out);
        }
        assert(views(out@) =~= server_step(s0, me@, data@).1);
        (out, false)
    }

    /// Whether handling the frame would meet a settled game whose choices do not
    /// belong to its two players (where the connection cannot go on).
    pub fn faults(&self, me: &String, data: &Data) -> (b: bool)
        ensures
            b == step_faults(self@, me@, data@),
    {
        if data.type_kind == DataTypeKind::Remove {
            if let Some(t) = &data.token {
                if owned_text(t) == *me {
                    return false;
                }
            }
        }
        if data.type_kind != DataTypeKind::RPS {
            return false;
        }
        let (id, c) = match &data.inform {
            DataType::RPS(RPSType::Rock(id)) => (id, ROCK),
            DataType::RPS(RPSType::Paper(id)) => (id, PAPER),
            DataType::RPS(RPSType::Scissor(id)) => (id, SCISSOR),
            DataType::RPS(RPSType::Fail(id)) => (id, FORFEIT),
            _ => {
                return false;
            },
        };
        let t = match &data.token {
            Some(t) => owned_text(t),
            None => {
                return false;
            },
        };
        let ghost games = record_choice(self@.rps_games, id@, t@, c);
        proof {
            lemma_bytes_key(id);
        }
        match self.rps_games.get(id) {
            Some(m) => {
                let n = m.len();
                let has_t = m.contains_key(&t);
                let two = if has_t { n == 2 } else { n == 1 };
                assert(games[id@] == m@.insert(t@, c));
                assert(two == (games[id@].len() == 2));
                if !two {
                    return false;
                }
                match self.rps_list.get(id) {
                    Some(pair) => {
                        let has0 = pair.0 == t || m.contains_key(&pair.0);
                        let has1 = pair.1 == t || m.contains_key(&pair.1);
                        !(has0 && has1)
                    },
                    None => false,
                }
            },
            None => false,
        }
    }

    /// Lets a newcomer in: the frames that tell it who is in the room (sent to it
    /// alone), and the frames for the room: its own name, then the pending
    /// challenges and the switch-off rights, replayed.
    pub fn welcome(&mut self, token: String, name: String) -> (r: (Vec<Data>, Vec<Data>))
        ensures
            views(r.0@) == roster(old(self).users.pairs()),
            final(self)@ == (SpecServer { users: old(self)@.users.insert(token@, name@), ..old(self)@ }),
            views(r.1@) == seq![name_notice(token@, name@)] + challenge_replay(
                old(self).rps_list.pairs(),
            ) + off_replay(old(self).off_list.pairs()),
    {
        let mut direct: Vec<Data> = Vec::new();
        let users = self.users.entries();
        let mut i: usize = 0;
        while i < users.len()
            invariant
                i <= users@.len(),
                users.deep_view() == old(self).users.pairs(),
                views(direct@) == roster(old(self).users.pairs()).subrange(0, i as int),
            decreases users@.len() - i,
        {
            let ghost d0 = direct@;
            direct.push(
                Data {
                    token: Some(share(users[i].0.clone())),
                    type_kind: DataTypeKind::Name,
                    inform: DataType::Name(share(users[i].1.clone())),
                },
            );
            assert(views(direct@) =~= views(d0).push(roster(old(self).users.pairs())[i as int]));
            i = i + 1;
            assert(views(direct@) =~= roster(old(self).users.pairs()).subrange(0, i as int));
        }
        assert(views(direct@) =~= roster(old(self).users.pairs()));
        let mut room: Vec<Data> = Vec::new();
        room.push(
            Data {
                token: Some(share(token.clone())),
                type_kind: DataTypeKind::Name,
                inform: DataType::Name(share(name.clone())),
            },
        );
        assert(views(room@) =~= seq![name_notice(token@, name@)]);
        self.users.insert(token, name);
        let ghost head = views(room@);
        let list = self.rps_list.entries();
        let mut i: usize = 0;
        while i < list.len()
            invariant
                i <= list@.len(),
                list.deep_view() == old(self).rps_list.pairs(),
                views(room@) == head + challenge_replay(old(self).rps_list.pairs()).subrange(
                    0,
                    i as int,
                ),
            decreases list@.len() - i,
        {
            let ghost r0 = room@;
            proof {
                lemma_bytes_key(&list@[i as int].0);
            }
            room.push(
                Data {
                    token: Some(share(list[i].1.0.clone())),
                    type_kind: DataTypeKind::RPS,
                    inform: DataType::RPS(
                        RPSType::Data(copy_id(&list[i].0), share(list[i].1.1.clone())),
                    ),
                },
            );
            assert(views(room@) =~= views(r0).push(
                challenge_replay(old(self).rps_list.pairs())[i as int],
            ));
            i = i + 1;
            assert(challenge_replay(old(self).rps_list.pairs()).subrange(0, i as int) =~= challenge_replay(
                old(self).rps_list.pairs(),
            ).subrange(0, i - 1).push(challenge_replay(old(self).rps_list.pairs())[i - 1]));
        }
        assert(challenge_replay(old(self).rps_list.pairs()).subrange(0, list@.len() as int)
            =~= challenge_replay(old(self).rps_list.pairs()));
        let ghost head2 = views(room@);
        let off = self.off_list.entries();
        let mut i: usize = 0;
        while i < off.len()
            invariant
                i <= off@.len(),
                off.deep_view() == old(self).off_list.pairs(),
                views(room@) == head2 + off_replay(old(self).off_list.pairs().subrange(0, i as int)),
            decreases off@.len() - i,
        {
            let ghost r0 = room@;
            let ghost w = off.deep_view()[i as int].0;
            let ghost losers = off.deep_view()[i as int].1;
            let losers_v = &off[i].1;
            let mut j: usize = 0;
            while j < losers_v.len()
                invariant
                    i < off@.len(),
                    j <= losers_v@.len(),
                    losers_v.deep_view() == losers,
                    off@[i as int].0@ == w,
                    views(room@) == views(r0) + rights_replay(w, losers).subrange(0, j as int),
                decreases losers_v@.len() - j,
            {
                let ghost r1 = room@;
                room.push(
                    Data {
                        token: Some(share(off[i].0.clone())),
                        type_kind: DataTypeKind::OffData,
                        inform: DataType::OffData(share(losers_v[j].clone())),
                    },
                );
                assert(views(room@) =~= views(r1).push(rights_replay(w, losers)[j as int]));
                j = j + 1;
                assert(rights_replay(w, losers).subrange(0, j as int) =~= rights_replay(
                    w,
                    losers,
                ).subrange(0, j - 1).push(rights_replay(w, losers)[j - 1]));
            }
            assert(rights_replay(w, losers).subrange(0, losers.len() as int) =~= rights_replay(
                w,
                losers,
            ));
            let ghost pre = old(self).off_list.pairs().subrange(0, i as int);
            i = i + 1;
            assert(old(self).off_list.pairs().subrange(0, i as int).drop_last() =~= pre);
            assert(views(room@) =~= head2 + off_replay(
                old(self).off_list.pairs().subrange(0, i as int),
            ));
        }
        assert(old(self).off_list.pairs().subrange(0, off@.len() as int) =~= old(
            self,
        ).off_list.pairs());
        (direct, room)
    }
}

/// Every running game holds at most one choice: a second choice settles it at once.
pub open spec fn games_waiting(s: SpecServer) -> bool {
    forall|id: Seq<u8>|
        #[trigger] s.rps_games.contains_key(id) ==> s.rps_games[id].dom().finite()
            && s.rps_games[id].len() <= 1
}

/// A move keeps every running game at one choice at most.
proof fn lemma_choice_keeps_games_waiting(s: SpecServer, token: Option<Seq<char>>, id: Seq<u8>, c: u8)
    requires
        games_waiting(s),
    ensures
        games_waiting(choice_step(s, token, id, c).0),
{
    if let Some(t) = token {
        let games = record_choice(s.rps_games, id, t, c);
        if s.rps_games.contains_key(id) {
            assert(games[id].dom() =~= s.rps_games[id].dom().insert(t));
        }
        assert forall|k: Seq<u8>| #[trigger] games.contains_key(k) && k != id implies games[k].dom().finite()
            && games[k].len() <= 1 by {
            assert(s.rps_games.contains_key(k));
        }
        let r = choice_step(s, token, id, c).0;
        assert forall|k: Seq<u8>| #[trigger] r.rps_games.contains_key(k) implies r.rps_games[k].dom().finite()
            && r.rps_games[k].len() <= 1 by {
            if k != id {
                assert(games.contains_key(k));
            }
        }
    }
}

/// The server keeps every running game at one choice at most, whatever frame
/// goes through a connection.
pub proof fn lemma_step_keeps_games_waiting(s: SpecServer, me: Seq<char>, d: SpecData)
    requires
        games_waiting(s),
    ensures
        games_waiting(server_step(s, me, d).0),
{
    let a = if d.type_kind == DataTypeKind::IsOff {
        is_off_step(s, d)
    } else {
        (s, seq![])
    };
    assert(a.0.rps_games == s.rps_games);
    if d.type_kind == DataTypeKind::RPS {
        match d.inform {
            SpecDataType::RPS(r) => match r {
                SpecRps::Accept(id, acc) => {
                    if acc {
                        let g = a.0.rps_games.insert(id, Map::empty());
                        assert forall|k: Seq<u8>| #[trigger] g.contains_key(k) implies g[k].dom().finite()
                            && g[k].len() <= 1 by {
                            if k == id {
                                assert(g[k].dom() =~= Set::<Seq<char>>::empty());
                            }
                        }
                    }
                },
                SpecRps::Rock(id) => lemma_choice_keeps_games_waiting(a.0, d.token, id, ROCK),
                SpecRps::Paper(id) => lemma_choice_keeps_games_waiting(a.0, d.token, id, PAPER),
                SpecRps::Scissor(id) => lemma_choice_keeps_games_waiting(a.0, d.token, id, SCISSOR),
                SpecRps::Fail(id) => lemma_choice_keeps_games_waiting(a.0, d.token, id, FORFEIT),
                _ => {},
            },
            _ => {},
        }
    }
}

/// Letting a newcomer in leaves the games alone.
pub proof fn lemma_welcome_keeps_games_waiting(s: SpecServer, token: Seq<char>, name: Seq<char>)
    requires
        games_waiting(s),
    ensures
        games_waiting(SpecServer { users: s.users.insert(token, name), ..s }),
{
}

/// How many times `x` occurs in `s`.
pub open spec fn occurrences<T>(s: Seq<T>, x: T) -> nat
    decreases s.len(),
{
    if s.len() == 0 {
        0
    } else {
        (if s[0] == x { 1nat } else { 0nat }) + occurrences(s.drop_first(), x)
    }
}

/// Removing the first `x` removes one occurrence of it.
proof fn lemma_remove_first_occurrences<T>(s: Seq<T>, x: T)
    requires
        s.contains(x),
    ensures
        occurrences(remove_first(s, x), x) + 1 == occurrences(s, x),
    decreases s.len(),
{
    if s[0] != x {
        let i = choose|i: int| 0 <= i < s.len() && s[i] == x;
        assert(s.drop_first()[i - 1] == x);
        lemma_remove_first_occurrences(s.drop_first(), x);
        let r = seq![s[0]] + remove_first(s.drop_first(), x);
        assert(r.drop_first() =~= remove_first(s.drop_first(), x));
    }
}

/// A request to switch off a computer is honoured only against a right that the
/// sender holds, and honouring it uses up exactly one such right; otherwise
/// nothing is sent and the sender's rights stay as they were.
pub proof fn lemma_off_request_uses_one_right(
    s: SpecServer,
    me: Seq<char>,
    send: Seq<char>,
    t: Seq<char>,
)
    ensures
        ({
            let d = SpecData {
                token: Some(send),
                type_kind: DataTypeKind::IsOff,
                inform: SpecDataType::IsOff(t),
            };
            let r = server_step(s, me, d);
            let before = off_entry(s.off_list, send);
            &&& r.2 == false
            &&& r.0.rps_list == s.rps_list
            &&& r.0.rps_games == s.rps_games
            &&& r.0.users == s.users
            &&& r.0.off_list.contains_key(send)
            &&& if before.contains(t) {
                &&& r.1 == seq![off_notice(t)]
                &&& occurrences(r.0.off_list[send], t) + 1 == occurrences(before, t)
            } else {
                &&& r.1 == Seq::<SpecData>::empty()
                &&& r.0.off_list[send] == before
            }
        }),
{
    let before = off_entry(s.off_list, send);
    if before.contains(t) {
        lemma_remove_first_occurrences(before, t);
    }
    let d = SpecData {
        token: Some(send),
        type_kind: DataTypeKind::IsOff,
        inform: SpecDataType::IsOff(t),
    };
    assert(server_step(s, me, d).1 =~= is_off_step(s, d).1);
}

/// The second choice in a game settles it in the same step: the result goes to
/// the room first, the winner (if any, and if the players differ) gains one right
/// against the other player, and both the game and its challenge are forgotten.
pub proof fn lemma_second_choice_settles(
    s: SpecServer,
    me: Seq<char>,
    t: Seq<char>,
    id: Seq<u8>,
    c: u8,
)
    requires
        s.rps_games.contains_key(id),
        s.rps_games[id].dom().finite(),
        s.rps_games[id].len() == 1,
        !s.rps_games[id].contains_key(t),
        s.rps_list.contains_key(id),
        s.rps_games[id].insert(t, c).contains_key(s.rps_list[id].0),
        s.rps_games[id].insert(t, c).contains_key(s.rps_list[id].1),
        c <= FORFEIT,
    ensures
        ({
            let mv = if c == ROCK {
                SpecRps::Rock(id)
            } else if c == PAPER {
                SpecRps::Paper(id)
            } else if c == SCISSOR {
                SpecRps::Scissor(id)
            } else {
                SpecRps::Fail(id)
            };
            let d = SpecData {
                token: Some(t),
                type_kind: DataTypeKind::RPS,
                inform: SpecDataType::RPS(mv),
            };
            let r = server_step(s, me, d);
            let t0 = s.rps_list[id].0;
            let t1 = s.rps_list[id].1;
            let m = s.rps_games[id].insert(t, c);
            let w = game_winner(t0, t1, m[t0], m[t1]);
            &&& !step_faults(s, me, d)
            &&& !r.0.rps_games.contains_key(id)
            &&& !r.0.rps_list.contains_key(id)
            &&& r.1.len() >= 1
            &&& r.1[0] == result_notice(id, m[t0], m[t1], w)
            &&& (w != none_text() && t0 != t1) ==> {
                let loser = if w == t0 {
                    t1
                } else {
                    t0
                };
                &&& r.0.off_list[w] == off_entry(s.off_list, w).push(loser)
                &&& r.1 == seq![result_notice(id, m[t0], m[t1], w), loss_notice(w, loser)]
            }
        }),
{
    let m = s.rps_games[id].insert(t, c);
    assert(m.dom() =~= s.rps_games[id].dom().insert(t));
    let t0 = s.rps_list[id].0;
    let t1 = s.rps_list[id].1;
    let w = game_winner(t0, t1, m[t0], m[t1]);
    crate::game::lemma_winner_is_a_player(t0, t1, m[t0], m[t1]);
}

/// The room's members change on a frame only when it is a connection's own
/// `Remove`, which drops that member alone.
pub proof fn lemma_step_users(s: SpecServer, me: Seq<char>, d: SpecData)
    ensures
        server_step(s, me, d).0.users == if d.type_kind == DataTypeKind::Remove && d.token == Some(
            me,
        ) {
            s.users.remove(me)
        } else {
            s.users
        },
{
}

/// The frame of player `t` making the move `c` (rock, paper, scissors, or a
/// forfeit for anything past them) in game `id`.
pub open spec fn move_frame(t: Seq<char>, id: Seq<u8>, c: u8) -> SpecData {
    SpecData {
        token: Some(t),
        type_kind: DataTypeKind::RPS,
        inform: SpecDataType::RPS(
            if c == ROCK {
                SpecRps::Rock(id)
            } else if c == PAPER {
                SpecRps::Paper(id)
            } else if c == SCISSOR {
                SpecRps::Scissor(id)
            } else {
                SpecRps::Fail(id)
            },
        ),
    }
}

/// The first move in a running game is kept with the choice it carries, and
/// nothing is announced yet.
pub proof fn lemma_first_move_kept(s: SpecServer, me: Seq<char>, t: Seq<char>, id: Seq<u8>, c: u8)
    requires
        s.rps_games.contains_key(id),
        s.rps_games[id].dom().finite(),
        s.rps_games[id].len() == 0,
        c <= FORFEIT,
    ensures
        ({
            let r = server_step(s, me, move_frame(t, id, c));
            &&& !step_faults(s, me, move_frame(t, id, c))
            &&& r.0.rps_games.contains_key(id)
            &&& r.0.rps_games[id].contains_key(t)
            &&& r.0.rps_games[id][t] == c
            &&& r.0.rps_games[id].len() == 1
            &&& r.0.rps_list == s.rps_list
            &&& r.0.off_list == s.off_list
            &&& r.1 == Seq::<SpecData>::empty()
            &&& !r.2
        }),
{
    let m = s.rps_games[id].insert(t, c);
    assert(m.dom() =~= s.rps_games[id].dom().insert(t));
    assert(s.rps_games[id].dom() =~= Set::<Seq<char>>::empty());
    assert(server_step(s, me, move_frame(t, id, c)).1 =~= Seq::<SpecData>::empty());
}

/// A game played out by its two players: the challenger `t0` moves `c0`, then
/// the challenged `t1` moves `c1`. The result reports the two choices as they
/// were made, challenger first, and the winner by the rules; a winner gains one
/// right against the other player; the game and the challenge are gone.
pub proof fn lemma_game_played_out(
    s: SpecServer,
    me: Seq<char>,
    id: Seq<u8>,
    t0: Seq<char>,
    c0: u8,
    t1: Seq<char>,
    c1: u8,
)
    requires
        s.rps_games.contains_key(id),
        s.rps_games[id].dom().finite(),
        s.rps_games[id].len() == 0,
        s.rps_list.contains_key(id),
        s.rps_list[id] == (t0, t1),
        t0 != t1,
        c0 <= FORFEIT,
        c1 <= FORFEIT,
    ensures
        ({
            let a = server_step(s, me, move_frame(t0, id, c0));
            let b = server_step(a.0, me, move_frame(t1, id, c1));
            let w = game_winner(t0, t1, c0, c1);
            &&& !step_faults(a.0, me, move_frame(t1, id, c1))
            &&& b.1.len() >= 1
            &&& b.1[0] == result_notice(id, c0, c1, w)
            &&& !b.0.rps_games.contains_key(id)
            &&& !b.0.rps_list.contains_key(id)
            &&& w != none_text() ==> {
                let loser = if w == t0 {
                    t1
                } else {
                    t0
                };
                &&& b.1 == seq![result_notice(id, c0, c1, w), loss_notice(w, loser)]
                &&& b.0.off_list[w] == off_entry(s.off_list, w).push(loser)
            }
        }),
{
    lemma_first_move_kept(s, me, t0, id, c0);
    let a = server_step(s, me, move_frame(t0, id, c0));
    let m = a.0.rps_games[id].insert(t1, c1);
    assert(m.dom() =~= a.0.rps_games[id].dom().insert(t1));
    assert(m[t0] == c0);
    assert(m[t1] == c1);
    crate::game::lemma_winner_is_a_player(t0, t1, c0, c1);
}

} // verus!
