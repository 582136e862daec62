use crate::assoc::{keys_unique, lemma_map_of_contains, lemma_map_of_index, map_of, Assoc};
use crate::protocol::{none_text, owned_text, share, Data, DataType, DataTypeKind, RPSType, SpecData, SpecDataType, SpecRps};
use crate::server::{
    challenge_replay, lemma_bytes_key, off_entry, off_replay, push_off, rights_replay,
};
use crate::text::{trim, trim_spec};
use vstd::prelude::*;

verus! {

/// The pending challenges a client knows of, by game id: challenger and challenged.
pub struct RpsList(pub Assoc<Vec<u8>, (String, String)>);

/// The switch-off rights a client knows of, by winner.
pub struct OffList(pub Assoc<String, Vec<String>>);

impl View for RpsList {
    type V = Map<Seq<u8>, (Seq<char>, Seq<char>)>;

    open spec fn view(&self) -> Self::V {
        self.0@
    }
}

impl View for OffList {
    type V = Map<Seq<char>, Seq<Seq<char>>>;

    open spec fn view(&self) -> Self::V {
        self.0@
    }
}

/// Whether `t` takes part in one of the pending challenges.
pub open spec fn is_busy_spec(m: Map<Seq<u8>, (Seq<char>, Seq<char>)>, t: Seq<char>) -> bool {
    exists|id: Seq<u8>| #[trigger] m.contains_key(id) && (m[id].0 == t || m[id].1 == t)
}

impl RpsList {
    /// No challenge pending.
    pub fn new() -> (l: Self)
        ensures
            l@ == Map::<Seq<u8>, (Seq<char>, Seq<char>)>::empty(),
    {
        RpsList(Assoc::new())
    }

    /// Forgets every challenge.
    pub fn clear(&mut self)
        ensures
            final(self)@ == Map::<Seq<u8>, (Seq<char>, Seq<char>)>::empty(),
    {
        self.0.clear();
    }

    /// Whether the player `t` takes part in a pending challenge (and so cannot be
    /// challenged).
    pub fn is_busy(&self, t: &String) -> (b: bool)
        ensures
            b == is_busy_spec(self@, t@),
    {
        let e = self.0.entries();
        let ghost p = self.0.pairs();
        let mut i: usize = 0;
        while i < e.len()
            invariant
                i <= e@.len(),
                e.deep_view() == p,
                keys_unique(p),
                map_of(p) == self@,
                p.len() == e@.len(),
                forall|j: int| 0 <= j < i ==> #[trigger] p[j].1.0 != t@ && p[j].1.1 != t@,
            decreases e@.len() - i,
        {
            assert(p[i as int] == e@[i as int].deep_view());
            if e[i].1.0 == *t || e[i].1.1 == *t {
                proof {
                    lemma_map_of_index(p, i as int);
                }
                assert(self@.contains_key(p[i as int].0));
                return true;
            }
            i = i + 1;
        }
        assert forall|id: Seq<u8>| #[trigger] self@.contains_key(id) implies !(self@[id].0 == t@
            || self@[id].1 == t@) by {
            lemma_map_of_contains(p, id);
            let j = choose|j: int| 0 <= j < p.len() && #[trigger] p[j].0 == id;
            lemma_map_of_index(p, j);
            assert(p[j].1.0 != t@ && p[j].1.1 != t@);
        }
        false
    }
}

impl OffList {
    /// No rights known.
    pub fn new() -> (l: Self)
        ensures
            l@ == Map::<Seq<char>, Seq<Seq<char>>>::empty(),
    {
        OffList(Assoc::new())
    }

    /// Whether `me` holds a right to switch off the computer of `t`.
    pub fn may_switch_off(&self, me: &String, t: &String) -> (b: bool)
        ensures
            b == (self@.contains_key(me@) && self@[me@].contains(t@)),
    {
        match self.0.get(me) {
            Some(list) => {
                let mut i: usize = 0;
                while i < list.len()
                    invariant
                        self@.contains_key(me@),
                        i <= list@.len(),
                        list.deep_view() == self@[me@],
                        forall|j: int| 0 <= j < i ==> self@[me@][j] != t@,
                    decreases list@.len() - i,
                {
                    if list[i] == *t {
                        assert(self@[me@][i as int] == t@);
                        return true;
                    }
                    i = i + 1;
                }
                assert(!self@[me@].contains(t@));
                false
            },
            None => false,
        }
    }

    /// Appends `loser` to the rights of `w`.
    pub fn push(&mut self, w: String, loser: String)
        ensures
            final(self)@ == old(self)@.insert(w@, off_entry(old(self)@, w@).push(loser@)),
    {
        push_off(&mut self.0, w, loser);
    }
}

/// The prompt the game window shows.
#[derive(Clone)]
pub enum RpsModalType {
    /// Ask before challenging the given player.
    Send(String),
    /// A challenge in game `id` from the named player.
    Accept(Vec<u8>, String),
    /// Pick a move in game `id`.
    Game(Vec<u8>),
    /// No prompt.
    Idle,
}

/// The mathematical value of an [`RpsModalType`].
pub enum SpecModal {
    Send(Seq<char>),
    Accept(Seq<u8>, Seq<char>),
    Game(Seq<u8>),
    Idle,
}

impl View for RpsModalType {
    type V = SpecModal;

    open spec fn view(&self) -> SpecModal {
        match self {
            RpsModalType::Send(t) => SpecModal::Send(t@),
            RpsModalType::Accept(id, n) => SpecModal::Accept(id@, n@),
            RpsModalType::Game(id) => SpecModal::Game(id@),
            RpsModalType::Idle => SpecModal::Idle,
        }
    }
}

/// The prompt that is up.
pub struct RpsModalResource(pub RpsModalType);

/// The names the client must know to report a game message: the two players of
/// a challenge it reports, and the winner of a result.
pub open spec fn rps_event_ready(
    users: Map<Seq<char>, Seq<char>>,
    rps: Map<Seq<u8>, (Seq<char>, Seq<char>)>,
    d: SpecData,
) -> bool {
    d.type_kind == DataTypeKind::RPS ==> match d.inform {
        SpecDataType::RPS(r) => match r {
            SpecRps::Send(id, t) => d.token is Some && users.contains_key(d.token->0)
                && users.contains_key(t),
            SpecRps::Accept(id, _) => rps.contains_key(id) ==> users.contains_key(rps[id].0)
                && users.contains_key(rps[id].1),
            SpecRps::Result(id, _, w) => rps.contains_key(id) ==> {
                &&& users.contains_key(rps[id].0)
                &&& users.contains_key(rps[id].1)
                &&& w != none_text() ==> users.contains_key(w)
            },
            _ => true,
        },
        _ => true,
    }
}

/// What a client does with a game message: a challenge is recorded (and, when
/// it is addressed to `me`, answered by a prompt naming the challenger); a
/// refusal drops a known challenge; a game start prompts its two players for a
/// move; a result gives the winner a right against the loser as the client
/// reckons it (the challenged player when the challenger won, else the winner).
pub open spec fn rps_event_step(
    users: Map<Seq<char>, Seq<char>>,
    rps: Map<Seq<u8>, (Seq<char>, Seq<char>)>,
    off: Map<Seq<char>, Seq<Seq<char>>>,
    me: Seq<char>,
    d: SpecData,
) -> (Map<Seq<u8>, (Seq<char>, Seq<char>)>, Map<Seq<char>, Seq<Seq<char>>>, Option<SpecModal>) {
    if d.type_kind != DataTypeKind::RPS {
        (rps, off, None)
    } else {
        match d.inform {
            SpecDataType::RPS(r) => match r {
                SpecRps::Send(id, t) => (
                    rps.insert(id, (d.token->0, t)),
                    off,
                    if me == t {
                        Some(SpecModal::Accept(id, users[d.token->0]))
                    } else {
                        None
                    },
                ),
                SpecRps::Accept(id, a) => if rps.contains_key(id) && !a {
                    (rps.remove(id), off, None)
                } else {
                    (rps, off, None)
                },
                SpecRps::Game(id) => if rps.contains_key(id) && (rps[id].0 == me || rps[id].1
                    == me) {
                    (rps, off, Some(SpecModal::Game(id)))
                } else {
                    (rps, off, None)
                },
                SpecRps::Result(id, _, w) => if rps.contains_key(id) && w != none_text() {
                    let loser = if rps[id].0 == w {
                        rps[id].1
                    } else {
                        w
                    };
                    (rps, off.insert(w, off_entry(off, w).push(loser)), None)
                } else {
                    (rps, off, None)
                },
                _ => (rps, off, None),
            },
            _ => (rps, off, None),
        }
    }
}

/// A copy of a byte vector.
fn copy_bytes(v: &Vec<u8>) -> (r: Vec<u8>)
    ensures
        r@ == v@,
        r.deep_view() == v@,
        v.deep_view() == v@,
{
    let r = crate::bytes::copy_range(v.as_slice(), 0, v.len());
    proof {
        lemma_bytes_key(&r);
        lemma_bytes_key(v);
    }
    r
}

/// Reacts to a game message: updates the known challenges and rights, and hands
/// back the prompt to open, if any.
pub fn rps_event(
    users: &Assoc<String, String>,
    rps: &mut RpsList,
    off: &mut OffList,
    me: &String,
    data: &Data,
) -> (prompt: Option<RpsModalType>)
    requires
        rps_event_ready(users@, old(rps)@, data@),
    ensures
        final(rps)@ == rps_event_step(users@, old(rps)@, old(off)@, me@, data@).0,
        final(off)@ == rps_event_step(users@, old(rps)@, old(off)@, me@, data@).1,
        match prompt {
            Some(m) => rps_event_step(users@, old(rps)@, old(off)@, me@, data@).2 == Some(m@),
            None => rps_event_step(users@, old(rps)@, old(off)@, me@, data@).2 is None,
        },
{
    if data.type_kind != DataTypeKind::RPS {
        return None;
    }
    match &data.inform {
        DataType::RPS(r) => match r {
            RPSType::Send(id, t) => {
                let sender = match &data.token {
                    Some(s) => owned_text(s),
                    None => {
                        return None;
                    },
                };
                let accept = owned_text(t);
                let is_me = accept == *me;
                let send_name = match users.get(&sender) {
                    Some(n) => n.clone(),
                    None => {
                        return None;
                    },
                };
                rps.0.insert(copy_bytes(id), (sender, accept));
                if is_me {
                    Some(RpsModalType::Accept(copy_bytes(id), send_name))
                } else {
                    None
                }
            },
            RPSType::Accept(id, is_accept) => {
                proof {
                    lemma_bytes_key(id);
                }
                if rps.0.contains_key(id) && !*is_accept {
                    rps.0.remove(id);
                }
                None
            },
            RPSType::Game(id) => {
                proof {
                    lemma_bytes_key(id);
                }
                match rps.0.get(id) {
                    Some(pair) => {
                        if pair.0 == *me || pair.1 == *me {
                            Some(RpsModalType::Game(copy_bytes(id)))
                        } else {
                            None
                        }
                    },
                    None => None,
                }
            },
            RPSType::Result(id, _, win) => {
                proof {
                    lemma_bytes_key(id);
                }
                let w = owned_text(win);
                let none = "None".to_owned();
                proof {
                    reveal_strlit("None");
                }
                assert(none@ =~= none_text());
                let loser = match rps.0.get(id) {
                    Some(pair) => {
                        if w == none {
                            None
                        } else if pair.0 == w {
                            Some(pair.1.clone())
                        } else {
                            Some(w.clone())
                        }
                    },
                    None => None,
                };
                if let Some(l) = loser {
                    off.push(w, l);
                }
                None
            },
            _ => None,
        },
        _ => None,
    }
}

/// Whether a frame that carries a replayed challenge or right names its sender.
pub open spec fn game_data_ready(d: SpecData) -> bool {
    let carries = match d.inform {
        SpecDataType::RPS(r) => d.type_kind == DataTypeKind::RPS && r is Data,
        SpecDataType::OffData(_) => d.type_kind == DataTypeKind::OffData,
        _ => false,
    };
    carries ==> d.token is Some
}

/// What a client learns from a replayed challenge (its challenger is the
/// sender) or a replayed right (its holder is the sender).
pub open spec fn game_data_step(
    rps: Map<Seq<u8>, (Seq<char>, Seq<char>)>,
    off: Map<Seq<char>, Seq<Seq<char>>>,
    d: SpecData,
) -> (Map<Seq<u8>, (Seq<char>, Seq<char>)>, Map<Seq<char>, Seq<Seq<char>>>) {
    if d.type_kind == DataTypeKind::RPS {
        match d.inform {
            SpecDataType::RPS(SpecRps::Data(id, t)) => (rps.insert(id, (d.token->0, t)), off),
            _ => (rps, off),
        }
    } else if d.type_kind == DataTypeKind::OffData {
        match d.inform {
            SpecDataType::OffData(t) => (rps, off.insert(d.token->0, off_entry(off, d.token->0).push(t))),
            _ => (rps, off),
        }
    } else {
        (rps, off)
    }
}

/// The client's challenges and rights after taking the frames in order.
pub open spec fn replay_all(
    rps: Map<Seq<u8>, (Seq<char>, Seq<char>)>,
    off: Map<Seq<char>, Seq<Seq<char>>>,
    frames: Seq<SpecData>,
) -> (Map<Seq<u8>, (Seq<char>, Seq<char>)>, Map<Seq<char>, Seq<Seq<char>>>)
    decreases frames.len(),
{
    if frames.len() == 0 {
        (rps, off)
    } else {
        let r = game_data_step(rps, off, frames[0]);
        replay_all(r.0, r.1, frames.drop_first())
    }
}

/// Taking one more frame after a run of frames.
proof fn lemma_replay_push(
    rps: Map<Seq<u8>, (Seq<char>, Seq<char>)>,
    off: Map<Seq<char>, Seq<Seq<char>>>,
    frames: Seq<SpecData>,
    f: SpecData,
)
    ensures
        replay_all(rps, off, frames.push(f)) == ({
            let r = replay_all(rps, off, frames);
            game_data_step(r.0, r.1, f)
        }),
    decreases frames.len(),
{
    if frames.len() == 0 {
        assert(frames.push(f).drop_first() =~= Seq::<SpecData>::empty());
        assert(frames.push(f)[0] == f);
        let r = game_data_step(rps, off, f);
        assert(replay_all(r.0, r.1, Seq::<SpecData>::empty()) == r);
    } else {
        let r = game_data_step(rps, off, frames[0]);
        assert(frames.push(f).drop_first() =~= frames.drop_first().push(f));
        assert(frames.push(f)[0] == frames[0]);
        lemma_replay_push(r.0, r.1, frames.drop_first(), f);
    }
}

/// Taking two runs of frames one after the other.
proof fn lemma_replay_append(
    rps: Map<Seq<u8>, (Seq<char>, Seq<char>)>,
    off: Map<Seq<char>, Seq<Seq<char>>>,
    a: Seq<SpecData>,
    b: Seq<SpecData>,
)
    ensures
        replay_all(rps, off, a + b) == ({
            let r = replay_all(rps, off, a);
            replay_all(r.0, r.1, b)
        }),
    decreases a.len(),
{
    if a.len() == 0 {
        assert(a + b =~= b);
    } else {
        let r = game_data_step(rps, off, a[0]);
        assert((a + b).drop_first() =~= a.drop_first() + b);
        lemma_replay_append(r.0, r.1, a.drop_first(), b);
    }
}

/// Replayed challenges rebuild the server's table of challenges and leave the
/// rights alone.
proof fn lemma_challenge_replay(
    off: Map<Seq<char>, Seq<Seq<char>>>,
    p: Seq<(Seq<u8>, (Seq<char>, Seq<char>))>,
)
    ensures
        replay_all(Map::empty(), off, challenge_replay(p)) == (map_of(p), off),
    decreases p.len(),
{
    if p.len() > 0 {
        let q = p.drop_last();
        assert(challenge_replay(p) =~= challenge_replay(q).push(challenge_replay(p).last()));
        lemma_challenge_replay(off, q);
        lemma_replay_push(Map::empty(), off, challenge_replay(q), challenge_replay(p).last());
    } else {
        assert(challenge_replay(p) =~= Seq::<SpecData>::empty());
    }
}

/// Replaying one winner's rights appends them to the winner's list and leaves the
/// rest alone.
proof fn lemma_rights_replay(
    rps: Map<Seq<u8>, (Seq<char>, Seq<char>)>,
    off: Map<Seq<char>, Seq<Seq<char>>>,
    w: Seq<char>,
    losers: Seq<Seq<char>>,
)
    ensures
        replay_all(rps, off, rights_replay(w, losers)).0 == rps,
        forall|k: Seq<char>| #[trigger]
            off_entry(replay_all(rps, off, rights_replay(w, losers)).1, k) == if k == w {
                off_entry(off, w) + losers
            } else {
                off_entry(off, k)
            },
    decreases losers.len(),
{
    if losers.len() == 0 {
        assert(rights_replay(w, losers) =~= Seq::<SpecData>::empty());
        assert(off_entry(off, w) + losers =~= off_entry(off, w));
    } else {
        let l = losers.drop_last();
        assert(rights_replay(w, losers) =~= rights_replay(w, l).push(rights_replay(w, losers).last()));
        lemma_rights_replay(rps, off, w, l);
        lemma_replay_push(rps, off, rights_replay(w, l), rights_replay(w, losers).last());
        let r = replay_all(rps, off, rights_replay(w, l));
        assert(off_entry(r.1, w).push(losers.last()) =~= off_entry(off, w) + losers);
        let fin = replay_all(rps, off, rights_replay(w, losers));
        assert(fin == game_data_step(r.0, r.1, rights_replay(w, losers).last()));
        assert(fin.1 == r.1.insert(w, off_entry(r.1, w).push(losers.last())));
        assert forall|k: Seq<char>| #[trigger] off_entry(fin.1, k) == if k == w {
            off_entry(off, w) + losers
        } else {
            off_entry(off, k)
        } by {
            if k != w {
                assert(off_entry(r.1, k) == off_entry(off, k));
            }
        }
    }
}

/// Replayed rights rebuild the server's switch-off table (up to winners whose
/// list is empty) and leave the challenges alone.
proof fn lemma_off_replay(
    rps: Map<Seq<u8>, (Seq<char>, Seq<char>)>,
    p: Seq<(Seq<char>, Seq<Seq<char>>)>,
)
    requires
        crate::assoc::keys_unique(p),
    ensures
        replay_all(rps, Map::empty(), off_replay(p)).0 == rps,
        forall|k: Seq<char>| #[trigger]
            off_entry(replay_all(rps, Map::empty(), off_replay(p)).1, k) == off_entry(map_of(p), k),
    decreases p.len(),
{
    if p.len() > 0 {
        let q = p.drop_last();
        let w = p.last().0;
        assert(crate::assoc::keys_unique(q));
        lemma_off_replay(rps, q);
        lemma_replay_append(rps, Map::empty(), off_replay(q), rights_replay(w, p.last().1));
        let r = replay_all(rps, Map::empty(), off_replay(q));
        lemma_rights_replay(r.0, r.1, w, p.last().1);
        lemma_map_of_contains(q, w);
        if map_of(q).contains_key(w) {
            let i = choose|i: int| 0 <= i < q.len() && #[trigger] q[i].0 == w;
            assert(p[i].0 == p[p.len() - 1].0);
        }
        assert(Seq::<Seq<char>>::empty() + p.last().1 =~= p.last().1);
    }
}

/// A newcomer that takes the replayed challenges and rights of the room learns
/// every pending challenge as the server holds it, and every right (a winner
/// whose list is empty reads as one without a list).
pub proof fn lemma_newcomer_learns_the_room(
    rps_pairs: Seq<(Seq<u8>, (Seq<char>, Seq<char>))>,
    off_pairs: Seq<(Seq<char>, Seq<Seq<char>>)>,
)
    requires
        crate::assoc::keys_unique(off_pairs),
    ensures
        ({
            let r = replay_all(
                Map::empty(),
                Map::empty(),
                challenge_replay(rps_pairs) + off_replay(off_pairs),
            );
            &&& r.0 == map_of(rps_pairs)
            &&& forall|k: Seq<char>| #[trigger] off_entry(r.1, k) == off_entry(map_of(off_pairs), k)
        }),
{
    lemma_replay_append(Map::empty(), Map::empty(), challenge_replay(rps_pairs), off_replay(off_pairs));
    lemma_challenge_replay(Map::empty(), rps_pairs);
    lemma_off_replay(map_of(rps_pairs), off_pairs);
}

/// Records a replayed challenge or right.
pub fn game_data_event(rps: &mut RpsList, off: &mut OffList, data: &Data)
    requires
        game_data_ready(data@),
    ensures
        final(rps)@ == game_data_step(old(rps)@, old(off)@, data@).0,
        final(off)@ == game_data_step(old(rps)@, old(off)@, data@).1,
{
    if data.type_kind == DataTypeKind::RPS {
        if let DataType::RPS(RPSType::Data(id, t)) = &data.inform {
            if let Some(s) = &data.token {
                rps.0.insert(copy_bytes(id), (owned_text(s), owned_text(t)));
            }
        }
    } else if data.type_kind == DataTypeKind::OffData {
        if let DataType::OffData(t) = &data.inform {
            if let Some(s) = &data.token {
                off.push(owned_text(s), owned_text(t));
            }
        }
    }
}

/// Whether the game window is shown.
#[derive(Clone, Copy, PartialEq, Eq, Structural, Debug)]
pub enum RpsState {
    Display,
    Hidden,
}

/// What a click on a player's button does: challenge them, or ask the server
/// to switch their computer off.
#[derive(PartialEq, Eq, Structural, Debug, Clone, Copy)]
pub enum EventState {
    RPS,
    OFF,
}

/// The mode of the players' buttons.
pub struct EventButtonState(pub EventState);

impl EventState {
    /// The other mode, as the mode button switches.
    pub fn toggled(self) -> (r: EventState)
        ensures
            r != self,
            r.toggled_spec() == self,
    {
        match self {
            EventState::RPS => EventState::OFF,
            EventState::OFF => EventState::RPS,
        }
    }

    /// The other mode.
    pub open spec fn toggled_spec(self) -> EventState {
        match self {
            EventState::RPS => EventState::OFF,
            EventState::OFF => EventState::RPS,
        }
    }

    /// The label of the mode button.
    pub fn label(self) -> (s: &'static str)
        ensures
            self == EventState::RPS ==> s@ == seq!['R', 'P', 'S'],
            self == EventState::OFF ==> s@ == seq!['O', 'F', 'F'],
    {
        match self {
            EventState::RPS => {
                proof {
                    reveal_strlit("RPS");
                }
                "RPS"
            },
            EventState::OFF => {
                proof {
                    reveal_strlit("OFF");
                }
                "OFF"
            },
        }
    }
}

/// A player's token, as a player's button carries it.
pub struct Token(pub String);

/// A frame that reached the client.
pub struct InputDataEvent(pub Data);

/// The frame that asks the server to switch off the computer of `target`.
pub open spec fn off_request(me: Seq<char>, target: Seq<char>) -> SpecData {
    SpecData {
        token: Some(me),
        type_kind: DataTypeKind::IsOff,
        inform: SpecDataType::IsOff(target),
    }
}

/// What a click on a player's button leads to.
pub enum ClickAction {
    /// The button is switched off: nothing happens.
    Ignore,
    /// Show the prompt.
    Prompt(RpsModalType),
    /// Send the frame to the room.
    Send(Data),
}

/// A click on the button of `target`: nothing when the button is disabled; in
/// game mode the prompt that asks before challenging; in switch-off mode the
/// request to the server.
pub fn user_click(state: EventState, enabled: bool, me: &String, target: &String) -> (a: ClickAction)
    ensures
        !enabled ==> a is Ignore,
        enabled && state == EventState::RPS ==> (a matches ClickAction::Prompt(m) && m@ == SpecModal::Send(target@)),
        enabled && state == EventState::OFF ==> (a matches ClickAction::Send(d) && d@ == off_request(me@, target@)),
{
    if !enabled {
        return ClickAction::Ignore;
    }
    match state {
        EventState::RPS => ClickAction::Prompt(RpsModalType::Send(target.clone())),
        EventState::OFF => ClickAction::Send(
            Data {
                token: Some(share(me.clone())),
                type_kind: DataTypeKind::IsOff,
                inform: DataType::IsOff(share(target.clone())),
            },
        ),
    }
}

/// The game id of a challenge prompt (empty otherwise).
pub open spec fn accept_id(m: SpecModal) -> Seq<u8> {
    match m {
        SpecModal::Accept(id, _) => id,
        _ => seq![],
    }
}

/// The game id of a move prompt (empty otherwise).
pub open spec fn game_id(m: SpecModal) -> Seq<u8> {
    match m {
        SpecModal::Game(id) => id,
        _ => seq![],
    }
}

/// The player a challenge would go to (empty otherwise).
pub open spec fn send_target(m: SpecModal) -> Seq<char> {
    match m {
        SpecModal::Send(t) => t,
        _ => seq![],
    }
}

/// The frame a client sends with a game message of its own.
pub open spec fn own_rps(me: Seq<char>, r: SpecRps) -> SpecData {
    SpecData { token: Some(me), type_kind: DataTypeKind::RPS, inform: SpecDataType::RPS(r) }
}

/// The move a choice byte stands for in game `id` (a forfeit for any byte past scissors).
pub open spec fn move_of(id: Seq<u8>, choice: u8) -> SpecRps {
    if choice == 0 {
        SpecRps::Rock(id)
    } else if choice == 1 {
        SpecRps::Paper(id)
    } else if choice == 2 {
        SpecRps::Scissor(id)
    } else {
        SpecRps::Fail(id)
    }
}

/// The answer to the challenge in the prompt (yes, no, or no when time runs out).
pub fn answer_challenge(me: &String, modal: &RpsModalType, accept: bool) -> (d: Data)
    ensures
        d@ == own_rps(me@, SpecRps::Accept(accept_id(modal@), accept)),
{
    let id = match modal {
        RpsModalType::Accept(id, _) => copy_bytes(id),
        _ => Vec::new(),
    };
    assert(id@ =~= accept_id(modal@));
    Data {
        token: Some(share(me.clone())),
        type_kind: DataTypeKind::RPS,
        inform: DataType::RPS(RPSType::Accept(id, accept)),
    }
}

/// The move picked in the prompt; a forfeit when time runs out.
pub fn make_move(me: &String, modal: &RpsModalType, choice: u8) -> (d: Data)
    ensures
        d@ == own_rps(me@, move_of(game_id(modal@), choice)),
{
    let id = match modal {
        RpsModalType::Game(id) => copy_bytes(id),
        _ => Vec::new(),
    };
    assert(id@ =~= game_id(modal@));
    let r = if choice == 0 {
        RPSType::Rock(id)
    } else if choice == 1 {
        RPSType::Paper(id)
    } else if choice == 2 {
        RPSType::Scissor(id)
    } else {
        RPSType::Fail(id)
    };
    Data { token: Some(share(me.clone())), type_kind: DataTypeKind::RPS, inform: DataType::RPS(r) }
}

/// The challenge, with game id `id`, to the player in the prompt.
pub fn challenge(me: &String, modal: &RpsModalType, id: Vec<u8>) -> (d: Data)
    ensures
        d@ == own_rps(me@, SpecRps::Send(id@, send_target(modal@))),
{
    let target = match modal {
        RpsModalType::Send(t) => t.clone(),
        _ => String::new(),
    };
    Data {
        token: Some(share(me.clone())),
        type_kind: DataTypeKind::RPS,
        inform: DataType::RPS(RPSType::Send(id, share(target))),
    }
}

/// The challenge to the player in the prompt, under a fresh game id of three
/// bytes, none of them zero.
pub fn new_challenge(me: &String, modal: &RpsModalType) -> (d: Data)
    ensures
        d@.token == Some(me@),
        d@.type_kind == DataTypeKind::RPS,
        d@.inform matches SpecDataType::RPS(SpecRps::Send(id, t)) && t == send_target(modal@)
            && id.len() == 3 && forall|i: int| 0 <= i < 3 ==> id[i] >= 1,
{
    let id = crate::identity::random_game_id();
    challenge(me, modal, id)
}

/// `std::time::Instant`, carried through the timer unread.
#[verifier::external_type_specification]
#[verifier::external_body]
pub struct ExInstant(std::time::Instant);

/// The timer of the game window.
pub enum RpsTimer {
    Idle,
    /// Waiting since the instant for the answer to a challenge.
    Accept(std::time::Instant),
    /// Waiting since the instant for a move.
    Game(std::time::Instant),
}

/// How long an answer to a challenge may take, in seconds.
pub const ACCEPT_SECS: u64 = 180;

/// How long a move may take, in seconds.
pub const GAME_SECS: u64 = 60;

impl RpsTimer {
    /// Whether the wait has run out after `elapsed_secs` seconds.
    pub fn expired(&self, elapsed_secs: u64) -> (b: bool)
        ensures
            b == match self {
                RpsTimer::Idle => false,
                RpsTimer::Accept(_) => elapsed_secs >= ACCEPT_SECS,
                RpsTimer::Game(_) => elapsed_secs >= GAME_SECS,
            },
    {
        match self {
            RpsTimer::Idle => false,
            RpsTimer::Accept(_) => elapsed_secs >= ACCEPT_SECS,
            RpsTimer::Game(_) => elapsed_secs >= GAME_SECS,
        }
    }
}

/// The names a client knows after a frame: a `Name` frame names its sender.
pub open spec fn name_step(users: Map<Seq<char>, Seq<char>>, d: SpecData) -> Map<Seq<char>, Seq<char>> {
    if d.type_kind == DataTypeKind::Name {
        match d.inform {
            SpecDataType::Name(n) => users.insert(d.token->0, n),
            _ => users,
        }
    } else {
        users
    }
}

/// The names a client knows after taking the frames in order.
pub open spec fn names_after(users: Map<Seq<char>, Seq<char>>, frames: Seq<SpecData>) -> Map<
    Seq<char>,
    Seq<char>,
>
    decreases frames.len(),
{
    if frames.len() == 0 {
        users
    } else {
        name_step(names_after(users, frames.drop_last()), frames.last())
    }
}

/// A newcomer that takes the names sent to it knows every member of the room
/// by the name the server holds.
pub proof fn lemma_newcomer_learns_names(p: Seq<(Seq<char>, Seq<char>)>)
    ensures
        names_after(Map::empty(), crate::server::roster(p)) == map_of(p),
    decreases p.len(),
{
    if p.len() > 0 {
        let q = p.drop_last();
        assert(crate::server::roster(p).drop_last() =~= crate::server::roster(q));
        lemma_newcomer_learns_names(q);
    }
}

/// Records the name a `Name` frame announces for its sender.
pub fn name_event(users: &mut Assoc<String, String>, data: &Data)
    requires
        (data@.type_kind == DataTypeKind::Name && data@.inform is Name) ==> data@.token is Some,
    ensures
        final(users)@ == name_step(old(users)@, data@),
{
    if data.type_kind == DataTypeKind::Name {
        if let DataType::Name(n) = &data.inform {
            if let Some(t) = &data.token {
                users.insert(owned_text(t), owned_text(n));
            }
        }
    }
}

/// Whether a frame is a message that `me` sent (so the chat scrolls down).
pub fn is_own_message(me: &String, data: &Data) -> (b: bool)
    ensures
        b == (data@.type_kind == DataTypeKind::Message && data@.inform is Message
            && data@.token == Some(me@)),
{
    if data.type_kind == DataTypeKind::Message {
        if let DataType::Message(_) = &data.inform {
            if let Some(t) = &data.token {
                return owned_text(t) == *me;
            }
        }
    }
    false
}

/// Whether a frame tells this client to switch its computer off.
pub fn is_off_for_me(me: &String, data: &Data) -> (b: bool)
    ensures
        b == (data@.type_kind == DataTypeKind::Off && (data@.inform matches SpecDataType::Off(t)
            && t == me@)),
{
    if data.type_kind == DataTypeKind::Off {
        if let DataType::Off(t) = &data.inform {
            return owned_text(t) == *me;
        }
    }
    false
}

/// The chat frame for what was typed: nothing for blank text, else the text
/// without surrounding white space, from `me`.
pub fn compose_message(me: &String, text: &str) -> (d: Option<Data>)
    ensures
        trim_spec(text@).len() == 0 <==> d is None,
        d matches Some(m) ==> m@ == (SpecData {
            token: Some(me@),
            type_kind: DataTypeKind::Message,
            inform: SpecDataType::Message(trim_spec(text@)),
        }),
{
    let t = trim(text);
    if t.is_empty() {
        return None;
    }
    Some(
        Data {
            token: Some(share(me.clone())),
            type_kind: DataTypeKind::Message,
            inform: DataType::Message(share(t.to_owned())),
        },
    )
}

/// The two frames a client sends on joining: its token, then its name.
pub fn join_frames(token: &String, name: &String) -> (r: (Data, Data))
    ensures
        r.0@ == (SpecData {
            token: None,
            type_kind: DataTypeKind::Token,
            inform: SpecDataType::Token(token@),
        }),
        r.1@ == (SpecData {
            token: None,
            type_kind: DataTypeKind::Name,
            inform: SpecDataType::Name(name@),
        }),
{
    (
        Data {
            token: None,
            type_kind: DataTypeKind::Token,
            inform: DataType::Token(share(token.clone())),
        },
        Data {
            token: None,
            type_kind: DataTypeKind::Name,
            inform: DataType::Name(share(name.clone())),
        },
    )
}

/// The new name typed in the settings: the text without surrounding white
/// space, unless that is empty (then the name stays).
pub fn rename(text: &str) -> (name: Option<String>)
    ensures
        trim_spec(text@).len() == 0 <==> name is None,
        name matches Some(n) ==> n@ == trim_spec(text@),
{
    let t = trim(text);
    if t.is_empty() {
        None
    } else {
        Some(t.to_owned())
    }
}

/// The move prompt opens on a game start for both players of a known challenge,
/// challenger and challenged alike, and for nobody else; the frame changes
/// neither the challenges nor the rights.
pub proof fn lemma_game_start_prompts_both_players(
    users: Map<Seq<char>, Seq<char>>,
    rps: Map<Seq<u8>, (Seq<char>, Seq<char>)>,
    off: Map<Seq<char>, Seq<Seq<char>>>,
    me: Seq<char>,
    token: Option<Seq<char>>,
    id: Seq<u8>,
)
    requires
        rps.contains_key(id),
    ensures
        ({
            let d = SpecData {
                token: token,
                type_kind: DataTypeKind::RPS,
                inform: SpecDataType::RPS(SpecRps::Game(id)),
            };
            let r = rps_event_step(users, rps, off, me, d);
            &&& me == rps[id].0 ==> r.2 == Some(SpecModal::Game(id))
            &&& me == rps[id].1 ==> r.2 == Some(SpecModal::Game(id))
            &&& (me != rps[id].0 && me != rps[id].1) ==> r.2 is None
            &&& r.0 == rps
            &&& r.1 == off
        }),
{
}

/// A challenge frame is recorded with its sender as challenger, and the accept
/// prompt opens exactly on the challenged player's client, naming the challenger;
/// the challenger's own client (which sees its challenge come back) gets no prompt
/// unless it challenged itself.
pub proof fn lemma_challenge_prompts_challenged(
    users: Map<Seq<char>, Seq<char>>,
    rps: Map<Seq<u8>, (Seq<char>, Seq<char>)>,
    off: Map<Seq<char>, Seq<Seq<char>>>,
    me: Seq<char>,
    from: Seq<char>,
    id: Seq<u8>,
    to: Seq<char>,
)
    ensures
        ({
            let d = SpecData {
                token: Some(from),
                type_kind: DataTypeKind::RPS,
                inform: SpecDataType::RPS(SpecRps::Send(id, to)),
            };
            let r = rps_event_step(users, rps, off, me, d);
            &&& (r.2 is Some) <==> (me == to)
            &&& me == to ==> r.2 == Some(SpecModal::Accept(id, users[from]))
            &&& (me == from && from != to) ==> r.2 is None
            &&& r.0.contains_key(id) && r.0[id] == (from, to)
            &&& r.1 == off
        }),
{
}

/// The move a client sends carries the choice that was picked: rock, paper or
/// scissors as picked, and a forfeit for anything past them, in the prompt's game.
pub proof fn lemma_move_carries_choice(id: Seq<u8>, c: u8)
    ensures
        c <= 2 ==> crate::server::choice_of(move_of(id, c)) == Some((id, c)),
        c > 2 ==> crate::server::choice_of(move_of(id, c)) == Some((id, crate::game::FORFEIT)),
        c == 0 ==> move_of(id, c) == SpecRps::Rock(id),
        c == 1 ==> move_of(id, c) == SpecRps::Paper(id),
        c == 2 ==> move_of(id, c) == SpecRps::Scissor(id),
{
}

} // verus!
