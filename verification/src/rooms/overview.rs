//! Looking over all rooms: the public list, the count, and the rooms that
//! nobody is left in.
use crate::game::room::Room;
use crate::game::room::RoomModel;
use crate::game::room::RoomPlayerModel;
use crate::game::state;
use crate::game::state::GamePhase;
use crate::rooms::ManagerModel;
use crate::rooms::RoomManager;
use crate::store::InMemoryStore;
use crate::text;
use vstd::prelude::*;

verus! {

/// A room as the list of public rooms shows it.
#[derive(Debug)]
pub struct PublicRoomSummary {
    pub code: String,
    pub players: usize,
    pub max_players: usize,
    pub phase: String,
    pub host: String,
}

#[verifier::ext_equal]
pub struct SummaryModel {
    pub code: Seq<char>,
    pub players: nat,
    pub max_players: nat,
    pub phase: Seq<char>,
    pub host: Seq<char>,
}

impl View for PublicRoomSummary {
    type V = SummaryModel;

    open spec fn view(&self) -> SummaryModel {
        SummaryModel {
            code: self.code@,
            players: self.players as nat,
            max_players: self.max_players as nat,
            phase: self.phase@,
            host: self.host@,
        }
    }
}

impl Clone for PublicRoomSummary {
    fn clone(&self) -> (r: Self)
        ensures
            r@ == self@,
    {
        PublicRoomSummary {
            code: self.code.clone(),
            players: self.players,
            max_players: self.max_players,
            phase: self.phase.clone(),
            host: self.host.clone(),
        }
    }
}

/// How many of the seats are people's.
pub open spec fn human_count(players: Seq<RoomPlayerModel>) -> nat
    decreases players.len(),
{
    if players.len() == 0 {
        0
    } else {
        human_count(players.drop_last()) + if players.last().is_bot {
            0nat
        } else {
            1nat
        }
    }
}

impl RoomModel {
    /// Is the room listed? It is public and still in its lobby.
    pub open spec fn is_listed(self) -> bool {
        self.is_public && self.state.phase == GamePhase::Lobby
    }

    /// The room as the list shows it.
    pub open spec fn summary(self) -> SummaryModel {
        SummaryModel {
            code: self.code,
            players: human_count(self.players),
            max_players: 4,
            phase: self.state.phase.text(),
            host: if self.players.len() > 0 {
                self.players[0].name
            } else {
                Seq::empty()
            },
        }
    }
}

/// How many of the seats are people's.
fn count_humans(room: &Room) -> (r: usize)
    ensures
        r == human_count(room@.players),
{
    let ghost all = room@.players;
    let mut n: usize = 0;
    let mut i: usize = 0;
    assert(all.take(0) =~= Seq::<RoomPlayerModel>::empty());
    while i < room.players.len()
        invariant
            i <= room.players.len(),
            n <= i,
            all == room@.players,
            n == human_count(all.take(i as int)),
        decreases room.players.len() - i,
    {
        proof {
            assert(all.take(i + 1).drop_last() =~= all.take(i as int));
            assert(all.take(i + 1).last() == room.players@[i as int]@);
        }
        if !room.players[i].is_bot {
            n += 1;
        }
        i += 1;
    }
    assert(all.take(all.len() as int) =~= all);
    n
}

/// The room as the list of public rooms shows it, if it is listed.
pub fn public_summary(room: &Room) -> (r: Option<PublicRoomSummary>)
    ensures
        r is Some <==> room@.is_listed(),
        r matches Some(s) ==> s@ == room@.summary(),
{
    if !room.is_public || room.state.phase != GamePhase::Lobby {
        return None;
    }
    let host = if room.players.len() > 0 {
        assert(room@.players[0] == room.players@[0]@);
        room.players[0].name.clone()
    } else {
        String::new()
    };
    let summary = PublicRoomSummary {
        code: room.code.clone(),
        players: count_humans(room),
        max_players: 4,
        phase: room.state.phase.to_string(),
        host,
    };
    assert(summary@ =~= room@.summary());
    Some(summary)
}

/// What a list of summaries holds.
pub open spec fn summaries(v: Seq<PublicRoomSummary>) -> Seq<SummaryModel> {
    v.map_values(|s: PublicRoomSummary| s@)
}

/// The summaries of the listed ones among these rooms.
pub open spec fn listed(rooms: Seq<RoomModel>) -> Seq<SummaryModel>
    decreases rooms.len(),
{
    if rooms.len() == 0 {
        Seq::empty()
    } else if rooms.last().is_listed() {
        listed(rooms.drop_last()).push(rooms.last().summary())
    } else {
        listed(rooms.drop_last())
    }
}

/// What a list of rooms holds.
pub open spec fn room_models(v: Seq<Room>) -> Seq<RoomModel> {
    v.map_values(|room: Room| room@)
}

/// The rooms under these codes.
pub open spec fn rooms_under(
    rooms: Map<Seq<char>, RoomModel>,
    codes: Seq<Seq<char>>,
) -> Seq<RoomModel> {
    codes.map_values(|code: Seq<char>| rooms[code])
}

/// The rooms of the list that are public and still in their lobbies, as the list
/// of public rooms shows them.
pub fn public_rooms(rooms: &Vec<Room>) -> (r: Vec<PublicRoomSummary>)
    ensures
        summaries(r@) == listed(room_models(rooms@)),
{
    let ghost all = room_models(rooms@);
    let mut out: Vec<PublicRoomSummary> = Vec::new();
    let mut i: usize = 0;
    assert(all.take(0) =~= Seq::<RoomModel>::empty());
    assert(summaries(out@) =~= Seq::empty());
    while i < rooms.len()
        invariant
            i <= rooms.len(),
            all == room_models(rooms@),
            summaries(out@) == listed(all.take(i as int)),
        decreases rooms.len() - i,
    {
        let ghost prev = summaries(out@);
        proof {
            assert(all.take(i + 1).drop_last() =~= all.take(i as int));
            assert(all.take(i + 1).last() == rooms@[i as int]@);
        }
        if let Some(s) = public_summary(&rooms[i]) {
            out.push(s);
            assert(summaries(out@) =~= prev.push(s@));
        }
        i += 1;
    }
    assert(all.take(all.len() as int) =~= all);
    out
}

/// Are these the codes of all rooms, each once?
pub open spec fn all_codes(rooms: Map<Seq<char>, RoomModel>, codes: Seq<Seq<char>>) -> bool {
    &&& codes.no_duplicates()
    &&& forall|code: Seq<char>| #[trigger] codes.contains(code) <==> rooms.dom().contains(code)
}

/// The codes of the rooms that no human has been connected to for too long.
pub open spec fn orphan_codes(
    rooms: Map<Seq<char>, RoomModel>,
    timeout_secs: u64,
    now: u64,
) -> Set<Seq<char>> {
    rooms.dom().filter(|code: Seq<char>| rooms[code].orphaned(timeout_secs, now))
}

impl RoomManager {
    /// The public rooms that are still in their lobbies, in no particular
    /// order.
    pub fn list_public_rooms(&self, rooms: &InMemoryStore) -> (r: Vec<PublicRoomSummary>)
        ensures
            exists|codes: Seq<Seq<char>>|
                all_codes(rooms@, codes) && summaries(r@) == listed(
                    #[trigger] rooms_under(rooms@, codes),
                ),
    {
        let codes = rooms.codes();
        let ghost keys = text::texts(codes@);
        let mut all: Vec<Room> = Vec::new();
        let mut i: usize = 0;
        while i < codes.len()
            invariant
                i <= codes.len(),
                all.len() == i,
                keys == text::texts(codes@),
                all_codes(rooms@, keys),
                forall|k: int| 0 <= k < i ==> (#[trigger] all@[k])@ == rooms@[keys[k]],
            decreases codes.len() - i,
        {
            proof {
                assert(keys[i as int] == codes@[i as int]@);
                assert(keys.contains(keys[i as int]));
            }
            if let Some(room) = rooms.get(codes[i].as_str()) {
                all.push(room);
            }
            i += 1;
        }
        assert(room_models(all@) =~= rooms_under(rooms@, keys));
        public_rooms(&all)
    }

    /// How many rooms there are.
    pub fn room_count(rooms: &InMemoryStore) -> (r: usize)
        ensures
            r == rooms@.dom().len(),
    {
        let codes = rooms.codes();
        proof {
            let keys = text::texts(codes@);
            keys.unique_seq_to_set();
            assert(keys.to_set() =~= rooms@.dom());
        }
        codes.len()
    }

    /// Every room's code, each once, in no particular order.
    pub fn room_codes(rooms: &InMemoryStore) -> (r: Vec<String>)
        ensures
            all_codes(rooms@, text::texts(r@)),
    {
        rooms.codes()
    }

    /// Drops every room that no human has been connected to for too long, and
    /// this server's connections to it, by the machine's clock. Returns how
    /// many rooms are gone.
    pub fn reap_orphaned_rooms(&mut self, rooms: &mut InMemoryStore) -> (r: usize)
        ensures
            exists|now: u64|
                #![trigger orphan_codes(old(rooms)@, old(self)@.orphan_timeout_secs, now)]
                {
                    let gone = orphan_codes(old(rooms)@, old(self)@.orphan_timeout_secs, now);
                    &&& final(rooms)@ == old(rooms)@.remove_keys(gone)
                    &&& final(self)@ == (ManagerModel {
                        sessions: old(self)@.sessions.remove_keys(gone),
                        ..old(self)@
                    })
                    &&& r == gone.len()
                },
    {
        let now: u64 = state::now_secs();
        self.reap_orphaned_rooms_at(rooms, now)
    }

    /// Drops every room that no human has been connected to for too long at
    /// `now`, and this server's connections to it. Returns how many rooms are
    /// gone.
    pub fn reap_orphaned_rooms_at(&mut self, rooms: &mut InMemoryStore, now: u64) -> (r: usize)
        ensures
            ({
                let gone = orphan_codes(old(rooms)@, old(self)@.orphan_timeout_secs, now);
                &&& final(rooms)@ == old(rooms)@.remove_keys(gone)
                &&& final(self)@ == (ManagerModel {
                    sessions: old(self)@.sessions.remove_keys(gone),
                    ..old(self)@
                })
                &&& r == gone.len()
            }),
    {
        let ghost before = rooms@;
        let ghost manager = self@;
        let ghost all = orphan_codes(before, manager.orphan_timeout_secs, now);
        let codes = rooms.codes();
        let ghost keys = text::texts(codes@);
        let ghost mut gone: Set<Seq<char>> = Set::empty();
        let mut dropped: usize = 0;
        let mut i: usize = 0;
        proof {
            assert(before.remove_keys(gone) =~= before);
            assert(manager.sessions.remove_keys(gone) =~= manager.sessions);
        }
        while i < codes.len()
            invariant
                i <= codes.len(),
                dropped <= i,
                dropped == gone.len(),
                gone.finite(),
                keys == text::texts(codes@),
                all_codes(before, keys),
                all == orphan_codes(before, manager.orphan_timeout_secs, now),
                forall|code: Seq<char>|
                    #[trigger] gone.contains(code) <==> all.contains(code) && keys.take(
                        i as int,
                    ).contains(code),
                rooms@ == before.remove_keys(gone),
                self@ == (ManagerModel {
                    sessions: manager.sessions.remove_keys(gone),
                    ..manager
                }),
            decreases codes.len() - i,
        {
            let ghost code = keys[i as int];
            proof {
                assert(code == codes@[i as int]@);
                assert(keys.contains(code));
                assert(keys.take(i + 1) =~= keys.take(i as int).push(code));
                assert(!keys.take(i as int).contains(code)) by {
                    if keys.take(i as int).contains(code) {
                        let k = choose|k: int|
                            0 <= k < keys.take(i as int).len() && keys.take(i as int)[k] == code;
                        assert(keys[k] == code && keys[i as int] == code && k != i);
                    }
                }
                assert(!gone.contains(code));
                let seen = keys.take(i as int);
                let upto = keys.take(i + 1);
                assert forall|c: Seq<char>| #[trigger] upto.contains(c) <==> seen.contains(c) || c
                    == code by {
                    if seen.contains(c) {
                        let k = choose|k: int| 0 <= k < seen.len() && seen[k] == c;
                        assert(upto[k] == c);
                    }
                    if c == code {
                        assert(upto[i as int] == c);
                    }
                    if upto.contains(c) {
                        let k = choose|k: int| 0 <= k < upto.len() && upto[k] == c;
                        if k < i {
                            assert(seen[k] == c);
                        }
                    }
                }
            }
            match rooms.get(codes[i].as_str()) {
                Some(room) => {
                    if room.is_orphaned_at(self.orphan_timeout_secs, now) {
                        rooms.delete(codes[i].as_str());
                        self.forget_room(codes[i].as_str());
                        dropped += 1;
                        proof {
                            let prev = gone;
                            gone = gone.insert(code);
                            assert(before.remove_keys(prev).remove(code) =~= before.remove_keys(
                                gone,
                            ));
                            assert(manager.sessions.remove_keys(prev).remove(code)
                                =~= manager.sessions.remove_keys(gone));
                            assert(all.contains(code));
                        }
                    } else {
                        assert(!all.contains(code));
                    }
                },
                None => {
                    assert(false);
                },
            }
            i += 1;
        }
        proof {
            assert(keys.take(codes.len() as int) =~= keys);
            assert(gone =~= all) by {
                assert forall|code: Seq<char>| gone.contains(code) <==> all.contains(code) by {
                    if all.contains(code) {
                        assert(before.dom().contains(code));
                        assert(keys.contains(code));
                    }
                }
            }
        }
        dropped
    }
}

} // verus!
