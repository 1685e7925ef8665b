//! Closing ranks in the lobby: a seat goes, the others move up, and everything
//! that is kept by seat moves with them.
use crate::game::room;
use crate::game::room::Room;
use crate::game::room::RoomModel;
use crate::game::room::RoomPlayer;
use crate::game::room::RoomPlayerModel;
use crate::game::state;
use crate::game::state::GameModel;
use crate::game::state::GamePhase;
use crate::game::state::Player;
use crate::game::state::PlayerModel;
use vstd::prelude::*;

verus! {

/// The list without the entry at a place, if there is one.
pub open spec fn dropped<A>(s: Seq<A>, at: usize) -> Seq<A> {
    if at < s.len() {
        s.remove(at as int)
    } else {
        s
    }
}

/// The seats other than this one.
pub open spec fn other_seats(players: Seq<RoomPlayerModel>, seat: usize) -> Seq<RoomPlayerModel> {
    players.filter(|p: RoomPlayerModel| p.id != seat)
}

/// The players other than the one in this seat.
pub open spec fn other_players(players: Seq<PlayerModel>, seat: usize) -> Seq<PlayerModel> {
    players.filter(|p: PlayerModel| p.id != seat)
}

/// Is the entry of another seat?
pub open spec fn entry_of_other(seat: usize) -> spec_fn((usize, Seq<char>, u64)) -> bool {
    |e: (usize, Seq<char>, u64)| e.0 != seat
}

/// The entries of other seats, each with its seat's new number.
pub open spec fn other_dropouts(
    entries: Seq<(usize, Seq<char>, u64)>,
    seat: usize,
) -> Seq<(usize, Seq<char>, u64)> {
    entries.filter(entry_of_other(seat)).map_values(
        |e: (usize, Seq<char>, u64)|
            if e.0 > seat {
                ((e.0 - 1) as usize, e.1, e.2)
            } else {
                e
            },
    )
}

/// The seats, numbered by their places.
pub open spec fn numbered_seats(players: Seq<RoomPlayerModel>) -> Seq<RoomPlayerModel> {
    Seq::new(players.len(), |i: int| RoomPlayerModel { id: i as usize, ..players[i] })
}

/// The players, numbered by their places.
pub open spec fn numbered_players(players: Seq<PlayerModel>) -> Seq<PlayerModel> {
    Seq::new(players.len(), |i: int| PlayerModel { id: i as usize, ..players[i] })
}

/// Which of the first `n` seats get a new number when they are numbered by
/// their places, with the old and the new one.
pub open spec fn moves(players: Seq<RoomPlayerModel>, n: int) -> Seq<(usize, usize)>
    decreases n,
{
    if n <= 0 {
        Seq::empty()
    } else if players[n - 1].id != n - 1 {
        moves(players, n - 1).push((players[n - 1].id, (n - 1) as usize))
    } else {
        moves(players, n - 1)
    }
}

impl RoomModel {
    /// With a seat taken away in the lobby and the others numbered anew.
    pub open spec fn without_seat(self, seat: usize) -> RoomModel {
        if self.state.phase != GamePhase::Lobby {
            self
        } else {
            RoomModel {
                players: numbered_seats(other_seats(self.players, seat)),
                ready: dropped(self.ready, seat),
                state: GameModel {
                    players: numbered_players(other_players(self.state.players, seat)),
                    ready: dropped(self.state.ready, seat),
                    scores: dropped(self.state.scores, seat),
                    ..self.state
                },
                disconnected_players: other_dropouts(self.disconnected_players, seat),
                ..self
            }
        }
    }

    /// Old and new number of every seat that gets another one by that.
    pub open spec fn seat_moves(self, seat: usize) -> Seq<(usize, usize)> {
        if self.state.phase != GamePhase::Lobby {
            Seq::empty()
        } else {
            let rest = other_seats(self.players, seat);
            moves(rest, rest.len() as int)
        }
    }

    /// Is the seat's player gone for as long as the timeout?
    pub open spec fn is_stale(self, seat: int, timeout_secs: u64, now: u64) -> bool {
        self.players[seat].disconnect_time matches Some(t) && state::elapsed(now, t)
            >= timeout_secs
    }

    /// The first `n` seats' places whose players are not gone for as long.
    pub open spec fn kept_places(self, timeout_secs: u64, now: u64, n: int) -> Seq<usize>
        decreases n,
    {
        if n <= 0 {
            Seq::empty()
        } else if self.is_stale(n - 1, timeout_secs, now) {
            self.kept_places(timeout_secs, now, n - 1)
        } else {
            self.kept_places(timeout_secs, now, n - 1).push((n - 1) as usize)
        }
    }

    /// Number and name of those of the first `n` seats whose players are gone
    /// for as long.
    pub open spec fn stale_seats(self, timeout_secs: u64, now: u64, n: int) -> Seq<
        (usize, Seq<char>),
    >
        decreases n,
    {
        if n <= 0 {
            Seq::empty()
        } else if self.is_stale(n - 1, timeout_secs, now) {
            self.stale_seats(timeout_secs, now, n - 1).push(
                (self.players[n - 1].id, self.players[n - 1].name),
            )
        } else {
            self.stale_seats(timeout_secs, now, n - 1)
        }
    }

    /// The number that a seat has among those that are kept: how many kept ones
    /// stand before it.
    pub open spec fn new_number(self, timeout_secs: u64, now: u64, seat: usize) -> usize {
        let n = self.players.len() as int;
        if seat < n {
            self.kept_places(timeout_secs, now, seat as int).len() as usize
        } else {
            (seat - (n - self.kept_places(timeout_secs, now, n).len())) as usize
        }
    }

    /// Is the entry of a seat that is kept?
    pub open spec fn entry_kept(self, timeout_secs: u64, now: u64) -> spec_fn(
        (usize, Seq<char>, u64),
    ) -> bool {
        |e: (usize, Seq<char>, u64)|
            !(e.0 < self.players.len() && self.is_stale(e.0 as int, timeout_secs, now))
    }

    /// With the seats of players who are gone for as long as the timeout taken
    /// away in the lobby, and the others numbered anew.
    pub open spec fn reaped(self, timeout_secs: u64, now: u64) -> RoomModel {
        let kept = self.kept_places(timeout_secs, now, self.players.len() as int);
        if self.state.phase != GamePhase::Lobby {
            self
        } else {
            RoomModel {
                players: Seq::new(
                    kept.len(),
                    |j: int|
                        RoomPlayerModel { id: j as usize, ..self.players[kept[j] as int] },
                ),
                ready: Seq::new(kept.len(), |j: int| self.ready[kept[j] as int]),
                state: GameModel {
                    players: Seq::new(
                        kept.len(),
                        |j: int|
                            PlayerModel { id: j as usize, ..self.state.players[kept[j] as int] },
                    ),
                    ready: Seq::new(kept.len(), |j: int| self.state.ready[kept[j] as int]),
                    scores: Seq::new(kept.len(), |j: int| self.state.scores[kept[j] as int]),
                    ..self.state
                },
                disconnected_players: self.disconnected_players.filter(
                    self.entry_kept(timeout_secs, now),
                ).map_values(
                    |e: (usize, Seq<char>, u64)|
                        (self.new_number(timeout_secs, now, e.0), e.1, e.2),
                ),
                ..self
            }
        }
    }

    /// Who is taken away by that.
    pub open spec fn reaped_seats(self, timeout_secs: u64, now: u64) -> Seq<(usize, Seq<char>)> {
        if self.state.phase != GamePhase::Lobby {
            Seq::empty()
        } else {
            self.stale_seats(timeout_secs, now, self.players.len() as int)
        }
    }

    /// Old and new number of every seat that gets another one by that.
    pub open spec fn reap_moves(self, timeout_secs: u64, now: u64) -> Seq<(usize, usize)> {
        if self.state.phase != GamePhase::Lobby {
            Seq::empty()
        } else {
            let kept = self.kept_places(timeout_secs, now, self.players.len() as int);
            place_moves(kept, kept.len() as int)
        }
    }
}

/// Those of the first `n` places that differ from their index, with the index.
pub open spec fn place_moves(kept: Seq<usize>, n: int) -> Seq<(usize, usize)>
    decreases n,
{
    if n <= 0 {
        Seq::empty()
    } else if kept[n - 1] != n - 1 {
        place_moves(kept, n - 1).push((kept[n - 1], (n - 1) as usize))
    } else {
        place_moves(kept, n - 1)
    }
}

/// Where a seat's player sits after a renumbering: the first pair that names
/// their old seat says it; without one they stay.
pub open spec fn followed(moves: Seq<(usize, usize)>, seat: usize) -> usize
    decreases moves.len(),
{
    if moves.len() == 0 {
        seat
    } else if moves[0].0 == seat {
        moves[0].1
    } else {
        followed(moves.drop_first(), seat)
    }
}

impl RoomModel {
    /// With one seat of a lobby gone and every seat after it moved up by one,
    /// along with everything that is kept by seat. The players who have dropped
    /// out are noted under their seats' new numbers; the seat that is gone has
    /// no such note.
    pub open spec fn ranks_closed(self, taken: usize) -> RoomModel {
        let n = (self.players.len() - 1) as nat;
        let from = |i: int|
            if i < taken {
                i
            } else {
                i + 1
            };
        RoomModel {
            players: Seq::new(
                n,
                |i: int| RoomPlayerModel { id: i as usize, ..self.players[from(i)] },
            ),
            ready: self.ready.remove(taken as int),
            state: GameModel {
                players: Seq::new(
                    n,
                    |i: int| PlayerModel { id: i as usize, ..self.state.players[from(i)] },
                ),
                ready: self.state.ready.remove(taken as int),
                scores: self.state.scores.remove(taken as int),
                ..self.state
            },
            disconnected_players: other_dropouts(self.disconnected_players, taken),
            ..self
        }
    }
}

/// Old and new number of every seat after the one that is gone, of `n` seats, in
/// the order of the seats: each moves up by one.
pub open spec fn one_up(n: nat, taken: usize) -> Seq<(usize, usize)> {
    Seq::new(
        (n - taken - 1) as nat,
        |k: int| ((taken + 1 + k) as usize, (taken + k) as usize),
    )
}

impl Room {
    /// Takes a seat away in the lobby, closes the ranks and numbers the seats
    /// anew. Returns the old and the new number of every seat whose number has
    /// changed. The seat's entry among the dropped-out players goes with it,
    /// and the others' entries follow their seats: nobody comes back to a seat
    /// that is somebody else's by then.
    pub fn remove_lobby_seat(&mut self, seat_id: usize) -> (r: Vec<(usize, usize)>)
        ensures
            final(self)@ == old(self)@.without_seat(seat_id),
            r@ == old(self)@.seat_moves(seat_id),
            old(self)@.aligned() && old(self)@.state.phase == GamePhase::Lobby && (seat_id as int)
                < old(self)@.players.len() ==> {
                &&& final(self)@ == old(self)@.ranks_closed(seat_id)
                &&& final(self)@.aligned()
                &&& r@ == one_up(old(self)@.players.len(), seat_id)
            },
    {
        if self.state.phase != GamePhase::Lobby {
            return Vec::new();
        }
        let ghost before = self@;
        let (players, renumbered) = other_seats_numbered(&self.players, seat_id);
        self.players = players;
        let at_table = other_players_numbered(&self.state.players, seat_id);
        self.state.players = at_table;
        if seat_id < self.ready.len() {
            self.ready.remove(seat_id);
        }
        if seat_id < self.state.ready.len() {
            self.state.ready.remove(seat_id);
        }
        if seat_id < self.state.scores.len() {
            self.state.scores.remove(seat_id);
        }
        let entries = other_dropouts_shifted(&self.disconnected_players, seat_id);
        self.disconnected_players = entries;
        assert(self@.state =~= before.without_seat(seat_id).state);
        assert(self@ =~= before.without_seat(seat_id));
        proof {
            if before.aligned() && (seat_id as int) < before.players.len() {
                law_removal_closes_ranks(before, seat_id);
            }
        }
        renumbered
    }

    /// Takes away the seats of lobby players who are gone for as long as the
    /// timeout, by the machine's clock.
    pub fn cleanup_disconnected_lobby_players(&mut self, timeout_secs: u64) -> (r: (
        Vec<(usize, String)>,
        Vec<(usize, usize)>,
    ))
        requires
            old(self)@.aligned(),
        ensures
            exists|now: u64|
                #![trigger old(self)@.reaped(timeout_secs, now)]
                final(self)@ == old(self)@.reaped(timeout_secs, now) && named_seats(r.0@)
                    == old(self)@.reaped_seats(timeout_secs, now) && r.1@ == old(self)@.reap_moves(
                    timeout_secs,
                    now,
                ),
    {
        let now: u64 = state::now_secs();
        self.cleanup_disconnected_lobby_players_at(timeout_secs, now)
    }

    /// Takes away the seats of lobby players who are gone for as long as the
    /// timeout at `now`. Returns their numbers and names, and the old and new
    /// number of every seat that has got another one.
    pub fn cleanup_disconnected_lobby_players_at(&mut self, timeout_secs: u64, now: u64) -> (r: (
        Vec<(usize, String)>,
        Vec<(usize, usize)>,
    ))
        requires
            old(self)@.aligned(),
        ensures
            final(self)@ == old(self)@.reaped(timeout_secs, now),
            named_seats(r.0@) == old(self)@.reaped_seats(timeout_secs, now),
            r.1@ == old(self)@.reap_moves(timeout_secs, now),
    {
        if self.state.phase != GamePhase::Lobby {
            let stale: Vec<(usize, String)> = Vec::new();
            assert(named_seats(stale@) =~= Seq::empty());
            return (stale, Vec::new());
        }
        let ghost before = self@;
        let (kept, stale) = self.sort_out_stale(timeout_secs, now);
        let ghost places = kept@;
        let mut players: Vec<RoomPlayer> = Vec::new();
        let mut at_table: Vec<Player> = Vec::new();
        let mut ready: Vec<bool> = Vec::new();
        let mut table_ready: Vec<bool> = Vec::new();
        let mut scores: Vec<i32> = Vec::new();
        let mut renumbered: Vec<(usize, usize)> = Vec::new();
        let mut j: usize = 0;
        while j < kept.len()
            invariant
                j <= kept.len(),
                kept@ == places,
                self@ == before,
                before.aligned(),
                forall|k: int|
                    0 <= k < kept.len() ==> (#[trigger] kept@[k] as int) < before.players.len(),
                players.len() == j,
                at_table.len() == j,
                ready.len() == j,
                table_ready.len() == j,
                scores.len() == j,
                forall|k: int|
                    0 <= k < j ==> (#[trigger] players@[k])@ == (RoomPlayerModel {
                        id: k as usize,
                        ..before.players[places[k] as int]
                    }),
                forall|k: int|
                    0 <= k < j ==> (#[trigger] at_table@[k])@ == (PlayerModel {
                        id: k as usize,
                        ..before.state.players[places[k] as int]
                    }),
                forall|k: int| 0 <= k < j ==> #[trigger] ready@[k] == before.ready[places[k] as int],
                forall|k: int|
                    0 <= k < j ==> #[trigger] table_ready@[k]
                        == before.state.ready[places[k] as int],
                forall|k: int|
                    0 <= k < j ==> #[trigger] scores@[k] == before.state.scores[places[k] as int],
                renumbered@ == place_moves(places, j as int),
            decreases kept.len() - j,
        {
            let from: usize = kept[j];
            assert((places[j as int] as int) < before.players.len());
            assert(before.players[from as int] == self.players@[from as int]@);
            assert(before.state.players[from as int] == self.state.players@[from as int]@);
            let mut sitter = self.players[from].clone();
            sitter.id = j;
            players.push(sitter);
            let mut player = self.state.players[from].clone();
            player.id = j;
            at_table.push(player);
            ready.push(self.ready[from]);
            table_ready.push(self.state.ready[from]);
            scores.push(self.state.scores[from]);
            if from != j {
                renumbered.push((from, j));
            }
            j += 1;
        }
        let entries = self.kept_dropouts(timeout_secs, now);
        self.players = players;
        self.state.players = at_table;
        self.ready = ready;
        self.state.ready = table_ready;
        self.state.scores = scores;
        self.disconnected_players = entries;
        proof {
            let want = before.reaped(timeout_secs, now);
            assert(self@.players =~= want.players);
            assert(self@.state.players =~= want.state.players);
            assert(self@.ready =~= want.ready);
            assert(self@.state.ready =~= want.state.ready);
            assert(self@.state.scores =~= want.state.scores);
            assert(self@.state =~= want.state);
            assert(self@ =~= want);
        }
        (stale, renumbered)
    }

    /// Is the seat's player gone for as long as the timeout?
    fn seat_is_stale(&self, seat: usize, timeout_secs: u64, now: u64) -> (r: bool)
        requires
            seat < self.players.len(),
        ensures
            r == self@.is_stale(seat as int, timeout_secs, now),
    {
        assert(self@.players[seat as int] == self.players@[seat as int]@);
        match self.players[seat].disconnect_time {
            Some(t) => now.saturating_sub(t) >= timeout_secs,
            None => false,
        }
    }

    /// The places that are kept, and number and name of those that are not.
    fn sort_out_stale(&self, timeout_secs: u64, now: u64) -> (r: (
        Vec<usize>,
        Vec<(usize, String)>,
    ))
        ensures
            r.0@ == self@.kept_places(timeout_secs, now, self@.players.len() as int),
            named_seats(r.1@) == self@.stale_seats(timeout_secs, now, self@.players.len() as int),
            forall|k: int|
                0 <= k < r.0@.len() ==> (#[trigger] r.0@[k] as int) < self@.players.len(),
    {
        let mut kept: Vec<usize> = Vec::new();
        let mut stale: Vec<(usize, String)> = Vec::new();
        let mut i: usize = 0;
        assert(named_seats(stale@) =~= Seq::empty());
        while i < self.players.len()
            invariant
                i <= self.players.len(),
                kept@ == self@.kept_places(timeout_secs, now, i as int),
                named_seats(stale@) == self@.stale_seats(timeout_secs, now, i as int),
                forall|k: int| 0 <= k < kept@.len() ==> (#[trigger] kept@[k] as int) < i,
            decreases self.players.len() - i,
        {
            let ghost prev = named_seats(stale@);
            assert(self@.players[i as int] == self.players@[i as int]@);
            if self.seat_is_stale(i, timeout_secs, now) {
                let name = self.players[i].name.clone();
                stale.push((self.players[i].id, name));
                assert(named_seats(stale@) =~= prev.push(
                    (self@.players[i as int].id, self@.players[i as int].name),
                ));
            } else {
                kept.push(i);
            }
            i += 1;
        }
        (kept, stale)
    }

    /// How many of the first `n` seats are kept.
    fn count_kept(&self, timeout_secs: u64, now: u64, n: usize) -> (r: usize)
        requires
            n <= self.players.len(),
        ensures
            r == self@.kept_places(timeout_secs, now, n as int).len(),
            r <= n,
    {
        let mut count: usize = 0;
        let mut i: usize = 0;
        while i < n
            invariant
                i <= n <= self.players.len(),
                count == self@.kept_places(timeout_secs, now, i as int).len(),
                count <= i,
            decreases n - i,
        {
            if !self.seat_is_stale(i, timeout_secs, now) {
                count += 1;
            }
            i += 1;
        }
        count
    }

    /// The entries of seats that are kept, with their seats' new numbers.
    fn kept_dropouts(&self, timeout_secs: u64, now: u64) -> (r: Vec<(usize, String, u64)>)
        ensures
            room::dropout_models(r@) == self@.disconnected_players.filter(
                self@.entry_kept(timeout_secs, now),
            ).map_values(
                |e: (usize, Seq<char>, u64)| (self@.new_number(timeout_secs, now, e.0), e.1, e.2),
            ),
    {
        let ghost all = self@.disconnected_players;
        let ghost keep = self@.entry_kept(timeout_secs, now);
        let ghost number = |e: (usize, Seq<char>, u64)|
            (self@.new_number(timeout_secs, now, e.0), e.1, e.2);
        let seats: usize = self.players.len();
        let left: usize = self.count_kept(timeout_secs, now, seats);
        let mut out: Vec<(usize, String, u64)> = Vec::new();
        let mut i: usize = 0;
        proof {
            reveal(Seq::filter);
            assert(all.take(0) =~= Seq::empty());
            assert(room::dropout_models(out@) =~= Seq::empty());
            assert(all.take(0).filter(keep).map_values(number) =~= Seq::empty());
        }
        while i < self.disconnected_players.len()
            invariant
                i <= self.disconnected_players.len(),
                all == self@.disconnected_players,
                keep == self@.entry_kept(timeout_secs, now),
                number == (|e: (usize, Seq<char>, u64)|
                    (self@.new_number(timeout_secs, now, e.0), e.1, e.2)),
                seats == self.players.len(),
                left == self@.kept_places(timeout_secs, now, seats as int).len(),
                left <= seats,
                room::dropout_models(out@) == all.take(i as int).filter(keep).map_values(number),
            decreases self.disconnected_players.len() - i,
        {
            let ghost prev = room::dropout_models(out@);
            let ghost entry = all[i as int];
            proof {
                reveal(Seq::filter);
                assert(all.take(i + 1).drop_last() =~= all.take(i as int));
                assert(all.take(i + 1).last() == entry);
            }
            let seat: usize = self.disconnected_players[i].0;
            let stamp: u64 = self.disconnected_players[i].2;
            let keep_it: bool = seat >= seats || !self.seat_is_stale(seat, timeout_secs, now);
            if keep_it {
                let new_seat: usize = if seat < seats {
                    self.count_kept(timeout_secs, now, seat)
                } else {
                    seat - (seats - left)
                };
                let token = self.disconnected_players[i].1.clone();
                out.push((new_seat, token, stamp));
                assert(room::dropout_models(out@) =~= prev.push(number(entry)));
                assert(all.take(i + 1).filter(keep) =~= all.take(i as int).filter(keep).push(
                    entry,
                ));
                assert(all.take(i + 1).filter(keep).map_values(number) =~= prev.push(
                    number(entry),
                ));
            } else {
                assert(all.take(i + 1).filter(keep) =~= all.take(i as int).filter(keep));
            }
            i += 1;
        }
        assert(all.take(all.len() as int) =~= all);
        out
    }
}

/// What a list of numbers and names holds.
pub open spec fn named_seats(v: Seq<(usize, String)>) -> Seq<(usize, Seq<char>)> {
    v.map_values(|e: (usize, String)| (e.0, e.1@))
}

/// The seats other than this one, numbered by their places, and which of them
/// have got another number by that.
fn other_seats_numbered(players: &Vec<RoomPlayer>, seat: usize) -> (r: (
    Vec<RoomPlayer>,
    Vec<(usize, usize)>,
))
    ensures
        room::seat_models(r.0@) == numbered_seats(other_seats(room::seat_models(players@), seat)),
        r.1@ == moves(
            other_seats(room::seat_models(players@), seat),
            other_seats(room::seat_models(players@), seat).len() as int,
        ),
{
    let ghost all = room::seat_models(players@);
    let mut out: Vec<RoomPlayer> = Vec::new();
    let mut renumbered: Vec<(usize, usize)> = Vec::new();
    let mut i: usize = 0;
    proof {
        reveal(Seq::filter);
        assert(all.take(0) =~= Seq::empty());
        assert(room::seat_models(out@) =~= numbered_seats(other_seats(all.take(0), seat)));
    }
    while i < players.len()
        invariant
            i <= players.len(),
            all == room::seat_models(players@),
            out.len() <= i,
            out.len() == other_seats(all.take(i as int), seat).len(),
            room::seat_models(out@) == numbered_seats(other_seats(all.take(i as int), seat)),
            renumbered@ == moves(
                other_seats(all.take(i as int), seat),
                other_seats(all.take(i as int), seat).len() as int,
            ),
        decreases players.len() - i,
    {
        let ghost prev = other_seats(all.take(i as int), seat);
        let ghost next = other_seats(all.take(i + 1), seat);
        let ghost shown = room::seat_models(out@);
        proof {
            reveal(Seq::filter);
            assert(all.take(i + 1).drop_last() =~= all.take(i as int));
            assert(all.take(i + 1).last() == players@[i as int]@);
        }
        if players[i].id != seat {
            let new_id: usize = out.len();
            let mut p = players[i].clone();
            let ghost entry = players@[i as int]@;
            if p.id != new_id {
                renumbered.push((p.id, new_id));
            }
            p.id = new_id;
            out.push(p);
            proof {
                assert(next == prev.push(entry));
                assert(room::seat_models(out@) =~= shown.push(
                    RoomPlayerModel { id: new_id, ..entry },
                ));
                assert(room::seat_models(out@) =~= numbered_seats(next));
                lemma_moves_prefix(prev, next, prev.len() as int);
                assert(next[next.len() - 1] == entry);
            }
        }
        i += 1;
    }
    assert(all.take(all.len() as int) =~= all);
    (out, renumbered)
}

proof fn lemma_moves_prefix(a: Seq<RoomPlayerModel>, b: Seq<RoomPlayerModel>, n: int)
    requires
        n <= a.len(),
        n <= b.len(),
        forall|i: int| 0 <= i < n ==> a[i] == b[i],
    ensures
        moves(a, n) == moves(b, n),
    decreases n,
{
    if n > 0 {
        lemma_moves_prefix(a, b, n - 1);
    }
}

/// The players other than the one in this seat, numbered by their places.
fn other_players_numbered(players: &Vec<Player>, seat: usize) -> (r: Vec<Player>)
    ensures
        state::player_models(r@) == numbered_players(
            other_players(state::player_models(players@), seat),
        ),
{
    let ghost all = state::player_models(players@);
    let mut out: Vec<Player> = Vec::new();
    let mut i: usize = 0;
    proof {
        reveal(Seq::filter);
        assert(all.take(0) =~= Seq::empty());
        assert(state::player_models(out@) =~= numbered_players(other_players(all.take(0), seat)));
    }
    while i < players.len()
        invariant
            i <= players.len(),
            all == state::player_models(players@),
            out.len() <= i,
            out.len() == other_players(all.take(i as int), seat).len(),
            state::player_models(out@) == numbered_players(
                other_players(all.take(i as int), seat),
            ),
        decreases players.len() - i,
    {
        let ghost prev = other_players(all.take(i as int), seat);
        let ghost next = other_players(all.take(i + 1), seat);
        let ghost shown = state::player_models(out@);
        proof {
            reveal(Seq::filter);
            assert(all.take(i + 1).drop_last() =~= all.take(i as int));
            assert(all.take(i + 1).last() == players@[i as int]@);
        }
        if players[i].id != seat {
            let new_id: usize = out.len();
            let mut p = players[i].clone();
            let ghost entry = players@[i as int]@;
            p.id = new_id;
            out.push(p);
            proof {
                assert(next == prev.push(entry));
                assert(state::player_models(out@) =~= shown.push(
                    PlayerModel { id: new_id, ..entry },
                ));
                assert(state::player_models(out@) =~= numbered_players(next));
            }
        }
        i += 1;
    }
    assert(all.take(all.len() as int) =~= all);
    out
}

/// The entries of other seats, each with its seat's new number.
fn other_dropouts_shifted(entries: &Vec<(usize, String, u64)>, seat: usize) -> (r: Vec<
    (usize, String, u64),
>)
    ensures
        room::dropout_models(r@) == other_dropouts(room::dropout_models(entries@), seat),
{
    let ghost all = room::dropout_models(entries@);
    let mut out: Vec<(usize, String, u64)> = Vec::new();
    let mut i: usize = 0;
    proof {
        reveal(Seq::filter);
        assert(all.take(0) =~= Seq::empty());
        assert(room::dropout_models(out@) =~= other_dropouts(all.take(0), seat));
    }
    while i < entries.len()
        invariant
            i <= entries.len(),
            all == room::dropout_models(entries@),
            room::dropout_models(out@) == other_dropouts(all.take(i as int), seat),
        decreases entries.len() - i,
    {
        let ghost shown = room::dropout_models(out@);
        let ghost entry = all[i as int];
        proof {
            reveal(Seq::filter);
            assert(all.take(i + 1).drop_last() =~= all.take(i as int));
            assert(all.take(i + 1).last() == entry);
        }
        let own: usize = entries[i].0;
        let stamp: u64 = entries[i].2;
        if own != seat {
            let new_id: usize = if own > seat {
                own - 1
            } else {
                own
            };
            let token = entries[i].1.clone();
            out.push((new_id, token, stamp));
            assert(room::dropout_models(out@) =~= shown.push((new_id, entry.1, entry.2)));
            assert(other_dropouts(all.take(i + 1), seat) =~= shown.push(
                (new_id, entry.1, entry.2),
            ));
        } else {
            assert(other_dropouts(all.take(i + 1), seat) =~= shown);
        }
        i += 1;
    }
    assert(all.take(all.len() as int) =~= all);
    out
}

// ---------------------------------------------------------------------------
// What closing ranks keeps
// ---------------------------------------------------------------------------

proof fn lemma_followed_hit(moves: Seq<(usize, usize)>, seat: usize, q: int)
    requires
        0 <= q < moves.len(),
        moves[q].0 == seat,
        forall|p: int| 0 <= p < moves.len() && (#[trigger] moves[p]).0 == seat ==> moves[p].1
            == moves[q].1,
    ensures
        followed(moves, seat) == moves[q].1,
    decreases moves.len(),
{
    if moves[0].0 != seat {
        let rest = moves.drop_first();
        assert forall|p: int| 0 <= p < rest.len() && (#[trigger] rest[p]).0 == seat implies rest[p].1
            == rest[q - 1].1 by {
            assert(rest[p] == moves[p + 1]);
        }
        lemma_followed_hit(rest, seat, q - 1);
    }
}

proof fn lemma_followed_miss(moves: Seq<(usize, usize)>, seat: usize)
    requires
        forall|p: int| 0 <= p < moves.len() ==> (#[trigger] moves[p]).0 != seat,
    ensures
        followed(moves, seat) == seat,
    decreases moves.len(),
{
    if moves.len() > 0 {
        let rest = moves.drop_first();
        assert forall|p: int| 0 <= p < rest.len() implies (#[trigger] rest[p]).0 != seat by {
            assert(rest[p] == moves[p + 1]);
        }
        assert(moves[0].0 != seat);
        lemma_followed_miss(rest, seat);
    }
}

proof fn lemma_place_moves(kept: Seq<usize>, n: int)
    requires
        n <= kept.len() <= usize::MAX,
    ensures
        forall|q: int|
            0 <= q < place_moves(kept, n).len() ==> {
                let m = #[trigger] place_moves(kept, n)[q];
                m.1 < n && m.0 == kept[m.1 as int] && m.0 != m.1
            },
        forall|p: int, q: int|
            0 <= p < q < place_moves(kept, n).len() ==> (#[trigger] place_moves(kept, n)[p]).1 < (
            #[trigger] place_moves(kept, n)[q]).1,
        forall|j: int|
            0 <= j < n && kept[j] != j ==> place_moves(kept, n).contains(
                (#[trigger] kept[j], j as usize),
            ),
    decreases n,
{
    if n > 0 {
        lemma_place_moves(kept, n - 1);
        let prev = place_moves(kept, n - 1);
        let all = place_moves(kept, n);
        assert forall|q: int| 0 <= q < all.len() implies {
            let m = #[trigger] all[q];
            m.1 < n && m.0 == kept[m.1 as int] && m.0 != m.1
        } by {
            if q < prev.len() {
                assert(all[q] == prev[q]);
            }
        }
        assert forall|p: int, q: int| 0 <= p < q < all.len() implies (#[trigger] all[p]).1 < (
        #[trigger] all[q]).1 by {
            assert(all[p] == prev[p]);
            if q < prev.len() {
                assert(all[q] == prev[q]);
            }
        }
        assert forall|j: int| 0 <= j < n && kept[j] != j implies all.contains(
            (#[trigger] kept[j], j as usize),
        ) by {
            if j < n - 1 {
                assert(prev.contains((kept[j], j as usize)));
                let q = choose|q: int| 0 <= q < prev.len() && prev[q] == (kept[j], j as usize);
                assert(all[q] == prev[q]);
            } else {
                assert(all[all.len() - 1] == (kept[j], j as usize));
            }
        }
    }
}

/// Whoever stands at a place of an ascending list of kept places is followed to
/// that place.
proof fn lemma_follow_kept(kept: Seq<usize>, j: int)
    requires
        0 <= j < kept.len() <= usize::MAX,
        forall|a: int, b: int| 0 <= a < b < kept.len() ==> kept[a] < kept[b],
    ensures
        followed(place_moves(kept, kept.len() as int), kept[j]) == j,
{
    let all = place_moves(kept, kept.len() as int);
    lemma_place_moves(kept, kept.len() as int);
    assert forall|p: int| 0 <= p < all.len() && (#[trigger] all[p]).0 == kept[j] implies all[p].1
        == j by {
        let m = all[p];
        assert(kept[m.1 as int] == kept[j]);
        if m.1 < j {
            assert(kept[m.1 as int] < kept[j]);
        } else if m.1 > j {
            assert(kept[j] < kept[m.1 as int]);
        }
    }
    if kept[j] != j {
        assert(all.contains((kept[j], j as usize)));
        let q = choose|q: int| 0 <= q < all.len() && all[q] == (kept[j], j as usize);
        lemma_followed_hit(all, kept[j], q);
    } else {
        assert forall|p: int| 0 <= p < all.len() implies (#[trigger] all[p]).0 != kept[j] by {
            if all[p].0 == kept[j] {
                assert(all[p].1 == j);
            }
        }
        lemma_followed_miss(all, kept[j]);
    }
}

proof fn lemma_kept_places(room: RoomModel, timeout_secs: u64, now: u64, n: int)
    requires
        0 <= n <= room.players.len() <= usize::MAX,
    ensures
        room.kept_places(timeout_secs, now, n).len() <= n,
        forall|k: int|
            0 <= k < room.kept_places(timeout_secs, now, n).len() ==> (
            #[trigger] room.kept_places(timeout_secs, now, n)[k] as int) < n,
        forall|a: int, b: int|
            0 <= a < b < room.kept_places(timeout_secs, now, n).len() ==> room.kept_places(
                timeout_secs,
                now,
                n,
            )[a] < room.kept_places(timeout_secs, now, n)[b],
    decreases n,
{
    if n > 0 {
        lemma_kept_places(room, timeout_secs, now, n - 1);
        let prev = room.kept_places(timeout_secs, now, n - 1);
        let all = room.kept_places(timeout_secs, now, n);
        assert forall|k: int| 0 <= k < all.len() implies (#[trigger] all[k] as int) < n by {
            if k < prev.len() {
                assert(all[k] == prev[k]);
            }
        }
        assert forall|a: int, b: int| 0 <= a < b < all.len() implies all[a] < all[b] by {
            assert(all[a] == prev[a]);
            if b < prev.len() {
                assert(all[b] == prev[b]);
            }
        }
    }
}

/// A seat that is kept stands among the kept ones at its new number.
proof fn lemma_kept_at(room: RoomModel, timeout_secs: u64, now: u64, seat: int, n: int)
    requires
        0 <= seat < n <= room.players.len() <= usize::MAX,
        !room.is_stale(seat, timeout_secs, now),
    ensures
        room.kept_places(timeout_secs, now, seat).len() < room.kept_places(
            timeout_secs,
            now,
            n,
        ).len(),
        room.kept_places(timeout_secs, now, n)[room.kept_places(
            timeout_secs,
            now,
            seat,
        ).len() as int] == seat,
    decreases n,
{
    if seat < n - 1 {
        lemma_kept_at(room, timeout_secs, now, seat, n - 1);
    }
}

/// Taking stale seats away keeps a room's seats in agreement.
pub proof fn law_reaping_keeps_alignment(room: RoomModel, timeout_secs: u64, now: u64)
    requires
        room.aligned(),
        room.players.len() <= usize::MAX,
    ensures
        room.reaped(timeout_secs, now).aligned(),
{
    lemma_kept_places(room, timeout_secs, now, room.players.len() as int);
}

/// Whoever keeps their seat when stale ones are taken away keeps everything
/// that goes with it: name, token, crown, readiness and score. The reported
/// moves lead from their old number to their new one.
pub proof fn law_reaping_follows_survivors(
    room: RoomModel,
    timeout_secs: u64,
    now: u64,
    seat: usize,
)
    requires
        room.aligned(),
        room.state.phase == GamePhase::Lobby,
        room.players.len() <= usize::MAX,
        seat < room.players.len(),
        !room.is_stale(seat as int, timeout_secs, now),
    ensures
        ({
            let after = room.reaped(timeout_secs, now);
            let moved = followed(room.reap_moves(timeout_secs, now), seat);
            let j = moved as int;
            &&& moved == room.new_number(timeout_secs, now, seat)
            &&& j < after.players.len()
            &&& after.players[j] == (RoomPlayerModel { id: moved, ..room.players[seat as int] })
            &&& after.state.players[j] == (PlayerModel {
                id: moved,
                ..room.state.players[seat as int]
            })
            &&& after.ready[j] == room.ready[seat as int]
            &&& after.state.ready[j] == room.state.ready[seat as int]
            &&& after.state.scores[j] == room.state.scores[seat as int]
        }),
{
    let n = room.players.len() as int;
    let kept = room.kept_places(timeout_secs, now, n);
    lemma_kept_places(room, timeout_secs, now, n);
    lemma_kept_places(room, timeout_secs, now, seat as int);
    lemma_kept_at(room, timeout_secs, now, seat as int, n);
    let j = room.kept_places(timeout_secs, now, seat as int).len() as int;
    lemma_follow_kept(kept, j);
}

/// The seats that are kept are not stale.
proof fn lemma_kept_fresh(room: RoomModel, timeout_secs: u64, now: u64, n: int)
    requires
        0 <= n <= room.players.len() <= usize::MAX,
    ensures
        forall|k: int|
            0 <= k < room.kept_places(timeout_secs, now, n).len() ==> !room.is_stale(
                (#[trigger] room.kept_places(timeout_secs, now, n)[k]) as int,
                timeout_secs,
                now,
            ),
    decreases n,
{
    if n > 0 {
        lemma_kept_fresh(room, timeout_secs, now, n - 1);
        let prev = room.kept_places(timeout_secs, now, n - 1);
        let all = room.kept_places(timeout_secs, now, n);
        assert forall|k: int| 0 <= k < all.len() implies !room.is_stale(
            (#[trigger] all[k]) as int,
            timeout_secs,
            now,
        ) by {
            if k < prev.len() {
                assert(all[k] == prev[k]);
            }
        }
    }
}

/// When stale seats are taken away, the reported moves are those of all seats
/// that stay and get another number, in the order of the seats.
pub proof fn law_reaping_reports_moves(room: RoomModel, timeout_secs: u64, now: u64)
    requires
        room.state.phase == GamePhase::Lobby,
        room.players.len() <= usize::MAX,
    ensures
        forall|p: int, q: int|
            0 <= p < q < room.reap_moves(timeout_secs, now).len() ==> (
            #[trigger] room.reap_moves(timeout_secs, now)[p]).0 < (
            #[trigger] room.reap_moves(timeout_secs, now)[q]).0,
        forall|a: usize, b: usize| #[trigger]
            room.reap_moves(timeout_secs, now).contains((a, b)) <==> a < room.players.len()
                && !room.is_stale(a as int, timeout_secs, now) && b == room.new_number(
                timeout_secs,
                now,
                a,
            ) && a != b,
{
    let n = room.players.len() as int;
    let kept = room.kept_places(timeout_secs, now, n);
    let all = room.reap_moves(timeout_secs, now);
    lemma_kept_places(room, timeout_secs, now, n);
    lemma_kept_fresh(room, timeout_secs, now, n);
    lemma_place_moves(kept, kept.len() as int);
    assert forall|p: int, q: int| 0 <= p < q < all.len() implies (#[trigger] all[p]).0 < (
    #[trigger] all[q]).0 by {
        assert(all[p].1 < all[q].1);
        assert(kept[all[p].1 as int] < kept[all[q].1 as int]);
    }
    assert forall|a: usize, b: usize| #[trigger] all.contains((a, b)) <==> a < n && !room.is_stale(
        a as int,
        timeout_secs,
        now,
    ) && b == room.new_number(timeout_secs, now, a) && a != b by {
        if all.contains((a, b)) {
            let q = choose|q: int| 0 <= q < all.len() && all[q] == (a, b);
            assert(all[q].1 < kept.len() && all[q].0 == kept[all[q].1 as int]);
            lemma_kept_at(room, timeout_secs, now, a as int, n);
            let j = room.kept_places(timeout_secs, now, a as int).len() as int;
            if j < b {
                assert(kept[j] < kept[b as int]);
            } else if j > b {
                assert(kept[b as int] < kept[j]);
            }
        }
        if a < n && !room.is_stale(a as int, timeout_secs, now) && b == room.new_number(
            timeout_secs,
            now,
            a,
        ) && a != b {
            lemma_kept_at(room, timeout_secs, now, a as int, n);
            lemma_kept_places(room, timeout_secs, now, a as int);
            assert(kept[b as int] == a);
            assert(all.contains((kept[b as int], b)));
        }
    }
}

proof fn lemma_other_seats_dense(players: Seq<RoomPlayerModel>, seat: usize, n: int)
    requires
        0 <= n <= players.len(),
        forall|i: int| 0 <= i < players.len() ==> (#[trigger] players[i]).id == i,
    ensures
        other_seats(players.take(n), seat) == if n <= seat {
            players.take(n)
        } else {
            players.take(n).remove(seat as int)
        },
    decreases n,
{
    reveal(Seq::filter);
    if n > 0 {
        lemma_other_seats_dense(players, seat, n - 1);
        assert(players.take(n).drop_last() =~= players.take(n - 1));
        assert(players.take(n).last() == players[n - 1]);
        if n - 1 < seat {
            assert(players.take(n - 1).push(players[n - 1]) =~= players.take(n));
        } else if n - 1 == seat {
            assert(players.take(n).remove(seat as int) =~= players.take(n - 1));
        } else {
            assert(players.take(n - 1).remove(seat as int).push(players[n - 1])
                =~= players.take(n).remove(seat as int));
        }
    } else {
        assert(players.take(0) =~= Seq::<RoomPlayerModel>::empty());
    }
}

proof fn lemma_other_players_dense(players: Seq<PlayerModel>, seat: usize, n: int)
    requires
        0 <= n <= players.len(),
        forall|i: int| 0 <= i < players.len() ==> (#[trigger] players[i]).id == i,
    ensures
        other_players(players.take(n), seat) == if n <= seat {
            players.take(n)
        } else {
            players.take(n).remove(seat as int)
        },
    decreases n,
{
    reveal(Seq::filter);
    if n > 0 {
        lemma_other_players_dense(players, seat, n - 1);
        assert(players.take(n).drop_last() =~= players.take(n - 1));
        assert(players.take(n).last() == players[n - 1]);
        if n - 1 < seat {
            assert(players.take(n - 1).push(players[n - 1]) =~= players.take(n));
        } else if n - 1 == seat {
            assert(players.take(n).remove(seat as int) =~= players.take(n - 1));
        } else {
            assert(players.take(n - 1).remove(seat as int).push(players[n - 1])
                =~= players.take(n).remove(seat as int));
        }
    } else {
        assert(players.take(0) =~= Seq::<PlayerModel>::empty());
    }
}

proof fn lemma_moves_are_place_moves(players: Seq<RoomPlayerModel>, kept: Seq<usize>, n: int)
    requires
        n <= players.len() == kept.len(),
        forall|i: int| 0 <= i < players.len() ==> (#[trigger] players[i]).id == kept[i],
    ensures
        moves(players, n) == place_moves(kept, n),
    decreases n,
{
    if n > 0 {
        lemma_moves_are_place_moves(players, kept, n - 1);
        assert(players[n - 1].id == kept[n - 1]);
    }
}

/// The number of a seat after another one has been taken away.
pub open spec fn number_without(seat: usize, taken: usize) -> usize {
    if seat > taken {
        (seat - 1) as usize
    } else {
        seat
    }
}

proof fn lemma_moves_one_up(players: Seq<RoomPlayerModel>, taken: usize, n: int)
    requires
        0 <= n <= players.len() < usize::MAX,
        forall|i: int|
            0 <= i < players.len() ==> (#[trigger] players[i]).id == if i < taken {
                i
            } else {
                i + 1
            },
    ensures
        moves(players, n) == if n <= taken {
            Seq::empty()
        } else {
            one_up((n + 1) as nat, taken)
        },
    decreases n,
{
    if n > 0 {
        lemma_moves_one_up(players, taken, n - 1);
        assert(players[n - 1].id == if n - 1 < taken {
            n - 1
        } else {
            n
        });
        if n - 1 == taken {
            assert(one_up((n + 1) as nat, taken) =~= Seq::empty().push((n as usize, taken)));
        } else if n - 1 > taken {
            assert(one_up((n + 1) as nat, taken) =~= one_up(n as nat, taken).push(
                (n as usize, (n - 1) as usize),
            ));
        }
    } else {
        assert(moves(players, n) =~= Seq::empty());
    }
}

/// Taking a seat away in the lobby closes the ranks: the seats before it stay,
/// and each one after it moves up by one with everything that goes with it. The
/// reported moves are those of the seats after it, all of them, in their order.
/// The seats agree as before, one less in number.
pub proof fn law_removal_closes_ranks(room: RoomModel, taken: usize)
    requires
        room.aligned(),
        room.state.phase == GamePhase::Lobby,
        taken < room.players.len() <= usize::MAX,
    ensures
        room.without_seat(taken) == room.ranks_closed(taken),
        room.seat_moves(taken) == one_up(room.players.len(), taken),
        room.without_seat(taken).aligned(),
        room.without_seat(taken).players.len() == room.players.len() - 1,
{
    let n = room.players.len() as int;
    lemma_other_seats_dense(room.players, taken, n);
    lemma_other_players_dense(room.state.players, taken, n);
    assert(room.players.take(n) =~= room.players);
    assert(room.state.players.take(n) =~= room.state.players);
    let after = room.without_seat(taken);
    let closed = room.ranks_closed(taken);
    assert(after.players =~= closed.players);
    assert(after.state.players =~= closed.state.players);
    assert(after.state =~= closed.state);
    assert(after =~= closed);
    let rest = room.players.remove(taken as int);
    assert forall|i: int| 0 <= i < rest.len() implies (#[trigger] rest[i]).id == if i < taken {
        i
    } else {
        i + 1
    } by {
        if i < taken {
            assert(rest[i] == room.players[i]);
        } else {
            assert(rest[i] == room.players[i + 1]);
        }
    }
    lemma_moves_one_up(rest, taken, n - 1);
    if n - 1 == taken {
        assert(one_up(n as nat, taken) =~= Seq::empty());
    }
}

/// Something that happens to a room in its lobby.
pub enum LobbyStep {
    Join { name: Seq<char>, token: Seq<char> },
    AddBot { name: Seq<char> },
    Ready { seat: usize, ready: bool },
    DropOut { seat: usize, token: Seq<char>, now: u64 },
    Remove { seat: usize },
}

impl RoomModel {
    /// The room after a step.
    pub open spec fn stepped(self, step: LobbyStep) -> RoomModel {
        match step {
            LobbyStep::Join { name, token } => if self.entry_refusal() is Some {
                self
            } else {
                self.seated_last(name, Some(token))
            },
            LobbyStep::AddBot { name } => self.seated_last(name, None),
            LobbyStep::Ready { seat, ready } => self.readied(seat, ready),
            LobbyStep::DropOut { seat, token, now } => self.with_dropout(seat, token, now),
            LobbyStep::Remove { seat } => self.without_seat(seat),
        }
    }

    /// The room after several steps, one after the other.
    pub open spec fn after_steps(self, steps: Seq<LobbyStep>) -> RoomModel
        decreases steps.len(),
    {
        if steps.len() == 0 {
            self
        } else {
            self.after_steps(steps.drop_last()).stepped(steps.last())
        }
    }
}

/// Whatever happens to a room in its lobby, from its opening on, its seats agree.
pub proof fn law_lobby_stays_aligned(
    code: Seq<char>,
    host: Seq<char>,
    token: Seq<char>,
    steps: Seq<LobbyStep>,
)
    requires
        steps.len() < usize::MAX,
    ensures
        RoomModel::opened(code, host, token).after_steps(steps).aligned(),
        RoomModel::opened(code, host, token).after_steps(steps).state.phase == GamePhase::Lobby,
        RoomModel::opened(code, host, token).after_steps(steps).players.len() <= steps.len() + 1,
    decreases steps.len(),
{
    if steps.len() > 0 {
        law_lobby_stays_aligned(code, host, token, steps.drop_last());
        let room = RoomModel::opened(code, host, token).after_steps(steps.drop_last());
        if let LobbyStep::Remove { seat } = steps.last() {
            if seat < room.players.len() {
                law_removal_closes_ranks(room, seat);
            } else {
                let n = room.players.len() as int;
                lemma_other_seats_dense(room.players, seat, n);
                lemma_other_players_dense(room.state.players, seat, n);
                assert(room.players.take(n) =~= room.players);
                assert(room.state.players.take(n) =~= room.state.players);
            }
        }
    }
}

/// When a seat is taken away in the lobby, everybody else keeps what goes with
/// their own: name, token, crown, readiness and score. The reported moves lead
/// from each old number to the new one.
pub proof fn law_removal_follows_survivors(room: RoomModel, taken: usize, seat: usize)
    requires
        room.aligned(),
        room.state.phase == GamePhase::Lobby,
        taken < room.players.len() <= usize::MAX,
        seat < room.players.len(),
        seat != taken,
    ensures
        ({
            let after = room.without_seat(taken);
            let moved = followed(room.seat_moves(taken), seat);
            let j = moved as int;
            &&& moved == number_without(seat, taken)
            &&& j < after.players.len()
            &&& after.players[j] == (RoomPlayerModel { id: moved, ..room.players[seat as int] })
            &&& after.state.players[j] == (PlayerModel {
                id: moved,
                ..room.state.players[seat as int]
            })
            &&& after.ready[j] == room.ready[seat as int]
            &&& after.state.ready[j] == room.state.ready[seat as int]
            &&& after.state.scores[j] == room.state.scores[seat as int]
        }),
{
    let n = room.players.len() as int;
    lemma_other_seats_dense(room.players, taken, n);
    lemma_other_players_dense(room.state.players, taken, n);
    assert(room.players.take(n) =~= room.players);
    assert(room.state.players.take(n) =~= room.state.players);
    let rest = room.players.remove(taken as int);
    let kept = Seq::new(
        (n - 1) as nat,
        |i: int|
            if i < taken {
                i as usize
            } else {
                (i + 1) as usize
            },
    );
    assert forall|i: int| 0 <= i < rest.len() implies (#[trigger] rest[i]).id == kept[i] by {
        if i < taken {
            assert(rest[i] == room.players[i]);
        } else {
            assert(rest[i] == room.players[i + 1]);
        }
    }
    lemma_moves_are_place_moves(rest, kept, n - 1);
    let j = number_without(seat, taken) as int;
    lemma_follow_kept(kept, j);
    assert(kept[j] == seat);
}

/// After a seat has been taken away in the lobby, no token of the seat's player
/// is left to come back with, and every other token leads to the seat of whoever
/// it led to before.
pub proof fn law_removal_prevents_hijack(room: RoomModel, taken: usize, k: int)
    requires
        room.state.phase == GamePhase::Lobby,
        0 <= k < room.without_seat(taken).disconnected_players.len(),
    ensures
        exists|i: int|
            0 <= i < room.disconnected_players.len() && (
            #[trigger] room.disconnected_players[i]).0 != taken
                && room.without_seat(taken).disconnected_players[k] == (
                number_without(room.disconnected_players[i].0, taken),
                room.disconnected_players[i].1,
                room.disconnected_players[i].2,
            ),
{
    let keep = entry_of_other(taken);
    let left = room.disconnected_players.filter(keep);
    room.disconnected_players.lemma_filter_pred(keep, k);
    assert(left.contains(left[k]));
    room.disconnected_players.lemma_filter_contains_rev(keep, left[k]);
    let i = choose|i: int|
        0 <= i < room.disconnected_players.len() && room.disconnected_players[i] == left[k];
    assert(room.disconnected_players[i].0 != taken);
}

/// Whoever may come back to another seat than the one that is taken away still
/// may, under that seat's new number.
pub proof fn law_removal_keeps_other_tokens(room: RoomModel, taken: usize, i: int)
    requires
        room.state.phase == GamePhase::Lobby,
        0 <= i < room.disconnected_players.len(),
        room.disconnected_players[i].0 != taken,
    ensures
        room.without_seat(taken).disconnected_players.contains(
            (
                number_without(room.disconnected_players[i].0, taken),
                room.disconnected_players[i].1,
                room.disconnected_players[i].2,
            ),
        ),
{
    let keep = entry_of_other(taken);
    let left = room.disconnected_players.filter(keep);
    room.disconnected_players.lemma_filter_contains(keep, i);
    let k = choose|k: int| 0 <= k < left.len() && left[k] == room.disconnected_players[i];
    assert(room.without_seat(taken).disconnected_players[k] == (
        number_without(left[k].0, taken),
        left[k].1,
        left[k].2,
    ));
}

/// After stale seats have been taken away, no token of theirs is left to come
/// back with, and every other token leads to the seat of whoever it led to
/// before.
pub proof fn law_reaping_prevents_hijack(room: RoomModel, timeout_secs: u64, now: u64, k: int)
    requires
        room.state.phase == GamePhase::Lobby,
        0 <= k < room.reaped(timeout_secs, now).disconnected_players.len(),
    ensures
        exists|i: int|
            0 <= i < room.disconnected_players.len() && !((
            #[trigger] room.disconnected_players[i]).0 < room.players.len() && room.is_stale(
                room.disconnected_players[i].0 as int,
                timeout_secs,
                now,
            )) && room.reaped(timeout_secs, now).disconnected_players[k] == (
                room.new_number(timeout_secs, now, room.disconnected_players[i].0),
                room.disconnected_players[i].1,
                room.disconnected_players[i].2,
            ),
{
    let keep = room.entry_kept(timeout_secs, now);
    let left = room.disconnected_players.filter(keep);
    room.disconnected_players.lemma_filter_pred(keep, k);
    assert(left.contains(left[k]));
    room.disconnected_players.lemma_filter_contains_rev(keep, left[k]);
    let i = choose|i: int|
        0 <= i < room.disconnected_players.len() && room.disconnected_players[i] == left[k];
    assert(keep(room.disconnected_players[i]));
}

/// Whoever may come back to a seat that stays when stale ones go still may, under
/// that seat's new number.
pub proof fn law_reaping_keeps_other_tokens(room: RoomModel, timeout_secs: u64, now: u64, i: int)
    requires
        room.state.phase == GamePhase::Lobby,
        0 <= i < room.disconnected_players.len(),
        room.disconnected_players[i].0 < room.players.len(),
        !room.is_stale(room.disconnected_players[i].0 as int, timeout_secs, now),
    ensures
        room.reaped(timeout_secs, now).disconnected_players.contains(
            (
                room.new_number(timeout_secs, now, room.disconnected_players[i].0),
                room.disconnected_players[i].1,
                room.disconnected_players[i].2,
            ),
        ),
{
    let keep = room.entry_kept(timeout_secs, now);
    let left = room.disconnected_players.filter(keep);
    assert(keep(room.disconnected_players[i]));
    room.disconnected_players.lemma_filter_contains(keep, i);
    let k = choose|k: int| 0 <= k < left.len() && left[k] == room.disconnected_players[i];
    assert(room.reaped(timeout_secs, now).disconnected_players[k] == (
        room.new_number(timeout_secs, now, left[k].0),
        left[k].1,
        left[k].2,
    ));
}

} // verus!
