//! Saving or deleting a room after a step, and whom to tell.
use crate::game::room::Room;
use crate::game::room::RoomModel;
use crate::game::state::GameState;
use crate::rooms;
use crate::rooms::Delivery;
use crate::rooms::ManagerModel;
use crate::rooms::RoomManager;
use crate::store::InMemoryStore;
use crate::store::MutateOut;
use crate::store::OutModel;
use vstd::prelude::*;
use vstd::string::*;

verus! {

/// What becomes of a room in the store after a step.
#[derive(Debug, Clone, Copy, PartialEq, Eq, Structural)]
pub enum Commit {
    Delete,
    Save,
    Keep,
}

/// What becomes of a room: it is deleted if the step says so, and else saved if
/// anything about it has changed. A step that has changed nothing writes
/// nothing.
pub open spec fn commit_for(before: RoomModel, after: RoomModel, removed: bool) -> Commit {
    if removed {
        Commit::Delete
    } else if after != before {
        Commit::Save
    } else {
        Commit::Keep
    }
}

/// What becomes of a room after a step that was not refused.
pub fn commit_of(before: &Room, after: &Room, out: &MutateOut) -> (r: Commit)
    ensures
        r == commit_for(before@, after@, out@.removed),
{
    if out.removed {
        Commit::Delete
    } else if after.same_as(before) {
        Commit::Keep
    } else {
        Commit::Save
    }
}

/// The rooms after a step on the one under this code.
pub open spec fn committed(
    rooms: Map<Seq<char>, RoomModel>,
    code: Seq<char>,
    before: RoomModel,
    after: RoomModel,
    out: OutModel,
) -> Map<Seq<char>, RoomModel> {
    match commit_for(before, after, out.removed) {
        Commit::Delete => rooms.remove(code),
        Commit::Save => rooms.insert(code, after),
        Commit::Keep => rooms,
    }
}

impl ManagerModel {
    /// The connections after a step on the room under this code.
    pub open spec fn stepped(self, code: Seq<char>, out: OutModel) -> ManagerModel {
        if out.removed {
            self.without_sessions(code)
        } else {
            self.seats_moved(code, out.renumbered)
        }
    }
}

impl RoomManager {
    /// The room under a code, to take a step on.
    pub fn load_room(rooms: &InMemoryStore, code: &str) -> (r: Result<Room, String>)
        ensures
            match r {
                Ok(room) => rooms@.dom().contains(code@) && room@ == rooms@[code@],
                Err(e) => !rooms@.dom().contains(code@) && e@ == "Room not found"@,
            },
    {
        match rooms.get(code) {
            Some(room) => Ok(room),
            None => Err("Room not found".to_owned()),
        }
    }

    /// The room under a code.
    pub fn get_room(rooms: &InMemoryStore, code: &str) -> (r: Option<Room>)
        ensures
            match r {
                Some(room) => rooms@.dom().contains(code@) && room@ == rooms@[code@],
                None => !rooms@.dom().contains(code@),
            },
    {
        rooms.get(code)
    }

    /// The game in the room under a code.
    pub fn get_state(rooms: &InMemoryStore, code: &str) -> (r: Option<GameState>)
        ensures
            match r {
                Some(game) => rooms@.dom().contains(code@) && game@ == rooms@[code@].state,
                None => !rooms@.dom().contains(code@),
            },
    {
        match rooms.get(code) {
            Some(room) => Some(room.state),
            None => None,
        }
    }

    /// Puts a step into effect: the room is saved, deleted or kept, and this
    /// server's connections follow their seats. A step that was refused has no
    /// effect.
    pub fn finish_step(
        &mut self,
        rooms: &mut InMemoryStore,
        code: &str,
        before: &Room,
        after: &Room,
        result: &Result<MutateOut, String>,
    )
        ensures
            match rooms::step_result(*result) {
                Ok(out) => final(rooms)@ == committed(old(rooms)@, code@, before@, after@, out)
                    && final(self)@ == old(self)@.stepped(code@, out),
                Err(_) => final(rooms)@ == old(rooms)@ && final(self)@ == old(self)@,
            },
    {
        match result {
            Err(_) => {},
            Ok(out) => {
                match commit_of(before, after, out) {
                    Commit::Delete => {
                        rooms.delete(code);
                    },
                    Commit::Save => {
                        rooms.save(code, after);
                    },
                    Commit::Keep => {},
                }
                self.settle_sessions(code, out);
            },
        }
    }

    /// Lets this server's connections follow a step on a room.
    pub fn settle_sessions(&mut self, code: &str, out: &MutateOut)
        ensures
            final(self)@ == old(self)@.stepped(code@, out@),
    {
        if out.removed {
            rooms::drop_sessions(&mut self.sessions, code);
            assert(self@ =~= old(self)@.without_sessions(code@));
        } else {
            self.apply_renumbering(code, &out.renumbered);
        }
    }

    /// What this server's connections to a room get of a step: for every message
    /// that goes to everybody, in order, what each connection gets of it.
    pub fn deliveries(&self, code: &str, out: &MutateOut) -> (r: Vec<Vec<Delivery>>)
        ensures
            r@.len() == out@.broadcast.len(),
            forall|i: int|
                0 <= i < r@.len() ==> rooms::reaches_all(
                    (#[trigger] r@[i])@,
                    out@.broadcast[i],
                    self@.sessions_of(code@),
                ),
    {
        let mut all: Vec<Vec<Delivery>> = Vec::new();
        let mut i: usize = 0;
        while i < out.broadcast.len()
            invariant
                i <= out.broadcast.len(),
                all.len() == i,
                forall|k: int|
                    0 <= k < i ==> rooms::reaches_all(
                        (#[trigger] all@[k])@,
                        out@.broadcast[k],
                        self@.sessions_of(code@),
                    ),
            decreases out.broadcast.len() - i,
        {
            assert(out@.broadcast[i as int] == out.broadcast@[i as int]@);
            all.push(self.broadcast_local(code, &out.broadcast[i]));
            i += 1;
        }
        all
    }

    /// Lets this server's connections follow a room's deletion.
    pub fn forget_room(&mut self, code: &str)
        ensures
            final(self)@ == old(self)@.without_sessions(code@),
    {
        rooms::drop_sessions(&mut self.sessions, code);
        assert(self@ =~= old(self)@.without_sessions(code@));
    }
}

/// A step that was refused is without effect on any room; one that was not
/// touches its own room only.
pub proof fn law_steps_touch_one_room(
    rooms: Map<Seq<char>, RoomModel>,
    code: Seq<char>,
    before: RoomModel,
    after: RoomModel,
    out: OutModel,
    other: Seq<char>,
)
    requires
        other != code,
        rooms.dom().contains(code),
        rooms[code] == before,
    ensures
        committed(rooms, code, before, after, out).dom().contains(other) <==> rooms.dom().contains(
            other,
        ),
        rooms.dom().contains(other) ==> committed(rooms, code, before, after, out)[other]
            == rooms[other],
        !out.removed ==> committed(rooms, code, before, after, out)[code] == after && committed(
            rooms,
            code,
            before,
            after,
            out,
        ).dom().contains(code),
        out.removed ==> !committed(rooms, code, before, after, out).dom().contains(code),
{
}

} // verus!
