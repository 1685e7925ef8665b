//! Where rooms are kept: what a step on a room reports, the store of a single
//! server in memory, and the names under which a shared store keeps things.
use crate::game::room::Room;
use crate::game::room::RoomModel;
use crate::protocol;
use crate::protocol::MsgModel;
use crate::protocol::ServerMsg;
use crate::text;
use dashmap::DashMap;
use vstd::prelude::*;
use vstd::string::*;

verus! {

// ---------------------------------------------------------------------------
// What a step reports
// ---------------------------------------------------------------------------

/// What a step on a room reports back.
#[derive(Debug)]
pub struct MutateOut {
    /// What everybody in the room is told, in this order.
    pub broadcast: Vec<ServerMsg>,
    /// What only the one who asked is told.
    pub reply: Option<ServerMsg>,
    /// Is the room to be deleted?
    pub removed: bool,
    /// Old and new numbers of seats that have moved.
    pub renumbered: Vec<(usize, usize)>,
}

#[verifier::ext_equal]
pub struct OutModel {
    pub broadcast: Seq<MsgModel>,
    pub reply: Option<MsgModel>,
    pub removed: bool,
    pub renumbered: Seq<(usize, usize)>,
}

impl View for MutateOut {
    type V = OutModel;

    open spec fn view(&self) -> OutModel {
        OutModel {
            broadcast: protocol::msg_models(self.broadcast@),
            reply: protocol::opt_msg(self.reply),
            removed: self.removed,
            renumbered: self.renumbered@,
        }
    }
}

impl OutModel {
    /// Nothing to report.
    pub open spec fn nothing() -> OutModel {
        OutModel {
            broadcast: Seq::empty(),
            reply: None,
            removed: false,
            renumbered: Seq::empty(),
        }
    }

    /// With one more message for everybody.
    pub open spec fn told(self, msg: MsgModel) -> OutModel {
        OutModel { broadcast: self.broadcast.push(msg), ..self }
    }

    /// With a reply.
    pub open spec fn replied(self, msg: MsgModel) -> OutModel {
        OutModel { reply: Some(msg), ..self }
    }
}

impl Default for MutateOut {
    fn default() -> (r: Self)
        ensures
            r@ == OutModel::nothing(),
    {
        let out = MutateOut {
            broadcast: Vec::new(),
            reply: None,
            removed: false,
            renumbered: Vec::new(),
        };
        assert(out@ =~= OutModel::nothing());
        out
    }
}

impl Clone for MutateOut {
    fn clone(&self) -> (r: Self)
        ensures
            r@ == self@,
    {
        let mut broadcast: Vec<ServerMsg> = Vec::new();
        let mut i: usize = 0;
        while i < self.broadcast.len()
            invariant
                i <= self.broadcast.len(),
                broadcast.len() == i,
                forall|k: int| 0 <= k < i ==> (#[trigger] broadcast@[k])@ == self.broadcast@[k]@,
            decreases self.broadcast.len() - i,
        {
            let msg = self.broadcast[i].clone();
            broadcast.push(msg);
            i += 1;
        }
        assert(protocol::msg_models(broadcast@) =~= protocol::msg_models(self.broadcast@));
        MutateOut {
            broadcast,
            reply: match &self.reply {
                Some(m) => Some(m.clone()),
                None => None,
            },
            removed: self.removed,
            renumbered: protocol::copy_pairs(&self.renumbered),
        }
    }
}

impl MutateOut {
    /// Adds a message for everybody.
    pub fn tell(&mut self, msg: ServerMsg)
        ensures
            final(self)@ == old(self)@.told(msg@),
    {
        let ghost before = self@;
        self.broadcast.push(msg);
        assert(self@.broadcast =~= before.broadcast.push(msg@));
        assert(self@ =~= before.told(msg@));
    }

    /// Sets the reply.
    pub fn answer(&mut self, msg: ServerMsg)
        ensures
            final(self)@ == old(self)@.replied(msg@),
    {
        self.reply = Some(msg);
        assert(self@ =~= old(self)@.replied(msg@));
    }
}

/// A message on its way between servers. The sender is named so that it can
/// drop its own echo.
#[derive(Debug)]
pub struct PubEnvelope {
    pub pod: String,
    pub msg: ServerMsg,
}

// ---------------------------------------------------------------------------
// Rooms in memory
// ---------------------------------------------------------------------------

/// The concurrent map of the `dashmap` crate.
#[verifier::external_type_specification]
#[verifier::external_body]
#[verifier::reject_recursive_types(K)]
#[verifier::reject_recursive_types(V)]
#[verifier::reject_recursive_types(S)]
pub struct ExDashMap<K, V, S>(dashmap::DashMap<K, V, S>);

/// The rooms in a map, by their codes.
pub uninterp spec fn rooms_in(map: DashMap<String, Room>) -> Map<Seq<char>, RoomModel>;

/// No room under any code.
pub open spec fn no_rooms() -> Map<Seq<char>, RoomModel> {
    Map::empty()
}

/// `DashMap::new`: a map without rooms.
#[verifier::external_body]
fn empty_rooms() -> (r: DashMap<String, Room>)
    ensures
        rooms_in(r) == no_rooms(),
{
    DashMap::new()
}

/// `DashMap::get`, with the room copied out: the room under this code, if there
/// is one.
#[verifier::external_body]
fn room_at(map: &DashMap<String, Room>, code: &str) -> (r: Option<Room>)
    ensures
        r is Some <==> rooms_in(*map).dom().contains(code@),
        r matches Some(room) ==> room@ == rooms_in(*map)[code@],
{
    map.get(code).map(|entry| entry.value().clone())
}

/// `DashMap::insert`: the room stands under the code, in place of any other.
#[verifier::external_body]
fn put_room(map: &mut DashMap<String, Room>, code: String, room: Room)
    ensures
        rooms_in(*final(map)) == rooms_in(*old(map)).insert(code@, room@),
{
    map.insert(code, room);
}

/// `DashMap::remove`: no room stands under the code any more.
#[verifier::external_body]
fn drop_room(map: &mut DashMap<String, Room>, code: &str)
    ensures
        rooms_in(*final(map)) == rooms_in(*old(map)).remove(code@),
{
    map.remove(code);
}

/// `DashMap::iter`, with the keys copied out: every code under which a room
/// stands, each once. Their order is left open.
#[verifier::external_body]
fn room_codes_of(map: &DashMap<String, Room>) -> (r: Vec<String>)
    ensures
        text::texts(r@).no_duplicates(),
        forall|code: Seq<char>|
            #![auto]
            text::texts(r@).contains(code) <==> rooms_in(*map).dom().contains(code),
{
    map.iter().map(|entry| entry.key().clone()).collect()
}

/// The rooms of a single server.
pub struct InMemoryStore {
    rooms: DashMap<String, Room>,
}

impl View for InMemoryStore {
    type V = Map<Seq<char>, RoomModel>;

    closed spec fn view(&self) -> Map<Seq<char>, RoomModel> {
        rooms_in(self.rooms)
    }
}

impl Default for InMemoryStore {
    fn default() -> (r: Self)
        ensures
            r@ == no_rooms(),
    {
        InMemoryStore::new()
    }
}

impl InMemoryStore {
    /// A store without rooms.
    pub fn new() -> (r: Self)
        ensures
            r@ == no_rooms(),
    {
        InMemoryStore { rooms: empty_rooms() }
    }

    /// The room under a code.
    pub fn get(&self, code: &str) -> (r: Option<Room>)
        ensures
            r is Some <==> self@.dom().contains(code@),
            r matches Some(room) ==> room@ == self@[code@],
    {
        room_at(&self.rooms, code)
    }

    /// Every code under which a room stands, each once, in no particular order.
    pub fn codes(&self) -> (r: Vec<String>)
        ensures
            text::texts(r@).no_duplicates(),
            forall|code: Seq<char>|
                #![auto]
                text::texts(r@).contains(code) <==> self@.dom().contains(code),
    {
        room_codes_of(&self.rooms)
    }

    /// Puts a new room under a code. Fails where a room stands there already,
    /// and leaves that one alone.
    pub fn create(&mut self, code: &str, room: &Room) -> (r: Result<(), String>)
        ensures
            if old(self)@.dom().contains(code@) {
                (r matches Err(e) && e@ == "Room already exists"@) && final(self)@ == old(self)@
            } else {
                r is Ok && final(self)@ == old(self)@.insert(code@, room@)
            },
    {
        if self.get(code).is_some() {
            return Err("Room already exists".to_owned());
        }
        put_room(&mut self.rooms, code.to_owned(), room.clone());
        Ok(())
    }

    /// Puts a room under a code, in place of any other.
    pub fn save(&mut self, code: &str, room: &Room)
        ensures
            final(self)@ == old(self)@.insert(code@, room@),
    {
        put_room(&mut self.rooms, code.to_owned(), room.clone());
    }

    /// Removes the room under a code.
    pub fn delete(&mut self, code: &str)
        ensures
            final(self)@ == old(self)@.remove(code@),
    {
        drop_room(&mut self.rooms, code);
    }
}

/// A room that was saved is read back as it was, and no other room is touched.
pub proof fn law_store_reads_back(
    rooms: Map<Seq<char>, RoomModel>,
    code: Seq<char>,
    room: RoomModel,
    other: Seq<char>,
)
    requires
        other != code,
    ensures
        rooms.insert(code, room)[code] == room,
        rooms.insert(code, room).dom().contains(code),
        rooms.insert(code, room).dom().contains(other) <==> rooms.dom().contains(other),
        rooms.dom().contains(other) ==> rooms.insert(code, room)[other] == rooms[other],
        !rooms.insert(code, room).remove(code).dom().contains(code),
{
}

// ---------------------------------------------------------------------------
// Names in a shared store
// ---------------------------------------------------------------------------

/// The key of a room.
pub open spec fn key_of_room(code: Seq<char>) -> Seq<char> {
    "room:"@ + code
}

/// The key of a room's lock.
pub open spec fn key_of_lock(code: Seq<char>) -> Seq<char> {
    "room:lock:"@ + code
}

/// The name of the channel of a room's messages.
pub open spec fn key_of_events(code: Seq<char>) -> Seq<char> {
    "room:events:"@ + code
}

/// Keys tell rooms apart: two rooms have different keys, locks and channels, and
/// each key ends with its room's code.
pub proof fn law_keys_tell_rooms_apart(a: Seq<char>, b: Seq<char>)
    ensures
        key_of_room(a) == key_of_room(b) ==> a == b,
        key_of_lock(a) == key_of_lock(b) ==> a == b,
        key_of_events(a) == key_of_events(b) ==> a == b,
        key_of_room(a).len() == a.len() + 5,
        key_of_room(a).skip(5) == a,
        key_of_lock(a).len() == a.len() + 10,
        key_of_lock(a).skip(10) == a,
        key_of_events(a).len() == a.len() + 12,
        key_of_events(a).skip(12) == a,
{
    reveal_strlit("room:");
    reveal_strlit("room:lock:");
    reveal_strlit("room:events:");
    assert(key_of_room(a).skip(5) =~= a && key_of_room(b).skip(5) =~= b);
    assert(key_of_lock(a).skip(10) =~= a && key_of_lock(b).skip(10) =~= b);
    assert(key_of_events(a).skip(12) =~= a && key_of_events(b).skip(12) =~= b);
}

/// The key of a room.
pub fn room_key(code: &str) -> (r: String)
    ensures
        r@ == "room:"@ + code@,
        r@ == key_of_room(code@),
{
    let mut key = "room:".to_owned();
    key.append(code);
    key
}

/// The key of the set of all codes.
pub fn codes_key() -> (r: &'static str)
    ensures
        r@ == "room:codes"@,
{
    "room:codes"
}

/// The key of a room's lock.
pub fn lock_key(code: &str) -> (r: String)
    ensures
        r@ == "room:lock:"@ + code@,
        r@ == key_of_lock(code@),
{
    let mut key = "room:lock:".to_owned();
    key.append(code);
    key
}

/// The channel on which a room's messages go between servers.
pub fn events_key(code: &str) -> (r: String)
    ensures
        r@ == "room:events:"@ + code@,
        r@ == key_of_events(code@),
{
    let mut key = "room:events:".to_owned();
    key.append(code);
    key
}

/// How many seconds a room is kept in a shared store, by its time in
/// milliseconds.
pub open spec fn ttl_secs(room_ttl_ms: u64) -> u64 {
    if room_ttl_ms < 2000 {
        1
    } else {
        (room_ttl_ms / 1000) as u64
    }
}

/// A room is kept for the full seconds of its time, and for one at least.
pub proof fn law_ttl_in_full_seconds(room_ttl_ms: u64)
    ensures
        ttl_secs(room_ttl_ms) >= 1,
        room_ttl_ms >= 1000 ==> 1000 * ttl_secs(room_ttl_ms) <= room_ttl_ms < 1000 * ttl_secs(
            room_ttl_ms,
        ) + 1000,
        room_ttl_ms < 1000 ==> ttl_secs(room_ttl_ms) == 1,
{
}

/// How many seconds a room is kept in a shared store after it was last saved:
/// its time in milliseconds, rounded down, and at least one second.
pub fn room_ttl_secs(room_ttl_ms: u64) -> (r: u64)
    ensures
        r == ttl_secs(room_ttl_ms),
        r == if room_ttl_ms < 2000 {
            1
        } else {
            (room_ttl_ms / 1000) as int
        },
{
    let secs: u64 = room_ttl_ms / 1000;
    if secs < 1 {
        1
    } else {
        secs
    }
}

/// Where rooms are to be kept.
#[derive(Debug, Clone, Copy, PartialEq, Eq, Structural)]
pub enum StoreKind {
    Memory,
    /// In memory, because the configured kind is not known.
    MemoryForUnknown,
    Redis,
    /// Redis is configured, but not where it is.
    RedisWithoutUrl,
}

/// Where rooms are to be kept, by the lower-case form of the configured kind.
pub open spec fn store_kind_of(kind: Seq<char>, url: Option<Seq<char>>) -> StoreKind {
    if kind == "redis"@ {
        match url {
            Some(u) if text::trimmed(u).len() > 0 => StoreKind::Redis,
            _ => StoreKind::RedisWithoutUrl,
        }
    } else if kind.len() == 0 || kind == "memory"@ {
        StoreKind::Memory
    } else {
        StoreKind::MemoryForUnknown
    }
}

/// Rooms are kept in a shared store where it is asked for and its address is
/// given, and in memory where nothing else is asked for.
pub proof fn law_where_rooms_are_kept(kind: Seq<char>, url: Seq<char>)
    ensures
        text::trimmed(url).len() > 0 ==> store_kind_of("redis"@, Some(url)) == StoreKind::Redis,
        text::trimmed(url).len() == 0 ==> store_kind_of("redis"@, Some(url))
            == StoreKind::RedisWithoutUrl,
        store_kind_of("redis"@, None) == StoreKind::RedisWithoutUrl,
        store_kind_of("memory"@, None) == StoreKind::Memory,
        store_kind_of("memory"@, Some(url)) == StoreKind::Memory,
        store_kind_of(Seq::empty(), None) == StoreKind::Memory,
        store_kind_of(Seq::empty(), Some(url)) == StoreKind::Memory,
        kind != "redis"@ && kind != "memory"@ && kind.len() > 0 ==> store_kind_of(kind, None)
            == StoreKind::MemoryForUnknown && store_kind_of(kind, Some(url))
            == StoreKind::MemoryForUnknown,
{
    reveal_strlit("redis");
    reveal_strlit("memory");
    assert("memory"@.len() != "redis"@.len());
}

/// Where rooms are to be kept, by the configured kind without surrounding white
/// space and in lower case.
pub fn store_kind(kind: &str, redis_url: Option<&str>) -> (r: StoreKind)
    ensures
        r == store_kind_of(
            text::lowercased(text::trimmed(kind@)),
            match redis_url {
                Some(u) => Some(u@),
                None => None,
            },
        ),
{
    let chars = text::trimmed_chars(kind);
    let trimmed = text::text_of(&chars);
    let lower = text::std_lowercase(trimmed.as_str());
    store_kind_from(lower.as_str(), redis_url)
}

/// Where rooms are to be kept, by the configured kind in its plain form.
pub fn store_kind_from(kind: &str, redis_url: Option<&str>) -> (r: StoreKind)
    ensures
        r == store_kind_of(
            kind@,
            match redis_url {
                Some(u) => Some(u@),
                None => None,
            },
        ),
{
    if text::same_text(kind, "redis") {
        let given: bool = match redis_url {
            Some(u) => text::trimmed_chars(u).len() > 0,
            None => false,
        };
        if given {
            StoreKind::Redis
        } else {
            StoreKind::RedisWithoutUrl
        }
    } else if kind.unicode_len() == 0 || text::same_text(kind, "memory") {
        StoreKind::Memory
    } else {
        StoreKind::MemoryForUnknown
    }
}

} // verus!
