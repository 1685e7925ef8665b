//! Messages between servers. Every server publishes what happens in a room on
//! that room's channel, listens on all of them, and passes on what the others
//! have published to the connections that it holds itself.
use crate::protocol::MsgModel;
use crate::protocol::ServerMsg;
use crate::rooms;
use crate::rooms::Delivery;
use crate::rooms::ManagerModel;
use crate::rooms::RoomManager;
use crate::store::PubEnvelope;
use crate::text;
use vstd::prelude::*;
use vstd::string::*;

verus! {

/// What every room's channel begins with.
pub fn events_prefix() -> (r: &'static str)
    ensures
        r@ == "room:events:"@,
{
    "room:events:"
}

/// The pattern that all rooms' channels match.
pub fn events_pattern() -> (r: String)
    ensures
        r@ == "room:events:"@ + "*"@,
{
    let mut s = events_prefix().to_owned();
    s.append("*");
    s
}

/// Does the text begin with `prefix`?
pub open spec fn begins_with(s: Seq<char>, prefix: Seq<char>) -> bool {
    s.len() >= prefix.len() && s.take(prefix.len() as int) == prefix
}

/// What comes after the prefix in the name of a room's channel. A channel of
/// another kind is for no room.
pub open spec fn room_in_channel(channel: Seq<char>) -> Option<Seq<char>> {
    let prefix = "room:events:"@;
    if begins_with(channel, prefix) {
        Some(channel.skip(prefix.len() as int))
    } else {
        None
    }
}

/// The code of the room that a channel is for, or nothing.
pub open spec fn code_of_channel(channel: Seq<char>) -> Seq<char> {
    match room_in_channel(channel) {
        Some(code) => code,
        None => Seq::empty(),
    }
}

/// The code of the room that a channel is for, if it is for one.
pub fn channel_room(channel: &str) -> (r: Option<String>)
    ensures
        text::opt_text(r) == room_in_channel(channel@),
{
    let chars = text::chars_of(channel);
    let prefix = text::chars_of(events_prefix());
    if chars.len() < prefix.len() {
        return None;
    }
    let mut i: usize = 0;
    while i < prefix.len()
        invariant
            i <= prefix.len() <= chars.len(),
            chars@ == channel@,
            prefix@ == "room:events:"@,
            forall|k: int| 0 <= k < i ==> #[trigger] chars@[k] == prefix@[k],
        decreases prefix.len() - i,
    {
        if chars[i] != prefix[i] {
            assert(chars@.take(prefix.len() as int)[i as int] == chars@[i as int]);
            return None;
        }
        i += 1;
    }
    assert(chars@.take(prefix.len() as int) =~= prefix@);
    let mut rest: Vec<char> = Vec::new();
    while i < chars.len()
        invariant
            prefix.len() <= i <= chars.len(),
            rest@ == chars@.subrange(prefix.len() as int, i as int),
        decreases chars.len() - i,
    {
        rest.push(chars[i]);
        assert(chars@.subrange(prefix.len() as int, i as int).push(chars@[i as int])
            =~= chars@.subrange(prefix.len() as int, i + 1));
        i += 1;
    }
    assert(chars@.subrange(prefix.len() as int, chars.len() as int) =~= chars@.skip(
        prefix.len() as int,
    ));
    Some(text::text_of(&rest))
}

/// The code of the room that a channel is for, or an empty text.
pub fn channel_code(channel: &str) -> (r: String)
    ensures
        r@ == code_of_channel(channel@),
{
    match channel_room(channel) {
        Some(code) => code,
        None => String::new(),
    }
}

/// A room's channel names the room again.
pub proof fn law_channel_names_room(code: Seq<char>)
    ensures
        code_of_channel("room:events:"@ + code) == code,
{
    let prefix = "room:events:"@;
    assert((prefix + code).take(prefix.len() as int) =~= prefix);
    assert((prefix + code).skip(prefix.len() as int) =~= code);
}

/// The name of a channel begins with what all rooms' channels begin with; any
/// other channel is for no room.
pub proof fn law_other_channels_name_no_room(channel: Seq<char>)
    requires
        channel.len() < "room:events:"@.len() || channel.take("room:events:"@.len() as int)
            != "room:events:"@,
    ensures
        room_in_channel(channel) is None,
        code_of_channel(channel).len() == 0,
{
}

/// A server takes no notice of what it has published itself. What another one
/// has published moves the seats that it reports, in the room of the channel
/// only.
pub proof fn law_relay(
    manager: ManagerModel,
    code: Seq<char>,
    pod: Seq<char>,
    msg: MsgModel,
    other: Seq<char>,
)
    requires
        other != code,
    ensures
        ({
            let after = manager.relayed("room:events:"@ + code, pod, msg);
            &&& pod == manager.pod_id ==> after == manager
            &&& pod != manager.pod_id ==> {
                &&& msg matches MsgModel::SeatChanged { renumbered } ==> after
                    == manager.seats_moved(code, renumbered)
                &&& !(msg is SeatChanged) ==> after == manager
            }
            &&& after.sessions_of(other) == manager.sessions_of(other)
        }),
{
    law_channel_names_room(code);
}

/// Has this server published the message itself?
pub fn is_own_echo(env: &PubEnvelope, pod_id: &str) -> (r: bool)
    ensures
        r == (env.pod@ == pod_id@),
{
    text::same_text(env.pod.as_str(), pod_id)
}

/// The moves of seats that a message reports.
pub open spec fn moves_in(msg: MsgModel) -> Seq<(usize, usize)> {
    match msg {
        MsgModel::SeatChanged { renumbered } => renumbered,
        _ => Seq::empty(),
    }
}

impl ManagerModel {
    /// After a message from another server has come in on a channel: the
    /// connections have followed the moves of seats that it reports. This
    /// server's own messages change nothing.
    pub open spec fn relayed(
        self,
        channel: Seq<char>,
        pod: Seq<char>,
        msg: MsgModel,
    ) -> ManagerModel {
        if pod == self.pod_id {
            self
        } else {
            self.seats_moved(code_of_channel(channel), moves_in(msg))
        }
    }
}

impl RoomManager {
    /// Takes in what came on a channel: what this server's connections get of
    /// it. Connections follow their seats first, so that each gets what its
    /// player may see. What this server has published itself was delivered
    /// already.
    pub fn relay(&mut self, channel: &str, env: &PubEnvelope) -> (r: Vec<Delivery>)
        ensures
            final(self)@ == old(self)@.relayed(channel@, env.pod@, env.msg@),
            env.pod@ == old(self)@.pod_id ==> r@.len() == 0,
            env.pod@ != old(self)@.pod_id ==> rooms::reaches_all(
                r@,
                env.msg@,
                final(self)@.sessions_of(code_of_channel(channel@)),
            ),
    {
        if is_own_echo(env, self.pod_id().as_str()) {
            return Vec::new();
        }
        let code = channel_code(channel);
        match &env.msg {
            ServerMsg::SeatChanged { renumbered } => {
                self.apply_renumbering(code.as_str(), renumbered);
            },
            _ => {},
        }
        self.broadcast_local(code.as_str(), &env.msg)
    }
}

/// Milliseconds to wait before the first try to reconnect.
pub const FIRST_BACKOFF_MS: u64 = 500;

/// Milliseconds to wait at most.
pub const LONGEST_BACKOFF_MS: u64 = 15_000;

/// How long to wait before reconnecting, where `planned` was meant for this
/// time.
pub open spec fn wait_of(planned: u64, closed_cleanly: bool) -> u64 {
    if closed_cleanly {
        FIRST_BACKOFF_MS
    } else {
        planned
    }
}

/// How long to wait the next time.
pub open spec fn backoff_after(waited: u64) -> u64 {
    if 2 * waited > LONGEST_BACKOFF_MS {
        LONGEST_BACKOFF_MS
    } else {
        (2 * waited) as u64
    }
}

/// Waiting begins with half a second, also after a connection that was closed in
/// good order, doubles from time to time, and never takes more than fifteen
/// seconds.
pub proof fn law_backoff_doubles(waited: u64)
    ensures
        wait_of(waited, true) == 500,
        wait_of(waited, false) == waited,
        waited <= 7500 ==> backoff_after(waited) == waited + waited,
        waited > 7500 ==> backoff_after(waited) == 15000,
        backoff_after(waited) <= 15000,
{
}

/// How long to wait before reconnecting, where `planned` was meant for this
/// time: a connection that was closed in good order starts from the beginning.
pub fn wait_now(planned: u64, closed_cleanly: bool) -> (r: u64)
    ensures
        r == wait_of(planned, closed_cleanly),
        r == if closed_cleanly {
            FIRST_BACKOFF_MS
        } else {
            planned
        },
{
    if closed_cleanly {
        FIRST_BACKOFF_MS
    } else {
        planned
    }
}

/// How long to wait the next time: twice as long, up to the limit.
pub fn next_backoff(waited: u64) -> (r: u64)
    ensures
        r == backoff_after(waited),
        r == if 2 * waited > LONGEST_BACKOFF_MS {
            LONGEST_BACKOFF_MS as int
        } else {
            2 * waited
        },
{
    if waited > LONGEST_BACKOFF_MS / 2 {
        LONGEST_BACKOFF_MS
    } else {
        waited * 2
    }
}

} // verus!
