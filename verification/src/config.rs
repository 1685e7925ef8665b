//! How the server is set up, from the variables of its environment.
use crate::text;
use vstd::prelude::*;
use vstd::string::*;

verus! {

/// The variables that set the server up, as far as they are set.
#[derive(Debug)]
pub struct Vars {
    pub server_host: Option<String>,
    pub server_port: Option<String>,
    pub port: Option<String>,
    pub room_code_length: Option<String>,
    pub room_ttl_seconds: Option<String>,
    pub max_players: Option<String>,
    pub disconnect_timeout_sec: Option<String>,
    pub bot_turn_delay_ms: Option<String>,
    pub room_orphan_timeout_secs: Option<String>,
}

impl Default for Vars {
    /// No variable is set.
    fn default() -> (r: Self)
        ensures
            r.server_host is None,
            r.server_port is None,
            r.port is None,
            r.room_code_length is None,
            r.room_ttl_seconds is None,
            r.max_players is None,
            r.disconnect_timeout_sec is None,
            r.bot_turn_delay_ms is None,
            r.room_orphan_timeout_secs is None,
    {
        Vars {
            server_host: None,
            server_port: None,
            port: None,
            room_code_length: None,
            room_ttl_seconds: None,
            max_players: None,
            disconnect_timeout_sec: None,
            bot_turn_delay_ms: None,
            room_orphan_timeout_secs: None,
        }
    }
}

/// The settings of the server.
#[derive(Debug)]
pub struct Config {
    pub host: String,
    pub port: u16,
    pub room_code_length: usize,
    pub room_ttl_seconds: u64,
    pub max_players: usize,
    pub disconnect_timeout_sec: u64,
    pub bot_turn_delay_ms: u64,
    pub room_orphan_timeout_secs: u64,
}

/// The port that a variable gives, white space around it aside.
pub open spec fn port_in(var: Option<Seq<char>>) -> Option<nat> {
    match var {
        Some(v) => text::parsed_number(text::trimmed(v), u16::MAX as nat),
        None => None,
    }
}

/// The first port that is given, the explicit one before the platform's, or
/// else 8080.
pub open spec fn port_of(server_port: Option<Seq<char>>, port: Option<Seq<char>>) -> nat {
    match port_in(server_port) {
        Some(p) => p,
        None => match port_in(port) {
            Some(p) => p,
            None => 8080,
        },
    }
}

/// The number that a variable gives, or else the default.
pub open spec fn number_of(var: Option<Seq<char>>, max: nat, default: nat) -> nat {
    match var {
        Some(v) => match text::parsed_number(v, max) {
            Some(n) => n,
            None => default,
        },
        None => default,
    }
}

/// What an optional text holds.
pub open spec fn opt_str(o: Option<&str>) -> Option<Seq<char>> {
    match o {
        Some(s) => Some(s@),
        None => None,
    }
}

fn given_port(var: Option<&str>) -> (r: Option<u16>)
    ensures
        match r {
            Some(p) => port_in(opt_str(var)) == Some(p as nat),
            None => port_in(opt_str(var)) is None,
        },
{
    match var {
        Some(v) => {
            let chars = text::trimmed_chars(v);
            match text::parse_number(&chars, u16::MAX as u64) {
                Some(p) => Some(p as u16),
                None => None,
            }
        },
        None => None,
    }
}

/// The port to listen on: the explicit one, else the one that the platform
/// gives, else 8080.
pub fn resolve_port(server_port: Option<&str>, port: Option<&str>) -> (r: u16)
    ensures
        r == port_of(opt_str(server_port), opt_str(port)),
{
    match given_port(server_port) {
        Some(p) => p,
        None => match given_port(port) {
            Some(p) => p,
            None => 8080,
        },
    }
}

fn number_or(var: &Option<String>, max: u64, default: u64) -> (r: u64)
    requires
        default <= max,
    ensures
        r == number_of(text::opt_text(*var), max as nat, default as nat),
        r <= max,
{
    match var {
        Some(v) => {
            let chars = text::chars_of(v.as_str());
            match text::parse_number(&chars, max) {
                Some(n) => n,
                None => default,
            }
        },
        None => default,
    }
}

fn as_str_of(var: &Option<String>) -> (r: Option<&str>)
    ensures
        opt_str(r) == text::opt_text(*var),
{
    match var {
        Some(v) => Some(v.as_str()),
        None => None,
    }
}

/// What the settings hold.
#[verifier::ext_equal]
pub struct ConfigModel {
    pub host: Seq<char>,
    pub port: nat,
    pub room_code_length: nat,
    pub room_ttl_seconds: nat,
    pub max_players: nat,
    pub disconnect_timeout_sec: nat,
    pub bot_turn_delay_ms: nat,
    pub room_orphan_timeout_secs: nat,
}

impl View for Config {
    type V = ConfigModel;

    open spec fn view(&self) -> ConfigModel {
        ConfigModel {
            host: self.host@,
            port: self.port as nat,
            room_code_length: self.room_code_length as nat,
            room_ttl_seconds: self.room_ttl_seconds as nat,
            max_players: self.max_players as nat,
            disconnect_timeout_sec: self.disconnect_timeout_sec as nat,
            bot_turn_delay_ms: self.bot_turn_delay_ms as nat,
            room_orphan_timeout_secs: self.room_orphan_timeout_secs as nat,
        }
    }
}

/// The settings by the variables.
pub open spec fn configured(vars: Vars) -> ConfigModel {
    ConfigModel {
        host: match vars.server_host {
            Some(h) => h@,
            None => "0.0.0.0"@,
        },
        port: port_of(text::opt_text(vars.server_port), text::opt_text(vars.port)),
        room_code_length: number_of(text::opt_text(vars.room_code_length), usize::MAX as nat, 6),
        room_ttl_seconds: number_of(text::opt_text(vars.room_ttl_seconds), u64::MAX as nat, 1800),
        max_players: number_of(text::opt_text(vars.max_players), usize::MAX as nat, 4),
        disconnect_timeout_sec: number_of(
            text::opt_text(vars.disconnect_timeout_sec),
            u64::MAX as nat,
            15,
        ),
        bot_turn_delay_ms: number_of(text::opt_text(vars.bot_turn_delay_ms), u64::MAX as nat, 2500),
        room_orphan_timeout_secs: number_of(
            text::opt_text(vars.room_orphan_timeout_secs),
            u64::MAX as nat,
            30,
        ),
    }
}

/// A setting whose variable is not set has its default, whatever the others are.
pub proof fn law_defaults(vars: Vars)
    ensures
        vars.server_host is None ==> configured(vars).host == "0.0.0.0"@,
        vars.server_port is None && vars.port is None ==> configured(vars).port == 8080,
        vars.room_code_length is None ==> configured(vars).room_code_length == 6,
        vars.room_ttl_seconds is None ==> configured(vars).room_ttl_seconds == 1800,
        vars.max_players is None ==> configured(vars).max_players == 4,
        vars.disconnect_timeout_sec is None ==> configured(vars).disconnect_timeout_sec == 15,
        vars.bot_turn_delay_ms is None ==> configured(vars).bot_turn_delay_ms == 2500,
        vars.room_orphan_timeout_secs is None ==> configured(vars).room_orphan_timeout_secs == 30,
{
}

/// A variable that spells a number sets its setting to that number.
pub proof fn law_variables_set_their_settings(vars: Vars, n: nat)
    requires
        n <= usize::MAX,
        n <= u64::MAX,
    ensures
        vars.server_host matches Some(h) ==> configured(vars).host == h@,
        vars.room_code_length matches Some(v) && v@ == text::decimal(n) ==> configured(
            vars,
        ).room_code_length == n,
        vars.room_ttl_seconds matches Some(v) && v@ == text::decimal(n) ==> configured(
            vars,
        ).room_ttl_seconds == n,
        vars.max_players matches Some(v) && v@ == text::decimal(n) ==> configured(vars).max_players
            == n,
        vars.disconnect_timeout_sec matches Some(v) && v@ == text::decimal(n) ==> configured(
            vars,
        ).disconnect_timeout_sec == n,
        vars.bot_turn_delay_ms matches Some(v) && v@ == text::decimal(n) ==> configured(
            vars,
        ).bot_turn_delay_ms == n,
        vars.room_orphan_timeout_secs matches Some(v) && v@ == text::decimal(n) ==> configured(
            vars,
        ).room_orphan_timeout_secs == n,
        n <= 65535 && (vars.server_port matches Some(v) && v@ == text::decimal(n)) ==> configured(
            vars,
        ).port == n,
        n <= 65535 && vars.server_port is None && (vars.port matches Some(v) && v@
            == text::decimal(n)) ==> configured(vars).port == n,
{
    text::law_decimal_reads_back(n, usize::MAX as nat);
    text::law_decimal_reads_back(n, u64::MAX as nat);
    text::law_decimal_reads_back(n, 65535);
    text::law_decimal_has_no_space(n);
}

/// Where the explicit port cannot be used, the platform's is; where neither can,
/// it is 8080. White space around a port does not matter.
pub proof fn law_ports(junk: Seq<char>, before: Seq<char>, after: Seq<char>, n: nat)
    requires
        n <= 65535,
        forall|i: int| 0 <= i < before.len() ==> #[trigger] before[i] == ' ',
        forall|i: int| 0 <= i < after.len() ==> #[trigger] after[i] == ' ',
        port_in(Some(junk)) is None,
    ensures
        port_of(Some(before + text::decimal(n) + after), Some(junk)) == n,
        port_of(Some(junk), Some(before + text::decimal(n) + after)) == n,
        port_of(Some(junk), None) == 8080,
        port_of(None, Some(junk)) == 8080,
        port_of(Some(junk), Some(junk)) == 8080,
{
    text::law_decimal_reads_back(n, 65535);
    text::law_decimal_has_no_space(n);
    text::law_trimming(before, text::decimal(n), after);
}

impl Config {
    /// The settings by the variables, with a default for each that is not set
    /// or does not hold a number that fits.
    pub fn new(vars: &Vars) -> (r: Self)
        ensures
            r@ == configured(*vars),
            r.host@ == match vars.server_host {
                Some(h) => h@,
                None => "0.0.0.0"@,
            },
            r.port == port_of(text::opt_text(vars.server_port), text::opt_text(vars.port)),
            r.room_code_length == number_of(
                text::opt_text(vars.room_code_length),
                usize::MAX as nat,
                6,
            ),
            r.room_ttl_seconds == number_of(
                text::opt_text(vars.room_ttl_seconds),
                u64::MAX as nat,
                1800,
            ),
            r.max_players == number_of(text::opt_text(vars.max_players), usize::MAX as nat, 4),
            r.disconnect_timeout_sec == number_of(
                text::opt_text(vars.disconnect_timeout_sec),
                u64::MAX as nat,
                15,
            ),
            r.bot_turn_delay_ms == number_of(
                text::opt_text(vars.bot_turn_delay_ms),
                u64::MAX as nat,
                2500,
            ),
            r.room_orphan_timeout_secs == number_of(
                text::opt_text(vars.room_orphan_timeout_secs),
                u64::MAX as nat,
                30,
            ),
    {
        Config {
            host: match &vars.server_host {
                Some(h) => h.clone(),
                None => "0.0.0.0".to_owned(),
            },
            port: resolve_port(as_str_of(&vars.server_port), as_str_of(&vars.port)),
            room_code_length: number_or(&vars.room_code_length, usize::MAX as u64, 6) as usize,
            room_ttl_seconds: number_or(&vars.room_ttl_seconds, u64::MAX, 1800),
            max_players: number_or(&vars.max_players, usize::MAX as u64, 4) as usize,
            disconnect_timeout_sec: number_or(&vars.disconnect_timeout_sec, u64::MAX, 15),
            bot_turn_delay_ms: number_or(&vars.bot_turn_delay_ms, u64::MAX, 2500),
            room_orphan_timeout_secs: number_or(&vars.room_orphan_timeout_secs, u64::MAX, 30),
        }
    }
}

} // verus!
