//! Room codes and the tokens by which players come back.
use crate::rooms::RoomManager;
use crate::text;
use rand::Rng;
use rand::distributions::Alphanumeric;
use vstd::prelude::*;

verus! {

/// Is this an ASCII letter or digit?
pub open spec fn is_alphanumeric(c: char) -> bool {
    ('a' <= c <= 'z') || ('A' <= c <= 'Z') || ('0' <= c <= '9')
}

/// Is this what a room's code looks like? Upper-case letters and digits.
pub open spec fn is_code(s: Seq<char>, length: nat) -> bool {
    &&& s.len() == length
    &&& forall|i: int|
        0 <= i < s.len() ==> ('A' <= #[trigger] s[i] <= 'Z') || ('0' <= s[i] <= '9')
}

/// Is this what a token looks like? 32 lower-case letters and digits.
pub open spec fn is_token(s: Seq<char>) -> bool {
    &&& s.len() == 32
    &&& forall|i: int|
        0 <= i < s.len() ==> ('a' <= #[trigger] s[i] <= 'z') || ('0' <= s[i] <= '9')
}

/// `Rng::sample` with `Alphanumeric` of the `rand` crate, with the generator of
/// the current thread: an ASCII letter or digit. Which one is left to chance.
#[verifier::external_body]
fn random_alphanumeric() -> (r: u8)
    ensures
        is_alphanumeric(r as char),
{
    rand::thread_rng().sample(Alphanumeric)
}

/// Letters and digits, drawn by chance.
fn random_text(length: usize) -> (r: String)
    ensures
        r@.len() == length,
        forall|i: int| 0 <= i < r@.len() ==> is_alphanumeric(#[trigger] r@[i]),
{
    let mut out = String::new();
    let mut i: usize = 0;
    while i < length
        invariant
            i <= length,
            out@.len() == i,
            forall|k: int| 0 <= k < i ==> is_alphanumeric(#[trigger] out@[k]),
        decreases length - i,
    {
        let c: u8 = random_alphanumeric();
        out.push(c as char);
        i += 1;
    }
    out
}

impl RoomManager {
    /// A room code, drawn by chance.
    pub fn generate_code(&self) -> (r: String)
        ensures
            is_code(r@, self@.code_length as nat),
    {
        let raw = random_text(self.code_length);
        let code = text::std_uppercase(raw.as_str());
        assert(text::all_ascii(raw@)) by {
            assert forall|i: int| 0 <= i < raw@.len() implies (#[trigger] raw@[i] as u32) < 128 by {
                assert(is_alphanumeric(raw@[i]));
            }
        }
        assert forall|i: int| 0 <= i < code@.len() implies ('A' <= #[trigger] code@[i] <= 'Z') || (
        '0' <= code@[i] <= '9') by {
            assert(is_alphanumeric(raw@[i]));
        }
        code
    }

    /// A token, drawn by chance.
    pub fn generate_token() -> (r: String)
        ensures
            is_token(r@),
    {
        let raw = random_text(32);
        let token = text::std_lowercase(raw.as_str());
        assert(text::all_ascii(raw@)) by {
            assert forall|i: int| 0 <= i < raw@.len() implies (#[trigger] raw@[i] as u32) < 128 by {
                assert(is_alphanumeric(raw@[i]));
            }
        }
        assert forall|i: int| 0 <= i < token@.len() implies ('a' <= #[trigger] token@[i] <= 'z')
            || ('0' <= token@[i] <= '9') by {
            assert(is_alphanumeric(raw@[i]));
        }
        token
    }

    /// The code under which a room is kept, whatever way a client has written
    /// it: in upper case.
    pub fn room_code(code: &str) -> (r: String)
        ensures
            r@ == text::uppercased(code@),
            text::all_ascii(code@) ==> r@ == text::ascii_uppered(code@),
    {
        text::std_uppercase(code)
    }
}

/// A code that was generated is found again however its letters are written:
/// upper-casing it changes nothing.
pub proof fn law_generated_code_is_normal(code: Seq<char>, length: nat)
    requires
        is_code(code, length),
    ensures
        text::all_ascii(code),
        text::ascii_uppered(code) == code,
        text::ascii_uppered(text::ascii_lowered(code)) == code,
{
    assert forall|i: int| 0 <= i < code.len() implies (#[trigger] code[i] as u32) < 128 by {
        assert('A' <= code[i] <= 'Z' || '0' <= code[i] <= '9');
    }
    assert forall|i: int| 0 <= i < code.len() implies text::ascii_upper(#[trigger] code[i])
        == code[i] && text::ascii_upper(text::ascii_lower(code[i])) == code[i] by {
        assert('A' <= code[i] <= 'Z' || '0' <= code[i] <= '9');
    }
    assert(text::ascii_uppered(code) =~= code);
    assert(text::ascii_uppered(text::ascii_lowered(code)) =~= code);
}

} // verus!
