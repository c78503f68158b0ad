//! The identity of a terminal, and the key text that stands for it in names and records.
use vstd::prelude::*;

verus! {

/// The lower-case hexadecimal digit for `n`.
pub open spec fn hex_digit(n: int) -> char {
    if n < 10 {
        ('0' as int + n) as char
    } else {
        ('a' as int + n - 10) as char
    }
}

/// Whether `c` is a hexadecimal digit, in either case.
pub open spec fn is_hex_digit(c: char) -> bool {
    '0' <= c <= '9' || 'a' <= c <= 'f' || 'A' <= c <= 'F'
}

/// The number that a hexadecimal digit stands for.
pub open spec fn hex_digit_value(c: char) -> int {
    if c <= '9' {
        c as int - '0' as int
    } else if c <= 'F' {
        c as int - 'A' as int + 10
    } else {
        c as int - 'a' as int + 10
    }
}

/// The last `n` hexadecimal digits of `v`.
pub open spec fn hex_digits(v: int, n: nat) -> Seq<char>
    decreases n,
{
    if n == 0 {
        Seq::empty()
    } else {
        hex_digits(v / 16, (n - 1) as nat).push(hex_digit(v % 16))
    }
}

/// The number that hexadecimal digits write.
pub open spec fn hex_value(digits: Seq<char>) -> int
    decreases digits.len(),
{
    if digits.len() == 0 {
        0
    } else {
        16 * hex_value(digits.drop_last()) + hex_digit_value(digits.last())
    }
}

/// Thirty-two digits in groups of eight, four, four, four and twelve, with hyphens between.
pub open spec fn hyphenated(digits: Seq<char>) -> Seq<char> {
    digits.subrange(0, 8) + seq!['-'] + digits.subrange(8, 12) + seq!['-'] + digits.subrange(12, 16)
        + seq!['-'] + digits.subrange(16, 20) + seq!['-'] + digits.subrange(20, 32)
}

/// The digits of a hyphenated text.
pub open spec fn unhyphenated(s: Seq<char>) -> Seq<char> {
    s.subrange(0, 8) + s.subrange(9, 13) + s.subrange(14, 18) + s.subrange(19, 23) + s.subrange(
        24,
        36,
    )
}

/// The key text of the identity `v`: its thirty-two hexadecimal digits, hyphenated.
pub open spec fn key_text(v: u128) -> Seq<char> {
    hyphenated(hex_digits(v as int, 32))
}

/// The identity that thirty-two hexadecimal digits write.
pub open spec fn plain_key_value(s: Seq<char>) -> Option<u128> {
    if s.len() == 32 && forall|i: int| 0 <= i < s.len() ==> is_hex_digit(#[trigger] s[i]) {
        Some(hex_value(s) as u128)
    } else {
        None
    }
}

/// The identity that a hyphenated text writes.
pub open spec fn hyphenated_key_value(s: Seq<char>) -> Option<u128> {
    if s.len() == 36 && s[8] == '-' && s[13] == '-' && s[18] == '-' && s[23] == '-' {
        plain_key_value(unhyphenated(s))
    } else {
        None
    }
}

/// Whether `c` is the letter `lower`, in either case.
pub open spec fn is_letter(c: char, lower: char) -> bool {
    c == lower || c as int + 32 == lower as int
}

/// Whether `s` begins with `urn:uuid:`, in either case.
pub open spec fn has_urn_prefix(s: Seq<char>) -> bool {
    &&& s.len() >= 9
    &&& is_letter(s[0], 'u') && is_letter(s[1], 'r') && is_letter(s[2], 'n')
    &&& s[3] == ':'
    &&& is_letter(s[4], 'u') && is_letter(s[5], 'u') && is_letter(s[6], 'i') && is_letter(s[7], 'd')
    &&& s[8] == ':'
}

/// The identity that a text writes: thirty-two hexadecimal digits, or the hyphenated form, bare,
/// in braces, or behind `urn:uuid:`.
pub open spec fn key_value(s: Seq<char>) -> Option<u128> {
    if s.len() == 32 {
        plain_key_value(s)
    } else if s.len() == 36 {
        hyphenated_key_value(s)
    } else if s.len() == 38 && s[0] == '{' && s[37] == '}' {
        hyphenated_key_value(s.subrange(1, 37))
    } else if s.len() == 45 && has_urn_prefix(s) {
        hyphenated_key_value(s.skip(9))
    } else {
        None
    }
}

/// The text of `uuid::Uuid`'s `Display` for the identity `v`. The contract says that it is the
/// lower-case hyphenated form.
#[verifier::external_body]
fn uuid_text(v: u128) -> (result: String)
    ensures
        result@ == key_text(v),
{
    uuid::Uuid::from_u128(v).to_string()
}

/// The identity that `uuid::Uuid::parse_str` reads. The contract says which texts it accepts, and
/// that it reads their hexadecimal digits, most significant first.
#[verifier::external_body]
fn parse_uuid(s: &str) -> (result: Option<u128>)
    ensures
        result == key_value(s@),
{
    uuid::Uuid::parse_str(s).ok().map(|id| id.as_u128())
}

/// 16 to the power `n`.
spec fn power16(n: nat) -> int
    decreases n,
{
    if n == 0 {
        1
    } else {
        16 * power16((n - 1) as nat)
    }
}

/// The digits of a number write that number.
proof fn lemma_hex_digits(v: int, n: nat)
    requires
        0 <= v < power16(n),
    ensures
        hex_digits(v, n).len() == n,
        forall|i: int| 0 <= i < n ==> is_hex_digit(#[trigger] hex_digits(v, n)[i]),
        hex_value(hex_digits(v, n)) == v,
    decreases n,
{
    if n > 0 {
        let before = hex_digits(v / 16, (n - 1) as nat);
        lemma_hex_digits(v / 16, (n - 1) as nat);
        let digits = hex_digits(v, n);
        assert(digits.drop_last() =~= before);
        assert(digits.last() == hex_digit(v % 16));
        assert forall|i: int| 0 <= i < n implies is_hex_digit(#[trigger] digits[i]) by {
            if i < n - 1 {
                assert(digits[i] == before[i]);
            }
        }
    }
}

/// Every identity has a key text, and reading that text gives the identity back.
pub proof fn key_text_round_trip(v: u128)
    ensures
        key_value(key_text(v)) == Some(v),
{
    assert(power16(32) == 0x1_0000_0000_0000_0000_0000_0000_0000_0000int) by {
        reveal_with_fuel(power16, 33);
    }
    let digits = hex_digits(v as int, 32);
    lemma_hex_digits(v as int, 32);
    let s = hyphenated(digits);
    assert(s.len() == 36);
    assert(unhyphenated(s) =~= digits);
}

/// Two identities with the same key text are the same.
pub proof fn key_text_injective(a: u128, b: u128)
    requires
        key_text(a) == key_text(b),
    ensures
        a == b,
{
    key_text_round_trip(a);
    key_text_round_trip(b);
}

/// The identity of a terminal.
#[derive(Clone, Copy, Debug, PartialEq, Eq, Structural)]
pub struct TerminalId {
    pub value: u128,
}

/// A text that is no terminal identity.
#[derive(Clone, Debug, PartialEq, Eq)]
pub struct InvalidTerminalId {
    pub value: String,
}

impl TerminalId {
    /// The text that stands for this identity in names and records.
    pub fn to_key_string(&self) -> (result: String)
        ensures
            result@ == key_text(self.value),
    {
        uuid_text(self.value)
    }

    /// The identity that a key text stands for.
    pub fn from_key_string(key: &str) -> (result: Result<TerminalId, InvalidTerminalId>)
        ensures
            match result {
                Ok(id) => key_value(key@) == Some(id.value),
                Err(error) => key_value(key@) is None && error.value@ == key@,
            },
    {
        match parse_uuid(key) {
            Some(value) => Ok(TerminalId { value }),
            None => Err(InvalidTerminalId { value: key.to_owned() }),
        }
    }
}

/// The name of the tmux server that holds the sessions of terminal threads.
pub const TERMINAL_THREAD_TMUX_SERVER_NAME: &'static str = "zed-terminal-threads";

/// The name of the tmux session of the terminal `v`.
pub open spec fn session_name(v: u128) -> Seq<char> {
    "zed-"@ + key_text(v)
}

/// The name of the tmux session of a terminal.
pub fn terminal_thread_tmux_session_name(terminal_id: TerminalId) -> (result: String)
    ensures
        result@ == session_name(terminal_id.value),
{
    "zed-".to_owned().concat(terminal_id.to_key_string().as_str())
}

/// Two terminals with the same tmux session name are the same.
pub proof fn session_name_injective(a: u128, b: u128)
    requires
        session_name(a) == session_name(b),
    ensures
        a == b,
{
    assert(key_text(a) =~= session_name(a).skip("zed-"@.len() as int));
    assert(key_text(b) =~= session_name(b).skip("zed-"@.len() as int));
    key_text_injective(a, b);
}

} // verus!
