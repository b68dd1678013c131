use crate::error::Error;
use vstd::prelude::*;

verus! {

/// The character for a hexadecimal digit `d` (0 <= d < 16), in lower case.
pub open spec fn hex_char(d: nat) -> char {
    if d < 10 {
        (48 + d) as char
    } else {
        (87 + d) as char
    }
}

/// The value of a hexadecimal digit character (either case), or -1 for any
/// other character.
pub open spec fn hex_digit_value(c: char) -> int {
    if '0' <= c && c <= '9' {
        c as int - 48
    } else if 'a' <= c && c <= 'f' {
        c as int - 87
    } else if 'A' <= c && c <= 'F' {
        c as int - 55
    } else {
        -1
    }
}

/// Every character of `s` is a hexadecimal digit.
pub open spec fn is_hex_seq(s: Seq<char>) -> bool {
    forall|i: int| 0 <= i < s.len() ==> hex_digit_value(#[trigger] s[i]) >= 0
}

/// The number whose big-endian hexadecimal digits are `s`.
pub open spec fn hex_value(s: Seq<char>) -> int
    decreases s.len(),
{
    if s.len() == 0 {
        0
    } else {
        hex_value(s.drop_last()) * 16 + hex_digit_value(s.last())
    }
}

/// The `n` lowest hexadecimal digits of `v`, most significant first, in
/// lower case.
pub open spec fn hex_encode(v: nat, n: nat) -> Seq<char>
    decreases n,
{
    if n == 0 {
        Seq::empty()
    } else {
        hex_encode(v / 16, (n - 1) as nat).push(hex_char(v % 16))
    }
}

/// 16 to the power `n`.
pub open spec fn pow16(n: nat) -> nat
    decreases n,
{
    if n == 0 {
        1
    } else {
        16 * pow16((n - 1) as nat)
    }
}

/// The textual form of an identifier: 32 lower-case hexadecimal digits.
pub open spec fn uuid_text(value: u128) -> Seq<char> {
    hex_encode(value as nat, 32)
}

/// The digits of an identifier in the hyphenated form (groups of 8, 4, 4,
/// 4 and 12 digits), without its four hyphens.
pub open spec fn hyphenated_digits(s: Seq<char>) -> Seq<char> {
    s.subrange(0, 8) + s.subrange(9, 13) + s.subrange(14, 18) + s.subrange(19, 23) + s.subrange(
        24,
        36,
    )
}

/// `s` is an identifier in the hyphenated form: 36 characters, hyphens at
/// positions 8, 13, 18 and 23, hexadecimal digits everywhere else.
pub open spec fn is_hyphenated_uuid(s: Seq<char>) -> bool {
    &&& s.len() == 36
    &&& s[8] == '-' && s[13] == '-' && s[18] == '-' && s[23] == '-'
    &&& is_hex_seq(hyphenated_digits(s))
}

/// The identifier a text stands for, as the uuid crate reads it: 32
/// hexadecimal digits (either case), the hyphenated form, or `urn:uuid:`
/// followed by the hyphenated form, the digits read most significant
/// first. Any other text stands for none.
pub open spec fn uuid_parse(s: Seq<char>) -> Option<u128> {
    if s.len() == 32 && is_hex_seq(s) {
        Some(hex_value(s) as u128)
    } else if is_hyphenated_uuid(s) {
        Some(hex_value(hyphenated_digits(s)) as u128)
    } else if s.len() == 45 && s.subrange(0, 9) == "urn:uuid:"@ && is_hyphenated_uuid(
        s.subrange(9, 45),
    ) {
        Some(hex_value(hyphenated_digits(s.subrange(9, 45))) as u128)
    } else {
        None
    }
}

/// A random identifier as the uuid crate makes one (version 4, RFC 4122
/// variant): the version number 4 stands in bits 76 to 79 and the variant
/// bits `10` in bits 62 and 63 of its 128-bit value, most significant byte
/// first; the other 122 bits are random.
pub open spec fn is_random_uuid(value: u128) -> bool {
    &&& (value >> 76u128) & 0xfu128 == 4
    &&& (value >> 62u128) & 0x3u128 == 2
}

/// Calls `uuid::Uuid::new_v4`: a fresh random identifier. The crate fills
/// 16 bytes from the operating system's random source, then sets the
/// version (4) and the variant (RFC 4122) bits (`Builder::set_version`,
/// `Builder::set_variant`); `as_u128` reads the bytes most significant
/// first. Only those bits are promised; the rest is random.
#[verifier::external_body]
fn random_uuid_value() -> (value: u128)
    ensures
        is_random_uuid(value),
{
    uuid::Uuid::new_v4().as_u128()
}

/// Calls `uuid::Uuid::to_simple` and `Simple::encode_lower`: the identifier
/// as 32 lower-case hexadecimal digits, most significant first (the
/// "simple" format of the uuid crate).
#[verifier::external_body]
fn encode_simple_lower(value: u128) -> (s: String)
    ensures
        s@ == uuid_text(value),
{
    let mut buf = [b'!'; 32];
    uuid::Uuid::from_u128(value).to_simple().encode_lower(&mut buf).to_string()
}

/// Calls `uuid::Uuid::parse_str`. The crate's parser takes a text of 32
/// hexadecimal digits, the hyphenated form (8-4-4-4-12 digits), or
/// `urn:uuid:` followed by the hyphenated form, and reads the 32 digits as
/// the identifier's bytes, most significant first; it refuses every other
/// text (see `uuid_parse`).
#[verifier::external_body]
fn parse_uuid_value(s: &str) -> (r: Option<u128>)
    ensures
        r == uuid_parse(s@),
{
    match uuid::Uuid::parse_str(s) {
        Ok(u) => Some(u.as_u128()),
        Err(_) => None,
    }
}

proof fn lemma_hex_encode(v: nat, n: nat)
    ensures
        hex_encode(v, n).len() == n,
        is_hex_seq(hex_encode(v, n)),
        hex_value(hex_encode(v, n)) == v % pow16(n),
    decreases n,
{
    if n > 0 {
        let m = (n - 1) as nat;
        lemma_hex_encode(v / 16, m);
        let e = hex_encode(v, n);
        let prefix = hex_encode(v / 16, m);
        assert(e.drop_last() =~= prefix);
        let d = v % 16;
        assert(hex_digit_value(hex_char(d)) == d) by {
            assert(d < 16);
        }
        assert forall|i: int| 0 <= i < e.len() implies hex_digit_value(#[trigger] e[i]) >= 0 by {
            if i < m {
                assert(e[i] == prefix[i]);
            }
        }
        assert(pow16(m) > 0) by {
            lemma_pow16_positive(m);
        }
        vstd::arithmetic::div_mod::lemma_mod_breakdown(v as int, 16, pow16(m) as int);
        assert(pow16(n) == 16 * pow16(m));
    }
}

proof fn lemma_pow16_positive(n: nat)
    ensures
        pow16(n) > 0,
    decreases n,
{
    if n > 0 {
        lemma_pow16_positive((n - 1) as nat);
    }
}

proof fn lemma_pow16_32()
    ensures
        pow16(32) == 0x1_0000_0000_0000_0000_0000_0000_0000_0000nat,
{
    reveal_with_fuel(pow16, 33);
}

/// Reading back the text of an identifier gives the identifier again.
pub proof fn lemma_uuid_text_roundtrip(value: u128)
    ensures
        uuid_text(value).len() == 32,
        is_hex_seq(uuid_text(value)),
        hex_value(uuid_text(value)) == value as int,
{
    lemma_hex_encode(value as nat, 32);
    lemma_pow16_32();
}

/// The identifier of a player.
#[derive(Clone, Copy, PartialEq, Eq, Structural, Hash, Debug, Default)]
pub struct PlayerUUID {
    pub value: u128,
}

/// The identifier of a game.
#[derive(Clone, Copy, PartialEq, Eq, Structural, Hash, Debug, Default)]
pub struct GameUUID {
    pub value: u128,
}

impl PlayerUUID {
    /// A fresh random identifier, of version 4 and the RFC 4122 variant
    /// (see `is_random_uuid`).
    pub fn new() -> (id: Self)
        ensures
            is_random_uuid(id.value),
    {
        PlayerUUID { value: random_uuid_value() }
    }

    /// The identifier with the given 128-bit value.
    pub fn from_u128(value: u128) -> (id: Self)
        ensures
            id.value == value,
    {
        PlayerUUID { value }
    }

    /// The identifier as 32 lower-case hexadecimal digits.
    pub fn to_string(&self) -> (s: String)
        ensures
            s@ == uuid_text(self.value),
    {
        encode_simple_lower(self.value)
    }

    /// Parses an identifier with the uuid crate's parser.
    pub fn from_str(s: &str) -> (r: Result<Self, Error>)
        ensures
            r matches Ok(id) ==> uuid_parse(s@) == Some(id.value),
            r is Err <==> uuid_parse(s@) is None,
            r matches Err(e) ==> e.message@ == "Not a valid UUID"@,
            s@.len() == 32 && is_hex_seq(s@) ==> r == Ok::<Self, Error>(
                PlayerUUID { value: hex_value(s@) as u128 },
            ),
    {
        match parse_uuid_value(s) {
            Some(value) => Ok(PlayerUUID { value }),
            None => Err(Error::new("Not a valid UUID")),
        }
    }
}

impl GameUUID {
    /// A fresh random identifier, of version 4 and the RFC 4122 variant
    /// (see `is_random_uuid`).
    pub fn new() -> (id: Self)
        ensures
            is_random_uuid(id.value),
    {
        GameUUID { value: random_uuid_value() }
    }

    /// The identifier with the given 128-bit value.
    pub fn from_u128(value: u128) -> (id: Self)
        ensures
            id.value == value,
    {
        GameUUID { value }
    }

    /// The identifier as 32 lower-case hexadecimal digits.
    pub fn to_string(&self) -> (s: String)
        ensures
            s@ == uuid_text(self.value),
    {
        encode_simple_lower(self.value)
    }

    /// Parses an identifier with the uuid crate's parser.
    pub fn from_str(s: &str) -> (r: Result<Self, Error>)
        ensures
            r matches Ok(id) ==> uuid_parse(s@) == Some(id.value),
            r is Err <==> uuid_parse(s@) is None,
            r matches Err(e) ==> e.message@ == "Not a valid UUID"@,
            s@.len() == 32 && is_hex_seq(s@) ==> r == Ok::<Self, Error>(
                GameUUID { value: hex_value(s@) as u128 },
            ),
    {
        match parse_uuid_value(s) {
            Some(value) => Ok(GameUUID { value }),
            None => Err(Error::new("Not a valid UUID")),
        }
    }
}

/// Parsing the text of a player's identifier gives back that identifier.
pub proof fn lemma_player_uuid_roundtrip(id: PlayerUUID)
    ensures
        uuid_parse(uuid_text(id.value)) == Some(id.value),
{
    lemma_uuid_text_roundtrip(id.value);
}

} // verus!
