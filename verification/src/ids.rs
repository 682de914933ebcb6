//! Aliases, room ids and message ids.

use crate::peer::PeerId;
use crate::primitives;
use crate::primitives::blake3_hash;
use crate::primitives::random_bytes;
use crate::text;
use crate::text::byte_len;
use crate::text::cat2;
use crate::text::cat4;
use crate::text::char_is_alnum;
use crate::text::char_is_hex;
use crate::text::chars_of;
use crate::text::hex_text;
use crate::text::Rank;
use crate::text::rank_texts;
use crate::text::string_of;
use vstd::prelude::*;
use vstd::utf8::*;

verus! {

/// The characters of an alias.
pub open spec fn is_alias_char(c: char) -> bool {
    text::is_alnum(c) || c == '_' || c == '-'
}

/// The characters of a room id.
pub open spec fn is_room_char(c: char) -> bool {
    text::is_alnum(c) || c == '-' || c == '_' || c == '.'
}

/// An alias is valid: 1 to 64 ASCII letters, digits, `_` and `-`.
pub open spec fn alias_valid(alias: Seq<char>) -> bool {
    &&& alias.len() > 0
    &&& encode_utf8(alias).len() <= 64
    &&& forall|i: int| 0 <= i < alias.len() ==> is_alias_char(#[trigger] alias[i])
}

/// A text consists of characters of room ids.
pub open spec fn all_room_chars(s: Seq<char>) -> bool {
    forall|i: int| 0 <= i < s.len() ==> is_room_char(#[trigger] s[i])
}

/// A room id is valid: 1 to 64 ASCII letters, digits, `-`, `_` and `.`.
pub open spec fn room_id_valid(room_id: Seq<char>) -> bool {
    &&& room_id.len() > 0
    &&& encode_utf8(room_id).len() <= 64
    &&& all_room_chars(room_id)
}

/// Decide whether an alias is valid.
pub fn alias_is_valid(alias: &str) -> (res: bool)
    ensures
        res == alias_valid(alias@),
{
    let chars = chars_of(alias);
    if chars.len() == 0 || byte_len(alias) > 64 {
        return false;
    }
    let mut i: usize = 0;
    while i < chars.len()
        invariant
            chars@ == alias@,
            i <= chars@.len(),
            forall|j: int| 0 <= j < i ==> is_alias_char(#[trigger] alias@[j]),
        decreases chars.len() - i,
    {
        let c: char = chars[i];
        if !(char_is_alnum(c) || c == '_' || c == '-') {
            assert(!is_alias_char(alias@[i as int]));
            return false;
        }
        i = i + 1;
    }
    true
}

/// Decide whether a text consists of characters of room ids.
fn has_room_chars(s: &str) -> (res: bool)
    ensures
        res == all_room_chars(s@),
{
    let chars = chars_of(s);
    let mut i: usize = 0;
    while i < chars.len()
        invariant
            chars@ == s@,
            i <= chars@.len(),
            forall|j: int| 0 <= j < i ==> is_room_char(#[trigger] s@[j]),
        decreases chars.len() - i,
    {
        let c: char = chars[i];
        if !(char_is_alnum(c) || c == '-' || c == '_' || c == '.') {
            assert(!is_room_char(s@[i as int]));
            return false;
        }
        i = i + 1;
    }
    true
}

/// Decide whether a room id is valid.
pub fn room_id_is_valid(room_id: &str) -> (res: bool)
    ensures
        res == room_id_valid(room_id@),
{
    byte_len(room_id) > 0 && byte_len(room_id) <= 64 && has_room_chars(room_id) && {
        let n: usize = chars_of(room_id).len();
        n > 0
    }
}

/// What is wrong with a room id, if anything is.
pub open spec fn room_id_error(room_id: Seq<char>) -> Option<Seq<char>> {
    if room_id.len() == 0 {
        Some("room id cannot be empty"@)
    } else if encode_utf8(room_id).len() > 64 {
        Some("room id is too long; max 64 characters"@)
    } else if !all_room_chars(room_id) {
        Some("room id may contain only ASCII letters, numbers, '-', '_' and '.'"@)
    } else {
        None
    }
}

/// Refuse room ids that are not valid.
pub fn validate_room_id(room_id: &str) -> (res: Result<(), String>)
    ensures
        match res {
            Ok(_) => room_id_error(room_id@) is None && room_id_valid(room_id@),
            Err(e) => room_id_error(room_id@) == Some(e@) && !room_id_valid(room_id@),
        },
{
    let chars = chars_of(room_id);
    if chars.len() == 0 {
        return Err("room id cannot be empty".to_owned());
    }
    if byte_len(room_id) > 64 {
        return Err("room id is too long; max 64 characters".to_owned());
    }
    if !has_room_chars(room_id) {
        return Err("room id may contain only ASCII letters, numbers, '-', '_' and '.'".to_owned());
    }
    Ok(())
}

/// A message id is valid: 128 bits in hexadecimal.
pub open spec fn message_id_valid(id: Seq<char>) -> bool {
    &&& encode_utf8(id).len() == 32
    &&& forall|i: int| 0 <= i < id.len() ==> text::is_hex_digit(#[trigger] id[i])
}

/// Decide whether a message id is valid.
pub fn is_valid_message_id(message_id: &str) -> (res: bool)
    ensures
        res == message_id_valid(message_id@),
{
    if byte_len(message_id) != 32 {
        return false;
    }
    let chars = chars_of(message_id);
    let mut i: usize = 0;
    while i < chars.len()
        invariant
            chars@ == message_id@,
            i <= chars@.len(),
            forall|j: int| 0 <= j < i ==> text::is_hex_digit(#[trigger] message_id@[j]),
        decreases chars.len() - i,
    {
        if !char_is_hex(chars[i]) {
            assert(!text::is_hex_digit(message_id@[i as int]));
            return false;
        }
        i = i + 1;
    }
    true
}

/// Every message id that is made of 128 bits is valid, and so is the room id made of it.
pub proof fn law_generated_ids_are_valid(bytes: Seq<u8>)
    requires
        bytes.len() == 16,
    ensures
        message_id_valid(text::hex(bytes)),
        room_id_valid(invite_room_id(text::hex(bytes))),
{
    text::lemma_hex(bytes);
    text::lemma_ascii_len(text::hex(bytes));
    reveal_strlit("room-");
    let id = invite_room_id(text::hex(bytes));
    assert forall|i: int| 0 <= i < id.len() implies is_room_char(#[trigger] id[i]) && '\0' <= id[i] <= '\x7f' by {
        if i >= 5 {
            assert(id[i] == text::hex(bytes)[i - 5]);
        }
    }
    text::lemma_ascii_len(id);
}

/// A message id that is made of 128 bits.
pub open spec fn id_generated(id: Seq<char>) -> bool {
    exists|bytes: Seq<u8>| bytes.len() == 16 && id == #[trigger] text::hex(bytes)
}

/// A room id that is made of the message id of 128 bits.
pub open spec fn room_id_generated(id: Seq<char>) -> bool {
    exists|bytes: Seq<u8>| bytes.len() == 16 && id == invite_room_id(#[trigger] text::hex(bytes))
}

/// Generate a random message id: the hexadecimal text of 128 bits.
pub fn generate_message_id() -> (res: String)
    ensures
        message_id_valid(res@),
        id_generated(res@),
{
    let bytes = random_bytes(16);
    proof {
        law_generated_ids_are_valid(bytes@);
    }
    hex_text(bytes.as_slice())
}

/// The room id that is made of a message id.
pub open spec fn invite_room_id(message_id: Seq<char>) -> Seq<char> {
    "room-"@ + message_id.subrange(0, 16)
}

/// Generate a random room id.
pub fn generate_invite_room_id() -> (res: String)
    ensures
        room_id_valid(res@),
        room_id_generated(res@),
{
    let id = generate_message_id();
    proof {
        let bytes = choose|bytes: Seq<u8>| bytes.len() == 16 && id@ == #[trigger] text::hex(bytes);
        law_generated_ids_are_valid(bytes);
        text::lemma_hex(bytes);
    }
    let chars = chars_of(id.as_str());
    let suffix = string_of(&chars, 0, 16);
    cat2("room-", suffix.as_str())
}

/// What is hashed for the room of two peers.
pub open spec fn dm_material(a: Seq<char>, b: Seq<char>) -> Seq<char> {
    if text::text_before(b, a) {
        "DOGEL_DM_ROOM_V1\0"@ + b + "\0"@ + a
    } else {
        "DOGEL_DM_ROOM_V1\0"@ + a + "\0"@ + b
    }
}

/// The id of the room of two peers.
pub open spec fn dm_room_id(a: Seq<char>, b: Seq<char>) -> Seq<char> {
    "dm-"@ + text::hex(primitives::blake3_hashed(encode_utf8(dm_material(a, b))).subrange(0, 8))
}

/// Derive the id of the room of two peers.
pub fn deterministic_dm_room_id(a: &PeerId, b: &PeerId) -> (res: String)
    ensures
        res@ == dm_room_id(a@, b@),
        res@.len() == 19,
        room_id_valid(res@),
{
    let swapped = matches!(rank_texts(b.as_text(), a.as_text()), Rank::Before);
    let material = if swapped {
        cat4("DOGEL_DM_ROOM_V1\0", b.as_text(), "\0", a.as_text())
    } else {
        cat4("DOGEL_DM_ROOM_V1\0", a.as_text(), "\0", b.as_text())
    };
    let hash = blake3_hash(material.as_str().as_bytes());
    let suffix = hex_text(vstd::slice::slice_subrange(hash.as_slice(), 0, 8));
    let res = cat2("dm-", suffix.as_str());
    proof {
        reveal_strlit("dm-");
        text::lemma_hex(hash@.subrange(0, 8));
        assert forall|i: int| 0 <= i < res@.len() implies is_room_char(#[trigger] res@[i])
            && '\0' <= res@[i] <= '\x7f' by {
            if i >= 3 {
                assert(res@[i] == suffix@[i - 3]);
            }
        }
        text::lemma_ascii_len(res@);
    }
    res
}

/// Both peers derive the same id for their room, whichever of them does it.
pub proof fn law_dm_room_id_symmetric(a: Seq<char>, b: Seq<char>)
    ensures
        dm_room_id(a, b) == dm_room_id(b, a),
{
    text::lemma_text_before_total(a, b);
    if text::text_before(a, b) && text::text_before(b, a) {
        text::lemma_text_before_transitive(a, b, a);
        text::lemma_text_before_irreflexive(a);
    }
}

/// A letter or a digit of ASCII.
pub open spec fn ascii_letter_or_digit(c: char) -> bool {
    'a' <= c <= 'z' || 'A' <= c <= 'Z' || '0' <= c <= '9'
}

/// A room id is accepted exactly if it has 1 to 64 characters, each an ASCII letter or digit, `-`,
/// `_` or `.`.
pub proof fn law_room_ids(room_id: Seq<char>)
    ensures
        room_id_error(room_id) is None <==> 1 <= room_id.len() <= 64 && forall|i: int|
            0 <= i < room_id.len() ==> {
                let c = #[trigger] room_id[i];
                ascii_letter_or_digit(c) || c == '-' || c == '_' || c == '.'
            },
        room_id_valid(room_id) <==> room_id_error(room_id) is None,
{
    if all_room_chars(room_id) {
        assert forall|i: int| 0 <= i < room_id.len() implies '\0' <= #[trigger] room_id[i]
            <= '\x7f' by {
            assert(is_room_char(room_id[i]));
        }
        text::lemma_ascii_len(room_id);
    }
    if 1 <= room_id.len() <= 64 && forall|i: int|
        0 <= i < room_id.len() ==> {
            let c = #[trigger] room_id[i];
            ascii_letter_or_digit(c) || c == '-' || c == '_' || c == '.'
        } {
        assert(all_room_chars(room_id));
    }
}

/// An alias is accepted exactly if it has 1 to 64 characters, each an ASCII letter or digit, `-` or
/// `_`.
pub proof fn law_aliases(alias: Seq<char>)
    ensures
        alias_valid(alias) <==> 1 <= alias.len() <= 64 && forall|i: int|
            0 <= i < alias.len() ==> {
                let c = #[trigger] alias[i];
                ascii_letter_or_digit(c) || c == '-' || c == '_'
            },
{
    if forall|i: int| 0 <= i < alias.len() ==> is_alias_char(#[trigger] alias[i]) {
        assert forall|i: int| 0 <= i < alias.len() implies '\0' <= #[trigger] alias[i]
            <= '\x7f' by {
            assert(is_alias_char(alias[i]));
        }
        text::lemma_ascii_len(alias);
    }
    if forall|i: int|
        0 <= i < alias.len() ==> {
            let c = #[trigger] alias[i];
            ascii_letter_or_digit(c) || c == '-' || c == '_'
        } {
        assert forall|i: int| 0 <= i < alias.len() implies is_alias_char(#[trigger] alias[i]) by {}
    }
}

/// A message id is accepted exactly if it consists of 32 hexadecimal digits.
pub proof fn law_message_ids(id: Seq<char>)
    ensures
        message_id_valid(id) <==> id.len() == 32 && forall|i: int|
            0 <= i < id.len() ==> {
                let c = #[trigger] id[i];
                '0' <= c <= '9' || 'a' <= c <= 'f' || 'A' <= c <= 'F'
            },
{
    if forall|i: int| 0 <= i < id.len() ==> text::is_hex_digit(#[trigger] id[i]) {
        assert forall|i: int| 0 <= i < id.len() implies '\0' <= #[trigger] id[i] <= '\x7f' by {
            assert(text::is_hex_digit(id[i]));
        }
        text::lemma_ascii_len(id);
    }
    if forall|i: int|
        0 <= i < id.len() ==> {
            let c = #[trigger] id[i];
            '0' <= c <= '9' || 'a' <= c <= 'f' || 'A' <= c <= 'F'
        } {
        assert forall|i: int| 0 <= i < id.len() implies text::is_hex_digit(#[trigger] id[i]) by {}
    }
}

/// Two texts without a zero character that are joined by one can be told apart again.
proof fn lemma_joined_by_zero(a: Seq<char>, b: Seq<char>, c: Seq<char>, d: Seq<char>)
    requires
        !a.contains('\0'),
        !c.contains('\0'),
        a + seq!['\0'] + b == c + seq!['\0'] + d,
    ensures
        a == c,
        b == d,
{
    let x = a + seq!['\0'] + b;
    let y = c + seq!['\0'] + d;
    assert(x[a.len() as int] == '\0');
    assert(y[c.len() as int] == '\0');
    if a.len() < c.len() {
        assert(y[a.len() as int] == c[a.len() as int]);
        assert(c.contains(c[a.len() as int]));
    }
    if c.len() < a.len() {
        assert(x[c.len() as int] == a[c.len() as int]);
        assert(a.contains(a[c.len() as int]));
    }
    assert(x.take(a.len() as int) =~= a);
    assert(y.take(c.len() as int) =~= c);
    assert(x.skip(a.len() as int + 1) =~= b);
    assert(y.skip(c.len() as int + 1) =~= d);
}

/// What is hashed for the room of two peers tells who they are: other peers, other material.
pub proof fn law_dm_material_tells_the_peers(
    a: Seq<char>,
    b: Seq<char>,
    c: Seq<char>,
    d: Seq<char>,
)
    requires
        !a.contains('\0'),
        !b.contains('\0'),
        !c.contains('\0'),
        !d.contains('\0'),
        dm_material(a, b) == dm_material(c, d),
    ensures
        a == c && b == d || a == d && b == c,
{
    reveal_strlit("\0");
    reveal_strlit("DOGEL_DM_ROOM_V1\0");
    let head = "DOGEL_DM_ROOM_V1\0"@;
    assert("\0"@ =~= seq!['\0']);
    let (p, q) = if text::text_before(b, a) {
        (b, a)
    } else {
        (a, b)
    };
    let (r, s) = if text::text_before(d, c) {
        (d, c)
    } else {
        (c, d)
    };
    let x = head + p + "\0"@ + q;
    let y = head + r + "\0"@ + s;
    assert(x == dm_material(a, b));
    assert(y == dm_material(c, d));
    assert(x.skip(head.len() as int) =~= p + seq!['\0'] + q);
    assert(y.skip(head.len() as int) =~= r + seq!['\0'] + s);
    lemma_joined_by_zero(p, q, r, s);
}

/// The id of the room of two peers shows the first eight bytes of the hash of who they are, behind
/// `dm-`.
pub proof fn law_dm_room_ids_show_the_hash(a: Seq<char>, b: Seq<char>, i: int)
    requires
        0 <= i < 8,
    ensures
        ({
            let hash = primitives::blake3_hashed(encode_utf8(dm_material(a, b)));
            let id = dm_room_id(a, b);
            hash.len() >= 8 ==> {
                &&& id.len() == 19
                &&& "dm-"@.is_prefix_of(id)
                &&& 16 * text::hex_digit_value(id[3 + 2 * i]) + text::hex_digit_value(id[4 + 2 * i]) == hash[i]
            }
        }),
{
    let hash = primitives::blake3_hashed(encode_utf8(dm_material(a, b)));
    let id = dm_room_id(a, b);
    reveal_strlit("dm-");
    if hash.len() >= 8 {
        let part = hash.subrange(0, 8);
        text::law_hex_digits(part, i);
        assert(id.subrange(0, 3) =~= "dm-"@);
        assert(id[3 + 2 * i] == text::hex(part)[2 * i]);
        assert(id[4 + 2 * i] == text::hex(part)[2 * i + 1]);
    }
}

} // verus!
