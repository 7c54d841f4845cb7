//! Texts that the protocol sends: decimal numbers, error messages and the
//! newline framing of encoded frames.

use vstd::prelude::*;
use vstd::string::*;

verus! {

/// The character of a decimal digit.
pub open spec fn digit_char(d: nat) -> char
    recommends
        d < 10,
{
    if d == 0 {
        '0'
    } else if d == 1 {
        '1'
    } else if d == 2 {
        '2'
    } else if d == 3 {
        '3'
    } else if d == 4 {
        '4'
    } else if d == 5 {
        '5'
    } else if d == 6 {
        '6'
    } else if d == 7 {
        '7'
    } else if d == 8 {
        '8'
    } else {
        '9'
    }
}

/// The decimal notation of `n`, without sign or leading zeros.
pub open spec fn decimal(n: nat) -> Seq<char>
    decreases n,
{
    if n < 10 {
        seq![digit_char(n)]
    } else {
        decimal(n / 10) + seq![digit_char(n % 10)]
    }
}

fn digit_str(d: usize) -> (r: &'static str)
    requires
        d < 10,
    ensures
        r@ == seq![digit_char(d as nat)],
{
    proof {
        reveal_strlit("0");
        reveal_strlit("1");
        reveal_strlit("2");
        reveal_strlit("3");
        reveal_strlit("4");
        reveal_strlit("5");
        reveal_strlit("6");
        reveal_strlit("7");
        reveal_strlit("8");
        reveal_strlit("9");
    }
    let r = if d == 0 {
        "0"
    } else if d == 1 {
        "1"
    } else if d == 2 {
        "2"
    } else if d == 3 {
        "3"
    } else if d == 4 {
        "4"
    } else if d == 5 {
        "5"
    } else if d == 6 {
        "6"
    } else if d == 7 {
        "7"
    } else if d == 8 {
        "8"
    } else {
        "9"
    };
    assert(r@ =~= seq![digit_char(d as nat)]);
    r
}

/// Writes `n` in decimal notation.
pub fn decimal_string(n: usize) -> (r: String)
    ensures
        r@ == decimal(n as nat),
    decreases n,
{
    let d = digit_str(n % 10);
    if n < 10 {
        String::from_str(d)
    } else {
        decimal_string(n / 10).concat(d)
    }
}

/// A lowercase hexadecimal digit.
pub open spec fn is_lower_hex(c: char) -> bool {
    ||| c == '0' || c == '1' || c == '2' || c == '3' || c == '4' || c == '5' || c == '6'
    ||| c == '7' || c == '8' || c == '9' || c == 'a' || c == 'b' || c == 'c' || c == 'd'
    ||| c == 'e' || c == 'f'
}

/// The hyphenated form of a UUID: 32 lowercase hexadecimal digits in groups
/// of 8, 4, 4, 4 and 12, joined by hyphens.
pub open spec fn is_hyphenated_uuid(s: Seq<char>) -> bool {
    &&& s.len() == 36
    &&& forall|i: int|
        0 <= i < 36 ==> if i == 8 || i == 13 || i == 18 || i == 23 {
            s[i] == '-'
        } else {
            is_lower_hex(#[trigger] s[i])
        }
}

/// The error text for a join attempt on a room that has no free place.
pub open spec fn room_full_text(current: nat, max: nat) -> Seq<char> {
    "Room is full ("@ + decimal(current) + "/"@ + decimal(max) + " users)"@
}

/// Builds the error text for a join attempt on a full room.
pub fn room_full_message(current: usize, max: usize) -> (r: String)
    ensures
        r@ == room_full_text(current as nat, max as nat),
{
    let head = String::from_str("Room is full (");
    let cur = decimal_string(current);
    let cap = decimal_string(max);
    let r = head.concat(cur.as_str()).concat("/").concat(cap.as_str()).concat(" users)");
    r
}

/// The error text for a join on an identifier that names no room.
pub fn invalid_room_message() -> (r: String)
    ensures
        r@ == "Invalid room ID"@,
{
    String::from_str("Invalid room ID")
}

/// The error text for a room whose name is already taken.
pub fn duplicate_name_message() -> (r: String)
    ensures
        r@ == "Room name already exists"@,
{
    String::from_str("Room name already exists")
}

/// The error text for a room asked for with fewer than two places.
pub fn capacity_too_small_message() -> (r: String)
    ensures
        r@ == "Room must allow at least 2 users"@,
{
    String::from_str("Room must allow at least 2 users")
}

/// The error text for a freshly drawn room identifier that is already in use.
pub fn duplicate_id_message() -> (r: String)
    ensures
        r@ == "Room ID already exists"@,
{
    String::from_str("Room ID already exists")
}

/// The byte that ends every frame on the wire.
pub const NEWLINE: u8 = 10;

/// Turns an encoded message into one line of the wire: the encoding followed
/// by a newline. An encoding that itself holds a newline cannot be framed.
pub fn frame(encoded: &[u8]) -> (r: Option<Vec<u8>>)
    ensures
        r is Some <==> !encoded@.contains(NEWLINE),
        r matches Some(line) ==> line@ == encoded@.push(NEWLINE),
{
    let mut line: Vec<u8> = Vec::new();
    let mut i: usize = 0;
    while i < encoded.len()
        invariant
            i <= encoded@.len(),
            line@ == encoded@.subrange(0, i as int),
            forall|j: int| 0 <= j < i ==> encoded@[j] != NEWLINE,
        decreases encoded@.len() - i,
    {
        if encoded[i] == NEWLINE {
            return None;
        }
        line.push(encoded[i]);
        i = i + 1;
        assert(line@ =~= encoded@.subrange(0, i as int));
    }
    line.push(NEWLINE);
    assert(encoded@.subrange(0, encoded@.len() as int) =~= encoded@);
    Some(line)
}

} // verus!
