use vstd::prelude::*;
use vstd::string::*;

verus! {

/// One sample of a live play session, as a debug endpoint reports it:
/// the area, side and room the player is in, the map identifier, and the
/// player position.
#[derive(Debug)]
pub struct SessionData {
    pub area: String,
    pub side: String,
    pub level: String,
    pub map_bin: String,
    pub x: i32,
    pub y: i32,
    pub tp: String,
}

impl core::default::Default for SessionData {
    /// The session before any sample has arrived: empty identifiers, the
    /// placeholder side and teleport markers, and the origin position.
    fn default() -> (r: SessionData)
        ensures
            r.area@ == Seq::<char>::empty(),
            r.side@ == "'?'"@,
            r.level@ == Seq::<char>::empty(),
            r.map_bin@ == Seq::<char>::empty(),
            r.x == 0,
            r.y == 0,
            r.tp@ == "''"@,
    {
        SessionData {
            area: String::new(),
            side: String::from_str("'?'"),
            level: String::new(),
            map_bin: String::new(),
            x: 0,
            y: 0,
            tp: String::from_str("''"),
        }
    }
}

/// The position of the first ": " separator at or after `i`, or -1 when
/// none follows.
pub open spec fn spec_find_sep(s: Seq<char>, i: int) -> int
    decreases s.len() - i,
{
    if i + 2 > s.len() {
        -1
    } else if s[i] == ':' && s[i + 1] == ' ' {
        i
    } else {
        spec_find_sep(s, i + 1)
    }
}

/// The value of a "Key: value" line: the text after the first ": ", if
/// the text before it is exactly `key`.
pub open spec fn spec_key_value(data: Seq<char>, key: Seq<char>) -> Option<Seq<char>> {
    let i = spec_find_sep(data, 0);
    if i < 0 {
        None
    } else if data.subrange(0, i) == key {
        Some(data.subrange(i + 2, data.len() as int))
    } else {
        None
    }
}

/// Splits a "Key: value" line at its first ": " and yields the value part
/// when the key part is exactly `key`; `None` when the separator is
/// missing or the key differs.
#[verifier::loop_isolation(false)]
pub fn data_assert_key_value<'a>(data: &'a str, key: &str) -> (r: Option<&'a str>)
    ensures
        (match r {
            Some(v) => spec_key_value(data@, key@) == Some(v@),
            None => spec_key_value(data@, key@) is None,
        }),
{
    let n = data.unicode_len();
    let mut i: usize = 0;
    while n - i >= 2 && !(data.get_char(i) == ':' && data.get_char(i + 1) == ' ')
        invariant
            i <= n,
            n == data@.len(),
            spec_find_sep(data@, 0) == spec_find_sep(data@, i as int),
        decreases n - i,
    {
        i = i + 1;
    }
    if n - i < 2 {
        return None;
    }
    let key_part = data.substring_char(0, i);
    let value = data.substring_char(i + 2, n);
    if String::from_str(key_part) == String::from_str(key) {
        Some(value)
    } else {
        None
    }
}

} // verus!
