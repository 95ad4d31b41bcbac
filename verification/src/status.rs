//! The typed status model and its verified extraction from the JSON
//! tree: version, players, the raw rich-text description together with
//! its flattened form, and the optional favicon.

use vstd::prelude::*;

use crate::errors::PingError;
use crate::json::{extract_text, flatten, JsonValue};

verus! {

/// The server's version block.
pub struct Version {
    pub name: String,
    pub protocol: i32,
}

/// One entry of the player sample list.
pub struct PlayerSample {
    pub name: String,
    pub id: String,
}

/// The server's player counts and optional sample list.
pub struct Players {
    pub max: u32,
    pub online: u32,
    pub sample: Option<Vec<PlayerSample>>,
}

/// A parsed status response.
pub struct ServerStatus {
    pub version: Version,
    pub players: Players,
    pub raw_description: JsonValue,
    pub description: String,
    pub favicon: Option<String>,
}

impl ServerStatus {
    /// The standing invariant: the plain-text description is always the
    /// flattening of the raw rich-text value.
    pub open spec fn wf(self) -> bool {
        self.description@ == flatten(self.raw_description)
    }
}

/// The value of the first field carrying `key`, scanning in order.
pub open spec fn spec_obj_lookup(fields: Seq<(String, JsonValue)>, key: Seq<char>) -> Option<
    JsonValue,
>
    decreases fields.len(),
{
    if fields.len() == 0 {
        None
    } else if fields[0].0@ == key {
        Some(fields[0].1)
    } else {
        spec_obj_lookup(fields.drop_first(), key)
    }
}

/// The value under `key` when `v` is an object, `None` otherwise.
pub open spec fn spec_get(v: JsonValue, key: Seq<char>) -> Option<JsonValue> {
    match v {
        JsonValue::Obj(fields) => spec_obj_lookup(fields@, key),
        _ => None,
    }
}

/// The version name and protocol, when the `version` object carries a
/// string `name` and a `protocol` number in 32-bit range.
pub open spec fn spec_version(v: JsonValue) -> Option<(Seq<char>, i32)> {
    match spec_get(v, "version"@) {
        Some(vv) => match (spec_get(vv, "name"@), spec_get(vv, "protocol"@)) {
            (Some(JsonValue::Str(nm)), Some(JsonValue::Int(p))) => if i32::MIN <= p <= i32::MAX {
                Some((nm@, p as i32))
            } else {
                None
            },
            _ => None,
        },
        None => None,
    }
}

/// The player counts, when the `players` object carries `max` and
/// `online` numbers that are non-negative and fit 32 bits.
pub open spec fn spec_players_nums(v: JsonValue) -> Option<(u32, u32)> {
    match spec_get(v, "players"@) {
        Some(pv) => match (spec_get(pv, "max"@), spec_get(pv, "online"@)) {
            (Some(JsonValue::Int(m)), Some(JsonValue::Int(o))) => if 0 <= m <= u32::MAX && 0 <= o
                <= u32::MAX {
                Some((m as u32, o as u32))
            } else {
                None
            },
            _ => None,
        },
        None => None,
    }
}

/// One sample entry's name and id, when both are strings.
pub open spec fn spec_sample_entry(v: JsonValue) -> Option<(Seq<char>, Seq<char>)> {
    match (spec_get(v, "name"@), spec_get(v, "id"@)) {
        (Some(JsonValue::Str(nm)), Some(JsonValue::Str(pid))) => Some((nm@, pid@)),
        _ => None,
    }
}

/// Every entry of the sample list is well formed.
pub open spec fn samples_ok(items: Seq<JsonValue>) -> bool {
    forall|k: int| 0 <= k < items.len() ==> spec_sample_entry(#[trigger] items[k]) is Some
}

/// `out` carries exactly the names and ids of `items`, in order.
pub open spec fn samples_match(items: Seq<JsonValue>, out: Seq<PlayerSample>) -> bool {
    &&& out.len() == items.len()
    &&& forall|k: int|
        0 <= k < items.len() ==> spec_sample_entry(#[trigger] items[k]) == Some(
            (out[k].name@, out[k].id@),
        )
}

/// The sample list: absent or null means none, an array of well-formed
/// entries means that list, anything else is an error.
pub open spec fn spec_sample_field(v: JsonValue) -> Option<Option<Seq<JsonValue>>> {
    match spec_get(v, "players"@) {
        Some(pv) => match spec_get(pv, "sample"@) {
            None => Some(None),
            Some(JsonValue::Null) => Some(None),
            Some(JsonValue::Arr(items)) => if samples_ok(items@) {
                Some(Some(items@))
            } else {
                None
            },
            Some(_) => None,
        },
        None => None,
    }
}

/// The favicon: absent or null means none, a string means that string,
/// anything else is an error.
pub open spec fn spec_favicon(v: JsonValue) -> Option<Option<Seq<char>>> {
    match spec_get(v, "favicon"@) {
        None => Some(None),
        Some(JsonValue::Null) => Some(None),
        Some(JsonValue::Str(s)) => Some(Some(s@)),
        Some(_) => None,
    }
}

/// The tree has everything a status response needs, in the right shapes.
pub open spec fn status_parseable(v: JsonValue) -> bool {
    &&& spec_version(v) is Some
    &&& spec_players_nums(v) is Some
    &&& spec_sample_field(v) is Some
    &&& spec_get(v, "description"@) is Some
    &&& spec_favicon(v) is Some
}

/// `st` carries exactly what the tree says, field for field.
pub open spec fn status_matches(v: JsonValue, st: ServerStatus) -> bool {
    &&& spec_version(v) == Some((st.version.name@, st.version.protocol))
    &&& spec_players_nums(v) == Some((st.players.max, st.players.online))
    &&& (match spec_sample_field(v) {
        Some(None) => st.players.sample is None,
        Some(Some(items)) => st.players.sample matches Some(out) && samples_match(items, out@),
        None => false,
    })
    &&& spec_get(v, "description"@) == Some(st.raw_description)
    &&& st.description@ == flatten(st.raw_description)
    &&& (match spec_favicon(v) {
        Some(None) => st.favicon is None,
        Some(Some(s)) => st.favicon matches Some(f) && f@ == s,
        None => false,
    })
}

/// Looks `key` up among an object's fields, first occurrence.
fn obj_get<'a>(fields: &'a Vec<(String, JsonValue)>, key: &String) -> (r: Option<&'a JsonValue>)
    ensures
        match r {
            Some(x) => spec_obj_lookup(fields@, key@) == Some(*x),
            None => spec_obj_lookup(fields@, key@) is None,
        },
{
    let mut i: usize = 0;
    assert(fields@.skip(0) =~= fields@);
    loop
        invariant
            0 <= i <= fields.len(),
            spec_obj_lookup(fields@, key@) == spec_obj_lookup(fields@.skip(i as int), key@),
        decreases fields.len() - i,
    {
        if i >= fields.len() {
            assert(fields@.skip(i as int).len() == 0);
            return None;
        }
        assert(fields@.skip(i as int)[0] == fields@[i as int]);
        if fields[i].0 == *key {
            return Some(&fields[i].1);
        }
        assert(fields@.skip(i as int).drop_first() =~= fields@.skip(i as int + 1));
        i = i + 1;
    }
}

/// Looks `key` up in `v` when `v` is an object.
fn get_field<'a>(v: &'a JsonValue, key: &String) -> (r: Option<&'a JsonValue>)
    ensures
        match r {
            Some(x) => spec_get(*v, key@) == Some(*x),
            None => spec_get(*v, key@) is None,
        },
{
    match v {
        JsonValue::Obj(fields) => obj_get(fields, key),
        _ => None,
    }
}

/// Takes the first field carrying `key` out of `v`, by value.
fn take_field(v: JsonValue, key: &String) -> (r: Option<JsonValue>)
    ensures
        match r {
            Some(x) => spec_get(v, key@) == Some(x),
            None => spec_get(v, key@) is None,
        },
{
    match v {
        JsonValue::Obj(mut fields) => {
            let mut i: usize = 0;
            assert(fields@.skip(0) =~= fields@);
            loop
                invariant
                    0 <= i <= fields.len(),
                    v == JsonValue::Obj(fields),
                    spec_obj_lookup(fields@, key@) == spec_obj_lookup(
                        fields@.skip(i as int),
                        key@,
                    ),
                decreases fields.len() - i,
            {
                if i >= fields.len() {
                    assert(fields@.skip(i as int).len() == 0);
                    return None;
                }
                assert(fields@.skip(i as int)[0] == fields@[i as int]);
                if fields[i].0 == *key {
                    let pair = fields.remove(i);
                    return Some(pair.1);
                }
                assert(fields@.skip(i as int).drop_first() =~= fields@.skip(i as int + 1));
                i = i + 1;
            }
        },
        _ => None,
    }
}

/// Converts a sample array's entries, rejecting any malformed entry.
fn extract_samples(items: &Vec<JsonValue>) -> (r: Option<Vec<PlayerSample>>)
    ensures
        match r {
            Some(out) => samples_ok(items@) && samples_match(items@, out@),
            None => !samples_ok(items@),
        },
{
    let key_name: String = "name".to_owned();
    let key_id: String = "id".to_owned();
    let mut out: Vec<PlayerSample> = Vec::new();
    let mut k: usize = 0;
    loop
        invariant
            0 <= k <= items.len(),
            out.len() == k,
            key_name@ == "name"@,
            key_id@ == "id"@,
            forall|t: int|
                0 <= t < k ==> spec_sample_entry(#[trigger] items@[t]) == Some(
                    (out@[t].name@, out@[t].id@),
                ),
        decreases items.len() - k,
    {
        if k >= items.len() {
            return Some(out);
        }
        let item: &JsonValue = &items[k];
        let nm: String = match get_field(item, &key_name) {
            Some(x) => match x {
                JsonValue::Str(s) => s.clone(),
                _ => {
                    return None;
                },
            },
            None => {
                return None;
            },
        };
        let pid: String = match get_field(item, &key_id) {
            Some(x) => match x {
                JsonValue::Str(s) => s.clone(),
                _ => {
                    return None;
                },
            },
            None => {
                return None;
            },
        };
        out.push(PlayerSample { name: nm, id: pid });
        k = k + 1;
    }
}

/// Builds a `ServerStatus` from a parsed JSON tree, or reports that the
/// tree does not have the status shape. The description text is derived
/// here from the raw rich-text value, never taken from the document.
pub fn status_from_json(v: JsonValue) -> (r: Result<ServerStatus, PingError>)
    ensures
        match r {
            Ok(st) => status_matches(v, st) && st.wf(),
            Err(e) => e == PingError::JsonError && !status_parseable(v),
        },
{
    let key_version: String = "version".to_owned();
    let key_name: String = "name".to_owned();
    let key_protocol: String = "protocol".to_owned();
    let key_players: String = "players".to_owned();
    let key_max: String = "max".to_owned();
    let key_online: String = "online".to_owned();
    let key_sample: String = "sample".to_owned();
    let key_description: String = "description".to_owned();
    let key_favicon: String = "favicon".to_owned();

    // Version block.
    let vv: &JsonValue = match get_field(&v, &key_version) {
        Some(x) => x,
        None => {
            return Err(PingError::JsonError);
        },
    };
    let vname: String = match get_field(vv, &key_name) {
        Some(x) => match x {
            JsonValue::Str(s) => s.clone(),
            _ => {
                return Err(PingError::JsonError);
            },
        },
        None => {
            return Err(PingError::JsonError);
        },
    };
    let protocol64: i64 = match get_field(vv, &key_protocol) {
        Some(x) => match x {
            JsonValue::Int(i) => *i,
            _ => {
                return Err(PingError::JsonError);
            },
        },
        None => {
            return Err(PingError::JsonError);
        },
    };
    if protocol64 < -0x80000000i64 || protocol64 > 0x7fffffffi64 {
        return Err(PingError::JsonError);
    }

    // Players block.
    let pv: &JsonValue = match get_field(&v, &key_players) {
        Some(x) => x,
        None => {
            return Err(PingError::JsonError);
        },
    };
    let max64: i64 = match get_field(pv, &key_max) {
        Some(x) => match x {
            JsonValue::Int(i) => *i,
            _ => {
                return Err(PingError::JsonError);
            },
        },
        None => {
            return Err(PingError::JsonError);
        },
    };
    let online64: i64 = match get_field(pv, &key_online) {
        Some(x) => match x {
            JsonValue::Int(i) => *i,
            _ => {
                return Err(PingError::JsonError);
            },
        },
        None => {
            return Err(PingError::JsonError);
        },
    };
    if max64 < 0 || max64 > 0xffffffffi64 || online64 < 0 || online64 > 0xffffffffi64 {
        return Err(PingError::JsonError);
    }

    // Sample list.
    let sample: Option<Vec<PlayerSample>> = match get_field(pv, &key_sample) {
        None => None,
        Some(x) => match x {
            JsonValue::Null => None,
            JsonValue::Arr(items) => match extract_samples(items) {
                Some(out) => Some(out),
                None => {
                    return Err(PingError::JsonError);
                },
            },
            _ => {
                return Err(PingError::JsonError);
            },
        },
    };

    // Favicon.
    let favicon: Option<String> = match get_field(&v, &key_favicon) {
        None => None,
        Some(x) => match x {
            JsonValue::Null => None,
            JsonValue::Str(s) => Some(s.clone()),
            _ => {
                return Err(PingError::JsonError);
            },
        },
    };

    // Description, taken by value; everything above only borrowed `v`.
    let ghost v_snapshot = v;
    let raw: JsonValue = match take_field(v, &key_description) {
        Some(d) => d,
        None => {
            return Err(PingError::JsonError);
        },
    };
    let description: String = extract_text(&raw);

    Ok(
        ServerStatus {
            version: Version { name: vname, protocol: protocol64 as i32 },
            players: Players { max: max64 as u32, online: online64 as u32, sample },
            raw_description: raw,
            description,
            favicon,
        },
    )
}

} // verus!
