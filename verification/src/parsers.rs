//! Reading configuration documents: recognising a document's format from
//! its file name, and flattening a nested document into entries keyed by
//! dotted paths.
use vstd::prelude::*;

use crate::json::{spec_type_of, DataType, JsonNumber, JsonValue};
use crate::table::{ConfigError, ConfigManager, ConfigTable};
use crate::value::{fresh_config, ConfigValue, ConfigValueView};

verus! {

broadcast use vstd::std_specs::vec::group_vec_axioms;

/// The key of a member named `key` inside the member with key `prefix`:
/// the two joined by a dot, or `key` alone at the top level (empty prefix).
pub open spec fn join_key(prefix: Seq<char>, key: Seq<char>) -> Seq<char> {
    if prefix.len() == 0 {
        key
    } else {
        prefix + seq!['.'] + key
    }
}

fn full_key(prefix: &str, key: &str) -> (r: String)
    ensures
        r@ == join_key(prefix@, key@),
{
    if prefix.is_empty() {
        key.to_string()
    } else {
        let mut r = prefix.to_string();
        r.append(".");
        r.append(key);
        proof {
            reveal_strlit(".");
        }
        r
    }
}

/// The entries that flattening the JSON value `v` under `prefix` puts on
/// top of `acc`: members that are objects are flattened under their own
/// key, non-empty arrays become one entry typed by their first element,
/// empty arrays are left out, and every other member becomes one entry
/// typed by its value. Members are taken in order; a later entry replaces
/// an earlier one with the same key.
pub open spec fn json_leaves(
    v: JsonValue,
    prefix: Seq<char>,
    acc: Map<Seq<char>, ConfigValueView>,
) -> Map<Seq<char>, ConfigValueView>
    decreases v,
{
    match v {
        JsonValue::Object(members) => json_member_leaves(members@, prefix, acc),
        _ => acc,
    }
}

pub open spec fn json_member_leaves(
    members: Seq<(String, JsonValue)>,
    prefix: Seq<char>,
    acc: Map<Seq<char>, ConfigValueView>,
) -> Map<Seq<char>, ConfigValueView>
    decreases members,
{
    if members.len() == 0 {
        acc
    } else {
        let before = json_member_leaves(members.drop_last(), prefix, acc);
        let key = join_key(prefix, members.last().0@);
        let val = members.last().1;
        match val {
            JsonValue::Object(_) => json_leaves(val, key, before),
            JsonValue::Array(items) => if items@.len() > 0 {
                before.insert(key, fresh_config(val, spec_type_of(items@[0]), false))
            } else {
                before
            },
            _ => before.insert(key, fresh_config(val, spec_type_of(val), false)),
        }
    }
}

/// Flattens the members of a JSON object into `configs`; a value that is
/// not an object adds nothing.
#[verifier::loop_isolation(false)]
fn flatten_json(value: JsonValue, prefix: &str, configs: &mut ConfigTable)
    ensures
        final(configs)@ == json_leaves(value, prefix@, old(configs)@),
    decreases value,
{
    let ghost v0 = value;
    match value {
        JsonValue::Object(members) => {
            let ghost start = configs@;
            let ghost ms = members@;
            let ghost mvec = members;
            for m in it: members
                invariant
                    v0 == JsonValue::Object(mvec),
                    ms == mvec@,
                    it.seq() == ms,
                    configs@ == json_member_leaves(ms.take(it.index() as int), prefix@, start),
            {
                let ghost i = it.index() as int;
                proof {
                    assert(ms[i] == m);
                    assert(ms.take(i + 1).drop_last() == ms.take(i));
                    assert(decreases_to!(v0 => v0->Object_0));
                    assert(decreases_to!(mvec => mvec@));
                    assert(decreases_to!(mvec@ => mvec@[i]));
                    assert(decreases_to!(mvec@[i] => m.1));
                    assert(decreases_to!(v0 => m.1));
                }
                let (key, val) = m;
                let full = full_key(prefix, key.as_str());
                match val {
                    JsonValue::Object(_) => {
                        flatten_json(val, full.as_str(), configs);
                    },
                    JsonValue::Array(items) => {
                        if items.len() > 0 {
                            let data_type = DataType::from_json_value(&items[0]);
                            configs.insert(full, ConfigValue::new(JsonValue::Array(items), data_type, false));
                        }
                    },
                    other => {
                        let data_type = DataType::from_json_value(&other);
                        configs.insert(full, ConfigValue::new(other, data_type, false));
                    },
                }
            }
            proof {
                assert(ms.take(ms.len() as int) == ms);
            }
        },
        _ => {},
    }
}

/// Flattens the members of a JSON object into `configs` under `prefix`:
/// see `json_leaves`. A value that is not an object adds nothing.
pub fn parse_json_object(value: JsonValue, prefix: &str, configs: &mut ConfigTable) -> (r: Result<(), ConfigError>)
    ensures
        r is Ok,
        final(configs)@ == json_leaves(value, prefix@, old(configs)@),
{
    flatten_json(value, prefix, configs);
    Ok(())
}

/// The entries of a JSON document: see `json_leaves`.
pub fn load_from_json(document: JsonValue) -> (t: ConfigTable)
    ensures
        t@ == json_leaves(document, Seq::empty(), Map::empty()),
{
    let mut configs = ConfigTable::new();
    proof {
        reveal_strlit("");
        assert(""@ =~= Seq::<char>::empty());
    }
    flatten_json(document, "", &mut configs);
    configs
}

/// A YAML document as the flattening reads it: a mapping, whose keys are
/// the text of string keys (`None` for a key that is not a string), or a
/// node that is not a mapping, already converted to JSON, or a node whose
/// conversion to JSON failed, with the reason.
#[derive(Debug)]
pub enum YamlValue {
    Mapping(Vec<(Option<String>, YamlValue)>),
    Value(JsonValue),
    Unconvertible(String),
}

/// The text a YAML key contributes to a dotted key: its text where it is a
/// string, else nothing.
pub open spec fn yaml_key_text(k: Option<String>) -> Seq<char> {
    match k {
        Some(s) => s@,
        None => Seq::empty(),
    }
}

/// What flattening the YAML node `v` under `prefix` on top of the entries
/// `acc` gives: the entries then held, and the reason of the first node (in
/// document order) that could not be converted, if there is one. Mappings
/// are flattened under their own key and every other node becomes one entry
/// typed by its JSON value; flattening stops at a node that could not be
/// converted, keeping the entries merged before it. A node that is not a
/// mapping adds nothing.
pub open spec fn yaml_flatten(
    v: YamlValue,
    prefix: Seq<char>,
    acc: Map<Seq<char>, ConfigValueView>,
) -> (Map<Seq<char>, ConfigValueView>, Option<Seq<char>>)
    decreases v,
{
    match v {
        YamlValue::Mapping(members) => yaml_member_flatten(members@, prefix, acc),
        _ => (acc, None),
    }
}

pub open spec fn yaml_member_flatten(
    members: Seq<(Option<String>, YamlValue)>,
    prefix: Seq<char>,
    acc: Map<Seq<char>, ConfigValueView>,
) -> (Map<Seq<char>, ConfigValueView>, Option<Seq<char>>)
    decreases members,
{
    if members.len() == 0 {
        (acc, None)
    } else {
        let before = yaml_member_flatten(members.drop_last(), prefix, acc);
        if before.1 is Some {
            before
        } else {
            let key = join_key(prefix, yaml_key_text(members.last().0));
            let val = members.last().1;
            match val {
                YamlValue::Mapping(_) => yaml_flatten(val, key, before.0),
                YamlValue::Value(j) => (before.0.insert(key, fresh_config(j, spec_type_of(j), false)), None),
                YamlValue::Unconvertible(m) => (before.0, Some(m@)),
            }
        }
    }
}

/// The entries that flattening the YAML node `v` under `prefix` puts on
/// top of `acc`, or the reason of the first node that could not be
/// converted: see `yaml_flatten`.
pub open spec fn yaml_leaves(
    v: YamlValue,
    prefix: Seq<char>,
    acc: Map<Seq<char>, ConfigValueView>,
) -> Result<Map<Seq<char>, ConfigValueView>, Seq<char>> {
    match yaml_flatten(v, prefix, acc).1 {
        None => Ok(yaml_flatten(v, prefix, acc).0),
        Some(m) => Err(m),
    }
}

/// Once a prefix of the members fails, every longer prefix fails the same way.
proof fn lemma_yaml_error_persists(
    ms: Seq<(Option<String>, YamlValue)>,
    prefix: Seq<char>,
    acc: Map<Seq<char>, ConfigValueView>,
    j: int,
    k: int,
)
    requires
        0 <= j <= k <= ms.len(),
        yaml_member_flatten(ms.take(j), prefix, acc).1 is Some,
    ensures
        yaml_member_flatten(ms.take(k), prefix, acc) == yaml_member_flatten(ms.take(j), prefix, acc),
    decreases k - j,
{
    if k > j {
        lemma_yaml_error_persists(ms, prefix, acc, j, k - 1);
        assert(ms.take(k).drop_last() == ms.take(k - 1));
    }
}

/// Flattens the members of a YAML mapping into `configs`; a node that is
/// not a mapping adds nothing.
#[verifier::loop_isolation(false)]
fn flatten_yaml(value: YamlValue, prefix: &str, configs: &mut ConfigTable) -> (r: Result<(), ConfigError>)
    ensures
        final(configs)@ == yaml_flatten(value, prefix@, old(configs)@).0,
        match r {
            Ok(()) => yaml_flatten(value, prefix@, old(configs)@).1 is None,
            Err(e) => yaml_flatten(value, prefix@, old(configs)@).1 matches Some(m)
                && (e matches ConfigError::Parse(x) && x@ == m),
        },
    decreases value,
{
    let ghost v0 = value;
    match value {
        YamlValue::Mapping(members) => {
            let ghost start = configs@;
            let ghost ms = members@;
            let ghost mvec = members;
            for m in it: members
                invariant
                    v0 == YamlValue::Mapping(mvec),
                    ms == mvec@,
                    it.seq() == ms,
                    yaml_member_flatten(ms.take(it.index() as int), prefix@, start) == (configs@, None::<Seq<char>>),
            {
                let ghost i = it.index() as int;
                proof {
                    assert(ms[i] == m);
                    assert(ms.take(i + 1).drop_last() == ms.take(i));
                    assert(decreases_to!(v0 => v0->Mapping_0));
                    assert(decreases_to!(mvec => mvec@));
                    assert(decreases_to!(mvec@ => mvec@[i]));
                    assert(decreases_to!(mvec@[i] => m.1));
                    reveal_strlit("");
                    assert(""@ =~= Seq::<char>::empty());
                }
                let (key, val) = m;
                let key_text: &str = match &key {
                    Some(k) => k.as_str(),
                    None => "",
                };
                let full = full_key(prefix, key_text);
                match val {
                    YamlValue::Mapping(_) => {
                        let sub = flatten_yaml(val, full.as_str(), configs);
                        if sub.is_err() {
                            proof {
                                lemma_yaml_error_persists(ms, prefix@, start, i + 1, ms.len() as int);
                                assert(ms.take(ms.len() as int) == ms);
                            }
                            return sub;
                        }
                    },
                    YamlValue::Value(j) => {
                        let data_type = DataType::from_json_value(&j);
                        configs.insert(full, ConfigValue::new(j, data_type, false));
                    },
                    YamlValue::Unconvertible(reason) => {
                        proof {
                            lemma_yaml_error_persists(ms, prefix@, start, i + 1, ms.len() as int);
                            assert(ms.take(ms.len() as int) == ms);
                        }
                        return Err(ConfigError::Parse(reason));
                    },
                }
            }
            proof {
                assert(ms.take(ms.len() as int) == ms);
            }
            Ok(())
        },
        _ => Ok(()),
    }
}

/// Flattens the members of a YAML mapping into `configs` under `prefix`:
/// see `yaml_flatten`. Where a node cannot be converted, its reason is the
/// error and the entries merged before it stay in `configs`. A node that is
/// not a mapping adds nothing.
pub fn parse_yaml_object(value: YamlValue, prefix: &str, configs: &mut ConfigTable) -> (r: Result<(), ConfigError>)
    ensures
        final(configs)@ == yaml_flatten(value, prefix@, old(configs)@).0,
        match r {
            Ok(()) => yaml_flatten(value, prefix@, old(configs)@).1 is None,
            Err(e) => yaml_flatten(value, prefix@, old(configs)@).1 matches Some(m)
                && (e matches ConfigError::Parse(x) && x@ == m),
        },
{
    flatten_yaml(value, prefix, configs)
}

/// The entries of a YAML document: see `yaml_leaves`.
pub fn load_from_yaml(document: YamlValue) -> (r: Result<ConfigTable, ConfigError>)
    ensures
        match r {
            Ok(t) => yaml_leaves(document, Seq::empty(), Map::empty()) == Ok::<_, Seq<char>>(t@),
            Err(e) => yaml_leaves(document, Seq::empty(), Map::empty()) matches Err(m)
                && (e matches ConfigError::Parse(x) && x@ == m),
        },
{
    let mut configs = ConfigTable::new();
    proof {
        reveal_strlit("");
        assert(""@ =~= Seq::<char>::empty());
    }
    match flatten_yaml(document, "", &mut configs) {
        Ok(()) => Ok(configs),
        Err(e) => Err(e),
    }
}

/// A TOML document. A float is given by the bits of its IEEE-754 binary64
/// encoding, a date-time by its text.
#[derive(Debug)]
pub enum TomlValue {
    String(String),
    Integer(i64),
    Float(u64),
    Boolean(bool),
    Datetime(String),
    Array(Vec<TomlValue>),
    Table(Vec<(String, TomlValue)>),
}

/// Whether the binary64 number with these bits is finite (neither an
/// infinity nor a NaN).
pub open spec fn float_bits_finite(bits: u64) -> bool {
    (bits >> 52u64) & 0x7ffu64 != 0x7ffu64
}

/// The JSON number that an integer is.
pub open spec fn int_number(i: i64) -> JsonNumber {
    if i < 0 { JsonNumber::NegInt(i) } else { JsonNumber::PosInt(i as u64) }
}

/// Whether `j` is the JSON form of the TOML value `t`: texts and date-times
/// become strings, integers and finite floats numbers, non-finite floats
/// `null`, booleans booleans, arrays arrays of the converted items, and
/// tables objects of the converted members, in order.
pub open spec fn toml_json(t: TomlValue, j: JsonValue) -> bool
    decreases t,
{
    match t {
        TomlValue::String(s) => j matches JsonValue::String(x) && x@ == s@,
        TomlValue::Integer(i) => j == JsonValue::Number(int_number(i)),
        TomlValue::Float(b) => if float_bits_finite(b) {
            j == JsonValue::Number(JsonNumber::Float(b))
        } else {
            j is Null
        },
        TomlValue::Boolean(b) => j == JsonValue::Bool(b),
        TomlValue::Datetime(s) => j matches JsonValue::String(x) && x@ == s@,
        TomlValue::Array(items) => j matches JsonValue::Array(js) && toml_json_items(items@, js@),
        TomlValue::Table(members) => j matches JsonValue::Object(fs) && toml_json_members(members@, fs@),
    }
}

pub open spec fn toml_json_items(ts: Seq<TomlValue>, js: Seq<JsonValue>) -> bool
    decreases ts,
{
    &&& ts.len() == js.len()
    &&& ts.len() > 0 ==> {
        &&& toml_json_items(ts.drop_last(), js.drop_last())
        &&& toml_json(ts.last(), js.last())
    }
}

pub open spec fn toml_json_members(ts: Seq<(String, TomlValue)>, js: Seq<(String, JsonValue)>) -> bool
    decreases ts,
{
    &&& ts.len() == js.len()
    &&& ts.len() > 0 ==> {
        &&& toml_json_members(ts.drop_last(), js.drop_last())
        &&& js.last().0@ == ts.last().0@
        &&& toml_json(ts.last().1, js.last().1)
    }
}

fn float_is_finite(bits: u64) -> (b: bool)
    ensures
        b == float_bits_finite(bits),
{
    (bits >> 52u64) & 0x7ffu64 != 0x7ffu64
}

/// Converts a TOML value to JSON: see `toml_json`. This mapping is the
/// library's own choice, as no JSON form of TOML values is taken from the
/// `toml` crate: a date-time becomes its text, and a float that is not
/// finite, which JSON cannot hold, becomes `null`.
#[verifier::loop_isolation(false)]
pub fn toml_to_json(value: TomlValue) -> (j: JsonValue)
    ensures
        toml_json(value, j),
    decreases value,
{
    let ghost v0 = value;
    match value {
        TomlValue::String(s) => JsonValue::String(s),
        TomlValue::Integer(i) => JsonValue::Number(JsonNumber::from_i64(i)),
        TomlValue::Float(b) => {
            if float_is_finite(b) {
                JsonValue::Number(JsonNumber::Float(b))
            } else {
                JsonValue::Null
            }
        },
        TomlValue::Boolean(b) => JsonValue::Bool(b),
        TomlValue::Datetime(s) => JsonValue::String(s),
        TomlValue::Array(items) => {
            let ghost ts = items@;
            let ghost ivec = items;
            let mut out: Vec<JsonValue> = Vec::new();
            for t in it: items
                invariant
                    v0 == TomlValue::Array(ivec),
                    ts == ivec@,
                    it.seq() == ts,
                    toml_json_items(ts.take(it.index() as int), out@),
            {
                let ghost i = it.index() as int;
                proof {
                    assert(ts[i] == t);
                    assert(ts.take(i + 1).drop_last() == ts.take(i));
                    assert(decreases_to!(v0 => v0->Array_0));
                    assert(decreases_to!(ivec => ivec@));
                    assert(decreases_to!(ivec@ => ivec@[i]));
                }
                let ghost before = out@;
                let j = toml_to_json(t);
                out.push(j);
                proof {
                    assert(out@.drop_last() == before);
                }
            }
            proof {
                assert(ts.take(ts.len() as int) == ts);
            }
            JsonValue::Array(out)
        },
        TomlValue::Table(members) => {
            let ghost ts = members@;
            let ghost mvec = members;
            let mut out: Vec<(String, JsonValue)> = Vec::new();
            for m in it: members
                invariant
                    v0 == TomlValue::Table(mvec),
                    ts == mvec@,
                    it.seq() == ts,
                    toml_json_members(ts.take(it.index() as int), out@),
            {
                let ghost i = it.index() as int;
                proof {
                    assert(ts[i] == m);
                    assert(ts.take(i + 1).drop_last() == ts.take(i));
                    assert(decreases_to!(v0 => v0->Table_0));
                    assert(decreases_to!(mvec => mvec@));
                    assert(decreases_to!(mvec@ => mvec@[i]));
                    assert(decreases_to!(mvec@[i] => m.1));
                }
                let ghost before = out@;
                let (k, t) = m;
                let j = toml_to_json(t);
                out.push((k, j));
                proof {
                    assert(out@.drop_last() == before);
                }
            }
            proof {
                assert(ts.take(ts.len() as int) == ts);
            }
            JsonValue::Object(out)
        },
    }
}

/// The type a TOML value is given: texts, integers, floats and booleans
/// their own type, anything else a string.
pub open spec fn toml_scalar_type(v: TomlValue) -> DataType {
    match v {
        TomlValue::String(_) => DataType::String,
        TomlValue::Integer(_) => DataType::Integer,
        TomlValue::Float(_) => DataType::Float,
        TomlValue::Boolean(_) => DataType::Boolean,
        _ => DataType::String,
    }
}

fn toml_type_of(v: &TomlValue) -> (t: DataType)
    ensures
        t == toml_scalar_type(*v),
{
    match v {
        TomlValue::String(_) => DataType::String,
        TomlValue::Integer(_) => DataType::Integer,
        TomlValue::Float(_) => DataType::Float,
        TomlValue::Boolean(_) => DataType::Boolean,
        _ => DataType::String,
    }
}

/// The entries that flattening the TOML value `v` under `prefix` puts on
/// top of `acc`, each as the TOML value it holds and its type: tables are
/// flattened under their own key, non-empty arrays become one entry typed
/// as an array of the type of their first item, empty arrays are left out,
/// and every other value becomes one entry typed by its value. A value
/// that is not a table adds nothing.
pub open spec fn toml_leaves(
    v: TomlValue,
    prefix: Seq<char>,
    acc: Map<Seq<char>, (TomlValue, DataType)>,
) -> Map<Seq<char>, (TomlValue, DataType)>
    decreases v,
{
    match v {
        TomlValue::Table(members) => toml_member_leaves(members@, prefix, acc),
        _ => acc,
    }
}

pub open spec fn toml_member_leaves(
    members: Seq<(String, TomlValue)>,
    prefix: Seq<char>,
    acc: Map<Seq<char>, (TomlValue, DataType)>,
) -> Map<Seq<char>, (TomlValue, DataType)>
    decreases members,
{
    if members.len() == 0 {
        acc
    } else {
        let before = toml_member_leaves(members.drop_last(), prefix, acc);
        let key = join_key(prefix, members.last().0@);
        let val = members.last().1;
        match val {
            TomlValue::Table(_) => toml_leaves(val, key, before),
            TomlValue::Array(items) => if items@.len() > 0 {
                before.insert(key, (val, DataType::Array(Box::new(toml_scalar_type(items@[0])))))
            } else {
                before
            },
            _ => before.insert(key, (val, toml_scalar_type(val))),
        }
    }
}

/// Whether an entry holds the TOML value `leaf.0`, converted to JSON, with
/// type `leaf.1`, as a fresh entry.
pub open spec fn toml_entry(cv: ConfigValueView, leaf: (TomlValue, DataType)) -> bool {
    &&& toml_json(leaf.0, cv.value)
    &&& cv == fresh_config(cv.value, leaf.1, false)
}

/// Whether `result` is `base` with the entries of `leaves` put on top.
pub open spec fn toml_overlay(
    result: Map<Seq<char>, ConfigValueView>,
    base: Map<Seq<char>, ConfigValueView>,
    leaves: Map<Seq<char>, (TomlValue, DataType)>,
) -> bool {
    &&& result.dom() == base.dom().union(leaves.dom())
    &&& forall|k: Seq<char>| #[trigger] leaves.dom().contains(k) ==> toml_entry(result[k], leaves[k])
    &&& forall|k: Seq<char>| #[trigger] base.dom().contains(k) && !leaves.dom().contains(k) ==> result[k] == base[k]
}

/// Flattens the members of a TOML table into `configs`; a value that is
/// not a table adds nothing.
#[verifier::loop_isolation(false)]
fn flatten_toml(
    value: TomlValue,
    prefix: &str,
    configs: &mut ConfigTable,
    Ghost(base): Ghost<Map<Seq<char>, ConfigValueView>>,
    Ghost(acc): Ghost<Map<Seq<char>, (TomlValue, DataType)>>,
)
    requires
        toml_overlay(old(configs)@, base, acc),
    ensures
        toml_overlay(final(configs)@, base, toml_leaves(value, prefix@, acc)),
    decreases value,
{
    let ghost v0 = value;
    match value {
        TomlValue::Table(members) => {
            let ghost ms = members@;
            let ghost mvec = members;
            for m in it: members
                invariant
                    v0 == TomlValue::Table(mvec),
                    ms == mvec@,
                    it.seq() == ms,
                    toml_overlay(configs@, base, toml_member_leaves(ms.take(it.index() as int), prefix@, acc)),
            {
                let ghost i = it.index() as int;
                let ghost before = toml_member_leaves(ms.take(i), prefix@, acc);
                proof {
                    assert(ms[i] == m);
                    assert(ms.take(i + 1).drop_last() == ms.take(i));
                    assert(decreases_to!(v0 => v0->Table_0));
                    assert(decreases_to!(mvec => mvec@));
                    assert(decreases_to!(mvec@ => mvec@[i]));
                    assert(decreases_to!(mvec@[i] => m.1));
                }
                let (key, val) = m;
                let full = full_key(prefix, key.as_str());
                let ghost leaf = val;
                match val {
                    TomlValue::Table(_) => {
                        flatten_toml(val, full.as_str(), configs, Ghost(base), Ghost(before));
                    },
                    TomlValue::Array(items) => {
                        if items.len() > 0 {
                            let elem = toml_type_of(&items[0]);
                            let data_type = DataType::Array(Box::new(elem));
                            let ghost dt = data_type;
                            let ghost old_table = configs@;
                            let j = toml_to_json(TomlValue::Array(items));
                            let cv = ConfigValue::new(j, data_type, false);
                            configs.insert(full, cv);
                            proof {
                                let after = before.insert(full@, (leaf, dt));
                                assert(configs@.dom() =~= base.dom().union(after.dom()));
                            }
                        }
                    },
                    other => {
                        let data_type = toml_type_of(&other);
                        let ghost dt = data_type;
                        let j = toml_to_json(other);
                        let cv = ConfigValue::new(j, data_type, false);
                        configs.insert(full, cv);
                        proof {
                            let after = before.insert(full@, (leaf, dt));
                            assert(configs@.dom() =~= base.dom().union(after.dom()));
                        }
                    },
                }
            }
            proof {
                assert(ms.take(ms.len() as int) == ms);
            }
        },
        _ => {},
    }
}

/// Flattens the members of a TOML table into `configs` under `prefix`:
/// the entries of `toml_leaves` are put on top of the table's old entries.
/// A value that is not a table adds nothing.
pub fn parse_toml_object(value: TomlValue, prefix: &str, configs: &mut ConfigTable) -> (r: Result<(), ConfigError>)
    ensures
        r is Ok,
        toml_overlay(final(configs)@, old(configs)@, toml_leaves(value, prefix@, Map::empty())),
{
    let ghost base = configs@;
    proof {
        assert(configs@.dom() =~= base.dom().union(Map::<Seq<char>, (TomlValue, DataType)>::empty().dom()));
    }
    flatten_toml(value, prefix, configs, Ghost(base), Ghost(Map::empty()));
    Ok(())
}

/// The entries of a TOML document: see `toml_leaves` and `toml_entry`.
pub fn load_from_toml(document: TomlValue) -> (t: ConfigTable)
    ensures
        toml_overlay(t@, Map::empty(), toml_leaves(document, Seq::empty(), Map::empty())),
{
    let mut configs = ConfigTable::new();
    proof {
        reveal_strlit("");
        assert(""@ =~= Seq::<char>::empty());
        assert(configs@.dom() =~= Map::<Seq<char>, ConfigValueView>::empty().dom().union(
            Map::<Seq<char>, (TomlValue, DataType)>::empty().dom()));
    }
    flatten_toml(document, "", &mut configs, Ghost(Map::empty()), Ghost(Map::empty()));
    configs
}

/// A document in the custom format: not supported, always an error.
pub fn load_from_custom() -> (r: Result<ConfigTable, ConfigError>)
    ensures
        r matches Err(ConfigError::InvalidFormat(m)) && m@ == "Custom format not implemented"@,
{
    Err(ConfigError::InvalidFormat("Custom format not implemented".to_string()))
}

/// The formats a configuration document can be written in.
#[derive(Debug, Clone, Copy, PartialEq, Eq, Structural)]
pub enum ConfigFormat {
    Json,
    Yaml,
    Toml,
    Custom,
}

/// The extension that `std::path::Path::extension` finds in a path, as text.
/// Which characters separate the components of a path depends on the target
/// the library is built for (Windows takes `\` as well as `/`), so this is a
/// function of the path for a given target.
pub uninterp spec fn path_extension(path: Seq<char>) -> Option<Seq<char>>;

/// Calls `std::path::Path::extension` on the path and takes the result as
/// text. Trusted: the result is what that function finds for the path.
#[verifier::external_body]
fn file_extension(path: &str) -> (r: Option<String>)
    ensures
        match r {
            Some(e) => path_extension(path@) == Some(e@),
            None => path_extension(path@) is None,
        },
{
    match std::path::Path::new(path).extension() {
        Some(ext) => ext.to_str().map(String::from),
        None => None,
    }
}

/// The format that a file extension names: `json`, `yaml` or `yml`, and
/// `toml`; no other extension names one.
pub open spec fn format_for_extension(ext: Seq<char>) -> Option<ConfigFormat> {
    if ext == "json"@ {
        Some(ConfigFormat::Json)
    } else if ext == "yaml"@ || ext == "yml"@ {
        Some(ConfigFormat::Yaml)
    } else if ext == "toml"@ {
        Some(ConfigFormat::Toml)
    } else {
        None
    }
}

/// The format that a path's extension names, if it has one that does.
pub open spec fn format_for_path(path: Seq<char>) -> Option<ConfigFormat> {
    match path_extension(path) {
        Some(ext) => format_for_extension(ext),
        None => None,
    }
}

impl ConfigFormat {
    /// The format that the extension `ext` names: see `format_for_extension`.
    pub fn from_extension(ext: &str) -> (r: Option<ConfigFormat>)
        ensures
            r == format_for_extension(ext@),
    {
        let e = ext.to_string();
        if e == "json".to_string() {
            Some(ConfigFormat::Json)
        } else if e == "yaml".to_string() || e == "yml".to_string() {
            Some(ConfigFormat::Yaml)
        } else if e == "toml".to_string() {
            Some(ConfigFormat::Toml)
        } else {
            None
        }
    }

    /// The format that the extension of the file at `path` names.
    pub fn from_file_extension(path: &str) -> (r: Option<ConfigFormat>)
        ensures
            r == format_for_path(path@),
    {
        match file_extension(path) {
            Some(ext) => ConfigFormat::from_extension(ext.as_str()),
            None => None,
        }
    }
}

/// The formats to read the file at `path` in, in order: the one its
/// extension names, or, where it names none, JSON, YAML and TOML.
pub open spec fn formats_to_try(path: Seq<char>) -> Seq<ConfigFormat> {
    match format_for_path(path) {
        Some(f) => seq![f],
        None => seq![ConfigFormat::Json, ConfigFormat::Yaml, ConfigFormat::Toml],
    }
}

/// See `formats_to_try`.
pub fn candidate_formats(path: &str) -> (r: Vec<ConfigFormat>)
    ensures
        r@ == formats_to_try(path@),
{
    let mut r: Vec<ConfigFormat> = Vec::new();
    match ConfigFormat::from_file_extension(path) {
        Some(f) => {
            r.push(f);
        },
        None => {
            r.push(ConfigFormat::Json);
            r.push(ConfigFormat::Yaml);
            r.push(ConfigFormat::Toml);
        },
    }
    assert(r@ =~= formats_to_try(path@));
    r
}

/// A parsed configuration document.
#[derive(Debug)]
pub enum ConfigDocument {
    Json(JsonValue),
    Yaml(YamlValue),
    Toml(TomlValue),
}

impl ConfigDocument {
    /// Whether the document is a table of named members (a JSON object, a
    /// YAML mapping or a TOML table), as a configuration file is.
    pub open spec fn spec_is_table(&self) -> bool {
        match *self {
            ConfigDocument::Json(v) => v is Object,
            ConfigDocument::Yaml(v) => v is Mapping,
            ConfigDocument::Toml(v) => v is Table,
        }
    }

    #[verifier::when_used_as_spec(spec_is_table)]
    pub fn is_table(&self) -> (b: bool)
        ensures
            b == self.spec_is_table(),
    {
        match self {
            ConfigDocument::Json(JsonValue::Object(_)) => true,
            ConfigDocument::Yaml(YamlValue::Mapping(_)) => true,
            ConfigDocument::Toml(TomlValue::Table(_)) => true,
            _ => false,
        }
    }
}

/// Whether a document read from a file is taken as its configuration:
/// where the format was named by the file's extension, any document is;
/// where the format is only being guessed, only a table is, so that text
/// that merely happens to parse in some format is not taken for a
/// configuration.
pub fn accepts_document(document: &ConfigDocument, guessed: bool) -> (b: bool)
    ensures
        b == (!guessed || document.spec_is_table()),
{
    !guessed || document.is_table()
}

/// The entries of a document, read according to its format.
pub fn load_document(document: ConfigDocument) -> (r: Result<ConfigTable, ConfigError>)
    ensures
        match document {
            ConfigDocument::Json(v) => r matches Ok(t) && t@ == json_leaves(v, Seq::empty(), Map::empty()),
            ConfigDocument::Yaml(v) => match r {
                Ok(t) => yaml_leaves(v, Seq::empty(), Map::empty()) == Ok::<_, Seq<char>>(t@),
                Err(e) => yaml_leaves(v, Seq::empty(), Map::empty()) matches Err(m)
                    && (e matches ConfigError::Parse(x) && x@ == m),
            },
            ConfigDocument::Toml(v) => r matches Ok(t)
                && toml_overlay(t@, Map::empty(), toml_leaves(v, Seq::empty(), Map::empty())),
        },
{
    match document {
        ConfigDocument::Json(v) => Ok(load_from_json(v)),
        ConfigDocument::Yaml(v) => load_from_yaml(v),
        ConfigDocument::Toml(v) => Ok(load_from_toml(v)),
    }
}

impl ConfigManager {
    /// Reads the entries of a document and merges them into the
    /// configuration, replacing entries with the same key. Where the
    /// document cannot be read, the configuration is left as it was.
    pub fn load_document(&mut self, document: ConfigDocument) -> (r: Result<(), ConfigError>)
        ensures
            match document {
                ConfigDocument::Json(v) => r is Ok
                    && final(self)@ == old(self)@.union_prefer_right(json_leaves(v, Seq::empty(), Map::empty())),
                ConfigDocument::Yaml(v) => match r {
                    Ok(()) => yaml_leaves(v, Seq::empty(), Map::empty()) matches Ok(t)
                        && final(self)@ == old(self)@.union_prefer_right(t),
                    Err(e) => final(self)@ == old(self)@
                        && (yaml_leaves(v, Seq::empty(), Map::empty()) matches Err(m)
                        && (e matches ConfigError::Parse(x) && x@ == m)),
                },
                ConfigDocument::Toml(v) => r is Ok
                    && toml_overlay(final(self)@, old(self)@, toml_leaves(v, Seq::empty(), Map::empty())),
            },
    {
        let ghost doc = document;
        match load_document(document) {
            Ok(table) => {
                let ghost t = table@;
                let ghost before = self@;
                let _ = self.update_configurations(table);
                proof {
                    if let ConfigDocument::Toml(v) = doc {
                        let leaves = toml_leaves(v, Seq::empty(), Map::empty());
                        assert(self@.dom() =~= before.dom().union(leaves.dom()));
                    }
                }
                Ok(())
            },
            Err(e) => Err(e),
        }
    }
}

#[verifier::external_type_specification]
#[verifier::external_body]
pub struct ExSerdeJsonValue(serde_json::Value);

#[verifier::external_type_specification]
#[verifier::external_body]
pub struct ExSerdeJsonNumber(serde_json::Number);

#[verifier::external_type_specification]
#[verifier::external_body]
pub struct ExSerdeYamlValue(serde_yaml::Value);

#[verifier::external_type_specification]
#[verifier::external_body]
pub struct ExTomlValue(toml::Value);

/// Converts a number read by `serde_json` into the library's form, by the
/// kind of number the crate holds. Nothing is claimed of the result: it is
/// part of `parse_json_text`, whose result is named as a whole.
#[verifier::external_body]
fn json_number_from_serde(n: &serde_json::Number) -> JsonNumber {
    if let Some(u) = n.as_u64() {
        JsonNumber::PosInt(u)
    } else if let Some(i) = n.as_i64() {
        JsonNumber::NegInt(i)
    } else {
        JsonNumber::Float(n.as_f64().map(|x| x.to_bits()).unwrap_or(0x7ff8_0000_0000_0000u64))
    }
}

/// Converts a value read by `serde_json` into the library's form, variant
/// by variant. Nothing is claimed of the result: it is part of
/// `parse_json_text` and `parse_yaml_text`, whose results are named as a whole.
#[verifier::external_body]
fn json_from_serde(v: &serde_json::Value) -> JsonValue {
    match v {
        serde_json::Value::Null => JsonValue::Null,
        serde_json::Value::Bool(b) => JsonValue::Bool(*b),
        serde_json::Value::Number(n) => JsonValue::Number(json_number_from_serde(n)),
        serde_json::Value::String(s) => JsonValue::String(s.clone()),
        serde_json::Value::Array(items) => JsonValue::Array(items.iter().map(json_from_serde).collect()),
        serde_json::Value::Object(members) => JsonValue::Object(
            members.iter().map(|(k, v)| (k.clone(), json_from_serde(v))).collect(),
        ),
    }
}

/// Converts a node read by `serde_yaml` into the library's form: a mapping
/// keeps its members, with the text of string keys; any other node is
/// converted to JSON with `serde_yaml::from_value`. Nothing is claimed of
/// the result: it is part of `parse_yaml_text`, whose result is named as a
/// whole.
#[verifier::external_body]
fn yaml_from_serde(v: &serde_yaml::Value) -> YamlValue {
    match v {
        serde_yaml::Value::Mapping(mapping) => YamlValue::Mapping(
            mapping.iter().map(|(k, v)| (k.as_str().map(String::from), yaml_from_serde(v))).collect(),
        ),
        other => match serde_yaml::from_value::<serde_json::Value>(other.clone()) {
            Ok(j) => YamlValue::Value(json_from_serde(&j)),
            Err(e) => YamlValue::Unconvertible(e.to_string()),
        },
    }
}

/// Converts a value read by `toml` into the library's form, variant by
/// variant (a float by its bits, a date-time by its text). Nothing is
/// claimed of the result: it is part of `parse_toml_text`, whose result is
/// named as a whole.
#[verifier::external_body]
fn toml_from_serde(v: &toml::Value) -> TomlValue {
    match v {
        toml::Value::String(s) => TomlValue::String(s.clone()),
        toml::Value::Integer(i) => TomlValue::Integer(*i),
        toml::Value::Float(f) => TomlValue::Float(f.to_bits()),
        toml::Value::Boolean(b) => TomlValue::Boolean(*b),
        toml::Value::Datetime(d) => TomlValue::Datetime(d.to_string()),
        toml::Value::Array(items) => TomlValue::Array(items.iter().map(toml_from_serde).collect()),
        toml::Value::Table(t) => TomlValue::Table(t.iter().map(|(k, v)| (k.clone(), toml_from_serde(v))).collect()),
    }
}

/// What `serde_json::from_str` reads from a text, in the library's form, or
/// the text of its error.
pub uninterp spec fn json_text_document(content: Seq<char>) -> Result<JsonValue, Seq<char>>;

/// What `serde_yaml::from_str` reads from a text, in the library's form
/// (nodes that are not mappings converted with `serde_yaml::from_value`),
/// or the text of its error.
pub uninterp spec fn yaml_text_document(content: Seq<char>) -> Result<YamlValue, Seq<char>>;

/// What `toml::from_str` reads from a text, in the library's form, or the
/// text of its error.
pub uninterp spec fn toml_text_document(content: Seq<char>) -> Result<TomlValue, Seq<char>>;

/// Calls `serde_json::from_str` on the text. Trusted: the result is the
/// value the crate reads, converted to the library's form, or the text of
/// the crate's error; both are what `json_text_document` names.
#[verifier::external_body]
fn parse_json_text(content: &str) -> (r: Result<JsonValue, String>)
    ensures
        match r {
            Ok(v) => json_text_document(content@) == Ok::<_, Seq<char>>(v),
            Err(m) => json_text_document(content@) == Err::<JsonValue, _>(m@),
        },
{
    match serde_json::from_str::<serde_json::Value>(content) {
        Ok(v) => Ok(json_from_serde(&v)),
        Err(e) => Err(e.to_string()),
    }
}

/// Calls `serde_yaml::from_str` on the text. Trusted: the result is what
/// `yaml_text_document` names.
#[verifier::external_body]
fn parse_yaml_text(content: &str) -> (r: Result<YamlValue, String>)
    ensures
        match r {
            Ok(v) => yaml_text_document(content@) == Ok::<_, Seq<char>>(v),
            Err(m) => yaml_text_document(content@) == Err::<YamlValue, _>(m@),
        },
{
    match serde_yaml::from_str::<serde_yaml::Value>(content) {
        Ok(v) => Ok(yaml_from_serde(&v)),
        Err(e) => Err(e.to_string()),
    }
}

/// Calls `toml::from_str` on the text. Trusted: the result is what
/// `toml_text_document` names.
#[verifier::external_body]
fn parse_toml_text(content: &str) -> (r: Result<TomlValue, String>)
    ensures
        match r {
            Ok(v) => toml_text_document(content@) == Ok::<_, Seq<char>>(v),
            Err(m) => toml_text_document(content@) == Err::<TomlValue, _>(m@),
        },
{
    match toml::from_str::<toml::Value>(content) {
        Ok(v) => Ok(toml_from_serde(&v)),
        Err(e) => Err(e.to_string()),
    }
}

/// What reading a text in a format gives: the document, or the text of the
/// reader's error. No reader exists for the custom format.
pub open spec fn text_document(content: Seq<char>, format: ConfigFormat) -> Result<ConfigDocument, Seq<char>> {
    match format {
        ConfigFormat::Json => match json_text_document(content) {
            Ok(v) => Ok(ConfigDocument::Json(v)),
            Err(m) => Err(m),
        },
        ConfigFormat::Yaml => match yaml_text_document(content) {
            Ok(v) => Ok(ConfigDocument::Yaml(v)),
            Err(m) => Err(m),
        },
        ConfigFormat::Toml => match toml_text_document(content) {
            Ok(v) => Ok(ConfigDocument::Toml(v)),
            Err(m) => Err(m),
        },
        ConfigFormat::Custom => Err("Custom format not implemented"@),
    }
}

/// Reads a text in a format: see `text_document`.
pub fn parse_document(content: &str, format: ConfigFormat) -> (r: Result<ConfigDocument, String>)
    ensures
        match r {
            Ok(d) => text_document(content@, format) == Ok::<_, Seq<char>>(d),
            Err(m) => text_document(content@, format) == Err::<ConfigDocument, _>(m@),
        },
{
    match format {
        ConfigFormat::Json => match parse_json_text(content) {
            Ok(v) => Ok(ConfigDocument::Json(v)),
            Err(m) => Err(m),
        },
        ConfigFormat::Yaml => match parse_yaml_text(content) {
            Ok(v) => Ok(ConfigDocument::Yaml(v)),
            Err(m) => Err(m),
        },
        ConfigFormat::Toml => match parse_toml_text(content) {
            Ok(v) => Ok(ConfigDocument::Toml(v)),
            Err(m) => Err(m),
        },
        ConfigFormat::Custom => Err("Custom format not implemented".to_string()),
    }
}

/// Whether `r` is what reading the entries of `document` gives: see
/// `load_document`.
pub open spec fn document_table(document: ConfigDocument, r: Result<ConfigTable, ConfigError>) -> bool {
    match document {
        ConfigDocument::Json(v) => r matches Ok(t) && t@ == json_leaves(v, Seq::empty(), Map::empty()),
        ConfigDocument::Yaml(v) => match r {
            Ok(t) => yaml_leaves(v, Seq::empty(), Map::empty()) == Ok::<_, Seq<char>>(t@),
            Err(e) => yaml_leaves(v, Seq::empty(), Map::empty()) matches Err(m)
                && (e matches ConfigError::Parse(x) && x@ == m),
        },
        ConfigDocument::Toml(v) => r matches Ok(t)
            && toml_overlay(t@, Map::empty(), toml_leaves(v, Seq::empty(), Map::empty())),
    }
}

/// The entries of a configuration text in a format. A text the format's
/// reader rejects gives the reader's error; the custom format is not
/// supported.
pub fn load_config_file(content: &str, format: ConfigFormat) -> (r: Result<ConfigTable, ConfigError>)
    ensures
        format == ConfigFormat::Custom ==> (r matches Err(ConfigError::InvalidFormat(m))
            && m@ == "Custom format not implemented"@),
        format != ConfigFormat::Custom ==> match text_document(content@, format) {
            Ok(d) => document_table(d, r),
            Err(m) => r matches Err(ConfigError::Parse(x)) && x@ == m,
        },
{
    if format == ConfigFormat::Custom {
        return load_from_custom();
    }
    match parse_document(content, format) {
        Ok(document) => load_document(document),
        Err(m) => Err(ConfigError::Parse(m)),
    }
}

/// What reading a file's text gives when the formats `formats` are tried
/// from position `i` on: the first document a format reads that is taken
/// (see `accepts_document`); where none is, the failure of the last format
/// tried, `Some` of a reader's error text, or `None` for a document that
/// was not taken.
pub open spec fn chosen_document(
    content: Seq<char>,
    formats: Seq<ConfigFormat>,
    guessed: bool,
    i: int,
) -> Result<ConfigDocument, Option<Seq<char>>>
    decreases formats.len() - i,
{
    if i < 0 || i >= formats.len() {
        Err(None)
    } else {
        let outcome = text_document(content, formats[i]);
        if outcome matches Ok(d) && (!guessed || d.spec_is_table()) {
            Ok(outcome->Ok_0)
        } else if i == formats.len() - 1 {
            match outcome {
                Ok(_) => Err(None),
                Err(m) => Err(Some(m)),
            }
        } else {
            chosen_document(content, formats, guessed, i + 1)
        }
    }
}

/// What reading the file at `path` with text `content` gives: the formats
/// of `formats_to_try` are tried in turn, and where the format is only
/// guessed (several are tried) a document is taken only if it is a table.
pub open spec fn file_document(path: Seq<char>, content: Seq<char>) -> Result<ConfigDocument, Option<Seq<char>>> {
    let formats = formats_to_try(path);
    chosen_document(content, formats, formats.len() > 1, 0)
}

/// Whether `new` and `r` are what merging the entries of `document` into
/// `old` gives: see `ConfigManager::load_document`.
pub open spec fn document_merged(
    document: ConfigDocument,
    old: Map<Seq<char>, ConfigValueView>,
    new: Map<Seq<char>, ConfigValueView>,
    r: Result<(), ConfigError>,
) -> bool {
    match document {
        ConfigDocument::Json(v) => r is Ok && new == old.union_prefer_right(json_leaves(v, Seq::empty(), Map::empty())),
        ConfigDocument::Yaml(v) => match r {
            Ok(()) => yaml_leaves(v, Seq::empty(), Map::empty()) matches Ok(t) && new == old.union_prefer_right(t),
            Err(e) => new == old && (yaml_leaves(v, Seq::empty(), Map::empty()) matches Err(m)
                && (e matches ConfigError::Parse(x) && x@ == m)),
        },
        ConfigDocument::Toml(v) => r is Ok && toml_overlay(new, old, toml_leaves(v, Seq::empty(), Map::empty())),
    }
}

impl ConfigManager {
    /// Reads the text `content` of the file at `path` and merges its entries
    /// into the configuration: see `file_document`. Where no document is
    /// taken, the configuration is left as it was, and the error is the
    /// last reader's error or, for a document that is not a table of
    /// settings, an invalid format.
    pub fn load_file_content(&mut self, path: &str, content: &str) -> (r: Result<(), ConfigError>)
        ensures
            match file_document(path@, content@) {
                Ok(d) => document_merged(d, old(self)@, final(self)@, r),
                Err(None) => final(self)@ == old(self)@ && r matches Err(ConfigError::InvalidFormat(_)),
                Err(Some(m)) => final(self)@ == old(self)@ && (r matches Err(ConfigError::Parse(x)) && x@ == m),
            },
    {
        let formats = candidate_formats(path);
        let n = formats.len();
        let guessed = n > 1;
        let ghost fs = formats@;
        let mut i: usize = 0;
        while i < n
            invariant
                n == fs.len(),
                fs == formats@,
                fs == formats_to_try(path@),
                guessed == (fs.len() > 1),
                i <= n,
                self@ == old(self)@,
                chosen_document(content@, fs, guessed, 0) == chosen_document(content@, fs, guessed, i as int),
            decreases n - i,
        {
            let format = formats[i];
            match parse_document(content, format) {
                Ok(document) => {
                    if accepts_document(&document, guessed) {
                        return self.load_document(document);
                    }
                    if i == n - 1 {
                        return Err(ConfigError::InvalidFormat("the file is not a table of settings".to_string()));
                    }
                },
                Err(m) => {
                    if i == n - 1 {
                        return Err(ConfigError::Parse(m));
                    }
                },
            }
            i = i + 1;
        }
        Err(ConfigError::InvalidFormat("no format to read the file in".to_string()))
    }
}

} // verus!
