//! Properties that hold across the operations of the library.
use vstd::prelude::*;

use crate::json::{spec_type_of, DataType, JsonNumber, JsonValue};
use crate::parsers::{
    file_document, format_for_extension, format_for_path, json_leaves, json_member_leaves, join_key, text_document, toml_member_leaves,
    yaml_key_text, yaml_member_flatten, ConfigDocument, ConfigFormat, TomlValue, YamlValue,
};
use crate::rules::{rule_outcome, ValidationErrorView, ValidationRule};
use crate::reload::{change_reaction, cleanup_target, reload_target, ChangeReaction, ChangeType, CleanupTarget, ReloadTarget};
use crate::table::all_valid;
use crate::value::{first_rule_failure, fresh_config, validation_outcome, ConfigValueView};

verus! {

/// Reading a key right after setting it gives the value just set, and the
/// key is then present.
pub proof fn law_get_after_set(m: Map<Seq<char>, ConfigValueView>, k: Seq<char>, v: ConfigValueView)
    ensures
        m.insert(k, v).dom().contains(k),
        m.insert(k, v)[k] == v,
{
}

/// Setting a key leaves every other key as it was.
pub proof fn law_set_keeps_others(
    m: Map<Seq<char>, ConfigValueView>,
    k: Seq<char>,
    v: ConfigValueView,
    other: Seq<char>,
)
    requires
        other != k,
    ensures
        m.insert(k, v).dom().contains(other) == m.dom().contains(other),
        m.dom().contains(other) ==> m.insert(k, v)[other] == m[other],
{
}

/// Setting a key twice keeps only the second value: the last write wins.
pub proof fn law_last_set_wins(
    m: Map<Seq<char>, ConfigValueView>,
    k: Seq<char>,
    v1: ConfigValueView,
    v2: ConfigValueView,
)
    ensures
        m.insert(k, v1).insert(k, v2) == m.insert(k, v2),
{
    assert(m.insert(k, v1).insert(k, v2) =~= m.insert(k, v2));
}

/// Merging a set of entries makes each of them present with its value,
/// keeps every other entry, and adds nothing else.
pub proof fn law_update_merges(
    m: Map<Seq<char>, ConfigValueView>,
    update: Map<Seq<char>, ConfigValueView>,
    k: Seq<char>,
)
    ensures
        update.dom().contains(k) ==> m.union_prefer_right(update).dom().contains(k)
            && m.union_prefer_right(update)[k] == update[k],
        !update.dom().contains(k) ==> (m.union_prefer_right(update).dom().contains(k) == m.dom().contains(k)),
        !update.dom().contains(k) && m.dom().contains(k) ==> m.union_prefer_right(update)[k] == m[k],
{
}

/// One failing entry is enough for the whole configuration to be invalid.
pub proof fn law_one_invalid_entry_fails_all(m: Map<Seq<char>, ConfigValueView>, k: Seq<char>)
    requires
        m.dom().contains(k),
        validation_outcome(m[k]) is Some,
    ensures
        !all_valid(m),
{
}

/// Setting a valid entry into a valid configuration keeps it valid.
pub proof fn law_valid_set_keeps_valid(m: Map<Seq<char>, ConfigValueView>, k: Seq<char>, v: ConfigValueView)
    requires
        all_valid(m),
        validation_outcome(v) is None,
    ensures
        all_valid(m.insert(k, v)),
{
    assert forall|j: Seq<char>| #[trigger] m.insert(k, v).dom().contains(j) implies
        validation_outcome(m.insert(k, v)[j]) is None by {
        if j != k {
            assert(m.dom().contains(j));
        }
    }
}

/// A fresh entry that is not required has no rules and always validates.
pub proof fn law_fresh_entry_is_valid(value: JsonValue, data_type: DataType)
    ensures
        validation_outcome(fresh_config(value, data_type, false)) is None,
{
}

/// A required entry without a value and without a default is rejected;
/// with a default it is accepted whatever its rules say.
pub proof fn law_required_missing(cv: ConfigValueView)
    requires
        cv.required,
        cv.value is Null,
    ensures
        cv.default_value is None ==> validation_outcome(cv) is Some,
        cv.default_value is Some ==> validation_outcome(cv) is None,
{
}

/// A minimum and a maximum together admit exactly the integers between
/// them, bounds included; values that are not integers pass both.
pub proof fn law_range_rules(min: i64, max: i64, value: JsonValue)
    ensures
        value.spec_as_i64() matches Some(n) ==> (
            (rule_outcome(ValidationRule::MinValue(min), value) is None
                && rule_outcome(ValidationRule::MaxValue(max), value) is None)
            <==> (min <= n && n <= max)),
        value.spec_as_i64() is None ==> rule_outcome(ValidationRule::MinValue(min), value) is None
            && rule_outcome(ValidationRule::MaxValue(max), value) is None,
{
}

/// The `Required` rule rejects exactly `null`; a custom rule rejects
/// nothing.
pub proof fn law_required_and_custom_rules(value: JsonValue, name: String)
    ensures
        rule_outcome(ValidationRule::Required, value) is Some <==> value is Null,
        rule_outcome(ValidationRule::Custom(name), value) is None,
{
}

/// The type flattening gives a member value that is not an object: an
/// array is typed by its first item, anything else by itself.
pub open spec fn leaf_type(v: JsonValue) -> DataType {
    match v {
        JsonValue::Array(items) => spec_type_of(items@[0]),
        _ => spec_type_of(v),
    }
}

/// Whether a member value becomes an entry of its own when flattened:
/// it is neither an object nor an empty array.
pub open spec fn is_leaf(v: JsonValue) -> bool {
    match v {
        JsonValue::Object(_) => false,
        JsonValue::Array(items) => items@.len() > 0,
        _ => true,
    }
}

/// Whether every member of `members` becomes an entry of its own and no two
/// members have the same name.
pub open spec fn flat_members(members: Seq<(String, JsonValue)>) -> bool {
    &&& forall|i: int| 0 <= i < members.len() ==> is_leaf(#[trigger] members[i].1)
    &&& forall|i: int, j: int| 0 <= i < members.len() && 0 <= j < members.len() && i != j
        ==> #[trigger] members[i].0@ != #[trigger] members[j].0@
}

/// Flattening an object whose members are all leaves with distinct names,
/// at the top level, gives exactly one fresh entry per member, under the
/// member's name, holding the member's value.
pub proof fn law_flat_object_entries(members: Seq<(String, JsonValue)>)
    requires
        flat_members(members),
    ensures
        forall|k: Seq<char>| #[trigger] json_member_leaves(members, Seq::empty(), Map::empty()).dom().contains(k)
            <==> exists|i: int| 0 <= i < members.len() && members[i].0@ == k,
        forall|i: int| 0 <= i < members.len() ==>
            json_member_leaves(members, Seq::empty(), Map::empty())[#[trigger] members[i].0@]
                == fresh_config(members[i].1, leaf_type(members[i].1), false),
    decreases members.len(),
{
    if members.len() > 0 {
        let rest = members.drop_last();
        assert(flat_members(rest)) by {
            assert forall|i: int| 0 <= i < rest.len() implies is_leaf(#[trigger] rest[i].1) by {
                assert(rest[i] == members[i]);
            }
            assert forall|i: int, j: int| 0 <= i < rest.len() && 0 <= j < rest.len() && i != j
                implies #[trigger] rest[i].0@ != #[trigger] rest[j].0@ by {
                assert(rest[i] == members[i]);
                assert(rest[j] == members[j]);
            }
        }
        law_flat_object_entries(rest);
        let last = members.last();
        let n = members.len() - 1;
        assert(last == members[n]);
        assert(is_leaf(members[n].1));
        assert(join_key(Seq::empty(), last.0@) == last.0@);
        let m = json_member_leaves(members, Seq::empty(), Map::empty());
        let before = json_member_leaves(rest, Seq::empty(), Map::empty());
        assert(m == before.insert(last.0@, fresh_config(last.1, leaf_type(last.1), false)));
        assert forall|k: Seq<char>| #[trigger] m.dom().contains(k)
            <==> exists|i: int| 0 <= i < members.len() && members[i].0@ == k by {
            if m.dom().contains(k) && k != last.0@ {
                assert(before.dom().contains(k));
                let i = choose|i: int| 0 <= i < rest.len() && rest[i].0@ == k;
                assert(members[i] == rest[i]);
            }
            if exists|i: int| 0 <= i < members.len() && members[i].0@ == k {
                let i = choose|i: int| 0 <= i < members.len() && members[i].0@ == k;
                if i < n {
                    assert(rest[i] == members[i]);
                    assert(before.dom().contains(rest[i].0@));
                }
            }
        }
        assert forall|i: int| 0 <= i < members.len() implies
            m[#[trigger] members[i].0@] == fresh_config(members[i].1, leaf_type(members[i].1), false) by {
            if i < n {
                assert(rest[i] == members[i]);
                assert(members[i].0@ != members[n].0@);
            }
        }
    }
}

/// Exporting a configuration and reading the export back as a JSON
/// document gives the same keys holding the same values, provided no
/// value is an object or an empty array (flattening would take those
/// apart or leave them out). `members` is the exported object: each key
/// of the configuration once, with its value.
pub proof fn law_export_then_import(m: Map<Seq<char>, ConfigValueView>, members: Seq<(String, JsonValue)>)
    requires
        forall|i: int| 0 <= i < members.len() ==> m.dom().contains(#[trigger] members[i].0@),
        forall|i: int| 0 <= i < members.len() ==> (#[trigger] members[i]).1 == m[members[i].0@].value,
        forall|k: Seq<char>| #[trigger] m.dom().contains(k) ==> exists|i: int| 0 <= i < members.len() && members[i].0@ == k,
        forall|i: int, j: int| 0 <= i < members.len() && 0 <= j < members.len() && i != j
            ==> #[trigger] members[i].0@ != #[trigger] members[j].0@,
        forall|k: Seq<char>| #[trigger] m.dom().contains(k) ==> is_leaf(m[k].value),
    ensures
        json_member_leaves(members, Seq::empty(), Map::empty()).dom() == m.dom(),
        forall|k: Seq<char>| #[trigger] m.dom().contains(k) ==>
            json_member_leaves(members, Seq::empty(), Map::empty())[k].value == m[k].value,
{
    assert(flat_members(members)) by {
        assert forall|i: int| 0 <= i < members.len() implies is_leaf(#[trigger] members[i].1) by {
            assert(m.dom().contains(members[i].0@));
        }
    }
    law_flat_object_entries(members);
    let r = json_member_leaves(members, Seq::empty(), Map::empty());
    assert forall|k: Seq<char>| #[trigger] m.dom().contains(k) implies r.dom().contains(k) && r[k].value == m[k].value by {
        let i = choose|i: int| 0 <= i < members.len() && members[i].0@ == k;
        assert(r[members[i].0@] == fresh_config(members[i].1, leaf_type(members[i].1), false));
    }
    assert forall|k: Seq<char>| #[trigger] r.dom().contains(k) implies m.dom().contains(k) by {
        let i = choose|i: int| 0 <= i < members.len() && members[i].0@ == k;
    }
    assert(r.dom() =~= m.dom());
}

/// At the top level, flattening a non-object JSON document gives no entries.
pub proof fn law_non_object_document_is_empty(v: JsonValue)
    requires
        !(v is Object),
    ensures
        json_leaves(v, Seq::empty(), Map::empty()) == Map::<Seq<char>, ConfigValueView>::empty(),
{
}

/// Every `i64` reads back from the JSON number that denotes it (a negative
/// one as well as a non-negative one), is typed as an integer, and is held
/// to integer bounds: a minimum rejects it exactly when it is below the
/// minimum, a maximum exactly when it is above, and an entry whose only
/// rule is that minimum is rejected with that same error.
pub proof fn law_integers_read_back(n: i64, bound: i64, cv: ConfigValueView)
    ensures
        ({
            let v = JsonValue::Number(if n < 0 { JsonNumber::NegInt(n) } else { JsonNumber::PosInt(n as u64) });
            &&& v.spec_as_i64() == Some(n)
            &&& spec_type_of(v) == DataType::Integer
            &&& rule_outcome(ValidationRule::MinValue(bound), v)
                == (if n < bound { Some(ValidationErrorView::MinValue(bound, n)) } else { None })
            &&& rule_outcome(ValidationRule::MaxValue(bound), v)
                == (if n > bound { Some(ValidationErrorView::MaxValue(bound, n)) } else { None })
            &&& (cv.value == v && cv.validation_rules == seq![ValidationRule::MinValue(bound)]) ==>
                validation_outcome(cv)
                    == (if n < bound { Some(ValidationErrorView::MinValue(bound, n)) } else { None })
        }),
{
    let v = JsonValue::Number(if n < 0 { JsonNumber::NegInt(n) } else { JsonNumber::PosInt(n as u64) });
    if cv.value == v && cv.validation_rules == seq![ValidationRule::MinValue(bound)] {
        assert(crate::value::first_rule_failure(cv.validation_rules, v, 1) is None);
    }
}

/// The type a JSON value is given: strings, booleans and `null` are
/// strings, booleans and strings; numbers that fit in `i64` are integers,
/// larger ones strings, floating-point numbers floats; arrays and objects
/// are objects.
pub proof fn law_json_types(v: JsonValue)
    ensures
        spec_type_of(v) == match v {
            JsonValue::Null => DataType::String,
            JsonValue::Bool(_) => DataType::Boolean,
            JsonValue::String(_) => DataType::String,
            JsonValue::Number(JsonNumber::PosInt(u)) => if u <= i64::MAX { DataType::Integer } else { DataType::String },
            JsonValue::Number(JsonNumber::NegInt(_)) => DataType::Integer,
            JsonValue::Number(JsonNumber::Float(_)) => DataType::Float,
            JsonValue::Array(_) => DataType::Object,
            JsonValue::Object(_) => DataType::Object,
        },
{
}

/// Flattening one more JSON member, under any prefix: an object is
/// flattened under the member's dotted key, a non-empty array becomes the
/// entry under that key typed by its first item, an empty array adds
/// nothing, and any other value becomes the entry typed by itself.
pub proof fn law_json_member_step(
    members: Seq<(String, JsonValue)>,
    name: String,
    val: JsonValue,
    prefix: Seq<char>,
    acc: Map<Seq<char>, ConfigValueView>,
)
    ensures
        ({
            let key = join_key(prefix, name@);
            let before = json_member_leaves(members, prefix, acc);
            let after = json_member_leaves(members.push((name, val)), prefix, acc);
            match val {
                JsonValue::Object(sub) => after == json_member_leaves(sub@, key, before),
                JsonValue::Array(items) => if items@.len() > 0 {
                    after == before.insert(key, fresh_config(val, spec_type_of(items@[0]), false))
                } else {
                    after == before
                },
                _ => after == before.insert(key, fresh_config(val, spec_type_of(val), false)),
            }
        }),
{
    let ms = members.push((name, val));
    assert(ms.drop_last() == members);
    assert(ms.last() == (name, val));
    assert(json_member_leaves(ms, prefix, acc) == {
        let before = json_member_leaves(members, prefix, acc);
        let key = join_key(prefix, name@);
        match val {
            JsonValue::Object(_) => json_leaves(val, key, before),
            JsonValue::Array(items) => if items@.len() > 0 {
                before.insert(key, fresh_config(val, spec_type_of(items@[0]), false))
            } else {
                before
            },
            _ => before.insert(key, fresh_config(val, spec_type_of(val), false)),
        }
    });
}

/// A dotted key is the member's name at the top level, and the prefix, a
/// dot and the name below it.
pub proof fn law_dotted_keys(prefix: Seq<char>, name: Seq<char>)
    ensures
        prefix.len() == 0 ==> join_key(prefix, name) == name,
        prefix.len() > 0 ==> join_key(prefix, name) == prefix + seq!['.'] + name,
{
}

/// The kind of a TOML value as an array's items are typed: strings,
/// integers, floats and booleans their own kind, anything else a string.
pub open spec fn toml_leaf_kind(v: TomlValue) -> DataType {
    match v {
        TomlValue::String(_) => DataType::String,
        TomlValue::Integer(_) => DataType::Integer,
        TomlValue::Float(_) => DataType::Float,
        TomlValue::Boolean(_) => DataType::Boolean,
        _ => DataType::String,
    }
}

/// Flattening one more TOML member, under any prefix: a table is flattened
/// under the member's dotted key; a string, integer, float or boolean
/// becomes the entry typed `String`, `Integer`, `Float` or `Boolean`, a
/// date-time the entry typed `String`; a non-empty array the entry typed as
/// an array of its first item's kind; an empty array adds nothing.
pub proof fn law_toml_member_step(
    members: Seq<(String, TomlValue)>,
    name: String,
    val: TomlValue,
    prefix: Seq<char>,
    acc: Map<Seq<char>, (TomlValue, DataType)>,
)
    ensures
        ({
            let key = join_key(prefix, name@);
            let before = toml_member_leaves(members, prefix, acc);
            let after = toml_member_leaves(members.push((name, val)), prefix, acc);
            match val {
                TomlValue::Table(sub) => after == toml_member_leaves(sub@, key, before),
                TomlValue::Array(items) => if items@.len() > 0 {
                    after == before.insert(key, (val, DataType::Array(Box::new(toml_leaf_kind(items@[0])))))
                } else {
                    after == before
                },
                TomlValue::String(_) => after == before.insert(key, (val, DataType::String)),
                TomlValue::Integer(_) => after == before.insert(key, (val, DataType::Integer)),
                TomlValue::Float(_) => after == before.insert(key, (val, DataType::Float)),
                TomlValue::Boolean(_) => after == before.insert(key, (val, DataType::Boolean)),
                TomlValue::Datetime(_) => after == before.insert(key, (val, DataType::String)),
            }
        }),
{
    let ms = members.push((name, val));
    assert(ms.drop_last() == members);
    assert(ms.last() == (name, val));
    let before = toml_member_leaves(members, prefix, acc);
    let key = join_key(prefix, name@);
    assert(toml_member_leaves(ms, prefix, acc) == match val {
        TomlValue::Table(_) => crate::parsers::toml_leaves(val, key, before),
        TomlValue::Array(items) => if items@.len() > 0 {
            before.insert(key, (val, DataType::Array(Box::new(crate::parsers::toml_scalar_type(items@[0])))))
        } else {
            before
        },
        _ => before.insert(key, (val, crate::parsers::toml_scalar_type(val))),
    });
    if let TomlValue::Array(items) = val {
        if items@.len() > 0 {
            assert(crate::parsers::toml_scalar_type(items@[0]) == toml_leaf_kind(items@[0]));
        }
    }
}

/// Flattening one more YAML member, under any prefix: once a node has
/// failed nothing changes; otherwise a mapping is flattened under the
/// member's dotted key, any other node that converted to JSON, `null`
/// included, becomes the entry under that key typed by its value, and a
/// node that did not convert stops the flattening with its reason.
pub proof fn law_yaml_member_step(
    members: Seq<(Option<String>, YamlValue)>,
    name: Option<String>,
    node: YamlValue,
    prefix: Seq<char>,
    acc: Map<Seq<char>, ConfigValueView>,
)
    ensures
        ({
            let key = join_key(prefix, yaml_key_text(name));
            let before = yaml_member_flatten(members, prefix, acc);
            let after = yaml_member_flatten(members.push((name, node)), prefix, acc);
            if before.1 is Some {
                after == before
            } else {
                match node {
                    YamlValue::Mapping(sub) => after == yaml_member_flatten(sub@, key, before.0),
                    YamlValue::Value(j) => after == (
                        before.0.insert(key, fresh_config(j, spec_type_of(j), false)),
                        None::<Seq<char>>,
                    ),
                    YamlValue::Unconvertible(m) => after == (before.0, Some(m@)),
                }
            }
        }),
        yaml_key_text(name) == match name {
            Some(s) => s@,
            None => Seq::<char>::empty(),
        },
{
    let ms = members.push((name, node));
    assert(ms.drop_last() == members);
    assert(ms.last() == (name, node));
    let before = yaml_member_flatten(members, prefix, acc);
    let key = join_key(prefix, yaml_key_text(name));
    assert(yaml_member_flatten(ms, prefix, acc) == if before.1 is Some {
        before
    } else {
        match node {
            YamlValue::Mapping(_) => crate::parsers::yaml_flatten(node, key, before.0),
            YamlValue::Value(j) => (before.0.insert(key, fresh_config(j, spec_type_of(j), false)), None),
            YamlValue::Unconvertible(m) => (before.0, Some(m@)),
        }
    });
}

/// Whether the text read in `format` is a table of settings.
pub open spec fn reads_as_table(content: Seq<char>, format: ConfigFormat) -> bool {
    text_document(content, format) matches Ok(d) && d.spec_is_table()
}

/// Reading a file: where its extension names a format, that format alone
/// is used; otherwise JSON, YAML and TOML are tried in turn, a format that
/// reads the text as something other than a table does not end the
/// search, and the first format that reads a table gives the document.
/// Where none does, nothing is read.
pub proof fn law_file_formats(path: Seq<char>, content: Seq<char>)
    ensures
        format_for_path(path) matches Some(f) ==> file_document(path, content) == match text_document(content, f) {
            Ok(d) => Ok::<ConfigDocument, Option<Seq<char>>>(d),
            Err(m) => Err(Some(m)),
        },
        format_for_path(path) is None ==> {
            &&& reads_as_table(content, ConfigFormat::Json)
                ==> file_document(path, content) == Ok::<ConfigDocument, Option<Seq<char>>>(text_document(content, ConfigFormat::Json)->Ok_0)
            &&& (!reads_as_table(content, ConfigFormat::Json) && reads_as_table(content, ConfigFormat::Yaml))
                ==> file_document(path, content) == Ok::<ConfigDocument, Option<Seq<char>>>(text_document(content, ConfigFormat::Yaml)->Ok_0)
            &&& (!reads_as_table(content, ConfigFormat::Json) && !reads_as_table(content, ConfigFormat::Yaml)
                && reads_as_table(content, ConfigFormat::Toml))
                ==> file_document(path, content) == Ok::<ConfigDocument, Option<Seq<char>>>(text_document(content, ConfigFormat::Toml)->Ok_0)
            &&& (!reads_as_table(content, ConfigFormat::Json) && !reads_as_table(content, ConfigFormat::Yaml)
                && !reads_as_table(content, ConfigFormat::Toml)) ==> file_document(path, content) is Err
        },
{
    reveal_with_fuel(crate::parsers::chosen_document, 4);
}

/// The rules from index `k` on report the error of rule `i`, the first
/// of them that fails.
proof fn lemma_first_failure_from(rules: Seq<ValidationRule>, value: JsonValue, k: int, i: int)
    requires
        0 <= k <= i < rules.len(),
        forall|j: int| k <= j < i ==> rule_outcome(#[trigger] rules[j], value) is None,
        rule_outcome(rules[i], value) is Some,
    ensures
        first_rule_failure(rules, value, k) == rule_outcome(rules[i], value),
    decreases i - k,
{
    if k < i {
        lemma_first_failure_from(rules, value, k + 1, i);
    }
}

/// When no rule from index `k` on fails, the rules from `k` on report nothing.
proof fn lemma_no_failure_from(rules: Seq<ValidationRule>, value: JsonValue, k: int)
    requires
        0 <= k <= rules.len(),
        forall|j: int| k <= j < rules.len() ==> rule_outcome(#[trigger] rules[j], value) is None,
    ensures
        first_rule_failure(rules, value, k) is None,
    decreases rules.len() - k,
{
    if k < rules.len() {
        lemma_no_failure_from(rules, value, k + 1);
    }
}

/// Outside the case of a required entry without a value, an entry is
/// rejected with the error of the first of its rules that fails, and
/// accepted when none fails.
pub proof fn law_first_failing_rule_decides(cv: ConfigValueView, i: int)
    requires
        !(cv.required && cv.value is Null),
    ensures
        (0 <= i < cv.validation_rules.len()
            && (forall|j: int| 0 <= j < i ==> rule_outcome(#[trigger] cv.validation_rules[j], cv.value) is None)
            && rule_outcome(cv.validation_rules[i], cv.value) is Some)
            ==> validation_outcome(cv) == rule_outcome(cv.validation_rules[i], cv.value),
        (forall|j: int| 0 <= j < cv.validation_rules.len()
            ==> rule_outcome(#[trigger] cv.validation_rules[j], cv.value) is None)
            ==> validation_outcome(cv) is None,
{
    if 0 <= i < cv.validation_rules.len()
        && (forall|j: int| 0 <= j < i ==> rule_outcome(#[trigger] cv.validation_rules[j], cv.value) is None)
        && rule_outcome(cv.validation_rules[i], cv.value) is Some {
        lemma_first_failure_from(cv.validation_rules, cv.value, 0, i);
    }
    if forall|j: int| 0 <= j < cv.validation_rules.len()
        ==> rule_outcome(#[trigger] cv.validation_rules[j], cv.value) is None {
        lemma_no_failure_from(cv.validation_rules, cv.value, 0);
    }
}

/// A change of a key in the `server.`, `database.`, `logging.` or
/// `application.` section reloads that part of the application, and its
/// removal releases the server or database part; a key in no such section
/// concerns the application in general. Additions and modifications
/// reload, removals release.
pub proof fn law_sections(rest: Seq<char>, key: Seq<char>, change: ChangeType)
    ensures
        reload_target("server."@ + rest) == ReloadTarget::Server,
        reload_target("database."@ + rest) == ReloadTarget::Database,
        reload_target("logging."@ + rest) == ReloadTarget::Logging,
        reload_target("application."@ + rest) == ReloadTarget::Application,
        cleanup_target("server."@ + rest) == CleanupTarget::Server,
        cleanup_target("database."@ + rest) == CleanupTarget::Database,
        cleanup_target("logging."@ + rest) == CleanupTarget::General,
        (key.len() == 0 || (key[0] != 's' && key[0] != 'd' && key[0] != 'l' && key[0] != 'a'))
            ==> reload_target(key) == ReloadTarget::General && cleanup_target(key) == CleanupTarget::General,
        change_reaction(key, change) == match change {
            ChangeType::Removed => ChangeReaction::Cleanup(cleanup_target(key)),
            _ => ChangeReaction::Reload(reload_target(key)),
        },
{
    reveal_strlit("server.");
    reveal_strlit("database.");
    reveal_strlit("logging.");
    reveal_strlit("application.");
    let s = "server."@ + rest;
    let d = "database."@ + rest;
    let l = "logging."@ + rest;
    let a = "application."@ + rest;
    assert(s.subrange(0, 7) =~= "server."@);
    assert(d.subrange(0, 9) =~= "database."@);
    assert(l.subrange(0, 8) =~= "logging."@);
    assert(a.subrange(0, 12) =~= "application."@);
    assert(d[0] == 'd' && l[0] == 'l' && a[0] == 'a');
    assert(d.subrange(0, 7)[0] == 'd');
    assert(l.subrange(0, 7)[0] == 'l');
    if l.len() >= 9 { assert(l.subrange(0, 9)[0] == 'l'); }
    assert(a.subrange(0, 7)[0] == 'a');
    assert(a.subrange(0, 9)[0] == 'a');
    assert(a.subrange(0, 8)[0] == 'a');
    if key.len() > 0 {
        if key.len() >= 7 { assert(key.subrange(0, 7)[0] == key[0]); }
        if key.len() >= 8 { assert(key.subrange(0, 8)[0] == key[0]); }
        if key.len() >= 9 { assert(key.subrange(0, 9)[0] == key[0]); }
        if key.len() >= 12 { assert(key.subrange(0, 12)[0] == key[0]); }
    }
}

/// The extensions `json`, `yaml`, `yml` and `toml` name JSON, YAML, YAML
/// and TOML; no other extension names a format.
pub proof fn law_extensions(ext: Seq<char>)
    ensures
        format_for_extension("json"@) == Some(ConfigFormat::Json),
        format_for_extension("yaml"@) == Some(ConfigFormat::Yaml),
        format_for_extension("yml"@) == Some(ConfigFormat::Yaml),
        format_for_extension("toml"@) == Some(ConfigFormat::Toml),
        (ext != "json"@ && ext != "yaml"@ && ext != "yml"@ && ext != "toml"@) ==> format_for_extension(ext) is None,
{
    reveal_strlit("json");
    reveal_strlit("yaml");
    reveal_strlit("yml");
    reveal_strlit("toml");
    assert("yaml"@[0] != "json"@[0]);
    assert("yml"@.len() != "json"@.len());
}

/// A document is a table of settings exactly when it is a JSON object, a
/// YAML mapping or a TOML table.
pub proof fn law_tables(d: ConfigDocument)
    ensures
        d.spec_is_table() <==> match d {
            ConfigDocument::Json(JsonValue::Object(_)) => true,
            ConfigDocument::Yaml(YamlValue::Mapping(_)) => true,
            ConfigDocument::Toml(TomlValue::Table(_)) => true,
            _ => false,
        },
{
}

} // verus!
