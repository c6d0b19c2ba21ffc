//! The configuration of plugins: values, the fields that a plugin declares and what an item sets.

use vstd::prelude::*;
use vstd::string::*;

use crate::double;
use crate::failure;
use crate::failure::Failure;
use crate::map::StringMap;
use crate::pattern;
use crate::seqs;
use crate::text;

verus! {

broadcast use crate::seqs::group_seqs;

/// A value in a configuration. A floating-point number is held as its bits and the text that is
/// written for it; everything that is no scalar is held as `Other`.
#[derive(Debug)]
pub enum ConfigValue {
    Text(String),
    Integer(i64),
    Float { bits: u64, text: String },
    Boolean(bool),
    Other,
}

/// The content of a `ConfigValue`.
pub enum ConfigView {
    Text(Seq<char>),
    Integer(int),
    Float(u64, Seq<char>),
    Boolean(bool),
    Other,
}

impl DeepView for ConfigValue {
    type V = ConfigView;

    open spec fn deep_view(&self) -> ConfigView {
        match self {
            ConfigValue::Text(s) => ConfigView::Text(s@),
            ConfigValue::Integer(n) => ConfigView::Integer(*n as int),
            ConfigValue::Float { bits, text } => ConfigView::Float(*bits, text@),
            ConfigValue::Boolean(b) => ConfigView::Boolean(*b),
            ConfigValue::Other => ConfigView::Other,
        }
    }
}

/// A copy of a value.
pub fn copy_value(value: &ConfigValue) -> (r: ConfigValue)
    ensures
        r.deep_view() == value.deep_view(),
{
    match value {
        ConfigValue::Text(s) => ConfigValue::Text(s.clone()),
        ConfigValue::Integer(n) => ConfigValue::Integer(*n),
        ConfigValue::Float { bits, text } => ConfigValue::Float { bits: *bits, text: text.clone() },
        ConfigValue::Boolean(b) => ConfigValue::Boolean(*b),
        ConfigValue::Other => ConfigValue::Other,
    }
}

/// The entries of a TOML document as `toml::from_str` reads them into a `BTreeMap`, or the message
/// with which it refuses the document.
pub uninterp spec fn toml_table(text: Seq<char>) -> Result<Seq<(Seq<char>, ConfigView)>, Seq<char>>;

/// `toml::from_str` reads a TOML document into a map. The result depends on the document alone;
/// the keys of a `BTreeMap` come out in order and each once.
#[verifier::external_body]
fn read_table(text: &str) -> (r: Result<Vec<(String, ConfigValue)>, String>)
    ensures
        match r {
            Ok(entries) => crate::map::ordered(crate::map::keyed(entries@)) && toml_table(text@)
                == Ok::<Seq<(Seq<char>, ConfigView)>, Seq<char>>(
                crate::map::deep_entries(crate::map::keyed(entries@)),
            ),
            Err(e) => toml_table(text@) == Err::<Seq<(Seq<char>, ConfigView)>, Seq<char>>(e@),
        },
{
    let read: Result<std::collections::BTreeMap<String, toml::Value>, _> = toml::from_str(text);
    let table = read.map_err(|e| e.to_string())?;
    Ok(table.into_iter().map(|(key, value)| (key, match value {
        toml::Value::String(s) => ConfigValue::Text(s),
        toml::Value::Integer(n) => ConfigValue::Integer(n),
        toml::Value::Float(x) => ConfigValue::Float { bits: x.to_bits(), text: x.to_string() },
        toml::Value::Boolean(b) => ConfigValue::Boolean(b),
        toml::Value::Datetime(_) => ConfigValue::Other,
        toml::Value::Array(_) => ConfigValue::Other,
        toml::Value::Table(_) => ConfigValue::Other,
    })).collect())
}

/// What a configuration came to.
pub open spec fn told_config(r: Result<StringMap<ConfigValue>, Failure>) -> Result<
    Seq<(Seq<char>, ConfigView)>,
    Seq<Seq<char>>,
> {
    match r {
        Ok(m) => Ok(m.deep()),
        Err(e) => Err(e@),
    }
}

/// Whether a value is a scalar.
pub open spec fn is_scalar_view(value: ConfigView) -> bool {
    !(value is Other)
}

/// Whether a value is a scalar.
pub fn is_scalar(value: &ConfigValue) -> (r: bool)
    ensures
        r == is_scalar_view(value.deep_view()),
{
    match value {
        ConfigValue::Other => false,
        _ => true,
    }
}

/// Whether a configuration is flat and small enough.
pub open spec fn is_flat(config: Seq<(Seq<char>, ConfigView)>) -> bool {
    config.len() <= 64 && forall|i: int|
        0 <= i < config.len() ==> is_scalar_view((#[trigger] config[i]).1)
}

/// A configuration, where it is flat and small enough.
pub fn check_flat_config(config: StringMap<ConfigValue>) -> (r: Result<
    StringMap<ConfigValue>,
    Failure,
>)
    ensures
        told_config(r) == (if is_flat(config.deep()) {
            Ok(config.deep())
        } else {
            Err(
                seq![
                    "OPZ_PLUGIN_CONFIG must be a flat TOML table with at most 64 scalar keys"@,
                ],
            )
        }),
{
    let ghost all = config.deep();
    let mut flat = config.len() <= 64;
    let mut i: usize = 0;
    while i < config.len()
        invariant
            i <= config@.len(),
            all == config.deep(),
            all.len() == config@.len(),
            flat == (all.len() <= 64 && forall|k: int|
                0 <= k < i ==> is_scalar_view((#[trigger] all[k]).1)),
        decreases config@.len() - i,
    {
        assert(all[i as int].1 == config@[i as int].1.deep_view());
        if !is_scalar(config.value(i)) {
            flat = false;
        }
        i += 1;
    }
    if flat {
        Ok(config)
    } else {
        Err(
            failure::fail("OPZ_PLUGIN_CONFIG must be a flat TOML table with at most 64 scalar keys"),
        )
    }
}

/// The configuration in a text, which may be left blank.
pub open spec fn config_text_read(raw: Seq<char>) -> Result<
    Seq<(Seq<char>, ConfigView)>,
    Seq<Seq<char>>,
> {
    if vstd::utf8::encode_utf8(raw).len() > 16384 {
        Err(seq!["OPZ_PLUGIN_CONFIG exceeds 16 KiB"@])
    } else {
        let read = if text::trimmed(raw).len() == 0 {
            Ok(Seq::empty())
        } else {
            toml_table(raw)
        };
        match read {
            Err(e) => Err(seq!["parse OPZ_PLUGIN_CONFIG"@, e]),
            Ok(config) => if is_flat(config) {
                Ok(config)
            } else {
                Err(
                    seq![
                        "OPZ_PLUGIN_CONFIG must be a flat TOML table with at most 64 scalar keys"@,
                    ],
                )
            },
        }
    }
}

/// The configuration in a text, which may be left blank.
pub fn read_config_text(raw: &str) -> (r: Result<StringMap<ConfigValue>, Failure>)
    ensures
        told_config(r) == config_text_read(raw@),
{
    if raw.as_bytes().len() > 16384 {
        return Err(failure::fail("OPZ_PLUGIN_CONFIG exceeds 16 KiB"));
    }
    if text::trim(raw).unicode_len() == 0 {
        let empty: StringMap<ConfigValue> = StringMap::new();
        assert(empty.deep() =~= Seq::<(Seq<char>, ConfigView)>::empty());
        return check_flat_config(empty);
    }
    match read_table(raw) {
        Ok(entries) => check_flat_config(StringMap::from_ordered(entries)),
        Err(e) => {
            let failure = Failure::new(e).context("parse OPZ_PLUGIN_CONFIG".to_owned());
            assert(failure@ =~= seq!["parse OPZ_PLUGIN_CONFIG"@, toml_table(raw@)->Err_0]);
            Err(failure)
        },
    }
}

/// Whether two values are the same. Numbers are the same where they stand at the same place.
pub open spec fn same_views(a: ConfigView, b: ConfigView) -> bool {
    match (a, b) {
        (ConfigView::Text(s), ConfigView::Text(t)) => s == t,
        (ConfigView::Integer(m), ConfigView::Integer(n)) => m == n,
        (ConfigView::Float(x, _), ConfigView::Float(y, _)) => double::standing(x) is Some
            && double::standing(x) == double::standing(y),
        (ConfigView::Boolean(x), ConfigView::Boolean(y)) => x == y,
        _ => false,
    }
}

/// Whether two values are the same.
pub fn same_values(a: &ConfigValue, b: &ConfigValue) -> (r: bool)
    ensures
        r == same_views(a.deep_view(), b.deep_view()),
{
    match (a, b) {
        (ConfigValue::Text(s), ConfigValue::Text(t)) => text::same(s, t),
        (ConfigValue::Integer(m), ConfigValue::Integer(n)) => *m == *n,
        (
            ConfigValue::Float { bits: x, text: _ },
            ConfigValue::Float { bits: y, text: _ },
        ) => match (double::double_standing(*x), double::double_standing(*y)) {
            (Some(p), Some(q)) => p == q,
            _ => false,
        },
        (ConfigValue::Boolean(x), ConfigValue::Boolean(y)) => *x == *y,
        _ => false,
    }
}

/// The text that is written for a scalar.
pub open spec fn scalar_text(value: ConfigView) -> Result<Seq<char>, Seq<Seq<char>>> {
    match value {
        ConfigView::Text(s) => Ok(s),
        ConfigView::Integer(n) => Ok(text::signed_decimal(n)),
        ConfigView::Float(_, text) => Ok(text),
        ConfigView::Boolean(b) => Ok(
            if b {
                "true"@
            } else {
                "false"@
            },
        ),
        ConfigView::Other => Err(seq!["plugin config value is not scalar"@]),
    }
}

/// The text that is written for a scalar.
pub fn scalar_to_string(value: &ConfigValue) -> (r: Result<String, Failure>)
    ensures
        failure::told_text(r) == scalar_text(value.deep_view()),
{
    match value {
        ConfigValue::Text(s) => Ok(s.clone()),
        ConfigValue::Integer(n) => Ok(text::to_signed_decimal(*n)),
        ConfigValue::Float { bits: _, text } => Ok(text.clone()),
        ConfigValue::Boolean(b) => if *b {
            Ok("true".to_owned())
        } else {
            Ok("false".to_owned())
        },
        ConfigValue::Other => Err(failure::fail("plugin config value is not scalar")),
    }
}

/// The types of values that a plugin can declare.
#[derive(Clone, Copy, Debug, PartialEq, Eq, Structural)]
pub enum PluginConfigType {
    Text,
    Integer,
    Number,
    Boolean,
}

/// A field that a plugin declares. Bounds are the bits of floating-point numbers.
#[derive(Debug)]
pub struct PluginConfigField {
    pub kind: PluginConfigType,
    pub required: bool,
    pub default: Option<ConfigValue>,
    pub description: Option<String>,
    pub pattern: Option<String>,
    pub allowed_values: Option<Vec<ConfigValue>>,
    pub minimum: Option<u64>,
    pub maximum: Option<u64>,
}

/// Whether a value has the type.
pub open spec fn has_type(kind: PluginConfigType, value: ConfigView) -> bool {
    match kind {
        PluginConfigType::Text => value is Text,
        PluginConfigType::Integer => value is Integer,
        PluginConfigType::Number => value is Integer || value is Float,
        PluginConfigType::Boolean => value is Boolean,
    }
}

/// Whether a value has the type.
pub fn matches_type(kind: PluginConfigType, value: &ConfigValue) -> (r: bool)
    ensures
        r == has_type(kind, value.deep_view()),
{
    match (kind, value) {
        (PluginConfigType::Text, ConfigValue::Text(_)) => true,
        (PluginConfigType::Integer, ConfigValue::Integer(_)) => true,
        (PluginConfigType::Number, ConfigValue::Integer(_)) => true,
        (PluginConfigType::Number, ConfigValue::Float { bits: _, text: _ }) => true,
        (PluginConfigType::Boolean, ConfigValue::Boolean(_)) => true,
        _ => false,
    }
}

/// Whether a value is among those that are allowed.
pub open spec fn is_allowed(allowed: Seq<ConfigValue>, value: ConfigView) -> bool {
    exists|i: int| 0 <= i < allowed.len() && same_views((#[trigger] allowed[i]).deep_view(), value)
}

/// Whether a value is among those that are allowed.
fn allows(allowed: &Vec<ConfigValue>, value: &ConfigValue) -> (r: bool)
    ensures
        r == is_allowed(allowed@, value.deep_view()),
{
    let mut i: usize = 0;
    while i < allowed.len()
        invariant
            i <= allowed@.len(),
            forall|k: int|
                0 <= k < i ==> !same_views(
                    (#[trigger] allowed@[k]).deep_view(),
                    value.deep_view(),
                ),
        decreases allowed@.len() - i,
    {
        if same_values(&allowed[i], value) {
            assert(same_views(allowed@[i as int].deep_view(), value.deep_view()));
            return true;
        }
        i += 1;
    }
    false
}

/// Where a value stands in the order of the numbers, if it is one.
pub open spec fn number_place(value: ConfigView) -> Option<int> {
    match value {
        ConfigView::Integer(n) => Some(double::integer_place(n)),
        ConfigView::Float(bits, _) => double::standing(bits),
        _ => None,
    }
}

/// Where a value stands in the order of the numbers, if it is one.
fn find_number(value: &ConfigValue) -> (r: Option<i128>)
    ensures
        match r {
            Some(p) => number_place(value.deep_view()) == Some(p as int),
            None => number_place(value.deep_view()) is None,
        },
{
    match value {
        ConfigValue::Integer(n) => Some(double::integer_standing(*n)),
        ConfigValue::Float { bits, text: _ } => double::double_standing(*bits),
        _ => None,
    }
}

/// Whether a number is below another. Nothing is below, or above, what is no number.
pub open spec fn is_below(a: Option<int>, b: Option<int>) -> bool {
    a is Some && b is Some && a->0 < b->0
}

/// The place of a bound.
pub open spec fn bound_place(bound: Option<u64>) -> Option<int> {
    match bound {
        Some(bits) => double::standing(bits),
        None => None,
    }
}

/// The place of a bound.
fn find_bound(bound: Option<u64>) -> (r: Option<i128>)
    ensures
        match r {
            Some(p) => bound_place(bound) == Some(p as int),
            None => bound_place(bound) is None,
        },
{
    match bound {
        Some(bits) => double::double_standing(bits),
        None => None,
    }
}

/// A failure that speaks of a key.
pub open spec fn config_failure(start: Seq<char>, key: Seq<char>, end: Seq<char>) -> Result<
    (),
    Seq<Seq<char>>,
> {
    Err(seq![start + key + end])
}

/// A failure that speaks of a key.
fn fail_config(start: &str, key: &str, end: &str) -> (r: Failure)
    ensures
        Err::<(), Seq<Seq<char>>>(r@) == config_failure(start@, key@, end@),
{
    Failure::new(start.to_owned().concat(key).concat(end))
}

/// Whether a value fits a pattern.
pub open spec fn pattern_check(key: Seq<char>, own: Option<String>, value: ConfigView) -> Result<
    (),
    Seq<Seq<char>>,
> {
    match own {
        None => Ok(()),
        Some(p) => match value {
            ConfigView::Text(s) => match pattern::regex_refusal(p@) {
                Some(e) => Err(seq!["invalid regex for config."@ + key, e]),
                None => if pattern::regex_match(p@, s) {
                    Ok(())
                } else {
                    config_failure("config."@, key, " does not match its pattern"@)
                },
            },
            _ => config_failure("config."@, key, " pattern requires a string value"@),
        },
    }
}

/// Whether a value fits a pattern.
fn check_pattern(key: &str, own: &Option<String>, value: &ConfigValue) -> (r: Result<(), Failure>)
    ensures
        failure::told_unit(r) == pattern_check(key@, *own, value.deep_view()),
{
    match own {
        None => Ok(()),
        Some(p) => match value {
            ConfigValue::Text(s) => match pattern::compile(p) {
                Err(e) => {
                    let failure = Failure::new(e).context(
                        "invalid regex for config.".to_owned().concat(key),
                    );
                    assert(failure@ =~= seq![
                        "invalid regex for config."@ + key@,
                        pattern::regex_refusal(p@)->0,
                    ]);
                    Err(failure)
                },
                Ok(re) => if pattern::is_match(&re, s) {
                    Ok(())
                } else {
                    Err(fail_config("config.", key, " does not match its pattern"))
                },
            },
            _ => Err(fail_config("config.", key, " pattern requires a string value")),
        },
    }
}

/// Whether a value is one that the field takes.
pub open spec fn value_check(key: Seq<char>, field: PluginConfigField, value: ConfigView) -> Result<
    (),
    Seq<Seq<char>>,
> {
    if !has_type(field.kind, value) {
        config_failure("config."@, key, " has the wrong scalar type"@)
    } else if field.allowed_values is Some && !is_allowed(field.allowed_values->0@, value) {
        config_failure("config."@, key, " is not an allowed value"@)
    } else if pattern_check(key, field.pattern, value) is Err {
        pattern_check(key, field.pattern, value)
    } else if is_below(number_place(value), bound_place(field.minimum)) {
        config_failure("config."@, key, " is below its minimum"@)
    } else if is_below(bound_place(field.maximum), number_place(value)) {
        config_failure("config."@, key, " is above its maximum"@)
    } else {
        Ok(())
    }
}

/// Whether a value is one that the field takes.
pub fn validate_config_value(key: &str, field: &PluginConfigField, value: &ConfigValue) -> (r: Result<
    (),
    Failure,
>)
    ensures
        failure::told_unit(r) == value_check(key@, *field, value.deep_view()),
{
    if !matches_type(field.kind, value) {
        return Err(fail_config("config.", key, " has the wrong scalar type"));
    }
    if let Some(allowed) = &field.allowed_values {
        if !allows(allowed, value) {
            return Err(fail_config("config.", key, " is not an allowed value"));
        }
    }
    if let Err(e) = check_pattern(key, &field.pattern, value) {
        return Err(e);
    }
    let number = find_number(value);
    if let (Some(minimum), Some(n)) = (find_bound(field.minimum), number) {
        if n < minimum {
            return Err(fail_config("config.", key, " is below its minimum"));
        }
    }
    if let (Some(maximum), Some(n)) = (find_bound(field.maximum), number) {
        if n > maximum {
            return Err(fail_config("config.", key, " is above its maximum"));
        }
    }
    Ok(())
}

/// The check of a declared field: its key, whether it has a default where it should, and that its
/// default is what it takes and what the defaults say.
pub open spec fn field_check(defaults: Seq<(Seq<char>, ConfigView)>) -> spec_fn(
    (Seq<char>, PluginConfigField),
) -> Result<(), Seq<Seq<char>>> {
    |entry: (Seq<char>, PluginConfigField)|
        {
            let key = entry.0;
            let field = entry.1;
            if !pattern::is_config_key(key) {
                config_failure("invalid plugin config key `"@, key, "`"@)
            } else if field.required && field.default is Some {
                config_failure("required config."@, key, " may not declare a default"@)
            } else if !field.required && field.default is None {
                config_failure("optional config."@, key, " must declare a default"@)
            } else if field.default is Some && value_check(key, field, field.default->0.deep_view()) is Err {
                value_check(key, field, field.default->0.deep_view())
            } else if !same_options(crate::map::lookup(defaults, key), field.default) {
                Err(
                    seq![
                        "defaults."@ + key + " must exactly match config."@ + key + ".default"@,
                    ],
                )
            } else {
                Ok(())
            }
        }
}

/// Whether two values are the same, or neither is there.
pub open spec fn same_options(a: Option<ConfigView>, b: Option<ConfigValue>) -> bool {
    match (a, b) {
        (None, None) => true,
        (Some(x), Some(y)) => same_views(x, y.deep_view()),
        _ => false,
    }
}

/// The check that a default belongs to a declared field.
pub open spec fn default_check(fields: Seq<(Seq<char>, PluginConfigField)>) -> spec_fn(
    (Seq<char>, ConfigView),
) -> Result<(), Seq<Seq<char>>> {
    |entry: (Seq<char>, ConfigView)|
        if crate::map::has_key(fields, entry.0) {
            Ok(())
        } else {
            config_failure("defaults."@, entry.0, " is not declared in config"@)
        }
}

/// The check of all that a plugin declares of its configuration.
pub open spec fn contract_check(
    fields: Seq<(Seq<char>, PluginConfigField)>,
    defaults: Seq<(Seq<char>, ConfigView)>,
) -> Result<(), Seq<Seq<char>>> {
    seqs::both(
        seqs::each(fields, field_check(defaults)),
        seqs::each(defaults, default_check(fields)),
    )
}

/// Checks a declared field.
fn check_field(key: &str, field: &PluginConfigField, defaults: &StringMap<ConfigValue>) -> (r: Result<
    (),
    Failure,
>)
    ensures
        failure::told_unit(r) == field_check(defaults.deep())((key@, *field)),
{
    if !pattern::matches_config_key(key) {
        return Err(fail_config("invalid plugin config key `", key, "`"));
    }
    match &field.default {
        Some(value) => {
            if field.required {
                return Err(fail_config("required config.", key, " may not declare a default"));
            }
            if let Err(e) = validate_config_value(key, field, value) {
                return Err(e);
            }
        },
        None => {
            if !field.required {
                return Err(fail_config("optional config.", key, " must declare a default"));
            }
        },
    }
    let same = match (defaults.get_deep(key), &field.default) {
        (None, None) => true,
        (Some(x), Some(y)) => same_values(x, y),
        _ => false,
    };
    if !same {
        return Err(
            Failure::new(
                "defaults.".to_owned().concat(key).concat(" must exactly match config.").concat(
                    key,
                ).concat(".default"),
            ),
        );
    }
    Ok(())
}

/// Checks all that a plugin declares of its configuration.
pub fn validate_config_contract(
    fields: &StringMap<PluginConfigField>,
    defaults: &StringMap<ConfigValue>,
) -> (r: Result<(), Failure>)
    ensures
        failure::told_unit(r) == contract_check(fields@, defaults.deep()),
{
    let ghost f = field_check(defaults.deep());
    let ghost g = default_check(fields@);
    let ghost given = defaults.deep();
    let mut i: usize = 0;
    assert(fields@.take(0) =~= Seq::<(Seq<char>, PluginConfigField)>::empty());
    while i < fields.len()
        invariant
            i <= fields@.len(),
            f == field_check(defaults.deep()),
            seqs::each(fields@.take(i as int), f) is Ok,
        decreases fields@.len() - i,
    {
        proof {
            seqs::lemma_each(fields@, f, i as int);
            assert(fields@[i as int] == (fields@[i as int].0, fields@[i as int].1));
        }
        if let Err(e) = check_field(fields.key(i), fields.value(i), defaults) {
            return Err(e);
        }
        i += 1;
    }
    let mut j: usize = 0;
    assert(given.take(0) =~= Seq::<(Seq<char>, ConfigView)>::empty());
    while j < defaults.len()
        invariant
            j <= defaults@.len(),
            given == defaults.deep(),
            given.len() == defaults@.len(),
            g == default_check(fields@),
            f == field_check(given),
            seqs::each(fields@, f) is Ok,
            seqs::each(given.take(j as int), g) is Ok,
        decreases defaults@.len() - j,
    {
        proof {
            seqs::lemma_each(given, g, j as int);
            assert(given[j as int].0 == defaults@[j as int].0);
        }
        let key = defaults.key(j);
        if !fields.contains_key(key) {
            return Err(fail_config("defaults.", key, " is not declared in config"));
        }
        j += 1;
    }
    Ok(())
}

/// The entries of one map taken into another.
pub open spec fn extended<V>(s: Seq<(Seq<char>, V)>, more: Seq<(Seq<char>, V)>) -> Seq<
    (Seq<char>, V),
>
    decreases more.len(),
{
    if more.len() == 0 {
        s
    } else {
        crate::map::inserted(extended(s, more.drop_last()), more.last().0, more.last().1)
    }
}

/// The check that a key belongs to a declared field.
pub open spec fn override_check(fields: Seq<(Seq<char>, PluginConfigField)>) -> spec_fn(
    (Seq<char>, ConfigView),
) -> Result<(), Seq<Seq<char>>> {
    |entry: (Seq<char>, ConfigView)|
        if crate::map::has_key(fields, entry.0) {
            Ok(())
        } else {
            config_failure("unknown plugin config key `"@, entry.0, "`"@)
        }
}

/// The check that a field has a value where it needs one, and one that it takes.
pub open spec fn set_check(config: Seq<(Seq<char>, ConfigView)>) -> spec_fn(
    (Seq<char>, PluginConfigField),
) -> Result<(), Seq<Seq<char>>> {
    |entry: (Seq<char>, PluginConfigField)|
        match crate::map::lookup(config, entry.0) {
            None => if entry.1.required {
                config_failure("missing required plugin config key `"@, entry.0, "`"@)
            } else {
                Ok(())
            },
            Some(value) => value_check(entry.0, entry.1, value),
        }
}

/// The configuration that a plugin runs with: the defaults, with what the item sets.
pub open spec fn runtime_config(
    fields: Seq<(Seq<char>, PluginConfigField)>,
    defaults: Seq<(Seq<char>, ConfigView)>,
    overrides: Seq<(Seq<char>, ConfigView)>,
) -> Result<Seq<(Seq<char>, ConfigView)>, Seq<Seq<char>>> {
    let config = extended(defaults, overrides);
    match seqs::both(
        seqs::each(overrides, override_check(fields)),
        seqs::each(fields, set_check(config)),
    ) {
        Ok(_) => Ok(config),
        Err(e) => Err(e),
    }
}

/// A copy of a configuration.
fn copy_config(config: &StringMap<ConfigValue>) -> (r: StringMap<ConfigValue>)
    ensures
        r.deep() == config.deep(),
{
    let mut entries: Vec<(String, ConfigValue)> = Vec::new();
    let mut i: usize = 0;
    while i < config.len()
        invariant
            i <= config@.len(),
            entries@.len() == i,
            forall|k: int|
                0 <= k < i ==> (#[trigger] entries@[k]).0@ == config@[k].0
                    && entries@[k].1.deep_view() == config@[k].1.deep_view(),
        decreases config@.len() - i,
    {
        entries.push((config.key(i).clone(), copy_value(config.value(i))));
        i += 1;
    }
    let r = StringMap::from_entries(entries, config);
    assert(r.deep() =~= config.deep());
    r
}

/// The defaults, with what the item sets.
fn merge_config(defaults: &StringMap<ConfigValue>, overrides: &StringMap<ConfigValue>) -> (r:
    StringMap<ConfigValue>)
    ensures
        r.deep() == extended(defaults.deep(), overrides.deep()),
{
    let ghost all = overrides.deep();
    let mut config = copy_config(defaults);
    let mut i: usize = 0;
    while i < overrides.len()
        invariant
            i <= overrides@.len(),
            all == overrides.deep(),
            all.len() == overrides@.len(),
            config.deep() == extended(defaults.deep(), all.take(i as int)),
        decreases overrides@.len() - i,
    {
        proof {
            assert(all.take(i + 1).drop_last() == all.take(i as int));
            assert(all.take(i + 1).last() == all[i as int]);
            assert(all[i as int].0 == overrides@[i as int].0);
            assert(all[i as int].1 == overrides@[i as int].1.deep_view());
        }
        config.insert_deep(overrides.key(i).clone(), copy_value(overrides.value(i)));
        i += 1;
    }
    config
}

/// The configuration that a plugin runs with.
pub fn build_runtime_config(
    fields: &StringMap<PluginConfigField>,
    defaults: &StringMap<ConfigValue>,
    overrides: &StringMap<ConfigValue>,
) -> (r: Result<StringMap<ConfigValue>, Failure>)
    ensures
        told_config(r) == runtime_config(fields@, defaults.deep(), overrides.deep()),
{
    let ghost given = overrides.deep();
    let ghost g = override_check(fields@);
    let mut i: usize = 0;
    assert(given.take(0) =~= Seq::<(Seq<char>, ConfigView)>::empty());
    while i < overrides.len()
        invariant
            i <= overrides@.len(),
            given == overrides.deep(),
            given.len() == overrides@.len(),
            g == override_check(fields@),
            seqs::each(given.take(i as int), g) is Ok,
        decreases overrides@.len() - i,
    {
        proof {
            seqs::lemma_each(given, g, i as int);
            assert(given[i as int].0 == overrides@[i as int].0);
        }
        let key = overrides.key(i);
        if !fields.contains_key(key) {
            return Err(fail_config("unknown plugin config key `", key, "`"));
        }
        i += 1;
    }
    let config = merge_config(defaults, overrides);
    let ghost f = set_check(config.deep());
    let mut j: usize = 0;
    assert(fields@.take(0) =~= Seq::<(Seq<char>, PluginConfigField)>::empty());
    while j < fields.len()
        invariant
            j <= fields@.len(),
            given == overrides.deep(),
            g == override_check(fields@),
            seqs::each(given, g) is Ok,
            f == set_check(config.deep()),
            config.deep() == extended(defaults.deep(), overrides.deep()),
            seqs::each(fields@.take(j as int), f) is Ok,
        decreases fields@.len() - j,
    {
        proof {
            seqs::lemma_each(fields@, f, j as int);
        }
        let key = fields.key(j);
        let field = fields.value(j);
        match config.get_deep(key) {
            None => {
                if field.required {
                    return Err(fail_config("missing required plugin config key `", key, "`"));
                }
            },
            Some(value) => {
                if let Err(e) = validate_config_value(key, field, value) {
                    return Err(e);
                }
            },
        }
        j += 1;
    }
    Ok(config)
}

/// What an item sets for a key counts, and the default counts for a key that it does not set.
pub proof fn law_overrides_win(
    defaults: Seq<(Seq<char>, ConfigView)>,
    overrides: Seq<(Seq<char>, ConfigView)>,
    key: Seq<char>,
)
    requires
        crate::map::ordered(defaults),
        crate::map::ordered(overrides),
    ensures
        crate::map::ordered(extended(defaults, overrides)),
        crate::map::lookup(extended(defaults, overrides), key) == (match crate::map::lookup(
            overrides,
            key,
        ) {
            Some(value) => Some(value),
            None => crate::map::lookup(defaults, key),
        }),
    decreases overrides.len(),
{
    if overrides.len() > 0 {
        let front = overrides.drop_last();
        let last = overrides.last();
        let n = front.len() as int;
        assert forall|i: int, j: int| 0 <= i < j < front.len() implies text::before(
            #[trigger] front[i].0,
            #[trigger] front[j].0,
        ) by {
            assert(front[i] == overrides[i] && front[j] == overrides[j]);
        }
        law_overrides_win(defaults, front, key);
        let before = extended(defaults, front);
        crate::map::lemma_inserted_ordered(before, last.0, last.1);
        crate::map::lemma_inserted_lookup(before, last.0, last.1, key);
        crate::map::lemma_key_index(overrides, n);
        if key != last.0 {
            if crate::map::has_key(overrides, key) {
                let i = crate::map::key_index(overrides, key);
                assert(front[i].0 == key);
                crate::map::lemma_key_index(front, i);
                crate::map::lemma_key_index(overrides, i);
            } else if crate::map::has_key(front, key) {
                let i = crate::map::key_index(front, key);
                assert(overrides[i].0 == key);
            }
        }
    }
}

} // verus!
