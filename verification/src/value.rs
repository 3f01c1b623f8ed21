//! A configuration value: a JSON value with its declared type, whether it
//! is required, and the rules it must satisfy.
use vstd::prelude::*;

use crate::json::{DataType, JsonValue};
use crate::rules::{rule_outcome, ValidationError, ValidationErrorView, ValidationRule};

verus! {

/// One configuration entry.
#[derive(Debug)]
pub struct ConfigValue {
    pub value: JsonValue,
    pub data_type: DataType,
    pub required: bool,
    pub validation_rules: Vec<ValidationRule>,
    pub description: String,
    pub default_value: Option<JsonValue>,
    pub env_override: Option<String>,
    pub depends_on: Option<String>,
}

/// The mathematical form of a `ConfigValue`.
pub struct ConfigValueView {
    pub value: JsonValue,
    pub data_type: DataType,
    pub required: bool,
    pub validation_rules: Seq<ValidationRule>,
    pub description: Seq<char>,
    pub default_value: Option<JsonValue>,
    pub env_override: Option<Seq<char>>,
    pub depends_on: Option<Seq<char>>,
}

pub open spec fn text_view(s: Option<String>) -> Option<Seq<char>> {
    match s {
        Some(t) => Some(t@),
        None => None,
    }
}

impl View for ConfigValue {
    type V = ConfigValueView;

    open spec fn view(&self) -> ConfigValueView {
        ConfigValueView {
            value: self.value,
            data_type: self.data_type,
            required: self.required,
            validation_rules: self.validation_rules@,
            description: self.description@,
            default_value: self.default_value,
            env_override: text_view(self.env_override),
            depends_on: text_view(self.depends_on),
        }
    }
}

/// A fresh entry: the given value, type and requiredness, no rules, an
/// empty description and none of the optional settings.
pub open spec fn fresh_config(value: JsonValue, data_type: DataType, required: bool) -> ConfigValueView {
    ConfigValueView {
        value,
        data_type,
        required,
        validation_rules: Seq::empty(),
        description: Seq::empty(),
        default_value: None,
        env_override: None,
        depends_on: None,
    }
}

/// The first error that the rules from index `i` on report for `value`,
/// taking the rules in order.
pub open spec fn first_rule_failure(rules: Seq<ValidationRule>, value: JsonValue, i: int) -> Option<ValidationErrorView>
    decreases rules.len() - i,
{
    if i < 0 || i >= rules.len() {
        None
    } else {
        match rule_outcome(rules[i], value) {
            Some(e) => Some(e),
            None => first_rule_failure(rules, value, i + 1),
        }
    }
}

/// What validating an entry reports: a required entry whose value is
/// `null` is accepted where it has a default value and rejected otherwise;
/// every other entry is checked against its rules in order, and the first
/// failing rule decides.
pub open spec fn validation_outcome(cv: ConfigValueView) -> Option<ValidationErrorView> {
    if cv.required && cv.value is Null {
        if cv.default_value is Some {
            None
        } else {
            Some(ValidationErrorView::RequiredMissing)
        }
    } else {
        first_rule_failure(cv.validation_rules, cv.value, 0)
    }
}

impl ConfigValue {
    pub fn new(value: JsonValue, data_type: DataType, required: bool) -> (cv: ConfigValue)
        ensures
            cv@ == fresh_config(value, data_type, required),
    {
        ConfigValue {
            value,
            data_type,
            required,
            validation_rules: Vec::new(),
            description: String::new(),
            default_value: None,
            env_override: None,
            depends_on: None,
        }
    }

    /// Checks the entry: see `validation_outcome`.
    pub fn validate(&self) -> (r: Result<(), ValidationError>)
        ensures
            match r {
                Ok(()) => validation_outcome(self@) is None,
                Err(e) => validation_outcome(self@) == Some(e@),
            },
    {
        if self.required && self.value.is_null() {
            if self.default_value.is_some() {
                return Ok(());
            }
            return Err(ValidationError::RequiredMissing);
        }
        let n = self.validation_rules.len();
        let mut i: usize = 0;
        while i < n
            invariant
                n == self.validation_rules@.len(),
                i <= n,
                !(self.required && self.value is Null),
                first_rule_failure(self.validation_rules@, self.value, 0)
                    == first_rule_failure(self.validation_rules@, self.value, i as int),
            decreases n - i,
        {
            match self.validation_rules[i].apply(&self.value) {
                Ok(()) => {},
                Err(e) => {
                    return Err(e);
                },
            }
            i = i + 1;
        }
        Ok(())
    }
}

} // verus!
