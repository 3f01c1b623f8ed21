//! Validation rules that a configuration value can carry, and the errors
//! that a failed rule reports.
use vstd::prelude::*;

use crate::json::JsonValue;
use crate::text::{i64_text, int_text, usize_text};

verus! {

/// A rule that a configuration value must satisfy.
#[derive(Debug, Clone, PartialEq, Eq)]
pub enum ValidationRule {
    MinValue(i64),
    MaxValue(i64),
    MinLength(usize),
    MaxLength(usize),
    Pattern(String),
    Required,
    Custom(String),
}

/// Why a value was rejected.
#[derive(Debug, Clone, PartialEq, Eq)]
pub enum ValidationError {
    Required(String),
    /// A value that the `Required` rule demands is `null`.
    ValueRequired,
    /// An entry that is required has no value and no default.
    RequiredMissing,
    MinValue(i64, i64),
    MaxValue(i64, i64),
    MinLength(usize, usize),
    MaxLength(usize, usize),
    PatternMismatch(String, String),
    InvalidPattern(String),
    TypeMismatch(String),
}

/// The mathematical form of a `ValidationError`: texts are taken as
/// sequences of characters.
pub enum ValidationErrorView {
    Required(Seq<char>),
    ValueRequired,
    RequiredMissing,
    MinValue(i64, i64),
    MaxValue(i64, i64),
    MinLength(usize, usize),
    MaxLength(usize, usize),
    PatternMismatch(Seq<char>, Seq<char>),
    InvalidPattern(Seq<char>),
    TypeMismatch(Seq<char>),
}

impl View for ValidationError {
    type V = ValidationErrorView;

    open spec fn view(&self) -> ValidationErrorView {
        match self {
            ValidationError::Required(s) => ValidationErrorView::Required(s@),
            ValidationError::ValueRequired => ValidationErrorView::ValueRequired,
            ValidationError::RequiredMissing => ValidationErrorView::RequiredMissing,
            ValidationError::MinValue(a, b) => ValidationErrorView::MinValue(*a, *b),
            ValidationError::MaxValue(a, b) => ValidationErrorView::MaxValue(*a, *b),
            ValidationError::MinLength(a, b) => ValidationErrorView::MinLength(*a, *b),
            ValidationError::MaxLength(a, b) => ValidationErrorView::MaxLength(*a, *b),
            ValidationError::PatternMismatch(p, t) => ValidationErrorView::PatternMismatch(p@, t@),
            ValidationError::InvalidPattern(m) => ValidationErrorView::InvalidPattern(m@),
            ValidationError::TypeMismatch(m) => ValidationErrorView::TypeMismatch(m@),
        }
    }
}

/// What `regex::Regex::new` reports for a pattern: `None` where the
/// pattern compiles, else the text of the error it returns.
pub uninterp spec fn regex_compile_error(pattern: Seq<char>) -> Option<Seq<char>>;

/// What `regex::Regex::is_match` answers for the regex compiled from
/// `pattern` on `haystack`: whether the regex matches anywhere in it.
pub uninterp spec fn regex_finds_match(pattern: Seq<char>, haystack: Seq<char>) -> bool;

#[verifier::external_type_specification]
#[verifier::external_body]
pub struct ExRegex(regex::Regex);

/// A regex together with the pattern it was compiled from. Only
/// `CompiledPattern::compile` builds one, so `source` is always the pattern
/// that `regex` came from.
struct CompiledPattern {
    regex: regex::Regex,
    source: String,
}

impl CompiledPattern {
    /// Calls `regex::Regex::new`. Trusted: the result is `Ok` exactly when
    /// the crate compiles the pattern, and an error carries the text of the
    /// crate's error (`Display` of `regex::Error`). The compiled regex keeps
    /// the pattern it came from.
    #[verifier::external_body]
    fn compile(pattern: String) -> (r: Result<CompiledPattern, String>)
        ensures
            match r {
                Ok(c) => regex_compile_error(pattern@) is None && c.source@ == pattern@,
                Err(msg) => regex_compile_error(pattern@) == Some(msg@),
            },
    {
        match regex::Regex::new(&pattern) {
            Ok(regex) => Ok(CompiledPattern { regex, source: pattern }),
            Err(e) => Err(e.to_string()),
        }
    }

    /// Calls `regex::Regex::is_match`. Trusted: the answer is the crate's
    /// answer for the regex compiled from `source` on `text`.
    #[verifier::external_body]
    fn is_match(&self, text: &str) -> (b: bool)
        ensures
            b == regex_finds_match(self.source@, text@),
    {
        self.regex.is_match(text)
    }
}

/// The length of a text in bytes of its UTF-8 encoding, as `str::len`
/// counts it.
pub open spec fn byte_len(text: Seq<char>) -> usize {
    vstd::utf8::encode_utf8(text).len() as usize
}

/// The text a JSON value holds, where it is a string.
pub open spec fn text_of(value: JsonValue) -> Option<Seq<char>> {
    match value {
        JsonValue::String(s) => Some(s@),
        _ => None,
    }
}

/// What applying `rule` to `value` reports: `None` where the value passes,
/// else the error. A rule on numbers passes every value that is not an
/// `i64` number, a rule on texts passes every value that is not a string,
/// and a custom rule passes every value.
pub open spec fn rule_outcome(rule: ValidationRule, value: JsonValue) -> Option<ValidationErrorView> {
    match rule {
        ValidationRule::MinValue(min) => match value.spec_as_i64() {
            Some(n) => if n < min { Some(ValidationErrorView::MinValue(min, n)) } else { None },
            None => None,
        },
        ValidationRule::MaxValue(max) => match value.spec_as_i64() {
            Some(n) => if n > max { Some(ValidationErrorView::MaxValue(max, n)) } else { None },
            None => None,
        },
        ValidationRule::MinLength(min) => match text_of(value) {
            Some(t) => if byte_len(t) < min {
                Some(ValidationErrorView::MinLength(min, byte_len(t)))
            } else {
                None
            },
            None => None,
        },
        ValidationRule::MaxLength(max) => match text_of(value) {
            Some(t) => if byte_len(t) > max {
                Some(ValidationErrorView::MaxLength(max, byte_len(t)))
            } else {
                None
            },
            None => None,
        },
        ValidationRule::Pattern(p) => match text_of(value) {
            Some(t) => match regex_compile_error(p@) {
                Some(msg) => Some(ValidationErrorView::InvalidPattern(msg)),
                None => if regex_finds_match(p@, t) {
                    None
                } else {
                    Some(ValidationErrorView::PatternMismatch(p@, t))
                },
            },
            None => None,
        },
        ValidationRule::Required => if value is Null {
            Some(ValidationErrorView::ValueRequired)
        } else {
            None
        },
        ValidationRule::Custom(_) => None,
    }
}

impl ValidationRule {
    /// Checks `value` against the rule.
    pub fn apply(&self, value: &JsonValue) -> (r: Result<(), ValidationError>)
        ensures
            match r {
                Ok(()) => rule_outcome(*self, *value) is None,
                Err(e) => rule_outcome(*self, *value) == Some(e@),
            },
    {
        match self {
            ValidationRule::MinValue(min) => {
                if let Some(num) = value.as_i64() {
                    if num < *min {
                        return Err(ValidationError::MinValue(*min, num));
                    }
                }
            },
            ValidationRule::MaxValue(max) => {
                if let Some(num) = value.as_i64() {
                    if num > *max {
                        return Err(ValidationError::MaxValue(*max, num));
                    }
                }
            },
            ValidationRule::MinLength(min) => {
                if let Some(text) = value.as_str() {
                    if text.len() < *min {
                        return Err(ValidationError::MinLength(*min, text.len()));
                    }
                }
            },
            ValidationRule::MaxLength(max) => {
                if let Some(text) = value.as_str() {
                    if text.len() > *max {
                        return Err(ValidationError::MaxLength(*max, text.len()));
                    }
                }
            },
            ValidationRule::Pattern(pattern) => {
                if let Some(text) = value.as_str() {
                    match CompiledPattern::compile(pattern.clone()) {
                        Ok(re) => {
                            if !re.is_match(text) {
                                return Err(
                                    ValidationError::PatternMismatch(pattern.clone(), text.to_string()),
                                );
                            }
                        },
                        Err(msg) => {
                            return Err(ValidationError::InvalidPattern(msg));
                        },
                    }
                }
            },
            ValidationRule::Required => {
                if value.is_null() {
                    return Err(ValidationError::ValueRequired);
                }
            },
            ValidationRule::Custom(_) => {},
        }
        Ok(())
    }
}

/// The message that reports an error.
pub open spec fn validation_message(e: ValidationErrorView) -> Seq<char> {
    match e {
        ValidationErrorView::Required(s) => "Required value missing: "@ + s,
        ValidationErrorView::ValueRequired => "Value is required"@,
        ValidationErrorView::RequiredMissing => "Required configuration value is missing"@,
        ValidationErrorView::MinValue(a, b) => "Expected value >= "@ + int_text(a as int) + ", got "@ + int_text(b as int),
        ValidationErrorView::MaxValue(a, b) => "Expected value <= "@ + int_text(a as int) + ", got "@ + int_text(b as int),
        ValidationErrorView::MinLength(a, b) => "Expected length >= "@ + int_text(a as int) + ", got "@ + int_text(b as int),
        ValidationErrorView::MaxLength(a, b) => "Expected length <= "@ + int_text(a as int) + ", got "@ + int_text(b as int),
        ValidationErrorView::PatternMismatch(p, t) => "Pattern mismatch: expected "@ + p + ", got "@ + t,
        ValidationErrorView::InvalidPattern(m) => "Invalid pattern: "@ + m,
        ValidationErrorView::TypeMismatch(m) => "Type mismatch: "@ + m,
    }
}

/// `prefix`, then `a`, then `middle`, then `b`.
fn joined(prefix: &str, a: &str, middle: &str, b: &str) -> (r: String)
    ensures
        r@ == prefix@ + a@ + middle@ + b@,
{
    let mut r = prefix.to_string();
    r.append(a);
    r.append(middle);
    r.append(b);
    r
}

impl ValidationError {
    /// The message that reports the error: see `validation_message`.
    pub fn message(&self) -> (r: String)
        ensures
            r@ == validation_message(self@),
    {
        match self {
            ValidationError::Required(s) => {
                let mut r = "Required value missing: ".to_string();
                r.append(s.as_str());
                r
            },
            ValidationError::ValueRequired => "Value is required".to_string(),
            ValidationError::RequiredMissing => "Required configuration value is missing".to_string(),
            ValidationError::MinValue(a, b) => joined(
                "Expected value >= ", i64_text(*a).as_str(), ", got ", i64_text(*b).as_str()),
            ValidationError::MaxValue(a, b) => joined(
                "Expected value <= ", i64_text(*a).as_str(), ", got ", i64_text(*b).as_str()),
            ValidationError::MinLength(a, b) => joined(
                "Expected length >= ", usize_text(*a).as_str(), ", got ", usize_text(*b).as_str()),
            ValidationError::MaxLength(a, b) => joined(
                "Expected length <= ", usize_text(*a).as_str(), ", got ", usize_text(*b).as_str()),
            ValidationError::PatternMismatch(p, t) => joined(
                "Pattern mismatch: expected ", p.as_str(), ", got ", t.as_str()),
            ValidationError::InvalidPattern(m) => {
                let mut r = "Invalid pattern: ".to_string();
                r.append(m.as_str());
                r
            },
            ValidationError::TypeMismatch(m) => {
                let mut r = "Type mismatch: ".to_string();
                r.append(m.as_str());
                r
            },
        }
    }
}

} // verus!
