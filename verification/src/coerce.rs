//! Scalar coercion: turn a raw string value into the most specific
//! scalar it matches, by ordered trial — boolean literal, unsigned
//! 64-bit integer, signed 64-bit integer, finite 64-bit float, else
//! plain text. Coercion is total: every string yields a value.
//!
//! The library itself holds no floating-point values: whether a string
//! parses as a finite 64-bit float is decided by the caller and handed
//! in as a flag, and a float is carried as its original text.

use vstd::prelude::*;
use crate::kv::KvMap;
use crate::numbers::{i64_val, parse_i64, parse_u64, parses_as_i64, parses_as_u64, u64_val};
use crate::text::str_eq;

verus! {

/// A coerced scalar configuration value.
#[derive(Debug, Clone, PartialEq, Eq)]
pub enum ConfigValue {
    /// The literal `true` or `false`.
    Boolean(bool),
    /// A value that parses as an unsigned 64-bit integer.
    Unsigned(u64),
    /// A value that parses as a signed (negative) 64-bit integer.
    Signed(i64),
    /// The original text of a value that parses as a finite 64-bit
    /// float; the numeric parse is left to the caller.
    FloatText(String),
    /// Any other value, kept as the original text.
    Text(String),
}

/// The mathematical shape of a coerced scalar.
pub enum ScalarModel {
    Boolean(bool),
    Unsigned(u64),
    Signed(i64),
    FloatText(Seq<char>),
    Text(Seq<char>),
}

impl View for ConfigValue {
    type V = ScalarModel;

    open spec fn view(&self) -> ScalarModel {
        match self {
            ConfigValue::Boolean(b) => ScalarModel::Boolean(*b),
            ConfigValue::Unsigned(v) => ScalarModel::Unsigned(*v),
            ConfigValue::Signed(v) => ScalarModel::Signed(*v),
            ConfigValue::FloatText(s) => ScalarModel::FloatText(s@),
            ConfigValue::Text(s) => ScalarModel::Text(s@),
        }
    }
}

/// The coerced value of the raw string `s`, by ordered trial-parsing.
/// `finite_float` says whether `s` parses as a finite 64-bit float,
/// which the library does not decide itself.
pub open spec fn spec_coerce(s: Seq<char>, finite_float: bool) -> ScalarModel {
    if s == "true"@ {
        ScalarModel::Boolean(true)
    } else if s == "false"@ {
        ScalarModel::Boolean(false)
    } else if parses_as_u64(s) {
        ScalarModel::Unsigned(u64_val(s) as u64)
    } else if parses_as_i64(s) {
        ScalarModel::Signed(i64_val(s) as i64)
    } else if finite_float {
        ScalarModel::FloatText(s)
    } else {
        ScalarModel::Text(s)
    }
}

/// Coerce one raw string. Total and deterministic: the result is a
/// function of `raw` and `finite_float` alone, and every input yields
/// a value.
pub fn coerce_scalar(raw: &str, finite_float: bool) -> (r: ConfigValue)
    ensures
        r@ == spec_coerce(raw@, finite_float),
{
    if str_eq(raw, "true") {
        ConfigValue::Boolean(true)
    } else if str_eq(raw, "false") {
        ConfigValue::Boolean(false)
    } else if let Some(v) = parse_u64(raw) {
        ConfigValue::Unsigned(v)
    } else if let Some(v) = parse_i64(raw) {
        ConfigValue::Signed(v)
    } else if finite_float {
        ConfigValue::FloatText(String::from_str(raw))
    } else {
        ConfigValue::Text(String::from_str(raw))
    }
}

/// Coercion is deterministic: two results that coercion's contract
/// admits for the same input are the same value.
pub proof fn lemma_coerce_deterministic(
    s1: Seq<char>,
    f1: bool,
    r1: ScalarModel,
    s2: Seq<char>,
    f2: bool,
    r2: ScalarModel,
)
    requires
        r1 == spec_coerce(s1, f1),
        r2 == spec_coerce(s2, f2),
        s1 == s2,
        f1 == f2,
    ensures
        r1 == r2,
{
}

/// Coerce every value of the merged mapping, pairing each key with its
/// coerced value in the mapping's order. `float_flags[i]` says whether
/// the `i`-th value parses as a finite 64-bit float.
pub fn coerce_entries(kv: &KvMap, float_flags: &Vec<bool>) -> (r: Vec<(String, ConfigValue)>)
    requires
        float_flags@.len() == kv.kvs().len(),
    ensures
        r@.len() == kv.kvs().len(),
        forall|i: int|
            0 <= i < r@.len() ==> (#[trigger] r@[i]).0@ == kv.kvs()[i].0 && r@[i].1@ == spec_coerce(
                kv.kvs()[i].1,
                float_flags@[i],
            ),
{
    let n = kv.len();
    let mut r: Vec<(String, ConfigValue)> = Vec::new();
    let mut i: usize = 0;
    while i < n
        invariant
            0 <= i <= n,
            n == kv.kvs().len(),
            float_flags@.len() == n,
            r@.len() == i,
            forall|j: int|
                0 <= j < i ==> (#[trigger] r@[j]).0@ == kv.kvs()[j].0 && r@[j].1@ == spec_coerce(
                    kv.kvs()[j].1,
                    float_flags@[j],
                ),
        decreases n - i,
    {
        let key = kv.key_at(i).clone();
        let value = coerce_scalar(kv.value_at(i).as_str(), float_flags[i]);
        r.push((key, value));
        i += 1;
    }
    r
}

} // verus!
