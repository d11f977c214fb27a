//! The full pipeline as the embedding application runs it: extract and
//! merge the mappings through the library, probe each value for a
//! finite float, coerce, build a JSON value tree, and decode it into a
//! target type through serde.

use from_env::coerce::{coerce_entries, ConfigValue};
use from_env::merged_config;

fn finite_float(s: &str) -> bool {
    match s.parse::<f64>() {
        Ok(v) => v.is_finite(),
        Err(_) => false,
    }
}

fn json_of(v: ConfigValue) -> serde_json::Value {
    match v {
        ConfigValue::Boolean(b) => serde_json::Value::Bool(b),
        ConfigValue::Unsigned(u) => serde_json::Value::Number(serde_json::Number::from(u)),
        ConfigValue::Signed(i) => serde_json::Value::Number(serde_json::Number::from(i)),
        ConfigValue::FloatText(s) => match s.parse::<f64>().ok().and_then(serde_json::Number::from_f64) {
            Some(n) => serde_json::Value::Number(n),
            None => serde_json::Value::String(s),
        },
        ConfigValue::Text(s) => serde_json::Value::String(s),
    }
}

fn decode<T: serde::de::DeserializeOwned>(
    contents: &str,
    args: &[&str],
) -> Result<T, serde_json::Error> {
    let args: Vec<String> = args.iter().map(|s| s.to_string()).collect();
    let kv = merged_config(contents, &args);
    let mut flags: Vec<bool> = Vec::new();
    for i in 0..kv.len() {
        flags.push(finite_float(kv.value_at(i)));
    }
    let tree = coerce_entries(&kv, &flags);
    let mut map = serde_json::Map::new();
    for (k, v) in tree {
        map.insert(k, json_of(v));
    }
    serde_json::from_value(serde_json::Value::Object(map))
}

#[derive(Debug, PartialEq, Eq)]
struct Constants {
    cred_file: String,
    retries: u64,
}

impl<'de> serde::Deserialize<'de> for Constants {
    fn deserialize<D>(deserializer: D) -> Result<Self, D::Error>
    where
        D: serde::Deserializer<'de>,
    {
        let value = serde_json::Value::deserialize(deserializer)?;
        let obj = match value {
            serde_json::Value::Object(m) => m,
            _ => return Err(serde::de::Error::custom("expected an object")),
        };
        let cred_file = match obj.get("cred_file") {
            None => "credentials.json".to_string(),
            Some(serde_json::Value::String(s)) => s.clone(),
            Some(_) => return Err(serde::de::Error::custom("cred_file: expected a string")),
        };
        let retries = match obj.get("retries") {
            None => 0,
            Some(v) => v
                .as_u64()
                .ok_or_else(|| serde::de::Error::custom("retries: expected an integer"))?,
        };
        Ok(Constants { cred_file, retries })
    }
}

#[derive(Debug, PartialEq, Eq)]
struct ServerPort {
    port: u64,
}

impl<'de> serde::Deserialize<'de> for ServerPort {
    fn deserialize<D>(deserializer: D) -> Result<Self, D::Error>
    where
        D: serde::Deserializer<'de>,
    {
        let value = serde_json::Value::deserialize(deserializer)?;
        let obj = match value {
            serde_json::Value::Object(m) => m,
            _ => return Err(serde::de::Error::custom("expected an object")),
        };
        // `port` is required and has no default.
        let port = match obj.get("port") {
            None => return Err(serde::de::Error::custom("port: missing field")),
            Some(v) => v
                .as_u64()
                .ok_or_else(|| serde::de::Error::custom("port: expected an integer"))?,
        };
        Ok(ServerPort { port })
    }
}

#[test]
fn defaults_and_argument_override() {
    let got: Constants = decode("", &["--retries", "5"]).unwrap();
    assert_eq!(
        got,
        Constants { cred_file: "credentials.json".to_string(), retries: 5 }
    );
}

#[test]
fn missing_required_field_fails() {
    let got: Result<ServerPort, _> = decode("", &[]);
    assert!(got.is_err());
}

#[test]
fn type_mismatch_fails() {
    let got: Result<ServerPort, _> = decode("port = nothing\n", &[]);
    assert!(got.is_err());
}

#[test]
fn file_and_arguments_combine() {
    let got: Constants =
        decode("cred_file = 'alt.json'\nretries = 2\n", &["--retries", "9"]).unwrap();
    assert_eq!(got, Constants { cred_file: "alt.json".to_string(), retries: 9 });
}

#[test]
fn pipeline_is_repeatable() {
    let contents = "cred_file = creds.json\nretries=1\n";
    let args = ["--retries", "5", "--flagged"];
    let first: Constants = decode(contents, &args).unwrap();
    let second: Constants = decode(contents, &args).unwrap();
    assert_eq!(first, second);
}
