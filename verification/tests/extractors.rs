use from_env::args::kv_from_args;
use from_env::envfile::parse_env_file;
use from_env::kv::{merge, KvMap};

fn args_of(items: &[&str]) -> Vec<String> {
    items.iter().map(|s| s.to_string()).collect()
}

fn got(kv: &KvMap, key: &str) -> Option<String> {
    kv.get(key).cloned()
}

#[test]
fn file_mixed_lines() {
    let kv = parse_env_file("key1 = 'value1'\nbadline\nkey2=value2\n\n");
    assert_eq!(got(&kv, "key1"), Some("value1".to_string()));
    assert_eq!(got(&kv, "key2"), Some("value2".to_string()));
    assert_eq!(kv.len(), 2);
}

#[test]
fn file_empty_contents() {
    let kv = parse_env_file("");
    assert_eq!(kv.len(), 0);
}

#[test]
fn file_double_quotes_stripped() {
    let kv = parse_env_file("url = \"localhost:8080\"\n");
    assert_eq!(got(&kv, "url"), Some("localhost:8080".to_string()));
}

#[test]
fn file_two_equals_dropped() {
    let kv = parse_env_file("a=1=2\nb=3\n");
    assert_eq!(got(&kv, "a"), None);
    assert_eq!(got(&kv, "b"), Some("3".to_string()));
    assert_eq!(kv.len(), 1);
}

#[test]
fn file_empty_key_or_value_dropped() {
    let kv = parse_env_file("=x\nk=\nq=''\nok=1\n");
    assert_eq!(kv.len(), 1);
    assert_eq!(got(&kv, "ok"), Some("1".to_string()));
}

#[test]
fn file_later_duplicate_wins() {
    let kv = parse_env_file("k=1\nk=2\n");
    assert_eq!(got(&kv, "k"), Some("2".to_string()));
    assert_eq!(kv.len(), 1);
}

#[test]
fn file_crlf_line_endings() {
    let kv = parse_env_file("a=1\r\nb=2\r\n");
    assert_eq!(got(&kv, "a"), Some("1".to_string()));
    assert_eq!(got(&kv, "b"), Some("2".to_string()));
}

#[test]
fn file_tabs_and_spaces_trimmed() {
    let kv = parse_env_file("\t key \t=\t value \t\n");
    assert_eq!(got(&kv, "key"), Some("value".to_string()));
}

#[test]
fn file_unicode_whitespace_trimmed() {
    let kv = parse_env_file("\u{a0}key\u{a0}=\u{a0}value\u{a0}\n");
    assert_eq!(got(&kv, "key"), Some("value".to_string()));
}

#[test]
fn file_multibyte_characters() {
    let kv = parse_env_file("gr\u{fc}\u{df}e = sch\u{f6}n\n");
    assert_eq!(
        got(&kv, "gr\u{fc}\u{df}e"),
        Some("sch\u{f6}n".to_string())
    );
}

#[test]
fn file_mismatched_quotes_kept() {
    let kv = parse_env_file("k = 'v\"\n");
    assert_eq!(got(&kv, "k"), Some("'v\"".to_string()));
}

#[test]
fn file_only_one_quote_layer_stripped() {
    let kv = parse_env_file("k = ''v''\n");
    assert_eq!(got(&kv, "k"), Some("'v'".to_string()));
}

#[test]
fn args_flags_and_values() {
    let kv = kv_from_args(&args_of(&["--flag", "--name", "bob", "--verbose"]));
    assert_eq!(got(&kv, "flag"), Some("true".to_string()));
    assert_eq!(got(&kv, "name"), Some("bob".to_string()));
    assert_eq!(got(&kv, "verbose"), Some("true".to_string()));
    assert_eq!(kv.len(), 3);
}

#[test]
fn args_orphan_value_discarded() {
    let kv = kv_from_args(&args_of(&["orphan", "--k", "v"]));
    assert_eq!(got(&kv, "k"), Some("v".to_string()));
    assert_eq!(kv.len(), 1);
}

#[test]
fn args_quoted_key_and_value() {
    let kv = kv_from_args(&args_of(&["--'k'", "'v'"]));
    assert_eq!(got(&kv, "k"), Some("v".to_string()));
}

#[test]
fn args_later_duplicate_wins() {
    let kv = kv_from_args(&args_of(&["--k", "1", "--k", "2"]));
    assert_eq!(got(&kv, "k"), Some("2".to_string()));
    assert_eq!(kv.len(), 1);
}

#[test]
fn args_empty_list() {
    let kv = kv_from_args(&Vec::new());
    assert_eq!(kv.len(), 0);
}

#[test]
fn merge_argument_wins() {
    let mut file_kv = KvMap::new();
    file_kv.insert("a".to_string(), "1".to_string());
    file_kv.insert("b".to_string(), "2".to_string());
    let mut arg_kv = KvMap::new();
    arg_kv.insert("b".to_string(), "9".to_string());
    arg_kv.insert("c".to_string(), "3".to_string());
    let merged = merge(&file_kv, &arg_kv);
    assert_eq!(got(&merged, "a"), Some("1".to_string()));
    assert_eq!(got(&merged, "b"), Some("9".to_string()));
    assert_eq!(got(&merged, "c"), Some("3".to_string()));
    assert_eq!(merged.len(), 3);
}

#[test]
fn merged_config_end_to_end_mapping() {
    let kv = from_env::merged_config("a = 1\nb = 2\n", &args_of(&["--b", "9", "--c", "3"]));
    assert_eq!(got(&kv, "a"), Some("1".to_string()));
    assert_eq!(got(&kv, "b"), Some("9".to_string()));
    assert_eq!(got(&kv, "c"), Some("3".to_string()));
    assert_eq!(kv.len(), 3);
}

#[test]
fn insert_overwrites_in_place() {
    let mut kv = KvMap::new();
    kv.insert("k".to_string(), "1".to_string());
    kv.insert("k".to_string(), "2".to_string());
    assert_eq!(kv.len(), 1);
    assert_eq!(got(&kv, "k"), Some("2".to_string()));
    assert!(kv.contains("k"));
    assert!(!kv.contains("missing"));
}
