use soroban_render_sdk::bytes::{
    concat_bytes, escape_json_bytes, escape_json_string, i64_to_bytes, string_to_bytes,
    u32_to_bytes, MAX_STRING_SIZE,
};
use soroban_sdk::testutils::EnvTestConfig;
use soroban_sdk::{Bytes, Env, String, Vec};

fn bytes_env() -> Env {
    Env::new_with_config(EnvTestConfig {
        capture_snapshot_at_drop: false,
    })
}

#[test]
fn test_concat_bytes() {
    let env = bytes_env();
    let mut parts: Vec<Bytes> = Vec::new(&env);
    parts.push_back(Bytes::from_slice(&env, b"Hello, "));
    parts.push_back(Bytes::from_slice(&env, b"World!"));

    let result = concat_bytes(&env, &parts);
    assert_eq!(result.len(), 13);
}

#[test]
fn test_concat_bytes_empty() {
    let env = bytes_env();
    let parts: Vec<Bytes> = Vec::new(&env);
    let result = concat_bytes(&env, &parts);
    assert_eq!(result.len(), 0);
}

#[test]
fn test_string_to_bytes() {
    let env = bytes_env();
    let s = String::from_str(&env, "Hello");
    let bytes = string_to_bytes(&env, &s);
    assert_eq!(bytes.len(), 5);
}

#[test]
fn test_string_to_bytes_empty() {
    let env = bytes_env();
    let s = String::from_str(&env, "");
    let bytes = string_to_bytes(&env, &s);
    assert_eq!(bytes.len(), 0);
}

#[test]
fn test_string_to_bytes_256_boundary() {
    let env = bytes_env();
    let content = "a".repeat(256);
    let s = String::from_str(&env, &content);
    let bytes = string_to_bytes(&env, &s);
    assert_eq!(bytes.len(), 256);
}

#[test]
fn test_string_to_bytes_257_uses_1kb_tier() {
    let env = bytes_env();
    let content = "a".repeat(257);
    let s = String::from_str(&env, &content);
    let bytes = string_to_bytes(&env, &s);
    assert_eq!(bytes.len(), 257);
}

#[test]
fn test_string_to_bytes_1kb_boundary() {
    let env = bytes_env();
    let content = "a".repeat(1024);
    let s = String::from_str(&env, &content);
    let bytes = string_to_bytes(&env, &s);
    assert_eq!(bytes.len(), 1024);
}

#[test]
fn test_string_to_bytes_4kb() {
    let env = bytes_env();
    let content = "a".repeat(4000);
    let s = String::from_str(&env, &content);
    let bytes = string_to_bytes(&env, &s);
    assert_eq!(bytes.len(), 4000);
}

#[test]
fn test_string_to_bytes_large() {
    let env = bytes_env();
    let content = "a".repeat(10000);
    let s = String::from_str(&env, &content);
    let bytes = string_to_bytes(&env, &s);
    assert_eq!(bytes.len(), 10000);
}

#[test]
fn test_string_to_bytes_max_size() {
    let env = bytes_env();
    let content = "a".repeat(MAX_STRING_SIZE);
    let s = String::from_str(&env, &content);
    let bytes = string_to_bytes(&env, &s);
    assert_eq!(bytes.len(), MAX_STRING_SIZE as u32);
}

#[test]
fn test_u32_to_bytes_zero() {
    let env = bytes_env();
    let bytes = u32_to_bytes(&env, 0);
    assert_eq!(bytes.len(), 1);
    assert_eq!(bytes.get(0), Some(b'0'));
}

#[test]
fn test_u32_to_bytes_single_digit() {
    let env = bytes_env();
    let bytes = u32_to_bytes(&env, 7);
    assert_eq!(bytes.len(), 1);
    assert_eq!(bytes.get(0), Some(b'7'));
}

#[test]
fn test_u32_to_bytes_multi_digit() {
    let env = bytes_env();
    let bytes = u32_to_bytes(&env, 12345);
    assert_eq!(bytes.len(), 5);
    assert_eq!(bytes.get(0), Some(b'1'));
    assert_eq!(bytes.get(1), Some(b'2'));
    assert_eq!(bytes.get(2), Some(b'3'));
    assert_eq!(bytes.get(3), Some(b'4'));
    assert_eq!(bytes.get(4), Some(b'5'));
}

#[test]
fn test_i64_to_bytes_positive() {
    let env = bytes_env();
    let bytes = i64_to_bytes(&env, 42);
    assert_eq!(bytes.len(), 2);
    assert_eq!(bytes.get(0), Some(b'4'));
    assert_eq!(bytes.get(1), Some(b'2'));
}

#[test]
fn test_i64_to_bytes_negative() {
    let env = bytes_env();
    let bytes = i64_to_bytes(&env, -42);
    assert_eq!(bytes.len(), 3);
    assert_eq!(bytes.get(0), Some(b'-'));
    assert_eq!(bytes.get(1), Some(b'4'));
    assert_eq!(bytes.get(2), Some(b'2'));
}

#[test]
fn test_i64_to_bytes_zero() {
    let env = bytes_env();
    let bytes = i64_to_bytes(&env, 0);
    assert_eq!(bytes.len(), 1);
    assert_eq!(bytes.get(0), Some(b'0'));
}

#[test]
fn test_escape_json_bytes_quotes() {
    let env = bytes_env();
    let bytes = escape_json_bytes(&env, b"Hello \"World\"");
    assert_eq!(bytes.len(), 15);
}

#[test]
fn test_escape_json_bytes_backslash() {
    let env = bytes_env();
    let bytes = escape_json_bytes(&env, b"path\\to\\file");
    assert_eq!(bytes.len(), 14);
}

#[test]
fn test_escape_json_bytes_newline() {
    let env = bytes_env();
    let bytes = escape_json_bytes(&env, b"line1\nline2");
    assert_eq!(bytes.len(), 12);
}

#[test]
fn concat_bytes_keeps_order_and_content() {
    let env = bytes_env();
    let mut parts: Vec<Bytes> = Vec::new(&env);
    parts.push_back(Bytes::from_slice(&env, b"Hello, "));
    parts.push_back(Bytes::new(&env));
    parts.push_back(Bytes::from_slice(&env, b"World!"));
    let result = concat_bytes(&env, &parts);
    assert_eq!(result, Bytes::from_slice(&env, b"Hello, World!"));
}

#[test]
fn string_to_bytes_copies_the_content() {
    let env = bytes_env();
    let s = String::from_str(&env, "Hello");
    assert_eq!(string_to_bytes(&env, &s), Bytes::from_slice(&env, b"Hello"));
    let long = "abcdefghij".repeat(150);
    let s = String::from_str(&env, &long);
    assert_eq!(
        string_to_bytes(&env, &s),
        Bytes::from_slice(&env, long.as_bytes())
    );
}

#[test]
fn string_to_bytes_over_the_limit_gives_the_notice() {
    let env = bytes_env();
    let content = "a".repeat(MAX_STRING_SIZE + 1);
    let s = String::from_str(&env, &content);
    assert_eq!(
        string_to_bytes(&env, &s),
        Bytes::from_slice(&env, b"[content exceeds 16KB limit]")
    );
}

#[test]
fn u32_to_bytes_extremes() {
    let env = bytes_env();
    assert_eq!(
        u32_to_bytes(&env, u32::MAX),
        Bytes::from_slice(&env, b"4294967295")
    );
    assert_eq!(u32_to_bytes(&env, 10), Bytes::from_slice(&env, b"10"));
    assert_eq!(u32_to_bytes(&env, 1000), Bytes::from_slice(&env, b"1000"));
}

#[test]
fn i64_to_bytes_extremes() {
    let env = bytes_env();
    assert_eq!(
        i64_to_bytes(&env, i64::MIN),
        Bytes::from_slice(&env, b"-9223372036854775808")
    );
    assert_eq!(
        i64_to_bytes(&env, i64::MAX),
        Bytes::from_slice(&env, b"9223372036854775807")
    );
    assert_eq!(i64_to_bytes(&env, -1), Bytes::from_slice(&env, b"-1"));
}

#[test]
fn escape_json_bytes_exact_output() {
    let env = bytes_env();
    assert_eq!(
        escape_json_bytes(&env, b"a\"b\\c\nd\re\tf"),
        Bytes::from_slice(&env, b"a\\\"b\\\\c\\nd\\re\\tf")
    );
    assert_eq!(escape_json_bytes(&env, b""), Bytes::new(&env));
    assert_eq!(
        escape_json_bytes(&env, b"plain/text"),
        Bytes::from_slice(&env, b"plain/text")
    );
}

#[test]
fn escape_json_string_exact_output() {
    let env = bytes_env();
    let s = String::from_str(&env, "Hello \"World\"\n");
    assert_eq!(
        escape_json_string(&env, &s),
        Bytes::from_slice(&env, b"Hello \\\"World\\\"\\n")
    );
}
