use soroban_render_sdk::router::{
    bytes_eq_slice, parse_bytes_as_u32, parse_id, path_eq, path_starts_with, path_suffix,
    path_to_bytes, pattern_matches, split_path, split_path_bytes, Request, Router,
};
use soroban_sdk::testutils::EnvTestConfig;
use soroban_sdk::{Bytes, Env, String};

fn router_env() -> Env {
    Env::new_with_config(EnvTestConfig {
        capture_snapshot_at_drop: false,
    })
}

#[test]
fn test_path_to_bytes_none() {
    let env = router_env();
    let bytes = path_to_bytes(&env, &None);
    assert_eq!(bytes.len(), 1);
    assert_eq!(bytes.get(0), Some(b'/'));
}

#[test]
fn test_path_to_bytes_some() {
    let env = router_env();
    let s = String::from_str(&env, "/tasks");
    let bytes = path_to_bytes(&env, &Some(s));
    assert_eq!(bytes.len(), 6);
}

#[test]
fn test_path_eq() {
    let env = router_env();
    let path = Bytes::from_slice(&env, b"/tasks");
    assert!(path_eq(&path, b"/tasks"));
    assert!(!path_eq(&path, b"/task"));
    assert!(!path_eq(&path, b"/tasks/"));
}

#[test]
fn test_path_starts_with() {
    let env = router_env();
    let path = Bytes::from_slice(&env, b"/tasks/123");
    assert!(path_starts_with(&path, b"/tasks"));
    assert!(path_starts_with(&path, b"/tasks/"));
    assert!(!path_starts_with(&path, b"/task/"));
}

#[test]
fn test_path_suffix() {
    let env = router_env();
    let path = Bytes::from_slice(&env, b"/tasks/123");
    let suffix = path_suffix(&env, &path, b"/tasks/");
    assert_eq!(suffix.len(), 3);
}

#[test]
fn test_parse_id() {
    let env = router_env();
    let path = Bytes::from_slice(&env, b"/task/123");
    assert_eq!(parse_id(&path, b"/task/"), Some(123));
}

#[test]
fn test_parse_id_zero() {
    let env = router_env();
    let path = Bytes::from_slice(&env, b"/task/0");
    assert_eq!(parse_id(&path, b"/task/"), Some(0));
}

#[test]
fn test_parse_id_no_match() {
    let env = router_env();
    let path = Bytes::from_slice(&env, b"/task/abc");
    assert_eq!(parse_id(&path, b"/task/"), None);
}

#[test]
fn test_pattern_matches_static() {
    let env = router_env();
    let path = Bytes::from_slice(&env, b"/tasks");
    assert!(pattern_matches(&env, &path, b"/tasks"));
    assert!(!pattern_matches(&env, &path, b"/task"));
}

#[test]
fn test_pattern_matches_param() {
    let env = router_env();
    let path = Bytes::from_slice(&env, b"/task/123");
    assert!(pattern_matches(&env, &path, b"/task/{id}"));
    assert!(!pattern_matches(&env, &path, b"/task"));
}

#[test]
fn test_pattern_matches_wildcard() {
    let env = router_env();
    let path = Bytes::from_slice(&env, b"/files/a/b/c");
    assert!(pattern_matches(&env, &path, b"/files/*"));
}

#[test]
fn test_pattern_matches_root() {
    let env = router_env();
    let path = Bytes::from_slice(&env, b"/");
    assert!(pattern_matches(&env, &path, b"/"));
}

#[test]
fn test_request_get_var() {
    let env = router_env();
    let path = Bytes::from_slice(&env, b"/users/42/posts");
    let req = Request::new(&env, path, b"/users/{id}/posts");
    let id = req.get_var(b"id");
    assert!(id.is_some());
    let id_bytes = id.unwrap();
    assert_eq!(id_bytes.len(), 2);
    assert_eq!(id_bytes.get(0), Some(b'4'));
    assert_eq!(id_bytes.get(1), Some(b'2'));
}

#[test]
fn test_request_get_var_u32() {
    let env = router_env();
    let path = Bytes::from_slice(&env, b"/task/123");
    let req = Request::new(&env, path, b"/task/{id}");
    assert_eq!(req.get_var_u32(b"id"), Some(123));
}

#[test]
fn test_request_get_wildcard() {
    let env = router_env();
    let path = Bytes::from_slice(&env, b"/files/a/b/c");
    let req = Request::new(&env, path, b"/files/*");
    let wildcard = req.get_wildcard();
    assert!(wildcard.is_some());
}

#[test]
fn test_router_handle() {
    let env = router_env();
    let result = Router::new(&env, Some(String::from_str(&env, "/tasks")))
        .handle(b"/tasks", |_| 42u32)
        .or_default(|_| 0u32);
    assert_eq!(result, 42);
}

#[test]
fn test_router_or_handle() {
    let env = router_env();
    let result = Router::new(&env, Some(String::from_str(&env, "/about")))
        .handle(b"/", |_| 1u32)
        .or_handle(b"/about", |_| 2u32)
        .or_default(|_| 0u32);
    assert_eq!(result, 2);
}

#[test]
fn test_router_default() {
    let env = router_env();
    let result = Router::new(&env, Some(String::from_str(&env, "/unknown")))
        .handle(b"/", |_| 1u32)
        .or_handle(b"/about", |_| 2u32)
        .or_default(|_| 99u32);
    assert_eq!(result, 99);
}

#[test]
fn test_router_with_param() {
    let env = router_env();
    let result = Router::new(&env, Some(String::from_str(&env, "/task/42")))
        .handle(b"/task/{id}", |req| req.get_var_u32(b"id").unwrap_or(0))
        .or_default(|_| 0u32);
    assert_eq!(result, 42);
}

#[test]
fn path_suffix_exact_output() {
    let env = router_env();
    let path = Bytes::from_slice(&env, b"/tasks/123");
    assert_eq!(
        path_suffix(&env, &path, b"/tasks/"),
        Bytes::from_slice(&env, b"123")
    );
    assert_eq!(path_suffix(&env, &path, b"/tasks/123"), Bytes::new(&env));
    assert_eq!(
        path_suffix(&env, &path, b"/tasks/123/more"),
        Bytes::new(&env)
    );
    assert_eq!(
        path_suffix(&env, &path, b"xxxxxxx"),
        Bytes::from_slice(&env, b"123")
    );
}

#[test]
fn parse_id_edge_cases() {
    let env = router_env();
    let path = |s: &[u8]| Bytes::from_slice(&env, s);
    assert_eq!(parse_id(&path(b"/task/12/edit"), b"/task/"), Some(12));
    assert_eq!(parse_id(&path(b"/task/"), b"/task/"), None);
    assert_eq!(parse_id(&path(b"/task//"), b"/task/"), None);
    assert_eq!(parse_id(&path(b"/task/12a"), b"/task/"), None);
    assert_eq!(parse_id(&path(b"/tusk/12"), b"/task/"), None);
    assert_eq!(parse_id(&path(b"/task/007"), b"/task/"), Some(7));
    assert_eq!(
        parse_id(&path(b"/task/4294967295"), b"/task/"),
        Some(u32::MAX)
    );
    assert_eq!(parse_id(&path(b"/task/4294967296"), b"/task/"), None);
    assert_eq!(parse_id(&path(b"/task/99999999999"), b"/task/"), None);
    assert_eq!(parse_id(&path(b"/task/12/x"), b"/task/"), Some(12));
}

#[test]
fn parse_bytes_as_u32_cases() {
    let env = router_env();
    let bytes = |s: &[u8]| Bytes::from_slice(&env, s);
    assert_eq!(parse_bytes_as_u32(&bytes(b"123")), Some(123));
    assert_eq!(parse_bytes_as_u32(&bytes(b"")), None);
    assert_eq!(parse_bytes_as_u32(&bytes(b"12/3")), None);
    assert_eq!(parse_bytes_as_u32(&bytes(b"4294967296")), None);
    assert_eq!(parse_bytes_as_u32(&bytes(b"0")), Some(0));
}

#[test]
fn split_path_drops_empty_segments() {
    let env = router_env();
    let segments = split_path(&env, b"//users///42/posts/");
    assert_eq!(segments.len(), 3);
    assert_eq!(segments.get(0), Some(Bytes::from_slice(&env, b"users")));
    assert_eq!(segments.get(1), Some(Bytes::from_slice(&env, b"42")));
    assert_eq!(segments.get(2), Some(Bytes::from_slice(&env, b"posts")));
    assert_eq!(split_path(&env, b"/").len(), 0);
    assert_eq!(split_path(&env, b"").len(), 0);
    let same = split_path_bytes(&env, &Bytes::from_slice(&env, b"//users///42/posts/"));
    assert_eq!(same, segments);
}

#[test]
fn bytes_eq_slice_compares_content() {
    let env = router_env();
    let bytes = Bytes::from_slice(&env, b"abc");
    assert!(bytes_eq_slice(&bytes, b"abc"));
    assert!(!bytes_eq_slice(&bytes, b"abd"));
    assert!(!bytes_eq_slice(&bytes, b"ab"));
    assert!(!bytes_eq_slice(&bytes, b"abcd"));
}

#[test]
fn pattern_matches_more_cases() {
    let env = router_env();
    let path = |s: &[u8]| Bytes::from_slice(&env, s);
    assert!(pattern_matches(&env, &path(b"/files"), b"/files/*"));
    assert!(!pattern_matches(&env, &path(b"/"), b"/files/*"));
    assert!(!pattern_matches(&env, &path(b"/other/a"), b"/files/*"));
    assert!(pattern_matches(&env, &path(b"/a/b"), b"/{x}/{y}"));
    assert!(!pattern_matches(&env, &path(b"/a/b/c"), b"/{x}/{y}"));
    assert!(!pattern_matches(&env, &path(b"/a/b"), b"/{}/b"));
    assert!(pattern_matches(&env, &path(b"/{}/b"), b"/{}/b"));
    assert!(pattern_matches(&env, &path(b"tasks"), b"/tasks/"));
    assert!(pattern_matches(&env, &path(b"/a/b/c"), b"*"));
    assert!(pattern_matches(&env, &path(b""), b""));
}

#[test]
fn get_var_more_cases() {
    let env = router_env();
    let path = Bytes::from_slice(&env, b"/files/a/b/c");
    let req = Request::new(&env, path, b"/files/*");
    assert_eq!(
        req.get_wildcard(),
        Some(Bytes::from_slice(&env, b"a/b/c"))
    );
    assert_eq!(req.get_var(b"id"), None);
    let path = Bytes::from_slice(&env, b"/users/42/posts/7");
    let req = Request::new(&env, path, b"/users/{user}/posts/{post}");
    assert_eq!(req.get_var(b"user"), Some(Bytes::from_slice(&env, b"42")));
    assert_eq!(req.get_var(b"post"), Some(Bytes::from_slice(&env, b"7")));
    assert_eq!(req.get_var_u32(b"post"), Some(7));
    assert_eq!(req.get_var(b"other"), None);
    assert_eq!(req.get_wildcard(), None);
    assert_eq!(req.path(), &Bytes::from_slice(&env, b"/users/42/posts/7"));
    let short = Request::new(&env, Bytes::from_slice(&env, b"/users"), b"/users/{id}");
    assert_eq!(short.get_var(b"id"), None);
    let text = Request::new(&env, Bytes::from_slice(&env, b"/users/bob"), b"/users/{id}");
    assert_eq!(text.get_var_u32(b"id"), None);
}

#[test]
fn router_first_match_wins() {
    let env = router_env();
    let result = Router::from_bytes(&env, Bytes::from_slice(&env, b"/task/9"))
        .handle(b"/task/{id}", |_| 1u32)
        .or_handle(b"/task/*", |_| 2u32)
        .or_default(|_| 3u32);
    assert_eq!(result, 1);
    let result = Router::new(&env, None)
        .handle(b"/", |req| req.path().len())
        .or_default(|_| 0u32);
    assert_eq!(result, 1);
}
