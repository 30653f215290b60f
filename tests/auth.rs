use runotepad::{
    bearer_token, check_auth, extract_token, query_token, requires_auth, verify_request,
    verify_token, AuthError,
};

#[test]
fn query_token_first_pair() {
    assert_eq!(query_token("token=abc"), Some("abc".to_string()));
    assert_eq!(query_token("a=1&token=abc&token=def"), Some("abc".to_string()));
    assert_eq!(query_token("token=a=b"), Some("a=b".to_string()));
    assert_eq!(query_token("token="), Some(String::new()));
}

#[test]
fn query_token_absent() {
    assert_eq!(query_token(""), None);
    assert_eq!(query_token("token"), None);
    assert_eq!(query_token("tokens=1&xtoken=2"), None);
}

#[test]
fn bearer_header() {
    assert_eq!(bearer_token("Bearer xyz"), Some("xyz".to_string()));
    assert_eq!(bearer_token("Basic xyz"), None);
    assert_eq!(bearer_token("bearer xyz"), None);
}

#[test]
fn query_before_header() {
    assert_eq!(extract_token("token=q", Some("Bearer h")), Some("q".to_string()));
    assert_eq!(extract_token("x=1", Some("Bearer h")), Some("h".to_string()));
    assert_eq!(extract_token("x=1", None), None);
    assert_eq!(extract_token("", Some("Token h")), None);
}

#[test]
fn token_check() {
    assert!(verify_token("secret", "secret"));
    assert!(!verify_token("secret", "Secret"));
    assert_eq!(check_auth(Some("secret"), "secret"), Ok(()));
    assert_eq!(check_auth(Some("wrong"), "secret"), Err(AuthError::InvalidToken));
    assert_eq!(check_auth(None, "secret"), Err(AuthError::TokenRequired));
}

#[test]
fn guarded_paths() {
    assert!(requires_auth("/api/workspaces"));
    assert!(requires_auth("/api/"));
    assert!(!requires_auth("/api/auth/check"));
    assert!(requires_auth("/ws"));
    assert!(!requires_auth("/ws/"));
    assert!(!requires_auth("/index.html"));
    assert!(!requires_auth("/api"));
}

#[test]
fn request_verification() {
    assert_eq!(verify_request("/index.html", None, "s"), Ok(()));
    assert_eq!(verify_request("/api/workspaces", None, "s"), Err(AuthError::TokenRequired));
    assert_eq!(verify_request("/ws", Some("t"), "s"), Err(AuthError::InvalidToken));
    assert_eq!(verify_request("/ws", Some("s"), "s"), Ok(()));
}

#[test]
fn token_hex_digits() {
    assert_eq!(runotepad::token_hex(&vec![0x00, 0x0f, 0xa5, 0xff]), "000fa5ff");
    assert_eq!(runotepad::token_hex(&Vec::new()), "");
}

#[test]
fn generated_tokens() {
    let a = runotepad::generate_token();
    let b = runotepad::generate_token();
    assert_eq!(a.len(), 32);
    assert!(a.chars().all(|c| c.is_ascii_hexdigit() && !c.is_ascii_uppercase()));
    assert_ne!(a, b);
}
