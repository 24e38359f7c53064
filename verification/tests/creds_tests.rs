use ashell::creds::{CachedCreds, CredentialCache};

#[test]
fn empty_cache_remembers_nothing() {
    let c = CredentialCache::new();
    assert!(c.get("s1").is_none());
    assert_eq!(c.cached_passphrase("s1"), None);
    assert_eq!(c.cached_kb_responses("s1"), None);
}

#[test]
fn passphrase_read_after_write() {
    let mut c = CredentialCache::new();
    c.remember_passphrase("s1", "secret".to_string());
    assert_eq!(c.cached_passphrase("s1"), Some("secret".to_string()));
    assert_eq!(c.cached_kb_responses("s1"), None);
    assert_eq!(c.cached_passphrase("s2"), None);
    c.remember_passphrase("s1", "other".to_string());
    assert_eq!(c.cached_passphrase("s1"), Some("other".to_string()));
}

#[test]
fn kb_responses_keep_the_passphrase() {
    let mut c = CredentialCache::new();
    c.remember_passphrase("s1", "pw".to_string());
    c.remember_kb_responses("s1", vec!["a".to_string(), "b".to_string()]);
    assert_eq!(c.cached_passphrase("s1"), Some("pw".to_string()));
    assert_eq!(c.cached_kb_responses("s1"), Some(vec!["a".to_string(), "b".to_string()]));
    c.remember_kb_responses("s2", vec![]);
    assert_eq!(c.cached_kb_responses("s2"), Some(vec![]));
    assert_eq!(c.cached_passphrase("s2"), None);
    let e = c.get("s1").unwrap();
    assert_eq!(e.password, None);
    assert_eq!(e.passphrase, Some("pw".to_string()));
}

#[test]
fn cached_creds_copy() {
    let c = CachedCreds {
        password: Some("p".to_string()),
        passphrase: None,
        kb_responses: Some(vec!["x".to_string()]),
    };
    let d = c.copy();
    assert_eq!(d.password, Some("p".to_string()));
    assert_eq!(d.passphrase, None);
    assert_eq!(d.kb_responses, Some(vec!["x".to_string()]));
    let e = CachedCreds::empty();
    assert!(e.password.is_none() && e.passphrase.is_none() && e.kb_responses.is_none());
}
