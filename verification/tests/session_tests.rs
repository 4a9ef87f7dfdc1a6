//! Tests for sessions, cookies and the session store.

use localhost::session::cookie::{Cookie, CookieJar, SameSite};
use localhost::session::session::{Session, SessionData};
use localhost::session::store::{SessionConfig, SessionStore};

#[test]
fn test_cookie_creation() {
    let cookie = Cookie::new("session_id".to_string(), "abc123".to_string());
    assert_eq!(cookie.name, "session_id");
    assert_eq!(cookie.value, "abc123");
    assert!(!cookie.secure);
    assert!(!cookie.http_only);
}

#[test]
fn test_session_cookie() {
    let cookie = Cookie::session("session_id".to_string(), "abc123".to_string());
    assert!(cookie.http_only);
    assert_eq!(cookie.same_site, Some(SameSite::Lax));
}

#[test]
fn test_cookie_header_value() {
    let cookie = Cookie::new("test".to_string(), "value".to_string())
        .path("/".to_string())
        .http_only(true)
        .secure(true);
    let header = cookie.to_header_value();
    assert!(header.contains("test=value"));
    assert!(header.contains("Path=/"));
    assert!(header.contains("HttpOnly"));
    assert!(header.contains("Secure"));
}

#[test]
fn test_cookie_jar_parsing() {
    let jar = CookieJar::parse_cookie_header("session_id=abc123; user_pref=dark_mode");
    assert_eq!(jar.get_value("session_id"), Some("abc123"));
    assert_eq!(jar.get_value("user_pref"), Some("dark_mode"));
    assert_eq!(jar.get_value("nonexistent"), None);
}

#[test]
fn test_cookie_jar_operations() {
    let mut jar = CookieJar::new();
    jar.add_cookie(Cookie::new("test1".to_string(), "value1".to_string()));
    jar.add_cookie(Cookie::new("test2".to_string(), "value2".to_string()));
    assert!(jar.contains("test1"));
    assert!(jar.contains("test2"));
    assert!(!jar.contains("test3"));
    assert_eq!(jar.cookies().len(), 2);
    jar.remove_cookie("test1");
    assert!(!jar.contains("test1"));
    assert_eq!(jar.cookies().len(), 1);
}

#[test]
fn test_same_site_display() {
    assert_eq!(SameSite::Strict.as_str(), "Strict");
    assert_eq!(SameSite::Lax.as_str(), "Lax");
    assert_eq!(SameSite::NoneValue.as_str(), "None");
}

#[test]
fn test_session_data_creation() {
    let data = SessionData::new();
    assert!(data.is_empty());
    assert_eq!(data.len(), 0);
    assert!(!data.is_expired());
}

#[test]
fn test_session_data_operations() {
    let mut data = SessionData::new();
    data.set("user_id".to_string(), "123".to_string());
    data.set("username".to_string(), "alice".to_string());
    assert_eq!(data.get("user_id"), Some("123"));
    assert_eq!(data.get("username"), Some("alice"));
    assert_eq!(data.get("nonexistent"), None);
    assert!(data.contains("user_id"));
    assert!(!data.contains("nonexistent"));
    assert_eq!(data.len(), 2);
    assert!(!data.is_empty());
    let removed = data.remove("user_id");
    assert_eq!(removed, Some("123".to_string()));
    assert_eq!(data.len(), 1);
    data.clear();
    assert!(data.is_empty());
    assert_eq!(data.len(), 0);
}

#[test]
fn test_session_creation() {
    let session = Session::new("test_id".to_string());
    assert_eq!(session.id, "test_id");
    assert!(session.is_valid());
    assert!(session.data.is_empty());
}

#[test]
fn test_session_id_generation() {
    let id1 = Session::generate_id().unwrap();
    let id2 = Session::generate_id().unwrap();
    assert_ne!(id1, id2);
    assert!(!id1.is_empty());
    assert!(!id2.is_empty());
}

#[test]
fn test_session_data_keys() {
    let mut data = SessionData::new();
    data.set("key1".to_string(), "value1".to_string());
    data.set("key2".to_string(), "value2".to_string());
    let keys = data.keys();
    assert_eq!(keys.len(), 2);
    assert!(keys.contains(&"key1".to_string()));
    assert!(keys.contains(&"key2".to_string()));
}

#[test]
fn test_session_store_creation() {
    let config = SessionConfig::default();
    let store = SessionStore::new(config);
    assert_eq!(store.session_count(), 0);
}

#[test]
fn test_create_and_get_session() {
    let config = SessionConfig::default();
    let mut store = SessionStore::new(config);
    let session = store.create_session().unwrap();
    assert!(!session.id.is_empty());
    assert!(session.is_valid());
    let retrieved = store.get_session(&session.id);
    assert!(retrieved.is_some());
    assert_eq!(retrieved.unwrap().id, session.id);
}

#[test]
fn test_session_update() {
    let config = SessionConfig::default();
    let mut store = SessionStore::new(config);
    let mut session = store.create_session().unwrap();
    session.data.set("key".to_string(), "value".to_string());
    store.update_session(session.clone()).unwrap();
    let retrieved = store.get_session(&session.id).unwrap();
    assert_eq!(retrieved.data.peek("key"), Some("value"));
}

#[test]
fn test_session_deletion() {
    let config = SessionConfig::default();
    let mut store = SessionStore::new(config);
    let session = store.create_session().unwrap();
    let session_id = session.id.clone();
    assert!(store.get_session(&session_id).is_some());
    let deleted = store.delete_session(&session_id);
    assert!(deleted);
    assert!(store.get_session(&session_id).is_none());
}

#[test]
fn test_session_cookie_creation() {
    let config = SessionConfig::default();
    let store = SessionStore::new(config);
    let cookie = store.create_session_cookie("test_session_id");
    assert_eq!(cookie.name, "session_id");
    assert_eq!(cookie.value, "test_session_id");
    assert!(cookie.http_only);
}

#[test]
fn test_session_from_cookies() {
    let config = SessionConfig::default();
    let mut store = SessionStore::new(config);
    let session = store.create_session().unwrap();
    let session_id = session.id.clone();
    let mut cookies = CookieJar::new();
    cookies.add_cookie(Cookie::new("session_id".to_string(), session_id.clone()));
    let retrieved = store.get_session_from_cookies(&cookies);
    assert!(retrieved.is_some());
    assert_eq!(retrieved.unwrap().id, session_id);
}

#[test]
fn test_session_stats() {
    let config = SessionConfig::default();
    let mut store = SessionStore::new(config);
    let _session1 = store.create_session().unwrap();
    let _session2 = store.create_session().unwrap();
    let stats = store.get_stats();
    assert_eq!(stats.total_sessions, 2);
    assert_eq!(stats.active_sessions, 2);
    assert_eq!(stats.expired_sessions, 0);
}

#[test]
fn test_max_sessions_limit() {
    let mut config = SessionConfig::default();
    config.max_sessions = 2;
    let mut store = SessionStore::new(config);
    let _session1 = store.create_session().unwrap();
    let _session2 = store.create_session().unwrap();
    let _session3 = store.create_session().unwrap();
    assert_eq!(store.session_count(), 2);
}

#[test]
fn test_cookie_expires_date_format() {
    let cookie = Cookie::new("a".to_string(), "b".to_string()).expires(3723);
    let header = cookie.to_header_value();
    assert!(header.contains("Expires=Thu, 01 Jan 1970 01:02:03 GMT"));
}
