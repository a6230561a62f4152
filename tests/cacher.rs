use turbodiesel::cacher::{decode_stored, CacheHandle, CacheValue, HashmapCache};
use turbodiesel::error::CacheError;
use turbodiesel::redis_reply::{reply_text, RedisReply};
use turbodiesel::table::EntryTable;

#[test]
fn cacher_test_string_cache_put_and_get() {
    let cache = HashmapCache::new();
    let mut handle = cache.handle();

    let key = "test_key".to_string();
    let value = "test_value".to_string();

    handle.put(&key, &value).expect("Failed to put value into cache");

    let retrieved_value = handle.get(&key).expect("Failed to get value from cache");

    assert_eq!(retrieved_value, Some(value));

    let non_existing_key = "other_key".to_string();
    let retrieved_not_found = handle
        .get::<String>(&non_existing_key)
        .expect("Failed to get value from cache");

    assert_eq!(retrieved_not_found, None);
}

#[test]
fn clones_share_one_store() {
    let cache = HashmapCache::new();
    let mut h1 = cache.handle();
    let h2 = h1.clone();
    let key = "k".to_string();
    h1.put(&key, &"v".to_string()).unwrap();
    assert_eq!(h2.get::<String>(&key).unwrap(), Some("v".to_string()));
    let mut h3 = h2.clone();
    h3.delete(&key).unwrap();
    assert_eq!(h1.get::<String>(&key).unwrap(), None);
}

#[test]
fn put_overwrites_and_delete_is_idempotent() {
    let cache = HashmapCache::new();
    let mut h = cache.handle();
    let key = "k".to_string();
    h.put(&key, &"one".to_string()).unwrap();
    h.put(&key, &"two".to_string()).unwrap();
    assert_eq!(h.get::<String>(&key).unwrap(), Some("two".to_string()));
    h.delete(&key).unwrap();
    h.delete(&key).unwrap();
    assert_eq!(h.get::<String>(&key).unwrap(), None);
}

#[test]
fn strings_are_stored_as_json() {
    let cache = HashmapCache::new();
    let mut h = cache.handle();
    h.put(&"test_key".to_string(), &"test_value".to_string()).unwrap();
    let scanned = h.scan_keys("test_key*").unwrap();
    assert_eq!(scanned, vec![("test_key".to_string(), "\"test_value\"".to_string())]);
    assert_eq!("a\"b".to_string().to_cache_text().unwrap(), "\"a\\\"b\"");
    assert_eq!("\u{1f}\t".to_string().to_cache_text().unwrap(), "\"\\u001f\\t\"");
    assert_eq!(String::from_cache_text(&"\"x\\ny\"".to_string()).unwrap(), "x\ny");
    assert!(String::from_cache_text(&"not json".to_string()).is_err());
}

struct RawText(String);

impl CacheValue for RawText {
    fn to_cache_text(&self) -> Result<String, CacheError> {
        Ok(self.0.clone())
    }

    fn from_cache_text(text: &String) -> Result<Self, CacheError> {
        Ok(RawText(text.clone()))
    }
}

#[test]
fn unreadable_value_is_an_error_not_a_miss() {
    let cache = HashmapCache::new();
    let mut h = cache.handle();
    let key = "k".to_string();
    h.put(&key, &RawText("{broken".to_string())).unwrap();
    let got = h.get::<String>(&key);
    let err = got.expect_err("malformed text must not read as a miss");
    assert_eq!(err.message(), "Failed to deserialize value");
    assert!(err.cause().is_some());
}

#[test]
fn scan_keys_matches_globs() {
    let cache = HashmapCache::new();
    let mut h = cache.handle();
    for k in ["student:1", "student:2", "student:10", "teacher:1"] {
        h.put(&k.to_string(), &RawText(k.to_uppercase())).unwrap();
    }
    let mut all = h.scan_keys("student:*").unwrap();
    all.sort();
    assert_eq!(
        all,
        vec![
            ("student:1".to_string(), "STUDENT:1".to_string()),
            ("student:10".to_string(), "STUDENT:10".to_string()),
            ("student:2".to_string(), "STUDENT:2".to_string()),
        ]
    );
    let mut one_char = h.scan_keys("student:?").unwrap();
    one_char.sort();
    assert_eq!(one_char.len(), 2);
    assert_eq!(h.scan_keys("*:1").unwrap().len(), 2);
    assert_eq!(h.scan_keys("nothing*").unwrap().len(), 0);
    assert_eq!(h.scan_keys("*").unwrap().len(), 4);
}

#[test]
fn entry_table_insert_get_remove() {
    let mut t = EntryTable::new();
    let a = "a".to_string();
    let b = "b".to_string();
    t.insert(a.clone(), "1".to_string());
    t.insert(b.clone(), "2".to_string());
    t.insert(a.clone(), "3".to_string());
    assert_eq!(t.get(&a), Some(&"3".to_string()));
    assert_eq!(t.get(&b), Some(&"2".to_string()));
    t.remove(&a);
    assert_eq!(t.get(&a), None);
    t.remove(&a);
    assert_eq!(t.scan("*"), vec![("b".to_string(), "2".to_string())]);
}

#[test]
fn cache_error_renders_message_and_cause() {
    let plain = CacheError::new("Failed to connect");
    assert_eq!(plain.describe(), "CacheError: Failed to connect");
    assert_eq!(plain.cause(), None);
    let io = std::io::Error::new(std::io::ErrorKind::Other, "refused");
    let wrapped = CacheError::with_cause("Failed to connect", io);
    assert_eq!(wrapped.describe(), "CacheError: Failed to connect Caused by: refused");
    assert_eq!(wrapped.message(), "Failed to connect");
    assert_eq!(wrapped.cause(), Some("refused".to_string()));
}

#[test]
fn redis_replies_read_as_text() {
    assert!(matches!(reply_text(RedisReply::Nil), Ok(None)));
    assert_eq!(
        reply_text(RedisReply::SimpleString("\"v\"".to_string())).unwrap(),
        Some("\"v\"".to_string())
    );
    assert_eq!(
        reply_text(RedisReply::BulkString("h\u{e9}".as_bytes().to_vec())).unwrap(),
        Some("h\u{e9}".to_string())
    );
    let bad = reply_text(RedisReply::BulkString(vec![0xff, 0xfe])).unwrap_err();
    assert_eq!(bad.message(), "Failed to convert bulk string to UTF-8");
    let odd = reply_text(RedisReply::Unexpected).unwrap_err();
    assert_eq!(odd.message(), "Unexpected response type from Redis function call");
}

#[test]
fn stored_text_decodes_to_miss_value_or_error() {
    assert!(matches!(decode_stored::<String>(None), Ok(None)));
    let good = "\"v\"".to_string();
    assert_eq!(decode_stored::<String>(Some(&good)).unwrap(), Some("v".to_string()));
    let bad = "v".to_string();
    let err = decode_stored::<String>(Some(&bad)).unwrap_err();
    assert_eq!(err.message(), "Failed to deserialize value");
}
