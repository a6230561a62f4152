use std::cell::Cell;
use std::rc::Rc;
use turbodiesel::cacher::{CacheHandle, CacheValue, HashmapCache, HashmapCacheHandle, RecordedCache};
use turbodiesel::error::CacheError;
use turbodiesel::statement_wrappers::{
    populate_step, ResultCacheLookupIterator, ResultCachingIterator, SelectCacheReadWrapper,
    SelectCachingWrapper, UpdateWrapper,
};

#[derive(Debug, Clone, PartialEq)]
struct Student {
    id: i32,
    name: String,
    dob: Option<String>,
}

impl CacheValue for Student {
    fn to_cache_text(&self) -> Result<String, CacheError> {
        serde_json::to_string(&(self.id, &self.name, &self.dob))
            .map_err(|e| CacheError::with_cause("Failed to serialize value", e))
    }

    fn from_cache_text(text: &String) -> Result<Self, CacheError> {
        let (id, name, dob): (i32, String, Option<String>) = serde_json::from_str(text)
            .map_err(|e| CacheError::with_cause("Failed to deserialize value", e))?;
        Ok(Student { id, name, dob })
    }
}

fn student(id: i32, name: &str, dob: Option<&str>) -> Student {
    Student { id, name: name.to_string(), dob: dob.map(|d| d.to_string()) }
}

/// The table that the tests read as the database.
fn database() -> Vec<Student> {
    vec![
        student(1, "John", None),
        student(2, "Ori", Some("1978-02-14")),
        student(3, "Dan", Some("2009-04-12")),
    ]
}

/// `select ... where id in ids`, in the order of the table.
fn select(db: &[Student], ids: &[i32]) -> Vec<Result<Student, String>> {
    db.iter().filter(|s| ids.contains(&s.id)).map(|s| Ok(s.clone())).collect()
}

/// The same select with the key column `'student:' || id` beside each row.
fn select_with_key(db: &[Student], ids: &[i32]) -> Vec<Result<(Student, String), String>> {
    db.iter()
        .filter(|s| ids.contains(&s.id))
        .map(|s| Ok((s.clone(), format!("student:{}", s.id))))
        .collect()
}

/// `update set name = .. where id = ..`.
fn update_name(db: &mut [Student], id: i32, name: &str) -> usize {
    let mut n: usize = 0;
    for s in db.iter_mut().filter(|s| s.id == id) {
        s.name = name.to_string();
        n += 1;
    }
    n
}

struct Populating<I: Iterator, C, U>(ResultCachingIterator<I, C, U>);

impl<I, U, E, C> Iterator for Populating<I, C, U>
where
    I: Iterator<Item = Result<(U, String), E>>,
    U: CacheValue,
    C: CacheHandle,
{
    type Item = Result<U, E>;

    fn next(&mut self) -> Option<Self::Item> {
        self.0.next()
    }
}

struct Lookup<I: Iterator, C, U>(ResultCacheLookupIterator<I, C, U>);

impl<I, U, E, C> Iterator for Lookup<I, C, U>
where
    I: Iterator<Item = Result<U, E>>,
    U: CacheValue,
    C: CacheHandle,
{
    type Item = Result<U, E>;

    fn next(&mut self) -> Option<Self::Item> {
        self.0.next()
    }
}

/// Rows that count how many times they were pulled.
struct Counted<I> {
    rows: I,
    pulls: Rc<Cell<usize>>,
}

impl<I: Iterator> Iterator for Counted<I> {
    type Item = I::Item;

    fn next(&mut self) -> Option<I::Item> {
        self.pulls.set(self.pulls.get() + 1);
        self.rows.next()
    }
}

fn populate(db: &[Student], ids: &[i32], h: &HashmapCacheHandle) -> Vec<Result<Student, String>> {
    let wrapper = SelectCachingWrapper::new((), h.clone());
    Populating(wrapper.load_rows(select_with_key(db, ids).into_iter())).collect()
}

fn try_from_cache(
    db: &[Student],
    ids: &[i32],
    h: &HashmapCacheHandle,
    key: &str,
) -> Vec<Result<Student, String>> {
    let wrapper = SelectCacheReadWrapper::single_key((), h.clone(), key, false);
    Lookup(wrapper.load_rows(select(db, ids).into_iter())).collect()
}

fn oks(rows: Vec<Result<Student, String>>) -> Vec<Student> {
    rows.into_iter().map(|r| r.unwrap()).collect()
}

#[test]
fn populate_then_hit() {
    let db = database();
    let cache = HashmapCache::new();
    let h = cache.handle();
    let rows = populate(&db, &[1, 2, 3], &h);
    assert_eq!(oks(rows), db);
    assert_eq!(h.scan_keys("student:*").unwrap().len(), 3);
    assert_eq!(h.get::<Student>(&"student:3".to_string()).unwrap(), Some(db[2].clone()));
}

#[test]
fn invalidate_then_refetch() {
    let mut db = database();
    let cache = HashmapCache::new();
    let h = cache.handle();
    populate(&db, &[1, 2, 3], &h);
    let update = UpdateWrapper::single_key((2, "Ori2"), h.clone(), "student:2");
    let (result, _) = update.execute(|(id, name)| update_name(&mut db, id, name));
    let changed = result.unwrap();
    assert_eq!(changed, 1);
    assert_eq!(h.get::<Student>(&"student:2".to_string()).unwrap(), None);
    let rows = oks(try_from_cache(&db, &[2], &h, "student:2"));
    assert_eq!(rows, vec![student(2, "Ori2", Some("1978-02-14"))]);
}

#[test]
fn stale_cache_wins() {
    let mut db = database();
    let cache = HashmapCache::new();
    let h = cache.handle();
    populate(&db, &[3], &h);
    update_name(&mut db, 3, "Dan1");
    let rows = oks(try_from_cache(&db, &[3], &h, "student:3"));
    assert_eq!(rows, vec![student(3, "Dan", Some("2009-04-12"))]);
}

#[test]
fn multi_key_mixed_hit_and_miss() {
    let db = database();
    let cache = HashmapCache::new();
    let h = cache.handle();
    populate(&db, &[1], &h);
    let pulls = Rc::new(Cell::new(0));
    let rows = Counted { rows: select(&db, &[3]).into_iter(), pulls: pulls.clone() };
    let keys = vec!["student:1".to_string(), "student:3".to_string()];
    let wrapper = SelectCacheReadWrapper::new((), keys, h.clone(), false);
    let out = oks(Lookup(wrapper.load_rows(rows)).collect());
    assert_eq!(out, vec![db[0].clone(), db[2].clone()]);
    assert_eq!(pulls.get(), 1);
    assert_eq!(h.get::<Student>(&"student:3".to_string()).unwrap(), None);
}

#[test]
fn populate_and_try_combined() {
    let db = database();
    let cache = HashmapCache::new();
    let h = cache.handle();
    let populating = SelectCachingWrapper::new((), h.clone())
        .load_rows(select_with_key(&db, &[2]).into_iter());
    let wrapper = SelectCacheReadWrapper::single_key((), h.clone(), "student:2", false);
    let out = oks(Lookup(wrapper.load_rows(Populating(populating))).collect());
    assert_eq!(out, vec![db[1].clone()]);
    assert_eq!(h.get::<Student>(&"student:2".to_string()).unwrap(), Some(db[1].clone()));
}

#[test]
fn update_without_invalidation_leaves_cache_stale() {
    let mut db = database();
    let cache = HashmapCache::new();
    let mut h = cache.handle();
    let cached = student(2, "Ori3", Some("1978-02-14"));
    h.put(&"student:2".to_string(), &cached).unwrap();
    update_name(&mut db, 2, "Ori4");
    assert_eq!(h.get::<Student>(&"student:2".to_string()).unwrap(), Some(cached));
    assert_eq!(oks(select(&db, &[2])), vec![student(2, "Ori4", Some("1978-02-14"))]);
}

#[test]
fn populate_passes_errors_and_writes_only_rows() {
    let cache = HashmapCache::new();
    let h = cache.handle();
    let items: Vec<Result<(Student, String), String>> = vec![
        Ok((student(1, "John", None), "student:1".to_string())),
        Err("db down".to_string()),
        Ok((student(2, "Ori", None), "student:2".to_string())),
    ];
    let out: Vec<_> = Populating(ResultCachingIterator::new(items.into_iter(), h.clone())).collect();
    assert_eq!(
        out,
        vec![Ok(student(1, "John", None)), Err("db down".to_string()), Ok(student(2, "Ori", None))]
    );
    assert_eq!(h.scan_keys("*").unwrap().len(), 2);
    assert_eq!(h.get::<Student>(&"student:2".to_string()).unwrap(), Some(student(2, "Ori", None)));
}

#[test]
fn populate_step_splits_items() {
    let (e, k) = populate_step::<i32, String>(Some(Ok((7, "k".to_string()))));
    assert_eq!((e, k), (Some(Ok(7)), Some("k".to_string())));
    let (e, k) = populate_step::<i32, String>(Some(Err("x".to_string())));
    assert_eq!((e, k), (Some(Err("x".to_string())), None));
    let (e, k) = populate_step::<i32, String>(None);
    assert_eq!((e, k), (None, None));
}

#[test]
fn all_hits_never_pull() {
    let db = database();
    let cache = HashmapCache::new();
    let h = cache.handle();
    populate(&db, &[1, 2, 3], &h);
    let pulls = Rc::new(Cell::new(0));
    let rows = Counted { rows: select(&db, &[1, 2, 3]).into_iter(), pulls: pulls.clone() };
    let keys = vec!["student:3".to_string(), "student:1".to_string(), "student:2".to_string()];
    let it = ResultCacheLookupIterator::new(rows, h.clone(), keys, false);
    let out = oks(Lookup(it).collect());
    assert_eq!(out, vec![db[2].clone(), db[0].clone(), db[1].clone()]);
    assert_eq!(pulls.get(), 0);
}

#[test]
fn all_misses_populate_in_inner_order() {
    let db = database();
    let cache = HashmapCache::new();
    let h = cache.handle();
    let keys = vec!["a".to_string(), "b".to_string()];
    let rows = select(&db, &[1, 2, 3]).into_iter();
    let it = ResultCacheLookupIterator::new(rows, h.clone(), keys, true);
    let out = oks(Lookup(it).collect());
    assert_eq!(out, vec![db[0].clone(), db[1].clone()]);
    assert_eq!(h.get::<Student>(&"a".to_string()).unwrap(), Some(db[0].clone()));
    assert_eq!(h.get::<Student>(&"b".to_string()).unwrap(), Some(db[1].clone()));
}

#[test]
fn miss_without_rows_ends_the_stream() {
    let cache = HashmapCache::new();
    let h = cache.handle();
    let keys = vec!["a".to_string(), "b".to_string()];
    let rows = vec![Ok::<Student, String>(student(1, "John", None))].into_iter();
    let mut it = ResultCacheLookupIterator::new(rows, h.clone(), keys, false);
    assert_eq!(it.next(), Some(Ok(student(1, "John", None))));
    assert_eq!(it.next(), None);
    assert_eq!(it.next(), None);
}

#[test]
fn lookup_passes_query_errors_and_does_not_write_them() {
    let cache = HashmapCache::new();
    let h = cache.handle();
    let rows = vec![Err::<Student, String>("db down".to_string())].into_iter();
    let mut it = ResultCacheLookupIterator::new(rows, h.clone(), vec!["a".to_string()], true);
    assert_eq!(it.next(), Some(Err("db down".to_string())));
    assert_eq!(h.scan_keys("*").unwrap().len(), 0);
}

/// A cache whose every operation fails.
#[derive(Clone)]
struct BrokenCache;

impl CacheHandle for BrokenCache {
    fn get<V: CacheValue>(&self, _key: &String) -> Result<Option<V>, CacheError> {
        Err(CacheError::new("down"))
    }

    fn put<V: CacheValue>(&mut self, _key: &String, _value: &V) -> Result<(), CacheError> {
        Err(CacheError::new("down"))
    }

    fn delete(&mut self, _key: &String) -> Result<(), CacheError> {
        Err(CacheError::new("down"))
    }

    fn scan_keys(&self, _pattern: &str) -> Result<Vec<(String, String)>, CacheError> {
        Err(CacheError::new("down"))
    }
}

#[test]
fn failed_lookup_drops_one_row_and_yields_nothing() {
    let db = database();
    let pulls = Rc::new(Cell::new(0));
    let rows = Counted { rows: select(&db, &[1, 2]).into_iter(), pulls: pulls.clone() };
    let mut it = ResultCacheLookupIterator::new(rows, BrokenCache, vec!["student:1".to_string()], true);
    assert_eq!(it.next(), None);
    assert_eq!(pulls.get(), 1);
}

#[test]
fn settle_follows_the_answer_of_the_cache() {
    let rows = vec![Ok::<String, String>("ten".to_string()), Ok("twenty".to_string())].into_iter();
    let cache = HashmapCache::new();
    let mut it = ResultCacheLookupIterator::new(rows, cache.handle(), vec![], true);
    assert_eq!(it.settle(Ok(Some("five".to_string()))), (Some(Ok("five".to_string())), false));
    assert_eq!(it.settle(Ok(None)), (Some(Ok("ten".to_string())), true));
    assert_eq!(it.settle(Err(CacheError::new("down"))), (None, false));
    assert_eq!(it.settle(Ok(None)), (None, false));
}

#[test]
fn failed_puts_do_not_stop_populating() {
    let items: Vec<Result<(Student, String), String>> =
        vec![Ok((student(1, "John", None), "student:1".to_string()))];
    let out: Vec<_> = Populating(ResultCachingIterator::new(items.into_iter(), BrokenCache)).collect();
    assert_eq!(out, vec![Ok(student(1, "John", None))]);
}

#[test]
fn failed_deletion_skips_the_update() {
    let mut db = database();
    let update = UpdateWrapper::single_key((2, "Ori2"), BrokenCache, "student:2");
    let (result, _) = update.execute(|(id, name)| update_name(&mut db, id, name));
    let (err, unexecuted) = result.unwrap_err();
    assert_eq!(err.message(), "down");
    assert_eq!(unexecuted, (2, "Ori2"));
    assert_eq!(db, database());
}

#[test]
fn invalidate_keys_deletes_every_key_before_the_update() {
    let cache = HashmapCache::new();
    let mut h = cache.handle();
    for k in ["student:1", "student:2", "student:3"] {
        h.put(&k.to_string(), &k.to_string()).unwrap();
    }
    let keys = vec!["student:1".to_string(), "student:3".to_string()];
    let update = UpdateWrapper::new("update", keys, h.clone());
    let probe = h.clone();
    let (result, _) = update
        .execute(|_| probe.scan_keys("*").unwrap().into_iter().map(|(k, _)| k).collect::<Vec<_>>());
    let seen = result.unwrap();
    assert_eq!(seen, vec!["student:2".to_string()]);
}

#[test]
fn failed_lookup_ends_the_stream() {
    let db = database();
    let pulls = Rc::new(Cell::new(0));
    let rows = Counted { rows: select(&db, &[1, 2, 3]).into_iter(), pulls: pulls.clone() };
    let keys = vec!["student:1".to_string(), "student:2".to_string()];
    let mut it = ResultCacheLookupIterator::new(rows, BrokenCache, keys, false);
    assert_eq!(it.next(), None);
    assert_eq!(it.next(), None);
    assert_eq!(pulls.get(), 1);
}

#[test]
fn no_keys_emit_nothing() {
    let db = database();
    let cache = HashmapCache::new();
    let pulls = Rc::new(Cell::new(0));
    let rows = Counted { rows: select(&db, &[1]).into_iter(), pulls: pulls.clone() };
    let mut it = ResultCacheLookupIterator::new(rows, cache.handle(), vec![], true);
    assert_eq!(it.next(), None);
    assert_eq!(pulls.get(), 0);
}

#[test]
fn repeated_keys_are_looked_up_each_time() {
    let db = database();
    let cache = HashmapCache::new();
    let keys = vec!["student:1".to_string(), "student:1".to_string()];
    let it = ResultCacheLookupIterator::new(select(&db, &[1, 2]).into_iter(), cache.handle(), keys.clone(), false);
    assert_eq!(oks(Lookup(it).collect()), vec![db[0].clone(), db[1].clone()]);

    let pulls = Rc::new(Cell::new(0));
    let rows = Counted { rows: select(&db, &[1, 2]).into_iter(), pulls: pulls.clone() };
    let it = ResultCacheLookupIterator::new(rows, cache.handle(), keys, true);
    assert_eq!(oks(Lookup(it).collect()), vec![db[0].clone(), db[0].clone()]);
    assert_eq!(pulls.get(), 1);
}

#[test]
fn update_without_keys_just_runs() {
    let cache = HashmapCache::new();
    let update = UpdateWrapper::new(5, vec![], cache.handle());
    assert_eq!(update.execute(|n| n * 2).0.unwrap(), 10);
}

#[test]
fn drain_emits_every_row_and_writes_the_successful_pairs() {
    let cache = HashmapCache::new();
    let h = cache.handle();
    let items: Vec<Result<(Student, String), String>> = vec![
        Ok((student(1, "John", None), "student:1".to_string())),
        Err("db down".to_string()),
        Ok((student(3, "Dan", None), "student:3".to_string())),
    ];
    let mut it = ResultCachingIterator::new(items.into_iter(), h.clone());
    let out = it.drain();
    assert_eq!(
        out,
        vec![Ok(student(1, "John", None)), Err("db down".to_string()), Ok(student(3, "Dan", None))]
    );
    assert_eq!(it.next(), None);
    let mut keys: Vec<String> = h.scan_keys("*").unwrap().into_iter().map(|(k, _)| k).collect();
    keys.sort();
    assert_eq!(keys, vec!["student:1".to_string(), "student:3".to_string()]);
}

#[test]
fn recorded_cache_passes_calls_through() {
    let cache = HashmapCache::new();
    let mut rec: RecordedCache<HashmapCacheHandle, String> = RecordedCache::new(cache.handle());
    let key = "k".to_string();
    assert!(matches!(rec.get(&key), Ok(None)));
    rec.put(&key, &"v".to_string()).unwrap();
    assert_eq!(rec.get(&key).unwrap(), Some("v".to_string()));
    rec.delete(&key).unwrap();
    let h = rec.into_handle();
    assert_eq!(h.get::<String>(&key).unwrap(), None);
}

#[test]
fn lookup_drain_serves_hits_and_stops_at_the_first_empty_step() {
    let db = database();
    let cache = HashmapCache::new();
    let h = cache.handle();
    populate(&db, &[2], &h);
    let keys = vec!["student:2".to_string(), "student:9".to_string(), "student:3".to_string()];
    let pulls = Rc::new(Cell::new(0));
    let rows = Counted { rows: Vec::<Result<Student, String>>::new().into_iter(), pulls: pulls.clone() };
    let mut it = ResultCacheLookupIterator::new(rows, h.clone(), keys, true);
    let out = oks(it.drain());
    assert_eq!(out, vec![db[1].clone()]);
    assert_eq!(pulls.get(), 1);
    assert_eq!(it.next(), None);
}

#[test]
fn lookup_drain_with_all_misses_writes_back_in_order() {
    let db = database();
    let cache = HashmapCache::new();
    let h = cache.handle();
    let keys = vec!["x".to_string(), "y".to_string()];
    let mut it = ResultCacheLookupIterator::new(select(&db, &[1, 2, 3]).into_iter(), h.clone(), keys, true);
    assert_eq!(oks(it.drain()), vec![db[0].clone(), db[1].clone()]);
    assert_eq!(h.get::<Student>(&"y".to_string()).unwrap(), Some(db[1].clone()));
}
