use crate::error::CacheError;
use crate::table::EntryTable;
use std::cell::Cell;
use std::rc::Rc;
use vstd::prelude::*;

verus! {

#[verifier::external_type_specification]
#[verifier::external_body]
pub struct ExJsonError(serde_json::Error);

#[verifier::external_type_specification]
#[verifier::external_body]
#[verifier::reject_recursive_types(T)]
pub struct ExCell<T: ?Sized>(Cell<T>);

/// Relies on std's Cell::new: a cell holding the value.
pub assume_specification<T>[ Cell::<T>::new ](value: T) -> Cell<T>;

/// Relies on std's Cell::replace: puts `val` in the cell and hands back what
/// it held. It never panics.
pub assume_specification<T>[ Cell::<T>::replace ](cell: &Cell<T>, val: T) -> T;

/// The lower-case hexadecimal digit of `n`, below 16.
pub open spec fn hex_digit(n: int) -> char {
    seq!['0', '1', '2', '3', '4', '5', '6', '7', '8', '9', 'a', 'b', 'c', 'd', 'e', 'f'][n]
}

/// How serde_json writes one character inside a JSON string: the quote and
/// the backslash escaped, the control characters with a short escape where
/// JSON has one and as `\u00XX` otherwise, every other character as it is.
pub open spec fn json_char_text(c: char) -> Seq<char> {
    if c == '"' {
        seq!['\\', '"']
    } else if c == '\\' {
        seq!['\\', '\\']
    } else if c == '\u{8}' {
        seq!['\\', 'b']
    } else if c == '\t' {
        seq!['\\', 't']
    } else if c == '\n' {
        seq!['\\', 'n']
    } else if c == '\u{c}' {
        seq!['\\', 'f']
    } else if c == '\r' {
        seq!['\\', 'r']
    } else if (c as u32) < 0x20 {
        seq!['\\', 'u', '0', '0', hex_digit((c as u32) as int / 16), hex_digit((c as u32) as int % 16)]
    } else {
        seq![c]
    }
}

/// The characters of a string, each written as in [`json_char_text`].
pub open spec fn json_chars_text(s: Seq<char>) -> Seq<char>
    decreases s.len(),
{
    if s.len() == 0 {
        Seq::empty()
    } else {
        json_char_text(s[0]) + json_chars_text(s.drop_first())
    }
}

/// The JSON text that serde_json writes for a string: its characters written
/// as in [`json_char_text`], between quotes.
pub open spec fn json_string_text(s: Seq<char>) -> Seq<char> {
    seq!['"'] + json_chars_text(s) + seq!['"']
}

/// The string that serde_json reads from a JSON text, if the text is one.
pub uninterp spec fn json_string_read(t: Seq<char>) -> Option<Seq<char>>;

/// Relies on serde_json::to_string on a `str`: the string between quotes,
/// escaped as serde_json's escape table says (see [`json_char_text`]). A
/// string is written into a `Vec`, which cannot fail.
#[verifier::external_body]
fn json_write_str(s: &str) -> (r: Result<String, serde_json::Error>)
    ensures
        r is Ok,
        r matches Ok(t) ==> t@ == json_string_text(s@),
{
    serde_json::to_string(s)
}

/// Relies on serde_json::from_str into a `String`: whether the text reads as a
/// JSON string, and which, depends on the text alone; the JSON text that
/// serde_json writes for a string reads back as that string (`parse_escape`
/// decodes every escape of the escape table).
#[verifier::external_body]
fn json_read_string(t: &str) -> (r: Result<String, serde_json::Error>)
    ensures
        r is Ok <==> json_string_read(t@) is Some,
        r matches Ok(s) ==> json_string_read(t@) == Some(s@),
        r is Err ==> forall|s: Seq<char>| t@ != json_string_text(s),
        r matches Ok(v) ==> forall|s: Seq<char>| t@ == json_string_text(s) ==> v@ == s,
{
    serde_json::from_str::<String>(t)
}

/// A row that a cache can hold: it is written to text on the way in and read
/// back from text on the way out.
///
/// An implementation may say which text it writes and what it reads back
/// through `written_as` and `read_as`; by default they admit anything.
pub trait CacheValue: Sized {
    /// Whether `text` is what this value is written as.
    open spec fn written_as(&self, text: Seq<char>) -> bool {
        true
    }

    /// Whether writing this value to text cannot fail. By default nothing
    /// is promised.
    open spec fn writable(&self) -> bool {
        false
    }

    /// Whether reading `text` may give `value`.
    open spec fn read_as(text: Seq<char>, value: Self) -> bool {
        true
    }

    /// Whether `from_cache_text` succeeds exactly on the texts that
    /// `readable` admits. By default nothing is promised.
    open spec fn decodes_exactly() -> bool {
        false
    }

    /// The texts that read back as a value, where `decodes_exactly` holds.
    open spec fn readable(text: Seq<char>) -> bool {
        true
    }

    /// Whether reading `text` may fail with `error`.
    open spec fn read_error(text: Seq<char>, error: CacheError) -> bool {
        true
    }

    /// Whether the text written for a value reads back as that value. By
    /// default nothing is promised.
    open spec fn written_reads_back() -> bool {
        false
    }

    fn to_cache_text(&self) -> (r: Result<String, CacheError>)
        ensures
            r matches Ok(t) ==> self.written_as(t@),
            self.writable() ==> r is Ok,
    ;

    fn from_cache_text(text: &String) -> (r: Result<Self, CacheError>)
        ensures
            r matches Ok(v) ==> Self::read_as(text@, v),
            r matches Err(e) ==> Self::read_error(text@, e),
            Self::decodes_exactly() ==> (r is Ok <==> Self::readable(text@)),
            Self::written_reads_back() ==> forall|w: Self|
                #[trigger] w.written_as(text@) ==> r is Ok && Self::read_as(text@, w),
    ;
}

impl CacheValue for String {
    /// A string is written as its JSON text.
    open spec fn written_as(&self, text: Seq<char>) -> bool {
        text == json_string_text(self@)
    }

    /// Writing a string to JSON cannot fail.
    open spec fn writable(&self) -> bool {
        true
    }

    /// A string is read back from JSON text.
    open spec fn read_as(text: Seq<char>, value: String) -> bool {
        json_string_read(text) == Some(value@)
    }

    open spec fn decodes_exactly() -> bool {
        true
    }

    open spec fn written_reads_back() -> bool {
        true
    }

    /// The texts that read as a JSON string.
    open spec fn readable(text: Seq<char>) -> bool {
        json_string_read(text) is Some
    }

    /// A failed read says so, and carries serde_json's error as its cause.
    open spec fn read_error(text: Seq<char>, error: CacheError) -> bool {
        error.message_text() == "Failed to deserialize value"@ && error.cause_text() is Some
    }

    /// The JSON form of the string.
    fn to_cache_text(&self) -> (r: Result<String, CacheError>)
        ensures
            r matches Ok(t) && t@ == json_string_text(self@),
    {
        match json_write_str(self.as_str()) {
            Ok(t) => Ok(t),
            Err(e) => Err(CacheError::with_cause("Failed to serialize value", e)),
        }
    }

    /// Reads the JSON form of a string back.
    fn from_cache_text(text: &String) -> (r: Result<String, CacheError>)
        ensures
            r is Ok <==> json_string_read(text@) is Some,
            r matches Ok(s) ==> json_string_read(text@) == Some(s@),
            r matches Err(e) ==> e.message_text() == "Failed to deserialize value"@
                && e.cause_text() is Some,
            forall|s: Seq<char>| text@ == json_string_text(s) ==> (r matches Ok(v) && v@ == s),
    {
        match json_read_string(text.as_str()) {
            Ok(s) => Ok(s),
            Err(e) => {
                let err = CacheError::with_cause("Failed to deserialize value", e);
                proof {
                    reveal_strlit("Failed to deserialize value");
                }
                Err(err)
            },
        }
    }
}

/// What a read returns for the text stored under its key: a miss when there
/// is none, else the value read back from the text. Text that does not read
/// back is an error, never a miss.
pub fn decode_stored<V: CacheValue>(stored: Option<&String>) -> (r: Result<Option<V>, CacheError>)
    ensures
        stored is None ==> r matches Ok(None),
        stored matches Some(t) ==> {
            &&& !(r matches Ok(None))
            &&& r matches Ok(Some(v)) ==> V::read_as(t@, v)
            &&& r matches Err(e) ==> V::read_error(t@, e)
            &&& V::decodes_exactly() ==> (r is Ok <==> V::readable(t@))
            &&& V::written_reads_back() ==> forall|w: V|
                #[trigger] w.written_as(t@) ==> (r matches Ok(Some(_)) && V::read_as(t@, w))
        },
{
    match stored {
        Some(text) => match V::from_cache_text(text) {
            Ok(v) => Ok(Some(v)),
            Err(e) => Err(e),
        },
        None => Ok(None),
    }
}

/// A cheap, cloneable reference to a key/value store. Every clone reaches the
/// same store. Values go in and out through [`CacheValue`].
///
/// `get` tells a miss (`Ok(None)`) apart from a failure (`Err`); `delete` of an
/// absent key succeeds. What a store holds is shared by every clone, so the
/// trait promises nothing of it; [`RecordedCache`] states which calls reach a
/// handle.
pub trait CacheHandle: Clone {
    fn get<V: CacheValue>(&self, key: &String) -> Result<Option<V>, CacheError>;

    fn put<V: CacheValue>(&mut self, key: &String, value: &V) -> Result<(), CacheError>;

    fn delete(&mut self, key: &String) -> Result<(), CacheError>;

    /// The stored entries whose key matches a glob pattern (`*`, `?`), with
    /// their stored text.
    fn scan_keys(&self, pattern: &str) -> Result<Vec<(String, String)>, CacheError>;
}

/// A call made on a cache handle, with what it returned.
pub enum CacheCall<U> {
    Get(Seq<char>, Result<Option<U>, CacheError>),
    Put(Seq<char>, U, Result<(), CacheError>),
    Delete(Seq<char>, Result<(), CacheError>),
}

/// A cache handle that keeps the record of the calls made through it, each
/// with its key, its row and its result.
pub struct RecordedCache<C, U> {
    handle: C,
    calls: Ghost<Seq<CacheCall<U>>>,
}

impl<C, U> RecordedCache<C, U> {
    /// The calls made so far, in order.
    pub closed spec fn calls(&self) -> Seq<CacheCall<U>> {
        self.calls@
    }

    pub fn new(handle: C) -> (c: Self)
        ensures
            c.calls() == Seq::<CacheCall<U>>::empty(),
    {
        RecordedCache { handle, calls: Ghost(Seq::empty()) }
    }

    /// The handle itself.
    pub fn into_handle(self) -> C {
        self.handle
    }
}

impl<C: CacheHandle, U> RecordedCache<C, U> {
    /// Deletes `key` through the handle and records the call.
    pub fn delete(&mut self, key: &String) -> (r: Result<(), CacheError>)
        ensures
            final(self).calls() == old(self).calls().push(CacheCall::Delete(key@, r)),
    {
        let r = self.handle.delete(key);
        proof {
            self.calls@ = self.calls@.push(CacheCall::Delete(key@, r));
        }
        r
    }
}

impl<C: CacheHandle, U: CacheValue> RecordedCache<C, U> {
    /// Reads `key` through the handle and records the call with its answer.
    pub fn get(&mut self, key: &String) -> (r: Result<Option<U>, CacheError>)
        ensures
            final(self).calls() == old(self).calls().push(CacheCall::Get(key@, r)),
    {
        let r = self.handle.get::<U>(key);
        proof {
            self.calls@ = self.calls@.push(CacheCall::Get(key@, r));
        }
        r
    }

    /// Writes `row` under `key` through the handle and records the call.
    pub fn put(&mut self, key: &String, row: &U) -> (r: Result<(), CacheError>)
        ensures
            final(self).calls() == old(self).calls().push(CacheCall::Put(key@, *row, r)),
    {
        let r = self.handle.put(key, row);
        proof {
            self.calls@ = self.calls@.push(CacheCall::Put(key@, *row, r));
        }
        r
    }
}

/// An in-memory cache: one table shared by every handle made from it.
pub struct HashmapCache {
    table: Rc<Cell<EntryTable>>,
}

/// A handle to a [`HashmapCache`]; its clones share the cache's table.
#[derive(Clone)]
pub struct HashmapCacheHandle {
    table: Rc<Cell<EntryTable>>,
}

impl HashmapCache {
    pub fn new() -> (c: HashmapCache) {
        HashmapCache { table: Rc::new(Cell::new(EntryTable::new())) }
    }

    /// A new handle to this cache's table.
    pub fn handle(&self) -> HashmapCacheHandle {
        HashmapCacheHandle { table: self.table.clone() }
    }

}

impl CacheHandle for HashmapCacheHandle {
    /// Reads the text stored under `key` and turns it back into a value (see
    /// [`decode_stored`]); text that does not read back is an error, never a
    /// miss.
    fn get<V: CacheValue>(&self, key: &String) -> (r: Result<Option<V>, CacheError>)
        ensures
            r matches Ok(Some(v)) ==> exists|t: Seq<char>| #[trigger] V::read_as(t, v),
            r matches Err(e) ==> exists|t: Seq<char>| #[trigger] V::read_error(t, e),
    {
        let t = self.table.replace(EntryTable::new());
        let stored = match t.get(key) {
            Some(text) => Some(text.clone()),
            None => None,
        };
        let _ = self.table.replace(t);
        let r = decode_stored(stored.as_ref());
        proof {
            if stored is Some {
                let text = stored->0;
                if r is Ok && r->Ok_0 is Some {
                    assert(V::read_as(text@, r->Ok_0->Some_0));
                }
                if r is Err {
                    assert(V::read_error(text@, r->Err_0));
                }
            }
        }
        r
    }

    /// Writes the value's text under `key`, replacing what was there; the
    /// table is left alone when the value cannot be written to text.
    fn put<V: CacheValue>(&mut self, key: &String, value: &V) -> (r: Result<(), CacheError>)
        ensures
            value.writable() ==> r is Ok,
    {
        let text = match value.to_cache_text() {
            Ok(text) => text,
            Err(e) => {
                return Err(e);
            },
        };
        let mut t = self.table.replace(EntryTable::new());
        t.insert(key.clone(), text);
        let _ = self.table.replace(t);
        Ok(())
    }

    /// Deleting never fails, whether or not the key is there.
    fn delete(&mut self, key: &String) -> (r: Result<(), CacheError>)
        ensures
            r is Ok,
    {
        let mut t = self.table.replace(EntryTable::new());
        t.remove(key);
        let _ = self.table.replace(t);
        Ok(())
    }

    /// Scanning the table never fails.
    fn scan_keys(&self, pattern: &str) -> (r: Result<Vec<(String, String)>, CacheError>)
        ensures
            r is Ok,
    {
        let t = self.table.replace(EntryTable::new());
        let found = t.scan(pattern);
        let _ = self.table.replace(t);
        Ok(found)
    }
}

} // verus!
