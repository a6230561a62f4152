use crate::cacher::{CacheCall, CacheHandle, CacheValue, RecordedCache};
use crate::error::CacheError;
use vstd::prelude::*;
use vstd::std_specs::iter::IteratorSpec;

verus! {

/// What the populating engine emits for one item of its inner rows, and the
/// key under which the row is to be written, for a successful item only.
pub open spec fn populate_spec<U, E>(item: Option<Result<(U, String), E>>) -> (
    Option<Result<U, E>>,
    Option<Seq<char>>,
) {
    match item {
        Some(Ok((row, key))) => (Some(Ok(row)), Some(key@)),
        Some(Err(e)) => (Some(Err(e)), None),
        None => (None, None),
    }
}

/// Splits one item of a `(row, key)` stream into the item to emit and the key
/// to write its row under: a failed item is passed on unchanged and written
/// nowhere.
pub fn populate_step<U, E>(item: Option<Result<(U, String), E>>) -> (r: (
    Option<Result<U, E>>,
    Option<String>,
))
    ensures
        r.0 == populate_spec(item).0,
        match r.1 {
            Some(k) => populate_spec(item).1 == Some(k@),
            None => populate_spec(item).1 is None,
        },
{
    match item {
        Some(Ok((row, key))) => (Some(Ok(row)), Some(key)),
        Some(Err(e)) => (Some(Err(e)), None),
        None => (None, None),
    }
}

/// The first item of `rows`, and what is left after it.
pub open spec fn pull_spec<T>(rows: Seq<T>) -> (Option<T>, Seq<T>) {
    if rows.len() > 0 {
        (Some(rows[0]), rows.drop_first())
    } else {
        (None, rows)
    }
}

/// What one lookup step yields, given what the cache answered for its key and
/// the rows still waiting in the inner query, together with the rows left
/// afterwards.
///
/// A hit is emitted as it is and leaves the rows alone. A miss takes the next
/// row and emits it (nothing, when the rows have run out). A failed lookup
/// takes the next row, drops it, and emits nothing, which ends the stream.
pub open spec fn lookup_spec<U, E>(found: Result<Option<U>, CacheError>, rows: Seq<Result<U, E>>) -> (
    Option<Result<U, E>>,
    Seq<Result<U, E>>,
) {
    match found {
        Ok(Some(v)) => (Some(Ok(v)), rows),
        Ok(None) => pull_spec(rows),
        Err(_) => (None, pull_spec(rows).1),
    }
}

/// Whether a lookup step writes the row it emits back to the cache: only a
/// successful row fetched on a miss, and only when the engine populates.
pub open spec fn writes_back<U, E>(
    populate: bool,
    found: Result<Option<U>, CacheError>,
    emitted: Option<Result<U, E>>,
) -> bool {
    populate && found == Ok::<Option<U>, CacheError>(None) && emitted matches Some(Ok(_))
}

/// Whether `after` is `before` followed by one put of `row` under `key`
/// (whatever the put returned).
pub open spec fn put_made<U>(
    before: Seq<CacheCall<U>>,
    after: Seq<CacheCall<U>>,
    key: Seq<char>,
    row: U,
) -> bool {
    &&& after.len() == before.len() + 1
    &&& after.drop_last() == before
    &&& after.last() matches CacheCall::Put(k, v, _) && k == key && v == row
}

/// What one lookup step takes from the inner query, given what the cache
/// answered: a hit emits the cached value and takes nothing; a miss takes one
/// item and emits it; a failed lookup takes one item and emits nothing.
pub open spec fn lookup_pulled<U, E>(
    found: Result<Option<U>, CacheError>,
    pulled_before: Seq<Option<Result<U, E>>>,
    pulled_after: Seq<Option<Result<U, E>>>,
    emitted: Option<Result<U, E>>,
) -> bool {
    match found {
        Ok(Some(v)) => emitted == Some(Ok::<U, E>(v)) && pulled_after == pulled_before,
        Ok(None) => pulled_one(pulled_before, pulled_after) && emitted == pulled_after.last(),
        Err(_) => pulled_one(pulled_before, pulled_after) && emitted is None,
    }
}

/// Whether `after` is `before` followed by the calls of one lookup step for
/// `key`: a read of the key, then, when the step writes back (see
/// [`writes_back`]), one put of the emitted row under the same key. What the
/// step takes from the inner query and emits follows [`lookup_pulled`] for
/// what the read returned; when the rows are known, the emitted item and the
/// rows left are also those of [`lookup_spec`].
pub open spec fn lookup_step_made<U, E>(
    before: Seq<CacheCall<U>>,
    after: Seq<CacheCall<U>>,
    key: Seq<char>,
    populate: bool,
    rows_known: bool,
    rows_before: Seq<Result<U, E>>,
    rows_after: Seq<Result<U, E>>,
    pulled_before: Seq<Option<Result<U, E>>>,
    pulled_after: Seq<Option<Result<U, E>>>,
    emitted: Option<Result<U, E>>,
) -> bool {
    &&& after.len() > before.len()
    &&& after.subrange(0, before.len() as int) == before
    &&& after[before.len() as int] matches CacheCall::Get(k, found) && k == key && lookup_pulled(
        found,
        pulled_before,
        pulled_after,
        emitted,
    ) && (rows_known ==> (
        emitted,
        rows_after,
    ) == lookup_spec(found, rows_before)) && if writes_back(populate, found, emitted) {
        &&& after.len() == before.len() + 2
        &&& after[before.len() + 1int] matches CacheCall::Put(pk, row, _) && pk == key && emitted
            == Some(Ok::<U, E>(row))
    } else {
        after.len() == before.len() + 1
    }
}

/// The rows of a query, with the record of every item taken from them.
pub struct RecordedRows<I: Iterator> {
    pub iter: I,
    pub pulled: Ghost<Seq<Option<I::Item>>>,
}

impl<I: Iterator> RecordedRows<I> {
    pub fn new(iter: I) -> (rows: Self)
        ensures
            rows.iter == iter,
            rows.pulled@ == Seq::<Option<I::Item>>::empty(),
    {
        RecordedRows { iter, pulled: Ghost(Seq::empty()) }
    }

    /// Takes the next item and records it. When the rows behave as a plain
    /// finite iterator, it is the first of those still waiting.
    pub fn pull(&mut self) -> (r: Option<I::Item>)
        ensures
            final(self).pulled@ == old(self).pulled@.push(r),
            final(self).iter.obeys_prophetic_iter_laws() == old(self).iter.obeys_prophetic_iter_laws(),
            old(self).iter.obeys_prophetic_iter_laws() ==> (r, final(self).iter.remaining())
                == pull_spec(old(self).iter.remaining()),
            old(self).iter.obeys_prophetic_iter_laws() ==> (old(self).iter.decrease() is Some
                <==> final(self).iter.decrease() is Some),
            old(self).iter.obeys_prophetic_iter_laws() && old(self).iter.remaining().len() > 0
                && final(self).iter.decrease() is Some ==> decreases_to!(old(self).iter.decrease()->0 => final(self).iter.decrease()->0),
    {
        let r = self.iter.next();
        proof {
            self.pulled@ = self.pulled@.push(r);
        }
        r
    }
}

/// Whether `after` is `before` with one more item taken.
pub open spec fn pulled_one<T>(before: Seq<T>, after: Seq<T>) -> bool {
    after.len() == before.len() + 1 && after.drop_last() == before
}

/// The engine behind `populate_cache`: it streams the rows of a query that
/// yields `(row, key)` pairs and writes each successful row to the cache
/// under its key. A failed write does not stop the stream.
pub struct ResultCachingIterator<I: Iterator, C, U> {
    pub inner: RecordedRows<I>,
    pub cache: RecordedCache<C, U>,
}

impl<I, U, E, C> ResultCachingIterator<I, C, U> where
    I: Iterator<Item = Result<(U, String), E>>,
    U: CacheValue,
    C: CacheHandle,
 {
    pub fn new(inner: I, cache: C) -> (it: Self)
        ensures
            it.inner.iter == inner,
            it.inner.pulled@ == Seq::<Option<I::Item>>::empty(),
            it.cache.calls() == Seq::<CacheCall<U>>::empty(),
    {
        ResultCachingIterator { inner: RecordedRows::new(inner), cache: RecordedCache::new(cache) }
    }

    /// Takes the next item of the inner query (recorded in `inner.pulled`),
    /// writes its row to the cache when it is successful, and emits the row
    /// (or the query's error).
    pub fn next(&mut self) -> (r: Option<Result<U, E>>)
        ensures
            final(self).inner.iter.obeys_prophetic_iter_laws() == old(self).inner.iter.obeys_prophetic_iter_laws(),
            old(self).inner.iter.obeys_prophetic_iter_laws() ==> (old(self).inner.iter.decrease() is Some
                <==> final(self).inner.iter.decrease() is Some),
            old(self).inner.iter.obeys_prophetic_iter_laws() && old(self).inner.iter.remaining().len() > 0
                && final(self).inner.iter.decrease() is Some ==> decreases_to!(old(self).inner.iter.decrease()->0 => final(self).inner.iter.decrease()->0),
            pulled_one(old(self).inner.pulled@, final(self).inner.pulled@),
            r == populate_spec(final(self).inner.pulled@.last()).0,
            match final(self).inner.pulled@.last() {
                Some(Ok((row, key))) => put_made(
                    old(self).cache.calls(),
                    final(self).cache.calls(),
                    key@,
                    row,
                ),
                _ => final(self).cache.calls() == old(self).cache.calls(),
            },
            old(self).inner.iter.obeys_prophetic_iter_laws() ==> final(self).inner.pulled@.last()
                == pull_spec(old(self).inner.iter.remaining()).0 && final(self).inner.iter.remaining()
                == pull_spec(old(self).inner.iter.remaining()).1,
    {
        let item = self.inner.pull();
        assert(self.inner.pulled@.drop_last() =~= old(self).inner.pulled@);
        let (emitted, key) = populate_step(item);
        match (&key, &emitted) {
            (Some(k), Some(Ok(row))) => {
                let _ = self.cache.put(k, row);
                assert(self.cache.calls().drop_last() =~= old(self).cache.calls());
            },
            _ => {},
        }
        emitted
    }

    /// Runs the engine to the end of its inner rows: it emits the row (or
    /// the error) of every item in order, and puts exactly the successful
    /// pairs, in order, each row under its own key.
    pub fn drain(&mut self) -> (r: Vec<Result<U, E>>)
        requires
            old(self).inner.iter.obeys_prophetic_iter_laws(),
            old(self).inner.iter.decrease() is Some,
        ensures
            r@ == old(self).inner.iter.remaining().map_values(|it: Result<(U, String), E>| row_of(it)),
            final(self).inner.iter.remaining().len() == 0,
            final(self).inner.iter.obeys_prophetic_iter_laws(),
            puts_made(
                old(self).cache.calls(),
                final(self).cache.calls(),
                successful_pairs(old(self).inner.iter.remaining()),
            ),
    {
        let ghost items = self.inner.iter.remaining();
        let ghost start = self.cache.calls();
        let mut out: Vec<Result<U, E>> = Vec::new();
        assert(items.take(0).map_values(|it: Result<(U, String), E>| row_of(it)) =~= out@);
        assert(items.skip(0) =~= items);
        assert(self.cache.calls().subrange(0, start.len() as int) =~= start);
        loop
            invariant
                self.inner.iter.obeys_prophetic_iter_laws(),
                self.inner.iter.decrease() is Some,
                out.len() <= items.len(),
                self.inner.iter.remaining() == items.skip(out.len() as int),
                out@ == items.take(out.len() as int).map_values(
                    |it: Result<(U, String), E>| row_of(it),
                ),
                puts_made(start, self.cache.calls(), successful_pairs(items.take(out.len() as int))),
            ensures
                out.len() == items.len(),
                self.inner.iter.remaining().len() == 0,
            decreases self.inner.iter.decrease()->0,
        {
            let ghost n = out.len() as int;
            let ghost calls_before = self.cache.calls();
            match self.next() {
                Some(x) => {
                    proof {
                        assert(items.skip(n).len() > 0);
                        assert(items.skip(n)[0] == items[n]);
                        assert(items.skip(n).drop_first() =~= items.skip(n + 1));
                        assert(items.take(n + 1) =~= items.take(n).push(items[n]));
                        lemma_successful_pairs_push(items.take(n), items[n]);
                        lemma_puts_extend(start, calls_before, self.cache.calls(), successful_pairs(items.take(n)), items[n]);
                    }
                    out.push(x);
                    assert(out@ =~= items.take(n + 1).map_values(
                        |it: Result<(U, String), E>| row_of(it),
                    ));
                },
                None => {
                    assert(items.skip(n).len() == 0);
                    break ;
                },
            }
        }
        assert(items.take(items.len() as int) =~= items);
        out
    }
}

/// Whether `after` is `before` followed by one put for each `(key, row)` of
/// `pairs`, in order (whatever each put returned).
pub open spec fn puts_made<U>(
    before: Seq<CacheCall<U>>,
    after: Seq<CacheCall<U>>,
    pairs: Seq<(Seq<char>, U)>,
) -> bool {
    &&& after.len() == before.len() + pairs.len()
    &&& after.subrange(0, before.len() as int) == before
    &&& forall|i: int|
        0 <= i < pairs.len() ==> (#[trigger] after[before.len() + i] matches CacheCall::Put(k, v, _)
            && k == pairs[i].0 && v == pairs[i].1)
}

/// The successful pairs of a stream grow by the pair of an item added at
/// its end, if that item is successful.
proof fn lemma_successful_pairs_push<U, E>(items: Seq<Result<(U, String), E>>, last: Result<(U, String), E>)
    ensures
        successful_pairs(items.push(last)) == successful_pairs(items) + match last {
            Ok((row, key)) => seq![(key@, row)],
            Err(_) => Seq::<(Seq<char>, U)>::empty(),
        },
    decreases items.len(),
{
    let tail = match last {
        Ok((row, key)) => seq![(key@, row)],
        Err(_) => Seq::<(Seq<char>, U)>::empty(),
    };
    if items.len() == 0 {
        assert(items.push(last).drop_first() =~= Seq::<Result<(U, String), E>>::empty());
        assert(items.push(last)[0] == last);
        assert(successful_pairs(items.push(last).drop_first()) == Seq::<(Seq<char>, U)>::empty());
        assert(successful_pairs(items) =~= Seq::<(Seq<char>, U)>::empty());
        assert(Seq::<(Seq<char>, U)>::empty() + tail =~= tail);
        assert(tail + Seq::<(Seq<char>, U)>::empty() =~= tail);
    } else {
        lemma_successful_pairs_push(items.drop_first(), last);
        assert(items.push(last).drop_first() =~= items.drop_first().push(last));
        assert(items.push(last)[0] == items[0]);
        match items[0] {
            Ok((row, key)) => {
                assert(seq![(key@, row)] + (successful_pairs(items.drop_first()) + tail) =~= (seq![
                    (key@, row),
                ] + successful_pairs(items.drop_first())) + tail);
            },
            Err(_) => {},
        }
    }
}

/// One more populating step extends the puts made by the pair of its item.
proof fn lemma_puts_extend<U, E>(
    start: Seq<CacheCall<U>>,
    before: Seq<CacheCall<U>>,
    after: Seq<CacheCall<U>>,
    pairs: Seq<(Seq<char>, U)>,
    item: Result<(U, String), E>,
)
    requires
        puts_made(start, before, pairs),
        match item {
            Ok((row, key)) => put_made(before, after, key@, row),
            Err(_) => after == before,
        },
    ensures
        puts_made(start, after, pairs + match item {
            Ok((row, key)) => seq![(key@, row)],
            Err(_) => Seq::<(Seq<char>, U)>::empty(),
        }),
{
    match item {
        Ok((row, key)) => {
            let more = pairs + seq![(key@, row)];
            assert(after.subrange(0, start.len() as int) =~= before.subrange(0, start.len() as int)) by {
                assert(after.drop_last() == before);
            }
            assert forall|i: int| 0 <= i < more.len() implies (#[trigger] after[start.len() + i] matches CacheCall::Put(k, v, _)
                && k == more[i].0 && v == more[i].1) by {
                if i < pairs.len() {
                    assert(after[start.len() + i] == before[start.len() + i]);
                } else {
                    assert(after[start.len() + i] == after.last());
                }
            }
        },
        Err(_) => {
            assert(pairs + Seq::<(Seq<char>, U)>::empty() =~= pairs);
        },
    }
}

/// The engine behind `try_from_cache`, `try_from_cache_multi` and
/// `try_from_cache_and_populate`: for each key in turn it serves the row from
/// the cache, or on a miss takes the next row of the inner query, writing it
/// back when it populates. Rows come out in the order of the keys.
pub struct ResultCacheLookupIterator<I: Iterator, C, U> {
    pub inner: RecordedRows<I>,
    pub keys: Vec<String>,
    pub position: usize,
    pub cache: RecordedCache<C, U>,
    pub populate: bool,
}

impl<I, U, E, C> ResultCacheLookupIterator<I, C, U> where
    I: Iterator<Item = Result<U, E>>,
    U: CacheValue,
    C: CacheHandle,
 {
    /// The keys not looked up yet, in order.
    pub open spec fn pending_keys(&self) -> Seq<Seq<char>> {
        if self.position <= self.keys.len() {
            self.keys@.skip(self.position as int).map_values(|k: String| k@)
        } else {
            Seq::empty()
        }
    }

    /// Whether rows fetched on a miss are written back to the cache.
    pub open spec fn populates(&self) -> bool {
        self.populate
    }

    pub fn new(inner: I, cache: C, keys: Vec<String>, populate: bool) -> (it: Self)
        ensures
            it.inner.iter == inner,
            it.inner.pulled@ == Seq::<Option<I::Item>>::empty(),
            it.cache.calls() == Seq::<CacheCall<U>>::empty(),
            it.keys == keys,
            it.position == 0,
            it.pending_keys() == keys@.map_values(|k: String| k@),
            it.populates() == populate,
    {
        let it = ResultCacheLookupIterator {
            inner: RecordedRows::new(inner),
            keys,
            position: 0,
            cache: RecordedCache::new(cache),
            populate,
        };
        assert(it.keys@.skip(0) =~= keys@);
        it
    }

    /// Settles the current key from what the cache answered for it (see
    /// [`lookup_spec`]). Returns the item to emit, and whether that item is to
    /// be written back to the cache (see [`writes_back`]).
    pub fn settle(&mut self, found: Result<Option<U>, CacheError>) -> (r: (
        Option<Result<U, E>>,
        bool,
    ))
        ensures
            final(self).pending_keys() == old(self).pending_keys(),
            final(self).populates() == old(self).populates(),
            final(self).cache.calls() == old(self).cache.calls(),
            lookup_pulled(found, old(self).inner.pulled@, final(self).inner.pulled@, r.0),
            found matches Ok(Some(_)) ==> final(self).inner == old(self).inner,
            final(self).inner.iter.obeys_prophetic_iter_laws() == old(self).inner.iter.obeys_prophetic_iter_laws(),
            old(self).inner.iter.obeys_prophetic_iter_laws() ==> (r.0, final(self).inner.iter.remaining()) == lookup_spec(
                found,
                old(self).inner.iter.remaining(),
            ),
            r.1 == writes_back(old(self).populates(), found, r.0),
    {
        match found {
            Ok(Some(v)) => (Some(Ok(v)), false),
            Ok(None) => {
                let item = self.inner.pull();
                assert(self.inner.pulled@.drop_last() =~= old(self).inner.pulled@);
                let write = self.populate && match &item {
                    Some(Ok(_)) => true,
                    _ => false,
                };
                (item, write)
            },
            Err(_) => {
                let _ = self.inner.pull();
                assert(self.inner.pulled@.drop_last() =~= old(self).inner.pulled@);
                (None, false)
            },
        }
    }

    /// Looks the next key up and emits its row: see [`lookup_spec`] for what
    /// each answer of the cache leads to. A step that emits nothing ends the
    /// stream: the keys left are dropped. Once the keys have run out it emits
    /// nothing and touches nothing.
    pub fn next(&mut self) -> (r: Option<Result<U, E>>)
        ensures
            final(self).populates() == old(self).populates(),
            final(self).inner.iter.obeys_prophetic_iter_laws() == old(self).inner.iter.obeys_prophetic_iter_laws(),
            old(self).pending_keys().len() == 0 ==> r is None && final(self).pending_keys()
                == old(self).pending_keys() && final(self).inner.iter.remaining() == old(
                self,
            ).inner.iter.remaining() && final(self).inner.pulled@ == old(self).inner.pulled@
                && final(self).cache.calls() == old(self).cache.calls(),
            old(self).pending_keys().len() > 0 ==> lookup_step_made(
                old(self).cache.calls(),
                final(self).cache.calls(),
                old(self).pending_keys()[0],
                old(self).populates(),
                old(self).inner.iter.obeys_prophetic_iter_laws(),
                old(self).inner.iter.remaining(),
                final(self).inner.iter.remaining(),
                old(self).inner.pulled@,
                final(self).inner.pulled@,
                r,
            ),
            old(self).pending_keys().len() > 0 && r is Some ==> final(self).pending_keys()
                == old(self).pending_keys().drop_first(),
            r is None ==> final(self).pending_keys().len() == 0,
    {
        if self.position >= self.keys.len() {
            return None;
        }
        let key = self.keys[self.position].clone();
        assert(key@ == old(self).pending_keys()[0]);
        self.position = self.position + 1;
        assert(self.pending_keys() =~= old(self).pending_keys().drop_first());
        let found = self.cache.get(&key);
        let ghost answer = found;
        let ghost rows_before = self.inner.iter.remaining();
        let ghost calls_read = self.cache.calls();
        let (emitted, write) = self.settle(found);
        assert(self.inner.iter.obeys_prophetic_iter_laws() ==> (emitted, self.inner.iter.remaining())
            == lookup_spec(answer, rows_before));
        let ghost before = old(self).cache.calls();
        assert(calls_read == before.push(CacheCall::Get(key@, answer)));
        assert(calls_read[before.len() as int] == CacheCall::Get(key@, answer));
        if write {
            match &emitted {
                Some(Ok(row)) => {
                    let _ = self.cache.put(&key, row);
                    assert(self.cache.calls()[before.len() as int] == CacheCall::Get(key@, answer));
                    assert(self.cache.calls().subrange(0, before.len() as int) =~= before);
                },
                _ => {},
            }
        } else {
            assert(self.cache.calls().subrange(0, before.len() as int) =~= before);
        }
        if emitted.is_none() {
            self.position = self.keys.len();
        }
        emitted
    }

    /// Runs the engine until it emits nothing. Reading the answers of the
    /// cache off the record of calls, what it emits, the rows it leaves and
    /// the writes it makes are those of [`lookup_run`] and [`lookup_writes`]
    /// over the pending keys: so the laws [`lemma_all_hits`] and
    /// [`lemma_all_misses`] apply to it.
    pub fn drain(&mut self) -> (r: Vec<Result<U, E>>)
        requires
            old(self).inner.iter.obeys_prophetic_iter_laws(),
        ensures
            final(self).pending_keys().len() == 0,
            final(self).cache.calls().subrange(0, old(self).cache.calls().len() as int) == old(
                self,
            ).cache.calls(),
            lookup_drained(
                old(self).populates(),
                old(self).pending_keys(),
                old(self).inner.iter.remaining(),
                final(self).cache.calls().subrange(
                    old(self).cache.calls().len() as int,
                    final(self).cache.calls().len() as int,
                ),
                final(self).inner.iter.remaining(),
                r@,
            ),
    {
        let ghost keys0 = self.pending_keys();
        let ghost rows0 = self.inner.iter.remaining();
        let ghost pop0 = self.populates();
        let ghost c0 = self.cache.calls();
        let mut out: Vec<Result<U, E>> = Vec::new();
        proof {
            assert(self.cache.calls().subrange(0, c0.len() as int) =~= c0);
            assert(self.cache.calls().subrange(c0.len() as int, self.cache.calls().len() as int)
                =~= Seq::<CacheCall<U>>::empty());
            assert(keys0.skip(0) =~= keys0);
        }
        loop
            invariant_except_break
                out.len() <= keys0.len(),
                self.pending_keys() == keys0.skip(out.len() as int),
                answers_of(self.cache.calls().subrange(c0.len() as int, self.cache.calls().len() as int)).len() == out.len(),
                lookup_run(
                    answers_of(self.cache.calls().subrange(c0.len() as int, self.cache.calls().len() as int)),
                    rows0,
                ).0.len() == out.len(),
            invariant
                self.inner.iter.obeys_prophetic_iter_laws(),
                self.populates() == pop0,
                self.cache.calls().len() >= c0.len(),
                self.cache.calls().subrange(0, c0.len() as int) == c0,
                forall|i: int| 0 <= i < out.len() ==> #[trigger] lookup_run(
                    answers_of(self.cache.calls().subrange(c0.len() as int, self.cache.calls().len() as int)),
                    rows0,
                ).0[i] == Some(out@[i]),
                self.inner.iter.remaining() == lookup_run(
                    answers_of(self.cache.calls().subrange(c0.len() as int, self.cache.calls().len() as int)),
                    rows0,
                ).1,
                writes_of(self.cache.calls().subrange(c0.len() as int, self.cache.calls().len() as int))
                    == lookup_writes(
                    pop0,
                    keys0,
                    answers_of(self.cache.calls().subrange(c0.len() as int, self.cache.calls().len() as int)),
                    rows0,
                ),
            ensures
                self.pending_keys().len() == 0,
                self.cache.calls().subrange(0, c0.len() as int) == c0,
                lookup_drained(
                    pop0,
                    keys0,
                    rows0,
                    self.cache.calls().subrange(c0.len() as int, self.cache.calls().len() as int),
                    self.inner.iter.remaining(),
                    out@,
                ),
            decreases self.pending_keys().len(),
        {
            let ghost before = self.cache.calls();
            let ghost seg = before.subrange(c0.len() as int, before.len() as int);
            let ghost founds = answers_of(seg);
            let ghost n = out.len() as int;
            if self.position >= self.keys.len() {
                proof {
                    assert(keys0.skip(n).len() == 0);
                }
                break ;
            }
            let r = self.next();
            let ghost after = self.cache.calls();
            proof {
                let bl = before.len() as int;
                assert(keys0.skip(n)[0] == keys0[n]);
                assert(after.subrange(0, bl) == before);
                let found = after[bl]->Get_1;
                let seg1 = seg.push(after[bl]);
                assert(seg1.drop_last() =~= seg);
                assert(seg1.last() == after[bl]);
                assert(answers_of(seg1) == founds.push(found));
                assert(writes_of(seg1) == writes_of(seg));
                assert forall|i: int| 0 <= i < lookup_run(founds, rows0).0.len() implies (#[trigger] lookup_run(founds, rows0).0[i]) is Some by {
                    assert(lookup_run(founds, rows0).0[i] == Some(out@[i]));
                }
                lemma_lookup_run_push(founds, found, rows0);
                lemma_lookup_writes_push(pop0, keys0, founds, found, rows0);
                let emitted = lookup_spec(found, lookup_run(founds, rows0).1).0;
                assert(r == emitted);
                if writes_back(pop0, found, emitted) {
                    let seg2 = seg1.push(after[bl + 1]);
                    assert(seg2.drop_last() =~= seg1);
                    assert(seg2.last() == after[bl + 1]);
                    assert(after.subrange(c0.len() as int, after.len() as int) =~= seg2);
                    assert(answers_of(seg2) == answers_of(seg1));
                    assert(writes_of(seg2) == writes_of(seg1).push((after[bl + 1]->Put_0, after[bl + 1]->Put_1)));
                    assert(step_writes(pop0, keys0[n], found, lookup_run(founds, rows0).1) =~= seq![(after[bl + 1]->Put_0, after[bl + 1]->Put_1)]);
                    assert(writes_of(seg2) =~= writes_of(seg) + step_writes(pop0, keys0[n], found, lookup_run(founds, rows0).1));
                } else {
                    assert(after.subrange(c0.len() as int, after.len() as int) =~= seg1);
                    assert(step_writes(pop0, keys0[n], found, lookup_run(founds, rows0).1) =~= Seq::<(Seq<char>, U)>::empty());
                    assert(writes_of(seg1) =~= writes_of(seg) + Seq::<(Seq<char>, U)>::empty());
                }
                assert(after.subrange(0, c0.len() as int) =~= c0);
            }
            match r {
                Some(x) => {
                    proof {
                        assert(keys0.skip(n).drop_first() =~= keys0.skip(n + 1));
                    }
                    out.push(x);
                },
                None => {
                    break ;
                },
            }
        }
        out
    }
}

/// A select statement whose rows come with a cache key each: loading it
/// streams the rows and writes each one to the cache (returned by
/// `populate_cache`).
pub struct SelectCachingWrapper<T, C> {
    pub inner_select: T,
    pub cache: C,
}

impl<T, C: CacheHandle> SelectCachingWrapper<T, C> {
    pub fn new(inner_select: T, cache: C) -> (w: Self)
        ensures
            w.inner_select == inner_select,
            w.cache == cache,
    {
        SelectCachingWrapper { inner_select, cache }
    }

    /// The engine over the rows that the inner statement loaded.
    pub fn load_rows<I, U, E>(self, rows: I) -> (it: ResultCachingIterator<I, C, U>) where
        I: Iterator<Item = Result<(U, String), E>>,
        U: CacheValue,

        ensures
            it.inner.iter == rows,
            it.inner.pulled@ == Seq::<Option<I::Item>>::empty(),
            it.cache.calls() == Seq::<CacheCall<U>>::empty(),
    {
        ResultCachingIterator::new(rows, self.cache)
    }
}

/// A select statement read through the cache: for each key, the cached row,
/// or else the next row of the statement (returned by `try_from_cache`,
/// `try_from_cache_multi` and `try_from_cache_and_populate`).
pub struct SelectCacheReadWrapper<T, C> {
    pub inner_select: T,
    pub keys: Vec<String>,
    pub cache: C,
    pub populate: bool,
}

impl<T, C: CacheHandle> SelectCacheReadWrapper<T, C> {
    pub fn new(inner_select: T, keys: Vec<String>, cache: C, populate: bool) -> (w: Self)
        ensures
            w.inner_select == inner_select,
            w.keys == keys,
            w.cache == cache,
            w.populate == populate,
    {
        SelectCacheReadWrapper { inner_select, keys, cache, populate }
    }

    /// A read through the cache by one key.
    pub fn single_key(inner_select: T, cache: C, key: &str, populate: bool) -> (w: Self)
        ensures
            w.inner_select == inner_select,
            w.keys@.len() == 1,
            w.keys@[0]@ == key@,
            w.cache == cache,
            w.populate == populate,
    {
        let mut keys: Vec<String> = Vec::new();
        keys.push(String::from_str(key));
        SelectCacheReadWrapper { inner_select, keys, cache, populate }
    }

    /// The engine over the rows that the inner statement loaded.
    pub fn load_rows<I, U, E>(self, rows: I) -> (it: ResultCacheLookupIterator<I, C, U>) where
        I: Iterator<Item = Result<U, E>>,
        U: CacheValue,

        ensures
            it.inner.iter == rows,
            it.inner.pulled@ == Seq::<Option<I::Item>>::empty(),
            it.cache.calls() == Seq::<CacheCall<U>>::empty(),
            it.pending_keys() == self.keys@.map_values(|k: String| k@),
            it.populates() == self.populate,
    {
        let it = ResultCacheLookupIterator::new(rows, self.cache, self.keys, self.populate);
        it
    }
}

/// An update statement that invalidates cache keys: running it deletes the
/// keys first and runs the update only when every deletion succeeded
/// (returned by `invalidate_key` and `invalidate_keys`).
pub struct UpdateWrapper<T, C> {
    pub inner_update: T,
    pub keys: Vec<String>,
    pub cache: C,
}

impl<T, C: CacheHandle> UpdateWrapper<T, C> {
    pub fn new(inner_update: T, keys: Vec<String>, cache: C) -> (w: Self)
        ensures
            w.inner_update == inner_update,
            w.keys == keys,
            w.cache == cache,
    {
        UpdateWrapper { inner_update, keys, cache }
    }

    /// An update that invalidates one key.
    pub fn single_key(inner_update: T, cache: C, key: &str) -> (w: Self)
        ensures
            w.inner_update == inner_update,
            w.keys@.len() == 1,
            w.keys@[0]@ == key@,
            w.cache == cache,
    {
        let mut keys: Vec<String> = Vec::new();
        keys.push(String::from_str(key));
        UpdateWrapper { inner_update, keys, cache }
    }

    /// Deletes the keys from the cache, in order, stopping at the first
    /// deletion that fails (see [`invalidation_made`]). Only when all of them
    /// succeeded is the update handed to `run`, and what `run` returns is
    /// passed on unchanged. A failed deletion comes back as its error together
    /// with the update itself, which has not run. The handle comes back with
    /// the record of the deletions.
    pub fn execute<R, F: FnOnce(T) -> R>(self, run: F) -> (r: (
        Result<R, (CacheError, T)>,
        RecordedCache<C, ()>,
    ))
        requires
            run.requires((self.inner_update,)),
        ensures
            invalidation_made(self.keys@.map_values(|k: String| k@), r.1.calls(), r.0 is Ok),
            self.keys@.len() == 0 ==> r.0 is Ok,
            r.0 matches Ok(v) ==> run.ensures((self.inner_update,), v),
            r.0 matches Err(failed) ==> failed.1 == self.inner_update && r.1.calls().last()
                == CacheCall::<()>::Delete(
                self.keys@[r.1.calls().len() - 1]@,
                Err::<(), CacheError>(failed.0),
            ),
    {
        let UpdateWrapper { inner_update, keys, cache } = self;
        let ghost names = keys@.map_values(|k: String| k@);
        let mut recorded: RecordedCache<C, ()> = RecordedCache::new(cache);
        let mut i: usize = 0;
        while i < keys.len()
            invariant
                i <= keys.len(),
                inner_update == self.inner_update,
                keys == self.keys,
                names == keys@.map_values(|k: String| k@),
                recorded.calls().len() == i,
                forall|j: int|
                    0 <= j < i ==> (#[trigger] recorded.calls()[j] matches CacheCall::Delete(
                        k,
                        outcome,
                    ) && k == names[j] && outcome is Ok),
            decreases keys.len() - i,
        {
            let ghost prev = recorded.calls();
            let outcome = recorded.delete(&keys[i]);
            assert(names[i as int] == keys@[i as int]@);
            match outcome {
                Ok(()) => {
                    assert forall|j: int| 0 <= j < i + 1 implies (#[trigger] recorded.calls()[j] matches CacheCall::Delete(
                        k,
                        o,
                    ) && k == names[j] && o is Ok) by {
                        if j < i {
                            assert(recorded.calls()[j] == prev[j]);
                        }
                    }
                },
                Err(e) => {
                    assert(recorded.calls().last() == CacheCall::<()>::Delete(names[i as int], Err(e)));
                    return (Err((e, inner_update)), recorded);
                },
            }
            i = i + 1;
        }
        (Ok(run(inner_update)), recorded)
    }
}

/// Whether `calls` are the deletions of an invalidation of `keys`: the keys
/// in order, each once, every deletion but the last succeeding; `done` says
/// that every key was deleted, the last deletion failing otherwise.
pub open spec fn invalidation_made<U>(keys: Seq<Seq<char>>, calls: Seq<CacheCall<U>>, done: bool) -> bool {
    &&& calls.len() <= keys.len()
    &&& forall|i: int|
        0 <= i < calls.len() ==> (#[trigger] calls[i] matches CacheCall::Delete(k, outcome) && k
            == keys[i] && (i + 1 < calls.len() ==> outcome is Ok))
    &&& done <==> (calls.len() == keys.len() && (calls.len() == 0 || calls.last() matches CacheCall::Delete(_, Ok(_))))
    &&& !done ==> calls.len() > 0 && calls.last() matches CacheCall::Delete(_, Err(_))
}

/// The items a populating engine emits, and the `(key, row)` writes it asks
/// of the cache, when its inner query yields `items` and then ends: one step
/// of [`populate_spec`] per item.
pub open spec fn populate_run<U, E>(items: Seq<Result<(U, String), E>>) -> (
    Seq<Option<Result<U, E>>>,
    Seq<(Seq<char>, U)>,
)
    decreases items.len(),
{
    if items.len() == 0 {
        (Seq::empty(), Seq::empty())
    } else {
        let (emitted, key) = populate_spec(Some(items[0]));
        let (rest_emitted, rest_writes) = populate_run(items.drop_first());
        let writes = match (key, emitted) {
            (Some(k), Some(Ok(row))) => seq![(k, row)] + rest_writes,
            _ => rest_writes,
        };
        (seq![emitted] + rest_emitted, writes)
    }
}

/// The row of a `(row, key)` item, or its error.
pub open spec fn row_of<U, E>(item: Result<(U, String), E>) -> Result<U, E> {
    match item {
        Ok((row, _)) => Ok(row),
        Err(e) => Err(e),
    }
}

/// The `(key, row)` pairs of the successful items, in order.
pub open spec fn successful_pairs<U, E>(items: Seq<Result<(U, String), E>>) -> Seq<(Seq<char>, U)>
    decreases items.len(),
{
    if items.len() == 0 {
        Seq::empty()
    } else {
        match items[0] {
            Ok((row, key)) => seq![(key@, row)] + successful_pairs(items.drop_first()),
            Err(_) => successful_pairs(items.drop_first()),
        }
    }
}

/// Populating passes the query through: it emits the row (or the error) of
/// every item, in order, and writes to the cache exactly the successful
/// pairs, in order, each row under its own key.
pub proof fn lemma_populate_stream<U, E>(items: Seq<Result<(U, String), E>>)
    ensures
        populate_run(items).0 == items.map_values(|it: Result<(U, String), E>| Some(row_of(it))),
        populate_run(items).1 == successful_pairs(items),
    decreases items.len(),
{
    if items.len() > 0 {
        lemma_populate_stream(items.drop_first());
        assert(items.map_values(|it: Result<(U, String), E>| Some(row_of(it))) =~= seq![
            Some(row_of(items[0])),
        ] + items.drop_first().map_values(|it: Result<(U, String), E>| Some(row_of(it))));
    } else {
        assert(items.map_values(|it: Result<(U, String), E>| Some(row_of(it))) =~= Seq::empty());
    }
}

/// The items a lookup engine emits, one per key, when the cache answers
/// `founds` for its keys in turn and the inner query holds `rows`; with the
/// rows left over. One step of [`lookup_spec`] per key, up to and including
/// the first step that emits nothing, which ends the stream.
pub open spec fn lookup_run<U, E>(
    founds: Seq<Result<Option<U>, CacheError>>,
    rows: Seq<Result<U, E>>,
) -> (Seq<Option<Result<U, E>>>, Seq<Result<U, E>>)
    decreases founds.len(),
{
    if founds.len() == 0 {
        (Seq::empty(), rows)
    } else {
        let (emitted, rest) = lookup_spec(founds[0], rows);
        if emitted is None {
            (seq![emitted], rest)
        } else {
            let (more, left) = lookup_run(founds.drop_first(), rest);
            (seq![emitted] + more, left)
        }
    }
}

/// The `(key, row)` writes a lookup engine asks of the cache over the same
/// run: see [`writes_back`].
pub open spec fn lookup_writes<U, E>(
    populate: bool,
    keys: Seq<Seq<char>>,
    founds: Seq<Result<Option<U>, CacheError>>,
    rows: Seq<Result<U, E>>,
) -> Seq<(Seq<char>, U)>
    decreases founds.len(),
{
    if founds.len() == 0 || keys.len() == 0 {
        Seq::empty()
    } else {
        let (emitted, rest) = lookup_spec(founds[0], rows);
        let more = if emitted is None {
            Seq::empty()
        } else {
            lookup_writes(populate, keys.drop_first(), founds.drop_first(), rest)
        };
        if writes_back(populate, founds[0], emitted) {
            match emitted {
                Some(Ok(row)) => seq![(keys[0], row)] + more,
                _ => more,
            }
        } else {
            more
        }
    }
}

/// When every key hits, the lookup emits the cached values in the order of
/// the keys, never takes a row of the inner query, and writes nothing back.
pub proof fn lemma_all_hits<U, E>(
    populate: bool,
    keys: Seq<Seq<char>>,
    values: Seq<U>,
    rows: Seq<Result<U, E>>,
)
    ensures
        lookup_run(values.map_values(|v: U| Ok::<Option<U>, CacheError>(Some(v))), rows).0
            == values.map_values(|v: U| Some(Ok::<U, E>(v))),
        lookup_run(values.map_values(|v: U| Ok::<Option<U>, CacheError>(Some(v))), rows).1 == rows,
        lookup_writes(
            populate,
            keys,
            values.map_values(|v: U| Ok::<Option<U>, CacheError>(Some(v))),
            rows,
        ) == Seq::<(Seq<char>, U)>::empty(),
    decreases values.len(),
{
    let founds = values.map_values(|v: U| Ok::<Option<U>, CacheError>(Some(v)));
    if values.len() > 0 {
        lemma_all_hits(populate, keys.drop_first(), values.drop_first(), rows);
        assert(founds.drop_first() =~= values.drop_first().map_values(
            |v: U| Ok::<Option<U>, CacheError>(Some(v)),
        ));
        assert(values.map_values(|v: U| Some(Ok::<U, E>(v))) =~= seq![Some(Ok::<U, E>(values[0]))]
            + values.drop_first().map_values(|v: U| Some(Ok::<U, E>(v))));
    } else {
        assert(values.map_values(|v: U| Some(Ok::<U, E>(v))) =~= Seq::empty());
    }
}

/// The `n` answers of a cache that misses every key.
pub open spec fn misses<U>(n: nat) -> Seq<Result<Option<U>, CacheError>> {
    Seq::new(n, |i: int| Ok::<Option<U>, CacheError>(None))
}

/// When every one of `n` keys misses and the inner query has at least `n`
/// rows, the lookup emits the first `n` rows in the order of the inner query
/// and leaves the rest; when it populates and those rows are successful, it
/// writes the `i`-th row under the `i`-th key, in order.
pub proof fn lemma_all_misses<U, E>(
    populate: bool,
    keys: Seq<Seq<char>>,
    rows: Seq<Result<U, E>>,
)
    requires
        keys.len() <= rows.len(),
    ensures
        lookup_run(misses::<U>(keys.len()), rows).0 == rows.take(keys.len() as int).map_values(
            |r: Result<U, E>| Some(r),
        ),
        lookup_run(misses::<U>(keys.len()), rows).1 == rows.skip(keys.len() as int),
        populate && (forall|i: int| 0 <= i < keys.len() ==> (#[trigger] rows[i]) is Ok) ==> lookup_writes(
            populate,
            keys,
            misses::<U>(keys.len()),
            rows,
        ) == Seq::new(keys.len(), |i: int| (keys[i], rows[i]->Ok_0)),
    decreases keys.len(),
{
    let n = keys.len();
    if n > 0 {
        lemma_all_misses(populate, keys.drop_first(), rows.drop_first());
        assert(misses::<U>(n).drop_first() =~= misses::<U>((n - 1) as nat));
        assert(rows.take(n as int).map_values(|r: Result<U, E>| Some(r)) =~= seq![Some(rows[0])]
            + rows.drop_first().take(n - 1).map_values(|r: Result<U, E>| Some(r)));
        assert(rows.drop_first().skip(n - 1) =~= rows.skip(n as int));
        if populate && (forall|i: int| 0 <= i < keys.len() ==> (#[trigger] rows[i]) is Ok) {
            assert(forall|i: int|
                0 <= i < keys.drop_first().len() ==> (#[trigger] rows.drop_first()[i]) is Ok) by {
                assert forall|i: int| 0 <= i < keys.drop_first().len() implies (
                #[trigger] rows.drop_first()[i]) is Ok by {
                    assert(rows.drop_first()[i] == rows[i + 1]);
                }
            }
            assert(Seq::new(n, |i: int| (keys[i], rows[i]->Ok_0)) =~= seq![(keys[0], rows[0]->Ok_0)]
                + Seq::new((n - 1) as nat, |i: int| (keys.drop_first()[i], rows.drop_first()[i]->Ok_0)));
        }
    } else {
        assert(rows.take(0).map_values(|r: Result<U, E>| Some(r)) =~= Seq::empty());
        assert(rows.skip(0) =~= rows);
    }
}

/// The answers of the reads among `calls`, in order.
pub open spec fn answers_of<U>(calls: Seq<CacheCall<U>>) -> Seq<Result<Option<U>, CacheError>>
    decreases calls.len(),
{
    if calls.len() == 0 {
        Seq::empty()
    } else {
        let rest = answers_of(calls.drop_last());
        match calls.last() {
            CacheCall::Get(_, found) => rest.push(found),
            _ => rest,
        }
    }
}

/// The `(key, row)` of the writes among `calls`, in order.
pub open spec fn writes_of<U>(calls: Seq<CacheCall<U>>) -> Seq<(Seq<char>, U)>
    decreases calls.len(),
{
    if calls.len() == 0 {
        Seq::empty()
    } else {
        let rest = writes_of(calls.drop_last());
        match calls.last() {
            CacheCall::Put(k, row, _) => rest.push((k, row)),
            _ => rest,
        }
    }
}

/// A lookup run over one more answer, after a run that emitted something at
/// every step, adds that answer's step at its end.
proof fn lemma_lookup_run_push<U, E>(
    founds: Seq<Result<Option<U>, CacheError>>,
    found: Result<Option<U>, CacheError>,
    rows: Seq<Result<U, E>>,
)
    requires
        forall|i: int|
            0 <= i < lookup_run(founds, rows).0.len() ==> (#[trigger] lookup_run(founds, rows).0[i]) is Some,
    ensures
        lookup_run(founds, rows).0.len() == founds.len(),
        lookup_run(founds.push(found), rows) == ({
            let (emitted, rest) = lookup_spec(found, lookup_run(founds, rows).1);
            (lookup_run(founds, rows).0.push(emitted), rest)
        }),
    decreases founds.len(),
{
    if founds.len() == 0 {
        assert(founds.push(found).drop_first() =~= Seq::<Result<Option<U>, CacheError>>::empty());
        let (emitted, rest) = lookup_spec(found, rows);
        assert(founds.push(found)[0] == found);
        assert(lookup_run(founds, rows) == (Seq::<Option<Result<U, E>>>::empty(), rows));
        assert(lookup_run(founds.push(found).drop_first(), rest) == (Seq::<Option<Result<U, E>>>::empty(), rest));
        assert(seq![emitted] =~= Seq::<Option<Result<U, E>>>::empty().push(emitted));
        assert(seq![emitted] + Seq::<Option<Result<U, E>>>::empty() =~= seq![emitted]);
    } else {
        let (e0, r0) = lookup_spec(founds[0], rows);
        assert(lookup_run(founds, rows).0[0] == e0);
        assert(e0 is Some);
        let tail = founds.drop_first();
        assert forall|i: int| 0 <= i < lookup_run(tail, r0).0.len() implies (#[trigger] lookup_run(tail, r0).0[i]) is Some by {
            assert(lookup_run(founds, rows).0[i + 1] == lookup_run(tail, r0).0[i]);
        }
        lemma_lookup_run_push(tail, found, r0);
        assert(founds.push(found).drop_first() =~= tail.push(found));
        assert(founds.push(found)[0] == founds[0]);
        let (emitted, rest) = lookup_spec(found, lookup_run(tail, r0).1);
        assert(lookup_run(founds, rows) == (seq![e0] + lookup_run(tail, r0).0, lookup_run(tail, r0).1));
        assert(lookup_run(founds.push(found), rows) == (seq![e0] + lookup_run(tail.push(found), r0).0, lookup_run(tail.push(found), r0).1));
        assert(seq![e0] + lookup_run(tail, r0).0.push(emitted) =~= (seq![e0] + lookup_run(tail, r0).0).push(emitted));
    }
}

/// The write, if any, that one lookup step for `key` asks of the cache.
pub open spec fn step_writes<U, E>(
    populate: bool,
    key: Seq<char>,
    found: Result<Option<U>, CacheError>,
    rows: Seq<Result<U, E>>,
) -> Seq<(Seq<char>, U)> {
    let emitted = lookup_spec(found, rows).0;
    if writes_back(populate, found, emitted) {
        match emitted {
            Some(Ok(row)) => seq![(key, row)],
            _ => Seq::empty(),
        }
    } else {
        Seq::empty()
    }
}

/// The writes of a lookup run over one more answer, after a run that emitted
/// something at every step, end with that answer's write.
proof fn lemma_lookup_writes_push<U, E>(
    populate: bool,
    keys: Seq<Seq<char>>,
    founds: Seq<Result<Option<U>, CacheError>>,
    found: Result<Option<U>, CacheError>,
    rows: Seq<Result<U, E>>,
)
    requires
        founds.len() < keys.len(),
        forall|i: int|
            0 <= i < lookup_run(founds, rows).0.len() ==> (#[trigger] lookup_run(founds, rows).0[i]) is Some,
    ensures
        lookup_writes(populate, keys, founds.push(found), rows) == lookup_writes(
            populate,
            keys,
            founds,
            rows,
        ) + step_writes(populate, keys[founds.len() as int], found, lookup_run(founds, rows).1),
    decreases founds.len(),
{
    lemma_lookup_run_push(founds, found, rows);
    if founds.len() == 0 {
        assert(founds.push(found)[0] == found);
        assert(founds.push(found).drop_first() =~= Seq::<Result<Option<U>, CacheError>>::empty());
        let (emitted, rest) = lookup_spec(found, rows);
        assert(lookup_writes(populate, keys.drop_first(), founds.push(found).drop_first(), rest)
            == Seq::<(Seq<char>, U)>::empty());
        assert(lookup_writes(populate, keys, founds, rows) == Seq::<(Seq<char>, U)>::empty());
        assert(Seq::<(Seq<char>, U)>::empty() + step_writes(populate, keys[0], found, rows)
            =~= step_writes(populate, keys[0], found, rows));
        assert(step_writes(populate, keys[0], found, rows) + Seq::<(Seq<char>, U)>::empty()
            =~= step_writes(populate, keys[0], found, rows));
    } else {
        let (e0, r0) = lookup_spec(founds[0], rows);
        assert(lookup_run(founds, rows).0[0] == e0);
        let tail = founds.drop_first();
        assert forall|i: int| 0 <= i < lookup_run(tail, r0).0.len() implies (#[trigger] lookup_run(tail, r0).0[i]) is Some by {
            assert(lookup_run(founds, rows).0[i + 1] == lookup_run(tail, r0).0[i]);
        }
        lemma_lookup_writes_push(populate, keys.drop_first(), tail, found, r0);
        assert(founds.push(found).drop_first() =~= tail.push(found));
        assert(founds.push(found)[0] == founds[0]);
        assert(lookup_run(founds, rows).1 == lookup_run(tail, r0).1);
        assert(keys.drop_first()[tail.len() as int] == keys[founds.len() as int]);
        let more = lookup_writes(populate, keys.drop_first(), tail, r0);
        let extra = step_writes(populate, keys[founds.len() as int], found, lookup_run(tail, r0).1);
        if writes_back(populate, founds[0], e0) {
            match e0 {
                Some(Ok(row)) => {
                    assert(seq![(keys[0], row)] + (more + extra) =~= (seq![(keys[0], row)] + more) + extra);
                },
                _ => {},
            }
        }
    }
}

/// Whether a lookup engine over `keys` and `rows`, whose calls were `calls`,
/// drained as [`lookup_run`] says for the answers among those calls: it
/// emitted `out`, stopped at the end of the keys or at the first step that
/// emitted nothing, left `rows_left`, and asked for the writes of
/// [`lookup_writes`].
pub open spec fn lookup_drained<U, E>(
    populate: bool,
    keys: Seq<Seq<char>>,
    rows: Seq<Result<U, E>>,
    calls: Seq<CacheCall<U>>,
    rows_left: Seq<Result<U, E>>,
    out: Seq<Result<U, E>>,
) -> bool {
    let founds = answers_of(calls);
    let run = lookup_run(founds, rows);
    &&& founds.len() <= keys.len()
    &&& run.0.len() == founds.len()
    &&& founds.len() == out.len() || founds.len() == out.len() + 1
    &&& forall|i: int| 0 <= i < out.len() ==> #[trigger] run.0[i] == Some(out[i])
    &&& founds.len() == out.len() + 1 ==> run.0.last() is None
    &&& founds.len() == out.len() ==> founds.len() == keys.len()
    &&& rows_left == run.1
    &&& writes_of(calls) == lookup_writes(populate, keys, founds, rows)
}

/// A drained lookup in which every key hit emitted the cached values in the
/// order of the keys, took no row of the inner query and wrote nothing.
pub proof fn lemma_drained_all_hits<U, E>(
    populate: bool,
    keys: Seq<Seq<char>>,
    rows: Seq<Result<U, E>>,
    calls: Seq<CacheCall<U>>,
    rows_left: Seq<Result<U, E>>,
    out: Seq<Result<U, E>>,
    values: Seq<U>,
)
    requires
        lookup_drained(populate, keys, rows, calls, rows_left, out),
        answers_of(calls) == values.map_values(|v: U| Ok::<Option<U>, CacheError>(Some(v))),
    ensures
        out == values.map_values(|v: U| Ok::<U, E>(v)),
        rows_left == rows,
        writes_of(calls) == Seq::<(Seq<char>, U)>::empty(),
{
    lemma_all_hits(populate, keys, values, rows);
    let run = lookup_run(answers_of(calls), rows);
    if answers_of(calls).len() == out.len() + 1 {
        assert(run.0.last() == Some(Ok::<U, E>(values[values.len() - 1])));
    }
    assert forall|i: int| 0 <= i < out.len() implies out[i] == values.map_values(|v: U| Ok::<U, E>(v))[i] by {
        assert(run.0[i] == Some(out[i]));
    }
    assert(out =~= values.map_values(|v: U| Ok::<U, E>(v)));
}

/// A drained lookup over `n` keys in which every key missed, on an inner
/// query of at least `n` rows, emitted the first `n` rows in their order and
/// left the rest; populating, with those rows successful, it wrote the
/// `i`-th row under the `i`-th key, in order.
pub proof fn lemma_drained_all_misses<U, E>(
    populate: bool,
    keys: Seq<Seq<char>>,
    rows: Seq<Result<U, E>>,
    calls: Seq<CacheCall<U>>,
    rows_left: Seq<Result<U, E>>,
    out: Seq<Result<U, E>>,
)
    requires
        lookup_drained(populate, keys, rows, calls, rows_left, out),
        forall|i: int| 0 <= i < answers_of(calls).len() ==> #[trigger] answers_of(calls)[i]
            == Ok::<Option<U>, CacheError>(None),
        keys.len() <= rows.len(),
    ensures
        out == rows.take(keys.len() as int),
        rows_left == rows.skip(keys.len() as int),
        populate && (forall|i: int| 0 <= i < keys.len() ==> (#[trigger] rows[i]) is Ok)
            ==> writes_of(calls) == Seq::new(keys.len(), |i: int| (keys[i], rows[i]->Ok_0)),
{
    let founds = answers_of(calls);
    let m = founds.len();
    assert(founds =~= misses::<U>(m));
    let ks = keys.take(m as int);
    lemma_all_misses(populate, ks, rows);
    let run = lookup_run(founds, rows);
    if m == out.len() + 1 {
        assert(run.0.last() == Some(rows[m - 1]));
    }
    assert(m == keys.len());
    assert(ks =~= keys);
    assert forall|i: int| 0 <= i < out.len() implies out[i] == rows.take(keys.len() as int)[i] by {
        assert(run.0[i] == Some(out[i]));
    }
    assert(out =~= rows.take(keys.len() as int));
}

} // verus!
