use vstd::prelude::*;

verus! {

/// Whether the whole of `text` matches `pattern`, where `?` stands for exactly
/// one character, `*` for any run of characters (the empty run included), and
/// every other character for itself.
pub open spec fn glob_matches(pattern: Seq<char>, text: Seq<char>) -> bool
    decreases pattern.len() + text.len(),
{
    if pattern.len() == 0 {
        text.len() == 0
    } else if pattern[0] == '*' {
        glob_matches(pattern.drop_first(), text) || (text.len() > 0 && glob_matches(
            pattern,
            text.drop_first(),
        ))
    } else {
        text.len() > 0 && (pattern[0] == '?' || pattern[0] == text[0]) && glob_matches(
            pattern.drop_first(),
            text.drop_first(),
        )
    }
}

/// Relies on wildmatch::WildMatch (`new`, then `matches`): the whole input is
/// tested against the pattern, `?` matching one character and `*` any run.
#[verifier::external_body]
fn wild_matches(pattern: &str, text: &str) -> (r: bool)
    ensures
        r == glob_matches(pattern@, text@),
{
    wildmatch::WildMatch::new(pattern).matches(text)
}

/// A table from string keys to string values: the storage of the in-memory
/// cache. Each key occurs at most once.
pub struct EntryTable {
    entries: Vec<(String, String)>,
    model: Ghost<Map<Seq<char>, Seq<char>>>,
}

/// Whether `entries`, read as key/value pairs, hold exactly the map `m`, each
/// key once.
pub open spec fn entries_hold(entries: Seq<(String, String)>, m: Map<Seq<char>, Seq<char>>) -> bool {
    &&& forall|i: int, j: int|
        0 <= i < entries.len() && 0 <= j < entries.len() && i != j ==> #[trigger] entries[i].0@
            != #[trigger] entries[j].0@
    &&& forall|i: int|
        0 <= i < entries.len() ==> m.contains_key(#[trigger] entries[i].0@) && m[entries[i].0@]
            == entries[i].1@
    &&& forall|k: Seq<char>|
        #[trigger] m.contains_key(k) ==> exists|i: int| 0 <= i < entries.len() && entries[i].0@ == k
}

impl View for EntryTable {
    type V = Map<Seq<char>, Seq<char>>;

    closed spec fn view(&self) -> Map<Seq<char>, Seq<char>> {
        self.model@
    }
}

impl EntryTable {
    #[verifier::type_invariant]
    closed spec fn well_formed(&self) -> bool {
        entries_hold(self.entries@, self.model@)
    }

    /// An empty table.
    pub fn new() -> (t: EntryTable)
        ensures
            t@ == Map::<Seq<char>, Seq<char>>::empty(),
    {
        EntryTable { entries: Vec::new(), model: Ghost(Map::empty()) }
    }

    /// The position of `key` among the entries, if it is there.
    fn position(&self, key: &String) -> (r: Option<usize>)
        ensures
            match r {
                Some(i) => i < self.entries.len() && self.entries@[i as int].0@ == key@,
                None => forall|i: int|
                    0 <= i < self.entries.len() ==> self.entries@[i].0@ != key@,
            },
    {
        let mut i: usize = 0;
        while i < self.entries.len()
            invariant
                i <= self.entries.len(),
                forall|j: int| 0 <= j < i ==> self.entries@[j].0@ != key@,
            decreases self.entries.len() - i,
        {
            if self.entries[i].0 == *key {
                return Some(i);
            }
            i = i + 1;
        }
        None
    }

    /// The value stored under `key`.
    pub fn get(&self, key: &String) -> (r: Option<&String>)
        ensures
            match r {
                Some(v) => self@.contains_key(key@) && v@ == self@[key@],
                None => !self@.contains_key(key@),
            },
    {
        proof {
            use_type_invariant(self);
        }
        match self.position(key) {
            Some(i) => Some(&self.entries[i].1),
            None => None,
        }
    }

    /// Stores `value` under `key`, replacing what was there.
    pub fn insert(&mut self, key: String, value: String)
        ensures
            final(self)@ == old(self)@.insert(key@, value@),
    {
        proof {
            use_type_invariant(&*self);
        }
        let found = self.position(&key);
        let mut old_table = EntryTable::new();
        std::mem::swap(self, &mut old_table);
        let EntryTable { entries: mut entries, model: Ghost(m) } = old_table;
        let ghost m2 = m.insert(key@, value@);
        match found {
            Some(i) => {
                entries[i] = (key, value);
            },
            None => {
                entries.push((key, value));
            },
        }
        assert forall|k: Seq<char>| #[trigger] m2.contains_key(k) implies exists|i: int|
            0 <= i < entries.len() && entries@[i].0@ == k by {
            if k != key@ {
                let i = choose|i: int| 0 <= i < old_table.entries.len() && old_table.entries@[i].0@ == k;
                assert(entries@[i].0@ == k);
            } else {
                match found {
                    Some(i) => assert(entries@[i as int].0@ == k),
                    None => assert(entries@[entries.len() - 1].0@ == k),
                }
            }
        }
        *self = EntryTable { entries, model: Ghost(m2) };
    }

    /// Drops whatever is stored under `key`; an absent key is no error.
    pub fn remove(&mut self, key: &String)
        ensures
            final(self)@ == old(self)@.remove(key@),
    {
        proof {
            use_type_invariant(&*self);
        }
        let found = self.position(key);
        match found {
            Some(i) => {
                let mut old_table = EntryTable::new();
                std::mem::swap(self, &mut old_table);
                let EntryTable { entries: mut entries, model: Ghost(m) } = old_table;
                let ghost m2 = m.remove(key@);
                let ghost before = entries@;
                entries.remove(i);
                assert forall|k: Seq<char>| #[trigger] m2.contains_key(k) implies exists|j: int|
                    0 <= j < entries.len() && entries@[j].0@ == k by {
                    let j = choose|j: int| 0 <= j < before.len() && before[j].0@ == k;
                    if j < i {
                        assert(entries@[j].0@ == k);
                    } else {
                        assert(entries@[j - 1].0@ == k);
                    }
                }
                *self = EntryTable { entries, model: Ghost(m2) };
            },
            None => {
                assert(self@.remove(key@) =~= self@);
            },
        }
    }

    /// The entries whose key matches `pattern` (see [`glob_matches`]), each
    /// once, in no particular order.
    pub fn scan(&self, pattern: &str) -> (r: Vec<(String, String)>)
        ensures
            entries_hold(r@, self@.restrict(Set::new(|k: Seq<char>| glob_matches(pattern@, k)))),
    {
        proof {
            use_type_invariant(self);
        }
        let ghost wanted = Set::new(|k: Seq<char>| glob_matches(pattern@, k));
        let mut out: Vec<(String, String)> = Vec::new();
        let mut i: usize = 0;
        while i < self.entries.len()
            invariant
                i <= self.entries.len(),
                entries_hold(self.entries@, self@),
                wanted == Set::new(|k: Seq<char>| glob_matches(pattern@, k)),
                entries_hold(
                    out@,
                    self@.restrict(
                        Set::new(
                            |k: Seq<char>|
                                wanted.contains(k) && exists|j: int|
                                    0 <= j < i && self.entries@[j].0@ == k,
                        ),
                    ),
                ),
            decreases self.entries.len() - i,
        {
            let ghost prev = Set::new(
                |k: Seq<char>|
                    wanted.contains(k) && exists|j: int| 0 <= j < i && self.entries@[j].0@ == k,
            );
            let ghost next = Set::new(
                |k: Seq<char>|
                    wanted.contains(k) && exists|j: int|
                        0 <= j < i + 1 && self.entries@[j].0@ == k,
            );
            let ghost out_before = out@;
            let key = &self.entries[i].0;
            if wild_matches(pattern, key.as_str()) {
                out.push((key.clone(), self.entries[i].1.clone()));
                assert forall|a: int, b: int|
                    0 <= a < out.len() && 0 <= b < out.len() && a != b implies #[trigger] out@[a].0@
                    != #[trigger] out@[b].0@ by {
                    if a == out.len() - 1 && b < a {
                        assert(self@.restrict(prev).contains_key(out_before[b].0@));
                    } else if b == out.len() - 1 && a < b {
                        assert(self@.restrict(prev).contains_key(out_before[a].0@));
                    }
                }
                assert forall|k: Seq<char>| #[trigger] self@.restrict(next).contains_key(k) implies exists|a: int|
                    0 <= a < out.len() && out@[a].0@ == k by {
                    if k != key@ {
                        let j = choose|j: int| 0 <= j < i + 1 && self.entries@[j].0@ == k;
                        assert(j != i);
                        assert(self@.restrict(prev).contains_key(k));
                        let a = choose|a: int| 0 <= a < out_before.len() && out_before[a].0@ == k;
                        assert(out@[a].0@ == k);
                    } else {
                        assert(out@[out.len() - 1].0@ == k);
                    }
                }
            } else {
                assert forall|k: Seq<char>| #[trigger] self@.restrict(next).contains_key(k) implies self@.restrict(prev).contains_key(k) by {
                    let j = choose|j: int| 0 <= j < i + 1 && self.entries@[j].0@ == k;
                    assert(j != i);
                }
                assert(self@.restrict(next) =~= self@.restrict(prev));
            }
            i = i + 1;
        }
        proof {
            let last = Set::new(
                |k: Seq<char>|
                    wanted.contains(k) && exists|j: int|
                        0 <= j < self.entries.len() && self.entries@[j].0@ == k,
            );
            assert(self@.restrict(last) =~= self@.restrict(wanted));
        }
        out
    }
}

/// A table after storing each `(key, text)` write in turn.
pub open spec fn apply_writes(
    m: Map<Seq<char>, Seq<char>>,
    writes: Seq<(Seq<char>, Seq<char>)>,
) -> Map<Seq<char>, Seq<char>>
    decreases writes.len(),
{
    if writes.len() == 0 {
        m
    } else {
        apply_writes(m.insert(writes[0].0, writes[0].1), writes.drop_first())
    }
}

/// A value stored under a key is what a read of that key then finds.
pub proof fn lemma_put_then_get(m: Map<Seq<char>, Seq<char>>, key: Seq<char>, text: Seq<char>)
    ensures
        m.insert(key, text).contains_key(key),
        m.insert(key, text)[key] == text,
{
}

/// After a key is deleted a read of it finds nothing, whether or not the key
/// was there.
pub proof fn lemma_delete_then_get(m: Map<Seq<char>, Seq<char>>, key: Seq<char>)
    ensures
        !m.remove(key).contains_key(key),
{
}

/// Writes leave alone every key that none of them names.
pub proof fn lemma_writes_elsewhere(
    m: Map<Seq<char>, Seq<char>>,
    writes: Seq<(Seq<char>, Seq<char>)>,
    key: Seq<char>,
)
    requires
        forall|i: int| 0 <= i < writes.len() ==> (#[trigger] writes[i]).0 != key,
    ensures
        apply_writes(m, writes).contains_key(key) == m.contains_key(key),
        m.contains_key(key) ==> apply_writes(m, writes)[key] == m[key],
    decreases writes.len(),
{
    if writes.len() > 0 {
        assert(writes[0].0 != key);
        assert forall|i: int| 0 <= i < writes.drop_first().len() implies (
        #[trigger] writes.drop_first()[i]).0 != key by {
            assert(writes.drop_first()[i] == writes[i + 1]);
        }
        lemma_writes_elsewhere(m.insert(writes[0].0, writes[0].1), writes.drop_first(), key);
    }
}

/// After writes under distinct keys, whatever the table held before, each
/// key holds the text written under it.
pub proof fn lemma_writes_then_reads(
    m: Map<Seq<char>, Seq<char>>,
    writes: Seq<(Seq<char>, Seq<char>)>,
)
    requires
        forall|i: int, j: int|
            0 <= i < writes.len() && 0 <= j < writes.len() && i != j ==> (#[trigger] writes[i]).0
                != (#[trigger] writes[j]).0,
    ensures
        forall|i: int|
            0 <= i < writes.len() ==> apply_writes(m, writes).contains_key((#[trigger] writes[i]).0)
                && apply_writes(m, writes)[writes[i].0] == writes[i].1,
    decreases writes.len(),
{
    if writes.len() > 0 {
        let rest = writes.drop_first();
        let m1 = m.insert(writes[0].0, writes[0].1);
        assert forall|i: int, j: int|
            0 <= i < rest.len() && 0 <= j < rest.len() && i != j implies (#[trigger] rest[i]).0
            != (#[trigger] rest[j]).0 by {
            assert(rest[i] == writes[i + 1] && rest[j] == writes[j + 1]);
        }
        lemma_writes_then_reads(m1, rest);
        assert forall|i: int| 0 <= i < rest.len() implies (#[trigger] rest[i]).0 != writes[0].0 by {
            assert(rest[i] == writes[i + 1]);
        }
        lemma_writes_elsewhere(m1, rest, writes[0].0);
        assert forall|i: int| 0 <= i < writes.len() implies apply_writes(m, writes).contains_key(
            (#[trigger] writes[i]).0,
        ) && apply_writes(m, writes)[writes[i].0] == writes[i].1 by {
            if i > 0 {
                assert(writes[i] == rest[i - 1]);
            }
        }
    }
}

} // verus!
