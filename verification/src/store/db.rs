use vstd::prelude::*;

use crate::text::str_eq;

verus! {

/// Whether the glob crate accepts this pattern text.
pub uninterp spec fn glob_ok(pattern: Seq<char>) -> bool;

/// What glob matching answers for this pattern text and this candidate.
pub uninterp spec fn glob_match(pattern: Seq<char>, text: Seq<char>) -> bool;

/// Relies on glob::Pattern::new and glob::Pattern::matches: compiling
/// depends on the pattern text alone, matching on the pattern text and
/// the candidate alone, and the pattern `*` matches every candidate.
#[verifier::external_body]
fn glob_match_str(pattern: &str, text: &str) -> (r: Option<bool>)
    ensures
        r is Some <==> glob_ok(pattern@),
        r is Some ==> r->0 == glob_match(pattern@, text@),
        pattern@ == seq!['*'] ==> r == Some(true),
{
    match glob::Pattern::new(pattern) {
        Ok(p) => Some(p.matches(text)),
        Err(_) => None,
    }
}

/// One stored record: the value text and an optional absolute expiry,
/// in milliseconds of wall-clock time.
struct Entry {
    key: String,
    value: String,
    expiry: Option<u64>,
}

/// The mathematical form of one stored record.
pub ghost struct RecordV {
    pub value: Seq<char>,
    pub expiry: Option<u64>,
}

/// The keyed store: a map from key to record. Expired records stay in
/// memory and are masked on read.
pub struct Db {
    entries: Vec<Entry>,
}

spec fn map_of(entries: Seq<Entry>) -> Map<Seq<char>, RecordV>
    decreases entries.len(),
{
    if entries.len() == 0 {
        Map::empty()
    } else {
        map_of(entries.drop_last()).insert(
            entries.last().key@,
            RecordV { value: entries.last().value@, expiry: entries.last().expiry },
        )
    }
}

spec fn unique_keys(entries: Seq<Entry>) -> bool {
    forall|i: int, j: int|
        0 <= i < j < entries.len() ==> #[trigger] entries[i].key@ != #[trigger] entries[j].key@
}

impl View for Db {
    type V = Map<Seq<char>, RecordV>;

    closed spec fn view(&self) -> Map<Seq<char>, RecordV> {
        map_of(self.entries@)
    }
}

/// What a correct key listing is: sound, complete and duplicate-free
/// for a readable pattern; empty for an unreadable one; and everything
/// under the pattern `*`.
pub open spec fn keys_set_ok(ks: Seq<Seq<char>>, m: Map<Seq<char>, RecordV>, pattern: Seq<char>) -> bool {
    &&& glob_ok(pattern) ==> {
        &&& forall|j: int|
            0 <= j < ks.len() ==> m.contains_key(#[trigger] ks[j]) && glob_match(pattern, ks[j])
        &&& forall|k: Seq<char>| m.contains_key(k) && glob_match(pattern, k) ==> ks.contains(k)
        &&& forall|j1: int, j2: int|
            0 <= j1 < j2 < ks.len() ==> (#[trigger] ks[j1]) != (#[trigger] ks[j2])
    }
    &&& !glob_ok(pattern) ==> ks.len() == 0
    &&& pattern == seq!['*'] ==> forall|k: Seq<char>| m.contains_key(k) ==> ks.contains(k)
}

/// A record is visible at `now` when it has no expiry or expires later.
pub open spec fn live_at(r: RecordV, now: u64) -> bool {
    match r.expiry {
        None => true,
        Some(e) => e > now,
    }
}

/// What a read at time `now` observes.
pub open spec fn spec_get(m: Map<Seq<char>, RecordV>, key: Seq<char>, now: u64) -> Option<
    Seq<char>,
> {
    if m.contains_key(key) && live_at(m[key], now) {
        Some(m[key].value)
    } else {
        None
    }
}

proof fn lemma_map_of_contains(entries: Seq<Entry>, k: Seq<char>)
    ensures
        map_of(entries).contains_key(k) <==> exists|i: int|
            0 <= i < entries.len() && (#[trigger] entries[i].key@) == k,
    decreases entries.len(),
{
    if entries.len() > 0 {
        lemma_map_of_contains(entries.drop_last(), k);
        if map_of(entries).contains_key(k) && entries.last().key@ != k {
            let i = choose|i: int|
                0 <= i < entries.drop_last().len() && (#[trigger] entries.drop_last()[i].key@)
                    == k;
            assert(entries[i].key@ == k);
        }
        if exists|i: int| 0 <= i < entries.len() && (#[trigger] entries[i].key@) == k {
            let i = choose|i: int| 0 <= i < entries.len() && (#[trigger] entries[i].key@) == k;
            if i < entries.len() - 1 {
                assert(entries.drop_last()[i].key@ == k);
            }
        }
    }
}

proof fn lemma_map_of_get(entries: Seq<Entry>, i: int)
    requires
        unique_keys(entries),
        0 <= i < entries.len(),
    ensures
        map_of(entries).contains_key(entries[i].key@),
        map_of(entries)[entries[i].key@] == (RecordV {
            value: entries[i].value@,
            expiry: entries[i].expiry,
        }),
    decreases entries.len(),
{
    if i == entries.len() - 1 {
        assert(entries.last() == entries[i]);
    } else {
        assert(unique_keys(entries.drop_last()));
        assert(entries.drop_last()[i] == entries[i]);
        lemma_map_of_get(entries.drop_last(), i);
        assert(entries.last().key@ != entries[i].key@);
    }
}

proof fn lemma_map_of_update(entries: Seq<Entry>, i: int, e: Entry)
    requires
        unique_keys(entries),
        0 <= i < entries.len(),
        e.key@ == entries[i].key@,
    ensures
        map_of(entries.update(i, e)) == map_of(entries).insert(
            e.key@,
            (RecordV { value: e.value@, expiry: e.expiry }),
        ),
    decreases entries.len(),
{
    let rec = RecordV { value: e.value@, expiry: e.expiry };
    if i == entries.len() - 1 {
        assert(entries.update(i, e).drop_last() =~= entries.drop_last());
        assert(entries.update(i, e).last() == e);
        assert(map_of(entries.update(i, e)) =~= map_of(entries).insert(e.key@, rec));
    } else {
        assert(unique_keys(entries.drop_last()));
        assert(entries.drop_last()[i] == entries[i]);
        lemma_map_of_update(entries.drop_last(), i, e);
        assert(entries.update(i, e).drop_last() =~= entries.drop_last().update(i, e));
        assert(entries.update(i, e).last() == entries.last());
        assert(entries.last().key@ != e.key@);
        assert(map_of(entries.update(i, e)) =~= map_of(entries).insert(e.key@, rec));
    }
}

spec fn keys_sound(out: Seq<String>, src: Seq<int>, entries: Seq<Entry>, i: int) -> bool {
    &&& src.len() == out.len()
    &&& forall|j: int|
        #![all_triggers]
        0 <= j < out.len() ==> 0 <= src[j] < i && out[j] == entries[src[j]].key
}

impl Db {
    #[verifier::type_invariant]
    spec fn wf(self) -> bool {
        unique_keys(self.entries@)
    }

    /// An empty store.
    pub fn new() -> (db: Db)
        ensures
            db@ == Map::<Seq<char>, RecordV>::empty(),
    {
        Db { entries: Vec::new() }
    }

    /// Inserts or overwrites the record under `key`. `expiry` is an
    /// absolute instant in milliseconds; absence means no expiry.
    pub fn set(&mut self, key: &str, value: &str, expiry: Option<u64>) -> (r: Result<(), ()>)
        ensures
            r is Ok,
            final(self)@ == old(self)@.insert(
                key@,
                (RecordV { value: value@, expiry }),
            ),
    {
        proof {
            use_type_invariant(&*self);
        }
        let entry = Entry {
            key: String::from_str(key),
            value: String::from_str(value),
            expiry,
        };
        let mut entries: Vec<Entry> = Vec::new();
        core::mem::swap(&mut entries, &mut self.entries);
        let ghost entries0 = entries@;
        let n = entries.len();
        let mut idx: usize = 0;
        let mut found = false;
        while idx < n && !found
            invariant
                0 <= idx <= n,
                n == entries0.len(),
                entries@ == entries0,
                unique_keys(entries0),
                entry.key@ == key@,
                forall|j: int| 0 <= j < idx ==> (#[trigger] entries0[j].key@) != key@,
                found ==> idx < n && entries0[idx as int].key@ == key@,
            decreases n - idx + (if found { 0int } else { 1int }),
        {
            if str_eq(entries[idx].key.as_str(), key) {
                found = true;
            } else {
                idx = idx + 1;
            }
        }
        if found {
            proof {
                lemma_map_of_update(entries0, idx as int, entry);
                assert forall|a: int, b: int|
                    0 <= a < b < entries0.update(idx as int, entry).len() implies (
                #[trigger] entries0.update(idx as int, entry)[a].key@) != (#[trigger] entries0.update(
                    idx as int,
                    entry,
                )[b].key@) by {
                    assert(entries0.update(idx as int, entry)[a].key@ == entries0[a].key@);
                    assert(entries0.update(idx as int, entry)[b].key@ == entries0[b].key@);
                }
            }
            entries[idx] = entry;
        } else {
            proof {
                lemma_map_of_contains(entries@, key@);
                assert(!map_of(entries@).contains_key(key@));
                assert(entries@.push(entry).drop_last() =~= entries@);
                assert forall|a: int, b: int| 0 <= a < b < entries0.push(entry).len() implies (
                #[trigger] entries0.push(entry)[a].key@) != (#[trigger] entries0.push(
                    entry,
                )[b].key@) by {
                    if b < entries0.len() {
                    } else {
                        assert(entries0.push(entry)[a].key@ == entries0[a].key@);
                        assert(entries0.push(entry)[b].key@ == key@);
                    }
                }
            }
            entries.push(entry);
        }
        proof {
            assert(unique_keys(entries@));
        }
        self.entries = entries;
        Ok(())
    }

    /// Reads the record under `key` as of the instant `now`: the stored
    /// value when the record exists and has not expired, absent
    /// otherwise.
    pub fn get_at(&self, key: &str, now: u64) -> (r: Option<String>)
        ensures
            match r {
                Some(v) => spec_get(self@, key@, now) == Some(v@),
                None => spec_get(self@, key@, now) is None,
            },
    {
        proof {
            use_type_invariant(&*self);
        }
        let n = self.entries.len();
        let mut i: usize = 0;
        while i < n
            invariant
                0 <= i <= n,
                n == self.entries@.len(),
                unique_keys(self.entries@),
                forall|j: int| 0 <= j < i ==> (#[trigger] self.entries@[j].key@) != key@,
            decreases n - i,
        {
            if str_eq(self.entries[i].key.as_str(), key) {
                proof {
                    lemma_map_of_get(self.entries@, i as int);
                }
                let alive = match &self.entries[i].expiry {
                    None => true,
                    Some(e) => *e > now,
                };
                if alive {
                    return Some(self.entries[i].value.clone());
                } else {
                    return None;
                }
            }
            i = i + 1;
        }
        proof {
            lemma_map_of_contains(self.entries@, key@);
        }
        None
    }

    /// Reads the record under `key` at the wall clock of the call.
    pub fn get(&self, key: &str) -> (r: Option<String>)
        ensures
            exists|now: u64|
                match r {
                    Some(v) => spec_get(self@, key@, now) == Some(v@),
                    None => spec_get(self@, key@, now) is None,
                },
    {
        let now = crate::store::now_millis();
        let r = self.get_at(key, now);
        proof {
            assert(match r {
                Some(v) => spec_get(self@, key@, now) == Some(v@),
                None => spec_get(self@, key@, now) is None,
            });
        }
        r
    }

    /// Every key whose text the glob pattern matches, expired records
    /// included; an unparseable pattern yields no keys at all.
    #[verifier::rlimit(50)]
    pub fn keys(&self, pattern: &str) -> (r: Vec<String>)
        ensures
            keys_set_ok(r.deep_view(), self@, pattern@),
    {
        proof {
            use_type_invariant(&*self);
        }
        let mut out: Vec<String> = Vec::new();
        let ghost mut src: Seq<int> = Seq::empty();
        let n = self.entries.len();
        let mut i: usize = 0;
        while i < n
            invariant
                0 <= i <= n,
                n == self.entries@.len(),
                unique_keys(self.entries@),
                i > 0 ==> glob_ok(pattern@),
                keys_sound(out@, src, self.entries@, i as int),
                forall|j: int|
                    0 <= j < out@.len() ==> glob_match(pattern@, (#[trigger] out@[j])@),
                forall|j1: int, j2: int| 0 <= j1 < j2 < src.len() ==> src[j1] < src[j2],
                forall|m: int|
                    #![trigger self.entries@[m]]
                    0 <= m < i && glob_match(pattern@, self.entries@[m].key@) ==> exists|j: int|
                        0 <= j < src.len() && src[j] == m,
                pattern@ == seq!['*'] ==> forall|m: int|
                    #![trigger self.entries@[m]]
                    0 <= m < i ==> glob_match(pattern@, self.entries@[m].key@),
            decreases n - i,
        {
            match glob_match_str(pattern, self.entries[i].key.as_str()) {
                None => {
                    let empty: Vec<String> = Vec::new();
                    proof {
                        assert(empty.deep_view() =~= Seq::<Seq<char>>::empty());
                    }
                    return empty;
                },
                Some(true) => {
                    let ghost src_old = src;
                    let ghost out_old = out@;
                    out.push(self.entries[i].key.clone());
                    proof {
                        src = src.push(i as int);
                        assert(out@[out@.len() - 1] == self.entries@[i as int].key);
                        assert forall|j: int|
                            #![all_triggers]
                            0 <= j < out@.len() implies 0 <= src[j] < i + 1 && out@[j]
                            == self.entries@[src[j]].key && glob_match(pattern@, out@[j]@) by {
                            if j < out_old.len() {
                                assert(out@[j] == out_old[j]);
                                assert(src[j] == src_old[j]);
                                let w = out_old[j];
                            } else {
                                assert(src[j] == i as int);
                                assert(out@[j] == self.entries@[i as int].key);
                            }
                        }
                        assert(keys_sound(out@, src, self.entries@, i + 1));
                        assert forall|j1: int, j2: int| 0 <= j1 < j2 < src.len() implies src[j1]
                            < src[j2] by {
                            let w1 = out@[j1];
                            if j2 < src_old.len() {
                                let w2 = out_old[j2];
                                assert(out@[j2] == out_old[j2]);
                            } else {
                                assert(src[j2] == i as int);
                                let w0 = out_old[j1];
                                assert(src_old[j1] < i);
                            }
                        }
                        assert forall|m: int|
                            0 <= m < i + 1 && glob_match(
                                pattern@,
                                #[trigger] self.entries@[m].key@,
                            ) implies exists|j: int| 0 <= j < src.len() && src[j] == m by {
                            if m < i {
                                assert(self.entries@[m] == self.entries@[m]);
                                let j = choose|j: int| 0 <= j < src_old.len() && src_old[j] == m;
                                assert(src[j] == m);
                            } else {
                                assert(src[src.len() - 1] == m);
                            }
                        }
                    }
                },
                Some(false) => {
                    proof {
                        assert forall|j: int|
                            #![all_triggers]
                            0 <= j < out@.len() implies 0 <= src[j] < i + 1 && out@[j]
                            == self.entries@[src[j]].key && glob_match(pattern@, out@[j]@) by {
                            let w = out@[j];
                        }
                        assert(keys_sound(out@, src, self.entries@, i + 1));
                    }
                },
            }
            i = i + 1;
            proof {
                assert(keys_sound(out@, src, self.entries@, i as int));
            }
        }
        proof {
            if out@.len() > 0 {
                let w = out@[0];
                assert(i > 0);
            }
            if glob_ok(pattern@) {
                assert forall|j: int| 0 <= j < out@.len() implies self@.contains_key(
                    #[trigger] out@[j]@,
                ) && glob_match(pattern@, out@[j]@) by {
                    let w = out@[j];
                    assert(0 <= src[j] < n);
                    lemma_map_of_get(self.entries@, src[j]);
                }
                assert forall|k: Seq<char>|
                    self@.contains_key(k) && glob_match(pattern@, k) implies exists|j: int|
                    0 <= j < out@.len() && (#[trigger] out@[j]@) == k by {
                    lemma_map_of_contains(self.entries@, k);
                    let m = choose|m: int|
                        0 <= m < self.entries@.len() && (#[trigger] self.entries@[m].key@) == k;
                    assert(self.entries@[m] == self.entries@[m]);
                    let j = choose|j: int| 0 <= j < src.len() && src[j] == m;
                    let w = out@[j];
                    assert(out@[j]@ == k);
                }
                assert forall|j1: int, j2: int| 0 <= j1 < j2 < out@.len() implies (
                #[trigger] out@[j1]@) != (#[trigger] out@[j2]@) by {
                    let w1 = out@[j1];
                    let w2 = out@[j2];
                    assert(0 <= src[j1] < n && 0 <= src[j2] < n);
                    assert(src[j1] < src[j2]);
                    assert(self.entries@[src[j1]].key@ != self.entries@[src[j2]].key@);
                }
            }
            if pattern@ == seq!['*'] {
                assert forall|k: Seq<char>| self@.contains_key(k) implies exists|j: int|
                    0 <= j < out@.len() && (#[trigger] out@[j]@) == k by {
                    lemma_map_of_contains(self.entries@, k);
                    let m = choose|m: int|
                        0 <= m < self.entries@.len() && (#[trigger] self.entries@[m].key@) == k;
                    assert(self.entries@[m] == self.entries@[m]);
                    assert(glob_match(pattern@, self.entries@[m].key@));
                    let j = choose|j: int| 0 <= j < src.len() && src[j] == m;
                    let w = out@[j];
                    assert(out@[j]@ == k);
                }
            }
            let dv = out.deep_view();
            assert(dv.len() == out@.len());
            assert(forall|j: int| 0 <= j < out@.len() ==> (#[trigger] dv[j]) == out@[j]@);
            if glob_ok(pattern@) {
                assert forall|k: Seq<char>|
                    self@.contains_key(k) && glob_match(pattern@, k) implies dv.contains(k) by {
                    let j = choose|j: int| 0 <= j < out@.len() && (#[trigger] out@[j]@) == k;
                    assert(dv[j] == k);
                }
            }
            if pattern@ == seq!['*'] {
                assert forall|k: Seq<char>| self@.contains_key(k) implies dv.contains(k) by {
                    let j = choose|j: int| 0 <= j < out@.len() && (#[trigger] out@[j]@) == k;
                    assert(dv[j] == k);
                }
            }
            assert(keys_set_ok(dv, self@, pattern@));
        }
        out
    }
}

} // verus!
