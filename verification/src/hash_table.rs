//! A hash table from strings to values with separate chaining: a fixed
//! number of buckets, each a list of the key-value pairs whose key hashes
//! to it. Its contents are modeled as a `Map` from keys to values.

use std::collections::hash_map::DefaultHasher;
use std::hash::Hasher;
use vstd::prelude::*;
use vstd::std_specs::hash::DefaultHasherAdditionalSpecFns;
use vstd::string::StringSliceAdditionalSpecFns;
use vstd::utf8::encode_utf8;

verus! {

/// The 64-bit hash of a key: std's `DefaultHasher` fed the key's UTF-8
/// bytes followed by the byte `0xff`, as `str`'s `Hash` impl feeds it.
pub open spec fn key_hash(key: Seq<char>) -> u64 {
    DefaultHasher::spec_finish(seq![encode_utf8(key), seq![0xffu8]])
}

/// The bucket that holds `key` in a table of `n` buckets.
pub open spec fn bucket_index(key: Seq<char>, n: nat) -> int {
    (key_hash(key) as usize) as int % (n as int)
}

/// The value bound to `key` in `m`, if any.
pub open spec fn lookup<V>(m: Map<Seq<char>, V>, key: Seq<char>) -> Option<V> {
    if m.contains_key(key) {
        Some(m[key])
    } else {
        None
    }
}

/// A hash table with separate chaining.
#[verifier::reject_recursive_types(V)]
pub struct HashTable<V> {
    buckets: Vec<Vec<(String, V)>>,
    /// number of elements in the hash_table
    size: usize,
    contents: Ghost<Map<Seq<char>, V>>,
}

impl<V> View for HashTable<V> {
    type V = Map<Seq<char>, V>;

    closed spec fn view(&self) -> Map<Seq<char>, V> {
        self.contents@
    }
}

impl<V> HashTable<V> {
    /// The number of buckets.
    pub closed spec fn spec_capacity(&self) -> nat {
        self.buckets@.len()
    }

    /// Whether `key` is stored in bucket `b`.
    spec fn bucket_holds(&self, b: int, key: Seq<char>) -> bool {
        exists|j: int| 0 <= j < self.buckets@[b]@.len() && (#[trigger] self.buckets@[b]@[j]).0@ == key
    }

    /// The table's invariant: every pair sits in the bucket its key hashes
    /// to and agrees with the model, no bucket holds a key twice, every key
    /// of the model is in its bucket, and `size` counts the keys.
    pub closed spec fn wf(&self) -> bool {
        &&& forall|b: int, j: int|
            #![trigger self.buckets@[b]@[j]]
            0 <= b < self.buckets@.len() && 0 <= j < self.buckets@[b]@.len() ==> {
                let (k, v) = self.buckets@[b]@[j];
                &&& bucket_index(k@, self.buckets@.len()) == b
                &&& self.contents@.contains_key(k@)
                &&& self.contents@[k@] == v
            }
        &&& forall|b: int, i: int, j: int|
            #![trigger self.buckets@[b]@[i], self.buckets@[b]@[j]]
            0 <= b < self.buckets@.len() && 0 <= i < j < self.buckets@[b]@.len()
                ==> self.buckets@[b]@[i].0@ != self.buckets@[b]@[j].0@
        &&& forall|k: Seq<char>|
            #[trigger] self.contents@.contains_key(k) ==> self.buckets@.len() > 0
                && self.bucket_holds(bucket_index(k, self.buckets@.len()), k)
        &&& self.contents@.dom().finite()
        &&& self.size == self.contents@.dom().len()
    }

    /// An empty table with `capacity` buckets.
    pub fn new(capacity: usize) -> (r: Self)
        ensures
            r.wf(),
            r@ == Map::<Seq<char>, V>::empty(),
            r@.dom().finite(),
            r.spec_capacity() == capacity,
    {
        let mut buckets: Vec<Vec<(String, V)>> = Vec::new();
        let mut i: usize = 0;
        while i < capacity
            invariant
                i <= capacity,
                buckets@.len() == i,
                forall|b: int| 0 <= b < i ==> (#[trigger] buckets@[b])@.len() == 0,
            decreases capacity - i,
        {
            buckets.push(Vec::new());
            i = i + 1;
        }
        HashTable { buckets, size: 0, contents: Ghost(Map::empty()) }
    }

    /// The bucket that `key` belongs to.
    pub fn hash(&self, key: &str) -> (r: usize)
        requires
            self.spec_capacity() > 0,
        ensures
            r as int == bucket_index(key@, self.spec_capacity()),
    {
        let bytes = key.as_bytes();
        let terminator: [u8; 1] = [0xffu8];
        assert(terminator@ =~= seq![0xffu8]);
        let mut s = DefaultHasher::new();
        s.write(bytes);
        s.write(terminator.as_slice());
        let h = s.finish();
        assert(s@ =~= seq![encode_utf8(key@), seq![0xffu8]]);
        (#[verifier::truncate] (h as usize)) % self.buckets.len()
    }

    /// The position of `key` in bucket `b`, if the bucket holds it.
    fn find_in_bucket(&self, b: usize, key: &String) -> (r: Option<usize>)
        requires
            b < self.buckets@.len(),
        ensures
            r matches Some(j) ==> j < self.buckets@[b as int]@.len()
                && self.buckets@[b as int]@[j as int].0@ == key@,
            r is None ==> forall|j: int|
                0 <= j < self.buckets@[b as int]@.len()
                    ==> (#[trigger] self.buckets@[b as int]@[j]).0@ != key@,
    {
        let bucket = &self.buckets[b];
        let mut j: usize = 0;
        while j < bucket.len()
            invariant
                bucket@ == self.buckets@[b as int]@,
                j <= bucket@.len(),
                forall|jj: int| 0 <= jj < j ==> (#[trigger] bucket@[jj]).0@ != key@,
            decreases bucket@.len() - j,
        {
            if bucket[j].0 == *key {
                return Some(j);
            }
            j = j + 1;
        }
        None
    }

    /// The value bound to `k`, if any.
    pub fn get(&self, k: &String) -> (r: Option<&V>)
        requires
            self.wf(),
            self.spec_capacity() > 0,
        ensures
            r matches Some(v) ==> lookup(self@, k@) == Some(*v),
            r is None ==> lookup(self@, k@) is None,
    {
        let b = self.hash(k.as_str());
        match self.find_in_bucket(b, k) {
            Some(j) => {
                let entry = &self.buckets[b][j];
                Some(&entry.1)
            },
            None => {
                proof {
                    if self@.contains_key(k@) {
                        assert(self.bucket_holds(b as int, k@));
                    }
                }
                None
            },
        }
    }

    /// Binds `k` to `v`. Returns the value `k` was bound to before, if any.
    pub fn insert(&mut self, k: String, v: V) -> (r: Option<V>)
        requires
            old(self).wf(),
            old(self).spec_capacity() > 0,
            old(self)@.len() < usize::MAX,
        ensures
            final(self).wf(),
            final(self).spec_capacity() == old(self).spec_capacity(),
            final(self)@ == old(self)@.insert(k@, v),
            final(self)@.dom().finite(),
            r == lookup(old(self)@, k@),
    {
        let b = self.hash(k.as_str());
        let ghost n = self.buckets@.len();
        let ghost old_contents = self.contents@;
        let ghost new_contents = self.contents@.insert(k@, v);
        match self.find_in_bucket(b, &k) {
            Some(j) => {
                let ghost old_bucket = self.buckets@[b as int]@;
                let mut value = v;
                std::mem::swap(&mut self.buckets[b][j].1, &mut value);
                self.contents = Ghost(new_contents);
                proof {
                    let ob = old(self).buckets@;
                    let nb = self.buckets@;
                    assert(nb.len() == n);
                    assert(forall|bb: int| 0 <= bb < n && bb != b ==> nb[bb]@ == ob[bb]@);
                    assert(nb[b as int]@ == old_bucket.update(j as int, (old_bucket[j as int].0, v)));
                    assert(old_contents.contains_key(k@));
                    assert(self.contents@.dom() =~= old_contents.dom());
                    assert forall|bb: int, jj: int|
                        0 <= bb < n && 0 <= jj < nb[bb]@.len() implies
                        #[trigger] nb[bb]@[jj].0 == ob[bb]@[jj].0 by {
                    }
                    assert forall|bb: int, jj: int|
                        #![trigger nb[bb]@[jj]]
                        0 <= bb < n && 0 <= jj < nb[bb]@.len() implies {
                            let (kk, vv) = nb[bb]@[jj];
                            &&& bucket_index(kk@, n) == bb
                            &&& self.contents@.contains_key(kk@)
                            &&& self.contents@[kk@] == vv
                        } by {
                        let (ok, ov) = ob[bb]@[jj];
                        assert(bucket_index(ok@, n) == bb);
                        if bb == b && jj == j {
                        } else if bb == b {
                            if jj < j {
                                assert(ob[bb]@[jj].0@ != ob[bb]@[j as int].0@);
                            } else {
                                assert(ob[bb]@[j as int].0@ != ob[bb]@[jj].0@);
                            }
                        } else {
                            assert(ok@ != k@);
                        }
                    }
                    assert forall|kk: Seq<char>| #[trigger] self.contents@.contains_key(kk) implies
                        n > 0 && self.bucket_holds(bucket_index(kk, n), kk) by {
                        assert(old(self).bucket_holds(bucket_index(kk, n), kk));
                        let bi = bucket_index(kk, n);
                        let w = choose|jj: int| 0 <= jj < ob[bi]@.len() && (#[trigger] ob[bi]@[jj]).0@ == kk;
                        assert(nb[bi]@[w].0@ == kk);
                    }
                }
                Some(value)
            },
            None => {
                proof {
                    if old_contents.contains_key(k@) {
                        assert(self.bucket_holds(b as int, k@));
                    }
                }
                let ghost kv = k@;
                self.buckets[b].push((k, v));
                self.size = self.size + 1;
                self.contents = Ghost(new_contents);
                proof {
                    let ob = old(self).buckets@;
                    let nb = self.buckets@;
                    let last = ob[b as int]@.len() as int;
                    assert(nb[b as int]@ == ob[b as int]@.push((k, v)));
                    assert(forall|bb: int| 0 <= bb < n && bb != b ==> nb[bb]@ == ob[bb]@);
                    assert(self.contents@.dom() =~= old_contents.dom().insert(kv));
                    assert forall|bb: int, jj: int|
                        #![trigger nb[bb]@[jj]]
                        0 <= bb < n && 0 <= jj < nb[bb]@.len() implies {
                            let (kk, vv) = nb[bb]@[jj];
                            &&& bucket_index(kk@, n) == bb
                            &&& self.contents@.contains_key(kk@)
                            &&& self.contents@[kk@] == vv
                        } by {
                        if bb == b && jj == last {
                        } else {
                            let (ok, ov) = ob[bb]@[jj];
                            assert(nb[bb]@[jj] == ob[bb]@[jj]);
                            assert(bucket_index(ok@, n) == bb);
                            assert(ok@ != kv);
                        }
                    }
                    assert forall|bb: int, i: int, jj: int|
                        #![trigger nb[bb]@[i], nb[bb]@[jj]]
                        0 <= bb < n && 0 <= i < jj < nb[bb]@.len() implies
                        nb[bb]@[i].0@ != nb[bb]@[jj].0@ by {
                        if bb == b && jj == last {
                            assert(nb[bb]@[i] == ob[bb]@[i]);
                        } else {
                            assert(nb[bb]@[i] == ob[bb]@[i]);
                            assert(nb[bb]@[jj] == ob[bb]@[jj]);
                        }
                    }
                    assert forall|kk: Seq<char>| #[trigger] self.contents@.contains_key(kk) implies
                        n > 0 && self.bucket_holds(bucket_index(kk, n), kk) by {
                        let bi = bucket_index(kk, n);
                        if kk == kv {
                            assert(nb[b as int]@[last].0@ == kk);
                        } else {
                            assert(old(self).bucket_holds(bi, kk));
                            let w = choose|jj: int| 0 <= jj < ob[bi]@.len() && (#[trigger] ob[bi]@[jj]).0@ == kk;
                            assert(nb[bi]@[w] == ob[bi]@[w]);
                        }
                    }
                }
                None
            },
        }
    }

    /// Unbinds `k`. Returns the value it was bound to, if any.
    pub fn remove(&mut self, k: &String) -> (r: Option<V>)
        requires
            old(self).wf(),
            old(self).spec_capacity() > 0,
        ensures
            final(self).wf(),
            final(self).spec_capacity() == old(self).spec_capacity(),
            final(self)@ == old(self)@.remove(k@),
            final(self)@.dom().finite(),
            r == lookup(old(self)@, k@),
    {
        let b = self.hash(k.as_str());
        let ghost n = self.buckets@.len();
        let ghost old_contents = self.contents@;
        match self.find_in_bucket(b, k) {
            Some(j) => {
                let ghost ob = self.buckets@;
                let entry = self.buckets[b].remove(j);
                assert(old_contents.contains_key(k@));
                self.size = self.size - 1;
                self.contents = Ghost(old_contents.remove(k@));
                proof {
                    let nb = self.buckets@;
                    let bj = j as int;
                    assert(nb[b as int]@ == ob[b as int]@.remove(bj));
                    assert(forall|bb: int| 0 <= bb < n && bb != b ==> nb[bb]@ == ob[bb]@);
                    assert forall|bb: int, jj: int|
                        #![trigger nb[bb]@[jj]]
                        0 <= bb < n && 0 <= jj < nb[bb]@.len() implies {
                            let (kk, vv) = nb[bb]@[jj];
                            &&& bucket_index(kk@, n) == bb
                            &&& self.contents@.contains_key(kk@)
                            &&& self.contents@[kk@] == vv
                        } by {
                        if bb == b {
                            if jj < bj {
                                assert(nb[bb]@[jj] == ob[bb]@[jj]);
                                assert(ob[bb]@[jj].0@ != ob[bb]@[bj].0@);
                            } else {
                                assert(nb[bb]@[jj] == ob[bb]@[jj + 1]);
                                assert(ob[bb]@[bj].0@ != ob[bb]@[jj + 1].0@);
                            }
                        } else {
                            assert(nb[bb]@[jj] == ob[bb]@[jj]);
                            assert(bucket_index(ob[bb]@[jj].0@, n) == bb);
                        }
                    }
                    assert forall|bb: int, i: int, jj: int|
                        #![trigger nb[bb]@[i], nb[bb]@[jj]]
                        0 <= bb < n && 0 <= i < jj < nb[bb]@.len() implies
                        nb[bb]@[i].0@ != nb[bb]@[jj].0@ by {
                        if bb == b {
                            let oi = if i < bj { i } else { i + 1 };
                            let oj = if jj < bj { jj } else { jj + 1 };
                            assert(nb[bb]@[i] == ob[bb]@[oi]);
                            assert(nb[bb]@[jj] == ob[bb]@[oj]);
                            assert(ob[bb]@[oi].0@ != ob[bb]@[oj].0@);
                        } else {
                            assert(nb[bb]@[i] == ob[bb]@[i]);
                            assert(nb[bb]@[jj] == ob[bb]@[jj]);
                        }
                    }
                    assert forall|kk: Seq<char>| #[trigger] self.contents@.contains_key(kk) implies
                        n > 0 && self.bucket_holds(bucket_index(kk, n), kk) by {
                        let bi = bucket_index(kk, n);
                        assert(old(self).bucket_holds(bi, kk));
                        let w = choose|jj: int| 0 <= jj < ob[bi]@.len() && (#[trigger] ob[bi]@[jj]).0@ == kk;
                        if bi == b {
                            assert(w != bj);
                            if w < bj {
                                assert(nb[bi]@[w] == ob[bi]@[w]);
                            } else {
                                assert(nb[bi]@[w - 1] == ob[bi]@[w]);
                            }
                        } else {
                            assert(nb[bi]@[w] == ob[bi]@[w]);
                        }
                    }
                    assert(self.contents@.dom() =~= old_contents.dom().remove(k@));
                }
                Some(entry.1)
            },
            None => {
                proof {
                    if old_contents.contains_key(k@) {
                        assert(self.bucket_holds(b as int, k@));
                    }
                    assert(old_contents.remove(k@) =~= old_contents);
                }
                None
            },
        }
    }

    /// A well-formed table holds finitely many keys.
    pub proof fn lemma_wf_finite(&self)
        requires
            self.wf(),
        ensures
            self@.dom().finite(),
    {
    }

    /// The number of keys in the table.
    pub fn len(&self) -> (r: usize)
        requires
            self.wf(),
        ensures
            r == self@.len(),
    {
        self.size
    }

    /// Whether the table holds no key.
    pub fn is_empty(&self) -> (r: bool)
        requires
            self.wf(),
        ensures
            r <==> self@.len() == 0,
    {
        self.size == 0
    }
}

/// A read after a write gives back what was written: after binding `k` to
/// `v`, looking `k` up gives `v`.
pub proof fn lemma_get_after_insert<V>(m: Map<Seq<char>, V>, k: Seq<char>, v: V)
    ensures
        lookup(m.insert(k, v), k) == Some(v),
{
}

/// Binding `k` leaves every other key as it was.
pub proof fn lemma_insert_keeps_others<V>(m: Map<Seq<char>, V>, k: Seq<char>, v: V, other: Seq<char>)
    requires
        other != k,
    ensures
        lookup(m.insert(k, v), other) == lookup(m, other),
{
}

/// After unbinding `k`, looking `k` up finds nothing.
pub proof fn lemma_get_after_remove<V>(m: Map<Seq<char>, V>, k: Seq<char>)
    ensures
        lookup(m.remove(k), k) is None,
{
}

/// Unbinding `k` leaves every other key as it was.
pub proof fn lemma_remove_keeps_others<V>(m: Map<Seq<char>, V>, k: Seq<char>, other: Seq<char>)
    requires
        other != k,
    ensures
        lookup(m.remove(k), other) == lookup(m, other),
{
}

/// Removing a key that was just added to a table without it gives back the
/// table as it was.
pub proof fn lemma_remove_undoes_insert<V>(m: Map<Seq<char>, V>, k: Seq<char>, v: V)
    requires
        !m.contains_key(k),
    ensures
        m.insert(k, v).remove(k) == m,
{
    assert(m.insert(k, v).remove(k) =~= m);
}

/// A second write to a key replaces the first.
pub proof fn lemma_insert_overwrites<V>(m: Map<Seq<char>, V>, k: Seq<char>, v1: V, v2: V)
    ensures
        m.insert(k, v1).insert(k, v2) == m.insert(k, v2),
{
    assert(m.insert(k, v1).insert(k, v2) =~= m.insert(k, v2));
}

/// The number of keys grows by one when a new key is bound and stays the
/// same when a bound key is rebound.
pub proof fn lemma_insert_len<V>(m: Map<Seq<char>, V>, k: Seq<char>, v: V)
    requires
        m.dom().finite(),
    ensures
        m.insert(k, v).len() == if m.contains_key(k) { m.len() } else { m.len() + 1 },
{
    if m.contains_key(k) {
        assert(m.insert(k, v).dom() =~= m.dom());
    }
}

/// The number of keys shrinks by one when a bound key is removed and stays
/// the same otherwise.
pub proof fn lemma_remove_len<V>(m: Map<Seq<char>, V>, k: Seq<char>)
    requires
        m.dom().finite(),
    ensures
        m.remove(k).len() == if m.contains_key(k) { m.len() - 1 } else { m.len() as int },
{
    if !m.contains_key(k) {
        assert(m.remove(k).dom() =~= m.dom());
    }
}

/// The contents after binding `keys[i]` to `vals[i]` for each `i` in turn,
/// starting from `m`.
pub open spec fn apply_inserts<V>(m: Map<Seq<char>, V>, keys: Seq<Seq<char>>, vals: Seq<V>) -> Map<
    Seq<char>,
    V,
>
    decreases keys.len(),
{
    if keys.len() == 0 || vals.len() < keys.len() {
        m
    } else {
        apply_inserts(m, keys.drop_last(), vals.subrange(0, keys.len() - 1)).insert(
            keys.last(),
            vals[keys.len() - 1],
        )
    }
}

/// One more insert extends the sequence: what a caller learns from each
/// `insert` call's contract adds up to `apply_inserts` over all of them.
pub proof fn lemma_apply_inserts_push<V>(
    m: Map<Seq<char>, V>,
    keys: Seq<Seq<char>>,
    vals: Seq<V>,
    k: Seq<char>,
    v: V,
)
    requires
        keys.len() == vals.len(),
    ensures
        apply_inserts(m, keys.push(k), vals.push(v)) == apply_inserts(m, keys, vals).insert(k, v),
{
    assert(keys.push(k).drop_last() =~= keys);
    assert(vals.push(v).subrange(0, keys.len() as int) =~= vals);
}

/// A table built by inserts alone, from empty, holds each inserted key once,
/// bound to the value of its last insert: its keys are the distinct keys
/// inserted, so its length is their number, and wherever `keys[j]` is not
/// inserted again later, it is bound to `vals[j]`.
pub proof fn lemma_inserts_from_empty<V>(keys: Seq<Seq<char>>, vals: Seq<V>)
    requires
        keys.len() == vals.len(),
    ensures
        apply_inserts(Map::<Seq<char>, V>::empty(), keys, vals).dom() == keys.to_set(),
        apply_inserts(Map::<Seq<char>, V>::empty(), keys, vals).dom().finite(),
        apply_inserts(Map::<Seq<char>, V>::empty(), keys, vals).len() == keys.to_set().len(),
        forall|j: int|
            0 <= j < keys.len() && (forall|l: int| j < l < keys.len() ==> keys[l] != keys[j])
                ==> #[trigger] apply_inserts(Map::<Seq<char>, V>::empty(), keys, vals)[keys[j]]
                == vals[j],
    decreases keys.len(),
{
    let m = apply_inserts(Map::<Seq<char>, V>::empty(), keys, vals);
    if keys.len() == 0 {
        assert(keys.to_set() =~= Set::<Seq<char>>::empty());
        assert(m.dom() =~= Set::<Seq<char>>::empty());
    } else {
        let n = keys.len() - 1;
        let pk = keys.drop_last();
        let pv = vals.subrange(0, n);
        lemma_inserts_from_empty(pk, pv);
        let pm = apply_inserts(Map::<Seq<char>, V>::empty(), pk, pv);
        assert(m == pm.insert(keys[n], vals[n]));
        assert(keys =~= pk.push(keys[n]));
        pk.lemma_push_to_set_commute(keys[n]);
        assert(m.dom() =~= pk.to_set().insert(keys[n]));
        assert forall|j: int|
            0 <= j < keys.len() && (forall|l: int| j < l < keys.len() ==> keys[l] != keys[j])
                implies #[trigger] m[keys[j]] == vals[j] by {
            if j < n {
                assert(keys[n] != keys[j]);
                assert(pk[j] == keys[j]);
                assert(forall|l: int| j < l < pk.len() ==> pk[l] == keys[l]);
                assert(pm[pk[j]] == pv[j]);
            }
        }
    }
}

} // verus!
