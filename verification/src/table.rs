//! An ordered table: a finite map kept as a list of entries sorted by key,
//! so that walking it visits keys in ascending order.

use vstd::prelude::*;
use crate::bytes::{KeyOrder, bytes_lt, compare_bytes, copy_bytes, lemma_bytes_lt_irreflexive,
    lemma_bytes_lt_transitive, lemma_bytes_lt_total};

verus! {

/// A key type with a strict total order.
pub trait TableKey: Sized + View {
    spec fn key_lt(a: Self::V, b: Self::V) -> bool;

    proof fn lemma_key_lt_irreflexive(a: Self::V)
        ensures
            !Self::key_lt(a, a),
    ;

    proof fn lemma_key_lt_transitive(a: Self::V, b: Self::V, c: Self::V)
        requires
            Self::key_lt(a, b),
            Self::key_lt(b, c),
        ensures
            Self::key_lt(a, c),
    ;

    proof fn lemma_key_lt_total(a: Self::V, b: Self::V)
        requires
            a != b,
        ensures
            Self::key_lt(a, b) || Self::key_lt(b, a),
    ;

    fn compare_key(&self, other: &Self) -> (r: KeyOrder)
        ensures
            r == KeyOrder::Less <==> Self::key_lt(self@, other@),
            r == KeyOrder::Equal <==> self@ == other@,
            r == KeyOrder::Greater <==> Self::key_lt(other@, self@),
    ;

    fn clone_key(&self) -> (r: Self)
        ensures
            r@ == self@,
    ;
}

impl TableKey for Vec<u8> {
    open spec fn key_lt(a: Seq<u8>, b: Seq<u8>) -> bool {
        bytes_lt(a, b)
    }

    proof fn lemma_key_lt_irreflexive(a: Seq<u8>) {
        lemma_bytes_lt_irreflexive(a);
    }

    proof fn lemma_key_lt_transitive(a: Seq<u8>, b: Seq<u8>, c: Seq<u8>) {
        lemma_bytes_lt_transitive(a, b, c);
    }

    proof fn lemma_key_lt_total(a: Seq<u8>, b: Seq<u8>) {
        lemma_bytes_lt_total(a, b);
    }

    fn compare_key(&self, other: &Self) -> (r: KeyOrder) {
        compare_bytes(self, other)
    }

    fn clone_key(&self) -> (r: Self) {
        copy_bytes(self)
    }
}

impl TableKey for u64 {
    open spec fn key_lt(a: u64, b: u64) -> bool {
        a < b
    }

    proof fn lemma_key_lt_irreflexive(a: u64) {
    }

    proof fn lemma_key_lt_transitive(a: u64, b: u64, c: u64) {
    }

    proof fn lemma_key_lt_total(a: u64, b: u64) {
    }

    fn compare_key(&self, other: &Self) -> (r: KeyOrder) {
        if *self < *other {
            KeyOrder::Less
        } else if *self == *other {
            KeyOrder::Equal
        } else {
            KeyOrder::Greater
        }
    }

    fn clone_key(&self) -> (r: Self) {
        *self
    }
}

/// Pairs of byte strings, ordered by their first component and then by
/// their second.
impl TableKey for (Vec<u8>, Vec<u8>) {
    open spec fn key_lt(a: (Seq<u8>, Seq<u8>), b: (Seq<u8>, Seq<u8>)) -> bool {
        bytes_lt(a.0, b.0) || (a.0 == b.0 && bytes_lt(a.1, b.1))
    }

    proof fn lemma_key_lt_irreflexive(a: (Seq<u8>, Seq<u8>)) {
        lemma_bytes_lt_irreflexive(a.0);
        lemma_bytes_lt_irreflexive(a.1);
    }

    proof fn lemma_key_lt_transitive(
        a: (Seq<u8>, Seq<u8>),
        b: (Seq<u8>, Seq<u8>),
        c: (Seq<u8>, Seq<u8>),
    ) {
        if bytes_lt(a.0, b.0) && bytes_lt(b.0, c.0) {
            lemma_bytes_lt_transitive(a.0, b.0, c.0);
        }
        if a.0 == b.0 && b.0 == c.0 && bytes_lt(a.1, b.1) && bytes_lt(b.1, c.1) {
            lemma_bytes_lt_transitive(a.1, b.1, c.1);
        }
    }

    proof fn lemma_key_lt_total(a: (Seq<u8>, Seq<u8>), b: (Seq<u8>, Seq<u8>)) {
        if a.0 != b.0 {
            lemma_bytes_lt_total(a.0, b.0);
        } else {
            assert(a.1 != b.1);
            lemma_bytes_lt_total(a.1, b.1);
        }
    }

    fn compare_key(&self, other: &Self) -> (r: KeyOrder) {
        proof {
            lemma_bytes_lt_irreflexive(self.0@);
            lemma_bytes_lt_irreflexive(self.1@);
            if bytes_lt(self.0@, other.0@) && bytes_lt(other.0@, self.0@) {
                lemma_bytes_lt_transitive(self.0@, other.0@, self.0@);
            }
            if bytes_lt(self.1@, other.1@) && bytes_lt(other.1@, self.1@) {
                lemma_bytes_lt_transitive(self.1@, other.1@, self.1@);
            }
        }
        match compare_bytes(&self.0, &other.0) {
            KeyOrder::Less => KeyOrder::Less,
            KeyOrder::Greater => KeyOrder::Greater,
            KeyOrder::Equal => compare_bytes(&self.1, &other.1),
        }
    }

    fn clone_key(&self) -> (r: Self) {
        (copy_bytes(&self.0), copy_bytes(&self.1))
    }
}

/// Entries strictly ascending by key (so no key occurs twice).
pub open spec fn sorted_by<K: TableKey, W>(s: Seq<(K::V, W)>) -> bool {
    forall|i: int, j: int|
        0 <= i < j < s.len() ==> K::key_lt(#[trigger] s[i].0, #[trigger] s[j].0)
}

pub open spec fn has_key<A, W>(s: Seq<(A, W)>, k: A) -> bool {
    exists|i: int| 0 <= i < s.len() && #[trigger] s[i].0 == k
}

/// The position of key `k` among the entries, where it occurs.
pub open spec fn key_index<A, W>(s: Seq<(A, W)>, k: A) -> int {
    choose|i: int| 0 <= i < s.len() && #[trigger] s[i].0 == k
}

/// The value stored under key `k`.
pub open spec fn lookup<A, W>(s: Seq<(A, W)>, k: A) -> Option<W> {
    if has_key(s, k) {
        Some(s[key_index(s, k)].1)
    } else {
        None
    }
}

/// `p` is where `k` goes: every key before it is smaller, every key from it on larger.
pub open spec fn is_insertion_point<K: TableKey, W>(s: Seq<(K::V, W)>, k: K::V, p: int) -> bool {
    &&& 0 <= p <= s.len()
    &&& forall|j: int| 0 <= j < p ==> K::key_lt(#[trigger] s[j].0, k)
    &&& forall|j: int| p <= j < s.len() ==> K::key_lt(k, #[trigger] s[j].0)
}

/// The entries after storing `v` under `k`: the entry of `k` is replaced where it
/// exists, and otherwise a new entry goes in at its place in key order.
pub open spec fn table_insert<K: TableKey, W>(s: Seq<(K::V, W)>, k: K::V, v: W) -> Seq<(K::V, W)> {
    if has_key(s, k) {
        s.update(key_index(s, k), (k, v))
    } else {
        s.insert(choose|p: int| is_insertion_point::<K, W>(s, k, p), (k, v))
    }
}

/// In a sorted table, each key sits at exactly one position.
pub proof fn lemma_lookup_at<K: TableKey, W>(s: Seq<(K::V, W)>, i: int)
    requires
        sorted_by::<K, W>(s),
        0 <= i < s.len(),
    ensures
        has_key(s, s[i].0),
        key_index(s, s[i].0) == i,
        lookup(s, s[i].0) == Some(s[i].1),
{
    let k = s[i].0;
    assert(has_key(s, k));
    let j = key_index(s, k);
    if j < i {
        K::lemma_key_lt_irreflexive(k);
    } else if j > i {
        K::lemma_key_lt_irreflexive(k);
    }
}

/// Insertion keeps a table sorted; afterwards `k` reads `v` and every other key
/// reads what it read before.
pub proof fn lemma_table_insert<K: TableKey, W>(s: Seq<(K::V, W)>, k: K::V, v: W)
    requires
        sorted_by::<K, W>(s),
    ensures
        sorted_by::<K, W>(table_insert::<K, W>(s, k, v)),
        lookup(table_insert::<K, W>(s, k, v), k) == Some(v),
        forall|k2: K::V| k2 != k ==> lookup(table_insert::<K, W>(s, k, v), k2) == lookup(s, k2),
        has_key(s, k) ==> table_insert::<K, W>(s, k, v).len() == s.len(),
        !has_key(s, k) ==> table_insert::<K, W>(s, k, v).len() == s.len() + 1,
{
    let t = table_insert::<K, W>(s, k, v);
    if has_key(s, k) {
        let i = key_index(s, k);
        assert(sorted_by::<K, W>(t)) by {
            assert forall|a: int, b: int| 0 <= a < b < t.len() implies K::key_lt(
                #[trigger] t[a].0,
                #[trigger] t[b].0,
            ) by {
                assert(K::key_lt(s[a].0, s[b].0));
            }
        }
        lemma_lookup_at::<K, W>(t, i);
        assert forall|k2: K::V| k2 != k implies lookup(t, k2) == lookup(s, k2) by {
            if has_key(s, k2) {
                let j = key_index(s, k2);
                lemma_lookup_at::<K, W>(s, j);
                lemma_lookup_at::<K, W>(t, j);
            }
            if has_key(t, k2) {
                let j = key_index(t, k2);
                lemma_lookup_at::<K, W>(t, j);
                assert(s[j].0 == k2);
            }
        }
    } else {
        lemma_insertion_point_exists::<K, W>(s, k, 0);
        let p = choose|p: int| is_insertion_point::<K, W>(s, k, p);
        assert(sorted_by::<K, W>(t)) by {
            assert forall|a: int, b: int| 0 <= a < b < t.len() implies K::key_lt(
                #[trigger] t[a].0,
                #[trigger] t[b].0,
            ) by {
                if a < p && b < p {
                    assert(K::key_lt(s[a].0, s[b].0));
                } else if a < p && b == p {
                } else if a < p {
                    assert(K::key_lt(s[a].0, s[b - 1].0));
                } else if a == p {
                } else {
                    assert(K::key_lt(s[a - 1].0, s[b - 1].0));
                }
            }
        }
        lemma_lookup_at::<K, W>(t, p);
        assert forall|k2: K::V| k2 != k implies lookup(t, k2) == lookup(s, k2) by {
            if has_key(s, k2) {
                let j = key_index(s, k2);
                lemma_lookup_at::<K, W>(s, j);
                if j < p {
                    lemma_lookup_at::<K, W>(t, j);
                } else {
                    assert(t[j + 1] == s[j]);
                    lemma_lookup_at::<K, W>(t, j + 1);
                }
            }
            if has_key(t, k2) {
                let j = key_index(t, k2);
                lemma_lookup_at::<K, W>(t, j);
                if j < p {
                    assert(s[j].0 == k2);
                } else if j > p {
                    assert(s[j - 1].0 == k2);
                }
            }
        }
    }
}

/// A key that is not in a sorted table has a place to go, at or after any
/// position that only smaller keys precede.
proof fn lemma_insertion_point_exists<K: TableKey, W>(s: Seq<(K::V, W)>, k: K::V, p: int)
    requires
        sorted_by::<K, W>(s),
        !has_key(s, k),
        0 <= p <= s.len(),
        forall|j: int| 0 <= j < p ==> K::key_lt(#[trigger] s[j].0, k),
    ensures
        exists|q: int| is_insertion_point::<K, W>(s, k, q),
    decreases s.len() - p,
{
    if p == s.len() {
        assert(is_insertion_point::<K, W>(s, k, p));
    } else if K::key_lt(s[p].0, k) {
        lemma_insertion_point_exists::<K, W>(s, k, p + 1);
    } else {
        assert(s[p].0 != k);
        K::lemma_key_lt_total(s[p].0, k);
        assert forall|j: int| p <= j < s.len() implies K::key_lt(k, #[trigger] s[j].0) by {
            if j > p {
                K::lemma_key_lt_transitive(k, s[p].0, s[j].0);
            }
        }
        assert(is_insertion_point::<K, W>(s, k, p));
    }
}

/// Taking out the entry at `i` leaves a gap at `i` where its key belongs, and
/// putting that key back there with any value is the same as storing that value
/// under the key.
pub proof fn lemma_reinsert<K: TableKey, W>(s: Seq<(K::V, W)>, i: int, w: W)
    requires
        sorted_by::<K, W>(s),
        0 <= i < s.len(),
    ensures
        sorted_by::<K, W>(s.remove(i)),
        !has_key(s.remove(i), s[i].0),
        is_insertion_point::<K, W>(s.remove(i), s[i].0, i),
        s.remove(i).insert(i, (s[i].0, w)) == table_insert::<K, W>(s, s[i].0, w),
{
    let r = s.remove(i);
    let k = s[i].0;
    assert(sorted_by::<K, W>(r)) by {
        assert forall|a: int, b: int| 0 <= a < b < r.len() implies K::key_lt(
            #[trigger] r[a].0,
            #[trigger] r[b].0,
        ) by {
            if b < i {
                assert(K::key_lt(s[a].0, s[b].0));
            } else if a < i {
                assert(K::key_lt(s[a].0, s[b + 1].0));
            } else {
                assert(K::key_lt(s[a + 1].0, s[b + 1].0));
            }
        }
    }
    assert forall|j: int| 0 <= j < i implies K::key_lt(#[trigger] r[j].0, k) by {
        assert(K::key_lt(s[j].0, s[i].0));
    }
    assert forall|j: int| i <= j < r.len() implies K::key_lt(k, #[trigger] r[j].0) by {
        assert(K::key_lt(s[i].0, s[j + 1].0));
    }
    assert(!has_key(r, k)) by {
        K::lemma_key_lt_irreflexive(k);
        if has_key(r, k) {
            let j = choose|j: int| 0 <= j < r.len() && #[trigger] r[j].0 == k;
            if j < i {
                assert(K::key_lt(r[j].0, k));
            } else {
                assert(K::key_lt(k, r[j].0));
            }
        }
    }
    lemma_lookup_at::<K, W>(s, i);
    assert(r.insert(i, (k, w)) =~= s.update(i, (k, w)));
}

/// A finite map whose entries are kept in ascending key order.
pub struct Table<K: TableKey, V: View> {
    entries: Vec<(K, V)>,
}

impl<K: TableKey, V: View> View for Table<K, V> {
    type V = Seq<(K::V, V::V)>;

    closed spec fn view(&self) -> Seq<(K::V, V::V)> {
        self.entries@.map_values(|e: (K, V)| (e.0@, e.1@))
    }
}

impl<K: TableKey, V: View> Table<K, V> {
    /// The table's entries are strictly ascending by key; this holds of every table.
    #[verifier::type_invariant]
    pub open spec fn wf(&self) -> bool {
        sorted_by::<K, V::V>(self@)
    }

    /// An empty table.
    pub fn new() -> (t: Self)
        ensures
            t@ == Seq::<(K::V, V::V)>::empty(),
            t.wf(),
    {
        let t = Table { entries: Vec::new() };
        assert(t@ =~= Seq::<(K::V, V::V)>::empty());
        t
    }

    /// The number of entries.
    pub fn len(&self) -> (n: usize)
        ensures
            n == self@.len(),
            self.wf(),
    {
        proof {
            use_type_invariant(self);
        }
        self.entries.len()
    }

    /// The key of the entry at position `i`.
    pub fn key_at(&self, i: usize) -> (k: &K)
        requires
            i < self@.len(),
        ensures
            k@ == self@[i as int].0,
    {
        &self.entries[i].0
    }

    /// The value of the entry at position `i`.
    pub fn value_at(&self, i: usize) -> (v: &V)
        requires
            i < self@.len(),
        ensures
            v@ == self@[i as int].1,
    {
        &self.entries[i].1
    }

    /// Where `k` is, or where it would go.
    fn position(&self, k: &K) -> (r: (usize, bool))
        ensures
            self.wf(),
            r.1 ==> r.0 < self@.len() && self@[r.0 as int].0 == k@,
            !r.1 ==> !has_key(self@, k@) && is_insertion_point::<K, V::V>(self@, k@, r.0 as int),
    {
        proof {
            use_type_invariant(self);
        }
        let n = self.entries.len();
        let mut i: usize = 0;
        while i < n
            invariant
                n == self@.len(),
                self.wf(),
                i <= n,
                forall|j: int| 0 <= j < i ==> K::key_lt(#[trigger] self@[j].0, k@),
            decreases n - i,
        {
            let c = k.compare_key(&self.entries[i].0);
            assert(self@[i as int].0 == self.entries@[i as int].0@);
            match c {
                KeyOrder::Equal => {
                    return (i, true);
                },
                KeyOrder::Less => {
                    proof {
                        assert forall|j: int| i <= j < n implies K::key_lt(
                            k@,
                            #[trigger] self@[j].0,
                        ) by {
                            if j > i {
                                K::lemma_key_lt_transitive(k@, self@[i as int].0, self@[j].0);
                            }
                        }
                        K::lemma_key_lt_irreflexive(k@);
                    }
                    return (i, false);
                },
                KeyOrder::Greater => {
                    i = i + 1;
                },
            }
        }
        proof {
            K::lemma_key_lt_irreflexive(k@);
        }
        (n, false)
    }

    /// The position of the entry of `k`, where there is one.
    pub fn find(&self, k: &K) -> (r: Option<usize>)
        ensures
            self.wf(),
            r is Some <==> has_key(self@, k@),
            r matches Some(i) ==> i < self@.len() && self@[i as int].0 == k@ && key_index(
                self@,
                k@,
            ) == i,
    {
        let (i, found) = self.position(k);
        if found {
            proof {
                lemma_lookup_at::<K, V::V>(self@, i as int);
            }
            Some(i)
        } else {
            None
        }
    }

    /// Takes out the entry at position `i`.
    pub fn take_at(&mut self, i: usize) -> (e: (K, V))
        requires
            i < old(self)@.len(),
        ensures
            old(self).wf(),
            final(self)@ == old(self)@.remove(i as int),
            e.0@ == old(self)@[i as int].0,
            e.1@ == old(self)@[i as int].1,
            final(self).wf(),
    {
        proof {
            use_type_invariant(&*self);
        }
        let ghost s = self@;
        let mut entries: Vec<(K, V)> = Vec::new();
        std::mem::swap(&mut entries, &mut self.entries);
        let e = entries.remove(i);
        proof {
            lemma_reinsert::<K, V::V>(s, i as int, s[i as int].1);
            assert(entries@.map_values(|e: (K, V)| (e.0@, e.1@)) =~= s.remove(i as int));
        }
        self.entries = entries;
        e
    }

    /// Puts an entry back at position `i`, where its key belongs.
    pub fn put_at(&mut self, i: usize, k: K, v: V)
        requires
            is_insertion_point::<K, V::V>(old(self)@, k@, i as int),
        ensures
            final(self)@ == old(self)@.insert(i as int, (k@, v@)),
            final(self).wf(),
    {
        proof {
            use_type_invariant(&*self);
        }
        let ghost s = self@;
        let ghost kv = k@;
        let ghost t = s.insert(i as int, (kv, v@));
        proof {
            assert forall|a: int, b: int| 0 <= a < b < t.len() implies K::key_lt(
                #[trigger] t[a].0,
                #[trigger] t[b].0,
            ) by {
                if a < i && b < i {
                    assert(K::key_lt(s[a].0, s[b].0));
                } else if a < i && b > i {
                    assert(K::key_lt(s[a].0, s[b - 1].0));
                } else if a > i {
                    assert(K::key_lt(s[a - 1].0, s[b - 1].0));
                }
            }
        }
        let mut entries: Vec<(K, V)> = Vec::new();
        std::mem::swap(&mut entries, &mut self.entries);
        entries.insert(i, (k, v));
        assert(entries@.map_values(|e: (K, V)| (e.0@, e.1@)) =~= t);
        self.entries = entries;
    }

    /// The value stored under `k`.
    pub fn get(&self, k: &K) -> (r: Option<&V>)
        ensures
            self.wf(),
            r is Some <==> has_key(self@, k@),
            r matches Some(v) ==> lookup(self@, k@) == Some(v@),
            r is None ==> lookup(self@, k@) is None,
    {
        let (i, found) = self.position(k);
        if found {
            proof {
                lemma_lookup_at::<K, V::V>(self@, i as int);
            }
            Some(&self.entries[i].1)
        } else {
            None
        }
    }

    /// Whether `k` has an entry.
    pub fn contains_key(&self, k: &K) -> (r: bool)
        ensures
            self.wf(),
            r == has_key(self@, k@),
    {
        let (_, found) = self.position(k);
        found
    }

    /// Stores `v` under `k`, replacing what `k` held.
    pub fn insert(&mut self, k: K, v: V)
        ensures
            old(self).wf(),
            final(self)@ == table_insert::<K, V::V>(old(self)@, k@, v@),
            final(self).wf(),
    {
        let ghost s = self@;
        let ghost kv = k@;
        let ghost vv = v@;
        let (i, found) = self.position(&k);
        proof {
            lemma_table_insert::<K, V::V>(s, kv, vv);
        }
        let mut entries: Vec<(K, V)> = Vec::new();
        std::mem::swap(&mut entries, &mut self.entries);
        if found {
            proof {
                lemma_lookup_at::<K, V::V>(s, i as int);
            }
            entries.set(i, (k, v));
            assert(entries@.map_values(|e: (K, V)| (e.0@, e.1@)) =~= s.update(i as int, (kv, vv)));
        } else {
            proof {
                let p = choose|p: int| is_insertion_point::<K, V::V>(s, kv, p);
                if p < i {
                    K::lemma_key_lt_irreflexive(kv);
                    assert(K::key_lt(kv, s[p].0));
                    assert(K::key_lt(s[p].0, kv));
                    K::lemma_key_lt_transitive(kv, s[p].0, kv);
                } else if p > i {
                    K::lemma_key_lt_irreflexive(kv);
                    assert(K::key_lt(kv, s[i as int].0));
                    assert(K::key_lt(s[i as int].0, kv));
                    K::lemma_key_lt_transitive(kv, s[i as int].0, kv);
                }
            }
            entries.insert(i, (k, v));
            assert(entries@.map_values(|e: (K, V)| (e.0@, e.1@)) =~= s.insert(i as int, (kv, vv)));
        }
        self.entries = entries;
    }
}

} // verus!
