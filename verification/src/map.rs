//! An ordered map keyed by strings, iterated in ascending key order (the
//! order of a `BTreeMap<String, _>`), and a copy trait for its values.

use vstd::prelude::*;

use crate::text::chars_of;

verus! {

pub open spec fn char_before(x: char, y: char) -> bool {
    x < y
}

pub fn char_before_exec(x: char, y: char) -> (r: bool)
    ensures
        r == char_before(x, y),
{
    x < y
}

/// Strict lexicographic order on character sequences, the order of `String`'s
/// `Ord` (UTF-8 byte order equals code point order).
pub open spec fn key_lt(a: Seq<char>, b: Seq<char>) -> bool
    decreases a.len(),
{
    if a.len() == 0 {
        b.len() > 0
    } else if b.len() == 0 {
        false
    } else if char_before(a[0], b[0]) {
        true
    } else if a[0] == b[0] {
        key_lt(a.drop_first(), b.drop_first())
    } else {
        false
    }
}

pub proof fn lemma_key_lt_irreflexive(a: Seq<char>)
    ensures
        !key_lt(a, a),
    decreases a.len(),
{
    if a.len() > 0 {
        lemma_key_lt_irreflexive(a.drop_first());
    }
}

pub proof fn lemma_key_lt_transitive(a: Seq<char>, b: Seq<char>, c: Seq<char>)
    requires
        key_lt(a, b),
        key_lt(b, c),
    ensures
        key_lt(a, c),
    decreases a.len(),
{
    if a.len() > 0 && b.len() > 0 && c.len() > 0 && a[0] == b[0] && b[0] == c[0] {
        lemma_key_lt_transitive(a.drop_first(), b.drop_first(), c.drop_first());
    }
}

pub proof fn lemma_key_lt_total(a: Seq<char>, b: Seq<char>)
    ensures
        a == b || key_lt(a, b) || key_lt(b, a),
    decreases a.len(),
{
    if a.len() > 0 && b.len() > 0 && a[0] == b[0] {
        lemma_key_lt_total(a.drop_first(), b.drop_first());
        if a.drop_first() == b.drop_first() {
            assert(a.drop_first().len() == b.drop_first().len());
            assert(a.len() == b.len());
            assert forall|i: int| 0 <= i < a.len() implies a[i] == b[i] by {
                if i > 0 {
                    assert(a[i] == a.drop_first()[i - 1]);
                    assert(b[i] == b.drop_first()[i - 1]);
                }
            }
            assert(a =~= b);
        }
    } else if a.len() == 0 && b.len() == 0 {
        assert(a =~= b);
    }

}

/// Keys strictly increase along the entries.
pub open spec fn well_ordered<T>(s: Seq<(Seq<char>, T)>) -> bool {
    forall|i: int, j: int| 0 <= i < j < s.len() ==> key_lt(#[trigger] s[i].0, #[trigger] s[j].0)
}

/// Index of the first entry whose key is `k`.
pub open spec fn index_of_key<T>(s: Seq<(Seq<char>, T)>, k: Seq<char>) -> Option<int>
    decreases s.len(),
{
    if s.len() == 0 {
        None
    } else if s.last().0 == k && index_of_key(s.drop_last(), k) is None {
        Some(s.len() - 1)
    } else {
        index_of_key(s.drop_last(), k)
    }
}

/// The value stored under `k`.
pub open spec fn lookup<T>(s: Seq<(Seq<char>, T)>, k: Seq<char>) -> Option<T> {
    match index_of_key(s, k) {
        Some(i) => Some(s[i].1),
        None => None,
    }
}

/// Index of the first entry whose key is greater than `k` (or the length).
pub open spec fn insert_pos<T>(s: Seq<(Seq<char>, T)>, k: Seq<char>) -> int
    decreases s.len(),
{
    if s.len() == 0 {
        0
    } else if insert_pos(s.drop_last(), k) < s.len() - 1 {
        insert_pos(s.drop_last(), k)
    } else if key_lt(k, s.last().0) {
        s.len() - 1
    } else {
        s.len() as int
    }
}

/// The entries after storing `v` under `k`: an existing key keeps its
/// place and takes the new value; a new key goes before the first greater
/// key.
pub open spec fn insert_entry<T>(s: Seq<(Seq<char>, T)>, k: Seq<char>, v: T) -> Seq<(Seq<char>, T)> {
    match index_of_key(s, k) {
        Some(i) => s.update(i, (k, v)),
        None => s.insert(insert_pos(s, k), (k, v)),
    }
}

pub proof fn lemma_index_of_key<T>(s: Seq<(Seq<char>, T)>, k: Seq<char>) -> (r: Option<int>)
    ensures
        r == index_of_key(s, k),
        r matches Some(i) ==> 0 <= i < s.len() && s[i].0 == k && forall|j: int| 0 <= j < i ==> s[j].0 != k,
        r is None ==> forall|j: int| 0 <= j < s.len() ==> s[j].0 != k,
    decreases s.len(),
{
    if s.len() == 0 {
        None
    } else {
        let r0 = lemma_index_of_key(s.drop_last(), k);
        assert forall|j: int| 0 <= j < s.len() - 1 implies s.drop_last()[j] == s[j] by {}
        index_of_key(s, k)
    }
}

pub proof fn lemma_insert_pos<T>(s: Seq<(Seq<char>, T)>, k: Seq<char>)
    ensures
        0 <= insert_pos(s, k) <= s.len(),
        forall|j: int| 0 <= j < insert_pos(s, k) ==> !key_lt(k, #[trigger] s[j].0),
        insert_pos(s, k) < s.len() ==> key_lt(k, s[insert_pos(s, k)].0),
    decreases s.len(),
{
    if s.len() > 0 {
        lemma_insert_pos(s.drop_last(), k);
        assert forall|j: int| 0 <= j < s.len() - 1 implies s.drop_last()[j] == s[j] by {}
    }
}

/// What a key reads back right after it was stored.
pub proof fn lemma_lookup_insert_same<T>(s: Seq<(Seq<char>, T)>, k: Seq<char>, v: T)
    ensures
        lookup(insert_entry(s, k, v), k) == Some(v),
{
    let r = lemma_index_of_key(s, k);
    let t = insert_entry(s, k, v);
    match r {
        Some(i) => {
            assert(t[i].0 == k);
            let r2 = lemma_index_of_key(t, k);
            assert(r2 is Some);
            let j = r2->0;
            if j < i {
                assert(t[j] == s[j]);
            }
            assert(j == i);
        },
        None => {
            lemma_insert_pos(s, k);
            let p = insert_pos(s, k);
            assert(t[p] == (k, v));
            let r2 = lemma_index_of_key(t, k);
            assert(r2 is Some);
            let j = r2->0;
            if j < p {
                assert(t[j] == s[j]);
            }
            assert(j == p);
        },
    }
}

/// Storing under one key leaves what every other key reads.
pub proof fn lemma_lookup_insert_other<T>(s: Seq<(Seq<char>, T)>, k: Seq<char>, v: T, x: Seq<char>)
    requires
        x != k,
    ensures
        lookup(insert_entry(s, k, v), x) == lookup(s, x),
{
    let r = lemma_index_of_key(s, k);
    let t = insert_entry(s, k, v);
    let rs = lemma_index_of_key(s, x);
    let rt = lemma_index_of_key(t, x);
    match r {
        Some(i) => {
            assert forall|j: int| 0 <= j < t.len() implies (t[j].0 == x) == (s[j].0 == x) by {
                if j == i {
                    assert(t[j].0 == k);
                } else {
                    assert(t[j] == s[j]);
                }
            }
            match rs {
                Some(a) => {
                    assert(t[a].0 == x);
                    let b = rt->0;
                    assert(s[b].0 == x);
                    assert(b == a);
                    assert(a != i);
                    assert(t[a] == s[a]);
                },
                None => {
                    assert(rt is None);
                },
            }
        },
        None => {
            lemma_insert_pos(s, k);
            let p = insert_pos(s, k);
            assert(t.len() == s.len() + 1);
            assert(forall|j: int| 0 <= j < p ==> t[j] == #[trigger] s[j]);
            assert(forall|j: int| p <= j < s.len() ==> t[j + 1] == #[trigger] s[j]);
            assert(t[p].0 == k);
            match rs {
                Some(a) => {
                    let a2 = if a < p { a } else { a + 1 };
                    assert(s[a] == s[a]);
                    assert(t[a2] == s[a]);
                    assert(rt is Some);
                    let b = rt->0;
                    assert(b <= a2);
                    assert(b != p);
                    let b0 = if b < p { b } else { b - 1 };
                    assert(s[b0] == s[b0]);
                    assert(s[b0].0 == x);
                    assert(b0 >= a);
                    assert(b == a2);
                },
                None => {
                    if rt is Some {
                        let b = rt->0;
                        assert(b != p);
                        let b0 = if b < p { b } else { b - 1 };
                        assert(s[b0] == s[b0]);
                        assert(false);
                    }
                },
            }
        },
    }
}

/// Copying a value yields a value with the same deep view.
pub trait Dup: DeepView + Sized {
    fn dup(&self) -> (r: Self)
        ensures
            r.deep_view() == self.deep_view(),
    ;
}

impl Dup for String {
    fn dup(&self) -> (r: String) {
        self.clone()
    }
}

impl Dup for u8 {
    fn dup(&self) -> (r: u8) {
        *self
    }
}

impl Dup for u16 {
    fn dup(&self) -> (r: u16) {
        *self
    }
}

impl Dup for bool {
    fn dup(&self) -> (r: bool) {
        *self
    }
}

impl<T: Dup> Dup for Option<T> {
    fn dup(&self) -> (r: Option<T>) {
        match self {
            Some(x) => Some(x.dup()),
            None => None,
        }
    }
}

impl Dup for u64 {
    fn dup(&self) -> (r: u64) {
        *self
    }
}

/// Copies every element of `v`.
pub fn dup_vec<T: Dup>(v: &Vec<T>) -> (r: Vec<T>)
    ensures
        r.deep_view() == v.deep_view(),
{
    let mut r: Vec<T> = Vec::new();
    let mut i: usize = 0;
    while i < v.len()
        invariant
            i <= v.len(),
            r@.len() == i,
            forall|j: int| 0 <= j < i ==> r@[j].deep_view() == v@[j].deep_view(),
        decreases v.len() - i,
    {
        let x = v[i].dup();
        r.push(x);
        i += 1;
    }
    assert(r.deep_view() =~= v.deep_view());
    r
}

impl<T: Dup> Dup for Vec<T> {
    fn dup(&self) -> (r: Vec<T>) {
        dup_vec(self)
    }
}

/// An ordered map from strings to values.
#[derive(Debug)]
pub struct StrMap<T> {
    entries: Vec<(String, T)>,
}

impl<T: DeepView> View for StrMap<T> {
    type V = Seq<(Seq<char>, T::V)>;

    closed spec fn view(&self) -> Seq<(Seq<char>, T::V)> {
        self.entries@.map_values(|e: (String, T)| (e.0@, e.1.deep_view()))
    }
}

impl<T: DeepView> DeepView for StrMap<T> {
    type V = Seq<(Seq<char>, T::V)>;

    open spec fn deep_view(&self) -> Seq<(Seq<char>, T::V)> {
        self@
    }
}

impl<T: DeepView> StrMap<T> {
    /// An empty map.
    pub fn new() -> (m: Self)
        ensures
            m@ == Seq::<(Seq<char>, T::V)>::empty(),
    {
        let m = StrMap { entries: Vec::new() };
        assert(m@ =~= Seq::<(Seq<char>, T::V)>::empty());
        m
    }

    /// Number of entries.
    pub fn len(&self) -> (n: usize)
        ensures
            n == self@.len(),
    {
        self.entries.len()
    }

    /// The key of the `i`-th entry in key order.
    pub fn key_at(&self, i: usize) -> (k: &String)
        requires
            i < self@.len(),
        ensures
            k@ == self@[i as int].0,
    {
        &self.entries[i].0
    }

    /// The value of the `i`-th entry in key order.
    pub fn value_at(&self, i: usize) -> (v: &T)
        requires
            i < self@.len(),
        ensures
            v.deep_view() == self@[i as int].1,
    {
        &self.entries[i].1
    }

    /// Index of the entry stored under `key`.
    pub fn find_index(&self, key: &Vec<char>) -> (r: Option<usize>)
        ensures
            r matches Some(i) ==> index_of_key(self@, key@) == Some(i as int) && i < self@.len(),
            r is None ==> index_of_key(self@, key@) is None,
    {
        let ghost r0 = lemma_index_of_key(self@, key@);
        let mut i: usize = 0;
        while i < self.entries.len()
            invariant
                i <= self.entries.len(),
                self@.len() == self.entries.len(),
                r0 == index_of_key(self@, key@),
                forall|j: int| 0 <= j < i ==> self@[j].0 != key@,
            decreases self.entries.len() - i,
        {
            let k = chars_of(self.entries[i].0.as_str());
            if vec_eq(&k, key) {
                assert(self@[i as int].0 == key@);
                proof {
                    let r1 = lemma_index_of_key(self@, key@);
                }
                return Some(i);
            }
            i += 1;
        }
        None
    }

    /// The value stored under `key` (`BTreeMap::get`).
    pub fn get(&self, key: &str) -> (r: Option<&T>)
        ensures
            r matches Some(v) ==> lookup(self@, key@) == Some(v.deep_view()),
            r is None ==> lookup(self@, key@) is None,
    {
        let k = chars_of(key);
        match self.find_index(&k) {
            Some(i) => Some(&self.entries[i].1),
            None => None,
        }
    }

    /// Whether some entry is stored under `key`.
    pub fn contains_key(&self, key: &str) -> (b: bool)
        ensures
            b == (lookup(self@, key@) is Some),
    {
        let k = chars_of(key);
        self.find_index(&k).is_some()
    }

    /// Stores `value` under `key` (`BTreeMap::insert`).
    pub fn insert(&mut self, key: String, value: T)
        ensures
            final(self)@ == insert_entry(old(self)@, key@, value.deep_view()),
            well_ordered(old(self)@) ==> well_ordered(final(self)@),
    {
        let k = chars_of(key.as_str());
        let ghost s = self@;
        proof {
            lemma_insert_pos(s, key@);
        }
        match self.find_index(&k) {
            Some(i) => {
                self.entries.set(i, (key, value));
                proof {
                    assert(self@ =~= s.update(i as int, (key@, value.deep_view())));
                    let r = lemma_index_of_key(s, key@);
                }
            },
            None => {
                let mut p: usize = 0;
                while p < self.entries.len() && !key_less(&k, &self.entries[p].0)
                    invariant
                        p <= self.entries.len(),
                        self@ == s,
                        s.len() == self.entries.len(),
                        k@ == key@,
                        forall|j: int| 0 <= j < p ==> !key_lt(key@, #[trigger] s[j].0),
                        forall|j: int| 0 <= j < self.entries@.len() ==> (#[trigger] self.entries@[j]).0@ == s[j].0,
                    decreases self.entries.len() - p,
                {
                    p += 1;
                }
                proof {
                    lemma_insert_pos_unique(s, key@, p as int);
                }
                self.entries.insert(p, (key, value));
                proof {
                    assert(self@ =~= s.insert(p as int, (key@, value.deep_view())));
                    let r = lemma_index_of_key(s, key@);
                    if well_ordered(s) {
                        assert forall|a: int, b: int| 0 <= a < b < self@.len() implies key_lt(
                            #[trigger] self@[a].0,
                            #[trigger] self@[b].0,
                        ) by {
                            if a < p && b == p {
                                lemma_key_lt_total(s[a].0, key@);
                            } else if a == p && b > p {
                                if b > p + 1 {
                                    lemma_key_lt_transitive(key@, s[p as int].0, s[b - 1].0);
                                }
                            } else if a < p && b > p {
                                lemma_key_lt_total(s[a].0, key@);
                            }
                        }
                    }
                }
            },
        }
    }
}

proof fn lemma_insert_pos_unique<T>(s: Seq<(Seq<char>, T)>, k: Seq<char>, p: int)
    requires
        0 <= p <= s.len(),
        forall|j: int| 0 <= j < p ==> !key_lt(k, #[trigger] s[j].0),
        p < s.len() ==> key_lt(k, s[p].0),
    ensures
        insert_pos(s, k) == p,
    decreases s.len(),
{
    if s.len() > 0 {
        if p < s.len() {
            lemma_insert_pos_unique(s.drop_last(), k, if p == s.len() - 1 { p } else { p });
        } else {
            lemma_insert_pos_unique(s.drop_last(), k, s.len() - 1);
        }
    }
}

/// Whether two character vectors are equal.
pub fn vec_eq(a: &Vec<char>, b: &Vec<char>) -> (r: bool)
    ensures
        r == (a@ == b@),
{
    if a.len() != b.len() {
        return false;
    }
    let mut i: usize = 0;
    while i < a.len()
        invariant
            i <= a.len() == b.len(),
            forall|j: int| 0 <= j < i ==> a@[j] == b@[j],
        decreases a.len() - i,
    {
        if a[i] != b[i] {
            return false;
        }
        i += 1;
    }
    assert(a@ =~= b@);
    true
}

/// Whether `a` sorts strictly before `b`.
pub fn key_less(a: &Vec<char>, b: &String) -> (r: bool)
    ensures
        r == key_lt(a@, b@),
{
    let bv = chars_of(b.as_str());
    let mut i: usize = 0;
    assert(a@.skip(0) =~= a@);
    assert(bv@.skip(0) =~= bv@);
    while i < a.len() && i < bv.len() && a[i] == bv[i]
        invariant
            i <= a.len(),
            i <= bv.len(),
            bv@ == b@,
            forall|j: int| 0 <= j < i ==> a@[j] == bv@[j],
            key_lt(a@, bv@) == key_lt(a@.skip(i as int), bv@.skip(i as int)),
        decreases a.len() - i,
    {
        proof {
            assert(a@.skip(i as int).drop_first() =~= a@.skip(i + 1));
            assert(bv@.skip(i as int).drop_first() =~= bv@.skip(i + 1));
        }
        i += 1;
    }
    if i == a.len() {
        i < bv.len()
    } else if i == bv.len() {
        false
    } else {
        char_before_exec(a[i], bv[i])
    }
}

impl<T: Dup> Dup for StrMap<T> {
    fn dup(&self) -> (r: StrMap<T>) {
        let mut entries: Vec<(String, T)> = Vec::new();
        let mut i: usize = 0;
        while i < self.entries.len()
            invariant
                i <= self.entries.len(),
                entries@.len() == i,
                forall|j: int| 0 <= j < i ==> (#[trigger] entries@[j]).0@ == self.entries@[j].0@
                    && entries@[j].1.deep_view() == self.entries@[j].1.deep_view(),
            decreases self.entries.len() - i,
        {
            let k = self.entries[i].0.clone();
            let v = self.entries[i].1.dup();
            entries.push((k, v));
            i += 1;
        }
        let r = StrMap { entries };
        assert(r@ =~= self@);
        r
    }
}

} // verus!
