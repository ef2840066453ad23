//! A string-keyed map that remembers the order in which its keys were first
//! inserted, with its abstract model `OrdMap`.
use vstd::prelude::*;

verus! {

/// The abstract model of a string-keyed map: the keys in the order in which
/// they were first inserted, and the map itself.
#[verifier::ext_equal]
pub struct OrdMap<V> {
    pub keys: Seq<Seq<char>>,
    pub map: Map<Seq<char>, V>,
}

impl<V> OrdMap<V> {
    pub open spec fn empty() -> Self {
        OrdMap { keys: Seq::empty(), map: Map::empty() }
    }

    /// The key sequence lists each key of the map exactly once.
    pub open spec fn wf(self) -> bool {
        &&& self.keys.no_duplicates()
        &&& forall|k: Seq<char>| #[trigger] self.map.contains_key(k) <==> self.keys.contains(k)
    }

    pub open spec fn contains_key(self, k: Seq<char>) -> bool {
        self.map.contains_key(k)
    }

    /// Sets the value of `k`; a new key goes to the end of the order.
    pub open spec fn insert(self, k: Seq<char>, v: V) -> Self {
        OrdMap {
            keys: if self.map.contains_key(k) {
                self.keys
            } else {
                self.keys.push(k)
            },
            map: self.map.insert(k, v),
        }
    }

    /// Drops `k`; the other keys keep their order.
    pub open spec fn remove(self, k: Seq<char>) -> Self {
        OrdMap {
            keys: if self.map.contains_key(k) {
                self.keys.remove(self.keys.index_of(k))
            } else {
                self.keys
            },
            map: self.map.remove(k),
        }
    }

    pub proof fn lemma_empty_wf()
        ensures
            Self::empty().wf(),
    {
    }

    pub proof fn lemma_insert_wf(self, k: Seq<char>, v: V)
        requires
            self.wf(),
        ensures
            self.insert(k, v).wf(),
    {
        let r = self.insert(k, v);
        if !self.map.contains_key(k) {
            assert forall|k2: Seq<char>| #[trigger] r.map.contains_key(k2) <==> r.keys.contains(k2) by {
                if k2 == k {
                    assert(r.keys[self.keys.len() as int] == k);
                } else if self.keys.contains(k2) {
                    let j = choose|j: int| 0 <= j < self.keys.len() && self.keys[j] == k2;
                    assert(r.keys[j] == k2);
                }
            }
        }
    }

    /// Removing a key that was just added restores the map.
    pub proof fn lemma_insert_then_remove(self, k: Seq<char>, v: V)
        requires
            self.wf(),
            !self.contains_key(k),
        ensures
            self.insert(k, v).remove(k) == self,
    {
        let r = self.insert(k, v);
        let n = self.keys.len() as int;
        assert(r.keys[n] == k);
        assert(r.keys.contains(k));
        let i = r.keys.index_of(k);
        assert(0 <= i < r.keys.len() && r.keys[i] == k);
        if i != n {
            assert(self.keys[i] == k);
            assert(self.keys.contains(k));
        }
        assert(r.keys.remove(n) =~= self.keys);
        assert(r.remove(k).map =~= self.map);
        assert(r.remove(k) =~= self);
    }

    /// Binding a key to the value it already has changes nothing.
    pub proof fn lemma_insert_same(self, k: Seq<char>)
        requires
            self.contains_key(k),
        ensures
            self.insert(k, self.map[k]) == self,
    {
        assert(self.insert(k, self.map[k]).map =~= self.map);
        assert(self.insert(k, self.map[k]) =~= self);
    }

    /// A second binding of a key overrides the first.
    pub proof fn lemma_insert_twice(self, k: Seq<char>, a: V, b: V)
        ensures
            self.insert(k, a).insert(k, b) == self.insert(k, b),
    {
        assert(self.insert(k, a).insert(k, b).map =~= self.insert(k, b).map);
        assert(self.insert(k, a).insert(k, b) =~= self.insert(k, b));
    }

    pub proof fn lemma_remove_wf(self, k: Seq<char>)
        requires
            self.wf(),
        ensures
            self.remove(k).wf(),
    {
        let r = self.remove(k);
        if self.map.contains_key(k) {
            let i = self.keys.index_of(k);
            assert(self.keys.contains(k));
            assert(0 <= i < self.keys.len() && self.keys[i] == k);
            assert forall|a: int, b: int|
                0 <= a < r.keys.len() && 0 <= b < r.keys.len() && a != b implies r.keys[a]
                != r.keys[b] by {
                let oa = if a < i { a } else { a + 1 };
                let ob = if b < i { b } else { b + 1 };
                assert(r.keys[a] == self.keys[oa]);
                assert(r.keys[b] == self.keys[ob]);
            }
            assert forall|k2: Seq<char>| #[trigger] r.map.contains_key(k2) <==> r.keys.contains(k2) by {
                if r.keys.contains(k2) {
                    let j = choose|j: int| 0 <= j < r.keys.len() && r.keys[j] == k2;
                    let oj = if j < i { j } else { j + 1 };
                    assert(self.keys[oj] == k2);
                    assert(oj != i);
                }
                if r.map.contains_key(k2) {
                    assert(self.keys.contains(k2));
                    let j = choose|j: int| 0 <= j < self.keys.len() && self.keys[j] == k2;
                    assert(j != i);
                    let nj = if j < i { j } else { j - 1 };
                    assert(r.keys[nj] == k2);
                }
            }
        }
    }
}

/// A map from strings to values, kept as two vectors of the same length:
/// `keys[i]` is bound to `vals[i]`, and no key occurs twice.
pub struct StrMap<V> {
    pub keys: Vec<String>,
    pub vals: Vec<V>,
}

impl<V: DeepView> StrMap<V> {
    pub open spec fn key_views(&self) -> Seq<Seq<char>> {
        self.keys@.map_values(|s: String| s@)
    }

    pub open spec fn wf(&self) -> bool {
        &&& self.keys@.len() == self.vals@.len()
        &&& self.key_views().no_duplicates()
    }

    pub open spec fn model(&self) -> OrdMap<V::V> {
        OrdMap {
            keys: self.key_views(),
            map: Map::new(
                |k: Seq<char>| self.key_views().contains(k),
                |k: Seq<char>| self.vals@[self.key_views().index_of(k)].deep_view(),
            ),
        }
    }

    /// The model lists the keys of the vectors, and binds each to its value.
    pub proof fn lemma_model(&self)
        requires
            self.wf(),
        ensures
            self.model().wf(),
            self.model().keys.len() == self.keys@.len(),
            forall|i: int|
                0 <= i < self.keys@.len() ==> #[trigger] self.key_views()[i] == self.keys@[i]@,
            forall|i: int|
                0 <= i < self.keys@.len() ==> self.key_views().index_of(#[trigger] self.key_views()[i])
                    == i,
            forall|i: int|
                0 <= i < self.keys@.len() ==> self.model().map[#[trigger] self.key_views()[i]]
                    == self.vals@[i].deep_view(),
    {
        let kv = self.key_views();
        assert forall|i: int| 0 <= i < self.keys@.len() implies kv.index_of(#[trigger] kv[i]) == i by {
            assert(kv.contains(kv[i]));
        }
    }

    pub fn new() -> (r: Self)
        ensures
            r.wf(),
            r.model() == OrdMap::<V::V>::empty(),
    {
        let r = StrMap { keys: Vec::new(), vals: Vec::new() };
        assert(r.model().map =~= Map::empty());
        assert(r.key_views() =~= Seq::empty());
        r
    }

    pub fn len(&self) -> (n: usize)
        requires
            self.wf(),
        ensures
            n == self.model().keys.len(),
    {
        self.keys.len()
    }

    /// Whether the vectors have the same length and no key occurs twice.
    pub fn check_wf(&self) -> (b: bool)
        ensures
            b == self.wf(),
    {
        if self.keys.len() != self.vals.len() {
            return false;
        }
        let ghost kv = self.key_views();
        let n = self.keys.len();
        let mut i: usize = 0;
        while i < n
            invariant
                n == self.keys@.len(),
                kv == self.key_views(),
                self.keys@.len() == self.vals@.len(),
                i <= n,
                forall|a: int, b: int| 0 <= a < i && 0 <= b < i && a != b ==> kv[a] != kv[b],
            decreases n - i,
        {
            let mut j: usize = 0;
            while j < i
                invariant
                    n == self.keys@.len(),
                    kv == self.key_views(),
                    i < n,
                    j <= i,
                    forall|b: int| 0 <= b < j ==> kv[b] != kv[i as int],
                decreases i - j,
            {
                if self.keys[j] == self.keys[i] {
                    proof {
                        assert(kv[j as int] == kv[i as int]);
                    }
                    return false;
                }
                j = j + 1;
            }
            i = i + 1;
        }
        true
    }

    /// The position of `k`, if it is a key.
    pub fn find(&self, k: &String) -> (r: Option<usize>)
        requires
            self.wf(),
        ensures
            match r {
                Some(i) => i < self.keys@.len() && self.keys@[i as int]@ == k@
                    && self.model().keys[i as int] == k@,
                None => !self.model().contains_key(k@),
            },
    {
        proof {
            self.lemma_model();
        }
        let n = self.keys.len();
        let mut i: usize = 0;
        while i < n
            invariant
                self.wf(),
                n == self.keys@.len(),
                i <= n,
                forall|j: int| 0 <= j < i ==> self.keys@[j]@ != k@,
            decreases n - i,
        {
            if self.keys[i] == *k {
                return Some(i);
            }
            i = i + 1;
        }
        proof {
            let kv = self.key_views();
            if kv.contains(k@) {
                let j = choose|j: int| 0 <= j < kv.len() && kv[j] == k@;
                assert(self.keys@[j]@ == k@);
            }
        }
        None
    }

    pub fn contains_key(&self, k: &String) -> (b: bool)
        requires
            self.wf(),
        ensures
            b == self.model().contains_key(k@),
    {
        self.find(k).is_some()
    }

    /// The value bound to `k`, if any.
    pub fn get(&self, k: &String) -> (r: Option<&V>)
        requires
            self.wf(),
        ensures
            match r {
                Some(v) => self.model().contains_key(k@) && v.deep_view() == self.model().map[k@]
                    && self.vals@.contains(*v),
                None => !self.model().contains_key(k@),
            },
    {
        proof {
            self.lemma_model();
        }
        match self.find(k) {
            Some(i) => Some(&self.vals[i]),
            None => None,
        }
    }

    /// Binds `k` to `v`.
    pub fn insert(&mut self, k: String, v: V)
        requires
            old(self).wf(),
        ensures
            final(self).wf(),
            final(self).model() == old(self).model().insert(k@, v.deep_view()),
            forall|j: int|
                0 <= j < final(self).vals@.len() ==> final(self).vals@[j] == v
                    || old(self).vals@.contains(#[trigger] final(self).vals@[j]),
    {
        proof {
            self.lemma_model();
        }
        let ghost old_map = *self;
        let ghost kd = k@;
        let ghost vd = v.deep_view();
        match self.find(&k) {
            Some(i) => {
                self.vals[i] = v;
                proof {
                    assert forall|j: int| 0 <= j < self.vals@.len() implies self.vals@[j] == v
                        || old_map.vals@.contains(#[trigger] self.vals@[j]) by {
                        if j != i as int {
                            assert(self.vals@[j] == old_map.vals@[j]);
                        }
                    }
                    assert(self.key_views() =~= old_map.key_views());
                    self.lemma_model();
                    let m1 = self.model().map;
                    let m2 = old_map.model().map.insert(kd, vd);
                    assert forall|k2: Seq<char>| #[trigger] m1.contains_key(k2) implies m1[k2]
                        == m2[k2] by {
                        let j = self.key_views().index_of(k2);
                        assert(self.key_views().contains(k2));
                        assert(0 <= j < self.keys@.len() && self.key_views()[j] == k2);
                        if j != i as int {
                            assert(self.vals@[j] == old_map.vals@[j]);
                        }
                    }
                    assert(m1 =~= m2);
                    assert(old_map.model().contains_key(kd));
                }
            },
            None => {
                self.keys.push(k);
                self.vals.push(v);
                proof {
                    assert forall|j: int| 0 <= j < self.vals@.len() implies self.vals@[j] == v
                        || old_map.vals@.contains(#[trigger] self.vals@[j]) by {
                        if j < old_map.vals@.len() {
                            assert(self.vals@[j] == old_map.vals@[j]);
                        }
                    }
                    assert(self.key_views() =~= old_map.key_views().push(kd));
                    assert(self.key_views().no_duplicates()) by {
                        assert forall|a: int, b: int|
                            0 <= a < self.key_views().len() && 0 <= b < self.key_views().len()
                                && a != b implies self.key_views()[a]
                            != self.key_views()[b] by {
                            if a == old_map.keys@.len() {
                                assert(old_map.key_views().contains(self.key_views()[b]));
                            } else if b == old_map.keys@.len() {
                                assert(old_map.key_views().contains(self.key_views()[a]));
                            }
                        }
                    }
                    self.lemma_model();
                    let m1 = self.model().map;
                    let m2 = old_map.model().map.insert(kd, vd);
                    assert forall|k2: Seq<char>| #[trigger] m1.contains_key(k2) <==> m2.contains_key(
                        k2,
                    ) by {
                        if old_map.key_views().contains(k2) {
                            let j = choose|j: int|
                                0 <= j < old_map.key_views().len() && old_map.key_views()[j] == k2;
                            assert(self.key_views()[j] == k2);
                        }
                        if k2 == kd {
                            assert(self.key_views()[old_map.keys@.len() as int] == kd);
                        }
                        if self.key_views().contains(k2) && k2 != kd {
                            let j = choose|j: int|
                                0 <= j < self.key_views().len() && self.key_views()[j] == k2;
                            assert(j < old_map.keys@.len());
                            assert(old_map.key_views()[j] == k2);
                        }
                    }
                    assert forall|k2: Seq<char>| #[trigger] m1.contains_key(k2) implies m1[k2]
                        == m2[k2] by {
                        let j = self.key_views().index_of(k2);
                        assert(self.key_views().contains(k2));
                        assert(0 <= j < self.keys@.len() && self.key_views()[j] == k2);
                        if j < old_map.keys@.len() {
                            assert(old_map.key_views()[j] == k2);
                            assert(self.vals@[j] == old_map.vals@[j]);
                        }
                    }
                    assert(m1 =~= m2);
                }
            },
        }
    }

    /// Replacing the value at position `i` rebinds the key at `i`.
    pub proof fn lemma_update_at(old_map: &Self, new_map: &Self, i: int, v: V)
        requires
            old_map.wf(),
            0 <= i < old_map.keys@.len(),
            new_map.keys@ == old_map.keys@,
            new_map.vals@ == old_map.vals@.update(i, v),
        ensures
            new_map.wf(),
            new_map.model() == old_map.model().insert(old_map.keys@[i]@, v.deep_view()),
    {
        old_map.lemma_model();
        assert(new_map.key_views() =~= old_map.key_views());
        new_map.lemma_model();
        let kd = old_map.keys@[i]@;
        let m1 = new_map.model().map;
        let m2 = old_map.model().map.insert(kd, v.deep_view());
        assert(old_map.key_views()[i] == kd);
        assert forall|k2: Seq<char>| #[trigger] m1.contains_key(k2) implies m1[k2] == m2[k2] by {
            let j = new_map.key_views().index_of(k2);
            assert(new_map.key_views().contains(k2));
            assert(0 <= j < new_map.keys@.len() && new_map.key_views()[j] == k2);
            if j != i {
                assert(new_map.vals@[j] == old_map.vals@[j]);
            }
        }
        assert(m1 =~= m2);
        assert(old_map.model().contains_key(kd));
    }

    /// Unbinds `k`; the other keys keep their order.
    pub fn remove(&mut self, k: &String)
        requires
            old(self).wf(),
        ensures
            final(self).wf(),
            final(self).model() == old(self).model().remove(k@),
            forall|j: int|
                0 <= j < final(self).vals@.len() ==> old(self).vals@.contains(
                    #[trigger] final(self).vals@[j],
                ),
    {
        proof {
            self.lemma_model();
        }
        let ghost old_map = *self;
        let ghost kd = k@;
        match self.find(k) {
            Some(i) => {
                self.keys.remove(i);
                self.vals.remove(i);
                proof {
                    assert forall|j: int| 0 <= j < self.vals@.len() implies old_map.vals@.contains(
                        #[trigger] self.vals@[j],
                    ) by {
                        let oj = if j < i { j } else { j + 1 };
                        assert(self.vals@[j] == old_map.vals@[oj]);
                    }
                    let okv = old_map.key_views();
                    assert(self.key_views() =~= okv.remove(i as int));
                    assert(okv.contains(kd));
                    assert(okv.index_of(kd) == i as int);
                    old_map.model().lemma_remove_wf(kd);
                    self.lemma_model();
                    let m1 = self.model().map;
                    let m2 = old_map.model().map.remove(kd);
                    assert forall|k2: Seq<char>| #[trigger] m1.contains_key(k2) <==> m2.contains_key(
                        k2,
                    ) by {
                        if self.key_views().contains(k2) {
                            let j = choose|j: int|
                                0 <= j < self.key_views().len() && self.key_views()[j] == k2;
                            let oj = if j < i { j } else { j + 1 };
                            assert(okv[oj] == k2);
                            assert(oj != i);
                        }
                        if m2.contains_key(k2) {
                            let j = choose|j: int| 0 <= j < okv.len() && okv[j] == k2;
                            assert(j != i);
                            let nj = if j < i { j } else { j - 1 };
                            assert(self.key_views()[nj] == k2);
                        }
                    }
                    assert forall|k2: Seq<char>| #[trigger] m1.contains_key(k2) implies m1[k2]
                        == m2[k2] by {
                        let j = self.key_views().index_of(k2);
                        assert(self.key_views().contains(k2));
                        assert(0 <= j < self.keys@.len() && self.key_views()[j] == k2);
                        let oj = if j < i { j } else { j + 1 };
                        assert(okv[oj] == k2);
                        assert(self.vals@[j] == old_map.vals@[oj]);
                    }
                    assert(m1 =~= m2);
                }
            },
            None => {
                proof {
                    assert(old_map.model().map.remove(kd) =~= old_map.model().map);
                }
            },
        }
    }
}

impl<V: DeepView> DeepView for StrMap<V> {
    type V = OrdMap<V::V>;

    open spec fn deep_view(&self) -> OrdMap<V::V> {
        self.model()
    }
}

} // verus!
