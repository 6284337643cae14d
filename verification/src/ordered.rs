//! Maps and sets kept as vectors sorted by key.
//!
//! A map is a function of its contents alone: two maps with the same contents hold the same entries
//! in the same order.
use vstd::prelude::*;

verus! {

/// Lexicographic order on sequences of integers.
pub open spec fn lex_lt(a: Seq<int>, b: Seq<int>) -> bool
    decreases a.len(),
{
    if b.len() == 0 {
        false
    } else if a.len() == 0 {
        true
    } else if a[0] != b[0] {
        a[0] < b[0]
    } else {
        lex_lt(a.drop_first(), b.drop_first())
    }
}

/// No sequence stands before itself.
pub proof fn lex_irreflexive(a: Seq<int>)
    ensures
        !lex_lt(a, a),
    decreases a.len(),
{
    if a.len() > 0 {
        lex_irreflexive(a.drop_first());
    }
}

/// The order is transitive.
pub proof fn lex_transitive(a: Seq<int>, b: Seq<int>, c: Seq<int>)
    requires
        lex_lt(a, b),
        lex_lt(b, c),
    ensures
        lex_lt(a, c),
    decreases a.len(),
{
    if a.len() > 0 && a[0] == b[0] && b[0] == c[0] {
        lex_transitive(a.drop_first(), b.drop_first(), c.drop_first());
    }
}

/// Of two different sequences one stands before the other.
pub proof fn lex_total(a: Seq<int>, b: Seq<int>)
    requires
        !lex_lt(a, b),
        !lex_lt(b, a),
    ensures
        a == b,
    decreases a.len(),
{
    if a.len() > 0 && b.len() > 0 {
        lex_total(a.drop_first(), b.drop_first());
        assert(a =~= seq![a[0]] + a.drop_first());
        assert(b =~= seq![b[0]] + b.drop_first());
    } else {
        assert(a =~= b);
    }
}

/// What decides the order of two sequences that agree up to a position.
pub proof fn lex_at(a: Seq<int>, b: Seq<int>, n: int)
    requires
        0 <= n <= a.len(),
        n <= b.len(),
        forall|i: int| 0 <= i < n ==> a[i] == b[i],
    ensures
        n == b.len() ==> !lex_lt(a, b),
        n == a.len() && n < b.len() ==> lex_lt(a, b),
        n < a.len() && n < b.len() && a[n] != b[n] ==> lex_lt(a, b) == (a[n] < b[n]),
    decreases n,
{
    if n > 0 {
        lex_at(a.drop_first(), b.drop_first(), n - 1);
    }
}

/// A value that can be copied and compared by its view.
pub trait Value: View + Sized {
    /// A copy with the same view.
    fn replica(&self) -> (r: Self)
        ensures
            r@ == self@,
    ;

    /// Whether two values have the same view.
    fn same(&self, other: &Self) -> (r: bool)
        ensures
            r == (self@ == other@),
    ;
}

/// A key of an ordered map: a value with a strict total order.
pub trait Key: Value {
    /// Whether the first key stands strictly before the second.
    spec fn before(a: Self::V, b: Self::V) -> bool;

    /// No key stands before itself.
    proof fn before_irreflexive(a: Self::V)
        ensures
            !Self::before(a, a),
    ;

    /// The order is transitive.
    proof fn before_transitive(a: Self::V, b: Self::V, c: Self::V)
        requires
            Self::before(a, b),
            Self::before(b, c),
        ensures
            Self::before(a, c),
    ;

    /// Of two different keys one stands before the other.
    proof fn before_total(a: Self::V, b: Self::V)
        requires
            !Self::before(a, b),
            !Self::before(b, a),
        ensures
            a == b,
    ;

    /// Whether this key stands strictly before the other one.
    fn precedes(&self, other: &Self) -> (r: bool)
        ensures
            r == Self::before(self@, other@),
    ;
}

impl Value for u32 {
    fn replica(&self) -> (r: Self) {
        *self
    }

    fn same(&self, other: &Self) -> (r: bool) {
        *self == *other
    }
}

impl Key for u32 {
    open spec fn before(a: u32, b: u32) -> bool {
        a < b
    }

    proof fn before_irreflexive(a: u32) {
    }

    proof fn before_transitive(a: u32, b: u32, c: u32) {
    }

    proof fn before_total(a: u32, b: u32) {
    }

    fn precedes(&self, other: &Self) -> (r: bool) {
        *self < *other
    }
}

impl Value for u64 {
    fn replica(&self) -> (r: Self) {
        *self
    }

    fn same(&self, other: &Self) -> (r: bool) {
        *self == *other
    }
}

impl Key for u64 {
    open spec fn before(a: u64, b: u64) -> bool {
        a < b
    }

    proof fn before_irreflexive(a: u64) {
    }

    proof fn before_transitive(a: u64, b: u64, c: u64) {
    }

    proof fn before_total(a: u64, b: u64) {
    }

    fn precedes(&self, other: &Self) -> (r: bool) {
        *self < *other
    }
}

impl Value for usize {
    fn replica(&self) -> (r: Self) {
        *self
    }

    fn same(&self, other: &Self) -> (r: bool) {
        *self == *other
    }
}

impl Key for usize {
    open spec fn before(a: usize, b: usize) -> bool {
        a < b
    }

    proof fn before_irreflexive(a: usize) {
    }

    proof fn before_transitive(a: usize, b: usize, c: usize) {
    }

    proof fn before_total(a: usize, b: usize) {
    }

    fn precedes(&self, other: &Self) -> (r: bool) {
        *self < *other
    }
}

impl Value for i64 {
    fn replica(&self) -> (r: Self) {
        *self
    }

    fn same(&self, other: &Self) -> (r: bool) {
        *self == *other
    }
}

impl Value for () {
    fn replica(&self) -> (r: Self) {
        ()
    }

    fn same(&self, other: &Self) -> (r: bool) {
        true
    }
}

/// The characters of a text as numbers.
pub open spec fn code_points(s: Seq<char>) -> Seq<int> {
    s.map_values(|c: char| c as int)
}

/// The characters of a text, one by one.
pub fn characters(s: &str) -> (r: Vec<char>)
    ensures
        r@ == s@,
{
    let mut r: Vec<char> = Vec::new();
    for c in it: s.chars()
        invariant
            r@ == it.seq().take(it.index()),
            it.seq() == s@,
    {
        r.push(c);
    }
    r
}

impl Value for String {
    fn replica(&self) -> (r: Self) {
        self.clone()
    }

    fn same(&self, other: &Self) -> (r: bool) {
        *self == *other
    }
}

/// Texts stand in the lexicographic order of their characters.
impl Key for String {
    open spec fn before(a: Seq<char>, b: Seq<char>) -> bool {
        lex_lt(code_points(a), code_points(b))
    }

    proof fn before_irreflexive(a: Seq<char>) {
        lex_irreflexive(code_points(a));
    }

    proof fn before_transitive(a: Seq<char>, b: Seq<char>, c: Seq<char>) {
        lex_transitive(code_points(a), code_points(b), code_points(c));
    }

    proof fn before_total(a: Seq<char>, b: Seq<char>) {
        lex_total(code_points(a), code_points(b));
        assert forall|i: int| 0 <= i < a.len() implies a[i] == b[i] by {
            assert(code_points(a)[i] == code_points(b)[i]);
        }
        assert(code_points(a).len() == code_points(b).len());
        assert(a =~= b);
    }

    fn precedes(&self, other: &Self) -> (r: bool) {
        let a = characters(self.as_str());
        let b = characters(other.as_str());
        let mut n: usize = 0;
        while n < a.len() && n < b.len() && a[n] == b[n]
            invariant
                n <= a.len(),
                n <= b.len(),
                forall|i: int| 0 <= i < n ==> a@[i] == b@[i],
            decreases a.len() - n,
        {
            n = n + 1;
        }
        proof {
            lex_at(code_points(a@), code_points(b@), n as int);
        }
        if n == b.len() {
            false
        } else if n == a.len() {
            true
        } else {
            a[n] < b[n]
        }
    }
}

impl<A: Value, B: Value> Value for (A, B) {
    fn replica(&self) -> (r: Self) {
        (self.0.replica(), self.1.replica())
    }

    fn same(&self, other: &Self) -> (r: bool) {
        self.0.same(&other.0) && self.1.same(&other.1)
    }
}

/// Pairs are ordered by their first part, then by their second.
impl<A: Key, B: Key> Key for (A, B) {
    open spec fn before(a: (A::V, B::V), b: (A::V, B::V)) -> bool {
        A::before(a.0, b.0) || (a.0 == b.0 && B::before(a.1, b.1))
    }

    proof fn before_irreflexive(a: (A::V, B::V)) {
        A::before_irreflexive(a.0);
        B::before_irreflexive(a.1);
    }

    proof fn before_transitive(a: (A::V, B::V), b: (A::V, B::V), c: (A::V, B::V)) {
        if A::before(a.0, b.0) && A::before(b.0, c.0) {
            A::before_transitive(a.0, b.0, c.0);
        }
        if B::before(a.1, b.1) && B::before(b.1, c.1) {
            B::before_transitive(a.1, b.1, c.1);
        }
    }

    proof fn before_total(a: (A::V, B::V), b: (A::V, B::V)) {
        A::before_total(a.0, b.0);
        B::before_total(a.1, b.1);
    }

    fn precedes(&self, other: &Self) -> (r: bool) {
        self.0.precedes(&other.0) || (self.0.same(&other.0) && self.1.precedes(&other.1))
    }
}

/// The keys stand in strictly ascending order.
pub open spec fn ascending<K: Key, W>(s: Seq<(K::V, W)>) -> bool {
    forall|i: int, j: int|
        0 <= i < j < s.len() ==> K::before(#[trigger] s[i].0, #[trigger] s[j].0)
}

/// The map that a list of pairs without repeated keys stands for.
pub open spec fn map_of<A, W>(s: Seq<(A, W)>) -> Map<A, W> {
    Map::new(
        |k: A| exists|i: int| 0 <= i < s.len() && #[trigger] s[i].0 == k,
        |k: A| s[choose|i: int| 0 <= i < s.len() && #[trigger] s[i].0 == k].1,
    )
}

/// In an ascending list no key occurs twice.
pub proof fn ascending_distinct<K: Key, W>(s: Seq<(K::V, W)>, i: int, j: int)
    requires
        ascending::<K, W>(s),
        0 <= i < s.len(),
        0 <= j < s.len(),
        s[i].0 == s[j].0,
    ensures
        i == j,
{
    K::before_irreflexive(s[i].0);
}

/// Each pair of an ascending list is in its map.
pub proof fn map_of_at<K: Key, W>(s: Seq<(K::V, W)>, i: int)
    requires
        ascending::<K, W>(s),
        0 <= i < s.len(),
    ensures
        map_of(s).contains_key(s[i].0),
        map_of(s)[s[i].0] == s[i].1,
{
    let k = s[i].0;
    let j = choose|j: int| 0 <= j < s.len() && #[trigger] s[j].0 == k;
    ascending_distinct::<K, W>(s, i, j);
}

/// Each key of the map of an ascending list stands somewhere in the list.
pub proof fn map_of_index<K: Key, W>(s: Seq<(K::V, W)>, k: K::V) -> (i: int)
    requires
        ascending::<K, W>(s),
        map_of(s).contains_key(k),
    ensures
        0 <= i < s.len(),
        s[i].0 == k,
        s[i].1 == map_of(s)[k],
{
    let i = choose|i: int| 0 <= i < s.len() && #[trigger] s[i].0 == k;
    i
}

/// The views of a list of entries.
pub open spec fn pairs_of<K: Key, V: View>(s: Seq<(K, V)>) -> Seq<(K::V, V::V)> {
    s.map_values(|e: (K, V)| (e.0@, e.1@))
}

/// A map whose entries are kept sorted by key.
#[derive(Debug, PartialEq)]
pub struct OrderedMap<K: Key, V: View> {
    entries: Vec<(K, V)>,
}

impl<K: Key, V: View> View for OrderedMap<K, V> {
    type V = Map<K::V, V::V>;

    open spec fn view(&self) -> Map<K::V, V::V> {
        map_of(self.pairs())
    }
}

impl<K: Key, V: View> OrderedMap<K, V> {
    /// The entries in ascending order of their keys.
    pub closed spec fn pairs(&self) -> Seq<(K::V, V::V)> {
        pairs_of(self.entries@)
    }

    #[verifier::type_invariant]
    spec fn sorted(self) -> bool {
        ascending::<K, V::V>(self.pairs())
    }

    /// An empty map.
    pub fn new() -> (r: Self)
        ensures
            r@ == Map::<K::V, V::V>::empty(),
            r.pairs() == Seq::<(K::V, V::V)>::empty(),
    {
        let r = OrderedMap { entries: Vec::new() };
        assert(r.pairs() =~= Seq::<(K::V, V::V)>::empty());
        assert(r@ =~= Map::<K::V, V::V>::empty());
        r
    }

    /// Number of entries.
    pub fn len(&self) -> (n: usize)
        ensures
            n == self.pairs().len(),
            ascending::<K, V::V>(self.pairs()),
            forall|i: int|
                0 <= i < self.pairs().len() ==> self@.contains_key(
                    (#[trigger] self.pairs()[i]).0,
                ) && self@[self.pairs()[i].0] == self.pairs()[i].1,
            forall|k: K::V| #[trigger]
                self@.contains_key(k) ==> exists|i: int|
                    0 <= i < self.pairs().len() && (#[trigger] self.pairs()[i]).0 == k,
    {
        proof {
            use_type_invariant(self);
            assert forall|i: int| 0 <= i < self.pairs().len() implies self@.contains_key(
                (#[trigger] self.pairs()[i]).0,
            ) && self@[self.pairs()[i].0] == self.pairs()[i].1 by {
                map_of_at::<K, V::V>(self.pairs(), i);
            }
        }
        self.entries.len()
    }

    /// Whether there is no entry.
    pub fn is_empty(&self) -> (r: bool)
        ensures
            r == (self@ == Map::<K::V, V::V>::empty()),
            r == (self.pairs().len() == 0),
    {
        proof {
            use_type_invariant(self);
            if self.entries.len() == 0 {
                assert(self@ =~= Map::<K::V, V::V>::empty());
            } else {
                map_of_at::<K, V::V>(self.pairs(), 0);
                assert(self@.contains_key(self.pairs()[0].0));
            }
        }
        self.entries.len() == 0
    }

    /// The key of the entry at a position.
    pub fn key_at(&self, i: usize) -> (r: &K)
        requires
            i < self.pairs().len(),
        ensures
            r@ == self.pairs()[i as int].0,
    {
        &self.entries[i].0
    }

    /// The value of the entry at a position.
    pub fn value_at(&self, i: usize) -> (r: &V)
        requires
            i < self.pairs().len(),
        ensures
            r@ == self.pairs()[i as int].1,
    {
        &self.entries[i].1
    }

    /// The number of entries whose key stands before the given key.
    fn position(&self, key: &K) -> (p: usize)
        ensures
            p <= self.entries.len(),
            forall|i: int|
                0 <= i < p ==> K::before((#[trigger] self.entries@[i]).0@, key@),
            forall|i: int|
                p <= i < self.entries.len() ==> !K::before((#[trigger] self.entries@[i]).0@, key@),
    {
        proof {
            use_type_invariant(self);
        }
        let mut low: usize = 0;
        let mut high: usize = self.entries.len();
        while low < high
            invariant
                low <= high <= self.entries.len(),
                ascending::<K, V::V>(self.pairs()),
                forall|i: int|
                    0 <= i < low ==> K::before((#[trigger] self.entries@[i]).0@, key@),
                forall|i: int|
                    high <= i < self.entries.len() ==> !K::before((#[trigger] self.entries@[i]).0@, key@),
            decreases high - low,
        {
            let mid: usize = low + (high - low) / 2;
            let before = self.entries[mid].0.precedes(key);
            proof {
                assert(self.pairs()[mid as int].0 == self.entries@[mid as int].0@);
                assert forall|i: int| 0 <= i < self.entries.len() implies self.pairs()[i].0 == (
                #[trigger] self.entries@[i]).0@ by {}
                if before {
                    assert forall|i: int| 0 <= i <= mid implies K::before((#[trigger] self.entries@[i]).0@, key@) by {
                        if i < mid {
                            assert(K::before(self.pairs()[i].0, self.pairs()[mid as int].0));
                            K::before_transitive(self.entries@[i].0@, self.entries@[mid as int].0@, key@);
                        }
                    }
                } else {
                    assert forall|i: int| mid <= i < self.entries.len() implies !K::before((#[trigger] self.entries@[i]).0@, key@) by {
                        if i > mid {
                            assert(K::before(self.pairs()[mid as int].0, self.pairs()[i].0));
                            if K::before(self.entries@[i].0@, key@) {
                                K::before_transitive(self.entries@[mid as int].0@, self.entries@[i].0@, key@);
                            }
                        }
                    }
                }
            }
            if before {
                low = mid + 1;
            } else {
                high = mid;
            }
        }
        low
    }

    /// The position of a key, if it is there.
    fn find(&self, key: &K) -> (r: Option<usize>)
        ensures
            match r {
                Some(p) => p < self.entries.len() && self.entries@[p as int].0@ == key@,
                None => !self@.contains_key(key@),
            },
    {
        let p = self.position(key);
        if p < self.entries.len() && !key.precedes(&self.entries[p].0) {
            proof {
                K::before_total(self.entries@[p as int].0@, key@);
            }
            Some(p)
        } else {
            proof {
                use_type_invariant(self);
                if self@.contains_key(key@) {
                    let i = map_of_index::<K, V::V>(self.pairs(), key@);
                    K::before_irreflexive(key@);
                    assert(self.entries@[i].0@ == key@);
                    if i > p {
                        assert(K::before(self.pairs()[p as int].0, self.pairs()[i].0));
                        assert(self.pairs()[p as int].0 == self.entries@[p as int].0@);
                    }
                }
            }
            None
        }
    }

    /// The value of a key.
    pub fn get(&self, key: &K) -> (r: Option<&V>)
        ensures
            match r {
                Some(v) => self@.contains_key(key@) && v@ == self@[key@],
                None => !self@.contains_key(key@),
            },
    {
        match self.find(key) {
            Some(p) => {
                proof {
                    use_type_invariant(self);
                    map_of_at::<K, V::V>(self.pairs(), p as int);
                }
                Some(&self.entries[p].1)
            },
            None => None,
        }
    }

    /// Whether a key is there.
    pub fn contains_key(&self, key: &K) -> (r: bool)
        ensures
            r == self@.contains_key(key@),
    {
        match self.get(key) {
            Some(_) => true,
            None => false,
        }
    }
}

/// Putting a new key at its place in an ascending list.
proof fn ascending_insert<K: Key, W>(s: Seq<(K::V, W)>, p: int, k: K::V, w: W)
    requires
        ascending::<K, W>(s),
        0 <= p <= s.len(),
        forall|i: int| 0 <= i < p ==> K::before((#[trigger] s[i]).0, k),
        forall|i: int| p <= i < s.len() ==> K::before(k, (#[trigger] s[i]).0),
    ensures
        ascending::<K, W>(s.insert(p, (k, w))),
        map_of(s.insert(p, (k, w))) == map_of(s).insert(k, w),
        !map_of(s).contains_key(k),
{
    let t = s.insert(p, (k, w));
    assert forall|i: int, j: int| 0 <= i < j < t.len() implies K::before(#[trigger] t[i].0, #[trigger] t[j].0) by {
        let si = if i < p {
            i
        } else {
            i - 1
        };
        let sj = if j < p {
            j
        } else {
            j - 1
        };
        if i != p {
            assert(t[i] == s[si]);
        }
        if j != p {
            assert(t[j] == s[sj]);
        }
    }
    K::before_irreflexive(k);
    assert forall|q: K::V| #[trigger] map_of(t).contains_key(q) <==> map_of(s).insert(
        k,
        w,
    ).contains_key(q) by {
        if map_of(t).contains_key(q) {
            let i = map_of_index::<K, W>(t, q);
            if i != p {
                let si = if i < p {
                    i
                } else {
                    i - 1
                };
                assert(t[i] == s[si]);
                map_of_at::<K, W>(s, si);
            }
        }
        if map_of(s).contains_key(q) {
            let i = map_of_index::<K, W>(s, q);
            let ti = if i < p {
                i
            } else {
                i + 1
            };
            assert(t[ti] == s[i]);
            map_of_at::<K, W>(t, ti);
        }
        map_of_at::<K, W>(t, p);
    }
    assert forall|q: K::V| #[trigger] map_of(t).contains_key(q) implies map_of(t)[q] == map_of(
        s,
    ).insert(k, w)[q] by {
        let i = map_of_index::<K, W>(t, q);
        if i != p {
            let si = if i < p {
                i
            } else {
                i - 1
            };
            assert(t[i] == s[si]);
            map_of_at::<K, W>(s, si);
        }
    }
    assert(map_of(t) =~= map_of(s).insert(k, w));
    if map_of(s).contains_key(k) {
        let i = map_of_index::<K, W>(s, k);
    }
}

/// Giving a key of an ascending list another value.
proof fn ascending_update<K: Key, W>(s: Seq<(K::V, W)>, p: int, w: W)
    requires
        ascending::<K, W>(s),
        0 <= p < s.len(),
    ensures
        ascending::<K, W>(s.update(p, (s[p].0, w))),
        map_of(s.update(p, (s[p].0, w))) == map_of(s).insert(s[p].0, w),
        map_of(s).contains_key(s[p].0),
{
    let k = s[p].0;
    let t = s.update(p, (k, w));
    assert forall|i: int| 0 <= i < s.len() implies (#[trigger] t[i]).0 == s[i].0 by {}
    assert forall|i: int, j: int| 0 <= i < j < t.len() implies K::before(#[trigger] t[i].0, #[trigger] t[j].0) by {
        assert(K::before(s[i].0, s[j].0));
    }
    map_of_at::<K, W>(s, p);
    assert forall|q: K::V| #[trigger] map_of(t).contains_key(q) <==> map_of(s).insert(
        k,
        w,
    ).contains_key(q) by {
        if map_of(t).contains_key(q) {
            let i = map_of_index::<K, W>(t, q);
            map_of_at::<K, W>(s, i);
        }
        if map_of(s).contains_key(q) {
            let i = map_of_index::<K, W>(s, q);
            map_of_at::<K, W>(t, i);
        }
        map_of_at::<K, W>(t, p);
    }
    assert forall|q: K::V| #[trigger] map_of(t).contains_key(q) implies map_of(t)[q] == map_of(
        s,
    ).insert(k, w)[q] by {
        let i = map_of_index::<K, W>(t, q);
        map_of_at::<K, W>(s, i);
        if q == k {
            ascending_distinct::<K, W>(s, i, p);
        }
    }
    assert(map_of(t) =~= map_of(s).insert(k, w));
}

/// Taking a key out of an ascending list.
proof fn ascending_remove<K: Key, W>(s: Seq<(K::V, W)>, p: int)
    requires
        ascending::<K, W>(s),
        0 <= p < s.len(),
    ensures
        ascending::<K, W>(s.remove(p)),
        map_of(s.remove(p)) == map_of(s).remove(s[p].0),
        map_of(s).contains_key(s[p].0),
{
    let k = s[p].0;
    let t = s.remove(p);
    assert forall|i: int, j: int| 0 <= i < j < t.len() implies K::before(#[trigger] t[i].0, #[trigger] t[j].0) by {
        let si = if i < p {
            i
        } else {
            i + 1
        };
        let sj = if j < p {
            j
        } else {
            j + 1
        };
        assert(t[i] == s[si] && t[j] == s[sj]);
    }
    map_of_at::<K, W>(s, p);
    assert forall|q: K::V| #[trigger] map_of(t).contains_key(q) <==> map_of(s).remove(
        k,
    ).contains_key(q) by {
        if map_of(t).contains_key(q) {
            let i = map_of_index::<K, W>(t, q);
            let si = if i < p {
                i
            } else {
                i + 1
            };
            assert(t[i] == s[si]);
            map_of_at::<K, W>(s, si);
            if q == k {
                ascending_distinct::<K, W>(s, si, p);
            }
        }
        if map_of(s).contains_key(q) && q != k {
            let i = map_of_index::<K, W>(s, q);
            let ti = if i < p {
                i
            } else {
                i - 1
            };
            assert(t[ti] == s[i]);
            map_of_at::<K, W>(t, ti);
        }
    }
    assert forall|q: K::V| #[trigger] map_of(t).contains_key(q) implies map_of(t)[q] == map_of(
        s,
    )[q] by {
        let i = map_of_index::<K, W>(t, q);
        let si = if i < p {
            i
        } else {
            i + 1
        };
        assert(t[i] == s[si]);
        map_of_at::<K, W>(s, si);
    }
    assert(map_of(t) =~= map_of(s).remove(k));
}

impl<K: Key, V: View> OrderedMap<K, V> {
    /// Gives a key a value. Returns whether the key was not there before.
    pub fn insert(&mut self, key: K, value: V) -> (was_new: bool)
        ensures
            final(self)@ == old(self)@.insert(key@, value@),
            was_new == !old(self)@.contains_key(key@),
    {
        proof {
            use_type_invariant(&*self);
        }
        let p = self.position(&key);
        let present = p < self.entries.len() && !key.precedes(&self.entries[p].0);
        let ghost before = self.entries@;
        let ghost pairs = self.pairs();
        let mut entries: Vec<(K, V)> = Vec::new();
        std::mem::swap(&mut entries, &mut self.entries);
        proof {
            assert forall|i: int| 0 <= i < before.len() implies (#[trigger] pairs[i]).0
                == before[i].0@ by {}
            if present {
                K::before_total(before[p as int].0@, key@);
                ascending_update::<K, V::V>(pairs, p as int, value@);
                assert(pairs_of(before.update(p as int, (key, value))) =~= pairs.update(
                    p as int,
                    (key@, value@),
                ));
            } else {
                assert forall|i: int| p <= i < pairs.len() implies K::before(key@, (#[trigger] pairs[i]).0) by {
                    if i > p {
                        assert(K::before(pairs[p as int].0, pairs[i].0));
                        K::before_transitive(key@, pairs[p as int].0, pairs[i].0);
                    }
                }
                ascending_insert::<K, V::V>(pairs, p as int, key@, value@);
                assert(pairs_of(before.insert(p as int, (key, value))) =~= pairs.insert(
                    p as int,
                    (key@, value@),
                ));
            }
        }
        if present {
            entries[p] = (key, value);
        } else {
            entries.insert(p, (key, value));
        }
        self.entries = entries;
        !present
    }

    /// Takes a key out. Returns whether it was there.
    pub fn remove(&mut self, key: &K) -> (was_there: bool)
        ensures
            final(self)@ == old(self)@.remove(key@),
            was_there == old(self)@.contains_key(key@),
    {
        proof {
            use_type_invariant(&*self);
        }
        match self.find(key) {
            Some(p) => {
                let ghost before = self.entries@;
                let ghost pairs = self.pairs();
                let mut entries: Vec<(K, V)> = Vec::new();
                std::mem::swap(&mut entries, &mut self.entries);
                proof {
                    ascending_remove::<K, V::V>(pairs, p as int);
                    assert(pairs_of(before.remove(p as int)) =~= pairs.remove(p as int));
                }
                let _ = entries.remove(p);
                self.entries = entries;
                true
            },
            None => {
                assert(self@ =~= self@.remove(key@));
                false
            },
        }
    }
}

/// Two ascending lists that stand for the same map agree at every position.
proof fn same_map_agrees<K: Key, W>(s: Seq<(K::V, W)>, t: Seq<(K::V, W)>, n: int)
    requires
        ascending::<K, W>(s),
        ascending::<K, W>(t),
        map_of(s) == map_of(t),
        0 <= n,
    ensures
        n < s.len() <==> n < t.len(),
        n < s.len() ==> s[n] == t[n],
    decreases n,
{
    assert forall|i: int| 0 <= i < n implies (i < s.len() <==> i < t.len()) && (i < s.len()
        ==> #[trigger] s[i] == t[i]) by {
        same_map_agrees::<K, W>(s, t, i);
    }
    if n < s.len() {
        map_of_at::<K, W>(s, n);
        let j = map_of_index::<K, W>(t, s[n].0);
        if j < n {
            assert(s[j] == t[j]);
            ascending_distinct::<K, W>(s, j, n);
        }
    }
    if n < t.len() {
        map_of_at::<K, W>(t, n);
        let j = map_of_index::<K, W>(s, t[n].0);
        if j < n {
            assert(s[j] == t[j]);
            ascending_distinct::<K, W>(t, j, n);
        }
    }
    if n < s.len() && n < t.len() {
        let j = map_of_index::<K, W>(t, s[n].0);
        if j < n {
            assert(s[j] == t[j]);
            ascending_distinct::<K, W>(s, j, n);
        }
        let i = map_of_index::<K, W>(s, t[n].0);
        if i < n {
            assert(s[i] == t[i]);
            ascending_distinct::<K, W>(t, i, n);
        }
        if j > n && i > n {
            assert(K::before(t[n].0, t[j].0) && K::before(s[n].0, s[i].0));
            K::before_transitive(t[n].0, s[n].0, t[n].0);
            K::before_irreflexive(t[n].0);
        }
    }
}

/// A map fixes the ascending list of its entries.
pub proof fn same_map_same_pairs<K: Key, W>(s: Seq<(K::V, W)>, t: Seq<(K::V, W)>)
    requires
        ascending::<K, W>(s),
        ascending::<K, W>(t),
        map_of(s) == map_of(t),
    ensures
        s == t,
{
    same_map_agrees::<K, W>(s, t, s.len() as int);
    same_map_agrees::<K, W>(s, t, t.len() as int);
    assert forall|i: int| 0 <= i < s.len() implies s[i] == t[i] by {
        same_map_agrees::<K, W>(s, t, i);
    }
    assert(s =~= t);
}

impl<K: Key, V: Value> OrderedMap<K, V> {
    /// Takes over the entries of another map.
    pub fn absorb(&mut self, other: &OrderedMap<K, V>)
        ensures
            final(self)@ == old(self)@.union_prefer_right(other@),
    {
        let n = other.len();
        let ghost pairs = other.pairs();
        let mut i: usize = 0;
        while i < n
            invariant
                i <= n,
                n == other.pairs().len(),
                pairs == other.pairs(),
                ascending::<K, V::V>(pairs),
                forall|k: K::V|
                    self@.contains_key(k) <==> old(self)@.contains_key(k) || exists|j: int|
                        0 <= j < i && (#[trigger] pairs[j]).0 == k,
                forall|j: int| 0 <= j < i ==> self@[(#[trigger] pairs[j]).0] == pairs[j].1,
                forall|k: K::V|
                    old(self)@.contains_key(k) && !(exists|j: int|
                        0 <= j < i && (#[trigger] pairs[j]).0 == k) ==> #[trigger] self@[k] == old(
                        self,
                    )@[k],
            decreases n - i,
        {
            let ghost before = self@;
            self.insert(other.key_at(i).replica(), other.value_at(i).replica());
            proof {
                let k0 = pairs[i as int].0;
                assert forall|k: K::V|
                    self@.contains_key(k) <==> old(self)@.contains_key(k) || exists|j: int|
                        0 <= j < i + 1 && (#[trigger] pairs[j]).0 == k by {
                    if exists|j: int| 0 <= j < i + 1 && (#[trigger] pairs[j]).0 == k {
                        let j = choose|j: int| 0 <= j < i + 1 && (#[trigger] pairs[j]).0 == k;
                        if j < i {
                            assert(before.contains_key(k));
                        }
                    }
                    if before.contains_key(k) && !old(self)@.contains_key(k) {
                        let j = choose|j: int| 0 <= j < i && (#[trigger] pairs[j]).0 == k;
                        assert(pairs[j].0 == k);
                    }
                    if k == k0 {
                        assert(pairs[i as int].0 == k);
                    }
                }
                assert forall|j: int| 0 <= j < i + 1 implies self@[(#[trigger] pairs[j]).0]
                    == pairs[j].1 by {
                    if j < i && pairs[j].0 == k0 {
                        ascending_distinct::<K, V::V>(pairs, j, i as int);
                    }
                }
                assert forall|k: K::V|
                    old(self)@.contains_key(k) && !(exists|j: int|
                        0 <= j < i + 1 && (#[trigger] pairs[j]).0 == k) implies #[trigger] self@[k]
                    == old(self)@[k] by {
                    assert(k != k0) by {
                        if k == k0 {
                            assert(pairs[i as int].0 == k);
                        }
                    }
                    assert(!(exists|j: int| 0 <= j < i && (#[trigger] pairs[j]).0 == k));
                }
            }
            i = i + 1;
        }
        proof {
            let both = old(self)@.union_prefer_right(other@);
            assert forall|k: K::V| self@.contains_key(k) <==> both.contains_key(k) by {
                if other@.contains_key(k) {
                    let j = map_of_index::<K, V::V>(pairs, k);
                    assert(pairs[j].0 == k);
                }
                if exists|j: int| 0 <= j < n && (#[trigger] pairs[j]).0 == k {
                    let j = choose|j: int| 0 <= j < n && (#[trigger] pairs[j]).0 == k;
                    map_of_at::<K, V::V>(pairs, j);
                }
            }
            assert forall|k: K::V| both.contains_key(k) implies self@[k] == both[k] by {
                if other@.contains_key(k) {
                    let j = map_of_index::<K, V::V>(pairs, k);
                    assert(self@[pairs[j].0] == pairs[j].1);
                } else {
                    if exists|j: int| 0 <= j < n && (#[trigger] pairs[j]).0 == k {
                        let j = choose|j: int| 0 <= j < n && (#[trigger] pairs[j]).0 == k;
                        map_of_at::<K, V::V>(pairs, j);
                    }
                }
            }
            assert(self@ =~= both);
        }
    }
}

impl<K: Key, V: Value> Value for OrderedMap<K, V> {
    fn replica(&self) -> (r: Self) {
        proof {
            use_type_invariant(self);
        }
        let mut entries: Vec<(K, V)> = Vec::new();
        let mut i: usize = 0;
        while i < self.entries.len()
            invariant
                i <= self.entries.len(),
                entries.len() == i,
                forall|j: int|
                    0 <= j < i ==> (#[trigger] entries@[j]).0@ == self.entries@[j].0@
                        && entries@[j].1@ == self.entries@[j].1@,
            decreases self.entries.len() - i,
        {
            entries.push((self.entries[i].0.replica(), self.entries[i].1.replica()));
            i = i + 1;
        }
        proof {
            assert(pairs_of(entries@) =~= pairs_of(self.entries@));
        }
        OrderedMap { entries }
    }

    fn same(&self, other: &Self) -> (r: bool) {
        proof {
            use_type_invariant(self);
            use_type_invariant(other);
            if self@ == other@ {
                same_map_same_pairs::<K, V::V>(self.pairs(), other.pairs());
            }
        }
        if self.entries.len() != other.entries.len() {
            proof {
                assert(self.pairs().len() != other.pairs().len());
            }
            return false;
        }
        let mut i: usize = 0;
        while i < self.entries.len()
            invariant
                i <= self.entries.len(),
                self.entries.len() == other.entries.len(),
                self@ == other@ ==> self.pairs() == other.pairs(),
                forall|j: int| 0 <= j < i ==> #[trigger] self.pairs()[j] == other.pairs()[j],
            decreases self.entries.len() - i,
        {
            if !self.entries[i].0.same(&other.entries[i].0) || !self.entries[i].1.same(
                &other.entries[i].1,
            ) {
                proof {
                    assert(self.pairs()[i as int] != other.pairs()[i as int]);
                }
                return false;
            }
            i = i + 1;
        }
        proof {
            assert(self.pairs() =~= other.pairs());
        }
        true
    }
}

impl<K: Key, V: Value> Clone for OrderedMap<K, V> {
    fn clone(&self) -> (r: Self)
        ensures
            r@ == self@,
    {
        self.replica()
    }
}

/// A set whose members are kept sorted.
#[derive(Debug, PartialEq)]
pub struct OrderedSet<K: Key> {
    members: OrderedMap<K, ()>,
}

impl<K: Key> View for OrderedSet<K> {
    type V = Set<K::V>;

    closed spec fn view(&self) -> Set<K::V> {
        self.members@.dom()
    }
}

impl<K: Key> OrderedSet<K> {
    /// The members in ascending order.
    pub closed spec fn list(&self) -> Seq<K::V> {
        self.members.pairs().map_values(|e: (K::V, ())| e.0)
    }

    /// An empty set.
    pub fn new() -> (r: Self)
        ensures
            r@ == Set::<K::V>::empty(),
            r.list() == Seq::<K::V>::empty(),
    {
        let r = OrderedSet { members: OrderedMap::new() };
        assert(r@ =~= Set::<K::V>::empty());
        assert(r.list() =~= Seq::<K::V>::empty());
        r
    }

    /// Number of members.
    pub fn len(&self) -> (n: usize)
        ensures
            n == self.list().len(),
            forall|i: int, j: int|
                0 <= i < j < self.list().len() ==> K::before(
                    #[trigger] self.list()[i],
                    #[trigger] self.list()[j],
                ),
            forall|i: int| 0 <= i < self.list().len() ==> self@.contains(#[trigger] self.list()[i]),
            forall|k: K::V| #[trigger]
                self@.contains(k) ==> exists|i: int|
                    0 <= i < self.list().len() && #[trigger] self.list()[i] == k,
    {
        let n = self.members.len();
        proof {
            let pairs = self.members.pairs();
            assert forall|i: int, j: int| 0 <= i < j < self.list().len() implies K::before(
                #[trigger] self.list()[i],
                #[trigger] self.list()[j],
            ) by {
                assert(K::before(pairs[i].0, pairs[j].0));
            }
            assert forall|i: int| 0 <= i < self.list().len() implies self@.contains(
                #[trigger] self.list()[i],
            ) by {
                assert(self.members@.contains_key(pairs[i].0));
            }
            assert forall|k: K::V| #[trigger] self@.contains(k) implies exists|i: int|
                0 <= i < self.list().len() && #[trigger] self.list()[i] == k by {
                assert(self.members@.contains_key(k));
                let i = choose|i: int| 0 <= i < pairs.len() && (#[trigger] pairs[i]).0 == k;
                assert(self.list()[i] == k);
            }
        }
        n
    }

    /// Whether there is no member.
    pub fn is_empty(&self) -> (r: bool)
        ensures
            r == (self@ == Set::<K::V>::empty()),
            r == (self.list().len() == 0),
    {
        let n = self.len();
        proof {
            if n == 0 {
                assert(self@ =~= Set::<K::V>::empty());
            } else {
                assert(self@.contains(self.list()[0]));
            }
        }
        n == 0
    }

    /// The member at a position.
    pub fn at(&self, i: usize) -> (r: &K)
        requires
            i < self.list().len(),
        ensures
            r@ == self.list()[i as int],
    {
        self.members.key_at(i)
    }

    /// Whether a member is there.
    pub fn contains(&self, key: &K) -> (r: bool)
        ensures
            r == self@.contains(key@),
    {
        self.members.contains_key(key)
    }

    /// Adds a member. Returns whether it was not there before.
    pub fn insert(&mut self, key: K) -> (was_new: bool)
        ensures
            final(self)@ == old(self)@.insert(key@),
            was_new == !old(self)@.contains(key@),
    {
        let was_new = self.members.insert(key, ());
        assert(self@ =~= old(self)@.insert(key@));
        was_new
    }

    /// Adds each member of another set.
    pub fn absorb(&mut self, other: &OrderedSet<K>)
        ensures
            final(self)@ == old(self)@.union(other@),
    {
        self.members.absorb(&other.members);
        assert(self@ =~= old(self)@.union(other@));
    }

    /// Adds each member of a list.
    pub fn extend(&mut self, keys: &Vec<K>)
        ensures
            final(self)@ == old(self)@.union(keys@.map_values(|k: K| k@).to_set()),
    {
        let mut i: usize = 0;
        let ghost views = keys@.map_values(|k: K| k@);
        proof {
            assert(self@ =~= old(self)@.union(views.take(0).to_set()));
        }
        while i < keys.len()
            invariant
                i <= keys.len(),
                views == keys@.map_values(|k: K| k@),
                self@ == old(self)@.union(views.take(i as int).to_set()),
            decreases keys.len() - i,
        {
            self.insert(keys[i].replica());
            proof {
                assert(views.take(i + 1) =~= views.take(i as int).push(views[i as int]));
                assert forall|k: K::V|
                    #[trigger] views.take(i + 1).to_set().contains(k) == views.take(
                        i as int,
                    ).to_set().insert(views[i as int]).contains(k) by {
                    let a = views.take(i as int);
                    let b = a.push(views[i as int]);
                    if b.contains(k) {
                        let j = choose|j: int| 0 <= j < b.len() && b[j] == k;
                        if j < a.len() {
                            assert(a[j] == k);
                        }
                    }
                    if a.contains(k) {
                        let j = choose|j: int| 0 <= j < a.len() && a[j] == k;
                        assert(b[j] == k);
                    }
                    assert(b[a.len() as int] == views[i as int]);
                }
                assert(self@ =~= old(self)@.union(views.take(i + 1).to_set()));
            }
            i = i + 1;
        }
        proof {
            assert(views.take(views.len() as int) =~= views);
        }
    }
}

impl<K: Key> Value for OrderedSet<K> {
    fn replica(&self) -> (r: Self) {
        OrderedSet { members: self.members.replica() }
    }

    fn same(&self, other: &Self) -> (r: bool) {
        let r = self.members.same(&other.members);
        proof {
            if self@ == other@ {
                assert(self.members@ =~= other.members@);
            }
        }
        r
    }
}

impl<K: Key> Clone for OrderedSet<K> {
    fn clone(&self) -> (r: Self)
        ensures
            r@ == self@,
    {
        self.replica()
    }
}

} // verus!
