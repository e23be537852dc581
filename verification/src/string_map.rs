//! A map whose keys are strings, kept in path order.

use vstd::prelude::*;
use vstd::string::StrSliceExecFns;

verus! {

/// The place of a character in path order: `/` comes before every other
/// character, the others follow by code point.
pub open spec fn rank(c: char) -> int {
    if c == '/' {
        0
    } else {
        c as u32 as int + 1
    }
}

/// Path order: whether `a` comes before `b` when the two are compared
/// character by character, a proper prefix first and `/` before every other
/// character. Two paths made of components joined by `/` are thereby ordered
/// component by component.
pub open spec fn precedes(a: Seq<char>, b: Seq<char>) -> bool
    decreases a.len(),
{
    if b.len() == 0 {
        false
    } else if a.len() == 0 {
        true
    } else if a[0] == b[0] {
        precedes(a.skip(1), b.skip(1))
    } else {
        rank(a[0]) < rank(b[0])
    }
}

/// Nothing comes before itself.
pub proof fn lemma_precedes_irreflexive(a: Seq<char>)
    ensures
        !precedes(a, a),
    decreases a.len(),
{
    if a.len() > 0 {
        lemma_precedes_irreflexive(a.skip(1));
    }
}

/// Path order is transitive.
pub proof fn lemma_precedes_transitive(a: Seq<char>, b: Seq<char>, c: Seq<char>)
    requires
        precedes(a, b),
        precedes(b, c),
    ensures
        precedes(a, c),
    decreases a.len(),
{
    if a.len() > 0 && a[0] == b[0] && b[0] == c[0] {
        lemma_precedes_transitive(a.skip(1), b.skip(1), c.skip(1));
    }
}

/// Of two different texts one comes before the other.
pub proof fn lemma_precedes_total(a: Seq<char>, b: Seq<char>)
    requires
        a != b,
    ensures
        precedes(a, b) || precedes(b, a),
    decreases a.len(),
{
    if a.len() == 0 || b.len() == 0 {
        assert(a.len() != b.len()) by {
            if a.len() == b.len() {
                assert(a =~= b);
            }
        }
    } else if a[0] == b[0] {
        if a.skip(1) == b.skip(1) {
            assert(a.len() == a.skip(1).len() + 1);
            assert(b.len() == b.skip(1).len() + 1);
            assert forall|i: int| 0 <= i < a.len() implies a[i] == b[i] by {
                if i > 0 {
                    assert(a[i] == a.skip(1)[i - 1]);
                    assert(b[i] == b.skip(1)[i - 1]);
                }
            }
            assert(a =~= b);
        }
        lemma_precedes_total(a.skip(1), b.skip(1));
    } else {
        vstd::utf8::char_u32_cast(a[0], a[0] as u32);
        vstd::utf8::char_u32_cast(b[0], b[0] as u32);
    }
}

/// Two texts that agree on their first `count` characters are ordered as
/// what follows these characters.
pub proof fn lemma_precedes_after(a: Seq<char>, b: Seq<char>, count: int)
    requires
        0 <= count <= a.len(),
        count <= b.len(),
        forall|j: int| 0 <= j < count ==> a[j] == b[j],
    ensures
        precedes(a, b) == precedes(a.skip(count), b.skip(count)),
    decreases count,
{
    if count == 0 {
        assert(a.skip(0) =~= a);
        assert(b.skip(0) =~= b);
    } else {
        assert(a[0] == b[0]);
        assert forall|j: int| 0 <= j < count - 1 implies a.skip(1)[j] == b.skip(1)[j] by {
            assert(a[j + 1] == b[j + 1]);
        }
        lemma_precedes_after(a.skip(1), b.skip(1), count - 1);
        assert(a.skip(1).skip(count - 1) =~= a.skip(count));
        assert(b.skip(1).skip(count - 1) =~= b.skip(count));
    }
}

/// Returns whether `a` comes before `b` in path order.
pub fn comes_before(a: &str, b: &str) -> (before: bool)
    ensures
        before == precedes(a@, b@),
{
    let a_len = a.unicode_len();
    let b_len = b.unicode_len();
    let mut index: usize = 0;
    while index < a_len && index < b_len
        invariant
            index <= a_len == a@.len(),
            index <= b_len == b@.len(),
            forall|j: int| 0 <= j < index ==> a@[j] == b@[j],
        decreases a_len - index,
    {
        let x = a.get_char(index);
        let y = b.get_char(index);
        if x != y {
            proof {
                lemma_precedes_after(a@, b@, index as int);
            }
            if x == '/' {
                return true;
            }
            if y == '/' {
                return false;
            }
            return (x as u32) < (y as u32);
        }
        index += 1;
    }
    proof {
        lemma_precedes_after(a@, b@, index as int);
    }
    index < b_len
}

/// Whether some pair of `pairs` is stored under `key`.
pub open spec fn has_key<V>(pairs: Seq<(Seq<char>, V)>, key: Seq<char>) -> bool {
    exists|i: int| 0 <= i < pairs.len() && (#[trigger] pairs[i]).0 == key
}

/// Whether no two pairs of `pairs` share a key.
pub open spec fn distinct_keys<V>(pairs: Seq<(Seq<char>, V)>) -> bool {
    forall|i: int, j: int|
        0 <= i < pairs.len() && 0 <= j < pairs.len() && (#[trigger] pairs[i]).0 == (
        #[trigger] pairs[j]).0 ==> i == j
}

/// Whether the keys of `pairs` ascend in path order.
pub open spec fn ascending<V>(pairs: Seq<(Seq<char>, V)>) -> bool {
    forall|i: int, j: int|
        0 <= i < j < pairs.len() ==> precedes((#[trigger] pairs[i]).0, (#[trigger] pairs[j]).0)
}

/// An index at which `pairs` stores `key`; meaningful only if `has_key(pairs, key)`.
pub open spec fn position<V>(pairs: Seq<(Seq<char>, V)>, key: Seq<char>) -> int {
    choose|i: int| 0 <= i < pairs.len() && (#[trigger] pairs[i]).0 == key
}

/// The value stored under `key`, if any.
pub open spec fn value_of<V>(pairs: Seq<(Seq<char>, V)>, key: Seq<char>) -> Option<V> {
    if has_key(pairs, key) {
        Some(pairs[position(pairs, key)].1)
    } else {
        None
    }
}

/// The number of pairs of `pairs` whose key comes before `key`: where the
/// keys ascend, the place at which `key` belongs.
pub open spec fn slot<V>(pairs: Seq<(Seq<char>, V)>, key: Seq<char>) -> int
    decreases pairs.len(),
{
    if pairs.len() == 0 {
        0
    } else if precedes(pairs.last().0, key) {
        slot(pairs.drop_last(), key) + 1
    } else {
        slot(pairs.drop_last(), key)
    }
}

/// `pairs` after storing `value` under `key`: an existing pair takes the new
/// value, a new key goes to the place at which it belongs in path order.
pub open spec fn put<V>(pairs: Seq<(Seq<char>, V)>, key: Seq<char>, value: V) -> Seq<
    (Seq<char>, V),
> {
    if has_key(pairs, key) {
        pairs.update(position(pairs, key), (key, value))
    } else {
        pairs.insert(slot(pairs, key), (key, value))
    }
}

/// `pairs` without the pair stored under `key`.
pub open spec fn without<V>(pairs: Seq<(Seq<char>, V)>, key: Seq<char>) -> Seq<(Seq<char>, V)> {
    if has_key(pairs, key) {
        pairs.remove(position(pairs, key))
    } else {
        pairs
    }
}

/// Keys that ascend are distinct.
pub proof fn lemma_ascending_distinct<V>(pairs: Seq<(Seq<char>, V)>)
    requires
        ascending(pairs),
    ensures
        distinct_keys(pairs),
{
    assert forall|i: int, j: int|
        0 <= i < pairs.len() && 0 <= j < pairs.len() && (#[trigger] pairs[i]).0 == (
        #[trigger] pairs[j]).0 implies i == j by {
        lemma_precedes_irreflexive(pairs[i].0);
    }
}

/// Where keys are distinct, the pair at an index is the one found under its key.
pub proof fn lemma_value_at<V>(pairs: Seq<(Seq<char>, V)>, i: int)
    requires
        distinct_keys(pairs),
        0 <= i < pairs.len(),
    ensures
        has_key(pairs, pairs[i].0),
        position(pairs, pairs[i].0) == i,
        value_of(pairs, pairs[i].0) == Some(pairs[i].1),
{
    assert(pairs[i].0 == pairs[i].0);
    let p = position(pairs, pairs[i].0);
    assert(pairs[p].0 == pairs[i].0);
}

/// Where the keys ascend, the keys before the place of `key` come before
/// `key` and no key from that place on does.
pub proof fn lemma_slot<V>(pairs: Seq<(Seq<char>, V)>, key: Seq<char>)
    requires
        ascending(pairs),
    ensures
        0 <= slot(pairs, key) <= pairs.len(),
        forall|i: int| 0 <= i < slot(pairs, key) ==> precedes((#[trigger] pairs[i]).0, key),
        forall|i: int|
            slot(pairs, key) <= i < pairs.len() ==> !precedes((#[trigger] pairs[i]).0, key),
    decreases pairs.len(),
{
    if pairs.len() > 0 {
        let front = pairs.drop_last();
        assert forall|i: int, j: int| 0 <= i < j < front.len() implies precedes(
            (#[trigger] front[i]).0,
            (#[trigger] front[j]).0,
        ) by {
            assert(front[i] == pairs[i] && front[j] == pairs[j]);
        }
        lemma_slot(front, key);
        if precedes(pairs.last().0, key) {
            if slot(front, key) < front.len() {
                let s = slot(front, key);
                assert(front[s] == pairs[s]);
                lemma_precedes_transitive(pairs[s].0, pairs[pairs.len() - 1].0, key);
            }
        }
        assert forall|i: int| 0 <= i < slot(pairs, key) implies precedes(
            (#[trigger] pairs[i]).0,
            key,
        ) by {
            if i < front.len() {
                assert(front[i] == pairs[i]);
            }
        }
        assert forall|i: int| slot(pairs, key) <= i < pairs.len() implies !precedes(
            (#[trigger] pairs[i]).0,
            key,
        ) by {
            if i < front.len() {
                assert(front[i] == pairs[i]);
            }
        }
    }
}

/// Storing a value keeps the keys ascending, makes it the value under its
/// key and leaves what is stored under every other key as it was.
pub proof fn lemma_put<V>(pairs: Seq<(Seq<char>, V)>, key: Seq<char>, value: V)
    requires
        ascending(pairs),
    ensures
        ascending(put(pairs, key, value)),
        distinct_keys(put(pairs, key, value)),
        value_of(put(pairs, key, value), key) == Some(value),
        forall|other: Seq<char>|
            other != key ==> #[trigger] value_of(put(pairs, key, value), other) == value_of(
                pairs,
                other,
            ),
        forall|other: Seq<char>|
            #[trigger] has_key(put(pairs, key, value), other) <==> (other == key || has_key(
                pairs,
                other,
            )),
{
    let after = put(pairs, key, value);
    lemma_ascending_distinct(pairs);
    if has_key(pairs, key) {
        let p = position(pairs, key);
        assert forall|i: int, j: int| 0 <= i < j < after.len() implies precedes(
            (#[trigger] after[i]).0,
            (#[trigger] after[j]).0,
        ) by {
            assert(after[i].0 == pairs[i].0 && after[j].0 == pairs[j].0);
        }
        lemma_ascending_distinct(after);
        lemma_value_at(after, p);
        assert forall|other: Seq<char>| other != key implies #[trigger] value_of(after, other)
            == value_of(pairs, other) by {
            if has_key(pairs, other) {
                let q = position(pairs, other);
                assert(after[q] == pairs[q]);
                lemma_value_at(after, q);
            } else if has_key(after, other) {
                let r = position(after, other);
                assert(pairs[r] == after[r]);
            }
        }
        assert forall|other: Seq<char>| #[trigger]
            has_key(after, other) <==> (other == key || has_key(pairs, other)) by {
            if has_key(after, other) && other != key {
                let r = position(after, other);
                assert(pairs[r] == after[r]);
            }
            if has_key(pairs, other) && other != key {
                let q = position(pairs, other);
                assert(after[q] == pairs[q]);
            }
        }
    } else {
        let k = slot(pairs, key);
        lemma_slot(pairs, key);
        assert(after[k] == (key, value));
        assert forall|i: int| k <= i < pairs.len() implies precedes(
            key,
            (#[trigger] pairs[i]).0,
        ) by {
            lemma_precedes_total(key, pairs[i].0);
        }
        assert forall|i: int, j: int| 0 <= i < j < after.len() implies precedes(
            (#[trigger] after[i]).0,
            (#[trigger] after[j]).0,
        ) by {
            let a = if i < k {
                i
            } else {
                i - 1
            };
            let b = if j < k {
                j
            } else {
                j - 1
            };
            if i != k {
                assert(after[i] == pairs[a]);
            }
            if j != k {
                assert(after[j] == pairs[b]);
            }
        }
        lemma_ascending_distinct(after);
        lemma_value_at(after, k);
        assert forall|other: Seq<char>| other != key implies #[trigger] value_of(after, other)
            == value_of(pairs, other) by {
            if has_key(pairs, other) {
                let q = position(pairs, other);
                let r = if q < k {
                    q
                } else {
                    q + 1
                };
                assert(after[r] == pairs[q]);
                lemma_value_at(after, r);
            } else if has_key(after, other) {
                let r = position(after, other);
                let q = if r < k {
                    r
                } else {
                    r - 1
                };
                assert(pairs[q] == after[r]);
            }
        }
        assert forall|other: Seq<char>| #[trigger]
            has_key(after, other) <==> (other == key || has_key(pairs, other)) by {
            if has_key(after, other) && other != key {
                let r = position(after, other);
                let q = if r < k {
                    r
                } else {
                    r - 1
                };
                assert(pairs[q] == after[r]);
            }
            if has_key(pairs, other) {
                let q = position(pairs, other);
                let r = if q < k {
                    q
                } else {
                    q + 1
                };
                assert(after[r] == pairs[q]);
            }
        }
    }
}

/// Storing the same value under the same key a second time changes nothing.
pub proof fn lemma_put_twice<V>(pairs: Seq<(Seq<char>, V)>, key: Seq<char>, value: V)
    requires
        ascending(pairs),
    ensures
        put(put(pairs, key, value), key, value) == put(pairs, key, value),
{
    let once = put(pairs, key, value);
    lemma_put(pairs, key, value);
    assert(has_key(once, key));
    let p = position(once, key);
    lemma_value_at(once, p);
    assert(once.update(p, (key, value)) =~= once);
}

/// A key that comes after every key of `pairs` is stored at the end.
pub proof fn lemma_put_last<V>(pairs: Seq<(Seq<char>, V)>, key: Seq<char>, value: V)
    requires
        ascending(pairs),
        forall|i: int| 0 <= i < pairs.len() ==> precedes((#[trigger] pairs[i]).0, key),
    ensures
        put(pairs, key, value) == pairs.push((key, value)),
{
    lemma_slot(pairs, key);
    if has_key(pairs, key) {
        lemma_precedes_irreflexive(key);
        assert(false);
    }
    assert(pairs.insert(pairs.len() as int, (key, value)) =~= pairs.push((key, value)));
}

/// Taking a key out keeps the keys ascending, leaves nothing under that key
/// and leaves what is stored under every other key as it was.
pub proof fn lemma_without<V>(pairs: Seq<(Seq<char>, V)>, key: Seq<char>)
    requires
        ascending(pairs),
    ensures
        ascending(without(pairs, key)),
        distinct_keys(without(pairs, key)),
        !has_key(without(pairs, key), key),
        forall|other: Seq<char>|
            other != key ==> #[trigger] value_of(without(pairs, key), other) == value_of(
                pairs,
                other,
            ),
{
    let after = without(pairs, key);
    lemma_ascending_distinct(pairs);
    if has_key(pairs, key) {
        let p = position(pairs, key);
        assert forall|i: int| 0 <= i < after.len() implies #[trigger] after[i] == pairs[if i
            < p {
            i
        } else {
            i + 1
        }] by {}
        assert forall|i: int, j: int| 0 <= i < j < after.len() implies precedes(
            (#[trigger] after[i]).0,
            (#[trigger] after[j]).0,
        ) by {
            let a = if i < p {
                i
            } else {
                i + 1
            };
            let b = if j < p {
                j
            } else {
                j + 1
            };
            assert(after[i] == pairs[a] && after[j] == pairs[b]);
        }
        lemma_ascending_distinct(after);
        if has_key(after, key) {
            let r = position(after, key);
            let a = if r < p {
                r
            } else {
                r + 1
            };
            assert(pairs[a].0 == pairs[p].0);
        }
        assert forall|other: Seq<char>| other != key implies #[trigger] value_of(after, other)
            == value_of(pairs, other) by {
            if has_key(pairs, other) {
                let q = position(pairs, other);
                let r = if q < p {
                    q
                } else {
                    q - 1
                };
                assert(after[r] == pairs[q]);
                lemma_value_at(after, r);
            } else if has_key(after, other) {
                let t = position(after, other);
                let a = if t < p {
                    t
                } else {
                    t + 1
                };
                assert(pairs[a] == after[t]);
            }
        }
    }
}

/// Two maps whose keys ascend and which store the same value under every key
/// are the same map.
pub proof fn lemma_ascending_unique<V>(a: Seq<(Seq<char>, V)>, b: Seq<(Seq<char>, V)>)
    requires
        ascending(a),
        ascending(b),
        forall|key: Seq<char>| value_of(a, key) == value_of(b, key),
    ensures
        a == b,
    decreases a.len(),
{
    lemma_ascending_distinct(a);
    lemma_ascending_distinct(b);
    if a.len() == 0 {
        if b.len() > 0 {
            lemma_value_at(b, 0);
            assert(value_of(a, b[0].0) == value_of(b, b[0].0));
        }
        assert(a =~= b);
    } else {
        let n = a.len() - 1;
        let last = a[n].0;
        lemma_value_at(a, n);
        assert(value_of(b, last) == value_of(a, last));
        let j = position(b, last);
        if j < b.len() - 1 {
            let m = b.len() - 1;
            let greater = b[m].0;
            assert(precedes(b[j].0, b[m].0));
            lemma_value_at(b, m);
            assert(value_of(a, greater) == value_of(b, greater));
            let i = position(a, greater);
            lemma_precedes_irreflexive(last);
            if i < n {
                assert(precedes(a[i].0, a[n].0));
                lemma_precedes_transitive(last, greater, last);
            }
        }
        lemma_value_at(b, j);
        lemma_without(a, last);
        lemma_without(b, last);
        assert(without(a, last) =~= a.drop_last());
        assert(without(b, last) =~= b.drop_last());
        assert forall|key: Seq<char>| value_of(a.drop_last(), key) == value_of(
            b.drop_last(),
            key,
        ) by {
            if key != last {
                assert(value_of(a, key) == value_of(b, key));
            }
        }
        lemma_ascending_unique(a.drop_last(), b.drop_last());
        assert(a =~= a.drop_last().push(a[n]));
        assert(b =~= b.drop_last().push(b[j]));
    }
}

/// A map from strings to values whose keys are kept ascending in path
/// order, so that walking it by index visits the keys in that order.
pub struct StringMap<V: DeepView> {
    entries: Vec<(String, V)>,
}

impl<V: DeepView> View for StringMap<V> {
    type V = Seq<(Seq<char>, V::V)>;

    closed spec fn view(&self) -> Seq<(Seq<char>, V::V)> {
        self.entries@.map_values(|entry: (String, V)| (entry.0@, entry.1.deep_view()))
    }
}

impl<V: DeepView> DeepView for StringMap<V> {
    type V = Seq<(Seq<char>, V::V)>;

    open spec fn deep_view(&self) -> Seq<(Seq<char>, V::V)> {
        self@
    }
}

impl<V: DeepView> StringMap<V> {
    #[verifier::type_invariant]
    closed spec fn keys_ascend(&self) -> bool {
        ascending(self@)
    }

    /// Creates an empty map.
    pub fn new() -> (map: Self)
        ensures
            map@ == Seq::<(Seq<char>, V::V)>::empty(),
    {
        StringMap { entries: Vec::new() }
    }

    /// Returns the number of keys.
    pub fn len(&self) -> (n: usize)
        ensures
            n == self@.len(),
            ascending(self@),
            distinct_keys(self@),
    {
        proof {
            use_type_invariant(self);
            lemma_ascending_distinct(self@);
        }
        self.entries.len()
    }

    /// Returns whether the map holds no key.
    pub fn is_empty(&self) -> (empty: bool)
        ensures
            empty == (self@.len() == 0),
    {
        self.entries.len() == 0
    }

    /// Returns the key at `index` in ascending order.
    pub fn key_at(&self, index: usize) -> (key: &String)
        requires
            index < self@.len(),
        ensures
            key@ == self@[index as int].0,
    {
        &self.entries[index].0
    }

    /// Returns the value at `index` in ascending order of the keys.
    pub fn value_at(&self, index: usize) -> (value: &V)
        requires
            index < self@.len(),
        ensures
            value.deep_view() == self@[index as int].1,
    {
        &self.entries[index].1
    }

    /// Returns the place at which `key` belongs, and whether it is stored there.
    fn find(&self, key: &String) -> (found: (usize, bool))
        ensures
            found.0 == slot(self@, key@),
            found.0 <= self@.len(),
            found.1 == has_key(self@, key@),
            found.1 ==> found.0 < self@.len() && found.0 == position(self@, key@),
    {
        proof {
            use_type_invariant(self);
            lemma_ascending_distinct(self@);
            lemma_slot(self@, key@);
        }
        let mut i: usize = 0;
        while i < self.entries.len() && comes_before(self.entries[i].0.as_str(), key.as_str())
            invariant
                i <= self.entries.len(),
                forall|j: int| 0 <= j < i ==> precedes((#[trigger] self@[j]).0, key@),
            decreases self.entries.len() - i,
        {
            assert(self@[i as int].0 == self.entries[i as int].0@);
            i += 1;
        }
        assert(i < self.entries.len() ==> self@[i as int].0 == self.entries[i as int].0@);
        let ghost pairs = self@;
        assert(i == slot(pairs, key@)) by {
            let s = slot(pairs, key@);
            if i < s {
                assert(precedes(pairs[i as int].0, key@));
            }
            if s < i {
                assert(precedes(pairs[s].0, key@));
            }
        }
        let stored = i < self.entries.len() && self.entries[i].0 == *key;
        proof {
            if stored {
                assert(pairs[i as int].0 == key@);
                lemma_value_at(pairs, i as int);
            } else if has_key(pairs, key@) {
                let p = position(pairs, key@);
                lemma_precedes_irreflexive(key@);
                if p > i {
                    lemma_precedes_total(key@, pairs[i as int].0);
                    lemma_precedes_transitive(key@, pairs[i as int].0, pairs[p].0);
                }
            }
        }
        (i, stored)
    }

    /// Returns whether a value is stored under `key`.
    pub fn contains_key(&self, key: &String) -> (found: bool)
        ensures
            found == has_key(self@, key@),
    {
        self.find(key).1
    }

    /// Returns the value stored under `key`.
    pub fn get(&self, key: &String) -> (value: Option<&V>)
        ensures
            value is Some <==> has_key(self@, key@),
            value matches Some(v) ==> value_of(self@, key@) == Some(v.deep_view()),
    {
        let (i, stored) = self.find(key);
        if stored {
            Some(&self.entries[i].1)
        } else {
            None
        }
    }

    /// Puts `value` in the place of the value at `index` and returns the
    /// value that was there.
    pub fn replace_value_at(&mut self, index: usize, value: V) -> (previous: V)
        requires
            index < old(self)@.len(),
        ensures
            final(self)@ == old(self)@.update(
                index as int,
                (old(self)@[index as int].0, value.deep_view()),
            ),
            previous.deep_view() == old(self)@[index as int].1,
    {
        proof {
            use_type_invariant(&*self);
        }
        let ghost before = self@;
        let mut entries = Vec::new();
        std::mem::swap(&mut entries, &mut self.entries);
        let mut tail = entries.split_off(index);
        let (key, previous) = tail.remove(0);
        entries.push((key, value));
        entries.append(&mut tail);
        let ghost after = before.update(index as int, (before[index as int].0, value.deep_view()));
        assert(entries@.map_values(|entry: (String, V)| (entry.0@, entry.1.deep_view()))
            =~= after);
        assert forall|i: int, j: int| 0 <= i < j < after.len() implies precedes(
            (#[trigger] after[i]).0,
            (#[trigger] after[j]).0,
        ) by {
            assert(after[i].0 == before[i].0);
            assert(after[j].0 == before[j].0);
        }
        self.entries = entries;
        previous
    }

    /// Takes out the value stored under `key` and returns it.
    pub fn remove(&mut self, key: &String) -> (previous: Option<V>)
        ensures
            ascending(old(self)@),
            final(self)@ == without(old(self)@, key@),
            previous is Some <==> has_key(old(self)@, key@),
            previous matches Some(v) ==> value_of(old(self)@, key@) == Some(v.deep_view()),
    {
        proof {
            use_type_invariant(&*self);
        }
        let (i, stored) = self.find(key);
        if stored {
            proof {
                use_type_invariant(&*self);
                lemma_without(self@, key@);
            }
            let ghost before = self@;
            let mut entries = Vec::new();
            std::mem::swap(&mut entries, &mut self.entries);
            let (_, previous) = entries.remove(i);
            assert(entries@.map_values(|entry: (String, V)| (entry.0@, entry.1.deep_view()))
                =~= without(before, key@));
            self.entries = entries;
            Some(previous)
        } else {
            None
        }
    }

    /// Stores `value` under `key` and returns the value that was stored there
    /// before. A new key goes to the place at which it belongs in path order.
    pub fn insert(&mut self, key: String, value: V) -> (previous: Option<V>)
        ensures
            final(self)@ == put(old(self)@, key@, value.deep_view()),
            previous is Some <==> has_key(old(self)@, key@),
            previous matches Some(v) ==> value_of(old(self)@, key@) == Some(v.deep_view()),
    {
        let (i, stored) = self.find(&key);
        proof {
            use_type_invariant(&*self);
            lemma_put(self@, key@, value.deep_view());
        }
        let ghost before = self@;
        let mut entries = Vec::new();
        std::mem::swap(&mut entries, &mut self.entries);
        if stored {
            let mut tail = entries.split_off(i);
            let (_, previous) = tail.remove(0);
            entries.push((key, value));
            entries.append(&mut tail);
            assert(entries@.map_values(|entry: (String, V)| (entry.0@, entry.1.deep_view()))
                =~= put(before, key@, value.deep_view()));
            self.entries = entries;
            Some(previous)
        } else {
            entries.insert(i, (key, value));
            assert(entries@.map_values(|entry: (String, V)| (entry.0@, entry.1.deep_view()))
                =~= put(before, key@, value.deep_view()));
            self.entries = entries;
            None
        }
    }
}

} // verus!
