//! Maps keyed by text, with a fixed order of their entries.

use crate::text::same_text;
use vstd::prelude::*;

verus! {

/// A map from text to values. The entries stay in the order in which their keys came, and no
/// key stands twice.
pub struct StringMap<V> {
    entries: Vec<(String, V)>,
}

/// No two entries have the same key.
pub open spec fn distinct_keys<V>(s: Seq<(Seq<char>, V)>) -> bool {
    forall|i: int, j: int| 0 <= i < j < s.len() ==> #[trigger] s[i].0 != #[trigger] s[j].0
}

/// The entry at `i` has the key `key`.
pub open spec fn key_at<V>(s: Seq<(Seq<char>, V)>, key: Seq<char>, i: int) -> bool {
    0 <= i < s.len() && s[i].0 == key
}

/// Some entry has the key `key`.
pub open spec fn has_key<V>(s: Seq<(Seq<char>, V)>, key: Seq<char>) -> bool {
    exists|i: int| key_at(s, key, i)
}

/// The value under `key`.
pub open spec fn value_under<V>(s: Seq<(Seq<char>, V)>, key: Seq<char>) -> V
    recommends
        has_key(s, key),
{
    s[choose|i: int| key_at(s, key, i)].1
}

/// What inserting makes of the entries: the value under a key that is there already is
/// replaced in its place, a new key goes to the end.
pub open spec fn inserted<V>(s: Seq<(Seq<char>, V)>, key: Seq<char>, value: V) -> Seq<
    (Seq<char>, V),
> {
    if has_key(s, key) {
        s.update(choose|i: int| key_at(s, key, i), (key, value))
    } else {
        s.push((key, value))
    }
}

/// Inserting keeps the keys distinct.
pub proof fn lemma_inserted_distinct<V>(s: Seq<(Seq<char>, V)>, key: Seq<char>, value: V)
    requires
        distinct_keys(s),
    ensures
        distinct_keys(inserted(s, key, value)),
{
    if !has_key(s, key) {
        assert forall|i: int| 0 <= i < s.len() implies s[i].0 != key by {
            assert(!key_at(s, key, i));
        }
    }
}

/// The entries whose key stands in `keys`.
pub open spec fn retained<V>(s: Seq<(Seq<char>, V)>, keys: Seq<Seq<char>>) -> Seq<(Seq<char>, V)> {
    s.filter(|e: (Seq<char>, V)| keys.contains(e.0))
}

/// The entries whose key does not stand in `keys`.
pub open spec fn dropped<V>(s: Seq<(Seq<char>, V)>, keys: Seq<Seq<char>>) -> Seq<(Seq<char>, V)> {
    s.filter(|e: (Seq<char>, V)| !keys.contains(e.0))
}

/// The values of entries.
pub open spec fn values<V>(s: Seq<(Seq<char>, V)>) -> Seq<V> {
    s.map_values(|e: (Seq<char>, V)| e.1)
}

/// The keys of entries.
pub open spec fn keys<V>(s: Seq<(Seq<char>, V)>) -> Seq<Seq<char>> {
    s.map_values(|e: (Seq<char>, V)| e.0)
}

/// What becomes of entries to which others are added: each of the others goes to the end,
/// unless its key is there already.
pub open spec fn added<V>(s: Seq<(Seq<char>, V)>, others: Seq<(Seq<char>, V)>) -> Seq<
    (Seq<char>, V),
>
    decreases others.len(),
{
    if others.len() == 0 {
        s
    } else {
        let before = added(s, others.drop_last());
        if has_key(before, others.last().0) {
            before
        } else {
            before.push(others.last())
        }
    }
}

/// Filtering keeps the keys distinct.
proof fn lemma_filter_distinct<V>(s: Seq<(Seq<char>, V)>, pred: spec_fn((Seq<char>, V)) -> bool)
    requires
        distinct_keys(s),
    ensures
        distinct_keys(s.filter(pred)),
        forall|k: Seq<char>| has_key(s.filter(pred), k) ==> has_key(s, k),
        forall|k: Seq<char>|
            has_key(s.filter(pred), k) ==> value_under(s.filter(pred), k) == value_under(s, k),
        forall|i: int| 0 <= i < s.len() && pred(#[trigger] s[i]) ==> has_key(s.filter(pred), s[i].0),
        forall|i: int| 0 <= i < s.filter(pred).len() ==> pred(#[trigger] s.filter(pred)[i]),
        forall|i: int|
            0 <= i < s.filter(pred).len() ==> has_key(s, (#[trigger] s.filter(pred)[i]).0)
                && value_under(s, s.filter(pred)[i].0) == s.filter(pred)[i].1,
{
    broadcast use Seq::lemma_filter_pred, Seq::lemma_filter_contains;
    lemma_filter_distinct_rec(s, pred);
    let f = s.filter(pred);
    assert forall|i: int| 0 <= i < f.len() implies has_key(s, (#[trigger] f[i]).0) && value_under(
        s,
        f[i].0,
    ) == f[i].1 by {
        s.lemma_filter_contains_rev(pred, f[i]);
        let j = choose|j: int| 0 <= j < s.len() && s[j] == f[i];
        assert(key_at(s, f[i].0, j));
        lemma_value_at(s, j);
    }
    assert forall|k: Seq<char>| has_key(f, k) implies has_key(s, k) && value_under(f, k)
        == value_under(s, k) by {
        let i = choose|i: int| key_at(f, k, i);
        assert(has_key(s, f[i].0));
    }
    assert forall|i: int| 0 <= i < s.len() && pred(#[trigger] s[i]) implies has_key(f, s[i].0) by {
        assert(f.contains(s[i]));
        let j = choose|j: int| 0 <= j < f.len() && f[j] == s[i];
        assert(key_at(f, s[i].0, j));
    }
}

proof fn lemma_filter_distinct_rec<V>(
    s: Seq<(Seq<char>, V)>,
    pred: spec_fn((Seq<char>, V)) -> bool,
)
    requires
        distinct_keys(s),
    ensures
        distinct_keys(s.filter(pred)),
    decreases s.len(),
{
    reveal(Seq::filter);
    if s.len() > 0 {
        let front = s.drop_last();
        assert(distinct_keys(front));
        lemma_filter_distinct_rec(front, pred);
        let f = front.filter(pred);
        assert forall|i: int| 0 <= i < f.len() implies (#[trigger] f[i]).0 != s.last().0 by {
            front.lemma_filter_contains_rev(pred, f[i]);
            let j = choose|j: int| 0 <= j < front.len() && front[j] == f[i];
            assert(s[j].0 != s[s.len() - 1].0);
        }
    }
}

/// With distinct keys, the value of an entry is the value under its key.
pub proof fn lemma_value_at<V>(s: Seq<(Seq<char>, V)>, i: int)
    requires
        distinct_keys(s),
        0 <= i < s.len(),
    ensures
        has_key(s, s[i].0),
        value_under(s, s[i].0) == s[i].1,
{
    assert(key_at(s, s[i].0, i));
    let j = choose|j: int| key_at(s, s[i].0, j);
    assert(key_at(s, s[i].0, j));
    if i != j {
        if i < j {
            assert(s[i].0 != s[j].0);
        } else {
            assert(s[j].0 != s[i].0);
        }
    }
}

/// `a` is the front part of `b`.
pub open spec fn front_of<V>(a: Seq<V>, b: Seq<V>) -> bool {
    a.len() <= b.len() && forall|i: int| 0 <= i < a.len() ==> #[trigger] a[i] == b[i]
}

/// Adding keeps the keys distinct and what is there already, and the keys are then those from
/// before and those that were added.
pub proof fn lemma_added<V>(s: Seq<(Seq<char>, V)>, others: Seq<(Seq<char>, V)>)
    requires
        distinct_keys(s),
    ensures
        distinct_keys(added(s, others)),
        front_of(s, added(s, others)),
        forall|k: Seq<char>|
            has_key(added(s, others), k) <==> has_key(s, k) || has_key(others, k),
    decreases others.len(),
{
    if others.len() > 0 {
        let front = others.drop_last();
        let before = added(s, front);
        let last = others.last();
        lemma_added(s, front);
        if !has_key(before, last.0) {
            assert forall|i: int| 0 <= i < before.len() implies (#[trigger] before[i]).0
                != last.0 by {
                assert(!key_at(before, last.0, i));
            }
        }
        let after = added(s, others);
        assert forall|k: Seq<char>| has_key(after, k) <==> has_key(s, k) || has_key(others, k) by {
            if has_key(after, k) {
                let i = choose|i: int| key_at(after, k, i);
                if i < before.len() {
                    assert(key_at(before, k, i));
                    if has_key(front, k) {
                        let j = choose|j: int| key_at(front, k, j);
                        assert(key_at(others, k, j));
                    }
                } else {
                    assert(key_at(others, k, others.len() - 1));
                }
            }
            if has_key(s, k) || has_key(others, k) {
                if has_key(others, k) {
                    let j = choose|j: int| key_at(others, k, j);
                    if j < front.len() {
                        assert(key_at(front, k, j));
                    } else {
                        assert(k == last.0);
                        if !has_key(before, last.0) {
                            assert(key_at(after, k, before.len() as int));
                        }
                    }
                }
                if has_key(before, k) {
                    let i = choose|i: int| key_at(before, k, i);
                    assert(key_at(after, k, i));
                }
            }
        }
    }
}

/// What the first of the others make of the entries stays at the front when the rest is added.
pub proof fn lemma_added_front<V>(s: Seq<(Seq<char>, V)>, others: Seq<(Seq<char>, V)>, n: int)
    requires
        0 <= n <= others.len(),
    ensures
        front_of(added(s, others.take(n)), added(s, others)),
    decreases others.len() - n,
{
    if n == others.len() {
        assert(others.take(n) =~= others);
    } else {
        lemma_added_front(s, others, n + 1);
        assert(others.take(n + 1).drop_last() =~= others.take(n));
        let a = added(s, others.take(n));
        let b = added(s, others.take(n + 1));
        assert forall|i: int| 0 <= i < a.len() implies #[trigger] a[i] == added(s, others)[i] by {
            assert(b[i] == a[i]);
        }
    }
}

/// The value under a key in a front part is the value under it in the whole.
pub proof fn lemma_value_in_front<V>(a: Seq<(Seq<char>, V)>, b: Seq<(Seq<char>, V)>, k: Seq<char>)
    requires
        front_of(a, b),
        distinct_keys(b),
        has_key(a, k),
    ensures
        has_key(b, k),
        value_under(b, k) == value_under(a, k),
{
    let i = choose|i: int| key_at(a, k, i);
    assert(key_at(a, k, i));
    assert(key_at(b, k, i));
    lemma_value_at(b, i);
}

/// The entries, with the values' views in place of the values.
pub open spec fn viewed<V: View>(s: Seq<(Seq<char>, V)>) -> Seq<(Seq<char>, V::V)> {
    s.map_values(|e: (Seq<char>, V)| (e.0, e.1@))
}

/// Taking views leaves the keys alone.
pub proof fn lemma_viewed<V: View>(s: Seq<(Seq<char>, V)>, k: Seq<char>)
    ensures
        has_key(viewed(s), k) == has_key(s, k),
        distinct_keys(s) == distinct_keys(viewed(s)),
        distinct_keys(s) && has_key(s, k) ==> value_under(viewed(s), k) == value_under(s, k)@,
{
    let v = viewed(s);
    assert(v.len() == s.len());
    assert forall|i: int| 0 <= i < s.len() implies (#[trigger] v[i]).0 == s[i].0 by {}
    if has_key(s, k) {
        let i = choose|i: int| key_at(s, k, i);
        assert(key_at(v, k, i));
    }
    if has_key(v, k) {
        let i = choose|i: int| key_at(v, k, i);
        assert(key_at(s, k, i));
    }
    if distinct_keys(s) {
        assert forall|i: int, j: int| 0 <= i < j < v.len() implies #[trigger] v[i].0
            != #[trigger] v[j].0 by {
            assert(s[i].0 != s[j].0);
        }
        if has_key(s, k) {
            let i = choose|i: int| key_at(s, k, i);
            assert(key_at(s, k, i));
            lemma_value_at(s, i);
            lemma_value_at(v, i);
        }
    }
    if distinct_keys(v) {
        assert forall|i: int, j: int| 0 <= i < j < s.len() implies #[trigger] s[i].0
            != #[trigger] s[j].0 by {
            assert(v[i].0 != v[j].0);
        }
    }
}

/// Which entries stay and which go does not depend on the values.
pub proof fn lemma_viewed_filter<V: View>(s: Seq<(Seq<char>, V)>, keys: Seq<Seq<char>>)
    ensures
        viewed(retained(s, keys)) == retained(viewed(s), keys),
        viewed(dropped(s, keys)) == dropped(viewed(s), keys),
    decreases s.len(),
{
    reveal(Seq::filter);
    if s.len() == 0 {
        assert(viewed(retained(s, keys)) =~= retained(viewed(s), keys));
        assert(viewed(dropped(s, keys)) =~= dropped(viewed(s), keys));
    } else {
        lemma_viewed_filter(s.drop_last(), keys);
        assert(viewed(s).drop_last() =~= viewed(s.drop_last()));
        assert(viewed(retained(s, keys)) =~= retained(viewed(s), keys));
        assert(viewed(dropped(s, keys)) =~= dropped(viewed(s), keys));
    }
}

/// Of distinct keys, those that stand in `keys` stay and no others, with their values.
pub proof fn lemma_retained<V>(s: Seq<(Seq<char>, V)>, keys: Seq<Seq<char>>)
    requires
        distinct_keys(s),
    ensures
        distinct_keys(retained(s, keys)),
        distinct_keys(dropped(s, keys)),
        forall|k: Seq<char>|
            has_key(retained(s, keys), k) <==> has_key(s, k) && keys.contains(k),
        forall|k: Seq<char>|
            has_key(dropped(s, keys), k) <==> has_key(s, k) && !keys.contains(k),
        forall|k: Seq<char>|
            has_key(retained(s, keys), k) ==> value_under(retained(s, keys), k) == value_under(
                s,
                k,
            ),
        forall|k: Seq<char>|
            has_key(dropped(s, keys), k) ==> value_under(dropped(s, keys), k) == value_under(s, k),
{
    let stay = |e: (Seq<char>, V)| keys.contains(e.0);
    let go = |e: (Seq<char>, V)| !keys.contains(e.0);
    lemma_filter_distinct(s, stay);
    lemma_filter_distinct(s, go);
    assert forall|k: Seq<char>|
        has_key(retained(s, keys), k) <==> has_key(s, k) && keys.contains(k) by {
        if has_key(retained(s, keys), k) {
            let i = choose|i: int| key_at(retained(s, keys), k, i);
            assert(stay(s.filter(stay)[i]));
        }
        if has_key(s, k) && keys.contains(k) {
            let i = choose|i: int| key_at(s, k, i);
            assert(stay(s[i]));
        }
    }
    assert forall|k: Seq<char>|
        has_key(dropped(s, keys), k) <==> has_key(s, k) && !keys.contains(k) by {
        if has_key(dropped(s, keys), k) {
            let i = choose|i: int| key_at(dropped(s, keys), k, i);
            assert(go(s.filter(go)[i]));
        }
        if has_key(s, k) && !keys.contains(k) {
            let i = choose|i: int| key_at(s, k, i);
            assert(go(s[i]));
        }
    }
}

/// A key is there exactly where an entry has it.
pub proof fn keys_are_those_of_entries<V>(s: Seq<(Seq<char>, V)>, key: Seq<char>)
    ensures
        has_key(s, key) <==> exists|i: int| 0 <= i < s.len() && (#[trigger] s[i]).0 == key,
        distinct_keys(s) <==> s.map_values(|e: (Seq<char>, V)| e.0).no_duplicates(),
{
    if exists|i: int| 0 <= i < s.len() && (#[trigger] s[i]).0 == key {
        let i = choose|i: int| 0 <= i < s.len() && (#[trigger] s[i]).0 == key;
        assert(key_at(s, key, i));
    }
    let all = s.map_values(|e: (Seq<char>, V)| e.0);
    if all.no_duplicates() {
        assert forall|i: int, j: int| 0 <= i < j < s.len() implies #[trigger] s[i].0
            != #[trigger] s[j].0 by {
            assert(all[i] == s[i].0 && all[j] == s[j].0);
        }
    }
    if distinct_keys(s) {
        assert forall|i: int, j: int|
            0 <= i < all.len() && 0 <= j < all.len() && i != j implies all[i] != all[j] by {
            if i < j {
                assert(s[i].0 != s[j].0);
            } else {
                assert(s[j].0 != s[i].0);
            }
        }
    }
}

/// Inserting puts the value under its key, keeps every entry with another key, and adds no
/// other entry.
pub proof fn inserting_changes_one_key<V>(
    s: Seq<(Seq<char>, V)>,
    key: Seq<char>,
    value: V,
    entry: (Seq<char>, V),
)
    requires
        distinct_keys(s),
    ensures
        distinct_keys(inserted(s, key, value)),
        inserted(s, key, value).contains((key, value)),
        entry.0 != key ==> inserted(s, key, value).contains(entry) == s.contains(entry),
{
    lemma_inserted_distinct(s, key, value);
    let after = inserted(s, key, value);
    if has_key(s, key) {
        let i = choose|i: int| key_at(s, key, i);
        assert(after[i] == (key, value));
    } else {
        assert(after[s.len() as int] == (key, value));
    }
    if entry.0 != key {
        if s.contains(entry) {
            let j = choose|j: int| 0 <= j < s.len() && s[j] == entry;
            assert(after[j] == entry);
        }
        if after.contains(entry) {
            let j = choose|j: int| 0 <= j < after.len() && after[j] == entry;
            assert(s[j] == entry);
        }
    }
}

/// What stays are the entries whose key is among `keys`, what goes are all the others.
pub proof fn entries_stay_or_go_by_their_keys<V>(
    s: Seq<(Seq<char>, V)>,
    keys: Seq<Seq<char>>,
    entry: (Seq<char>, V),
)
    ensures
        retained(s, keys).contains(entry) <==> s.contains(entry) && keys.contains(entry.0),
        dropped(s, keys).contains(entry) <==> s.contains(entry) && !keys.contains(entry.0),
{
    broadcast use Seq::lemma_filter_pred, Seq::lemma_filter_contains;
    let stay = |e: (Seq<char>, V)| keys.contains(e.0);
    let go = |e: (Seq<char>, V)| !keys.contains(e.0);
    if retained(s, keys).contains(entry) {
        s.lemma_filter_contains_rev(stay, entry);
        let i = choose|i: int| 0 <= i < s.filter(stay).len() && s.filter(stay)[i] == entry;
        assert(stay(s.filter(stay)[i]));
    }
    if dropped(s, keys).contains(entry) {
        s.lemma_filter_contains_rev(go, entry);
        let i = choose|i: int| 0 <= i < s.filter(go).len() && s.filter(go)[i] == entry;
        assert(go(s.filter(go)[i]));
    }
    if s.contains(entry) {
        let i = choose|i: int| 0 <= i < s.len() && s[i] == entry;
        if stay(entry) {
            assert(s.filter(stay).contains(s[i]));
        } else {
            assert(go(entry));
            assert(s.filter(go).contains(s[i]));
        }
    }
}

impl<V> View for StringMap<V> {
    type V = Seq<(Seq<char>, V)>;

    closed spec fn view(&self) -> Seq<(Seq<char>, V)> {
        Seq::new(self.entries@.len(), |i: int| (self.entries@[i].0@, self.entries@[i].1))
    }
}

impl<V> StringMap<V> {
    /// No key stands twice.
    #[verifier::type_invariant]
    pub open spec fn inv(self) -> bool {
        distinct_keys(self@)
    }

    /// A map without entries.
    pub fn new() -> (r: Self)
        ensures
            r@ == Seq::<(Seq<char>, V)>::empty(),
    {
        StringMap { entries: Vec::new() }
    }

    /// The number of entries.
    pub fn len(&self) -> (r: usize)
        ensures
            r == self@.len(),
    {
        self.entries.len()
    }

    /// The key of the entry at `i`.
    pub fn key(&self, i: usize) -> (r: &String)
        requires
            i < self@.len(),
        ensures
            r@ == self@[i as int].0,
    {
        &self.entries[i].0
    }

    /// The value of the entry at `i`.
    pub fn value(&self, i: usize) -> (r: &V)
        requires
            i < self@.len(),
        ensures
            *r == self@[i as int].1,
    {
        &self.entries[i].1
    }

    /// The entries, in order.
    pub fn into_entries(self) -> (r: Vec<(String, V)>)
        ensures
            r@.len() == self@.len(),
            forall|i: int|
                0 <= i < r@.len() ==> (#[trigger] r@[i]).0@ == self@[i].0 && r@[i].1 == self@[i].1,
            distinct_keys(self@),
    {
        proof {
            use_type_invariant(&self);
        }
        self.entries
    }

    /// Where the entry with the key `key` stands.
    fn position(&self, key: &str) -> (r: Option<usize>)
        ensures
            match r {
                Some(i) => key_at(self@, key@, i as int) && forall|j: int|
                    key_at(self@, key@, j) ==> j == i,
                None => !has_key(self@, key@),
            },
    {
        proof {
            use_type_invariant(self);
        }
        let n: usize = self.entries.len();
        let mut i: usize = 0;
        while i < n
            invariant
                i <= n == self@.len() == self.entries@.len(),
                distinct_keys(self@),
                forall|j: int| 0 <= j < i ==> !key_at(self@, key@, j),
            decreases n - i,
        {
            if same_text(self.entries[i].0.as_str(), key) {
                assert(key_at(self@, key@, i as int));
                return Some(i);
            }
            i = i + 1;
        }
        None
    }

    /// The value under `key`, if there is one.
    pub fn get(&self, key: &str) -> (r: Option<&V>)
        ensures
            match r {
                Some(v) => has_key(self@, key@) && *v == value_under(self@, key@),
                None => !has_key(self@, key@),
            },
    {
        match self.position(key) {
            Some(i) => Some(&self.entries[i].1),
            None => None,
        }
    }

    /// Whether there is a value under `key`.
    pub fn contains_key(&self, key: &str) -> (r: bool)
        ensures
            r == has_key(self@, key@),
    {
        self.position(key).is_some()
    }

    /// Puts `value` under `key`.
    pub fn insert(&mut self, key: String, value: V)
        ensures
            final(self)@ == inserted(old(self)@, key@, value),
    {
        let position = self.position(key.as_str());
        let mut entries: Vec<(String, V)> = Vec::new();
        proof {
            use_type_invariant(&*self);
        }
        let ghost before = self@;
        let ghost k = key@;
        std::mem::swap(&mut entries, &mut self.entries);
        match position {
            Some(i) => {
                entries.set(i, (key, value));
                assert(inserted(before, k, value) == before.update(i as int, (k, value)));
            },
            None => {
                entries.push((key, value));
            },
        }
        let ghost after = inserted(before, k, value);
        proof {
            lemma_inserted_distinct(before, k, value);
            assert(Seq::new(entries@.len(), |i: int| (entries@[i].0@, entries@[i].1)) =~= after);
        }
        *self = StringMap { entries };
    }
}

impl<V: Clone> Clone for StringMap<V> {
    fn clone(&self) -> (r: Self)
        ensures
            r@.len() == self@.len(),
            forall|i: int|
                0 <= i < r@.len() ==> (#[trigger] r@[i]).0 == self@[i].0 && cloned(
                    self@[i].1,
                    r@[i].1,
                ),
    {
        proof {
            use_type_invariant(self);
        }
        let n: usize = self.entries.len();
        let mut entries: Vec<(String, V)> = Vec::new();
        let mut i: usize = 0;
        while i < n
            invariant
                i <= n == self.entries@.len() == self@.len(),
                entries@.len() == i,
                forall|j: int|
                    0 <= j < i ==> (#[trigger] entries@[j]).0@ == self@[j].0 && cloned(
                        self@[j].1,
                        entries@[j].1,
                    ),
            decreases n - i,
        {
            let key = self.entries[i].0.clone();
            let value = self.entries[i].1.clone();
            entries.push((key, value));
            i = i + 1;
        }
        assert(distinct_keys(
            Seq::new(entries@.len(), |i: int| (entries@[i].0@, entries@[i].1)),
        ));
        StringMap { entries }
    }
}

} // verus!
