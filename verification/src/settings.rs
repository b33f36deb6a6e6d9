//! Settings as text: the value of every name that has been set.

use vstd::prelude::*;
use crate::config::KeyValue;

verus! {

/// The values of the names that the first `k` of `items` set, a later item
/// overriding an earlier one.
pub open spec fn values_of(items: Seq<KeyValue>, k: int) -> Map<Seq<char>, Seq<char>>
    decreases k,
{
    if k <= 0 {
        Map::empty()
    } else {
        values_of(items, k - 1).insert(items[k - 1].key@, items[k - 1].value@)
    }
}

/// `base` with the first `k` of `items` laid over it, in order.
pub open spec fn overlaid(base: Map<Seq<char>, Seq<char>>, items: Seq<KeyValue>, k: int) -> Map<
    Seq<char>,
    Seq<char>,
>
    decreases k,
{
    if k <= 0 {
        base
    } else {
        overlaid(base, items, k - 1).insert(items[k - 1].key@, items[k - 1].value@)
    }
}

/// The values of the first `k` items depend on those items only.
pub proof fn lemma_values_prefix(a: Seq<KeyValue>, b: Seq<KeyValue>, k: int)
    requires
        0 <= k <= a.len(),
        k <= b.len(),
        forall|i: int| 0 <= i < k ==> a[i] == b[i],
    ensures
        values_of(a, k) == values_of(b, k),
    decreases k,
{
    if k > 0 {
        lemma_values_prefix(a, b, k - 1);
    }
}

/// An overlay of the first `k` items depends on those items only.
pub proof fn lemma_overlaid_prefix(base: Map<Seq<char>, Seq<char>>, a: Seq<KeyValue>, b: Seq<KeyValue>, k: int)
    requires
        0 <= k <= a.len(),
        k <= b.len(),
        forall|i: int| 0 <= i < k ==> a[i] == b[i],
    ensures
        overlaid(base, a, k) == overlaid(base, b, k),
    decreases k,
{
    if k > 0 {
        lemma_overlaid_prefix(base, a, b, k - 1);
    }
}

/// A name that none of the items from `j` on sets has the value that the
/// items before `j` give it.
proof fn lemma_values_skip(items: Seq<KeyValue>, key: Seq<char>, j: int, k: int)
    requires
        0 <= j <= k <= items.len(),
        forall|i: int| j <= i < k ==> (#[trigger] items[i]).key@ != key,
    ensures
        values_of(items, k).contains_key(key) == values_of(items, j).contains_key(key),
        values_of(items, k).contains_key(key) ==> values_of(items, k)[key] == values_of(items, j)[key],
    decreases k - j,
{
    if j < k {
        lemma_values_skip(items, key, j, k - 1);
        assert(items[k - 1].key@ != key);
    }
}

/// Named values.
pub struct Settings {
    items: Vec<KeyValue>,
}

impl View for Settings {
    type V = Map<Seq<char>, Seq<char>>;

    closed spec fn view(&self) -> Map<Seq<char>, Seq<char>> {
        values_of(self.items@, self.items@.len() as int)
    }
}

impl Settings {
    /// Nothing set.
    pub fn new() -> (s: Settings)
        ensures
            s@ == Map::<Seq<char>, Seq<char>>::empty(),
    {
        Settings { items: Vec::new() }
    }

    /// Gives `key` the value `value`.
    pub fn set(&mut self, key: String, value: String)
        ensures
            final(self)@ == old(self)@.insert(key@, value@),
    {
        let ghost before = self.items@;
        self.items.push(KeyValue { key, value });
        proof {
            lemma_values_prefix(self.items@, before, before.len() as int);
        }
    }

    /// The value of `key`, if it has one.
    pub fn find(&self, key: &String) -> (r: Option<&String>)
        ensures
            r.is_some() == self@.contains_key(key@),
            r matches Some(v) ==> v@ == self@[key@],
    {
        let n = self.items.len();
        let mut i: usize = n;
        while i > 0
            invariant
                n == self.items@.len(),
                0 <= i <= n,
                forall|j: int| i <= j < n ==> (#[trigger] self.items@[j]).key@ != key@,
            decreases i,
        {
            i = i - 1;
            if self.items[i].key == *key {
                proof {
                    lemma_values_skip(self.items@, key@, i + 1, n as int);
                }
                return Some(&self.items[i].value);
            }
        }
        proof {
            lemma_values_skip(self.items@, key@, 0, n as int);
        }
        None
    }

    /// Whether the value of `key` is `true`.
    pub fn is_true(&self, key: &String) -> (b: bool)
        ensures
            b == (self@.contains_key(key@) && self@[key@] == "true"@),
    {
        match self.find(key) {
            Some(v) => crate::config::text_is(v, "true"),
            None => false,
        }
    }

    /// A copy.
    pub fn copy(&self) -> (s: Settings)
        ensures
            s@ == self@,
    {
        let mut items: Vec<KeyValue> = Vec::new();
        let n = self.items.len();
        let mut i: usize = 0;
        while i < n
            invariant
                n == self.items@.len(),
                0 <= i <= n,
                items@.len() == i,
                forall|j: int| 0 <= j < i ==> #[trigger] items@[j] == self.items@[j],
            decreases n - i,
        {
            let kv = &self.items[i];
            items.push(KeyValue { key: kv.key.clone(), value: kv.value.clone() });
            i = i + 1;
        }
        proof {
            lemma_values_prefix(items@, self.items@, n as int);
        }
        Settings { items }
    }

    /// Lays `items` over the settings, in order.
    pub fn overlay(&mut self, items: &Vec<KeyValue>)
        ensures
            final(self)@ == overlaid(old(self)@, items@, items@.len() as int),
    {
        let n = items.len();
        let mut i: usize = 0;
        while i < n
            invariant
                n == items@.len(),
                0 <= i <= n,
                self@ == overlaid(old(self)@, items@, i as int),
            decreases n - i,
        {
            self.set(items[i].key.clone(), items[i].value.clone());
            i = i + 1;
        }
    }
}

} // verus!
