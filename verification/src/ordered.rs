//! A map from text keys to values that keeps its entries in the order of
//! their keys, so that whatever walks it sees them in one fixed order.

use vstd::prelude::*;
use vstd::std_specs::iter::IteratorSpec;

verus! {

/// The order of keys: code point by code point, the first difference decides,
/// and a proper prefix comes before the longer text.
pub open spec fn text_lt(a: Seq<char>, b: Seq<char>) -> bool
    decreases a.len(),
{
    if b.len() == 0 {
        false
    } else if a.len() == 0 {
        true
    } else if a[0] != b[0] {
        (a[0] as int) < (b[0] as int)
    } else {
        text_lt(a.drop_first(), b.drop_first())
    }
}

/// No text comes before itself.
pub proof fn lemma_text_lt_irreflexive(a: Seq<char>)
    ensures
        !text_lt(a, a),
    decreases a.len(),
{
    if a.len() > 0 {
        lemma_text_lt_irreflexive(a.drop_first());
    }
}

/// The order of keys is transitive.
pub proof fn lemma_text_lt_transitive(a: Seq<char>, b: Seq<char>, c: Seq<char>)
    requires
        text_lt(a, b),
        text_lt(b, c),
    ensures
        text_lt(a, c),
    decreases a.len(),
{
    if a.len() > 0 && a[0] == b[0] && b[0] == c[0] {
        lemma_text_lt_transitive(a.drop_first(), b.drop_first(), c.drop_first());
    }
}

/// Of two different texts one comes before the other.
pub proof fn lemma_text_lt_total(a: Seq<char>, b: Seq<char>)
    ensures
        a == b || text_lt(a, b) || text_lt(b, a),
    decreases a.len(),
{
    if a.len() > 0 && b.len() > 0 && a[0] == b[0] {
        lemma_text_lt_total(a.drop_first(), b.drop_first());
        if a.drop_first() == b.drop_first() {
            assert(a =~= seq![a[0]] + a.drop_first());
            assert(b =~= seq![b[0]] + b.drop_first());
        }
    } else if a.len() == 0 && b.len() == 0 {
        assert(a =~= b);
    }
}

/// Whether `a` comes before `b` in the order of keys.
fn str_lt(a: &str, b: &str) -> (r: bool)
    ensures
        r == text_lt(a@, b@),
{
    broadcast use {vstd::string::axiom_spec_iter, vstd::string::next_postcondition};

    let mut rest_a = a.chars();
    let mut rest_b = b.chars();
    loop
        invariant
            text_lt(a@, b@) == text_lt(rest_a.remaining(), rest_b.remaining()),
            rest_a.decrease() is Some,
        decreases rest_a.decrease()->0,
    {
        let next_a = rest_a.next();
        let next_b = rest_b.next();
        match (next_a, next_b) {
            (_, None) => {
                return false;
            },
            (None, Some(_)) => {
                return true;
            },
            (Some(p), Some(q)) => {
                if p != q {
                    return p < q;
                }
            },
        }
    }
}

/// Whether the keys of `entries` strictly increase from each entry to the next.
pub open spec fn strictly_increasing<V>(entries: Seq<(String, V)>) -> bool {
    forall|i: int, j: int|
        #![trigger entries[i], entries[j]]
        0 <= i < j < entries.len() ==> text_lt(entries[i].0@, entries[j].0@)
}

/// A map from text keys to values, held in the order of its keys.
pub struct OrderedMap<V> {
    items: Vec<(String, V)>,
}

impl<V> Default for OrderedMap<V> {
    /// The map without entries.
    fn default() -> (map: Self)
        ensures
            map.entries() == Seq::<(String, V)>::empty(),
    {
        OrderedMap::new()
    }
}

impl<V> OrderedMap<V> {
    #[verifier::type_invariant]
    spec fn ordered(self) -> bool {
        strictly_increasing(self.items@)
    }

    /// The entries in the order in which they are walked.
    pub closed spec fn entries(self) -> Seq<(String, V)> {
        self.items@
    }

    /// The map without entries.
    pub fn new() -> (map: Self)
        ensures
            map.entries() == Seq::<(String, V)>::empty(),
    {
        OrderedMap { items: Vec::new() }
    }

    /// The number of entries. The entries of every map are in the strict
    /// order of their keys, so no key occurs twice.
    pub fn len(&self) -> (n: usize)
        ensures
            n == self.entries().len(),
            strictly_increasing(self.entries()),
    {
        proof {
            use_type_invariant(self);
        }
        self.items.len()
    }

    /// Whether the map has no entry.
    pub fn is_empty(&self) -> (b: bool)
        ensures
            b == (self.entries().len() == 0),
    {
        self.items.len() == 0
    }

    /// The entry at position `i` in the order of the keys.
    pub fn entry(&self, i: usize) -> (e: &(String, V))
        requires
            i < self.entries().len(),
        ensures
            *e == self.entries()[i as int],
    {
        &self.items[i]
    }

    /// Sets the value of `key`. An entry that had the same key is replaced;
    /// every other entry stays, and the entries stay in the order of their keys.
    pub fn insert(&mut self, key: String, value: V)
        ensures
            forall|e: (String, V)|
                #![trigger final(self).entries().contains(e)]
                final(self).entries().contains(e) <==> (e == (key, value) || (old(
                    self,
                ).entries().contains(e) && e.0@ != key@)),
            strictly_increasing(final(self).entries()),
            final(self).entries().len() == old(self).entries().len() + (if exists|i: int|
                0 <= i < old(self).entries().len() && #[trigger] old(self).entries()[i].0@
                    == key@ {
                0int
            } else {
                1int
            }),
    {
        proof {
            use_type_invariant(&*self);
        }
        let ghost before = self.items@;
        let mut items: Vec<(String, V)> = Vec::new();
        std::mem::swap(&mut items, &mut self.items);
        let n = items.len();
        let mut p: usize = 0;
        while p < n && str_lt(items[p].0.as_str(), key.as_str())
            invariant
                items@ == before,
                n == before.len(),
                p <= n,
                forall|i: int| 0 <= i < p ==> text_lt(#[trigger] before[i].0@, key@),
            decreases n - p,
        {
            p += 1;
        }
        proof {
            lemma_text_lt_irreflexive(key@);
            assert forall|j: int| p < j < n implies text_lt(key@, #[trigger] before[j].0@) && before[j].0@ != key@ by {
                lemma_text_lt_total(before[p as int].0@, key@);
                if before[p as int].0@ == key@ {
                } else {
                    lemma_text_lt_transitive(key@, before[p as int].0@, before[j].0@);
                }
            }
        }
        if p < n && items[p].0 == key {
            items.set(p, (key, value));
            proof {
                let after = items@;
                assert forall|e: (String, V)| after.contains(e) <==> (e == (key, value) || (
                before.contains(e) && e.0@ != key@)) by {
                    if after.contains(e) {
                        let i = choose|i: int| 0 <= i < after.len() && after[i] == e;
                        if i != p {
                            assert(before[i] == e);
                        }
                    }
                    if before.contains(e) && e.0@ != key@ {
                        let i = choose|i: int| 0 <= i < before.len() && before[i] == e;
                        assert(after[i] == e);
                    }
                    if e == (key, value) {
                        assert(after[p as int] == e);
                    }
                }
                assert(before[p as int].0@ == key@);
            }
        } else {
            proof {
                if p < n {
                    lemma_text_lt_total(before[p as int].0@, key@);
                }
                assert forall|i: int| 0 <= i < n implies #[trigger] before[i].0@ != key@ by {
                    if i < p {
                    } else if i == p {
                    } else {
                    }
                }
            }
            items.insert(p, (key, value));
            proof {
                let after = items@;
                assert forall|e: (String, V)| after.contains(e) <==> (e == (key, value) || (
                before.contains(e) && e.0@ != key@)) by {
                    if after.contains(e) {
                        let i = choose|i: int| 0 <= i < after.len() && after[i] == e;
                        if i < p {
                            assert(before[i] == e);
                        } else if i > p {
                            assert(before[i - 1] == e);
                        }
                    }
                    if before.contains(e) {
                        let i = choose|i: int| 0 <= i < before.len() && before[i] == e;
                        if i < p {
                            assert(after[i] == e);
                        } else {
                            assert(after[i + 1] == e);
                        }
                    }
                    if e == (key, value) {
                        assert(after[p as int] == e);
                    }
                }
                assert forall|i: int, j: int| 0 <= i < j < after.len() implies text_lt(
                    after[i].0@,
                    after[j].0@,
                ) by {
                    if j < p {
                        assert(after[i] == before[i] && after[j] == before[j]);
                    } else if j == p {
                        assert(after[i] == before[i]);
                    } else if i < p {
                        assert(after[i] == before[i] && after[j] == before[j - 1]);
                    } else if i == p {
                        assert(after[j] == before[j - 1]);
                        if j - 1 == p {
                        }
                    } else {
                        assert(after[i] == before[i - 1] && after[j] == before[j - 1]);
                    }
                }
            }
        }
        self.items = items;
    }
}

} // verus!
