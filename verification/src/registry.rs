//! The shared registry core: an identity-keyed collection kept sorted
//! by key, so that listing walks the capabilities in lexicographic
//! identity order and a later registration under the same identity
//! overwrites the earlier one.

use vstd::prelude::*;
use vstd::string::*;
use crate::json_text::str_eq;

verus! {

/// Lexicographic order on character sequences, by code point.
pub open spec fn lex_lt(a: Seq<char>, b: Seq<char>) -> bool
    decreases a.len(),
{
    b.len() > 0 && (a.len() == 0 || (a[0] as u32) < (b[0] as u32) || (a[0] == b[0] && lex_lt(
        a.skip(1),
        b.skip(1),
    )))
}

pub proof fn lemma_lex_irrefl(a: Seq<char>)
    ensures
        !lex_lt(a, a),
    decreases a.len(),
{
    if a.len() > 0 {
        lemma_lex_irrefl(a.skip(1));
    }
}

/// Two distinct sequences are ordered one way or the other.
pub proof fn lemma_lex_connex(a: Seq<char>, b: Seq<char>)
    requires
        a != b,
    ensures
        lex_lt(a, b) || lex_lt(b, a),
    decreases a.len(),
{
    if a.len() == 0 {
        if b.len() == 0 {
            assert(a =~= b);
        }
    } else if b.len() == 0 {
    } else if a[0] == b[0] {
        if a.skip(1) == b.skip(1) {
            assert(a =~= seq![a[0]] + a.skip(1));
            assert(b =~= seq![b[0]] + b.skip(1));
        }
        lemma_lex_connex(a.skip(1), b.skip(1));
    } else {
        assert((a[0] as u32) != (b[0] as u32)) by {
            vstd::utf8::char_u32_cast(a[0], a[0] as u32);
            vstd::utf8::char_u32_cast(b[0], b[0] as u32);
        }
    }
}

pub proof fn lemma_lex_trans(a: Seq<char>, b: Seq<char>, c: Seq<char>)
    requires
        lex_lt(a, b),
        lex_lt(b, c),
    ensures
        lex_lt(a, c),
    decreases a.len(),
{
    if a.len() > 0 && a[0] == b[0] && b[0] == c[0] {
        lemma_lex_trans(a.skip(1), b.skip(1), c.skip(1));
    }
}

fn str_lt_from(a: &str, b: &str, na: usize, nb: usize, i: usize) -> (r: bool)
    requires
        na == a@.len(),
        nb == b@.len(),
        i <= na,
        i <= nb,
    ensures
        r == lex_lt(a@.skip(i as int), b@.skip(i as int)),
    decreases na - i,
{
    if i >= nb {
        assert(b@.skip(i as int).len() == 0);
        false
    } else if i >= na {
        assert(a@.skip(i as int).len() == 0);
        true
    } else {
        let ca = a.get_char(i);
        let cb = b.get_char(i);
        assert(a@.skip(i as int)[0] == a@[i as int]);
        assert(b@.skip(i as int)[0] == b@[i as int]);
        if (ca as u32) < (cb as u32) {
            true
        } else if ca == cb {
            assert(a@.skip(i as int).skip(1) =~= a@.skip(i + 1));
            assert(b@.skip(i as int).skip(1) =~= b@.skip(i + 1));
            str_lt_from(a, b, na, nb, i + 1)
        } else {
            false
        }
    }
}

/// Compares two strings in the order of [`lex_lt`].
pub fn str_lt(a: &str, b: &str) -> (r: bool)
    ensures
        r == lex_lt(a@, b@),
{
    let na = a.unicode_len();
    let nb = b.unicode_len();
    assert(a@.skip(0) =~= a@);
    assert(b@.skip(0) =~= b@);
    str_lt_from(a, b, na, nb, 0)
}

/// The value under `key`, searched from the front; with unique keys
/// the only one.
pub open spec fn spec_find<V>(es: Seq<(Seq<char>, V)>, key: Seq<char>) -> Option<V>
    decreases es.len(),
{
    if es.len() == 0 {
        None
    } else if es[0].0 == key {
        Some(es[0].1)
    } else {
        spec_find(es.skip(1), key)
    }
}

pub proof fn lemma_find_append<V>(a: Seq<(Seq<char>, V)>, b: Seq<(Seq<char>, V)>, key: Seq<char>)
    ensures
        spec_find(a + b, key) == (match spec_find(a, key) {
            Some(v) => Some(v),
            None => spec_find(b, key),
        }),
    decreases a.len(),
{
    if a.len() == 0 {
        assert(a + b =~= b);
    } else {
        assert((a + b)[0] == a[0]);
        assert((a + b).skip(1) =~= a.skip(1) + b);
        lemma_find_append(a.skip(1), b, key);
    }
}

pub proof fn lemma_find_absent<V>(es: Seq<(Seq<char>, V)>, key: Seq<char>)
    requires
        forall|j: int| 0 <= j < es.len() ==> (#[trigger] es[j]).0 != key,
    ensures
        spec_find(es, key) is None,
    decreases es.len(),
{
    if es.len() > 0 {
        assert(es.skip(1) =~= es.subrange(1, es.len() as int));
        lemma_find_absent(es.skip(1), key);
    }
}

/// An identity-keyed collection, sorted strictly by key.
pub struct Registry<V> {
    entries: Vec<(String, V)>,
}

impl<V> Registry<V> {
    /// The entries over character-sequence keys.
    pub closed spec fn spec_entries(&self) -> Seq<(Seq<char>, V)> {
        Seq::new(self.entries@.len(), |i: int| (self.entries@[i].0@, self.entries@[i].1))
    }

    /// The keys, in storage order.
    pub closed spec fn spec_keys(&self) -> Seq<Seq<char>> {
        Seq::new(self.entries@.len(), |i: int| self.entries@[i].0@)
    }

    /// The keys are exactly the entries' key components.
    pub proof fn lemma_keys_are_entry_keys(&self)
        ensures
            self.spec_keys().len() == self.spec_entries().len(),
            forall|j: int|
                0 <= j < self.spec_entries().len() ==> #[trigger] self.spec_keys()[j]
                    == self.spec_entries()[j].0,
    {
    }

    /// Strictly sorted: every earlier key is lexicographically below
    /// every later one, so keys are unique.
    pub open spec fn wf(&self) -> bool {
        forall|i: int, j: int|
            0 <= i < j < self.spec_keys().len() ==> lex_lt(
                #[trigger] self.spec_keys()[i],
                #[trigger] self.spec_keys()[j],
            )
    }

    pub fn new() -> (r: Registry<V>)
        ensures
            r.wf(),
            r.spec_entries() == Seq::<(Seq<char>, V)>::empty(),
    {
        let r = Registry { entries: Vec::new() };
        assert(r.spec_entries() =~= Seq::<(Seq<char>, V)>::empty());
        r
    }

    pub fn len(&self) -> (r: usize)
        ensures
            r == self.spec_entries().len(),
    {
        self.entries.len()
    }

    pub fn is_empty(&self) -> (r: bool)
        ensures
            r == (self.spec_entries().len() == 0),
    {
        self.entries.len() == 0
    }

    /// The entry at position `i`, for walking the collection in
    /// storage order.
    pub fn entry_at(&self, i: usize) -> (r: &(String, V))
        requires
            i < self.spec_entries().len(),
        ensures
            r.0@ == self.spec_entries()[i as int].0,
            r.1 == self.spec_entries()[i as int].1,
    {
        &self.entries[i]
    }

    /// Finds the entry under `key`, as [`spec_find`] defines.
    pub fn get(&self, key: &str) -> (r: Option<&V>)
        ensures
            (match spec_find(self.spec_entries(), key@) {
                Some(v) => r matches Some(rv) && *rv == v,
                None => r is None,
            }),
    {
        let ghost es = self.spec_entries();
        let mut i: usize = 0;
        assert(es.skip(0) =~= es);
        while i < self.entries.len()
            invariant
                i <= self.entries.len(),
                es == self.spec_entries(),
                spec_find(es, key@) == spec_find(es.skip(i as int), key@),
            decreases self.entries.len() - i,
        {
            assert(es.skip(i as int)[0] == es[i as int]);
            assert(es.skip(i as int).skip(1) =~= es.skip(i + 1));
            if str_eq(self.entries[i].0.as_str(), key) {
                return Some(&self.entries[i].1);
            }
            i = i + 1;
        }
        assert(es.skip(self.entries.len() as int).len() == 0);
        None
    }

    /// Registers `value` under `key`: a later registration under the
    /// same key replaces the earlier one, every other entry stays, and
    /// the collection stays sorted.
    pub fn insert(&mut self, key: String, value: V)
        requires
            old(self).wf(),
        ensures
            final(self).wf(),
            spec_find(final(self).spec_entries(), key@) == Some(value),
            forall|k: Seq<char>|
                k != key@ ==> #[trigger] spec_find(final(self).spec_entries(), k) == spec_find(
                    old(self).spec_entries(),
                    k,
                ),
            final(self).spec_entries().len() == old(self).spec_entries().len() + (
            if spec_find(old(self).spec_entries(), key@) is Some {
                0int
            } else {
                1int
            }),
            forall|j: int|
                0 <= j < final(self).spec_entries().len() ==> (#[trigger] final(self).spec_entries()[j]
                    == (key@, value) || old(self).spec_entries().contains(
                    final(self).spec_entries()[j],
                )),
    {
        let ghost old_es = self.spec_entries();
        let mut i: usize = 0;
        while i < self.entries.len() && str_lt(self.entries[i].0.as_str(), key.as_str())
            invariant
                i <= self.entries.len(),
                old_es == self.spec_entries(),
                self == old(self),
                forall|j: int| 0 <= j < i ==> lex_lt(#[trigger] old_es[j].0, key@),
            decreases self.entries.len() - i,
        {
            assert(old_es[i as int].0 == self.entries@[i as int].0@);
            i = i + 1;
        }
        proof {
            assert(forall|j: int| 0 <= j < old_es.len() ==> old_es[j].0 == old(self).spec_keys()[j]);
        }
        if i < self.entries.len() && str_eq(self.entries[i].0.as_str(), key.as_str()) {
            // same identity: replace in place
            let ghost old_key = old_es[i as int].0;
            assert(old_key == key@);
            self.entries.remove(i);
            self.entries.insert(i, (key, value));
            proof {
                let new_es = self.spec_entries();
                assert(new_es =~= old_es.take(i as int) + seq![(key@, value)] + old_es.skip(i + 1));
                self.lemma_insert_post(old(self), old_es, i as int, key@, value, true);
            }
        } else {
            // a new identity: splice it in before the first larger key
            proof {
                if i < self.entries.len() {
                    lemma_lex_connex(old_es[i as int].0, key@);
                }
            }
            self.entries.insert(i, (key, value));
            proof {
                let new_es = self.spec_entries();
                assert(new_es =~= old_es.take(i as int) + seq![(key@, value)] + old_es.skip(i as int));
                self.lemma_insert_post(old(self), old_es, i as int, key@, value, false);
            }
        }
    }

    /// The find/ordering consequences of splicing `(key, value)` at
    /// position `i` of a sorted entry list, replacing the old entry
    /// there or pushing it back.
    proof fn lemma_insert_post(
        &self,
        prev: &Registry<V>,
        old_es: Seq<(Seq<char>, V)>,
        i: int,
        key: Seq<char>,
        value: V,
        replaced: bool,
    )
        requires
            prev.wf(),
            old_es == prev.spec_entries(),
            0 <= i <= old_es.len(),
            forall|j: int| 0 <= j < i ==> lex_lt(#[trigger] old_es[j].0, key),
            replaced ==> i < old_es.len() && old_es[i].0 == key,
            !replaced && i < old_es.len() ==> lex_lt(key, old_es[i].0),
            self.spec_entries() == old_es.take(i) + seq![(key, value)] + (if replaced {
                old_es.skip(i + 1)
            } else {
                old_es.skip(i)
            }),
        ensures
            self.wf(),
            spec_find(self.spec_entries(), key) == Some(value),
            forall|k: Seq<char>|
                k != key ==> #[trigger] spec_find(self.spec_entries(), k) == spec_find(old_es, k),
            self.spec_entries().len() == old_es.len() + (if spec_find(old_es, key) is Some {
                0int
            } else {
                1int
            }),
            forall|j: int|
                0 <= j < self.spec_entries().len() ==> (#[trigger] self.spec_entries()[j] == (
                key,
                value,
            ) || old_es.contains(self.spec_entries()[j])),
    {
        assert(forall|j: int|
            0 <= j < old_es.len() ==> (#[trigger] old_es[j]).0 == prev.spec_keys()[j]);
        assert(forall|a: int, b: int|
            0 <= a < b < old_es.len() ==> lex_lt((#[trigger] old_es[a]).0, (#[trigger] old_es[b]).0));
        let front = old_es.take(i);
        let back = if replaced {
            old_es.skip(i + 1)
        } else {
            old_es.skip(i)
        };
        let mid = seq![(key, value)];
        let new_es = self.spec_entries();
        assert(new_es == front + mid + back);

        // every key in front is below `key`, every key in back above it
        assert(forall|j: int| 0 <= j < front.len() ==> lex_lt((#[trigger] front[j]).0, key));
        assert forall|j: int| 0 <= j < back.len() implies lex_lt(key, (#[trigger] back[j]).0) by {
            let jo = if replaced {
                j + i + 1
            } else {
                j + i
            };
            assert(back[j] == old_es[jo]);
            if replaced {
                assert(lex_lt(old_es[i].0, old_es[jo].0));
            } else {
                if jo == i {
                    assert(lex_lt(key, old_es[i].0));
                } else {
                    assert(lex_lt(old_es[i].0, old_es[jo].0));
                    lemma_lex_trans(key, old_es[i].0, old_es[jo].0);
                }
            }
        }

        // sortedness of the spliced list
        assert forall|a: int, b: int|
            0 <= a < b < new_es.len() implies lex_lt(
            (#[trigger] new_es[a]).0,
            (#[trigger] new_es[b]).0,
        ) by {
            let fl = front.len() as int;
            if a < fl && b < fl {
                assert(new_es[a] == old_es[a] && new_es[b] == old_es[b]);
            } else if a < fl && b == fl {
                assert(new_es[b].0 == key);
            } else if a < fl && b > fl {
                lemma_lex_trans(new_es[a].0, key, new_es[b].0);
            } else if a == fl {
                assert(new_es[a].0 == key);
            } else {
                assert(lex_lt(key, new_es[a].0) && lex_lt(key, new_es[b].0));
                let ao = if replaced {
                    a - fl - 1 + i + 1
                } else {
                    a - fl - 1 + i
                };
                let bo = if replaced {
                    b - fl - 1 + i + 1
                } else {
                    b - fl - 1 + i
                };
                assert(new_es[a] == old_es[ao] && new_es[b] == old_es[bo]);
            }
        }
        assert forall|x: int, y: int|
            0 <= x < y < self.spec_keys().len() implies lex_lt(
            #[trigger] self.spec_keys()[x],
            #[trigger] self.spec_keys()[y],
        ) by {
            assert(self.spec_keys()[x] == (new_es[x]).0);
            assert(self.spec_keys()[y] == (new_es[y]).0);
            assert(lex_lt((new_es[x]).0, (new_es[y]).0));
        }
        assert(self.wf());

        // find under `key` reaches the spliced entry
        assert forall|j: int| 0 <= j < front.len() implies (#[trigger] front[j]).0 != key by {
            lemma_lex_irrefl(key);
            if front[j].0 == key {
                assert(lex_lt(key, key));
            }
        }
        lemma_find_absent(front, key);
        lemma_find_append(front, mid + back, key);
        assert((mid + back)[0] == (key, value));
        assert(spec_find(mid + back, key) == Some(value));
        assert(spec_find(new_es, key) == Some(value)) by {
            assert(new_es =~= front + (mid + back));
            lemma_find_append(front, mid + back, key);
        }

        // find under any other key is unchanged
        assert forall|k: Seq<char>|
            k != key implies #[trigger] spec_find(new_es, k) == spec_find(old_es, k) by {
            assert(new_es =~= front + (mid + back));
            lemma_find_append(front, mid + back, k);
            assert((mid + back).skip(1) =~= back);
            assert(spec_find(mid + back, k) == spec_find(back, k));
            if replaced {
                assert(old_es =~= front + (seq![old_es[i]] + old_es.skip(i + 1)));
                lemma_find_append(front, seq![old_es[i]] + old_es.skip(i + 1), k);
                assert((seq![old_es[i]] + old_es.skip(i + 1)).skip(1) =~= old_es.skip(i + 1));
                assert(spec_find(seq![old_es[i]] + old_es.skip(i + 1), k) == spec_find(
                    old_es.skip(i + 1),
                    k,
                ));
            } else {
                assert(old_es =~= front + back);
                lemma_find_append(front, back, k);
            }
        }

        // the length grows exactly when the key was absent
        if replaced {
            assert(spec_find(old_es, key) == Some(old_es[i].1)) by {
                lemma_find_absent(front, key);
                assert(old_es =~= front + (seq![old_es[i]] + old_es.skip(i + 1)));
                lemma_find_append(front, seq![old_es[i]] + old_es.skip(i + 1), key);
            }
        } else {
            assert(spec_find(old_es, key) is None) by {
                assert forall|j: int| 0 <= j < old_es.len() implies (#[trigger] old_es[j]).0
                    != key by {
                    lemma_lex_irrefl(key);
                    if j < i {
                        if old_es[j].0 == key {
                            assert(lex_lt(key, key));
                        }
                    } else {
                        assert(lex_lt(key, old_es[j].0)) by {
                            if j == i {
                            } else {
                                lemma_lex_trans(key, old_es[i].0, old_es[j].0);
                            }
                        }
                        if old_es[j].0 == key {
                            assert(lex_lt(key, key));
                        }
                    }
                }
                lemma_find_absent(old_es, key);
            }
        }

        // every entry of the spliced list is the new pair or an old entry
        assert forall|j: int|
            0 <= j < new_es.len() implies (#[trigger] new_es[j] == (key, value) || old_es.contains(
            new_es[j],
        )) by {
            let fl = front.len() as int;
            if j < fl {
                assert(new_es[j] == old_es[j]);
                assert(old_es.contains(new_es[j]));
            } else if j > fl {
                let jo = if replaced {
                    j - fl - 1 + i + 1
                } else {
                    j - fl - 1 + i
                };
                assert(new_es[j] == old_es[jo]);
                assert(old_es.contains(new_es[j]));
            }
        }
    }
}

} // verus!
