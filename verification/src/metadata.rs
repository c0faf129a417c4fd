//! The free-form entries of a signing request, in the order of their keys.

use vstd::prelude::*;
use vstd::string::*;

use crate::text;

verus! {

/// Entries in strictly ascending order of their keys.
pub open spec fn in_key_order(entries: Seq<(Seq<char>, Seq<char>)>) -> bool {
    forall|i: int, j: int|
        0 <= i < j < entries.len() ==> text::text_before(#[trigger] entries[i].0, #[trigger] entries[j].0)
}

/// The value that entries hold under a key, if any.
pub open spec fn entry_value(entries: Seq<(Seq<char>, Seq<char>)>, key: Seq<char>) -> Option<
    Seq<char>,
> {
    if exists|i: int| 0 <= i < entries.len() && #[trigger] entries[i].0 == key {
        Some(entries[choose|i: int| 0 <= i < entries.len() && #[trigger] entries[i].0 == key].1)
    } else {
        None
    }
}

pub(crate) proof fn lemma_entry_value(entries: Seq<(Seq<char>, Seq<char>)>, i: int)
    requires
        in_key_order(entries),
        0 <= i < entries.len(),
    ensures
        entry_value(entries, entries[i].0) == Some(entries[i].1),
{
    let key = entries[i].0;
    let k = choose|k: int| 0 <= k < entries.len() && #[trigger] entries[k].0 == key;
    assert(0 <= k < entries.len() && entries[k].0 == key);
    text::lemma_text_before_total(key, key);
    if k < i {
        assert(text::text_before(entries[k].0, entries[i].0));
    } else if i < k {
        assert(text::text_before(entries[i].0, entries[k].0));
    }
}

proof fn lemma_first_keys_equal(
    a: Seq<(Seq<char>, Seq<char>)>,
    b: Seq<(Seq<char>, Seq<char>)>,
    i: int,
)
    requires
        in_key_order(a),
        in_key_order(b),
        forall|key: Seq<char>| #[trigger] entry_value(a, key) == entry_value(b, key),
        0 <= i < a.len(),
        forall|j: int| 0 <= j < i && j < b.len() ==> a[j] == b[j],
    ensures
        i < b.len(),
        !text::text_before(a[i].0, b[i].0),
{
    let key = a[i].0;
    lemma_entry_value(a, i);
    assert(entry_value(b, key) is Some);
    let k = choose|k: int| 0 <= k < b.len() && #[trigger] b[k].0 == key;
    assert(0 <= k < b.len() && b[k].0 == key);
    text::lemma_text_before_total(key, key);
    if k < i {
        assert(a[k] == b[k]);
        assert(text::text_before(a[k].0, a[i].0));
    }
    if i < b.len() && i < k {
        assert(text::text_before(b[i].0, b[k].0));
        text::lemma_text_before_total(b[i].0, key);
    }
}

/// Entries in key order are determined by what they hold: the order in which they were entered
/// leaves no trace.
pub proof fn lemma_entries_determined(
    a: Seq<(Seq<char>, Seq<char>)>,
    b: Seq<(Seq<char>, Seq<char>)>,
)
    requires
        in_key_order(a),
        in_key_order(b),
        forall|key: Seq<char>| #[trigger] entry_value(a, key) == entry_value(b, key),
    ensures
        a == b,
{
    lemma_entries_agree_below(a, b, a.len() as int);
    if a.len() < b.len() {
        lemma_first_keys_equal(b, a, a.len() as int);
    }
    assert(a =~= b);
}

proof fn lemma_entries_agree_below(
    a: Seq<(Seq<char>, Seq<char>)>,
    b: Seq<(Seq<char>, Seq<char>)>,
    n: int,
)
    requires
        in_key_order(a),
        in_key_order(b),
        forall|key: Seq<char>| #[trigger] entry_value(a, key) == entry_value(b, key),
        0 <= n <= a.len(),
    ensures
        n <= b.len(),
        forall|j: int| 0 <= j < n ==> a[j] == b[j],
    decreases n,
{
    if n > 0 {
        lemma_entries_agree_below(a, b, n - 1);
        lemma_first_keys_equal(a, b, n - 1);
        lemma_first_keys_equal(b, a, n - 1);
        text::lemma_text_before_total(a[n - 1].0, b[n - 1].0);
        lemma_entry_value(a, n - 1);
        lemma_entry_value(b, n - 1);
    }
}

/// Text entries, at most one to a key, kept in the order of their keys.
#[derive(Debug)]
pub struct Metadata {
    entries: Vec<(String, String)>,
}

/// The entries of a list, as text.
pub open spec fn entries_view(entries: Seq<(String, String)>) -> Seq<(Seq<char>, Seq<char>)> {
    Seq::new(entries.len(), |i: int| (entries[i].0@, entries[i].1@))
}

impl View for Metadata {
    type V = Seq<(Seq<char>, Seq<char>)>;

    closed spec fn view(&self) -> Seq<(Seq<char>, Seq<char>)> {
        entries_view(self.entries@)
    }
}

impl Clone for Metadata {
    fn clone(&self) -> (r: Metadata)
        ensures
            r@ == self@,
    {
        proof {
            use_type_invariant(self);
        }
        let mut entries: Vec<(String, String)> = Vec::new();
        let mut i: usize = 0;
        while i < self.entries.len()
            invariant
                i <= self.entries@.len(),
                entries@.len() == i,
                forall|j: int|
                    0 <= j < i ==> (#[trigger] entries@[j]).0@ == self.entries@[j].0@
                        && entries@[j].1@ == self.entries@[j].1@,
            decreases self.entries@.len() - i,
        {
            let pair = &self.entries[i];
            entries.push((pair.0.clone(), pair.1.clone()));
            i = i + 1;
        }
        assert(entries_view(entries@) =~= self@);
        Metadata { entries }
    }
}

impl Metadata {
    #[verifier::type_invariant]
    spec fn ordered(&self) -> bool {
        in_key_order(self@)
    }

    /// No entries.
    pub fn new() -> (r: Metadata)
        ensures
            r@ == Seq::<(Seq<char>, Seq<char>)>::empty(),
    {
        let r = Metadata { entries: Vec::new() };
        assert(r@ =~= Seq::empty());
        r
    }

    /// The number of entries.
    pub fn len(&self) -> (r: usize)
        ensures
            r == self@.len(),
            in_key_order(self@),
    {
        proof {
            use_type_invariant(self);
        }
        self.entries.len()
    }

    /// The key and the value at a place in the order of the keys.
    pub fn entry(&self, index: usize) -> (r: (&str, &str))
        requires
            index < self@.len(),
        ensures
            (r.0@, r.1@) == self@[index as int],
    {
        let pair = &self.entries[index];
        (pair.0.as_str(), pair.1.as_str())
    }

    /// Sets the value of a key, in place of any value it had.
    pub fn insert(&mut self, key: String, value: String)
        ensures
            in_key_order(final(self)@),
            forall|other: Seq<char>| #[trigger]
                entry_value(final(self)@, other) == if other == key@ {
                    Some(value@)
                } else {
                    entry_value(old(self)@, other)
                },
    {
        proof {
            use_type_invariant(&*self);
        }
        let mut entries: Vec<(String, String)> = Vec::new();
        std::mem::swap(&mut entries, &mut self.entries);
        let ghost before = entries_view(entries@);
        let mut at: usize = 0;
        while at < entries.len() && text::comes_before(entries[at].0.as_str(), key.as_str())
            invariant
                at <= entries@.len(),
                before == entries_view(entries@),
                forall|i: int| 0 <= i < at ==> text::text_before(#[trigger] before[i].0, key@),
            decreases entries@.len() - at,
        {
            at = at + 1;
        }
        let ghost k = key@;
        let ghost v = value@;
        if at < entries.len() && text::same_text(entries[at].0.as_str(), key.as_str()) {
            entries[at] = (key, value);
            proof {
                assert(entries_view(entries@) =~= before.update(at as int, (k, v)));
                lemma_replaced(before, at as int, k, v);
            }
        } else {
            proof {
                if at < before.len() {
                    text::lemma_text_before_total(before[at as int].0, k);
                    lemma_all_after(before, at as int, k);
                }
            }
            entries.insert(at, (key, value));
            proof {
                assert(entries_view(entries@) =~= before.insert(at as int, (k, v)));
                lemma_inserted(before, at as int, k, v);
            }
        }
        self.entries = entries;
    }
}

proof fn lemma_all_after(before: Seq<(Seq<char>, Seq<char>)>, at: int, key: Seq<char>)
    requires
        in_key_order(before),
        0 <= at < before.len(),
        text::text_before(key, before[at].0),
    ensures
        forall|i: int| at <= i < before.len() ==> text::text_before(key, #[trigger] before[i].0),
{
    assert forall|i: int| at <= i < before.len() implies text::text_before(key, #[trigger] before[i].0) by {
        if at < i {
            text::lemma_text_before_transitive(key, before[at].0, before[i].0);
        }
    }
}

proof fn lemma_replaced(
    before: Seq<(Seq<char>, Seq<char>)>,
    at: int,
    key: Seq<char>,
    value: Seq<char>,
)
    requires
        in_key_order(before),
        0 <= at < before.len(),
        before[at].0 == key,
    ensures
        in_key_order(before.update(at, (key, value))),
        forall|other: Seq<char>| #[trigger]
            entry_value(before.update(at, (key, value)), other) == if other == key {
                Some(value)
            } else {
                entry_value(before, other)
            },
{
    let after = before.update(at, (key, value));
    assert forall|i: int, j: int| 0 <= i < j < after.len() implies text::text_before(
        #[trigger] after[i].0,
        #[trigger] after[j].0,
    ) by {
        assert(text::text_before(before[i].0, before[j].0));
    }
    assert forall|other: Seq<char>| #[trigger]
        entry_value(after, other) == if other == key {
            Some(value)
        } else {
            entry_value(before, other)
        } by {
        if other == key {
            lemma_entry_value(after, at);
        } else {
            if exists|i: int| 0 <= i < before.len() && #[trigger] before[i].0 == other {
                let i = choose|i: int| 0 <= i < before.len() && #[trigger] before[i].0 == other;
                lemma_entry_value(before, i);
                assert(after[i] == before[i]);
                lemma_entry_value(after, i);
            } else if exists|i: int| 0 <= i < after.len() && #[trigger] after[i].0 == other {
                let i = choose|i: int| 0 <= i < after.len() && #[trigger] after[i].0 == other;
                assert(before[i].0 == other);
            }
        }
    }
}

proof fn lemma_inserted(
    before: Seq<(Seq<char>, Seq<char>)>,
    at: int,
    key: Seq<char>,
    value: Seq<char>,
)
    requires
        in_key_order(before),
        0 <= at <= before.len(),
        forall|i: int| 0 <= i < at ==> text::text_before(#[trigger] before[i].0, key),
        forall|i: int| at <= i < before.len() ==> text::text_before(key, #[trigger] before[i].0),
    ensures
        in_key_order(before.insert(at, (key, value))),
        forall|other: Seq<char>| #[trigger]
            entry_value(before.insert(at, (key, value)), other) == if other == key {
                Some(value)
            } else {
                entry_value(before, other)
            },
{
    let after = before.insert(at, (key, value));
    assert(forall|i: int| 0 <= i < at ==> after[i] == before[i]);
    assert(after[at] == (key, value));
    assert(forall|i: int| at < i < after.len() ==> after[i] == before[i - 1]);
    assert forall|i: int, j: int| 0 <= i < j < after.len() implies text::text_before(
        #[trigger] after[i].0,
        #[trigger] after[j].0,
    ) by {
        let i0 = if i < at { i } else { i - 1 };
        let j0 = if j < at { j } else { j - 1 };
        if i != at && j != at {
            assert(text::text_before(before[i0].0, before[j0].0));
        } else if i == at {
            assert(text::text_before(key, before[j0].0));
        } else {
            assert(text::text_before(before[i0].0, key));
        }
    }
    assert forall|other: Seq<char>| #[trigger]
        entry_value(after, other) == if other == key {
            Some(value)
        } else {
            entry_value(before, other)
        } by {
        if other == key {
            lemma_entry_value(after, at);
        } else {
            if exists|i: int| 0 <= i < before.len() && #[trigger] before[i].0 == other {
                let i = choose|i: int| 0 <= i < before.len() && #[trigger] before[i].0 == other;
                lemma_entry_value(before, i);
                let moved = if i < at { i } else { i + 1 };
                assert(after[moved] == before[i]);
                lemma_entry_value(after, moved);
            } else if exists|i: int| 0 <= i < after.len() && #[trigger] after[i].0 == other {
                let i = choose|i: int| 0 <= i < after.len() && #[trigger] after[i].0 == other;
                let origin = if i < at { i } else { i - 1 };
                assert(before[origin].0 == other);
            }
        }
    }
}

} // verus!
