//! The header fields of a request.

use vstd::prelude::*;
use vstd::set_lib::lemma_subset_equality;
use vstd::std_specs::cmp::PartialEqSpecImpl;
use vstd::utf8::{encode_utf8, encode_utf8_decode_utf8};

verus! {

/// The mapping that comes of storing the pairs of `es` one after the
/// other, each under its name: a later pair replaces an earlier one of
/// the same name.
pub open spec fn store_all(es: Seq<(Seq<char>, Seq<char>)>) -> Map<Seq<char>, Seq<char>>
    decreases es.len(),
{
    if es.len() == 0 {
        Map::empty()
    } else {
        store_all(es.drop_last()).insert(es.last().0, es.last().1)
    }
}

/// Whether no two pairs of `es` have the same name.
pub open spec fn distinct_names(es: Seq<(Seq<char>, Seq<char>)>) -> bool {
    forall|i: int, j: int| 0 <= i < j < es.len() ==> (#[trigger] es[i]).0 != (#[trigger] es[j]).0
}

/// A name is stored exactly if some pair has it.
pub proof fn lemma_store_all_names(es: Seq<(Seq<char>, Seq<char>)>, name: Seq<char>)
    ensures
        store_all(es).contains_key(name) <==> exists|i: int|
            0 <= i < es.len() && (#[trigger] es[i]).0 == name,
    decreases es.len(),
{
    if es.len() > 0 {
        let init = es.drop_last();
        lemma_store_all_names(init, name);
        if store_all(es).contains_key(name) {
            if es.last().0 == name {
                assert(es[es.len() - 1].0 == name);
            } else {
                let i = choose|i: int| 0 <= i < init.len() && (#[trigger] init[i]).0 == name;
                assert(es[i].0 == name);
            }
        }
        if exists|i: int| 0 <= i < es.len() && (#[trigger] es[i]).0 == name {
            let i = choose|i: int| 0 <= i < es.len() && (#[trigger] es[i]).0 == name;
            if i < es.len() - 1 {
                assert(init[i].0 == name);
            }
        }
    }
}

/// The value stored under a name is that of the last pair with the name.
pub proof fn lemma_store_all_last(es: Seq<(Seq<char>, Seq<char>)>, i: int)
    requires
        0 <= i < es.len(),
        forall|j: int| i < j < es.len() ==> (#[trigger] es[j]).0 != es[i].0,
    ensures
        store_all(es).contains_key(es[i].0),
        store_all(es)[es[i].0] == es[i].1,
    decreases es.len(),
{
    if i < es.len() - 1 {
        let init = es.drop_last();
        assert(es[es.len() - 1].0 != es[i].0);
        assert forall|j: int| i < j < init.len() implies (#[trigger] init[j]).0 != init[i].0 by {
            assert(init[j] == es[j]);
        }
        lemma_store_all_last(init, i);
    }
}

/// With distinct names the mapping holds as many names as there are
/// pairs.
pub proof fn lemma_store_all_len(es: Seq<(Seq<char>, Seq<char>)>)
    requires
        distinct_names(es),
    ensures
        store_all(es).dom().finite(),
        store_all(es).len() == es.len(),
    decreases es.len(),
{
    if es.len() > 0 {
        let init = es.drop_last();
        assert forall|i: int, j: int| 0 <= i < j < init.len() implies (#[trigger] init[i]).0 != (
        #[trigger] init[j]).0 by {
            assert(init[i] == es[i] && init[j] == es[j]);
        }
        lemma_store_all_len(init);
        lemma_store_all_names(init, es.last().0);
        if store_all(init).contains_key(es.last().0) {
            let i = choose|i: int| 0 <= i < init.len() && (#[trigger] init[i]).0 == es.last().0;
            assert(es[i].0 == es[es.len() - 1].0);
        }
    }
}

/// With distinct names, to replace the value of one pair is to store the
/// new value under its name.
pub proof fn lemma_store_all_replace(es: Seq<(Seq<char>, Seq<char>)>, i: int, value: Seq<char>)
    requires
        distinct_names(es),
        0 <= i < es.len(),
    ensures
        store_all(es.update(i, (es[i].0, value))) == store_all(es).insert(es[i].0, value),
    decreases es.len(),
{
    let after = es.update(i, (es[i].0, value));
    let init = es.drop_last();
    if i == es.len() - 1 {
        assert(after.drop_last() =~= init);
        assert(store_all(after) =~= store_all(es).insert(es[i].0, value));
    } else {
        assert forall|a: int, b: int| 0 <= a < b < init.len() implies (#[trigger] init[a]).0 != (
        #[trigger] init[b]).0 by {
            assert(init[a] == es[a] && init[b] == es[b]);
        }
        lemma_store_all_replace(init, i, value);
        assert(after.drop_last() =~= init.update(i, (init[i].0, value)));
        assert(es[i].0 != es[es.len() - 1].0);
        assert(store_all(after) =~= store_all(es).insert(es[i].0, value));
    }
}

/// Whether two pieces of text are the same.
pub fn same_text(a: &str, b: &str) -> (same: bool)
    ensures
        same == (a@ == b@),
{
    let x = a.as_bytes();
    let y = b.as_bytes();
    proof {
        encode_utf8_decode_utf8(a@);
        encode_utf8_decode_utf8(b@);
    }
    if x.len() != y.len() {
        return false;
    }
    let mut i: usize = 0;
    while i < x.len()
        invariant
            x@.len() == y@.len(),
            i <= x@.len(),
            forall|j: int| 0 <= j < i ==> x@[j] == y@[j],
            x@ == encode_utf8(a@),
            y@ == encode_utf8(b@),
            a@ == b@ ==> x@ == y@,
        decreases x.len() - i,
    {
        if x[i] != y[i] {
            return false;
        }
        i = i + 1;
    }
    assert(x@ =~= y@);
    true
}

/// The names and values of `entries` as plain text.
pub open spec fn pairs_of(entries: Seq<(String, String)>) -> Seq<(Seq<char>, Seq<char>)> {
    Seq::new(entries.len(), |i: int| (entries[i].0@, entries[i].1@))
}

/// The header fields of a request: a mapping from names to values. Names
/// are kept as they were written, so `Host` and `host` are two names.
#[derive(Debug)]
pub struct Headers {
    entries: Vec<(String, String)>,
}

impl View for Headers {
    type V = Map<Seq<char>, Seq<char>>;

    closed spec fn view(&self) -> Map<Seq<char>, Seq<char>> {
        store_all(self.pairs())
    }
}

impl Headers {
    /// The names and values as they are held.
    pub closed spec fn pairs(&self) -> Seq<(Seq<char>, Seq<char>)> {
        pairs_of(self.entries@)
    }

    #[verifier::type_invariant]
    spec fn valid(&self) -> bool {
        distinct_names(self.pairs())
    }

    /// No fields.
    pub fn new() -> (h: Headers)
        ensures
            h@ == Map::<Seq<char>, Seq<char>>::empty(),
    {
        let entries: Vec<(String, String)> = Vec::new();
        assert(pairs_of(entries@) =~= Seq::empty());
        Headers { entries }
    }

    /// The place at which `name` is held, if it is.
    fn position(&self, name: &str) -> (at: Option<usize>)
        ensures
            match at {
                Some(i) => i < self.pairs().len() && self.pairs()[i as int].0 == name@,
                None => forall|i: int| 0 <= i < self.pairs().len() ==> (#[trigger] self.pairs()[i]).0
                    != name@,
            },
    {
        let mut i: usize = 0;
        while i < self.entries.len()
            invariant
                i <= self.entries@.len(),
                forall|j: int| 0 <= j < i ==> (#[trigger] self.pairs()[j]).0 != name@,
            decreases self.entries@.len() - i,
        {
            if same_text(self.entries[i].0.as_str(), name) {
                return Some(i);
            }
            i = i + 1;
        }
        None
    }

    /// Stores `value` under `name`, in place of what was stored under it.
    pub fn insert(&mut self, name: String, value: String)
        ensures
            final(self)@ == old(self)@.insert(name@, value@),
    {
        proof {
            use_type_invariant(&*self);
        }
        let ghost before = self.pairs();
        let at = self.position(name.as_str());
        let mut entries: Vec<(String, String)> = Vec::new();
        std::mem::swap(&mut self.entries, &mut entries);
        match at {
            Some(i) => {
                entries.set(i, (name, value));
                proof {
                    assert(pairs_of(entries@) =~= before.update(
                        i as int,
                        (before[i as int].0, value@),
                    ));
                    lemma_store_all_replace(before, i as int, value@);
                }
            },
            None => {
                entries.push((name, value));
                proof {
                    assert(pairs_of(entries@) =~= before.push((name@, value@)));
                    assert(pairs_of(entries@).drop_last() =~= before);
                }
            },
        }
        self.entries = entries;
    }

    /// The value stored under `name`.
    pub fn get(&self, name: &str) -> (value: Option<&String>)
        ensures
            match value {
                Some(v) => self@.contains_key(name@) && self@[name@] == v@,
                None => !self@.contains_key(name@),
            },
    {
        proof {
            use_type_invariant(self);
            lemma_store_all_names(self.pairs(), name@);
        }
        match self.position(name) {
            Some(i) => {
                proof {
                    lemma_store_all_last(self.pairs(), i as int);
                }
                Some(&self.entries[i].1)
            },
            None => None,
        }
    }

    /// Whether a value is stored under `name`.
    pub fn contains_key(&self, name: &str) -> (held: bool)
        ensures
            held == self@.contains_key(name@),
    {
        self.get(name).is_some()
    }

    /// The number of names.
    pub fn len(&self) -> (n: usize)
        ensures
            self@.dom().finite(),
            n == self@.len(),
    {
        proof {
            use_type_invariant(self);
            lemma_store_all_len(self.pairs());
        }
        self.entries.len()
    }

    /// Whether there are no fields.
    pub fn is_empty(&self) -> (none: bool)
        ensures
            none == (self@ == Map::<Seq<char>, Seq<char>>::empty()),
    {
        proof {
            use_type_invariant(self);
            lemma_store_all_len(self.pairs());
            if self.entries@.len() == 0 {
                assert(self@ =~= Map::empty());
            }
        }
        self.entries.len() == 0
    }
}

impl PartialEq for Headers {
    /// Whether both hold the same values under the same names.
    fn eq(&self, other: &Headers) -> (same: bool) {
        proof {
            use_type_invariant(self);
            use_type_invariant(other);
            lemma_store_all_len(self.pairs());
            lemma_store_all_len(other.pairs());
        }
        if self.entries.len() != other.entries.len() {
            return false;
        }
        let mut i: usize = 0;
        while i < self.entries.len()
            invariant
                i <= self.entries@.len(),
                distinct_names(self.pairs()),
                forall|j: int|
                    0 <= j < i ==> other@.contains_key((#[trigger] self.pairs()[j]).0)
                        && other@[self.pairs()[j].0] == self.pairs()[j].1,
            decreases self.entries@.len() - i,
        {
            proof {
                lemma_store_all_last(self.pairs(), i as int);
            }
            match other.get(self.entries[i].0.as_str()) {
                Some(value) => {
                    if !same_text(value.as_str(), self.entries[i].1.as_str()) {
                        return false;
                    }
                },
                None => {
                    return false;
                },
            }
            i = i + 1;
        }
        proof {
            assert forall|name: Seq<char>| #[trigger]
                self@.dom().contains(name) implies other@.dom().contains(name) && other@[name]
                == self@[name] by {
                lemma_store_all_names(self.pairs(), name);
                let j = choose|j: int|
                    0 <= j < self.pairs().len() && (#[trigger] self.pairs()[j]).0 == name;
                lemma_store_all_last(self.pairs(), j);
            }
            assert(self@.dom().subset_of(other@.dom()));
            lemma_subset_equality(self@.dom(), other@.dom());
            assert(self@ =~= other@);
        }
        true
    }
}

impl Eq for Headers {

}

impl PartialEqSpecImpl for Headers {
    open spec fn obeys_eq_spec() -> bool {
        true
    }

    open spec fn eq_spec(&self, other: &Headers) -> bool {
        self@ == other@
    }
}

impl Clone for Headers {
    /// A copy with the same fields.
    fn clone(&self) -> (copy: Headers)
        ensures
            copy@ == self@,
    {
        proof {
            use_type_invariant(self);
        }
        let mut entries: Vec<(String, String)> = Vec::new();
        let mut i: usize = 0;
        while i < self.entries.len()
            invariant
                i <= self.entries@.len(),
                pairs_of(entries@) == pairs_of(self.entries@).take(i as int),
            decreases self.entries@.len() - i,
        {
            let name = self.entries[i].0.clone();
            let value = self.entries[i].1.clone();
            let ghost before = pairs_of(entries@);
            entries.push((name, value));
            assert(pairs_of(entries@) =~= before.push((name@, value@)));
            i = i + 1;
            assert(pairs_of(self.entries@)[i - 1] == (name@, value@));
            assert(pairs_of(entries@) =~= pairs_of(self.entries@).take(i as int));
        }
        assert(pairs_of(entries@) =~= pairs_of(self.entries@));
        Headers { entries }
    }
}

} // verus!
