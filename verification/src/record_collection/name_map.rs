//! A map from names to values that keeps its names in the order of their
//! UTF-8 bytes, which is the order of `String`.
//!
//! The maps of std cannot be reasoned about with `String` keys: vstd states
//! what `HashMap` and `BTreeMap` do only for key types whose hashing and
//! ordering it knows to be lawful (`obeys_key_model`, `obeys_cmp`), and it
//! knows that of the integers, not of `String`. This map compares names
//! byte by byte in verified code instead.

use vstd::prelude::*;
use vstd::utf8::encode_utf8;

verus! {

/// Whether `a` comes strictly before `b` in lexicographic byte order.
pub open spec fn lex_lt(a: Seq<u8>, b: Seq<u8>) -> bool
    decreases a.len(),
{
    if b.len() == 0 {
        false
    } else if a.len() == 0 {
        true
    } else if a[0] != b[0] {
        a[0] < b[0]
    } else {
        lex_lt(a.drop_first(), b.drop_first())
    }
}

/// Whether the name `a` comes strictly before the name `b`.
pub open spec fn name_lt(a: Seq<char>, b: Seq<char>) -> bool {
    lex_lt(encode_utf8(a), encode_utf8(b))
}

/// Whether each name of `names` comes strictly before the next.
pub open spec fn sorted(names: Seq<Seq<char>>) -> bool {
    forall|i: int, j: int| 0 <= i < j < names.len() ==> name_lt(#[trigger] names[i], #[trigger] names[j])
}

/// Of two different byte strings exactly one comes before the other, and no
/// byte string comes before itself.
pub proof fn lemma_lex_total(a: Seq<u8>, b: Seq<u8>)
    ensures
        a == b ==> !lex_lt(a, b) && !lex_lt(b, a),
        a != b ==> (lex_lt(a, b) <==> !lex_lt(b, a)),
    decreases a.len(),
{
    if a.len() == 0 || b.len() == 0 {
        if a.len() == 0 && b.len() == 0 {
            assert(a =~= b);
        }
    } else if a[0] != b[0] {
    } else {
        lemma_lex_total(a.drop_first(), b.drop_first());
        if a.drop_first() == b.drop_first() {
            assert(a =~= seq![a[0]] + a.drop_first());
            assert(b =~= seq![b[0]] + b.drop_first());
        }
    }
}

/// The byte order is transitive.
pub proof fn lemma_lex_trans(a: Seq<u8>, b: Seq<u8>, c: Seq<u8>)
    requires
        lex_lt(a, b),
        lex_lt(b, c),
    ensures
        lex_lt(a, c),
    decreases a.len(),
{
    if a.len() > 0 && a[0] == b[0] && b[0] == c[0] {
        lemma_lex_trans(a.drop_first(), b.drop_first(), c.drop_first());
    }
}

/// Of two different names exactly one comes before the other, and no name
/// comes before itself.
pub proof fn lemma_name_total(a: Seq<char>, b: Seq<char>)
    ensures
        a == b ==> !name_lt(a, b) && !name_lt(b, a),
        a != b ==> (name_lt(a, b) <==> !name_lt(b, a)),
{
    vstd::utf8::encode_utf8_decode_utf8(a);
    vstd::utf8::encode_utf8_decode_utf8(b);
    lemma_lex_total(encode_utf8(a), encode_utf8(b));
}

/// The order of names is transitive.
pub proof fn lemma_name_trans(a: Seq<char>, b: Seq<char>, c: Seq<char>)
    requires
        name_lt(a, b),
        name_lt(b, c),
    ensures
        name_lt(a, c),
{
    lemma_lex_trans(encode_utf8(a), encode_utf8(b), encode_utf8(c));
}

/// How one name stands to another in the order of names.
#[derive(Clone, Copy, Debug, PartialEq, Eq, Structural)]
pub enum Rank {
    Before,
    Same,
    After,
}

/// How `a` stands to `b`.
pub open spec fn spec_rank(a: Seq<char>, b: Seq<char>) -> Rank {
    if a == b {
        Rank::Same
    } else if name_lt(a, b) {
        Rank::Before
    } else {
        Rank::After
    }
}

/// Compares two names byte by byte.
pub fn rank_names(a: &str, b: &str) -> (r: Rank)
    ensures
        r == spec_rank(a@, b@),
{
    let x = a.as_bytes();
    let y = b.as_bytes();
    proof {
        lemma_name_total(a@, b@);
        vstd::utf8::encode_utf8_decode_utf8(a@);
        vstd::utf8::encode_utf8_decode_utf8(b@);
        assert(x@.skip(0) =~= x@);
        assert(y@.skip(0) =~= y@);
    }
    let mut i: usize = 0;
    while i < x.len() && i < y.len()
        invariant
            i <= x.len(),
            i <= y.len(),
            x@ == encode_utf8(a@),
            y@ == encode_utf8(b@),
            a@ == b@ ==> !name_lt(a@, b@) && !name_lt(b@, a@),
            a@ != b@ ==> (name_lt(a@, b@) <==> !name_lt(b@, a@)),
            x@.take(i as int) == y@.take(i as int),
            lex_lt(x@, y@) == lex_lt(x@.skip(i as int), y@.skip(i as int)),
            lex_lt(y@, x@) == lex_lt(y@.skip(i as int), x@.skip(i as int)),
        decreases x.len() - i,
    {
        let ghost xs = x@.skip(i as int);
        let ghost ys = y@.skip(i as int);
        assert(xs.drop_first() =~= x@.skip(i + 1));
        assert(ys.drop_first() =~= y@.skip(i + 1));
        assert(xs[0] == x@[i as int] && ys[0] == y@[i as int]);
        if x[i] < y[i] {
            return Rank::Before;
        }
        if y[i] < x[i] {
            return Rank::After;
        }
        assert(x@.take(i + 1) =~= x@.take(i as int).push(x@[i as int]));
        assert(y@.take(i + 1) =~= y@.take(i as int).push(y@[i as int]));
        i += 1;
    }
    if i < y.len() {
        Rank::Before
    } else if i < x.len() {
        Rank::After
    } else {
        assert(x@ =~= x@.take(i as int));
        assert(y@ =~= y@.take(i as int));
        Rank::Same
    }
}

/// One name with its value.
#[derive(Debug)]
pub struct Entry<V> {
    name: String,
    value: V,
}

/// A map from names to values, held as a list in the order of the names.
#[derive(Debug)]
pub struct NameMap<V> {
    entries: Vec<Entry<V>>,
}

/// In a sorted list of names no name occurs twice.
pub proof fn lemma_sorted_unique(names: Seq<Seq<char>>, i: int, j: int)
    requires
        sorted(names),
        0 <= i < names.len(),
        0 <= j < names.len(),
        names[i] == names[j],
    ensures
        i == j,
{
    lemma_name_total(names[i], names[j]);
}

impl<V> NameMap<V> {
    /// The names of the map in their order.
    pub closed spec fn names(&self) -> Seq<Seq<char>> {
        Seq::new(self.entries@.len(), |i: int| self.entries@[i].name@)
    }

    /// The values of the map, each at the place of its name.
    pub closed spec fn values(&self) -> Seq<V> {
        Seq::new(self.entries@.len(), |i: int| self.entries@[i].value)
    }

    /// The list is in strict order, so that no name occurs twice.
    pub open spec fn wf(&self) -> bool {
        &&& self.names().len() == self.values().len()
        &&& sorted(self.names())
    }

    /// The place of `name` in the list, where it has one.
    pub open spec fn spec_position(&self, name: Seq<char>) -> Option<int> {
        if self.names().contains(name) {
            Some(self.names().index_of(name))
        } else {
            None
        }
    }

    /// A name is at the place that `spec_position` gives, and at no other.
    pub proof fn lemma_position(&self, i: int)
        requires
            self.wf(),
            0 <= i < self.names().len(),
        ensures
            self.spec_position(self.names()[i]) == Some(i),
            self@.contains_key(self.names()[i]),
            self@[self.names()[i]] == self.values()[i],
    {
        let names = self.names();
        assert(names.contains(names[i]));
        lemma_sorted_unique(names, i, names.index_of(names[i]));
    }

    /// Changing the value at one place changes the map at the name of that place.
    pub proof fn lemma_value_changed(before: Self, after: Self, i: int)
        requires
            before.wf(),
            0 <= i < before.names().len(),
            after.names() == before.names(),
            after.values() == before.values().update(i, after.values()[i]),
        ensures
            after.wf(),
            after@ == before@.insert(before.names()[i], after.values()[i]),
    {
        let names = before.names();
        assert(after.wf());
        before.lemma_position(i);
        assert forall|k: Seq<char>| #[trigger] after@.contains_key(k) implies after@[k]
            == before@.insert(names[i], after.values()[i])[k] by {
            let j = names.index_of(k);
            before.lemma_position(j);
            after.lemma_position(j);
            if j == i {
                assert(k == names[i]);
            } else {
                assert(k != names[i]) by {
                    if k == names[i] {
                        lemma_sorted_unique(names, i, j);
                    }
                }
                assert(after.values()[j] == before.values()[j]);
            }
        }
        assert(after@ =~= before@.insert(names[i], after.values()[i]));
    }

    /// An empty map.
    pub fn new() -> (r: Self)
        ensures
            r.wf(),
            r.names() == Seq::<Seq<char>>::empty(),
            r@ == Map::<Seq<char>, V>::empty(),
    {
        let r = NameMap { entries: Vec::new() };
        assert(r.names() =~= Seq::<Seq<char>>::empty());
        assert(r@ =~= Map::<Seq<char>, V>::empty());
        r
    }

    /// The number of names.
    pub fn len(&self) -> (r: usize)
        ensures
            r == self.names().len(),
    {
        self.entries.len()
    }

    /// The names of the map, in their order.
    pub fn keys(&self) -> (r: Vec<String>)
        ensures
            r.deep_view() == self.names(),
    {
        let mut names: Vec<String> = Vec::new();
        let mut i: usize = 0;
        while i < self.entries.len()
            invariant
                i <= self.entries@.len(),
                names@.len() == i,
                forall|k: int| 0 <= k < i ==> (#[trigger] names@[k])@ == self.entries@[k].name@,
            decreases self.entries@.len() - i,
        {
            names.push(self.entries[i].name.clone());
            i += 1;
        }
        assert(names.deep_view() =~= self.names());
        names
    }

    /// The name at place `i`.
    pub fn name_at(&self, i: usize) -> (r: &str)
        requires
            i < self.names().len(),
        ensures
            r@ == self.names()[i as int],
    {
        self.entries[i].name.as_str()
    }

    /// The value at place `i`.
    pub fn value_at(&self, i: usize) -> (r: &V)
        requires
            i < self.names().len(),
        ensures
            *r == self.values()[i as int],
    {
        &self.entries[i].value
    }

    /// The value at place `i`, to be changed in place.
    pub fn value_at_mut(&mut self, i: usize) -> (r: &mut V)
        requires
            i < old(self).names().len(),
        ensures
            *r == old(self).values()[i as int],
            final(self).names() == old(self).names(),
            final(self).values() == old(self).values().update(i as int, *final(r)),
    {
        &mut self.entries[i].value
    }
}

impl<V> NameMap<V> {
    /// Whether `name` belongs at place `at`: every name before that place comes
    /// before it, and it comes before every name from that place on.
    pub open spec fn fits_at(&self, name: Seq<char>, at: int) -> bool {
        &&& 0 <= at <= self.names().len()
        &&& forall|j: int| 0 <= j < at ==> name_lt(#[trigger] self.names()[j], name)
        &&& forall|j: int| at <= j < self.names().len() ==> name_lt(name, #[trigger] self.names()[j])
    }

    /// A name that fits between two places of the list is not in the list.
    pub proof fn lemma_fits_absent(&self, name: Seq<char>, at: int)
        requires
            self.fits_at(name, at),
        ensures
            !self.names().contains(name),
            !self@.contains_key(name),
    {
        let names = self.names();
        if names.contains(name) {
            let j = names.index_of(name);
            lemma_name_total(names[j], name);
        }
    }

    /// Looks `name` up by bisection.
    ///
    /// Returns `Ok` with the place of the name, or `Err` with the place where
    /// it would have to be inserted.
    pub fn search(&self, name: &str) -> (r: Result<usize, usize>)
        requires
            self.wf(),
        ensures
            match r {
                Ok(i) => self.spec_position(name@) == Some(i as int),
                Err(i) => self.spec_position(name@) is None && self.fits_at(name@, i as int),
            },
    {
        let mut lo: usize = 0;
        let mut hi: usize = self.entries.len();
        while lo < hi
            invariant
                self.wf(),
                0 <= lo <= hi <= self.names().len(),
                self.names().len() == self.entries@.len(),
                forall|j: int| 0 <= j < lo ==> name_lt(#[trigger] self.names()[j], name@),
                forall|j: int| hi <= j < self.names().len() ==> name_lt(name@, #[trigger] self.names()[j]),
            decreases hi - lo,
        {
            let mid = lo + (hi - lo) / 2;
            let ghost at = self.names()[mid as int];
            match rank_names(self.entries[mid].name.as_str(), name) {
                Rank::Same => {
                    proof {
                        self.lemma_position(mid as int);
                    }
                    return Ok(mid);
                },
                Rank::Before => {
                    assert forall|j: int| 0 <= j < mid + 1 implies name_lt(
                        #[trigger] self.names()[j],
                        name@,
                    ) by {
                        if j < mid {
                            lemma_name_trans(self.names()[j], at, name@);
                        }
                    }
                    lo = mid + 1;
                },
                Rank::After => {
                    proof {
                        lemma_name_total(at, name@);
                    }
                    assert forall|j: int| mid <= j < self.names().len() implies name_lt(
                        name@,
                        #[trigger] self.names()[j],
                    ) by {
                        if mid < j {
                            lemma_name_trans(name@, at, self.names()[j]);
                        }
                    }
                    hi = mid;
                },
            }
        }
        proof {
            self.lemma_fits_absent(name@, lo as int);
        }
        Err(lo)
    }

    /// The value of `name`, where the map has it.
    pub fn get(&self, name: &str) -> (r: Option<&V>)
        requires
            self.wf(),
        ensures
            match r {
                Some(v) => self@.contains_key(name@) && *v == self@[name@],
                None => !self@.contains_key(name@),
            },
    {
        match self.search(name) {
            Ok(i) => {
                proof {
                    self.lemma_position(i as int);
                }
                Some(&self.entries[i].value)
            },
            Err(_) => None,
        }
    }

    /// Puts `name` with `value` at place `at`, where the name fits.
    pub fn insert_at(&mut self, at: usize, name: String, value: V)
        requires
            old(self).wf(),
            old(self).fits_at(name@, at as int),
        ensures
            final(self).wf(),
            final(self).names() == old(self).names().insert(at as int, name@),
            final(self).values() == old(self).values().insert(at as int, value),
            final(self)@ == old(self)@.insert(name@, value),
    {
        let ghost before = *self;
        let ghost key = name@;
        self.entries.insert(at, Entry { name, value });
        proof {
            let names = self.names();
            let values = self.values();
            let old_names = before.names();
            let old_values = before.values();
            assert(names =~= old_names.insert(at as int, key));
            assert(values =~= old_values.insert(at as int, value));
            assert forall|i: int, j: int| 0 <= i < j < names.len() implies name_lt(
                #[trigger] names[i],
                #[trigger] names[j],
            ) by {
                let oi = if i < at { i } else { i - 1 };
                let oj = if j < at { j } else { j - 1 };
                if i == at {
                    assert(names[j] == old_names[oj]);
                } else if j == at {
                    assert(names[i] == old_names[oi]);
                } else {
                    assert(names[i] == old_names[oi]);
                    assert(names[j] == old_names[oj]);
                }
            }
            before.lemma_fits_absent(key, at as int);
            assert(names[at as int] == key);
            assert forall|k: Seq<char>| #[trigger] self@.contains_key(k) <==> before@.insert(
                key,
                value,
            ).contains_key(k) by {
                if names.contains(k) {
                    let j = names.index_of(k);
                    if j != at {
                        let oj = if j < at { j } else { j - 1 };
                        assert(old_names[oj] == k);
                    }
                }
                if old_names.contains(k) {
                    let oj = old_names.index_of(k);
                    let j = if oj < at { oj } else { oj + 1 };
                    assert(names[j] == k);
                }
            }
            assert forall|k: Seq<char>| #[trigger] self@.contains_key(k) implies self@[k]
                == before@.insert(key, value)[k] by {
                let j = names.index_of(k);
                self.lemma_position(j);
                if j != at {
                    let oj = if j < at { j } else { j - 1 };
                    assert(old_names[oj] == k);
                    before.lemma_position(oj);
                }
            }
            assert(self@ =~= before@.insert(key, value));
        }
    }

    /// Adds `name` with `value`, unless the map has the name already.
    ///
    /// Returns whether the pair was added. A map that has the name stays as it is.
    pub fn insert(&mut self, name: String, value: V) -> (r: bool)
        requires
            old(self).wf(),
        ensures
            final(self).wf(),
            r == !old(self)@.contains_key(name@),
            r ==> final(self)@ == old(self)@.insert(name@, value),
            !r ==> final(self).names() == old(self).names() && final(self).values() == old(
                self,
            ).values(),
    {
        match self.search(name.as_str()) {
            Ok(_) => false,
            Err(at) => {
                self.insert_at(at, name, value);
                true
            },
        }
    }
}

impl<V> View for NameMap<V> {
    type V = Map<Seq<char>, V>;

    /// The map proper: each name of the list with the value at its place.
    open spec fn view(&self) -> Map<Seq<char>, V> {
        Map::new(
            |name: Seq<char>| self.names().contains(name),
            |name: Seq<char>| self.values()[self.names().index_of(name)],
        )
    }
}

} // verus!
