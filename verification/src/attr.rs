//! Dynamically typed attribute values and the ordered attribute map.
//!
//! An attribute value is a JSON-like tree: number, string, bool, array or
//! map.  `Attrs` is a string-keyed map kept as a vector of pairs in
//! insertion order with unique keys; attribute keys must not contain `.`,
//! which is reserved for nested-path addressing by the encoding layer.

use vstd::prelude::*;

use crate::strings::str_eq;

verus! {

/// A dynamically typed scalar or structured value.  Numbers are whole
/// (64-bit signed).
#[derive(Debug, PartialEq)]
pub enum AttrValue {
    Num(i64),
    Str(String),
    Bool(bool),
    Arr(Vec<AttrValue>),
    Dict(Vec<(String, AttrValue)>),
}

/// The mathematical shape of an attribute value.
#[verifier::ext_equal]
pub ghost enum AttrValueV {
    Num(i64),
    Str(Seq<char>),
    Bool(bool),
    Arr(Seq<AttrValueV>),
    Dict(Seq<(Seq<char>, AttrValueV)>),
}

/// The shape of one attribute value.
pub open spec fn attr_val_view(v: AttrValue) -> AttrValueV
    decreases v,
{
    match v {
        AttrValue::Num(n) => AttrValueV::Num(n),
        AttrValue::Str(s) => AttrValueV::Str(s@),
        AttrValue::Bool(b) => AttrValueV::Bool(b),
        AttrValue::Arr(items) => AttrValueV::Arr(attr_items_view(items@)),
        AttrValue::Dict(entries) => AttrValueV::Dict(attr_entries_view(entries@)),
    }
}

/// The shapes of a sequence of values.
pub open spec fn attr_items_view(s: Seq<AttrValue>) -> Seq<AttrValueV>
    decreases s,
{
    if s.len() == 0 {
        Seq::empty()
    } else {
        seq![attr_val_view(s[0])] + attr_items_view(s.drop_first())
    }
}

/// The shapes of a sequence of keyed values.
pub open spec fn attr_entries_view(s: Seq<(String, AttrValue)>) -> Seq<(Seq<char>, AttrValueV)>
    decreases s,
{
    if s.len() == 0 {
        Seq::empty()
    } else {
        seq![(s[0].0@, attr_val_view(s[0].1))] + attr_entries_view(s.drop_first())
    }
}

pub broadcast proof fn lemma_attr_items_view(s: Seq<AttrValue>)
    ensures
        (#[trigger] attr_items_view(s)).len() == s.len(),
        forall|i: int| 0 <= i < s.len() ==> attr_items_view(s)[i] == attr_val_view(s[i]),
    decreases s,
{
    if s.len() > 0 {
        lemma_attr_items_view(s.drop_first());
    }
}

pub broadcast proof fn lemma_attr_entries_view(s: Seq<(String, AttrValue)>)
    ensures
        (#[trigger] attr_entries_view(s)).len() == s.len(),
        forall|i: int|
            0 <= i < s.len() ==> attr_entries_view(s)[i] == (s[i].0@, attr_val_view(s[i].1)),
    decreases s,
{
    if s.len() > 0 {
        lemma_attr_entries_view(s.drop_first());
    }
}

impl View for AttrValue {
    type V = AttrValueV;

    open spec fn view(&self) -> AttrValueV {
        attr_val_view(*self)
    }
}

/// A structural size measure, used to show termination of the executable
/// walks over attribute values.
pub open spec fn val_size(v: AttrValue) -> nat
    decreases v,
{
    match v {
        AttrValue::Num(_) => 1,
        AttrValue::Str(_) => 1,
        AttrValue::Bool(_) => 1,
        AttrValue::Arr(items) => 1 + items_size(items@),
        AttrValue::Dict(entries) => 1 + entries_size(entries@),
    }
}

pub open spec fn items_size(s: Seq<AttrValue>) -> nat
    decreases s,
{
    if s.len() == 0 {
        0
    } else {
        val_size(s[0]) + items_size(s.drop_first())
    }
}

pub open spec fn entries_size(s: Seq<(String, AttrValue)>) -> nat
    decreases s,
{
    if s.len() == 0 {
        0
    } else {
        val_size(s[0].1) + entries_size(s.drop_first())
    }
}

pub proof fn lemma_items_size_bound_pub(s: Seq<AttrValue>, i: int)
    requires
        0 <= i < s.len(),
    ensures
        val_size(s[i]) <= items_size(s),
    decreases s.len(),
{
    if i > 0 {
        lemma_items_size_bound_pub(s.drop_first(), i - 1);
    }
}

pub proof fn lemma_entries_size_bound_pub(s: Seq<(String, AttrValue)>, i: int)
    requires
        0 <= i < s.len(),
    ensures
        val_size(s[i].1) <= entries_size(s),
    decreases s.len(),
{
    if i > 0 {
        lemma_entries_size_bound_pub(s.drop_first(), i - 1);
    }
}

impl AttrValue {
    /// A value equal to this one (a verified deep copy).
    pub fn duplicate(&self) -> (r: AttrValue)
        ensures
            r@ == self@,
        decreases val_size(*self),
    {
        match self {
            AttrValue::Num(n) => AttrValue::Num(*n),
            AttrValue::Str(s) => AttrValue::Str(s.clone()),
            AttrValue::Bool(b) => AttrValue::Bool(*b),
            AttrValue::Arr(items) => {
                let n = items.len();
                let mut out: Vec<AttrValue> = Vec::new();
                let mut i: usize = 0;
                while i < n
                    invariant
                        *self == AttrValue::Arr(*items),
                        0 <= i <= n,
                        n == items@.len(),
                        out@.len() == i,
                        forall|j: int| 0 <= j < i ==> out@[j]@ == items@[j]@,
                    decreases n - i,
                {
                    proof {
                        lemma_items_size_bound_pub(items@, i as int);
                    }
                    out.push(items[i].duplicate());
                    i = i + 1;
                }
                let r = AttrValue::Arr(out);
                proof {
                    broadcast use lemma_attr_items_view;

                    assert(attr_items_view(out@) =~= attr_items_view(items@));
                }
                r
            },
            AttrValue::Dict(entries) => {
                let n = entries.len();
                let mut out: Vec<(String, AttrValue)> = Vec::new();
                let mut i: usize = 0;
                while i < n
                    invariant
                        *self == AttrValue::Dict(*entries),
                        0 <= i <= n,
                        n == entries@.len(),
                        out@.len() == i,
                        forall|j: int| 0 <= j < i ==> out@[j].0@ == entries@[j].0@ && out@[j].1@
                            == entries@[j].1@,
                    decreases n - i,
                {
                    proof {
                        lemma_entries_size_bound_pub(entries@, i as int);
                    }
                    out.push((entries[i].0.clone(), entries[i].1.duplicate()));
                    i = i + 1;
                }
                let r = AttrValue::Dict(out);
                proof {
                    broadcast use lemma_attr_entries_view;

                    assert(attr_entries_view(out@) =~= attr_entries_view(entries@));
                }
                r
            },
        }
    }
}

/// The view of an attribute map: its pairs, in insertion order.
pub type AttrsV = Seq<(Seq<char>, AttrValueV)>;

/// An ordered string-keyed attribute map with unique keys.
#[derive(Debug, PartialEq)]
pub struct Attrs {
    pub entries: Vec<(String, AttrValue)>,
}

impl View for Attrs {
    type V = AttrsV;

    open spec fn view(&self) -> AttrsV {
        Seq::new(self.entries@.len(), |i: int| (self.entries@[i].0@, self.entries@[i].1@))
    }
}

/// Unique keys: no two pairs share a key.
pub open spec fn attrs_wf(a: AttrsV) -> bool {
    forall|i: int, j: int| 0 <= i < j < a.len() ==> a[i].0 != a[j].0
}

/// The value stored under `k`, by first (and with unique keys, only) match.
pub open spec fn attrs_lookup(a: AttrsV, k: Seq<char>) -> Option<AttrValueV>
    decreases a.len(),
{
    if a.len() == 0 {
        None
    } else if a[0].0 == k {
        Some(a[0].1)
    } else {
        attrs_lookup(a.drop_first(), k)
    }
}

/// Whether some pair of `a` has the key `k`.
pub open spec fn attrs_has_key(a: AttrsV, k: Seq<char>) -> bool {
    exists|i: int| 0 <= i < a.len() && a[i].0 == k
}

/// The index of the pair keyed `k` (meaningful under `attrs_wf` when
/// `attrs_has_key` holds).
pub open spec fn attrs_index_of(a: AttrsV, k: Seq<char>) -> int {
    choose|i: int| 0 <= i < a.len() && a[i].0 == k
}

pub proof fn lemma_lookup_some_iff_has_key(a: AttrsV, k: Seq<char>)
    ensures
        attrs_lookup(a, k) is Some <==> attrs_has_key(a, k),
    decreases a.len(),
{
    if a.len() > 0 {
        lemma_lookup_some_iff_has_key(a.drop_first(), k);
        if a[0].0 != k && attrs_has_key(a, k) {
            let i = choose|i: int| 0 <= i < a.len() && a[i].0 == k;
            assert(a.drop_first()[i - 1].0 == k);
        }
    }
}

/// With unique keys, a match at index `i` is what `attrs_lookup` returns.
pub proof fn lemma_lookup_at_index(a: AttrsV, k: Seq<char>, i: int)
    requires
        attrs_wf(a),
        0 <= i < a.len(),
        a[i].0 == k,
    ensures
        attrs_lookup(a, k) == Some(a[i].1),
        attrs_index_of(a, k) == i,
        attrs_has_key(a, k),
    decreases a.len(),
{
    if i > 0 {
        assert(attrs_wf(a.drop_first()));
        lemma_lookup_at_index(a.drop_first(), k, i - 1);
    }
    let c = attrs_index_of(a, k);
    assert(0 <= c < a.len() && a[c].0 == k);
    assert(c == i);
}


/// Lookup after replacing the pair at `i` (whose key is `k`): the new
/// value under `k`, everything else unchanged.
pub proof fn lemma_lookup_update(a: AttrsV, i: int, k: Seq<char>, v: AttrValueV, k2: Seq<char>)
    requires
        attrs_wf(a),
        0 <= i < a.len(),
        a[i].0 == k,
    ensures
        attrs_lookup(a.update(i, (k, v)), k2) == (if k2 == k {
            Some(v)
        } else {
            attrs_lookup(a, k2)
        }),
    decreases a.len(),
{
    let b = a.update(i, (k, v));
    if i == 0 {
        assert(b[0] == (k, v));
        assert(b.drop_first() =~= a.drop_first());
    } else {
        assert(b[0] == a[0]);
        assert(a[0].0 != k);
        assert(b.drop_first() =~= a.drop_first().update(i - 1, (k, v)));
        assert(attrs_wf(a.drop_first()));
        lemma_lookup_update(a.drop_first(), i - 1, k, v, k2);
    }
}

/// Lookup after appending a pair with a fresh key: the new value under
/// that key, everything else unchanged.
pub proof fn lemma_lookup_push(a: AttrsV, k: Seq<char>, v: AttrValueV, k2: Seq<char>)
    requires
        !attrs_has_key(a, k),
    ensures
        attrs_lookup(a.push((k, v)), k2) == (if k2 == k {
            Some(v)
        } else {
            attrs_lookup(a, k2)
        }),
    decreases a.len(),
{
    let b = a.push((k, v));
    if a.len() == 0 {
        assert(b[0] == (k, v));
        assert(b.drop_first() =~= Seq::<(Seq<char>, AttrValueV)>::empty());
    } else {
        assert(b[0] == a[0]);
        assert(a[0].0 != k);
        assert(b.drop_first() =~= a.drop_first().push((k, v)));
        assert(!attrs_has_key(a.drop_first(), k)) by {
            if attrs_has_key(a.drop_first(), k) {
                let j = choose|j: int| 0 <= j < a.drop_first().len() && a.drop_first()[j].0 == k;
                assert(a[j + 1].0 == k);
            }
        }
        lemma_lookup_push(a.drop_first(), k, v, k2);
    }
}

/// Lookup after removing the pair at `i`: nothing under its key,
/// everything else unchanged.
pub proof fn lemma_lookup_remove(a: AttrsV, i: int, k2: Seq<char>)
    requires
        attrs_wf(a),
        0 <= i < a.len(),
    ensures
        attrs_lookup(a.remove(i), k2) == (if k2 == a[i].0 {
            None::<AttrValueV>
        } else {
            attrs_lookup(a, k2)
        }),
    decreases a.len(),
{
    let b = a.remove(i);
    if i == 0 {
        assert(b =~= a.drop_first());
        if k2 == a[0].0 {
            lemma_lookup_some_iff_has_key(a.drop_first(), k2);
            assert(!attrs_has_key(a.drop_first(), k2)) by {
                if attrs_has_key(a.drop_first(), k2) {
                    let j = choose|j: int|
                        0 <= j < a.drop_first().len() && a.drop_first()[j].0 == k2;
                    assert(a[j + 1].0 == k2);
                    assert(a[0].0 == a[j + 1].0);
                }
            }
        }
    } else {
        assert(b[0] == a[0]);
        assert(b.drop_first() =~= a.drop_first().remove(i - 1));
        assert(attrs_wf(a.drop_first()));
        lemma_lookup_remove(a.drop_first(), i - 1, k2);
        assert(a.drop_first()[i - 1] == a[i]);
        if a[0].0 == k2 {
        }
    }
}

impl Attrs {
    pub fn new() -> (r: Attrs)
        ensures
            r@ == Seq::<(Seq<char>, AttrValueV)>::empty(),
    {
        let r = Attrs { entries: Vec::new() };
        proof {
            assert(r@ =~= Seq::<(Seq<char>, AttrValueV)>::empty());
        }
        r
    }

    pub fn len(&self) -> (r: usize)
        ensures
            r == self@.len(),
    {
        self.entries.len()
    }

    /// A map equal to this one (a verified deep copy).
    pub fn duplicate(&self) -> (r: Attrs)
        ensures
            r@ == self@,
    {
        let n = self.entries.len();
        let mut out: Vec<(String, AttrValue)> = Vec::new();
        let mut i: usize = 0;
        while i < n
            invariant
                0 <= i <= n,
                n == self.entries@.len(),
                out@.len() == i,
                forall|j: int| 0 <= j < i ==> out@[j].0@ == self.entries@[j].0@ && out@[j].1@
                    == self.entries@[j].1@,
            decreases n - i,
        {
            out.push((self.entries[i].0.clone(), self.entries[i].1.duplicate()));
            i = i + 1;
        }
        let r = Attrs { entries: out };
        proof {
            assert(r@ =~= self@);
        }
        r
    }

    /// Whether all keys are distinct.
    pub fn keys_unique(&self) -> (r: bool)
        ensures
            r == attrs_wf(self@),
    {
        let n = self.entries.len();
        let mut i: usize = 0;
        while i < n
            invariant
                0 <= i <= n,
                n == self@.len(),
                forall|a: int, b: int| 0 <= a < b < self@.len() && a < i ==> self@[a].0 != self@[b].0,
            decreases n - i,
        {
            let mut j: usize = i + 1;
            while j < n
                invariant
                    i < j <= n,
                    i < n,
                    n == self@.len(),
                    forall|b: int| i < b < j ==> self@[i as int].0 != self@[b].0,
                decreases n - j,
            {
                if str_eq(self.entries[i].0.as_str(), self.entries[j].0.as_str()) {
                    proof {
                        assert(self@[i as int].0 == self@[j as int].0);
                        assert(!attrs_wf(self@));
                    }
                    return false;
                }
                j = j + 1;
            }
            i = i + 1;
        }
        true
    }

    /// The position of the pair keyed `k`, if any.
    fn position(&self, k: &str) -> (r: Option<usize>)
        ensures
            r matches Some(i) ==> i < self@.len() && self@[i as int].0 == k@,
            r is None ==> !attrs_has_key(self@, k@),
    {
        let n = self.entries.len();
        let mut i: usize = 0;
        while i < n
            invariant
                0 <= i <= n,
                n == self@.len(),
                forall|j: int| 0 <= j < i ==> self@[j].0 != k@,
            decreases n - i,
        {
            if str_eq(self.entries[i].0.as_str(), k) {
                return Some(i);
            }
            i = i + 1;
        }
        None
    }

    pub fn contains_key(&self, k: &str) -> (r: bool)
        ensures
            r == attrs_has_key(self@, k@),
    {
        match self.position(k) {
            Some(_) => true,
            None => false,
        }
    }

    /// The value under `k`, if any.
    pub fn get(&self, k: &str) -> (r: Option<&AttrValue>)
        requires
            attrs_wf(self@),
        ensures
            match r {
                Some(v) => attrs_lookup(self@, k@) == Some(v@),
                None => attrs_lookup(self@, k@) is None,
            },
    {
        proof {
            lemma_lookup_some_iff_has_key(self@, k@);
        }
        match self.position(k) {
            Some(i) => {
                proof {
                    lemma_lookup_at_index(self@, k@, i as int);
                }
                Some(&self.entries[i].1)
            },
            None => None,
        }
    }

    /// Insert or replace; returns the previous value under `k`, if any.
    pub fn insert(&mut self, k: String, v: AttrValue) -> (r: Option<AttrValue>)
        requires
            attrs_wf(old(self)@),
        ensures
            attrs_wf(final(self)@),
            attrs_has_key(old(self)@, k@) ==> (r matches Some(prev) && attrs_lookup(
                old(self)@,
                k@,
            ) == Some(prev@) && final(self)@ =~= old(self)@.update(
                attrs_index_of(old(self)@, k@),
                (k@, v@),
            )),
            !attrs_has_key(old(self)@, k@) ==> r is None && final(self)@ =~= old(self)@.push(
                (k@, v@),
            ),
            attrs_lookup(final(self)@, k@) == Some(v@),
            forall|k2: Seq<char>|
                k2 != k@ ==> attrs_lookup(final(self)@, k2) == attrs_lookup(old(self)@, k2),
            match r {
                Some(prev) => attrs_lookup(old(self)@, k@) == Some(prev@),
                None => attrs_lookup(old(self)@, k@) is None,
            },
    {
        proof {
            lemma_lookup_some_iff_has_key(self@, k@);
        }
        match self.position(k.as_str()) {
            Some(i) => {
                proof {
                    lemma_lookup_at_index(self@, k@, i as int);
                }
                let prev = self.entries.remove(i);
                self.entries.insert(i, (k, v));
                proof {
                    assert(final(self)@ =~= old(self)@.update(i as int, (k@, v@)));
                    assert(forall|x: int|
                        0 <= x < final(self)@.len() ==> final(self)@[x].0 == old(self)@[x].0);
                    assert(attrs_wf(final(self)@));
                    assert forall|k2: Seq<char>| true implies attrs_lookup(final(self)@, k2) == (
                    if k2 == k@ {
                        Some(v@)
                    } else {
                        attrs_lookup(old(self)@, k2)
                    }) by {
                        lemma_lookup_update(old(self)@, i as int, k@, v@, k2);
                    }
                }
                Some(prev.1)
            },
            None => {
                self.entries.push((k, v));
                proof {
                    assert(final(self)@ =~= old(self)@.push((k@, v@)));
                    assert(attrs_wf(final(self)@));
                    assert forall|k2: Seq<char>| true implies attrs_lookup(final(self)@, k2) == (
                    if k2 == k@ {
                        Some(v@)
                    } else {
                        attrs_lookup(old(self)@, k2)
                    }) by {
                        lemma_lookup_push(old(self)@, k@, v@, k2);
                    }
                }
                None
            },
        }
    }

    /// Remove the pair keyed `k`; returns its value, if any.
    pub fn remove(&mut self, k: &str) -> (r: Option<AttrValue>)
        requires
            attrs_wf(old(self)@),
        ensures
            attrs_wf(final(self)@),
            attrs_has_key(old(self)@, k@) ==> (r matches Some(prev) && attrs_lookup(
                old(self)@,
                k@,
            ) == Some(prev@) && final(self)@ =~= old(self)@.remove(
                attrs_index_of(old(self)@, k@),
            )),
            !attrs_has_key(old(self)@, k@) ==> r is None && *final(self) == *old(self),
            attrs_lookup(final(self)@, k@) is None,
            forall|k2: Seq<char>|
                k2 != k@ ==> attrs_lookup(final(self)@, k2) == attrs_lookup(old(self)@, k2),
            match r {
                Some(prev) => attrs_lookup(old(self)@, k@) == Some(prev@),
                None => attrs_lookup(old(self)@, k@) is None,
            },
    {
        proof {
            lemma_lookup_some_iff_has_key(self@, k@);
        }
        match self.position(k) {
            Some(i) => {
                proof {
                    lemma_lookup_at_index(self@, k@, i as int);
                }
                let prev = self.entries.remove(i);
                proof {
                    assert(final(self)@ =~= old(self)@.remove(i as int));
                    assert(attrs_wf(final(self)@));
                    assert forall|k2: Seq<char>| true implies attrs_lookup(final(self)@, k2) == (
                    if k2 == k@ {
                        None::<AttrValueV>
                    } else {
                        attrs_lookup(old(self)@, k2)
                    }) by {
                        lemma_lookup_remove(old(self)@, i as int, k2);
                    }
                }
                Some(prev.1)
            },
            None => None,
        }
    }
}

} // verus!
