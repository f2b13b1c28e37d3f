//! The dynamically typed values that facts, rule literals and outputs hold.

use vstd::prelude::*;
use vstd::set_lib::lemma_subset_equality;
use vstd::std_specs::cmp::PartialEqSpecImpl;

use crate::binary64;

verus! {

/// A dynamically typed value.
#[derive(Debug)]
pub enum Value {
    String(String),
    Int(i64),
    /// An IEEE 754 binary64 number, held as its bit pattern.
    Float(u64),
    Bool(bool),
    List(Vec<Value>),
    Mapping(ValueMap),
    Null,
}

/// A mapping from names to values, in which no name occurs twice.
#[derive(Debug)]
pub struct ValueMap {
    entries: Vec<(String, Value)>,
}

/// What a [`Value`] is: strings as sequences of characters, integers
/// unbounded, lists as sequences and mappings as maps.
pub enum ValueView {
    String(Seq<char>),
    Int(int),
    Float(u64),
    Bool(bool),
    List(Seq<ValueView>),
    Mapping(Map<Seq<char>, ValueView>),
    Null,
}

/// The view of a value: of a list the views of its items in order, of a
/// mapping the view of each value under its name.
pub open spec fn value_view(v: Value) -> ValueView
    decreases v,
{
    match v {
        Value::String(s) => ValueView::String(s@),
        Value::Int(i) => ValueView::Int(i as int),
        Value::Float(bits) => ValueView::Float(bits),
        Value::Bool(b) => ValueView::Bool(b),
        Value::List(items) => ValueView::List(
            Seq::new(
                items@.len(),
                |i: int|
                    if 0 <= i < items@.len() {
                        value_view(items@[i])
                    } else {
                        ValueView::Null
                    },
            ),
        ),
        Value::Mapping(m) => ValueView::Mapping(map_view(m)),
        Value::Null => ValueView::Null,
    }
}

/// The view of a mapping: under each of its names, the view of the value
/// that stands with the name.
pub closed spec fn map_view(m: ValueMap) -> Map<Seq<char>, ValueView>
    decreases m,
{
    Map::new(
        |k: Seq<char>| exists|i: int| 0 <= i < m.entries@.len() && (#[trigger] m.entries@[i]).0@ == k,
        |k: Seq<char>|
            {
                let i = choose|i: int| 0 <= i < m.entries@.len() && (#[trigger] m.entries@[i]).0@ == k;
                if 0 <= i < m.entries@.len() {
                    value_view(m.entries@[i].1)
                } else {
                    ValueView::Null
                }
            },
    )
}

impl View for Value {
    type V = ValueView;

    open spec fn view(&self) -> ValueView {
        value_view(*self)
    }
}

impl View for ValueMap {
    type V = Map<Seq<char>, ValueView>;

    open spec fn view(&self) -> Map<Seq<char>, ValueView> {
        map_view(*self)
    }
}

/// Structural equality of values: the variants must agree, with no
/// coercion between them; numbers in binary64 compare as IEEE 754 has it
/// (so a NaN equals nothing); lists are equal item by item, mappings name
/// by name.
pub open spec fn values_equal(a: ValueView, b: ValueView) -> bool
    decreases a,
{
    match (a, b) {
        (ValueView::String(x), ValueView::String(y)) => x == y,
        (ValueView::Int(x), ValueView::Int(y)) => x == y,
        (ValueView::Float(x), ValueView::Float(y)) => binary64::equal(x, y),
        (ValueView::Bool(x), ValueView::Bool(y)) => x == y,
        (ValueView::List(x), ValueView::List(y)) => {
            &&& x.len() == y.len()
            &&& forall|i: int| 0 <= i < x.len() ==> values_equal(#[trigger] x[i], y[i])
        },
        (ValueView::Mapping(x), ValueView::Mapping(y)) => {
            &&& x.dom() =~= y.dom()
            &&& forall|k: Seq<char>| x.dom().contains(k) ==> values_equal(#[trigger] x[k], y[k])
        },
        (ValueView::Null, ValueView::Null) => true,
        _ => false,
    }
}

impl ValueMap {
    /// No name occurs twice.
    #[verifier::type_invariant]
    pub closed spec fn wf(self) -> bool {
        forall|i: int, j: int|
            0 <= i < j < self.entries@.len() ==> (#[trigger] self.entries@[i]).0@ != (
            #[trigger] self.entries@[j]).0@
    }

    /// The names of the mapping, in the order in which they came in.
    pub closed spec fn keys(self) -> Seq<Seq<char>> {
        Seq::new(self.entries@.len(), |i: int| self.entries@[i].0@)
    }

    /// The names are the mapping's domain, each listed once.
    pub proof fn lemma_keys(self)
        requires
            self.wf(),
        ensures
            self.keys().no_duplicates(),
            self.keys().to_set() == self@.dom(),
            self@.dom().finite(),
            self@.dom().len() == self.keys().len(),
    {
        let keys = self.keys();
        assert(keys.no_duplicates());
        assert(keys.to_set() =~= self@.dom()) by {
            assert forall|k: Seq<char>| keys.to_set().contains(k) implies self@.dom().contains(
                k,
            ) by {
                let i = choose|i: int| 0 <= i < keys.len() && keys[i] == k;
                assert(self.entries@[i].0@ == k);
            }
            assert forall|k: Seq<char>| self@.dom().contains(k) implies keys.to_set().contains(
                k,
            ) by {
                let i = choose|i: int|
                    0 <= i < self.entries@.len() && (#[trigger] self.entries@[i]).0@ == k;
                assert(keys[i] == k);
            }
        }
        keys.unique_seq_to_set();
    }

    proof fn lemma_entry(self, i: int)
        requires
            self.wf(),
            0 <= i < self.entries@.len(),
        ensures
            self.keys()[i] == self.entries@[i].0@,
            self@.dom().contains(self.entries@[i].0@),
            self@[self.entries@[i].0@] == self.entries@[i].1@,
    {
        let k = self.entries@[i].0@;
        let j = choose|j: int| 0 <= j < self.entries@.len() && (#[trigger] self.entries@[j]).0@ == k;
        assert(j == i);
    }

    /// An empty mapping.
    pub fn new() -> (r: Self)
        ensures
            r@ == Map::<Seq<char>, ValueView>::empty(),
    {
        let r = ValueMap { entries: Vec::new() };
        assert(r@ =~= Map::<Seq<char>, ValueView>::empty());
        r
    }

    /// The number of names.
    pub fn len(&self) -> (n: usize)
        ensures
            n == self@.dom().len(),
            n == self.keys().len(),
    {
        proof {
            use_type_invariant(self);
            self.lemma_keys();
        }
        self.entries.len()
    }

    /// Whether the mapping holds nothing.
    pub fn is_empty(&self) -> (r: bool)
        ensures
            r == (self@ == Map::<Seq<char>, ValueView>::empty()),
    {
        proof {
            use_type_invariant(self);
            self.lemma_keys();
            if self.entries@.len() == 0 {
                assert(self@ =~= Map::<Seq<char>, ValueView>::empty());
            } else {
                self.lemma_entry(0);
            }
        }
        self.entries.len() == 0
    }

    fn position(&self, key: &str) -> (r: Option<usize>)
        ensures
            match r {
                Some(i) => i < self.entries@.len() && self.entries@[i as int].0@ == key@,
                None => forall|j: int|
                    0 <= j < self.entries@.len() ==> (#[trigger] self.entries@[j]).0@ != key@,
            },
    {
        let wanted = key.to_owned();
        let mut i: usize = 0;
        while i < self.entries.len()
            invariant
                i <= self.entries@.len(),
                wanted@ == key@,
                forall|j: int| 0 <= j < i ==> (#[trigger] self.entries@[j]).0@ != key@,
            decreases self.entries@.len() - i,
        {
            if self.entries[i].0 == wanted {
                return Some(i);
            }
            i = i + 1;
        }
        None
    }

    /// Whether the mapping holds the name.
    pub fn contains_key(&self, key: &str) -> (r: bool)
        ensures
            r == self@.dom().contains(key@),
    {
        match self.position(key) {
            Some(i) => {
                proof {
                    use_type_invariant(self);
                    self.lemma_entry(i as int);
                }
                true
            },
            None => false,
        }
    }

    /// The value under the name, if the mapping holds it.
    pub fn get(&self, key: &str) -> (r: Option<&Value>)
        ensures
            match r {
                Some(v) => self@.dom().contains(key@) && v@ == self@[key@],
                None => !self@.dom().contains(key@),
            },
    {
        match self.position(key) {
            Some(i) => {
                proof {
                    use_type_invariant(self);
                    self.lemma_entry(i as int);
                }
                Some(&self.entries[i].1)
            },
            None => None,
        }
    }

    /// The name and the value at a position in the order of
    /// [`keys`](Self::keys); `None` beyond the last.
    pub fn entry(&self, i: usize) -> (r: Option<(&String, &Value)>)
        ensures
            match r {
                Some((k, v)) => i < self.keys().len() && k@ == self.keys()[i as int] && v@
                    == self@[k@],
                None => i >= self.keys().len(),
            },
    {
        if i < self.entries.len() {
            proof {
                use_type_invariant(self);
                self.lemma_entry(i as int);
            }
            Some((&self.entries[i].0, &self.entries[i].1))
        } else {
            None
        }
    }

    /// Puts the value under the name, in place of what was there before.
    pub fn insert(&mut self, key: String, value: Value)
        ensures
            final(self)@ == old(self)@.insert(key@, value@),
    {
        let ghost before = *self;
        let ghost k = key@;
        let ghost v = value@;
        proof {
            use_type_invariant(&*self);
        }
        let found = self.position(key.as_str());
        let ghost at: int = match found {
            Some(i) => i as int,
            None => self.entries@.len() as int,
        };
        let mut entries: Vec<(String, Value)> = Vec::new();
        core::mem::swap(&mut self.entries, &mut entries);
        match found {
            Some(i) => {
                entries.set(i, (key, value));
            },
            None => {
                entries.push((key, value));
            },
        }
        core::mem::swap(&mut self.entries, &mut entries);
        proof {
            let after = *self;
            assert(after.entries@[at].0@ == k);
            assert(after.entries@[at].1@ == v);
            assert(forall|j: int|
                0 <= j < after.entries@.len() && j != at ==> after.entries@[j]
                    == before.entries@[j]);
            assert(after.wf());
            after.lemma_entry(at);
            assert(after@ =~= before@.insert(k, v)) by {
                assert forall|x: Seq<char>| after@.dom().contains(x) implies before@.insert(
                    k,
                    v,
                ).dom().contains(x) by {
                    let j = choose|j: int|
                        0 <= j < after.entries@.len() && (#[trigger] after.entries@[j]).0@ == x;
                    if j != at {
                        assert(before.entries@[j].0@ == x);
                    }
                }
                assert forall|x: Seq<char>|
                    before@.insert(k, v).dom().contains(x) implies after@.dom().contains(x) by {
                    if x != k {
                        let j = choose|j: int|
                            0 <= j < before.entries@.len() && (#[trigger] before.entries@[j]).0@
                                == x;
                        assert(after.entries@[j].0@ == x);
                    }
                }
                assert forall|x: Seq<char>| after@.dom().contains(x) implies after@[x]
                    == before@.insert(k, v)[x] by {
                    let j = choose|j: int|
                        0 <= j < after.entries@.len() && (#[trigger] after.entries@[j]).0@ == x;
                    after.lemma_entry(j);
                    if j != at {
                        before.lemma_entry(j);
                    }
                }
            }
        }
    }

    /// Takes the name out of the mapping, with its value.
    pub fn remove(&mut self, key: &str)
        ensures
            final(self)@ == old(self)@.remove(key@),
    {
        let ghost before = *self;
        let ghost k = key@;
        proof {
            use_type_invariant(&*self);
        }
        match self.position(key) {
            None => {
                assert(before@ =~= before@.remove(k));
            },
            Some(i) => {
                let mut entries: Vec<(String, Value)> = Vec::new();
                core::mem::swap(&mut self.entries, &mut entries);
                let _ = entries.remove(i);
                core::mem::swap(&mut self.entries, &mut entries);
                proof {
                    let after = *self;
                    assert(forall|j: int|
                        0 <= j < i ==> (#[trigger] after.entries@[j]) == before.entries@[j]);
                    assert(forall|j: int|
                        i <= j < after.entries@.len() ==> (#[trigger] after.entries@[j])
                            == before.entries@[j + 1]);
                    assert(after.wf());
                    assert(after@ =~= before@.remove(k)) by {
                        assert forall|x: Seq<char>|
                            after@.dom().contains(x) implies before@.remove(k).dom().contains(
                            x,
                        ) by {
                            let j = choose|j: int|
                                0 <= j < after.entries@.len() && (#[trigger] after.entries@[j]).0@
                                    == x;
                            if j < i {
                                assert(before.entries@[j].0@ == x);
                            } else {
                                assert(before.entries@[j + 1].0@ == x);
                            }
                        }
                        assert forall|x: Seq<char>|
                            before@.remove(k).dom().contains(x) implies after@.dom().contains(
                            x,
                        ) by {
                            let j = choose|j: int|
                                0 <= j < before.entries@.len() && (
                                #[trigger] before.entries@[j]).0@ == x;
                            if j < i {
                                assert(after.entries@[j].0@ == x);
                            } else {
                                assert(after.entries@[j - 1].0@ == x);
                            }
                        }
                        assert forall|x: Seq<char>| after@.dom().contains(x) implies after@[x]
                            == before@.remove(k)[x] by {
                            let j = choose|j: int|
                                0 <= j < after.entries@.len() && (#[trigger] after.entries@[j]).0@
                                    == x;
                            after.lemma_entry(j);
                            if j < i {
                                before.lemma_entry(j);
                            } else {
                                before.lemma_entry(j + 1);
                            }
                        }
                    }
                }
            },
        }
    }
}

/// Copies a value, with all that it holds.
#[verifier::loop_isolation(false)]
pub fn clone_value(v: &Value) -> (r: Value)
    ensures
        r@ == v@,
    decreases v,
{
    match v {
        Value::String(s) => Value::String(s.clone()),
        Value::Int(i) => Value::Int(*i),
        Value::Float(bits) => Value::Float(*bits),
        Value::Bool(b) => Value::Bool(*b),
        Value::List(items) => {
            let mut out: Vec<Value> = Vec::new();
            let mut i: usize = 0;
            while i < items.len()
                invariant
                    i <= items@.len(),
                    out@.len() == i,
                    forall|j: int| 0 <= j < i ==> (#[trigger] out@[j])@ == items@[j]@,
                decreases items@.len() - i,
            {
                out.push(clone_value(&items[i]));
                i = i + 1;
            }
            let r = Value::List(out);
            assert(r@->List_0 =~= v@->List_0);
            r
        },
        Value::Mapping(m) => Value::Mapping(clone_map(m)),
        Value::Null => Value::Null,
    }
}

/// Copies a mapping, with all that it holds.
#[verifier::loop_isolation(false)]
pub fn clone_map(m: &ValueMap) -> (r: ValueMap)
    ensures
        r@ == m@,
    decreases m,
{
    proof {
        use_type_invariant(m);
    }
    let mut entries: Vec<(String, Value)> = Vec::new();
    let mut i: usize = 0;
    while i < m.entries.len()
        invariant
            i <= m.entries@.len(),
            entries@.len() == i,
            forall|j: int|
                0 <= j < i ==> (#[trigger] entries@[j]).0@ == m.entries@[j].0@ && entries@[j].1@
                    == m.entries@[j].1@,
        decreases m.entries@.len() - i,
    {
        let name = m.entries[i].0.clone();
        let value = clone_value(&m.entries[i].1);
        entries.push((name, value));
        i = i + 1;
    }
    let r = ValueMap { entries };
    proof {
        assert(r.wf());
        assert(r@ =~= m@) by {
            assert forall|x: Seq<char>| r@.dom().contains(x) implies m@.dom().contains(x) by {
                let j = choose|j: int|
                    0 <= j < r.entries@.len() && (#[trigger] r.entries@[j]).0@ == x;
                assert(m.entries@[j].0@ == x);
            }
            assert forall|x: Seq<char>| m@.dom().contains(x) implies r@.dom().contains(x) by {
                let j = choose|j: int|
                    0 <= j < m.entries@.len() && (#[trigger] m.entries@[j]).0@ == x;
                assert(r.entries@[j].0@ == x);
            }
            assert forall|x: Seq<char>| r@.dom().contains(x) implies r@[x] == m@[x] by {
                let j = choose|j: int|
                    0 <= j < r.entries@.len() && (#[trigger] r.entries@[j]).0@ == x;
                r.lemma_entry(j);
                m.lemma_entry(j);
            }
        }
    }
    r
}

/// Decides whether two values are structurally equal.
#[verifier::loop_isolation(false)]
pub fn values_eq(a: &Value, b: &Value) -> (r: bool)
    ensures
        r == values_equal(a@, b@),
    decreases a,
{
    match (a, b) {
        (Value::String(x), Value::String(y)) => *x == *y,
        (Value::Int(x), Value::Int(y)) => *x == *y,
        (Value::Float(x), Value::Float(y)) => binary64::coincides(*x, *y),
        (Value::Bool(x), Value::Bool(y)) => *x == *y,
        (Value::List(x), Value::List(y)) => {
            if x.len() != y.len() {
                return false;
            }
            let mut i: usize = 0;
            while i < x.len()
                invariant
                    i <= x@.len(),
                    x@.len() == y@.len(),
                    forall|j: int| 0 <= j < i ==> values_equal(#[trigger] x@[j]@, y@[j]@),
                decreases x@.len() - i,
            {
                if !values_eq(&x[i], &y[i]) {
                    assert(!values_equal(a@->List_0[i as int], b@->List_0[i as int]));
                    return false;
                }
                i = i + 1;
            }
            assert forall|j: int| 0 <= j < a@->List_0.len() implies values_equal(
                #[trigger] a@->List_0[j],
                b@->List_0[j],
            ) by {
                assert(values_equal(x@[j]@, y@[j]@));
            }
            true
        },
        (Value::Mapping(x), Value::Mapping(y)) => maps_eq(x, y),
        (Value::Null, Value::Null) => true,
        _ => false,
    }
}

/// Decides whether two mappings hold the same names with equal values.
#[verifier::loop_isolation(false)]
pub fn maps_eq(a: &ValueMap, b: &ValueMap) -> (r: bool)
    ensures
        r == values_equal(ValueView::Mapping(a@), ValueView::Mapping(b@)),
    decreases a,
{
    proof {
        use_type_invariant(a);
        use_type_invariant(b);
        a.lemma_keys();
        b.lemma_keys();
    }
    if a.entries.len() != b.entries.len() {
        return false;
    }
    let mut i: usize = 0;
    while i < a.entries.len()
        invariant
            i <= a.entries@.len(),
            forall|j: int|
                0 <= j < i ==> b@.dom().contains((#[trigger] a.entries@[j]).0@) && values_equal(
                    a.entries@[j].1@,
                    b@[a.entries@[j].0@],
                ),
        decreases a.entries@.len() - i,
    {
        proof {
            a.lemma_entry(i as int);
        }
        match b.get(a.entries[i].0.as_str()) {
            None => {
                return false;
            },
            Some(w) => {
                if !values_eq(&a.entries[i].1, w) {
                    return false;
                }
            },
        }
        i = i + 1;
    }
    proof {
        assert forall|x: Seq<char>| a@.dom().contains(x) implies b@.dom().contains(x)
            && values_equal(a@[x], b@[x]) by {
            let j = choose|j: int|
                0 <= j < a.entries@.len() && (#[trigger] a.entries@[j]).0@ == x;
            a.lemma_entry(j);
        }
        assert(a@.dom().subset_of(b@.dom()));
        lemma_subset_equality(a@.dom(), b@.dom());
    }
    true
}

impl Clone for Value {
    fn clone(&self) -> (r: Self)
        ensures
            r@ == self@,
    {
        clone_value(self)
    }
}

impl Clone for ValueMap {
    fn clone(&self) -> (r: Self)
        ensures
            r@ == self@,
    {
        clone_map(self)
    }
}

impl PartialEq for Value {
    fn eq(&self, other: &Self) -> (r: bool) {
        values_eq(self, other)
    }
}

impl PartialEqSpecImpl for Value {
    open spec fn obeys_eq_spec() -> bool {
        true
    }

    open spec fn eq_spec(&self, other: &Self) -> bool {
        values_equal(self@, other@)
    }
}

impl PartialEq for ValueMap {
    fn eq(&self, other: &Self) -> (r: bool) {
        maps_eq(self, other)
    }
}

impl PartialEqSpecImpl for ValueMap {
    open spec fn obeys_eq_spec() -> bool {
        true
    }

    open spec fn eq_spec(&self, other: &Self) -> bool {
        values_equal(ValueView::Mapping(self@), ValueView::Mapping(other@))
    }
}

} // verus!
