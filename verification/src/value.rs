use vstd::prelude::*;
use vstd::std_specs::cmp::PartialEqSpecImpl;
use vstd::std_specs::convert::FromSpecImpl;

use crate::equivalence::{lemma_dict_wf, lemma_insert_keeps_wf, lemma_swap_remove_keeps_wf};

verus! {

/// The mathematical model of a configuration value.
///
/// A float is modelled by its IEEE-754 bit pattern (equality compares the bits)
/// together with its decimal rendering.
pub enum SpecValue {
    Bool(bool),
    Int(int),
    Float(u64, Seq<char>),
    String(Seq<char>),
    Bytes(Seq<u8>),
    List(Seq<SpecValue>),
    Dict(Seq<(SpecValue, SpecValue)>),
    Null,
}

/// A dynamically-typed value that can represent configuration data.
///
/// Supports bools, integers, floats, strings, byte arrays, lists, and maps
/// with arbitrary key types.  A float is held as its IEEE-754 bit pattern
/// together with its decimal rendering.
#[derive(Debug, Hash)]
pub enum Value {
    Bool(bool),
    Int(i64),
    Float(u64, String),
    String(String),
    Bytes(Vec<u8>),
    List(Vec<Value>),
    Dict(ValueMap),
    Null,
}

/// An insertion-ordered map from values to values.
///
/// Keys are looked up by value equality: a lookup finds the first entry whose
/// key equals the key asked for.
///
/// The entries are held in a `Vec` rather than in an `indexmap::IndexMap`:
/// Verus does not accept `IndexMap<Value, Value>` declared as an outside type
/// (`Value` would occur in it recursively, in a non-positive position), and
/// hiding the map in an `external_body` struct leaves the recursive model of
/// `Value` without a termination proof.  Keys stay pairwise unequal: `new`
/// gives a well-formed map, and `insert` and `swap_remove` keep it so.
#[derive(Debug, Hash)]
pub struct ValueMap {
    entries: Vec<(Value, Value)>,
}

/// The model of a value.
pub open spec fn value_view(v: Value) -> SpecValue
    decreases v,
{
    match v {
        Value::Bool(b) => SpecValue::Bool(b),
        Value::Int(i) => SpecValue::Int(i as int),
        Value::Float(bits, text) => SpecValue::Float(bits, text@),
        Value::String(s) => SpecValue::String(s@),
        Value::Bytes(b) => SpecValue::Bytes(b@),
        Value::List(l) => SpecValue::List(
            Seq::new(
                l@.len(),
                |i: int|
                    if 0 <= i < l@.len() {
                        proof {
                            assert(decreases_to!(v => l@[i]));
                        }
                        value_view(l@[i])
                    } else {
                        SpecValue::Null
                    },
            ),
        ),
        Value::Dict(m) => SpecValue::Dict(map_view(m)),
        Value::Null => SpecValue::Null,
    }
}

/// The model of a map: its entries, in order.
pub closed spec fn map_view(m: ValueMap) -> Seq<(SpecValue, SpecValue)>
    decreases m,
{
    Seq::new(
        m.entries@.len(),
        |i: int|
            if 0 <= i < m.entries@.len() {
                proof {
                    assert(decreases_to!(m => m.entries@[i].0));
                    assert(decreases_to!(m => m.entries@[i].1));
                }
                (value_view(m.entries@[i].0), value_view(m.entries@[i].1))
            } else {
                (SpecValue::Null, SpecValue::Null)
            },
    )
}

impl View for Value {
    type V = SpecValue;

    open spec fn view(&self) -> SpecValue {
        value_view(*self)
    }
}

impl View for ValueMap {
    type V = Seq<(SpecValue, SpecValue)>;

    open spec fn view(&self) -> Seq<(SpecValue, SpecValue)> {
        map_view(*self)
    }
}

/// Value equality: bools, integers, strings and bytes by content, floats by
/// bit pattern, lists element by element, and maps as unordered collections
/// (same length, and every entry of the first finds its key in the second
/// with an equal value there).
pub open spec fn veq(a: SpecValue, b: SpecValue) -> bool
    decreases a, 0nat,
{
    match (a, b) {
        (SpecValue::Bool(x), SpecValue::Bool(y)) => x == y,
        (SpecValue::Int(x), SpecValue::Int(y)) => x == y,
        (SpecValue::Float(x, _), SpecValue::Float(y, _)) => x == y,
        (SpecValue::String(x), SpecValue::String(y)) => x == y,
        (SpecValue::Bytes(x), SpecValue::Bytes(y)) => x == y,
        (SpecValue::List(la), SpecValue::List(lb)) => la.len() == lb.len() && forall|i: int|
            0 <= i < la.len() ==> veq(#[trigger] la[i], lb[i]),
        (SpecValue::Dict(ma), SpecValue::Dict(mb)) => ma.len() == mb.len() && forall|i: int|
            0 <= i < ma.len() ==> match find_key(mb, #[trigger] ma[i].0, 0) {
                Some(j) => veq(ma[i].1, mb[j as int].1),
                None => false,
            },
        (SpecValue::Null, SpecValue::Null) => true,
        _ => false,
    }
}

/// The index of the first entry at or after `start` whose key `key` equals.
pub open spec fn find_key(m: Seq<(SpecValue, SpecValue)>, key: SpecValue, start: nat) -> Option<
    nat,
>
    decreases key, m.len() - start,
{
    if start >= m.len() {
        None
    } else if veq(key, m[start as int].0) {
        Some(start)
    } else {
        find_key(m, key, start + 1)
    }
}

/// The value stored under `key`, if any.
pub open spec fn lookup(m: Seq<(SpecValue, SpecValue)>, key: SpecValue) -> Option<SpecValue> {
    match find_key(m, key, 0) {
        Some(j) => Some(m[j as int].1),
        None => None,
    }
}

/// Inserting: an existing entry for the key keeps its key and takes the new
/// value; otherwise the entry is appended.
pub open spec fn map_insert(m: Seq<(SpecValue, SpecValue)>, key: SpecValue, value: SpecValue) -> Seq<
    (SpecValue, SpecValue),
> {
    match find_key(m, key, 0) {
        Some(j) => m.update(j as int, (m[j as int].0, value)),
        None => m.push((key, value)),
    }
}

/// Removing by swapping: the entry for the key is replaced by the last entry,
/// and the sequence shrinks by one.
pub open spec fn map_swap_remove(m: Seq<(SpecValue, SpecValue)>, key: SpecValue) -> Seq<
    (SpecValue, SpecValue),
> {
    match find_key(m, key, 0) {
        Some(j) => m.update(j as int, m.last()).drop_last(),
        None => m,
    }
}

/// The models of the values, in order.
pub open spec fn values_view(s: Seq<Value>) -> Seq<SpecValue> {
    s.map_values(|v: Value| v@)
}

/// `s` holds an element equal to `x` (comparing each element with `x`).
pub open spec fn seq_has(s: Seq<SpecValue>, x: SpecValue) -> bool {
    exists|i: int| 0 <= i < s.len() && veq(#[trigger] s[i], x)
}

/// The type name used in error messages.
pub open spec fn type_label_spec(v: SpecValue) -> Seq<char> {
    match v {
        SpecValue::Bool(_) => "bool"@,
        SpecValue::Int(_) => "int"@,
        SpecValue::Float(_, _) => "float"@,
        SpecValue::String(_) => "str"@,
        SpecValue::Bytes(_) => "bytes"@,
        SpecValue::List(_) => "list"@,
        SpecValue::Dict(_) => "dict"@,
        SpecValue::Null => "NoneType"@,
    }
}

/// A value is well formed when no map in it holds two equal keys.
pub open spec fn value_wf(v: SpecValue) -> bool
    decreases v,
{
    match v {
        SpecValue::List(l) => forall|i: int| 0 <= i < l.len() ==> value_wf(#[trigger] l[i]),
        SpecValue::Dict(m) => {
            &&& forall|i: int, j: int|
                0 <= i < m.len() && 0 <= j < m.len() && i != j ==> !veq(
                    #[trigger] m[i].0,
                    #[trigger] m[j].0,
                )
            &&& forall|i: int| 0 <= i < m.len() ==> value_wf(#[trigger] m[i].0) && value_wf(m[i].1)
        },
        _ => true,
    }
}

proof fn lemma_map_view_index(m: ValueMap)
    ensures
        m@.len() == m.entries@.len(),
        forall|i: int|
            0 <= i < m@.len() ==> #[trigger] m@[i] == (m.entries@[i].0@, m.entries@[i].1@),
{
}

proof fn lemma_find_key_range(m: Seq<(SpecValue, SpecValue)>, key: SpecValue, start: nat)
    ensures
        find_key(m, key, start) matches Some(j) ==> start <= j < m.len(),
    decreases m.len() - start,
{
    if start < m.len() {
        lemma_find_key_range(m, key, start + 1);
    }
}

proof fn lemma_find_key_skip(m: Seq<(SpecValue, SpecValue)>, key: SpecValue, start: nat, i: nat)
    requires
        start <= i <= m.len(),
        forall|j: int| start <= j < i ==> !veq(key, #[trigger] m[j].0),
    ensures
        find_key(m, key, start) == find_key(m, key, i),
    decreases i - start,
{
    if start < i {
        lemma_find_key_skip(m, key, start + 1, i);
    }
}

/// In a map whose keys are pairwise unequal, looking up the key of entry `i`
/// finds entry `i`, when that key equals itself.
proof fn lemma_find_own_key(m: Seq<(SpecValue, SpecValue)>, i: int)
    requires
        0 <= i < m.len(),
        forall|a: int, b: int|
            0 <= a < m.len() && 0 <= b < m.len() && a != b ==> !veq(
                #[trigger] m[a].0,
                #[trigger] m[b].0,
            ),
        veq(m[i].0, m[i].0),
    ensures
        find_key(m, m[i].0, 0) == Some(i as nat),
{
    assert forall|j: int| 0 <= j < i implies !veq(m[i].0, #[trigger] m[j].0) by {
        assert(m[i].0 == m[i].0);
    }
    lemma_find_key_skip(m, m[i].0, 0, i as nat);
}

/// Value equality is reflexive on well-formed values.
pub proof fn lemma_veq_reflexive(v: SpecValue)
    requires
        value_wf(v),
    ensures
        veq(v, v),
    decreases v,
{
    match v {
        SpecValue::List(l) => {
            assert forall|i: int| 0 <= i < l.len() implies veq(#[trigger] l[i], l[i]) by {
                lemma_veq_reflexive(l[i]);
            }
        },
        SpecValue::Dict(m) => {
            assert forall|i: int| 0 <= i < m.len() implies match find_key(m, #[trigger] m[i].0, 0) {
                Some(j) => veq(m[i].1, m[j as int].1),
                None => false,
            } by {
                lemma_veq_reflexive(m[i].0);
                lemma_veq_reflexive(m[i].1);
                lemma_find_own_key(m, i);
            }
        },
        _ => {},
    }
}

// ---- executable equality and lookup ----

fn value_eq(a: &Value, b: &Value) -> (r: bool)
    ensures
        r == veq(a@, b@),
    decreases a@, 0nat,
{
    match a {
        Value::Bool(x) => match b {
            Value::Bool(y) => *x == *y,
            _ => false,
        },
        Value::Int(x) => match b {
            Value::Int(y) => *x == *y,
            _ => false,
        },
        Value::Float(x, _) => match b {
            Value::Float(y, _) => *x == *y,
            _ => false,
        },
        Value::String(x) => match b {
            Value::String(y) => *x == *y,
            _ => false,
        },
        Value::Bytes(x) => match b {
            Value::Bytes(y) => bytes_eq(x, y),
            _ => false,
        },
        Value::Null => match b {
            Value::Null => true,
            _ => false,
        },
        Value::List(la) => {
            let lb = match b {
                Value::List(lb) => lb,
                _ => {
                    return false;
                },
            };
            if la.len() != lb.len() {
                return false;
            }
            let ghost sa = a@->List_0;
            let ghost sb = b@->List_0;
            let mut i: usize = 0;
            while i < la.len()
                invariant
                    0 <= i <= la.len(),
                    la.len() == lb.len(),
                    *a == Value::List(*la),
                    *b == Value::List(*lb),
                    sa == a@->List_0,
                    sb == b@->List_0,
                    forall|k: int| 0 <= k < i ==> veq(#[trigger] sa[k], sb[k]),
                decreases la.len() - i,
            {
                proof {
                    assert(sa[i as int] == la@[i as int]@);
                    assert(sb[i as int] == lb@[i as int]@);
                }
                if !value_eq(&la[i], &lb[i]) {
                    return false;
                }
                i = i + 1;
            }
            true
        },
        Value::Dict(ma) => {
            let mb = match b {
                Value::Dict(mb) => mb,
                _ => {
                    return false;
                },
            };
            let n = ma.entries.len();
            if n != mb.entries.len() {
                return false;
            }
            let mut i: usize = 0;
            while i < n
                invariant
                    0 <= i <= n,
                    n == ma.entries.len(),
                    n == mb.entries.len(),
                    *a == Value::Dict(*ma),
                    *b == Value::Dict(*mb),
                    forall|k: int|
                        0 <= k < i ==> match find_key(mb@, #[trigger] ma@[k].0, 0) {
                            Some(j) => veq(ma@[k].1, mb@[j as int].1),
                            None => false,
                        },
                decreases n - i,
            {
                let entry = &ma.entries[i];
                proof {
                    lemma_map_view_index(*ma);
                    lemma_map_view_index(*mb);
                    let d = a@->Dict_0;
                    assert(d[i as int] == (entry.0@, entry.1@));
                    assert(decreases_to!(a@ => d));
                    assert(decreases_to!(d => d[i as int]));
                    assert(decreases_to!(d[i as int] => d[i as int].0));
                    assert(decreases_to!(d[i as int] => d[i as int].1));
                    assert(ma@[i as int] == (entry.0@, entry.1@));
                }
                match mb.get_index_of(&entry.0) {
                    Some(j) => {
                        proof {
                            assert(mb@[j as int] == (mb.entries@[j as int].0@, mb.entries@[j as int].1@));
                        }
                        if !value_eq(&entry.1, &mb.entries[j].1) {
                            return false;
                        }
                    },
                    None => {
                        return false;
                    },
                }
                i = i + 1;
            }
            true
        },
    }
}

fn bytes_eq(x: &Vec<u8>, y: &Vec<u8>) -> (r: bool)
    ensures
        r == (x@ == y@),
{
    if x.len() != y.len() {
        return false;
    }
    let mut i: usize = 0;
    while i < x.len()
        invariant
            0 <= i <= x.len(),
            x.len() == y.len(),
            forall|k: int| 0 <= k < i ==> x@[k] == y@[k],
        decreases x.len() - i,
    {
        if x[i] != y[i] {
            return false;
        }
        i = i + 1;
    }
    assert(x@ =~= y@);
    true
}

/// A copy of the values, each by its model.
pub(crate) fn copy_values(xs: &Vec<Value>) -> (r: Vec<Value>)
    ensures
        values_view(r@) == values_view(xs@),
{
    let mut r: Vec<Value> = Vec::new();
    let mut i: usize = 0;
    while i < xs.len()
        invariant
            0 <= i <= xs.len(),
            r@.len() == i,
            forall|k: int| 0 <= k < i ==> (#[trigger] r@[k])@ == xs@[k]@,
        decreases xs.len() - i,
    {
        r.push(xs[i].deep_copy());
        i = i + 1;
    }
    assert(values_view(r@) =~= values_view(xs@));
    r
}

fn copy_bytes(x: &Vec<u8>) -> (r: Vec<u8>)
    ensures
        r@ == x@,
{
    let mut r: Vec<u8> = Vec::new();
    let mut i: usize = 0;
    while i < x.len()
        invariant
            0 <= i <= x.len(),
            r@ =~= x@.subrange(0, i as int),
        decreases x.len() - i,
    {
        r.push(x[i]);
        i = i + 1;
    }
    assert(r@ =~= x@);
    r
}

impl Value {
    /// A copy of this value with the same model.
    pub fn deep_copy(&self) -> (r: Value)
        ensures
            r@ == self@,
        decreases self@,
    {
        match self {
            Value::Bool(b) => Value::Bool(*b),
            Value::Int(i) => Value::Int(*i),
            Value::Float(bits, text) => Value::Float(*bits, text.clone()),
            Value::String(s) => Value::String(s.clone()),
            Value::Bytes(b) => Value::Bytes(copy_bytes(b)),
            Value::Null => Value::Null,
            Value::List(l) => {
                let mut r: Vec<Value> = Vec::new();
                let mut i: usize = 0;
                while i < l.len()
                    invariant
                        0 <= i <= l.len(),
                        *self == Value::List(*l),
                        r@.len() == i,
                        forall|k: int| 0 <= k < i ==> (#[trigger] r@[k])@ == l@[k]@,
                    decreases l.len() - i,
                {
                    proof {
                        assert(self@->List_0[i as int] == l@[i as int]@);
                    }
                    let c = l[i].deep_copy();
                    r.push(c);
                    i = i + 1;
                }
                let res = Value::List(r);
                proof {
                    assert(res@->List_0 =~= self@->List_0);
                }
                res
            },
            Value::Dict(m) => {
                let mut r: Vec<(Value, Value)> = Vec::new();
                let mut i: usize = 0;
                while i < m.entries.len()
                    invariant
                        0 <= i <= m.entries.len(),
                        *self == Value::Dict(*m),
                        r@.len() == i,
                        forall|k: int|
                            0 <= k < i ==> (#[trigger] r@[k]).0@ == m.entries@[k].0@ && r@[k].1@
                                == m.entries@[k].1@,
                    decreases m.entries.len() - i,
                {
                    proof {
                        lemma_map_view_index(*m);
                        let d = self@->Dict_0;
                        assert(d[i as int] == (m.entries@[i as int].0@, m.entries@[i as int].1@));
                        assert(decreases_to!(self@ => d));
                        assert(decreases_to!(d => d[i as int]));
                        assert(decreases_to!(d[i as int] => d[i as int].0));
                        assert(decreases_to!(d[i as int] => d[i as int].1));
                    }
                    let k = m.entries[i].0.deep_copy();
                    let v = m.entries[i].1.deep_copy();
                    r.push((k, v));
                    i = i + 1;
                }
                let nm = ValueMap { entries: r };
                proof {
                    assert(nm@ =~= m@);
                }
                Value::Dict(nm)
            },
        }
    }

    /// The type name used in error messages.
    pub fn type_label(&self) -> (r: &'static str)
        ensures
            r@ == type_label_spec(self@),
    {
        match self {
            Value::Bool(_) => "bool",
            Value::Int(_) => "int",
            Value::Float(_, _) => "float",
            Value::String(_) => "str",
            Value::Bytes(_) => "bytes",
            Value::List(_) => "list",
            Value::Dict(_) => "dict",
            Value::Null => "NoneType",
        }
    }

    /// The bool, for a bool value.
    pub fn as_bool(&self) -> (r: Option<bool>)
        ensures
            r == (match self@ {
                SpecValue::Bool(b) => Some(b),
                _ => None::<bool>,
            }),
    {
        match self {
            Value::Bool(b) => Some(*b),
            _ => None,
        }
    }

    /// The integer, for an integer value.
    pub fn as_int(&self) -> (r: Option<i64>)
        ensures
            match self {
                Value::Int(i) => r == Some(*i),
                _ => r is None,
            },
    {
        match self {
            Value::Int(i) => Some(*i),
            _ => None,
        }
    }

    /// The string, for a string value.
    pub fn as_str(&self) -> (r: Option<&str>)
        ensures
            match self@ {
                SpecValue::String(s) => r is Some && r->0@ == s,
                _ => r is None,
            },
    {
        match self {
            Value::String(s) => Some(s.as_str()),
            _ => None,
        }
    }

    /// The elements, for a list value.
    pub fn as_list(&self) -> (r: Option<&[Value]>)
        ensures
            match self {
                Value::List(l) => r is Some && r->0@ == l@,
                _ => r is None,
            },
    {
        match self {
            Value::List(l) => Some(l.as_slice()),
            _ => None,
        }
    }

    /// The map, for a map value.
    pub fn as_map(&self) -> (r: Option<&ValueMap>)
        ensures
            match self {
                Value::Dict(m) => r == Some(m),
                _ => r is None,
            },
    {
        match self {
            Value::Dict(m) => Some(m),
            _ => None,
        }
    }

    /// The map, for a map value.
    pub fn into_map(self) -> (r: Option<ValueMap>)
        ensures
            match self {
                Value::Dict(m) => r == Some(m),
                _ => r is None,
            },
    {
        match self {
            Value::Dict(m) => Some(m),
            _ => None,
        }
    }

    /// The elements, for a list value.
    pub fn into_list(self) -> (r: Option<Vec<Value>>)
        ensures
            match self {
                Value::List(l) => r == Some(l),
                _ => r is None,
            },
    {
        match self {
            Value::List(l) => Some(l),
            _ => None,
        }
    }
}

impl ValueMap {
    /// An empty map.
    pub fn new() -> (r: ValueMap)
        ensures
            r@ == Seq::<(SpecValue, SpecValue)>::empty(),
            value_wf(SpecValue::Dict(r@)),
    {
        let r = ValueMap { entries: Vec::new() };
        assert(r@ =~= Seq::<(SpecValue, SpecValue)>::empty());
        proof {
            lemma_dict_wf(r@);
        }
        r
    }

    /// The number of entries.
    pub fn len(&self) -> (r: usize)
        ensures
            r == self@.len(),
    {
        self.entries.len()
    }

    /// The map has no entries.
    pub fn is_empty(&self) -> (r: bool)
        ensures
            r == (self@.len() == 0),
    {
        self.entries.len() == 0
    }

    /// The position of the first entry whose key `key` equals.
    pub fn get_index_of(&self, key: &Value) -> (r: Option<usize>)
        ensures
            r is None <==> find_key(self@, key@, 0) is None,
            r matches Some(j) ==> find_key(self@, key@, 0) == Some(j as nat) && j < self@.len(),
        decreases key@, 1nat,
    {
        let mut i: usize = 0;
        while i < self.entries.len()
            invariant
                0 <= i <= self.entries.len(),
                find_key(self@, key@, 0) == find_key(self@, key@, i as nat),
            decreases self.entries.len() - i,
        {
            proof {
                assert(self@[i as int] == (self.entries@[i as int].0@, self.entries@[i as int].1@));
            }
            if value_eq(key, &self.entries[i].0) {
                proof {
                    lemma_find_key_range(self@, key@, i as nat);
                }
                return Some(i);
            }
            i = i + 1;
        }
        None
    }

    /// The entry at position `i`.
    pub fn get_index(&self, i: usize) -> (r: Option<(&Value, &Value)>)
        ensures
            i < self@.len() ==> (match r {
                Some((k, v)) => (k@, v@) == self@[i as int],
                None => false,
            }),
            i >= self@.len() ==> r is None,
    {
        if i < self.entries.len() {
            let e = &self.entries[i];
            Some((&e.0, &e.1))
        } else {
            None
        }
    }

    /// The value stored under `key`, if any.
    pub fn get(&self, key: &Value) -> (r: Option<&Value>)
        ensures
            match lookup(self@, key@) {
                Some(v) => r is Some && r->0@ == v,
                None => r is None,
            },
    {
        proof {
            lemma_map_view_index(*self);
            if value_wf(SpecValue::Dict(self@)) {
                lemma_swap_remove_keeps_wf(self@, key@);
            }
        }
        match self.get_index_of(key) {
            Some(j) => {
                let r = &self.entries[j].1;
                assert(self@[j as int] == (self.entries@[j as int].0@, self.entries@[j as int].1@));
                assert(lookup(self@, key@) == Some(self@[j as int].1));
                assert(r@ == self@[j as int].1);
                Some(r)
            },
            None => None,
        }
    }

    /// Some entry has a key equal to `key`.
    pub fn contains_key(&self, key: &Value) -> (r: bool)
        ensures
            r == (find_key(self@, key@, 0) is Some),
    {
        match self.get_index_of(key) {
            Some(_) => true,
            None => false,
        }
    }

    /// Stores `value` under `key`: an existing entry keeps its key and takes
    /// the new value (the old one is returned), otherwise the entry is appended.
    pub fn insert(&mut self, key: Value, value: Value) -> (r: Option<Value>)
        ensures
            final(self)@ == map_insert(old(self)@, key@, value@),
            value_wf(SpecValue::Dict(old(self)@)) && value_wf(key@) && value_wf(value@) ==> value_wf(
                SpecValue::Dict(final(self)@),
            ),
            match lookup(old(self)@, key@) {
                Some(v) => r is Some && r->0@ == v,
                None => r is None,
            },
    {
        proof {
            lemma_map_view_index(*self);
            if value_wf(SpecValue::Dict(self@)) && value_wf(key@) && value_wf(value@) {
                lemma_insert_keeps_wf(self@, key@, value@);
            }
        }
        match self.get_index_of(&key) {
            Some(j) => {
                let ghost before = self.entries@;
                let old_entry = self.entries.remove(j);
                let k = old_entry.0;
                self.entries.insert(j, (k, value));
                proof {
                    lemma_map_view_index(*self);
                    assert(self.entries@ =~= before.update(j as int, (before[j as int].0, value)));
                    assert(self@ =~= map_insert(old(self)@, key@, value@));
                }
                Some(old_entry.1)
            },
            None => {
                self.entries.push((key, value));
                proof {
                    lemma_map_view_index(*self);
                    assert(self@ =~= map_insert(old(self)@, key@, value@));
                }
                None
            },
        }
    }

    /// Appends an entry without looking for an existing one with the same key.
    pub(crate) fn push_entry(&mut self, key: Value, value: Value)
        ensures
            final(self)@ == old(self)@.push((key@, value@)),
    {
        self.entries.push((key, value));
        proof {
            lemma_map_view_index(*self);
        }
        assert(self@ =~= old(self)@.push((key@, value@)));
    }

    /// Removes the entry for `key` by moving the last entry into its place.
    pub fn swap_remove(&mut self, key: &Value) -> (r: Option<Value>)
        ensures
            final(self)@ == map_swap_remove(old(self)@, key@),
            value_wf(SpecValue::Dict(old(self)@)) ==> value_wf(SpecValue::Dict(final(self)@)),
            match lookup(old(self)@, key@) {
                Some(v) => r is Some && r->0@ == v,
                None => r is None,
            },
    {
        proof {
            lemma_map_view_index(*self);
            if value_wf(SpecValue::Dict(self@)) {
                lemma_swap_remove_keeps_wf(self@, key@);
            }
        }
        match self.get_index_of(key) {
            Some(j) => {
                let e = self.entries.swap_remove(j);
                proof {
                    lemma_map_view_index(*self);
                    assert(self@ =~= map_swap_remove(old(self)@, key@));
                }
                Some(e.1)
            },
            None => None,
        }
    }

    /// A copy of this map with the same model.
    pub fn deep_copy(&self) -> (r: ValueMap)
        ensures
            r@ == self@,
    {
        let mut r: Vec<(Value, Value)> = Vec::new();
        let mut i: usize = 0;
        while i < self.entries.len()
            invariant
                0 <= i <= self.entries.len(),
                r@.len() == i,
                forall|k: int|
                    0 <= k < i ==> (#[trigger] r@[k]).0@ == self.entries@[k].0@ && r@[k].1@
                        == self.entries@[k].1@,
            decreases self.entries.len() - i,
        {
            let k = self.entries[i].0.deep_copy();
            let v = self.entries[i].1.deep_copy();
            r.push((k, v));
            i = i + 1;
        }
        let nm = ValueMap { entries: r };
        assert(nm@ =~= self@);
        nm
    }
}

/// A map that has just stored a value under a well-formed key gives that
/// value back for the key.
pub proof fn lemma_insert_then_lookup(m: Seq<(SpecValue, SpecValue)>, key: SpecValue, value: SpecValue)
    requires
        value_wf(key),
    ensures
        lookup(map_insert(m, key, value), key) == Some(value),
{
    let r = map_insert(m, key, value);
    lemma_veq_reflexive(key);
    lemma_find_key_range(m, key, 0);
    match find_key(m, key, 0) {
        Some(j) => {
            lemma_find_key_update(m, key, 0, j as int, value);
        },
        None => {
            lemma_find_key_push(m, key, 0, (key, value));
        },
    }
}

proof fn lemma_find_key_update(
    m: Seq<(SpecValue, SpecValue)>,
    key: SpecValue,
    start: nat,
    j: int,
    value: SpecValue,
)
    requires
        0 <= j < m.len(),
        start <= j,
        find_key(m, key, start) == Some(j as nat),
    ensures
        find_key(m.update(j, (m[j].0, value)), key, start) == Some(j as nat),
    decreases j - start,
{
    let u = m.update(j, (m[j].0, value));
    if start < j {
        assert(u[start as int] == m[start as int]);
        assert(!veq(key, m[start as int].0));
        assert(find_key(m, key, start + 1) == Some(j as nat));
        lemma_find_key_update(m, key, start + 1, j, value);
        assert(find_key(u, key, start) == find_key(u, key, start + 1));
    } else {
        lemma_find_key_range(m, key, start + 1);
        assert(veq(key, m[j].0));
        assert(u[j].0 == m[j].0);
    }
}

pub(crate) proof fn lemma_find_key_push(
    m: Seq<(SpecValue, SpecValue)>,
    key: SpecValue,
    start: nat,
    e: (SpecValue, SpecValue),
)
    requires
        start <= m.len(),
        find_key(m, key, start) is None,
        veq(key, e.0),
    ensures
        find_key(m.push(e), key, start) == Some(m.len()),
    decreases m.len() - start,
{
    if start < m.len() {
        lemma_find_key_push(m, key, start + 1, e);
    }
}

// ---- std traits ----

impl Clone for Value {
    fn clone(&self) -> (r: Value)
        ensures
            r@ == self@,
    {
        self.deep_copy()
    }
}

impl Clone for ValueMap {
    fn clone(&self) -> (r: ValueMap)
        ensures
            r@ == self@,
    {
        self.deep_copy()
    }
}

impl PartialEq for Value {
    fn eq(&self, other: &Value) -> (r: bool) {
        value_eq(self, other)
    }
}

impl PartialEqSpecImpl for Value {
    open spec fn obeys_eq_spec() -> bool {
        true
    }

    open spec fn eq_spec(&self, other: &Value) -> bool {
        veq(self@, other@)
    }
}

impl Eq for Value {

}

impl From<bool> for Value {
    fn from(b: bool) -> (r: Value) {
        Value::Bool(b)
    }
}

impl FromSpecImpl<bool> for Value {
    open spec fn obeys_from_spec() -> bool {
        true
    }

    open spec fn from_spec(v: bool) -> Value {
        Value::Bool(v)
    }
}

impl From<i64> for Value {
    fn from(i: i64) -> (r: Value) {
        Value::Int(i)
    }
}

impl FromSpecImpl<i64> for Value {
    open spec fn obeys_from_spec() -> bool {
        true
    }

    open spec fn from_spec(v: i64) -> Value {
        Value::Int(v)
    }
}

impl From<i32> for Value {
    fn from(i: i32) -> (r: Value) {
        Value::Int(i as i64)
    }
}

impl FromSpecImpl<i32> for Value {
    open spec fn obeys_from_spec() -> bool {
        true
    }

    open spec fn from_spec(v: i32) -> Value {
        Value::Int(v as i64)
    }
}

impl From<String> for Value {
    fn from(s: String) -> (r: Value) {
        Value::String(s)
    }
}

impl FromSpecImpl<String> for Value {
    open spec fn obeys_from_spec() -> bool {
        true
    }

    open spec fn from_spec(v: String) -> Value {
        Value::String(v)
    }
}

impl<'a> From<&'a str> for Value {
    fn from(s: &'a str) -> (r: Value)
        ensures
            r@ == SpecValue::String(s@),
    {
        Value::String(s.to_owned())
    }
}

impl<'a> FromSpecImpl<&'a str> for Value {
    /// The result holds a fresh `String`, which no spec value can name; what
    /// the conversion gives is stated on `from` itself, by the model.
    open spec fn obeys_from_spec() -> bool {
        false
    }

    open spec fn from_spec(v: &'a str) -> Value {
        Value::Null
    }
}

impl From<Vec<u8>> for Value {
    fn from(b: Vec<u8>) -> (r: Value) {
        Value::Bytes(b)
    }
}

impl FromSpecImpl<Vec<u8>> for Value {
    open spec fn obeys_from_spec() -> bool {
        true
    }

    open spec fn from_spec(v: Vec<u8>) -> Value {
        Value::Bytes(v)
    }
}

impl From<Vec<Value>> for Value {
    fn from(l: Vec<Value>) -> (r: Value) {
        Value::List(l)
    }
}

impl FromSpecImpl<Vec<Value>> for Value {
    open spec fn obeys_from_spec() -> bool {
        true
    }

    open spec fn from_spec(v: Vec<Value>) -> Value {
        Value::List(v)
    }
}

impl From<ValueMap> for Value {
    fn from(m: ValueMap) -> (r: Value) {
        Value::Dict(m)
    }
}

impl FromSpecImpl<ValueMap> for Value {
    open spec fn obeys_from_spec() -> bool {
        true
    }

    open spec fn from_spec(v: ValueMap) -> Value {
        Value::Dict(v)
    }
}

} // verus!
