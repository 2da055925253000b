use vstd::prelude::*;
use crate::text::{owned, str_eq};

verus! {

/// A 64-bit IEEE-754 floating-point number, held as its bit pattern together with
/// its decimal rendering (the text that `f64`'s `Display` produces for it).
#[derive(Debug, PartialEq)]
pub struct Float {
    pub bits: u64,
    pub text: String,
}

/// A dynamic value over the full serde data model, including bytes.
#[derive(Debug, PartialEq)]
pub enum ZerxValue {
    Null,
    Bool(bool),
    I64(i64),
    U64(u64),
    I128(i128),
    U128(u128),
    F64(Float),
    String(String),
    /// First-class buffer variant.
    Bytes(Vec<u8>),
    Array(Vec<ZerxValue>),
    Object(ObjectMap),
}

/// Ordered key-value map used for `ZerxValue::Object`: insertion order is kept and a
/// repeated key overwrites in place.
#[derive(Debug, PartialEq)]
pub struct ObjectMap {
    pub entries: Vec<(String, ZerxValue)>,
}

/// The mathematical content of a [`ZerxValue`].
pub enum Val {
    Null,
    Bool(bool),
    I64(i64),
    U64(u64),
    I128(i128),
    U128(u128),
    F64(u64, Seq<char>),
    Str(Seq<char>),
    Bytes(Seq<u8>),
    Arr(Seq<Val>),
    Obj(Seq<(Seq<char>, Val)>),
}

pub open spec fn value_view(v: ZerxValue) -> Val
    decreases v,
{
    match v {
        ZerxValue::Null => Val::Null,
        ZerxValue::Bool(b) => Val::Bool(b),
        ZerxValue::I64(n) => Val::I64(n),
        ZerxValue::U64(n) => Val::U64(n),
        ZerxValue::I128(n) => Val::I128(n),
        ZerxValue::U128(n) => Val::U128(n),
        ZerxValue::F64(f) => Val::F64(f.bits, f.text@),
        ZerxValue::String(s) => Val::Str(s@),
        ZerxValue::Bytes(b) => Val::Bytes(b@),
        ZerxValue::Array(a) => Val::Arr(
            Seq::new(
                a@.len(),
                |i: int|
                    if 0 <= i < a@.len() {
                        value_view(a@[i])
                    } else {
                        Val::Null
                    },
            ),
        ),
        ZerxValue::Object(m) => Val::Obj(
            Seq::new(
                m.entries@.len(),
                |i: int|
                    if 0 <= i < m.entries@.len() {
                        (m.entries@[i].0@, value_view(m.entries@[i].1))
                    } else {
                        (Seq::empty(), Val::Null)
                    },
            ),
        ),
    }
}

impl View for ZerxValue {
    type V = Val;

    open spec fn view(&self) -> Val {
        value_view(*self)
    }
}

impl View for ObjectMap {
    type V = Seq<(Seq<char>, Val)>;

    open spec fn view(&self) -> Seq<(Seq<char>, Val)> {
        match value_view(ZerxValue::Object(*self)) {
            Val::Obj(s) => s,
            _ => Seq::empty(),
        }
    }
}

/// The position of the first entry whose key is `k`, if any.
pub open spec fn key_pos<V>(m: Seq<(Seq<char>, V)>, k: Seq<char>) -> Option<int> {
    if exists|i: int| 0 <= i < m.len() && #[trigger] m[i].0 == k && (forall|j: int| 0 <= j < i ==> m[j].0 != k) {
        Some(choose|i: int| 0 <= i < m.len() && #[trigger] m[i].0 == k && (forall|j: int| 0 <= j < i ==> m[j].0 != k))
    } else {
        None
    }
}

/// The value stored under `k`, if any.
pub open spec fn map_get<V>(m: Seq<(Seq<char>, V)>, k: Seq<char>) -> Option<V> {
    match key_pos(m, k) {
        Some(i) => Some(m[i].1),
        None => None,
    }
}

/// `m` after inserting `v` under `k`: an existing key keeps its place and takes the new
/// value, a new key goes to the end.
pub open spec fn map_insert<V>(m: Seq<(Seq<char>, V)>, k: Seq<char>, v: V) -> Seq<(Seq<char>, V)> {
    match key_pos(m, k) {
        Some(i) => m.update(i, (k, v)),
        None => m.push((k, v)),
    }
}

pub proof fn lemma_key_pos_first<V>(m: Seq<(Seq<char>, V)>, k: Seq<char>, i: int)
    requires
        0 <= i < m.len(),
        m[i].0 == k,
        forall|j: int| 0 <= j < i ==> m[j].0 != k,
    ensures
        key_pos(m, k) == Some(i),
{
    let p = choose|p: int| 0 <= p < m.len() && #[trigger] m[p].0 == k && (forall|j: int| 0 <= j < p ==> m[j].0 != k);
    assert(m[i].0 == k);
    if p < i {
        assert(m[p].0 != k);
    } else if p > i {
        assert(m[i].0 != k);
    }
}

pub proof fn lemma_key_pos_none<V>(m: Seq<(Seq<char>, V)>, k: Seq<char>)
    requires
        forall|j: int| 0 <= j < m.len() ==> m[j].0 != k,
    ensures
        key_pos(m, k) == None::<int>,
{
}

pub proof fn lemma_key_pos_some<V>(m: Seq<(Seq<char>, V)>, k: Seq<char>)
    ensures
        key_pos(m, k) matches Some(i) ==> 0 <= i < m.len() && m[i].0 == k && (forall|j: int| 0 <= j < i ==> m[j].0 != k),
        key_pos(m, k) is None ==> forall|j: int| 0 <= j < m.len() ==> m[j].0 != k,
{
    if key_pos(m, k) is None {
        assert forall|j: int| 0 <= j < m.len() implies m[j].0 != k by {
            if m[j].0 == k {
                // the first such index exists
                let mut q = j;
                assert(exists|i: int| 0 <= i < m.len() && #[trigger] m[i].0 == k && (forall|j2: int| 0 <= j2 < i ==> m[j2].0 != k)) by {
                    lemma_first_index_exists(m, k, j);
                }
            }
        }
    }
}

proof fn lemma_first_index_exists<V>(m: Seq<(Seq<char>, V)>, k: Seq<char>, j: int)
    requires
        0 <= j < m.len(),
        m[j].0 == k,
    ensures
        exists|i: int| 0 <= i < m.len() && #[trigger] m[i].0 == k && (forall|j2: int| 0 <= j2 < i ==> m[j2].0 != k),
    decreases j,
{
    if forall|j2: int| 0 <= j2 < j ==> m[j2].0 != k {
        assert(m[j].0 == k);
    } else {
        let j2 = choose|j2: int| 0 <= j2 < j && m[j2].0 == k;
        lemma_first_index_exists(m, k, j2);
    }
}


/// Reading a key just written gives the value written.
pub proof fn law_map_get_after_insert<V>(m: Seq<(Seq<char>, V)>, k: Seq<char>, v: V)
    ensures
        map_get(map_insert(m, k, v), k) == Some(v),
{
    lemma_key_pos_some(m, k);
    let n = map_insert(m, k, v);
    match key_pos(m, k) {
        Some(i) => {
            assert forall|j: int| 0 <= j < i implies n[j].0 != k by {
                assert(n[j] == m[j]);
            }
            lemma_key_pos_first(n, k, i);
        },
        None => {
            assert forall|j: int| 0 <= j < m.len() implies n[j].0 != k by {
                assert(n[j] == m[j]);
            }
            lemma_key_pos_first(n, k, m.len() as int);
        },
    }
}

/// Writing a key leaves every other key as it was.
pub proof fn law_map_insert_keeps_others<V>(m: Seq<(Seq<char>, V)>, k: Seq<char>, v: V, other: Seq<char>)
    requires
        other != k,
    ensures
        map_get(map_insert(m, k, v), other) == map_get(m, other),
{
    lemma_key_pos_some(m, k);
    lemma_key_pos_some(m, other);
    let n = map_insert(m, k, v);
    assert forall|j: int| 0 <= j < m.len() implies (#[trigger] n[j]).0 == m[j].0 && (n[j].0 == other ==> n[j] == m[j]) by {
        if key_pos(m, k) == Some(j) {
            assert(n[j] == (k, v));
        }
    }
    match key_pos(m, other) {
        Some(p) => {
            lemma_key_pos_first(n, other, p);
        },
        None => {
            if key_pos(m, k) is None {
                assert(n[m.len() as int].0 == k);
            }
            assert forall|j: int| 0 <= j < n.len() implies n[j].0 != other by {
                if j < m.len() {
                    assert(m[j].0 != other);
                }
            }
            lemma_key_pos_none(n, other);
        },
    }
}

/// Writing a key keeps the order of the entries: a key already present keeps its
/// place, a new key goes to the end.
pub proof fn law_map_insert_order<V>(m: Seq<(Seq<char>, V)>, k: Seq<char>, v: V)
    ensures
        map_get(m, k) is Some ==> map_insert(m, k, v).len() == m.len()
            && forall|j: int| 0 <= j < m.len() ==> (#[trigger] map_insert(m, k, v)[j]).0 == m[j].0,
        map_get(m, k) is None ==> map_insert(m, k, v) == m.push((k, v)),
{
    lemma_key_pos_some(m, k);
}

pub open spec fn values_view(a: Seq<ZerxValue>) -> Seq<Val> {
    Seq::new(a.len(), |i: int| value_view(a[i]))
}

pub open spec fn entries_view(e: Seq<(String, ZerxValue)>) -> Seq<(Seq<char>, Val)> {
    Seq::new(e.len(), |i: int| (e[i].0@, value_view(e[i].1)))
}

pub proof fn lemma_array_view(a: Vec<ZerxValue>)
    ensures
        value_view(ZerxValue::Array(a)) == Val::Arr(values_view(a@)),
{
    let s = match value_view(ZerxValue::Array(a)) {
        Val::Arr(s) => s,
        _ => Seq::empty(),
    };
    assert(s =~= values_view(a@));
}

pub proof fn lemma_object_view(m: ObjectMap)
    ensures
        value_view(ZerxValue::Object(m)) == Val::Obj(entries_view(m.entries@)),
        m@ == entries_view(m.entries@),
{
    let s = match value_view(ZerxValue::Object(m)) {
        Val::Obj(s) => s,
        _ => Seq::empty(),
    };
    assert(s =~= entries_view(m.entries@));
}

impl Clone for Float {
    fn clone(&self) -> (r: Self)
        ensures
            r.bits == self.bits,
            r.text@ == self.text@,
    {
        Float { bits: self.bits, text: self.text.clone() }
    }
}

pub fn clone_values(a: &Vec<ZerxValue>) -> (r: Vec<ZerxValue>)
    ensures
        values_view(r@) == values_view(a@),
    decreases a,
{
    let mut out: Vec<ZerxValue> = Vec::new();
    let mut i: usize = 0;
    while i < a.len()
        invariant
            i <= a.len(),
            out@.len() == i,
            forall|j: int| 0 <= j < i ==> value_view(#[trigger] out@[j]) == value_view(a@[j]),
        decreases a.len() - i,
    {
        assert(decreases_to!(a => a@[i as int]));
        out.push(a[i].deep_clone());
        i += 1;
    }
    assert(values_view(out@) =~= values_view(a@));
    out
}

fn clone_entries(e: &Vec<(String, ZerxValue)>) -> (r: Vec<(String, ZerxValue)>)
    ensures
        entries_view(r@) == entries_view(e@),
    decreases e,
{
    let mut out: Vec<(String, ZerxValue)> = Vec::new();
    let mut i: usize = 0;
    while i < e.len()
        invariant
            i <= e.len(),
            out@.len() == i,
            forall|j: int| 0 <= j < i ==> (#[trigger] out@[j]).0@ == e@[j].0@ && value_view(out@[j].1) == value_view(e@[j].1),
        decreases e.len() - i,
    {
        assert(decreases_to!(e => e@[i as int].1));
        let k = e[i].0.clone();
        let v = e[i].1.deep_clone();
        out.push((k, v));
        i += 1;
    }
    assert(entries_view(out@) =~= entries_view(e@));
    out
}

impl ZerxValue {
    /// A copy of this value, equal to it in every respect.
    pub fn deep_clone(&self) -> (r: ZerxValue)
        ensures
            r@ == self@,
        decreases self,
    {
        match self {
            ZerxValue::Null => ZerxValue::Null,
            ZerxValue::Bool(b) => ZerxValue::Bool(*b),
            ZerxValue::I64(n) => ZerxValue::I64(*n),
            ZerxValue::U64(n) => ZerxValue::U64(*n),
            ZerxValue::I128(n) => ZerxValue::I128(*n),
            ZerxValue::U128(n) => ZerxValue::U128(*n),
            ZerxValue::F64(f) => ZerxValue::F64(f.clone()),
            ZerxValue::String(s) => ZerxValue::String(s.clone()),
            ZerxValue::Bytes(b) => ZerxValue::Bytes(b.clone()),
            ZerxValue::Array(a) => {
                let r = clone_values(a);
                proof {
                    lemma_array_view(*a);
                    lemma_array_view(r);
                }
                ZerxValue::Array(r)
            },
            ZerxValue::Object(m) => {
                let r = ObjectMap { entries: clone_entries(&m.entries) };
                proof {
                    lemma_object_view(*m);
                    lemma_object_view(r);
                }
                ZerxValue::Object(r)
            },
        }
    }
}


impl ObjectMap {
    /// The empty map.
    pub fn new() -> (r: ObjectMap)
        ensures
            r@ == Seq::<(Seq<char>, Val)>::empty(),
    {
        let r = ObjectMap { entries: Vec::new() };
        proof {
            lemma_object_view(r);
            assert(entries_view(r.entries@) =~= Seq::<(Seq<char>, Val)>::empty());
        }
        r
    }

    /// Position of the first entry whose key is `key`.
    pub fn position(&self, key: &str) -> (r: Option<usize>)
        ensures
            match r {
                Some(i) => key_pos(self@, key@) == Some(i as int),
                None => key_pos(self@, key@) is None,
            },
    {
        proof {
            lemma_object_view(*self);
        }
        let k = owned(key);
        let mut i: usize = 0;
        while i < self.entries.len()
            invariant
                i <= self.entries@.len(),
                k@ == key@,
                self@ == entries_view(self.entries@),
                forall|j: int| 0 <= j < i ==> self@[j].0 != key@,
            decreases self.entries.len() - i,
        {
            if self.entries[i].0 == k {
                proof {
                    lemma_key_pos_first(self@, key@, i as int);
                }
                return Some(i);
            }
            i += 1;
        }
        proof {
            lemma_key_pos_none(self@, key@);
        }
        None
    }

    /// Inserts `value` under `key`; an existing key keeps its place and takes the new value.
    pub fn insert(&mut self, key: String, value: ZerxValue)
        ensures
            final(self)@ == map_insert(old(self)@, key@, value@),
    {
        proof {
            lemma_object_view(*self);
        }
        let pos = self.position(key.as_str());
        let ghost k = key@;
        let ghost v = value@;
        match pos {
            Some(i) => {
                self.entries.set(i, (key, value));
            },
            None => {
                self.entries.push((key, value));
            },
        }
        proof {
            lemma_object_view(*self);
            assert(self@ =~= map_insert(old(self)@, k, v));
        }
    }

    /// The value stored under `key`.
    pub fn get(&self, key: &str) -> (r: Option<&ZerxValue>)
        ensures
            match r {
                Some(v) => map_get(self@, key@) == Some(v@),
                None => map_get(self@, key@) is None,
            },
    {
        proof {
            lemma_object_view(*self);
        }
        match self.position(key) {
            Some(i) => Some(&self.entries[i].1),
            None => None,
        }
    }

    /// The entries in order.
    pub fn iter(&self) -> (r: &[(String, ZerxValue)])
        ensures
            entries_view(r@) == self@,
    {
        proof {
            lemma_object_view(*self);
        }
        self.entries.as_slice()
    }

    /// Number of entries.
    pub fn len(&self) -> (r: usize)
        ensures
            r == self@.len(),
    {
        proof {
            lemma_object_view(*self);
        }
        self.entries.len()
    }

    /// Whether the map has no entry.
    pub fn is_empty(&self) -> (r: bool)
        ensures
            r == (self@.len() == 0),
    {
        proof {
            lemma_object_view(*self);
        }
        self.entries.len() == 0
    }
}

impl Clone for ObjectMap {
    fn clone(&self) -> (r: Self)
        ensures
            r@ == self@,
    {
        let r = ObjectMap { entries: clone_entries(&self.entries) };
        proof {
            lemma_object_view(*self);
            lemma_object_view(r);
        }
        r
    }
}

impl Clone for ZerxValue {
    fn clone(&self) -> (r: Self)
        ensures
            r@ == self@,
    {
        self.deep_clone()
    }
}


impl ObjectMap {
    /// A map holding `entries` inserted in order: a repeated key keeps its first place
    /// and takes the last value.
    pub fn from_entries(entries: Vec<(String, ZerxValue)>) -> (r: ObjectMap)
        ensures
            r@ == inserted_all(Seq::empty(), entries_view(entries@)),
    {
        let ghost all = entries@;
        let ghost ev = entries_view(entries@);
        let mut rest = entries;
        let n = rest.len();
        let mut m = ObjectMap::new();
        assert(ev.take(0) =~= Seq::<(Seq<char>, Val)>::empty());
        let mut i: usize = 0;
        while rest.len() > 0
            invariant
                i <= n,
                all.len() == n,
                ev == entries_view(all),
                rest@ == all.skip(i as int),
                rest@.len() + i == n,
                m@ == inserted_all(Seq::empty(), ev.take(i as int)),
            decreases rest.len(),
        {
            let (k, v) = rest.remove(0);
            proof {
                assert(all.skip(i as int).remove(0) =~= all.skip(i + 1));
                assert(ev.take(i + 1).drop_last() =~= ev.take(i as int));
                assert(ev[i as int] == (k@, v@));
            }
            m.insert(k, v);
            i += 1;
        }
        proof {
            assert(ev.take(i as int) =~= ev);
        }
        m
    }
}

/// `m` with `entries` inserted in order.
pub open spec fn inserted_all(m: Seq<(Seq<char>, Val)>, entries: Seq<(Seq<char>, Val)>) -> Seq<(Seq<char>, Val)>
    decreases entries.len(),
{
    if entries.len() == 0 {
        m
    } else {
        map_insert(inserted_all(m, entries.drop_last()), entries.last().0, entries.last().1)
    }
}

impl ZerxValue {
    /// Whether the value is null.
    pub fn is_null(&self) -> (r: bool)
        ensures
            r == (self@ is Null),
    {
        match self {
            ZerxValue::Null => true,
            _ => false,
        }
    }

    pub fn as_bool(&self) -> (r: Option<bool>)
        ensures
            r == (match self@ { Val::Bool(b) => Some(b), _ => None::<bool> }),
    {
        match self {
            ZerxValue::Bool(b) => Some(*b),
            _ => None,
        }
    }

    pub fn as_i64(&self) -> (r: Option<i64>)
        ensures
            r == (match self@ { Val::I64(n) => Some(n), _ => None::<i64> }),
    {
        match self {
            ZerxValue::I64(n) => Some(*n),
            _ => None,
        }
    }

    pub fn as_u64(&self) -> (r: Option<u64>)
        ensures
            r == (match self@ { Val::U64(n) => Some(n), _ => None::<u64> }),
    {
        match self {
            ZerxValue::U64(n) => Some(*n),
            _ => None,
        }
    }

    pub fn as_i128(&self) -> (r: Option<i128>)
        ensures
            r == (match self@ { Val::I128(n) => Some(n), _ => None::<i128> }),
    {
        match self {
            ZerxValue::I128(n) => Some(*n),
            _ => None,
        }
    }

    pub fn as_u128(&self) -> (r: Option<u128>)
        ensures
            r == (match self@ { Val::U128(n) => Some(n), _ => None::<u128> }),
    {
        match self {
            ZerxValue::U128(n) => Some(*n),
            _ => None,
        }
    }

    /// The float held, as its bit pattern and text.
    pub fn as_float(&self) -> (r: Option<&Float>)
        ensures
            match (r, self@) {
                (Some(f), Val::F64(b, t)) => f.bits == b && f.text@ == t,
                (None, v) => !(v is F64),
                _ => false,
            },
    {
        match self {
            ZerxValue::F64(f) => Some(f),
            _ => None,
        }
    }

    pub fn as_str(&self) -> (r: Option<&str>)
        ensures
            match (r, self@) {
                (Some(s), Val::Str(t)) => s@ == t,
                (None, v) => !(v is Str),
                _ => false,
            },
    {
        match self {
            ZerxValue::String(s) => Some(s.as_str()),
            _ => None,
        }
    }

    pub fn as_bytes(&self) -> (r: Option<&[u8]>)
        ensures
            match (r, self@) {
                (Some(b), Val::Bytes(c)) => b@ == c,
                (None, v) => !(v is Bytes),
                _ => false,
            },
    {
        match self {
            ZerxValue::Bytes(b) => Some(b.as_slice()),
            _ => None,
        }
    }

    pub fn as_array(&self) -> (r: Option<&[ZerxValue]>)
        ensures
            match (r, self@) {
                (Some(a), Val::Arr(items)) => values_view(a@) == items,
                (None, v) => !(v is Arr),
                _ => false,
            },
    {
        match self {
            ZerxValue::Array(a) => {
                proof {
                    lemma_array_view(*a);
                }
                Some(a.as_slice())
            },
            _ => None,
        }
    }

    pub fn as_object(&self) -> (r: Option<&ObjectMap>)
        ensures
            match (r, self@) {
                (Some(m), Val::Obj(entries)) => m@ == entries,
                (None, v) => !(v is Obj),
                _ => false,
            },
    {
        match self {
            ZerxValue::Object(m) => {
                proof {
                    lemma_object_view(*m);
                }
                Some(m)
            },
            _ => None,
        }
    }

    /// Object key lookup; `None` for non-objects.
    pub fn get(&self, key: &str) -> (r: Option<&ZerxValue>)
        ensures
            match r {
                Some(v) => self@ matches Val::Obj(m) && map_get(m, key@) == Some(v@),
                None => !(self@ matches Val::Obj(m) && map_get(m, key@) is Some),
            },
    {
        match self.as_object() {
            Some(m) => m.get(key),
            None => None,
        }
    }

    /// Array index lookup; `None` for non-arrays and out of range.
    pub fn get_index(&self, index: usize) -> (r: Option<&ZerxValue>)
        ensures
            match r {
                Some(v) => self@ matches Val::Arr(a) && index < a.len() && a[index as int] == v@,
                None => !(self@ matches Val::Arr(a) && index < a.len()),
            },
    {
        match self {
            ZerxValue::Array(a) => {
                proof {
                    lemma_array_view(*a);
                }
                if index < a.len() {
                    Some(&a[index])
                } else {
                    None
                }
            },
            _ => None,
        }
    }
}

impl From<bool> for ZerxValue {
    fn from(v: bool) -> (r: Self) {
        ZerxValue::Bool(v)
    }
}

impl vstd::std_specs::convert::FromSpecImpl<bool> for ZerxValue {
    open spec fn obeys_from_spec() -> bool {
        true
    }

    open spec fn from_spec(v: bool) -> ZerxValue {
        ZerxValue::Bool(v)
    }
}

impl From<i64> for ZerxValue {
    fn from(v: i64) -> (r: Self) {
        ZerxValue::I64(v)
    }
}

impl vstd::std_specs::convert::FromSpecImpl<i64> for ZerxValue {
    open spec fn obeys_from_spec() -> bool {
        true
    }

    open spec fn from_spec(v: i64) -> ZerxValue {
        ZerxValue::I64(v)
    }
}

impl From<u64> for ZerxValue {
    fn from(v: u64) -> (r: Self) {
        ZerxValue::U64(v)
    }
}

impl vstd::std_specs::convert::FromSpecImpl<u64> for ZerxValue {
    open spec fn obeys_from_spec() -> bool {
        true
    }

    open spec fn from_spec(v: u64) -> ZerxValue {
        ZerxValue::U64(v)
    }
}

impl From<i128> for ZerxValue {
    fn from(v: i128) -> (r: Self) {
        ZerxValue::I128(v)
    }
}

impl vstd::std_specs::convert::FromSpecImpl<i128> for ZerxValue {
    open spec fn obeys_from_spec() -> bool {
        true
    }

    open spec fn from_spec(v: i128) -> ZerxValue {
        ZerxValue::I128(v)
    }
}

impl From<u128> for ZerxValue {
    fn from(v: u128) -> (r: Self) {
        ZerxValue::U128(v)
    }
}

impl vstd::std_specs::convert::FromSpecImpl<u128> for ZerxValue {
    open spec fn obeys_from_spec() -> bool {
        true
    }

    open spec fn from_spec(v: u128) -> ZerxValue {
        ZerxValue::U128(v)
    }
}

impl From<Float> for ZerxValue {
    fn from(v: Float) -> (r: Self) {
        ZerxValue::F64(v)
    }
}

impl vstd::std_specs::convert::FromSpecImpl<Float> for ZerxValue {
    open spec fn obeys_from_spec() -> bool {
        true
    }

    open spec fn from_spec(v: Float) -> ZerxValue {
        ZerxValue::F64(v)
    }
}

impl From<String> for ZerxValue {
    fn from(v: String) -> (r: Self) {
        ZerxValue::String(v)
    }
}

impl vstd::std_specs::convert::FromSpecImpl<String> for ZerxValue {
    open spec fn obeys_from_spec() -> bool {
        true
    }

    open spec fn from_spec(v: String) -> ZerxValue {
        ZerxValue::String(v)
    }
}



} // verus!
