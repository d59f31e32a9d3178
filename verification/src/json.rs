//! JSON values, and the operations on JSON objects that the conversion
//! performs: insertion that replaces the value of an existing key, and
//! the collection of repeated keys into arrays.

use vstd::prelude::*;

verus! {

/// A JSON value.
///
/// Objects are lists of entries whose keys, when they are built by the
/// operations of this module, are pairwise distinct; their order is the
/// order in which the keys first appeared.
///
/// `Float` is a number written in decimal notation with a fraction or an
/// exponent (the grammar of `f64::from_str`, without `inf` and `nan`);
/// it holds that text, since reading it into a binary floating-point
/// number is left to the consumer of the value.
#[derive(Debug, PartialEq)]
pub enum JsonValue {
    Null,
    Bool(bool),
    Number(u64),
    Float(String),
    String(String),
    Array(Vec<JsonValue>),
    Object(Vec<(String, JsonValue)>),
}

/// The mathematical model of a JSON value.
pub enum SpecJson {
    Null,
    Bool(bool),
    Number(u64),
    Float(Seq<char>),
    Str(Seq<char>),
    Array(Seq<SpecJson>),
    Object(Seq<(Seq<char>, SpecJson)>),
}

/// The model of a JSON object: its entries, in order.
pub type SpecObject = Seq<(Seq<char>, SpecJson)>;

pub open spec fn json_view(j: JsonValue) -> SpecJson
    decreases j,
{
    match j {
        JsonValue::Null => SpecJson::Null,
        JsonValue::Bool(b) => SpecJson::Bool(b),
        JsonValue::Number(n) => SpecJson::Number(n),
        JsonValue::Float(t) => SpecJson::Float(t@),
        JsonValue::String(t) => SpecJson::Str(t@),
        JsonValue::Array(v) => SpecJson::Array(
            Seq::new(
                v.len() as nat,
                |i: int|
                    if 0 <= i < v.len() {
                        json_view(v@[i])
                    } else {
                        SpecJson::Null
                    },
            ),
        ),
        JsonValue::Object(v) => SpecJson::Object(
            Seq::new(
                v.len() as nat,
                |i: int|
                    if 0 <= i < v.len() {
                        (v@[i].0@, json_view(v@[i].1))
                    } else {
                        (Seq::empty(), SpecJson::Null)
                    },
            ),
        ),
    }
}

impl View for JsonValue {
    type V = SpecJson;

    open spec fn view(&self) -> SpecJson {
        json_view(*self)
    }
}

/// The model of the entries of an object.
pub open spec fn object_view(v: Seq<(String, JsonValue)>) -> SpecObject {
    Seq::new(v.len(), |i: int| (v[i].0@, v[i].1@))
}

/// The model of a list of values.
pub open spec fn values_view(v: Seq<JsonValue>) -> Seq<SpecJson> {
    Seq::new(v.len(), |i: int| v[i]@)
}

pub proof fn lemma_array_view(v: Vec<JsonValue>)
    ensures
        JsonValue::Array(v)@ == SpecJson::Array(values_view(v@)),
{
    let j = JsonValue::Array(v);
    let a = json_view(j)->Array_0;
    assert(a =~= values_view(v@));
}

pub proof fn lemma_object_view(v: Vec<(String, JsonValue)>)
    ensures
        JsonValue::Object(v)@ == SpecJson::Object(object_view(v@)),
{
    let j = JsonValue::Object(v);
    let a = json_view(j)->Object_0;
    assert(a =~= object_view(v@));
}

/// The object has an entry with key `k`.
pub open spec fn has_key<V>(o: Seq<(Seq<char>, V)>, k: Seq<char>) -> bool {
    exists|i: int| 0 <= i < o.len() && o[i].0 == k
}

/// The position of the first entry with key `k`.
pub open spec fn key_index<V>(o: Seq<(Seq<char>, V)>, k: Seq<char>) -> int {
    choose|i: int|
        0 <= i < o.len() && o[i].0 == k && forall|j: int| 0 <= j < i ==> o[j].0 != k
}

/// The value of key `k`.
pub open spec fn get_key<V>(o: Seq<(Seq<char>, V)>, k: Seq<char>) -> V {
    o[key_index(o, k)].1
}

/// `o` with `k` set to `v`: the value of an existing key is replaced in
/// place, a new key is added at the end.
pub open spec fn obj_insert<V>(o: Seq<(Seq<char>, V)>, k: Seq<char>, v: V) -> Seq<(Seq<char>, V)> {
    if has_key(o, k) {
        o.update(key_index(o, k), (k, v))
    } else {
        o.push((k, v))
    }
}

/// An existing value with `v` added: an array gets `v` at its end, any
/// other value becomes the array of itself and `v`.
pub open spec fn append_value(old: SpecJson, v: SpecJson) -> SpecJson {
    match old {
        SpecJson::Array(a) => SpecJson::Array(a.push(v)),
        _ => SpecJson::Array(seq![old, v]),
    }
}

/// `o` with `v` collected under `k`: added to the value of an existing
/// key by `append_value`, or set as a one-element array under a new key.
pub open spec fn obj_append(o: SpecObject, k: Seq<char>, v: SpecJson) -> SpecObject {
    if has_key(o, k) {
        obj_insert(o, k, append_value(get_key(o, k), v))
    } else {
        o.push((k, SpecJson::Array(seq![v])))
    }
}

/// No two entries of `o` have the same key.
pub open spec fn distinct_keys<V>(o: Seq<(Seq<char>, V)>) -> bool {
    forall|i: int, j: int| 0 <= i < j < o.len() ==> o[i].0 != o[j].0
}

/// Every object within `j`, `j` included, has pairwise distinct keys.
pub open spec fn well_keyed(j: SpecJson) -> bool
    decreases j,
{
    match j {
        SpecJson::Array(a) => forall|i: int| 0 <= i < a.len() ==> well_keyed(#[trigger] a[i]),
        SpecJson::Object(o) => distinct_keys(o) && forall|i: int|
            0 <= i < o.len() ==> well_keyed(#[trigger] o[i].1),
        _ => true,
    }
}

/// The entries of `o` have distinct keys and well-keyed values.
pub open spec fn object_ok(o: SpecObject) -> bool {
    distinct_keys(o) && forall|i: int| 0 <= i < o.len() ==> well_keyed(#[trigger] o[i].1)
}

pub proof fn lemma_insert_ok(o: SpecObject, k: Seq<char>, v: SpecJson)
    requires
        object_ok(o),
        well_keyed(v),
    ensures
        object_ok(obj_insert(o, k, v)),
{
    lemma_obj_insert(o, k, v);
    let r = obj_insert(o, k, v);
    if has_key(o, k) {
        lemma_key_index_exists(o, k);
        let i = key_index(o, k);
        assert forall|j: int| 0 <= j < r.len() implies well_keyed(#[trigger] r[j].1) by {
            if j != i {
                assert(r[j] == o[j]);
            }
        }
    } else {
        assert forall|j: int| 0 <= j < r.len() implies well_keyed(#[trigger] r[j].1) by {
            if j < o.len() {
                assert(r[j] == o[j]);
            }
        }
    }
}

pub proof fn lemma_append_ok(o: SpecObject, k: Seq<char>, v: SpecJson)
    requires
        object_ok(o),
        well_keyed(v),
    ensures
        object_ok(obj_append(o, k, v)),
{
    if has_key(o, k) {
        lemma_key_index_exists(o, k);
        let old = get_key(o, k);
        assert(well_keyed(old));
        let nv = append_value(old, v);
        match old {
            SpecJson::Array(a) => {
                assert forall|i: int| 0 <= i < a.push(v).len() implies well_keyed(#[trigger] a.push(v)[i]) by {
                    if i < a.len() {
                        assert(a.push(v)[i] == a[i]);
                    }
                }
            },
            _ => {
                let pair = seq![old, v];
                assert forall|i: int| 0 <= i < pair.len() implies well_keyed(#[trigger] pair[i]) by {
                    if i == 0 {
                        assert(pair[i] == old);
                    }
                }
            },
        }
        assert(well_keyed(nv));
        lemma_insert_ok(o, k, nv);
    } else {
        let single = seq![v];
        let nv = SpecJson::Array(single);
        assert forall|i: int| 0 <= i < single.len() implies well_keyed(#[trigger] single[i]) by {}
        assert(well_keyed(nv));
        lemma_insert_ok(o, k, nv);
        assert(obj_insert(o, k, nv) == obj_append(o, k, v));
    }
}

/// The keys of `o`.
pub open spec fn keys_of<V>(o: Seq<(Seq<char>, V)>) -> Set<Seq<char>> {
    Set::new(|k: Seq<char>| has_key(o, k))
}

pub proof fn lemma_key_index<V>(o: Seq<(Seq<char>, V)>, k: Seq<char>, i: int)
    requires
        0 <= i < o.len(),
        o[i].0 == k,
        forall|j: int| 0 <= j < i ==> o[j].0 != k,
    ensures
        has_key(o, k),
        key_index(o, k) == i,
{
    let c = key_index(o, k);
    assert(0 <= c < o.len() && o[c].0 == k && forall|j: int| 0 <= j < c ==> o[j].0 != k);
    if c < i {
        assert(o[c].0 != k);
    }
    if i < c {
        assert(o[i].0 != k);
    }
}

pub proof fn lemma_key_index_exists<V>(o: Seq<(Seq<char>, V)>, k: Seq<char>)
    requires
        has_key(o, k),
    ensures
        0 <= key_index(o, k) < o.len(),
        o[key_index(o, k)].0 == k,
        forall|j: int| 0 <= j < key_index(o, k) ==> o[j].0 != k,
    decreases o.len(),
{
    let i = choose|i: int| 0 <= i < o.len() && o[i].0 == k;
    lemma_first_index(o, k, i);
}

proof fn lemma_first_index<V>(o: Seq<(Seq<char>, V)>, k: Seq<char>, i: int)
    requires
        0 <= i < o.len(),
        o[i].0 == k,
    ensures
        exists|c: int| 0 <= c < o.len() && o[c].0 == k && forall|j: int| 0 <= j < c ==> o[j].0 != k,
    decreases i,
{
    if exists|j: int| 0 <= j < i && o[j].0 == k {
        let j = choose|j: int| 0 <= j < i && o[j].0 == k;
        lemma_first_index(o, k, j);
    } else {
        assert(0 <= i < o.len() && o[i].0 == k && forall|j: int| 0 <= j < i ==> o[j].0 != k);
    }
}

/// Inserting sets the value of `k`, keeps the other keys and their values,
/// and keeps keys distinct.
pub proof fn lemma_obj_insert<V>(o: Seq<(Seq<char>, V)>, k: Seq<char>, v: V)
    ensures
        distinct_keys(o) ==> distinct_keys(obj_insert(o, k, v)),
        has_key(obj_insert(o, k, v), k),
        get_key(obj_insert(o, k, v), k) == v,
        keys_of(obj_insert(o, k, v)) == keys_of(o).insert(k),
        forall|k2: Seq<char>|
            k2 != k ==> (has_key(obj_insert(o, k, v), k2) == has_key(o, k2)),
        forall|k2: Seq<char>|
            k2 != k && has_key(o, k2) ==> get_key(obj_insert(o, k, v), k2) == get_key(o, k2),
{
    let r = obj_insert(o, k, v);
    if has_key(o, k) {
        lemma_key_index_exists(o, k);
        let i = key_index(o, k);
        if distinct_keys(o) {
            assert forall|a: int, b: int| 0 <= a < b < r.len() implies r[a].0 != r[b].0 by {
                assert(r[a].0 == o[a].0);
                assert(r[b].0 == o[b].0);
            }
        }
        lemma_key_index(r, k, i);
        assert forall|k2: Seq<char>| k2 != k && has_key(o, k2) implies get_key(r, k2) == get_key(
            o,
            k2,
        ) by {
            lemma_key_index_exists(o, k2);
            let j = key_index(o, k2);
            assert forall|l: int| 0 <= l < j implies r[l].0 != k2 by {
                assert(r[l].0 == o[l].0);
            }
            lemma_key_index(r, k2, j);
        }
        assert forall|k2: Seq<char>| #[trigger] has_key(r, k2) == has_key(o, k2) by {
            if has_key(r, k2) {
                let j = choose|j: int| 0 <= j < r.len() && r[j].0 == k2;
                assert(o[j].0 == k2);
            }
            if has_key(o, k2) {
                let j = choose|j: int| 0 <= j < o.len() && o[j].0 == k2;
                assert(r[j].0 == k2);
            }
        }
        assert(keys_of(r) =~= keys_of(o).insert(k));
    } else {
        if distinct_keys(o) {
            assert forall|a: int, b: int| 0 <= a < b < r.len() implies r[a].0 != r[b].0 by {
                if b == o.len() {
                    assert(r[a].0 == o[a].0);
                }
            }
        }
        assert forall|j: int| 0 <= j < o.len() implies r[j].0 != k by {
            assert(r[j] == o[j]);
        }
        lemma_key_index(r, k, o.len() as int);
        assert forall|k2: Seq<char>| k2 != k && has_key(o, k2) implies get_key(r, k2) == get_key(
            o,
            k2,
        ) by {
            lemma_key_index_exists(o, k2);
            let j = key_index(o, k2);
            assert forall|l: int| 0 <= l < j implies r[l].0 != k2 by {
                assert(r[l] == o[l]);
            }
            lemma_key_index(r, k2, j);
        }
        assert forall|k2: Seq<char>| #[trigger] has_key(r, k2) == (has_key(o, k2) || k2 == k) by {
            if has_key(r, k2) {
                let j = choose|j: int| 0 <= j < r.len() && r[j].0 == k2;
                if j < o.len() {
                    assert(o[j].0 == k2);
                }
            }
            if has_key(o, k2) {
                let j = choose|j: int| 0 <= j < o.len() && o[j].0 == k2;
                assert(r[j].0 == k2);
            }
            if k2 == k {
                assert(r[o.len() as int].0 == k);
            }
        }
        assert(keys_of(r) =~= keys_of(o).insert(k));
    }
}

/// Collecting puts `v` last in the array under `k`, keeps the other keys
/// and their values, and keeps keys distinct.
pub proof fn lemma_obj_append(o: SpecObject, k: Seq<char>, v: SpecJson)
    ensures
        distinct_keys(o) ==> distinct_keys(obj_append(o, k, v)),
        has_key(obj_append(o, k, v), k),
        get_key(obj_append(o, k, v), k) == (if has_key(o, k) {
            append_value(get_key(o, k), v)
        } else {
            SpecJson::Array(seq![v])
        }),
        keys_of(obj_append(o, k, v)) == keys_of(o).insert(k),
        forall|k2: Seq<char>|
            k2 != k ==> (has_key(obj_append(o, k, v), k2) == has_key(o, k2)),
        forall|k2: Seq<char>|
            k2 != k && has_key(o, k2) ==> get_key(obj_append(o, k, v), k2) == get_key(o, k2),
{
    if has_key(o, k) {
        lemma_obj_insert(o, k, append_value(get_key(o, k), v));
    } else {
        lemma_obj_insert(o, k, SpecJson::Array(seq![v]));
        assert(obj_insert(o, k, SpecJson::Array(seq![v])) == obj_append(o, k, v));
    }
}

impl JsonValue {
    /// A copy of this value.
    pub fn deep_copy(&self) -> (res: JsonValue)
        ensures
            res@ == self@,
        decreases self,
    {
        match self {
            JsonValue::Null => JsonValue::Null,
            JsonValue::Bool(b) => JsonValue::Bool(*b),
            JsonValue::Number(n) => JsonValue::Number(*n),
            JsonValue::Float(t) => JsonValue::Float(t.clone()),
            JsonValue::String(t) => JsonValue::String(t.clone()),
            JsonValue::Array(v) => {
                let mut out: Vec<JsonValue> = Vec::new();
                let mut i: usize = 0;
                while i < v.len()
                    invariant
                        i <= v.len(),
                        *self == JsonValue::Array(*v),
                        out.len() == i,
                        forall|j: int| 0 <= j < i ==> #[trigger] out@[j]@ == v@[j]@,
                    decreases v.len() - i,
                {
                    proof {
                        assert(decreases_to!(*self => self->Array_0));
                        assert(decreases_to!(*v => v@));
                        assert(decreases_to!(v@ => v@[i as int]));
                    }
                    let c = v[i].deep_copy();
                    out.push(c);
                    i = i + 1;
                }
                proof {
                    lemma_array_view(out);
                    lemma_array_view(*v);
                    assert(values_view(out@) =~= values_view(v@));
                }
                JsonValue::Array(out)
            },
            JsonValue::Object(v) => {
                let mut out: Vec<(String, JsonValue)> = Vec::new();
                let mut i: usize = 0;
                while i < v.len()
                    invariant
                        i <= v.len(),
                        *self == JsonValue::Object(*v),
                        out.len() == i,
                        forall|j: int|
                            0 <= j < i ==> #[trigger] out@[j].0@ == v@[j].0@ && out@[j].1@
                                == v@[j].1@,
                    decreases v.len() - i,
                {
                    proof {
                        assert(decreases_to!(*self => self->Object_0));
                        assert(decreases_to!(*v => v@));
                        assert(decreases_to!(v@ => v@[i as int]));
                        assert(decreases_to!(v@[i as int] => v@[i as int].1));
                    }
                    let k = v[i].0.clone();
                    let c = v[i].1.deep_copy();
                    out.push((k, c));
                    i = i + 1;
                }
                proof {
                    lemma_object_view(out);
                    lemma_object_view(*v);
                    assert(object_view(out@) =~= object_view(v@));
                }
                JsonValue::Object(out)
            },
        }
    }
}

/// The position of the first entry of `o` with key `k`.
pub fn find_key(o: &Vec<(String, JsonValue)>, k: &String) -> (res: Option<usize>)
    ensures
        res is None <==> !has_key(object_view(o@), k@),
        res matches Some(i) ==> i == key_index(object_view(o@), k@) && i < o.len(),
{
    let ghost ov = object_view(o@);
    let mut i: usize = 0;
    while i < o.len()
        invariant
            i <= o.len(),
            ov == object_view(o@),
            forall|j: int| 0 <= j < i ==> ov[j].0 != k@,
        decreases o.len() - i,
    {
        if o[i].0 == *k {
            proof {
                lemma_key_index(ov, k@, i as int);
            }
            return Some(i);
        }
        i = i + 1;
    }
    None
}

/// Sets key `k` of the object `o` to `v`.
pub fn object_insert(o: &mut Vec<(String, JsonValue)>, k: String, v: JsonValue)
    ensures
        object_view(final(o)@) == obj_insert(object_view(old(o)@), k@, v@),
{
    let ghost ov = object_view(o@);
    match find_key(o, &k) {
        Some(i) => {
            proof {
                lemma_key_index_exists(ov, k@);
            }
            o.set(i, (k, v));
            assert(object_view(o@) =~= ov.update(i as int, (k@, v@)));
        },
        None => {
            o.push((k, v));
            assert(object_view(o@) =~= ov.push((k@, v@)));
        },
    }
}

/// Collects `v` under key `k` of the object `o`.
pub fn object_append(o: &mut Vec<(String, JsonValue)>, k: String, v: JsonValue)
    ensures
        object_view(final(o)@) == obj_append(object_view(old(o)@), k@, v@),
{
    let ghost ov = object_view(o@);
    match find_key(o, &k) {
        Some(i) => {
            proof {
                lemma_key_index_exists(ov, k@);
            }
            let ghost before = o@;
            let (key, old_value) = o.remove(i);
            assert(old_value@ == get_key(ov, k@));
            let new_value = match old_value {
                JsonValue::Array(a) => {
                    let mut a = a;
                    proof {
                        lemma_array_view(a);
                    }
                    let ghost av = values_view(a@);
                    a.push(v);
                    proof {
                        lemma_array_view(a);
                        assert(values_view(a@) =~= av.push(v@));
                    }
                    JsonValue::Array(a)
                },
                other => {
                    let ghost ow = other@;
                    let mut a: Vec<JsonValue> = Vec::new();
                    a.push(other);
                    a.push(v);
                    proof {
                        lemma_array_view(a);
                        assert(values_view(a@) =~= seq![ow, v@]);
                    }
                    JsonValue::Array(a)
                },
            };
            assert(new_value@ == append_value(get_key(ov, k@), v@));
            let ghost entry = (key, new_value);
            o.insert(i, (key, new_value));
            assert(o@ =~= before.update(i as int, entry));
            assert(key@ == ov[i as int].0);
            assert forall|j: int| 0 <= j < ov.len() implies #[trigger] object_view(o@)[j] == ov.update(
                i as int,
                (k@, new_value@),
            )[j] by {
                if j != i {
                    assert(o@[j] == before[j]);
                }
            }
            assert(object_view(o@) =~= ov.update(i as int, (k@, new_value@)));
        },
        None => {
            let mut a: Vec<JsonValue> = Vec::new();
            a.push(v);
            proof {
                lemma_array_view(a);
                assert(values_view(a@) =~= seq![v@]);
            }
            o.push((k, JsonValue::Array(a)));
            assert(object_view(o@) =~= ov.push((k@, SpecJson::Array(seq![v@]))));
        },
    }
}

} // verus!
