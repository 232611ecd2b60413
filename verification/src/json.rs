//! JSON values as the library handles them: strings are UTF-8 bytes, a
//! number keeps its decimal text (and its value when it is a `u64`), and an
//! object keeps its members in order. Lookups find the first member with a
//! key and setting a member replaces that one, so an object built by these
//! operations (or parsed, where keys are unique) never repeats a key.

use vstd::prelude::*;
use vstd::string::StringSliceAdditionalSpecFns;
use crate::text::{bytes_eq, copy_range};

verus! {

/// Abstract value of a JSON document.
pub enum JsonV {
    Null,
    Bool(bool),
    Num(Seq<u8>, Option<u64>),
    Str(Seq<u8>),
    Array(Seq<JsonV>),
    Object(Seq<(Seq<u8>, JsonV)>),
}

pub struct JsonNumber {
    /// The number as written in JSON.
    pub text: Vec<u8>,
    /// Its value when it is a non-negative integer that fits in a `u64`.
    pub unsigned: Option<u64>,
}

pub enum Json {
    Null,
    Bool(bool),
    Number(JsonNumber),
    Str(Vec<u8>),
    Array(Vec<Json>),
    Object(Vec<(Vec<u8>, Json)>),
}

pub open spec fn json_view(j: Json) -> JsonV
    decreases j,
{
    match j {
        Json::Null => JsonV::Null,
        Json::Bool(b) => JsonV::Bool(b),
        Json::Number(n) => JsonV::Num(n.text@, n.unsigned),
        Json::Str(s) => JsonV::Str(s@),
        Json::Array(v) => JsonV::Array(array_view(v@)),
        Json::Object(f) => JsonV::Object(fields_view(f@)),
    }
}

pub open spec fn array_view(s: Seq<Json>) -> Seq<JsonV>
    decreases s,
{
    if s.len() == 0 {
        Seq::empty()
    } else {
        array_view(s.drop_last()).push(json_view(s.last()))
    }
}

pub open spec fn fields_view(s: Seq<(Vec<u8>, Json)>) -> Seq<(Seq<u8>, JsonV)>
    decreases s,
{
    if s.len() == 0 {
        Seq::empty()
    } else {
        fields_view(s.drop_last()).push((s.last().0@, json_view(s.last().1)))
    }
}

impl View for Json {
    type V = JsonV;

    open spec fn view(&self) -> JsonV {
        json_view(*self)
    }
}

pub proof fn lemma_array_view(s: Seq<Json>)
    ensures
        array_view(s).len() == s.len(),
        forall|i: int| 0 <= i < s.len() ==> #[trigger] array_view(s)[i] == json_view(s[i]),
    decreases s.len(),
{
    if s.len() > 0 {
        lemma_array_view(s.drop_last());
    }
}

pub proof fn lemma_fields_view(s: Seq<(Vec<u8>, Json)>)
    ensures
        fields_view(s).len() == s.len(),
        forall|i: int|
            0 <= i < s.len() ==> #[trigger] fields_view(s)[i] == (s[i].0@, json_view(s[i].1)),
    decreases s.len(),
{
    if s.len() > 0 {
        lemma_fields_view(s.drop_last());
    }
}

/// `array_view` commutes with building, updating and splitting sequences.
pub proof fn lemma_array_view_ops(s: Seq<Json>)
    ensures
        forall|x: Json| #[trigger] array_view(s.push(x)) == array_view(s).push(json_view(x)),
        forall|i: int, x: Json|
            0 <= i < s.len() ==> #[trigger] array_view(s.update(i, x)) == array_view(s).update(
                i,
                json_view(x),
            ),
        forall|a: int, b: int|
            0 <= a <= b <= s.len() ==> #[trigger] array_view(s.subrange(a, b)) == array_view(
                s,
            ).subrange(a, b),
{
    lemma_array_view(s);
    assert forall|x: Json| #[trigger] array_view(s.push(x)) == array_view(s).push(json_view(x)) by {
        assert(s.push(x).drop_last() == s);
    }
    assert forall|i: int, x: Json| 0 <= i < s.len() implies #[trigger] array_view(s.update(i, x))
        == array_view(s).update(i, json_view(x)) by {
        lemma_array_view(s.update(i, x));
        assert(array_view(s.update(i, x)) =~= array_view(s).update(i, json_view(x)));
    }
    assert forall|a: int, b: int| 0 <= a <= b <= s.len() implies #[trigger] array_view(
        s.subrange(a, b),
    ) == array_view(s).subrange(a, b) by {
        lemma_array_view(s.subrange(a, b));
        assert(array_view(s.subrange(a, b)) =~= array_view(s).subrange(a, b));
    }
}

/// `array_view` of a concatenation is the concatenation of the views.
pub proof fn lemma_array_view_concat(a: Seq<Json>, b: Seq<Json>)
    ensures
        array_view(a + b) == array_view(a) + array_view(b),
    decreases b.len(),
{
    if b.len() == 0 {
        assert(a + b =~= a);
        assert(array_view(a) + array_view(b) =~= array_view(a));
    } else {
        lemma_array_view_concat(a, b.drop_last());
        assert((a + b).drop_last() =~= a + b.drop_last());
        assert((a + b).last() == b.last());
        assert(array_view(a) + array_view(b) =~= (array_view(a) + array_view(b.drop_last())).push(
            json_view(b.last()),
        ));
    }
}

/// `fields_view` commutes with pushing and updating members.
pub proof fn lemma_fields_view_ops(s: Seq<(Vec<u8>, Json)>)
    ensures
        forall|m: (Vec<u8>, Json)| #[trigger]
            fields_view(s.push(m)) == fields_view(s).push((m.0@, json_view(m.1))),
        forall|i: int, m: (Vec<u8>, Json)|
            0 <= i < s.len() ==> #[trigger] fields_view(s.update(i, m)) == fields_view(s).update(
                i,
                (m.0@, json_view(m.1)),
            ),
{
    lemma_fields_view(s);
    assert forall|m: (Vec<u8>, Json)| #[trigger]
        fields_view(s.push(m)) == fields_view(s).push((m.0@, json_view(m.1))) by {
        assert(s.push(m).drop_last() == s);
    }
    assert forall|i: int, m: (Vec<u8>, Json)| 0 <= i < s.len() implies #[trigger] fields_view(
        s.update(i, m),
    ) == fields_view(s).update(i, (m.0@, json_view(m.1))) by {
        lemma_fields_view(s.update(i, m));
        assert(fields_view(s.update(i, m)) =~= fields_view(s).update(i, (m.0@, json_view(m.1))));
    }
}

// ----- abstract operations -----
/// Index of the member named `key` at or after `i`, or -1.
pub open spec fn find_key(fields: Seq<(Seq<u8>, JsonV)>, key: Seq<u8>, i: int) -> int
    decreases fields.len() - i,
{
    if i < 0 || i >= fields.len() {
        -1
    } else if fields[i].0 == key {
        i
    } else {
        find_key(fields, key, i + 1)
    }
}

pub proof fn lemma_find_key(fields: Seq<(Seq<u8>, JsonV)>, key: Seq<u8>, i: int)
    requires
        0 <= i,
    ensures
        find_key(fields, key, i) == -1 || (i <= find_key(fields, key, i) < fields.len()
            && fields[find_key(fields, key, i)].0 == key),
        find_key(fields, key, i) == -1 ==> forall|j: int|
            i <= j < fields.len() ==> #[trigger] fields[j].0 != key,
    decreases fields.len() - i,
{
    if i < fields.len() && fields[i].0 != key {
        lemma_find_key(fields, key, i + 1);
    }
}

/// `find_key` is the first index at or after `i` whose key matches.
pub proof fn lemma_find_key_first(fields: Seq<(Seq<u8>, JsonV)>, key: Seq<u8>, i: int, r: int)
    requires
        0 <= i <= r,
        r <= fields.len(),
        forall|j: int| i <= j < r ==> #[trigger] fields[j].0 != key,
        r < fields.len() ==> fields[r].0 == key,
    ensures
        find_key(fields, key, i) == if r < fields.len() {
            r
        } else {
            -1
        },
    decreases r - i,
{
    if i < r {
        lemma_find_key_first(fields, key, i + 1, r);
    }
}

/// Member `key` of an object (`Value::get`); `None` for other values.
pub open spec fn jget(v: JsonV, key: Seq<u8>) -> Option<JsonV> {
    match v {
        JsonV::Object(f) => {
            let k = find_key(f, key, 0);
            if k >= 0 {
                Some(f[k].1)
            } else {
                None
            }
        },
        _ => None,
    }
}

/// Sets member `key` of an object (`Map::insert`): replaced in place when
/// present, appended otherwise; other values are unchanged.
pub open spec fn jinsert(v: JsonV, key: Seq<u8>, val: JsonV) -> JsonV {
    match v {
        JsonV::Object(f) => {
            let k = find_key(f, key, 0);
            if k >= 0 {
                JsonV::Object(f.update(k, (key, val)))
            } else {
                JsonV::Object(f.push((key, val)))
            }
        },
        _ => v,
    }
}

pub open spec fn is_object(v: JsonV) -> bool {
    v is Object
}

/// The string held by member `key` (`get(key).and_then(as_str)`).
pub open spec fn field_str(v: JsonV, key: Seq<u8>) -> Option<Seq<u8>> {
    match jget(v, key) {
        Some(JsonV::Str(s)) => Some(s),
        _ => None,
    }
}

/// `field_str`, or `default` when absent or not a string.
pub open spec fn field_str_or(v: JsonV, key: Seq<u8>, default: Seq<u8>) -> Seq<u8> {
    match field_str(v, key) {
        Some(s) => s,
        None => default,
    }
}

pub open spec fn key_type() -> Seq<u8> {
    "type".spec_bytes()
}

pub open spec fn key_text() -> Seq<u8> {
    "text".spec_bytes()
}

/// `{"type": "text", "text": t}`.
pub open spec fn text_block(t: Seq<u8>) -> JsonV {
    JsonV::Object(seq![(key_type(), JsonV::Str(key_text())), (key_text(), JsonV::Str(t))])
}

// ----- exec operations -----
/// The UTF-8 bytes of a literal.
pub fn lit(s: &str) -> (r: Vec<u8>)
    ensures
        r@ == s.spec_bytes(),
{
    let b = s.as_bytes();
    let r = copy_range(b, 0, b.len());
    assert(b@.subrange(0, b@.len() as int) == b@);
    r
}

impl Json {
    /// Position of member `key` in an object.
    pub fn key_position(fields: &Vec<(Vec<u8>, Json)>, key: &[u8]) -> (r: Option<usize>)
        ensures
            match r {
                Some(i) => find_key(fields_view(fields@), key@, 0) == i as int && i < fields@.len()
                    && fields@[i as int].0@ == key@,
                None => find_key(fields_view(fields@), key@, 0) == -1,
            },
    {
        let ghost fv = fields_view(fields@);
        proof {
            lemma_fields_view(fields@);
        }
        let mut i: usize = 0;
        while i < fields.len()
            invariant
                i <= fields@.len(),
                fv == fields_view(fields@),
                fv.len() == fields@.len(),
                find_key(fv, key@, 0) == find_key(fv, key@, i as int),
            decreases fields@.len() - i,
        {
            proof {
                lemma_fields_view(fields@);
            }
            assert(fv[i as int].0 == fields@[i as int].0@);
            if bytes_eq(fields[i].0.as_slice(), key) {
                return Some(i);
            }
            i = i + 1;
        }
        None
    }

    /// Member `key` of an object (`Value::get`).
    pub fn get(&self, key: &[u8]) -> (r: Option<&Json>)
        ensures
            match r {
                Some(x) => jget(self@, key@) == Some(x@),
                None => jget(self@, key@) is None,
            },
    {
        match self {
            Json::Object(fields) => {
                proof {
                    lemma_fields_view(fields@);
                }
                match Self::key_position(fields, key) {
                    Some(i) => Some(&fields[i].1),
                    None => None,
                }
            },
            _ => None,
        }
    }

    /// The string held by member `key`.
    pub fn get_str(&self, key: &[u8]) -> (r: Option<&Vec<u8>>)
        ensures
            match r {
                Some(s) => field_str(self@, key@) == Some(s@),
                None => field_str(self@, key@) is None,
            },
    {
        match self.get(key) {
            Some(Json::Str(s)) => Some(s),
            _ => None,
        }
    }

    /// Whether member `key` holds the string `s`.
    pub fn field_is(&self, key: &[u8], s: &[u8]) -> (r: bool)
        ensures
            r == (field_str(self@, key@) == Some(s@)),
    {
        match self.get_str(key) {
            Some(t) => bytes_eq(t.as_slice(), s),
            None => false,
        }
    }

    pub fn is_object(&self) -> (r: bool)
        ensures
            r == is_object(self@),
    {
        match self {
            Json::Object(_) => true,
            _ => false,
        }
    }

    /// Sets member `key` of an object (`Map::insert`); other values are left
    /// unchanged.
    pub fn insert(&mut self, key: Vec<u8>, val: Json)
        ensures
            final(self)@ == jinsert(old(self)@, key@, val@),
    {
        let ghost kv = key@;
        let ghost vv = val@;
        let mut cur = Json::Null;
        std::mem::swap(&mut cur, self);
        let ghost cur0 = cur;
        assert(cur0 == *old(self));
        match cur {
            Json::Object(mut fields) => {
                let ghost f0 = fields@;
                assert(cur0@ == JsonV::Object(fields_view(f0)));
                proof {
                    lemma_fields_view_ops(f0);
                }
                match Self::key_position(&fields, key.as_slice()) {
                    Some(i) => {
                        fields.set(i, (key, val));
                        assert(fields_view(fields@) == fields_view(f0).update(i as int, (kv, vv)));
                        assert(find_key(fields_view(f0), kv, 0) == i);
                        assert(json_view(Json::Object(fields)) == JsonV::Object(fields_view(fields@)));
                    },
                    None => {
                        fields.push((key, val));
                        assert(fields_view(fields@) == fields_view(f0).push((kv, vv)));
                    },
                }
                *self = Json::Object(fields);
                assert(self@ == jinsert(cur0@, kv, vv));
            },
            other => {
                *self = other;
            },
        }
    }

    /// Takes member `key` out of an object, leaving `null` in its place.
    pub fn take(&mut self, key: &[u8]) -> (r: Option<Json>)
        ensures
            match r {
                Some(x) => jget(old(self)@, key@) == Some(x@) && final(self)@ == jinsert(
                    old(self)@,
                    key@,
                    JsonV::Null,
                ),
                None => jget(old(self)@, key@) is None && final(self)@ == old(self)@,
            },
    {
        let mut cur = Json::Null;
        std::mem::swap(&mut cur, self);
        let ghost cur0 = cur;
        assert(cur0 == *old(self));
        match cur {
            Json::Object(mut fields) => {
                let ghost f0 = fields@;
                proof {
                    lemma_fields_view(f0);
                    lemma_fields_view_ops(f0);
                }
                match Self::key_position(&fields, key) {
                    Some(i) => {
                        let k = copy_range(key, 0, key.len());
                        assert(key@.subrange(0, key@.len() as int) == key@);
                        let ghost m = (k, Json::Null);
                        let mut old_member = (k, Json::Null);
                        std::mem::swap(&mut old_member, &mut fields[i]);
                        assert(fields@ == f0.update(i as int, m));
                        assert(old_member == f0[i as int]);
                        let (_, v) = old_member;
                        assert(fields_view(fields@) == fields_view(f0).update(
                            i as int,
                            (key@, JsonV::Null),
                        ));
                        assert(cur0@ == JsonV::Object(fields_view(f0)));
                        *self = Json::Object(fields);
                        assert(self@ == jinsert(cur0@, key@, JsonV::Null));
                        Some(v)
                    },
                    None => {
                        *self = Json::Object(fields);
                        None
                    },
                }
            },
            other => {
                *self = other;
                None
            },
        }
    }

    /// A deep copy.
    pub fn deep_clone(&self) -> (r: Json)
        ensures
            r@ == self@,
        decreases self,
    {
        match self {
            Json::Null => Json::Null,
            Json::Bool(b) => Json::Bool(*b),
            Json::Number(n) => {
                let t = copy_range(n.text.as_slice(), 0, n.text.len());
                assert(n.text@.subrange(0, n.text@.len() as int) == n.text@);
                Json::Number(JsonNumber { text: t, unsigned: n.unsigned })
            },
            Json::Str(s) => {
                let t = copy_range(s.as_slice(), 0, s.len());
                assert(s@.subrange(0, s@.len() as int) == s@);
                Json::Str(t)
            },
            Json::Array(v) => {
                let mut out: Vec<Json> = Vec::new();
                let mut i: usize = 0;
                proof {
                    lemma_array_view(v@);
                }
                while i < v.len()
                    invariant
                        i <= v@.len(),
                        *self == Json::Array(*v),
                        array_view(out@) == array_view(v@).subrange(0, i as int),
                    decreases v@.len() - i,
                {
                    proof {
                        let tt = *self;
                        let vv = tt->Array_0;
                        assert(vv == *v);
                        assert(decreases_to!(tt => vv));
                        assert(decreases_to!(vv => vv@));
                        assert(decreases_to!(vv@ => vv@[i as int]));
                        assert(decreases_to!(tt => vv@[i as int]));
                    }
                    let c = v[i].deep_clone();
                    proof {
                        lemma_array_view_ops(out@);
                        lemma_array_view(v@);
                    }
                    out.push(c);
                    assert(array_view(v@).subrange(0, i + 1) == array_view(v@).subrange(
                        0,
                        i as int,
                    ).push(json_view(v@[i as int])));
                    i = i + 1;
                }
                assert(array_view(v@).subrange(0, v@.len() as int) == array_view(v@));
                Json::Array(out)
            },
            Json::Object(f) => {
                let mut out: Vec<(Vec<u8>, Json)> = Vec::new();
                let mut i: usize = 0;
                proof {
                    lemma_fields_view(f@);
                }
                while i < f.len()
                    invariant
                        i <= f@.len(),
                        *self == Json::Object(*f),
                        fields_view(out@) == fields_view(f@).subrange(0, i as int),
                    decreases f@.len() - i,
                {
                    let k = copy_range(f[i].0.as_slice(), 0, f[i].0.len());
                    assert(f@[i as int].0@.subrange(0, f@[i as int].0@.len() as int)
                        == f@[i as int].0@);
                    proof {
                        let tt = *self;
                        let ff = tt->Object_0;
                        assert(ff == *f);
                        assert(decreases_to!(tt => ff));
                        assert(decreases_to!(ff => ff@));
                        assert(decreases_to!(ff@ => ff@[i as int]));
                        assert(decreases_to!(ff@[i as int] => ff@[i as int].1));
                        assert(decreases_to!(tt => ff@[i as int].1));
                    }
                    let c = f[i].1.deep_clone();
                    proof {
                        lemma_fields_view_ops(out@);
                        lemma_fields_view(f@);
                    }
                    out.push((k, c));
                    assert(fields_view(f@).subrange(0, i + 1) == fields_view(f@).subrange(
                        0,
                        i as int,
                    ).push((f@[i as int].0@, json_view(f@[i as int].1))));
                    i = i + 1;
                }
                assert(fields_view(f@).subrange(0, f@.len() as int) == fields_view(f@));
                Json::Object(out)
            },
        }
    }
}

/// `{"type": "text", "text": t}`.
pub fn make_text_block(t: Vec<u8>) -> (r: Json)
    ensures
        r@ == text_block(t@),
{
    let mut fields: Vec<(Vec<u8>, Json)> = Vec::new();
    fields.push((lit("type"), Json::Str(lit("text"))));
    fields.push((lit("text"), Json::Str(t)));
    let r = Json::Object(fields);
    proof {
        lemma_fields_view(fields@);
        assert(fields_view(fields@) =~= seq![
            (key_type(), JsonV::Str(key_text())),
            (key_text(), JsonV::Str(t@)),
        ]);
    }
    r
}

/// Setting a member twice keeps the second value.
pub proof fn lemma_insert_twice(v: JsonV, key: Seq<u8>, a: JsonV, b: JsonV)
    ensures
        jinsert(jinsert(v, key, a), key, b) == jinsert(v, key, b),
{
    match v {
        JsonV::Object(f) => {
            lemma_find_key(f, key, 0);
            let k = find_key(f, key, 0);
            if k >= 0 {
                let f1 = f.update(k, (key, a));
                assert forall|j: int| 0 <= j < k implies #[trigger] f1[j].0 != key by {
                    lemma_find_key_first_before(f, key, k, j);
                }
                lemma_find_key_first(f1, key, 0, k);
                assert(f1.update(k, (key, b)) =~= f.update(k, (key, b)));
            } else {
                let f1 = f.push((key, a));
                assert forall|j: int| 0 <= j < f.len() implies #[trigger] f1[j].0 != key by {
                    assert(f1[j] == f[j]);
                }
                lemma_find_key_first(f1, key, 0, f.len() as int);
                assert(f1.update(f.len() as int, (key, b)) =~= f.push((key, b)));
            }
        },
        _ => {},
    }
}

proof fn lemma_find_key_first_before(f: Seq<(Seq<u8>, JsonV)>, key: Seq<u8>, k: int, j: int)
    requires
        k == find_key(f, key, 0),
        0 <= j < k,
    ensures
        f[j].0 != key,
{
    lemma_find_key(f, key, 0);
    lemma_find_key_prefix(f, key, 0, j);
}

proof fn lemma_find_key_prefix(f: Seq<(Seq<u8>, JsonV)>, key: Seq<u8>, i: int, j: int)
    requires
        0 <= i <= j,
        find_key(f, key, i) > j || find_key(f, key, i) == -1,
        j < f.len(),
    ensures
        f[j].0 != key,
    decreases j - i,
{
    if i < j {
        lemma_find_key_prefix(f, key, i + 1, j);
    }
}

/// Setting a member to the value it already holds changes nothing.
pub proof fn lemma_insert_same(v: JsonV, key: Seq<u8>)
    requires
        jget(v, key) is Some,
    ensures
        jinsert(v, key, jget(v, key).unwrap()) == v,
{
    match v {
        JsonV::Object(f) => {
            lemma_find_key(f, key, 0);
            let k = find_key(f, key, 0);
            assert(f.update(k, (key, f[k].1)) =~= f);
        },
        _ => {},
    }
}

/// Reading a member right after setting it gives the value set.
pub proof fn lemma_get_insert(v: JsonV, key: Seq<u8>, val: JsonV)
    requires
        v is Object,
    ensures
        jget(jinsert(v, key, val), key) == Some(val),
{
    lemma_insert_twice(v, key, val, val);
    match v {
        JsonV::Object(f) => {
            lemma_find_key(f, key, 0);
            let k = find_key(f, key, 0);
            if k >= 0 {
                let f1 = f.update(k, (key, val));
                assert forall|j: int| 0 <= j < k implies #[trigger] f1[j].0 != key by {
                    lemma_find_key_first_before(f, key, k, j);
                }
                lemma_find_key_first(f1, key, 0, k);
            } else {
                let f1 = f.push((key, val));
                assert forall|j: int| 0 <= j < f.len() implies #[trigger] f1[j].0 != key by {
                    assert(f1[j] == f[j]);
                }
                lemma_find_key_first(f1, key, 0, f.len() as int);
            }
        },
        _ => {},
    }
}

} // verus!
