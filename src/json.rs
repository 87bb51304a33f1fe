//! A JSON document model owned by the library. Objects keep their members
//! in order; a lookup finds the first member with the key.
use vstd::prelude::*;
use crate::text::str_eq;

verus! {

/// A JSON value. Integers that fit in `i64` are `Int`; every other number
/// keeps its JSON text in `Number`.
#[derive(Debug)]
pub enum JsonValue {
    Null,
    Bool(bool),
    Int(i64),
    Number(String),
    Str(String),
    Array(Vec<JsonValue>),
    Object(Vec<(String, JsonValue)>),
}

/// The value of the first member of `fields` whose key is `key`.
pub open spec fn lookup(fields: Seq<(String, JsonValue)>, key: Seq<char>) -> Option<JsonValue>
    decreases fields.len(),
{
    if fields.len() == 0 {
        None
    } else if fields[0].0@ == key {
        Some(fields[0].1)
    } else {
        lookup(fields.drop_first(), key)
    }
}

/// Members of `fields` from index `i` on.
proof fn lemma_lookup_step(fields: Seq<(String, JsonValue)>, key: Seq<char>, i: int)
    requires
        0 <= i < fields.len(),
        fields[i].0@ != key,
    ensures
        lookup(fields.skip(i), key) == lookup(fields.skip(i + 1), key),
{
    assert(fields.skip(i).drop_first() =~= fields.skip(i + 1));
}

/// With keys that differ from every earlier one, each member is found.
pub proof fn lemma_lookup_at(fields: Seq<(String, JsonValue)>, i: int)
    requires
        0 <= i < fields.len(),
        forall|j: int| 0 <= j < i ==> fields[j].0@ != fields[i].0@,
    ensures
        lookup(fields, fields[i].0@) == Some(fields[i].1),
    decreases i,
{
    if i > 0 {
        assert(fields.drop_first()[i - 1] == fields[i]);
        lemma_lookup_at(fields.drop_first(), i - 1);
    }
}

/// Looking a key up after a member is appended: the old members come first.
pub proof fn lemma_lookup_push(fields: Seq<(String, JsonValue)>, k: String, v: JsonValue, key: Seq<char>)
    ensures
        lookup(fields.push((k, v)), key) == (if lookup(fields, key) is Some {
            lookup(fields, key)
        } else if k@ == key {
            Some(v)
        } else {
            None
        }),
    decreases fields.len(),
{
    let g = fields.push((k, v));
    if fields.len() > 0 {
        assert(g[0] == fields[0]);
        assert(g.drop_first() =~= fields.drop_first().push((k, v)));
        lemma_lookup_push(fields.drop_first(), k, v, key);
    } else {
        assert(g.drop_first() =~= Seq::<(String, JsonValue)>::empty());
        assert(lookup(g.drop_first(), key) is None);
    }
}

/// Replacing the value of member `i`, the first one with its key.
proof fn lemma_lookup_update(
    fields: Seq<(String, JsonValue)>,
    i: int,
    k: String,
    v: JsonValue,
    key: Seq<char>,
)
    requires
        0 <= i < fields.len(),
        k@ == fields[i].0@,
        forall|j: int| 0 <= j < i ==> fields[j].0@ != fields[i].0@,
    ensures
        lookup(fields.update(i, (k, v)), key) == (if key == k@ {
            Some(v)
        } else {
            lookup(fields, key)
        }),
    decreases i,
{
    let g = fields.update(i, (k, v));
    if i > 0 {
        assert(g[0] == fields[0]);
        assert(g.drop_first() =~= fields.drop_first().update(i - 1, (k, v)));
        lemma_lookup_update(fields.drop_first(), i - 1, k, v, key);
    } else {
        assert(g.drop_first() =~= fields.drop_first());
    }
}

/// A text member read with a default: the default when the member is
/// missing, its text when it is a string, `None` for any other value.
pub open spec fn text_or(v: Option<JsonValue>, default: Seq<char>) -> Option<Seq<char>> {
    match v {
        None => Some(default),
        Some(JsonValue::Str(s)) => Some(s@),
        Some(_) => None,
    }
}

/// A member that holds a list of strings: empty when missing, the texts
/// when it is an array of strings, `None` for any other value.
pub open spec fn texts_or_empty(v: Option<JsonValue>) -> Option<Seq<Seq<char>>> {
    match v {
        None => Some(Seq::empty()),
        Some(JsonValue::Array(a)) => if forall|i: int| 0 <= i < a@.len() ==> (#[trigger] a@[i]) is Str {
            Some(Seq::new(a@.len(), |i: int| a@[i]->Str_0@))
        } else {
            None
        },
        Some(_) => None,
    }
}

/// An `i32` member read with a default: the default when missing, the
/// integer when it fits in `i32`, `None` otherwise.
pub open spec fn i32_or(v: Option<JsonValue>, default: i32) -> Option<i32> {
    match v {
        None => Some(default),
        Some(JsonValue::Int(n)) => if i32::MIN <= n <= i32::MAX {
            Some(n as i32)
        } else {
            None
        },
        Some(_) => None,
    }
}

/// A boolean member read with a default.
pub open spec fn bool_or(v: Option<JsonValue>, default: bool) -> Option<bool> {
    match v {
        None => Some(default),
        Some(JsonValue::Bool(b)) => Some(b),
        Some(_) => None,
    }
}

/// The texts of a list of strings.
pub open spec fn texts(v: Seq<String>) -> Seq<Seq<char>> {
    v.map_values(|s: String| s@)
}

/// A copy of a list of strings.
pub fn clone_strings(v: &Vec<String>) -> (r: Vec<String>)
    ensures
        r@ == v@,
{
    let mut r: Vec<String> = Vec::new();
    let mut i: usize = 0;
    while i < v.len()
        invariant
            i <= v.len(),
            r@ == v@.subrange(0, i as int),
        decreases v.len() - i,
    {
        r.push(v[i].clone());
        assert(r@ =~= v@.subrange(0, i + 1));
        i = i + 1;
    }
    assert(r@ =~= v@);
    r
}

/// A JSON array of strings.
pub fn strings_to_json(v: &Vec<String>) -> (r: JsonValue)
    ensures
        texts_or_empty(Some(r)) == Some(texts(v@)),
{
    let mut a: Vec<JsonValue> = Vec::new();
    let mut i: usize = 0;
    while i < v.len()
        invariant
            i <= v.len(),
            a@.len() == i,
            forall|j: int| 0 <= j < i ==> a@[j] == JsonValue::Str(v@[j]),
        decreases v.len() - i,
    {
        a.push(JsonValue::Str(v[i].clone()));
        i = i + 1;
    }
    let r = JsonValue::Array(a);
    assert(Seq::new(a@.len(), |j: int| a@[j]->Str_0@) =~= texts(v@));
    r
}

impl JsonValue {
    /// The member `key` of an object; `None` for a missing key or a value
    /// that is not an object.
    pub open spec fn member(self, key: Seq<char>) -> Option<JsonValue> {
        match self {
            JsonValue::Object(fields) => lookup(fields@, key),
            _ => None,
        }
    }

    /// Index of the first member named `key`, if any.
    fn find_member(fields: &Vec<(String, JsonValue)>, key: &str) -> (r: Option<usize>)
        ensures
            match r {
                Some(i) => i < fields.len() && fields@[i as int].0@ == key@
                    && (forall|j: int| 0 <= j < i ==> fields@[j].0@ != key@)
                    && lookup(fields@, key@) == Some(fields@[i as int].1),
                None => lookup(fields@, key@) is None,
            },
    {
        let mut i: usize = 0;
        assert(fields@.skip(0) =~= fields@);
        while i < fields.len()
            invariant
                i <= fields.len(),
                forall|j: int| 0 <= j < i ==> fields@[j].0@ != key@,
                lookup(fields@, key@) == lookup(fields@.skip(i as int), key@),
            decreases fields.len() - i,
        {
            if str_eq(fields[i].0.as_str(), key) {
                assert(fields@.skip(i as int)[0] == fields@[i as int]);
                return Some(i);
            }
            proof {
                lemma_lookup_step(fields@, key@, i as int);
            }
            i = i + 1;
        }
        None
    }

    /// The member `key` of an object.
    pub fn get(&self, key: &str) -> (r: Option<&JsonValue>)
        ensures
            match r {
                Some(v) => self.member(key@) == Some(*v),
                None => self.member(key@) is None,
            },
    {
        match self {
            JsonValue::Object(fields) => match Self::find_member(fields, key) {
                Some(i) => Some(&fields[i].1),
                None => None,
            },
            _ => None,
        }
    }

    /// Reads a text member with a default.
    pub fn text_member(&self, key: &str, default: &str) -> (r: Option<String>)
        ensures
            match r {
                Some(t) => text_or(self.member(key@), default@) == Some(t@),
                None => text_or(self.member(key@), default@) is None,
            },
    {
        match self.get(key) {
            None => Some(default.to_owned()),
            Some(JsonValue::Str(t)) => Some(t.clone()),
            Some(_) => None,
        }
    }

    /// Reads a member that holds a list of strings; empty when missing.
    pub fn texts_member(&self, key: &str) -> (r: Option<Vec<String>>)
        ensures
            match r {
                Some(t) => texts_or_empty(self.member(key@)) == Some(texts(t@)),
                None => texts_or_empty(self.member(key@)) is None,
            },
    {
        let got = self.get(key);
        match got {
            None => {
                let e: Vec<String> = Vec::new();
                assert(texts(e@) =~= Seq::<Seq<char>>::empty());
                Some(e)
            },
            Some(JsonValue::Array(a)) => {
                let mut out: Vec<String> = Vec::new();
                let mut i: usize = 0;
                while i < a.len()
                    invariant
                        i <= a.len(),
                        self.member(key@) == Some(JsonValue::Array(*a)),
                        out@.len() == i,
                        forall|j: int| 0 <= j < i ==> (#[trigger] a@[j]) is Str && out@[j]@ == a@[j]->Str_0@,
                    decreases a.len() - i,
                {
                    match &a[i] {
                        JsonValue::Str(t) => out.push(t.clone()),
                        _ => {
                            assert(!(a@[i as int] is Str));
                            return None;
                        },
                    }
                    i = i + 1;
                }
                assert(texts(out@) =~= Seq::new(a@.len(), |j: int| a@[j]->Str_0@));
                Some(out)
            },
            Some(_) => None,
        }
    }

    /// Reads an `i32` member with a default.
    pub fn i32_member(&self, key: &str, default: i32) -> (r: Option<i32>)
        ensures
            r == i32_or(self.member(key@), default),
    {
        match self.get(key) {
            None => Some(default),
            Some(JsonValue::Int(n)) => if i32::MIN as i64 <= *n && *n <= i32::MAX as i64 {
                Some(*n as i32)
            } else {
                None
            },
            Some(_) => None,
        }
    }

    /// Reads a boolean member with a default.
    pub fn bool_member(&self, key: &str, default: bool) -> (r: Option<bool>)
        ensures
            r == bool_or(self.member(key@), default),
    {
        match self.get(key) {
            None => Some(default),
            Some(JsonValue::Bool(b)) => Some(*b),
            Some(_) => None,
        }
    }

    /// The member `key` of an object, moved out of it.
    pub fn into_member(self, key: &str) -> (r: Option<JsonValue>)
        ensures
            r == self.member(key@),
    {
        match self {
            JsonValue::Object(mut fields) => match Self::find_member(&fields, key) {
                Some(i) => {
                    let (_, v) = fields.remove(i);
                    Some(v)
                },
                None => None,
            },
            _ => None,
        }
    }

    /// Sets the member `key` of an object to `value`, in place when the key
    /// is there and appended when it is not. A value that is not an object
    /// is left as it was.
    pub fn insert(&mut self, key: &str, value: JsonValue)
        ensures
            (*old(self)) is Object ==> (*final(self)) is Object,
            (*old(self)) is Object ==> final(self).member(key@) == Some(value),
            (*old(self)) is Object ==> forall|k: Seq<char>|
                k != key@ ==> #[trigger] final(self).member(k) == old(self).member(k),
            !((*old(self)) is Object) ==> *final(self) == *old(self),
    {
        let mut taken = JsonValue::Null;
        core::mem::swap(self, &mut taken);
        match taken {
            JsonValue::Object(mut fields) => {
                let ghost before = fields@;
                match Self::find_member(&fields, key) {
                    Some(i) => {
                        let name = key.to_owned();
                        fields.set(i, (name, value));
                        proof {
                            assert forall|k: Seq<char>| #[trigger] lookup(fields@, k)
                                == (if k == key@ { Some(value) } else { lookup(before, k) }) by {
                                lemma_lookup_update(before, i as int, name, value, k);
                            }
                        }
                    },
                    None => {
                        let name = key.to_owned();
                        fields.push((name, value));
                        proof {
                            assert forall|k: Seq<char>| #[trigger] lookup(fields@, k)
                                == (if k == key@ { Some(value) } else { lookup(before, k) }) by {
                                lemma_lookup_push(before, name, value, k);
                            }
                        }
                    },
                }
                *self = JsonValue::Object(fields);
            },
            other => {
                *self = other;
            },
        }
    }
}

} // verus!
