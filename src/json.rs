//! A JSON document as the logic reads it, with the lookups it makes.
use vstd::prelude::*;

verus! {

/// A JSON number read as a 64-bit float: its bit pattern, and its rendering
/// with exactly two digits after the decimal point. Both are filled in where
/// the float itself is read, by the program around the library.
pub struct Real {
    pub bits: u64,
    pub two_places: String,
}

impl Real {
    pub fn duplicate(&self) -> (r: Real)
        ensures
            r == *self,
    {
        Real { bits: self.bits, two_places: self.two_places.clone() }
    }
}

/// A JSON number: its value as an `i64` where it is an integer that fits one,
/// and its value as a float.
pub struct JsonNumber {
    pub int: Option<i64>,
    pub real: Real,
}

/// A JSON value. An object keeps its members in order; a lookup finds the
/// first member with the key.
pub enum Json {
    Null,
    Bool(bool),
    Number(JsonNumber),
    Str(String),
    Array(Vec<Json>),
    Object(Vec<(String, Json)>),
}

/// The value of the first member named `key`.
pub open spec fn first_member(es: Seq<(String, Json)>, key: Seq<char>) -> Option<Json>
    decreases es.len(),
{
    if es.len() == 0 {
        None
    } else if es[0].0@ == key {
        Some(es[0].1)
    } else {
        first_member(es.drop_first(), key)
    }
}

/// `j.get(key)`: the member of an object; nothing for any other value.
pub open spec fn field(j: Json, key: Seq<char>) -> Option<Json> {
    match j {
        Json::Object(es) => first_member(es@, key),
        _ => None,
    }
}

/// `j[key]`: the member of an object, `null` where there is none.
pub open spec fn index(j: Json, key: Seq<char>) -> Json {
    match field(j, key) {
        Some(v) => v,
        None => Json::Null,
    }
}

pub open spec fn as_int(j: Json) -> Option<i64> {
    match j {
        Json::Number(n) => n.int,
        _ => None,
    }
}

pub open spec fn as_real(j: Json) -> Option<Real> {
    match j {
        Json::Number(n) => Some(n.real),
        _ => None,
    }
}

pub open spec fn as_text(j: Json) -> Option<Seq<char>> {
    match j {
        Json::Str(s) => Some(s@),
        _ => None,
    }
}

pub open spec fn as_elements(j: Json) -> Option<Seq<Json>> {
    match j {
        Json::Array(a) => Some(a@),
        _ => None,
    }
}

/// Folds `step` over the elements in order, from `init`; the first step that
/// gives nothing ends the fold with nothing.
pub open spec fn fold_json<A>(es: Seq<Json>, init: A, step: spec_fn(A, Json) -> Option<A>) -> Option<A>
    decreases es.len(),
{
    if es.len() == 0 {
        Some(init)
    } else {
        match fold_json(es.drop_last(), init, step) {
            Some(a) => step(a, es.last()),
            None => None,
        }
    }
}

/// One more element extends the fold by one step.
pub proof fn lemma_fold_next<A>(es: Seq<Json>, i: int, init: A, step: spec_fn(A, Json) -> Option<A>)
    requires
        0 <= i < es.len(),
    ensures
        fold_json(es.take(i + 1), init, step) == match fold_json(es.take(i), init, step) {
            Some(a) => step(a, es[i]),
            None => None,
        },
{
    assert(es.take(i + 1).drop_last() =~= es.take(i));
}

/// A fold that has failed on a prefix fails on the whole.
pub proof fn lemma_fold_fails<A>(es: Seq<Json>, k: int, init: A, step: spec_fn(A, Json) -> Option<A>)
    requires
        0 <= k <= es.len(),
        fold_json(es.take(k), init, step) is None,
    ensures
        fold_json(es, init, step) is None,
    decreases es.len(),
{
    if k == es.len() {
        assert(es.take(k) =~= es);
    } else {
        assert(es.drop_last().take(k) =~= es.take(k));
        lemma_fold_fails(es.drop_last(), k, init, step);
    }
}

/// A value that every step keeps, once reached on a prefix, is the result.
pub proof fn lemma_fold_settled<A>(
    es: Seq<Json>,
    k: int,
    init: A,
    step: spec_fn(A, Json) -> Option<A>,
    a: A,
)
    requires
        0 <= k <= es.len(),
        fold_json(es.take(k), init, step) == Some(a),
        forall|e: Json| #[trigger] step(a, e) == Some(a),
    ensures
        fold_json(es, init, step) == Some(a),
    decreases es.len(),
{
    if k == es.len() {
        assert(es.take(k) =~= es);
    } else {
        assert(es.drop_last().take(k) =~= es.take(k));
        lemma_fold_settled(es.drop_last(), k, init, step, a);
    }
}

impl Json {
    /// The member named `key` of an object.
    pub fn get(&self, key: &str) -> (r: Option<&Json>)
        ensures
            match r {
                Some(v) => field(*self, key@) == Some(*v),
                None => field(*self, key@) is None,
            },
    {
        match self {
            Json::Object(es) => {
                let k = key.to_owned();
                let mut i: usize = 0;
                assert(es@.skip(0) =~= es@);
                while i < es.len()
                    invariant
                        0 <= i <= es@.len(),
                        k@ == key@,
                        field(*self, key@) == first_member(es@, key@),
                        first_member(es@, key@) == first_member(es@.skip(i as int), key@),
                    decreases es@.len() - i,
                {
                    assert(es@.skip(i as int).drop_first() =~= es@.skip(i + 1));
                    assert(es@.skip(i as int)[0] == es@[i as int]);
                    if es[i].0 == k {
                        return Some(&es[i].1);
                    }
                    i = i + 1;
                }
                None
            },
            _ => None,
        }
    }

    pub fn as_int(&self) -> (r: Option<i64>)
        ensures
            r == as_int(*self),
    {
        match self {
            Json::Number(n) => n.int,
            _ => None,
        }
    }

    pub fn as_real(&self) -> (r: Option<&Real>)
        ensures
            match r {
                Some(v) => as_real(*self) == Some(*v),
                None => as_real(*self) is None,
            },
    {
        match self {
            Json::Number(n) => Some(&n.real),
            _ => None,
        }
    }

    pub fn as_text(&self) -> (r: Option<&String>)
        ensures
            match r {
                Some(s) => as_text(*self) == Some(s@),
                None => as_text(*self) is None,
            },
    {
        match self {
            Json::Str(s) => Some(s),
            _ => None,
        }
    }

    pub fn as_elements(&self) -> (r: Option<&Vec<Json>>)
        ensures
            match r {
                Some(a) => as_elements(*self) == Some(a@),
                None => as_elements(*self) is None,
            },
    {
        match self {
            Json::Array(a) => Some(a),
            _ => None,
        }
    }
}

/// `j[key].as_i64()`
pub fn int_at(j: &Json, key: &str) -> (r: Option<i64>)
    ensures
        r == as_int(index(*j, key@)),
{
    match j.get(key) {
        Some(v) => v.as_int(),
        None => None,
    }
}

/// `j[key].as_f64()`
pub fn real_at<'a>(j: &'a Json, key: &str) -> (r: Option<&'a Real>)
    ensures
        match r {
            Some(v) => as_real(index(*j, key@)) == Some(*v),
            None => as_real(index(*j, key@)) is None,
        },
{
    match j.get(key) {
        Some(v) => v.as_real(),
        None => None,
    }
}

/// `j[key].as_str()`
pub fn text_at<'a>(j: &'a Json, key: &str) -> (r: Option<&'a String>)
    ensures
        match r {
            Some(s) => as_text(index(*j, key@)) == Some(s@),
            None => as_text(index(*j, key@)) is None,
        },
{
    match j.get(key) {
        Some(v) => v.as_text(),
        None => None,
    }
}

/// `j[key].as_array()`
pub fn elements_at<'a>(j: &'a Json, key: &str) -> (r: Option<&'a Vec<Json>>)
    ensures
        match r {
            Some(a) => as_elements(index(*j, key@)) == Some(a@),
            None => as_elements(index(*j, key@)) is None,
        },
{
    match j.get(key) {
        Some(v) => v.as_elements(),
        None => None,
    }
}

} // verus!
