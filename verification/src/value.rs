//! The JSON value model and its mathematical view.

use vstd::prelude::*;

verus! {

/// A JSON value. Objects keep their entries in insertion order as a list of
/// key/value pairs; well-formed objects have pairwise distinct keys (see
/// [`keys_distinct`]). Numbers are carried as their decimal literal text,
/// which the reshaping logic never inspects.
#[derive(Debug, PartialEq, Eq)]
pub enum Value {
    Null,
    Bool(bool),
    Number(String),
    Text(String),
    Array(Vec<Value>),
    Object(Vec<(String, Value)>),
}

/// The mathematical shape of a [`Value`]: the same tree over `Seq`.
pub enum JsonV {
    Null,
    Bool(bool),
    Number(Seq<char>),
    Text(Seq<char>),
    Array(Seq<JsonV>),
    Object(Seq<(Seq<char>, JsonV)>),
}

/// The views of a sequence of array elements, element by element.
pub open spec fn elems_v(s: Seq<Value>) -> Seq<JsonV>
    decreases s,
{
    Seq::new(
        s.len(),
        |i: int|
            if 0 <= i < s.len() {
                s[i].v()
            } else {
                JsonV::Null
            },
    )
}

/// The views of a sequence of object entries, entry by entry.
pub open spec fn entries_v(s: Seq<(String, Value)>) -> Seq<(Seq<char>, JsonV)>
    decreases s,
{
    Seq::new(
        s.len(),
        |i: int|
            if 0 <= i < s.len() {
                (s[i].0@, s[i].1.v())
            } else {
                (Seq::empty(), JsonV::Null)
            },
    )
}

impl Value {
    /// The mathematical view of this value.
    pub open spec fn v(self) -> JsonV
        decreases self,
    {
        match self {
            Value::Null => JsonV::Null,
            Value::Bool(b) => JsonV::Bool(b),
            Value::Number(s) => JsonV::Number(s@),
            Value::Text(s) => JsonV::Text(s@),
            Value::Array(a) => JsonV::Array(elems_v(a@)),
            Value::Object(es) => JsonV::Object(entries_v(es@)),
        }
    }
}

/// No two entries share a key.
pub open spec fn keys_distinct(es: Seq<(Seq<char>, JsonV)>) -> bool {
    forall|i: int, j: int| 0 <= i < j < es.len() ==> es[i].0 != es[j].0
}

/// The value under the first entry whose key is `k`, if any.
pub open spec fn lookup(es: Seq<(Seq<char>, JsonV)>, k: Seq<char>) -> Option<JsonV>
    decreases es.len(),
{
    if es.len() == 0 {
        None
    } else if es[0].0 == k {
        Some(es[0].1)
    } else {
        lookup(es.drop_first(), k)
    }
}

/// Whether some entry has key `k`.
pub open spec fn has_key(es: Seq<(Seq<char>, JsonV)>, k: Seq<char>) -> bool {
    lookup(es, k) is Some
}

/// The entries with the first `k`-keyed entry taken out.
pub open spec fn remove_key(es: Seq<(Seq<char>, JsonV)>, k: Seq<char>) -> Seq<
    (Seq<char>, JsonV),
>
    decreases es.len(),
{
    if es.len() == 0 {
        es
    } else if es[0].0 == k {
        es.drop_first()
    } else {
        seq![es[0]] + remove_key(es.drop_first(), k)
    }
}

/// `has_key` holds exactly when some index carries the key.
pub proof fn lemma_has_key_exists(es: Seq<(Seq<char>, JsonV)>, k: Seq<char>)
    ensures
        has_key(es, k) <==> exists|i: int| 0 <= i < es.len() && (#[trigger] es[i]).0 == k,
    decreases es.len(),
{
    if es.len() > 0 && es[0].0 != k {
        lemma_has_key_exists(es.drop_first(), k);
        if has_key(es.drop_first(), k) {
            let i = choose|i: int|
                0 <= i < es.drop_first().len() && (#[trigger] es.drop_first()[i]).0 == k;
            assert(es[i + 1] == es.drop_first()[i]);
        }
        if exists|i: int| 0 <= i < es.len() && (#[trigger] es[i]).0 == k {
            let i = choose|i: int| 0 <= i < es.len() && (#[trigger] es[i]).0 == k;
            assert(es.drop_first()[i - 1] == es[i]);
        }
    }
}

/// A first match at index `i` pins the result of `lookup`.
pub proof fn lemma_lookup_at(es: Seq<(Seq<char>, JsonV)>, k: Seq<char>, i: int)
    requires
        0 <= i < es.len(),
        es[i].0 == k,
        forall|j: int| 0 <= j < i ==> (#[trigger] es[j]).0 != k,
    ensures
        lookup(es, k) == Some(es[i].1),
    decreases i,
{
    if i > 0 {
        assert(es[0].0 != k);
        assert(es.drop_first()[i - 1] == es[i]);
        assert(forall|j: int| 0 <= j < i - 1 ==> (#[trigger] es.drop_first()[j]) == es[j + 1]);
        lemma_lookup_at(es.drop_first(), k, i - 1);
    }
}

/// With no match anywhere, `lookup` yields nothing.
pub proof fn lemma_lookup_none(es: Seq<(Seq<char>, JsonV)>, k: Seq<char>)
    requires
        forall|j: int| 0 <= j < es.len() ==> (#[trigger] es[j]).0 != k,
    ensures
        lookup(es, k) is None,
    decreases es.len(),
{
    if es.len() > 0 {
        assert(forall|j: int| 0 <= j < es.len() - 1 ==> (#[trigger] es.drop_first()[j]) == es[j
            + 1]);
        lemma_lookup_none(es.drop_first(), k);
    }
}

/// A first match at index `i` pins the result of `remove_key`.
pub proof fn lemma_remove_key_at(es: Seq<(Seq<char>, JsonV)>, k: Seq<char>, i: int)
    requires
        0 <= i < es.len(),
        es[i].0 == k,
        forall|j: int| 0 <= j < i ==> (#[trigger] es[j]).0 != k,
    ensures
        remove_key(es, k) == es.subrange(0, i) + es.subrange(i + 1, es.len() as int),
    decreases i,
{
    if i == 0 {
        assert(remove_key(es, k) =~= es.subrange(0, 0) + es.subrange(1, es.len() as int));
    } else {
        assert(es[0].0 != k);
        assert(es.drop_first()[i - 1] == es[i]);
        assert(forall|j: int| 0 <= j < i - 1 ==> (#[trigger] es.drop_first()[j]) == es[j + 1]);
        lemma_remove_key_at(es.drop_first(), k, i - 1);
        assert(seq![es[0]] + (es.drop_first().subrange(0, i - 1) + es.drop_first().subrange(
            i,
            es.len() - 1,
        )) =~= es.subrange(0, i) + es.subrange(i + 1, es.len() as int));
    }
}

/// Looking up a key just appended to entries free of it finds the new value.
pub proof fn lemma_lookup_push(es: Seq<(Seq<char>, JsonV)>, k: Seq<char>, x: JsonV)
    requires
        !has_key(es, k),
    ensures
        lookup(es.push((k, x)), k) == Some(x),
    decreases es.len(),
{
    if es.len() == 0 {
        assert(es.push((k, x))[0] == (k, x));
    } else {
        assert(es.push((k, x))[0] == es[0]);
        assert(es.push((k, x)).drop_first() =~= es.drop_first().push((k, x)));
        lemma_lookup_push(es.drop_first(), k, x);
    }
}

/// Removing a key just appended to entries free of it gives them back.
pub proof fn lemma_remove_key_push(es: Seq<(Seq<char>, JsonV)>, k: Seq<char>, x: JsonV)
    requires
        !has_key(es, k),
    ensures
        remove_key(es.push((k, x)), k) == es,
    decreases es.len(),
{
    if es.len() == 0 {
        assert(es.push((k, x))[0] == (k, x));
        assert(es.push((k, x)).drop_first() =~= es);
    } else {
        assert(es.push((k, x))[0] == es[0]);
        assert(es.push((k, x)).drop_first() =~= es.drop_first().push((k, x)));
        lemma_remove_key_push(es.drop_first(), k, x);
        assert(seq![es[0]] + es.drop_first() =~= es);
    }
}

} // verus!
