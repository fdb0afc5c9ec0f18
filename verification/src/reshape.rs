//! The reshaping operations: object to array, array to object, and the
//! orchestrator that navigates to the target and dispatches.

use vstd::prelude::*;

use crate::error::ErrV;
use crate::error::PathNotFound;
use crate::error::ReshapeError;
use crate::error::Shape;
use crate::error::WrongValueAtPath;
use crate::value::JsonV;
use crate::value::Value;
use crate::value::elems_v;
use crate::value::entries_v;
use crate::value::has_key;
use crate::value::lemma_has_key_exists;
use crate::value::lemma_lookup_at;
use crate::value::lemma_lookup_none;
use crate::value::lemma_remove_key_at;
use crate::value::lookup;
use crate::value::remove_key;

verus! {

/// How a dictionary becomes an array.
#[derive(Debug, PartialEq, Eq)]
pub enum ToArrayStrategy {
    /// Wrap each entry `(k, v)` as `{key_field: k, value_field: v}`.
    Boxed { key_field: String, value_field: String },
    /// Merge each entry's key into its object value under `key_field`.
    Integrate { key_field: String },
}

/// One reshaping operation, with its field-name parameters.
#[derive(Debug, PartialEq, Eq)]
pub enum Operation {
    ToArray { strategy: ToArrayStrategy },
    ToDict { key_field: String },
}

/// The mathematical shape of a [`ToArrayStrategy`].
pub enum StrategyV {
    Boxed { key_field: Seq<char>, value_field: Seq<char> },
    Integrate { key_field: Seq<char> },
}

/// The mathematical shape of an [`Operation`].
pub enum OperationV {
    ToArray { strategy: StrategyV },
    ToDict { key_field: Seq<char> },
}

impl ToArrayStrategy {
    /// The mathematical view of this strategy.
    pub open spec fn v(self) -> StrategyV {
        match self {
            ToArrayStrategy::Boxed { key_field, value_field } => StrategyV::Boxed {
                key_field: key_field@,
                value_field: value_field@,
            },
            ToArrayStrategy::Integrate { key_field } => StrategyV::Integrate {
                key_field: key_field@,
            },
        }
    }
}

impl Operation {
    /// The mathematical view of this operation.
    pub open spec fn v(self) -> OperationV {
        match self {
            Operation::ToArray { strategy } => OperationV::ToArray { strategy: strategy.v() },
            Operation::ToDict { key_field } => OperationV::ToDict { key_field: key_field@ },
        }
    }
}

/// The view of a reshaping outcome: value and error are each replaced by
/// their mathematical shape.
pub open spec fn res_v(r: Result<Value, ReshapeError>) -> Result<JsonV, ErrV> {
    match r {
        Ok(v) => Ok(v.v()),
        Err(e) => Err(e.v()),
    }
}

/// What boxing one entry `(key, val)` yields: `{k: key, vf: val}`. When the
/// two field names coincide, the later field wins, as an object insert would
/// make it: the single entry holds the value.
pub open spec fn box_entry(k: Seq<char>, vf: Seq<char>, key: Seq<char>, val: JsonV) -> JsonV {
    if k == vf {
        JsonV::Object(seq![(k, val)])
    } else {
        JsonV::Object(seq![(k, JsonV::Text(key)), (vf, val)])
    }
}

/// The array the `Boxed` strategy builds from object entries.
pub open spec fn boxed_elems(
    es: Seq<(Seq<char>, JsonV)>,
    k: Seq<char>,
    vf: Seq<char>,
) -> Seq<JsonV> {
    Seq::new(es.len(), |i: int| box_entry(k, vf, es[i].0, es[i].1))
}

/// The array the `Integrate` strategy builds from object entries: each value
/// must itself be an object free of `k`, and receives `k: its key` as a new
/// last field. The first offending entry decides the error.
pub open spec fn spec_integrate(es: Seq<(Seq<char>, JsonV)>, k: Seq<char>) -> Result<
    Seq<JsonV>,
    ErrV,
>
    decreases es.len(),
{
    if es.len() == 0 {
        Ok(Seq::empty())
    } else {
        match es[0].1 {
            JsonV::Object(ves) => if has_key(ves, k) {
                Err(ErrV::KeyFieldCollision { key: es[0].0 })
            } else {
                match spec_integrate(es.drop_first(), k) {
                    Ok(rest) => Ok(
                        seq![JsonV::Object(ves.push((k, JsonV::Text(es[0].0))))] + rest,
                    ),
                    Err(e) => Err(e),
                }
            },
            _ => Err(ErrV::WrongShape { expected: Shape::Object, at_path: es[0].0 }),
        }
    }
}

/// Folding one array element into the object built so far: the element must
/// be an object carrying a string under `k`; that string becomes its key and
/// must be new; the element, with `k` removed, becomes the entry's value.
pub open spec fn dict_step(
    done: Seq<(Seq<char>, JsonV)>,
    elem: JsonV,
    k: Seq<char>,
) -> Result<Seq<(Seq<char>, JsonV)>, ErrV> {
    match elem {
        JsonV::Object(ves) => match lookup(ves, k) {
            Option::None => Err(ErrV::MissingKeyField { field: k }),
            Option::Some(JsonV::Text(key)) => if has_key(done, key) {
                Err(ErrV::DuplicateKey { key })
            } else {
                Ok(done.push((key, JsonV::Object(remove_key(ves, k)))))
            },
            Option::Some(_) => Err(ErrV::NonStringKey { field: k }),
        },
        _ => Err(ErrV::WrongShape { expected: Shape::Object, at_path: Seq::empty() }),
    }
}

/// The object entries built from array elements keyed by the field `k`. The
/// first offending element decides the error.
pub open spec fn spec_to_dict(elems: Seq<JsonV>, k: Seq<char>) -> Result<
    Seq<(Seq<char>, JsonV)>,
    ErrV,
>
    decreases elems.len(),
{
    if elems.len() == 0 {
        Ok(Seq::empty())
    } else {
        match spec_to_dict(elems.drop_last(), k) {
            Ok(done) => dict_step(done, elems.last(), k),
            Err(e) => Err(e),
        }
    }
}

/// What `to_array` yields on any target value.
pub open spec fn spec_to_array(target: JsonV, strategy: StrategyV) -> Result<JsonV, ErrV> {
    match target {
        JsonV::Object(es) => match strategy {
            StrategyV::Boxed { key_field, value_field } => Ok(
                JsonV::Array(boxed_elems(es, key_field, value_field)),
            ),
            StrategyV::Integrate { key_field } => match spec_integrate(es, key_field) {
                Ok(a) => Ok(JsonV::Array(a)),
                Err(e) => Err(e),
            },
        },
        _ => Err(ErrV::WrongShape { expected: Shape::Object, at_path: Seq::empty() }),
    }
}

/// What `to_dict` yields on any target value.
pub open spec fn spec_to_dict_value(target: JsonV, k: Seq<char>) -> Result<JsonV, ErrV> {
    match target {
        JsonV::Array(elems) => match spec_to_dict(elems, k) {
            Ok(es) => Ok(JsonV::Object(es)),
            Err(e) => Err(e),
        },
        _ => Err(ErrV::WrongShape { expected: Shape::Array, at_path: Seq::empty() }),
    }
}

/// What navigating a path of segments yields: each segment in turn must name
/// a field of the current object; the field's value is descended into.
pub open spec fn spec_navigate(v: JsonV, path: Seq<Seq<char>>) -> Result<JsonV, ErrV>
    decreases path.len(),
{
    if path.len() == 0 {
        Ok(v)
    } else {
        match v {
            JsonV::Object(es) => match lookup(es, path[0]) {
                Option::Some(x) => spec_navigate(x, path.drop_first()),
                Option::None => Err(ErrV::PathNotFound { at_segment: path[0] }),
            },
            _ => Err(ErrV::NotAnObject { at_segment: path[0] }),
        }
    }
}

/// What the orchestrator yields: navigate, then reshape the target.
pub open spec fn spec_apply(doc: JsonV, op: OperationV, path: Seq<Seq<char>>) -> Result<
    JsonV,
    ErrV,
> {
    match spec_navigate(doc, path) {
        Ok(target) => match op {
            OperationV::ToArray { strategy } => spec_to_array(target, strategy),
            OperationV::ToDict { key_field } => spec_to_dict_value(target, key_field),
        },
        Err(e) => Err(e),
    }
}

/// The views of a sequence of path segments, segment by segment.
pub open spec fn segments_v(p: Seq<String>) -> Seq<Seq<char>> {
    Seq::new(p.len(), |i: int| p[i]@)
}

/// Resolves a path of segments against a value, descending one object field
/// per segment. The value found after the last segment comes back; the rest
/// of the document is consumed. The first segment that names no field, or
/// descends into a non-object, decides the error.
pub fn navigate(doc: Value, path: &Vec<String>) -> (r: Result<Value, ReshapeError>)
    ensures
        res_v(r) == spec_navigate(doc.v(), segments_v(path@)),
{
    let ghost docv: JsonV = doc.v();
    let ghost segs: Seq<Seq<char>> = segments_v(path@);
    let mut cur = doc;
    let mut i: usize = 0;
    proof {
        assert(segs.skip(0) =~= segs);
    }
    while i < path.len()
        invariant
            docv == doc.v(),
            segs == segments_v(path@),
            0 <= i <= path@.len(),
            spec_navigate(docv, segs) == spec_navigate(cur.v(), segs.skip(i as int)),
        decreases path@.len() - i,
    {
        let seg: &String = &path[i];
        proof {
            assert(segs.skip(i as int)[0] == seg@);
            assert(segs.skip(i as int).len() > 0);
        }
        match cur {
            Value::Object(mut es) => {
                let ghost es0: Seq<(String, Value)> = es@;
                match find_key(&es, seg) {
                    Option::Some(idx) => {
                        proof {
                            lemma_lookup_at(entries_v(es0), seg@, idx as int);
                            assert(segs.skip(i as int).drop_first() =~= segs.skip(i as int + 1));
                        }
                        let pair = es.remove(idx);
                        proof {
                            assert(pair == es0[idx as int]);
                            assert(pair.1.v() == entries_v(es0)[idx as int].1);
                        }
                        cur = pair.1;
                    },
                    Option::None => {
                        proof {
                            lemma_lookup_none(entries_v(es0), seg@);
                        }
                        return Err(
                            ReshapeError::PathNotFound(PathNotFound { at_path: seg.clone() }),
                        );
                    },
                }
            },
            other => {
                proof {
                    assert(!(other.v() is Object));
                }
                return Err(
                    ReshapeError::NotAnObject(WrongValueAtPath { at_path: seg.clone() }),
                );
            },
        }
        i = i + 1;
    }
    proof {
        assert(segs.skip(i as int) =~= Seq::<Seq<char>>::empty());
    }
    Ok(cur)
}

/// The segments an optional explicit path stands for: none means the empty
/// path, the value as given.
pub open spec fn opt_segments_v(p: Option<Vec<String>>) -> Seq<Seq<char>> {
    match p {
        Option::None => Seq::empty(),
        Option::Some(v) => segments_v(v@),
    }
}

/// The orchestrator: navigates to the target named by `path`, then applies
/// the requested operation to it.
pub fn apply(doc: Value, operation: &Operation, path: &Option<Vec<String>>) -> (r: Result<
    Value,
    ReshapeError,
>)
    ensures
        res_v(r) == spec_apply(doc.v(), operation.v(), opt_segments_v(*path)),
{
    let target = match path {
        Option::Some(p) => {
            match navigate(doc, p) {
                Ok(t) => t,
                Err(e) => {
                    return Err(e);
                },
            }
        },
        Option::None => {
            proof {
                assert(opt_segments_v(*path) =~= Seq::<Seq<char>>::empty());
            }
            doc
        },
    };
    match operation {
        Operation::ToArray { strategy } => to_array(target, strategy),
        Operation::ToDict { key_field } => to_dict(target, key_field),
    }
}

/// The segments an optional dotted path argument stands for: none means the
/// empty path, the value as given.
pub open spec fn dotted_segments(path: Option<&String>) -> Seq<Seq<char>> {
    match path {
        Option::None => Seq::empty(),
        Option::Some(s) => crate::path::split_dots(s@),
    }
}

/// The orchestrator on a dotted path argument: splits it on `'.'`, navigates
/// to the target, then applies the requested operation to it.
pub fn apply_dotted(doc: Value, operation: &Operation, path: Option<&String>) -> (r: Result<
    Value,
    ReshapeError,
>)
    ensures
        res_v(r) == spec_apply(doc.v(), operation.v(), dotted_segments(path)),
{
    match path {
        Option::None => apply(doc, operation, &Option::None),
        Option::Some(s) => {
            let segs = crate::path::parse_path(s.as_str());
            apply(doc, operation, &Option::Some(segs))
        },
    }
}

/// The index of the first entry keyed by `k`, if any.
fn find_key(es: &Vec<(String, Value)>, k: &String) -> (r: Option<usize>)
    ensures
        match r {
            Option::Some(i) => 0 <= i < es@.len() && es@[i as int].0@ == k@ && forall|j: int|
                0 <= j < i ==> (#[trigger] es@[j]).0@ != k@,
            Option::None => forall|j: int| 0 <= j < es@.len() ==> (#[trigger] es@[j]).0@ != k@,
        },
{
    let mut i: usize = 0;
    while i < es.len()
        invariant
            0 <= i <= es@.len(),
            forall|j: int| 0 <= j < i ==> (#[trigger] es@[j]).0@ != k@,
        decreases es@.len() - i,
    {
        if es[i].0 == *k {
            return Some(i);
        }
        i = i + 1;
    }
    None
}

/// Boxes every entry of an object in input order.
fn to_array_boxed(es: Vec<(String, Value)>, key_field: &String, value_field: &String) -> (r: Vec<
    Value,
>)
    ensures
        elems_v(r@) == boxed_elems(entries_v(es@), key_field@, value_field@),
{
    let ghost orig: Seq<(String, Value)> = es@;
    let mut rest = es;
    let mut out: Vec<Value> = Vec::new();
    let ghost mut i: int = 0;
    while rest.len() > 0
        invariant
            0 <= i,
            rest@ == orig.skip(i),
            i + rest@.len() == orig.len(),
            out@.len() == i,
            forall|j: int|
                0 <= j < i ==> elems_v(out@)[j] == box_entry(
                    key_field@,
                    value_field@,
                    entries_v(orig)[j].0,
                    entries_v(orig)[j].1,
                ),
        decreases rest@.len(),
    {
        let pair = rest.remove(0);
        assert(pair == orig[i]);
        let mut fields: Vec<(String, Value)> = Vec::new();
        if *key_field == *value_field {
            fields.push((key_field.clone(), pair.1));
        } else {
            fields.push((key_field.clone(), Value::Text(pair.0)));
            fields.push((value_field.clone(), pair.1));
        }
        proof {
            assert(entries_v(fields@) =~= box_entry(
                key_field@,
                value_field@,
                entries_v(orig)[i].0,
                entries_v(orig)[i].1,
            )->Object_0);
        }
        let ghost prev: Seq<Value> = out@;
        out.push(Value::Object(fields));
        proof {
            assert(rest@ =~= orig.skip(i + 1));
            assert forall|j: int| 0 <= j <= i implies elems_v(out@)[j] == box_entry(
                key_field@,
                value_field@,
                entries_v(orig)[j].0,
                entries_v(orig)[j].1,
            ) by {
                assert(elems_v(out@)[j] == out@[j].v());
                if j < i {
                    assert(out@[j] == prev[j]);
                    assert(elems_v(prev)[j] == prev[j].v());
                }
            }
            i = i + 1;
        }
    }
    proof {
        assert(elems_v(out@) =~= boxed_elems(entries_v(orig), key_field@, value_field@));
    }
    out
}

/// Integrates every entry's key into its object value, in input order.
fn to_array_integrate(es: Vec<(String, Value)>, key_field: &String) -> (r: Result<
    Vec<Value>,
    ReshapeError,
>)
    ensures
        match r {
            Ok(out) => spec_integrate(entries_v(es@), key_field@) == Ok::<Seq<JsonV>, ErrV>(
                elems_v(out@),
            ),
            Err(e) => spec_integrate(entries_v(es@), key_field@) == Err::<Seq<JsonV>, ErrV>(e.v()),
        },
{
    let ghost orig: Seq<(Seq<char>, JsonV)> = entries_v(es@);
    let mut rest = es;
    let mut out: Vec<Value> = Vec::new();
    proof {
        if spec_integrate(orig, key_field@) is Ok {
            assert(elems_v(out@) + spec_integrate(orig, key_field@)->Ok_0 =~= spec_integrate(
                orig,
                key_field@,
            )->Ok_0);
        }
    }
    while rest.len() > 0
        invariant
            orig == entries_v(es@),
            spec_integrate(orig, key_field@) == (match spec_integrate(
                entries_v(rest@),
                key_field@,
            ) {
                Ok(tail) => Ok::<Seq<JsonV>, ErrV>(elems_v(out@) + tail),
                Err(e) => Err::<Seq<JsonV>, ErrV>(e),
            }),
        decreases rest@.len(),
    {
        let ghost rem: Seq<(Seq<char>, JsonV)> = entries_v(rest@);
        let pair = rest.remove(0);
        proof {
            assert(rem[0] == (pair.0@, pair.1.v()));
            assert(entries_v(rest@) =~= rem.drop_first());
        }
        match pair.1 {
            Value::Object(mut ves) => {
                match find_key(&ves, key_field) {
                    Option::Some(idx) => {
                        proof {
                            lemma_has_key_exists(entries_v(ves@), key_field@);
                            assert(entries_v(ves@)[idx as int].0 == key_field@);
                            assert(rem[0].1 == JsonV::Object(entries_v(ves@)));
                            assert(spec_integrate(rem, key_field@) == Err::<Seq<JsonV>, ErrV>(
                                ErrV::KeyFieldCollision { key: pair.0@ },
                            ));
                            assert(spec_integrate(orig, key_field@) == Err::<Seq<JsonV>, ErrV>(
                                ErrV::KeyFieldCollision { key: pair.0@ },
                            ));
                        }
                        return Err(ReshapeError::KeyFieldCollision { key: pair.0 });
                    },
                    Option::None => {
                        proof {
                            lemma_lookup_none(entries_v(ves@), key_field@);
                        }
                        let ghost prev_ves: Seq<(String, Value)> = ves@;
                        let ghost key: Seq<char> = pair.0@;
                        ves.push((key_field.clone(), Value::Text(pair.0)));
                        proof {
                            assert(entries_v(ves@) =~= entries_v(prev_ves).push(
                                (key_field@, JsonV::Text(key)),
                            ));
                        }
                        let ghost prev_out: Seq<Value> = out@;
                        out.push(Value::Object(ves));
                        proof {
                            assert(elems_v(out@) =~= elems_v(prev_out).push(
                                JsonV::Object(rem[0].1->Object_0.push((key_field@, JsonV::Text(key)))),
                            ));
                            if spec_integrate(entries_v(rest@), key_field@) is Ok {
                                assert(elems_v(prev_out) + (seq![
                                    JsonV::Object(
                                        rem[0].1->Object_0.push((key_field@, JsonV::Text(key))),
                                    ),
                                ] + spec_integrate(entries_v(rest@), key_field@)->Ok_0)
                                    =~= elems_v(out@) + spec_integrate(
                                    entries_v(rest@),
                                    key_field@,
                                )->Ok_0);
                            }
                        }
                    },
                }
            },
            other => {
                proof {
                    assert(rem[0].1 == other.v());
                    assert(!(other.v() is Object));
                    assert(spec_integrate(rem, key_field@) == Err::<Seq<JsonV>, ErrV>(
                        ErrV::WrongShape { expected: Shape::Object, at_path: pair.0@ },
                    ));
                    assert(spec_integrate(orig, key_field@) == Err::<Seq<JsonV>, ErrV>(
                        ErrV::WrongShape { expected: Shape::Object, at_path: pair.0@ },
                    ));
                }
                return Err(
                    ReshapeError::WrongShape { expected: Shape::Object, at_path: pair.0 },
                );
            },
        }
    }
    proof {
        assert(entries_v(rest@) =~= Seq::<(Seq<char>, JsonV)>::empty());
        assert(elems_v(out@) + Seq::<JsonV>::empty() =~= elems_v(out@));
    }
    Ok(out)
}

/// Converts an object into an array under the given strategy. Anything but
/// an object is rejected with its wrong shape; the strategies' own failures
/// are those of [`spec_integrate`].
pub fn to_array(target: Value, strategy: &ToArrayStrategy) -> (r: Result<Value, ReshapeError>)
    ensures
        res_v(r) == spec_to_array(target.v(), strategy.v()),
{
    match expect_object(target) {
        Ok(es) => match strategy {
            ToArrayStrategy::Boxed { key_field, value_field } => Ok(
                Value::Array(to_array_boxed(es, key_field, value_field)),
            ),
            ToArrayStrategy::Integrate { key_field } => match to_array_integrate(es, key_field) {
                Ok(a) => Ok(Value::Array(a)),
                Err(e) => Err(e),
            },
        },
        Err(e) => Err(e),
    }
}

/// An error in some prefix of the elements is the error of the whole.
pub proof fn lemma_to_dict_prefix_err(elems: Seq<JsonV>, k: Seq<char>, i: int)
    requires
        0 <= i <= elems.len(),
        spec_to_dict(elems.take(i), k) is Err,
    ensures
        spec_to_dict(elems, k) == spec_to_dict(elems.take(i), k),
    decreases elems.len() - i,
{
    if i == elems.len() {
        assert(elems.take(i) =~= elems);
    } else {
        assert(elems.take(i + 1).drop_last() =~= elems.take(i));
        lemma_to_dict_prefix_err(elems, k, i + 1);
    }
}

/// Rebuilds an object from array elements, keyed by the field `key_field`
/// extracted from each element.
fn to_dict_elems(elems: Vec<Value>, key_field: &String) -> (r: Result<
    Vec<(String, Value)>,
    ReshapeError,
>)
    ensures
        match r {
            Ok(out) => spec_to_dict(elems_v(elems@), key_field@) == Ok::<
                Seq<(Seq<char>, JsonV)>,
                ErrV,
            >(entries_v(out@)),
            Err(e) => spec_to_dict(elems_v(elems@), key_field@) == Err::<
                Seq<(Seq<char>, JsonV)>,
                ErrV,
            >(e.v()),
        },
{
    let ghost orig: Seq<JsonV> = elems_v(elems@);
    let ghost origv: Seq<Value> = elems@;
    let mut rest = elems;
    let mut out: Vec<(String, Value)> = Vec::new();
    let ghost mut i: int = 0;
    proof {
        assert(orig.take(0) =~= Seq::<JsonV>::empty());
        assert(entries_v(out@) =~= Seq::<(Seq<char>, JsonV)>::empty());
    }
    while rest.len() > 0
        invariant
            orig == elems_v(elems@),
            origv == elems@,
            orig.len() == origv.len(),
            0 <= i,
            i + rest@.len() == origv.len(),
            rest@ == origv.skip(i),
            spec_to_dict(orig.take(i), key_field@) == Ok::<Seq<(Seq<char>, JsonV)>, ErrV>(
                entries_v(out@),
            ),
        decreases rest@.len(),
    {
        let ghost done: Seq<(Seq<char>, JsonV)> = entries_v(out@);
        let elem = rest.remove(0);
        proof {
            assert(elem == origv[i]);
            assert(elem.v() == orig[i]);
            assert(rest@ =~= origv.skip(i + 1));
            assert(orig.take(i + 1).drop_last() =~= orig.take(i));
            assert(orig.take(i + 1).last() == orig[i]);
        }
        match elem {
            Value::Object(mut ves) => {
                let ghost ves0: Seq<(Seq<char>, JsonV)> = entries_v(ves@);
                match find_key(&ves, key_field) {
                    Option::None => {
                        proof {
                            lemma_lookup_none(ves0, key_field@);
                            assert(spec_to_dict(orig.take(i + 1), key_field@) == Err::<
                                Seq<(Seq<char>, JsonV)>,
                                ErrV,
                            >(ErrV::MissingKeyField { field: key_field@ }));
                            lemma_to_dict_prefix_err(orig, key_field@, i + 1);
                        }
                        return Err(ReshapeError::MissingKeyField { field: key_field.clone() });
                    },
                    Option::Some(idx) => {
                        proof {
                            lemma_lookup_at(ves0, key_field@, idx as int);
                        }
                        let kpair = ves.remove(idx);
                        proof {
                            assert(kpair.1.v() == ves0[idx as int].1);
                            lemma_remove_key_at(ves0, key_field@, idx as int);
                            assert(entries_v(ves@) =~= remove_key(ves0, key_field@));
                        }
                        match kpair.1 {
                            Value::Text(keystr) => {
                                let ghost kv: Seq<char> = keystr@;
                                match find_key(&out, &keystr) {
                                    Option::Some(j) => {
                                        proof {
                                            lemma_has_key_exists(done, kv);
                                            assert(done[j as int].0 == kv);
                                            assert(spec_to_dict(orig.take(i + 1), key_field@)
                                                == Err::<Seq<(Seq<char>, JsonV)>, ErrV>(
                                                ErrV::DuplicateKey { key: kv },
                                            ));
                                            lemma_to_dict_prefix_err(orig, key_field@, i + 1);
                                        }
                                        return Err(ReshapeError::DuplicateKey { key: keystr });
                                    },
                                    Option::None => {
                                        proof {
                                            lemma_lookup_none(done, kv);
                                        }
                                        let ghost prev_out: Seq<(String, Value)> = out@;
                                        out.push((keystr, Value::Object(ves)));
                                        proof {
                                            assert(entries_v(out@) =~= entries_v(prev_out).push(
                                                (kv, JsonV::Object(remove_key(ves0, key_field@))),
                                            ));
                                            assert(spec_to_dict(orig.take(i + 1), key_field@)
                                                == Ok::<Seq<(Seq<char>, JsonV)>, ErrV>(
                                                entries_v(out@),
                                            ));
                                            i = i + 1;
                                        }
                                    },
                                }
                            },
                            other => {
                                proof {
                                    assert(!(other.v() is Text));
                                    assert(spec_to_dict(orig.take(i + 1), key_field@) == Err::<
                                        Seq<(Seq<char>, JsonV)>,
                                        ErrV,
                                    >(ErrV::NonStringKey { field: key_field@ }));
                                    lemma_to_dict_prefix_err(orig, key_field@, i + 1);
                                }
                                return Err(
                                    ReshapeError::NonStringKey { field: key_field.clone() },
                                );
                            },
                        }
                    },
                }
            },
            other => {
                proof {
                    assert(!(other.v() is Object));
                    assert(spec_to_dict(orig.take(i + 1), key_field@) == Err::<
                        Seq<(Seq<char>, JsonV)>,
                        ErrV,
                    >(ErrV::WrongShape { expected: Shape::Object, at_path: Seq::<char>::empty() }));
                    lemma_to_dict_prefix_err(orig, key_field@, i + 1);
                }
                return Err(
                    ReshapeError::WrongShape { expected: Shape::Object, at_path: String::new() },
                );
            },
        }
    }
    proof {
        assert(orig.take(i) =~= orig);
    }
    Ok(out)
}

/// Converts an array into an object keyed by the field `key_field` of each
/// element. Anything but an array is rejected with its wrong shape; the
/// element-wise failures are those of [`spec_to_dict`].
pub fn to_dict(target: Value, key_field: &String) -> (r: Result<Value, ReshapeError>)
    ensures
        res_v(r) == spec_to_dict_value(target.v(), key_field@),
{
    match expect_array(target) {
        Ok(elems) => match to_dict_elems(elems, key_field) {
            Ok(es) => Ok(Value::Object(es)),
            Err(e) => Err(e),
        },
        Err(e) => Err(e),
    }
}

/// Checks that the value is an object and hands its entries out, or reports
/// the wrong shape at the target itself.
pub fn expect_object(v: Value) -> (r: Result<Vec<(String, Value)>, ReshapeError>)
    ensures
        match r {
            Ok(es) => v.v() == JsonV::Object(entries_v(es@)),
            Err(e) => !(v.v() is Object) && e.v() == (ErrV::WrongShape {
                expected: Shape::Object,
                at_path: Seq::<char>::empty(),
            }),
        },
{
    match v {
        Value::Object(es) => Ok(es),
        _ => {
            let e = ReshapeError::WrongShape { expected: Shape::Object, at_path: String::new() };
            Err(e)
        },
    }
}

/// Checks that the value is an array and hands its elements out, or reports
/// the wrong shape at the target itself.
pub fn expect_array(v: Value) -> (r: Result<Vec<Value>, ReshapeError>)
    ensures
        match r {
            Ok(elems) => v.v() == JsonV::Array(elems_v(elems@)),
            Err(e) => !(v.v() is Array) && e.v() == (ErrV::WrongShape {
                expected: Shape::Array,
                at_path: Seq::<char>::empty(),
            }),
        },
{
    match v {
        Value::Array(elems) => Ok(elems),
        _ => {
            let e = ReshapeError::WrongShape { expected: Shape::Array, at_path: String::new() };
            Err(e)
        },
    }
}

} // verus!
