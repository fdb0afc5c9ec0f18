//! Laws of the reshaping operations, stated over their mathematical views.

use vstd::prelude::*;

use crate::error::ErrV;
use crate::reshape::StrategyV;
use crate::reshape::boxed_elems;
use crate::reshape::spec_integrate;
use crate::reshape::spec_to_array;
use crate::reshape::spec_to_dict;
use crate::reshape::spec_to_dict_value;
use crate::value::JsonV;
use crate::value::has_key;
use crate::value::keys_distinct;
use crate::value::lemma_has_key_exists;
use crate::value::lemma_lookup_push;
use crate::value::lemma_remove_key_push;

verus! {

/// Law: boxing an object under distinct field names always succeeds, yields
/// one array element per entry, and each element is the two-field object
/// `{key_field: entry's key, value_field: entry's value}`.
pub proof fn lemma_boxed_shape(es: Seq<(Seq<char>, JsonV)>, k: Seq<char>, vf: Seq<char>)
    requires
        k != vf,
    ensures
        spec_to_array(JsonV::Object(es), StrategyV::Boxed { key_field: k, value_field: vf })
            == Ok::<JsonV, ErrV>(JsonV::Array(boxed_elems(es, k, vf))),
        boxed_elems(es, k, vf).len() == es.len(),
        forall|i: int|
            0 <= i < es.len() ==> boxed_elems(es, k, vf)[i] == JsonV::Object(
                seq![(k, JsonV::Text(es[i].0)), (vf, es[i].1)],
            ),
{
}

/// What integrating every entry of a fitting object yields: each value with
/// its key appended under `k`.
pub open spec fn integrated(es: Seq<(Seq<char>, JsonV)>, k: Seq<char>) -> Seq<JsonV> {
    Seq::new(
        es.len(),
        |i: int| JsonV::Object(es[i].1->Object_0.push((k, JsonV::Text(es[i].0)))),
    )
}

/// On an object whose values are all objects free of `k`, `Integrate`
/// succeeds and yields [`integrated`].
pub proof fn lemma_integrate_ok(es: Seq<(Seq<char>, JsonV)>, k: Seq<char>)
    requires
        forall|i: int|
            0 <= i < es.len() ==> (#[trigger] es[i]).1 is Object && !has_key(
                es[i].1->Object_0,
                k,
            ),
    ensures
        spec_integrate(es, k) == Ok::<Seq<JsonV>, ErrV>(integrated(es, k)),
    decreases es.len(),
{
    if es.len() == 0 {
        assert(integrated(es, k) =~= Seq::<JsonV>::empty());
    } else {
        assert(forall|i: int|
            0 <= i < es.len() - 1 ==> (#[trigger] es.drop_first()[i]) == es[i + 1]);
        lemma_integrate_ok(es.drop_first(), k);
        assert(seq![JsonV::Object(es[0].1->Object_0.push((k, JsonV::Text(es[0].0))))]
            + integrated(es.drop_first(), k) =~= integrated(es, k));
    }
}

/// Law: `ToDict` under `k` is the exact inverse of `ToArray` with the
/// `Integrate(k)` strategy, on every object with distinct keys whose values
/// are all objects free of the field `k`.
pub proof fn lemma_integrate_round_trip(es: Seq<(Seq<char>, JsonV)>, k: Seq<char>)
    requires
        keys_distinct(es),
        forall|i: int|
            0 <= i < es.len() ==> (#[trigger] es[i]).1 is Object && !has_key(
                es[i].1->Object_0,
                k,
            ),
    ensures
        spec_integrate(es, k) == Ok::<Seq<JsonV>, ErrV>(integrated(es, k)),
        spec_to_dict(integrated(es, k), k) == Ok::<Seq<(Seq<char>, JsonV)>, ErrV>(es),
    decreases es.len(),
{
    lemma_integrate_ok(es, k);
    if es.len() == 0 {
        assert(integrated(es, k) =~= Seq::<JsonV>::empty());
        assert(Seq::<(Seq<char>, JsonV)>::empty() =~= es);
    } else {
        let es1 = es.drop_last();
        assert(forall|i: int| 0 <= i < es1.len() ==> (#[trigger] es1[i]) == es[i]);
        lemma_integrate_round_trip(es1, k);
        assert(integrated(es, k).drop_last() =~= integrated(es1, k));
        let key = es.last().0;
        let ves = es.last().1->Object_0;
        lemma_lookup_push(ves, k, JsonV::Text(key));
        lemma_remove_key_push(ves, k, JsonV::Text(key));
        lemma_has_key_exists(es1, key);
        assert(!has_key(es1, key)) by {
            if has_key(es1, key) {
                let i = choose|i: int| 0 <= i < es1.len() && (#[trigger] es1[i]).0 == key;
                assert(es[i].0 == es[es.len() - 1].0);
            }
        }
        assert(integrated(es, k).last() == JsonV::Object(ves.push((k, JsonV::Text(key)))));
        assert(es1.push((key, JsonV::Object(ves))) =~= es);
    }
}

/// Law: whenever `ToDict` succeeds, the object it builds has pairwise
/// distinct keys — the duplicate check is exhaustive.
pub proof fn lemma_to_dict_keys_distinct(elems: Seq<JsonV>, k: Seq<char>)
    requires
        spec_to_dict(elems, k) is Ok,
    ensures
        keys_distinct(spec_to_dict(elems, k)->Ok_0),
    decreases elems.len(),
{
    if elems.len() > 0 {
        lemma_to_dict_keys_distinct(elems.drop_last(), k);
        let done = spec_to_dict(elems.drop_last(), k)->Ok_0;
        let es = spec_to_dict(elems, k)->Ok_0;
        let key = es.last().0;
        lemma_has_key_exists(done, key);
    }
}

/// The round-trip law, lifted to whole values: converting a fitting object
/// to an array by `Integrate(k)` and the result back to an object keyed by
/// `k` gives the original object.
pub proof fn lemma_round_trip_value(es: Seq<(Seq<char>, JsonV)>, k: Seq<char>)
    requires
        keys_distinct(es),
        forall|i: int|
            0 <= i < es.len() ==> (#[trigger] es[i]).1 is Object && !has_key(
                es[i].1->Object_0,
                k,
            ),
    ensures
        spec_to_array(JsonV::Object(es), StrategyV::Integrate { key_field: k }) == Ok::<
            JsonV,
            ErrV,
        >(JsonV::Array(integrated(es, k))),
        spec_to_dict_value(JsonV::Array(integrated(es, k)), k) == Ok::<JsonV, ErrV>(
            JsonV::Object(es),
        ),
{
    lemma_integrate_round_trip(es, k);
}

} // verus!
