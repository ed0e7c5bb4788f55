use vstd::prelude::*;
use crate::json::{
    Json, JsonV, view_of, entries_view, key_pos, find_key, lemma_entries_view, field,
    lemma_key_pos_props, lemma_key_pos_update, lemma_key_pos_push,
};

verus! {

/// Deep merge of `b` into `a`: two objects merge key by key, anything else is
/// replaced wholesale by `b`.
pub open spec fn merged(a: JsonV, b: JsonV) -> JsonV
    decreases b,
{
    match (a, b) {
        (JsonV::Object(ea), JsonV::Object(eb)) => JsonV::Object(merged_entries(ea, eb)),
        _ => b,
    }
}

/// The entries of `eb`, taken in order, merged into the entries `ea`: a key
/// already present is merged in place, a new key is appended.
pub open spec fn merged_entries(
    ea: Seq<(Seq<char>, JsonV)>,
    eb: Seq<(Seq<char>, JsonV)>,
) -> Seq<(Seq<char>, JsonV)>
    decreases eb,
{
    if eb.len() == 0 {
        ea
    } else {
        let acc = merged_entries(ea, eb.drop_last());
        let k = eb.last().0;
        let p = key_pos(acc, k);
        if p >= 0 {
            acc.update(p, (k, merged(acc[p].1, eb.last().1)))
        } else {
            acc.push((k, eb.last().1))
        }
    }
}

/// No two entries share a key.
pub open spec fn unique_keys(es: Seq<(Seq<char>, JsonV)>) -> bool {
    forall|i: int, j: int| 0 <= i < j < es.len() ==> es[i].0 != es[j].0
}

/// Merging an empty object into an object leaves that object unchanged.
pub proof fn lemma_merge_empty_right(a: JsonV)
    requires
        a is Object,
    ensures
        merged(a, JsonV::Object(Seq::empty())) == a,
{
}

/// Merging a document into an empty object yields that document, provided
/// its keys are unique, as they are in any parsed document.
pub proof fn lemma_merge_empty_left(b: JsonV)
    requires
        b is Object ==> unique_keys(b->Object_0),
    ensures
        merged(JsonV::Object(Seq::empty()), b) == b,
{
    if let JsonV::Object(eb) = b {
        lemma_merged_entries_into_empty(eb);
    }
}

proof fn lemma_merged_entries_into_empty(eb: Seq<(Seq<char>, JsonV)>)
    requires
        unique_keys(eb),
    ensures
        merged_entries(Seq::empty(), eb) == eb,
    decreases eb.len(),
{
    if eb.len() > 0 {
        let init = eb.drop_last();
        assert(unique_keys(init));
        lemma_merged_entries_into_empty(init);
        assert forall|j: int| 0 <= j < init.len() implies init[j].0 != eb.last().0 by {
            assert(eb[j].0 != eb[eb.len() - 1].0);
        }
        crate::json::lemma_key_absent(init, eb.last().0);
        assert(init.push(eb.last()) =~= eb);
    }
}

/// Merges `from` into `into`.
pub fn deep_merge(into: &mut Json, from: &Json)
    ensures
        final(into)@ == merged(old(into)@, from@),
        well_formed(old(into)@) && well_formed(from@) ==> well_formed(final(into)@),
    decreases from,
{
    proof {
        if well_formed(into@) && well_formed(from@) {
            lemma_merged_well_formed(into@, from@);
        }
    }
    match from {
        Json::Object(eb) => {
            if let Json::Object(_) = into {
                let mut cur = Json::Null;
                core::mem::swap(into, &mut cur);
                let mut ea = match cur {
                    Json::Object(ea) => ea,
                    _ => Vec::new(),
                };
                let ghost ea0 = entries_view(ea@);
                assert(decreases_to!(*from => *eb));
                let mut i: usize = 0;
                while i < eb.len()
                    invariant
                        i <= eb.len(),
                        decreases_to!(*from => *eb),
                        entries_view(ea@) == merged_entries(ea0, entries_view(eb@.take(i as int))),
                    decreases eb.len() - i,
                {
                    proof {
                        broadcast use vstd::std_specs::vec::axiom_vec_index_decreases;
                        assert(decreases_to!(*eb => eb[i as int]));
                        assert(decreases_to!(eb[i as int] => eb[i as int].1));
                        lemma_entries_view(ea@);
                        assert(eb@.take(i + 1).drop_last() == eb@.take(i as int));
                        assert(eb@.take(i + 1).last() == eb@[i as int]);
                    }
                    let ghost before = ea@;
                    match find_key(&ea, &eb[i].0) {
                        Some(j) => {
                            let (k, mut v) = ea.remove(j);
                            deep_merge(&mut v, &eb[i].1);
                            ea.insert(j, (k, v));
                            proof {
                                lemma_entries_view(before);
                                lemma_entries_view(ea@);
                                assert(ea@ =~= before.update(j as int, ea@[j as int]));
                                assert(entries_view(ea@) =~= entries_view(before).update(
                                    j as int,
                                    (eb@[i as int].0@, merged(view_of(before[j as int].1), view_of(eb@[i as int].1))),
                                ));
                            }
                        },
                        None => {
                            let v = eb[i].1.duplicate();
                            ea.push((eb[i].0.clone(), v));
                            proof {
                                assert(ea@.drop_last() == before);
                            }
                        },
                    }
                    proof {
                        let evn = entries_view(eb@.take(i + 1));
                        assert(evn.drop_last() == entries_view(eb@.take(i as int)));
                        assert(evn.last() == (eb@[i as int].0@, view_of(eb@[i as int].1)));
                    }
                    i = i + 1;
                }
                assert(eb@.take(eb.len() as int) == eb@);
                *into = Json::Object(ea);
            } else {
                *into = from.duplicate();
            }
        },
        _ => {
            *into = from.duplicate();
        },
    }
}

} // verus!

verus! {

/// The value that a merge of two objects gives a field: the second object's
/// value where that is not itself an object, the first one's where the second
/// object lacks the field.
pub proof fn lemma_merged_field(a: JsonV, b: JsonV, k: Seq<char>)
    requires
        a is Object,
        b is Object,
        unique_keys(b->Object_0),
    ensures
        merged(a, b) is Object,
        field(b, k) is None ==> field(merged(a, b), k) == field(a, k),
        field(b, k) is Some && !(field(b, k)->Some_0 is Object) ==> field(merged(a, b), k) == field(b, k),
{
    lemma_merged_entries_field(a->Object_0, b->Object_0, k);
}

proof fn lemma_merged_entries_field(
    ea: Seq<(Seq<char>, JsonV)>,
    eb: Seq<(Seq<char>, JsonV)>,
    k: Seq<char>,
)
    requires
        unique_keys(eb),
    ensures
        field(JsonV::Object(eb), k) is None ==> field(JsonV::Object(merged_entries(ea, eb)), k)
            == field(JsonV::Object(ea), k),
        field(JsonV::Object(eb), k) is Some && !(field(JsonV::Object(eb), k)->Some_0 is Object)
            ==> field(JsonV::Object(merged_entries(ea, eb)), k) == field(JsonV::Object(eb), k),
    decreases eb.len(),
{
    if eb.len() > 0 {
        let init = eb.drop_last();
        let last = eb.last();
        assert(unique_keys(init));
        lemma_merged_entries_field(ea, init, k);
        let acc = merged_entries(ea, init);
        assert(init.push(last) =~= eb);
        lemma_key_pos_push(init, last, k);
        lemma_key_pos_props(init, last.0);
        assert forall|j: int| 0 <= j < init.len() implies init[j].0 != last.0 by {
            assert(eb[j].0 != eb[eb.len() - 1].0);
        }
        let p = key_pos(acc, last.0);
        lemma_key_pos_props(acc, last.0);
        lemma_key_pos_props(acc, k);
        if p >= 0 {
            lemma_key_pos_update(acc, p, merged(acc[p].1, last.1), k);
            if k != last.0 {
                assert(key_pos(acc, k) != p);
            }
        } else {
            lemma_key_pos_push(acc, last, k);
        }
    }
}

} // verus!

verus! {

/// Every object in the document, at any depth, has distinct keys.
pub open spec fn well_formed(j: JsonV) -> bool
    decreases j,
{
    match j {
        JsonV::Array(a) => items_well_formed(a),
        JsonV::Object(es) => unique_keys(es) && values_well_formed(es),
        _ => true,
    }
}

pub open spec fn items_well_formed(s: Seq<JsonV>) -> bool
    decreases s,
{
    s.len() == 0 || (items_well_formed(s.drop_last()) && well_formed(s.last()))
}

pub open spec fn values_well_formed(es: Seq<(Seq<char>, JsonV)>) -> bool
    decreases es,
{
    es.len() == 0 || (values_well_formed(es.drop_last()) && well_formed(es.last().1))
}

pub proof fn lemma_values_well_formed(es: Seq<(Seq<char>, JsonV)>)
    ensures
        values_well_formed(es) <==> forall|i: int| 0 <= i < es.len() ==> #[trigger] well_formed(es[i].1),
    decreases es.len(),
{
    if es.len() > 0 {
        lemma_values_well_formed(es.drop_last());
        if forall|i: int| 0 <= i < es.len() ==> #[trigger] well_formed(es[i].1) {
            assert forall|i: int| 0 <= i < es.drop_last().len() implies #[trigger] well_formed(es.drop_last()[i].1) by {
                assert(es.drop_last()[i] == es[i]);
            }
            assert(well_formed(es[es.len() - 1].1));
            assert(es.last() == es[es.len() - 1]);
        }
        if values_well_formed(es) {
            assert forall|i: int| 0 <= i < es.len() implies #[trigger] well_formed(es[i].1) by {
                if i < es.len() - 1 {
                    assert(es.drop_last()[i] == es[i]);
                } else {
                    assert(es.last() == es[i]);
                }
            }
        }
    }
}

/// Entries with distinct keys, each value well formed.
pub open spec fn entries_well_formed(es: Seq<(Seq<char>, JsonV)>) -> bool {
    unique_keys(es) && forall|i: int| 0 <= i < es.len() ==> #[trigger] well_formed(es[i].1)
}

/// Merging two well-formed documents gives a well-formed document.
pub proof fn lemma_merged_well_formed(a: JsonV, b: JsonV)
    requires
        well_formed(a),
        well_formed(b),
    ensures
        well_formed(merged(a, b)),
    decreases b,
{
    if a is Object && b is Object {
        let ea = a->Object_0;
        let eb = b->Object_0;
        assert(decreases_to!(b => eb));
        lemma_values_well_formed(ea);
        lemma_values_well_formed(eb);
        lemma_merged_entries_well_formed(ea, eb);
        lemma_values_well_formed(merged_entries(ea, eb));
    }
}

proof fn lemma_merged_entries_well_formed(ea: Seq<(Seq<char>, JsonV)>, eb: Seq<(Seq<char>, JsonV)>)
    requires
        entries_well_formed(ea),
        forall|i: int| 0 <= i < eb.len() ==> #[trigger] well_formed(eb[i].1),
    ensures
        entries_well_formed(merged_entries(ea, eb)),
    decreases eb,
{
    if eb.len() > 0 {
        let init = eb.drop_last();
        let last = eb.last();
        assert forall|i: int| 0 <= i < init.len() implies #[trigger] well_formed(init[i].1) by {
            assert(init[i] == eb[i]);
        }
        lemma_merged_entries_well_formed(ea, init);
        let acc = merged_entries(ea, init);
        let p = key_pos(acc, last.0);
        lemma_key_pos_props(acc, last.0);
        assert(well_formed(last.1)) by {
            assert(last == eb[eb.len() - 1]);
        }
        if p >= 0 {
            assert(decreases_to!(eb => eb[eb.len() - 1]));
            lemma_merged_well_formed(acc[p].1, last.1);
            let u = acc.update(p, (last.0, merged(acc[p].1, last.1)));
            assert forall|i: int| 0 <= i < u.len() implies #[trigger] well_formed(u[i].1) by {
                if i != p {
                    assert(u[i] == acc[i]);
                }
            }
            assert forall|i: int, j: int| 0 <= i < j < u.len() implies u[i].0 != u[j].0 by {
                assert(u[i].0 == acc[i].0 && u[j].0 == acc[j].0);
            }
        } else {
            let u = acc.push(last);
            assert forall|i: int| 0 <= i < u.len() implies #[trigger] well_formed(u[i].1) by {
                if i < acc.len() {
                    assert(u[i] == acc[i]);
                }
            }
            assert forall|i: int, j: int| 0 <= i < j < u.len() implies u[i].0 != u[j].0 by {
                assert(u[i] == acc[i]);
                if j < acc.len() {
                    assert(u[j] == acc[j]);
                }
            }
        }
    }
}

} // verus!
