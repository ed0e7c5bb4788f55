use vstd::prelude::*;
use crate::json::{
    Json, JsonV, view_of, entries_view, key_pos, str_field, find_key, lemma_entries_view, field,
    lemma_key_pos_props, lemma_key_pos_update, lemma_key_pos_push,
};
use crate::merge::{
    merged, deep_merge, well_formed, entries_well_formed, values_well_formed, lemma_values_well_formed,
    lemma_merged_well_formed,
};

verus! {

/// The entries `es` without those keyed `k`.
pub open spec fn without_key(es: Seq<(Seq<char>, JsonV)>, k: Seq<char>) -> Seq<(Seq<char>, JsonV)>
    decreases es.len(),
{
    if es.len() == 0 {
        es
    } else {
        let rest = without_key(es.drop_last(), k);
        if es.last().0 == k {
            rest
        } else {
            rest.push(es.last())
        }
    }
}

/// The entries `es` with field `k` set to `v`: in place where the key is
/// present, appended where it is not.
pub open spec fn put(es: Seq<(Seq<char>, JsonV)>, k: Seq<char>, v: JsonV) -> Seq<(Seq<char>, JsonV)> {
    let p = key_pos(es, k);
    if p >= 0 {
        es.update(p, (k, v))
    } else {
        es.push((k, v))
    }
}

/// An empty object with every document of the chain merged into it, root first.
pub open spec fn fold_chain(chain: Seq<(Seq<char>, JsonV)>) -> JsonV
    decreases chain.len(),
{
    if chain.len() == 0 {
        JsonV::Object(Seq::empty())
    } else {
        merged(fold_chain(chain.drop_last()), chain.last().1)
    }
}

/// The provenance of a resolved profile: the leaf's own `from`, else `User`.
pub open spec fn leaf_from(chain: Seq<(Seq<char>, JsonV)>) -> Seq<char> {
    if chain.len() > 0 && str_field(chain.last().1, "from"@) is Some {
        str_field(chain.last().1, "from"@)->Some_0
    } else {
        "User"@
    }
}

/// The bookkeeping fields stamped on a merged object.
pub open spec fn stamped(
    es: Seq<(Seq<char>, JsonV)>,
    final_name: Seq<char>,
    from: Seq<char>,
) -> Seq<(Seq<char>, JsonV)> {
    let e1 = put(
        put(
            put(without_key(es, "inherits"@), "name"@, JsonV::Str(final_name)),
            "from"@,
            JsonV::Str(from),
        ),
        "instantiation"@,
        JsonV::Str("true"@),
    );
    if key_pos(e1, "type"@) >= 0 {
        e1
    } else {
        put(e1, "type"@, JsonV::Str("filament"@))
    }
}

/// The fully resolved profile of a root-first chain.
pub open spec fn finalized(chain: Seq<(Seq<char>, JsonV)>, final_name: Seq<char>) -> JsonV {
    match fold_chain(chain) {
        JsonV::Object(es) => JsonV::Object(stamped(es, final_name, leaf_from(chain))),
        other => other,
    }
}

/// Removes every entry keyed `k`.
pub fn remove_key(es: Vec<(String, Json)>, k: &String) -> (r: Vec<(String, Json)>)
    ensures
        entries_view(r@) == without_key(entries_view(es@), k@),
{
    let mut out: Vec<(String, Json)> = Vec::new();
    let n = es.len();
    let ghost all = es@;
    let mut rest = es;
    let mut i: usize = 0;
    proof {
        lemma_entries_view(all);
    }
    while i < n
        invariant
            n == all.len(),
            i <= all.len(),
            entries_view(all).len() == all.len(),
            forall|j: int| 0 <= j < all.len() ==> #[trigger] entries_view(all)[j] == (all[j].0@, view_of(all[j].1)),
            rest@.len() == all.len() - i,
            rest@ == all.subrange(i as int, all.len() as int),
            entries_view(out@) == without_key(entries_view(all.take(i as int)), k@),
        decreases n - i,
    {
        let ghost before = out@;
        let e = rest.remove(0);
        proof {
            let ev = entries_view(all.take(i + 1));
            assert(all.take(i + 1).drop_last() == all.take(i as int));
            assert(ev.drop_last() == entries_view(all.take(i as int)));
            assert(ev.last() == (all[i as int].0@, view_of(all[i as int].1)));
        }
        if e.0 != *k {
            out.push(e);
            proof {
                assert(out@.drop_last() == before);
            }
        }
        i = i + 1;
    }
    assert(all.take(all.len() as int) == all);
    out
}

/// Sets field `k` to `v`.
pub fn put_field(es: &mut Vec<(String, Json)>, k: String, v: Json)
    ensures
        entries_view(final(es)@) == put(entries_view(old(es)@), k@, v@),
{
    proof {
        lemma_entries_view(es@);
    }
    match find_key(es, &k) {
        Some(j) => {
            let ghost before = es@;
            es.remove(j);
            es.insert(j, (k, v));
            proof {
                lemma_entries_view(es@);
                assert(es@ =~= before.update(j as int, es@[j as int]));
                assert(entries_view(es@) =~= entries_view(before).update(j as int, (k@, v@)));
            }
        },
        None => {
            let ghost before = es@;
            es.push((k, v));
            assert(es@.drop_last() == before);
        },
    }
}

/// Folds the chain into one document and stamps the bookkeeping fields.
pub fn build_final(chain: &Vec<(String, Json)>, final_name: &String) -> (r: Json)
    ensures
        r@ == finalized(entries_view(chain@), final_name@),
        (forall|i: int| 0 <= i < chain@.len() ==> #[trigger] well_formed(view_of(chain@[i].1)))
            ==> well_formed(r@),
{
    proof {
        lemma_entries_view(chain@);
        if forall|i: int| 0 <= i < chain@.len() ==> #[trigger] well_formed(view_of(chain@[i].1)) {
            let ev = entries_view(chain@);
            assert forall|i: int| 0 <= i < ev.len() implies #[trigger] well_formed(ev[i].1) by {
                assert(well_formed(view_of(chain@[i].1)));
            }
            lemma_finalized_well_formed(ev, final_name@);
        }
    }
    let mut acc = Json::Object(Vec::new());
    let mut i: usize = 0;
    proof {
        lemma_entries_view(chain@);
        assert(chain@.take(0) =~= Seq::<(String, Json)>::empty());
    }
    while i < chain.len()
        invariant
            i <= chain.len(),
            acc@ == fold_chain(entries_view(chain@.take(i as int))),
        decreases chain.len() - i,
    {
        deep_merge(&mut acc, &chain[i].1);
        proof {
            let ev = entries_view(chain@.take(i + 1));
            assert(chain@.take(i + 1).drop_last() == chain@.take(i as int));
            assert(ev.drop_last() == entries_view(chain@.take(i as int)));
            assert(ev.last().1 == view_of(chain@[i as int].1));
        }
        i = i + 1;
    }
    assert(chain@.take(chain.len() as int) == chain@);
    match acc {
        Json::Object(es) => {
            let mut es = remove_key(es, &String::from_str("inherits"));
            put_field(&mut es, String::from_str("name"), Json::Str(final_name.clone()));
            let from_key = String::from_str("from");
            let from = if chain.len() > 0 {
                match chain[chain.len() - 1].1.get_str(&from_key) {
                    Some(f) => f,
                    None => String::from_str("User"),
                }
            } else {
                String::from_str("User")
            };
            put_field(&mut es, from_key, Json::Str(from));
            put_field(&mut es, String::from_str("instantiation"), Json::Str(String::from_str("true")));
            let type_key = String::from_str("type");
            if find_key(&es, &type_key).is_none() {
                put_field(&mut es, type_key, Json::Str(String::from_str("filament")));
            }
            Json::Object(es)
        },
        other => other,
    }
}

} // verus!

verus! {

proof fn lemma_field_push(es: Seq<(Seq<char>, JsonV)>, e: (Seq<char>, JsonV), k: Seq<char>)
    ensures
        field(JsonV::Object(es.push(e)), k) == if field(JsonV::Object(es), k) is Some {
            field(JsonV::Object(es), k)
        } else if e.0 == k {
            Some(e.1)
        } else {
            None
        },
{
    lemma_key_pos_push(es, e, k);
    lemma_key_pos_props(es, k);
    if key_pos(es, k) >= 0 {
        assert(es.push(e)[key_pos(es, k)] == es[key_pos(es, k)]);
    }
}

/// Removing the entries of one key leaves every other field as it was.
pub proof fn lemma_without_key_field(es: Seq<(Seq<char>, JsonV)>, r: Seq<char>, k: Seq<char>)
    ensures
        k != r ==> field(JsonV::Object(without_key(es, r)), k) == field(JsonV::Object(es), k),
        field(JsonV::Object(without_key(es, r)), r) is None,
    decreases es.len(),
{
    if es.len() == 0 {
        lemma_key_pos_props(es, k);
        lemma_key_pos_props(es, r);
    } else {
        let init = es.drop_last();
        lemma_without_key_field(init, r, k);
        assert(init.push(es.last()) =~= es);
        lemma_field_push(init, es.last(), k);
        if es.last().0 != r {
            lemma_field_push(without_key(init, r), es.last(), k);
            lemma_field_push(without_key(init, r), es.last(), r);
        }
    }
}

/// Setting one field leaves every other field as it was, and gives that
/// field the value set.
pub proof fn lemma_put_field(es: Seq<(Seq<char>, JsonV)>, k2: Seq<char>, v: JsonV, k: Seq<char>)
    ensures
        k != k2 ==> field(JsonV::Object(put(es, k2, v)), k) == field(JsonV::Object(es), k),
        field(JsonV::Object(put(es, k2, v)), k2) == Some(v),
{
    lemma_key_pos_props(es, k2);
    lemma_key_pos_props(es, k);
    let p = key_pos(es, k2);
    if p >= 0 {
        lemma_key_pos_update(es, p, v, k);
        lemma_key_pos_update(es, p, v, k2);
        if k != k2 && key_pos(es, k) >= 0 {
            assert(key_pos(es, k) != p);
        }
    } else {
        lemma_field_push(es, (k2, v), k);
        lemma_field_push(es, (k2, v), k2);
    }
}

/// The bookkeeping fields of a finalized profile, and every other field as
/// the merged chain has it.
pub proof fn lemma_stamped_fields(
    es: Seq<(Seq<char>, JsonV)>,
    final_name: Seq<char>,
    from: Seq<char>,
    k: Seq<char>,
)
    ensures
        k != "inherits"@ && k != "name"@ && k != "from"@ && k != "instantiation"@ && k != "type"@
            ==> field(JsonV::Object(stamped(es, final_name, from)), k) == field(JsonV::Object(es), k),
        field(JsonV::Object(stamped(es, final_name, from)), "inherits"@) is None,
        field(JsonV::Object(stamped(es, final_name, from)), "name"@) == Some(JsonV::Str(final_name)),
        field(JsonV::Object(stamped(es, final_name, from)), "from"@) == Some(JsonV::Str(from)),
        field(JsonV::Object(stamped(es, final_name, from)), "instantiation"@) == Some(JsonV::Str("true"@)),
        field(JsonV::Object(stamped(es, final_name, from)), "type"@) == if field(JsonV::Object(es), "type"@) is Some {
            field(JsonV::Object(es), "type"@)
        } else {
            Some(JsonV::Str("filament"@))
        },
{
    let e0 = without_key(es, "inherits"@);
    let e1 = put(e0, "name"@, JsonV::Str(final_name));
    let e2 = put(e1, "from"@, JsonV::Str(from));
    let e3 = put(e2, "instantiation"@, JsonV::Str("true"@));
    let ty = JsonV::Str("filament"@);
    reveal_strlit("inherits");
    reveal_strlit("name");
    reveal_strlit("from");
    reveal_strlit("instantiation");
    reveal_strlit("type");
    assert forall|q: Seq<char>| #![trigger field(JsonV::Object(e3), q)] q != "inherits"@ && q != "name"@ && q != "from"@ && q != "instantiation"@
        implies field(JsonV::Object(e3), q) == field(JsonV::Object(es), q) by {
        lemma_without_key_field(es, "inherits"@, q);
        lemma_put_field(e0, "name"@, JsonV::Str(final_name), q);
        lemma_put_field(e1, "from"@, JsonV::Str(from), q);
        lemma_put_field(e2, "instantiation"@, JsonV::Str("true"@), q);
    }
    lemma_without_key_field(es, "inherits"@, "inherits"@);
    lemma_put_field(e0, "name"@, JsonV::Str(final_name), "inherits"@);
    lemma_put_field(e1, "from"@, JsonV::Str(from), "inherits"@);
    lemma_put_field(e2, "instantiation"@, JsonV::Str("true"@), "inherits"@);
    lemma_put_field(e0, "name"@, JsonV::Str(final_name), "name"@);
    lemma_put_field(e1, "from"@, JsonV::Str(from), "name"@);
    lemma_put_field(e2, "instantiation"@, JsonV::Str("true"@), "name"@);
    lemma_put_field(e1, "from"@, JsonV::Str(from), "from"@);
    lemma_put_field(e2, "instantiation"@, JsonV::Str("true"@), "from"@);
    lemma_put_field(e2, "instantiation"@, JsonV::Str("true"@), "instantiation"@);
    assert("type"@[0] == 't' && "inherits"@[0] == 'i' && "name"@[0] == 'n' && "from"@[0] == 'f');
    assert("instantiation"@[0] == 'i' && "inherits"@.len() == 8 && "instantiation"@.len() == 13);
    assert("type"@ != "inherits"@ && "type"@ != "name"@ && "type"@ != "from"@ && "type"@ != "instantiation"@);
    assert("inherits"@ != "name"@ && "inherits"@ != "from"@ && "inherits"@ != "instantiation"@);
    assert("name"@ != "from"@ && "name"@ != "instantiation"@ && "from"@ != "instantiation"@);
    lemma_without_key_field(es, "inherits"@, "type"@);
    lemma_put_field(e0, "name"@, JsonV::Str(final_name), "type"@);
    lemma_put_field(e1, "from"@, JsonV::Str(from), "type"@);
    lemma_put_field(e2, "instantiation"@, JsonV::Str("true"@), "type"@);
    lemma_key_pos_props(e3, "type"@);
    assert(field(JsonV::Object(e3), "type"@) == field(JsonV::Object(es), "type"@));
    lemma_put_field(e3, "type"@, ty, k);
    lemma_put_field(e3, "type"@, ty, "type"@);
    lemma_put_field(e3, "type"@, ty, "inherits"@);
    lemma_put_field(e3, "type"@, ty, "name"@);
    lemma_put_field(e3, "type"@, ty, "from"@);
    lemma_put_field(e3, "type"@, ty, "instantiation"@);
    assert(field(JsonV::Object(e3), k) == field(JsonV::Object(es), k) || !(k != "inherits"@ && k != "name"@ && k != "from"@ && k != "instantiation"@));
}

} // verus!

verus! {

proof fn lemma_without_key_subseq(es: Seq<(Seq<char>, JsonV)>, r: Seq<char>)
    ensures
        forall|i: int| 0 <= i < without_key(es, r).len() ==> exists|j: int|
            0 <= j < es.len() && #[trigger] without_key(es, r)[i] == es[j],
        forall|i: int, j: int| 0 <= i < j < without_key(es, r).len() ==> exists|a: int, b: int|
            0 <= a < b < es.len() && #[trigger] without_key(es, r)[i] == es[a] && #[trigger] without_key(es, r)[j] == es[b],
    decreases es.len(),
{
    if es.len() > 0 {
        let init = es.drop_last();
        lemma_without_key_subseq(init, r);
        let w = without_key(init, r);
        assert forall|i: int| 0 <= i < w.len() implies exists|j: int| 0 <= j < es.len() && #[trigger] w[i] == es[j] by {
            let j = choose|j: int| 0 <= j < init.len() && w[i] == init[j];
            assert(init[j] == es[j]);
        }
        if es.last().0 != r {
            let u = w.push(es.last());
            assert forall|i: int| 0 <= i < u.len() implies exists|j: int| 0 <= j < es.len() && #[trigger] u[i] == es[j] by {
                if i < w.len() {
                    assert(u[i] == w[i]);
                } else {
                    assert(u[i] == es[es.len() - 1]);
                }
            }
            assert forall|i: int, j: int| 0 <= i < j < u.len() implies exists|a: int, b: int|
                0 <= a < b < es.len() && #[trigger] u[i] == es[a] && #[trigger] u[j] == es[b] by {
                if j < w.len() {
                    let (a, b) = choose|a: int, b: int| 0 <= a < b < init.len() && w[i] == init[a] && w[j] == init[b];
                    assert(init[a] == es[a] && init[b] == es[b]);
                    assert(u[i] == w[i] && u[j] == w[j]);
                } else {
                    let a = choose|a: int| 0 <= a < init.len() && w[i] == init[a];
                    assert(init[a] == es[a]);
                    assert(u[i] == w[i]);
                    assert(u[j] == es[es.len() - 1]);
                }
            }
        } else {
            assert forall|i: int, j: int| 0 <= i < j < w.len() implies exists|a: int, b: int|
                0 <= a < b < es.len() && #[trigger] w[i] == es[a] && #[trigger] w[j] == es[b] by {
                let (a, b) = choose|a: int, b: int| 0 <= a < b < init.len() && w[i] == init[a] && w[j] == init[b];
                assert(init[a] == es[a] && init[b] == es[b]);
            }
        }
    }
}

proof fn lemma_put_well_formed(es: Seq<(Seq<char>, JsonV)>, k: Seq<char>, v: JsonV)
    requires
        entries_well_formed(es),
        well_formed(v),
    ensures
        entries_well_formed(put(es, k, v)),
{
    lemma_key_pos_props(es, k);
    let p = key_pos(es, k);
    let u = put(es, k, v);
    if p >= 0 {
        assert forall|i: int| 0 <= i < u.len() implies #[trigger] well_formed(u[i].1) by {
            if i != p {
                assert(u[i] == es[i]);
            }
        }
        assert forall|i: int, j: int| 0 <= i < j < u.len() implies u[i].0 != u[j].0 by {
            assert(u[i].0 == es[i].0 && u[j].0 == es[j].0);
        }
    } else {
        assert forall|i: int| 0 <= i < u.len() implies #[trigger] well_formed(u[i].1) by {
            if i < es.len() {
                assert(u[i] == es[i]);
            }
        }
        assert forall|i: int, j: int| 0 <= i < j < u.len() implies u[i].0 != u[j].0 by {
            assert(u[i] == es[i]);
            if j < es.len() {
                assert(u[j] == es[j]);
            }
        }
    }
}

/// Stamping the bookkeeping fields keeps an object well formed.
pub proof fn lemma_stamped_well_formed(es: Seq<(Seq<char>, JsonV)>, final_name: Seq<char>, from: Seq<char>)
    requires
        entries_well_formed(es),
    ensures
        entries_well_formed(stamped(es, final_name, from)),
{
    let e0 = without_key(es, "inherits"@);
    lemma_without_key_subseq(es, "inherits"@);
    assert forall|i: int| 0 <= i < e0.len() implies #[trigger] well_formed(e0[i].1) by {
        let j = choose|j: int| 0 <= j < es.len() && e0[i] == es[j];
    }
    assert forall|i: int, j: int| 0 <= i < j < e0.len() implies e0[i].0 != e0[j].0 by {
        let (a, b) = choose|a: int, b: int| 0 <= a < b < es.len() && e0[i] == es[a] && e0[j] == es[b];
    }
    let e1 = put(e0, "name"@, JsonV::Str(final_name));
    lemma_put_well_formed(e0, "name"@, JsonV::Str(final_name));
    let e2 = put(e1, "from"@, JsonV::Str(from));
    lemma_put_well_formed(e1, "from"@, JsonV::Str(from));
    let e3 = put(e2, "instantiation"@, JsonV::Str("true"@));
    lemma_put_well_formed(e2, "instantiation"@, JsonV::Str("true"@));
    lemma_put_well_formed(e3, "type"@, JsonV::Str("filament"@));
}

/// Folding well-formed documents gives a well-formed document.
pub proof fn lemma_fold_chain_well_formed(chain: Seq<(Seq<char>, JsonV)>)
    requires
        forall|i: int| 0 <= i < chain.len() ==> #[trigger] well_formed(chain[i].1),
    ensures
        well_formed(fold_chain(chain)),
    decreases chain.len(),
{
    if chain.len() == 0 {
        assert(values_well_formed(Seq::<(Seq<char>, JsonV)>::empty()));
    } else {
        let init = chain.drop_last();
        assert forall|i: int| 0 <= i < init.len() implies #[trigger] well_formed(init[i].1) by {
            assert(init[i] == chain[i]);
        }
        lemma_fold_chain_well_formed(init);
        assert(well_formed(chain[chain.len() - 1].1));
        lemma_merged_well_formed(fold_chain(init), chain.last().1);
    }
}

} // verus!

verus! {

/// A chain of well-formed documents finalizes to a well-formed document.
pub proof fn lemma_finalized_well_formed(chain: Seq<(Seq<char>, JsonV)>, final_name: Seq<char>)
    requires
        forall|i: int| 0 <= i < chain.len() ==> #[trigger] well_formed(chain[i].1),
    ensures
        well_formed(finalized(chain, final_name)),
{
    lemma_fold_chain_well_formed(chain);
    if let JsonV::Object(es) = fold_chain(chain) {
        lemma_values_well_formed(es);
        lemma_stamped_well_formed(es, final_name, leaf_from(chain));
        lemma_values_well_formed(stamped(es, final_name, leaf_from(chain)));
    }
}

} // verus!
