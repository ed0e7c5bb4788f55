use vstd::prelude::*;
use crate::json::{JsonV, key_pos, field, str_field, lemma_key_pos_props};
use crate::merge::{unique_keys, merged, lemma_merge_empty_left, lemma_merged_field};
use crate::finalize::{fold_chain, stamped, leaf_from, lemma_stamped_fields};
use crate::resolve::{Walk, walk, resolution, lookup, parent, display_name, lemma_stored_keys_bound};
use crate::profile::{built, final_name};

verus! {

/// Two profiles that inherit from each other make resolution fail with a
/// cycle at the start key, whatever else the store holds.
pub proof fn lemma_mutual_inheritance_cycle(
    store: Seq<(Seq<char>, JsonV)>,
    x: Seq<char>,
    y: Seq<char>,
)
    requires
        lookup(store, x) is Some,
        lookup(store, y) is Some,
        parent(lookup(store, x)->Some_0) == Some(y),
        parent(lookup(store, y)->Some_0) == Some(x),
    ensures
        resolution(store, x) == Walk::Cycle(x),
{
    let n = store.len();
    let s0 = Seq::<Seq<char>>::empty();
    if x == y {
        lemma_stored_keys_bound(store, seq![x]);
        assert(seq![x][0] == x);
        assert(s0.push(x) == seq![x]);
        assert(walk(store, x, seq![x], (n - 1) as nat) == Walk::Cycle(x));
    } else {
        let s2 = seq![x, y];
        assert(s2.no_duplicates());
        assert(forall|i: int| 0 <= i < s2.len() ==> key_pos(store, #[trigger] s2[i]) >= 0);
        lemma_stored_keys_bound(store, s2);
        assert(s0.push(x) == seq![x]);
        assert(seq![x].push(y) == s2);
        assert(s2[0] == x);
        assert(!seq![x].contains(y));
        assert(walk(store, x, s2, (n - 2) as nat) == Walk::Cycle(x));
        assert(walk(store, y, seq![x], (n - 1) as nat) == Walk::Cycle(x));
    }
}

/// A profile whose parent is stored nowhere fails to resolve, naming that parent.
pub proof fn lemma_missing_parent(store: Seq<(Seq<char>, JsonV)>, x: Seq<char>, p: Seq<char>)
    requires
        lookup(store, x) is Some,
        parent(lookup(store, x)->Some_0) == Some(p),
        lookup(store, p) is None,
    ensures
        resolution(store, x) == Walk::Missing(p),
{
    let n = store.len();
    lemma_stored_keys_bound(store, seq![x]);
    assert(Seq::<Seq<char>>::empty().push(x) == seq![x]);
    assert(!seq![x].contains(p));
    assert(walk(store, p, seq![x], (n - 1) as nat) == Walk::Missing(p));
}

/// A profile without a parent resolves to its own document with the
/// bookkeeping fields stamped on it, every other field unchanged.
pub proof fn lemma_profile_without_parent(store: Seq<(Seq<char>, JsonV)>, x: Seq<char>)
    requires
        lookup(store, x) is Some,
        lookup(store, x)->Some_0 is Object,
        unique_keys(lookup(store, x)->Some_0->Object_0),
        parent(lookup(store, x)->Some_0) is None,
    ensures
        built(store, x) == Some(
            JsonV::Object(
                stamped(
                    lookup(store, x)->Some_0->Object_0,
                    display_name(x, lookup(store, x)->Some_0),
                    leaf_from(seq![(display_name(x, lookup(store, x)->Some_0), lookup(store, x)->Some_0)]),
                ),
            ),
        ),
{
    let doc = lookup(store, x)->Some_0;
    let e = (display_name(x, doc), doc);
    let chain = seq![e];
    lemma_stored_keys_bound(store, seq![x]);
    assert(walk(store, x, Seq::empty(), store.len()) == Walk::Chain(chain));
    assert(chain.reverse() =~= chain);
    lemma_merge_empty_left(doc);
    assert(chain.drop_last() =~= Seq::<(Seq<char>, JsonV)>::empty());
    assert(fold_chain(chain.drop_last()) == JsonV::Object(Seq::empty()));
    assert(chain.last() == e);
    assert(fold_chain(chain) == doc);
    assert(final_name(chain, x) == display_name(x, doc));
}

} // verus!

verus! {

/// Whether `v` holds a field value that is not an object.
pub open spec fn scalar(v: Option<JsonV>) -> bool {
    v is Some && !(v->Some_0 is Object)
}

/// Folding a root-first chain C, B, A: each field that A sets to a non-object
/// value has A's value; one that A lacks has B's, if B sets it to a non-object
/// value; one that both lack has C's, if C sets it to a non-object value; one
/// that none sets stays absent.
pub proof fn lemma_chain_of_three_fields(
    c: (Seq<char>, JsonV),
    b: (Seq<char>, JsonV),
    a: (Seq<char>, JsonV),
    k: Seq<char>,
)
    requires
        c.1 is Object && unique_keys(c.1->Object_0),
        b.1 is Object && unique_keys(b.1->Object_0),
        a.1 is Object && unique_keys(a.1->Object_0),
    ensures
        scalar(field(a.1, k)) ==> field(fold_chain(seq![c, b, a]), k) == field(a.1, k),
        field(a.1, k) is None && scalar(field(b.1, k)) ==> field(fold_chain(seq![c, b, a]), k)
            == field(b.1, k),
        field(a.1, k) is None && field(b.1, k) is None && scalar(field(c.1, k)) ==> field(
            fold_chain(seq![c, b, a]),
            k,
        ) == field(c.1, k),
        field(a.1, k) is None && field(b.1, k) is None && field(c.1, k) is None ==> field(
            fold_chain(seq![c, b, a]),
            k,
        ) is None,
{
    let s3 = seq![c, b, a];
    let s2 = seq![c, b];
    let s1 = seq![c];
    assert(s3.drop_last() =~= s2);
    assert(s2.drop_last() =~= s1);
    assert(s1.drop_last() =~= Seq::<(Seq<char>, JsonV)>::empty());
    let empty = JsonV::Object(Seq::empty());
    assert(fold_chain(Seq::<(Seq<char>, JsonV)>::empty()) == empty);
    let f1 = merged(empty, c.1);
    let f2 = merged(f1, b.1);
    assert(fold_chain(s1) == f1);
    assert(fold_chain(s2) == f2);
    assert(fold_chain(s3) == merged(f2, a.1));
    lemma_merged_field(empty, c.1, k);
    lemma_merged_field(f1, b.1, k);
    lemma_merged_field(f2, a.1, k);
    lemma_key_pos_props(Seq::<(Seq<char>, JsonV)>::empty(), k);
}

} // verus!

verus! {

/// Profiles `a`, `b`, `c` stored under distinct keys, `a` inheriting from
/// `b`, `b` from `c`, and `c` from nothing, resolve from `a` to the chain
/// C, B, A; its merged fields then follow `lemma_chain_of_three_fields`.
pub proof fn lemma_three_level_resolution(
    store: Seq<(Seq<char>, JsonV)>,
    ka: Seq<char>,
    kb: Seq<char>,
    kc: Seq<char>,
)
    requires
        ka != kb && kb != kc && ka != kc,
        lookup(store, ka) is Some,
        lookup(store, kb) is Some,
        lookup(store, kc) is Some,
        parent(lookup(store, ka)->Some_0) == Some(kb),
        parent(lookup(store, kb)->Some_0) == Some(kc),
        parent(lookup(store, kc)->Some_0) is None,
    ensures
        resolution(store, ka) == Walk::Chain(
            seq![
                (display_name(kc, lookup(store, kc)->Some_0), lookup(store, kc)->Some_0),
                (display_name(kb, lookup(store, kb)->Some_0), lookup(store, kb)->Some_0),
                (display_name(ka, lookup(store, ka)->Some_0), lookup(store, ka)->Some_0),
            ],
        ),
{
    let n = store.len();
    let da = lookup(store, ka)->Some_0;
    let db = lookup(store, kb)->Some_0;
    let dc = lookup(store, kc)->Some_0;
    let ea = (display_name(ka, da), da);
    let eb = (display_name(kb, db), db);
    let ec = (display_name(kc, dc), dc);
    let s3 = seq![ka, kb, kc];
    assert(s3.no_duplicates());
    assert(forall|i: int| 0 <= i < s3.len() ==> key_pos(store, #[trigger] s3[i]) >= 0);
    lemma_stored_keys_bound(store, s3);
    let s1 = Seq::<Seq<char>>::empty().push(ka);
    let s2 = s1.push(kb);
    assert(!s1.contains(kb)) by {
        assert(s1 =~= seq![ka]);
    }
    assert(!s2.contains(kc)) by {
        assert(s2 =~= seq![ka, kb]);
    }
    assert(walk(store, kc, s2, (n - 2) as nat) == Walk::Chain(seq![ec]));
    assert(walk(store, kb, s1, (n - 1) as nat) == Walk::Chain(seq![eb] + seq![ec]));
    assert(walk(store, ka, Seq::empty(), n) == Walk::Chain(seq![ea] + (seq![eb] + seq![ec])));
    assert((seq![ea] + (seq![eb] + seq![ec])).reverse() =~= seq![ec, eb, ea]);
}

} // verus!

verus! {

/// Whether `k` is one of the bookkeeping keys that finalizing sets or removes.
pub open spec fn bookkeeping_key(k: Seq<char>) -> bool {
    k == "inherits"@ || k == "name"@ || k == "from"@ || k == "instantiation"@ || k == "type"@
}

/// A profile without a parent builds to its own fields, each other than the
/// bookkeeping keys with its value unchanged, plus the bookkeeping stamps.
pub proof fn lemma_profile_without_parent_fields(store: Seq<(Seq<char>, JsonV)>, x: Seq<char>, k: Seq<char>)
    requires
        lookup(store, x) is Some,
        lookup(store, x)->Some_0 is Object,
        unique_keys(lookup(store, x)->Some_0->Object_0),
        parent(lookup(store, x)->Some_0) is None,
    ensures
        built(store, x) is Some,
        !bookkeeping_key(k) ==> field(built(store, x)->Some_0, k) == field(lookup(store, x)->Some_0, k),
        field(built(store, x)->Some_0, "inherits"@) is None,
        field(built(store, x)->Some_0, "name"@) == Some(JsonV::Str(display_name(x, lookup(store, x)->Some_0))),
        field(built(store, x)->Some_0, "from"@) == Some(JsonV::Str(
            match str_field(lookup(store, x)->Some_0, "from"@) {
                Some(f) => f,
                None => "User"@,
            },
        )),
        field(built(store, x)->Some_0, "instantiation"@) == Some(JsonV::Str("true"@)),
        field(built(store, x)->Some_0, "type"@) == if field(lookup(store, x)->Some_0, "type"@) is Some {
            field(lookup(store, x)->Some_0, "type"@)
        } else {
            Some(JsonV::Str("filament"@))
        },
{
    let doc = lookup(store, x)->Some_0;
    lemma_profile_without_parent(store, x);
    let chain = seq![(display_name(x, doc), doc)];
    assert(chain.last().1 == doc);
    lemma_stamped_fields(doc->Object_0, display_name(x, doc), leaf_from(chain), k);
}

/// Profiles `a`, `b`, `c` with `a` inheriting from `b` and `b` from `c`: the
/// profile built from `a` has, for each field other than the bookkeeping keys,
/// `a`'s value where `a` sets it to a non-object value, else `b`'s, else `c`'s,
/// and lacks a field that none of them sets.
pub proof fn lemma_three_level_built_fields(
    store: Seq<(Seq<char>, JsonV)>,
    ka: Seq<char>,
    kb: Seq<char>,
    kc: Seq<char>,
    k: Seq<char>,
)
    requires
        ka != kb && kb != kc && ka != kc,
        lookup(store, ka) is Some,
        lookup(store, kb) is Some,
        lookup(store, kc) is Some,
        parent(lookup(store, ka)->Some_0) == Some(kb),
        parent(lookup(store, kb)->Some_0) == Some(kc),
        parent(lookup(store, kc)->Some_0) is None,
        lookup(store, ka)->Some_0 is Object && unique_keys(lookup(store, ka)->Some_0->Object_0),
        lookup(store, kb)->Some_0 is Object && unique_keys(lookup(store, kb)->Some_0->Object_0),
        lookup(store, kc)->Some_0 is Object && unique_keys(lookup(store, kc)->Some_0->Object_0),
        !bookkeeping_key(k),
    ensures
        built(store, ka) is Some,
        scalar(field(lookup(store, ka)->Some_0, k)) ==> field(built(store, ka)->Some_0, k) == field(
            lookup(store, ka)->Some_0,
            k,
        ),
        field(lookup(store, ka)->Some_0, k) is None && scalar(field(lookup(store, kb)->Some_0, k))
            ==> field(built(store, ka)->Some_0, k) == field(lookup(store, kb)->Some_0, k),
        field(lookup(store, ka)->Some_0, k) is None && field(lookup(store, kb)->Some_0, k) is None
            && scalar(field(lookup(store, kc)->Some_0, k)) ==> field(built(store, ka)->Some_0, k)
            == field(lookup(store, kc)->Some_0, k),
        field(lookup(store, ka)->Some_0, k) is None && field(lookup(store, kb)->Some_0, k) is None
            && field(lookup(store, kc)->Some_0, k) is None ==> field(built(store, ka)->Some_0, k) is None,
{
    let da = lookup(store, ka)->Some_0;
    let db = lookup(store, kb)->Some_0;
    let dc = lookup(store, kc)->Some_0;
    let ea = (display_name(ka, da), da);
    let eb = (display_name(kb, db), db);
    let ec = (display_name(kc, dc), dc);
    let chain = seq![ec, eb, ea];
    lemma_three_level_resolution(store, ka, kb, kc);
    lemma_chain_of_three_fields(ec, eb, ea, k);
    let s2 = seq![ec, eb];
    let s1 = seq![ec];
    assert(chain.drop_last() =~= s2);
    assert(s2.drop_last() =~= s1);
    assert(s1.drop_last() =~= Seq::<(Seq<char>, JsonV)>::empty());
    let empty = JsonV::Object(Seq::empty());
    lemma_merged_field(empty, dc, k);
    lemma_merged_field(merged(empty, dc), db, k);
    lemma_merged_field(merged(merged(empty, dc), db), da, k);
    assert(fold_chain(chain) is Object);
    let es = fold_chain(chain)->Object_0;
    lemma_stamped_fields(es, final_name(chain, ka), leaf_from(chain), k);
}

} // verus!
