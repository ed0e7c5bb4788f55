use vstd::prelude::*;
use vstd::set_lib::{set_int_range, lemma_int_range, lemma_len_subset};
use crate::json::{
    Json, JsonV, view_of, entries_view, key_pos, first_key_at, str_field, find_key,
    lemma_entries_view,
};

verus! {

/// Why a profile could not be resolved.
#[derive(Debug, PartialEq)]
pub enum ProfileError {
    /// No profile file exists for this lookup key.
    NotFound(String),
    /// This lookup key came up a second time while walking the chain.
    CycleDetected(String),
    /// The file at `path` is not valid JSON.
    Parse { path: String, message: String },
    /// The file at `path` could not be read or written.
    Io { path: String, message: String },
    /// The resolved document could not be written out as JSON text.
    Encode(String),
}

/// The document stored under key `k`: the first entry with that key.
pub open spec fn lookup(store: Seq<(Seq<char>, JsonV)>, k: Seq<char>) -> Option<JsonV> {
    if key_pos(store, k) >= 0 {
        Some(store[key_pos(store, k)].1)
    } else {
        None
    }
}

/// A profile's display name: its own `name` field, else its lookup key.
pub open spec fn display_name(key: Seq<char>, doc: JsonV) -> Seq<char> {
    match str_field(doc, "name"@) {
        Some(n) => n,
        None => key,
    }
}

/// The parent a profile inherits from, if any.
pub open spec fn parent(doc: JsonV) -> Option<Seq<char>> {
    str_field(doc, "inherits"@)
}

/// The outcome of walking an inheritance chain.
pub enum Walk {
    /// The chain, leaf first, as (display name, document) pairs.
    Chain(Seq<(Seq<char>, JsonV)>),
    /// This key was reached a second time.
    Cycle(Seq<char>),
    /// No profile is stored under this key.
    Missing(Seq<char>),
}

/// Walks the chain from `cursor`, having visited the keys `seen`. A walk
/// without repeats visits at most as many keys as the store holds, so `fuel`
/// equal to the store's length never runs out.
pub open spec fn walk(
    store: Seq<(Seq<char>, JsonV)>,
    cursor: Seq<char>,
    seen: Seq<Seq<char>>,
    fuel: nat,
) -> Walk
    decreases fuel,
{
    if seen.contains(cursor) {
        Walk::Cycle(cursor)
    } else if lookup(store, cursor) is None {
        Walk::Missing(cursor)
    } else if fuel == 0 {
        Walk::Cycle(cursor)
    } else {
        let doc = lookup(store, cursor)->Some_0;
        let e = (display_name(cursor, doc), doc);
        match parent(doc) {
            None => Walk::Chain(seq![e]),
            Some(p) => match walk(store, p, seen.push(cursor), (fuel - 1) as nat) {
                Walk::Chain(rest) => Walk::Chain(seq![e] + rest),
                other => other,
            },
        }
    }
}

/// The resolution of `start` against `store`, the chain given root first.
pub open spec fn resolution(store: Seq<(Seq<char>, JsonV)>, start: Seq<char>) -> Walk {
    match walk(store, start, Seq::empty(), store.len()) {
        Walk::Chain(c) => Walk::Chain(c.reverse()),
        other => other,
    }
}

pub open spec fn keys_view(s: Seq<String>) -> Seq<Seq<char>> {
    s.map_values(|k: String| k@)
}

spec fn prefixed(lf: Seq<(Seq<char>, JsonV)>, w: Walk) -> Walk {
    match w {
        Walk::Chain(rest) => Walk::Chain(lf + rest),
        other => other,
    }
}

/// Distinct keys that are all stored are no more than the entries of the store.
pub proof fn lemma_stored_keys_bound(store: Seq<(Seq<char>, JsonV)>, keys: Seq<Seq<char>>)
    requires
        keys.no_duplicates(),
        forall|i: int| 0 <= i < keys.len() ==> key_pos(store, #[trigger] keys[i]) >= 0,
    ensures
        keys.len() <= store.len(),
{
    let idx = keys.map_values(|k: Seq<char>| key_pos(store, k));
    assert forall|i: int| 0 <= i < keys.len() implies first_key_at(store, keys[i], #[trigger] idx[i]) by {
        let c = choose|c: int| first_key_at(store, keys[i], c);
        assert(first_key_at(store, keys[i], c));
    }
    assert forall|i: int, j: int| 0 <= i < idx.len() && 0 <= j < idx.len() && i != j implies idx[i] != idx[j] by {
        assert(first_key_at(store, keys[i], idx[i]));
        assert(first_key_at(store, keys[j], idx[j]));
    }
    idx.unique_seq_to_set();
    lemma_int_range(0, store.len() as int);
    assert(idx.to_set().subset_of(set_int_range(0, store.len() as int)));
    lemma_len_subset(idx.to_set(), set_int_range(0, store.len() as int));
}

/// Whether `k` is among `keys`.
fn contains_key(keys: &Vec<String>, k: &String) -> (r: bool)
    ensures
        r == keys_view(keys@).contains(k@),
{
    let mut i: usize = 0;
    while i < keys.len()
        invariant
            i <= keys.len(),
            forall|j: int| 0 <= j < i ==> keys@[j]@ != k@,
        decreases keys.len() - i,
    {
        if keys[i] == *k {
            assert(keys_view(keys@)[i as int] == k@);
            return true;
        }
        i = i + 1;
    }
    assert forall|j: int| 0 <= j < keys_view(keys@).len() implies keys_view(keys@)[j] != k@ by {
        assert(keys@[j]@ != k@);
    }
    false
}

/// The entries in reverse order.
fn reverse_entries(v: Vec<(String, Json)>) -> (r: Vec<(String, Json)>)
    ensures
        entries_view(r@) == entries_view(v@).reverse(),
{
    let ghost all = v@;
    let mut rest = v;
    let mut out: Vec<(String, Json)> = Vec::new();
    proof {
        lemma_entries_view(all);
    }
    while rest.len() > 0
        invariant
            rest@ == all.take(rest@.len() as int),
            rest@.len() <= all.len(),
            out@.len() + rest@.len() == all.len(),
            forall|j: int| 0 <= j < out@.len() ==> #[trigger] out@[j] == all[all.len() - 1 - j],
        decreases rest@.len(),
    {
        let e = rest.pop().unwrap();
        out.push(e);
    }
    proof {
        lemma_entries_view(out@);
        assert(entries_view(out@) =~= entries_view(all).reverse());
    }
    out
}

/// Resolves the chain of `start` against the profiles of `store`, given as
/// (lookup key, document) pairs. On success the chain is root first, each
/// entry the profile's display name and document, the last one `start`'s.
pub fn resolve_chain(start: &String, store: &Vec<(String, Json)>) -> (r: Result<
    Vec<(String, Json)>,
    ProfileError,
>)
    ensures
        match resolution(entries_view(store@), start@) {
            Walk::Chain(c) => r is Ok && entries_view(r->Ok_0@) == c,
            Walk::Cycle(k) => r is Err && r->Err_0 is CycleDetected && r->Err_0->CycleDetected_0@
                == k,
            Walk::Missing(k) => r is Err && r->Err_0 is NotFound && r->Err_0->NotFound_0@ == k,
        },
{
    let ghost sv = entries_view(store@);
    let ghost n = store@.len();
    let mut seen: Vec<String> = Vec::new();
    let mut lf: Vec<(String, Json)> = Vec::new();
    let mut cursor = start.clone();
    let name_key = String::from_str("name");
    let inherits_key = String::from_str("inherits");
    proof {
        lemma_entries_view(store@);
        assert(keys_view(seen@) =~= Seq::<Seq<char>>::empty());
        assert(entries_view(lf@) =~= Seq::<(Seq<char>, JsonV)>::empty());
        assert(prefixed(Seq::empty(), walk(sv, start@, Seq::empty(), n)) == walk(sv, start@, Seq::empty(), n)) by {
            match walk(sv, start@, Seq::empty(), n) {
                Walk::Chain(c) => {
                    assert(Seq::<(Seq<char>, JsonV)>::empty() + c =~= c);
                },
                _ => {},
            }
        }
    }
    loop
        invariant
            sv == entries_view(store@),
            n == store@.len(),
            sv.len() == n,
            forall|j: int| 0 <= j < n ==> #[trigger] sv[j] == (store@[j].0@, view_of(store@[j].1)),
            name_key@ == "name"@,
            inherits_key@ == "inherits"@,
            keys_view(seen@).no_duplicates(),
            forall|i: int| 0 <= i < seen@.len() ==> key_pos(sv, #[trigger] keys_view(seen@)[i]) >= 0,
            seen@.len() <= n,
            walk(sv, start@, Seq::empty(), n) == prefixed(
                entries_view(lf@),
                walk(sv, cursor@, keys_view(seen@), (n - seen@.len()) as nat),
            ),
        decreases n - seen@.len(),
    {
        let ghost fuel = (n - seen@.len()) as nat;
        let ghost seen_v = keys_view(seen@);
        let ghost lf_v = entries_view(lf@);
        if contains_key(&seen, &cursor) {
            return Err(ProfileError::CycleDetected(cursor));
        }
        let j = match find_key(store, &cursor) {
            Some(j) => j,
            None => {
                return Err(ProfileError::NotFound(cursor));
            },
        };
        proof {
            let grown = seen_v.push(cursor@);
            assert forall|i: int| 0 <= i < grown.len() implies key_pos(sv, #[trigger] grown[i]) >= 0 by {
                if i < seen_v.len() {
                    assert(grown[i] == seen_v[i]);
                }
            }
            assert(grown.no_duplicates()) by {
                assert forall|a: int, b: int| 0 <= a < grown.len() && 0 <= b < grown.len() && a != b
                    implies grown[a] != grown[b] by {
                    if a == seen_v.len() as int {
                        assert(!seen_v.contains(cursor@));
                        assert(grown[b] == seen_v[b]);
                    } else if b == seen_v.len() as int {
                        assert(!seen_v.contains(cursor@));
                        assert(grown[a] == seen_v[a]);
                    } else {
                        assert(grown[a] == seen_v[a]);
                        assert(grown[b] == seen_v[b]);
                    }
                }
            }
            lemma_stored_keys_bound(sv, grown);
        }
        let doc = store[j].1.duplicate();
        let name = match doc.get_str(&name_key) {
            Some(s) => s,
            None => cursor.clone(),
        };
        let par = doc.get_str(&inherits_key);
        let ghost e = (name@, doc@);
        let ghost cursor_v = cursor@;
        let ghost lf_old = lf@;
        seen.push(cursor);
        lf.push((name, doc));
        proof {
            assert(lf@.drop_last() == lf_old);
            assert(entries_view(lf@) == lf_v.push(e));
            assert(keys_view(seen@) =~= seen_v.push(cursor_v));
        }
        match par {
            None => {
                proof {
                    assert(lf_v + seq![e] =~= entries_view(lf@));
                }
                let chain = reverse_entries(lf);
                return Ok(chain);
            },
            Some(p) => {
                proof {
                    let w = walk(sv, p@, seen_v.push(cursor_v), (fuel - 1) as nat);
                    match w {
                        Walk::Chain(rest) => {
                            assert(lf_v + (seq![e] + rest) =~= entries_view(lf@) + rest);
                        },
                        _ => {},
                    }
                }
                cursor = p;
            },
        }
    }
}

} // verus!
