use vstd::prelude::*;
use vstd::string::{StrSliceExecFns, StringExecFns};
use crate::json::{Json, str_field};

verus! {

/// Strict lexicographic order on texts, by code point.
pub open spec fn lex_lt(a: Seq<char>, b: Seq<char>) -> bool
    decreases a.len(),
{
    if a.len() == 0 {
        b.len() > 0
    } else if b.len() == 0 {
        false
    } else if a[0] != b[0] {
        (a[0] as int) < (b[0] as int)
    } else {
        lex_lt(a.drop_first(), b.drop_first())
    }
}

/// Of two different texts, one comes first.
pub proof fn lemma_lex_total(a: Seq<char>, b: Seq<char>)
    requires
        a != b,
    ensures
        lex_lt(a, b) || lex_lt(b, a),
    decreases a.len(),
{
    if a.len() > 0 && b.len() > 0 && a[0] == b[0] {
        if a.drop_first() == b.drop_first() {
            assert(a =~= seq![a[0]] + a.drop_first());
            assert(b =~= seq![b[0]] + b.drop_first());
        }
        lemma_lex_total(a.drop_first(), b.drop_first());
    } else if a.len() == 0 && b.len() == 0 {
        assert(a =~= b);
    } else if a.len() > 0 && b.len() > 0 {
        assert(a[0] as int != b[0] as int);
    }
}

/// No text comes before itself.
pub proof fn lemma_lex_irreflexive(a: Seq<char>)
    ensures
        !lex_lt(a, a),
    decreases a.len(),
{
    if a.len() > 0 {
        lemma_lex_irreflexive(a.drop_first());
    }
}

/// Whether `a` comes strictly before `b`.
pub fn text_less(a: &String, b: &String) -> (r: bool)
    ensures
        r == lex_lt(a@, b@),
{
    let sa = a.as_str();
    let sb = b.as_str();
    let na = sa.unicode_len();
    let nb = sb.unicode_len();
    let mut i: usize = 0;
    assert(a@.skip(0) =~= a@);
    assert(b@.skip(0) =~= b@);
    while i < na && i < nb
        invariant
            sa@ == a@,
            sb@ == b@,
            na == a@.len(),
            nb == b@.len(),
            i <= na,
            i <= nb,
            lex_lt(a@, b@) == lex_lt(a@.skip(i as int), b@.skip(i as int)),
        decreases na - i,
    {
        let ca = sa.get_char(i);
        let cb = sb.get_char(i);
        proof {
            let ta = a@.skip(i as int);
            let tb = b@.skip(i as int);
            assert(ta[0] == ca && tb[0] == cb);
            assert(ta.drop_first() =~= a@.skip(i + 1));
            assert(tb.drop_first() =~= b@.skip(i + 1));
        }
        if ca != cb {
            return (ca as u32) < (cb as u32);
        }
        i = i + 1;
    }
    proof {
        assert(a@.skip(i as int).len() == na - i);
        assert(b@.skip(i as int).len() == nb - i);
    }
    i == na && i < nb
}

pub open spec fn texts(s: Seq<String>) -> Seq<Seq<char>> {
    s.map_values(|t: String| t@)
}

/// Each text comes strictly before the next.
pub open spec fn ascending(s: Seq<Seq<char>>) -> bool {
    forall|i: int| 0 <= i < s.len() - 1 ==> lex_lt(#[trigger] s[i], s[i + 1])
}

/// Puts `name` into the ascending texts `out`, unless it is there already.
fn insert_sorted(out: &mut Vec<String>, name: String)
    requires
        ascending(texts(old(out)@)),
    ensures
        ascending(texts(final(out)@)),
        forall|t: Seq<char>| #[trigger] texts(final(out)@).contains(t) <==> (texts(old(out)@).contains(t) || t == name@),
{
    let ghost x = name@;
    let ghost before = texts(out@);
    let mut p: usize = 0;
    while p < out.len() && text_less(&out[p], &name)
        invariant
            p <= out@.len(),
            out@ == old(out)@,
            forall|i: int| 0 <= i < p ==> lex_lt(#[trigger] out@[i]@, x),
            name@ == x,
        decreases out.len() - p,
    {
        p = p + 1;
    }
    if p < out.len() && out[p] == name {
        assert(before[p as int] == x);
        return;
    }
    proof {
        if p < out@.len() {
            lemma_lex_total(out@[p as int]@, x);
        }
    }
    out.insert(p, name);
    proof {
        let after = texts(out@);
        assert(after =~= before.insert(p as int, x));
        assert forall|i: int| 0 <= i < after.len() - 1 implies lex_lt(#[trigger] after[i], after[i + 1]) by {
            if i < p - 1 {
            } else if i == p - 1 {
                assert(before[i] == old(out)@[i]@);
            } else if i == p {
            } else {
                assert(after[i] == before[i - 1] && after[i + 1] == before[i]);
            }
        }
        assert forall|t: Seq<char>| #[trigger] after.contains(t) <==> (before.contains(t) || t == x) by {
            if after.contains(t) {
                let i = choose|i: int| 0 <= i < after.len() && after[i] == t;
                if i < p {
                    assert(before[i] == t);
                } else if i > p {
                    assert(before[i - 1] == t);
                }
            }
            if before.contains(t) {
                let i = choose|i: int| 0 <= i < before.len() && before[i] == t;
                if i < p {
                    assert(after[i] == t);
                } else {
                    assert(after[i + 1] == t);
                }
            }
            if t == x {
                assert(after[p as int] == x);
            }
        }
    }
}

/// The name a readable profile file goes by: its document's `name` field,
/// else its file stem.
pub open spec fn listed_name(stem: Seq<char>, doc: Json) -> Seq<char> {
    match str_field(doc@, "name"@) {
        Some(n) => n,
        None => stem,
    }
}

/// The names of the profile files in the user directories, each file given
/// as its stem and, where it could be read, its document: in ascending order,
/// each once. A file that could not be read is skipped.
pub fn list_user_filament_profiles(files: &Vec<(String, Option<Json>)>) -> (r: Vec<String>)
    ensures
        ascending(texts(r@)),
        forall|t: Seq<char>| #[trigger] texts(r@).contains(t) <==> exists|j: int|
            0 <= j < files@.len() && files@[j].1 is Some && t == #[trigger] listed_name(files@[j].0@, files@[j].1->Some_0),
{
    let mut out: Vec<String> = Vec::new();
    let name_key = String::from_str("name");
    let mut j: usize = 0;
    while j < files.len()
        invariant
            j <= files@.len(),
            name_key@ == "name"@,
            ascending(texts(out@)),
            forall|t: Seq<char>| #[trigger] texts(out@).contains(t) <==> exists|k: int|
                0 <= k < j && files@[k].1 is Some && t == #[trigger] listed_name(files@[k].0@, files@[k].1->Some_0),
        decreases files.len() - j,
    {
        if let Some(doc) = &files[j].1 {
            let name = match doc.get_str(&name_key) {
                Some(n) => n,
                None => files[j].0.clone(),
            };
            let ghost x = name@;
            assert(x == listed_name(files@[j as int].0@, files@[j as int].1->Some_0));
            insert_sorted(&mut out, name);
            proof {
                assert forall|t: Seq<char>| #[trigger] texts(out@).contains(t) <==> exists|k: int|
                    0 <= k < j + 1 && files@[k].1 is Some && t == #[trigger] listed_name(files@[k].0@, files@[k].1->Some_0) by {
                    if t == x {
                        assert(t == listed_name(files@[j as int].0@, files@[j as int].1->Some_0));
                    }
                    if exists|k: int| 0 <= k < j + 1 && files@[k].1 is Some && t == #[trigger] listed_name(files@[k].0@, files@[k].1->Some_0) {
                        let k = choose|k: int| 0 <= k < j + 1 && files@[k].1 is Some && t == #[trigger] listed_name(files@[k].0@, files@[k].1->Some_0);
                        if k < j {
                            assert(exists|k2: int| 0 <= k2 < j && files@[k2].1 is Some && t == #[trigger] listed_name(files@[k2].0@, files@[k2].1->Some_0));
                        }
                    }
                }
            }
        } else {
            proof {
                assert forall|t: Seq<char>| #[trigger] texts(out@).contains(t) <==> exists|k: int|
                    0 <= k < j + 1 && files@[k].1 is Some && t == #[trigger] listed_name(files@[k].0@, files@[k].1->Some_0) by {
                    if exists|k: int| 0 <= k < j + 1 && files@[k].1 is Some && t == #[trigger] listed_name(files@[k].0@, files@[k].1->Some_0) {
                        let k = choose|k: int| 0 <= k < j + 1 && files@[k].1 is Some && t == #[trigger] listed_name(files@[k].0@, files@[k].1->Some_0);
                        assert(k < j);
                    }
                }
            }
        }
        j = j + 1;
    }
    out
}

} // verus!
