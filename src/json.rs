use vstd::prelude::*;

verus! {

/// A JSON document. Numbers keep their literal text; an object keeps its
/// entries in order.
#[derive(Debug, PartialEq)]
pub enum Json {
    Null,
    Bool(bool),
    Number(String),
    Str(String),
    Array(Vec<Json>),
    Object(Vec<(String, Json)>),
}

/// The mathematical model of a JSON document.
pub enum JsonV {
    Null,
    Bool(bool),
    Number(Seq<char>),
    Str(Seq<char>),
    Array(Seq<JsonV>),
    Object(Seq<(Seq<char>, JsonV)>),
}

pub open spec fn view_of(j: Json) -> JsonV
    decreases j,
{
    match j {
        Json::Null => JsonV::Null,
        Json::Bool(b) => JsonV::Bool(b),
        Json::Number(n) => JsonV::Number(n@),
        Json::Str(s) => JsonV::Str(s@),
        Json::Array(a) => JsonV::Array(views_of(a@)),
        Json::Object(e) => JsonV::Object(entries_view(e@)),
    }
}

pub open spec fn views_of(s: Seq<Json>) -> Seq<JsonV>
    decreases s,
{
    if s.len() == 0 {
        Seq::empty()
    } else {
        views_of(s.drop_last()).push(view_of(s.last()))
    }
}

pub open spec fn entries_view(s: Seq<(String, Json)>) -> Seq<(Seq<char>, JsonV)>
    decreases s,
{
    if s.len() == 0 {
        Seq::empty()
    } else {
        entries_view(s.drop_last()).push((s.last().0@, view_of(s.last().1)))
    }
}

impl View for Json {
    type V = JsonV;

    open spec fn view(&self) -> JsonV {
        view_of(*self)
    }
}


pub proof fn lemma_views_of(s: Seq<Json>)
    ensures
        views_of(s).len() == s.len(),
        forall|i: int| 0 <= i < s.len() ==> #[trigger] views_of(s)[i] == view_of(s[i]),
    decreases s.len(),
{
    if s.len() > 0 {
        lemma_views_of(s.drop_last());
    }
}

pub proof fn lemma_entries_view(s: Seq<(String, Json)>)
    ensures
        entries_view(s).len() == s.len(),
        forall|i: int|
            0 <= i < s.len() ==> #[trigger] entries_view(s)[i] == (s[i].0@, view_of(s[i].1)),
    decreases s.len(),
{
    if s.len() > 0 {
        lemma_entries_view(s.drop_last());
    }
}

/// `i` is the first position of key `k` among the entries `es`.
pub open spec fn first_key_at(es: Seq<(Seq<char>, JsonV)>, k: Seq<char>, i: int) -> bool {
    &&& 0 <= i < es.len()
    &&& es[i].0 == k
    &&& forall|j: int| 0 <= j < i ==> es[j].0 != k
}

/// Position of the first entry with key `k`, or -1 when there is none.
pub open spec fn key_pos(es: Seq<(Seq<char>, JsonV)>, k: Seq<char>) -> int {
    if exists|i: int| first_key_at(es, k, i) {
        choose|i: int| first_key_at(es, k, i)
    } else {
        -1
    }
}

/// The value of field `k` of an object (the first entry with that key).
pub open spec fn field(j: JsonV, k: Seq<char>) -> Option<JsonV> {
    match j {
        JsonV::Object(es) => if key_pos(es, k) >= 0 {
            Some(es[key_pos(es, k)].1)
        } else {
            None
        },
        _ => None,
    }
}

/// The text of field `k` when that field holds a string.
pub open spec fn str_field(j: JsonV, k: Seq<char>) -> Option<Seq<char>> {
    match field(j, k) {
        Some(JsonV::Str(s)) => Some(s),
        _ => None,
    }
}

pub proof fn lemma_key_pos(es: Seq<(Seq<char>, JsonV)>, k: Seq<char>, i: int)
    requires
        first_key_at(es, k, i),
    ensures
        key_pos(es, k) == i,
{
    let c = choose|c: int| first_key_at(es, k, c);
    assert(first_key_at(es, k, c));
    if c < i {
        assert(es[c].0 != k);
    } else if i < c {
        assert(es[i].0 != k);
    }
}

pub proof fn lemma_key_absent(es: Seq<(Seq<char>, JsonV)>, k: Seq<char>)
    requires
        forall|j: int| 0 <= j < es.len() ==> es[j].0 != k,
    ensures
        key_pos(es, k) == -1,
{
}

impl Json {
    /// A fresh copy of this document.
    pub fn duplicate(&self) -> (r: Json)
        ensures
            r@ == self@,
        decreases self,
    {
        match self {
            Json::Null => Json::Null,
            Json::Bool(b) => Json::Bool(*b),
            Json::Number(n) => Json::Number(n.clone()),
            Json::Str(s) => Json::Str(s.clone()),
            Json::Array(a) => {
                assert(decreases_to!(*self => *a));
                let mut out: Vec<Json> = Vec::new();
                let mut i: usize = 0;
                while i < a.len()
                    invariant
                        i <= a.len(),
                        decreases_to!(*self => *a),
                        out@.len() == i,
                        forall|j: int| 0 <= j < i ==> view_of(#[trigger] out@[j]) == view_of(a@[j]),
                    decreases a.len() - i,
                {
                    proof {
                        broadcast use vstd::std_specs::vec::axiom_vec_index_decreases;
                        assert(decreases_to!(*a => a[i as int]));
                        assert(decreases_to!(*self => a[i as int]));
                    }
                    let c = a[i].duplicate();
                    out.push(c);
                    i = i + 1;
                }
                proof {
                    lemma_views_of(out@);
                    lemma_views_of(a@);
                    assert(views_of(out@) =~= views_of(a@));
                }
                Json::Array(out)
            },
            Json::Object(es) => {
                assert(decreases_to!(*self => *es));
                let mut out: Vec<(String, Json)> = Vec::new();
                let mut i: usize = 0;
                while i < es.len()
                    invariant
                        i <= es.len(),
                        decreases_to!(*self => *es),
                        out@.len() == i,
                        forall|j: int|
                            0 <= j < i ==> (#[trigger] out@[j]).0@ == es@[j].0@ && view_of(out@[j].1)
                                == view_of(es@[j].1),
                    decreases es.len() - i,
                {
                    proof {
                        broadcast use vstd::std_specs::vec::axiom_vec_index_decreases;
                        assert(decreases_to!(*es => es[i as int]));
                        assert(decreases_to!(es[i as int] => es[i as int].1));
                        assert(decreases_to!(*self => es[i as int].1));
                    }
                    let c = es[i].1.duplicate();
                    out.push((es[i].0.clone(), c));
                    i = i + 1;
                }
                proof {
                    lemma_entries_view(out@);
                    lemma_entries_view(es@);
                    assert(entries_view(out@) =~= entries_view(es@));
                }
                Json::Object(out)
            },
        }
    }
}

} // verus!

verus! {

/// Position of the first entry keyed `k`, if any.
pub fn find_key(es: &Vec<(String, Json)>, k: &String) -> (r: Option<usize>)
    ensures
        match r {
            Some(i) => key_pos(entries_view(es@), k@) == i as int,
            None => key_pos(entries_view(es@), k@) == -1,
        },
{
    proof {
        lemma_entries_view(es@);
    }
    let mut i: usize = 0;
    while i < es.len()
        invariant
            i <= es.len(),
            entries_view(es@).len() == es@.len(),
            forall|j: int| 0 <= j < i ==> (#[trigger] entries_view(es@)[j]).0 != k@,
            forall|j: int|
                0 <= j < es@.len() ==> #[trigger] entries_view(es@)[j] == (es@[j].0@, view_of(
                    es@[j].1,
                )),
        decreases es.len() - i,
    {
        if es[i].0 == *k {
            proof {
                lemma_key_pos(entries_view(es@), k@, i as int);
            }
            return Some(i);
        }
        i = i + 1;
    }
    proof {
        lemma_key_absent(entries_view(es@), k@);
    }
    None
}

impl Json {
    /// The text of field `key` when this is an object whose field `key` is a string.
    pub fn get_str(&self, key: &String) -> (r: Option<String>)
        ensures
            match r {
                Some(s) => str_field(self@, key@) == Some(s@),
                None => str_field(self@, key@) is None,
            },
    {
        match self {
            Json::Object(es) => {
                proof {
                    lemma_entries_view(es@);
                }
                match find_key(es, key) {
                    Some(i) => match &es[i].1 {
                        Json::Str(s) => Some(s.clone()),
                        _ => None,
                    },
                    None => None,
                }
            },
            _ => None,
        }
    }
}

} // verus!

verus! {

proof fn lemma_first_key_exists(es: Seq<(Seq<char>, JsonV)>, k: Seq<char>, j: int)
    requires
        0 <= j < es.len(),
        es[j].0 == k,
    ensures
        exists|i: int| first_key_at(es, k, i),
    decreases j,
{
    if forall|i: int| 0 <= i < j ==> es[i].0 != k {
        assert(first_key_at(es, k, j));
    } else {
        let i = choose|i: int| 0 <= i < j && es[i].0 == k;
        lemma_first_key_exists(es, k, i);
    }
}

/// `key_pos` is the first position of the key, and -1 exactly when the key is absent.
pub proof fn lemma_key_pos_props(es: Seq<(Seq<char>, JsonV)>, k: Seq<char>)
    ensures
        key_pos(es, k) >= 0 ==> first_key_at(es, k, key_pos(es, k)),
        key_pos(es, k) == -1 <==> forall|j: int| 0 <= j < es.len() ==> es[j].0 != k,
        key_pos(es, k) >= -1,
{
    if exists|j: int| 0 <= j < es.len() && es[j].0 == k {
        let j = choose|j: int| 0 <= j < es.len() && es[j].0 == k;
        lemma_first_key_exists(es, k, j);
    }
}

/// Replacing the value of an entry keeps every key's position.
pub proof fn lemma_key_pos_update(es: Seq<(Seq<char>, JsonV)>, p: int, x: JsonV, k: Seq<char>)
    requires
        0 <= p < es.len(),
    ensures
        key_pos(es.update(p, (es[p].0, x)), k) == key_pos(es, k),
{
    let u = es.update(p, (es[p].0, x));
    lemma_key_pos_props(es, k);
    lemma_key_pos_props(u, k);
    assert forall|j: int| 0 <= j < es.len() implies #[trigger] u[j].0 == es[j].0 by {}
    if key_pos(es, k) >= 0 {
        lemma_key_pos(u, k, key_pos(es, k));
    }
}

/// Appending an entry keeps the positions of the keys already present.
pub proof fn lemma_key_pos_push(es: Seq<(Seq<char>, JsonV)>, e: (Seq<char>, JsonV), k: Seq<char>)
    ensures
        key_pos(es.push(e), k) == if key_pos(es, k) >= 0 {
            key_pos(es, k)
        } else if e.0 == k {
            es.len() as int
        } else {
            -1
        },
{
    let u = es.push(e);
    lemma_key_pos_props(es, k);
    lemma_key_pos_props(u, k);
    assert forall|j: int| 0 <= j < es.len() implies #[trigger] u[j] == es[j] by {}
    if key_pos(es, k) >= 0 {
        lemma_key_pos(u, k, key_pos(es, k));
    } else if e.0 == k {
        lemma_key_pos(u, k, es.len() as int);
    } else {
        assert(u[es.len() as int] == e);
    }
}

} // verus!
