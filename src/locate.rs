use vstd::prelude::*;
use vstd::string::{StrSliceExecFns, StringExecFns};

verus! {

/// Whether a name already ends in the profile extension.
pub open spec fn has_json_ext(name: Seq<char>) -> bool {
    name.len() >= 5 && name.subrange(name.len() - 5, name.len() as int) == ".json"@
}

/// The file name of a profile: its name with the profile extension, added
/// unless already there.
pub open spec fn file_name_of(name: Seq<char>) -> Seq<char> {
    if has_json_ext(name) {
        name
    } else {
        name + ".json"@
    }
}

/// The path of profile `name` in directory `dir`.
pub open spec fn path_of(dir: Seq<char>, name: Seq<char>) -> Seq<char> {
    dir + "/"@ + file_name_of(name)
}

/// `i` is the first position at which `present` holds.
pub open spec fn first_present(present: Seq<bool>, i: int) -> bool {
    &&& 0 <= i < present.len()
    &&& present[i]
    &&& forall|j: int| 0 <= j < i ==> !present[j]
}

/// The file name of profile `name`.
pub fn profile_file_name(name: &String) -> (r: String)
    ensures
        r@ == file_name_of(name@),
{
    let s = name.as_str();
    let n = s.unicode_len();
    if n >= 5 {
        let tail = String::from_str(s.substring_char(n - 5, n));
        if tail == String::from_str(".json") {
            return name.clone();
        }
    }
    name.clone().concat(".json")
}

/// The path of profile `name` in directory `dir`.
pub fn profile_path(dir: &String, name: &String) -> (r: String)
    ensures
        r@ == path_of(dir@, name@),
{
    let file = profile_file_name(name);
    let mut p = dir.clone();
    p.append("/");
    p.append(file.as_str());
    p
}

/// Locates profile `name`. The user directories come first, in order:
/// `present[i]` tells whether `profile_path(user_dirs[i], name)` is a file.
/// Where none is, the outcome of searching the system tree stands.
pub fn find_profile_file(
    name: &String,
    user_dirs: &Vec<String>,
    present: &Vec<bool>,
    system_hit: Option<String>,
) -> (r: Option<String>)
    requires
        present@.len() == user_dirs@.len(),
    ensures
        forall|i: int| first_present(present@, i) ==> r is Some && r->Some_0@ == path_of(
            user_dirs@[i]@,
            name@,
        ),
        (forall|i: int| 0 <= i < present@.len() ==> !present@[i]) ==> r == system_hit,
{
    let mut i: usize = 0;
    while i < present.len()
        invariant
            i <= present@.len(),
            present@.len() == user_dirs@.len(),
            forall|j: int| 0 <= j < i ==> !present@[j],
        decreases present.len() - i,
    {
        if present[i] {
            let r = profile_path(&user_dirs[i], name);
            assert forall|k: int| first_present(present@, k) implies k == i as int by {
                if k < i {
                    assert(!present@[k]);
                } else if k > i {
                    assert(!present@[i as int]);
                }
            }
            return Some(r);
        }
        i = i + 1;
    }
    system_hit
}

} // verus!
