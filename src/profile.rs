use vstd::prelude::*;
use crate::json::{Json, JsonV, entries_view, lemma_entries_view};
use crate::finalize::{finalized, build_final};
use crate::resolve::{ProfileError, Walk, resolution, resolve_chain};
use crate::codec::{pretty_of, render_document};

verus! {

/// The name a resolved profile carries: the display name of the chain's last
/// entry, else the start key.
pub open spec fn final_name(chain: Seq<(Seq<char>, JsonV)>, start: Seq<char>) -> Seq<char> {
    if chain.len() > 0 {
        chain.last().0
    } else {
        start
    }
}

/// What resolving `start` against `store` yields as a document.
pub open spec fn built(store: Seq<(Seq<char>, JsonV)>, start: Seq<char>) -> Option<JsonV> {
    match resolution(store, start) {
        Walk::Chain(c) => Some(finalized(c, final_name(c, start))),
        _ => None,
    }
}

/// Resolves `start` against the profiles of `store` and folds its chain
/// into one fully resolved document.
pub fn build_profile(start: &String, store: &Vec<(String, Json)>) -> (r: Result<Json, ProfileError>)
    ensures
        match resolution(entries_view(store@), start@) {
            Walk::Chain(c) => r is Ok && r->Ok_0@ == finalized(c, final_name(c, start@)),
            Walk::Cycle(k) => r is Err && r->Err_0 is CycleDetected && r->Err_0->CycleDetected_0@
                == k,
            Walk::Missing(k) => r is Err && r->Err_0 is NotFound && r->Err_0->NotFound_0@ == k,
        },
{
    let chain = resolve_chain(start, store)?;
    proof {
        lemma_entries_view(chain@);
    }
    let name = if chain.len() > 0 {
        chain[chain.len() - 1].0.clone()
    } else {
        start.clone()
    };
    Ok(build_final(&chain, &name))
}

/// As `build_profile`, written out as indented JSON text.
pub fn build_filament_profile(start: &String, store: &Vec<(String, Json)>) -> (r: Result<
    String,
    ProfileError,
>)
    ensures
        match resolution(entries_view(store@), start@) {
            Walk::Chain(c) => (r is Ok <==> pretty_of(finalized(c, final_name(c, start@))) is Some)
                && (r is Ok ==> r->Ok_0@ == pretty_of(finalized(c, final_name(c, start@)))->Some_0),
            Walk::Cycle(k) => r is Err && r->Err_0 is CycleDetected && r->Err_0->CycleDetected_0@
                == k,
            Walk::Missing(k) => r is Err && r->Err_0 is NotFound && r->Err_0->NotFound_0@ == k,
        },
        r is Err && r->Err_0 is Encode ==> resolution(entries_view(store@), start@) is Chain,
        r is Err ==> r->Err_0 is Encode || r->Err_0 is CycleDetected || r->Err_0 is NotFound,
{
    let doc = build_profile(start, store)?;
    match render_document(&doc) {
        Ok(text) => Ok(text),
        Err(message) => Err(ProfileError::Encode(message)),
    }
}

} // verus!
