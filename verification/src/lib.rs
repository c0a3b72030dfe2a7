//! A small verified library behind a process-listing bridge: it resolves a
//! display name for each process from its command-line and short-name
//! records, keeps the directory entries that name a process identifier,
//! and renders the resulting records as a JSON array.

pub mod json;
pub mod pid;
pub mod records;
pub mod text;

use vstd::prelude::*;
use vstd::string::StringExecFns;

use crate::json::{is_json_array_chars, json_list_chars, records_to_json};
use crate::records::{
    build_process_list, entry_models, lemma_records_of_bounds, record_models, records_of,
    ProcEntry,
};

verus! {

/// Renders the process list for the given directory entries as JSON text:
/// one object per entry whose name denotes a process identifier, in entry
/// order, each with the resolved name and a memory figure of zero. The
/// result is always well-formed JSON.
pub fn process_list_json(entries: &Vec<ProcEntry>) -> (r: String)
    ensures
        r@ == json_list_chars(records_of(entry_models(entries@))),
        is_json_array_chars(r@),
{
    let recs = build_process_list(entries);
    proof {
        lemma_records_of_bounds(entry_models(entries@));
        assert forall|k: int| 0 <= k < recs@.len() implies (#[trigger] recs@[k]).pid >= 0
            && recs@[k].ram_usage >= 0 by {
            assert(record_models(recs@)[k] == recs@[k]@);
            assert(record_models(recs@)[k] == records_of(entry_models(entries@))[k]);
        }
    }
    records_to_json(&recs)
}

/// The fixed greeting used to probe that the call path is wired.
pub fn hello_message() -> (r: String)
    ensures
        r@ == "Hello from Rust Root Backend!"@,
{
    String::from_str("Hello from Rust Root Backend!")
}

} // verus!
