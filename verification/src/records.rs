//! Process records and their construction from directory entries: each
//! entry whose name denotes a process identifier becomes one record, with
//! a resolved display name and a placeholder memory figure of zero.

use vstd::prelude::*;
use vstd::string::StringExecFns;
use crate::pid::{dec_value, is_pid_name, parse_pid};
use crate::text::{opt_view, resolve_process_name, resolved_name};

verus! {

/// One directory entry of the process-information root, as handed in by
/// the embedding layer: the entry's name, and the contents of the
/// process's command-line and short-name records (`None` where a record
/// could not be read).
pub struct ProcEntry {
    pub name: String,
    pub cmdline: Option<String>,
    pub comm: Option<String>,
}

/// One emitted process record.
pub struct ProcessRecord {
    pub pid: i32,
    pub name: String,
    pub ram_usage: i64,
}

/// The mathematical model of a directory entry.
pub struct EntryModel {
    pub name: Seq<char>,
    pub cmdline: Option<Seq<char>>,
    pub comm: Option<Seq<char>>,
}

/// The mathematical model of a process record.
pub struct RecordModel {
    pub pid: int,
    pub name: Seq<char>,
    pub ram_usage: int,
}

impl View for ProcEntry {
    type V = EntryModel;

    open spec fn view(&self) -> EntryModel {
        EntryModel {
            name: self.name@,
            cmdline: match self.cmdline {
                Some(s) => Some(s@),
                None => None,
            },
            comm: match self.comm {
                Some(s) => Some(s@),
                None => None,
            },
        }
    }
}

impl View for ProcessRecord {
    type V = RecordModel;

    open spec fn view(&self) -> RecordModel {
        RecordModel { pid: self.pid as int, name: self.name@, ram_usage: self.ram_usage as int }
    }
}

/// The record owed for an entry whose name denotes a process identifier.
pub open spec fn record_for(e: EntryModel) -> RecordModel {
    RecordModel { pid: dec_value(e.name), name: resolved_name(e.cmdline, e.comm), ram_usage: 0 }
}

/// The records owed for a sequence of directory entries, in entry order:
/// one per entry whose name denotes a process identifier, none for the
/// rest.
pub open spec fn records_of(es: Seq<EntryModel>) -> Seq<RecordModel>
    decreases es.len(),
{
    if es.len() == 0 {
        Seq::empty()
    } else {
        let prefix = records_of(es.drop_last());
        if is_pid_name(es.last().name) {
            prefix.push(record_for(es.last()))
        } else {
            prefix
        }
    }
}

/// The models of a sequence of entries.
pub open spec fn entry_models(v: Seq<ProcEntry>) -> Seq<EntryModel> {
    v.map_values(|e: ProcEntry| e@)
}

/// The models of a sequence of records.
pub open spec fn record_models(v: Seq<ProcessRecord>) -> Seq<RecordModel> {
    v.map_values(|r: ProcessRecord| r@)
}

/// Every entry whose name does not denote a process identifier is
/// excluded: the records are exactly the entries with such names, kept in
/// order and mapped to their records.
pub proof fn lemma_records_of_excludes_invalid(es: Seq<EntryModel>)
    ensures
        records_of(es) == es.filter(|e: EntryModel| is_pid_name(e.name)).map_values(
            |e: EntryModel| record_for(e),
        ),
    decreases es.len(),
{
    reveal(Seq::filter);
    let pred = |e: EntryModel| is_pid_name(e.name);
    let f = |e: EntryModel| record_for(e);
    if es.len() == 0 {
        assert(es.filter(pred).map_values(f) =~= Seq::<RecordModel>::empty());
    } else {
        lemma_records_of_excludes_invalid(es.drop_last());
        if pred(es.last()) {
            assert(es.filter(pred) == es.drop_last().filter(pred).push(es.last()));
            assert(es.filter(pred).map_values(f) =~= es.drop_last().filter(pred).map_values(
                f,
            ).push(f(es.last())));
        } else {
            assert(es.filter(pred) == es.drop_last().filter(pred));
        }
    }
}

/// Every record owed for a sequence of entries carries a process
/// identifier in range and a memory figure of zero.
pub proof fn lemma_records_of_bounds(es: Seq<EntryModel>)
    ensures
        forall|k: int|
            0 <= k < records_of(es).len() ==> 0 <= (#[trigger] records_of(es)[k]).pid
                <= i32::MAX && records_of(es)[k].ram_usage == 0,
    decreases es.len(),
{
    if es.len() > 0 {
        lemma_records_of_bounds(es.drop_last());
        let prefix = records_of(es.drop_last());
        if is_pid_name(es.last().name) {
            crate::pid::lemma_dec_value_nonneg(es.last().name);
            let rec = record_for(es.last());
            assert(records_of(es) == prefix.push(rec));
            assert forall|k: int| 0 <= k < records_of(es).len() implies 0 <= (
            #[trigger] records_of(es)[k]).pid <= i32::MAX && records_of(es)[k].ram_usage
                == 0 by {
                if k < prefix.len() {
                    assert(records_of(es)[k] == prefix[k]);
                } else {
                    assert(records_of(es)[k] == rec);
                }
            }
        }
    }
}

/// Builds the process records for the given directory entries: one record
/// per entry whose name denotes a process identifier, in entry order,
/// each with its resolved name and a memory figure of zero.
pub fn build_process_list(entries: &Vec<ProcEntry>) -> (r: Vec<ProcessRecord>)
    ensures
        record_models(r@) == records_of(entry_models(entries@)),
        forall|k: int| 0 <= k < r@.len() ==> (#[trigger] r@[k]).ram_usage == 0,
{
    let mut out: Vec<ProcessRecord> = Vec::new();
    let mut i: usize = 0;
    while i < entries.len()
        invariant
            0 <= i <= entries@.len(),
            record_models(out@) == records_of(entry_models(entries@.take(i as int))),
            forall|k: int| 0 <= k < out@.len() ==> (#[trigger] out@[k]).ram_usage == 0,
        decreases entries@.len() - i,
    {
        let e = &entries[i];
        let ghost prev = out@;
        match parse_pid(e.name.as_str()) {
            Some(pid) => {
                let cl: Option<&str> = match &e.cmdline {
                    Some(s) => Some(s.as_str()),
                    None => None,
                };
                let cm: Option<&str> = match &e.comm {
                    Some(s) => Some(s.as_str()),
                    None => None,
                };
                proof {
                    assert(opt_view(cl) == e@.cmdline);
                    assert(opt_view(cm) == e@.comm);
                }
                let nm = resolve_process_name(cl, cm);
                out.push(ProcessRecord { pid, name: nm, ram_usage: 0 });
            },
            None => {},
        }
        proof {
            let ms = entry_models(entries@);
            assert(entry_models(entries@.take(i as int)) =~= ms.take(i as int));
            assert(entry_models(entries@.take(i + 1 as int)) =~= ms.take(i + 1 as int));
            assert(ms.take(i + 1 as int).drop_last() =~= ms.take(i as int));
            assert(ms.take(i + 1 as int).last() == entries@[i as int]@);
            if is_pid_name(entries@[i as int]@.name) {
                assert(record_models(out@) =~= record_models(prev).push(out@.last()@));
                assert(out@.last()@ == record_for(entries@[i as int]@));
            } else {
                assert(record_models(out@) == record_models(prev));
            }
            assert(record_models(out@) == records_of(entry_models(entries@.take(i + 1 as int))));
        }
        i += 1;
    }
    proof {
        assert(entries@.take(entries@.len() as int) =~= entries@);
    }
    out
}

} // verus!
