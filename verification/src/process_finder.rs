//! Locating the target process: a snapshot of the machine's process
//! table, and an ASCII case-insensitive substring match of executable
//! names against the configured process name.
//!
//! The snapshot itself comes from the `sysinfo` crate and depends on the
//! machine's state, so nothing is promised of its contents; the matching
//! discipline over whatever list came back is fully specified and
//! verified ([`first_matching_process`], [`any_name_match`]).

use vstd::prelude::*;
use crate::text::contains_ci;
use crate::text::contains_ci_exec;

verus! {

#[verifier::external_type_specification]
#[verifier::external_body]
pub struct ExSystem(sysinfo::System);

/// Relies on `sysinfo::System::new_all`: builds a process-table holder
/// with an initial snapshot loaded.
#[verifier::external_body]
fn new_system() -> sysinfo::System {
    sysinfo::System::new_all()
}

/// Relies on `sysinfo::System::refresh_all`: refreshes the held tables
/// to the machine's current state.
#[verifier::external_body]
fn refresh_system(sys: &mut sysinfo::System) {
    sys.refresh_all();
}

/// Relies on `sysinfo::System::processes`: hands out the snapshot's
/// processes, each converted to plain values — its id
/// (`sysinfo::Pid::as_u32`) and its executable name
/// (`sysinfo::Process::name`, lossily decoded). The list reflects
/// whatever the machine reported at the last refresh, in no promised
/// order, so nothing is stated of its contents.
#[verifier::external_body]
fn process_list(sys: &sysinfo::System) -> Vec<(u64, String)> {
    sys.processes().iter().map(
        |entry: (&sysinfo::Pid, &sysinfo::Process)| (
            entry.0.as_u32() as u64,
            entry.1.name().to_string_lossy().into_owned(),
        ),
    ).collect()
}

/// The index of the first entry whose name contains `needle` (ASCII
/// case-insensitively), scanning from `i`.
pub open spec fn first_match_index(list: Seq<(u64, String)>, needle: Seq<char>, i: int) -> Option<
    int,
>
    decreases list.len() - i,
{
    if i < 0 || i >= list.len() {
        None
    } else if contains_ci(list[i].1@, needle) {
        Some(i)
    } else {
        first_match_index(list, needle, i + 1)
    }
}

proof fn lemma_match_locate(list: Seq<(u64, String)>, needle: Seq<char>, start: int, k: int)
    requires
        0 <= start <= k < list.len(),
        forall|j: int| start <= j < k ==> !contains_ci(list[j].1@, needle),
        contains_ci(list[k].1@, needle),
    ensures
        first_match_index(list, needle, start) == Some(k),
    decreases k - start,
{
    if start < k {
        lemma_match_locate(list, needle, start + 1, k);
    }
}

proof fn lemma_match_none(list: Seq<(u64, String)>, needle: Seq<char>, start: int)
    requires
        0 <= start <= list.len(),
        forall|j: int| start <= j < list.len() ==> !contains_ci(list[j].1@, needle),
    ensures
        first_match_index(list, needle, start) is None,
    decreases list.len() - start,
{
    if start < list.len() {
        lemma_match_none(list, needle, start + 1);
    }
}

/// The id of the first listed process whose name contains `name`,
/// compared ASCII case-insensitively.
pub fn first_matching_process(list: &Vec<(u64, String)>, name: &str) -> (r: Option<u64>)
    ensures
        ({
            let idx = first_match_index(list@, name@, 0);
            match r {
                Some(pid) => idx matches Some(i) && pid == list@[i].0,
                None => idx is None,
            }
        }),
{
    let n = list.len();
    let mut i: usize = 0;
    while i < n
        invariant
            n == list@.len(),
            i <= n,
            forall|j: int| 0 <= j < i ==> !contains_ci(list@[j].1@, name@),
        decreases n - i,
    {
        if contains_ci_exec(list[i].1.as_str(), name) {
            proof {
                lemma_match_locate(list@, name@, 0, i as int);
            }
            return Some(list[i].0);
        }
        i = i + 1;
    }
    proof {
        lemma_match_none(list@, name@, 0);
    }
    None
}

/// Whether any listed process name contains `name`, compared ASCII
/// case-insensitively.
pub fn any_name_match(list: &Vec<(u64, String)>, name: &str) -> (r: bool)
    ensures
        r == exists|i: int| 0 <= i < list@.len() && contains_ci(list@[i].1@, name@),
{
    let n = list.len();
    let mut i: usize = 0;
    while i < n
        invariant
            n == list@.len(),
            i <= n,
            forall|j: int| 0 <= j < i ==> !contains_ci(list@[j].1@, name@),
        decreases n - i,
    {
        if contains_ci_exec(list[i].1.as_str(), name) {
            return true;
        }
        i = i + 1;
    }
    false
}

/// Finds processes by name over a private system snapshot. Not
/// thread-safe; each concurrent consumer holds its own instance.
pub struct ProcessFinder {
    system: sysinfo::System,
}

impl ProcessFinder {
    pub fn new() -> ProcessFinder {
        ProcessFinder { system: new_system() }
    }

    /// Refreshes the snapshot and returns the id of the first process
    /// whose name contains `process_name` (ASCII case-insensitively),
    /// or `None` when no process matches. The returned id serves as the
    /// window identifier; a platform front end with a window system maps
    /// it to a concrete window handle. What comes back depends on the
    /// machine's state; the match discipline applied to the snapshot is
    /// that of [`first_matching_process`].
    pub fn find_process_window(&mut self, process_name: &str) -> Option<u64> {
        refresh_system(&mut self.system);
        let list = process_list(&self.system);
        first_matching_process(&list, process_name)
    }

    /// Refreshes the snapshot and reports whether any process name
    /// contains `process_name` (ASCII case-insensitively), with the
    /// match discipline of [`any_name_match`].
    pub fn is_process_running(&mut self, process_name: &str) -> bool {
        refresh_system(&mut self.system);
        let list = process_list(&self.system);
        any_name_match(&list, process_name)
    }
}

} // verus!
