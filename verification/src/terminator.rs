//! Ending the processes that were found.
//!
//! The registry is walked in its order. For a title with a process the
//! process is asked to end, once; for a title without one nothing is done.
//! What came of each title is handed back with the lines to show.

use crate::errors::Errors;
use crate::notices::{
    kill_report, killed_line, lemma_failed_attempt_is_silent, lemma_lines_stem_from_entries,
    lemma_unknown_titles_reported, lines_view, notices, unknown_line, unknown_notice,
};
use crate::registry::{distinct_titles, TitleRegistry};
use sysinfo::{ProcessExt, SystemExt};
use vstd::prelude::*;

verus! {

/// `sysinfo::System`, a snapshot of the machine's processes. Nothing of its
/// inside is visible to the verifier.
#[verifier::external_type_specification]
#[verifier::external_body]
pub struct ExSystem(sysinfo::System);

/// `sysinfo::Process`, one process of a snapshot. Nothing of its inside is
/// visible to the verifier.
#[verifier::external_type_specification]
#[verifier::external_body]
pub struct ExProcess(sysinfo::Process);

/// The greatest process id that is looked up. `sysinfo` keeps a process id
/// in a signed 32-bit integer; a greater number is the id of no process.
pub const MAX_PID: usize = 2147483647;

/// Calls `sysinfo::System::new_all`, which takes a snapshot of the machine.
/// Trusted to return; what the snapshot holds depends on the machine, and
/// nothing is claimed of it.
#[verifier::external_body]
fn snapshot() -> sysinfo::System {
    sysinfo::System::new_all()
}

/// Calls `sysinfo::System::process` with `sysinfo::Pid::from(pid)`. The
/// bounds keep the conversion to `sysinfo::Pid` from changing the number.
/// Which processes a snapshot holds depends on the machine: nothing is
/// claimed of the result.
#[verifier::external_body]
fn find_process<'a>(system: &'a sysinfo::System, pid: usize) -> Option<&'a sysinfo::Process>
    requires
        0 < pid <= MAX_PID,
{
    system.process(sysinfo::Pid::from(pid))
}

/// Calls `sysinfo::Process::kill`, which asks the operating system to end
/// the process and says whether the request was taken. The answer depends
/// on the machine: nothing is claimed of it.
#[verifier::external_body]
fn end_process(process: &sysinfo::Process) -> bool {
    process.kill()
}

/// What an attempt to end a process comes to. `taken` is `None` where no
/// such process was found, and otherwise says whether the operating system
/// took the request. Only a request that was taken is a success.
pub open spec fn attempt_result(taken: Option<bool>) -> Result<bool, Errors> {
    if taken == Some(true) {
        Ok(true)
    } else {
        Err(Errors::FailedToKill)
    }
}

/// The result of an attempt to end a process: `attempt_result` of what was
/// found and answered.
pub fn attempt_outcome(taken: Option<bool>) -> (r: Result<bool, Errors>)
    ensures
        r == attempt_result(taken),
{
    match taken {
        Some(true) => Ok(true),
        _ => Err(Errors::FailedToKill),
    }
}

/// Ends the process with the id `pid`.
///
/// The process id 0 and one above `MAX_PID` are the id of no process: the
/// attempt fails, and nothing is asked of the operating system. Otherwise
/// the process is looked up and asked to end, and the result is that of
/// `attempt_outcome`: `Ok(true)` where the request was taken,
/// `Err(FailedToKill)` where the process is not there or the request was
/// refused. Which of the two it is depends on the machine.
pub fn kill_process(pid: usize) -> (r: Result<bool, Errors>)
    ensures
        r == attempt_result(Some(true)) || r == attempt_result(None),
        pid == 0 || pid > MAX_PID ==> r == attempt_result(None),
{
    if pid == 0 || pid > MAX_PID {
        return attempt_outcome(None);
    }
    let system = snapshot();
    let taken = match find_process(&system, pid) {
        Some(process) => Some(end_process(process)),
        None => None,
    };
    attempt_outcome(taken)
}

/// What came of a walk through the registry.
#[derive(Debug)]
pub struct KillSummary {
    /// The lines to show, in the order of the registry.
    pub lines: Vec<String>,
    /// For each line of the registry, in its order, whether a process
    /// was ended for it.
    pub ended: Vec<bool>,
}

/// Walks the registry in its order and asks the process of every title
/// that has one to end.
///
/// The summary says for each title whether its process was ended, which
/// depends on the machine, and holds the lines to show: exactly those of
/// `notices` for that outcome. A title with an empty slot is never marked
/// as ended and always has its line; a title whose process could not be
/// ended has none.
pub fn process_killer(inputs: &TitleRegistry) -> (summary: KillSummary)
    ensures
        summary.ended@.len() == inputs.listing().len(),
        lines_view(summary.lines@) == notices(inputs.listing(), summary.ended@),
        forall|i: int|
            0 <= i < inputs.listing().len() && #[trigger] summary.ended@[i] ==> {
                &&& inputs.listing()[i].1 is Some
                &&& 0 < inputs.listing()[i].1->0 <= MAX_PID
            },
        summary.lines@.len() <= inputs.listing().len(),
        forall|i: int|
            0 <= i < inputs.listing().len() && (#[trigger] inputs.listing()[i]).1 is None
                ==> lines_view(summary.lines@).contains(unknown_line(inputs.listing()[i].0)),
        distinct_titles(inputs.listing()) ==> forall|i: int|
            0 <= i < inputs.listing().len() && (#[trigger] inputs.listing()[i]).1 is Some
                && !summary.ended@[i] ==> !lines_view(summary.lines@).contains(
                killed_line(inputs.listing()[i].0, inputs.listing()[i].1->0),
            ),
{
    let ghost l = inputs.listing();
    let mut lines: Vec<String> = Vec::new();
    let mut ended: Vec<bool> = Vec::new();
    let mut i: usize = 0;
    assert(lines_view(lines@) =~= notices(l.take(0), ended@));
    while i < inputs.len()
        invariant
            i <= l.len(),
            l == inputs.listing(),
            ended@.len() == i,
            lines_view(lines@) == notices(l.take(i as int), ended@),
            forall|k: int|
                0 <= k < i && #[trigger] ended@[k] ==> l[k].1 is Some && 0 < l[k].1->0 <= MAX_PID,
        decreases l.len() - i,
    {
        let ghost before = ended@;
        let title = inputs.title_at(i);
        match inputs.pid_at(i) {
            None => {
                lines.push(unknown_notice(title.as_str()));
                ended.push(false);
            },
            Some(pid) => {
                let outcome = kill_process(pid);
                match kill_report(title.as_str(), pid, &outcome) {
                    Some(line) => {
                        lines.push(line);
                    },
                    None => {},
                }
                ended.push(outcome.is_ok());
            },
        }
        proof {
            let now = l.take(i as int + 1);
            assert(now.drop_last() =~= l.take(i as int));
            assert(now.last() == l[i as int]);
            assert(ended@.drop_last() =~= before);
            assert(lines_view(lines@) =~= notices(now, ended@));
        }
        i += 1;
    }
    proof {
        assert(l.take(i as int) =~= l);
        lemma_unknown_titles_reported(l, ended@);
        lemma_lines_stem_from_entries(l, ended@);
        if distinct_titles(l) {
            assert forall|i: int|
                0 <= i < l.len() && (#[trigger] l[i]).1 is Some && !ended@[i] implies !notices(
                l,
                ended@,
            ).contains(killed_line(l[i].0, l[i].1->0)) by {
                lemma_failed_attempt_is_silent(l, ended@, i);
            }
        }
    }
    KillSummary { lines, ended }
}

} // verus!
