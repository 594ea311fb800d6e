//! The lines that say what became of each title.
//!
//! A title that stands for no window gets a line that says so. A title
//! whose process was ended gets a line with the process id. A title whose
//! process could not be ended gets no line.

use crate::decimal::{decimal_digits, digit_value, lemma_digits_are_digits, pid_text};
use crate::errors::Errors;
use crate::registry::{distinct_titles, Slot};
use vstd::prelude::*;
use vstd::string::*;

verus! {

/// The line for a title that stands for no window.
pub open spec fn unknown_line(title: Seq<char>) -> Seq<char> {
    "Unknown window title: "@ + title
}

/// The line for a window whose process was ended.
pub open spec fn killed_line(title: Seq<char>, pid: usize) -> Seq<char> {
    "Killed window "@ + title + " with pid: "@ + decimal_digits(pid as nat)
}

/// The line that a registry line gives rise to, if any: `ended` says
/// whether its process, if it has one, was ended.
pub open spec fn entry_notice(slot: Slot, ended: bool) -> Option<Seq<char>> {
    match slot.1 {
        None => Some(unknown_line(slot.0)),
        Some(pid) => if ended {
            Some(killed_line(slot.0, pid))
        } else {
            None
        },
    }
}

/// The lines for a listing, in its order, where `ended` says for each line
/// of the listing whether its process was ended.
pub open spec fn notices(l: Seq<Slot>, ended: Seq<bool>) -> Seq<Seq<char>>
    decreases l.len(),
{
    if l.len() == 0 || ended.len() != l.len() {
        Seq::empty()
    } else {
        let before = notices(l.drop_last(), ended.drop_last());
        match entry_notice(l.last(), ended.last()) {
            Some(line) => before.push(line),
            None => before,
        }
    }
}

/// The views of a list of strings.
pub open spec fn lines_view(lines: Seq<String>) -> Seq<Seq<char>> {
    Seq::new(lines.len(), |i: int| lines[i]@)
}

/// Some line of the listing gives rise to `line`.
pub open spec fn stems_from(l: Seq<Slot>, ended: Seq<bool>, line: Seq<char>) -> bool {
    exists|j: int| 0 <= j < l.len() && entry_notice(#[trigger] l[j], ended[j]) == Some(line)
}

/// Where the parts of a line for an unknown title stand.
proof fn lemma_unknown_line_shape(title: Seq<char>)
    ensures
        unknown_line(title).len() == 22 + title.len(),
        unknown_line(title)[0] == 'U',
        forall|i: int| 0 <= i < title.len() ==> unknown_line(title)[22 + i] == #[trigger] title[i],
{
    reveal_strlit("Unknown window title: ");
}

/// Where the parts of a line for an ended process stand.
proof fn lemma_killed_line_shape(title: Seq<char>, pid: usize)
    ensures
        killed_line(title, pid).len() == 25 + title.len() + decimal_digits(pid as nat).len(),
        killed_line(title, pid)[0] == 'K',
        forall|i: int|
            0 <= i < title.len() ==> killed_line(title, pid)[14 + i] == #[trigger] title[i],
        killed_line(title, pid)[24 + title.len() as int] == ' ',
        forall|k: int|
            0 <= k < decimal_digits(pid as nat).len() ==> killed_line(title, pid)[25 + title.len() as int
                + k] == #[trigger] decimal_digits(pid as nat)[k],
{
    reveal_strlit("Killed window ");
    reveal_strlit(" with pid: ");
}

/// Two lines for unknown titles are the same line only for the same title.
pub proof fn lemma_unknown_line_injective(t1: Seq<char>, t2: Seq<char>)
    requires
        unknown_line(t1) == unknown_line(t2),
    ensures
        t1 == t2,
{
    lemma_unknown_line_shape(t1);
    lemma_unknown_line_shape(t2);
    assert forall|i: int| 0 <= i < t1.len() implies t1[i] == t2[i] by {
        assert(unknown_line(t1)[22 + i] == t1[i]);
        assert(unknown_line(t2)[22 + i] == t2[i]);
    }
    assert(t1 =~= t2);
}

/// A line for an unknown title is never a line for an ended process.
pub proof fn lemma_unknown_is_not_killed(t1: Seq<char>, t2: Seq<char>, pid: usize)
    ensures
        unknown_line(t1) != killed_line(t2, pid),
{
    lemma_unknown_line_shape(t1);
    lemma_killed_line_shape(t2, pid);
}

/// Two lines for ended processes are the same line only for the same
/// title: the process id is what follows the last blank.
pub proof fn lemma_killed_line_injective(t1: Seq<char>, pid_a: usize, t2: Seq<char>, pid_b: usize)
    requires
        killed_line(t1, pid_a) == killed_line(t2, pid_b),
    ensures
        t1 == t2,
{
    let line = killed_line(t1, pid_a);
    let d1 = decimal_digits(pid_a as nat);
    let d2 = decimal_digits(pid_b as nat);
    lemma_killed_line_shape(t1, pid_a);
    lemma_killed_line_shape(t2, pid_b);
    lemma_digits_are_digits(pid_a as nat);
    lemma_digits_are_digits(pid_b as nat);
    assert(digit_value(' ') is None);
    if d1.len() < d2.len() {
        let k = d2.len() - d1.len() - 1;
        assert(line[25 + t2.len() as int + k] == d2[k]);
        assert(digit_value(d2[k]) is Some);
        assert(25 + t2.len() + k == 24 + t1.len());
    } else if d2.len() < d1.len() {
        let k = d1.len() - d2.len() - 1;
        assert(line[25 + t1.len() as int + k] == d1[k]);
        assert(digit_value(d1[k]) is Some);
        assert(25 + t1.len() + k == 24 + t2.len());
    }
    assert(t1.len() == t2.len());
    assert forall|i: int| 0 <= i < t1.len() implies t1[i] == t2[i] by {
        assert(killed_line(t1, pid_a)[14 + i] == t1[i]);
        assert(killed_line(t2, pid_b)[14 + i] == t2[i]);
    }
    assert(t1 =~= t2);
}

/// Two registry lines give rise to the same line only where they carry
/// the same title.
pub proof fn lemma_entry_notice_injective(s1: Slot, e1: bool, s2: Slot, e2: bool)
    requires
        entry_notice(s1, e1) is Some,
        entry_notice(s1, e1) == entry_notice(s2, e2),
    ensures
        s1.0 == s2.0,
{
    match (s1.1, s2.1) {
        (None, None) => {
            lemma_unknown_line_injective(s1.0, s2.0);
        },
        (None, Some(pid_b)) => {
            lemma_unknown_is_not_killed(s1.0, s2.0, pid_b);
        },
        (Some(pid_a), None) => {
            lemma_unknown_is_not_killed(s2.0, s1.0, pid_a);
        },
        (Some(pid_a), Some(pid_b)) => {
            lemma_killed_line_injective(s1.0, pid_a, s2.0, pid_b);
        },
    }
}

/// Every line that is shown stems from a line of the registry.
pub proof fn lemma_lines_stem_from_entries(l: Seq<Slot>, ended: Seq<bool>)
    requires
        ended.len() == l.len(),
    ensures
        notices(l, ended).len() <= l.len(),
        forall|k: int|
            0 <= k < notices(l, ended).len() ==> stems_from(l, ended, #[trigger] notices(
                l,
                ended,
            )[k]),
    decreases l.len(),
{
    if l.len() > 0 {
        let front = l.drop_last();
        let front_ended = ended.drop_last();
        let before = notices(front, front_ended);
        let all = notices(l, ended);
        lemma_lines_stem_from_entries(front, front_ended);
        assert forall|k: int| 0 <= k < all.len() implies stems_from(l, ended, #[trigger] all[k]) by {
            if k < before.len() {
                assert(all[k] == before[k]);
                assert(stems_from(front, front_ended, before[k]));
                let j = choose|j: int|
                    0 <= j < front.len() && entry_notice(#[trigger] front[j], front_ended[j])
                        == Some(before[k]);
                assert(l[j] == front[j] && ended[j] == front_ended[j]);
            } else {
                let j = l.len() - 1;
                assert(entry_notice(l[j], ended[j]) == Some(all[k]));
            }
        }
    }
}

/// Every title with an empty slot has its line, whatever became of the
/// processes.
pub proof fn lemma_unknown_titles_reported(l: Seq<Slot>, ended: Seq<bool>)
    requires
        ended.len() == l.len(),
    ensures
        forall|i: int|
            0 <= i < l.len() && (#[trigger] l[i]).1 is None ==> notices(l, ended).contains(
                unknown_line(l[i].0),
            ),
    decreases l.len(),
{
    if l.len() > 0 {
        let front = l.drop_last();
        let before = notices(front, ended.drop_last());
        let all = notices(l, ended);
        lemma_unknown_titles_reported(front, ended.drop_last());
        assert forall|i: int| 0 <= i < l.len() && (#[trigger] l[i]).1 is None implies all.contains(
            unknown_line(l[i].0),
        ) by {
            if i < front.len() {
                assert(front[i] == l[i]);
                let line = unknown_line(l[i].0);
                let p = choose|p: int| 0 <= p < before.len() && before[p] == line;
                assert(all[p] == line);
            } else {
                assert(all[all.len() - 1] == unknown_line(l[i].0));
            }
        }
    }
}

/// No line is shown twice, where no title stands twice in the registry:
/// every title has at most one line.
pub proof fn lemma_one_line_per_title(l: Seq<Slot>, ended: Seq<bool>)
    requires
        ended.len() == l.len(),
        distinct_titles(l),
    ensures
        notices(l, ended).no_duplicates(),
    decreases l.len(),
{
    if l.len() > 0 {
        let front = l.drop_last();
        let front_ended = ended.drop_last();
        let before = notices(front, front_ended);
        let all = notices(l, ended);
        let last = l.len() - 1;
        assert forall|a: int, b: int| 0 <= a < b < front.len() implies (#[trigger] front[a]).0 != (
        #[trigger] front[b]).0 by {
            assert(front[a] == l[a] && front[b] == l[b]);
        }
        lemma_one_line_per_title(front, front_ended);
        lemma_lines_stem_from_entries(front, front_ended);
        assert forall|a: int, b: int| 0 <= a < all.len() && 0 <= b < all.len() && a != b implies all[a]
            != all[b] by {
            if a < before.len() && b < before.len() {
                assert(before[a] != before[b]);
            } else {
                let inner = if a < before.len() {
                    a
                } else {
                    b
                };
                assert(all[inner] == before[inner]);
                assert(stems_from(front, front_ended, before[inner]));
                let j = choose|j: int|
                    0 <= j < front.len() && entry_notice(#[trigger] front[j], front_ended[j])
                        == Some(before[inner]);
                assert(front[j] == l[j]);
                if all[a] == all[b] {
                    lemma_entry_notice_injective(front[j], front_ended[j], l[last], ended[last]);
                    assert(l[j].0 != l[last].0);
                }
            }
        }
    }
}

/// A process that could not be ended is passed over in silence: no line
/// says that the window of its title was killed.
pub proof fn lemma_failed_attempt_is_silent(l: Seq<Slot>, ended: Seq<bool>, i: int)
    requires
        ended.len() == l.len(),
        distinct_titles(l),
        0 <= i < l.len(),
        l[i].1 is Some,
        !ended[i],
    ensures
        !notices(l, ended).contains(killed_line(l[i].0, l[i].1->0)),
{
    let all = notices(l, ended);
    let line = killed_line(l[i].0, l[i].1->0);
    if all.contains(line) {
        let k = choose|k: int| 0 <= k < all.len() && all[k] == line;
        lemma_lines_stem_from_entries(l, ended);
        assert(stems_from(l, ended, all[k]));
        let j = choose|j: int|
            0 <= j < l.len() && entry_notice(#[trigger] l[j], ended[j]) == Some(line);
        lemma_entry_notice_injective(l[j], ended[j], (l[i].0, l[i].1), true);
        if j < i {
            assert(l[j].0 != l[i].0);
        } else if i < j {
            assert(l[i].0 != l[j].0);
        }
    }
}

/// Writes the line for a title that stands for no window.
pub fn unknown_notice(title: &str) -> (r: String)
    ensures
        r@ == unknown_line(title@),
{
    String::from_str("Unknown window title: ").concat(title)
}

/// Writes the line for a window whose process was ended.
pub fn killed_notice(title: &str, pid: usize) -> (r: String)
    ensures
        r@ == killed_line(title@, pid),
{
    let number = pid_text(pid);
    String::from_str("Killed window ").concat(title).concat(" with pid: ").concat(number.as_str())
}

/// The line to write after an attempt to end the process `pid` of the
/// window `title`: one that says so where the attempt worked, none where it
/// failed.
pub fn kill_report(title: &str, pid: usize, outcome: &Result<bool, Errors>) -> (r: Option<String>)
    ensures
        match r {
            Some(line) => Some(line@) == entry_notice((title@, Some(pid)), outcome is Ok),
            None => entry_notice((title@, Some(pid)), outcome is Ok) is None,
        },
{
    match outcome {
        Ok(_) => Some(killed_notice(title, pid)),
        Err(_) => None,
    }
}

} // verus!
