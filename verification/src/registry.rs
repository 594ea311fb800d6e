//! The registry of requested window titles.
//!
//! Every title occurs once, in the order in which it was first asked for,
//! next to a slot that holds the process id of its window once that is
//! known. A slot never holds the process id 0, which stands for a window
//! without a process.

use vstd::prelude::*;

verus! {

/// One line of a registry as contracts see it: a title and its slot.
pub type Slot = (Seq<char>, Option<usize>);

/// Whether some line of `l` carries the title `t`.
pub open spec fn has_title(l: Seq<Slot>, t: Seq<char>) -> bool {
    exists|i: int| 0 <= i < l.len() && (#[trigger] l[i]).0 == t
}

/// The place of a line of `l` that carries the title `t`.
pub open spec fn position(l: Seq<Slot>, t: Seq<char>) -> int {
    choose|i: int| 0 <= i < l.len() && (#[trigger] l[i]).0 == t
}

/// No title stands on two lines of `l`.
pub open spec fn distinct_titles(l: Seq<Slot>) -> bool {
    forall|i: int, j: int|
        0 <= i < j < l.len() ==> (#[trigger] l[i]).0 != (#[trigger] l[j]).0
}

/// No slot of `l` holds the process id 0.
pub open spec fn no_zero_pid(l: Seq<Slot>) -> bool {
    forall|i: int| 0 <= i < l.len() ==> (#[trigger] l[i]).1 != Some(0usize)
}

/// The mapping from title to slot that the lines of `l` stand for.
pub open spec fn listing_map(l: Seq<Slot>) -> Map<Seq<char>, Option<usize>> {
    Map::new(|t: Seq<char>| has_title(l, t), |t: Seq<char>| l[position(l, t)].1)
}

/// The slot that a client with process id `pid` leaves behind: empty for
/// the process id 0, the process id otherwise.
pub open spec fn slot_for(pid: usize) -> Option<usize> {
    if pid == 0 {
        None
    } else {
        Some(pid)
    }
}

/// What one window does to a mapping: the slot of its title becomes
/// `slot_for(pid)` where the title is a key, and nothing changes where it
/// is not.
pub open spec fn record_one(
    m: Map<Seq<char>, Option<usize>>,
    title: Seq<char>,
    pid: usize,
) -> Map<Seq<char>, Option<usize>> {
    if m.contains_key(title) {
        m.insert(title, slot_for(pid))
    } else {
        m
    }
}

/// The titles of `titles` without repetition, each at the place of its
/// first occurrence.
pub open spec fn first_occurrences(titles: Seq<Seq<char>>) -> Seq<Seq<char>>
    decreases titles.len(),
{
    if titles.len() == 0 {
        Seq::empty()
    } else {
        let before = first_occurrences(titles.drop_last());
        if before.contains(titles.last()) {
            before
        } else {
            before.push(titles.last())
        }
    }
}

/// The views of a list of strings.
pub open spec fn views_of(input: Seq<String>) -> Seq<Seq<char>> {
    Seq::new(input.len(), |i: int| input[i]@)
}

/// The lines of a registry in which every title of `titles` is unresolved.
pub open spec fn unresolved(titles: Seq<Seq<char>>) -> Seq<Slot> {
    Seq::new(titles.len(), |i: int| (titles[i], None::<usize>))
}

/// A requested title and the process id found for it, if any.
#[derive(Debug)]
pub struct TitleEntry {
    title: String,
    pid: Option<usize>,
}

/// The requested titles with their slots.
#[derive(Debug)]
pub struct TitleRegistry {
    entries: Vec<TitleEntry>,
}

impl View for TitleRegistry {
    type V = Map<Seq<char>, Option<usize>>;

    open spec fn view(&self) -> Map<Seq<char>, Option<usize>> {
        listing_map(self.listing())
    }
}

impl TitleRegistry {
    /// The lines of the registry, in the order in which the titles came.
    pub closed spec fn listing(&self) -> Seq<Slot> {
        Seq::new(self.entries@.len(), |i: int| (self.entries@[i].title@, self.entries@[i].pid))
    }

    /// The invariant of a registry: no title twice, no slot with process
    /// id 0.
    pub open spec fn wf(&self) -> bool {
        &&& distinct_titles(self.listing())
        &&& no_zero_pid(self.listing())
    }

    /// The titles of the registry, in the order in which they came.
    pub open spec fn titles(&self) -> Seq<Seq<char>> {
        Seq::new(self.listing().len(), |i: int| self.listing()[i].0)
    }

    /// A registry without titles.
    pub fn new() -> (r: Self)
        ensures
            r.wf(),
            r.listing() == Seq::<Slot>::empty(),
    {
        let r = TitleRegistry { entries: Vec::new() };
        assert(r.listing() =~= Seq::<Slot>::empty());
        r
    }

    /// The number of titles.
    pub fn len(&self) -> (n: usize)
        ensures
            n == self.listing().len(),
    {
        self.entries.len()
    }

    /// The title on line `i`.
    pub fn title_at(&self, i: usize) -> (t: &String)
        requires
            i < self.listing().len(),
        ensures
            t@ == self.listing()[i as int].0,
    {
        &self.entries[i].title
    }

    /// The slot on line `i`.
    pub fn pid_at(&self, i: usize) -> (p: Option<usize>)
        requires
            i < self.listing().len(),
        ensures
            p == self.listing()[i as int].1,
    {
        self.entries[i].pid
    }

    /// The line that carries `title`, if there is one.
    pub fn find(&self, title: &str) -> (r: Option<usize>)
        ensures
            match r {
                Some(i) => i < self.listing().len() && self.listing()[i as int].0 == title@,
                None => !has_title(self.listing(), title@),
            },
    {
        let key = title.to_owned();
        let mut i: usize = 0;
        while i < self.entries.len()
            invariant
                i <= self.entries@.len(),
                key@ == title@,
                forall|k: int| 0 <= k < i ==> (#[trigger] self.listing()[k]).0 != title@,
            decreases self.entries@.len() - i,
        {
            if self.entries[i].title == key {
                return Some(i);
            }
            i += 1;
        }
        None
    }

    /// Whether `title` was asked for.
    pub fn contains_key(&self, title: &str) -> (b: bool)
        ensures
            b == self@.contains_key(title@),
    {
        self.find(title).is_some()
    }

    /// The slot of `title`: `None` where the title was not asked for.
    pub fn get(&self, title: &str) -> (r: Option<Option<usize>>)
        requires
            self.wf(),
        ensures
            r == (if self@.contains_key(title@) {
                Some(self@[title@])
            } else {
                None
            }),
    {
        match self.find(title) {
            Some(i) => {
                proof {
                    lemma_position_unique(self.listing(), i as int);
                }
                Some(self.entries[i].pid)
            },
            None => None,
        }
    }

    /// Asks for `title`: the title gets an empty slot, whether it was there
    /// before or not, and keeps its line if it was.
    pub fn insert_unresolved(&mut self, title: String)
        requires
            old(self).wf(),
        ensures
            final(self).wf(),
            final(self)@ == old(self)@.insert(title@, None),
            final(self).listing() == (if has_title(old(self).listing(), title@) {
                old(self).listing().update(
                    position(old(self).listing(), title@),
                    (title@, None::<usize>),
                )
            } else {
                old(self).listing().push((title@, None::<usize>))
            }),
    {
        let found = self.find(title.as_str());
        let ghost before = self.listing();
        match found {
            Some(i) => {
                proof {
                    lemma_position_unique(before, i as int);
                }
                let entry = TitleEntry { title, pid: None };
                self.entries.set(i, entry);
                assert(self.listing() =~= before.update(i as int, (title@, None::<usize>)));
                proof {
                    lemma_update_slot(before, i as int, None);
                }
            },
            None => {
                self.entries.push(TitleEntry { title, pid: None });
                assert(self.listing() =~= before.push((title@, None::<usize>)));
                proof {
                    lemma_push_slot(before, title@, None);
                }
            },
        }
    }

    /// Takes note of a window with the title `title` and the process id
    /// `pid`. Where the title was asked for, its slot becomes `slot_for(pid)`;
    /// where it was not, nothing changes.
    pub fn record_client(&mut self, title: &str, pid: usize)
        requires
            old(self).wf(),
        ensures
            final(self).wf(),
            final(self)@ == record_one(old(self)@, title@, pid),
            final(self).titles() == old(self).titles(),
    {
        let found = self.find(title);
        let ghost before = self.listing();
        match found {
            Some(i) => {
                proof {
                    lemma_position_unique(before, i as int);
                }
                let slot = if pid == 0 {
                    None
                } else {
                    Some(pid)
                };
                let entry = TitleEntry { title: title.to_owned(), pid: slot };
                self.entries.set(i, entry);
                assert(self.listing() =~= before.update(i as int, (title@, slot)));
                proof {
                    lemma_update_slot(before, i as int, slot);
                }
                assert(self.titles() =~= old(self).titles());
            },
            None => {
                assert(self@ =~= record_one(old(self)@, title@, pid));
            },
        }
    }
}

/// In a listing without repeated titles, the place of a title is the line
/// on which it stands.
pub proof fn lemma_position_unique(l: Seq<Slot>, i: int)
    requires
        distinct_titles(l),
        0 <= i < l.len(),
    ensures
        has_title(l, l[i].0),
        position(l, l[i].0) == i,
        listing_map(l).contains_key(l[i].0),
        listing_map(l)[l[i].0] == l[i].1,
{
    let t = l[i].0;
    assert(has_title(l, t));
    let p = position(l, t);
    assert(0 <= p < l.len() && l[p].0 == t);
    if p < i {
        assert(l[p].0 != l[i].0);
    } else if i < p {
        assert(l[i].0 != l[p].0);
    }
}

/// Writing a new slot on line `i` keeps the titles apart and sets the value
/// of that title in the mapping.
pub proof fn lemma_update_slot(l: Seq<Slot>, i: int, slot: Option<usize>)
    requires
        distinct_titles(l),
        0 <= i < l.len(),
    ensures
        distinct_titles(l.update(i, (l[i].0, slot))),
        listing_map(l.update(i, (l[i].0, slot))) == listing_map(l).insert(l[i].0, slot),
        no_zero_pid(l) && slot != Some(0usize) ==> no_zero_pid(l.update(i, (l[i].0, slot))),
{
    let t = l[i].0;
    let u = l.update(i, (t, slot));
    assert forall|a: int, b: int| 0 <= a < b < u.len() implies (#[trigger] u[a]).0 != (
    #[trigger] u[b]).0 by {
        assert(u[a].0 == l[a].0);
        assert(u[b].0 == l[b].0);
    }
    assert forall|k: Seq<char>| has_title(u, k) == has_title(l, k) by {
        if has_title(l, k) {
            let p = position(l, k);
            assert(u[p].0 == k);
        }
        if has_title(u, k) {
            let p = position(u, k);
            assert(l[p].0 == k);
        }
    }
    assert forall|k: Seq<char>| has_title(u, k) implies #[trigger] listing_map(u)[k]
        == listing_map(l).insert(t, slot)[k] by {
        let p = position(u, k);
        lemma_position_unique(u, p);
        assert(l[p].0 == k);
        lemma_position_unique(l, p);
    }
    assert(listing_map(u) =~= listing_map(l).insert(t, slot));
    if no_zero_pid(l) && slot != Some(0usize) {
        assert forall|k: int| 0 <= k < u.len() implies (#[trigger] u[k]).1 != Some(0usize) by {
            if k != i {
                assert(u[k] == l[k]);
            }
        }
    }
}

/// Adding a line with a title that was not there keeps the titles apart and
/// adds that title to the mapping.
pub proof fn lemma_push_slot(l: Seq<Slot>, t: Seq<char>, slot: Option<usize>)
    requires
        distinct_titles(l),
        !has_title(l, t),
    ensures
        distinct_titles(l.push((t, slot))),
        listing_map(l.push((t, slot))) == listing_map(l).insert(t, slot),
        no_zero_pid(l) && slot != Some(0usize) ==> no_zero_pid(l.push((t, slot))),
{
    let u = l.push((t, slot));
    assert forall|a: int, b: int| 0 <= a < b < u.len() implies (#[trigger] u[a]).0 != (
    #[trigger] u[b]).0 by {
        assert(u[a] == l[a]);
        if b < l.len() {
            assert(u[b] == l[b]);
        } else {
            assert(l[a].0 != t);
        }
    }
    assert(u[l.len() as int].0 == t);
    assert forall|k: Seq<char>| has_title(u, k) == (has_title(l, k) || k == t) by {
        if has_title(l, k) {
            let p = position(l, k);
            assert(u[p].0 == k);
        }
        if has_title(u, k) {
            let p = position(u, k);
            if p < l.len() {
                assert(l[p].0 == k);
            }
        }
    }
    assert forall|k: Seq<char>| has_title(u, k) implies #[trigger] listing_map(u)[k]
        == listing_map(l).insert(t, slot)[k] by {
        let p = position(u, k);
        lemma_position_unique(u, p);
        if p < l.len() {
            assert(l[p].0 == k);
            lemma_position_unique(l, p);
        }
    }
    assert(listing_map(u) =~= listing_map(l).insert(t, slot));
    if no_zero_pid(l) && slot != Some(0usize) {
        assert forall|k: int| 0 <= k < u.len() implies (#[trigger] u[k]).1 != Some(0usize) by {
            if k < l.len() {
                assert(u[k] == l[k]);
            }
        }
    }
}

/// Builds the registry for the titles that were asked for. Every distinct
/// title of `input` gets one line with an empty slot, at the place of its
/// first occurrence; a repeated title changes nothing.
pub fn input_parser(input: Vec<String>) -> (r: TitleRegistry)
    ensures
        r.wf(),
        r.listing() == unresolved(first_occurrences(views_of(input@))),
        r@.dom() == views_of(input@).to_set(),
        forall|t: Seq<char>| r@.contains_key(t) ==> r@[t] == None::<usize>,
        r.listing().len() == views_of(input@).to_set().len(),
{
    let mut hmap = TitleRegistry::new();
    let ghost titles = views_of(input@);
    assert(titles.take(0) =~= Seq::<Seq<char>>::empty());
    assert(unresolved(first_occurrences(titles.take(0))) =~= Seq::<Slot>::empty());
    let mut i: usize = 0;
    while i < input.len()
        invariant
            i <= input@.len(),
            titles == views_of(input@),
            hmap.wf(),
            hmap.listing() == unresolved(first_occurrences(titles.take(i as int))),
        decreases input@.len() - i,
    {
        let title = input[i].clone();
        let ghost before = first_occurrences(titles.take(i as int));
        let ghost now = titles.take(i as int + 1);
        proof {
            assert(now.drop_last() =~= titles.take(i as int));
            assert(now.last() == title@);
            lemma_unresolved_has_title(before, title@);
            if before.contains(title@) {
                let p = position(unresolved(before), title@);
                assert(unresolved(before).update(p, (title@, None::<usize>)) =~= unresolved(
                    before,
                ));
            } else {
                assert(unresolved(before).push((title@, None::<usize>)) =~= unresolved(
                    before.push(title@),
                ));
            }
        }
        hmap.insert_unresolved(title);
        i += 1;
    }
    proof {
        assert(titles.take(i as int) =~= titles);
        lemma_registry_of_titles(titles);
    }
    hmap
}

/// A listing of unresolved titles carries exactly those titles.
pub proof fn lemma_unresolved_has_title(titles: Seq<Seq<char>>, t: Seq<char>)
    ensures
        has_title(unresolved(titles), t) == titles.contains(t),
{
    let l = unresolved(titles);
    if has_title(l, t) {
        let p = position(l, t);
        assert(titles[p] == t);
    }
    if titles.contains(t) {
        let p = choose|p: int| 0 <= p < titles.len() && titles[p] == t;
        assert(l[p].0 == t);
    }
}

/// `first_occurrences` keeps every title and repeats none.
pub proof fn lemma_first_occurrences(titles: Seq<Seq<char>>)
    ensures
        first_occurrences(titles).no_duplicates(),
        first_occurrences(titles).to_set() == titles.to_set(),
        first_occurrences(titles).len() == titles.to_set().len(),
    decreases titles.len(),
{
    let out = first_occurrences(titles);
    if titles.len() == 0 {
        assert(out.to_set() =~= titles.to_set());
    } else {
        let front = titles.drop_last();
        let before = first_occurrences(front);
        lemma_first_occurrences(front);
        assert forall|t: Seq<char>| titles.contains(t) == (front.contains(t) || t
            == titles.last()) by {
            if titles.contains(t) {
                let p = choose|p: int| 0 <= p < titles.len() && titles[p] == t;
                if p < front.len() {
                    assert(front[p] == t);
                }
            }
            if front.contains(t) {
                let p = choose|p: int| 0 <= p < front.len() && front[p] == t;
                assert(titles[p] == t);
            }
            if t == titles.last() {
                assert(titles[titles.len() - 1] == t);
            }
        }
        assert forall|t: Seq<char>| before.contains(t) == front.contains(t) by {
            assert(before.to_set().contains(t) == front.to_set().contains(t));
        }
        if before.contains(titles.last()) {
        } else {
            assert forall|t: Seq<char>| out.contains(t) == (before.contains(t) || t
                == titles.last()) by {
                if out.contains(t) {
                    let p = choose|p: int| 0 <= p < out.len() && out[p] == t;
                    if p < before.len() {
                        assert(before[p] == t);
                    }
                }
                if before.contains(t) {
                    let p = choose|p: int| 0 <= p < before.len() && before[p] == t;
                    assert(out[p] == t);
                }
                if t == titles.last() {
                    assert(out[out.len() - 1] == t);
                }
            }
            assert forall|a: int, b: int| 0 <= a < out.len() && 0 <= b < out.len() && a
                != b implies out[a] != out[b] by {
                if a < before.len() && b < before.len() {
                    assert(before[a] != before[b]);
                } else if a < before.len() {
                    assert(before.contains(before[a]));
                } else {
                    assert(before.contains(before[b]));
                }
            }
        }
        assert(out.to_set() =~= titles.to_set());
    }
    out.unique_seq_to_set();
}

/// The registry built for a list of titles has exactly one line for each
/// distinct title, whatever the list repeats, and every slot is empty.
pub proof fn lemma_registry_of_titles(titles: Seq<Seq<char>>)
    ensures
        distinct_titles(unresolved(first_occurrences(titles))),
        no_zero_pid(unresolved(first_occurrences(titles))),
        listing_map(unresolved(first_occurrences(titles))).dom() == titles.to_set(),
        forall|t: Seq<char>| #[trigger]
            listing_map(unresolved(first_occurrences(titles))).contains_key(t) ==> listing_map(
                unresolved(first_occurrences(titles)),
            )[t] == None::<usize>,
        unresolved(first_occurrences(titles)).len() == titles.to_set().len(),
{
    let firsts = first_occurrences(titles);
    let l = unresolved(firsts);
    lemma_first_occurrences(titles);
    assert forall|t: Seq<char>| listing_map(l).dom().contains(t) == titles.to_set().contains(
        t,
    ) by {
        lemma_unresolved_has_title(firsts, t);
        assert(firsts.to_set().contains(t) == titles.to_set().contains(t));
    }
    assert(listing_map(l).dom() =~= titles.to_set());
    assert forall|t: Seq<char>| #[trigger] listing_map(l).contains_key(t) implies listing_map(
        l,
    )[t] == None::<usize> by {
        let p = position(l, t);
        assert(l[p].1 == None::<usize>);
    }
}

} // verus!
