//! Filling the registry from the window manager's client list.
//!
//! The clients are taken in the order of the list. A client whose title was
//! asked for writes its process into that title's slot, so of several
//! windows with one title the last decides; a client whose title was not
//! asked for is passed over.

use crate::clients::{clients_of, clients_view, decode_clients, Client, ClientRecord};
use crate::errors::Errors;
use crate::json::{json_model, parse_document, parsed_document};
use crate::registry::{record_one, slot_for, TitleRegistry};
use vstd::prelude::*;

verus! {

/// The mapping after the clients of `clients` were taken note of, one after
/// the other.
pub open spec fn record_all(m: Map<Seq<char>, Option<usize>>, clients: Seq<Client>) -> Map<
    Seq<char>,
    Option<usize>,
>
    decreases clients.len(),
{
    if clients.len() == 0 {
        m
    } else {
        record_one(record_all(m, clients.drop_last()), clients.last().0, clients.last().1)
    }
}

/// The place of the last client with the title `t`, if there is one.
pub open spec fn last_match(clients: Seq<Client>, t: Seq<char>) -> Option<int>
    decreases clients.len(),
{
    if clients.len() == 0 {
        None
    } else if clients.last().0 == t {
        Some(clients.len() - 1)
    } else {
        last_match(clients.drop_last(), t)
    }
}

/// `last_match` finds a client with the title after which no other client
/// has it, and finds none only where no client has it.
pub proof fn lemma_last_match(clients: Seq<Client>, t: Seq<char>)
    ensures
        match last_match(clients, t) {
            Some(i) => {
                &&& 0 <= i < clients.len()
                &&& clients[i].0 == t
                &&& forall|j: int| i < j < clients.len() ==> (#[trigger] clients[j]).0 != t
            },
            None => forall|j: int| 0 <= j < clients.len() ==> (#[trigger] clients[j]).0 != t,
        },
    decreases clients.len(),
{
    if clients.len() > 0 && clients.last().0 != t {
        let front = clients.drop_last();
        lemma_last_match(front, t);
        match last_match(front, t) {
            Some(i) => {
                assert forall|j: int| i < j < clients.len() implies (#[trigger] clients[j]).0
                    != t by {
                    if j < front.len() {
                        assert(front[j].0 != t);
                    }
                }
            },
            None => {
                assert forall|j: int| 0 <= j < clients.len() implies (#[trigger] clients[j]).0
                    != t by {
                    if j < front.len() {
                        assert(front[j].0 != t);
                    }
                }
            },
        }
    }
}

/// Resolution keeps the titles that were asked for and adds none. The slot
/// of a title is decided by the last client that has the title; the slot of
/// a title that no client has stays as it was.
pub proof fn lemma_last_match_wins(m: Map<Seq<char>, Option<usize>>, clients: Seq<Client>)
    ensures
        record_all(m, clients).dom() == m.dom(),
        forall|t: Seq<char>| #[trigger]
            m.contains_key(t) ==> record_all(m, clients)[t] == (match last_match(clients, t) {
                Some(i) => slot_for(clients[i].1),
                None => m[t],
            }),
    decreases clients.len(),
{
    if clients.len() > 0 {
        let front = clients.drop_last();
        lemma_last_match_wins(m, front);
        let before = record_all(m, front);
        assert(record_all(m, clients).dom() =~= m.dom());
        assert forall|t: Seq<char>| #[trigger] m.contains_key(t) implies record_all(m, clients)[t]
            == (match last_match(clients, t) {
            Some(i) => slot_for(clients[i].1),
            None => m[t],
        }) by {
            assert(before.contains_key(t));
            if clients.last().0 != t {
                match last_match(front, t) {
                    Some(i) => {
                        lemma_last_match(front, t);
                        assert(front[i] == clients[i]);
                    },
                    None => {},
                }
            }
        }
    }
}

/// Resolving a second time against the same client list changes nothing.
pub proof fn lemma_resolution_idempotent(m: Map<Seq<char>, Option<usize>>, clients: Seq<Client>)
    ensures
        record_all(record_all(m, clients), clients) == record_all(m, clients),
{
    let once = record_all(m, clients);
    let twice = record_all(once, clients);
    lemma_last_match_wins(m, clients);
    lemma_last_match_wins(once, clients);
    assert forall|t: Seq<char>| once.contains_key(t) implies #[trigger] twice[t] == once[t] by {
        assert(m.contains_key(t));
    }
    assert(twice =~= once);
}

/// Resolution leaves no slot with the process id 0, if there was none
/// before.
pub proof fn lemma_no_zero_slot(m: Map<Seq<char>, Option<usize>>, clients: Seq<Client>)
    requires
        forall|t: Seq<char>| #[trigger] m.contains_key(t) ==> m[t] != Some(0usize),
    ensures
        forall|t: Seq<char>| #[trigger]
            record_all(m, clients).contains_key(t) ==> record_all(m, clients)[t] != Some(0usize),
{
    lemma_last_match_wins(m, clients);
    assert forall|t: Seq<char>| #[trigger]
        record_all(m, clients).contains_key(t) implies record_all(m, clients)[t] != Some(
        0usize,
    ) by {
        assert(m.contains_key(t));
    }
}

/// Takes note of every client of `clients`, in order.
pub fn record_clients(hmap: &mut TitleRegistry, clients: &Vec<ClientRecord>)
    requires
        old(hmap).wf(),
    ensures
        final(hmap).wf(),
        final(hmap)@ == record_all(old(hmap)@, clients_view(clients@)),
        final(hmap).titles() == old(hmap).titles(),
{
    let ghost all = clients_view(clients@);
    let mut i: usize = 0;
    while i < clients.len()
        invariant
            i <= clients@.len(),
            all == clients_view(clients@),
            hmap.wf(),
            hmap@ == record_all(old(hmap)@, all.take(i as int)),
            hmap.titles() == old(hmap).titles(),
        decreases clients@.len() - i,
    {
        assert(all.take(i as int + 1).drop_last() =~= all.take(i as int));
        assert(all.take(i as int + 1).last() == clients@[i as int]@);
        hmap.record_client(clients[i].title.as_str(), clients[i].pid);
        i += 1;
    }
    assert(all.take(i as int) =~= all);
}

/// Parses the output of the query tool as JSON.
pub fn cmd_out_json_parser(inp: Vec<u8>) -> (r: Result<serde_json::Value, Errors>)
    ensures
        match r {
            Ok(doc) => parsed_document(inp@) == Some(json_model(doc)),
            Err(e) => parsed_document(inp@) is None && e is SerdeParseError,
        },
{
    match parse_document(inp.as_slice()) {
        Ok(doc) => Ok(doc),
        Err(cause) => Err(Errors::SerdeParseError(cause)),
    }
}

/// The clients that the output of the query tool lists: the output is JSON,
/// and the document a client list. `None` for any other output.
pub open spec fn listed_clients(output: Seq<u8>) -> Option<Seq<Client>> {
    match parsed_document(output) {
        Some(doc) => clients_of(doc),
        None => None,
    }
}

/// Resolves the registry against a parsed client list. Where the document
/// is no client list, that is a parse failure and the registry stays as it
/// is.
pub fn resolve_document(hmap: &mut TitleRegistry, doc: &serde_json::Value) -> (r: Result<
    (),
    Errors,
>)
    requires
        old(hmap).wf(),
    ensures
        final(hmap).wf(),
        final(hmap).titles() == old(hmap).titles(),
        match clients_of(json_model(*doc)) {
            Some(clients) => r is Ok && final(hmap)@ == record_all(old(hmap)@, clients),
            None => r is Err && r->Err_0 is SerdeParseError && *final(hmap) == *old(hmap),
        },
{
    match decode_clients(doc) {
        Ok(records) => {
            record_clients(hmap, &records);
            Ok(())
        },
        Err(e) => Err(e),
    }
}

/// Resolves the registry against what running the query tool gave:
/// its output, or the reason for which it could not be run.
///
/// Where the tool could not be run, its failure comes back with its
/// message. Where its output is not JSON, or the JSON is no client list,
/// a parse failure comes back. In both cases the registry stays as it is.
/// Otherwise the clients are taken note of in order.
pub fn hyprctl_parser(hmap: &mut TitleRegistry, cmd_result: Result<Vec<u8>, String>) -> (r: Result<
    (),
    Errors,
>)
    requires
        old(hmap).wf(),
    ensures
        final(hmap).wf(),
        final(hmap).titles() == old(hmap).titles(),
        match cmd_result {
            Err(message) => r == Err::<(), Errors>(Errors::HprctlError(message)) && *final(hmap)
                == *old(hmap),
            Ok(output) => match listed_clients(output@) {
                None => r is Err && r->Err_0 is SerdeParseError && *final(hmap) == *old(hmap),
                Some(clients) => r is Ok && final(hmap)@ == record_all(old(hmap)@, clients),
            },
        },
{
    match cmd_result {
        Ok(output) => match cmd_out_json_parser(output) {
            Ok(json_objects) => resolve_document(hmap, &json_objects),
            Err(e) => Err(e),
        },
        Err(message) => Err(Errors::HprctlError(message)),
    }
}

} // verus!
