//! The window manager's client list: which window has which title and
//! which process.

use crate::decimal::{parse_pid, pid_from_text};
use crate::errors::Errors;
use crate::json::{
    array_items, elements_of, json_model, member, member_of, models_of, shape_error, text,
    text_of, unsigned, unsigned_of, JsonModel,
};
use vstd::prelude::*;

verus! {

/// A client as contracts see it: its title and its process id, where 0
/// stands for a window without a process.
pub type Client = (Seq<char>, usize);

/// One window of the client list.
#[derive(Debug)]
pub struct ClientRecord {
    /// The window's title.
    pub title: String,
    /// The process behind the window; 0 where there is none.
    pub pid: usize,
}

impl View for ClientRecord {
    type V = Client;

    open spec fn view(&self) -> Client {
        (self.title@, self.pid)
    }
}

/// The views of a list of records.
pub open spec fn clients_view(records: Seq<ClientRecord>) -> Seq<Client> {
    Seq::new(records.len(), |i: int| records[i]@)
}

/// The title of a client object: its member `title`, where that is a
/// string.
pub open spec fn title_of(item: JsonModel) -> Option<Seq<char>> {
    match member_of(item, "title"@) {
        Some(t) => text_of(t),
        None => None,
    }
}

/// The process id that a document stands for: a non-negative integer that
/// a `usize` can hold stands for itself, a string for the number it spells,
/// and anything else for 0, the unknown process.
pub open spec fn pid_value(doc: JsonModel) -> usize {
    match doc {
        JsonModel::Unsigned(n) => if n <= usize::MAX {
            n as usize
        } else {
            0
        },
        JsonModel::Text(t) => pid_from_text(t),
        _ => 0,
    }
}

/// The process id of a client object: what its member `pid` stands for, and
/// 0 where it has none.
pub open spec fn pid_of(item: JsonModel) -> usize {
    match member_of(item, "pid"@) {
        Some(p) => pid_value(p),
        None => 0,
    }
}

/// Every element has a title.
pub open spec fn all_titled(items: Seq<JsonModel>) -> bool {
    forall|i: int| 0 <= i < items.len() ==> title_of(#[trigger] items[i]) is Some
}

/// The clients that a document lists, in its order: the document is an
/// array, and each element an object with a string for a title. `None` for
/// any other document.
pub open spec fn clients_of(doc: JsonModel) -> Option<Seq<Client>> {
    match elements_of(doc) {
        Some(items) => if all_titled(items) {
            Some(Seq::new(items.len(), |i: int| (title_of(items[i])->0, pid_of(items[i]))))
        } else {
            None
        },
        None => None,
    }
}

/// Reads the title of a client object.
pub fn client_title(item: &serde_json::Value) -> (r: Option<String>)
    ensures
        match r {
            Some(t) => title_of(json_model(*item)) == Some(t@),
            None => title_of(json_model(*item)) is None,
        },
{
    match member(item, "title") {
        Some(found) => match text(found) {
            Some(t) => Some(t.to_owned()),
            None => None,
        },
        None => None,
    }
}

/// Reads the process id of a client object.
pub fn client_pid(item: &serde_json::Value) -> (pid: usize)
    ensures
        pid == pid_of(json_model(*item)),
{
    match member(item, "pid") {
        Some(found) => match unsigned(found) {
            Some(n) => if n <= usize::MAX as u64 {
                n as usize
            } else {
                0
            },
            None => match text(found) {
                Some(t) => parse_pid(t),
                None => 0,
            },
        },
        None => 0,
    }
}

/// Reads the client list out of a parsed document. A document that is no
/// client list is a parse failure, with a reason that says what is wrong
/// with its shape.
pub fn decode_clients(doc: &serde_json::Value) -> (r: Result<Vec<ClientRecord>, Errors>)
    ensures
        match r {
            Ok(records) => clients_of(json_model(*doc)) == Some(clients_view(records@)),
            Err(e) => clients_of(json_model(*doc)) is None && e is SerdeParseError,
        },
{
    match array_items(doc) {
        None => {
            let cause = shape_error("invalid type: expected an array of clients");
            Err(Errors::SerdeParseError(cause))
        },
        Some(items) => {
            let ghost models = models_of(items@);
            let mut records: Vec<ClientRecord> = Vec::new();
            let mut i: usize = 0;
            while i < items.len()
                invariant
                    i <= items@.len(),
                    models == models_of(items@),
                    elements_of(json_model(*doc)) == Some(models),
                    records@.len() == i,
                    forall|k: int|
                        0 <= k < i ==> title_of(#[trigger] models[k]) == Some(records@[k].title@),
                    forall|k: int| 0 <= k < i ==> pid_of(#[trigger] models[k]) == records@[k].pid,
                decreases items@.len() - i,
            {
                assert(models[i as int] == json_model(items@[i as int]));
                match client_title(&items[i]) {
                    None => {
                        assert(title_of(models[i as int]) is None);
                        let cause = shape_error("missing field `title`: expected a string");
                        return Err(Errors::SerdeParseError(cause));
                    },
                    Some(title) => {
                        let pid = client_pid(&items[i]);
                        records.push(ClientRecord { title, pid });
                    },
                }
                i += 1;
            }
            assert(all_titled(models));
            assert(clients_of(json_model(*doc))->0 =~= clients_view(records@));
            Ok(records)
        },
    }
}

} // verus!
