//! The read side of serial connections: items read per connection.

use vstd::prelude::*;
use crate::error::SerialportApiError;
use crate::keyed::{has_key, value_of, insert_sorted, remove_key, keys_sorted, lemma_found_is_index_of_key, index_of_key};

verus! {

/// One thing read from a connection: a complete line (with its delimiter)
/// or a read error.
#[derive(Debug, PartialEq, Eq)]
pub enum SerialReadItem {
    Line(Vec<u8>),
    Error(String),
}

/// Hands out, per connection, what has been read since the last call.
pub trait SerialReadSource {
    fn drain_items(&mut self, connection_name: &str) -> Result<Vec<SerialReadItem>, SerialportApiError>;
}

/// A read source fed by hand: items queue per connection name until they
/// are drained.
#[derive(Debug)]
pub struct MockSerialReadSource {
    items_by_connection: Vec<(String, Vec<SerialReadItem>)>,
}

impl MockSerialReadSource {
    #[verifier::type_invariant]
    spec fn wf(&self) -> bool {
        keys_sorted(self.items_by_connection@)
    }

    /// The items queued for `name`, oldest first.
    pub closed spec fn queued(&self, name: Seq<char>) -> Seq<SerialReadItem> {
        match value_of(self.items_by_connection@, name) {
            Some(items) => items@,
            None => Seq::empty(),
        }
    }

    /// A source with nothing queued.
    pub fn new() -> (r: MockSerialReadSource)
        ensures
            forall|n: Seq<char>| #[trigger] r.queued(n) == Seq::<SerialReadItem>::empty(),
    {
        MockSerialReadSource { items_by_connection: Vec::new() }
    }

    /// Queues a line for a connection.
    pub fn push_line(&mut self, connection_name: String, line: Vec<u8>)
        ensures
            final(self).queued(connection_name@) == old(self).queued(connection_name@).push(SerialReadItem::Line(line)),
            forall|n: Seq<char>| n != connection_name@ ==> #[trigger] final(self).queued(n) == old(self).queued(n),
    {
        self.push_item(connection_name, SerialReadItem::Line(line));
    }

    /// Queues a read error for a connection.
    pub fn push_error(&mut self, connection_name: String, message: String)
        ensures
            final(self).queued(connection_name@) == old(self).queued(connection_name@).push(SerialReadItem::Error(message)),
            forall|n: Seq<char>| n != connection_name@ ==> #[trigger] final(self).queued(n) == old(self).queued(n),
    {
        self.push_item(connection_name, SerialReadItem::Error(message));
    }

    fn push_item(&mut self, connection_name: String, item: SerialReadItem)
        ensures
            final(self).queued(connection_name@) == old(self).queued(connection_name@).push(item),
            forall|n: Seq<char>| n != connection_name@ ==> #[trigger] final(self).queued(n) == old(self).queued(n),
    {
        proof {
            use_type_invariant(&*self);
        }
        let mut all = Vec::new();
        std::mem::swap(&mut all, &mut self.items_by_connection);
        let ghost before = all@;
        let mut items = match remove_key(&mut all, connection_name.as_str()) {
            Some(items) => items,
            None => Vec::new(),
        };
        proof {
            if has_key(before, connection_name@) {
                lemma_found_is_index_of_key(before, index_of_key(before, connection_name@));
            }
        }
        items.push(item);
        insert_sorted(&mut all, connection_name, items);
        self.items_by_connection = all;
    }
}

impl Default for MockSerialReadSource {
    /// A source with nothing queued.
    fn default() -> (r: MockSerialReadSource)
        ensures
            forall|n: Seq<char>| #[trigger] r.queued(n) == Seq::<SerialReadItem>::empty(),
    {
        MockSerialReadSource::new()
    }
}

/// A read item once its line has been decoded: the JSON value the line's
/// text parsed to, if any, with the text; or a read error.
#[derive(Debug, PartialEq)]
pub enum DecodedReadItem {
    Line { parsed: Option<crate::json::JsonValue>, text: String },
    Error(String),
}

impl SerialReadSource for MockSerialReadSource {
    /// Hands out and forgets the items queued for the connection; never fails.
    fn drain_items(&mut self, connection_name: &str) -> (r: Result<Vec<SerialReadItem>, SerialportApiError>)
        ensures
            r matches Ok(items) && items@ == old(self).queued(connection_name@),
            final(self).queued(connection_name@) == Seq::<SerialReadItem>::empty(),
            forall|n: Seq<char>| n != connection_name@ ==> #[trigger] final(self).queued(n) == old(self).queued(n),
    {
        proof {
            use_type_invariant(&*self);
        }
        let mut all = Vec::new();
        std::mem::swap(&mut all, &mut self.items_by_connection);
        let ghost before = all@;
        let drained = match remove_key(&mut all, connection_name) {
            Some(items) => items,
            None => Vec::new(),
        };
        proof {
            if has_key(before, connection_name@) {
                lemma_found_is_index_of_key(before, index_of_key(before, connection_name@));
            }
        }
        self.items_by_connection = all;
        Ok(drained)
    }
}

} // verus!
