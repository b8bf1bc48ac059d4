//! The write side of serial connections, and a recording transport that
//! opens nothing.

use vstd::prelude::*;
use crate::error::SerialportApiError;
use crate::keyed::{keys_sorted, has_key, value_of, insert_sorted, remove_key, lemma_found_is_index_of_key};
use crate::serial::manager::ConnectionInfo;

verus! {

/// Opens, closes and writes to named serial connections. Each call joins a
/// log of the calls of its kind, with the outcome it returned.
pub trait SerialTransport {
    /// The frames written to `name` so far, in the order of the writes that
    /// succeeded.
    spec fn delivered(&self, name: Seq<char>) -> Seq<Seq<u8>>;

    /// Whether a connection named `name` is open.
    spec fn holds_open(&self, name: Seq<char>) -> bool;

    /// Whether every call on this transport succeeds.
    spec fn never_fails(&self) -> bool;

    /// The connections asked to open so far, in order, with the errors of those that failed.
    spec fn open_calls(&self) -> Seq<(ConnectionInfo, Option<SerialportApiError>)>;

    /// The names asked to close so far, in order, with the errors of those that failed.
    spec fn close_calls(&self) -> Seq<(Seq<char>, Option<SerialportApiError>)>;

    /// The writes asked so far, in order: the connection name, the frame and
    /// the error if it failed.
    spec fn write_calls(&self) -> Seq<(Seq<char>, Seq<u8>, Option<SerialportApiError>)>;

    /// Opens the connection: when that succeeds it is open. Nothing is
    /// delivered.
    fn open(&mut self, connection: &ConnectionInfo) -> (r: Result<(), SerialportApiError>)
        ensures
            old(self).never_fails() ==> r is Ok,
            final(self).never_fails() == old(self).never_fails(),
            r is Ok ==> final(self).holds_open(connection.name@),
            final(self).open_calls() == old(self).open_calls().push((*connection, failure(r))),
            final(self).close_calls() == old(self).close_calls(),
            final(self).write_calls() == old(self).write_calls(),
            forall|n: Seq<char>| #[trigger] final(self).delivered(n) == old(self).delivered(n),
    ;

    /// Closes the connection `name`: when that succeeds it is not open.
    /// Nothing is delivered.
    fn close(&mut self, name: &str) -> (r: Result<(), SerialportApiError>)
        ensures
            old(self).never_fails() ==> r is Ok,
            final(self).never_fails() == old(self).never_fails(),
            r is Ok ==> !final(self).holds_open(name@),
            final(self).open_calls() == old(self).open_calls(),
            final(self).close_calls() == old(self).close_calls().push((name@, failure(r))),
            final(self).write_calls() == old(self).write_calls(),
            forall|n: Seq<char>| #[trigger] final(self).delivered(n) == old(self).delivered(n),
    ;

    /// Writes one frame to the connection `name`: a write that succeeds adds
    /// the frame to what was delivered to `name`; nothing else is delivered.
    fn write_frame(&mut self, name: &str, frame: &[u8]) -> (r: Result<(), SerialportApiError>)
        ensures
            old(self).never_fails() ==> r is Ok,
            final(self).never_fails() == old(self).never_fails(),
            r is Ok ==> final(self).delivered(name@) == old(self).delivered(name@).push(frame@),
            r is Err ==> final(self).delivered(name@) == old(self).delivered(name@),
            forall|n: Seq<char>| n != name@ ==> #[trigger] final(self).delivered(n) == old(self).delivered(n),
            final(self).open_calls() == old(self).open_calls(),
            final(self).close_calls() == old(self).close_calls(),
            final(self).write_calls() == old(self).write_calls().push((name@, frame@, failure(r))),
    ;
}

/// The error a call returned, if it failed.
pub open spec fn failure<T>(r: Result<T, SerialportApiError>) -> Option<SerialportApiError> {
    match r {
        Ok(_) => None,
        Err(e) => Some(e),
    }
}

/// No call made yet.
pub open spec fn empty_call_log() -> CallLog {
    (Seq::empty(), Seq::empty(), Seq::empty())
}

/// The calls made on a transport: opens, closes and writes, each with its
/// outcome.
pub type CallLog = (
    Seq<(ConnectionInfo, Option<SerialportApiError>)>,
    Seq<(Seq<char>, Option<SerialportApiError>)>,
    Seq<(Seq<char>, Seq<u8>, Option<SerialportApiError>)>,
);

/// A copy of a byte vector.
pub fn copy_bytes(b: &Vec<u8>) -> (r: Vec<u8>)
    ensures
        r@ == b@,
{
    let mut r: Vec<u8> = Vec::new();
    let mut i: usize = 0;
    while i < b.len()
        invariant
            i <= b@.len(),
            r@ == b@.subrange(0, i as int),
        decreases b@.len() - i,
    {
        r.push(b[i]);
        i = i + 1;
        assert(r@ =~= b@.subrange(0, i as int));
    }
    assert(b@.subrange(0, b@.len() as int) =~= b@);
    r
}

/// The byte contents of each of a list of frames.
pub open spec fn frames_view(frames: Seq<Vec<u8>>) -> Seq<Seq<u8>> {
    frames.map_values(|f: Vec<u8>| f@)
}

/// A copy of a list of frames.
pub fn copy_frames(frames: &Vec<Vec<u8>>) -> (r: Vec<Vec<u8>>)
    ensures
        frames_view(r@) == frames_view(frames@),
{
    let mut r: Vec<Vec<u8>> = Vec::new();
    let mut i: usize = 0;
    while i < frames.len()
        invariant
            i <= frames@.len(),
            r@.len() == i,
            forall|j: int| 0 <= j < i ==> (#[trigger] r@[j])@ == frames@[j]@,
        decreases frames@.len() - i,
    {
        r.push(copy_bytes(&frames[i]));
        i = i + 1;
    }
    assert(frames_view(r@) =~= frames_view(frames@));
    r
}

/// A copy of a list of names.
pub fn copy_names(names: &Vec<String>) -> (r: Vec<String>)
    ensures
        r@ == names@,
{
    let mut r: Vec<String> = Vec::new();
    let mut i: usize = 0;
    while i < names.len()
        invariant
            i <= names@.len(),
            r@ == names@.subrange(0, i as int),
        decreases names@.len() - i,
    {
        r.push(names[i].clone());
        i = i + 1;
        assert(r@ =~= names@.subrange(0, i as int));
    }
    assert(names@.subrange(0, names@.len() as int) =~= names@);
    r
}

/// A transport that opens no port and records what is done to it: the
/// names open now, the names closed in order, and the frames written to
/// each name. The open and write calls are also kept in a ghost log.
pub struct MockSerialTransport {
    open_connections: Vec<(String, ())>,
    closed_connections: Vec<String>,
    written: Vec<(String, Vec<Vec<u8>>)>,
    calls: Ghost<CallLog>,
}

impl MockSerialTransport {
    /// The recorder's invariant: both name-keyed records are ordered.
    #[verifier::type_invariant]
    spec fn wf(&self) -> bool {
        &&& keys_sorted(self.open_connections@)
        &&& keys_sorted(self.written@)
    }

    /// The names currently open, in increasing order.
    pub closed spec fn open_names(&self) -> Seq<String> {
        self.open_connections@.map_values(|e: (String, ())| e.0)
    }

    /// Whether `name` is currently open.
    pub closed spec fn is_open(&self, name: Seq<char>) -> bool {
        has_key(self.open_connections@, name)
    }

    /// The names closed so far, in the order of the calls.
    pub closed spec fn closed(&self) -> Seq<Seq<char>> {
        self.closed_connections@.map_values(|s: String| s@)
    }

    /// The frames written to `name` so far, in order.
    pub closed spec fn frames_for(&self, name: Seq<char>) -> Seq<Seq<u8>> {
        match value_of(self.written@, name) {
            Some(frames) => frames_view(frames@),
            None => Seq::empty(),
        }
    }

    /// The open, close and write calls made so far, with their outcomes.
    pub closed spec fn call_log(&self) -> CallLog {
        self.calls@
    }

    /// What recording `name` as open does: `name` becomes open; what was
    /// closed and what was written stay as they were.
    pub open spec fn records_open(self, after: Self, name: Seq<char>) -> bool {
        &&& forall|n: Seq<char>| #[trigger] after.is_open(n) == (self.is_open(n) || n == name)
        &&& after.closed() == self.closed()
        &&& forall|n: Seq<char>| #[trigger] after.frames_for(n) == self.frames_for(n)
    }

    /// What recording `name` as closed does: `name` is no longer open and
    /// is added to the closed names; what was written stays as it was.
    pub open spec fn records_close(self, after: Self, name: Seq<char>) -> bool {
        &&& forall|n: Seq<char>| #[trigger] after.is_open(n) == (self.is_open(n) && n != name)
        &&& after.closed() == self.closed().push(name)
        &&& forall|n: Seq<char>| #[trigger] after.frames_for(n) == self.frames_for(n)
    }

    /// A recorder with nothing recorded.
    pub fn new() -> (r: MockSerialTransport)
        ensures
            r.open_names() == Seq::<String>::empty(),
            forall|n: Seq<char>| !#[trigger] r.is_open(n),
            r.closed() == Seq::<Seq<char>>::empty(),
            forall|n: Seq<char>| #[trigger] r.frames_for(n) == Seq::<Seq<u8>>::empty(),
            r.call_log() == empty_call_log(),
    {
        let r = MockSerialTransport {
            open_connections: Vec::new(),
            closed_connections: Vec::new(),
            written: Vec::new(),
            calls: Ghost(empty_call_log()),
        };
        assert(r.open_names() =~= Seq::<String>::empty());
        assert(r.closed() =~= Seq::<Seq<char>>::empty());
        r
    }

    /// Records that the connection is open.
    pub fn record_open(&mut self, connection: &ConnectionInfo)
        ensures
            final(self).call_log() == old(self).call_log(),
            old(self).records_open(*final(self), connection.name@),
    {
        proof {
            use_type_invariant(&*self);
        }
        let mut open = Vec::new();
        std::mem::swap(&mut open, &mut self.open_connections);
        insert_sorted(&mut open, connection.name.clone(), ());
        self.open_connections = open;
    }

    /// Records that `name` was closed.
    pub fn record_close(&mut self, name: &str)
        ensures
            final(self).call_log() == old(self).call_log(),
            old(self).records_close(*final(self), name@),
    {
        proof {
            use_type_invariant(&*self);
        }
        let mut open = Vec::new();
        std::mem::swap(&mut open, &mut self.open_connections);
        let _ = remove_key(&mut open, name);
        self.open_connections = open;
        let mut closed = Vec::new();
        std::mem::swap(&mut closed, &mut self.closed_connections);
        closed.push(String::from_str(name));
        self.closed_connections = closed;
        assert(self.closed() =~= old(self).closed().push(name@));
    }

    /// Records a frame written to `name`.
    pub fn record_frame(&mut self, name: &str, frame: &[u8])
        ensures
            final(self).call_log() == old(self).call_log(),
            forall|n: Seq<char>| #[trigger] final(self).is_open(n) == old(self).is_open(n),
            final(self).closed() == old(self).closed(),
            final(self).frames_for(name@) == old(self).frames_for(name@).push(frame@),
            forall|n: Seq<char>| n != name@ ==> #[trigger] final(self).frames_for(n) == old(self).frames_for(n),
    {
        proof {
            use_type_invariant(&*self);
        }
        let mut written = Vec::new();
        std::mem::swap(&mut written, &mut self.written);
        let ghost before = written@;
        let mut frames = match remove_key(&mut written, name) {
            Some(f) => f,
            None => Vec::new(),
        };
        let ghost prior = frames@;
        let mut bytes: Vec<u8> = Vec::new();
        crate::protocol::append_bytes(&mut bytes, frame);
        frames.push(bytes);
        let ghost grown = frames@;
        insert_sorted(&mut written, String::from_str(name), frames);
        self.written = written;
        proof {
            assert(frames_view(grown) =~= frames_view(prior).push(frame@));
            if has_key(before, name@) {
                lemma_found_is_index_of_key(before, crate::keyed::index_of_key(before, name@));
            }
        }
    }

    /// The names currently open, in increasing order.
    pub fn opened_names(&self) -> (r: Vec<String>)
        ensures
            r@ == self.open_names(),
            forall|i: int, j: int| 0 <= i < j < r@.len() ==> crate::text::chars_lt(#[trigger] r@[i]@, #[trigger] r@[j]@),
            forall|n: Seq<char>| #[trigger] self.is_open(n) == exists|i: int| 0 <= i < r@.len() && r@[i]@ == n,
    {
        proof {
            use_type_invariant(self);
            let es = self.open_connections@;
            assert forall|n: Seq<char>| #[trigger] self.is_open(n) implies exists|i: int|
                0 <= i < self.open_names().len() && self.open_names()[i]@ == n by {
                let i = crate::keyed::index_of_key(es, n);
                assert(self.open_names()[i] == es[i].0);
            }
            assert forall|n: Seq<char>| (exists|i: int| 0 <= i < self.open_names().len() && self.open_names()[i]@ == n)
                implies #[trigger] self.is_open(n) by {
                let i = choose|i: int| 0 <= i < self.open_names().len() && self.open_names()[i]@ == n;
                assert(es[i].0@ == n);
            }
        }
        let mut r: Vec<String> = Vec::new();
        let mut i: usize = 0;
        while i < self.open_connections.len()
            invariant
                i <= self.open_connections@.len(),
                r@ == self.open_connections@.subrange(0, i as int).map_values(|e: (String, ())| e.0),
            decreases self.open_connections@.len() - i,
        {
            r.push(self.open_connections[i].0.clone());
            i = i + 1;
            assert(r@ =~= self.open_connections@.subrange(0, i as int).map_values(|e: (String, ())| e.0));
        }
        assert(self.open_connections@.subrange(0, self.open_connections@.len() as int) =~= self.open_connections@);
        r
    }

    /// The names closed so far, in order.
    pub fn closed_names(&self) -> (r: Vec<String>)
        ensures
            r@.map_values(|s: String| s@) == self.closed(),
    {
        copy_names(&self.closed_connections)
    }

    /// The frames written to `name`, in order; none if nothing was written.
    pub fn written_frames(&self, name: &str) -> (r: Vec<Vec<u8>>)
        ensures
            frames_view(r@) == self.frames_for(name@),
    {
        proof {
            use_type_invariant(self);
        }
        match crate::keyed::get_value(&self.written, name) {
            Some(frames) => copy_frames(frames),
            None => {
                let r: Vec<Vec<u8>> = Vec::new();
                assert(frames_view(r@) =~= Seq::<Seq<u8>>::empty());
                r
            },
        }
    }
}

impl Default for MockSerialTransport {
    /// A recorder with nothing recorded.
    fn default() -> (r: MockSerialTransport)
        ensures
            r.open_names() == Seq::<String>::empty(),
            forall|n: Seq<char>| !#[trigger] r.is_open(n),
            r.closed() == Seq::<Seq<char>>::empty(),
            forall|n: Seq<char>| #[trigger] r.frames_for(n) == Seq::<Seq<u8>>::empty(),
            r.call_log() == empty_call_log(),
    {
        MockSerialTransport::new()
    }
}

impl SerialTransport for MockSerialTransport {
    closed spec fn delivered(&self, name: Seq<char>) -> Seq<Seq<u8>> {
        self.frames_for(name)
    }

    closed spec fn holds_open(&self, name: Seq<char>) -> bool {
        self.is_open(name)
    }

    open spec fn never_fails(&self) -> bool {
        true
    }

    closed spec fn open_calls(&self) -> Seq<(ConnectionInfo, Option<SerialportApiError>)> {
        self.call_log().0
    }

    closed spec fn close_calls(&self) -> Seq<(Seq<char>, Option<SerialportApiError>)> {
        self.call_log().1
    }

    closed spec fn write_calls(&self) -> Seq<(Seq<char>, Seq<u8>, Option<SerialportApiError>)> {
        self.call_log().2
    }

    /// Records the connection as open; never fails.
    fn open(&mut self, connection: &ConnectionInfo) -> (r: Result<(), SerialportApiError>)
        ensures
            r is Ok,
            old(self).records_open(*final(self), connection.name@),
    {
        self.record_open(connection);
        proof {
            use_type_invariant(&*self);
        }
        let ghost before = *self;
        let ghost (opens, closes, writes) = self.calls@;
        self.calls = Ghost((opens.push((*connection, None)), closes, writes));
        assert forall|n: Seq<char>| #[trigger] self.is_open(n) == before.is_open(n) by {}
        assert forall|n: Seq<char>| #[trigger] self.frames_for(n) == before.frames_for(n) by {}
        assert(self.closed() == before.closed());
        Ok(())
    }

    /// Records the name as closed; never fails.
    fn close(&mut self, name: &str) -> (r: Result<(), SerialportApiError>)
        ensures
            r is Ok,
            old(self).records_close(*final(self), name@),
    {
        self.record_close(name);
        proof {
            use_type_invariant(&*self);
        }
        let ghost before = *self;
        let ghost (opens, closes, writes) = self.calls@;
        self.calls = Ghost((opens, closes.push((name@, None)), writes));
        assert forall|n: Seq<char>| #[trigger] self.is_open(n) == before.is_open(n) by {}
        assert forall|n: Seq<char>| #[trigger] self.frames_for(n) == before.frames_for(n) by {}
        assert(self.closed() == before.closed());
        Ok(())
    }

    /// Records the frame under the name; never fails.
    fn write_frame(&mut self, name: &str, frame: &[u8]) -> (r: Result<(), SerialportApiError>)
        ensures
            r is Ok,
            forall|n: Seq<char>| #[trigger] final(self).is_open(n) == old(self).is_open(n),
            final(self).closed() == old(self).closed(),
            final(self).frames_for(name@) == old(self).frames_for(name@).push(frame@),
            forall|n: Seq<char>| n != name@ ==> #[trigger] final(self).frames_for(n) == old(self).frames_for(n),
    {
        self.record_frame(name, frame);
        proof {
            use_type_invariant(&*self);
        }
        let ghost before = *self;
        let ghost (opens, closes, writes) = self.calls@;
        self.calls = Ghost((opens, closes, writes.push((name@, frame@, None))));
        assert forall|n: Seq<char>| #[trigger] self.is_open(n) == before.is_open(n) by {}
        assert forall|n: Seq<char>| #[trigger] self.frames_for(n) == before.frames_for(n) by {}
        assert(self.closed() == before.closed());
        Ok(())
    }
}

/// Opening a name and then closing it leaves it closed and adds it once to
/// the closed names; every other name is open exactly when it was before,
/// and nothing written changes.
pub proof fn law_open_then_close(t0: MockSerialTransport, t1: MockSerialTransport, t2: MockSerialTransport, name: Seq<char>)
    requires
        t0.records_open(t1, name),
        t1.records_close(t2, name),
    ensures
        !t2.is_open(name),
        forall|n: Seq<char>| n != name ==> #[trigger] t2.is_open(n) == t0.is_open(n),
        t2.closed() == t0.closed().push(name),
        forall|n: Seq<char>| #[trigger] t2.frames_for(n) == t0.frames_for(n),
{
    assert forall|n: Seq<char>| n != name implies #[trigger] t2.is_open(n) == t0.is_open(n) by {
        assert(t1.is_open(n) == t0.is_open(n));
    }
    assert forall|n: Seq<char>| #[trigger] t2.frames_for(n) == t0.frames_for(n) by {
        assert(t1.frames_for(n) == t0.frames_for(n));
    }
}

} // verus!
