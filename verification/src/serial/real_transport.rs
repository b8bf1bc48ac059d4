//! A transport over serial port handles: writes frames, and reads bytes
//! into per-connection buffers that are cut into delimited lines.

use vstd::prelude::*;
use crate::error::SerialportApiError;
use crate::keyed::{keys_sorted, has_key, value_of, index_of_key, insert_sorted, remove_key, lemma_found_is_index_of_key};
use crate::serial::manager::ConnectionInfo;
use crate::serial::transport::{empty_call_log, CallLog, SerialTransport};

verus! {

/// How long a read waits for a byte before reporting none, in milliseconds.
pub const DEFAULT_SERIAL_TIMEOUT_MS: u64 = 50;

/// What is needed to open a port for a connection.
#[derive(Debug, PartialEq, Eq)]
pub struct SerialOpenSettings {
    pub port: String,
    pub baud_rate: u32,
    pub timeout_ms: u64,
}

impl SerialOpenSettings {
    /// The connection's port and baud rate, with the default read timeout.
    pub fn from_connection(connection: &ConnectionInfo) -> (r: SerialOpenSettings)
        ensures
            r.port == connection.port,
            r.baud_rate == connection.baud_rate,
            r.timeout_ms == DEFAULT_SERIAL_TIMEOUT_MS,
    {
        SerialOpenSettings {
            port: connection.port.clone(),
            baud_rate: connection.baud_rate,
            timeout_ms: DEFAULT_SERIAL_TIMEOUT_MS,
        }
    }
}

/// An open serial port. Its state is seen through three histories: the
/// bytes handed to the port, the flushes that succeeded, and the outcome of
/// every read. An implementation promises the contracts below of these
/// histories; one that does not define them has them as an unknown function
/// of its state.
pub trait SerialPortHandle: Sized {
    /// The bytes handed to the port so far, oldest first.
    closed spec fn sent(&self) -> Seq<u8> {
        let f = vstd::pervasive::arbitrary::<spec_fn(Self) -> Seq<u8>>();
        f(*self)
    }

    /// How many flushes have succeeded so far.
    closed spec fn flushes(&self) -> nat {
        let f = vstd::pervasive::arbitrary::<spec_fn(Self) -> nat>();
        f(*self)
    }

    /// The outcome of every `read_byte` so far, oldest first.
    closed spec fn reads(&self) -> Seq<Result<Option<u8>, SerialportApiError>> {
        let f = vstd::pervasive::arbitrary::<spec_fn(Self) -> Seq<Result<Option<u8>, SerialportApiError>>>();
        f(*self)
    }

    /// Hands `bytes` to the port: when it succeeds, they follow what was
    /// sent before.
    fn write_all(&mut self, bytes: &[u8]) -> (r: Result<(), SerialportApiError>)
        ensures
            r is Ok ==> final(self).sent() == old(self).sent() + bytes@,
            final(self).reads() == old(self).reads(),
            final(self).flushes() == old(self).flushes(),
    ;

    /// Flushes what was sent; a flush that succeeds is counted.
    fn flush(&mut self) -> (r: Result<(), SerialportApiError>)
        ensures
            final(self).sent() == old(self).sent(),
            final(self).reads() == old(self).reads(),
            final(self).flushes() == if r is Ok {
                old(self).flushes() + 1
            } else {
                old(self).flushes()
            },
    ;

    /// The next byte read, or none when nothing arrives within the timeout;
    /// the outcome is added to the reads.
    fn read_byte(&mut self) -> (r: Result<Option<u8>, SerialportApiError>)
        ensures
            final(self).reads() == old(self).reads().push(r),
            final(self).sent() == old(self).sent(),
            final(self).flushes() == old(self).flushes(),
    ;
}

/// Opens serial ports for connections.
pub trait SerialPortFactory {
    type Handle: SerialPortHandle;

    fn open(&self, connection: &ConnectionInfo) -> Result<Self::Handle, SerialportApiError>;
}

/// The index of the first occurrence of `needle` in `hay` at or after
/// `from`, or `hay.len()` if there is none.
pub open spec fn find_from(hay: Seq<u8>, needle: Seq<u8>, from: int) -> int
    decreases hay.len() - from,
{
    if from < 0 || from >= hay.len() || from + needle.len() > hay.len() {
        hay.len() as int
    } else if hay.subrange(from, from + needle.len()) == needle {
        from
    } else {
        find_from(hay, needle, from + 1)
    }
}

/// Cuts `buf` after each occurrence of the delimiter `d` (taken from the
/// front): the complete lines, each ending with `d`, and the rest.
pub open spec fn split_lines(buf: Seq<u8>, d: Seq<u8>) -> (Seq<Seq<u8>>, Seq<u8>)
    decreases buf.len(),
{
    if d.len() == 0 {
        (Seq::empty(), buf)
    } else {
        let i = find_from(buf, d, 0);
        if 0 <= i && i + d.len() <= buf.len() {
            let line = buf.subrange(0, i + d.len());
            let (more, rest) = split_lines(buf.subrange(i + d.len(), buf.len() as int), d);
            (seq![line] + more, rest)
        } else {
            (Seq::empty(), buf)
        }
    }
}

proof fn lemma_find_from(hay: Seq<u8>, needle: Seq<u8>, from: int)
    requires
        0 <= from <= hay.len(),
    ensures
        from <= find_from(hay, needle, from) <= hay.len(),
        find_from(hay, needle, from) + needle.len() <= hay.len() ==> hay.subrange(
            find_from(hay, needle, from),
            find_from(hay, needle, from) + needle.len(),
        ) == needle,
        find_from(hay, needle, from) + needle.len() > hay.len() ==> find_from(hay, needle, from) == hay.len(),
    decreases hay.len() - from,
{
    if from < hay.len() && from + needle.len() <= hay.len() && hay.subrange(from, from + needle.len()) != needle {
        lemma_find_from(hay, needle, from + 1);
    }
}

/// Searching a suffix finds the occurrence the search of the whole found,
/// shifted.
proof fn lemma_find_from_skip(hay: Seq<u8>, needle: Seq<u8>, start: int, from: int)
    requires
        0 <= start <= from <= hay.len(),
    ensures
        find_from(hay.subrange(start, hay.len() as int), needle, from - start) + start == find_from(hay, needle, from),
    decreases hay.len() - from,
{
    let s = hay.subrange(start, hay.len() as int);
    if from < hay.len() && from + needle.len() <= hay.len() {
        assert(s.subrange(from - start, from - start + needle.len()) =~= hay.subrange(from, from + needle.len()));
        if hay.subrange(from, from + needle.len()) != needle {
            lemma_find_from_skip(hay, needle, start, from + 1);
        }
    }
}

/// The lines joined back together.
pub open spec fn concat_lines(lines: Seq<Seq<u8>>) -> Seq<u8>
    decreases lines.len(),
{
    if lines.len() == 0 {
        Seq::empty()
    } else {
        lines[0] + concat_lines(lines.drop_first())
    }
}

/// Cutting a buffer into lines loses and adds no byte: the lines and the
/// rest, joined, are the buffer; every line ends with the delimiter; the
/// rest holds no delimiter.
pub proof fn law_split_lines_keeps_bytes(buf: Seq<u8>, d: Seq<u8>)
    requires
        d.len() > 0,
    ensures
        concat_lines(split_lines(buf, d).0) + split_lines(buf, d).1 == buf,
        forall|i: int| 0 <= i < split_lines(buf, d).0.len() ==> #[trigger] split_lines(buf, d).0[i].len() >= d.len()
            && split_lines(buf, d).0[i].subrange(split_lines(buf, d).0[i].len() - d.len(), split_lines(buf, d).0[i].len() as int) == d,
        find_from(split_lines(buf, d).1, d, 0) + d.len() > split_lines(buf, d).1.len(),
    decreases buf.len(),
{
    lemma_find_from(buf, d, 0);
    let i = find_from(buf, d, 0);
    if i + d.len() <= buf.len() {
        let line = buf.subrange(0, i + d.len());
        let tail = buf.subrange(i + d.len(), buf.len() as int);
        law_split_lines_keeps_bytes(tail, d);
        let (more, rest) = split_lines(tail, d);
        let lines = seq![line] + more;
        assert(split_lines(buf, d) == (lines, rest));
        assert(lines.drop_first() =~= more);
        assert(concat_lines(lines) == line + concat_lines(more));
        assert(line + (concat_lines(more) + rest) =~= buf);
        assert(concat_lines(lines) + rest =~= line + (concat_lines(more) + rest));
        assert forall|k: int| 0 <= k < lines.len() implies #[trigger] lines[k].len() >= d.len()
            && lines[k].subrange(lines[k].len() - d.len(), lines[k].len() as int) == d by {
            if k == 0 {
                assert(line.subrange(line.len() - d.len(), line.len() as int) =~= buf.subrange(i, i + d.len()));
            } else {
                assert(lines[k] == more[k - 1]);
            }
        }
    } else {
        assert(concat_lines(Seq::<Seq<u8>>::empty()) + buf =~= buf);
    }
}

/// A drain keeps every byte the port gave: the lines given back, followed by
/// what stays buffered, are the bytes buffered before followed by exactly the
/// bytes that the handle's reads during the drain returned, in order; and the
/// reads stopped at the first one that gave no byte (or at the most reads a
/// buffer can count).
pub proof fn law_drain_keeps_every_byte_read<F: SerialPortFactory>(
    before: RealSerialTransport<F>,
    after: RealSerialTransport<F>,
    name: Seq<char>,
    delimiter: Seq<char>,
    lines: Vec<Vec<u8>>,
)
    requires
        crate::protocol::utf8_of(delimiter).len() > 0,
        before.has_handle(name),
        before.drains(after, name, delimiter, Ok(lines)),
    ensures
        ({
            let new_reads = after.handle_of(name)->0.reads().skip(before.handle_of(name)->0.reads().len() as int);
            &&& concat_lines(lines@.map_values(|l: Vec<u8>| l@)) + after.buffered(name) == before.buffered(name) + bytes_read(new_reads)
            &&& read_run(new_reads)
            &&& new_reads.last() is Ok
        }),
{
    let rs = choose|rs: Seq<Result<Option<u8>, SerialportApiError>>| {
        &&& #[trigger] reads_of(name, rs) == after.port_log().skip(before.port_log().len() as int)
        &&& after.port_log() == before.port_log() + reads_of(name, rs)
        &&& read_run(rs)
        &&& after.handle_of(name) is Some
        &&& after.handle_of(name)->0.reads() == before.handle_of(name)->0.reads() + rs
        &&& after.handle_of(name)->0.sent() == before.handle_of(name)->0.sent()
        &&& after.handle_of(name)->0.flushes() == before.handle_of(name)->0.flushes()
        &&& match Ok::<Vec<Vec<u8>>, SerialportApiError>(lines) {
            Ok(lines) => rs.last() is Ok && (lines@.map_values(|l: Vec<u8>| l@), after.buffered(name)) == split_lines(
                before.buffered(name) + bytes_read(rs),
                crate::protocol::utf8_of(delimiter),
            ),
            Err(e) => rs.last() == Err::<Option<u8>, SerialportApiError>(e) && after.buffered(name) == before.buffered(name),
        }
    };
    let h0 = before.handle_of(name)->0;
    assert(after.handle_of(name)->0.reads().skip(h0.reads().len() as int) =~= rs);
    law_split_lines_keeps_bytes(before.buffered(name) + bytes_read(rs), crate::protocol::utf8_of(delimiter));
}

/// Across two drains of one connection no byte is lost, added or
/// reordered: the lines of the first drain, then those of the second, then
/// what stays buffered, are the bytes buffered before followed by the bytes
/// of both reads in order. A line begun in the first read and ended in the
/// second is given by the second drain.
pub proof fn law_two_drains_keep_bytes(buf: Seq<u8>, first: Seq<u8>, second: Seq<u8>, d: Seq<u8>)
    requires
        d.len() > 0,
    ensures
        ({
            let (lines1, rest1) = split_lines(buf + first, d);
            let (lines2, rest2) = split_lines(rest1 + second, d);
            concat_lines(lines1) + concat_lines(lines2) + rest2 == buf + first + second
        }),
{
    let (lines1, rest1) = split_lines(buf + first, d);
    law_split_lines_keeps_bytes(buf + first, d);
    law_split_lines_keeps_bytes(rest1 + second, d);
    let (lines2, rest2) = split_lines(rest1 + second, d);
    assert(concat_lines(lines1) + concat_lines(lines2) + rest2 =~= concat_lines(lines1) + (concat_lines(lines2) + rest2));
    assert(concat_lines(lines1) + (rest1 + second) =~= (concat_lines(lines1) + rest1) + second);
}

/// Searching a prefix that ends just after the first occurrence finds that
/// same occurrence.
proof fn lemma_find_from_prefix(hay: Seq<u8>, needle: Seq<u8>, from: int, i: int)
    requires
        0 <= from <= i,
        needle.len() > 0,
        i + needle.len() <= hay.len(),
        find_from(hay, needle, from) == i,
    ensures
        find_from(hay.subrange(0, i + needle.len()), needle, from) == i,
    decreases i - from,
{
    let p = hay.subrange(0, i + needle.len());
    lemma_find_from(hay, needle, from);
    assert(p.subrange(from, from + needle.len()) =~= hay.subrange(from, from + needle.len()));
    if from < i {
        assert(hay.subrange(from, from + needle.len()) != needle);
        lemma_find_from_prefix(hay, needle, from + 1, i);
    }
}

/// A cut line holds the delimiter only at its end: the first occurrence of
/// the delimiter in each line is its last bytes.
pub proof fn law_lines_hold_delimiter_only_at_end(buf: Seq<u8>, d: Seq<u8>)
    requires
        d.len() > 0,
    ensures
        forall|i: int| 0 <= i < split_lines(buf, d).0.len() ==> find_from(#[trigger] split_lines(buf, d).0[i], d, 0)
            == split_lines(buf, d).0[i].len() - d.len(),
    decreases buf.len(),
{
    lemma_find_from(buf, d, 0);
    let i = find_from(buf, d, 0);
    if i + d.len() <= buf.len() {
        let line = buf.subrange(0, i + d.len());
        let tail = buf.subrange(i + d.len(), buf.len() as int);
        law_lines_hold_delimiter_only_at_end(tail, d);
        let (more, rest) = split_lines(tail, d);
        let lines = seq![line] + more;
        assert(split_lines(buf, d) == (lines, rest));
        lemma_find_from_prefix(buf, d, 0, i);
        assert forall|k: int| 0 <= k < lines.len() implies find_from(#[trigger] lines[k], d, 0) == lines[k].len() - d.len() by {
            if k > 0 {
                assert(lines[k] == more[k - 1]);
            }
        }
    }
}

/// Where `needle` first occurs in `hay`, searching from `from`.
fn find_subslice_from(hay: &[u8], needle: &[u8], from: usize) -> (r: Option<usize>)
    requires
        from <= hay@.len(),
    ensures
        match r {
            Some(i) => i == find_from(hay@, needle@, from as int) && i + needle@.len() <= hay@.len(),
            None => find_from(hay@, needle@, from as int) + needle@.len() > hay@.len(),
        },
{
    let n = needle.len();
    let h = hay.len();
    if n > h {
        proof {
            lemma_find_from(hay@, needle@, from as int);
        }
        return None;
    }
    let mut i = from;
    while i <= h - n
        invariant
            n == needle@.len(),
            h == hay@.len(),
            n <= h,
            from <= i <= h,
            find_from(hay@, needle@, from as int) == find_from(hay@, needle@, i as int),
        decreases h - i,
    {
        let mut j: usize = 0;
        let mut same = true;
        while j < n
            invariant
                n == needle@.len(),
                h == hay@.len(),
                i + n <= h,
                j <= n,
                same == (forall|k: int| 0 <= k < j ==> hay@[i + k] == needle@[k]),
            decreases n - j,
        {
            if hay[i + j] != needle[j] {
                same = false;
            }
            j = j + 1;
        }
        if same {
            assert(hay@.subrange(i as int, i + n) =~= needle@);
            return Some(i);
        }
        assert(hay@.subrange(i as int, i + n) != needle@) by {
            let k = choose|k: int| 0 <= k < n && hay@[i + k] != needle@[k];
            assert(hay@.subrange(i as int, i + n)[k] == hay@[i + k]);
        }
        i = i + 1;
    }
    proof {
        lemma_find_from(hay@, needle@, i as int);
    }
    None
}

/// Where `needle` first occurs in `haystack`: the index of its first byte,
/// or none when it does not occur. The needle must not be empty.
pub fn find_subslice(haystack: &[u8], needle: &[u8]) -> (r: Option<usize>)
    requires
        needle@.len() > 0,
    ensures
        match r {
            Some(i) => i == find_from(haystack@, needle@, 0) && i + needle@.len() <= haystack@.len()
                && haystack@.subrange(i as int, i + needle@.len()) == needle@,
            None => find_from(haystack@, needle@, 0) == haystack@.len(),
        },
{
    proof {
        lemma_find_from(haystack@, needle@, 0);
    }
    find_subslice_from(haystack, needle, 0)
}

/// The bytes of `v` from `start` to `end`.
fn copy_range(v: &Vec<u8>, start: usize, end: usize) -> (r: Vec<u8>)
    requires
        start <= end <= v@.len(),
    ensures
        r@ == v@.subrange(start as int, end as int),
{
    let mut r: Vec<u8> = Vec::new();
    let mut i = start;
    while i < end
        invariant
            start <= i <= end,
            end <= v@.len(),
            r@ == v@.subrange(start as int, i as int),
        decreases end - i,
    {
        r.push(v[i]);
        i = i + 1;
        assert(r@ =~= v@.subrange(start as int, i as int));
    }
    r
}

/// Cuts the complete lines off the front of `buf` (see `split_lines`),
/// leaving the rest in it.
fn find_lines(buf: &Vec<u8>, delimiter: &[u8]) -> (r: (Vec<Vec<u8>>, usize))
    requires
        delimiter@.len() > 0,
    ensures
        r.1 <= buf@.len(),
        (r.0@.map_values(|l: Vec<u8>| l@), buf@.subrange(r.1 as int, buf@.len() as int)) == split_lines(buf@, delimiter@),
{
    let ghost full = buf@;
    let d = delimiter.len();
    let blen = buf.len();
    let mut lines: Vec<Vec<u8>> = Vec::new();
    let mut start: usize = 0;
    assert(full.subrange(0, full.len() as int) =~= full);
    assert(lines@.map_values(|l: Vec<u8>| l@) =~= Seq::<Seq<u8>>::empty());
    assert(split_lines(full, delimiter@) == ({
        let (more, rest) = split_lines(full.subrange(0, full.len() as int), delimiter@);
        (lines@.map_values(|l: Vec<u8>| l@) + more, rest)
    })) by {
        let (more, rest) = split_lines(full, delimiter@);
        assert(Seq::<Seq<u8>>::empty() + more =~= more);
    }
    loop
        invariant
            buf@ == full,
            blen == full.len(),
            d == delimiter@.len(),
            d > 0,
            start <= full.len(),
            split_lines(full, delimiter@) == ({
                let (more, rest) = split_lines(full.subrange(start as int, full.len() as int), delimiter@);
                (lines@.map_values(|l: Vec<u8>| l@) + more, rest)
            }),
        decreases full.len() - start,
    {
        let ghost tail = full.subrange(start as int, full.len() as int);
        match find_subslice_from(buf.as_slice(), delimiter, start) {
            Some(end) => {
                proof {
                    lemma_find_from_skip(full, delimiter@, start as int, start as int);
                    lemma_find_from(full, delimiter@, start as int);
                }
                let line_end = end + d;
                let line = copy_range(buf, start, line_end);
                proof {
                    let i = end - start;
                    assert(find_from(tail, delimiter@, 0) == i);
                    assert(line@ =~= tail.subrange(0, i + d));
                    assert(tail.subrange(i + d, tail.len() as int) =~= full.subrange(line_end as int, full.len() as int));
                    let (more, rest) = split_lines(full.subrange(line_end as int, full.len() as int), delimiter@);
                    assert(split_lines(tail, delimiter@) == (seq![line@] + more, rest));
                    assert(lines@.push(line).map_values(|l: Vec<u8>| l@) =~= lines@.map_values(|l: Vec<u8>| l@).push(line@));
                    assert(lines@.map_values(|l: Vec<u8>| l@) + (seq![line@] + more) =~= lines@.map_values(|l: Vec<u8>| l@).push(line@) + more);
                }
                lines.push(line);
                start = line_end;
            },
            None => {
                proof {
                    lemma_find_from_skip(full, delimiter@, start as int, start as int);
                    assert(split_lines(tail, delimiter@) == (Seq::<Seq<u8>>::empty(), tail));
                    assert(lines@.map_values(|l: Vec<u8>| l@) + Seq::<Seq<u8>>::empty() =~= lines@.map_values(|l: Vec<u8>| l@));
                }
                assert(split_lines(full, delimiter@) == (lines@.map_values(|l: Vec<u8>| l@), tail));
                return (lines, start);
            },
        }
    }
}

/// Cuts the complete lines off the front of `buf` (see `split_lines`),
/// leaving the rest in it.
pub fn split_complete_lines(buf: &mut Vec<u8>, delimiter: &[u8]) -> (lines: Vec<Vec<u8>>)
    requires
        delimiter@.len() > 0,
    ensures
        (lines@.map_values(|l: Vec<u8>| l@), final(buf)@) == split_lines(old(buf)@, delimiter@),
{
    let (lines, start) = find_lines(buf, delimiter);
    let rest = copy_range(buf, start, buf.len());
    *buf = rest;
    lines
}

/// A call made on a port handle: a write of some bytes, a flush, or a read
/// of one byte, each with its outcome.
pub enum PortCall {
    Write(Seq<char>, Seq<u8>, Option<SerialportApiError>),
    Flush(Seq<char>, Option<SerialportApiError>),
    Read(Seq<char>, Result<Option<u8>, SerialportApiError>),
}

/// The read calls made on the handle of `name`, with their results.
pub open spec fn reads_of(name: Seq<char>, rs: Seq<Result<Option<u8>, SerialportApiError>>) -> Seq<PortCall> {
    rs.map_values(|x: Result<Option<u8>, SerialportApiError>| PortCall::Read(name, x))
}

/// The bytes that a run of reads gave, in order.
pub open spec fn bytes_read(rs: Seq<Result<Option<u8>, SerialportApiError>>) -> Seq<u8>
    decreases rs.len(),
{
    if rs.len() == 0 {
        Seq::empty()
    } else {
        bytes_read(rs.drop_last()) + match rs.last() {
            Ok(Some(b)) => seq![b],
            _ => Seq::empty(),
        }
    }
}

/// A run of reads that goes on until the first read that gives no byte or
/// fails: every read but the last gave a byte, and the last gave none or
/// failed, unless the run reached the most reads a buffer can count.
pub open spec fn read_run(rs: Seq<Result<Option<u8>, SerialportApiError>>) -> bool {
    &&& rs.len() > 0
    &&& forall|i: int| 0 <= i < rs.len() - 1 ==> (#[trigger] rs[i] matches Ok(Some(_)))
    &&& (rs.last() matches Ok(Some(_))) ==> rs.len() == usize::MAX
}

/// A transport over port handles from a factory: one handle per open
/// connection name, and per name the bytes read but not yet cut into lines.
/// The frames written through it are kept in a ghost log.
pub struct RealSerialTransport<F: SerialPortFactory> {
    factory: F,
    handles: Vec<(String, F::Handle)>,
    read_buffers: Vec<(String, Vec<u8>)>,
    written: Ghost<Map<Seq<char>, Seq<Seq<u8>>>>,
    calls: Ghost<CallLog>,
    port: Ghost<Seq<PortCall>>,
}

impl<F: SerialPortFactory> RealSerialTransport<F> {
    #[verifier::type_invariant]
    spec fn wf(&self) -> bool {
        &&& keys_sorted(self.handles@)
        &&& keys_sorted(self.read_buffers@)
    }

    /// Whether a handle is open under `name`.
    pub closed spec fn has_handle(&self, name: Seq<char>) -> bool {
        has_key(self.handles@, name)
    }

    /// The bytes read on `name` that do not yet end a line.
    pub closed spec fn buffered(&self, name: Seq<char>) -> Seq<u8> {
        match value_of(self.read_buffers@, name) {
            Some(b) => b@,
            None => Seq::empty(),
        }
    }

    /// The factory that opens ports.
    pub closed spec fn factory(&self) -> F {
        self.factory
    }

    /// Per connection name, the frames written to it so far.
    pub closed spec fn written_log(&self) -> Map<Seq<char>, Seq<Seq<u8>>> {
        self.written@
    }

    /// The open, close and write calls made so far, with their outcomes.
    pub closed spec fn call_log(&self) -> CallLog {
        self.calls@
    }

    /// The calls made on the port handles so far, in order.
    pub closed spec fn port_log(&self) -> Seq<PortCall> {
        self.port@
    }

    /// The handle open under `name`, if any.
    pub closed spec fn handle_of(&self, name: Seq<char>) -> Option<F::Handle> {
        value_of(self.handles@, name)
    }

    /// A transport with nothing open.
    pub fn new(factory: F) -> (r: Self)
        ensures
            r.factory() == factory,
            forall|n: Seq<char>| !#[trigger] r.has_handle(n),
            forall|n: Seq<char>| #[trigger] r.buffered(n) == Seq::<u8>::empty(),
            r.written_log() == Map::<Seq<char>, Seq<Seq<u8>>>::empty(),
            r.call_log() == empty_call_log(),
            r.port_log() == Seq::<PortCall>::empty(),
    {
        RealSerialTransport {
            factory,
            handles: Vec::new(),
            read_buffers: Vec::new(),
            written: Ghost(Map::empty()),
            calls: Ghost(empty_call_log()),
            port: Ghost(Seq::empty()),
        }
    }

    /// Whether a handle is open under `name`.
    pub fn is_open(&self, name: &str) -> (r: bool)
        ensures
            r == self.has_handle(name@),
    {
        crate::keyed::find_key(&self.handles, name).is_some()
    }

    /// Takes the handle open under `name` out of the table.
    fn take_handle(&mut self, name: &str) -> (r: Option<F::Handle>)
        ensures
            r is Some == old(self).has_handle(name@),
            r == old(self).handle_of(name@),
            forall|n: Seq<char>| n != name@ ==> #[trigger] final(self).handle_of(n) == old(self).handle_of(n),
            !final(self).has_handle(name@),
            forall|n: Seq<char>| n != name@ ==> #[trigger] final(self).has_handle(n) == old(self).has_handle(n),
            forall|n: Seq<char>| #[trigger] final(self).buffered(n) == old(self).buffered(n),
            final(self).factory() == old(self).factory(),
            final(self).written_log() == old(self).written_log(),
            final(self).port_log() == old(self).port_log(),
            final(self).call_log() == old(self).call_log(),
    {
        proof {
            use_type_invariant(&*self);
        }
        let mut handles = Vec::new();
        std::mem::swap(&mut handles, &mut self.handles);
        let r = remove_key(&mut handles, name);
        self.handles = handles;
        r
    }

    /// Puts a handle under `name`, replacing any handle there.
    fn put_handle(&mut self, name: String, handle: F::Handle)
        ensures
            final(self).has_handle(name@),
            final(self).handle_of(name@) == Some(handle),
            forall|n: Seq<char>| n != name@ ==> #[trigger] final(self).handle_of(n) == old(self).handle_of(n),
            forall|n: Seq<char>| n != name@ ==> #[trigger] final(self).has_handle(n) == old(self).has_handle(n),
            forall|n: Seq<char>| #[trigger] final(self).buffered(n) == old(self).buffered(n),
            final(self).factory() == old(self).factory(),
            final(self).written_log() == old(self).written_log(),
            final(self).port_log() == old(self).port_log(),
            final(self).call_log() == old(self).call_log(),
    {
        proof {
            use_type_invariant(&*self);
        }
        let mut handles = Vec::new();
        std::mem::swap(&mut handles, &mut self.handles);
        insert_sorted(&mut handles, name, handle);
        self.handles = handles;
    }

    /// Replaces the bytes buffered for `name`.
    fn set_buffer(&mut self, name: &str, bytes: Vec<u8>)
        ensures
            forall|n: Seq<char>| #[trigger] final(self).handle_of(n) == old(self).handle_of(n),
            final(self).buffered(name@) == bytes@,
            forall|n: Seq<char>| n != name@ ==> #[trigger] final(self).buffered(n) == old(self).buffered(n),
            forall|n: Seq<char>| #[trigger] final(self).has_handle(n) == old(self).has_handle(n),
            final(self).factory() == old(self).factory(),
            final(self).written_log() == old(self).written_log(),
            final(self).port_log() == old(self).port_log(),
            final(self).call_log() == old(self).call_log(),
    {
        proof {
            use_type_invariant(&*self);
        }
        let mut buffers = Vec::new();
        std::mem::swap(&mut buffers, &mut self.read_buffers);
        insert_sorted(&mut buffers, String::from_str(name), bytes);
        self.read_buffers = buffers;
    }

    /// Forgets the bytes buffered for `name`.
    fn clear_buffer(&mut self, name: &str)
        ensures
            forall|n: Seq<char>| #[trigger] final(self).handle_of(n) == old(self).handle_of(n),
            final(self).buffered(name@) == Seq::<u8>::empty(),
            forall|n: Seq<char>| n != name@ ==> #[trigger] final(self).buffered(n) == old(self).buffered(n),
            forall|n: Seq<char>| #[trigger] final(self).has_handle(n) == old(self).has_handle(n),
            final(self).factory() == old(self).factory(),
            final(self).written_log() == old(self).written_log(),
            final(self).port_log() == old(self).port_log(),
            final(self).call_log() == old(self).call_log(),
    {
        proof {
            use_type_invariant(&*self);
        }
        let mut buffers = Vec::new();
        std::mem::swap(&mut buffers, &mut self.read_buffers);
        let _ = remove_key(&mut buffers, name);
        self.read_buffers = buffers;
    }

    /// A copy of the bytes buffered for `name`.
    fn buffer_copy(&self, name: &str) -> (r: Vec<u8>)
        ensures
            r@ == self.buffered(name@),
    {
        proof {
            use_type_invariant(self);
        }
        match crate::keyed::get_value(&self.read_buffers, name) {
            Some(b) => crate::serial::transport::copy_bytes(b),
            None => Vec::new(),
        }
    }

    /// What draining the lines of `name` does (see `drain_lines`): an empty
    /// delimiter reads nothing and gives no line; a name with no handle is
    /// `ConnectionNotFound` with nothing read; otherwise the handle of `name`
    /// is read until a read gives no byte or fails (the run `rs`, logged in
    /// order), and the bytes read are added to the buffer of `name`, whose
    /// complete lines are cut off and given back; a failed read is the error,
    /// with the buffer as it was. No other handle or buffer changes.
    pub open spec fn drains(self, after: Self, name: Seq<char>, delimiter: Seq<char>, r: Result<Vec<Vec<u8>>, SerialportApiError>) -> bool {
        &&& forall|n: Seq<char>| #[trigger] after.has_handle(n) == self.has_handle(n)
        &&& forall|n: Seq<char>| n != name ==> #[trigger] after.buffered(n) == self.buffered(n)
        &&& forall|n: Seq<char>| n != name ==> #[trigger] after.handle_of(n) == self.handle_of(n)
        &&& after.factory() == self.factory()
        &&& after.written_log() == self.written_log()
        &&& after.call_log() == self.call_log()
        &&& crate::protocol::utf8_of(delimiter).len() == 0 ==> {
            &&& r matches Ok(lines) && lines@.len() == 0
            &&& after.buffered(name) == self.buffered(name)
            &&& after.port_log() == self.port_log()
            &&& forall|n: Seq<char>| #[trigger] after.handle_of(n) == self.handle_of(n)
        }
        &&& crate::protocol::utf8_of(delimiter).len() > 0 && !self.has_handle(name) ==> {
            &&& r matches Err(SerialportApiError::ConnectionNotFound(n)) && n@ == name
            &&& after.buffered(name) == self.buffered(name)
            &&& after.port_log() == self.port_log()
            &&& forall|n: Seq<char>| #[trigger] after.handle_of(n) == self.handle_of(n)
        }
        &&& crate::protocol::utf8_of(delimiter).len() > 0 && self.has_handle(name) ==> exists|
            rs: Seq<Result<Option<u8>, SerialportApiError>>,
        | {
            &&& #[trigger] reads_of(name, rs) == after.port_log().skip(self.port_log().len() as int)
            &&& after.port_log() == self.port_log() + reads_of(name, rs)
            &&& read_run(rs)
            &&& after.handle_of(name) is Some
            &&& after.handle_of(name)->0.reads() == self.handle_of(name)->0.reads() + rs
            &&& after.handle_of(name)->0.sent() == self.handle_of(name)->0.sent()
            &&& after.handle_of(name)->0.flushes() == self.handle_of(name)->0.flushes()
            &&& match r {
                Ok(lines) => rs.last() is Ok && (lines@.map_values(|l: Vec<u8>| l@), after.buffered(name)) == split_lines(
                    self.buffered(name) + bytes_read(rs),
                    crate::protocol::utf8_of(delimiter),
                ),
                Err(e) => rs.last() == Err::<Option<u8>, SerialportApiError>(e) && after.buffered(name) == self.buffered(name),
            }
        }
    }

    /// Reads what the handle for `connection_name` has to give, adds it to
    /// that connection's buffer, and cuts the complete lines off the front
    /// of the buffer (see `split_lines`). An empty delimiter reads nothing
    /// and gives no line; a connection with no handle is an error.
    pub fn drain_lines(&mut self, connection_name: &str, delimiter: &str) -> (r: Result<Vec<Vec<u8>>, SerialportApiError>)
        ensures
            old(self).drains(*final(self), connection_name@, delimiter@, r),
    {
        let d = delimiter.as_bytes();
        if d.len() == 0 {
            return Ok(Vec::new());
        }
        let mut handle = match self.take_handle(connection_name) {
            Some(h) => h,
            None => return Err(SerialportApiError::ConnectionNotFound(String::from_str(connection_name))),
        };
        let mut newly_read: Vec<u8> = Vec::new();
        // a read cannot hand out more bytes than memory holds
        let mut budget: usize = usize::MAX;
        let mut failure: Option<SerialportApiError> = None;
        let ghost taken = *self;
        let ghost first = handle;
        let ghost mut rs: Seq<Result<Option<u8>, SerialportApiError>> = Seq::empty();
        while budget > 0
            invariant_except_break
                failure is None,
                forall|i: int| 0 <= i < rs.len() ==> #[trigger] rs[i] matches Ok(Some(_)),
                budget + rs.len() == usize::MAX,
            invariant
                *self == taken,
                newly_read@ == bytes_read(rs),
                handle.reads() == first.reads() + rs,
                handle.sent() == first.sent(),
                handle.flushes() == first.flushes(),
            ensures
                *self == taken,
                newly_read@ == bytes_read(rs),
                handle.reads() == first.reads() + rs,
                handle.sent() == first.sent(),
                handle.flushes() == first.flushes(),
                read_run(rs),
                failure matches Some(e) ==> rs.len() > 0 && rs.last() == Err::<Option<u8>, SerialportApiError>(e),
                failure is None ==> rs.last() is Ok,
            decreases budget,
        {
            let got = handle.read_byte();
            let ghost before_rs = rs;
            proof {
                rs = rs.push(got);
                assert(rs.drop_last() =~= before_rs);
                assert(first.reads() + rs =~= (first.reads() + before_rs).push(got));
            }
            match got {
                Ok(Some(byte)) => newly_read.push(byte),
                Ok(None) => break,
                Err(e) => {
                    failure = Some(e);
                    break;
                },
            }
            budget = budget - 1;
        }
        self.put_handle(String::from_str(connection_name), handle);
        proof {
            use_type_invariant(&*self);
        }
        let ghost ahead = *self;
        self.port = Ghost(self.port@ + reads_of(connection_name@, rs));
        assert forall|n: Seq<char>| #[trigger] self.handle_of(n) == ahead.handle_of(n) by {}
        assert forall|n: Seq<char>| #[trigger] self.has_handle(n) == ahead.has_handle(n) by {}
        assert forall|n: Seq<char>| #[trigger] self.buffered(n) == ahead.buffered(n) by {}
        assert(self.port_log().skip(old(self).port_log().len() as int) =~= reads_of(connection_name@, rs));
        if let Some(e) = failure {
            return Err(e);
        }
        let mut buffer = self.buffer_copy(connection_name);
        let ghost before = buffer@;
        crate::protocol::append_bytes(&mut buffer, newly_read.as_slice());
        let lines = split_complete_lines(&mut buffer, d);
        self.set_buffer(connection_name, buffer);
        assert((lines@.map_values(|l: Vec<u8>| l@), self.buffered(connection_name@)) == split_lines(
            before + newly_read@,
            crate::protocol::utf8_of(delimiter@),
        ));
        Ok(lines)
    }
}

impl<F: SerialPortFactory> SerialTransport for RealSerialTransport<F> {
    closed spec fn delivered(&self, name: Seq<char>) -> Seq<Seq<u8>> {
        if self.written@.dom().contains(name) {
            self.written@[name]
        } else {
            Seq::empty()
        }
    }

    closed spec fn holds_open(&self, name: Seq<char>) -> bool {
        self.has_handle(name)
    }

    open spec fn never_fails(&self) -> bool {
        false
    }

    closed spec fn open_calls(&self) -> Seq<(ConnectionInfo, Option<SerialportApiError>)> {
        self.call_log().0
    }

    closed spec fn close_calls(&self) -> Seq<(Seq<char>, Option<SerialportApiError>)> {
        self.call_log().1
    }

    closed spec fn write_calls(&self) -> Seq<(Seq<char>, Seq<u8>, Option<SerialportApiError>)> {
        self.call_log().2
    }

    /// Opens a port through the factory and keeps its handle under the
    /// connection's name (replacing any handle there), with no bytes
    /// buffered; on failure nothing changes. The outcome is the factory's:
    /// its error, or success when it gave a handle.
    fn open(&mut self, connection: &ConnectionInfo) -> (r: Result<(), SerialportApiError>)
        ensures
            final(self).factory() == old(self).factory(),
            final(self).written_log() == old(self).written_log(),
            final(self).port_log() == old(self).port_log(),
            r matches Err(e) ==> call_ensures(F::open, (&old(self).factory(), connection), Err::<F::Handle, SerialportApiError>(e)),
            r is Ok ==> exists|h: F::Handle| #[trigger] call_ensures(F::open, (&old(self).factory(), connection), Ok::<F::Handle, SerialportApiError>(h))
                && final(self).handle_of(connection.name@) == Some(h),
            r is Ok ==> final(self).has_handle(connection.name@) && final(self).buffered(connection.name@) == Seq::<u8>::empty()
                && forall|n: Seq<char>| n != connection.name@ ==> #[trigger] final(self).has_handle(n) == old(self).has_handle(n),
            r is Err ==> forall|n: Seq<char>| #[trigger] final(self).has_handle(n) == old(self).has_handle(n),
            r is Err ==> forall|n: Seq<char>| #[trigger] final(self).handle_of(n) == old(self).handle_of(n),
            forall|n: Seq<char>| n != connection.name@ ==> #[trigger] final(self).handle_of(n) == old(self).handle_of(n),
            forall|n: Seq<char>| n != connection.name@ ==> #[trigger] final(self).buffered(n) == old(self).buffered(n),
            r is Err ==> final(self).buffered(connection.name@) == old(self).buffered(connection.name@),
    {
        let opened = self.factory.open(connection);
        let r = match opened {
            Ok(handle) => {
                self.put_handle(connection.name.clone(), handle);
                self.clear_buffer(connection.name.as_str());
                Ok(())
            },
            Err(e) => Err(e),
        };
        proof {
            use_type_invariant(&*self);
        }
        let ghost before = *self;
        let ghost (opens, closes, writes) = self.calls@;
        self.calls = Ghost((opens.push((*connection, crate::serial::transport::failure(r))), closes, writes));
        assert forall|n: Seq<char>| #[trigger] self.handle_of(n) == before.handle_of(n) by {}
        assert forall|n: Seq<char>| #[trigger] self.has_handle(n) == before.has_handle(n) by {}
        assert forall|n: Seq<char>| #[trigger] self.buffered(n) == before.buffered(n) by {}
        r
    }

    /// Drops the handle and the buffered bytes of `name`; never fails.
    fn close(&mut self, name: &str) -> (r: Result<(), SerialportApiError>)
        ensures
            r is Ok,
            final(self).factory() == old(self).factory(),
            final(self).written_log() == old(self).written_log(),
            final(self).port_log() == old(self).port_log(),
            !final(self).has_handle(name@),
            final(self).buffered(name@) == Seq::<u8>::empty(),
            forall|n: Seq<char>| n != name@ ==> #[trigger] final(self).has_handle(n) == old(self).has_handle(n),
            forall|n: Seq<char>| n != name@ ==> #[trigger] final(self).handle_of(n) == old(self).handle_of(n),
            forall|n: Seq<char>| n != name@ ==> #[trigger] final(self).buffered(n) == old(self).buffered(n),
    {
        let _ = self.take_handle(name);
        self.clear_buffer(name);
        proof {
            use_type_invariant(&*self);
        }
        let ghost before = *self;
        let ghost (opens, closes, writes) = self.calls@;
        self.calls = Ghost((opens, closes.push((name@, None)), writes));
        assert forall|n: Seq<char>| #[trigger] self.handle_of(n) == before.handle_of(n) by {}
        assert forall|n: Seq<char>| #[trigger] self.has_handle(n) == before.has_handle(n) by {}
        assert forall|n: Seq<char>| #[trigger] self.buffered(n) == before.buffered(n) by {}
        Ok(())
    }

    /// Writes the frame to the handle of `name` and flushes it; a name with
    /// no handle is an error.
    fn write_frame(&mut self, name: &str, frame: &[u8]) -> (r: Result<(), SerialportApiError>)
        ensures
            final(self).factory() == old(self).factory(),
            forall|n: Seq<char>| #[trigger] final(self).has_handle(n) == old(self).has_handle(n),
            forall|n: Seq<char>| #[trigger] final(self).buffered(n) == old(self).buffered(n),
            !old(self).has_handle(name@) ==> (r matches Err(SerialportApiError::ConnectionNotFound(n)) && n@ == name@),
            !old(self).has_handle(name@) ==> final(self).port_log() == old(self).port_log(),
            old(self).has_handle(name@) ==> (final(self).port_log() == old(self).port_log().push(PortCall::Write(name@, frame@, None)).push(
                PortCall::Flush(name@, crate::serial::transport::failure(r)),
            ) || (r matches Err(e) && final(self).port_log() == old(self).port_log().push(PortCall::Write(name@, frame@, Some(e))))),
            forall|n: Seq<char>| n != name@ ==> #[trigger] final(self).handle_of(n) == old(self).handle_of(n),
            old(self).has_handle(name@) ==> {
                let before = old(self).handle_of(name@)->0;
                &&& final(self).handle_of(name@) is Some
                &&& final(self).handle_of(name@)->0.reads() == before.reads()
                &&& r is Ok ==> final(self).handle_of(name@)->0.sent() == before.sent() + frame@
                    && final(self).handle_of(name@)->0.flushes() == before.flushes() + 1
                &&& r is Err ==> final(self).handle_of(name@)->0.flushes() == before.flushes()
            },
    {
        let ghost mut calls: Seq<PortCall> = Seq::empty();
        let result = match self.take_handle(name) {
            Some(mut handle) => {
                let written = handle.write_all(frame);
                proof {
                    calls = calls.push(PortCall::Write(name@, frame@, crate::serial::transport::failure(written)));
                }
                let flushed = match written {
                    Ok(()) => {
                        let f = handle.flush();
                        proof {
                            calls = calls.push(PortCall::Flush(name@, crate::serial::transport::failure(f)));
                        }
                        f
                    },
                    Err(e) => Err(e),
                };
                self.put_handle(String::from_str(name), handle);
                flushed
            },
            None => Err(SerialportApiError::ConnectionNotFound(String::from_str(name))),
        };
        proof {
            use_type_invariant(&*self);
        }
        let ghost ahead = *self;
        let ghost (opens, closes, writes) = self.calls@;
        self.calls = Ghost((opens, closes, writes.push((name@, frame@, crate::serial::transport::failure(result)))));
        self.port = Ghost(self.port@ + calls);
        assert forall|n: Seq<char>| #[trigger] self.handle_of(n) == ahead.handle_of(n) by {}
        assert forall|n: Seq<char>| #[trigger] self.has_handle(n) == ahead.has_handle(n) by {}
        assert forall|n: Seq<char>| #[trigger] self.buffered(n) == ahead.buffered(n) by {}
        if result.is_ok() {
            proof {
                use_type_invariant(&*self);
            }
            let ghost sent = self.delivered(name@).push(frame@);
            let ghost before = *self;
            self.written = Ghost(self.written@.insert(name@, sent));
            assert forall|n: Seq<char>| #[trigger] self.handle_of(n) == before.handle_of(n) by {}
            assert forall|n: Seq<char>| #[trigger] self.has_handle(n) == before.has_handle(n) by {}
            assert forall|n: Seq<char>| #[trigger] self.buffered(n) == before.buffered(n) by {}
        }
        result
    }
}

} // verus!
