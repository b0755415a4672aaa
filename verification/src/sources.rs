//! Byte sources: buffered, possibly filtered, incremental access to the
//! bytes of one transport (file, capture, serial line, socket).
//!
//! A source owns a growable buffer and a consumed offset. `current_slice`
//! always exposes exactly the loaded, unconsumed bytes; `reload` appends
//! more bytes (never removing any), and `consume` is the only operation
//! that discards bytes, from the front.

use vstd::prelude::*;
use vstd::slice::slice_subrange;

verus! {

/// Transport protocol tag of one captured frame.
#[derive(Debug, Clone, PartialEq, Eq, Structural)]
pub enum TransportProtocol {
    TCP,
    UDP,
    Unknown,
}

#[verifier::external_type_specification]
#[verifier::external_body]
pub struct ExTransportSlice<'a>(etherparse::TransportSlice<'a>);

impl TransportProtocol {
    /// Relies on etherparse::TransportSlice: tells its Tcp and Udp
    /// variants apart from the rest; the slice itself is opaque here.
    #[verifier::external_body]
    pub fn from_slice(tp_slice: &etherparse::TransportSlice<'_>) -> (r: TransportProtocol) {
        match tp_slice {
            etherparse::TransportSlice::Tcp(_) => TransportProtocol::TCP,
            etherparse::TransportSlice::Udp(_) => TransportProtocol::UDP,
            _ => TransportProtocol::Unknown,
        }
    }
}

/// Optional transport-protocol tag: frame-aware sources use it to decide
/// which frames' payload bytes are surfaced by a reload.
#[derive(Debug)]
pub struct SourceFilter {
    transport: Option<TransportProtocol>,
}

impl SourceFilter {
    /// The protocol this filter keeps, if it restricts at all.
    pub closed spec fn transport_spec(&self) -> Option<TransportProtocol> {
        self.transport
    }

    pub fn new(transport: Option<TransportProtocol>) -> (r: SourceFilter)
        ensures
            r.transport_spec() == transport,
    {
        SourceFilter { transport }
    }

    /// Whether a frame carrying protocol `p` passes this filter: an
    /// unrestricted filter passes everything, a restricted one passes
    /// exactly its own protocol.
    pub open spec fn wants_spec(&self, p: TransportProtocol) -> bool {
        match self.transport_spec() {
            Option::None => true,
            Option::Some(t) => t == p,
        }
    }

    pub fn wants(&self, p: &TransportProtocol) -> (r: bool)
        ensures
            r == self.wants_spec(*p),
    {
        match &self.transport {
            Option::None => true,
            Option::Some(t) => *t == *p,
        }
    }

    /// Decision for one parsed frame: passes the transport slice's
    /// protocol through the filter. Whatever protocol the slice carries,
    /// an unrestricted filter accepts the frame.
    pub fn wants_slice(&self, tp_slice: &etherparse::TransportSlice<'_>) -> (r: bool)
        ensures
            self.transport_spec() is None ==> r,
    {
        let p = TransportProtocol::from_slice(tp_slice);
        self.wants(&p)
    }
}

/// Result of one reload: how many bytes were newly loaded, how many are
/// now available, how many were skipped by the filter, and the most
/// recent timestamp the transport carried, if any.
#[derive(Debug, Clone, PartialEq)]
pub struct ReloadInfo {
    pub newly_loaded_bytes: usize,
    pub available_bytes: usize,
    pub skipped_bytes: usize,
    pub last_known_ts: Option<u64>,
}

impl ReloadInfo {
    pub fn new(
        newly_loaded_bytes: usize,
        available_bytes: usize,
        skipped_bytes: usize,
        last_known_ts: Option<u64>,
    ) -> (r: ReloadInfo)
        ensures
            r.newly_loaded_bytes == newly_loaded_bytes,
            r.available_bytes == available_bytes,
            r.skipped_bytes == skipped_bytes,
            r.last_known_ts == last_known_ts,
    {
        ReloadInfo {
            newly_loaded_bytes,
            available_bytes,
            skipped_bytes,
            last_known_ts,
        }
    }
}

/// Source failure taxonomy: `Setup` is a recoverable misconfiguration,
/// `Unrecoverable` means the transport is dead and the source must be
/// discarded.
#[derive(Debug, Clone, PartialEq)]
pub enum Error {
    Setup(String),
    Unrecoverable(String),
}

/// A `ByteSource` provides buffered access to the bytes of one underlying
/// transport. `data()` is the sequence of loaded, unconsumed bytes; every
/// operation's effect on it is pinned below. In particular, across any
/// sequence of `reload` calls the available bytes never shrink: only
/// `consume` discards bytes, and only from the front, never more than are
/// available.
pub trait ByteSource: Sized {
    /// Implementation well-formedness; constructors establish it and every
    /// operation preserves it.
    spec fn inv(&self) -> bool;

    /// The loaded, unconsumed bytes.
    spec fn data(&self) -> Seq<u8>;

    /// Discard the first `offset` bytes of the loaded buffer. Calling it
    /// with more than `len()` bytes is a programming error and is ruled
    /// out by the precondition.
    fn consume(&mut self, offset: usize)
        requires
            old(self).inv(),
            offset <= old(self).data().len(),
        ensures
            final(self).inv(),
            final(self).data() == old(self).data().skip(offset as int),
    ;

    /// The filtered data currently loaded.
    fn current_slice(&self) -> (r: &[u8])
        requires
            self.inv(),
        ensures
            r@ == self.data(),
    ;

    /// Count of currently loaded bytes.
    fn len(&self) -> (r: usize)
        requires
            self.inv(),
        ensures
            r == self.data().len(),
    ;

    fn is_empty(&self) -> (r: bool)
        requires
            self.inv(),
        ensures
            r == (self.data().len() == 0),
    {
        self.len() == 0
    }

    /// Load more bytes from the underlying transport, appending them to
    /// the buffer; already loaded bytes are never removed or reordered.
    /// `Ok(None)` is the normal terminal outcome: the transport is
    /// exhausted and nothing changed. `Ok(Some(info))` reports exactly
    /// how many bytes arrived and how many are now available.
    fn reload(&mut self, filter: Option<&SourceFilter>) -> (r: Result<Option<ReloadInfo>, Error>)
        requires
            old(self).inv(),
        ensures
            final(self).inv(),
            old(self).data().is_prefix_of(final(self).data()),
            r matches Ok(Some(info)) ==> {
                &&& info.available_bytes == final(self).data().len()
                &&& info.newly_loaded_bytes == final(self).data().len() - old(self).data().len()
            },
            r matches Ok(None) ==> final(self).data() == old(self).data(),
    ;

    /// Cleanup hook for unbounded transports; safe to call repeatedly.
    fn cancel(&mut self) -> (r: Result<(), Error>)
        requires
            old(self).inv(),
        ensures
            final(self).inv(),
            final(self).data() == old(self).data(),
        default_ensures
            r is Ok,
    {
        Ok(())
    }

    /// Side channel for transports that accept control input; the default
    /// accepts the message and answers with an empty reply.
    fn income(&mut self, _msg: String) -> (r: Result<String, String>)
        requires
            old(self).inv(),
        ensures
            final(self).inv(),
            final(self).data() == old(self).data(),
        default_ensures
            r matches Ok(reply) && reply@.len() == 0,
    {
        Ok(String::new())
    }
}

/// An in-memory byte source: the whole transport content is known up
/// front and is handed out in bounded chunks, the way a file-backed
/// source refills its buffer. Used as the reference implementation of the
/// `ByteSource` contract.
pub struct MemorySource {
    buf: Vec<u8>,
    consumed: usize,
    pending: Vec<u8>,
    pos: usize,
    chunk: usize,
}

impl MemorySource {
    /// Bytes the transport still holds, not yet surfaced by a reload.
    pub closed spec fn pending_data(&self) -> Seq<u8> {
        self.pending@.skip(self.pos as int)
    }

    /// The refill granularity: how many bytes one reload surfaces at
    /// most.
    pub closed spec fn chunk_spec(&self) -> int {
        self.chunk as int
    }

    /// `chunk` bounds how many bytes one reload may surface.
    pub fn new(pending: Vec<u8>, chunk: usize) -> (r: MemorySource)
        requires
            chunk >= 1,
        ensures
            r.inv(),
            r.data() == Seq::<u8>::empty(),
            r.pending_data() == pending@,
            r.chunk_spec() == chunk,
    {
        let r = MemorySource { buf: Vec::new(), consumed: 0, pending, pos: 0, chunk };
        proof {
            assert(r.data() =~= Seq::<u8>::empty());
            assert(r.pending_data() =~= r.pending@);
        }
        r
    }
}

impl ByteSource for MemorySource {
    closed spec fn inv(&self) -> bool {
        &&& self.consumed <= self.buf@.len()
        &&& self.pos <= self.pending@.len()
        &&& self.chunk >= 1
    }

    closed spec fn data(&self) -> Seq<u8> {
        self.buf@.skip(self.consumed as int)
    }

    fn consume(&mut self, offset: usize) {
        let _total = self.buf.len();
        self.consumed = self.consumed + offset;
        proof {
            assert(final(self).data() =~= old(self).data().skip(offset as int));
        }
    }

    fn current_slice(&self) -> (r: &[u8]) {
        slice_subrange(self.buf.as_slice(), self.consumed, self.buf.len())
    }

    fn len(&self) -> (r: usize) {
        self.buf.len() - self.consumed
    }

    /// Beyond the trait contract: this source never fails, answers
    /// `Ok(None)` exactly when its transport is exhausted, skips nothing,
    /// and each reload moves the next `min(chunk, remaining)` pending
    /// bytes into the buffer.
    fn reload(&mut self, _filter: Option<&SourceFilter>) -> (r: Result<Option<ReloadInfo>, Error>)
        ensures
            r is Ok,
            (r matches Ok(None)) <==> old(self).pending_data().len() == 0,
            r matches Ok(Some(info)) ==> {
                &&& info.skipped_bytes == 0
                &&& info.newly_loaded_bytes as int == vstd::math::min(
                    old(self).chunk_spec(),
                    old(self).pending_data().len() as int,
                )
                &&& final(self).data() == old(self).data() + old(self).pending_data().take(
                    info.newly_loaded_bytes as int,
                )
                &&& final(self).pending_data() == old(self).pending_data().skip(
                    info.newly_loaded_bytes as int,
                )
            },
            final(self).chunk_spec() == old(self).chunk_spec(),
    {
        if self.pos == self.pending.len() {
            return Ok(None);
        }
        let remaining = self.pending.len() - self.pos;
        let n = if remaining < self.chunk { remaining } else { self.chunk };
        let mut i: usize = 0;
        while i < n
            invariant
                i <= n,
                n <= self.pending@.len() - self.pos + i,
                self.pos == old(self).pos + i,
                self.pos <= self.pending@.len(),
                self.consumed == old(self).consumed,
                self.chunk == old(self).chunk,
                self.pending@ == old(self).pending@,
                self.consumed <= self.buf@.len(),
                self.buf@ == old(self).buf@ + self.pending@.subrange(
                    old(self).pos as int,
                    old(self).pos + i as int,
                ),
            decreases n - i,
        {
            let plen = self.pending.len();
            let b = self.pending[self.pos];
            self.buf.push(b);
            self.pos = self.pos + 1;
            i = i + 1;
            proof {
                assert(self.buf@ =~= old(self).buf@ + self.pending@.subrange(
                    old(self).pos as int,
                    old(self).pos + i as int,
                ));
            }
        }
        proof {
            let added = self.pending@.subrange(old(self).pos as int, old(self).pos + n as int);
            assert(self.data() =~= old(self).data() + added);
            assert(old(self).data() =~= (old(self).data() + added).subrange(
                0,
                old(self).data().len() as int,
            ));
            assert(self.data().len() == old(self).data().len() + n);
        }
        let available = self.buf.len() - self.consumed;
        Ok(Some(ReloadInfo::new(n, available, 0, None)))
    }
}

} // verus!
