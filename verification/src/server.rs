use vstd::prelude::*;
use crate::address::SocketAddress;
use crate::clock::get_time_now;
use crate::registry::{
    fresh, holds, is_stale, lemma_fresh, lemma_fresh_of_stale, lemma_upsert,
    lemma_upsert_overwrites, payloads, stale_sources, upsert, well_formed, EntryView, Registry,
    SWEEP_INTERVAL_NANOS,
};
use crate::wire::{
    blobs_fit, byte_views, frame_records, lemma_query_response, lemma_query_response_single,
    parse_register, query_response, record, register_blob, terminator, BUFFER_SIZE, MAX_BLOB_LEN,
    OPCODE_QUERY, OPCODE_REGISTER, RECORD_HEADER_LEN,
};

verus! {

/// What became of an inbound datagram.
#[derive(Debug)]
pub enum Outcome {
    /// The datagram registered a blob for its sender. Nothing is sent back.
    Registered,
    /// The datagram was a Query; these datagrams answer it, in this order.
    Served(Vec<Vec<u8>>),
    /// The datagram had an unknown opcode or announced a length out of range
    /// and was dropped. Nothing is sent back.
    Ignored,
}

/// An `Outcome` as mathematical values.
pub enum OutcomeView {
    Registered,
    Served(Seq<Seq<u8>>),
    Ignored,
}

impl View for Outcome {
    type V = OutcomeView;

    open spec fn view(&self) -> OutcomeView {
        match *self {
            Outcome::Registered => OutcomeView::Registered,
            Outcome::Served(datagrams) => OutcomeView::Served(byte_views(datagrams@)),
            Outcome::Ignored => OutcomeView::Ignored,
        }
    }
}

/// The entries after a Register datagram `buf` from `from` at the time `now`.
pub open spec fn after_register(
    clients: Seq<EntryView>,
    buf: Seq<u8>,
    from: SocketAddress,
    now: u128,
) -> Seq<EntryView> {
    match register_blob(buf) {
        Some(blob) => upsert(clients, EntryView { source: from, payload: blob, last_seen: now }),
        None => clients,
    }
}

/// What a datagram `buf` from `from` at the time `now` does to the entries,
/// and what becomes of it.
pub open spec fn after_datagram(
    clients: Seq<EntryView>,
    buf: Seq<u8>,
    from: SocketAddress,
    now: u128,
) -> (Seq<EntryView>, OutcomeView) {
    if buf[0] == OPCODE_REGISTER {
        (
            after_register(clients, buf, from, now),
            if register_blob(buf) is Some {
                OutcomeView::Registered
            } else {
                OutcomeView::Ignored
            },
        )
    } else if buf[0] == OPCODE_QUERY {
        (clients, OutcomeView::Served(query_response(payloads(clients))))
    } else {
        (clients, OutcomeView::Ignored)
    }
}

/// The state of a rendezvous server: the address on which it listens and the
/// registry of what its clients published.
pub struct Server {
    address: SocketAddress,
    clients: Registry,
}

impl Server {
    /// The registry entries.
    pub closed spec fn clients(&self) -> Seq<EntryView> {
        self.clients@
    }

    /// The address on which the server listens.
    pub closed spec fn listen_address(&self) -> SocketAddress {
        self.address
    }

    /// A server for the given listen address, with an empty registry.
    pub fn new(address: SocketAddress) -> (server: Server)
        ensures
            server.listen_address() == address,
            server.clients() == Seq::<EntryView>::empty(),
    {
        Server { address, clients: Registry::new() }
    }

    /// The address on which the server listens.
    pub fn address(&self) -> (address: SocketAddress)
        ensures
            address == self.listen_address(),
    {
        self.address
    }

    /// The number of registered clients.
    pub fn online(&self) -> (n: usize)
        ensures
            n == self.clients().len(),
            well_formed(self.clients()),
    {
        self.clients.len()
    }

    /// Handles a Register datagram from `addr` at the time `now`: the blob that
    /// it carries takes the place of what `addr` registered before. A datagram
    /// that announces a length out of range changes nothing.
    pub fn process_add(
        &mut self,
        buf: &[u8; BUFFER_SIZE],
        addr: SocketAddress,
        now: u128,
    ) -> (registered: bool)
        ensures
            registered == (register_blob(buf@) is Some),
            final(self).clients() == after_register(old(self).clients(), buf@, addr, now),
            final(self).listen_address() == old(self).listen_address(),
            well_formed(final(self).clients()),
    {
        match parse_register(buf) {
            Some(blob) => self.clients.register(addr, blob, now),
            None => {
                proof {
                    use_type_invariant(&self.clients);
                }
                false
            },
        }
    }

    /// Answers a Query: the blobs of all clients as records, packed into
    /// datagrams, and the terminator behind them.
    pub fn process_get(&self) -> (datagrams: Vec<Vec<u8>>)
        ensures
            byte_views(datagrams@) == query_response(payloads(self.clients())),
    {
        let blobs = self.clients.payloads();
        frame_records(&blobs)
    }

    /// Dispatches an inbound datagram from `from` at the time `now` by its
    /// first byte: Register, Query, or neither.
    pub fn handle_datagram(
        &mut self,
        buf: &[u8; BUFFER_SIZE],
        from: SocketAddress,
        now: u128,
    ) -> (outcome: Outcome)
        ensures
            (final(self).clients(), outcome@) == after_datagram(
                old(self).clients(),
                buf@,
                from,
                now,
            ),
            final(self).listen_address() == old(self).listen_address(),
            well_formed(final(self).clients()),
    {
        let opcode: u8 = buf[0];
        if opcode == OPCODE_REGISTER {
            if self.process_add(buf, from, now) {
                Outcome::Registered
            } else {
                Outcome::Ignored
            }
        } else if opcode == OPCODE_QUERY {
            proof {
                use_type_invariant(&self.clients);
            }
            Outcome::Served(self.process_get())
        } else {
            proof {
                use_type_invariant(&self.clients);
            }
            Outcome::Ignored
        }
    }

    /// Handles an inbound datagram from `from` at the time that the system
    /// clock shows. The clock is read for a Register only; a Register that
    /// comes while the clock has no reading is dropped.
    pub fn receive(&mut self, buf: &[u8; BUFFER_SIZE], from: SocketAddress) -> (outcome: Outcome)
        ensures
            buf[0] != OPCODE_REGISTER ==> (final(self).clients(), outcome@) == after_datagram(
                old(self).clients(),
                buf@,
                from,
                0,
            ),
            buf[0] == OPCODE_REGISTER ==> {
                ||| exists|now: u128|
                    (final(self).clients(), outcome@) == #[trigger] after_datagram(
                        old(self).clients(),
                        buf@,
                        from,
                        now,
                    )
                ||| (final(self).clients(), outcome@) == (
                    old(self).clients(),
                    OutcomeView::Ignored,
                )
            },
            final(self).listen_address() == old(self).listen_address(),
            well_formed(final(self).clients()),
    {
        if buf[0] == OPCODE_REGISTER {
            match get_time_now() {
                Some(now) => self.handle_datagram(buf, from, now),
                None => {
                    proof {
                        use_type_invariant(&self.clients);
                    }
                    Outcome::Ignored
                },
            }
        } else {
            self.handle_datagram(buf, from, 0)
        }
    }

    /// One tick of the eviction sweep at the time that the system clock shows.
    /// Returns the addresses of the clients that left, or `None`, with the
    /// registry unchanged, when the clock has no reading.
    pub fn tick(&mut self) -> (removed: Option<Vec<SocketAddress>>)
        ensures
            match removed {
                Some(sources) => exists|now: u128|
                    final(self).clients() == #[trigger] fresh(old(self).clients(), now)
                        && sources@ == stale_sources(old(self).clients(), now),
                None => final(self).clients() == old(self).clients(),
            },
            final(self).listen_address() == old(self).listen_address(),
            well_formed(final(self).clients()),
    {
        match get_time_now() {
            Some(now) => Some(self.sweep(now)),
            None => {
                proof {
                    use_type_invariant(&self.clients);
                }
                None
            },
        }
    }

    /// One tick of the eviction sweep at the time `now`: every client that is
    /// stale leaves the registry. Returns the addresses of those that left.
    pub fn sweep(&mut self, now: u128) -> (removed: Vec<SocketAddress>)
        ensures
            final(self).clients() == fresh(old(self).clients(), now),
            removed@ == stale_sources(old(self).clients(), now),
            final(self).listen_address() == old(self).listen_address(),
            well_formed(final(self).clients()),
    {
        self.clients.evict_stale(now)
    }
}


/// Whether `buf` is a Register datagram that carries `blob`.
pub open spec fn registers(buf: Seq<u8>, blob: Seq<u8>) -> bool {
    buf.len() == BUFFER_SIZE && buf[0] == OPCODE_REGISTER && register_blob(buf) == Some(blob)
}

/// A Register followed by a Query from any address: the registry then holds
/// exactly one entry for the registering address, with the registered blob,
/// and the answer carries the blobs of the registry and ends with the
/// terminator. When the registry was empty before, the answer is the record
/// of the blob and the terminator, nothing else.
pub proof fn lemma_register_then_query(
    clients: Seq<EntryView>,
    buf: Seq<u8>,
    blob: Seq<u8>,
    from: SocketAddress,
    now: u128,
    query: Seq<u8>,
    asker: SocketAddress,
    later: u128,
)
    requires
        well_formed(clients),
        registers(buf, blob),
        query.len() == BUFFER_SIZE,
        query[0] == OPCODE_QUERY,
    ensures
        ({
            let (registered, first) = after_datagram(clients, buf, from, now);
            let (kept, second) = after_datagram(registered, query, asker, later);
            let entry = EntryView { source: from, payload: blob, last_seen: now };
            &&& first == OutcomeView::Registered
            &&& well_formed(registered)
            &&& holds(registered, from)
            &&& forall|i: int|
                0 <= i < registered.len() && (#[trigger] registered[i]).source == from
                    ==> registered[i] == entry
            &&& kept == registered
            &&& second == OutcomeView::Served(query_response(payloads(registered)))
            &&& query_response(payloads(registered)).last() == terminator()
            &&& clients.len() == 0 ==> second == OutcomeView::Served(
                seq![record(blob), terminator()],
            )
        }),
{
    let entry = EntryView { source: from, payload: blob, last_seen: now };
    let registered = upsert(clients, entry);
    lemma_upsert(clients, entry);
    lemma_payloads_fit(registered);
    lemma_query_response(payloads(registered));
    if clients.len() == 0 {
        assert(payloads(registered) =~= seq![blob]);
        lemma_query_response_single(blob);
    }
}

/// Two Registers from one address leave only the later blob: the registry is
/// as if the earlier Register had never come. When the registry was empty
/// before, the answer to a Query is the record of the later blob and the
/// terminator, nothing else.
pub proof fn lemma_register_overwrites(
    clients: Seq<EntryView>,
    earlier: Seq<u8>,
    old_blob: Seq<u8>,
    at: u128,
    later: Seq<u8>,
    new_blob: Seq<u8>,
    then: u128,
    from: SocketAddress,
)
    requires
        well_formed(clients),
        registers(earlier, old_blob),
        registers(later, new_blob),
    ensures
        after_register(after_register(clients, earlier, from, at), later, from, then)
            == after_register(clients, later, from, then),
        clients.len() == 0 ==> query_response(
            payloads(after_register(after_register(clients, earlier, from, at), later, from, then)),
        ) == seq![record(new_blob), terminator()],
{
    let first = EntryView { source: from, payload: old_blob, last_seen: at };
    let second = EntryView { source: from, payload: new_blob, last_seen: then };
    lemma_upsert_overwrites(clients, first, second);
    if clients.len() == 0 {
        assert(payloads(upsert(clients, second)) =~= seq![new_blob]);
        lemma_query_response_single(new_blob);
    }
}

/// A Query to an empty registry is answered by the terminator alone.
pub proof fn lemma_query_empty(query: Seq<u8>, asker: SocketAddress, now: u128)
    requires
        query.len() == BUFFER_SIZE,
        query[0] == OPCODE_QUERY,
    ensures
        after_datagram(Seq::empty(), query, asker, now) == (
            Seq::<EntryView>::empty(),
            OutcomeView::Served(seq![terminator()]),
        ),
{
    let none = Seq::<EntryView>::empty();
    lemma_query_response(payloads(none));
}

/// An entry that was not refreshed for longer than the sweep interval is gone
/// after the next sweep, and the answer to a Query that comes later is made of
/// the blobs of the entries that stayed. When every entry was stale, that
/// answer is the terminator alone.
pub proof fn lemma_sweep_then_query(
    clients: Seq<EntryView>,
    j: int,
    now: u128,
    query: Seq<u8>,
    asker: SocketAddress,
    later: u128,
)
    requires
        well_formed(clients),
        0 <= j < clients.len(),
        now - clients[j].last_seen > SWEEP_INTERVAL_NANOS,
        query.len() == BUFFER_SIZE,
        query[0] == OPCODE_QUERY,
    ensures
        well_formed(fresh(clients, now)),
        !holds(fresh(clients, now), clients[j].source),
        after_datagram(fresh(clients, now), query, asker, later).1 == OutcomeView::Served(
            query_response(payloads(fresh(clients, now))),
        ),
        forall|i: int|
            0 <= i < fresh(clients, now).len() ==> !is_stale(
                (#[trigger] fresh(clients, now)[i]).last_seen,
                now,
            ),
        (forall|k: int| 0 <= k < clients.len() ==> is_stale((#[trigger] clients[k]).last_seen, now))
            ==> after_datagram(fresh(clients, now), query, asker, later).1 == OutcomeView::Served(
            seq![terminator()],
        ),
{
    lemma_fresh(clients, now);
    if forall|k: int| 0 <= k < clients.len() ==> is_stale((#[trigger] clients[k]).last_seen, now) {
        lemma_fresh_of_stale(clients, now);
        lemma_query_empty(query, asker, later);
    }
}

/// The blobs of a well-formed registry fit the datagrams of an answer.
pub proof fn lemma_payloads_fit(clients: Seq<EntryView>)
    requires
        well_formed(clients),
    ensures
        blobs_fit(payloads(clients)),
{
    assert forall|i: int| 0 <= i < payloads(clients).len() implies (#[trigger] payloads(
        clients,
    )[i]).len() + RECORD_HEADER_LEN <= BUFFER_SIZE by {
        assert(payloads(clients)[i] == clients[i].payload);
    }
}

} // verus!
