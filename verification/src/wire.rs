use vstd::prelude::*;

verus! {

/// Size of the buffer that holds one datagram, inbound or outbound.
pub const BUFFER_SIZE: usize = 2048;

/// First byte of a datagram that registers a blob.
pub const OPCODE_REGISTER: u8 = 0x01;

/// First byte of a datagram that asks for the registered blobs.
pub const OPCODE_QUERY: u8 = 0x02;

/// Bytes in front of the blob of a Register datagram: opcode and length.
pub const REGISTER_HEADER_LEN: usize = 3;

/// Bytes in front of the blob of a record: its length.
pub const RECORD_HEADER_LEN: usize = 2;

/// The longest blob that a Register datagram can carry.
pub const MAX_BLOB_LEN: usize = BUFFER_SIZE - REGISTER_HEADER_LEN;

/// The four bytes of the datagram that ends every answer to a Query.
pub open spec fn terminator() -> Seq<u8> {
    seq![0xFFu8, 0xFFu8, 0xFFu8, 0xFFu8]
}

/// The byte sequences that a sequence of vectors holds.
pub open spec fn byte_views(items: Seq<Vec<u8>>) -> Seq<Seq<u8>> {
    items.map_values(|item: Vec<u8>| item@)
}

/// The length that a Register datagram announces: bytes 1 and 2, high byte
/// first.
pub open spec fn announced_len(buf: Seq<u8>) -> int
    recommends
        buf.len() >= REGISTER_HEADER_LEN,
{
    buf[1] * 256 + buf[2]
}

/// The blob that a Register datagram carries: the announced number of bytes
/// behind the header, provided that this number is not zero and that so many
/// bytes fit the buffer. A datagram that announces any other length carries
/// nothing.
pub open spec fn register_blob(buf: Seq<u8>) -> Option<Seq<u8>>
    recommends
        buf.len() == BUFFER_SIZE,
{
    if 0 < announced_len(buf) <= MAX_BLOB_LEN {
        Some(
            buf.subrange(
                REGISTER_HEADER_LEN as int,
                REGISTER_HEADER_LEN + announced_len(buf),
            ),
        )
    } else {
        None
    }
}

/// One blob as it travels in an answer: its length in two bytes, high byte
/// first, then its bytes.
pub open spec fn record(blob: Seq<u8>) -> Seq<u8>
    recommends
        blob.len() + RECORD_HEADER_LEN <= BUFFER_SIZE,
{
    seq![(blob.len() / 256) as u8, (blob.len() % 256) as u8] + blob
}

/// The data datagrams that carry the records of `blobs`, in order, when
/// `current` is what the datagram under construction holds already.
///
/// A record is appended to the datagram under construction unless the datagram
/// would then exceed the buffer; in that case the datagram is closed and the
/// record opens the next one. What is left at the end is a datagram of its own
/// unless it is empty.
pub open spec fn pack_records(blobs: Seq<Seq<u8>>, current: Seq<u8>) -> Seq<Seq<u8>>
    decreases blobs.len(),
{
    if blobs.len() == 0 {
        if current.len() > 0 {
            seq![current]
        } else {
            Seq::empty()
        }
    } else if current.len() + record(blobs[0]).len() > BUFFER_SIZE {
        seq![current] + pack_records(blobs.drop_first(), record(blobs[0]))
    } else {
        pack_records(blobs.drop_first(), current + record(blobs[0]))
    }
}

/// The datagrams that answer a Query over `blobs`: the data datagrams, then
/// the terminator.
pub open spec fn query_response(blobs: Seq<Seq<u8>>) -> Seq<Seq<u8>> {
    pack_records(blobs, Seq::empty()).push(terminator())
}

/// Whether every blob, with its length in front, fits one datagram.
pub open spec fn blobs_fit(blobs: Seq<Seq<u8>>) -> bool {
    forall|i: int| 0 <= i < blobs.len() ==> (#[trigger] blobs[i]).len() + RECORD_HEADER_LEN
        <= BUFFER_SIZE
}

/// Reads the blob of a Register datagram. Returns `None` when the announced
/// length is zero or exceeds what the buffer can hold behind the header.
pub fn parse_register(buf: &[u8; BUFFER_SIZE]) -> (blob: Option<Vec<u8>>)
    ensures
        match blob {
            Some(bytes) => register_blob(buf@) == Some(bytes@),
            None => register_blob(buf@) is None,
        },
{
    let length: usize = (buf[1] as usize) * 256 + (buf[2] as usize);
    if length == 0 || length > MAX_BLOB_LEN {
        return None;
    }
    let mut bytes: Vec<u8> = Vec::new();
    let mut i: usize = 0;
    while i < length
        invariant
            i <= length <= MAX_BLOB_LEN,
            bytes@ == buf@.subrange(REGISTER_HEADER_LEN as int, REGISTER_HEADER_LEN + i),
        decreases length - i,
    {
        bytes.push(buf[REGISTER_HEADER_LEN + i]);
        i += 1;
    }
    Some(bytes)
}

/// Appends the record of `blob` to `current`.
fn push_record(current: &mut Vec<u8>, blob: &Vec<u8>)
    requires
        blob.len() + RECORD_HEADER_LEN <= BUFFER_SIZE,
    ensures
        final(current)@ == old(current)@ + record(blob@),
{
    current.push((blob.len() / 256) as u8);
    current.push((blob.len() % 256) as u8);
    let mut i: usize = 0;
    while i < blob.len()
        invariant
            i <= blob.len(),
            current@ == old(current)@ + record(blob@).subrange(0, RECORD_HEADER_LEN + i),
        decreases blob.len() - i,
    {
        current.push(blob[i]);
        i += 1;
    }
}

/// Frames blobs into the datagrams that answer a Query: each blob becomes a
/// record, the records fill datagrams of at most `BUFFER_SIZE` bytes in order,
/// and the terminator follows, whether or not there was any blob.
pub fn frame_records(blobs: &Vec<Vec<u8>>) -> (datagrams: Vec<Vec<u8>>)
    requires
        blobs_fit(byte_views(blobs@)),
    ensures
        byte_views(datagrams@) == query_response(byte_views(blobs@)),
{
    let ghost all = byte_views(blobs@);
    let mut datagrams: Vec<Vec<u8>> = Vec::new();
    let mut current: Vec<u8> = Vec::new();
    let mut i: usize = 0;
    assert(all.skip(0) =~= all);
    while i < blobs.len()
        invariant
            i <= blobs.len(),
            all == byte_views(blobs@),
            blobs_fit(all),
            current.len() <= BUFFER_SIZE,
            byte_views(datagrams@) + pack_records(all.skip(i as int), current@) == pack_records(
                all,
                Seq::empty(),
            ),
        decreases blobs.len() - i,
    {
        let blob = &blobs[i];
        assert(all.skip(i as int).drop_first() =~= all.skip(i + 1));
        if current.len() + blob.len() + RECORD_HEADER_LEN > BUFFER_SIZE {
            datagrams.push(current);
            current = Vec::new();
        }
        push_record(&mut current, blob);
        i += 1;
    }
    if current.len() > 0 {
        datagrams.push(current);
    }
    let mut end: Vec<u8> = Vec::new();
    end.push(0xFF);
    end.push(0xFF);
    end.push(0xFF);
    end.push(0xFF);
    assert(end@ =~= terminator());
    datagrams.push(end);
    datagrams
}

/// The records of a sequence of blobs, in order.
pub open spec fn records(blobs: Seq<Seq<u8>>) -> Seq<Seq<u8>> {
    blobs.map_values(|blob: Seq<u8>| record(blob))
}

/// What `pack_records` yields when the datagram under construction is within
/// the buffer and, unless empty, begins with a record: datagrams that are not
/// empty, do not exceed the buffer and begin with the high length byte of a
/// record, which is below eight; and their bytes, in order, are what the
/// datagram held already and then the records, in order.
pub proof fn lemma_pack_records(blobs: Seq<Seq<u8>>, current: Seq<u8>)
    requires
        blobs_fit(blobs),
        current.len() <= BUFFER_SIZE,
        current.len() > 0 ==> current[0] < 8,
    ensures
        forall|i: int|
            0 <= i < pack_records(blobs, current).len() ==> {
                &&& 0 < (#[trigger] pack_records(blobs, current)[i]).len() <= BUFFER_SIZE
                &&& pack_records(blobs, current)[i][0] < 8
            },
        pack_records(blobs, current).flatten() == current + records(blobs).flatten(),
    decreases blobs.len(),
{
    let packed = pack_records(blobs, current);
    if blobs.len() == 0 {
        if current.len() > 0 {
            assert(packed.flatten() =~= current) by {
                packed.lemma_flatten_one_element();
            }
        }
    } else {
        let first = record(blobs[0]);
        let rest = blobs.drop_first();
        assert(blobs_fit(rest)) by {
            assert forall|i: int| 0 <= i < rest.len() implies (#[trigger] rest[i]).len()
                + RECORD_HEADER_LEN <= BUFFER_SIZE by {
                assert(rest[i] == blobs[i + 1]);
            }
        }
        assert(records(blobs).drop_first() =~= records(rest));
        if current.len() + first.len() > BUFFER_SIZE {
            // The datagram is closed; the record opens the next one.
            let tail = pack_records(rest, first);
            lemma_pack_records(rest, first);
            assert forall|i: int| 0 <= i < packed.len() implies {
                &&& 0 < (#[trigger] packed[i]).len() <= BUFFER_SIZE
                &&& packed[i][0] < 8
            } by {
                if i > 0 {
                    assert(packed[i] == tail[i - 1]);
                }
            }
            assert(packed.flatten() =~= current + records(blobs).flatten()) by {
                vstd::seq_lib::lemma_flatten_concat(seq![current], tail);
                seq![current].lemma_flatten_one_element();
            }
        } else {
            // The record joins the datagram.
            assert((current + first)[0] < 8);
            lemma_pack_records(rest, current + first);
        }
    }
}

/// The shape of every answer to a Query over blobs that fit: the last datagram
/// is the terminator; the datagrams before it are not empty, do not exceed the
/// buffer and are not the terminator; their bytes, in order, are the records
/// of the blobs, in order. Without blobs the answer is the terminator alone.
pub proof fn lemma_query_response(blobs: Seq<Seq<u8>>)
    requires
        blobs_fit(blobs),
    ensures
        query_response(blobs).len() >= 1,
        query_response(blobs).last() == terminator(),
        forall|i: int|
            0 <= i < query_response(blobs).len() - 1 ==> {
                &&& 0 < (#[trigger] query_response(blobs)[i]).len() <= BUFFER_SIZE
                &&& query_response(blobs)[i] != terminator()
            },
        query_response(blobs).drop_last().flatten() == records(blobs).flatten(),
        blobs.len() == 0 ==> query_response(blobs) == seq![terminator()],
{
    let data = pack_records(blobs, Seq::empty());
    lemma_pack_records(blobs, Seq::empty());
    assert(query_response(blobs).drop_last() =~= data);
    assert forall|i: int| 0 <= i < query_response(blobs).len() - 1 implies {
        &&& 0 < (#[trigger] query_response(blobs)[i]).len() <= BUFFER_SIZE
        &&& query_response(blobs)[i] != terminator()
    } by {
        // A data datagram begins with a byte below eight, the terminator
        // with 0xFF.
        assert(query_response(blobs)[i] == data[i]);
        assert(data[i][0] < 8);
    }
}

/// The answer to a Query over one blob that fits: its record in one datagram,
/// then the terminator.
pub proof fn lemma_query_response_single(blob: Seq<u8>)
    requires
        blob.len() + RECORD_HEADER_LEN <= BUFFER_SIZE,
    ensures
        query_response(seq![blob]) == seq![record(blob), terminator()],
{
    let blobs = seq![blob];
    assert(pack_records(blobs, Seq::empty()) == pack_records(
        blobs.drop_first(),
        Seq::<u8>::empty() + record(blob),
    ));
}

} // verus!
