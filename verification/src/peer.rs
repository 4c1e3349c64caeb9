use vstd::prelude::*;
use vstd::string::*;
use vstd::utf8::*;
use crate::address::SocketAddress;
use crate::error::Error;

verus! {

/// Width of the nickname field of an encoded descriptor, in bytes.
pub const NICKNAME_LEN: usize = 200;

/// Width of an encoded address: four octets and a 16-bit port.
pub const ADDRESS_LEN: usize = 6;

/// Width of an encoded descriptor: nickname, address, flag, relay address.
pub const PEER_LEN: usize = NICKNAME_LEN + ADDRESS_LEN * 2 + 1;

/// What a peer descriptor holds, as mathematical values.
pub struct PeerView {
    pub nickname: Seq<char>,
    pub address: SocketAddress,
    pub turn_use: bool,
    pub turn_server: SocketAddress,
}

/// `n` zero bytes.
pub open spec fn zeros(n: nat) -> Seq<u8> {
    Seq::new(n, |i: int| 0u8)
}

/// Whether the UTF-8 form of a nickname fits the nickname field.
pub open spec fn nickname_fits(nickname: Seq<char>) -> bool {
    encode_utf8(nickname).len() <= NICKNAME_LEN
}

/// The nickname field: the UTF-8 bytes of the nickname, left-justified and
/// padded with zero bytes to the field's width.
pub open spec fn nickname_field(nickname: Seq<char>) -> Seq<u8>
    recommends
        nickname_fits(nickname),
{
    encode_utf8(nickname) + zeros((NICKNAME_LEN - encode_utf8(nickname).len()) as nat)
}

/// The six bytes of an IPv4 socket address: the octets in order, then the port
/// with its high byte first.
pub open spec fn address_field(addr: SocketAddress) -> Seq<u8>
    recommends
        addr is V4,
{
    match addr {
        SocketAddress::V4 { a, b, c, d, port } => seq![
            a,
            b,
            c,
            d,
            (port / 256) as u8,
            (port % 256) as u8,
        ],
        SocketAddress::V6 { .. } => Seq::empty(),
    }
}

/// The IPv4 socket address whose six bytes start at index `at` of `bytes`.
pub open spec fn address_at(bytes: Seq<u8>, at: int) -> SocketAddress
    recommends
        0 <= at,
        at + ADDRESS_LEN <= bytes.len(),
{
    SocketAddress::V4 {
        a: bytes[at],
        b: bytes[at + 1],
        c: bytes[at + 2],
        d: bytes[at + 3],
        port: (bytes[at + 4] * 256 + bytes[at + 5]) as u16,
    }
}

/// `bytes` without the zero bytes at its end.
pub open spec fn strip_padding(bytes: Seq<u8>) -> Seq<u8>
    decreases bytes.len(),
{
    if bytes.len() > 0 && bytes.last() == 0 {
        strip_padding(bytes.drop_last())
    } else {
        bytes
    }
}

/// The encoded form of a descriptor, or the reason why it has none.
///
/// Both addresses must be IPv4, whether or not the relay is in use. The relay
/// address is written only when the relay is in use; otherwise its six bytes
/// are zero.
pub open spec fn spec_pack(peer: PeerView) -> Result<Seq<u8>, Error>
    recommends
        nickname_fits(peer.nickname),
{
    if !(peer.address is V4) || !(peer.turn_server is V4) {
        Err(Error::UnsupportedAddressFamily)
    } else {
        Ok(
            nickname_field(peer.nickname) + address_field(peer.address) + seq![
                if peer.turn_use {
                    1u8
                } else {
                    0u8
                },
            ] + if peer.turn_use {
                address_field(peer.turn_server)
            } else {
                zeros(ADDRESS_LEN as nat)
            },
        )
    }
}

/// The descriptor that a buffer encodes, or the reason why it encodes none.
///
/// The buffer must have the exact width of a descriptor, and its nickname
/// field, once the zero padding at its end is dropped, must be UTF-8.
pub open spec fn spec_unpack(bytes: Seq<u8>) -> Result<PeerView, Error> {
    if bytes.len() != PEER_LEN {
        Err(Error::FormatError)
    } else if !valid_utf8(strip_padding(bytes.subrange(0, NICKNAME_LEN as int))) {
        Err(Error::FormatError)
    } else {
        Ok(
            PeerView {
                nickname: decode_utf8(strip_padding(bytes.subrange(0, NICKNAME_LEN as int))),
                address: address_at(bytes, NICKNAME_LEN as int),
                turn_use: bytes[NICKNAME_LEN + ADDRESS_LEN] != 0,
                turn_server: address_at(bytes, NICKNAME_LEN + ADDRESS_LEN + 1),
            },
        )
    }
}

/// `String::from_utf8` of the standard library: the bytes become a string
/// exactly when they are valid UTF-8, and the string then consists of these
/// bytes.
#[verifier::external_body]
fn string_from_utf8(bytes: Vec<u8>) -> (text: Option<String>)
    ensures
        text is Some <==> valid_utf8(bytes@),
        text matches Some(s) ==> encode_utf8(s@) == bytes@,
{
    String::from_utf8(bytes).ok()
}

/// The address information that a peer publishes: a nickname, the address at
/// which the peer can be reached, and a relay (TURN) server with a flag that
/// says whether the relay is in use.
pub struct Peer {
    nickname: String,
    address: SocketAddress,
    turn_use: bool,
    turn_server: SocketAddress,
}

impl View for Peer {
    type V = PeerView;

    closed spec fn view(&self) -> PeerView {
        PeerView {
            nickname: self.nickname@,
            address: self.address,
            turn_use: self.turn_use,
            turn_server: self.turn_server,
        }
    }
}

impl Clone for Peer {
    fn clone(&self) -> (copy: Peer)
        ensures
            copy@ == self@,
    {
        proof {
            use_type_invariant(self);
        }
        Peer {
            nickname: self.nickname.clone(),
            address: self.address,
            turn_use: self.turn_use,
            turn_server: self.turn_server,
        }
    }
}

impl Peer {
    #[verifier::type_invariant]
    spec fn nickname_within_limit(self) -> bool {
        nickname_fits(self.nickname@)
    }

    /// A descriptor with an empty nickname, no address and no relay.
    pub fn new() -> (peer: Peer)
        ensures
            peer@ == (PeerView {
                nickname: Seq::empty(),
                address: SocketAddress::unspecified(),
                turn_use: false,
                turn_server: SocketAddress::unspecified(),
            }),
    {
        let nickname = String::new();
        Peer {
            nickname,
            address: SocketAddress::unspecified(),
            turn_use: false,
            turn_server: SocketAddress::unspecified(),
        }
    }

    /// Appends the six bytes of an IPv4 socket address to `packed`.
    fn pack_address(addr: SocketAddress, packed: &mut Vec<u8>)
        requires
            addr is V4,
        ensures
            final(packed)@ == old(packed)@ + address_field(addr),
    {
        if let SocketAddress::V4 { a, b, c, d, port } = addr {
            packed.push(a);
            packed.push(b);
            packed.push(c);
            packed.push(d);
            packed.push((port / 256) as u8);
            packed.push((port % 256) as u8);
        }
    }

    /// Appends `count` zero bytes to `packed`.
    fn pack_zeros(count: usize, packed: &mut Vec<u8>)
        ensures
            final(packed)@ == old(packed)@ + zeros(count as nat),
    {
        let mut i: usize = 0;
        while i < count
            invariant
                i <= count,
                packed@ == old(packed)@ + zeros(i as nat),
            decreases count - i,
        {
            packed.push(0);
            i += 1;
        }
    }

    /// Encodes the descriptor into its fixed-width form of `PEER_LEN` bytes:
    /// the nickname, zero-padded; the address; the relay flag; the relay
    /// address, or zeros when the relay is not in use.
    ///
    /// Fails with `UnsupportedAddressFamily` when either address is not IPv4.
    pub fn pack(&self) -> (r: Result<Vec<u8>, Error>)
        ensures
            match r {
                Ok(packed) => spec_pack(self@) == Ok::<Seq<u8>, Error>(packed@) && packed.len()
                    == PEER_LEN,
                Err(e) => spec_pack(self@) == Err::<Seq<u8>, Error>(e),
            },
    {
        proof {
            use_type_invariant(self);
        }
        if !self.address.is_ipv4() || !self.turn_server.is_ipv4() {
            return Err(Error::UnsupportedAddressFamily);
        }
        let text = self.nickname.as_str().as_bytes();
        let mut packed: Vec<u8> = Vec::new();
        let mut i: usize = 0;
        while i < text.len()
            invariant
                i <= text.len(),
                packed@ == text@.subrange(0, i as int),
            decreases text.len() - i,
        {
            packed.push(text[i]);
            i += 1;
        }
        Self::pack_zeros(NICKNAME_LEN - text.len(), &mut packed);
        Self::pack_address(self.address, &mut packed);
        if self.turn_use {
            packed.push(1);
            Self::pack_address(self.turn_server, &mut packed);
        } else {
            packed.push(0);
            Self::pack_zeros(ADDRESS_LEN, &mut packed);
        }
        proof {
            let field = nickname_field(self.nickname@);
            let flag = if self.turn_use {
                1u8
            } else {
                0u8
            };
            let tail = if self.turn_use {
                address_field(self.turn_server)
            } else {
                zeros(ADDRESS_LEN as nat)
            };
            assert(packed@ =~= field + address_field(self.address) + seq![flag] + tail);
        }
        Ok(packed)
    }

    /// Copies the first `NICKNAME_LEN` bytes of a buffer without the zero
    /// padding at their end.
    fn nickname_bytes(raw_data: &Vec<u8>) -> (out: Vec<u8>)
        requires
            raw_data.len() >= NICKNAME_LEN,
        ensures
            out@ == strip_padding(raw_data@.subrange(0, NICKNAME_LEN as int)),
    {
        let mut end: usize = NICKNAME_LEN;
        while end > 0 && raw_data[end - 1] == 0
            invariant
                end <= NICKNAME_LEN <= raw_data.len(),
                strip_padding(raw_data@.subrange(0, NICKNAME_LEN as int)) == strip_padding(
                    raw_data@.subrange(0, end as int),
                ),
            decreases end,
        {
            assert(raw_data@.subrange(0, end as int).drop_last() == raw_data@.subrange(
                0,
                end - 1,
            ));
            end -= 1;
        }
        let mut out: Vec<u8> = Vec::new();
        let mut i: usize = 0;
        while i < end
            invariant
                i <= end <= raw_data.len(),
                out@ == raw_data@.subrange(0, i as int),
            decreases end - i,
        {
            out.push(raw_data[i]);
            i += 1;
        }
        out
    }

    /// Reads the IPv4 socket address whose six bytes start at `at`.
    fn unpack_address(raw_data: &Vec<u8>, at: usize) -> (addr: SocketAddress)
        requires
            at + ADDRESS_LEN <= raw_data.len(),
        ensures
            addr == address_at(raw_data@, at as int),
    {
        let high: u16 = raw_data[at + 4] as u16;
        let low: u16 = raw_data[at + 5] as u16;
        SocketAddress::V4 {
            a: raw_data[at],
            b: raw_data[at + 1],
            c: raw_data[at + 2],
            d: raw_data[at + 3],
            port: high * 256 + low,
        }
    }

    /// Decodes a descriptor from its fixed-width form.
    ///
    /// Fails with `FormatError` when the buffer does not have the width of a
    /// descriptor or when its nickname field, without the zero padding at its
    /// end, is not UTF-8. The flag byte counts as set when it is not zero.
    pub fn unpack(raw_data: Vec<u8>) -> (r: Result<Peer, Error>)
        ensures
            match r {
                Ok(peer) => spec_unpack(raw_data@) == Ok::<PeerView, Error>(peer@),
                Err(e) => spec_unpack(raw_data@) == Err::<PeerView, Error>(e),
            },
    {
        if raw_data.len() != PEER_LEN {
            return Err(Error::FormatError);
        }
        let nickname = match string_from_utf8(Self::nickname_bytes(&raw_data)) {
            Some(s) => s,
            None => {
                return Err(Error::FormatError);
            },
        };
        proof {
            encode_utf8_decode_utf8(nickname@);
            lemma_strip_padding_len(raw_data@.subrange(0, NICKNAME_LEN as int));
        }
        let address = Self::unpack_address(&raw_data, NICKNAME_LEN);
        let offset: usize = NICKNAME_LEN + ADDRESS_LEN;
        let turn_use: bool = raw_data[offset] != 0;
        let turn_server = Self::unpack_address(&raw_data, offset + 1);
        Ok(Peer { nickname, address, turn_use, turn_server })
    }

    /// Replaces the nickname, unless its UTF-8 form is longer than
    /// `NICKNAME_LEN` bytes: then the call fails with `ValidationError` and the
    /// descriptor stays as it was.
    pub fn set_nickname(&mut self, nickname: String) -> (r: Result<(), Error>)
        ensures
            nickname_fits(nickname@) ==> r is Ok && final(self)@ == (PeerView {
                nickname: nickname@,
                ..old(self)@
            }),
            !nickname_fits(nickname@) ==> r == Err::<(), Error>(Error::ValidationError)
                && final(self)@ == old(self)@,
    {
        proof {
            use_type_invariant(&*self);
        }
        if nickname.as_str().as_bytes().len() > NICKNAME_LEN {
            return Err(Error::ValidationError);
        }
        self.nickname = nickname;
        Ok(())
    }

    /// The nickname.
    pub fn get_nickname(&self) -> (nickname: &String)
        ensures
            nickname@ == self@.nickname,
            nickname_fits(nickname@),
    {
        proof {
            use_type_invariant(self);
        }
        &self.nickname
    }

    /// Replaces the address at which the peer can be reached.
    pub fn set_address(&mut self, addr: SocketAddress)
        ensures
            final(self)@ == (PeerView { address: addr, ..old(self)@ }),
    {
        proof {
            use_type_invariant(&*self);
        }
        self.address = addr;
    }

    /// The address at which the peer can be reached.
    pub fn get_address(&self) -> (addr: SocketAddress)
        ensures
            addr == self@.address,
    {
        self.address
    }

    /// Names the relay server and marks the relay as in use.
    pub fn set_turn_server(&mut self, addr: SocketAddress)
        ensures
            final(self)@ == (PeerView { turn_use: true, turn_server: addr, ..old(self)@ }),
    {
        proof {
            use_type_invariant(&*self);
        }
        self.turn_use = true;
        self.turn_server = addr;
    }

    /// Marks the relay as not in use. The relay address is kept.
    pub fn disable_turn_server(&mut self)
        ensures
            final(self)@ == (PeerView { turn_use: false, ..old(self)@ }),
    {
        proof {
            use_type_invariant(&*self);
        }
        self.turn_use = false;
    }

    /// The relay server that was last named.
    pub fn get_turn_server(&self) -> (addr: SocketAddress)
        ensures
            addr == self@.turn_server,
    {
        self.turn_server
    }

    /// Whether the relay is in use.
    pub fn using_turn(&self) -> (in_use: bool)
        ensures
            in_use == self@.turn_use,
    {
        self.turn_use
    }
}

/// Dropping the padding never makes a sequence longer.
proof fn lemma_strip_padding_len(bytes: Seq<u8>)
    ensures
        strip_padding(bytes).len() <= bytes.len(),
    decreases bytes.len(),
{
    if bytes.len() > 0 && bytes.last() == 0 {
        lemma_strip_padding_len(bytes.drop_last());
    }
}


/// The descriptor that survives a round trip through the encoded form: the
/// relay address of a descriptor whose relay is not in use is not written, so
/// it comes back as `0.0.0.0:0`.
pub open spec fn as_encoded(peer: PeerView) -> PeerView {
    if peer.turn_use {
        peer
    } else {
        PeerView { turn_server: SocketAddress::unspecified(), ..peer }
    }
}

/// Whether a descriptor can be encoded and read back: its nickname fits the
/// nickname field and holds no NUL character, and both addresses are IPv4.
pub open spec fn encodable(peer: PeerView) -> bool {
    &&& nickname_fits(peer.nickname)
    &&& !peer.nickname.contains('\0')
    &&& peer.address is V4
    &&& peer.turn_server is V4
}

/// No byte of the UTF-8 form of a scalar other than zero is zero.
proof fn lemma_scalar_bytes_nonzero(s: u32)
    requires
        is_scalar(s),
        s != 0,
    ensures
        forall|i: int| 0 <= i < encode_scalar(s).len() ==> encode_scalar(s)[i] != 0,
{
    assert(0 < s <= 0x7f ==> (s & 0x7f) as u8 != 0) by (bit_vector);
    assert((0xC0u8 | ((s >> 6) & 0x1F) as u8) != 0) by (bit_vector);
    assert((0xE0u8 | ((s >> 12) & 0x0F) as u8) != 0) by (bit_vector);
    assert((0xF0u8 | ((s >> 18) & 0x7) as u8) != 0) by (bit_vector);
    assert((0x80u8 | (s & 0x3F) as u8) != 0) by (bit_vector);
    assert((0x80u8 | ((s >> 6) & 0x3F) as u8) != 0) by (bit_vector);
    assert((0x80u8 | ((s >> 12) & 0x3F) as u8) != 0) by (bit_vector);
}

/// The UTF-8 form of text without a NUL character holds no zero byte.
proof fn lemma_text_bytes_nonzero(text: Seq<char>)
    requires
        !text.contains('\0'),
    ensures
        forall|i: int| 0 <= i < encode_utf8(text).len() ==> encode_utf8(text)[i] != 0,
    decreases text.len(),
{
    if text.len() > 0 {
        let first = text[0];
        let rest = text.drop_first();
        assert forall|c: char| rest.contains(c) implies text.contains(c) by {
            let j = choose|j: int| 0 <= j < rest.len() && rest[j] == c;
            assert(text[j + 1] == c);
        }
        if first as u32 == 0 {
            char_u32_cast(first, 0u32);
            char_u32_cast('\0', 0u32);
        }
        char_is_scalar(first);
        lemma_scalar_bytes_nonzero(first as u32);
        lemma_text_bytes_nonzero(rest);
        let head = encode_scalar(first as u32);
        assert forall|i: int| 0 <= i < encode_utf8(text).len() implies encode_utf8(text)[i]
            != 0 by {
            if i >= head.len() {
                assert(encode_utf8(text)[i] == encode_utf8(rest)[i - head.len()]);
            }
        }
    }
}

/// Zero padding behind bytes that do not end in zero is exactly what
/// `strip_padding` drops.
proof fn lemma_strip_padding_of_padded(text: Seq<u8>, count: nat)
    requires
        text.len() > 0 ==> text.last() != 0,
    ensures
        strip_padding(text + zeros(count)) == text,
    decreases count,
{
    if count > 0 {
        assert((text + zeros(count)).drop_last() =~= text + zeros((count - 1) as nat));
        lemma_strip_padding_of_padded(text, (count - 1) as nat);
    }
}

/// Reading six bytes that `address_field` wrote gives the address back.
proof fn lemma_address_round_trip(bytes: Seq<u8>, at: int, addr: SocketAddress)
    requires
        addr is V4,
        0 <= at,
        at + ADDRESS_LEN <= bytes.len(),
        bytes.subrange(at, at + ADDRESS_LEN) == address_field(addr),
    ensures
        address_at(bytes, at) == addr,
{
    let field = bytes.subrange(at, at + ADDRESS_LEN);
    assert(forall|k: int| 0 <= k < ADDRESS_LEN ==> bytes[at + k] == field[k]);
}

/// Encoding never fails on IPv4 addresses and always yields `PEER_LEN` bytes;
/// it fails with `UnsupportedAddressFamily` as soon as one address is IPv6.
pub proof fn lemma_pack_outcome(peer: PeerView)
    requires
        nickname_fits(peer.nickname),
    ensures
        (peer.address is V4 && peer.turn_server is V4) ==> spec_pack(peer) is Ok && spec_pack(
            peer,
        )->Ok_0.len() == PEER_LEN,
        (peer.address is V6 || peer.turn_server is V6) ==> spec_pack(peer) == Err::<
            Seq<u8>,
            Error,
        >(Error::UnsupportedAddressFamily),
{
}

/// Decoding what encoding produced gives the descriptor back.
///
/// This holds of every encodable descriptor whose relay is in use or whose
/// relay address is `0.0.0.0:0`. Of any other encodable descriptor the relay
/// address, which is not written, comes back as `0.0.0.0:0` and all else comes
/// back unchanged.
pub proof fn lemma_unpack_pack(peer: PeerView)
    requires
        encodable(peer),
    ensures
        spec_pack(peer) is Ok,
        spec_unpack(spec_pack(peer)->Ok_0) == Ok::<PeerView, Error>(as_encoded(peer)),
        (peer.turn_use || peer.turn_server == SocketAddress::unspecified()) ==> spec_unpack(
            spec_pack(peer)->Ok_0,
        ) == Ok::<PeerView, Error>(peer),
{
    let text = encode_utf8(peer.nickname);
    let field = nickname_field(peer.nickname);
    let flag = if peer.turn_use {
        1u8
    } else {
        0u8
    };
    let tail = if peer.turn_use {
        address_field(peer.turn_server)
    } else {
        zeros(ADDRESS_LEN as nat)
    };
    let bytes = field + address_field(peer.address) + seq![flag] + tail;

    assert(bytes.subrange(0, NICKNAME_LEN as int) =~= field);
    lemma_text_bytes_nonzero(peer.nickname);
    lemma_strip_padding_of_padded(text, (NICKNAME_LEN - text.len()) as nat);
    encode_utf8_valid_utf8(peer.nickname);
    encode_utf8_decode_utf8(peer.nickname);

    assert(bytes.subrange(NICKNAME_LEN as int, NICKNAME_LEN + ADDRESS_LEN) =~= address_field(
        peer.address,
    ));
    lemma_address_round_trip(bytes, NICKNAME_LEN as int, peer.address);
    let relay_at: int = NICKNAME_LEN + ADDRESS_LEN + 1;
    assert(bytes.subrange(relay_at, relay_at + ADDRESS_LEN) =~= tail);
    if peer.turn_use {
        lemma_address_round_trip(bytes, relay_at, peer.turn_server);
    }
}

} // verus!
