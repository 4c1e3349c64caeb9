use hk_core::address::SocketAddress;
use hk_core::error::Error;
use hk_core::peer::{Peer, ADDRESS_LEN, NICKNAME_LEN, PEER_LEN};

fn sample_peer() -> Peer {
    let mut peer = Peer::new();
    peer.set_nickname("username".to_string()).unwrap();
    peer.set_address(SocketAddress::v4(95, 27, 168, 74, 33124));
    peer.set_turn_server(SocketAddress::v4(102, 77, 198, 34, 34123));
    peer
}

#[test]
fn round_trip_gives_an_identical_descriptor() {
    let peer = sample_peer();
    let back = Peer::unpack(peer.pack().unwrap()).unwrap();
    assert_eq!(back.get_nickname(), "username");
    assert_eq!(back.get_address(), SocketAddress::v4(95, 27, 168, 74, 33124));
    assert!(back.using_turn());
    assert_eq!(back.get_turn_server(), SocketAddress::v4(102, 77, 198, 34, 34123));
    // Encoding what came back gives the same bytes again.
    assert_eq!(back.pack(), peer.pack());
}

fn ipv6(port: u16) -> SocketAddress {
    SocketAddress::V6 { ip: 1, port, flowinfo: 0, scope_id: 0 }
}

/// Reads an IPv4 socket address written as `a.b.c.d:port`.
fn socket_address(text: &str) -> SocketAddress {
    let (ip, port) = text.split_once(':').unwrap();
    let octets: Vec<u8> = ip.split('.').map(|part| part.parse().unwrap()).collect();
    assert_eq!(octets.len(), 4);
    SocketAddress::v4(octets[0], octets[1], octets[2], octets[3], port.parse().unwrap())
}

#[test]
fn pack_peer_test() {
    let mut peer = Peer::new();
    peer.set_nickname("username".to_string()).unwrap();
    peer.set_address(socket_address("95.27.168.74:33124"));
    peer.set_turn_server(socket_address("102.77.198.34:34123"));

    let packed_peer = peer.pack().unwrap();
    let peer_from_bytes = Peer::unpack(packed_peer).unwrap();

    assert_eq!(peer_from_bytes.get_nickname(), peer.get_nickname());
    assert_eq!(peer_from_bytes.get_address(), peer.get_address());
    assert_eq!(peer_from_bytes.using_turn(), peer.using_turn());
    assert_eq!(peer_from_bytes.get_turn_server(), peer.get_turn_server());
}

#[test]
fn widths_of_the_encoded_form() {
    assert_eq!(NICKNAME_LEN, 200);
    assert_eq!(ADDRESS_LEN, 6);
    assert_eq!(PEER_LEN, 213);
}

#[test]
fn new_peer_is_empty() {
    let peer = Peer::new();
    assert_eq!(peer.get_nickname(), "");
    assert_eq!(peer.get_address(), SocketAddress::v4(0, 0, 0, 0, 0));
    assert_eq!(peer.get_address(), SocketAddress::unspecified());
    assert!(!peer.using_turn());
    assert_eq!(peer.get_turn_server(), SocketAddress::unspecified());
}

#[test]
fn pack_lays_out_every_field() {
    let packed = sample_peer().pack().unwrap();
    assert_eq!(packed.len(), 213);
    assert_eq!(&packed[0..8], b"username");
    assert!(packed[8..200].iter().all(|b| *b == 0));
    // 33124 = 0x8164, 34123 = 0x854B
    assert_eq!(&packed[200..206], &[95, 27, 168, 74, 0x81, 0x64]);
    assert_eq!(packed[206], 1);
    assert_eq!(&packed[207..213], &[102, 77, 198, 34, 0x85, 0x4B]);
}

#[test]
fn pack_of_new_peer_is_all_zero() {
    let packed = Peer::new().pack().unwrap();
    assert_eq!(packed, vec![0u8; 213]);
}

#[test]
fn pack_writes_zeros_for_unused_relay() {
    let mut peer = sample_peer();
    peer.disable_turn_server();
    assert!(!peer.using_turn());
    assert_eq!(peer.get_turn_server(), SocketAddress::v4(102, 77, 198, 34, 34123));
    let packed = peer.pack().unwrap();
    assert_eq!(&packed[206..213], &[0u8; 7]);
    let back = Peer::unpack(packed).unwrap();
    assert!(!back.using_turn());
    assert_eq!(back.get_turn_server(), SocketAddress::unspecified());
    assert_eq!(back.get_address(), peer.get_address());
    assert_eq!(back.get_nickname(), peer.get_nickname());
}

#[test]
fn pack_refuses_ipv6_address() {
    let mut peer = sample_peer();
    peer.set_address(ipv6(4000));
    assert_eq!(peer.pack(), Err(Error::UnsupportedAddressFamily));
}

#[test]
fn pack_refuses_ipv6_relay() {
    let mut peer = sample_peer();
    peer.set_turn_server(ipv6(3478));
    assert_eq!(peer.pack(), Err(Error::UnsupportedAddressFamily));
}

#[test]
fn pack_refuses_ipv6_relay_even_when_unused() {
    let mut peer = sample_peer();
    peer.set_turn_server(ipv6(3478));
    peer.disable_turn_server();
    assert_eq!(peer.pack(), Err(Error::UnsupportedAddressFamily));
}

#[test]
fn set_nickname_accepts_exactly_200_bytes() {
    let nickname = "n".repeat(200);
    let mut peer = sample_peer();
    assert_eq!(peer.set_nickname(nickname.clone()), Ok(()));
    assert_eq!(peer.get_nickname(), &nickname);
    let packed = peer.pack().unwrap();
    assert_eq!(packed.len(), 213);
    assert_eq!(&packed[0..200], nickname.as_bytes());
    let back = Peer::unpack(packed).unwrap();
    assert_eq!(back.get_nickname(), &nickname);
    assert_eq!(back.get_address(), peer.get_address());
    assert_eq!(back.using_turn(), peer.using_turn());
    assert_eq!(back.get_turn_server(), peer.get_turn_server());
}

#[test]
fn set_nickname_rejects_201_bytes() {
    let mut peer = sample_peer();
    assert_eq!(peer.set_nickname("n".repeat(201)), Err(Error::ValidationError));
    assert_eq!(peer.get_nickname(), "username");
}

#[test]
fn set_nickname_counts_bytes_not_characters() {
    // 100 characters of two bytes each fit; one more byte does not.
    let mut peer = Peer::new();
    assert_eq!(peer.set_nickname("é".repeat(100)), Ok(()));
    let mut too_long = "é".repeat(100);
    too_long.push('x');
    assert_eq!(peer.set_nickname(too_long), Err(Error::ValidationError));
    assert_eq!(peer.get_nickname(), &"é".repeat(100));
}

#[test]
fn round_trip_of_multibyte_nickname() {
    let mut peer = sample_peer();
    peer.set_nickname("žluťoučký kůň 🐎".to_string()).unwrap();
    let back = Peer::unpack(peer.pack().unwrap()).unwrap();
    assert_eq!(back.get_nickname(), "žluťoučký kůň 🐎");
}

#[test]
fn unpack_rejects_wrong_length() {
    assert_eq!(Peer::unpack(vec![0u8; 212]).err(), Some(Error::FormatError));
    assert_eq!(Peer::unpack(vec![0u8; 214]).err(), Some(Error::FormatError));
    assert_eq!(Peer::unpack(Vec::new()).err(), Some(Error::FormatError));
}

#[test]
fn unpack_rejects_invalid_text() {
    let mut raw = vec![0u8; 213];
    raw[0] = 0xFF;
    assert_eq!(Peer::unpack(raw).err(), Some(Error::FormatError));
    // A sequence of two bytes cut short by the padding.
    let mut raw = vec![0u8; 213];
    raw[0] = b'a';
    raw[1] = 0xC3;
    assert_eq!(Peer::unpack(raw).err(), Some(Error::FormatError));
}

#[test]
fn unpack_reads_every_field() {
    let mut raw = vec![0u8; 213];
    raw[0..3].copy_from_slice(b"bob");
    raw[200..206].copy_from_slice(&[10, 0, 0, 1, 0x0F, 0xA0]);
    raw[206] = 1;
    raw[207..213].copy_from_slice(&[192, 168, 1, 2, 0xFF, 0xFF]);
    let peer = Peer::unpack(raw).unwrap();
    assert_eq!(peer.get_nickname(), "bob");
    assert_eq!(peer.get_address(), SocketAddress::v4(10, 0, 0, 1, 4000));
    assert!(peer.using_turn());
    assert_eq!(peer.get_turn_server(), SocketAddress::v4(192, 168, 1, 2, 65535));
}

#[test]
fn unpack_takes_any_nonzero_flag_as_set() {
    let mut raw = vec![0u8; 213];
    raw[206] = 0x80;
    assert!(Peer::unpack(raw).unwrap().using_turn());
    let raw = vec![0u8; 213];
    assert!(!Peer::unpack(raw).unwrap().using_turn());
}

#[test]
fn unpack_strips_only_the_padding_at_the_end() {
    let mut raw = vec![0u8; 213];
    raw[0] = b'a';
    raw[2] = b'b';
    let peer = Peer::unpack(raw).unwrap();
    assert_eq!(peer.get_nickname(), "a\0b");
}

#[test]
fn unpack_keeps_relay_address_of_unused_relay() {
    let mut raw = vec![0u8; 213];
    raw[207..213].copy_from_slice(&[1, 2, 3, 4, 0, 5]);
    let peer = Peer::unpack(raw).unwrap();
    assert!(!peer.using_turn());
    assert_eq!(peer.get_turn_server(), SocketAddress::v4(1, 2, 3, 4, 5));
}

#[test]
fn setters_change_one_field() {
    let mut peer = sample_peer();
    peer.set_address(SocketAddress::v4(1, 1, 1, 1, 53));
    assert_eq!(peer.get_address(), SocketAddress::v4(1, 1, 1, 1, 53));
    assert_eq!(peer.get_nickname(), "username");
    assert!(peer.using_turn());
    assert_eq!(peer.get_turn_server(), SocketAddress::v4(102, 77, 198, 34, 34123));
    let copy = peer.clone();
    assert_eq!(copy.get_address(), peer.get_address());
    assert_eq!(copy.get_nickname(), peer.get_nickname());
}

#[test]
fn address_accessors() {
    let v4 = SocketAddress::v4(127, 0, 0, 1, 8080);
    assert!(v4.is_ipv4());
    assert_eq!(v4, SocketAddress::V4 { a: 127, b: 0, c: 0, d: 1, port: 8080 });
    let v6 = ipv6(9);
    assert!(!v6.is_ipv4());
    assert_ne!(v4, v6);
    assert_ne!(v4, SocketAddress::v4(127, 0, 0, 1, 8081));
}

#[test]
fn error_messages_differ() {
    let all = [
        Error::NetworkError,
        Error::ProtocolError,
        Error::FormatError,
        Error::ValidationError,
        Error::UnsupportedAddressFamily,
    ];
    for (i, a) in all.iter().enumerate() {
        assert!(!a.message().is_empty());
        for b in all.iter().skip(i + 1) {
            assert_ne!(a.message(), b.message());
        }
    }
    assert_eq!(Error::ValidationError.message(), "nickname is too long");
}

/// A small deterministic generator, so that the test is the same on every run.
struct Numbers(u64);

impl Numbers {
    fn next(&mut self) -> u64 {
        self.0 = self.0.wrapping_mul(6364136223846793005).wrapping_add(1442695040888963407);
        self.0 >> 33
    }
}

#[test]
fn round_trip_of_many_descriptors() {
    let mut numbers = Numbers(2024);
    let letters = ['a', 'Z', '7', ' ', 'é', 'ß', '中', '🙂'];
    for _ in 0..500 {
        let mut nickname = String::new();
        let wanted = (numbers.next() % 201) as usize;
        loop {
            let letter = letters[(numbers.next() % letters.len() as u64) as usize];
            if nickname.len() + letter.len_utf8() > wanted {
                break;
            }
            nickname.push(letter);
        }
        let word = numbers.next();
        let address = SocketAddress::v4(
            (word >> 24) as u8,
            (word >> 16) as u8,
            (word >> 8) as u8,
            word as u8,
            numbers.next() as u16,
        );
        let word = numbers.next();
        let relay = SocketAddress::v4(
            (word >> 24) as u8,
            (word >> 16) as u8,
            (word >> 8) as u8,
            word as u8,
            numbers.next() as u16,
        );
        let mut peer = Peer::new();
        assert_eq!(peer.set_nickname(nickname.clone()), Ok(()));
        peer.set_address(address);
        if numbers.next() % 2 == 0 {
            peer.set_turn_server(relay);
        }
        let packed = peer.pack().unwrap();
        assert_eq!(packed.len(), 213);
        let back = Peer::unpack(packed).unwrap();
        assert_eq!(back.get_nickname(), &nickname);
        assert_eq!(back.get_address(), address);
        assert_eq!(back.using_turn(), peer.using_turn());
        assert_eq!(back.get_turn_server(), peer.get_turn_server());
    }
}
