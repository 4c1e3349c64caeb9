use hk_core::address::SocketAddress;
use hk_core::clock::get_time_now;
use hk_core::registry::{stale_at, Registry, SWEEP_INTERVAL_NANOS};
use hk_core::server::{Outcome, Server};
use hk_core::wire::{frame_records, parse_register, BUFFER_SIZE, MAX_BLOB_LEN};

const TERMINATOR: [u8; 4] = [0xFF, 0xFF, 0xFF, 0xFF];

fn listen() -> SocketAddress {
    SocketAddress::v4(0, 0, 0, 0, 5000)
}

fn client_a() -> SocketAddress {
    SocketAddress::v4(10, 0, 0, 1, 4000)
}

fn client_b() -> SocketAddress {
    SocketAddress::v4(10, 0, 0, 2, 5000)
}

fn register_datagram(blob: &[u8]) -> [u8; BUFFER_SIZE] {
    let mut buf = [0u8; BUFFER_SIZE];
    buf[0] = 0x01;
    buf[1] = (blob.len() >> 8) as u8;
    buf[2] = (blob.len() & 0xFF) as u8;
    buf[3..3 + blob.len()].copy_from_slice(blob);
    buf
}

fn query_datagram() -> [u8; BUFFER_SIZE] {
    let mut buf = [0u8; BUFFER_SIZE];
    buf[0] = 0x02;
    buf
}

fn served(outcome: Outcome) -> Vec<Vec<u8>> {
    match outcome {
        Outcome::Served(datagrams) => datagrams,
        other => panic!("not served: {:?}", other),
    }
}

#[test]
fn register_then_query_returns_the_blob() {
    let mut server = Server::new(listen());
    let outcome = server.handle_datagram(&register_datagram(&[0xAA, 0xBB, 0xCC]), client_a(), 1);
    assert!(matches!(outcome, Outcome::Registered));
    assert_eq!(server.online(), 1);
    let response = served(server.handle_datagram(&query_datagram(), client_b(), 2));
    assert_eq!(response, vec![vec![0x00, 0x03, 0xAA, 0xBB, 0xCC], TERMINATOR.to_vec()]);
}

#[test]
fn second_register_from_same_source_overwrites() {
    let mut server = Server::new(listen());
    let x = [1u8, 2, 3, 4];
    let y = [9u8, 8];
    assert!(server.process_add(&register_datagram(&x), client_a(), 10));
    assert!(server.process_add(&register_datagram(&y), client_a(), 20));
    assert_eq!(server.online(), 1);
    assert_eq!(server.process_get(), vec![vec![0x00, 0x02, 9, 8], TERMINATOR.to_vec()]);
}

#[test]
fn query_of_empty_registry_is_the_terminator_alone() {
    let mut server = Server::new(listen());
    assert_eq!(server.online(), 0);
    let response = served(server.handle_datagram(&query_datagram(), client_b(), 0));
    assert_eq!(response, vec![TERMINATOR.to_vec()]);
    assert_eq!(server.process_get(), vec![vec![0xFFu8, 0xFF, 0xFF, 0xFF]]);
}

#[test]
fn stale_entry_is_evicted_by_the_sweep() {
    let registered_at: u128 = 1_000_000_000_000;
    let mut server = Server::new(listen());
    assert!(server.process_add(&register_datagram(&[7, 7, 7]), client_a(), registered_at));

    // Exactly one interval later the entry is not stale yet.
    let removed = server.sweep(registered_at + SWEEP_INTERVAL_NANOS);
    assert!(removed.is_empty());
    assert_eq!(server.online(), 1);

    // One nanosecond more and it is.
    let removed = server.sweep(registered_at + SWEEP_INTERVAL_NANOS + 1);
    assert_eq!(removed, vec![client_a()]);
    assert_eq!(server.online(), 0);
    let response = served(server.handle_datagram(&query_datagram(), client_b(), 0));
    assert_eq!(response, vec![TERMINATOR.to_vec()]);
}

#[test]
fn sweep_interval_is_thirty_seconds() {
    assert_eq!(SWEEP_INTERVAL_NANOS, 30_000_000_000);
    assert!(!stale_at(0, 30_000_000_000));
    assert!(stale_at(0, 30_000_000_001));
    // A clock that went back makes nothing stale.
    assert!(!stale_at(50_000_000_000, 10));
}

#[test]
fn sweep_keeps_refreshed_entries_in_order() {
    let mut registry = Registry::new();
    let c = SocketAddress::v4(10, 0, 0, 3, 1);
    assert!(registry.register(client_a(), vec![1], 0));
    assert!(registry.register(client_b(), vec![2], 0));
    assert!(registry.register(c, vec![3], 0));
    // b refreshes late.
    assert!(registry.register(client_b(), vec![22], 20_000_000_000));
    assert_eq!(registry.len(), 3);
    assert_eq!(registry.payloads(), vec![vec![1], vec![22], vec![3]]);
    let removed = registry.evict_stale(31_000_000_000);
    assert_eq!(removed, vec![client_a(), c]);
    assert_eq!(registry.payloads(), vec![vec![22]]);
    assert_eq!(registry.len(), 1);
}

#[test]
fn registry_refuses_blobs_out_of_range() {
    let mut registry = Registry::new();
    assert!(!registry.register(client_a(), Vec::new(), 0));
    assert!(!registry.register(client_a(), vec![0u8; MAX_BLOB_LEN + 1], 0));
    assert_eq!(registry.len(), 0);
    assert!(registry.register(client_a(), vec![0u8; MAX_BLOB_LEN], 0));
    assert_eq!(registry.len(), 1);
}

#[test]
fn distinct_sources_are_distinct_entries() {
    let mut server = Server::new(listen());
    assert!(server.process_add(&register_datagram(&[1]), client_a(), 0));
    assert!(server.process_add(&register_datagram(&[2]), client_b(), 0));
    // The same address with another port is another source.
    assert!(server.process_add(&register_datagram(&[3]), SocketAddress::v4(10, 0, 0, 1, 4001), 0));
    assert_eq!(server.online(), 3);
    let response = server.process_get();
    assert_eq!(response, vec![vec![0, 1, 1, 0, 1, 2, 0, 1, 3], TERMINATOR.to_vec()]);
}

#[test]
fn register_with_zero_length_is_dropped() {
    let mut server = Server::new(listen());
    let mut buf = [0u8; BUFFER_SIZE];
    buf[0] = 0x01;
    buf[3] = 0xAA;
    assert!(matches!(server.handle_datagram(&buf, client_a(), 0), Outcome::Ignored));
    assert_eq!(server.online(), 0);
    assert_eq!(parse_register(&buf), None);
}

#[test]
fn register_length_limits() {
    assert_eq!(MAX_BLOB_LEN, 2045);
    // The longest blob fills the buffer to its end.
    let mut buf = [0x55u8; BUFFER_SIZE];
    buf[0] = 0x01;
    buf[1] = (2045u16 >> 8) as u8;
    buf[2] = (2045u16 & 0xFF) as u8;
    assert_eq!(parse_register(&buf), Some(vec![0x55u8; 2045]));
    // One more byte would not fit.
    buf[1] = (2046u16 >> 8) as u8;
    buf[2] = (2046u16 & 0xFF) as u8;
    assert_eq!(parse_register(&buf), None);
    buf[1] = 0xFF;
    buf[2] = 0xFF;
    assert_eq!(parse_register(&buf), None);
    let mut server = Server::new(listen());
    assert!(!server.process_add(&buf, client_a(), 0));
    assert_eq!(server.online(), 0);
}

#[test]
fn register_reads_the_length_high_byte_first() {
    let blob: Vec<u8> = (0..300u32).map(|i| (i % 251) as u8).collect();
    let buf = register_datagram(&blob);
    assert_eq!(buf[1], 1);
    assert_eq!(buf[2], 44);
    assert_eq!(parse_register(&buf), Some(blob));
}

#[test]
fn unknown_opcode_is_ignored() {
    let mut server = Server::new(listen());
    assert!(server.process_add(&register_datagram(&[1]), client_a(), 0));
    for opcode in [0x00u8, 0x03, 0x7F, 0xFF] {
        let mut buf = register_datagram(&[5, 5]);
        buf[0] = opcode;
        assert!(matches!(server.handle_datagram(&buf, client_b(), 0), Outcome::Ignored));
    }
    assert_eq!(server.online(), 1);
    assert_eq!(server.process_get(), vec![vec![0, 1, 1], TERMINATOR.to_vec()]);
}

#[test]
fn records_that_do_not_fit_open_a_new_datagram() {
    // Three records of 1002 bytes: two fill 2004 bytes, the third would
    // exceed 2048 and opens the next datagram.
    let blobs = vec![vec![1u8; 1000], vec![2u8; 1000], vec![3u8; 1000]];
    let datagrams = frame_records(&blobs);
    assert_eq!(datagrams.len(), 3);
    let mut first = vec![0x03, 0xE8];
    first.extend_from_slice(&[1u8; 1000]);
    first.extend_from_slice(&[0x03, 0xE8]);
    first.extend_from_slice(&[2u8; 1000]);
    assert_eq!(datagrams[0], first);
    let mut second = vec![0x03, 0xE8];
    second.extend_from_slice(&[3u8; 1000]);
    assert_eq!(datagrams[1], second);
    assert_eq!(datagrams[2], TERMINATOR.to_vec());
}

#[test]
fn records_fill_a_datagram_to_the_last_byte() {
    // 1022 + 2 and 1022 + 2 are exactly 2048 bytes.
    let blobs = vec![vec![1u8; 1022], vec![2u8; 1022], vec![3u8; 1]];
    let datagrams = frame_records(&blobs);
    assert_eq!(datagrams.len(), 3);
    assert_eq!(datagrams[0].len(), 2048);
    assert_eq!(datagrams[1], vec![0, 1, 3]);
    assert_eq!(datagrams[2], TERMINATOR.to_vec());
}

#[test]
fn longest_blobs_travel_one_to_a_datagram() {
    let mut server = Server::new(listen());
    let blob = vec![0xABu8; MAX_BLOB_LEN];
    assert!(server.process_add(&register_datagram(&blob), client_a(), 0));
    assert!(server.process_add(&register_datagram(&blob), client_b(), 0));
    let datagrams = server.process_get();
    assert_eq!(datagrams.len(), 3);
    for datagram in &datagrams[0..2] {
        assert_eq!(datagram.len(), 2047);
        assert_eq!(&datagram[0..2], &[0x07, 0xFD]);
        assert_eq!(&datagram[2..], blob.as_slice());
    }
    assert_eq!(datagrams[2], TERMINATOR.to_vec());
}

#[test]
fn frame_of_nothing_is_the_terminator() {
    assert_eq!(frame_records(&Vec::new()), vec![TERMINATOR.to_vec()]);
}

#[test]
fn server_keeps_its_listen_address() {
    let mut server = Server::new(listen());
    assert_eq!(server.address(), listen());
    server.process_add(&register_datagram(&[1]), client_a(), 0);
    server.sweep(u128::MAX);
    assert_eq!(server.address(), SocketAddress::v4(0, 0, 0, 0, 5000));
    assert_eq!(server.online(), 0);
}

#[test]
fn clock_reads_a_time_after_2020() {
    let now = get_time_now().expect("the system clock is set before 1970");
    assert!(now > 1_577_836_800_000_000_000);
}

#[test]
fn receive_registers_with_the_clock_and_tick_keeps_fresh_entries() {
    let mut server = Server::new(listen());
    let outcome = server.receive(&register_datagram(&[4, 2]), client_a());
    assert!(matches!(outcome, Outcome::Registered));
    assert_eq!(server.online(), 1);
    // The entry was registered just now, so the sweep leaves it.
    assert_eq!(server.tick(), Some(Vec::new()));
    assert_eq!(server.online(), 1);
    let response = served(server.receive(&query_datagram(), client_b()));
    assert_eq!(response, vec![vec![0, 2, 4, 2], TERMINATOR.to_vec()]);
    let mut other = query_datagram();
    other[0] = 0x09;
    assert!(matches!(server.receive(&other, client_b()), Outcome::Ignored));
}

#[test]
fn framing_keeps_every_record_in_order() {
    let mut seed: u64 = 7;
    let mut next = move || {
        seed = seed.wrapping_mul(6364136223846793005).wrapping_add(1442695040888963407);
        seed >> 33
    };
    for _ in 0..50 {
        let count = (next() % 40) as usize;
        let mut blobs: Vec<Vec<u8>> = Vec::new();
        for _ in 0..count {
            let len = 1 + (next() % MAX_BLOB_LEN as u64) as usize;
            let fill = next() as u8;
            blobs.push(vec![fill; len]);
        }
        let datagrams = frame_records(&blobs);

        // The terminator comes last and only there.
        let (last, data) = datagrams.split_last().unwrap();
        assert_eq!(last, &TERMINATOR.to_vec());
        let mut expected: Vec<u8> = Vec::new();
        for blob in &blobs {
            expected.push((blob.len() >> 8) as u8);
            expected.push((blob.len() & 0xFF) as u8);
            expected.extend_from_slice(blob);
        }
        let mut carried: Vec<u8> = Vec::new();
        for datagram in data {
            assert!(!datagram.is_empty());
            assert!(datagram.len() <= BUFFER_SIZE);
            assert_ne!(datagram, &TERMINATOR.to_vec());
            carried.extend_from_slice(datagram);
        }
        assert_eq!(carried, expected);

        // Every datagram holds whole records, and the first record of the
        // next datagram would not have fitted.
        for (k, datagram) in data.iter().enumerate() {
            let mut at = 0;
            while at < datagram.len() {
                let len = ((datagram[at] as usize) << 8) | datagram[at + 1] as usize;
                at += 2 + len;
            }
            assert_eq!(at, datagram.len());
            if let Some(following) = data.get(k + 1) {
                let len = ((following[0] as usize) << 8) | following[1] as usize;
                assert!(datagram.len() + 2 + len > BUFFER_SIZE);
            }
        }
    }
}
