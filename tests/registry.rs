use domain_registry::{
    create_record, decommission_lease, process, process_instruction, Account, Lease, Pubkey,
    Record, RegistryError, Zone, DISCRIMINATOR_DECOMMISSION_LEASE, DISCRIMINATOR_LEASE,
    DISCRIMINATOR_RECORD, DISCRIMINATOR_ZONE,
};

fn key(b: u8) -> Pubkey {
    Pubkey::new([b; 32])
}

fn program() -> Pubkey {
    key(9)
}

fn account(size: usize) -> Account {
    Account { owner: program(), data: vec![0u8; size] }
}

fn instruction(tag: u8, payload: &[u8]) -> Vec<u8> {
    let mut v = vec![tag];
    v.extend_from_slice(payload);
    v
}

fn sample_zone() -> Zone {
    Zone {
        owner: key(7),
        lamports_per_second: 10,
        min_lease_duration_secs: 60,
        domain: "example".to_string(),
        subdivided: false,
    }
}

fn sample_lease(expiration: i64) -> Lease {
    Lease {
        zone_account: key(1),
        owner: key(2),
        domain: "shop.example".to_string(),
        expiration,
        expired: false,
    }
}

fn sample_record(ttl: i64) -> Record {
    Record {
        host: "www".to_string(),
        ttl,
        record_type: "A".to_string(),
        value: "10.0.0.1".to_string(),
    }
}

fn stored_lease(acct: &Account) -> Lease {
    let (l, _) = Lease::decode_at(&acct.data, 1).expect("a lease is stored");
    l
}

#[test]
fn zone_scenario_stores_payload_under_tag() {
    let z = sample_zone();
    let payload = z.encode();
    let mut accounts = vec![account(100)];
    let r = process(&program(), &mut accounts, &instruction(DISCRIMINATOR_ZONE, &payload), None);
    assert_eq!(r, Ok(()));
    let data = &accounts[0].data;
    assert_eq!(data[0], 1);
    let (back, next) = Zone::decode_at(data, 1).unwrap();
    assert_eq!(back, z);
    assert_eq!(back.domain, "example");
    assert_eq!(back.lamports_per_second, 10);
    assert_eq!(back.min_lease_duration_secs, 60);
    assert!(!back.subdivided);
    assert_eq!(&data[1..next], &payload[..]);
    assert!(data[next..].iter().all(|b| *b == 0));
}

#[test]
fn lease_scenario_converts_duration_and_expires_later() {
    let payload = sample_lease(500).encode();
    let mut accounts = vec![account(120)];
    let r = process(
        &program(),
        &mut accounts,
        &instruction(DISCRIMINATOR_LEASE, &payload),
        Some(1000),
    );
    assert_eq!(r, Ok(()));
    assert_eq!(accounts[0].data[0], 2);
    let l = stored_lease(&accounts[0]);
    assert_eq!(l.expiration, 1500);
    assert!(!l.expired);

    let before = accounts[0].data.clone();
    let decommission = vec![DISCRIMINATOR_DECOMMISSION_LEASE];
    assert_eq!(process(&program(), &mut accounts, &decommission, Some(1400)), Ok(()));
    assert_eq!(accounts[0].data, before);

    assert_eq!(process(&program(), &mut accounts, &decommission, Some(1600)), Ok(()));
    let l = stored_lease(&accounts[0]);
    assert!(l.expired);
    assert_eq!(l.expiration, 1500);
    assert_eq!(accounts[0].data[0], 2);
}

#[test]
fn decommission_twice_keeps_expired() {
    let payload = sample_lease(0).encode();
    let mut accounts = vec![account(120)];
    let r = process(&program(), &mut accounts, &instruction(DISCRIMINATOR_LEASE, &payload), Some(5));
    assert_eq!(r, Ok(()));
    let decommission = vec![DISCRIMINATOR_DECOMMISSION_LEASE];
    assert_eq!(process(&program(), &mut accounts, &decommission, Some(5)), Ok(()));
    let once = accounts[0].data.clone();
    assert!(stored_lease(&accounts[0]).expired);
    assert_eq!(process(&program(), &mut accounts, &decommission, Some(9)), Ok(()));
    assert_eq!(accounts[0].data, once);
    assert_eq!(process(&program(), &mut accounts, &decommission, Some(1)), Ok(()));
    assert_eq!(accounts[0].data, once);
}

#[test]
fn decommission_before_deadline_leaves_bytes() {
    let mut data = vec![2u8];
    data.extend_from_slice(&sample_lease(100).encode());
    data.extend_from_slice(&[7, 7, 7]);
    let before = data.clone();
    assert_eq!(decommission_lease(&mut data, 99), Ok(()));
    assert_eq!(data, before);
    assert_eq!(decommission_lease(&mut data, 100), Ok(()));
    assert_ne!(data, before);
    assert_eq!(&data[data.len() - 3..], &[7, 7, 7]);
}

#[test]
fn record_ttl_is_forced() {
    for ttl in [0i64, -1, 999999, i64::MIN, i64::MAX, 300] {
        let mut data = vec![0u8; 64];
        assert_eq!(create_record(&mut data, &sample_record(ttl).encode()), Ok(()));
        assert_eq!(data[0], 3);
        let (r, _) = Record::decode_at(&data, 1).unwrap();
        assert_eq!(r.ttl, 300);
        assert_eq!(r.host, "www");
        assert_eq!(r.record_type, "A");
        assert_eq!(r.value, "10.0.0.1");
    }
}

#[test]
fn owner_gate_for_every_tag() {
    let payloads = [
        instruction(DISCRIMINATOR_ZONE, &sample_zone().encode()),
        instruction(DISCRIMINATOR_LEASE, &sample_lease(5).encode()),
        instruction(DISCRIMINATOR_RECORD, &sample_record(1).encode()),
        vec![DISCRIMINATOR_DECOMMISSION_LEASE],
    ];
    for data in payloads.iter() {
        let mut accounts = vec![Account { owner: key(3), data: vec![5u8; 150] }];
        assert_eq!(
            process(&program(), &mut accounts, data, Some(10)),
            Err(RegistryError::IncorrectOwner)
        );
        assert_eq!(accounts[0].data, vec![5u8; 150]);
        assert_eq!(
            process(&program(), &mut accounts, data, None),
            Err(RegistryError::IncorrectOwner)
        );
        assert_eq!(accounts[0].data, vec![5u8; 150]);
    }
}

#[test]
fn empty_instruction_is_malformed() {
    let mut accounts = vec![account(10)];
    assert_eq!(process(&program(), &mut accounts, &[], Some(1)), Err(RegistryError::MalformedInstruction));
    assert_eq!(accounts[0].data, vec![0u8; 10]);
}

#[test]
fn unknown_tag_is_a_no_op() {
    for tag in [0u8, 5, 200, 255] {
        let mut accounts = vec![Account { owner: key(3), data: vec![1u8; 4] }];
        assert_eq!(process(&program(), &mut accounts, &[tag, 1, 2], None), Ok(()));
        assert_eq!(accounts[0].data, vec![1u8; 4]);
        let mut none: Vec<Account> = Vec::new();
        assert_eq!(process(&program(), &mut none, &[tag], None), Ok(()));
    }
}

#[test]
fn missing_account_is_reported() {
    let mut none: Vec<Account> = Vec::new();
    let data = instruction(DISCRIMINATOR_ZONE, &sample_zone().encode());
    assert_eq!(process(&program(), &mut none, &data, None), Err(RegistryError::AccountExhausted));
}

#[test]
fn only_first_account_is_written() {
    let data = instruction(DISCRIMINATOR_ZONE, &sample_zone().encode());
    let mut accounts = vec![account(100), account(100)];
    assert_eq!(process(&program(), &mut accounts, &data, None), Ok(()));
    assert_eq!(accounts[0].data[0], 1);
    assert_eq!(accounts[1].data, vec![0u8; 100]);
}

#[test]
fn small_buffer_overflows() {
    let payload = sample_zone().encode();
    let exact = payload.len() + 1;
    let mut accounts = vec![account(exact - 1)];
    let data = instruction(DISCRIMINATOR_ZONE, &payload);
    assert_eq!(process(&program(), &mut accounts, &data, None), Err(RegistryError::BufferOverflow));
    assert_eq!(accounts[0].data, vec![0u8; exact - 1]);
    let mut accounts = vec![account(exact)];
    assert_eq!(process(&program(), &mut accounts, &data, None), Ok(()));
}

#[test]
fn clock_failure_stops_lease_instructions() {
    let data = instruction(DISCRIMINATOR_LEASE, &sample_lease(5).encode());
    let mut accounts = vec![account(120)];
    assert_eq!(process(&program(), &mut accounts, &data, None), Err(RegistryError::ClockUnavailable));
    assert_eq!(
        process(&program(), &mut accounts, &[DISCRIMINATOR_DECOMMISSION_LEASE], None),
        Err(RegistryError::ClockUnavailable)
    );
    assert_eq!(accounts[0].data, vec![0u8; 120]);
    let rec = instruction(DISCRIMINATOR_RECORD, &sample_record(1).encode());
    assert_eq!(process(&program(), &mut accounts, &rec, None), Ok(()));
}

#[test]
fn host_without_clock_refuses_lease() {
    let data = instruction(DISCRIMINATOR_LEASE, &sample_lease(5).encode());
    let mut accounts = vec![account(120)];
    assert_eq!(
        process_instruction(&program(), &mut accounts, &data),
        Err(RegistryError::ClockUnavailable)
    );
    let zone = instruction(DISCRIMINATOR_ZONE, &sample_zone().encode());
    assert_eq!(process_instruction(&program(), &mut accounts, &zone), Ok(()));
    assert_eq!(accounts[0].data[0], 1);
}

#[test]
fn lease_deadline_overflow_is_refused() {
    let data = instruction(DISCRIMINATOR_LEASE, &sample_lease(i64::MAX).encode());
    let mut accounts = vec![account(120)];
    assert_eq!(process(&program(), &mut accounts, &data, Some(1)), Err(RegistryError::MalformedInstruction));
    assert_eq!(process(&program(), &mut accounts, &data, Some(0)), Ok(()));
    assert_eq!(stored_lease(&accounts[0]).expiration, i64::MAX);
    let neg = instruction(DISCRIMINATOR_LEASE, &sample_lease(-10).encode());
    assert_eq!(process(&program(), &mut accounts, &neg, Some(4)), Ok(()));
    assert_eq!(stored_lease(&accounts[0]).expiration, -6);
}

#[test]
fn malformed_payloads_are_refused() {
    let good = sample_zone().encode();
    let mut cut = good.clone();
    cut.pop();
    let mut long = good.clone();
    long.push(0);
    let mut bad_bool = good.clone();
    let n = bad_bool.len();
    bad_bool[n - 1] = 2;
    for payload in [cut, long, bad_bool, Vec::new()] {
        let mut accounts = vec![account(100)];
        let data = instruction(DISCRIMINATOR_ZONE, &payload);
        assert_eq!(process(&program(), &mut accounts, &data, None), Err(RegistryError::MalformedInstruction));
        assert_eq!(accounts[0].data, vec![0u8; 100]);
    }
}

#[test]
fn invalid_utf8_text_is_refused() {
    let mut payload = sample_record(1).encode();
    // host "www" starts after its 4-byte length
    payload[4] = 0xff;
    assert_eq!(Record::decode(&payload), None);
    let mut data = vec![0u8; 64];
    assert_eq!(create_record(&mut data, &payload), Err(RegistryError::MalformedInstruction));
}

#[test]
fn decommission_of_non_lease_is_malformed() {
    let mut accounts = vec![account(20)];
    assert_eq!(
        process(&program(), &mut accounts, &[DISCRIMINATOR_DECOMMISSION_LEASE], Some(3)),
        Err(RegistryError::MalformedInstruction)
    );
    let mut empty = vec![Account { owner: program(), data: Vec::new() }];
    assert_eq!(
        process(&program(), &mut empty, &[DISCRIMINATOR_DECOMMISSION_LEASE], Some(3)),
        Err(RegistryError::MalformedInstruction)
    );
}

#[test]
fn zone_encoding_matches_borsh() {
    let z = sample_zone();
    let expected = borsh::to_vec(&(
        [7u8; 32],
        10i64,
        60i64,
        "example".to_string(),
        false,
    ))
    .unwrap();
    assert_eq!(z.encode(), expected);
    assert_eq!(Zone::decode(&expected), Some(z));
}

#[test]
fn lease_encoding_matches_borsh() {
    let l = Lease {
        zone_account: key(1),
        owner: key(2),
        domain: "ü.example".to_string(),
        expiration: -42,
        expired: true,
    };
    let expected =
        borsh::to_vec(&([1u8; 32], [2u8; 32], "ü.example".to_string(), -42i64, true)).unwrap();
    assert_eq!(l.encode(), expected);
    assert_eq!(Lease::decode(&expected), Some(l));
}

#[test]
fn record_encoding_matches_borsh() {
    let r = Record {
        host: String::new(),
        ttl: i64::MIN,
        record_type: "TXT".to_string(),
        value: "v=spf1".to_string(),
    };
    let expected = borsh::to_vec(&(
        String::new(),
        i64::MIN,
        "TXT".to_string(),
        "v=spf1".to_string(),
    ))
    .unwrap();
    assert_eq!(r.encode(), expected);
    assert_eq!(Record::decode(&expected), Some(r));
}

#[test]
fn round_trip_extremes() {
    for v in [i64::MIN, -1, 0, 1, i64::MAX] {
        let z = Zone {
            owner: key(0),
            lamports_per_second: v,
            min_lease_duration_secs: v,
            domain: String::new(),
            subdivided: true,
        };
        let bytes = z.encode();
        assert_eq!(bytes.len(), 32 + 8 + 8 + 4 + 1);
        assert_eq!(Zone::decode(&bytes), Some(z.clone()));
        assert_eq!(Zone::decode(&bytes).unwrap().encode(), bytes);
        let l = sample_lease(v);
        assert_eq!(Lease::decode(&l.encode()), Some(l.clone()));
        let r = sample_record(v);
        assert_eq!(Record::decode(&r.encode()), Some(r.clone()));
    }
}

#[test]
fn pubkey_comparison() {
    let mut b = [4u8; 32];
    assert!(key(4).same_as(&Pubkey::new(b)));
    b[31] = 5;
    assert!(!key(4).same_as(&Pubkey::new(b)));
    assert!(key(4) != Pubkey::new(b));
    assert!(key(4) == key(4));
}
