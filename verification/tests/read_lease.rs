use smb_client::create_context::{pack_contexts, parse_contexts, CreateContext};
use smb_client::error::SmbError;
use smb_client::read_lease::{
    ack_finished, invalidate_server, receive_break, LeaseAck, LeaseRegistry, ReadLeaseRegistration,
};
use smb_client::types::{same_server, Connection, ConnectionState, Guid, OplockLevel, TreeId};

const SERVER: Option<Guid> = Some(Guid(0x1234_5678_9abc_def0));
const OTHER_SERVER: Option<Guid> = Some(Guid(77));

fn live(generation: u64, server_guid: Option<Guid>) -> ConnectionState {
    ConnectionState {
        disconnected: false,
        generation,
        server_guid,
    }
}

fn setup() -> (LeaseRegistry, Connection) {
    let mut registry = LeaseRegistry::new();
    let conn = Connection { id: 1 };
    registry.update_connection(conn, live(0, SERVER));
    (registry, conn)
}

fn token(registration: &ReadLeaseRegistration) -> [u8; 16] {
    let contexts = parse_contexts(&registration.context()).unwrap();
    contexts[0].data[..16].try_into().unwrap()
}

fn break_body(key: [u8; 16], ack: bool) -> Vec<u8> {
    let mut body = Vec::new();
    body.extend_from_slice(&44u16.to_le_bytes());
    body.extend_from_slice(&0u16.to_le_bytes());
    body.extend_from_slice(&u32::from(ack).to_le_bytes());
    body.extend_from_slice(&key);
    body.extend_from_slice(&1u32.to_le_bytes());
    body.extend_from_slice(&0u32.to_le_bytes());
    body.extend_from_slice(&[0; 12]);
    body
}

#[test]
fn read_lease_break_before_grant_never_resurrects_receipt() {
    let (mut registry, conn) = setup();
    let registration = ReadLeaseRegistration::new(&mut registry, conn, TreeId(7)).unwrap();
    receive_break(&mut registry, &break_body(token(&registration), false), SERVER).unwrap();
    registration
        .grant(&mut registry, OplockLevel::Lease, &registration.context())
        .unwrap();
    assert!(registration.current_proof(&registry).is_none());
}

#[test]
fn read_lease_drop_invalidates_cloned_receipts() {
    let (mut registry, conn) = setup();
    let registration = ReadLeaseRegistration::new(&mut registry, conn, TreeId(7)).unwrap();
    registration
        .grant(&mut registry, OplockLevel::Lease, &registration.context())
        .unwrap();
    let proof = registration.current_proof(&registry).unwrap();
    let copy = proof.clone();
    assert!(proof.is_valid(&registry));
    registration.release(&mut registry);
    assert!(!proof.is_valid(&registry));
    assert!(!copy.is_valid(&registry));
}

#[test]
fn read_lease_receiver_invalidates_without_any_pending_request() {
    let (mut registry, conn) = setup();
    let registration = ReadLeaseRegistration::new(&mut registry, conn, TreeId(7)).unwrap();
    registration
        .grant(&mut registry, OplockLevel::Lease, &registration.context())
        .unwrap();
    let proof = registration.current_proof(&registry).unwrap();
    let reply = receive_break(&mut registry, &break_body(proof.token(), false), SERVER).unwrap();
    assert!(!proof.is_valid(&registry));
    assert!(
        reply.is_none(),
        "read-only break without ACK_REQUIRED needs no ACK"
    );
}

#[test]
fn read_lease_transport_loss_invalidates_receipt() {
    let (mut registry, conn) = setup();
    let registration = ReadLeaseRegistration::new(&mut registry, conn, TreeId(7)).unwrap();
    registration
        .grant(&mut registry, OplockLevel::Lease, &registration.context())
        .unwrap();
    let proof = registration.current_proof(&registry).unwrap();
    let lost = ConnectionState {
        disconnected: true,
        ..live(0, SERVER)
    };
    registry.update_connection(conn, lost);
    assert!(!proof.is_valid(&registry));
    // Revival on a new transport does not bring the receipt back.
    registry.update_connection(conn, live(1, SERVER));
    assert!(!proof.is_valid(&registry));
}

#[test]
fn read_lease_create_wire_roundtrip_and_early_break() {
    for early_break in [false, true] {
        let (mut registry, conn) = setup();
        let registration = ReadLeaseRegistration::new(&mut registry, conn, TreeId(7)).unwrap();
        let contexts = parse_contexts(&registration.context()).unwrap();
        assert_eq!(contexts.len(), 1);
        assert_eq!(&contexts[0].data[16..20], &1u32.to_le_bytes());
        let key = contexts[0].data[..16].try_into().unwrap();
        if early_break {
            receive_break(&mut registry, &break_body(key, false), SERVER).unwrap();
        }
        registration
            .grant(&mut registry, OplockLevel::Lease, &pack_contexts(&contexts))
            .unwrap();
        assert_eq!(
            registration.current_proof(&registry).is_some(),
            !early_break
        );
    }
}

#[test]
fn read_lease_other_connection_receives_break_and_ack_uses_owner_tree() {
    let (mut registry, conn) = setup();
    let registration = ReadLeaseRegistration::new(&mut registry, conn, TreeId(42)).unwrap();
    registration
        .grant(&mut registry, OplockLevel::Lease, &registration.context())
        .unwrap();
    let proof = registration.current_proof(&registry).unwrap();
    let other = Connection { id: 2 };
    registry.update_connection(other, live(0, SERVER));

    let reply = receive_break(&mut registry, &break_body(proof.token(), true), SERVER).unwrap();
    assert!(!proof.is_valid(&registry), "invalidation must precede ACK");
    let ack = reply.unwrap();
    assert_eq!(ack.tree, TreeId(42));
    assert_eq!(ack.connection, conn);
    assert_eq!(ack.ack.0, proof.token());
}

#[test]
fn ack_wire_shape_relinquishes_all_caching() {
    let mut bytes = Vec::new();
    LeaseAck([7; 16]).pack(&mut bytes);
    assert_eq!(bytes.len(), 36);
    assert_eq!(&bytes[8..24], &[7; 16]);
    assert_eq!(&bytes[24..], &[0; 12]);
}

#[test]
fn malformed_break_is_rejected() {
    let mut registry = LeaseRegistry::new();
    assert!(receive_break(&mut registry, &[0; 44], None).is_err());
    assert!(receive_break(&mut registry, &44u16.to_le_bytes(), None).is_err());
}

/// A lease that was asked for and granted under a chosen key.
fn granted(
    registry: &mut LeaseRegistry,
    conn: Connection,
    key: [u8; 16],
) -> ReadLeaseRegistration {
    let registration =
        ReadLeaseRegistration::with_key(registry, conn, TreeId(7), key).unwrap();
    registration
        .grant(registry, OplockLevel::Lease, &registration.context())
        .unwrap();
    assert!(registration.current_proof(registry).is_some());
    registration
}

#[test]
fn keys_are_random() {
    let (mut registry, conn) = setup();
    let first = ReadLeaseRegistration::new(&mut registry, conn, TreeId(7)).unwrap();
    let second = ReadLeaseRegistration::new(&mut registry, conn, TreeId(7)).unwrap();
    assert_ne!(token(&first), [0; 16]);
    assert_ne!(token(&first), token(&second));
}

#[test]
fn a_receipt_needs_a_grant() {
    let (mut registry, conn) = setup();
    let registration = ReadLeaseRegistration::new(&mut registry, conn, TreeId(7)).unwrap();
    assert!(registration.current_proof(&registry).is_none());
}

#[test]
fn the_request_has_the_documented_bytes() {
    let (mut registry, conn) = setup();
    let registration =
        ReadLeaseRegistration::with_key(&mut registry, conn, TreeId(7), [9; 16]).unwrap();
    let mut expected = vec![0, 0, 0, 0, 16, 0, 4, 0, 0, 0, 24, 0, 32, 0, 0, 0];
    expected.extend_from_slice(b"RqLs");
    expected.extend_from_slice(&[0; 4]);
    expected.extend_from_slice(&[9; 16]);
    expected.extend_from_slice(&[1, 0, 0, 0]);
    expected.extend_from_slice(&[0; 12]);
    assert_eq!(registration.context(), expected);
}

#[test]
fn the_ack_has_the_documented_bytes() {
    let mut bytes = vec![0xff];
    LeaseAck([3; 16]).pack(&mut bytes);
    let mut expected = vec![0xff, 36, 0, 0, 0, 0, 0, 0, 0];
    expected.extend_from_slice(&[3; 16]);
    expected.extend_from_slice(&[0; 12]);
    assert_eq!(bytes, expected);
}

/// A grant as a server would send it.
fn grant_contexts(key: [u8; 16], state: u32, flags: u32, len: usize) -> Vec<u8> {
    let mut data = Vec::from(key);
    data.extend_from_slice(&state.to_le_bytes());
    data.extend_from_slice(&flags.to_le_bytes());
    data.resize(len, 0);
    pack_contexts(&[CreateContext {
        name: b"RqLs".to_vec(),
        data,
    }])
}

#[test]
fn only_the_requested_grant_counts() {
    let key = [5; 16];
    let two = pack_contexts(&[
        CreateContext {
            name: b"RqLs".to_vec(),
            data: vec![0; 32],
        },
        CreateContext {
            name: b"RqLs".to_vec(),
            data: vec![0; 32],
        },
    ]);
    let unrelated = pack_contexts(&[CreateContext {
        name: b"MxAc".to_vec(),
        data: vec![0; 8],
    }]);
    let malformed = Err(SmbError::InvalidLeaseGrant);
    let cases: Vec<(OplockLevel, Vec<u8>, Result<(), SmbError>, bool)> = vec![
        (OplockLevel::Lease, grant_contexts(key, 1, 0, 32), Ok(()), true),
        (OplockLevel::Batch, grant_contexts(key, 1, 0, 32), Ok(()), false),
        (OplockLevel::NoOplock, Vec::new(), Ok(()), false),
        (OplockLevel::Lease, Vec::new(), Ok(()), false),
        (OplockLevel::Lease, unrelated, Ok(()), false),
        (OplockLevel::Lease, grant_contexts([6; 16], 1, 0, 32), Ok(()), false),
        (OplockLevel::Lease, grant_contexts(key, 3, 0, 32), Ok(()), false),
        (OplockLevel::Lease, grant_contexts(key, 1, 2, 32), Ok(()), false),
        (OplockLevel::Lease, grant_contexts(key, 1, 0, 52), malformed, false),
        (OplockLevel::Lease, grant_contexts(key, 1, 0, 24), malformed, false),
        (OplockLevel::Lease, two, malformed, false),
    ];
    for (level, bytes, outcome, valid) in cases {
        let (mut registry, conn) = setup();
        let registration =
            ReadLeaseRegistration::with_key(&mut registry, conn, TreeId(7), key).unwrap();
        assert_eq!(registration.grant(&mut registry, level, &bytes), outcome);
        assert_eq!(registration.current_proof(&registry).is_some(), valid);
        // A refusal is final.
        let _ = registration.grant(
            &mut registry,
            OplockLevel::Lease,
            &grant_contexts(key, 1, 0, 32),
        );
        assert_eq!(registration.current_proof(&registry).is_some(), valid);
    }
}

#[test]
fn an_unreadable_response_leaves_the_lease_pending() {
    let (mut registry, conn) = setup();
    let registration = ReadLeaseRegistration::new(&mut registry, conn, TreeId(7)).unwrap();
    assert_eq!(
        registration.grant(&mut registry, OplockLevel::Lease, &[1, 2, 3]),
        Err(SmbError::InvalidCreateContexts)
    );
    assert!(registration.current_proof(&registry).is_none());
    registration
        .grant(&mut registry, OplockLevel::Lease, &registration.context())
        .unwrap();
    assert!(registration.current_proof(&registry).is_some());
}

#[test]
fn a_malformed_break_fails_closed_for_its_server_only() {
    let (mut registry, conn) = setup();
    let elsewhere = Connection { id: 2 };
    registry.update_connection(elsewhere, live(0, OTHER_SERVER));
    let here = granted(&mut registry, conn, [1; 16]);
    let there = granted(&mut registry, elsewhere, [2; 16]);

    assert!(matches!(
        receive_break(&mut registry, &[44], SERVER),
        Err(SmbError::Truncated)
    ));
    assert!(here.current_proof(&registry).is_some());
    assert!(matches!(
        receive_break(&mut registry, &[44, 0, 0], SERVER),
        Err(SmbError::InvalidLeaseBreak)
    ));
    assert!(here.current_proof(&registry).is_none());
    assert!(there.current_proof(&registry).is_some());
}

#[test]
fn a_break_needs_the_right_server_and_key() {
    let (mut registry, conn) = setup();
    let lease = granted(&mut registry, conn, [1; 16]);
    let reply = receive_break(&mut registry, &break_body([1; 16], true), OTHER_SERVER);
    assert!(matches!(reply, Ok(None)));
    let reply = receive_break(&mut registry, &break_body([2; 16], true), SERVER);
    assert!(matches!(reply, Ok(None)));
    assert!(lease.current_proof(&registry).is_some());
    let reply = receive_break(&mut registry, &break_body([1; 16], true), SERVER);
    assert!(matches!(reply, Ok(Some(_))));
    assert!(lease.current_proof(&registry).is_none());
}

#[test]
fn the_server_of_a_lease_is_the_one_it_leads_to_now() {
    let (mut registry, conn) = setup();
    let lease = granted(&mut registry, conn, [1; 16]);
    registry.update_connection(conn, live(0, OTHER_SERVER));
    invalidate_server(&mut registry, SERVER);
    assert!(lease.current_proof(&registry).is_some());
    invalidate_server(&mut registry, OTHER_SERVER);
    assert!(lease.current_proof(&registry).is_none());
}

#[test]
fn a_failed_ack_fails_closed() {
    let (mut registry, conn) = setup();
    let lease = granted(&mut registry, conn, [1; 16]);
    ack_finished(&mut registry, true, SERVER);
    assert!(lease.current_proof(&registry).is_some());
    ack_finished(&mut registry, false, SERVER);
    assert!(lease.current_proof(&registry).is_none());
}

#[test]
fn a_break_reaches_the_latest_lease_of_a_key() {
    let (mut registry, conn) = setup();
    let old = granted(&mut registry, conn, [1; 16]);
    let new = granted(&mut registry, conn, [1; 16]);
    receive_break(&mut registry, &break_body([1; 16], false), SERVER).unwrap();
    assert!(new.current_proof(&registry).is_none());
    assert!(old.current_proof(&registry).is_some());
    old.release(&mut registry);
    new.release(&mut registry);
}

#[test]
fn an_unknown_connection_has_no_good_receipts() {
    let mut registry = LeaseRegistry::new();
    let conn = Connection { id: 9 };
    let registration = ReadLeaseRegistration::new(&mut registry, conn, TreeId(7)).unwrap();
    registration
        .grant(&mut registry, OplockLevel::Lease, &registration.context())
        .unwrap();
    assert!(registration.current_proof(&registry).is_none());
}

#[test]
fn a_forgotten_connection_has_no_good_receipts() {
    let (mut registry, conn) = setup();
    let lease = granted(&mut registry, conn, [1; 16]);
    registry.forget_connection(conn);
    assert!(lease.current_proof(&registry).is_none());
}

#[test]
fn servers_are_compared_by_identity() {
    assert!(same_server(SERVER, SERVER));
    assert!(same_server(None, None));
    assert!(!same_server(SERVER, OTHER_SERVER));
    assert!(!same_server(SERVER, None));
    assert!(!same_server(None, SERVER));
}

#[test]
fn errors_have_texts() {
    assert_eq!(SmbError::Truncated.message(), "message is truncated");
    assert_eq!(
        SmbError::InvalidCreateContexts.message(),
        "invalid create contexts"
    );
    assert_eq!(
        SmbError::InvalidLeaseBreak.message(),
        "invalid lease break size"
    );
    assert_eq!(
        SmbError::InvalidLeaseGrant.message(),
        "invalid read lease grant"
    );
    assert_eq!(
        SmbError::LeaseKeyUnavailable.message(),
        "read lease key randomness unavailable"
    );
    assert_eq!(
        SmbError::LeaseNumbersExhausted.message(),
        "read lease numbers exhausted"
    );
    assert_eq!(
        SmbError::CursorClosed.message(),
        "directory cursor is closed"
    );
}
