use brongnal::gossamer::{Action, Message, SignedMessage};
use brongnal::gossamer_persistence::{GossamerStorage, StorageError};
use brongnal::gossamer_service::{ActionRequest, Service};
use brongnal::keys::{SigningKey, VerifyingKey};
use brongnal::proto::gossamer as wire;
use brongnal::status::Code;

fn setup_service() -> Service {
    Service::new(GossamerStorage::new())
}

fn new_key() -> VerifyingKey {
    SigningKey::generate().verifying_key()
}

fn create_signed_action(
    signer: &SigningKey,
    provider: Vec<u8>,
    new_key: VerifyingKey,
    action: Action,
) -> wire::SignedMessage {
    let message = Message { provider, public_key: new_key, action };
    let encoded = message.to_proto().encode_to_vec();
    let signature = signer.sign(&encoded);
    let signed = SignedMessage { message, signature, identity_key: signer.verifying_key() };
    let wire_message = signed.to_proto();
    assert_eq!(wire_message.contents, Some(encoded));
    wire_message
}

fn submit(service: &mut Service, message: wire::SignedMessage) -> Result<(), brongnal::status::Status> {
    service.action(ActionRequest { message: Some(message) }).map(|_| ())
}

// ---- storage ----

#[test]
fn test_schema_initialization() {
    let db = GossamerStorage::new();
    assert!(db.get_ledger().is_empty());
}

#[test]
fn test_append_key_success() {
    let mut db = GossamerStorage::new();
    let provider = b"alice".to_vec();
    let key = new_key();
    assert!(db.append_key(&provider, &key));
    let ledger = db.get_ledger();
    assert_eq!(ledger.len(), 1);
    assert_eq!(ledger[0].0, provider);
}

#[test]
fn test_append_key_idempotency() {
    let mut db = GossamerStorage::new();
    let provider = b"alice".to_vec();
    let key = new_key();
    db.append_key(&provider, &key);
    let appended_second_time = db.append_key(&provider, &key);
    assert!(!appended_second_time);
}

#[test]
fn test_append_multiple_keys_for_same_provider() {
    let mut db = GossamerStorage::new();
    let provider = b"alice".to_vec();
    db.append_key(&provider, &new_key());
    db.append_key(&provider, &new_key());
    let ledger = db.get_ledger();
    let group = ledger.iter().find(|(p, _)| *p == provider).unwrap();
    assert_eq!(group.1.len(), 2);
}

#[test]
fn test_has_key_authorized() {
    let mut db = GossamerStorage::new();
    let provider = b"alice".to_vec();
    let key = new_key();
    db.append_key(&provider, &key);
    assert!(db.has_key(&provider, &key));
}

#[test]
fn test_has_key_unauthorized() {
    let mut db = GossamerStorage::new();
    db.append_key(b"alice", &new_key());
    assert!(!db.has_key(b"bob", &new_key()));
}

#[test]
fn test_get_key_provider_mapping() {
    let mut db = GossamerStorage::new();
    let provider = b"alice".to_vec();
    let key = new_key();
    db.append_key(&provider, &key);
    assert_eq!(db.get_key_provider(&key), Some(provider));
}

#[test]
fn test_revoke_key_success() {
    let mut db = GossamerStorage::new();
    let provider = b"alice".to_vec();
    let key = new_key();
    db.append_key(&provider, &key);
    assert!(db.revoke_key(&provider, &key));
    assert!(!db.has_key(&provider, &key));
}

#[test]
fn test_revoke_key_not_found() {
    let mut db = GossamerStorage::new();
    assert!(!db.revoke_key(b"alice", &new_key()));
}

#[test]
fn test_append_message_fk_constraint_success() {
    let mut db = GossamerStorage::new();
    let provider = b"alice".to_vec();
    db.append_key(&provider, &new_key());
    let msg = wire::SignedMessage {
        contents: Some(vec![1, 2, 3]),
        identity_key: Some(vec![4, 5, 6]),
        signature: Some(vec![7, 8, 9]),
    };
    assert!(db.append_message(&provider, msg).is_ok());
}

#[test]
fn test_append_message_fk_constraint_failure() {
    let mut db = GossamerStorage::new();
    let msg = wire::SignedMessage {
        contents: Some(vec![1, 2, 3]),
        identity_key: Some(vec![4, 5, 6]),
        signature: Some(vec![7, 8, 9]),
    };
    assert_eq!(db.append_message(b"nonexistent", msg), Err(StorageError::UnknownProvider));
}

#[test]
fn test_get_ledger_grouping() {
    let mut db = GossamerStorage::new();
    let alice = b"alice".to_vec();
    let bob = b"bob".to_vec();
    db.append_key(&alice, &new_key());
    db.append_key(&alice, &new_key());
    db.append_key(&bob, &new_key());
    let ledger = db.get_ledger();
    assert_eq!(ledger.len(), 2);
    assert_eq!(ledger.iter().find(|(p, _)| *p == alice).unwrap().1.len(), 2);
    assert_eq!(ledger.iter().find(|(p, _)| *p == bob).unwrap().1.len(), 1);
}

#[test]
fn storage_key_stays_with_first_provider() {
    let mut db = GossamerStorage::new();
    let key = new_key();
    assert!(db.append_key(b"alice", &key));
    assert!(!db.append_key(b"bob", &key));
    assert_eq!(db.get_key_provider(&key), Some(b"alice".to_vec()));
    assert!(db.has_provider(b"bob"));
}

#[test]
fn storage_revoking_last_key_keeps_provider() {
    let mut db = GossamerStorage::new();
    let key = new_key();
    db.append_key(b"alice", &key);
    assert!(!db.revoke_key(b"bob", &key));
    assert!(db.revoke_key(b"alice", &key));
    assert!(db.has_provider(b"alice"));
    assert!(db.get_ledger().is_empty());
}

// ---- service ----

#[test]
fn test_action_claim_new_provider_success() {
    let mut service = setup_service();
    let alice_key = SigningKey::generate();
    let action = create_signed_action(&alice_key, b"alice".to_vec(), alice_key.verifying_key(), Action::AppendKey);
    assert!(submit(&mut service, action).is_ok());
}

#[test]
fn test_action_claim_denied_if_not_self_signed() {
    let mut service = setup_service();
    let attacker_key = SigningKey::generate();
    let victim_key = SigningKey::generate();
    let action =
        create_signed_action(&attacker_key, b"victim".to_vec(), victim_key.verifying_key(), Action::AppendKey);
    let res = submit(&mut service, action);
    assert!(res.is_err());
    assert_eq!(res.unwrap_err().code(), Code::PermissionDenied);
}

#[test]
fn test_action_append_key_success_with_existing_auth() {
    let mut service = setup_service();
    let alice_key1 = SigningKey::generate();
    let alice_key2 = SigningKey::generate();
    let claim = create_signed_action(&alice_key1, b"alice".to_vec(), alice_key1.verifying_key(), Action::AppendKey);
    submit(&mut service, claim).unwrap();
    let add_key = create_signed_action(&alice_key1, b"alice".to_vec(), alice_key2.verifying_key(), Action::AppendKey);
    assert!(submit(&mut service, add_key).is_ok());
}

#[test]
fn test_action_key_theft_denied() {
    let mut service = setup_service();
    let alice_key = SigningKey::generate();
    let _bob_key = SigningKey::generate();
    let alice_claim = create_signed_action(&alice_key, b"alice".to_vec(), alice_key.verifying_key(), Action::AppendKey);
    submit(&mut service, alice_claim).unwrap();
    let bob_theft_claim =
        create_signed_action(&alice_key, b"bob".to_vec(), alice_key.verifying_key(), Action::AppendKey);
    let res = submit(&mut service, bob_theft_claim);
    assert!(res.is_err());
    assert!(res.unwrap_err().message().contains("already associated with another provider"));
}

#[test]
fn test_action_append_key_unauthorized_signer_denied() {
    let mut service = setup_service();
    let alice_key = SigningKey::generate();
    let attacker_key = SigningKey::generate();
    let new_key = SigningKey::generate();
    let alice_claim = create_signed_action(&alice_key, b"alice".to_vec(), alice_key.verifying_key(), Action::AppendKey);
    submit(&mut service, alice_claim).unwrap();
    let attack_add = create_signed_action(&attacker_key, b"alice".to_vec(), new_key.verifying_key(), Action::AppendKey);
    let res = submit(&mut service, attack_add);
    assert!(res.is_err());
    assert_eq!(res.unwrap_err().code(), Code::PermissionDenied);
}

#[test]
fn test_action_existing_user_theft_denied() {
    let mut service = setup_service();
    let alice_key = SigningKey::generate();
    let bob_key = SigningKey::generate();
    let alice_claim = create_signed_action(&alice_key, b"alice".to_vec(), alice_key.verifying_key(), Action::AppendKey);
    submit(&mut service, alice_claim).unwrap();
    let bob_claim = create_signed_action(&bob_key, b"bob".to_vec(), bob_key.verifying_key(), Action::AppendKey);
    submit(&mut service, bob_claim).unwrap();
    let theft_append = create_signed_action(&bob_key, b"bob".to_vec(), alice_key.verifying_key(), Action::AppendKey);
    let res = submit(&mut service, theft_append);
    assert!(res.is_err());
    assert!(res.unwrap_err().message().contains("already associated with another provider"));
}

#[test]
fn test_action_revoke_key_success() {
    let mut service = setup_service();
    let alice_key = SigningKey::generate();
    let claim = create_signed_action(&alice_key, b"alice".to_vec(), alice_key.verifying_key(), Action::AppendKey);
    submit(&mut service, claim).unwrap();
    let revoke = create_signed_action(&alice_key, b"alice".to_vec(), alice_key.verifying_key(), Action::RevokeKey);
    assert!(submit(&mut service, revoke).is_ok());
}

#[test]
fn test_action_revoke_key_unauthorized_signer_denied() {
    let mut service = setup_service();
    let alice_key = SigningKey::generate();
    let attacker_key = SigningKey::generate();
    let alice_claim = create_signed_action(&alice_key, b"alice".to_vec(), alice_key.verifying_key(), Action::AppendKey);
    submit(&mut service, alice_claim).unwrap();
    let attack_revoke =
        create_signed_action(&attacker_key, b"alice".to_vec(), alice_key.verifying_key(), Action::RevokeKey);
    let res = submit(&mut service, attack_revoke);
    assert!(res.is_err());
    assert_eq!(res.unwrap_err().code(), Code::PermissionDenied);
}

#[test]
fn test_action_revoke_nonexistent_key_denied() {
    let mut service = setup_service();
    let alice_key = SigningKey::generate();
    let fake_key = SigningKey::generate();
    let alice_claim = create_signed_action(&alice_key, b"alice".to_vec(), alice_key.verifying_key(), Action::AppendKey);
    submit(&mut service, alice_claim).unwrap();
    let bad_revoke = create_signed_action(&alice_key, b"alice".to_vec(), fake_key.verifying_key(), Action::RevokeKey);
    let res = submit(&mut service, bad_revoke);
    assert!(res.is_err());
    assert_eq!(res.unwrap_err().code(), Code::PermissionDenied);
}

#[test]
fn test_action_invalid_signature_denied() {
    let mut service = setup_service();
    let alice_key = SigningKey::generate();
    let mut action = create_signed_action(&alice_key, b"alice".to_vec(), alice_key.verifying_key(), Action::AppendKey);
    if let Some(ref mut sig) = action.signature {
        if !sig.is_empty() {
            sig[0] ^= 0xFF;
        }
    }
    let res = submit(&mut service, action);
    assert!(res.is_err());
    assert_eq!(res.unwrap_err().code(), Code::Unauthenticated);
}

#[test]
fn test_get_ledger_mapping() {
    let mut service = setup_service();
    let alice_key = SigningKey::generate();
    let claim = create_signed_action(&alice_key, b"alice".to_vec(), alice_key.verifying_key(), Action::AppendKey);
    submit(&mut service, claim).unwrap();
    let ledger = service.get_ledger();
    assert_eq!(ledger.users.len(), 1);
    assert_eq!(ledger.users[0].provider, Some(b"alice".to_vec()));
    assert_eq!(ledger.users[0].public_keys, vec![alice_key.verifying_key().to_bytes().to_vec()]);
}

#[test]
fn service_empty_action_is_invalid_argument() {
    let mut service = setup_service();
    let res = service.action(ActionRequest { message: None });
    let err = res.err().unwrap();
    assert_eq!(err.code(), Code::InvalidArgument);
    assert_eq!(err.message(), "Empty Gossamer Action.");
}

#[test]
fn service_garbled_contents_are_invalid_argument() {
    let mut service = setup_service();
    let alice_key = SigningKey::generate();
    let contents = vec![0xff, 0xff];
    let signature = alice_key.sign(&contents);
    let message = wire::SignedMessage {
        contents: Some(contents),
        signature: Some(signature.to_vec()),
        identity_key: Some(alice_key.verifying_key().to_bytes().to_vec()),
    };
    assert_eq!(submit(&mut service, message).unwrap_err().code(), Code::InvalidArgument);
}

#[test]
fn service_short_signature_is_invalid_argument() {
    let mut service = setup_service();
    let alice_key = SigningKey::generate();
    let mut action = create_signed_action(&alice_key, b"alice".to_vec(), alice_key.verifying_key(), Action::AppendKey);
    action.signature = Some(vec![1, 2, 3]);
    assert_eq!(submit(&mut service, action).unwrap_err().code(), Code::InvalidArgument);
}

#[test]
fn service_claim_with_owned_key_names_owner() {
    let mut service = setup_service();
    let alice_key = SigningKey::generate();
    let claim = create_signed_action(&alice_key, b"alice".to_vec(), alice_key.verifying_key(), Action::AppendKey);
    submit(&mut service, claim).unwrap();
    let other = SigningKey::generate();
    let steal = create_signed_action(&alice_key, b"carol".to_vec(), other.verifying_key(), Action::AppendKey);
    let err = submit(&mut service, steal).unwrap_err();
    assert_eq!(err.code(), Code::PermissionDenied);
    assert_eq!(err.message(), "This key is already associated with another provider: 0x616c696365");
}

#[test]
fn service_refused_change_leaves_ledger_unchanged() {
    let mut service = setup_service();
    let alice_key = SigningKey::generate();
    let claim = create_signed_action(&alice_key, b"alice".to_vec(), alice_key.verifying_key(), Action::AppendKey);
    submit(&mut service, claim).unwrap();
    let before = service.get_ledger();
    let attacker = SigningKey::generate();
    let attack = create_signed_action(&attacker, b"alice".to_vec(), attacker.verifying_key(), Action::AppendKey);
    assert!(submit(&mut service, attack).is_err());
    let after = service.get_ledger();
    assert_eq!(before.users.len(), after.users.len());
    assert_eq!(before.users[0].public_keys, after.users[0].public_keys);
}

#[test]
fn message_roundtrips_through_wire_form() {
    let key = new_key();
    let message = Message { provider: b"alice".to_vec(), public_key: key, action: Action::RevokeKey };
    let wire_message = message.to_proto();
    let encoded = wire_message.encode_to_vec();
    let decoded = wire::Message::decode(&encoded).unwrap();
    let back = Message::try_from_proto(&decoded).unwrap();
    assert_eq!(back.provider, b"alice".to_vec());
    assert_eq!(back.action, Action::RevokeKey);
    assert_eq!(back.public_key.to_bytes(), key.to_bytes());
    assert_eq!(Action::try_from_i32(1), Some(Action::AppendKey));
    assert_eq!(Action::try_from_i32(3), None);
    assert_eq!(Action::RevokeKey.to_i32(), 2);
}

#[test]
fn signed_message_keeps_its_signature() {
    let alice = SigningKey::generate();
    let wire_message = create_signed_action(&alice, b"alice".to_vec(), alice.verifying_key(), Action::AppendKey);
    let read = SignedMessage::try_from_proto(&wire_message).unwrap();
    assert_eq!(read.signature.to_vec(), wire_message.signature.clone().unwrap());
    assert_eq!(read.identity_key.to_bytes(), alice.verifying_key().to_bytes());
}
