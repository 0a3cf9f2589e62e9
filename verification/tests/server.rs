use brongnal::memory_storage::MemoryStorage;
use brongnal::brongnal::{notification_payload, BrongnalController};
use brongnal::bundle::sign_bundle;
use brongnal::gossamer::{Action, Message as GossamerMessage, SignedMessage as GossamerSignedMessage};
use brongnal::gossamer_service::ActionRequest;
use brongnal::keys::{generate_x25519_secret, x25519_public_key, SigningKey, VerifyingKey};
use brongnal::mailbox::SqliteStorage;
use brongnal::memory_gossamer::InMemoryGossamer;
use brongnal::proto::gossamer as gossamer_wire;
use brongnal::proto::service::{
    Message as MessageProto, PreKeyBundleRequest, RegisterPreKeyBundleRequest, RetrieveMessagesRequest,
    SendMessageRequest, SignedPreKey as SignedPreKeyProto, SignedPreKeys as SignedPreKeysProto,
};
use brongnal::status::Code;
use brongnal::x3dh::{self, SignedPreKey};

struct Device {
    ik: SigningKey,
    spk: SignedPreKey,
}

fn new_device() -> Device {
    let ik = SigningKey::generate();
    let secret = generate_x25519_secret();
    let public = x25519_public_key(&secret);
    let signature = sign_bundle(&ik, &[(secret, public)]);
    Device { ik, spk: SignedPreKey { pre_key: public, signature } }
}

fn ik_of(device: &Device) -> VerifyingKey {
    device.ik.verifying_key()
}

fn opks(device: &Device, n: usize) -> SignedPreKeysProto {
    let pairs: Vec<([u8; 32], [u8; 32])> = (0..n)
        .map(|_| {
            let s = generate_x25519_secret();
            (s, x25519_public_key(&s))
        })
        .collect();
    let signature = sign_bundle(&device.ik, &pairs);
    x3dh::SignedPreKeys { pre_keys: pairs.iter().map(|p| p.1).collect(), signature }.to_proto()
}

// ---- store ----

#[test]
fn register_user_get_keys_success() {
    let mut storage = SqliteStorage::new();
    let alice = new_device();
    let alice_spk: SignedPreKeyProto = alice.spk.to_proto();
    storage.register_user(String::from("alice"), ik_of(&alice), alice_spk.clone()).unwrap();
    let (ik, spk) = storage.get_current_keys(String::from("alice")).unwrap();
    assert_eq!((ik.to_bytes(), spk), (ik_of(&alice).to_bytes(), alice_spk));
}

#[test]
fn register_user_idempotent() {
    let mut storage = SqliteStorage::new();
    let alice = new_device();
    let alice_spk = alice.spk.to_proto();
    storage.register_user(String::from("alice"), ik_of(&alice), alice_spk.clone()).unwrap();
    storage.register_user(String::from("alice"), ik_of(&alice), alice_spk.clone()).unwrap();
}

#[test]
fn register_user_again_replaces_spk() {
    let mut storage = SqliteStorage::new();
    let alice = new_device();
    let mut spk = alice.spk.to_proto();
    storage.register_user(String::from("alice"), ik_of(&alice), spk.clone()).unwrap();
    spk.pre_key = Some(x25519_public_key(&generate_x25519_secret()).to_vec());
    storage.register_user(String::from("alice"), ik_of(&alice), spk.clone()).unwrap();
    let (ik, stored) = storage.get_current_keys(String::from("alice")).unwrap();
    assert_eq!((ik.to_bytes(), stored), (ik_of(&alice).to_bytes(), spk));
}

#[test]
fn register_user_overwrite_fails() {
    let mut storage = SqliteStorage::new();
    let alice = new_device();
    let alice_spk = alice.spk.to_proto();
    storage.register_user(String::from("alice"), ik_of(&alice), alice_spk.clone()).unwrap();
    let alice2 = new_device();
    assert_eq!(
        storage.register_user(String::from("alice"), ik_of(&alice2), alice_spk.clone()).err().map(|e| e.code()),
        Some(Code::AlreadyExists)
    );
}

#[test]
fn get_keys_not_found() {
    let storage = SqliteStorage::new();
    assert_eq!(storage.get_current_keys(String::from("alice")).err().map(|e| e.code()), Some(Code::NotFound));
}

#[test]
fn pop_empty_opks_none() {
    let mut storage = SqliteStorage::new();
    assert_eq!(storage.pop_opk(String::from("bob")).unwrap(), None);
}

#[test]
fn retrieve_opk() {
    let bob_name = String::from("bob");
    let mut storage = SqliteStorage::new();
    let bob = new_device();
    let key = x25519_public_key(&generate_x25519_secret());
    storage.register_user(bob_name.clone(), ik_of(&bob), bob.spk.to_proto()).unwrap();
    storage.add_opks(bob_name.clone(), vec![key]).unwrap();
    assert_eq!(storage.pop_opk(bob_name.clone()).unwrap(), Some(key));
    assert_eq!(storage.pop_opk(bob_name).unwrap(), None);
}

#[test]
fn updating_spk_user_not_found() {
    let mut storage = SqliteStorage::new();
    assert_eq!(
        storage.update_spk(String::from("bob"), SignedPreKeyProto::default()).err().map(|e| e.code()),
        Some(Code::NotFound)
    );
}

#[test]
fn update_spk_success() {
    let mut storage = SqliteStorage::new();
    let bob = new_device();
    let mut bob_spk = bob.spk.to_proto();
    storage.register_user(String::from("bob"), ik_of(&bob), bob_spk.clone()).unwrap();
    bob_spk.pre_key = Some(x25519_public_key(&generate_x25519_secret()).to_vec());
    storage.update_spk(String::from("bob"), bob_spk.clone()).unwrap();
    let (ik, spk) = storage.get_current_keys(String::from("bob")).unwrap();
    assert_eq!((ik.to_bytes(), spk), (ik_of(&bob).to_bytes(), bob_spk));
}

#[test]
fn add_message_unknown_user() {
    let mut storage = SqliteStorage::new();
    assert_eq!(
        storage.add_message(String::from("bob"), MessageProto::default()).err().map(|e| e.code()),
        Some(Code::NotFound)
    );
}

#[test]
fn add_get_message() {
    let bob_name = String::from("bob");
    let mut storage = SqliteStorage::new();
    let bob = new_device();
    storage.register_user(bob_name.clone(), ik_of(&bob), bob.spk.to_proto()).unwrap();
    let message_proto = MessageProto {
        sender_identity_key: Some(b"alice identity key".to_vec()),
        ephemeral_key: Some(b"alice ephemeral key".to_vec()),
        pre_key: Some(b"bob pre key".to_vec()),
        one_time_key: Some(b"bob one time key".to_vec()),
        ciphertext: Some(b"ciphertext".to_vec()),
    };
    storage.add_message(bob_name.clone(), message_proto.clone()).unwrap();
    assert_eq!(storage.get_messages(bob_name).unwrap(), vec![message_proto]);
}

#[test]
fn store_opks_come_out_oldest_first() {
    let mut storage = SqliteStorage::new();
    let bob = new_device();
    storage.register_user(String::from("bob"), ik_of(&bob), bob.spk.to_proto()).unwrap();
    let k1 = x25519_public_key(&generate_x25519_secret());
    let k2 = x25519_public_key(&generate_x25519_secret());
    storage.add_opks(String::from("bob"), vec![k1, k2]).unwrap();
    assert_eq!(storage.get_one_time_prekey_count(String::from("bob")).unwrap(), 2);
    assert_eq!(storage.pop_opk(String::from("bob")).unwrap(), Some(k1));
    assert_eq!(storage.pop_opk(String::from("bob")).unwrap(), Some(k2));
    assert_eq!(storage.get_one_time_prekey_count(String::from("bob")).unwrap(), 0);
}

#[test]
fn store_duplicate_opk_stops_insertion() {
    let mut storage = SqliteStorage::new();
    let bob = new_device();
    storage.register_user(String::from("bob"), ik_of(&bob), bob.spk.to_proto()).unwrap();
    let k1 = x25519_public_key(&generate_x25519_secret());
    let k2 = x25519_public_key(&generate_x25519_secret());
    let err = storage.add_opks(String::from("bob"), vec![k1, k1, k2]).unwrap_err();
    assert_eq!(err.code(), Code::Internal);
    assert_eq!(err.message(), "failed to insert one time key");
    assert_eq!(storage.get_one_time_prekey_count(String::from("bob")).unwrap(), 1);
}

#[test]
fn store_opks_for_unknown_user_fail() {
    let mut storage = SqliteStorage::new();
    let k1 = x25519_public_key(&generate_x25519_secret());
    assert_eq!(storage.add_opks(String::from("nobody"), vec![k1]).unwrap_err().code(), Code::Internal);
}

#[test]
fn store_duplicate_message_refused() {
    let mut storage = SqliteStorage::new();
    let bob = new_device();
    storage.register_user(String::from("bob"), ik_of(&bob), bob.spk.to_proto()).unwrap();
    let m = MessageProto { ciphertext: Some(vec![1, 2, 3]), ..MessageProto::default() };
    storage.add_message(String::from("bob"), m.clone()).unwrap();
    let err = storage.add_message(String::from("bob"), m.clone()).unwrap_err();
    assert_eq!(err.code(), Code::NotFound);
    assert_eq!(err.message(), "Cannot enqueue message for unknown user: UNIQUE constraint failed: message.message");
    assert_eq!(storage.get_messages(String::from("bob")).unwrap(), vec![m]);
    assert!(storage.get_messages(String::from("bob")).unwrap().is_empty());
}

#[test]
fn store_register_messages_name_the_user() {
    let mut storage = SqliteStorage::new();
    let a = new_device();
    let b = new_device();
    storage.register_user(String::from("carol"), ik_of(&a), a.spk.to_proto()).unwrap();
    let err = storage.register_user(String::from("carol"), ik_of(&b), b.spk.to_proto()).unwrap_err();
    assert_eq!(err.message(), "A user is already registered with username: carol");
    let err = storage.update_spk(String::from("dave"), SignedPreKeyProto::default()).unwrap_err();
    assert_eq!(err.message(), "pre key for user dave not found");
}

// ---- controller ----

fn register_request(device: &Device, n: usize, token: Option<&str>) -> RegisterPreKeyBundleRequest {
    RegisterPreKeyBundleRequest {
        identity_key: Some(ik_of(device).to_bytes().to_vec()),
        signed_pre_key: Some(device.spk.to_proto()),
        one_time_key_bundle: Some(opks(device, n)),
        fcm_token: token.map(|t| t.to_string()),
    }
}

#[test]
fn controller_register_and_fetch_bundle() {
    let mut controller = BrongnalController::new(SqliteStorage::new());
    let bob = new_device();
    let response = controller.register_pre_key_bundle(register_request(&bob, 2, None), 0).unwrap();
    assert_eq!(response.num_keys, Some(2));
    let request = PreKeyBundleRequest { identity_key: Some(ik_of(&bob).to_bytes().to_vec()) };
    let b1 = controller.request_pre_keys(request.clone()).unwrap();
    let b2 = controller.request_pre_keys(request.clone()).unwrap();
    let b3 = controller.request_pre_keys(request).unwrap();
    assert!(b1.one_time_key.is_some());
    assert!(b2.one_time_key.is_some());
    assert_ne!(b1.one_time_key, b2.one_time_key);
    assert_eq!(b3.one_time_key, None);
    assert_eq!(b1.signed_pre_key, Some(bob.spk.to_proto()));
    let bundle = x3dh::PreKeyBundle::try_from_proto(&b1).unwrap();
    assert_eq!(bundle.ik.to_bytes(), ik_of(&bob).to_bytes());
}

#[test]
fn controller_refuses_bad_signatures() {
    let mut controller = BrongnalController::new(SqliteStorage::new());
    let bob = new_device();
    let mallory = new_device();
    let mut request = register_request(&bob, 1, None);
    request.one_time_key_bundle = Some(opks(&mallory, 1));
    let err = controller.register_pre_key_bundle(request, 0).unwrap_err();
    assert_eq!(err.code(), Code::Unauthenticated);
    assert_eq!(err.message(), "failed to validate one time prekey bundle signature");
    let mut request = register_request(&bob, 1, None);
    request.signed_pre_key = Some(mallory.spk.to_proto());
    let err = controller.register_pre_key_bundle(request, 0).unwrap_err();
    assert_eq!(err.message(), "failed to validate signed prekey signature");
    let mut request = register_request(&bob, 1, None);
    request.identity_key = Some(vec![1, 2, 3]);
    assert_eq!(controller.register_pre_key_bundle(request, 0).unwrap_err().message(), "request has invalid identity_key");
}

#[test]
fn controller_request_unknown_device() {
    let mut controller = BrongnalController::new(SqliteStorage::new());
    let bob = new_device();
    let err = controller
        .request_pre_keys(PreKeyBundleRequest { identity_key: Some(ik_of(&bob).to_bytes().to_vec()) })
        .unwrap_err();
    assert_eq!(err.code(), Code::NotFound);
    let err = controller.request_pre_keys(PreKeyBundleRequest { identity_key: None }).unwrap_err();
    assert_eq!(err.message(), "missing recipient identity key");
}

#[test]
fn controller_queues_and_delivers_messages() {
    let mut controller = BrongnalController::new(SqliteStorage::new());
    let bob = new_device();
    let alice = new_device();
    controller.register_pre_key_bundle(register_request(&bob, 1, Some("bob-token")), 100).unwrap();
    let message = x3dh::Message {
        sender_ik: ik_of(&alice),
        ek: x25519_public_key(&generate_x25519_secret()),
        pre_key: bob.spk.pre_key,
        opk: None,
        ciphertext: b"hello".to_vec(),
    }
    .to_proto();
    let request = SendMessageRequest {
        recipient_identity_key: Some(ik_of(&bob).to_bytes().to_vec()),
        message: Some(message.clone()),
    };
    let (recipient, m) = BrongnalController::check_send_request(request).unwrap();
    let outcome = controller.handle_send_message(&recipient, m, 200);
    assert!(outcome.result.is_ok());
    let notification = outcome.notify.unwrap();
    assert_eq!(notification.token, "bob-token");
    assert_eq!(notification.payload, notification_payload(&message.encode_to_vec()));
    let delivered = controller
        .retrieve_messages(RetrieveMessagesRequest { identity_key: Some(ik_of(&bob).to_bytes().to_vec()) })
        .unwrap();
    assert_eq!(delivered, vec![message]);
}

#[test]
fn controller_stale_token_is_not_used() {
    let mut controller = BrongnalController::new(SqliteStorage::new());
    let bob = new_device();
    controller.register_pre_key_bundle(register_request(&bob, 1, Some("old")), 0).unwrap();
    let m = MessageProto { ciphertext: Some(vec![9]), ..MessageProto::default() };
    let outcome = controller.handle_send_message(&ik_of(&bob), m, 1209601);
    assert!(outcome.notify.is_none());
    assert!(outcome.result.is_ok());
}

#[test]
fn controller_send_request_checks() {
    let err = BrongnalController::check_send_request(SendMessageRequest { recipient_identity_key: None, message: None })
        .unwrap_err();
    assert_eq!(err.message(), "request missing message");
    let err = BrongnalController::check_send_request(SendMessageRequest {
        recipient_identity_key: Some(vec![0; 3]),
        message: Some(MessageProto::default()),
    })
    .unwrap_err();
    assert_eq!(err.message(), "invalid recipient identity key");
    let bob = new_device();
    let err = BrongnalController::check_send_request(SendMessageRequest {
        recipient_identity_key: Some(ik_of(&bob).to_bytes().to_vec()),
        message: Some(MessageProto::default()),
    })
    .unwrap_err();
    assert_eq!(err.message(), "Invalid sender_identity_key: Key was not a valid ED25519 point.");
}

#[test]
fn push_payload_size_limit() {
    assert_eq!(notification_payload(b"hi"), "aGk=");
    assert_eq!(notification_payload(&vec![0u8; 2049]), "");
    assert_eq!(notification_payload(&vec![0u8; 3]), "AAAA");
}

// ---- in-memory Gossamer ----

fn claim(signer: &SigningKey, provider: &[u8], key: VerifyingKey, action: Action) -> gossamer_wire::SignedMessage {
    let message = GossamerMessage { provider: provider.to_vec(), public_key: key, action };
    let encoded = message.to_proto().encode_to_vec();
    let signature = signer.sign(&encoded);
    GossamerSignedMessage { message, signature, identity_key: signer.verifying_key() }.to_proto()
}

#[test]
fn memory_gossamer_claim_and_revoke() {
    let mut ledger = InMemoryGossamer::new();
    let alice = SigningKey::generate();
    let bob = SigningKey::generate();
    ledger.handle_action(claim(&alice, b"alice", alice.verifying_key(), Action::AppendKey)).unwrap();
    ledger.handle_action(claim(&alice, b"alice", alice.verifying_key(), Action::AppendKey)).unwrap();
    let err = ledger.handle_action(claim(&bob, b"alice", bob.verifying_key(), Action::AppendKey)).unwrap_err();
    assert_eq!(err.code(), Code::AlreadyExists);
    assert_eq!(err.message(), "Provider: [97, 108, 105, 99, 101] is already registered.");
    let err = ledger.handle_action(claim(&bob, b"alice", bob.verifying_key(), Action::RevokeKey)).unwrap_err();
    assert_eq!(err.code(), Code::PermissionDenied);
    let err = ledger.handle_action(claim(&bob, b"alice", alice.verifying_key(), Action::AppendKey)).unwrap_err();
    assert_eq!(err.code(), Code::Unimplemented);
    let ledger_view = ledger.get_ledger();
    assert_eq!(ledger_view.users.len(), 1);
    assert_eq!(ledger_view.users[0].public_keys, vec![alice.verifying_key().to_bytes().to_vec()]);
    ledger.handle_action(claim(&alice, b"alice", alice.verifying_key(), Action::RevokeKey)).unwrap();
    assert!(ledger.get_ledger().users.is_empty());
    let err = ledger.handle_action(claim(&alice, b"alice", alice.verifying_key(), Action::RevokeKey)).unwrap_err();
    assert_eq!(err.code(), Code::FailedPrecondition);
    let err = ledger.action(ActionRequest { message: None }).err().unwrap();
    assert_eq!(err.code(), Code::InvalidArgument);
}

// ---- wire conversions ----

#[test]
fn signed_pre_key_conversions() {
    let bob = new_device();
    let proto = bob.spk.to_proto();
    let back = SignedPreKey::try_from_proto(&proto).unwrap();
    assert_eq!(back.pre_key, bob.spk.pre_key);
    assert_eq!(back.signature.to_vec(), bob.spk.signature.to_vec());
    let short = SignedPreKeyProto { pre_key: Some(vec![1; 31]), signature: proto.signature.clone() };
    assert_eq!(
        SignedPreKey::try_from_proto(&short).unwrap_err().message(),
        "Invalid SignedPreKey: Key was not a valid X25519 point."
    );
    let bad_sig = SignedPreKeyProto { pre_key: proto.pre_key.clone(), signature: Some(vec![0; 63]) };
    assert_eq!(SignedPreKey::try_from_proto(&bad_sig).unwrap_err().message(), "Pre Key has an invalid X25519 Signature");
}

#[test]
fn message_conversions() {
    let alice = new_device();
    let m = x3dh::Message {
        sender_ik: ik_of(&alice),
        ek: [7u8; 32],
        pre_key: [8u8; 32],
        opk: Some([9u8; 32]),
        ciphertext: vec![1, 2, 3],
    };
    let proto = m.to_proto();
    let back = x3dh::Message::try_from_proto(&proto).unwrap();
    assert_eq!(back.ek, [7u8; 32]);
    assert_eq!(back.opk, Some([9u8; 32]));
    assert_eq!(back.ciphertext, vec![1, 2, 3]);
    let mut missing = proto.clone();
    missing.ciphertext = None;
    assert_eq!(x3dh::Message::try_from_proto(&missing).unwrap_err().message(), "request missing ciphertext");
    let mut bad_pre = proto.clone();
    bad_pre.pre_key = Some(vec![1]);
    assert_eq!(
        x3dh::Message::try_from_proto(&bad_pre).unwrap_err().message(),
        "Invalid pre: Key was not a valid X25519 point."
    );
    let encoded = proto.encode_to_vec();
    assert_eq!(encoded[0], 10);
    assert_eq!(encoded[1], 32);
}

#[test]
fn memory_storage_behaviour() {
    let mut storage = MemoryStorage::new();
    let bob = new_device();
    let name = String::from("bob");
    let k1 = x25519_public_key(&generate_x25519_secret());
    let k2 = x25519_public_key(&generate_x25519_secret());
    assert_eq!(storage.add_opks(&name, vec![k1]).unwrap_err().code(), Code::NotFound);
    assert_eq!(storage.get_current_keys(&name).unwrap_err().message(), "User not found.");
    storage.register_user(name.clone(), ik_of(&bob), bob.spk.to_proto()).unwrap();
    storage.add_opks(&name, vec![k1, k2]).unwrap();
    assert_eq!(storage.pop_opk(&name).unwrap(), Some(k2));
    // Registering again discards the one-time prekeys.
    storage.register_user(name.clone(), ik_of(&bob), bob.spk.to_proto()).unwrap();
    assert_eq!(storage.pop_opk(&name).unwrap(), None);
    // The signed prekey is replaced; the identity key stays.
    storage.update_spk("bob", SignedPreKeyProto::default()).unwrap();
    let (ik, spk) = storage.get_current_keys(&name).unwrap();
    assert_eq!((ik.to_bytes(), spk), (ik_of(&bob).to_bytes(), SignedPreKeyProto::default()));
    assert_eq!(storage.update_spk("carol", SignedPreKeyProto::default()).unwrap_err().code(), Code::NotFound);
    let m = MessageProto { ciphertext: Some(vec![4]), ..MessageProto::default() };
    storage.add_message(&String::from("nobody"), m.clone()).unwrap();
    assert_eq!(storage.get_messages(&String::from("nobody")).unwrap(), vec![m]);
    assert!(storage.get_messages(&String::from("nobody")).unwrap().is_empty());
}
