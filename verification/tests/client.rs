use base64::Engine;
use brongnal::gossamer::{Action, Message as GossamerMessage, SignedMessage as GossamerSignedMessage};
use brongnal::gossamer_persistence::GossamerStorage;
use brongnal::gossamer_service::{ActionRequest, Service};
use brongnal::messages::MessageModel;
use brongnal::attestation::{compute_pubkey_hash, eat_nonce_binds, AttestationError, AttestationVerifier, GcaClaims};
use brongnal::brongnal::BrongnalController;
use brongnal::client::{get_keys, keys_to_add, register_username, ClientError, MemoryClient};
use brongnal::command::{parse_cli_command, parse_command, CliCommand, CommandError};
use brongnal::history::{HistoryError, MessageHistory};
use brongnal::mailbox::SqliteStorage;
use brongnal::memory_server::{BrongnalServerError, MemoryServer};
use brongnal::messages::MessageState;
use brongnal::mock_backend::MockBackend;
use brongnal::proto::application::ApplicationMessage;
use brongnal::proto::gossamer::AttestationResponse;
use brongnal::proto::service::{PreKeyBundleRequest, RetrieveMessagesRequest, SendMessageRequest};
use brongnal::ratchet::{ratchet, ChainKey, RootKey};
use brongnal::session::{SessionError, SessionKeys};
use brongnal::x3dh::{self, initiate_send, PreKeyBundle};

// ---- attestation ----

#[test]
fn test_verify_untrusted_digest() {
    let verifier = AttestationVerifier;
    let resp = AttestationResponse { container_image_digest: Some(vec![0xBB; 32]), gca_token: None };
    let result = verifier.check_image(&resp);
    assert!(matches!(result, Err(AttestationError::UntrustedContainer(_))));
}

#[test]
fn test_verify_missing_gca_token() {
    let verifier = AttestationVerifier;
    let resp = AttestationResponse { container_image_digest: Some(vec![0xAA; 32]), gca_token: None };
    let result = verifier.check_image(&resp);
    assert!(matches!(result, Err(AttestationError::MissingField("gca_token"))));
}

fn good_claims() -> GcaClaims {
    GcaClaims {
        iss: "https://confidentialcomputing.googleapis.com".to_string(),
        sub: String::new(),
        aud: String::new(),
        exp: 0,
        iat: 0,
        eat_nonce: vec!["AQI=".to_string()],
        secboot: true,
        hwmodel: "GCP_AMD_SEV".to_string(),
        swname: None,
        dbgstat: "disabled-since-boot".to_string(),
        google_service_accounts: None,
    }
}

#[test]
fn attestation_claims_checks() {
    let verifier = AttestationVerifier;
    let resp = AttestationResponse { container_image_digest: Some(vec![0xAA; 32]), gca_token: Some("t".into()) };
    assert_eq!(verifier.check_image(&resp).unwrap(), "t");
    assert!(matches!(
        verifier.check_image(&AttestationResponse { container_image_digest: None, gca_token: None }),
        Err(AttestationError::MissingField("container_image_digest"))
    ));
    assert!(verifier.check_claims(&good_claims(), &[1, 2]).is_ok());
    let mut c = good_claims();
    c.hwmodel = "GCP_INTEL_TDX".into();
    assert!(matches!(verifier.check_claims(&c, &[]), Err(AttestationError::InvalidHardware(h)) if h == "GCP_INTEL_TDX"));
    let mut c = good_claims();
    c.secboot = false;
    assert!(matches!(verifier.check_claims(&c, &[]), Err(AttestationError::InsecureBoot)));
    let mut c = good_claims();
    c.dbgstat = "enabled".into();
    assert!(matches!(verifier.check_claims(&c, &[]), Err(AttestationError::DebugEnabled(_))));
    assert!(matches!(
        verifier.check_claims(&good_claims(), &[3, 4]),
        Err(AttestationError::TlsBindingMismatch { expected, actual }) if expected == vec![3, 4] && actual.is_empty()
    ));
    let mut c = good_claims();
    c.eat_nonce = vec!["other".to_string(), "0304".to_string()];
    assert!(verifier.check_claims(&c, &[3, 4]).is_ok());
}

#[test]
fn attestation_nonce_binding() {
    let hash = compute_pubkey_hash(b"certificate");
    assert_eq!(hash.len(), 32);
    let hex: String = hash.iter().map(|b| format!("{:02x}", b)).collect();
    assert!(eat_nonce_binds(&vec!["x".into(), hex], &hash));
    assert!(!eat_nonce_binds(&vec!["x".into()], &hash));
    assert!(eat_nonce_binds(&vec!["AQI=".into()], &[1, 2]));
}

// ---- client ----

#[test]
fn memory_client_round_trip() {
    let mut bob = MemoryClient::new();
    let alice = MemoryClient::new();
    let opks = bob.create_opks(2);
    assert_eq!(opks.pre_keys.len(), 2);
    let bundle = PreKeyBundle { ik: bob.get_ik().verifying_key(), opk: Some(opks.pre_keys[0]), spk: bob.get_spk() };
    let request = alice.prepare_message(&bundle.to_proto(), b"Hello Bob!").unwrap();
    let message = x3dh::Message::try_from_proto(&request.message.unwrap()).unwrap();
    assert_eq!(bob.receive(&message).unwrap(), b"Hello Bob!".to_vec());
    // The one-time prekey was used up.
    assert!(matches!(bob.receive(&message), Err(ClientError::WipeOpk(_))));
    assert!(bob.fetch_wipe_opk(&opks.pre_keys[1]).is_ok());
    assert!(bob.fetch_wipe_opk(&opks.pre_keys[1]).is_err());
}

#[test]
fn memory_client_rejects_bad_bundle() {
    let bob = MemoryClient::new();
    let mallory = MemoryClient::new();
    let bundle = PreKeyBundle { ik: bob.get_ik().verifying_key(), opk: None, spk: mallory.get_spk() };
    let alice = MemoryClient::new();
    assert!(matches!(
        alice.prepare_message(&bundle.to_proto(), b"hi"),
        Err(ClientError::X3DH(x3dh::X3DHError::SignatureValidation))
    ));
    let mut wire = bundle.to_proto();
    wire.signed_pre_key = None;
    assert!(matches!(alice.prepare_message(&wire, b"hi"), Err(ClientError::Grpc(_))));
}

#[test]
fn client_registers_with_controller() {
    let mut bob = MemoryClient::new();
    let mut alice = MemoryClient::new();
    let mut server = BrongnalController::new(SqliteStorage::new());
    let reply = server.register_pre_key_bundle(bob.registration_request(0, None), 0).unwrap();
    assert_eq!(reply.num_keys, Some(0));
    let more = keys_to_add(reply.num_keys);
    assert_eq!(more, 100);
    let reply = server.register_pre_key_bundle(bob.registration_request(more, None), 0).unwrap();
    assert_eq!(reply.num_keys, Some(100));
    assert_eq!(keys_to_add(reply.num_keys), 0);
    server.register_pre_key_bundle(alice.registration_request(1, None), 0).unwrap();
    let bob_ik = bob.get_ik().verifying_key().to_bytes().to_vec();
    let bundle = server.request_pre_keys(PreKeyBundleRequest { identity_key: Some(bob_ik.clone()) }).unwrap();
    let send: SendMessageRequest = alice.prepare_message(&bundle, b"Hello Bob!").unwrap();
    let (recipient, message) = BrongnalController::check_send_request(send).unwrap();
    assert!(server.handle_send_message(&recipient, message, 0).result.is_ok());
    let inbox = server.retrieve_messages(RetrieveMessagesRequest { identity_key: Some(bob_ik) }).unwrap();
    assert_eq!(inbox.len(), 1);
    let m = x3dh::Message::try_from_proto(&inbox[0]).unwrap();
    assert_eq!(bob.receive(&m).unwrap(), b"Hello Bob!".to_vec());
}

#[test]
fn session_keys_set_get_destroy() {
    let mut keys = SessionKeys::new();
    assert_eq!(keys.get_encryption_key(&"bob".to_string()), Err(SessionError::NotFound));
    keys.set_session_key("bob".to_string(), &[1; 32]);
    keys.set_session_key("carol".to_string(), &[2; 32]);
    keys.set_session_key("bob".to_string(), &[3; 32]);
    assert_eq!(keys.get_encryption_key(&"bob".to_string()), Ok([3; 32]));
    keys.destroy_session_key(&"bob".to_string());
    assert_eq!(keys.get_encryption_key(&"bob".to_string()), Err(SessionError::NotFound));
    assert_eq!(keys.get_encryption_key(&"carol".to_string()), Ok([2; 32]));
}

// ---- ratchet ----

#[test]
fn ratchet_steps_are_deterministic() {
    let (l1, r1) = ratchet(&[7; 32]);
    let (l2, r2) = ratchet(&[7; 32]);
    assert_eq!((l1, r1), (l2, r2));
    assert_ne!(l1, r1);
    let (rk, ck) = RootKey([1; 32]).kdf_rk(&[0; 32]);
    let (rk2, ck2) = RootKey([1; 32]).kdf_rk(&[9; 32]);
    assert_ne!(rk.0, rk2.0);
    assert_ne!(ck.0, ck2.0);
    let (rk3, ck3) = RootKey([1; 32]).kdf_rk(&[0; 32]);
    assert_eq!((rk.0, ck.0), (rk3.0, ck3.0));
    let (next, mk) = ChainKey(ck.0).kdf_ck();
    assert_ne!(next.0, mk.0);
    assert_ne!(next.0, ck.0);
}

// ---- command line ----

#[test]
fn command_line_parsing() {
    let c = parse_command("bob  hello there").unwrap();
    assert_eq!(c.to, "bob");
    assert_eq!(c.msg, "hello there");
    assert_eq!(parse_command(" bob hi").err(), Some(CommandError::AlphaNumeric));
    assert_eq!(parse_command("bob").err(), Some(CommandError::MultiSpace));
    assert_eq!(parse_command("bob,hi").err(), Some(CommandError::MultiSpace));
    let c = parse_command("alice\t").unwrap();
    assert_eq!(c.msg, "");
}

// ---- key server ----

#[test]
fn memory_server_flow() {
    let mut server = MemoryServer::new();
    let mut bob = MemoryClient::new();
    let alice = MemoryClient::new();
    let bob_ik = bob.get_ik().verifying_key();
    assert_eq!(
        server.fetch_prekey_bundle(&"Bob".to_string()).err(),
        Some(BrongnalServerError::NotFound)
    );
    server.set_spk("Bob".to_string(), bob_ik, bob.get_spk()).unwrap();
    let otks = bob.create_opks(2);
    server.publish_otk_bundle("Bob".to_string(), bob_ik, otks.clone()).unwrap();
    assert_eq!(
        server.set_spk("Bob".to_string(), bob_ik, alice.get_spk()).err(),
        Some(BrongnalServerError::SignatureValidation)
    );
    let bundle = server.fetch_prekey_bundle(&"Bob".to_string()).unwrap();
    assert_eq!(bundle.opk, Some(otks.pre_keys[1]));
    let (_sk, message) = initiate_send(bundle, &alice.get_ik(), b"Hi Bob").unwrap();
    server.send_message(&"Bob".to_string(), message).unwrap();
    let messages = server.retrieve_messages(&"Bob".to_string());
    assert_eq!(messages.len(), 1);
    assert_eq!(bob.receive(&messages[0]).unwrap(), b"Hi Bob".to_vec());
    assert!(server.retrieve_messages(&"Bob".to_string()).is_empty());
    assert_eq!(server.fetch_prekey_bundle(&"Bob".to_string()).unwrap().opk, Some(otks.pre_keys[0]));
    assert_eq!(server.fetch_prekey_bundle(&"Bob".to_string()).unwrap().opk, None);
    assert_eq!(BrongnalServerError::PreconditionError.text(), "User is not registered.");
    assert_eq!(BrongnalServerError::NotFound.text(), "User not found.");
}

// ---- message history ----

#[test]
fn history_records_messages() {
    let mut history = MessageHistory::new();
    let id = history.persist_message("alice".into(), "bob".into(), "hi".into(), MessageState::Sending, 10);
    assert_eq!(id, 1);
    history.persist_message_state(id, MessageState::Sent).unwrap();
    let m = history.get_message(id).unwrap();
    assert_eq!(m.state, MessageState::Sent);
    assert_eq!(m.text, "hi");
    assert_eq!(history.persist_message_state(5, MessageState::Read), Err(HistoryError::NoSuchMessage));
    let received = ApplicationMessage { claimed_sender: "bob".into(), text: "yo".into() };
    assert_eq!(history.set_received("alice".into(), received, 11), Ok(2));
    let stranger = ApplicationMessage { claimed_sender: "eve".into(), text: "?".into() };
    assert_eq!(history.set_received("alice".into(), stranger, 12), Err(HistoryError::UnknownUser));
    let all = history.get_messages();
    assert_eq!(all.messages.len(), 2);
    assert_eq!(all.messages[1].state, MessageState::Delivered);
    assert_eq!(all.messages[1].sender, "bob");
}

// ---- mock backend ----

#[test]
fn mock_backend_passes_messages() {
    let mut backend = MockBackend::new();
    let reply = backend
        .request_pre_keys(PreKeyBundleRequest { identity_key: Some(vec![5; 32]) })
        .unwrap();
    assert_eq!(reply.one_time_key, Some(vec![2; 32]));
    assert!(backend.request_pre_keys(PreKeyBundleRequest { identity_key: None }).is_err());
    let m = brongnal::proto::service::Message { ciphertext: Some(vec![1]), ..Default::default() };
    backend
        .send_message(SendMessageRequest { recipient_identity_key: Some(vec![5; 32]), message: Some(m.clone()) })
        .unwrap();
    let who = backend.retrieve_messages(RetrieveMessagesRequest { identity_key: Some(vec![5; 32]) }).unwrap();
    assert_eq!(backend.take_messages(&who), vec![m]);
    assert!(backend.take_messages(&who).is_empty());
    assert_eq!(backend.get_attestation().gca_token, Some("mock.jwt.token".to_string()));
    assert!(backend.get_ledger().users.is_empty());
}

#[test]
fn main_test_split_services_flow() {
    // Identity service: both users claim their names.
    let mut identity = Service::new(GossamerStorage::new());
    let mut alice = MemoryClient::new();
    let mut bob = MemoryClient::new();
    for (client, name) in [(&alice, b"alice".to_vec()), (&bob, b"bob".to_vec())] {
        let ik = client.get_ik();
        let message = GossamerMessage { provider: name, public_key: ik.verifying_key(), action: Action::AppendKey };
        let signature = ik.sign(&message.to_proto().encode_to_vec());
        let signed = GossamerSignedMessage { message, signature, identity_key: ik.verifying_key() };
        identity.action(ActionRequest { message: Some(signed.to_proto()) }).unwrap();
    }
    assert_eq!(identity.get_ledger().users.len(), 2);
    // Mailbox service: both register devices, Alice writes to Bob.
    let mut mailbox = BrongnalController::new(SqliteStorage::new());
    mailbox.register_pre_key_bundle(alice.registration_request(200, None), 0).unwrap();
    mailbox.register_pre_key_bundle(bob.registration_request(200, None), 0).unwrap();
    let bob_ik = bob.get_ik().verifying_key().to_bytes().to_vec();
    let bundle = mailbox.request_pre_keys(PreKeyBundleRequest { identity_key: Some(bob_ik.clone()) }).unwrap();
    let send = alice.prepare_message(&bundle, b"Hello Bob!").unwrap();
    let (recipient, message) = BrongnalController::check_send_request(send).unwrap();
    assert!(mailbox.handle_send_message(&recipient, message, 0).result.is_ok());
    let inbox = mailbox.retrieve_messages(RetrieveMessagesRequest { identity_key: Some(bob_ik) }).unwrap();
    let received = bob.receive(&x3dh::Message::try_from_proto(&inbox[0]).unwrap()).unwrap();
    assert_eq!(received, b"Hello Bob!".to_vec());
}

#[test]
fn message_model_text() {
    let m = MessageModel {
        sender: "alice".into(),
        receiver: "bob".into(),
        db_recv_time: 86400,
        state: MessageState::Sent,
        text: "hi".into(),
    };
    assert_eq!(m.to_string().unwrap(), "From: alice To: bob at 1970-01-02 00:00:00 UTC with Sent\nhi");
    assert_eq!(m.display_at("then"), "From: alice To: bob at then with Sent\nhi");
    let far = MessageModel { db_recv_time: i64::MAX, ..m };
    assert!(far.to_string().is_none());
}

#[test]
fn register_username_claims_and_get_keys_lists() {
    let mut identity = Service::new(GossamerStorage::new());
    let alice = MemoryClient::new();
    let bob = MemoryClient::new();
    identity.action(register_username(&alice.get_ik(), "alice")).unwrap();
    identity.action(register_username(&bob.get_ik(), "bob")).unwrap();
    // A second claim of the same name by another key is refused.
    assert!(identity.action(register_username(&bob.get_ik(), "alice")).is_err());
    let ledger = identity.get_ledger();
    assert_eq!(get_keys(&ledger, b"alice"), vec![alice.get_ik().verifying_key().to_bytes().to_vec()]);
    assert_eq!(get_keys(&ledger, b"bob"), vec![bob.get_ik().verifying_key().to_bytes().to_vec()]);
    assert!(get_keys(&ledger, b"carol").is_empty());
}

#[test]
fn interactive_command_parsing() {
    assert!(matches!(parse_cli_command("register  bob extra"), Some(CliCommand::Register(n)) if n == "bob"));
    assert!(matches!(parse_cli_command("message bob hello you"), Some(CliCommand::Message(n, m)) if n == "bob" && m == "hello you"));
    assert!(matches!(parse_cli_command("get_messages"), Some(CliCommand::GetMessages)));
    assert!(parse_cli_command("registerbob").is_none());
    assert!(parse_cli_command("message bob").is_none());
    assert!(parse_cli_command("hello").is_none());
}

#[test]
fn memory_server_registers_from_request() {
    let mut server = MemoryServer::new();
    let mut bob = MemoryClient::new();
    let bob_ik = bob.get_ik().verifying_key();
    server.set_spk("Bob".to_string(), bob_ik, bob.get_spk()).unwrap();
    server.publish_otk_bundle("Bob".to_string(), bob_ik, bob.create_opks(2)).unwrap();
    let request = bob.registration_request(0, None);
    server.register_pre_key_bundle("Bob".to_string(), &request).unwrap();
    // The one-time prekeys were discarded.
    assert!(server.fetch_prekey_bundle(&"Bob".to_string()).unwrap().opk.is_none());
    let mut forged = request.clone();
    let mut spk = forged.signed_pre_key.clone().unwrap();
    let mut sig = spk.signature.clone().unwrap();
    sig[0] ^= 0xFF;
    spk.signature = Some(sig);
    forged.signed_pre_key = Some(spk);
    assert_eq!(
        server.register_pre_key_bundle("Bob".to_string(), &forged).err(),
        Some(BrongnalServerError::SignatureValidation)
    );
}

#[test]
fn prepare_message_with_fixed_randomness_is_deterministic() {
    let mut bob = MemoryClient::new();
    let alice = MemoryClient::new();
    let opks = bob.create_opks(1);
    let bundle = PreKeyBundle { ik: bob.get_ik().verifying_key(), opk: Some(opks.pre_keys[0]), spk: bob.get_spk() };
    let wire_bundle = bundle.to_proto();
    let a = alice.prepare_message_with(&wire_bundle, b"hello", &[5u8; 32], &[6u8; 12]).unwrap();
    let b = alice.prepare_message_with(&wire_bundle, b"hello", &[5u8; 32], &[6u8; 12]).unwrap();
    assert_eq!(a, b);
    let message = a.message.clone().unwrap();
    assert_eq!(message.ephemeral_key, Some(brongnal::keys::x25519_public_key(&[5u8; 32]).to_vec()));
    let read = x3dh::Message::try_from_proto(&message).unwrap();
    assert_eq!(bob.receive(&read).unwrap(), b"hello".to_vec());
}

fn jwt_with_header(header: &str) -> String {
    let enc = |s: &str| base64::engine::general_purpose::URL_SAFE_NO_PAD.encode(s.as_bytes());
    format!("{}.{}.{}", enc(header), enc("{\"exp\":1}"), enc("signature"))
}

#[test]
fn attestation_token_checks() {
    let verifier = AttestationVerifier;
    let jwks = "{\"keys\":[]}";
    let response = |token: &str| AttestationResponse {
        container_image_digest: Some(vec![0xAA; 32]),
        gca_token: Some(token.to_string()),
    };
    // An untrusted image is refused before the token is looked at.
    let untrusted = AttestationResponse { container_image_digest: Some(vec![1; 32]), gca_token: Some("x".into()) };
    assert!(matches!(verifier.verify_token(&untrusted, jwks), Err(AttestationError::UntrustedContainer(_))));
    // A token that is not a JWT is refused with the decoder's reason.
    assert!(matches!(verifier.verify_token(&response("not a token"), jwks), Err(AttestationError::TokenVerification(_))));
    // A header without a key id.
    let no_kid = jwt_with_header("{\"alg\":\"RS256\",\"typ\":\"JWT\"}");
    assert!(matches!(
        verifier.verify_token(&response(&no_kid), jwks),
        Err(AttestationError::TokenVerification(m)) if m == "missing kid in JWT header"
    ));
    // A key id the key set does not hold.
    let unknown = jwt_with_header("{\"alg\":\"RS256\",\"typ\":\"JWT\",\"kid\":\"k1\"}");
    assert!(matches!(
        verifier.verify_token(&response(&unknown), jwks),
        Err(AttestationError::TokenVerification(m)) if m == "kid k1 not found in JWKS"
    ));
}

#[test]
fn attestation_token_expiry() {
    let verifier = AttestationVerifier;
    let mut claims = good_claims();
    claims.exp = 1000;
    assert!(verifier.check_token_claims(&claims, &[1, 2], 1060).is_ok());
    assert!(matches!(
        verifier.check_token_claims(&claims, &[1, 2], 1061),
        Err(AttestationError::TokenVerification(m)) if m == "ExpiredSignature"
    ));
    claims.hwmodel = "other".into();
    assert!(matches!(verifier.check_token_claims(&claims, &[1, 2], 0), Err(AttestationError::InvalidHardware(_))));
}
