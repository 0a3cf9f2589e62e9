use brongnal::key_table::{
    create_key_table, insert_identity_key, insert_pre_keys, lazy_init_identity_key, lazy_init_pre_key,
    load_identity_key, load_pre_key, opk_count, KeyTableError, KeyType, X3DHClient,
};
use brongnal::keys::{generate_x25519_secret, x25519_public_key, SigningKey};
use brongnal::x3dh::{initiate_send, PreKeyBundle};
use brongnal::client::ClientError;
use brongnal::aead::AeadError;
use brongnal::x3dh::X3DHError;

fn seed_of(k: Option<SigningKey>) -> Option<[u8; 32]> {
    k.map(|k| k.to_bytes())
}

#[test]
fn client_load_identity_key_not_found() {
    let table = create_key_table();
    assert_eq!(seed_of(load_identity_key(&table)), None);
}

#[test]
fn client_load_pre_key_not_found() {
    let table = create_key_table();
    assert!(load_pre_key(&table).is_none());
}

#[test]
fn client_init_identity_key() {
    let mut table = create_key_table();
    lazy_init_identity_key(&mut table, 1).unwrap();
    let key = seed_of(load_identity_key(&table));
    assert!(key.is_some());
    lazy_init_identity_key(&mut table, 2).unwrap();
    assert_eq!(seed_of(load_identity_key(&table)), key);
}

#[test]
fn client_init_pre_key() {
    let mut table = create_key_table();
    lazy_init_pre_key(&mut table, 1).unwrap();
    let key = load_pre_key(&table);
    assert!(key.is_some());
    assert_eq!(load_pre_key(&table).ok_or("no key").unwrap(), key.ok_or("no key").unwrap());
}

#[test]
fn client_fetch_pre_key() {
    let client = X3DHClient::new(create_key_table(), 0).unwrap();
    let spk = client.get_spk();
    client.get_pre_key(&spk.pre_key).unwrap();
}

#[test]
fn client_client_stuff() {
    let client = X3DHClient::new(create_key_table(), 0).unwrap();
    let _spk = client.get_spk();
}

#[test]
fn sqlite_client_load_identity_key_not_found() {
    let table = create_key_table();
    assert_eq!(seed_of(load_identity_key(&table)), None);
}

#[test]
fn sqlite_client_load_pre_key_not_found() {
    let table = create_key_table();
    assert_eq!(load_pre_key(&table).is_none(), true);
}

#[test]
fn sqlite_client_init_identity_key() {
    let mut table = create_key_table();
    lazy_init_identity_key(&mut table, 1).unwrap();
    let key = seed_of(load_identity_key(&table));
    assert_eq!(key.is_some(), true);
    lazy_init_identity_key(&mut table, 2).unwrap();
    assert_eq!(seed_of(load_identity_key(&table)), key);
}

#[test]
fn sqlite_client_init_pre_key() {
    let mut table = create_key_table();
    lazy_init_pre_key(&mut table, 1).unwrap();
    let key = load_pre_key(&table);
    assert_eq!(key.is_some(), true);
    assert_eq!(load_pre_key(&table).ok_or("no key").unwrap(), key.ok_or("no key").unwrap());
}

#[test]
fn sqlite_client_fetch_pre_key() {
    let mut table = create_key_table();
    lazy_init_pre_key(&mut table, 1).unwrap();
    let key1 = load_pre_key(&table);
    assert_eq!(key1.is_some(), true);
    let key1 = key1.unwrap();
    let client = X3DHClient::new(table, 2).unwrap();
    assert_eq!(client.get_pre_key(&x25519_public_key(&key1)).unwrap(), key1);
}

#[test]
fn sqlite_client_client_stuff() {
    let client = X3DHClient::new(create_key_table(), 0).unwrap();
    let _ik = client.get_ik();
    let _spk = client.get_spk();
}

#[test]
fn key_table_rejects_duplicates() {
    let mut table = create_key_table();
    let ik = SigningKey::generate();
    insert_identity_key(&ik, &mut table, 0).unwrap();
    assert_eq!(insert_identity_key(&ik, &mut table, 1), Err(KeyTableError::DuplicateKey));
    let a = generate_x25519_secret();
    let b = generate_x25519_secret();
    assert_eq!(insert_pre_keys(&[a, a, b], KeyType::OneTimePre, &mut table, 2), Err(KeyTableError::DuplicateKey));
    assert_eq!(opk_count(&table), Some(1));
    insert_pre_keys(&[b], KeyType::OneTimePre, &mut table, 3).unwrap();
    assert_eq!(opk_count(&table), Some(2));
}

#[test]
fn key_table_client_opks_are_used_once() {
    let mut client = X3DHClient::new(create_key_table(), 0).unwrap();
    let opks = client.create_opks(3, 1).unwrap();
    assert_eq!(opks.pre_keys.len(), 3);
    let secret = client.fetch_wipe_opk(&opks.pre_keys[0]).unwrap();
    assert_eq!(x25519_public_key(&secret), opks.pre_keys[0]);
    assert!(client.fetch_wipe_opk(&opks.pre_keys[0]).is_err());
    assert!(client.get_pre_key(&opks.pre_keys[0]).is_err());
    assert!(client.get_pre_key(&opks.pre_keys[1]).is_ok());
}

#[test]
fn key_table_client_receives_and_wipes_opk() {
    let mut bob = X3DHClient::new(create_key_table(), 0).unwrap();
    let opks = bob.create_opks(1, 1).unwrap();
    let alice = SigningKey::generate();
    let bundle = PreKeyBundle { ik: bob.get_ik().verifying_key(), opk: Some(opks.pre_keys[0]), spk: bob.get_spk() };
    let (_sk, message) = initiate_send(bundle, &alice, b"hello bob").unwrap();
    assert_eq!(message.ciphertext.len(), b"hello bob".len() + 29);
    assert_eq!(bob.receive(&message).unwrap(), b"hello bob".to_vec());
    // The one-time prekey served once: reading the message again fails.
    assert!(bob.receive(&message).is_err());
    assert!(bob.get_pre_key(&opks.pre_keys[0]).is_err());
}

#[test]
fn key_table_client_receives_wire_messages() {
    let mut bob = X3DHClient::new(create_key_table(), 0).unwrap();
    let opks = bob.create_opks(1, 1).unwrap();
    let alice = SigningKey::generate();
    let bundle = PreKeyBundle { ik: bob.get_ik().verifying_key(), opk: Some(opks.pre_keys[0]), spk: bob.get_spk() };
    let (_sk, message) = initiate_send(bundle, &alice, b"over the wire").unwrap();
    let wire_message = message.to_proto();
    // A message with a truncated envelope is refused, and nothing is wiped.
    let mut truncated = wire_message.clone();
    truncated.ciphertext = Some(vec![2, 0]);
    assert!(matches!(bob.receive_wire(&truncated), Err(ClientError::X3DH(X3DHError::Aead(AeadError::Truncated)))));
    // An invalid wire message is refused.
    let mut invalid = wire_message.clone();
    invalid.ephemeral_key = Some(vec![1, 2, 3]);
    assert!(matches!(bob.receive_wire(&invalid), Err(ClientError::Grpc(_))));
    assert_eq!(bob.receive_wire(&wire_message).unwrap(), b"over the wire".to_vec());
    assert!(bob.receive_wire(&wire_message).is_err());
}
