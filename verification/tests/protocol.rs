use brongnal::aead::{
    decrypt_brongnal, decrypt_data, decrypt_data_checked, encrypt_brongnal, encrypt_data, encrypt_data_with_nonce, AeadError,
};
use brongnal::bundle::{create_prekey_bundle, sign_bundle, verify_bundle};
use brongnal::keys::{generate_x25519_secret, x25519_public_key, SigningKey};
use brongnal::x3dh::{
    initiate_recv, initiate_recv_get_sk, initiate_send, initiate_send_get_sk, kdf, PreKeyBundle,
    SignedPreKey, X3DHError, X3DHSendKeyAgreement,
};

fn random_key() -> [u8; 32] {
    generate_x25519_secret()
}

#[test]
fn aead_aead() {
    let key = random_key();
    let msg = b"Hello I am a string.";
    let ciphertext = encrypt_data(msg, &[], &key).unwrap();
    let decrypted_data = decrypt_data(&ciphertext, &[], &key).expect("decryption failed.");
    assert_eq!(msg.to_vec(), decrypted_data);
}

#[test]
fn brongnal_aead() {
    let msg = b"Hello I am a string.";
    let sk = random_key();
    let alice_ik = random_key();
    let bob_ik = random_key();
    let ciphertext = encrypt_brongnal(&sk, msg, &alice_ik, &bob_ik, "alice", "bob").unwrap();
    let decrypted = decrypt_brongnal(&sk, &ciphertext, &alice_ik, &bob_ik, "alice", "bob").unwrap();
    assert_eq!(msg.to_vec(), decrypted);
}

#[test]
fn brongnal_aead_identity_mismatch() {
    let msg = b"Hello I am a string.";
    let sk = random_key();
    let alice_ik = random_key();
    let bob_ik = random_key();
    let ciphertext = encrypt_brongnal(&sk, msg, &alice_ik, &bob_ik, "alice", "bo").unwrap();
    assert_eq!(
        decrypt_brongnal(&sk, &ciphertext, &alice_ik, &bob_ik, "alice", "bob"),
        Err(AeadError::Encrypt)
    );
}

#[test]
fn aead_envelope_layout() {
    let key = random_key();
    let ciphertext = encrypt_data(b"abc", b"ad", &key).unwrap();
    assert_eq!(ciphertext.len(), 1 + 12 + 3 + 16);
    assert_eq!(ciphertext[0], 2);
}

#[test]
fn aead_unknown_tag() {
    let key = random_key();
    assert_eq!(decrypt_data(b"v1", &[], &key), Err(AeadError::Tag(b'v')));
}

#[test]
fn aead_tampered_ciphertext() {
    let key = random_key();
    let mut ciphertext = encrypt_data(b"abc", &[], &key).unwrap();
    let last = ciphertext.len() - 1;
    ciphertext[last] ^= 1;
    assert_eq!(decrypt_data(&ciphertext, &[], &key), Err(AeadError::Encrypt));
}

#[test]
fn create_verify_bundle_success() {
    let key = SigningKey::generate();
    for bundle_size in [0, 1, 4] {
        let signed_bundle = create_prekey_bundle(&key, bundle_size);
        let bundle_keys: Vec<[u8; 32]> = signed_bundle.bundle.iter().map(|pair| pair.1).collect();
        assert_eq!(
            verify_bundle(&key.verifying_key(), &bundle_keys, &signed_bundle.signature),
            Ok(())
        );

        let other_key = SigningKey::generate();
        assert!(verify_bundle(&other_key.verifying_key(), &bundle_keys, &signed_bundle.signature).is_err());
    }
}

#[test]
fn sign_bundle_is_deterministic() {
    let key = SigningKey::from_bytes([7u8; 32]);
    let secret = [1u8; 32];
    let pairs = [(secret, x25519_public_key(&secret))];
    assert_eq!(sign_bundle(&key, &pairs), sign_bundle(&key, &pairs));
    let keys = [pairs[0].1];
    assert!(verify_bundle(&key.verifying_key(), &keys, &sign_bundle(&key, &pairs)).is_ok());
    let other = [x25519_public_key(&[2u8; 32])];
    assert!(verify_bundle(&key.verifying_key(), &other, &sign_bundle(&key, &pairs)).is_err());
}

#[test]
fn kdf_is_deterministic() {
    assert_eq!(kdf(b"key material"), kdf(b"key material"));
    assert_ne!(kdf(b"key material"), kdf(b"other material"));
}

fn bob_signed_prekey(bob_ik: &SigningKey) -> ([u8; 32], SignedPreKey) {
    let bob_spk = create_prekey_bundle(bob_ik, 1);
    let bob_spk_secret = bob_spk.bundle[0].0;
    (
        bob_spk_secret,
        SignedPreKey {
            pre_key: bob_spk.bundle[0].1,
            signature: bob_spk.signature,
        },
    )
}

#[test]
fn x3dh_key_agreement_opk() {
    let bob_ik = SigningKey::generate();
    let (bob_spk_secret, bob_spk) = bob_signed_prekey(&bob_ik);
    let alice_ik = SigningKey::generate();

    let opk = generate_x25519_secret();
    let opk_pub = x25519_public_key(&opk);

    let X3DHSendKeyAgreement { ek: ephemeral_key, sk: secret_key } =
        initiate_send_get_sk(&bob_ik.verifying_key(), &bob_spk, Some(opk_pub), &alice_ik).unwrap();

    let recv_sk = initiate_recv_get_sk(
        &alice_ik.verifying_key(),
        ephemeral_key,
        Some(opk),
        &bob_ik,
        &bob_spk_secret,
    );
    assert_eq!(secret_key, recv_sk);
}

#[test]
fn x3dh_key_agreement() {
    let bob_ik = SigningKey::generate();
    let (bob_spk_secret, bob_spk) = bob_signed_prekey(&bob_ik);
    let alice_ik = SigningKey::generate();

    let X3DHSendKeyAgreement { ek, sk } =
        initiate_send_get_sk(&bob_ik.verifying_key(), &bob_spk, None, &alice_ik).unwrap();

    let recv_sk = initiate_recv_get_sk(&alice_ik.verifying_key(), ek, None, &bob_ik, &bob_spk_secret);
    assert_eq!(sk, recv_sk);
}

#[test]
fn x3dh_send_recv_opk() {
    let bob_ik = SigningKey::generate();
    let (bob_spk_secret, bob_spk) = bob_signed_prekey(&bob_ik);
    let bob_opk_priv = generate_x25519_secret();
    let bob_opk_pub = x25519_public_key(&bob_opk_priv);
    let alice_ik = SigningKey::generate();

    let plaintext = "Hello Bob!";
    let bundle = PreKeyBundle {
        ik: bob_ik.verifying_key(),
        opk: Some(bob_opk_pub),
        spk: bob_spk,
    };
    let (send_sk, message) = initiate_send(bundle, &alice_ik, plaintext.as_bytes()).unwrap();

    let (recv_sk, decrypted) = initiate_recv(
        &bob_ik,
        &bob_spk_secret,
        &message.sender_ik,
        message.ek,
        Some(bob_opk_priv),
        &message.ciphertext,
    )
    .unwrap();
    assert_eq!(send_sk, recv_sk);
    assert_eq!("Hello Bob!", String::from_utf8(decrypted).unwrap());
}

#[test]
fn x3dh_send_recv() {
    let bob_ik = SigningKey::generate();
    let (bob_spk_secret, bob_spk) = bob_signed_prekey(&bob_ik);
    let alice_ik = SigningKey::generate();

    let bundle = PreKeyBundle {
        ik: bob_ik.verifying_key(),
        opk: None,
        spk: bob_spk,
    };
    let (send_sk, message) = initiate_send(bundle, &alice_ik, b"Hello Bob!").unwrap();

    let (recv_sk, decrypted) = initiate_recv(
        &bob_ik,
        &bob_spk_secret,
        &message.sender_ik,
        message.ek,
        None,
        &message.ciphertext,
    )
    .unwrap();
    assert_eq!(send_sk, recv_sk);
    assert_eq!("Hello Bob!", String::from_utf8(decrypted).unwrap());
}

#[test]
fn x3dh_invalid_bundle_signature() {
    let (_, bob_spk) = bob_signed_prekey(&SigningKey::generate());
    let bundle = PreKeyBundle {
        ik: SigningKey::generate().verifying_key(),
        opk: None,
        spk: bob_spk,
    };
    assert_eq!(
        initiate_send(bundle, &SigningKey::generate(), b"Hello Bob!").err(),
        Some(X3DHError::SignatureValidation)
    );
}

#[test]
fn x3dh_invalid_ciphertext() {
    let bob_ik = SigningKey::generate();
    let (bob_spk_secret, bob_spk) = bob_signed_prekey(&bob_ik);
    let alice_ik = SigningKey::generate();

    let bundle = PreKeyBundle {
        ik: bob_ik.verifying_key(),
        opk: None,
        spk: bob_spk,
    };
    let (_, message) = initiate_send(bundle, &alice_ik, b"Hello Bob!").unwrap();

    assert_eq!(
        initiate_recv(
            &bob_ik,
            &bob_spk_secret,
            &message.sender_ik,
            message.ek,
            None,
            b"invalid ciphertext",
        )
        .err(),
        Some(X3DHError::Aead(AeadError::Tag(b'i')))
    );
}

#[test]
fn aead_with_given_nonce_is_deterministic() {
    let key = [7u8; 32];
    let nonce = [3u8; 12];
    let a = encrypt_data_with_nonce(b"hello", b"ad", &key, &nonce).unwrap();
    let b = encrypt_data_with_nonce(b"hello", b"ad", &key, &nonce).unwrap();
    assert_eq!(a, b);
    assert_eq!(a.len(), 5 + 29);
    assert_eq!(a[0], 2);
    assert_eq!(&a[1..13], &nonce);
    assert_eq!(decrypt_data(&a, b"ad", &key).unwrap(), b"hello".to_vec());
}

#[test]
fn aead_checked_refuses_truncated_envelopes() {
    let key = [7u8; 32];
    assert_eq!(decrypt_data_checked(&[], &[], &key), Err(AeadError::Truncated));
    assert_eq!(decrypt_data_checked(&[2, 1, 2], &[], &key), Err(AeadError::Truncated));
    assert_eq!(decrypt_data_checked(b"v1", &[], &key), Err(AeadError::Tag(b'v')));
    let sealed = encrypt_data(b"hi", &[], &key).unwrap();
    assert_eq!(decrypt_data_checked(&sealed, &[], &key).unwrap(), b"hi".to_vec());
}
