use k256::sha2::{Digest, Sha256};
use simple_ledger::{SecretKey, Signature, Transaction, TransactionData, B256};

#[test]
fn sign_and_verify() {
    let signer = SecretKey([42; 32]);

    let hash = B256::default();
    let signature = Signature::sign(&signer, hash).expect("signing should succeed");
    signature
        .verify(hash, signer.address().expect("key should be valid"))
        .unwrap();

    assert!(signature.verify(hash, B256::default()).is_none());
}

#[test]
fn signature_recovers_signer_address() {
    let signer = SecretKey([7; 32]);
    let address = signer.address().unwrap();
    let hash = B256::hash_of(b"payload");
    let signature = Signature::sign(&signer, hash).unwrap();
    let recovered = signature.recover(hash).unwrap();
    assert_eq!(recovered, address);
}

#[test]
fn hash_of_matches_sha256() {
    let empty_digest = B256::hash_of(b"");
    let expected = hex::decode("e3b0c44298fc1c149afbf4c8996fb92427ae41e4649b934ca495991b7852b855")
        .unwrap();
    assert_eq!(empty_digest.0.to_vec(), expected);

    let abc_digest = B256::hash_of(b"abc");
    let expected = hex::decode("ba7816bf8f01cfea414140de5dae2223b00361a396177a9cb410ff61f20015ad")
        .unwrap();
    assert_eq!(abc_digest.0.to_vec(), expected);
}

#[test]
fn transaction_hash_is_sha256_of_to_and_amount() {
    let to = B256([3; 32]);
    let amount: u64 = 0x0102030405060708;
    let data = TransactionData { to, amount };
    let mut hasher = Sha256::new();
    hasher.update([3u8; 32]);
    hasher.update(amount.to_be_bytes());
    let expected: [u8; 32] = hasher.finalize().into();
    assert_eq!(data.hash().0, expected);
}

#[test]
fn transaction_verify_accepts_signed_transaction() {
    let signer = SecretKey([9; 32]);
    let data = TransactionData { to: B256([1; 32]), amount: 5 };
    let tx = Transaction::new(data, &signer).unwrap();
    assert!(tx.verify().is_some());
    assert_eq!(tx.from, signer.address().unwrap());
}

#[test]
fn transaction_verify_rejects_forged_sender() {
    let signer = SecretKey([9; 32]);
    let data = TransactionData { to: B256([1; 32]), amount: 5 };
    let mut tx = Transaction::new(data, &signer).unwrap();
    tx.from = B256([0xee; 32]);
    assert!(tx.verify().is_none());
}

#[test]
fn transaction_verify_rejects_tampered_hash() {
    let signer = SecretKey([9; 32]);
    let data = TransactionData { to: B256([1; 32]), amount: 5 };
    let mut tx = Transaction::new(data, &signer).unwrap();
    tx.hash = B256([0xee; 32]);
    assert!(tx.verify().is_none());
}

#[test]
fn transaction_verify_rejects_tampered_amount() {
    let signer = SecretKey([9; 32]);
    let data = TransactionData { to: B256([1; 32]), amount: 5 };
    let mut tx = Transaction::new(data, &signer).unwrap();
    tx.data.amount = 6;
    assert!(tx.verify().is_none());
}
