use onepass::encrypt::decrypt;
use onepass::encrypt::encrypt;
use onepass::encrypt::generate_nonce;
use onepass::errors::VaultError;
use onepass::vault::open_vault;
use onepass::vault::seal_vault;
use onepass::vault::split_data;

#[test]
fn encrypt_decrypt() {
    let content = "content\ndelimiter\nsecret-stuff";
    let key = "masterPassword";
    let nonce = generate_nonce();

    let encrypted_content = encrypt(key, content, &nonce).expect("encrypting");
    let decrypted_content = decrypt(key, encrypted_content, &nonce).expect("decrypting");

    assert_eq!(content, decrypted_content);
}

#[test]
fn encrypt_decrypt_fixed_nonce() {
    let content = "content\ndelimiter\nsecret-stuff";
    let key = "masterPassword";
    let nonce: Vec<u8> = vec![0, 1, 2, 3, 4, 5, 6, 7, 8, 9, 10, 11];

    let ct = encrypt(key, content, &nonce).expect("encrypting");
    // an authenticated ciphertext carries a 16-byte tag beyond the payload
    assert_eq!(ct.len(), content.len() + 16);
    assert_ne!(&ct[..content.len()], content.as_bytes());
    let back = decrypt(key, ct, &nonce).expect("decrypting");
    assert_eq!(content, back);
}

#[test]
fn wrong_password_is_refused() {
    let content = "content\ndelimiter\nsecret-stuff";
    let nonce = generate_nonce();
    let ct = encrypt("masterPassword", content, &nonce).expect("encrypting");
    let r = decrypt("otherPassword", ct, &nonce);
    assert_eq!(r.unwrap_err(), VaultError::IncorrectPasswordOrCorruptData);
}

#[test]
fn tampered_ciphertext_is_refused() {
    let content = "content";
    let nonce = generate_nonce();
    let mut ct = encrypt("masterPassword", content, &nonce).expect("encrypting");
    ct[0] = ct[0].wrapping_add(1);
    let r = decrypt("masterPassword", ct, &nonce);
    assert_eq!(r.unwrap_err(), VaultError::IncorrectPasswordOrCorruptData);
}

#[test]
fn test_extract() {
    let c = "content\ndelimiter\nsecret-stuff\n";
    let nonce = generate_nonce();
    let data = seal_vault("master_pw", &nonce, c);

    let extracted = split_data(&data).expect("extracting");

    assert!(extracted.buf.len() > 0);
    assert_eq!(extracted.nonce.len(), 12);
    assert_eq!(extracted.nonce, nonce);
}

#[test]
fn test_encrypt_decrypt() {
    let content = "content\ndelimiter\nsecret-stuff\n";
    let pw = "masterPassword";
    let nonce = generate_nonce();
    let data = seal_vault(pw, &nonce, content);

    let decrypted_content = open_vault(pw, &data).expect("decrypting");

    assert_eq!(content, decrypted_content);
}

#[test]
fn short_vault_file_is_refused() {
    let data: Vec<u8> = vec![1, 2, 3, 4, 5];
    assert_eq!(
        split_data(&data).unwrap_err(),
        VaultError::IncorrectPasswordOrCorruptData
    );
    assert_eq!(
        open_vault("pw", &data).unwrap_err(),
        VaultError::IncorrectPasswordOrCorruptData
    );
}
