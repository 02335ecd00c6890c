use aes_gcm::aead::{Aead, KeyInit};
use aes_gcm::{Aes256Gcm, Key, Nonce};
use labworks::crypt::{
    build_output_path, decrypt_bytes, encrypt_bytes, is_output_data_file, seal_with_nonce, DecryptError,
};
use labworks::crypt::{monitor_step, MonitorStep, NOTHING_SEEN};

#[test]
fn data_files_are_recognised_by_extension() {
    assert!(is_output_data_file("dir/report.txt.data"));
    assert!(is_output_data_file("x.DATA"));
    assert!(!is_output_data_file("dir/data"));
    assert!(!is_output_data_file(".data"));
    assert!(!is_output_data_file("a.data.txt"));
    assert!(!is_output_data_file("a.dat"));
}

#[test]
fn encrypted_copy_sits_beside_the_file() {
    assert_eq!(build_output_path("dir/report.txt"), "dir/report.txt.data");
    assert_eq!(build_output_path("a"), "a.data");
    assert_eq!(build_output_path("/"), "/output.data");
}

#[test]
fn sealed_bytes_are_nonce_then_ciphertext() {
    let key = [7u8; 32];
    let nonce = [3u8; 12];
    let data = b"hello files".to_vec();
    let sealed = seal_with_nonce(&data, &key, &nonce).unwrap();
    assert_eq!(&sealed[..12], &nonce);
    assert_eq!(sealed.len(), data.len() + 28);
    let cipher = Aes256Gcm::new(Key::<Aes256Gcm>::from_slice(&key));
    let expected = cipher.encrypt(Nonce::from_slice(&nonce), data.as_slice()).unwrap();
    assert_eq!(&sealed[12..], expected.as_slice());
}

#[test]
fn encrypted_bytes_decrypt_back() {
    let key = [7u8; 32];
    let data = b"some file contents".to_vec();
    let out = encrypt_bytes(&data, &key).unwrap();
    assert_eq!(out.len(), data.len() + 28);
    let cipher = Aes256Gcm::new(Key::<Aes256Gcm>::from_slice(&key));
    let plain = cipher.decrypt(Nonce::from_slice(&out[..12]), &out[12..]).unwrap();
    assert_eq!(plain, data);
    let empty = encrypt_bytes(&[], &key).unwrap();
    assert_eq!(empty.len(), 28);
}

#[test]
fn encrypted_copies_are_skipped_by_the_walk() {
    for p in ["dir/report.txt", "a", "/", "", "x/.hidden", "a/b/", "a/..", "photo.DATA", "dir/tab\tname", "dir/a:b", "dir/back\\slash"] {
        let out = build_output_path(p);
        assert!(is_output_data_file(&out), "{p:?} -> {out:?}");
    }
}

#[test]
fn decrypt_bytes_undoes_encrypt_bytes() {
    let key = [9u8; 32];
    for data in [b"".to_vec(), b"x".to_vec(), vec![0xAB; 1000]] {
        let sealed = encrypt_bytes(&data, &key).unwrap();
        assert_eq!(decrypt_bytes(&sealed, &key), Ok(data));
    }
}

#[test]
fn decrypt_bytes_refuses_short_or_altered_input() {
    let key = [9u8; 32];
    assert_eq!(decrypt_bytes(&[1, 2, 3], &key), Err(DecryptError::TooShort));
    let mut sealed = encrypt_bytes(b"secret", &key).unwrap();
    let last = sealed.len() - 1;
    sealed[last] ^= 1;
    assert_eq!(decrypt_bytes(&sealed, &key), Err(DecryptError::Rejected));
    let other = encrypt_bytes(b"secret", &[8u8; 32]).unwrap();
    assert_eq!(decrypt_bytes(&other, &key), Err(DecryptError::Rejected));
    assert_eq!(decrypt_bytes(&[0u8; 12], &key), Err(DecryptError::Rejected));
}

#[test]
fn the_monitor_reports_only_changed_counts() {
    assert_eq!(monitor_step(NOTHING_SEEN, 0, false), MonitorStep { report: Some(0), last_seen: 0, stop: false });
    assert_eq!(monitor_step(0, 0, false), MonitorStep { report: None, last_seen: 0, stop: false });
    assert_eq!(monitor_step(0, 3, false), MonitorStep { report: Some(3), last_seen: 3, stop: false });
    assert_eq!(monitor_step(3, 3, true), MonitorStep { report: None, last_seen: 3, stop: true });
    assert_eq!(monitor_step(3, 5, true), MonitorStep { report: Some(5), last_seen: 5, stop: true });
}
