use aes_gcm::aead::{Aead, KeyInit};
use labworks::pipeline::{encrypt_file, matrix_sum, progress_update, random_matrix, row_sum};

#[test]
fn sums_rows_and_matrices() {
    assert_eq!(row_sum(&vec![1, -2, 3]), 2);
    assert_eq!(matrix_sum(&vec![vec![1, 2], vec![3, 4], vec![]]), 10);
    assert_eq!(matrix_sum(&vec![]), 0);
}

#[test]
fn random_matrix_holds_digits() {
    let m = random_matrix(16);
    assert_eq!(m.len(), 16);
    assert!(m.iter().all(|r| r.len() == 16 && r.iter().all(|c| (0..10).contains(c))));
    let expected: i32 = m.iter().map(|r| r.iter().sum::<i32>()).sum();
    assert_eq!(matrix_sum(&m), expected);
}

#[test]
fn encrypt_file_names_output_and_appends_tag() {
    let (path, sealed) = encrypt_file("dir/notes.txt", &b"hello".to_vec());
    assert_eq!(path, "dir/notes.data");
    assert_eq!(sealed.len(), 5 + 16);
    assert_ne!(&sealed[..5], b"hello");
    let (_, again) = encrypt_file("other", &b"hello".to_vec());
    assert_eq!(sealed, again);
}

#[test]
fn encryption_matches_aes_gcm_with_zero_key() {
    let cipher = aes_gcm::Aes256Gcm::new(aes_gcm::Key::<aes_gcm::Aes256Gcm>::from_slice(&[0u8; 32]));
    let expected = cipher.encrypt(aes_gcm::Nonce::from_slice(&[0u8; 12]), b"data".as_ref()).unwrap();
    assert_eq!(encrypt_file("x", &b"data".to_vec()).1, expected);
}

#[test]
fn monitor_prints_only_changes() {
    assert_eq!(progress_update(0, 0), None);
    assert_eq!(progress_update(0, 3), Some(3));
}
