//! The resources archive: exact bytes, hash and part slicing.

use std::io::Read;

use voxel_server::archive::{ResourcesArchive, ARCHIVE_CHUNK_SIZE};
use voxel_server::hashing::calculate_hash;

#[test]
fn test_archive() {
    let mut resources_archive = ResourcesArchive::default();

    let file_content = "content".to_string().into_bytes();
    let hash = calculate_hash(&file_content);
    resources_archive.add_entry(hash.to_string(), file_content.clone());
    resources_archive.finalize().unwrap();

    assert_eq!(resources_archive.get_archive_hash(), 431488420107704094);

    let data = [
        80, 75, 3, 4, 10, 0, 0, 0, 0, 0, 0, 0, 33, 0, 169, 48, 197, 254, 7, 0, 0, 0, 7, 0, 0, 0, 19, 0, 0, 0, 52,
        52, 56, 57, 56, 49, 54, 50, 48, 57, 48, 48, 56, 50, 51, 52, 49, 57, 57, 99, 111, 110, 116, 101, 110, 116,
        80, 75, 1, 2, 10, 3, 10, 0, 0, 0, 0, 0, 0, 0, 33, 0, 169, 48, 197, 254, 7, 0, 0, 0, 7, 0, 0, 0, 19, 0, 0,
        0, 0, 0, 0, 0, 0, 0, 0, 0, 164, 129, 0, 0, 0, 0, 52, 52, 56, 57, 56, 49, 54, 50, 48, 57, 48, 48, 56, 50,
        51, 52, 49, 57, 57, 80, 75, 5, 6, 0, 0, 0, 0, 1, 0, 1, 0, 65, 0, 0, 0, 56, 0, 0, 0, 0, 0,
    ];
    assert_eq!(*resources_archive.get_archive_data(), data);
    assert_eq!(resources_archive.get_archive_len(), 143);
    assert_eq!(resources_archive.get_archive_parts_count(50), 3);
    assert_eq!(
        resources_archive.get_archive_part(0, 50),
        [
            80, 75, 3, 4, 10, 0, 0, 0, 0, 0, 0, 0, 33, 0, 169, 48, 197, 254, 7, 0, 0, 0, 7, 0, 0, 0, 19, 0, 0, 0,
            52, 52, 56, 57, 56, 49, 54, 50, 48, 57, 48, 48, 56, 50, 51, 52, 49, 57, 57, 99
        ]
    );
    assert_eq!(
        resources_archive.get_archive_part(1, 50),
        [
            111, 110, 116, 101, 110, 116, 80, 75, 1, 2, 10, 3, 10, 0, 0, 0, 0, 0, 0, 0, 33, 0, 169, 48, 197, 254,
            7, 0, 0, 0, 7, 0, 0, 0, 19, 0, 0, 0, 0, 0, 0, 0, 0, 0, 0, 0, 164, 129, 0, 0
        ]
    );
    assert_eq!(
        resources_archive.get_archive_part(2, 50),
        [
            0, 0, 52, 52, 56, 57, 56, 49, 54, 50, 48, 57, 48, 48, 56, 50, 51, 52, 49, 57, 57, 80, 75, 5, 6, 0, 0,
            0, 0, 1, 0, 1, 0, 65, 0, 0, 0, 56, 0, 0, 0, 0, 0
        ]
    );

    let chunk = resources_archive.get_archive_part(0, ARCHIVE_CHUNK_SIZE);
    assert_eq!(resources_archive.get_archive_hash(), calculate_hash(&chunk));

    let archive_data = resources_archive.get_archive_data().clone();
    let file = std::io::Cursor::new(&archive_data);

    let mut zip = zip::ZipArchive::new(file).unwrap();
    for i in 0..zip.len() {
        let archive_file = zip.by_index(i).unwrap();
        let file_hash = archive_file.name().to_string();

        let mut archive_file_data = Vec::new();
        for b in archive_file.bytes() {
            archive_file_data.push(b.unwrap());
        }

        assert_eq!(archive_file_data, file_content);

        let hash = calculate_hash(&archive_file_data);
        assert_eq!(hash.to_string(), file_hash);
    }
}

#[test]
fn archive_parts_cover_the_bytes() {
    let mut archive = ResourcesArchive::default();
    archive.add_entry("one".to_string(), vec![7u8; 120]);
    archive.add_entry("two".to_string(), vec![9u8; 77]);
    archive.finalize().unwrap();

    let len = archive.get_archive_len();
    let parts = archive.get_archive_parts_count(64);
    assert_eq!(parts, (len + 63) / 64);

    let mut rebuilt: Vec<u8> = Vec::new();
    for i in 0..parts {
        rebuilt.extend_from_slice(&archive.get_archive_part(i, 64));
    }
    assert_eq!(&rebuilt, archive.get_archive_data());
}

#[test]
fn empty_archive_has_no_parts_to_stream() {
    let mut archive = ResourcesArchive::default();
    archive.finalize().unwrap();
    assert!(archive.get_archive_len() > 0);
    assert!(archive.has_any());
}
