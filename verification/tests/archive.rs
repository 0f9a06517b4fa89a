use bundler::archive::{compress, from_bytes, Archive};
use bundler::bundle::{Bundle, Document, NoMetadata};
use bundler::error::{Relation, SerializationError};
use std::io::Read;

fn sample() -> Bundle {
    Bundle::new(
        NoMetadata.encode(),
        Document::new(b"{\"alice\":[1,2]}".to_vec()),
        Document::new(b"{\"alice\":[7]}".to_vec()),
        Document::new(b"{\"alice\":[\"admin\"]}".to_vec()),
    )
}

fn gunzip(archive: &[u8]) -> Vec<u8> {
    let mut stream = Vec::new();
    flate2::read::GzDecoder::new(archive)
        .read_to_end(&mut stream)
        .unwrap();
    stream
}

fn unpack(archive: &[u8]) -> Vec<(String, Vec<u8>)> {
    let mut entries = Vec::new();
    let mut reader = tar::Archive::new(flate2::read::GzDecoder::new(archive));
    for entry in reader.entries().unwrap() {
        let mut entry = entry.unwrap();
        let path = entry.path().unwrap().to_str().unwrap().to_string();
        assert_eq!(entry.header().size().unwrap(), entry.size());
        let mut data = Vec::new();
        entry.read_to_end(&mut data).unwrap();
        assert_eq!(data.len() as u64, entry.header().size().unwrap());
        entries.push((path, data));
    }
    entries
}

#[test]
fn archive_holds_the_four_entries_in_order() {
    let bundle = sample();
    let archive = bundle.to_tar_gz().unwrap();
    let entries = unpack(&archive);
    assert_eq!(entries.len(), 4);
    assert_eq!(entries[0].0, ".manifest");
    assert_eq!(entries[1].0, "diamond/data/users/proposals/data.json");
    assert_eq!(entries[2].0, "diamond/data/users/sessions/data.json");
    assert_eq!(entries[3].0, "diamond/data/users/permissions/data.json");
}

#[test]
fn relation_entries_are_the_snapshots_byte_for_byte() {
    let archive = sample().to_tar_gz().unwrap();
    let entries = unpack(&archive);
    assert_eq!(entries[1].1, b"{\"alice\":[1,2]}".to_vec());
    assert_eq!(entries[2].1, b"{\"alice\":[7]}".to_vec());
    assert_eq!(entries[3].1, b"{\"alice\":[\"admin\"]}".to_vec());
}

#[test]
fn manifest_is_the_documented_json() {
    let bundle = sample();
    let archive = bundle.to_tar_gz().unwrap();
    let entries = unpack(&archive);
    assert_eq!(
        String::from_utf8(entries[0].1.clone()).unwrap(),
        format!(
            "{{\"revision\":\"{}\",\"roots\":[\"diamond/data\"],\"wasm-modules\":[],\"metadata\":null}}",
            bundle.revision()
        )
    );
}

#[test]
fn manifest_decodes_with_the_constant_root() {
    let bundle = sample();
    let archive = bundle.to_tar_gz().unwrap();
    let entries = unpack(&archive);
    let manifest: serde_json::Value = serde_json::from_slice(&entries[0].1).unwrap();
    assert_eq!(manifest["revision"].as_str().unwrap(), bundle.revision());
    let roots = manifest["roots"].as_array().unwrap();
    assert_eq!(roots.len(), 1);
    assert_eq!(roots[0].as_str().unwrap(), "diamond/data");
    assert_eq!(manifest["wasm-modules"].as_array().unwrap().len(), 0);
    assert!(manifest["metadata"].is_null());
    let keys: Vec<&str> = manifest
        .as_object()
        .unwrap()
        .keys()
        .map(|key| key.as_str())
        .collect();
    assert_eq!(keys.len(), 4);
    for key in ["revision", "roots", "wasm-modules", "metadata"] {
        assert!(keys.contains(&key));
    }
}

#[test]
fn manifest_carries_the_metadata_document() {
    let bundle = Bundle::new(
        Document::new(b"{\"site\":\"i03\"}".to_vec()),
        Document::new(b"{}".to_vec()),
        Document::new(b"{}".to_vec()),
        Document::new(b"{}".to_vec()),
    );
    let entries = unpack(&bundle.to_tar_gz().unwrap());
    let manifest: serde_json::Value = serde_json::from_slice(&entries[0].1).unwrap();
    assert_eq!(manifest["metadata"]["site"].as_str().unwrap(), "i03");
}

#[test]
fn same_bundle_packs_to_the_same_bytes() {
    let first = sample().to_tar_gz().unwrap();
    let second = sample().to_tar_gz().unwrap();
    assert_eq!(first, second);
}

#[test]
fn archive_is_gzip_at_the_best_level() {
    let archive = sample().to_tar_gz().unwrap();
    assert_eq!(&archive[0..3], &[0x1f, 0x8b, 0x08]);
    // The extra-flags byte of a gzip header is 2 for the best compression.
    assert_eq!(archive[8], 2);
}

#[test]
fn tar_stream_is_blocks_and_ends_with_two_zero_blocks() {
    let stream = gunzip(&sample().to_tar_gz().unwrap());
    assert_eq!(stream.len() % 512, 0);
    // Four entries of one header block and one data block each, and the end.
    assert_eq!(stream.len(), 4 * 1024 + 1024);
    assert!(stream[stream.len() - 1024..].iter().all(|b| *b == 0));
    assert_eq!(&stream[0..9], b".manifest");
    assert_eq!(&stream[257..265], b"ustar  \0");
}

#[test]
fn snapshot_that_is_not_json_is_reported() {
    let bad = || Document::new(b"{\"alice\":".to_vec());
    let good = || Document::new(b"[]".to_vec());
    assert_eq!(
        Bundle::new(NoMetadata.encode(), bad(), good(), good()).to_tar_gz(),
        Err(SerializationError::Snapshot(Relation::Proposals))
    );
    assert_eq!(
        Bundle::new(NoMetadata.encode(), good(), bad(), good()).to_tar_gz(),
        Err(SerializationError::Snapshot(Relation::Sessions))
    );
    assert_eq!(
        Bundle::new(NoMetadata.encode(), good(), good(), bad()).to_tar_gz(),
        Err(SerializationError::Snapshot(Relation::Permissions))
    );
}

#[test]
fn first_field_that_is_not_json_is_the_one_reported() {
    let bad = || Document::new(b"nope".to_vec());
    assert_eq!(
        Bundle::new(NoMetadata.encode(), bad(), bad(), bad()).to_tar_gz(),
        Err(SerializationError::Snapshot(Relation::Proposals))
    );
    assert_eq!(
        Bundle::new(Document::new(b"{not json".to_vec()), bad(), bad(), bad()).to_tar_gz(),
        Err(SerializationError::Metadata)
    );
}

#[test]
fn empty_snapshot_is_not_a_document() {
    let empty = Document::new(Vec::new());
    let good = || Document::new(b"{}".to_vec());
    assert_eq!(
        Bundle::new(NoMetadata.encode(), empty, good(), good()).to_tar_gz(),
        Err(SerializationError::Snapshot(Relation::Proposals))
    );
}

#[test]
fn entry_header_records_length_and_checksum() {
    let header = from_bytes(b"hello");
    assert_eq!(header.size().unwrap(), 5);
    let block = header.as_bytes();
    assert_eq!(&block[124..136], b"00000000005\0");
    // The checksum is the sum of the block with the checksum field blank.
    let mut sum: u32 = 0;
    for (i, b) in block.iter().enumerate() {
        sum += if (148..156).contains(&i) { 0x20 } else { *b as u32 };
    }
    assert_eq!(header.cksum().unwrap(), sum);
}

fn octal(n: u64, width: usize) -> Vec<u8> {
    if width == 0 {
        Vec::new()
    } else {
        let mut digits = octal(n / 8, width - 1);
        digits.push(0x30 + (n % 8) as u8);
        digits
    }
}

fn big_endian(n: u64, width: usize) -> Vec<u8> {
    if width == 0 {
        Vec::new()
    } else {
        let mut bytes = big_endian(n / 256, width - 1);
        bytes.push((n % 256) as u8);
        bytes
    }
}

fn blank_gnu_block() -> Vec<u8> {
    let mut block = vec![0u8; 512];
    block[136..147].copy_from_slice(b"00000000000");
    block[257..262].copy_from_slice(b"ustar");
    block[262] = b' ';
    block[263] = b' ';
    block
}

fn block_with_size(block: &[u8], size: u64) -> Vec<u8> {
    let mut field = if size < 0x2_0000_0000 {
        let mut field = octal(size, 11);
        field.push(0);
        field
    } else {
        let mut field = vec![0x80, 0, 0, 0];
        field.extend(big_endian(size, 8));
        field
    };
    let mut out = block[..124].to_vec();
    out.append(&mut field);
    out.extend_from_slice(&block[136..]);
    out
}

fn block_with_checksum(block: &[u8]) -> Vec<u8> {
    let sum = |bytes: &[u8]| bytes.iter().map(|b| *b as u64).sum::<u64>();
    let checksum = sum(&block[..148]) + 8 * 0x20 + sum(&block[156..]);
    let mut out = block[..148].to_vec();
    out.extend(octal(checksum, 7));
    out.push(0);
    out.extend_from_slice(&block[156..]);
    out
}

#[test]
fn entry_header_is_the_blank_block_with_size_and_checksum() {
    for len in [0usize, 1, 7, 8, 511, 512, 4096, 70_000] {
        let data = vec![0u8; len];
        let expected = block_with_checksum(&block_with_size(&blank_gnu_block(), len as u64));
        assert_eq!(from_bytes(&data).as_bytes().to_vec(), expected);
    }
}

#[test]
fn size_and_checksum_fields_are_written_as_stated() {
    let sizes = [
        0u64,
        5,
        0o7777,
        0x2_0000_0000 - 1,
        0x2_0000_0000,
        0x2_0000_0001,
        u64::MAX,
    ];
    for size in sizes {
        let mut header = tar::Header::new_gnu();
        assert_eq!(header.as_bytes().to_vec(), blank_gnu_block());
        let before = header.as_bytes().to_vec();
        header.set_size(size);
        assert_eq!(header.as_bytes().to_vec(), block_with_size(&before, size));
        let before = header.as_bytes().to_vec();
        header.set_cksum();
        assert_eq!(header.as_bytes().to_vec(), block_with_checksum(&before));
        // Writing the checksum again changes nothing: it does not count itself.
        let before = header.as_bytes().to_vec();
        header.set_cksum();
        assert_eq!(header.as_bytes().to_vec(), before);
    }
}

#[test]
fn entry_header_starts_from_the_blank_gnu_block() {
    let header = from_bytes(b"");
    let block = header.as_bytes();
    for (i, b) in block.iter().enumerate() {
        let expected: Option<u8> = if (136..147).contains(&i) {
            Some(b'0')
        } else if (257..262).contains(&i) {
            Some(b"ustar"[i - 257])
        } else if i == 262 || i == 263 {
            Some(b' ')
        } else if (124..136).contains(&i) || (148..156).contains(&i) {
            // The length and the checksum, filled in after the blank block.
            None
        } else {
            Some(0)
        };
        if let Some(expected) = expected {
            assert_eq!(*b, expected);
        }
    }
}

#[test]
fn archive_of_given_entries_unpacks_to_them() {
    let archive = Archive::new();
    let archive = archive.append("a/one.txt", b"first").unwrap();
    let archive = archive.append("b/two.txt", &[7u8; 600]).unwrap();
    let packed = archive.finish().unwrap();
    let entries = unpack(&packed);
    assert_eq!(entries.len(), 2);
    assert_eq!(entries[0], ("a/one.txt".to_string(), b"first".to_vec()));
    assert_eq!(entries[1], ("b/two.txt".to_string(), vec![7u8; 600]));
    // One block for the first entry's data, two for the second's.
    assert_eq!(gunzip(&packed).len(), 512 + 512 + 512 + 1024 + 1024);
}

#[test]
fn entry_data_follow_the_head_and_are_padded_with_zeros() {
    let archive = Archive::new();
    let archive = archive.append("a/one.txt", b"first").unwrap();
    let archive = archive.append("b/full.bin", &[9u8; 512]).unwrap();
    let stream = gunzip(&archive.finish().unwrap());
    assert_eq!(&stream[0..9], b"a/one.txt");
    assert_eq!(&stream[512..517], b"first");
    assert!(stream[517..1024].iter().all(|b| *b == 0));
    assert_eq!(&stream[1024..1034], b"b/full.bin");
    // Data that fill their block are not padded.
    assert_eq!(&stream[1536..2048], &[9u8; 512]);
    assert_eq!(stream.len(), 2048 + 1024);
}

#[test]
fn plain_paths_are_accepted() {
    let longest = "a".repeat(100);
    let deepest = "a/".repeat(50);
    let dotted = ".a.b/c.d/.e".to_string();
    let paths = [
        ".manifest",
        "diamond/data/users/proposals/data.json",
        "a",
        "a/",
        "a//b",
        "-",
        "_",
        "A-Z_0.9",
        longest.as_str(),
        deepest.as_str(),
        dotted.as_str(),
    ];
    for path in paths {
        for data in [&b""[..], &b"x"[..], &[1u8; 513][..]] {
            let packed = Archive::new().append(path, data).unwrap().finish().unwrap();
            let entries = unpack(&packed);
            assert_eq!(entries.len(), 1);
            assert_eq!(entries[0].1, data.to_vec());
        }
    }
}

#[test]
fn path_with_a_part_that_is_dots_is_refused() {
    for path in ["..", "a/../b", "/a", ""] {
        assert_eq!(
            Archive::new().append(path, b"x").err(),
            Some(SerializationError::Archive)
        );
    }
}

#[test]
fn path_that_is_not_portable_is_refused() {
    for path in ["a\\b.txt", "c:/b.txt", "\u{e9}.txt"] {
        assert_eq!(
            Archive::new().append(path, b"x").err(),
            Some(SerializationError::Archive)
        );
    }
    assert!(bundler::archive::portable("diamond/data/users/proposals/data.json"));
    assert!(!bundler::archive::portable("a:b"));
}

#[test]
fn archive_without_entries_is_the_end_marker() {
    let packed = Archive::new().finish().unwrap();
    assert_eq!(gunzip(&packed), vec![0u8; 1024]);
}

#[test]
fn compress_round_trips() {
    let data = b"the same bytes come back".to_vec();
    let packed = compress(&data).unwrap();
    assert_ne!(packed, data);
    assert_eq!(gunzip(&packed), data);
    assert_eq!(compress(&data).unwrap(), packed);
}
