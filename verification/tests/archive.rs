use std::io::Read;

use bulk::pack::{ArchiveExt, FileObject, PathRejected};

fn octal(field: &[u8]) -> u64 {
    let mut value: u64 = 0;
    for b in field {
        if *b == 0 || *b == b' ' {
            break;
        }
        value = value * 8 + u64::from(*b - b'0');
    }
    value
}

fn checksum(header: &[u8]) -> u64 {
    let mut sum: u64 = 0;
    for (i, b) in header.iter().enumerate() {
        sum += if (148..156).contains(&i) { 32 } else { u64::from(*b) };
    }
    sum
}

struct Decoded {
    path: String,
    kind: tar::EntryType,
    size: u64,
    mode: u32,
    mtime: u64,
    link: Option<Vec<u8>>,
    content: Vec<u8>,
}

fn decode(bytes: &[u8]) -> Vec<Decoded> {
    let mut archive = tar::Archive::new(std::io::Cursor::new(bytes.to_vec()));
    let mut out = Vec::new();
    for entry in archive.entries().unwrap() {
        let mut entry = entry.unwrap();
        let mut content = Vec::new();
        entry.read_to_end(&mut content).unwrap();
        out.push(Decoded {
            path: entry.path().unwrap().to_str().unwrap().to_string(),
            kind: entry.header().entry_type(),
            size: entry.header().size().unwrap(),
            mode: entry.header().mode().unwrap(),
            mtime: entry.header().mtime().unwrap(),
            link: entry.link_name_bytes().map(|l| l.to_vec()),
            content,
        });
    }
    out
}

#[test]
fn blob_header_is_byte_exact() {
    let mut ar: Vec<u8> = Vec::new();
    assert_eq!(ar.append_blob("hello.txt", 1500000000, b"hello"), Ok(()));
    assert_eq!(ar.len(), 1024);
    assert_eq!(&ar[0..9], b"hello.txt");
    assert!(ar[9..100].iter().all(|b| *b == 0));
    assert_eq!(&ar[100..108], b"0000644\0");
    assert!(ar[108..124].iter().all(|b| *b == 0));
    assert_eq!(&ar[124..136], b"00000000005\0");
    assert_eq!(&ar[136..148], b"13132027400\0");
    assert_eq!(ar[156], 0);
    assert_eq!(&ar[257..265], b"ustar  \0");
    assert_eq!(octal(&ar[148..156]), checksum(&ar[0..512]));
    assert_eq!(ar[155], 0);
    assert_eq!(&ar[512..517], b"hello");
    assert!(ar[517..1024].iter().all(|b| *b == 0));
}

#[test]
fn blob_reads_back_as_regular_file() {
    let mut ar: Vec<u8> = Vec::new();
    ar.append_blob("dir/index.txt", 42, b"generated").unwrap();
    let entries = decode(&ar);
    assert_eq!(entries.len(), 1);
    assert_eq!(entries[0].path, "dir/index.txt");
    assert_eq!(entries[0].kind, tar::EntryType::Regular);
    assert_eq!(entries[0].size, 9);
    assert_eq!(entries[0].mode, 0o644);
    assert_eq!(entries[0].mtime, 42);
    assert_eq!(entries[0].content, b"generated".to_vec());
}

#[test]
fn blob_encoding_is_deterministic() {
    let data: Vec<u8> = (0..1000u32).map(|i| (i % 251) as u8).collect();
    let mut first: Vec<u8> = Vec::new();
    let mut second: Vec<u8> = Vec::new();
    first.append_blob("a/b", 7, &data).unwrap();
    second.append_blob("a/b", 7, &data).unwrap();
    assert_eq!(first, second);
    assert_eq!(first.len(), 512 + 1024);
    let mut third: Vec<u8> = vec![9, 9, 9];
    third.append_blob("a/b", 7, &data).unwrap();
    assert_eq!(&third[3..], &first[..]);
    let mut other: Vec<u8> = Vec::new();
    other.append_blob("a/b", 8, &data).unwrap();
    assert_ne!(first, other);
}

#[test]
fn payload_is_padded_to_whole_blocks() {
    for (len, total) in [(0usize, 512usize), (1, 1024), (511, 1024), (512, 1024), (513, 1536)] {
        let mut ar: Vec<u8> = Vec::new();
        let data = vec![7u8; len];
        ar.append_blob("x", 0, &data).unwrap();
        assert_eq!(ar.len(), total);
        assert_eq!(&ar[512..512 + len], &data[..]);
        assert!(ar[512 + len..].iter().all(|b| *b == 0));
    }
}

#[test]
fn entries_are_appended_in_order() {
    let mut ar: Vec<u8> = Vec::new();
    ar.append_blob("one", 1, b"1").unwrap();
    ar.append_blob("two", 2, b"22").unwrap();
    let entries = decode(&ar);
    assert_eq!(entries.len(), 2);
    assert_eq!(entries[0].path, "one");
    assert_eq!(entries[1].path, "two");
    assert_eq!(entries[1].content, b"22".to_vec());
}

#[test]
fn regular_file_keeps_mode_size_and_content() {
    let content: Vec<u8> = (0..700u32).map(|i| (i % 256) as u8).collect();
    let mut ar: Vec<u8> = Vec::new();
    let object = FileObject::Regular { mode: 0o100755, content: content.clone() };
    assert_eq!(ar.append_file_at("bin/tool", 1234, &object), Ok(()));
    assert_eq!(&ar[100..108], b"0000755\0");
    assert_eq!(&ar[124..136], b"00000001274\0");
    assert_eq!(ar[156], b'0');
    assert_eq!(octal(&ar[148..156]), checksum(&ar[0..512]));
    let entries = decode(&ar);
    assert_eq!(entries.len(), 1);
    assert_eq!(entries[0].path, "bin/tool");
    assert_eq!(entries[0].kind, tar::EntryType::Regular);
    assert_eq!(entries[0].mode, 0o755);
    assert_eq!(entries[0].size, 700);
    assert_eq!(entries[0].mtime, 1234);
    assert!(ar[108..124].iter().all(|b| *b == 0));
    assert!(ar[265..512].iter().all(|b| *b == 0));
    assert_eq!(entries[0].content, content);
}

#[test]
fn symlink_emits_long_link_then_symlink() {
    let target = b"../lib/target".to_vec();
    let mut ar: Vec<u8> = Vec::new();
    let object = FileObject::Symlink { mode: 0o120777, target: target.clone() };
    ar.append_file_at("usr/link", 99, &object).unwrap();
    assert_eq!(ar.len(), 512 + 512 + 512);
    assert_eq!(ar[156], b'K');
    assert_eq!(&ar[0..8], b"usr/link");
    assert_eq!(&ar[100..108], [0u8; 8]);
    assert_eq!(&ar[124..136], b"00000000015\0");
    assert_eq!(&ar[136..148], b"00000000143\0");
    assert_eq!(&ar[1024 + 136..1024 + 148], b"00000000143\0");
    assert_eq!(&ar[512..525], &target[..]);
    assert_eq!(ar[1024 + 156], b'2');
    assert_eq!(&ar[1024 + 100..1024 + 108], b"0000777\0");
    assert_eq!(&ar[1024 + 124..1024 + 136], b"00000000000\0");
    assert_eq!(octal(&ar[148..156]), checksum(&ar[0..512]));
    assert_eq!(octal(&ar[1024 + 148..1024 + 156]), checksum(&ar[1024..1536]));
    let entries = decode(&ar);
    assert_eq!(entries.len(), 1);
    assert_eq!(entries[0].path, "usr/link");
    assert_eq!(entries[0].kind, tar::EntryType::Symlink);
    assert_eq!(entries[0].size, 0);
    assert_eq!(entries[0].mtime, 99);
    assert_eq!(entries[0].link, Some(target));
}

#[test]
fn long_symlink_target_round_trips() {
    let mut target: Vec<u8> = Vec::new();
    for i in 0..300u32 {
        target.push(b'a' + (i % 26) as u8);
    }
    target[150] = 0xff;
    let mut ar: Vec<u8> = Vec::new();
    let object = FileObject::Symlink { mode: 0o777, target: target.clone() };
    ar.append_file_at("link", 5, &object).unwrap();
    assert_eq!(ar.len(), 512 + 512 + 512);
    assert_eq!(octal(&ar[124..136]), 300);
    assert_eq!(&ar[512..812], &target[..]);
    let entries = decode(&ar);
    assert_eq!(entries.len(), 1);
    assert_eq!(entries[0].kind, tar::EntryType::Symlink);
    assert_eq!(entries[0].link, Some(target));
}

#[test]
fn directory_has_no_payload() {
    let mut ar: Vec<u8> = Vec::new();
    ar.append_file_at("etc", 3, &FileObject::Directory { mode: 0o40755 }).unwrap();
    assert_eq!(ar.len(), 512);
    assert_eq!(ar[156], b'5');
    let entries = decode(&ar);
    assert_eq!(entries.len(), 1);
    assert_eq!(entries[0].path, "etc");
    assert_eq!(entries[0].kind, tar::EntryType::Directory);
    assert_eq!(entries[0].mode, 0o755);
    assert_eq!(entries[0].size, 0);
    assert_eq!(entries[0].mtime, 3);
}

#[test]
fn other_objects_are_skipped() {
    let mut ar: Vec<u8> = Vec::new();
    ar.append_blob("first", 1, b"x").unwrap();
    let before = ar.clone();
    assert_eq!(ar.append_file_at("dev/null", 1, &FileObject::Other), Ok(()));
    assert_eq!(ar, before);
    let mut empty: Vec<u8> = Vec::new();
    assert_eq!(empty.append_file_at("fifo", 1, &FileObject::Other), Ok(()));
    assert!(empty.is_empty());
}

#[test]
fn rejected_paths_write_nothing() {
    let long = "x".repeat(101);
    for path in ["/absolute", "../escape", "a/../b", "", long.as_str(), "nul\0byte"] {
        let mut ar: Vec<u8> = vec![1, 2, 3];
        assert_eq!(ar.append_blob(path, 0, b"data"), Err(PathRejected));
        assert_eq!(ar, vec![1, 2, 3]);
        let object = FileObject::Symlink { mode: 0o777, target: b"t".to_vec() };
        assert_eq!(ar.append_file_at(path, 0, &object), Err(PathRejected));
        assert_eq!(ar, vec![1, 2, 3]);
        assert_eq!(ar.append_file_at(path, 0, &FileObject::Directory { mode: 0o755 }), Err(PathRejected));
        assert_eq!(ar, vec![1, 2, 3]);
        assert_eq!(ar.append_file_at(path, 0, &FileObject::Other), Ok(()));
        assert_eq!(ar, vec![1, 2, 3]);
    }
}

#[test]
fn name_of_full_width_is_accepted() {
    let name = "n".repeat(100);
    let mut ar: Vec<u8> = Vec::new();
    assert_eq!(ar.append_blob(&name, 0, b""), Ok(()));
    assert_eq!(&ar[0..100], name.as_bytes());
    assert_eq!(&ar[100..108], b"0000644\0");
}

#[test]
fn mode_keeps_its_permission_bits_only() {
    let mut ar: Vec<u8> = Vec::new();
    ar.append_file_at("d", 0, &FileObject::Directory { mode: 0o12345671 }).unwrap();
    assert_eq!(&ar[100..108], b"0005671\0");
    let mut special: Vec<u8> = Vec::new();
    special.append_file_at("s", 0, &FileObject::Directory { mode: 0o47755 }).unwrap();
    assert_eq!(&special[100..108], b"0007755\0");
}

#[test]
fn largest_time_is_octal() {
    let mut ar: Vec<u8> = Vec::new();
    ar.append_blob("t", u32::MAX, b"").unwrap();
    assert_eq!(&ar[136..148], b"37777777777\0");
}

#[test]
fn every_header_carries_the_time_given() {
    let objects = [
        FileObject::Regular { mode: 0o644, content: b"abc".to_vec() },
        FileObject::Directory { mode: 0o755 },
        FileObject::Symlink { mode: 0o777, target: b"elsewhere".to_vec() },
    ];
    for object in objects.iter() {
        let mut ar: Vec<u8> = Vec::new();
        ar.append_file_at("name", 1, object).unwrap();
        let mut at = 0;
        let mut headers = 0;
        while at < ar.len() {
            assert_eq!(&ar[at + 136..at + 148], b"00000000001\0");
            assert_eq!(octal(&ar[at + 148..at + 156]), checksum(&ar[at..at + 512]));
            let size = octal(&ar[at + 124..at + 136]) as usize;
            at += 512 + (size + 511) / 512 * 512;
            headers += 1;
        }
        let expected = if matches!(object, FileObject::Symlink { .. }) { 2 } else { 1 };
        assert_eq!(headers, expected);
    }
}
