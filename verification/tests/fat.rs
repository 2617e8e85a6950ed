use rusty_mikanos::fat::{
    find_file, next_path_element, Attribute, Bpb, DirectoryEntry, FatFileDescriptor, PathElements,
    END_OF_CLUSTER_CHAIN,
};
use rusty_mikanos::terminal::{execute_cat, execute_ls, list_all_entries, CatOutput, LsOutput};

#[test]
fn test_next_path_element() {
    assert_eq!(next_path_element(""), None);
    assert_eq!(next_path_element("/"), Some(PathElements::new("", "")));

    assert_eq!(
        next_path_element("/abc/def"),
        Some(PathElements::new("", "abc/def"))
    );
    assert_eq!(
        next_path_element("abc/def"),
        Some(PathElements::new("abc", "def"))
    );
    assert_eq!(
        next_path_element("abc/def/ghi"),
        Some(PathElements::new("abc", "def/ghi"))
    );
}

fn put16(img: &mut [u8], off: usize, v: u16) {
    img[off..off + 2].copy_from_slice(&v.to_le_bytes());
}

fn put32(img: &mut [u8], off: usize, v: u32) {
    img[off..off + 4].copy_from_slice(&v.to_le_bytes());
}

fn put_entry(img: &mut [u8], off: usize, name: &[u8; 11], attr: u8, cluster: u32, size: u32) {
    img[off..off + 11].copy_from_slice(name);
    img[off + 11] = attr;
    put16(img, off + 20, (cluster >> 16) as u16);
    put16(img, off + 26, (cluster & 0xffff) as u16);
    put32(img, off + 28, size);
}

/// 128-byte sectors, one sector per cluster, one reserved sector, one FAT
/// of one sector; cluster 2 (the root) starts at byte 256.
fn volume() -> Bpb {
    let mut img = vec![0u8; 768];
    put16(&mut img, 11, 128);
    img[13] = 1;
    put16(&mut img, 14, 1);
    img[16] = 1;
    put32(&mut img, 36, 1);
    put32(&mut img, 44, 2);
    put32(&mut img, 128 + 4 * 2, 0x0fff_ffff);
    put32(&mut img, 128 + 4 * 3, 4);
    put32(&mut img, 128 + 4 * 4, 0x0fff_fff8);
    put32(&mut img, 128 + 4 * 5, 0x0fff_ffff);
    put_entry(&mut img, 256, b"HELLO   TXT", 0x20, 3, 150);
    put_entry(&mut img, 288, b"DOCS       ", 0x10, 5, 0);
    put_entry(&mut img, 640, b"NOTE    MD ", 0x20, 0, 7);
    for b in &mut img[384..512] {
        *b = b'a';
    }
    for b in &mut img[512..640] {
        *b = b'b';
    }
    Bpb::new(img).unwrap()
}

#[test]
fn bpb_rejects_short_image() {
    assert!(Bpb::new(vec![0u8; 89]).is_none());
    assert!(Bpb::new(vec![0u8; 90]).is_some());
}

#[test]
fn bpb_fields_and_chain() {
    let bpb = volume();
    assert_eq!(bpb.get_root_cluster(), 2);
    assert_eq!(bpb.bytes_per_cluster(), 128);
    assert_eq!(bpb.get_entries_per_cluster(), 4);
    assert_eq!(bpb.get_cluster_addr(2), Some(256));
    assert_eq!(bpb.get_cluster_addr(1), None);
    assert_eq!(bpb.get_cluster_addr(6), None);
    assert_eq!(bpb.next_cluster(3), 4);
    assert_eq!(bpb.next_cluster(4), END_OF_CLUSTER_CHAIN);
    assert_eq!(bpb.next_cluster(1000), END_OF_CLUSTER_CHAIN);
}

#[test]
fn find_file_in_root_and_subdirectory() {
    let bpb = volume();
    let (e, post_slash) = find_file(&bpb, "/hello.txt", 0);
    let e = e.unwrap();
    assert!(!post_slash);
    assert_eq!(e.file_size(), 150);
    assert_eq!(e.first_cluster(), 3);

    // The flag is the one of the last element looked up.
    let (e, post_slash) = find_file(&bpb, "docs/note.md", 0);
    assert!(!post_slash);
    assert_eq!(e.unwrap().file_size(), 7);

    let (e, post_slash) = find_file(&bpb, "docs", 2);
    assert!(!post_slash);
    assert!(e.unwrap().is_directory());

    let (e, post_slash) = find_file(&bpb, "hello.txt/x", 0);
    assert_eq!(e.unwrap().file_size(), 150);
    assert!(post_slash);

    let (e, post_slash) = find_file(&bpb, "missing", 0);
    assert!(e.is_none());
    assert!(!post_slash);
}

#[test]
fn load_file_copies_the_chain() {
    let bpb = volume();
    let e = find_file(&bpb, "HELLO.TXT", 0).0.unwrap();
    let mut buf = vec![0u8; 200];
    assert_eq!(e.load_file(&mut buf, &bpb), 0);
    assert!(buf[..128].iter().all(|&b| b == b'a'));
    assert!(buf[128..].iter().all(|&b| b == b'b'));

    let mut buf = vec![7u8; 300];
    assert_eq!(e.load_file(&mut buf, &bpb), 44);
    assert!(buf[256..].iter().all(|&b| b == 7));
}

#[test]
fn directory_entry_names() {
    let mut raw = [0u8; 32];
    raw[..11].copy_from_slice(b"HELLO   TXT");
    raw[11] = 0x20;
    let e = DirectoryEntry::from_bytes(&raw);
    assert_eq!(&e.basename(), b"HELLO\0\0\0");
    assert_eq!(&e.extension(), b"TXT");
    assert_eq!(&e.formatted_name(), b"HELLO.TXT\0\0\0");
    assert!(e.name_is_equal("hello.txt"));
    assert!(!e.name_is_equal("hello"));
    assert_eq!(e.attr(), Some(Attribute::Archive));
    assert!(!e.is_free());

    raw[..11].copy_from_slice(b"KERNEL     ");
    raw[11] = 0x10;
    let d = DirectoryEntry::from_bytes(&raw);
    assert_eq!(&d.formatted_name(), b"KERNEL\0\0\0\0\0\0");
    assert!(d.is_directory());
    assert!(d.name_is_equal("kernel"));

    raw[0] = 0xe5;
    raw[11] = 0x03;
    let f = DirectoryEntry::from_bytes(&raw);
    assert!(f.is_free());
    assert!(!f.is_free_and_no_more_allocated_after_this());
    assert_eq!(f.attr(), None);
}

#[test]
fn attribute_from_byte() {
    assert_eq!(Attribute::try_from(0x0f), Ok(Attribute::LongName));
    assert!(Attribute::try_from(0x03).is_err());
}

#[test]
fn file_descriptor_reads_on_across_clusters() {
    let bpb = volume();
    let e = find_file(&bpb, "HELLO.TXT", 0).0.unwrap();
    let mut fd = FatFileDescriptor::new(e);
    let mut buf = vec![0u8; 100];
    assert_eq!(fd.read(&mut buf, &bpb), 100);
    assert!(buf.iter().all(|&b| b == b'a'));
    // 28 bytes are left in the first cluster and 22 in the second; each
    // piece lands at the start of the buffer.
    assert_eq!(fd.read(&mut buf, &bpb), 50);
    assert!(buf[..22].iter().all(|&b| b == b'b'));
    assert!(buf[22..].iter().all(|&b| b == b'a'));
    assert_eq!(fd.read(&mut buf, &bpb), 0);
}

#[test]
fn ls_lists_names_and_skips_free_and_long_name_entries() {
    let mut img = volume().image().to_vec();
    put_entry(&mut img, 320, b"GONE    TXT", 0x20, 0, 1);
    img[320] = 0xe5;
    put_entry(&mut img, 352, b"LONGPART   ", 0x0f, 0, 0);
    let bpb = Bpb::new(img).unwrap();
    assert_eq!(list_all_entries(&bpb, 2), vec![b"HELLO.TXT".to_vec(), b"DOCS".to_vec()]);
    assert_eq!(list_all_entries(&bpb, 5), vec![b"NOTE.MD".to_vec()]);
    assert_eq!(list_all_entries(&bpb, END_OF_CLUSTER_CHAIN), Vec::<Vec<u8>>::new());

    match execute_ls(&bpb, &["ls"]) {
        (LsOutput::Names(n), 0) => assert_eq!(n, vec![b"HELLO.TXT".to_vec(), b"DOCS".to_vec()]),
        _ => panic!("root listing expected"),
    }
    match execute_ls(&bpb, &["ls", "docs"]) {
        (LsOutput::Names(n), 1) => assert_eq!(n, vec![b"NOTE.MD".to_vec()]),
        _ => panic!("directory listing expected"),
    }
    match execute_ls(&bpb, &["ls", "hello.txt"]) {
        (LsOutput::FileName(n), 0) => assert_eq!(n, b"HELLO.TXT".to_vec()),
        _ => panic!("file name expected"),
    }
    match execute_ls(&bpb, &["ls", "hello.txt/"]) {
        (LsOutput::NotADirectory(n), 1) => assert_eq!(n, b"HELLO.TXT".to_vec()),
        _ => panic!("not a directory expected"),
    }
    assert!(matches!(execute_ls(&bpb, &["ls", "nope"]), (LsOutput::NoSuchFile, 1)));
}

#[test]
fn cat_prints_file_contents_or_errors() {
    let bpb = volume();
    match execute_cat(&bpb, &["cat", "hello.txt"]) {
        (CatOutput::Contents(c), 0) => {
            assert_eq!(c.len(), 150);
            assert!(c[..128].iter().all(|&b| b == b'a'));
            assert!(c[128..].iter().all(|&b| b == b'b'));
        }
        _ => panic!("contents expected"),
    }
    match execute_cat(&bpb, &["cat", "/docs/note.md"]) {
        // The entry's size is 7 but its chain is empty.
        (CatOutput::Contents(c), 0) => assert_eq!(c, vec![0u8; 7]),
        _ => panic!("contents expected"),
    }
    assert!(matches!(execute_cat(&bpb, &["cat"]), (CatOutput::StandardInput, 0)));
    assert!(matches!(execute_cat(&bpb, &["cat", "missing"]), (CatOutput::NoSuchFile, 1)));
    match execute_cat(&bpb, &["cat", "hello.txt/x"]) {
        (CatOutput::NotADirectory(n), 1) => assert_eq!(n, b"HELLO.TXT".to_vec()),
        _ => panic!("not a directory expected"),
    }
}

#[test]
fn attribute_error_message_names_the_byte() {
    assert_eq!(Attribute::try_from(0x03).unwrap_err().message(), "unexpected attribute value 3");
    assert_eq!(Attribute::try_from(0x42).unwrap_err().message(), "unexpected attribute value 66");
    assert_eq!(Attribute::try_from(0xff).unwrap_err().message(), "unexpected attribute value 255");
}
