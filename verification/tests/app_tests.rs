use dcp_node::app::{AppManager, CtsMessage, DfsFile, DwsSite, ServiceType};
use dcp_node::storage::{StorageBlock, StorageEngine};

#[test]
fn service_codes() {
    assert_eq!(ServiceType::from(1u8), ServiceType::Dws);
    assert_eq!(ServiceType::from(2u8), ServiceType::Dfs);
    assert_eq!(ServiceType::from(3u8), ServiceType::Cts);
    assert_eq!(ServiceType::from(0u8), ServiceType::Reserved);
    assert_eq!(ServiceType::from(0xFFu8), ServiceType::Reserved);
    assert_eq!(ServiceType::Dws.code(), 0x01);
    assert_eq!(ServiceType::Dfs.code(), 0x02);
    assert_eq!(ServiceType::Cts.code(), 0x03);
    assert_eq!(ServiceType::Reserved.code(), 0xFF);
    assert_eq!(ServiceType::from(0u8).code(), 0xFF);
}

#[test]
fn timed_constructors() {
    let site = DwsSite::new_at("a.dws", "t", "c", 99);
    assert_eq!(site.published_at, 99);
    let f = DfsFile::new_at("f", b"abcde", 2, 100);
    assert_eq!(f.uploaded_at, 100);
    assert_eq!(f.chunks.len(), 3);
    let m = CtsMessage::new_at([0u8; 32], [1u8; 32], "x", 101, 7);
    assert_eq!(m.timestamp, 101);
    assert_eq!(m.nonce, 7);
}

fn signed(mut site: DwsSite) -> DwsSite {
    site.signature = vec![0xAB; 64];
    site
}

#[test]
fn site_is_identified_by_its_domain_digest() {
    let site = DwsSite::new("example.dws", "title", "<h1>Hello, DCP!</h1>");
    assert_eq!(&site.site_id, blake3::hash(b"example.dws").as_bytes());
    assert_eq!(site.domain, "example.dws");
    assert_eq!(site.title, "title");
    assert_eq!(site.version, 1);
    assert!(site.signature.is_empty());
    // no signature scheme yet: every site is accepted
    assert!(site.verify());
    assert!(signed(site).verify());
}

#[test]
fn file_is_cut_into_chunks() {
    let data: Vec<u8> = (0..10u8).collect();
    let f = DfsFile::new("a.bin", &data, 4);
    assert_eq!(&f.file_hash, blake3::hash(&data).as_bytes());
    assert_eq!(f.name, "a.bin");
    assert_eq!(f.size, 10);
    assert_eq!(f.mime_type, "application/octet-stream");
    assert_eq!(f.chunks.len(), 3);
    assert_eq!(&f.chunks[0], blake3::hash(&data[0..4]).as_bytes());
    assert_eq!(&f.chunks[1], blake3::hash(&data[4..8]).as_bytes());
    assert_eq!(&f.chunks[2], blake3::hash(&data[8..10]).as_bytes());
    let empty = DfsFile::new("e", &[], 4);
    assert!(empty.chunks.is_empty());
    assert_eq!(empty.size, 0);
}

#[test]
fn message_fields() {
    let m = CtsMessage::new([1u8; 32], [2u8; 32], "hello");
    assert_eq!(m.from, [1u8; 32]);
    assert_eq!(m.to, [2u8; 32]);
    assert_eq!(m.content, "hello");
}

#[test]
fn publishing_files_the_site_and_stores_its_encoding() {
    let mut app = AppManager::new(StorageEngine::new(1));
    let site = DwsSite::new("example.dws", "v1", "a");
    let encoded = b"{\"domain\":\"example.dws\"}".to_vec();
    let hash = StorageBlock::compute_hash(&encoded);
    assert_eq!(app.publish_site(site, encoded.clone()), Ok(()));
    assert_eq!(app.get_site("example.dws").unwrap().title, "v1");
    assert!(app.get_site("other.dws").is_none());
    assert_eq!(app.storage().stats().total_blocks, 1);
    assert_eq!(app.storage().stats().used_bytes, encoded.len() as u64);
    assert!(app.storage().generate_proof(&hash, &[0u8; 32]).is_some());

    let newer = signed(DwsSite::new("example.dws", "v2", "b"));
    assert_eq!(app.publish_site(newer, b"v2".to_vec()), Ok(()));
    assert_eq!(app.get_site("example.dws").unwrap().title, "v2");
    assert_eq!(app.storage().stats().total_blocks, 2);
}

#[test]
fn publishing_into_a_full_store_fails_but_files_the_site() {
    let mut app = AppManager::new(StorageEngine::new(0));
    let site = DwsSite::new("x.dws", "t", "c");
    assert_eq!(app.publish_site(site, vec![1, 2, 3]), Err("存储空间不足".to_string()));
    assert!(app.get_site("x.dws").is_some());
    assert_eq!(app.storage().stats().total_blocks, 0);
}

#[test]
fn files_are_found_by_hash() {
    let mut app = AppManager::new(StorageEngine::new(1));
    let f = DfsFile::new("a", b"abc", 2);
    let h = f.file_hash;
    assert_eq!(app.upload_file(f), Ok(()));
    assert_eq!(app.get_file(&h).unwrap().name, "a");
    assert!(app.get_file(&[0u8; 32]).is_none());
    let again = DfsFile::new("b", b"abc", 2);
    app.upload_file(again).unwrap();
    assert_eq!(app.get_file(&h).unwrap().name, "b");
}

#[test]
fn recent_messages_are_the_last_ones_in_order() {
    let mut app = AppManager::new(StorageEngine::new(1));
    assert!(app.get_recent_messages(5).is_empty());
    for text in ["a", "b", "c", "d"] {
        app.send_message(CtsMessage::new([0u8; 32], [1u8; 32], text)).unwrap();
    }
    let last2: Vec<&str> = app.get_recent_messages(2).iter().map(|m| m.content.as_str()).collect();
    assert_eq!(last2, vec!["c", "d"]);
    let all: Vec<&str> = app.get_recent_messages(10).iter().map(|m| m.content.as_str()).collect();
    assert_eq!(all, vec!["a", "b", "c", "d"]);
    assert!(app.get_recent_messages(0).is_empty());
}
