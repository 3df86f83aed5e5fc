use blockless_car::content_id::{DAG_PB_CODEC, RAW_CODEC};
use blockless_car::pb::{decode_data, encode_data};
use blockless_car::unixfs_codec::decode;
use blockless_car::utils::{cat_ipld_str, ipld_write};
use blockless_car::{read_block, read_section, CarError, CarReader, Cid, FileType, Ipld, Link, UnixFs, UnixTime};

fn varint(mut n: u64) -> Vec<u8> {
    let mut out = Vec::new();
    while n >= 0x80 {
        out.push((n as u8) | 0x80);
        n >>= 7;
    }
    out.push(n as u8);
    out
}

fn cid_bytes(codec: u8, seed: u8) -> Vec<u8> {
    let mut b = vec![0x01, codec, 0x12, 0x20];
    b.extend(std::iter::repeat(seed).take(32));
    b
}

fn cid(codec: u8, seed: u8) -> Cid {
    Cid::from_bytes(&cid_bytes(codec, seed)).unwrap()
}

fn header(roots: &[Vec<u8>]) -> Vec<u8> {
    let mut h = vec![0xa2, 0x65];
    h.extend_from_slice(b"roots");
    h.push(0x80 + roots.len() as u8);
    for r in roots {
        h.extend_from_slice(&[0xd8, 0x2a, 0x58, (r.len() + 1) as u8, 0x00]);
        h.extend_from_slice(r);
    }
    h.push(0x67);
    h.extend_from_slice(b"version");
    h.push(0x01);
    let mut out = varint(h.len() as u64);
    out.extend(h);
    out
}

fn section(c: &[u8], payload: &[u8]) -> Vec<u8> {
    let mut out = varint((c.len() + payload.len()) as u64);
    out.extend_from_slice(c);
    out.extend_from_slice(payload);
    out
}

fn delimited(field: u8, body: &[u8]) -> Vec<u8> {
    let mut out = vec![field];
    out.extend(varint(body.len() as u64));
    out.extend_from_slice(body);
    out
}

fn pb_link(hash: &[u8], name: &str, tsize: u64) -> Vec<u8> {
    let mut l = delimited(0x0a, hash);
    l.extend(delimited(0x12, name.as_bytes()));
    l.push(0x18);
    l.extend(varint(tsize));
    l
}

/// A protobuf DAG node holding a filesystem record of the given kind.
fn pb_node(kind: u8, links: &[(Vec<u8>, &str, u64)]) -> Vec<u8> {
    let mut out = Vec::new();
    for (h, n, t) in links {
        out.extend(delimited(0x12, &pb_link(h, n, *t)));
    }
    out.extend(delimited(0x0a, &[0x08, kind]));
    out
}

/// Root directory `R` with a file `a.txt` and a directory `sub`, which holds a
/// raw leaf `b.bin`.
fn tree() -> (Vec<u8>, Vec<u8>, Vec<u8>, Vec<u8>) {
    let a = cid_bytes(0x55, 1);
    let leaf = cid_bytes(0x55, 2);
    let sub = cid_bytes(0x70, 3);
    let root = cid_bytes(0x70, 4);
    let sub_node = pb_node(1, &[(leaf.clone(), "b.bin", 3)]);
    let root_node = pb_node(1, &[(a.clone(), "a.txt", 5), (sub.clone(), "sub", 40)]);
    let mut car = header(&[root.clone()]);
    car.extend(section(&root, &root_node));
    car.extend(section(&sub, &sub_node));
    car.extend(section(&a, b"hello"));
    car.extend(section(&leaf, b"bin"));
    (car, a, leaf, root)
}

#[test]
fn read_block_end_of_data() {
    let data: Vec<u8> = Vec::new();
    let mut pos = 0usize;
    assert!(matches!(read_block(&data, &mut pos), Ok(None)));
    assert_eq!(pos, 0);
}

#[test]
fn read_block_reads_payload() {
    let data = vec![0x03, 7, 8, 9, 0x00];
    let mut pos = 0usize;
    assert_eq!(read_block(&data, &mut pos).unwrap(), Some(vec![7, 8, 9]));
    assert_eq!(pos, 4);
    assert_eq!(read_block(&data, &mut pos).unwrap(), Some(vec![]));
    assert_eq!(pos, 5);
    assert!(matches!(read_block(&data, &mut pos), Ok(None)));
}

#[test]
fn read_block_too_large() {
    let mut data = varint(33554433);
    data.push(1);
    let mut pos = 0usize;
    assert_eq!(read_block(&data, &mut pos), Err(CarError::TooLargeSection(33554433)));
    let data = varint(33554432);
    let mut pos = 0usize;
    assert!(matches!(read_block(&data, &mut pos), Err(CarError::IO(_))));
}

#[test]
fn read_block_truncated_payload() {
    let data = vec![0x05, 1, 2];
    let mut pos = 0usize;
    assert!(matches!(read_block(&data, &mut pos), Err(CarError::IO(_))));
}

#[test]
fn read_block_cut_length_prefix() {
    let data = vec![0x80];
    let mut pos = 0usize;
    assert!(matches!(read_block(&data, &mut pos), Err(CarError::IO(_))));
}

#[test]
fn read_section_skips_payload() {
    let c = cid_bytes(0x55, 9);
    let data = section(&c, b"abcd");
    let mut pos = 0usize;
    let s = read_section(&data, &mut pos).unwrap().unwrap();
    assert_eq!(s.cid().to_bytes(), c);
    assert_eq!(s.offset(), 1 + c.len() as u64);
    assert_eq!(s.length(), 4);
    assert_eq!(pos, data.len());
    assert!(matches!(read_section(&data, &mut pos), Ok(None)));
}

#[test]
fn read_section_too_large() {
    let mut data = varint(40 << 20);
    data.extend(cid_bytes(0x55, 1));
    let mut pos = 0usize;
    assert!(matches!(read_section(&data, &mut pos), Err(CarError::TooLargeSection(n)) if n == 40 << 20));
}

#[test]
fn read_section_truncated_payload() {
    let c = cid_bytes(0x55, 9);
    let mut data = section(&c, b"abcdef");
    data.truncate(data.len() - 2);
    let mut pos = 0usize;
    assert!(matches!(read_section(&data, &mut pos), Err(CarError::IO(_))));
}

#[test]
fn read_section_bad_cid() {
    let data = section(&[0x07, 0x07], b"x");
    let mut pos = 0usize;
    assert!(matches!(read_section(&data, &mut pos), Err(CarError::Parsing(_))));
}

#[test]
fn reader_indexes_every_section() {
    let (car, a, leaf, root) = tree();
    let rd = CarReader::new(car.clone()).unwrap();
    assert_eq!(rd.header().version(), 1);
    assert_eq!(rd.header().roots().len(), 1);
    assert_eq!(rd.header().roots()[0].to_bytes(), root);
    let secs = rd.sections();
    assert_eq!(secs.len(), 4);
    // Scanning the frames one after another gives the same sections.
    let mut pos = 0usize;
    read_block(&car, &mut pos).unwrap().unwrap();
    let mut scanned = Vec::new();
    while let Some(s) = read_section(&car, &mut pos).unwrap() {
        scanned.push(s);
    }
    assert_eq!(scanned.len(), secs.len());
    for (x, y) in scanned.iter().zip(secs.iter()) {
        assert_eq!(x.cid(), y.cid());
        assert_eq!(x.offset(), y.offset());
        assert_eq!(x.length(), y.length());
    }
    assert_eq!(rd.read_section_data(&Cid::from_bytes(&a).unwrap()).unwrap(), b"hello".to_vec());
    assert_eq!(rd.read_section_data(&Cid::from_bytes(&leaf).unwrap()).unwrap(), b"bin".to_vec());
}

#[test]
fn reader_decodes_every_section() {
    let (car, _, _, _) = tree();
    let rd = CarReader::new(car).unwrap();
    for s in rd.sections() {
        let node = rd.ipld(s.cid()).unwrap();
        if s.cid().codec() == RAW_CODEC {
            assert!(matches!(node, Ipld::Bytes(_)));
        } else {
            assert_eq!(s.cid().codec(), DAG_PB_CODEC);
            assert!(matches!(node, Ipld::Dict(_)));
        }
    }
}

#[test]
fn reader_missing_block() {
    let (car, _, _, _) = tree();
    let rd = CarReader::new(car).unwrap();
    let absent = cid(0x55, 77);
    assert!(matches!(rd.read_section_data(&absent), Err(CarError::NotFound(_))));
    assert!(matches!(rd.ipld(&absent), Err(CarError::NotFound(_))));
}

#[test]
fn reader_rejects_truncated_archive() {
    let (mut car, _, _, _) = tree();
    car.truncate(car.len() - 1);
    assert!(matches!(CarReader::new(car), Err(CarError::IO(_))));
    assert!(CarReader::new(Vec::new()).is_err());
}

#[test]
fn unixfs_of_directory() {
    let (car, a, _, root) = tree();
    let rd = CarReader::new(car).unwrap();
    let rc = Cid::from_bytes(&root).unwrap();
    let u = rd.unixfs(&rc).unwrap();
    assert_eq!(u.file_type(), FileType::Directory);
    assert_eq!(u.cid(), Some(rc));
    assert_eq!(u.links().len(), 2);
    assert_eq!(u.links()[0].name, "a.txt");
    assert_eq!(u.links()[0].tsize, 5);
    assert_eq!(u.links()[0].hash.to_bytes(), a);
    assert_eq!(u.links()[0].file_type, FileType::Raw);
    assert_eq!(u.links()[1].name, "sub");
    assert!(matches!(rd.unixfs(&Cid::from_bytes(&a).unwrap()), Err(CarError::Parsing(_))));
}

#[test]
fn search_finds_direct_child() {
    let (car, a, leaf, _) = tree();
    let rd = CarReader::new(car).unwrap();
    assert_eq!(rd.search_file_cid("a.txt").unwrap().to_bytes(), a);
    assert_eq!(rd.search_file_cid("b.bin").unwrap().to_bytes(), leaf);
}

#[test]
fn search_absent_name() {
    let (car, _, _, _) = tree();
    let rd = CarReader::new(car).unwrap();
    assert!(matches!(rd.search_file_cid("nothing"), Err(CarError::NotFound(_))));
}

#[test]
fn search_goes_on_to_later_roots() {
    let first = cid_bytes(0x70, 10);
    let second = cid_bytes(0x70, 11);
    let x = cid_bytes(0x55, 12);
    let y = cid_bytes(0x55, 13);
    let mut car = header(&[first.clone(), second.clone()]);
    car.extend(section(&first, &pb_node(1, &[(x.clone(), "x", 1)])));
    car.extend(section(&second, &pb_node(1, &[(y.clone(), "wanted", 1)])));
    car.extend(section(&x, b"x"));
    car.extend(section(&y, b"y"));
    let rd = CarReader::new(car).unwrap();
    assert_eq!(rd.search_file_cid("wanted").unwrap().to_bytes(), y);
    assert!(matches!(rd.search_file_cid("other"), Err(CarError::NotFound(_))));
}

#[test]
fn search_refuses_cycle() {
    let c = cid_bytes(0x70, 20);
    let mut car = header(&[c.clone()]);
    car.extend(section(&c, &pb_node(1, &[(c.clone(), "self", 1)])));
    let rd = CarReader::new(car).unwrap();
    assert!(matches!(rd.search_file_cid("absent"), Err(CarError::Parsing(_))));
}

#[test]
fn materialize_raw_leaf() {
    let (car, a, _, _) = tree();
    let rd = CarReader::new(car).unwrap();
    let mut out = Vec::new();
    ipld_write(&rd, Cid::from_bytes(&a).unwrap(), &mut out).unwrap();
    assert_eq!(out, b"hello".to_vec());
}

#[test]
fn materialize_file_chunks() {
    let c1 = cid_bytes(0x55, 30);
    let c2 = cid_bytes(0x55, 31);
    let f = cid_bytes(0x70, 32);
    let mut car = header(&[f.clone()]);
    car.extend(section(&f, &pb_node(2, &[(c1.clone(), "", 3), (c2.clone(), "", 3), (c1.clone(), "", 3)])));
    car.extend(section(&c1, b"abc"));
    car.extend(section(&c2, b"def"));
    let rd = CarReader::new(car).unwrap();
    let mut out = Vec::new();
    ipld_write(&rd, Cid::from_bytes(&f).unwrap(), &mut out).unwrap();
    assert_eq!(out, b"abcdefabc".to_vec());
}

#[test]
fn materialize_tree_in_level_order() {
    let (car, _, _, root) = tree();
    let rd = CarReader::new(car).unwrap();
    let mut out = Vec::new();
    ipld_write(&rd, Cid::from_bytes(&root).unwrap(), &mut out).unwrap();
    assert_eq!(out, b"hellobin".to_vec());
}

#[test]
fn cat_from_text_identifier() {
    let (car, _, _, _) = tree();
    let rd = CarReader::new(car).unwrap();
    let mut out = Vec::new();
    assert!(matches!(cat_ipld_str(&rd, "not a cid", &mut out), Err(CarError::Parsing(_))));
    assert!(out.is_empty());
}

#[test]
fn cid_parses_text_form() {
    let c = Cid::parse("bafkreihdwdcefgh4dqkjv67uzcmw7ojee6xedzdetojuzjevtenxquvyku").unwrap();
    assert_eq!(c.codec(), RAW_CODEC);
    assert_eq!(c.to_bytes().len(), 36);
    assert!(Cid::from_bytes(&[1, 2]).is_err());
}

fn sample_file() -> UnixFs {
    let mut u = UnixFs::new_directory();
    u.file_type = FileType::File;
    u.file_size = Some(300);
    u.block_sizes = vec![256, 44];
    u.mode = Some(0o644);
    u.mtime = Some(UnixTime { seconds: -5, fractional_nanoseconds: Some(1234) });
    u.hash_type = Some(0x22);
    u.fanout = Some(256);
    u.add_link(Link { hash: cid(0x55, 40), file_type: FileType::File, name: "part0".to_string(), tsize: 256 });
    u.add_link(Link { hash: cid(0x55, 41), file_type: FileType::File, name: "part1".to_string(), tsize: 44 });
    u
}

#[test]
fn unixfs_round_trip() {
    let u = sample_file();
    let node = u.encode().unwrap();
    let back = decode(&node).unwrap();
    assert_eq!(back.file_type(), FileType::File);
    assert_eq!(back.file_size(), Some(300));
    assert_eq!(back.mode(), Some(0o644));
    assert_eq!(back.block_sizes(), vec![256, 44]);
    assert_eq!(back.mtime(), Some(UnixTime { seconds: -5, fractional_nanoseconds: Some(1234) }));
    assert_eq!(back.hash_type(), Some(0x22));
    assert_eq!(back.fanout(), Some(256));
    assert_eq!(back.links().len(), 2);
    for (x, y) in back.links().iter().zip(u.links().iter()) {
        assert_eq!(x.hash, y.hash);
        assert_eq!(x.name, y.name);
        assert_eq!(x.tsize, y.tsize);
        assert_eq!(x.file_type, FileType::Raw);
    }
}

#[test]
fn unixfs_encode_refuses_other_kinds() {
    let mut u = sample_file();
    u.file_type = FileType::Symlink;
    assert!(matches!(u.encode(), Err(CarError::Parsing(_))));
    u.file_type = FileType::Raw;
    assert!(matches!(u.encode(), Err(CarError::Parsing(_))));
    let d = UnixFs::new_directory();
    assert!(matches!(d.encode(), Ok(Ipld::Dict(_))));
}

#[test]
fn unixfs_decode_lenient_links() {
    let h = cid(0x55, 50);
    let link = Ipld::Dict(vec![("Hash".to_string(), Ipld::Link(h.clone()))]);
    let no_hash = Ipld::Dict(vec![("Name".to_string(), Ipld::String("x".to_string()))]);
    let node = Ipld::Dict(vec![
        ("Data".to_string(), Ipld::Bytes(vec![0x08, 0x01])),
        ("Links".to_string(), Ipld::List(vec![link, no_hash, Ipld::Null])),
    ]);
    let u = decode(&node).unwrap();
    assert_eq!(u.file_type(), FileType::Directory);
    assert_eq!(u.links().len(), 1);
    assert_eq!(u.links()[0].name, "");
    assert_eq!(u.links()[0].tsize, 0);
    assert_eq!(u.links()[0].hash, h);
}

#[test]
fn unixfs_decode_errors() {
    assert!(matches!(decode(&Ipld::Bytes(vec![1])), Err(CarError::Parsing(_))));
    assert!(matches!(decode(&Ipld::Dict(vec![])), Err(CarError::Parsing(_))));
    let bad_kind = Ipld::Dict(vec![("Data".to_string(), Ipld::Bytes(vec![0x08, 0x09]))]);
    assert!(matches!(decode(&bad_kind), Err(CarError::Parsing(_))));
}

#[test]
fn data_record_round_trip() {
    let u = sample_file();
    let bytes = encode_data(&u);
    assert_eq!(&bytes[..2], &[0x08, 0x02]);
    let back = decode_data(&bytes).unwrap();
    assert_eq!(back.file_size, Some(300));
    assert_eq!(back.block_sizes, vec![256, 44]);
    assert!(back.links.is_empty());
}

#[test]
fn file_type_names_and_tags() {
    assert_eq!(FileType::HAMTShard.as_str(), "hasmtshard");
    assert_eq!(FileType::Directory.as_str(), "directory");
    assert_eq!(FileType::from_tag(2), Some(FileType::File));
    assert_eq!(FileType::from_tag(6), None);
    assert_eq!(FileType::Symlink.tag(), 4);
    assert_eq!(FileType::default_type(), FileType::Raw);
}

#[test]
fn unixfs_new_keeps_cid() {
    let c = cid(0x70, 60);
    let u = UnixFs::new(c.clone());
    assert_eq!(u.cid(), Some(c));
    assert_eq!(u.file_type(), FileType::Raw);
    assert!(u.file_name().is_none());
}

#[test]
fn duplicate_identifier_reads_first_section() {
    let c = cid_bytes(0x55, 70);
    let mut car = header(&[c.clone()]);
    car.extend(section(&c, b"first"));
    car.extend(section(&c, b"second"));
    let rd = CarReader::new(car).unwrap();
    assert_eq!(rd.sections().len(), 2);
    assert_eq!(rd.read_section_data(&Cid::from_bytes(&c).unwrap()).unwrap(), b"first".to_vec());
}

#[test]
fn header_must_be_well_formed() {
    let mut car = vec![0x02, 0xa0, 0x00];
    car.extend(section(&cid_bytes(0x55, 71), b"x"));
    assert!(matches!(CarReader::new(car), Err(CarError::Parsing(_))));
    let (car, _, _, _) = tree();
    let mut bad = car.clone();
    bad[1] = 0xa3;
    assert!(CarReader::new(bad).is_err());
}

#[test]
fn unsupported_codec_is_a_parsing_error() {
    let c = cid_bytes(0x71, 72);
    let mut car = header(&[c.clone()]);
    car.extend(section(&c, &[0xa0]));
    let rd = CarReader::new(car).unwrap();
    let id = Cid::from_bytes(&c).unwrap();
    assert!(matches!(rd.ipld(&id), Err(CarError::Parsing(_))));
    let mut out = Vec::new();
    assert!(matches!(ipld_write(&rd, id, &mut out), Err(CarError::Parsing(_))));
}

#[test]
fn search_stops_at_a_missing_block() {
    let first = cid_bytes(0x70, 80);
    let missing = cid_bytes(0x70, 81);
    let second = cid_bytes(0x70, 82);
    let y = cid_bytes(0x55, 83);
    let mut car = header(&[first.clone(), second.clone()]);
    car.extend(section(&first, &pb_node(1, &[(missing.clone(), "gone", 1)])));
    car.extend(section(&second, &pb_node(1, &[(y.clone(), "wanted", 1)])));
    car.extend(section(&y, b"y"));
    let rd = CarReader::new(car).unwrap();
    assert!(matches!(rd.search_file_cid("wanted"), Err(CarError::NotFound(_))));
}

#[test]
fn materialize_stops_at_a_missing_block() {
    let f = cid_bytes(0x70, 90);
    let c1 = cid_bytes(0x55, 91);
    let gone = cid_bytes(0x55, 92);
    let mut car = header(&[f.clone()]);
    car.extend(section(&f, &pb_node(2, &[(c1.clone(), "", 3), (gone.clone(), "", 3)])));
    car.extend(section(&c1, b"abc"));
    let rd = CarReader::new(car).unwrap();
    let mut out = Vec::new();
    assert!(matches!(ipld_write(&rd, Cid::from_bytes(&f).unwrap(), &mut out), Err(CarError::NotFound(_))));
}
