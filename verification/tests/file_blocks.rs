use dump_cat::dumper::decode_file;
use dump_cat::errors::DecodeError;
use dump_cat::messages::MessageTree;
use dump_cat::snappy::read_block;

fn vint(mut v: u64) -> Vec<u8> {
    let mut out = Vec::new();
    loop {
        if v < 128 {
            out.push(v as u8);
            return out;
        }
        out.push(((v % 128) + 128) as u8);
        v /= 128;
    }
}

fn string_field(s: &str) -> Vec<u8> {
    let mut out = vint(s.len() as u64);
    out.extend_from_slice(s.as_bytes());
    out
}

/// One record whose only message is an event named `name`, under a `domain`
/// header field.
fn simple_record(domain: &str, name: &str) -> Vec<u8> {
    let mut out = b"NT1".to_vec();
    out.extend_from_slice(&string_field(domain));
    for _ in 0..9 {
        out.extend_from_slice(&string_field(""));
    }
    out.push(b'E');
    out.extend_from_slice(&vint(5));
    out.extend_from_slice(&string_field("ty"));
    out.extend_from_slice(&string_field(name));
    out.extend_from_slice(&string_field("ok"));
    out.extend_from_slice(&string_field(""));
    out
}

fn be32(n: u32) -> [u8; 4] {
    n.to_be_bytes()
}

/// Frame the records into one Snappy block: a sixteen-byte opaque header,
/// then one length-prefixed compressed chunk holding the whole record
/// stream.
fn block_of(records: &[Vec<u8>]) -> Vec<u8> {
    let mut stream = Vec::new();
    for r in records {
        stream.extend_from_slice(&be32(r.len() as u32));
        stream.extend_from_slice(r);
    }
    let chunk = snap::raw::Encoder::new().compress_vec(&stream).unwrap();
    let mut block = vec![0u8; 16];
    block.extend_from_slice(&be32(chunk.len() as u32));
    block.extend_from_slice(&chunk);
    block
}

fn file_of(blocks: &[Vec<u8>]) -> Vec<u8> {
    let mut file = vec![255u8, 255, 255, 255];
    for b in blocks {
        file.extend_from_slice(&be32(b.len() as u32));
        file.extend_from_slice(b);
    }
    file
}

#[test]
fn empty_file_yields_no_trees() {
    assert_eq!(decode_file(&Vec::new()), Ok(Vec::new()));
}

#[test]
fn magic_only_yields_no_trees() {
    assert_eq!(decode_file(&vec![255u8, 255, 255, 255]), Ok(Vec::new()));
}

#[test]
fn bad_magic_is_fatal() {
    assert_eq!(decode_file(&vec![0u8, 0, 0, 0]), Err(DecodeError::BadFileMagic));
    assert_eq!(decode_file(&vec![1u8, 2]), Err(DecodeError::BadFileMagic));
}

#[test]
fn one_record_block_yields_one_tree() {
    let block = block_of(&[simple_record("d", "only")]);
    let trees = read_block(block).unwrap();
    assert_eq!(trees.len(), 1);
    assert_eq!(trees[0].events[0].name, "only");
}

#[test]
fn records_spanning_chunks_decode() {
    // Two chunks, the second record split across the chunk boundary.
    let r1 = simple_record("d", "a");
    let r2 = simple_record("d", "b");
    let mut stream = Vec::new();
    for r in [&r1, &r2] {
        stream.extend_from_slice(&be32(r.len() as u32));
        stream.extend_from_slice(r);
    }
    let cut = stream.len() / 2;
    let c1 = snap::raw::Encoder::new().compress_vec(&stream[..cut]).unwrap();
    let c2 = snap::raw::Encoder::new().compress_vec(&stream[cut..]).unwrap();
    let mut block = vec![0u8; 16];
    block.extend_from_slice(&be32(c1.len() as u32));
    block.extend_from_slice(&c1);
    block.extend_from_slice(&be32(c2.len() as u32));
    block.extend_from_slice(&c2);
    let trees = read_block(block).unwrap();
    assert_eq!(trees.len(), 2);
    assert_eq!(trees[0].events[0].name, "a");
    assert_eq!(trees[1].events[0].name, "b");
}

#[test]
fn corrupt_chunk_is_fatal() {
    let mut block = vec![0u8; 16];
    block.extend_from_slice(&be32(5));
    block.extend_from_slice(&[0xFF, 0xFF, 0xFF, 0xFF, 0xFF]);
    assert_eq!(read_block(block), Err(DecodeError::SnappyDecompressError));
}

#[test]
fn short_block_header_is_fatal() {
    assert_eq!(read_block(vec![0u8; 7]), Err(DecodeError::TruncatedStream));
}

#[test]
fn truncated_block_frame_is_fatal() {
    let mut file = vec![255u8, 255, 255, 255];
    file.extend_from_slice(&[0, 0]);
    assert_eq!(decode_file(&file), Err(DecodeError::TruncatedBlock));
    let mut file2 = vec![255u8, 255, 255, 255];
    file2.extend_from_slice(&be32(100));
    file2.push(1);
    assert_eq!(decode_file(&file2), Err(DecodeError::TruncatedBlock));
}

#[test]
fn single_worker_order_is_file_order() {
    let b1 = block_of(&[simple_record("d", "r1"), simple_record("d", "r2")]);
    let b2 = block_of(&[simple_record("d", "r3")]);
    let b3 = block_of(&[simple_record("d", "r4")]);
    let file = file_of(&[b1, b2, b3]);
    let trees = decode_file(&file).unwrap();
    let names: Vec<&str> = trees.iter().map(|t| t.events[0].name.as_str()).collect();
    assert_eq!(names, ["r1", "r2", "r3", "r4"]);
}

fn multiset_eq(mut a: Vec<MessageTree>, b: &[MessageTree]) -> bool {
    if a.len() != b.len() {
        return false;
    }
    for t in b {
        match a.iter().position(|x| x == t) {
            Some(i) => {
                a.remove(i);
            },
            None => {
                return false;
            },
        }
    }
    a.is_empty()
}

#[test]
fn worker_partition_yields_same_multiset() {
    // The same file decoded sequentially, and decoded block by block in the
    // interleaving a multi-worker run could produce: the multiset of trees
    // is the same.
    let blocks = vec![
        block_of(&[simple_record("d", "r1"), simple_record("d", "r2")]),
        block_of(&[simple_record("e", "r3")]),
        block_of(&[simple_record("f", "r4")]),
        block_of(&[simple_record("g", "r5")]),
    ];
    let file = file_of(&blocks);
    let sequential = decode_file(&file).unwrap();
    let mut interleaved = Vec::new();
    for i in [2usize, 0, 3, 1] {
        interleaved.extend(read_block(blocks[i].clone()).unwrap());
    }
    assert!(multiset_eq(interleaved, &sequential));
}
