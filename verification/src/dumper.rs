use vstd::prelude::*;

use crate::errors::DecodeError;
use crate::messages::MessageTree;
use crate::model::TreeModel;
use crate::parse::{frame_at, FrameSpec};
use crate::snappy::{read_block, trees_of_block, trees_views, TreesRes};

verus! {

broadcast use vstd::seq::group_seq_axioms, vstd::std_specs::vec::group_vec_axioms;

pub const DEFAULT_DECODING_THREADS: usize = 1;

pub const DEFAULT_BLOCK_CHANNEL_CAPACITY: usize = 10;

pub const DEFAULT_TREE_CHANNEL_CAPACITY: usize = 10;

/// Configuration of the decoding pipeline: the input path, the number of
/// decoder workers, and the capacities of the two bounded channels between
/// the block reader, the workers, and the consumer.
pub struct MessageTreeDumper {
    pub path: String,
    pub threads: usize,
    pub block_reader_channel_buffer_size: usize,
    pub tree_decoder_channel_buffer_size: usize,
}

impl MessageTreeDumper {
    /// A pipeline over the given file with the default worker count and
    /// channel capacities.
    pub fn new(path: String) -> (r: MessageTreeDumper)
        ensures
            r.path@ == path@,
            r.threads == DEFAULT_DECODING_THREADS,
            r.block_reader_channel_buffer_size == DEFAULT_BLOCK_CHANNEL_CAPACITY,
            r.tree_decoder_channel_buffer_size == DEFAULT_TREE_CHANNEL_CAPACITY,
    {
        MessageTreeDumper {
            path,
            threads: DEFAULT_DECODING_THREADS,
            block_reader_channel_buffer_size: DEFAULT_BLOCK_CHANNEL_CAPACITY,
            tree_decoder_channel_buffer_size: DEFAULT_TREE_CHANNEL_CAPACITY,
        }
    }
}

/// The four bytes every file must open with: the big-endian signed 32-bit
/// integer minus one.
pub open spec fn file_magic() -> Seq<u8> {
    seq![255u8, 255u8, 255u8, 255u8]
}

/// The trees of every block from `pos` to the end of the file, in file
/// order: within a block, record order; across blocks, block order.
pub open spec fn file_blocks_trees(s: Seq<u8>, pos: int) -> TreesRes
    decreases s.len() - pos,
{
    match frame_at(s, pos) {
        FrameSpec::Eof => TreesRes::Trees(Seq::empty()),
        FrameSpec::Short => TreesRes::Broken(DecodeError::TruncatedBlock),
        FrameSpec::Data(b, p2) => if !(pos < p2 <= s.len()) {
            TreesRes::Broken(DecodeError::TruncatedBlock)
        } else {
            match trees_of_block(b) {
                TreesRes::Broken(e) => TreesRes::Broken(e),
                TreesRes::Trees(ts) => match file_blocks_trees(s, p2) {
                    TreesRes::Broken(e) => TreesRes::Broken(e),
                    TreesRes::Trees(rest) => TreesRes::Trees(ts + rest),
                },
            }
        },
    }
}

/// The trees of a whole file: an empty file yields none; otherwise the four
/// magic bytes must be present, and every framed block is decoded in order.
pub open spec fn trees_of_file(s: Seq<u8>) -> TreesRes {
    if s.len() == 0 {
        TreesRes::Trees(Seq::empty())
    } else if s.len() < 4 || s.subrange(0, 4) != file_magic() {
        TreesRes::Broken(DecodeError::BadFileMagic)
    } else {
        file_blocks_trees(s, 4)
    }
}

/// Decode a whole file's bytes sequentially: validate the magic, then
/// decode every block in file order. This is what a single-worker run of
/// the pipeline emits, in the same order.
#[verifier::loop_isolation(false)]
pub fn decode_file(data: &Vec<u8>) -> (r: Result<Vec<MessageTree>, DecodeError>)
    ensures
        match trees_of_file(data@) {
            TreesRes::Trees(ts) => r matches Ok(v) && trees_views(v@) == ts,
            TreesRes::Broken(e) => r == Err::<Vec<MessageTree>, DecodeError>(e),
        },
{
    if data.len() == 0 {
        let v: Vec<MessageTree> = Vec::new();
        proof {
            assert(trees_views(v@) =~= Seq::<TreeModel>::empty());
        }
        return Ok(v);
    }
    if data.len() < 4 {
        return Err(DecodeError::BadFileMagic);
    }
    if !(data[0] == 255 && data[1] == 255 && data[2] == 255 && data[3] == 255) {
        proof {
            assert(data@.subrange(0, 4)[0] == data@[0]);
            assert(data@.subrange(0, 4)[1] == data@[1]);
            assert(data@.subrange(0, 4)[2] == data@[2]);
            assert(data@.subrange(0, 4)[3] == data@[3]);
            assert(data@.subrange(0, 4) != file_magic());
        }
        return Err(DecodeError::BadFileMagic);
    }
    proof {
        assert(data@.subrange(0, 4) =~= file_magic());
    }
    let mut pos: usize = 4;
    let mut trees: Vec<MessageTree> = Vec::new();
    proof {
        assert(trees_views(trees@) =~= Seq::<TreeModel>::empty());
    }
    loop
        invariant
            4 <= pos <= data@.len(),
            (match file_blocks_trees(data@, pos as int) {
                TreesRes::Trees(rest) => trees_of_file(data@) == TreesRes::Trees(
                    trees_views(trees@) + rest,
                ),
                TreesRes::Broken(e) => trees_of_file(data@) == TreesRes::Broken(e),
            }),
        decreases data@.len() - pos,
    {
        let ghost pos_i = pos as int;
        match crate::framing::try_read_data(data, &mut pos) {
            crate::framing::FrameOut::Eof => {
                proof {
                    assert(trees_views(trees@) + Seq::<TreeModel>::empty() =~= trees_views(
                        trees@,
                    ));
                }
                return Ok(trees);
            },
            crate::framing::FrameOut::Short => {
                return Err(DecodeError::TruncatedBlock);
            },
            crate::framing::FrameOut::Data(b) => {
                match read_block(b) {
                    Err(e) => {
                        return Err(e);
                    },
                    Ok(mut bts) => {
                        let ghost old_trees = trees@;
                        let ghost bv = bts@;
                        trees.append(&mut bts);
                        proof {
                            assert(trees_views(old_trees + bv) =~= trees_views(old_trees)
                                + trees_views(bv));
                            match file_blocks_trees(data@, pos as int) {
                                TreesRes::Trees(rest2) => {
                                    assert(trees_views(old_trees) + (trees_views(bv) + rest2)
                                        =~= (trees_views(old_trees) + trees_views(bv)) + rest2);
                                },
                                TreesRes::Broken(_) => {},
                            }
                        }
                    },
                }
            },
        }
    }
}


/// Single-worker order: the trees of a file are the trees of the block at
/// `pos` followed by the trees of the remaining blocks, so a sequential run
/// emits trees exactly in file order — block by block, and within a block
/// record by record.
pub proof fn lemma_file_order(s: Seq<u8>, pos: int)
    ensures
        (match frame_at(s, pos) {
            FrameSpec::Data(b, p2) => pos < p2 <= s.len() ==> (match (
                trees_of_block(b),
                file_blocks_trees(s, p2),
            ) {
                (TreesRes::Trees(ts), TreesRes::Trees(rest)) => file_blocks_trees(s, pos)
                    == TreesRes::Trees(ts + rest),
                _ => true,
            }),
            _ => true,
        }),
{
}

} // verus!
