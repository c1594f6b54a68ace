use vstd::prelude::*;

use bytes::BytesMut;

use crate::errors::DecodeError;
use crate::messages::{tree_view, MessageTree};
use crate::model::TreeModel;
use crate::parse::{frame_at, parse_tree, FrameSpec, Parsed};

verus! {

broadcast use vstd::seq::group_seq_axioms, vstd::std_specs::vec::group_vec_axioms;

#[verifier::external_type_specification]
#[verifier::external_body]
pub struct ExBytesMut(BytesMut);

/// The bytes a staging buffer holds, front to back.
pub uninterp spec fn bytes_mut_view(b: BytesMut) -> Seq<u8>;

/// Relies on `BytesMut::new`: a new buffer is empty.
#[verifier::external_body]
fn bm_new() -> (r: BytesMut)
    ensures
        bytes_mut_view(r) == Seq::<u8>::empty(),
{
    BytesMut::new()
}

/// Relies on `BytesMut::len`: the number of bytes held.
#[verifier::external_body]
fn bm_len(b: &BytesMut) -> (r: usize)
    ensures
        r == bytes_mut_view(*b).len(),
{
    b.len()
}

/// Relies on `BytesMut::extend_from_slice`: appends the bytes at the back.
#[verifier::external_body]
fn bm_extend(b: &mut BytesMut, data: &Vec<u8>)
    ensures
        bytes_mut_view(*final(b)) == bytes_mut_view(*old(b)) + data@,
{
    b.extend_from_slice(data.as_slice())
}

/// Relies on `BytesMut::split_to`: removes and returns the first `at`
/// bytes, leaving the rest.
#[verifier::external_body]
fn bm_split_to(b: &mut BytesMut, at: usize) -> (r: BytesMut)
    requires
        at <= bytes_mut_view(*old(b)).len(),
    ensures
        bytes_mut_view(r) == bytes_mut_view(*old(b)).subrange(0, at as int),
        bytes_mut_view(*final(b)) == bytes_mut_view(*old(b)).subrange(
            at as int,
            bytes_mut_view(*old(b)).len() as int,
        ),
{
    b.split_to(at)
}

/// Relies on `BytesMut`'s byte-slice view: the held bytes, copied out.
#[verifier::external_body]
fn bm_to_vec(b: &BytesMut) -> (r: Vec<u8>)
    ensures
        r@ == bytes_mut_view(*b),
{
    b.as_ref().to_vec()
}

/// What Snappy decompression yields on the given chunk: a function of the
/// chunk bytes alone; `None` when the chunk is not valid Snappy data.
pub uninterp spec fn snappy_decode(input: Seq<u8>) -> Option<Seq<u8>>;

/// Relies on snap's `raw::Decoder::decompress_vec`: whether it succeeds,
/// and what it yields, depend on the input bytes alone.
#[verifier::external_body]
fn snappy_decompress(input: &Vec<u8>) -> (r: Result<Vec<u8>, DecodeError>)
    ensures
        r is Ok <==> snappy_decode(input@) is Some,
        r matches Ok(v) ==> Some(v@) == snappy_decode(input@),
        r matches Err(e) ==> e == DecodeError::SnappyDecompressError,
{
    match snap::raw::Decoder::new().decompress_vec(input.as_slice()) {
        Ok(v) => Ok(v),
        Err(_) => Err(DecodeError::SnappyDecompressError),
    }
}

/// Demanding `n` bytes of decompressed content from chunk cursor `pos` and
/// staging buffer `buf`: chunks are decompressed until the buffer can serve
/// `n` bytes; at the end of the chunks whatever remains is served, which may
/// be fewer bytes, or none at a clean end of stream.
pub enum StreamRead {
    Got(Seq<u8>, int, Seq<u8>),
    Failed(DecodeError),
}

pub open spec fn stream_read(s: Seq<u8>, pos: int, buf: Seq<u8>, n: nat) -> StreamRead
    decreases s.len() - pos,
{
    if buf.len() >= n {
        StreamRead::Got(buf.subrange(0, n as int), pos, buf.subrange(n as int, buf.len() as int))
    } else {
        match frame_at(s, pos) {
            FrameSpec::Eof => StreamRead::Got(buf, pos, Seq::empty()),
            FrameSpec::Short => StreamRead::Failed(DecodeError::TruncatedStream),
            FrameSpec::Data(c, p2) => match snappy_decode(c) {
                Option::None => StreamRead::Failed(DecodeError::SnappyDecompressError),
                Option::Some(d) => if pos < p2 <= s.len() {
                    stream_read(s, p2, buf + d, n)
                } else {
                    StreamRead::Failed(DecodeError::TruncatedStream)
                },
            },
        }
    }
}

/// A served read never moves the chunk cursor backwards, and when the
/// cursor stands still the read came out of the staging buffer alone.
pub proof fn lemma_stream_read_props(s: Seq<u8>, pos: int, buf: Seq<u8>, n: nat)
    requires
        0 <= pos <= s.len(),
    ensures
        match stream_read(s, pos, buf, n) {
            StreamRead::Got(out, p2, b2) => pos <= p2 <= s.len() && (p2 == pos ==> ((out.len()
                == n && b2.len() == buf.len() - n) || (b2.len() == 0 && out == buf))),
            StreamRead::Failed(e) => true,
        },
    decreases s.len() - pos,
{
    if buf.len() >= n {
    } else {
        match frame_at(s, pos) {
            FrameSpec::Eof => {},
            FrameSpec::Short => {},
            FrameSpec::Data(c, p2) => {
                match snappy_decode(c) {
                    Option::None => {},
                    Option::Some(d) => {
                        if pos < p2 <= s.len() {
                            lemma_stream_read_props(s, p2, buf + d, n);
                        }
                    },
                }
            },
        }
    }
}

/// A streaming reader over one block: the raw block bytes, a cursor past
/// the chunks consumed so far, and the staging buffer of decompressed bytes
/// not yet served.
pub struct SnappyReader {
    pub data: Vec<u8>,
    pub pos: usize,
    pub buf: BytesMut,
}

impl SnappyReader {
    /// The cursor always stays inside the block.
    pub open spec fn wf(&self) -> bool {
        self.pos <= self.data@.len()
    }

    /// Wrap one block's bytes; nothing is consumed yet.
    pub fn new(buf: Vec<u8>) -> (r: SnappyReader)
        ensures
            r.data@ == buf@,
            r.pos == 0,
            bytes_mut_view(r.buf) == Seq::<u8>::empty(),
            r.wf(),
    {
        SnappyReader { data: buf, pos: 0, buf: bm_new() }
    }

    /// Consume the sixteen opaque magic bytes that open every block's
    /// stream; only their presence is checked.
    pub fn read_header(&mut self) -> (r: Result<Vec<u8>, DecodeError>)
        requires
            old(self).wf(),
            old(self).pos == 0,
        ensures
            final(self).data == old(self).data,
            final(self).buf == old(self).buf,
            final(self).wf(),
            if old(self).data@.len() >= 16 {
                r matches Ok(v) && v@ == old(self).data@.subrange(0, 16) && final(self).pos == 16
            } else {
                r == Err::<Vec<u8>, DecodeError>(DecodeError::TruncatedStream) && final(self).pos
                    == old(self).pos
            },
    {
        if self.data.len() < 16 {
            return Err(DecodeError::TruncatedStream);
        }
        let mut out: Vec<u8> = Vec::new();
        let mut i: usize = 0;
        proof {
            assert(out@ =~= self.data@.subrange(0, 0));
        }
        while i < 16
            invariant
                0 <= i <= 16,
                self.data@.len() >= 16,
                out@ == self.data@.subrange(0, i as int),
                self.data == old(self).data,
                self.buf == old(self).buf,
                self.pos == old(self).pos,
            decreases 16 - i,
        {
            let b = self.data[i];
            out.push(b);
            i += 1;
            proof {
                assert(self.data@.subrange(0, i - 1 as int).push(self.data@[i - 1 as int])
                    =~= self.data@.subrange(0, i as int));
            }
        }
        self.pos = 16;
        Ok(out)
    }

    /// Serve up to `n` bytes of decompressed content, decompressing further
    /// chunks as needed, exactly as `stream_read` describes.
    #[verifier::loop_isolation(false)]
    pub fn read(&mut self, n: usize) -> (r: Result<Vec<u8>, DecodeError>)
        requires
            old(self).wf(),
        ensures
            final(self).data == old(self).data,
            match stream_read(old(self).data@, old(self).pos as int, bytes_mut_view(old(self).buf), n as nat) {
                StreamRead::Got(out, p2, b2) => r matches Ok(v) && v@ == out && final(self).pos
                    == p2 && bytes_mut_view(final(self).buf) == b2 && final(self).wf(),
                StreamRead::Failed(e) => r == Err::<Vec<u8>, DecodeError>(e),
            },
    {
        loop
            invariant
                self.wf(),
                self.data == old(self).data,
                old(self).pos <= self.pos,
                stream_read(self.data@, self.pos as int, bytes_mut_view(self.buf), n as nat)
                    == stream_read(
                    old(self).data@,
                    old(self).pos as int,
                    bytes_mut_view(old(self).buf),
                    n as nat,
                ),
            decreases self.data@.len() - self.pos,
        {
            let have = bm_len(&self.buf);
            if have >= n {
                let part = bm_split_to(&mut self.buf, n);
                let v = bm_to_vec(&part);
                return Ok(v);
            }
            let ghost pos_i = self.pos as int;
            let ghost buf_i = bytes_mut_view(self.buf);
            let chunk = {
                let mut p = self.pos;
                let f = crate::framing::try_read_data(&self.data, &mut p);
                match f {
                    crate::framing::FrameOut::Eof => {
                        let all = bm_split_to(&mut self.buf, have);
                        let v = bm_to_vec(&all);
                        proof {
                            assert(buf_i.subrange(0, have as int) =~= buf_i);
                            assert(buf_i.subrange(have as int, have as int) =~= Seq::<
                                u8,
                            >::empty());
                        }
                        return Ok(v);
                    },
                    crate::framing::FrameOut::Short => {
                        return Err(DecodeError::TruncatedStream);
                    },
                    crate::framing::FrameOut::Data(c) => {
                        self.pos = p;
                        c
                    },
                }
            };
            match snappy_decompress(&chunk) {
                Ok(d) => {
                    bm_extend(&mut self.buf, &d);
                },
                Err(e) => {
                    return Err(e);
                },
            }
        }
    }
}

/// The trees a decoded record list yields.
pub enum TreesRes {
    Trees(Seq<TreeModel>),
    Broken(DecodeError),
}

/// One record-extraction step over the decompressed stream: the four-byte
/// big-endian record length, then the record bytes.
pub enum RecRead {
    Done(int, Seq<u8>),
    One(Seq<u8>, int, Seq<u8>),
    Bad(DecodeError),
}

pub open spec fn be_len_of(lb: Seq<u8>) -> int
    recommends
        lb.len() == 4,
{
    (lb[0] as int) * 0x1000000 + (lb[1] as int) * 0x10000 + (lb[2] as int) * 0x100 + (
    lb[3] as int)
}

pub open spec fn stream_record(s: Seq<u8>, pos: int, buf: Seq<u8>) -> RecRead {
    match stream_read(s, pos, buf, 4) {
        StreamRead::Failed(e) => RecRead::Bad(e),
        StreamRead::Got(lb, p1, b1) => if lb.len() == 0 {
            RecRead::Done(p1, b1)
        } else if lb.len() < 4 {
            RecRead::Bad(DecodeError::TruncatedStream)
        } else if lb[0] >= 128 {
            RecRead::Bad(DecodeError::TruncatedStream)
        } else {
            let n = be_len_of(lb);
            match stream_read(s, p1, b1, n as nat) {
                StreamRead::Failed(e) => RecRead::Bad(e),
                StreamRead::Got(body, p2, b2) => if body.len() < n {
                    RecRead::Bad(DecodeError::TruncatedStream)
                } else {
                    RecRead::One(body, p2, b2)
                },
            }
        },
    }
}

/// The trees of all records from stream state `(pos, buf)` to the end.
pub open spec fn records_from(s: Seq<u8>, pos: int, buf: Seq<u8>) -> TreesRes
    decreases s.len() - pos, buf.len(),
{
    match stream_record(s, pos, buf) {
        RecRead::Bad(e) => TreesRes::Broken(e),
        RecRead::Done(_, _) => TreesRes::Trees(Seq::empty()),
        RecRead::One(body, p2, b2) => if !(pos <= p2 <= s.len() && (p2 > pos || b2.len()
            < buf.len())) {
            TreesRes::Broken(DecodeError::TruncatedStream)
        } else {
            match parse_tree(body) {
                Parsed::Fail(e) => TreesRes::Broken(e),
                Parsed::Found(tm, _) => match records_from(s, p2, b2) {
                    TreesRes::Broken(e) => TreesRes::Broken(e),
                    TreesRes::Trees(ts) => TreesRes::Trees(seq![tm] + ts),
                },
            }
        },
    }
}

/// The trees one block yields: sixteen header bytes, then every record of
/// the decompressed chunk stream, decoded in order.
pub open spec fn trees_of_block(b: Seq<u8>) -> TreesRes {
    if b.len() < 16 {
        TreesRes::Broken(DecodeError::TruncatedStream)
    } else {
        records_from(b, 16, Seq::empty())
    }
}

/// The model values of a vector of decoded trees.
pub open spec fn trees_views(v: Seq<MessageTree>) -> Seq<TreeModel> {
    Seq::new(v.len(), |i: int| tree_view(v[i]))
}

pub proof fn lemma_trees_views_push(v: Seq<MessageTree>, t: MessageTree)
    ensures
        trees_views(v.push(t)) == trees_views(v).push(tree_view(t)),
{
    assert(trees_views(v.push(t)) =~= trees_views(v).push(tree_view(t)));
}

/// Read one record frame out of the decompressed stream: `None` at a clean
/// end of stream.
fn read_record(r: &mut SnappyReader) -> (res: Result<Option<Vec<u8>>, DecodeError>)
    requires
        old(r).wf(),
    ensures
        final(r).data == old(r).data,
        match stream_record(old(r).data@, old(r).pos as int, bytes_mut_view(old(r).buf)) {
            RecRead::Done(p, b) => res == Ok::<Option<Vec<u8>>, DecodeError>(Option::None)
                && final(r).pos == p && bytes_mut_view(final(r).buf) == b && final(r).wf(),
            RecRead::One(body, p, b) => res matches Ok(o) && o matches Some(v) && v@ == body
                && final(r).pos == p && bytes_mut_view(final(r).buf) == b && final(r).wf(),
            RecRead::Bad(e) => res == Err::<Option<Vec<u8>>, DecodeError>(e),
        },
{
    let lb = match r.read(4) {
        Ok(v) => v,
        Err(e) => {
            return Err(e);
        },
    };
    if lb.len() == 0 {
        return Ok(Option::None);
    }
    if lb.len() < 4 {
        return Err(DecodeError::TruncatedStream);
    }
    if lb[0] >= 128 {
        return Err(DecodeError::TruncatedStream);
    }
    let n: u32 = (lb[0] as u32) * 0x1000000 + (lb[1] as u32) * 0x10000 + (lb[2] as u32) * 0x100 + (
    lb[3] as u32);
    let body = match r.read(n as usize) {
        Ok(v) => v,
        Err(e) => {
            return Err(e);
        },
    };
    if body.len() < n as usize {
        return Err(DecodeError::TruncatedStream);
    }
    Ok(Option::Some(body))
}

/// Decode one whole block: strip the stream header, then decode every
/// length-prefixed record of the decompressed content into a tree.
#[verifier::loop_isolation(false)]
pub fn read_block(block: Vec<u8>) -> (r: Result<Vec<MessageTree>, DecodeError>)
    ensures
        match trees_of_block(block@) {
            TreesRes::Trees(ts) => r matches Ok(v) && trees_views(v@) == ts,
            TreesRes::Broken(e) => r == Err::<Vec<MessageTree>, DecodeError>(e),
        },
{
    let ghost b0 = block@;
    let mut sr = SnappyReader::new(block);
    match sr.read_header() {
        Ok(_) => {},
        Err(e) => {
            return Err(e);
        },
    }
    let mut trees: Vec<MessageTree> = Vec::new();
    proof {
        assert(trees_views(trees@) =~= Seq::<TreeModel>::empty());
    }
    loop
        invariant
            sr.wf(),
            sr.data@ == b0,
            b0.len() >= 16,
            (match records_from(sr.data@, sr.pos as int, bytes_mut_view(sr.buf)) {
                TreesRes::Trees(rest) => trees_of_block(b0) == TreesRes::Trees(
                    trees_views(trees@) + rest,
                ),
                TreesRes::Broken(e) => trees_of_block(b0) == TreesRes::Broken(e),
            }),
        decreases sr.data@.len() - sr.pos, bytes_mut_view(sr.buf).len(),
    {
        let ghost pos_i = sr.pos as int;
        let ghost buf_i = bytes_mut_view(sr.buf);
        proof {
            lemma_stream_read_props(sr.data@, pos_i, buf_i, 4);
            match stream_read(sr.data@, pos_i, buf_i, 4) {
                StreamRead::Got(lb, p1, b1) => {
                    lemma_stream_read_props(sr.data@, p1, b1, be_len_of(lb) as nat);
                },
                StreamRead::Failed(_) => {},
            }
        }
        match read_record(&mut sr) {
            Err(e) => {
                return Err(e);
            },
            Ok(Option::None) => {
                proof {
                    assert(trees_views(trees@) + Seq::<TreeModel>::empty() =~= trees_views(
                        trees@,
                    ));
                }
                return Ok(trees);
            },
            Ok(Option::Some(body)) => {
                match MessageTree::decode(&body) {
                    Err(e) => {
                        return Err(e);
                    },
                    Ok(t) => {
                        proof {
                            lemma_trees_views_push(trees@, t);
                            match records_from(sr.data@, sr.pos as int, bytes_mut_view(sr.buf)) {
                                TreesRes::Trees(rest2) => {
                                    assert(trees_views(trees@) + (seq![tree_view(t)] + rest2)
                                        =~= trees_views(trees@).push(tree_view(t)) + rest2);
                                },
                                TreesRes::Broken(_) => {},
                            }
                        }
                        trees.push(t);
                    },
                }
            },
        }
    }
}

} // verus!
