use vstd::prelude::*;

use crate::errors::DecodeError;
use crate::model::{LeafKind, LeafModel, MsgModel, TreeModel, TxModel};
use crate::textenc::lossy_utf8;

verus! {

broadcast use vstd::seq::group_seq_axioms;

/// Outcome of running one grammar production at a position: the parsed value
/// and the position just after it, or the error the decoder must report.
pub enum Parsed<T> {
    Found(T, int),
    Fail(DecodeError),
}

/// A run of messages: the list parsed, and whether the run ended by
/// consuming a close tag (`true`) or by running off the end of the record.
pub struct MsgRun {
    pub msgs: Seq<MsgModel>,
    pub closed: bool,
}

pub const TAG_TX_OPEN: u8 = 116;

pub const TAG_TX_CLOSE: u8 = 84;

pub const TAG_EVENT: u8 = 69;

pub const TAG_METRIC: u8 = 77;

pub const TAG_HEARTBEAT: u8 = 72;

pub const TAG_TRACE: u8 = 76;

/// The big-endian signed 32-bit integer stored at `pos`.
pub open spec fn be_i32_at(s: Seq<u8>, pos: int) -> int
    recommends
        0 <= pos,
        pos + 4 <= s.len(),
{
    let u = (s[pos] as int) * 0x1000000 + (s[pos + 1] as int) * 0x10000 + (s[pos + 2] as int)
        * 0x100 + (s[pos + 3] as int);
    if u >= 0x80000000 {
        u - 0x100000000
    } else {
        u
    }
}

/// One length-prefixed frame at `pos`: `Eof` at a clean end, `Short` when the
/// length or the body is cut off (or the length is negative), and otherwise
/// the body bytes with the position after them.
pub enum FrameSpec {
    Eof,
    Short,
    Data(Seq<u8>, int),
}

pub open spec fn frame_at(s: Seq<u8>, pos: int) -> FrameSpec {
    if !(0 <= pos <= s.len()) {
        FrameSpec::Short
    } else if pos == s.len() {
        FrameSpec::Eof
    } else if pos + 4 > s.len() {
        FrameSpec::Short
    } else {
        let n = be_i32_at(s, pos);
        if n < 0 || pos + 4 + n > s.len() {
            FrameSpec::Short
        } else {
            FrameSpec::Data(s.subrange(pos + 4, pos + 4 + n), pos + 4 + n)
        }
    }
}

/// The unsigned LEB128 integer starting at `pos`, continued from an
/// accumulator: low seven bits per byte, least significant group first, a set
/// top bit meaning one more byte follows. Once the shift amount reaches the
/// word width the value saturates to zero and the varint ends with the byte
/// that overflowed. `None` when the record ends inside the varint.
pub open spec fn varint_from(s: Seq<u8>, pos: int, acc: u64, shift: u64) -> Option<(u64, int)>
    decreases s.len() - pos,
{
    if !(0 <= pos < s.len()) {
        None
    } else {
        let b = s[pos];
        if b < 128 {
            if shift >= 64 {
                Some((0u64, pos + 1))
            } else {
                Some((acc | ((b as u64) << shift), pos + 1))
            }
        } else {
            if shift >= 64 {
                Some((0u64, pos + 1))
            } else {
                varint_from(s, pos + 1, acc | (((b & 127) as u64) << shift), (shift + 7) as u64)
            }
        }
    }
}

pub open spec fn parse_varint(s: Seq<u8>, pos: int) -> Option<(u64, int)> {
    varint_from(s, pos, 0, 0)
}

/// A length-prefixed run of raw bytes: varint length, then that many bytes.
pub open spec fn parse_raw(s: Seq<u8>, pos: int) -> Parsed<Seq<u8>> {
    match parse_varint(s, pos) {
        None => Parsed::Fail(DecodeError::TruncatedStream),
        Some((n, p)) => if n == 0 {
            Parsed::Found(Seq::empty(), p)
        } else if p + n > s.len() {
            Parsed::Fail(DecodeError::TruncatedStream)
        } else {
            Parsed::Found(s.subrange(p, p + n), p + n)
        },
    }
}

/// A string field: a length-prefixed run of bytes that must be valid UTF-8.
pub open spec fn parse_string(s: Seq<u8>, pos: int) -> Parsed<Seq<char>> {
    match parse_raw(s, pos) {
        Parsed::Fail(e) => Parsed::Fail(e),
        Parsed::Found(b, p) => if vstd::utf8::valid_utf8(b) {
            Parsed::Found(vstd::utf8::decode_utf8(b), p)
        } else {
            Parsed::Fail(DecodeError::InvalidUtf8)
        },
    }
}

/// `n` consecutive string fields.
pub open spec fn parse_nstrings(s: Seq<u8>, pos: int, n: nat) -> Parsed<Seq<Seq<char>>>
    decreases n,
{
    if n == 0 {
        Parsed::Found(Seq::empty(), pos)
    } else {
        match parse_string(s, pos) {
            Parsed::Fail(e) => Parsed::Fail(e),
            Parsed::Found(c, p) => match parse_nstrings(s, p, (n - 1) as nat) {
                Parsed::Fail(e) => Parsed::Fail(e),
                Parsed::Found(rest, end) => Parsed::Found(seq![c] + rest, end),
            },
        }
    }
}

pub open spec fn starts_with_chars(s: Seq<char>, prefix: Seq<char>) -> bool {
    s.len() >= prefix.len() && s.subrange(0, prefix.len() as int) == prefix
}

/// The server-side aggregation key is preserved by forcing the name of
/// system transactions, and of upload-metric transactions, to one value.
pub open spec fn needs_rewrite(ty: Seq<char>, name: Seq<char>) -> bool {
    ty == "System"@ || starts_with_chars(name, "UploadMetric"@)
}

pub open spec fn rewritten_name(ty: Seq<char>, name: Seq<char>) -> Seq<char> {
    if needs_rewrite(ty, name) {
        "UploadMetric"@
    } else {
        name
    }
}

/// One leaf body (after its tag byte): timestamp, type, name, status, data.
pub open spec fn parse_leaf(s: Seq<u8>, pos: int) -> Parsed<LeafModel> {
    match parse_varint(s, pos) {
        None => Parsed::Fail(DecodeError::TruncatedStream),
        Some((ts, p1)) => match parse_nstrings(s, p1, 4) {
            Parsed::Fail(e) => Parsed::Fail(e),
            Parsed::Found(f, p2) => Parsed::Found(
                LeafModel { ty: f[0], name: f[1], ts, status: f[2], data: f[3] },
                p2,
            ),
        },
    }
}

/// Wrap a leaf in the message variant its tag byte names.
pub open spec fn leaf_msg(tag: u8, l: LeafModel) -> MsgModel {
    if tag == TAG_EVENT {
        MsgModel::Event(l)
    } else if tag == TAG_METRIC {
        MsgModel::Metric(l)
    } else if tag == TAG_HEARTBEAT {
        MsgModel::Heartbeat(l)
    } else {
        MsgModel::Trace(l)
    }
}

pub open spec fn is_leaf_tag(tag: u8) -> bool {
    tag == TAG_EVENT || tag == TAG_METRIC || tag == TAG_HEARTBEAT || tag == TAG_TRACE
}

/// One transaction body (after its open tag): timestamp, type, name — the
/// name rewritten as `rewritten_name` says — then the child run, which must
/// end at a close tag, then status, raw data (decoded strictly when it is
/// valid UTF-8 and lossily otherwise), and the wire duration in microseconds,
/// stored divided down to milliseconds.
pub open spec fn parse_tx(s: Seq<u8>, pos: int) -> Parsed<TxModel>
    decreases s.len() - pos, 0int,
{
    match parse_varint(s, pos) {
        None => Parsed::Fail(DecodeError::TruncatedStream),
        Some((ts, p1)) => match parse_string(s, p1) {
            Parsed::Fail(e) => Parsed::Fail(e),
            Parsed::Found(ty, p2) => match parse_string(s, p2) {
                Parsed::Fail(e) => Parsed::Fail(e),
                Parsed::Found(name0, p3) => if !(pos < p3 <= s.len()) {
                    Parsed::Fail(DecodeError::TruncatedStream)
                } else {
                    match parse_msgs(s, p3) {
                        Parsed::Fail(e) => Parsed::Fail(e),
                        Parsed::Found(run, p4) => if !run.closed {
                            Parsed::Fail(DecodeError::UnterminatedTransaction)
                        } else {
                            match parse_string(s, p4) {
                                Parsed::Fail(e) => Parsed::Fail(e),
                                Parsed::Found(status, p5) => match parse_raw(s, p5) {
                                    Parsed::Fail(e) => Parsed::Fail(e),
                                    Parsed::Found(data, p6) => match parse_varint(s, p6) {
                                        None => Parsed::Fail(DecodeError::TruncatedStream),
                                        Some((us, p7)) => Parsed::Found(
                                            TxModel {
                                                ty,
                                                name: rewritten_name(ty, name0),
                                                ts,
                                                status,
                                                data: if vstd::utf8::valid_utf8(data) {
                                                    vstd::utf8::decode_utf8(data)
                                                } else {
                                                    lossy_utf8(data)
                                                },
                                                duration_in_ms: us / 1000,
                                                children: run.msgs,
                                            },
                                            p7,
                                        ),
                                    },
                                },
                            }
                        },
                    }
                },
            },
        },
    }
}

/// A run of messages from `pos` on: each tag byte opens a transaction, opens
/// a leaf of a fixed kind, or closes the enclosing transaction; the run also
/// ends cleanly at the end of the record. Any other tag byte is fatal.
pub open spec fn parse_msgs(s: Seq<u8>, pos: int) -> Parsed<MsgRun>
    decreases s.len() - pos, 1int,
{
    if !(0 <= pos <= s.len()) {
        Parsed::Fail(DecodeError::TruncatedStream)
    } else if pos == s.len() {
        Parsed::Found(MsgRun { msgs: Seq::empty(), closed: false }, pos)
    } else {
        let tag = s[pos];
        if tag == TAG_TX_CLOSE {
            Parsed::Found(MsgRun { msgs: Seq::empty(), closed: true }, pos + 1)
        } else if tag == TAG_TX_OPEN {
            match parse_tx(s, pos + 1) {
                Parsed::Fail(e) => Parsed::Fail(e),
                Parsed::Found(tx, p2) => if !(pos < p2 <= s.len()) {
                    Parsed::Fail(DecodeError::TruncatedStream)
                } else {
                    match parse_msgs(s, p2) {
                        Parsed::Fail(e) => Parsed::Fail(e),
                        Parsed::Found(run, end) => Parsed::Found(
                            MsgRun {
                                msgs: seq![MsgModel::Transaction(tx)] + run.msgs,
                                closed: run.closed,
                            },
                            end,
                        ),
                    }
                },
            }
        } else if is_leaf_tag(tag) {
            match parse_leaf(s, pos + 1) {
                Parsed::Fail(e) => Parsed::Fail(e),
                Parsed::Found(l, p2) => if !(pos < p2 <= s.len()) {
                    Parsed::Fail(DecodeError::TruncatedStream)
                } else {
                    match parse_msgs(s, p2) {
                        Parsed::Fail(e) => Parsed::Fail(e),
                        Parsed::Found(run, end) => Parsed::Found(
                            MsgRun { msgs: seq![leaf_msg(tag, l)] + run.msgs, closed: run.closed },
                            end,
                        ),
                    }
                },
            }
        } else {
            Parsed::Fail(DecodeError::UnknownMessageKind)
        }
    }
}

/// The three version bytes every record must open with: ASCII `"NT1"`.
pub open spec fn version_bytes() -> Seq<u8> {
    seq![78u8, 84u8, 49u8]
}

/// The representative message of a tree: the last element of the first
/// non-empty catalogue, searched in the order transactions, events, metrics,
/// heartbeats, traces. `None` when every catalogue is empty.
pub open spec fn representative(
    txs: Seq<TxModel>,
    evs: Seq<LeafModel>,
    mets: Seq<LeafModel>,
    hbs: Seq<LeafModel>,
    trs: Seq<LeafModel>,
) -> Option<MsgModel> {
    if txs.len() > 0 {
        Some(MsgModel::Transaction(txs.last()))
    } else if evs.len() > 0 {
        Some(MsgModel::Event(evs.last()))
    } else if mets.len() > 0 {
        Some(MsgModel::Metric(mets.last()))
    } else if hbs.len() > 0 {
        Some(MsgModel::Heartbeat(hbs.last()))
    } else if trs.len() > 0 {
        Some(MsgModel::Trace(trs.last()))
    } else {
        None
    }
}

/// The record header: the version bytes, then the ten header strings.
pub open spec fn parse_header(s: Seq<u8>, pos: int) -> Parsed<Seq<Seq<char>>> {
    if !(0 <= pos) || pos + 3 > s.len() {
        Parsed::Fail(DecodeError::TruncatedStream)
    } else if s.subrange(pos, pos + 3) != version_bytes() {
        Parsed::Fail(DecodeError::UnknownVersion)
    } else {
        parse_nstrings(s, pos + 3, 10)
    }
}

/// One whole tree record: the version bytes, the ten header strings in
/// order, then the message run; the catalogues collect the run's messages
/// and the representative is chosen from them.
pub open spec fn parse_tree(s: Seq<u8>) -> Parsed<TreeModel> {
    {
        match parse_header(s, 0) {
            Parsed::Fail(e) => Parsed::Fail(e),
            Parsed::Found(h, p) => match parse_msgs(s, p) {
                Parsed::Fail(e) => Parsed::Fail(e),
                Parsed::Found(run, end) => {
                    let txs = crate::model::txs_of_list(run.msgs, 0);
                    let evs = crate::model::leaves_of_list(run.msgs, 0, LeafKind::Event);
                    let mets = crate::model::leaves_of_list(run.msgs, 0, LeafKind::Metric);
                    let hbs = crate::model::leaves_of_list(run.msgs, 0, LeafKind::Heartbeat);
                    let trs = crate::model::leaves_of_list(run.msgs, 0, LeafKind::Trace);
                    match representative(txs, evs, mets, hbs, trs) {
                        None => Parsed::Fail(DecodeError::EmptyTree),
                        Some(m) => Parsed::Found(
                            TreeModel {
                                domain: h[0],
                                hostname: h[1],
                                ip_address: h[2],
                                thread_group_name: h[3],
                                thread_id: h[4],
                                thread_name: h[5],
                                message_id: h[6],
                                parent_message_id: h[7],
                                root_message_id: h[8],
                                session_token: h[9],
                                events: evs,
                                transactions: txs,
                                heartbeats: hbs,
                                metrics: mets,
                                traces: trs,
                                message: m,
                            },
                            end,
                        ),
                    }
                },
            },
        }
    }
}

} // verus!
