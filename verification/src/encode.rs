use vstd::prelude::*;

use vstd::utf8::{char_is_scalar, decode_utf8, encode_scalar, encode_utf8};

use crate::model::{leaves_of_list, txs_of_list, LeafKind, LeafModel, MsgModel, TxModel};
use crate::parse::{
    leaf_msg, parse_leaf, parse_msgs, parse_nstrings, parse_raw, parse_string, parse_tree,
    parse_tx, parse_varint, rewritten_name, varint_from, version_bytes, MsgRun, Parsed, TAG_EVENT,
    TAG_HEARTBEAT, TAG_METRIC, TAG_TRACE, TAG_TX_CLOSE, TAG_TX_OPEN,
};

verus! {

broadcast use vstd::seq::group_seq_axioms;

/// The unsigned LEB128 encoding of a value: low seven bits per byte, least
/// significant group first, a set top bit on every byte but the last.
pub open spec fn encode_varint(v: u64) -> Seq<u8>
    decreases v,
{
    if v < 128 {
        seq![v as u8]
    } else {
        seq![((v % 128) + 128) as u8] + encode_varint(v / 128)
    }
}

pub proof fn lemma_encode_varint_len(v: u64)
    ensures
        1 <= encode_varint(v).len(),
    decreases v,
{
}

/// A window holding a concatenation splits into windows holding each half.
pub proof fn lemma_window_split(s: Seq<u8>, pos: int, a: Seq<u8>, b: Seq<u8>)
    requires
        0 <= pos,
        pos + a.len() + b.len() <= s.len(),
        s.subrange(pos, pos + a.len() + b.len()) == a + b,
    ensures
        s.subrange(pos, pos + a.len()) == a,
        s.subrange(pos + a.len(), pos + a.len() + b.len()) == b,
{
    let w = s.subrange(pos, pos + a.len() + b.len());
    assert forall|i: int| 0 <= i < a.len() implies s.subrange(pos, pos + a.len())[i] == a[i] by {
        assert(w[i] == (a + b)[i]);
    }
    assert(s.subrange(pos, pos + a.len()) =~= a);
    assert forall|i: int| 0 <= i < b.len() implies s.subrange(
        pos + a.len(),
        pos + a.len() + b.len(),
    )[i] == b[i] by {
        assert(w[a.len() + i] == (a + b)[a.len() + i]);
    }
    assert(s.subrange(pos + a.len(), pos + a.len() + b.len()) =~= b);
}

proof fn lemma_varint_rt_gen(s: Seq<u8>, pos: int, w: u64, acc: u64, shift: u64)
    requires
        0 <= pos,
        pos + encode_varint(w).len() <= s.len(),
        s.subrange(pos, pos + encode_varint(w).len() as int) == encode_varint(w),
        shift <= 63,
        w <= (0xffff_ffff_ffff_ffffu64 >> shift),
    ensures
        varint_from(s, pos, acc, shift) == Some(
            (acc | (w << shift), pos + encode_varint(w).len()),
        ),
    decreases w,
{
    let e = encode_varint(w);
    assert(s.subrange(pos, pos + e.len() as int)[0] == s[pos]);
    if w < 128 {
        let sb = s[pos];
        assert(sb == w as u8);
        assert(sb < 128 && (sb as u64) == w) by (bit_vector)
            requires
                sb == w as u8,
                w < 128,
        ;
    } else {
        let b = ((w % 128) + 128) as u8;
        assert(e == seq![b] + encode_varint(w / 128));
        assert(s[pos] == b);
        assert(b >= 128) by (bit_vector)
            requires
                b == (((w % 128) + 128) as u8),
        ;
        assert(shift <= 56) by (bit_vector)
            requires
                w >= 128,
                shift <= 63,
                w <= (0xffff_ffff_ffff_ffffu64 >> shift),
        ;
        let acc2 = acc | (((b & 127) as u64) << shift);
        let w2 = w / 128;
        assert(w2 < w);
        lemma_window_split(s, pos, seq![b], encode_varint(w2));
        assert(w2 <= (0xffff_ffff_ffff_ffffu64 >> ((shift + 7) as u64))) by (bit_vector)
            requires
                w2 == w / 128,
                shift <= 56,
                w <= (0xffff_ffff_ffff_ffffu64 >> shift),
        ;
        lemma_varint_rt_gen(s, pos + 1, w2, acc2, (shift + 7) as u64);
        assert(acc2 | (w2 << ((shift + 7) as u64)) == acc | (w << shift)) by (bit_vector)
            requires
                acc2 == (acc | (((b & 127) as u64) << shift)),
                b == (((w % 128) + 128) as u8),
                w2 == w / 128,
                shift <= 56,
                w <= (0xffff_ffff_ffff_ffffu64 >> shift),
        ;
    }
}

/// Decoding inverts the varint encoding.
pub proof fn lemma_varint_rt(s: Seq<u8>, pos: int, v: u64)
    requires
        0 <= pos,
        pos + encode_varint(v).len() <= s.len(),
        s.subrange(pos, pos + encode_varint(v).len() as int) == encode_varint(v),
    ensures
        parse_varint(s, pos) == Some((v, pos + encode_varint(v).len())),
{
    assert(v <= (0xffff_ffff_ffff_ffffu64 >> 0u64)) by (bit_vector);
    lemma_varint_rt_gen(s, pos, v, 0, 0);
    assert(0u64 | (v << 0u64) == v) by (bit_vector);
}

/// The wire form of a string field: the byte length as a varint, then the
/// UTF-8 bytes.
pub open spec fn encode_chars(c: Seq<char>) -> Seq<u8> {
    encode_varint(encode_utf8(c).len() as u64) + encode_utf8(c)
}

/// A string field is encodable when its byte length fits the varint's
/// word.
pub open spec fn wf_chars(c: Seq<char>) -> bool {
    encode_utf8(c).len() <= 0xffff_ffff_ffff_ffff
}

proof fn lemma_encode_utf8_nonempty(c: Seq<char>)
    requires
        c.len() > 0,
    ensures
        encode_utf8(c).len() > 0,
{
    assert(encode_utf8(c) == encode_scalar(c[0] as u32) + encode_utf8(c.drop_first()));
    char_is_scalar(c[0]);
}

/// Decoding inverts the string encoding.
pub proof fn lemma_string_rt(s: Seq<u8>, pos: int, c: Seq<char>)
    requires
        0 <= pos,
        wf_chars(c),
        pos + encode_chars(c).len() <= s.len(),
        s.subrange(pos, pos + encode_chars(c).len() as int) == encode_chars(c),
    ensures
        parse_string(s, pos) == Parsed::<Seq<char>>::Found(c, pos + encode_chars(c).len()),
        encode_chars(c).len() >= 1,
{
    broadcast use vstd::utf8::group_utf8_lib;

    let u = encode_utf8(c);
    let lv = u.len() as u64;
    lemma_window_split(s, pos, encode_varint(lv), u);
    lemma_varint_rt(s, pos, lv);
    lemma_encode_varint_len(lv);
    let p1 = pos + encode_varint(lv).len();
    if u.len() == 0 {
        assert(parse_raw(s, pos) == Parsed::<Seq<u8>>::Found(Seq::<u8>::empty(), p1));
        assert(vstd::utf8::valid_utf8(Seq::<u8>::empty()));
        assert(decode_utf8(Seq::<u8>::empty()) =~= Seq::<char>::empty());
        if c.len() > 0 {
            lemma_encode_utf8_nonempty(c);
        }
        assert(c =~= Seq::<char>::empty());
    } else {
        assert(p1 + u.len() <= s.len());
        assert(s.subrange(p1, p1 + u.len() as int) == u);
        assert(parse_raw(s, pos) == Parsed::<Seq<u8>>::Found(u, p1 + u.len()));
        assert(vstd::utf8::valid_utf8(u));
        assert(decode_utf8(u) == c);
    }
}

/// The wire form of a leaf body, after its tag byte.
pub open spec fn encode_leaf(l: LeafModel) -> Seq<u8> {
    encode_varint(l.ts) + (encode_chars(l.ty) + (encode_chars(l.name) + (encode_chars(l.status)
        + encode_chars(l.data))))
}

pub open spec fn wf_leaf(l: LeafModel) -> bool {
    wf_chars(l.ty) && wf_chars(l.name) && wf_chars(l.status) && wf_chars(l.data)
}

/// Decoding inverts the leaf encoding.
pub proof fn lemma_leaf_rt(s: Seq<u8>, pos: int, l: LeafModel)
    requires
        0 <= pos,
        wf_leaf(l),
        pos + encode_leaf(l).len() <= s.len(),
        s.subrange(pos, pos + encode_leaf(l).len() as int) == encode_leaf(l),
    ensures
        parse_leaf(s, pos) == Parsed::<LeafModel>::Found(l, pos + encode_leaf(l).len()),
        encode_leaf(l).len() >= 5,
{
    let ev = encode_varint(l.ts);
    let e1 = encode_chars(l.ty);
    let e2 = encode_chars(l.name);
    let e3 = encode_chars(l.status);
    let e4 = encode_chars(l.data);
    lemma_window_split(s, pos, ev, e1 + (e2 + (e3 + e4)));
    lemma_varint_rt(s, pos, l.ts);
    lemma_encode_varint_len(l.ts);
    let p1 = pos + ev.len();
    lemma_window_split(s, p1, e1, e2 + (e3 + e4));
    lemma_string_rt(s, p1, l.ty);
    let p2 = p1 + e1.len();
    lemma_window_split(s, p2, e2, e3 + e4);
    lemma_string_rt(s, p2, l.name);
    let p3 = p2 + e2.len();
    lemma_window_split(s, p3, e3, e4);
    lemma_string_rt(s, p3, l.status);
    let p4 = p3 + e3.len();
    lemma_string_rt(s, p4, l.data);
    let p5 = p4 + e4.len();
    assert(parse_nstrings(s, p5, 0) == Parsed::<Seq<Seq<char>>>::Found(
        Seq::<Seq<char>>::empty(),
        p5,
    ));
    assert(parse_nstrings(s, p4, 1) == Parsed::<Seq<Seq<char>>>::Found(
        seq![l.data] + Seq::<Seq<char>>::empty(),
        p5,
    ));
    assert(parse_nstrings(s, p3, 2) == Parsed::<Seq<Seq<char>>>::Found(
        seq![l.status] + (seq![l.data] + Seq::<Seq<char>>::empty()),
        p5,
    ));
    assert(parse_nstrings(s, p2, 3) == Parsed::<Seq<Seq<char>>>::Found(
        seq![l.name] + (seq![l.status] + (seq![l.data] + Seq::<Seq<char>>::empty())),
        p5,
    ));
    assert(parse_nstrings(s, p1, 4) == Parsed::<Seq<Seq<char>>>::Found(
        seq![l.ty] + (seq![l.name] + (seq![l.status] + (seq![l.data]
            + Seq::<Seq<char>>::empty()))),
        p5,
    ));
    let f = seq![l.ty] + (seq![l.name] + (seq![l.status] + (seq![l.data]
        + Seq::<Seq<char>>::empty())));
    assert(f =~= seq![l.ty, l.name, l.status, l.data]);
    assert(parse_leaf(s, pos) == Parsed::<LeafModel>::Found(
        LeafModel { ty: f[0], name: f[1], ts: l.ts, status: f[2], data: f[3] },
        p5,
    ));
    assert(LeafModel { ty: f[0], name: f[1], ts: l.ts, status: f[2], data: f[3] } == l);
}

/// The wire form of a raw byte field: the length as a varint, then the
/// bytes.
pub open spec fn encode_bytes(b: Seq<u8>) -> Seq<u8> {
    encode_varint(b.len() as u64) + b
}

/// Decoding inverts the raw byte encoding.
pub proof fn lemma_raw_rt(s: Seq<u8>, pos: int, b: Seq<u8>)
    requires
        0 <= pos,
        b.len() <= 0xffff_ffff_ffff_ffff,
        pos + encode_bytes(b).len() <= s.len(),
        s.subrange(pos, pos + encode_bytes(b).len() as int) == encode_bytes(b),
    ensures
        parse_raw(s, pos) == Parsed::<Seq<u8>>::Found(b, pos + encode_bytes(b).len()),
        encode_bytes(b).len() >= 1,
{
    let lv = b.len() as u64;
    lemma_window_split(s, pos, encode_varint(lv), b);
    lemma_varint_rt(s, pos, lv);
    lemma_encode_varint_len(lv);
    let p1 = pos + encode_varint(lv).len();
    if b.len() == 0 {
        assert(b =~= Seq::<u8>::empty());
    } else {
        assert(s.subrange(p1, p1 + b.len() as int) == b);
    }
}

/// The wire form of a transaction body, after its open tag: timestamp,
/// type, name, the children followed by the close tag, then status, data
/// and the duration in microseconds.
pub open spec fn encode_tx_body(t: TxModel) -> Seq<u8>
    decreases t, 2int,
{
    encode_varint(t.ts) + (encode_chars(t.ty) + (encode_chars(t.name) + ((encode_list(
        t.children,
        0,
    ) + seq![TAG_TX_CLOSE]) + (encode_chars(t.status) + (encode_chars(t.data) + encode_varint(
        (t.duration_in_ms * 1000) as u64,
    ))))))
}

/// The wire form of one message: its tag byte, then its body.
pub open spec fn encode_msg(m: MsgModel) -> Seq<u8>
    decreases m, 3int,
{
    match m {
        MsgModel::Event(l) => seq![TAG_EVENT] + encode_leaf(l),
        MsgModel::Metric(l) => seq![TAG_METRIC] + encode_leaf(l),
        MsgModel::Heartbeat(l) => seq![TAG_HEARTBEAT] + encode_leaf(l),
        MsgModel::Trace(l) => seq![TAG_TRACE] + encode_leaf(l),
        MsgModel::Transaction(t) => seq![TAG_TX_OPEN] + encode_tx_body(t),
    }
}

/// The wire form of the messages of `ms` from index `i` on.
pub open spec fn encode_list(ms: Seq<MsgModel>, i: int) -> Seq<u8>
    decreases ms, ms.len() - i, 4int,
{
    if i < 0 || i >= ms.len() {
        Seq::empty()
    } else {
        encode_msg(ms[i]) + encode_list(ms, i + 1)
    }
}

/// A message is encodable when its text fields are, its duration scales
/// back to microseconds without overflow, and its name already carries the
/// rewrite (the grammar would apply it again).
pub open spec fn wf_msg(m: MsgModel) -> bool
    decreases m, 0int,
{
    match m {
        MsgModel::Transaction(t) => wf_chars(t.ty) && wf_chars(t.name) && wf_chars(t.status)
            && wf_chars(t.data) && t.duration_in_ms * 1000 <= 0xffff_ffff_ffff_ffff
            && rewritten_name(t.ty, t.name) == t.name && wf_wlist(t.children, 0),
        MsgModel::Event(l) => wf_leaf(l),
        MsgModel::Metric(l) => wf_leaf(l),
        MsgModel::Heartbeat(l) => wf_leaf(l),
        MsgModel::Trace(l) => wf_leaf(l),
    }
}

pub open spec fn wf_wlist(ms: Seq<MsgModel>, i: int) -> bool
    decreases ms, ms.len() - i,
{
    if i < 0 || i >= ms.len() {
        true
    } else {
        wf_msg(ms[i]) && wf_wlist(ms, i + 1)
    }
}

/// Decoding inverts the transaction encoding.
#[verifier::rlimit(100)]
proof fn lemma_tx_rt(s: Seq<u8>, pos: int, t: TxModel)
    requires
        0 <= pos,
        wf_msg(MsgModel::Transaction(t)),
        pos + encode_tx_body(t).len() <= s.len(),
        s.subrange(pos, pos + encode_tx_body(t).len() as int) == encode_tx_body(t),
    ensures
        parse_tx(s, pos) == Parsed::<TxModel>::Found(t, pos + encode_tx_body(t).len()),
    decreases t, 0int, 0int,
{
    let ev = encode_varint(t.ts);
    let e1 = encode_chars(t.ty);
    let e2 = encode_chars(t.name);
    let em = encode_list(t.children, 0) + seq![TAG_TX_CLOSE];
    let e3 = encode_chars(t.status);
    let e4 = encode_chars(t.data);
    let e5 = encode_varint((t.duration_in_ms * 1000) as u64);
    lemma_window_split(s, pos, ev, e1 + (e2 + (em + (e3 + (e4 + e5)))));
    lemma_varint_rt(s, pos, t.ts);
    lemma_encode_varint_len(t.ts);
    let p1 = pos + ev.len();
    lemma_window_split(s, p1, e1, e2 + (em + (e3 + (e4 + e5))));
    lemma_string_rt(s, p1, t.ty);
    let p2 = p1 + e1.len();
    lemma_window_split(s, p2, e2, em + (e3 + (e4 + e5)));
    lemma_string_rt(s, p2, t.name);
    let p3 = p2 + e2.len();
    assert(pos < p3 <= s.len());
    lemma_window_split(s, p3, em, e3 + (e4 + e5));
    assert(s.subrange(p3, p3 + encode_list(t.children, 0).len() + 1) == encode_list(t.children, 0)
        + seq![TAG_TX_CLOSE]);
    lemma_msgs_rt(s, p3, t.children, 0, true);
    assert(t.children.subrange(0, t.children.len() as int) =~= t.children);
    let p4 = p3 + em.len();
    lemma_window_split(s, p4, e3, e4 + e5);
    lemma_string_rt(s, p4, t.status);
    let p5 = p4 + e3.len();
    lemma_window_split(s, p5, e4, e5);
    assert(e4 == encode_bytes(encode_utf8(t.data)));
    lemma_raw_rt(s, p5, encode_utf8(t.data));
    let p6 = p5 + e4.len();
    lemma_varint_rt(s, p6, (t.duration_in_ms * 1000) as u64);
    let p7 = p6 + e5.len();
    broadcast use vstd::utf8::group_utf8_lib;

    assert(vstd::utf8::valid_utf8(encode_utf8(t.data)));
    assert(decode_utf8(encode_utf8(t.data)) == t.data);
    assert(((t.duration_in_ms * 1000) as u64) / 1000 == t.duration_in_ms);
    assert(parse_tx(s, pos) == Parsed::<TxModel>::Found(
        TxModel {
            ty: t.ty,
            name: rewritten_name(t.ty, t.name),
            ts: t.ts,
            status: t.status,
            data: t.data,
            duration_in_ms: t.duration_in_ms,
            children: t.children,
        },
        p7,
    ));
    assert(TxModel {
        ty: t.ty,
        name: rewritten_name(t.ty, t.name),
        ts: t.ts,
        status: t.status,
        data: t.data,
        duration_in_ms: t.duration_in_ms,
        children: t.children,
    } == t);
}

/// One parsed message followed by a parsed run is the run from one index
/// earlier.
proof fn lemma_msgs_cons(s: Seq<u8>, pos: int, p1: int, ms: Seq<MsgModel>, i: int, closed: bool, end: int)
    requires
        0 <= pos < s.len(),
        0 <= i < ms.len(),
        pos < p1 <= s.len(),
        (match ms[i] {
            MsgModel::Transaction(t) => s[pos] == TAG_TX_OPEN && parse_tx(s, pos + 1)
                == Parsed::<TxModel>::Found(t, p1),
            MsgModel::Event(l) => s[pos] == TAG_EVENT && parse_leaf(s, pos + 1)
                == Parsed::<LeafModel>::Found(l, p1),
            MsgModel::Metric(l) => s[pos] == TAG_METRIC && parse_leaf(s, pos + 1)
                == Parsed::<LeafModel>::Found(l, p1),
            MsgModel::Heartbeat(l) => s[pos] == TAG_HEARTBEAT && parse_leaf(s, pos + 1)
                == Parsed::<LeafModel>::Found(l, p1),
            MsgModel::Trace(l) => s[pos] == TAG_TRACE && parse_leaf(s, pos + 1)
                == Parsed::<LeafModel>::Found(l, p1),
        }),
        parse_msgs(s, p1) == Parsed::<MsgRun>::Found(
            MsgRun { msgs: ms.subrange(i + 1, ms.len() as int), closed },
            end,
        ),
    ensures
        parse_msgs(s, pos) == Parsed::<MsgRun>::Found(
            MsgRun { msgs: ms.subrange(i, ms.len() as int), closed },
            end,
        ),
{
    assert(seq![ms[i]] + ms.subrange(i + 1, ms.len() as int) =~= ms.subrange(
        i,
        ms.len() as int,
    ));
    match ms[i] {
        MsgModel::Transaction(t) => {
        },
        MsgModel::Event(l) => {
            assert(leaf_msg(TAG_EVENT, l) == MsgModel::Event(l));
        },
        MsgModel::Metric(l) => {
            assert(leaf_msg(TAG_METRIC, l) == MsgModel::Metric(l));
        },
        MsgModel::Heartbeat(l) => {
            assert(leaf_msg(TAG_HEARTBEAT, l) == MsgModel::Heartbeat(l));
        },
        MsgModel::Trace(l) => {
            assert(leaf_msg(TAG_TRACE, l) == MsgModel::Trace(l));
        },
    }
}

/// Decoding inverts the encoding of a message run: a run followed by a
/// close tag parses as a closed run, and a run that fills the rest of the
/// record parses as a run ended by the end of the record.
#[verifier::rlimit(100)]
proof fn lemma_msgs_rt(s: Seq<u8>, pos: int, ms: Seq<MsgModel>, i: int, closed: bool)
    requires
        0 <= pos,
        0 <= i <= ms.len(),
        wf_wlist(ms, i),
        closed ==> pos + encode_list(ms, i).len() + 1 <= s.len() && s.subrange(
            pos,
            pos + encode_list(ms, i).len() + 1,
        ) == encode_list(ms, i) + seq![TAG_TX_CLOSE],
        !closed ==> pos + encode_list(ms, i).len() == s.len() && s.subrange(pos, s.len() as int)
            == encode_list(ms, i),
    ensures
        parse_msgs(s, pos) == Parsed::<MsgRun>::Found(
            MsgRun { msgs: ms.subrange(i, ms.len() as int), closed },
            pos + encode_list(ms, i).len() + if closed {
                1int
            } else {
                0int
            },
        ),
    decreases ms, ms.len() - i, 1int,
{
    if i == ms.len() {
        if closed {
            assert(s.subrange(pos, pos + 1)[0] == s[pos]);
            assert((encode_list(ms, i) + seq![TAG_TX_CLOSE])[0] == TAG_TX_CLOSE);
            assert(s[pos] == TAG_TX_CLOSE);
            assert(ms.subrange(i, ms.len() as int) =~= Seq::<MsgModel>::empty());
        } else {
            assert(pos == s.len());
            assert(ms.subrange(i, ms.len() as int) =~= Seq::<MsgModel>::empty());
        }
    } else {
        let m = ms[i];
        assert(wf_msg(m));
        let e = encode_msg(m);
        let rest = encode_list(ms, i + 1);
        let tail: Seq<u8> = if closed {
            seq![TAG_TX_CLOSE]
        } else {
            Seq::empty()
        };
        let end: int = pos + encode_list(ms, i).len() + if closed {
            1int
        } else {
            0int
        };
        assert(encode_list(ms, i) == e + rest);
        assert((e + rest) + tail =~= e + (rest + tail));
        assert(s.subrange(pos, pos + e.len() + (rest.len() + tail.len())) == e + (rest + tail));
        lemma_window_split(s, pos, e, rest + tail);
        let p1 = pos + e.len();
        assert(s.subrange(p1, p1 + rest.len() + tail.len()) == rest + tail);
        if !closed {
            assert(rest + tail =~= rest);
        }
        let tag: u8 = (match m {
            MsgModel::Transaction(_) => TAG_TX_OPEN,
            MsgModel::Event(_) => TAG_EVENT,
            MsgModel::Metric(_) => TAG_METRIC,
            MsgModel::Heartbeat(_) => TAG_HEARTBEAT,
            MsgModel::Trace(_) => TAG_TRACE,
        });
        assert(s[pos] == tag && pos < p1 <= s.len() && (match m {
            MsgModel::Transaction(t) => parse_tx(s, pos + 1) == Parsed::<TxModel>::Found(t, p1),
            MsgModel::Event(l) => parse_leaf(s, pos + 1) == Parsed::<LeafModel>::Found(l, p1),
            MsgModel::Metric(l) => parse_leaf(s, pos + 1) == Parsed::<LeafModel>::Found(l, p1),
            MsgModel::Heartbeat(l) => parse_leaf(s, pos + 1) == Parsed::<LeafModel>::Found(
                l,
                p1,
            ),
            MsgModel::Trace(l) => parse_leaf(s, pos + 1) == Parsed::<LeafModel>::Found(l, p1),
        })) by {
            match m {
                MsgModel::Transaction(t) => {
                    assert(e == seq![TAG_TX_OPEN] + encode_tx_body(t));
                    lemma_window_split(s, pos, seq![TAG_TX_OPEN], encode_tx_body(t));
                    assert(s.subrange(pos, pos + 1)[0] == s[pos]);
                    lemma_tx_rt(s, pos + 1, t);
                },
                MsgModel::Event(l) => {
                    assert(e == seq![TAG_EVENT] + encode_leaf(l));
                    lemma_window_split(s, pos, seq![TAG_EVENT], encode_leaf(l));
                    assert(s.subrange(pos, pos + 1)[0] == s[pos]);
                    lemma_leaf_rt(s, pos + 1, l);
                },
                MsgModel::Metric(l) => {
                    assert(e == seq![TAG_METRIC] + encode_leaf(l));
                    lemma_window_split(s, pos, seq![TAG_METRIC], encode_leaf(l));
                    assert(s.subrange(pos, pos + 1)[0] == s[pos]);
                    lemma_leaf_rt(s, pos + 1, l);
                },
                MsgModel::Heartbeat(l) => {
                    assert(e == seq![TAG_HEARTBEAT] + encode_leaf(l));
                    lemma_window_split(s, pos, seq![TAG_HEARTBEAT], encode_leaf(l));
                    assert(s.subrange(pos, pos + 1)[0] == s[pos]);
                    lemma_leaf_rt(s, pos + 1, l);
                },
                MsgModel::Trace(l) => {
                    assert(e == seq![TAG_TRACE] + encode_leaf(l));
                    lemma_window_split(s, pos, seq![TAG_TRACE], encode_leaf(l));
                    assert(s.subrange(pos, pos + 1)[0] == s[pos]);
                    lemma_leaf_rt(s, pos + 1, l);
                },
            }
        }
        lemma_msgs_rt(s, p1, ms, i + 1, closed);
        lemma_msgs_cons(s, pos, p1, ms, i, closed, end);
    }
}

/// The wire form of the header strings of `h` from index `i` on.
pub open spec fn encode_nstrings(h: Seq<Seq<char>>, i: int) -> Seq<u8>
    decreases h.len() - i,
{
    if i < 0 || i >= h.len() {
        Seq::empty()
    } else {
        encode_chars(h[i]) + encode_nstrings(h, i + 1)
    }
}

proof fn lemma_nstrings_rt(s: Seq<u8>, pos: int, h: Seq<Seq<char>>, i: int)
    requires
        0 <= pos,
        0 <= i <= h.len(),
        forall|j: int| 0 <= j < h.len() ==> wf_chars(#[trigger] h[j]),
        pos + encode_nstrings(h, i).len() <= s.len(),
        s.subrange(pos, pos + encode_nstrings(h, i).len() as int) == encode_nstrings(h, i),
    ensures
        parse_nstrings(s, pos, (h.len() - i) as nat) == Parsed::<Seq<Seq<char>>>::Found(
            h.subrange(i, h.len() as int),
            pos + encode_nstrings(h, i).len(),
        ),
    decreases h.len() - i,
{
    if i == h.len() {
        assert(h.subrange(i, h.len() as int) =~= Seq::<Seq<char>>::empty());
    } else {
        lemma_window_split(s, pos, encode_chars(h[i]), encode_nstrings(h, i + 1));
        lemma_string_rt(s, pos, h[i]);
        let p1 = pos + encode_chars(h[i]).len();
        lemma_nstrings_rt(s, p1, h, i + 1);
        assert(seq![h[i]] + h.subrange(i + 1, h.len() as int) =~= h.subrange(i, h.len() as int));
    }
}

/// The wire form of one whole record: the version bytes, the ten header
/// strings, then the message run, which the end of the record closes.
pub open spec fn encode_record(h: Seq<Seq<char>>, ms: Seq<MsgModel>) -> Seq<u8> {
    version_bytes() + (encode_nstrings(h, 0) + encode_list(ms, 0))
}

/// Round trip: a record encoded from any well-formed header and message run
/// decodes to exactly the tree that header and run determine — the header
/// fields in order, the catalogues collected from the run, and the
/// representative chosen from them. In particular, re-encoding what one
/// decode produced — whose names already carry the rewrite — decodes to the
/// same tree again.
#[verifier::rlimit(100)]
pub proof fn lemma_record_round_trip(h: Seq<Seq<char>>, ms: Seq<MsgModel>)
    requires
        h.len() == 10,
        forall|j: int| 0 <= j < h.len() ==> wf_chars(#[trigger] h[j]),
        wf_wlist(ms, 0),
        ms.len() > 0,
    ensures
        (match parse_tree(encode_record(h, ms)) {
            Parsed::Found(tm, end) => tm.domain == h[0] && tm.hostname == h[1] && tm.ip_address
                == h[2] && tm.thread_group_name == h[3] && tm.thread_id == h[4] && tm.thread_name
                == h[5] && tm.message_id == h[6] && tm.parent_message_id == h[7]
                && tm.root_message_id == h[8] && tm.session_token == h[9] && tm.transactions
                == txs_of_list(ms, 0) && tm.events == leaves_of_list(ms, 0, LeafKind::Event)
                && tm.metrics == leaves_of_list(ms, 0, LeafKind::Metric) && tm.heartbeats
                == leaves_of_list(ms, 0, LeafKind::Heartbeat) && tm.traces == leaves_of_list(
                ms,
                0,
                LeafKind::Trace,
            ) && Some(tm.message) == crate::parse::representative(
                tm.transactions,
                tm.events,
                tm.metrics,
                tm.heartbeats,
                tm.traces,
            ) && end == encode_record(h, ms).len(),
            Parsed::Fail(_) => false,
        }),
{
    let s = encode_record(h, ms);
    let eh = encode_nstrings(h, 0);
    let el = encode_list(ms, 0);
    assert(s.subrange(0, s.len() as int) =~= s);
    lemma_window_split(s, 0, version_bytes(), eh + el);
    assert(s.subrange(0, 3) == version_bytes());
    lemma_window_split(s, 3, eh, el);
    lemma_nstrings_rt(s, 3, h, 0);
    assert(h.subrange(0, 10) =~= h);
    let p: int = 3 + eh.len() as int;
    assert(crate::parse::parse_header(s, 0) == Parsed::<Seq<Seq<char>>>::Found(h, p));
    lemma_msgs_rt(s, p, ms, 0, false);
    assert(ms.subrange(0, ms.len() as int) =~= ms);
    assert(parse_msgs(s, p) == Parsed::<MsgRun>::Found(
        MsgRun { msgs: ms, closed: false },
        s.len() as int,
    ));
    crate::laws::lemma_own_entry(ms, 0);
    match parse_tree(s) {
        Parsed::Found(tm, end) => {
        },
        Parsed::Fail(_) => {
            assert(false);
        },
    }
}

} // verus!
