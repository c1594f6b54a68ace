use vstd::prelude::*;

use std::rc::Rc;

use crate::errors::DecodeError;
use crate::messages::{
    events_cat_view, heartbeats_cat_view, lemma_events_cat_push, lemma_heartbeats_cat_push,
    lemma_metrics_cat_push, lemma_msgs_view_push, lemma_traces_cat_push, lemma_txs_cat_push,
    metrics_cat_view, msgs_view, msg_view, rc_clone, traces_cat_view, tree_view, txs_cat_view,
    tx_view, InnerEvent, InnerHeartbeat, InnerMetric, InnerTrace, InnerTransaction, Message,
    MessageTree,
};
use crate::model::{
    leaves_of_list, leaves_of_msg, lemma_leaves_of_list_push, lemma_txs_of_list_push, txs_of_list,
    txs_of_msg, LeafKind, LeafModel, MsgModel, TxModel,
};
use crate::parse::{
    leaf_msg, needs_rewrite, parse_leaf, parse_msgs, parse_nstrings, parse_raw, parse_string,
    parse_header, parse_tree, parse_tx, parse_varint, rewritten_name, varint_from, version_bytes,
    MsgRun, Parsed, TAG_EVENT,
    TAG_HEARTBEAT, TAG_METRIC, TAG_TRACE, TAG_TX_CLOSE, TAG_TX_OPEN,
};
use crate::textenc::{utf8_lossy_to_string, utf8_to_string};

verus! {

broadcast use vstd::seq::group_seq_axioms, vstd::std_specs::vec::group_vec_axioms;

/// The tree `t1` is `t0` with the contributions of the decoded messages
/// `ms` appended to its five flat catalogues, everything else untouched.
pub open spec fn tree_plus_msgs(t0: MessageTree, t1: MessageTree, ms: Seq<MsgModel>) -> bool {
    &&& t1 == (MessageTree {
        events: t1.events,
        transactions: t1.transactions,
        heartbeats: t1.heartbeats,
        metrics: t1.metrics,
        traces: t1.traces,
        ..t0
    })
    &&& txs_cat_view(t1.transactions@) == txs_cat_view(t0.transactions@) + txs_of_list(ms, 0)
    &&& events_cat_view(t1.events@) == events_cat_view(t0.events@) + leaves_of_list(
        ms,
        0,
        LeafKind::Event,
    )
    &&& heartbeats_cat_view(t1.heartbeats@) == heartbeats_cat_view(t0.heartbeats@)
        + leaves_of_list(ms, 0, LeafKind::Heartbeat)
    &&& metrics_cat_view(t1.metrics@) == metrics_cat_view(t0.metrics@) + leaves_of_list(
        ms,
        0,
        LeafKind::Metric,
    )
    &&& traces_cat_view(t1.traces@) == traces_cat_view(t0.traces@) + leaves_of_list(
        ms,
        0,
        LeafKind::Trace,
    )
}

/// The enclosing transaction `p1` is `p0` with the decoded messages `ms`
/// appended to its children, its other fields untouched; no enclosing
/// transaction stays none.
pub open spec fn parent_plus_msgs(
    p0: Option<InnerTransaction>,
    p1: Option<InnerTransaction>,
    ms: Seq<MsgModel>,
) -> bool {
    match (p0, p1) {
        (Option::None, Option::None) => true,
        (Option::Some(a), Option::Some(b)) => {
            &&& b == (InnerTransaction { children: b.children, ..a })
            &&& msgs_view(b.children@, 0) == msgs_view(a.children@, 0) + ms
        },
        _ => false,
    }
}

/// The catalogue contributions of a one-message list are the message's own.
pub proof fn lemma_cat_singleton(m: MsgModel)
    ensures
        txs_of_list(seq![m], 0) == txs_of_msg(m),
        forall|k: LeafKind| #[trigger] leaves_of_list(seq![m], 0, k) == leaves_of_msg(m, k),
{
    let sm = seq![m];
    assert(txs_of_list(sm, 1) =~= Seq::<TxModel>::empty());
    assert(txs_of_list(sm, 0) == txs_of_msg(m) + txs_of_list(sm, 1));
    assert(txs_of_msg(m) + Seq::<TxModel>::empty() =~= txs_of_msg(m));
    assert forall|k: LeafKind| #[trigger] leaves_of_list(sm, 0, k) == leaves_of_msg(m, k) by {
        assert(leaves_of_list(sm, 1, k) =~= Seq::<LeafModel>::empty());
        assert(leaves_of_list(sm, 0, k) == leaves_of_msg(m, k) + leaves_of_list(sm, 1, k));
        assert(leaves_of_msg(m, k) + Seq::<LeafModel>::empty() =~= leaves_of_msg(m, k));
    }
}

/// Nothing decoded yet: the tree and the enclosing transaction stand still.
pub proof fn lemma_plus_msgs_refl(t: MessageTree, p: Option<InnerTransaction>)
    ensures
        tree_plus_msgs(t, t, Seq::empty()),
        parent_plus_msgs(p, p, Seq::empty()),
{
    let e = Seq::<MsgModel>::empty();
    assert(txs_of_list(e, 0) =~= Seq::<TxModel>::empty());
    assert(txs_cat_view(t.transactions@) + Seq::<TxModel>::empty() =~= txs_cat_view(
        t.transactions@,
    ));
    assert(leaves_of_list(e, 0, LeafKind::Event) =~= Seq::<LeafModel>::empty());
    assert(leaves_of_list(e, 0, LeafKind::Heartbeat) =~= Seq::<LeafModel>::empty());
    assert(leaves_of_list(e, 0, LeafKind::Metric) =~= Seq::<LeafModel>::empty());
    assert(leaves_of_list(e, 0, LeafKind::Trace) =~= Seq::<LeafModel>::empty());
    assert(events_cat_view(t.events@) + Seq::<LeafModel>::empty() =~= events_cat_view(t.events@));
    assert(heartbeats_cat_view(t.heartbeats@) + Seq::<LeafModel>::empty() =~= heartbeats_cat_view(
        t.heartbeats@,
    ));
    assert(metrics_cat_view(t.metrics@) + Seq::<LeafModel>::empty() =~= metrics_cat_view(
        t.metrics@,
    ));
    assert(traces_cat_view(t.traces@) + Seq::<LeafModel>::empty() =~= traces_cat_view(t.traces@));
    match p {
        Option::Some(a) => {
            assert(msgs_view(a.children@, 0) + e =~= msgs_view(a.children@, 0));
        },
        Option::None => {},
    }
}

/// One more decoded message extends the accumulated contributions by one.
pub proof fn lemma_plus_msgs_step(
    t0: MessageTree,
    t1: MessageTree,
    t2: MessageTree,
    p0: Option<InnerTransaction>,
    p1: Option<InnerTransaction>,
    p2: Option<InnerTransaction>,
    a: Seq<MsgModel>,
    m: MsgModel,
)
    requires
        tree_plus_msgs(t0, t1, a),
        tree_plus_msgs(t1, t2, seq![m]),
        parent_plus_msgs(p0, p1, a),
        parent_plus_msgs(p1, p2, seq![m]),
    ensures
        tree_plus_msgs(t0, t2, a.push(m)),
        parent_plus_msgs(p0, p2, a.push(m)),
{
    lemma_cat_singleton(m);
    lemma_txs_of_list_push(a, m);
    lemma_leaves_of_list_push(a, m, LeafKind::Event);
    lemma_leaves_of_list_push(a, m, LeafKind::Heartbeat);
    lemma_leaves_of_list_push(a, m, LeafKind::Metric);
    lemma_leaves_of_list_push(a, m, LeafKind::Trace);
    assert((txs_cat_view(t0.transactions@) + txs_of_list(a, 0)) + txs_of_msg(m) =~= txs_cat_view(
        t0.transactions@,
    ) + (txs_of_list(a, 0) + txs_of_msg(m)));
    assert((events_cat_view(t0.events@) + leaves_of_list(a, 0, LeafKind::Event)) + leaves_of_msg(
        m,
        LeafKind::Event,
    ) =~= events_cat_view(t0.events@) + (leaves_of_list(a, 0, LeafKind::Event) + leaves_of_msg(
        m,
        LeafKind::Event,
    )));
    assert((heartbeats_cat_view(t0.heartbeats@) + leaves_of_list(a, 0, LeafKind::Heartbeat))
        + leaves_of_msg(m, LeafKind::Heartbeat) =~= heartbeats_cat_view(t0.heartbeats@) + (
    leaves_of_list(a, 0, LeafKind::Heartbeat) + leaves_of_msg(m, LeafKind::Heartbeat)));
    assert((metrics_cat_view(t0.metrics@) + leaves_of_list(a, 0, LeafKind::Metric))
        + leaves_of_msg(m, LeafKind::Metric) =~= metrics_cat_view(t0.metrics@) + (leaves_of_list(
        a,
        0,
        LeafKind::Metric,
    ) + leaves_of_msg(m, LeafKind::Metric)));
    assert((traces_cat_view(t0.traces@) + leaves_of_list(a, 0, LeafKind::Trace)) + leaves_of_msg(
        m,
        LeafKind::Trace,
    ) =~= traces_cat_view(t0.traces@) + (leaves_of_list(a, 0, LeafKind::Trace) + leaves_of_msg(
        m,
        LeafKind::Trace,
    )));
    match (p0, p1, p2) {
        (Option::Some(x0), Option::Some(x1), Option::Some(x2)) => {
            assert((msgs_view(x0.children@, 0) + a) + seq![m] =~= msgs_view(x0.children@, 0)
                + a.push(m));
        },
        _ => {},
    }
}

/// Byte-for-byte equality of two byte vectors.
#[verifier::loop_isolation(false)]
fn bytes_eq(a: &Vec<u8>, b: &Vec<u8>) -> (r: bool)
    ensures
        r == (a@ == b@),
{
    if a.len() != b.len() {
        proof {
            assert(a@ != b@);
        }
        return false;
    }
    let mut i: usize = 0;
    while i < a.len()
        invariant
            0 <= i <= a@.len(),
            a@.len() == b@.len(),
            forall|j: int| 0 <= j < i ==> a@[j] == b@[j],
        decreases a@.len() - i,
    {
        if a[i] != b[i] {
            return false;
        }
        i += 1;
    }
    proof {
        assert(a@ =~= b@);
    }
    true
}

/// True when `a` begins with the bytes of `p`.
#[verifier::loop_isolation(false)]
fn bytes_starts_with(a: &Vec<u8>, p: &Vec<u8>) -> (r: bool)
    ensures
        r == (a@.len() >= p@.len() && a@.subrange(0, p@.len() as int) == p@),
{
    if a.len() < p.len() {
        return false;
    }
    let mut i: usize = 0;
    while i < p.len()
        invariant
            0 <= i <= p@.len(),
            a@.len() >= p@.len(),
            forall|j: int| 0 <= j < i ==> a@[j] == p@[j],
        decreases p@.len() - i,
    {
        if a[i] != p[i] {
            proof {
                assert(a@.subrange(0, p@.len() as int)[i as int] != p@[i as int]);
            }
            return false;
        }
        i += 1;
    }
    proof {
        assert(a@.subrange(0, p@.len() as int) =~= p@);
    }
    true
}

/// The UTF-8 bytes of the type text that marks a system transaction.
fn system_bytes() -> (v: Vec<u8>)
    ensures
        v@ == vstd::utf8::encode_utf8("System"@),
        vstd::utf8::is_ascii_chars("System"@),
{
    let v: Vec<u8> = vec![83u8, 121u8, 115u8, 116u8, 101u8, 109u8];
    proof {
        reveal_strlit("System");
        let p = "System"@;
        assert(vstd::utf8::is_ascii_chars(p));
        vstd::utf8::is_ascii_chars_encode_utf8(p);
        assert(v@ =~= vstd::utf8::encode_utf8(p));
    }
    v
}

/// The UTF-8 bytes of the name every rewritten transaction receives.
fn upload_metric_bytes() -> (v: Vec<u8>)
    ensures
        v@ == vstd::utf8::encode_utf8("UploadMetric"@),
        vstd::utf8::is_ascii_chars("UploadMetric"@),
        v@.len() == ("UploadMetric"@).len(),
{
    let v: Vec<u8> = vec![
        85u8,
        112u8,
        108u8,
        111u8,
        97u8,
        100u8,
        77u8,
        101u8,
        116u8,
        114u8,
        105u8,
        99u8,
    ];
    proof {
        reveal_strlit("UploadMetric");
        let p = "UploadMetric"@;
        assert(vstd::utf8::is_ascii_chars(p));
        vstd::utf8::is_ascii_chars_encode_utf8(p);
        assert(v@ =~= vstd::utf8::encode_utf8(p));
    }
    v
}

/// Read one leaf body and append the leaf both to the enclosing
/// transaction's children, when one is open, and to the tree's event
/// catalogue.
pub(crate) fn decode_event(
    tree: &mut MessageTree,
    transaction: &mut Option<InnerTransaction>,
    s: &Vec<u8>,
    pos: &mut usize,
) -> (r: Result<(), DecodeError>)
    requires
        *old(pos) <= s@.len(),
    ensures
        match parse_leaf(s@, *old(pos) as int) {
            Parsed::Found(l, p) => r is Ok && *final(pos) == p && *old(pos) < p <= s@.len()
                && tree_plus_msgs(*old(tree), *final(tree), seq![MsgModel::Event(l)])
                && parent_plus_msgs(
                *old(transaction),
                *final(transaction),
                seq![MsgModel::Event(l)],
            ),
            Parsed::Fail(e) => r == Err::<(), DecodeError>(e),
        },
{
    let ghost t0 = *tree;
    let ts = match read_varint(s, pos) {
        Ok(v) => v,
        Err(e) => {
            return Err(e);
        },
    };
    let ghost q1 = *pos as int;
    let ty = match read_string(s, pos) {
        Ok(v) => v,
        Err(e) => {
            proof {
                assert(parse_nstrings(s@, q1, 4) == Parsed::<Seq<Seq<char>>>::Fail(e));
            }
            return Err(e);
        },
    };
    let ghost q2 = *pos as int;
    let name = match read_string(s, pos) {
        Ok(v) => v,
        Err(e) => {
            proof {
                assert(parse_nstrings(s@, q2, 3) == Parsed::<Seq<Seq<char>>>::Fail(e));
                assert(parse_nstrings(s@, q1, 4) == Parsed::<Seq<Seq<char>>>::Fail(e));
            }
            return Err(e);
        },
    };
    let ghost q3 = *pos as int;
    let status = match read_string(s, pos) {
        Ok(v) => v,
        Err(e) => {
            proof {
                assert(parse_nstrings(s@, q3, 2) == Parsed::<Seq<Seq<char>>>::Fail(e));
                assert(parse_nstrings(s@, q2, 3) == Parsed::<Seq<Seq<char>>>::Fail(e));
                assert(parse_nstrings(s@, q1, 4) == Parsed::<Seq<Seq<char>>>::Fail(e));
            }
            return Err(e);
        },
    };
    let ghost q4 = *pos as int;
    let data = match read_string(s, pos) {
        Ok(v) => v,
        Err(e) => {
            proof {
                assert(parse_nstrings(s@, q4, 1) == Parsed::<Seq<Seq<char>>>::Fail(e));
                assert(parse_nstrings(s@, q3, 2) == Parsed::<Seq<Seq<char>>>::Fail(e));
                assert(parse_nstrings(s@, q2, 3) == Parsed::<Seq<Seq<char>>>::Fail(e));
                assert(parse_nstrings(s@, q1, 4) == Parsed::<Seq<Seq<char>>>::Fail(e));
            }
            return Err(e);
        },
    };
    let ghost q5 = *pos as int;
    let ghost l = LeafModel { ty: ty@, name: name@, ts, status: status@, data: data@ };
    proof {
        assert(parse_nstrings(s@, q5, 0) == Parsed::<Seq<Seq<char>>>::Found(
            Seq::<Seq<char>>::empty(),
            q5,
        ));
        assert(parse_nstrings(s@, q4, 1) == Parsed::<Seq<Seq<char>>>::Found(
            seq![data@] + Seq::<Seq<char>>::empty(),
            q5,
        ));
        assert(parse_nstrings(s@, q3, 2) == Parsed::<Seq<Seq<char>>>::Found(
            seq![status@] + (seq![data@] + Seq::<Seq<char>>::empty()),
            q5,
        ));
        assert(parse_nstrings(s@, q2, 3) == Parsed::<Seq<Seq<char>>>::Found(
            seq![name@] + (seq![status@] + (seq![data@] + Seq::<Seq<char>>::empty())),
            q5,
        ));
        assert(parse_nstrings(s@, q1, 4) == Parsed::<Seq<Seq<char>>>::Found(
            seq![ty@] + (seq![name@] + (seq![status@] + (seq![data@]
                + Seq::<Seq<char>>::empty()))),
            q5,
        ));
        let f = seq![ty@] + (seq![name@] + (seq![status@] + (seq![data@]
            + Seq::<Seq<char>>::empty())));
        assert(f =~= seq![ty@, name@, status@, data@]);
        assert(parse_leaf(s@, *old(pos) as int) == Parsed::<LeafModel>::Found(l, q5));
    }
    let ev = InnerEvent::new(ty, name, ts, status, data);
    let rc_e = Rc::new(ev);
    match transaction {
        Option::Some(t) => {
            let ghost c0 = t.children@;
            t.add_child(Message::Event(rc_clone(&rc_e)));
            proof {
                lemma_msgs_view_push(c0, Message::Event(rc_e));
                assert(msgs_view(c0, 0).push(msg_view(Message::Event(rc_e))) =~= msgs_view(c0, 0)
                    + seq![MsgModel::Event(l)]);
            }
        },
        Option::None => {},
    }
    let ghost e0 = tree.events@;
    tree.add_event(rc_e);
    proof {
        lemma_events_cat_push(e0, rc_e);
        lemma_cat_singleton(MsgModel::Event(l));
        let sm = seq![MsgModel::Event(l)];
        assert(leaves_of_msg(MsgModel::Event(l), LeafKind::Event) =~= seq![l]);
        assert(leaves_of_msg(MsgModel::Event(l), LeafKind::Heartbeat) =~= Seq::<
            LeafModel,
        >::empty());
        assert(leaves_of_msg(MsgModel::Event(l), LeafKind::Metric) =~= Seq::<LeafModel>::empty());
        assert(leaves_of_msg(MsgModel::Event(l), LeafKind::Trace) =~= Seq::<LeafModel>::empty());
        assert(txs_of_msg(MsgModel::Event(l)) =~= Seq::<TxModel>::empty());
        assert(events_cat_view(tree.events@) =~= events_cat_view(t0.events@) + seq![l]);
        assert(heartbeats_cat_view(tree.heartbeats@) =~= heartbeats_cat_view(t0.heartbeats@)
            + Seq::<LeafModel>::empty());
        assert(metrics_cat_view(tree.metrics@) =~= metrics_cat_view(t0.metrics@) + Seq::<
            LeafModel,
        >::empty());
        assert(traces_cat_view(tree.traces@) =~= traces_cat_view(t0.traces@) + Seq::<
            LeafModel,
        >::empty());
        assert(txs_cat_view(tree.transactions@) =~= txs_cat_view(t0.transactions@) + Seq::<
            TxModel,
        >::empty());
    }
    Ok(())
}

/// Read one unsigned LEB128 integer from `s` at `*pos`, exactly as
/// `parse_varint` describes it: a shift overflow saturates the value to zero,
/// and running off the end of the record is an error.
#[verifier::loop_isolation(false)]
pub fn read_varint(s: &Vec<u8>, pos: &mut usize) -> (r: Result<u64, DecodeError>)
    ensures
        match parse_varint(s@, *old(pos) as int) {
            Some(vp) => r == Ok::<u64, DecodeError>(vp.0) && *final(pos) == vp.1 && *old(pos)
                < *final(pos),
            None => r == Err::<u64, DecodeError>(DecodeError::TruncatedStream),
        },
        *old(pos) <= *final(pos) <= s@.len() || *old(pos) > s@.len(),
{
    let ghost pos0 = *pos;
    let mut n: u64 = 0;
    let mut shift: u64 = 0;
    loop
        invariant
            pos0 <= *pos,
            pos0 > s@.len() || *pos <= s@.len(),
            shift <= 70,
            varint_from(s@, pos0 as int, 0, 0) == varint_from(s@, *pos as int, n, shift),
        decreases s@.len() - *pos,
    {
        let p = *pos;
        if p >= s.len() {
            proof {
                assert(varint_from(s@, p as int, n, shift) is None);
            }
            return Err(DecodeError::TruncatedStream);
        }
        let b = s[p];
        *pos = p + 1;
        if b < 128 {
            if shift >= 64 {
                proof {
                    assert(varint_from(s@, p as int, n, shift) == Some((0u64, p + 1 as int)));
                }
                return Ok(0);
            } else {
                let v = n | ((b as u64) << shift);
                proof {
                    assert(varint_from(s@, p as int, n, shift) == Some((v, p + 1 as int)));
                }
                return Ok(v);
            }
        } else {
            if shift >= 64 {
                proof {
                    assert(varint_from(s@, p as int, n, shift) == Some((0u64, p + 1 as int)));
                }
                return Ok(0);
            }
            let n2 = n | (((b & 127) as u64) << shift);
            let shift2 = shift + 7;
            proof {
                assert(varint_from(s@, p as int, n, shift) == varint_from(
                    s@,
                    p + 1 as int,
                    n2,
                    shift2,
                ));
            }
            n = n2;
            shift = shift2;
        }
    }
}

/// Read one length-prefixed run of raw bytes: varint length, then that many
/// bytes, copied out.
pub(crate) fn read_bytes(s: &Vec<u8>, pos: &mut usize) -> (r: Result<Vec<u8>, DecodeError>)
    requires
        *old(pos) <= s@.len(),
    ensures
        match parse_raw(s@, *old(pos) as int) {
            Parsed::Found(b, p) => r matches Ok(v) && v@ == b && *final(pos) == p && *old(pos)
                < *final(pos),
            Parsed::Fail(e) => r == Err::<Vec<u8>, DecodeError>(e),
        },
        *old(pos) <= *final(pos) <= s@.len() || r is Err,
{
    let n = match read_varint(s, pos) {
        Ok(n) => n,
        Err(e) => {
            return Err(e);
        },
    };
    if n == 0 {
        let v: Vec<u8> = Vec::new();
        assert(v@ =~= Seq::<u8>::empty());
        return Ok(v);
    }
    if n > (s.len() - *pos) as u64 {
        return Err(DecodeError::TruncatedStream);
    }
    let ghost start = *pos as int;
    let end: usize = *pos + (n as usize);
    let mut out: Vec<u8> = Vec::new();
    proof {
        assert(out@ =~= s@.subrange(start, start));
    }
    while *pos < end
        invariant
            0 <= start <= *pos as int <= end,
            end <= s@.len(),
            end - start == n,
            out@ == s@.subrange(start, *pos as int),
        decreases end - *pos,
    {
        let p = *pos;
        let b = s[p];
        out.push(b);
        *pos = p + 1;
        proof {
            assert(s@.subrange(start, p as int).push(s@[p as int]) =~= s@.subrange(
                start,
                p + 1 as int,
            ));
        }
    }
    Ok(out)
}

/// Read one string field: a length-prefixed run of bytes that must be valid
/// UTF-8.
pub(crate) fn read_string(s: &Vec<u8>, pos: &mut usize) -> (r: Result<String, DecodeError>)
    requires
        *old(pos) <= s@.len(),
    ensures
        match parse_string(s@, *old(pos) as int) {
            Parsed::Found(c, p) => r matches Ok(t) && t@ == c && *final(pos) == p && *old(pos)
                < *final(pos),
            Parsed::Fail(e) => r == Err::<String, DecodeError>(e),
        },
        *old(pos) <= *final(pos) <= s@.len() || r is Err,
{
    let b = match read_bytes(s, pos) {
        Ok(b) => b,
        Err(e) => {
            return Err(e);
        },
    };
    utf8_to_string(&b)
}


/// Read one leaf body and append the leaf both to the enclosing
/// transaction's children, when one is open, and to the tree's metric
/// catalogue.
pub(crate) fn decode_metric(
    tree: &mut MessageTree,
    transaction: &mut Option<InnerTransaction>,
    s: &Vec<u8>,
    pos: &mut usize,
) -> (r: Result<(), DecodeError>)
    requires
        *old(pos) <= s@.len(),
    ensures
        match parse_leaf(s@, *old(pos) as int) {
            Parsed::Found(l, p) => r is Ok && *final(pos) == p && *old(pos) < p <= s@.len()
                && tree_plus_msgs(*old(tree), *final(tree), seq![MsgModel::Metric(l)])
                && parent_plus_msgs(
                *old(transaction),
                *final(transaction),
                seq![MsgModel::Metric(l)],
            ),
            Parsed::Fail(e) => r == Err::<(), DecodeError>(e),
        },
{
    let ghost t0 = *tree;
    let ts = match read_varint(s, pos) {
        Ok(v) => v,
        Err(e) => {
            return Err(e);
        },
    };
    let ghost q1 = *pos as int;
    let ty = match read_string(s, pos) {
        Ok(v) => v,
        Err(e) => {
            proof {
                assert(parse_nstrings(s@, q1, 4) == Parsed::<Seq<Seq<char>>>::Fail(e));
            }
            return Err(e);
        },
    };
    let ghost q2 = *pos as int;
    let name = match read_string(s, pos) {
        Ok(v) => v,
        Err(e) => {
            proof {
                assert(parse_nstrings(s@, q2, 3) == Parsed::<Seq<Seq<char>>>::Fail(e));
                assert(parse_nstrings(s@, q1, 4) == Parsed::<Seq<Seq<char>>>::Fail(e));
            }
            return Err(e);
        },
    };
    let ghost q3 = *pos as int;
    let status = match read_string(s, pos) {
        Ok(v) => v,
        Err(e) => {
            proof {
                assert(parse_nstrings(s@, q3, 2) == Parsed::<Seq<Seq<char>>>::Fail(e));
                assert(parse_nstrings(s@, q2, 3) == Parsed::<Seq<Seq<char>>>::Fail(e));
                assert(parse_nstrings(s@, q1, 4) == Parsed::<Seq<Seq<char>>>::Fail(e));
            }
            return Err(e);
        },
    };
    let ghost q4 = *pos as int;
    let data = match read_string(s, pos) {
        Ok(v) => v,
        Err(e) => {
            proof {
                assert(parse_nstrings(s@, q4, 1) == Parsed::<Seq<Seq<char>>>::Fail(e));
                assert(parse_nstrings(s@, q3, 2) == Parsed::<Seq<Seq<char>>>::Fail(e));
                assert(parse_nstrings(s@, q2, 3) == Parsed::<Seq<Seq<char>>>::Fail(e));
                assert(parse_nstrings(s@, q1, 4) == Parsed::<Seq<Seq<char>>>::Fail(e));
            }
            return Err(e);
        },
    };
    let ghost q5 = *pos as int;
    let ghost l = LeafModel { ty: ty@, name: name@, ts, status: status@, data: data@ };
    proof {
        assert(parse_nstrings(s@, q5, 0) == Parsed::<Seq<Seq<char>>>::Found(
            Seq::<Seq<char>>::empty(),
            q5,
        ));
        assert(parse_nstrings(s@, q4, 1) == Parsed::<Seq<Seq<char>>>::Found(
            seq![data@] + Seq::<Seq<char>>::empty(),
            q5,
        ));
        assert(parse_nstrings(s@, q3, 2) == Parsed::<Seq<Seq<char>>>::Found(
            seq![status@] + (seq![data@] + Seq::<Seq<char>>::empty()),
            q5,
        ));
        assert(parse_nstrings(s@, q2, 3) == Parsed::<Seq<Seq<char>>>::Found(
            seq![name@] + (seq![status@] + (seq![data@] + Seq::<Seq<char>>::empty())),
            q5,
        ));
        assert(parse_nstrings(s@, q1, 4) == Parsed::<Seq<Seq<char>>>::Found(
            seq![ty@] + (seq![name@] + (seq![status@] + (seq![data@]
                + Seq::<Seq<char>>::empty()))),
            q5,
        ));
        let f = seq![ty@] + (seq![name@] + (seq![status@] + (seq![data@]
            + Seq::<Seq<char>>::empty())));
        assert(f =~= seq![ty@, name@, status@, data@]);
        assert(parse_leaf(s@, *old(pos) as int) == Parsed::<LeafModel>::Found(l, q5));
    }
    let ev = InnerMetric::new(ty, name, ts, status, data);
    let rc_e = Rc::new(ev);
    match transaction {
        Option::Some(t) => {
            let ghost c0 = t.children@;
            t.add_child(Message::Metric(rc_clone(&rc_e)));
            proof {
                lemma_msgs_view_push(c0, Message::Metric(rc_e));
                assert(msgs_view(c0, 0).push(msg_view(Message::Metric(rc_e))) =~= msgs_view(c0, 0)
                    + seq![MsgModel::Metric(l)]);
            }
        },
        Option::None => {},
    }
    let ghost e0 = tree.metrics@;
    tree.add_metric(rc_e);
    proof {
        lemma_metrics_cat_push(e0, rc_e);
        lemma_cat_singleton(MsgModel::Metric(l));
        assert(leaves_of_msg(MsgModel::Metric(l), LeafKind::Metric) =~= seq![l]);
        assert(leaves_of_msg(MsgModel::Metric(l), LeafKind::Event) =~= Seq::<
            LeafModel,
        >::empty());
        assert(leaves_of_msg(MsgModel::Metric(l), LeafKind::Heartbeat) =~= Seq::<
            LeafModel,
        >::empty());
        assert(leaves_of_msg(MsgModel::Metric(l), LeafKind::Trace) =~= Seq::<
            LeafModel,
        >::empty());
        assert(txs_of_msg(MsgModel::Metric(l)) =~= Seq::<TxModel>::empty());
        assert(metrics_cat_view(tree.metrics@) =~= metrics_cat_view(t0.metrics@) + seq![l]);
        assert(events_cat_view(tree.events@) =~= events_cat_view(t0.events@) + Seq::<
            LeafModel,
        >::empty());
        assert(heartbeats_cat_view(tree.heartbeats@) =~= heartbeats_cat_view(t0.heartbeats@) + Seq::<
            LeafModel,
        >::empty());
        assert(traces_cat_view(tree.traces@) =~= traces_cat_view(t0.traces@) + Seq::<
            LeafModel,
        >::empty());
        assert(txs_cat_view(tree.transactions@) =~= txs_cat_view(t0.transactions@) + Seq::<
            TxModel,
        >::empty());
    }
    Ok(())
}


/// Read one leaf body and append the leaf both to the enclosing
/// transaction's children, when one is open, and to the tree's heartbeat
/// catalogue.
pub(crate) fn decode_heartbeat(
    tree: &mut MessageTree,
    transaction: &mut Option<InnerTransaction>,
    s: &Vec<u8>,
    pos: &mut usize,
) -> (r: Result<(), DecodeError>)
    requires
        *old(pos) <= s@.len(),
    ensures
        match parse_leaf(s@, *old(pos) as int) {
            Parsed::Found(l, p) => r is Ok && *final(pos) == p && *old(pos) < p <= s@.len()
                && tree_plus_msgs(*old(tree), *final(tree), seq![MsgModel::Heartbeat(l)])
                && parent_plus_msgs(
                *old(transaction),
                *final(transaction),
                seq![MsgModel::Heartbeat(l)],
            ),
            Parsed::Fail(e) => r == Err::<(), DecodeError>(e),
        },
{
    let ghost t0 = *tree;
    let ts = match read_varint(s, pos) {
        Ok(v) => v,
        Err(e) => {
            return Err(e);
        },
    };
    let ghost q1 = *pos as int;
    let ty = match read_string(s, pos) {
        Ok(v) => v,
        Err(e) => {
            proof {
                assert(parse_nstrings(s@, q1, 4) == Parsed::<Seq<Seq<char>>>::Fail(e));
            }
            return Err(e);
        },
    };
    let ghost q2 = *pos as int;
    let name = match read_string(s, pos) {
        Ok(v) => v,
        Err(e) => {
            proof {
                assert(parse_nstrings(s@, q2, 3) == Parsed::<Seq<Seq<char>>>::Fail(e));
                assert(parse_nstrings(s@, q1, 4) == Parsed::<Seq<Seq<char>>>::Fail(e));
            }
            return Err(e);
        },
    };
    let ghost q3 = *pos as int;
    let status = match read_string(s, pos) {
        Ok(v) => v,
        Err(e) => {
            proof {
                assert(parse_nstrings(s@, q3, 2) == Parsed::<Seq<Seq<char>>>::Fail(e));
                assert(parse_nstrings(s@, q2, 3) == Parsed::<Seq<Seq<char>>>::Fail(e));
                assert(parse_nstrings(s@, q1, 4) == Parsed::<Seq<Seq<char>>>::Fail(e));
            }
            return Err(e);
        },
    };
    let ghost q4 = *pos as int;
    let data = match read_string(s, pos) {
        Ok(v) => v,
        Err(e) => {
            proof {
                assert(parse_nstrings(s@, q4, 1) == Parsed::<Seq<Seq<char>>>::Fail(e));
                assert(parse_nstrings(s@, q3, 2) == Parsed::<Seq<Seq<char>>>::Fail(e));
                assert(parse_nstrings(s@, q2, 3) == Parsed::<Seq<Seq<char>>>::Fail(e));
                assert(parse_nstrings(s@, q1, 4) == Parsed::<Seq<Seq<char>>>::Fail(e));
            }
            return Err(e);
        },
    };
    let ghost q5 = *pos as int;
    let ghost l = LeafModel { ty: ty@, name: name@, ts, status: status@, data: data@ };
    proof {
        assert(parse_nstrings(s@, q5, 0) == Parsed::<Seq<Seq<char>>>::Found(
            Seq::<Seq<char>>::empty(),
            q5,
        ));
        assert(parse_nstrings(s@, q4, 1) == Parsed::<Seq<Seq<char>>>::Found(
            seq![data@] + Seq::<Seq<char>>::empty(),
            q5,
        ));
        assert(parse_nstrings(s@, q3, 2) == Parsed::<Seq<Seq<char>>>::Found(
            seq![status@] + (seq![data@] + Seq::<Seq<char>>::empty()),
            q5,
        ));
        assert(parse_nstrings(s@, q2, 3) == Parsed::<Seq<Seq<char>>>::Found(
            seq![name@] + (seq![status@] + (seq![data@] + Seq::<Seq<char>>::empty())),
            q5,
        ));
        assert(parse_nstrings(s@, q1, 4) == Parsed::<Seq<Seq<char>>>::Found(
            seq![ty@] + (seq![name@] + (seq![status@] + (seq![data@]
                + Seq::<Seq<char>>::empty()))),
            q5,
        ));
        let f = seq![ty@] + (seq![name@] + (seq![status@] + (seq![data@]
            + Seq::<Seq<char>>::empty())));
        assert(f =~= seq![ty@, name@, status@, data@]);
        assert(parse_leaf(s@, *old(pos) as int) == Parsed::<LeafModel>::Found(l, q5));
    }
    let ev = InnerHeartbeat::new(ty, name, ts, status, data);
    let rc_e = Rc::new(ev);
    match transaction {
        Option::Some(t) => {
            let ghost c0 = t.children@;
            t.add_child(Message::Heartbeat(rc_clone(&rc_e)));
            proof {
                lemma_msgs_view_push(c0, Message::Heartbeat(rc_e));
                assert(msgs_view(c0, 0).push(msg_view(Message::Heartbeat(rc_e))) =~= msgs_view(c0, 0)
                    + seq![MsgModel::Heartbeat(l)]);
            }
        },
        Option::None => {},
    }
    let ghost e0 = tree.heartbeats@;
    tree.add_heartbeat(rc_e);
    proof {
        lemma_heartbeats_cat_push(e0, rc_e);
        lemma_cat_singleton(MsgModel::Heartbeat(l));
        assert(leaves_of_msg(MsgModel::Heartbeat(l), LeafKind::Heartbeat) =~= seq![l]);
        assert(leaves_of_msg(MsgModel::Heartbeat(l), LeafKind::Event) =~= Seq::<
            LeafModel,
        >::empty());
        assert(leaves_of_msg(MsgModel::Heartbeat(l), LeafKind::Metric) =~= Seq::<
            LeafModel,
        >::empty());
        assert(leaves_of_msg(MsgModel::Heartbeat(l), LeafKind::Trace) =~= Seq::<
            LeafModel,
        >::empty());
        assert(txs_of_msg(MsgModel::Heartbeat(l)) =~= Seq::<TxModel>::empty());
        assert(heartbeats_cat_view(tree.heartbeats@) =~= heartbeats_cat_view(t0.heartbeats@) + seq![l]);
        assert(events_cat_view(tree.events@) =~= events_cat_view(t0.events@) + Seq::<
            LeafModel,
        >::empty());
        assert(metrics_cat_view(tree.metrics@) =~= metrics_cat_view(t0.metrics@) + Seq::<
            LeafModel,
        >::empty());
        assert(traces_cat_view(tree.traces@) =~= traces_cat_view(t0.traces@) + Seq::<
            LeafModel,
        >::empty());
        assert(txs_cat_view(tree.transactions@) =~= txs_cat_view(t0.transactions@) + Seq::<
            TxModel,
        >::empty());
    }
    Ok(())
}


/// Read one leaf body and append the leaf both to the enclosing
/// transaction's children, when one is open, and to the tree's trace
/// catalogue.
pub(crate) fn decode_trace(
    tree: &mut MessageTree,
    transaction: &mut Option<InnerTransaction>,
    s: &Vec<u8>,
    pos: &mut usize,
) -> (r: Result<(), DecodeError>)
    requires
        *old(pos) <= s@.len(),
    ensures
        match parse_leaf(s@, *old(pos) as int) {
            Parsed::Found(l, p) => r is Ok && *final(pos) == p && *old(pos) < p <= s@.len()
                && tree_plus_msgs(*old(tree), *final(tree), seq![MsgModel::Trace(l)])
                && parent_plus_msgs(
                *old(transaction),
                *final(transaction),
                seq![MsgModel::Trace(l)],
            ),
            Parsed::Fail(e) => r == Err::<(), DecodeError>(e),
        },
{
    let ghost t0 = *tree;
    let ts = match read_varint(s, pos) {
        Ok(v) => v,
        Err(e) => {
            return Err(e);
        },
    };
    let ghost q1 = *pos as int;
    let ty = match read_string(s, pos) {
        Ok(v) => v,
        Err(e) => {
            proof {
                assert(parse_nstrings(s@, q1, 4) == Parsed::<Seq<Seq<char>>>::Fail(e));
            }
            return Err(e);
        },
    };
    let ghost q2 = *pos as int;
    let name = match read_string(s, pos) {
        Ok(v) => v,
        Err(e) => {
            proof {
                assert(parse_nstrings(s@, q2, 3) == Parsed::<Seq<Seq<char>>>::Fail(e));
                assert(parse_nstrings(s@, q1, 4) == Parsed::<Seq<Seq<char>>>::Fail(e));
            }
            return Err(e);
        },
    };
    let ghost q3 = *pos as int;
    let status = match read_string(s, pos) {
        Ok(v) => v,
        Err(e) => {
            proof {
                assert(parse_nstrings(s@, q3, 2) == Parsed::<Seq<Seq<char>>>::Fail(e));
                assert(parse_nstrings(s@, q2, 3) == Parsed::<Seq<Seq<char>>>::Fail(e));
                assert(parse_nstrings(s@, q1, 4) == Parsed::<Seq<Seq<char>>>::Fail(e));
            }
            return Err(e);
        },
    };
    let ghost q4 = *pos as int;
    let data = match read_string(s, pos) {
        Ok(v) => v,
        Err(e) => {
            proof {
                assert(parse_nstrings(s@, q4, 1) == Parsed::<Seq<Seq<char>>>::Fail(e));
                assert(parse_nstrings(s@, q3, 2) == Parsed::<Seq<Seq<char>>>::Fail(e));
                assert(parse_nstrings(s@, q2, 3) == Parsed::<Seq<Seq<char>>>::Fail(e));
                assert(parse_nstrings(s@, q1, 4) == Parsed::<Seq<Seq<char>>>::Fail(e));
            }
            return Err(e);
        },
    };
    let ghost q5 = *pos as int;
    let ghost l = LeafModel { ty: ty@, name: name@, ts, status: status@, data: data@ };
    proof {
        assert(parse_nstrings(s@, q5, 0) == Parsed::<Seq<Seq<char>>>::Found(
            Seq::<Seq<char>>::empty(),
            q5,
        ));
        assert(parse_nstrings(s@, q4, 1) == Parsed::<Seq<Seq<char>>>::Found(
            seq![data@] + Seq::<Seq<char>>::empty(),
            q5,
        ));
        assert(parse_nstrings(s@, q3, 2) == Parsed::<Seq<Seq<char>>>::Found(
            seq![status@] + (seq![data@] + Seq::<Seq<char>>::empty()),
            q5,
        ));
        assert(parse_nstrings(s@, q2, 3) == Parsed::<Seq<Seq<char>>>::Found(
            seq![name@] + (seq![status@] + (seq![data@] + Seq::<Seq<char>>::empty())),
            q5,
        ));
        assert(parse_nstrings(s@, q1, 4) == Parsed::<Seq<Seq<char>>>::Found(
            seq![ty@] + (seq![name@] + (seq![status@] + (seq![data@]
                + Seq::<Seq<char>>::empty()))),
            q5,
        ));
        let f = seq![ty@] + (seq![name@] + (seq![status@] + (seq![data@]
            + Seq::<Seq<char>>::empty())));
        assert(f =~= seq![ty@, name@, status@, data@]);
        assert(parse_leaf(s@, *old(pos) as int) == Parsed::<LeafModel>::Found(l, q5));
    }
    let ev = InnerTrace::new(ty, name, ts, status, data);
    let rc_e = Rc::new(ev);
    match transaction {
        Option::Some(t) => {
            let ghost c0 = t.children@;
            t.add_child(Message::Trace(rc_clone(&rc_e)));
            proof {
                lemma_msgs_view_push(c0, Message::Trace(rc_e));
                assert(msgs_view(c0, 0).push(msg_view(Message::Trace(rc_e))) =~= msgs_view(c0, 0)
                    + seq![MsgModel::Trace(l)]);
            }
        },
        Option::None => {},
    }
    let ghost e0 = tree.traces@;
    tree.add_trace(rc_e);
    proof {
        lemma_traces_cat_push(e0, rc_e);
        lemma_cat_singleton(MsgModel::Trace(l));
        assert(leaves_of_msg(MsgModel::Trace(l), LeafKind::Trace) =~= seq![l]);
        assert(leaves_of_msg(MsgModel::Trace(l), LeafKind::Event) =~= Seq::<
            LeafModel,
        >::empty());
        assert(leaves_of_msg(MsgModel::Trace(l), LeafKind::Heartbeat) =~= Seq::<
            LeafModel,
        >::empty());
        assert(leaves_of_msg(MsgModel::Trace(l), LeafKind::Metric) =~= Seq::<
            LeafModel,
        >::empty());
        assert(txs_of_msg(MsgModel::Trace(l)) =~= Seq::<TxModel>::empty());
        assert(traces_cat_view(tree.traces@) =~= traces_cat_view(t0.traces@) + seq![l]);
        assert(events_cat_view(tree.events@) =~= events_cat_view(t0.events@) + Seq::<
            LeafModel,
        >::empty());
        assert(heartbeats_cat_view(tree.heartbeats@) =~= heartbeats_cat_view(t0.heartbeats@) + Seq::<
            LeafModel,
        >::empty());
        assert(metrics_cat_view(tree.metrics@) =~= metrics_cat_view(t0.metrics@) + Seq::<
            LeafModel,
        >::empty());
        assert(txs_cat_view(tree.transactions@) =~= txs_cat_view(t0.transactions@) + Seq::<
            TxModel,
        >::empty());
    }
    Ok(())
}

/// Read one transaction body after its open tag: timestamp, type and name
/// (rewritten as the grammar says), the nested message run up to the close
/// tag, then status, data and the wire duration. The closed transaction is
/// appended to the enclosing transaction's children, when one is open, and
/// to the tree's flat transaction catalogue.
pub(crate) fn decode_transaction(
    tree: &mut MessageTree,
    parent_transaction: &mut Option<InnerTransaction>,
    s: &Vec<u8>,
    pos: &mut usize,
) -> (r: Result<(), DecodeError>)
    requires
        *old(pos) <= s@.len(),
    ensures
        match parse_tx(s@, *old(pos) as int) {
            Parsed::Found(tx, p) => r is Ok && *final(pos) == p && *old(pos) < p <= s@.len()
                && tree_plus_msgs(*old(tree), *final(tree), seq![MsgModel::Transaction(tx)])
                && parent_plus_msgs(
                *old(parent_transaction),
                *final(parent_transaction),
                seq![MsgModel::Transaction(tx)],
            ),
            Parsed::Fail(e) => r == Err::<(), DecodeError>(e),
        },
    decreases s@.len() - *old(pos), 0int,
{
    let ghost pos_a = *pos as int;
    let ghost t0 = *tree;
    let ghost par0 = *parent_transaction;
    let ts = match read_varint(s, pos) {
        Ok(v) => v,
        Err(e) => {
            return Err(e);
        },
    };
    let ty_bytes = match read_bytes(s, pos) {
        Ok(v) => v,
        Err(e) => {
            return Err(e);
        },
    };
    let ty = match utf8_to_string(&ty_bytes) {
        Ok(v) => v,
        Err(e) => {
            return Err(e);
        },
    };
    let name_bytes = match read_bytes(s, pos) {
        Ok(v) => v,
        Err(e) => {
            return Err(e);
        },
    };
    let name0 = match utf8_to_string(&name_bytes) {
        Ok(v) => v,
        Err(e) => {
            return Err(e);
        },
    };
    let ghost gty = ty@;
    let ghost gname0 = name0@;
    let sysb = system_bytes();
    let upb = upload_metric_bytes();
    let rewrite = bytes_eq(&ty_bytes, &sysb) || bytes_starts_with(&name_bytes, &upb);
    proof {
        crate::chars::lemma_decode_utf8_eq(ty_bytes@, "System"@);
        crate::chars::lemma_ascii_prefix_iff(name_bytes@, "UploadMetric"@);
        vstd::utf8::is_ascii_chars_encode_utf8("UploadMetric"@);
        assert(rewrite == needs_rewrite(gty, gname0));
    }
    let name: String = if rewrite {
        match utf8_to_string(&upb) {
            Ok(v) => v,
            Err(e) => {
                proof {
                    vstd::utf8::encode_utf8_valid_utf8("UploadMetric"@);
                    assert(false);
                }
                return Err(e);
            },
        }
    } else {
        name0
    };
    proof {
        if rewrite {
            vstd::utf8::encode_utf8_decode_utf8("UploadMetric"@);
        }
        assert(name@ == rewritten_name(gty, gname0));
    }
    let ghost gname = name@;
    let mut cur: Option<InnerTransaction> = Some(InnerTransaction::new(ty, name, ts));
    let ghost p3 = *pos as int;
    let closed = match decode_message(tree, &mut cur, s, pos) {
        Ok(c) => c,
        Err(e) => {
            return Err(e);
        },
    };
    let ghost run = (match parse_msgs(s@, p3) {
        Parsed::Found(run, _) => run,
        Parsed::Fail(_) => arbitrary(),
    });
    if !closed {
        return Err(DecodeError::UnterminatedTransaction);
    }
    let status = match read_string(s, pos) {
        Ok(v) => v,
        Err(e) => {
            return Err(e);
        },
    };
    let data_b = match read_bytes(s, pos) {
        Ok(v) => v,
        Err(e) => {
            return Err(e);
        },
    };
    let data = match utf8_to_string(&data_b) {
        Ok(d) => d,
        Err(_) => utf8_lossy_to_string(&data_b),
    };
    let us = match read_varint(s, pos) {
        Ok(v) => v,
        Err(e) => {
            return Err(e);
        },
    };
    let dur = us / 1000;
    let mut t = match cur {
        Option::Some(t) => t,
        Option::None => {
            proof {
                assert(false);
            }
            return Err(DecodeError::UnterminatedTransaction);
        },
    };
    t.status = status;
    t.data = data;
    t.duration_in_ms = dur;
    let ghost tx = TxModel {
        ty: gty,
        name: gname,
        ts: ts,
        status: t.status@,
        data: t.data@,
        duration_in_ms: dur,
        children: run.msgs,
    };
    proof {
        assert(Seq::<MsgModel>::empty() + run.msgs =~= run.msgs);
        assert(tx_view(t) == tx);
        assert(parse_tx(s@, pos_a) == Parsed::<TxModel>::Found(tx, *pos as int));
    }
    let ghost t1 = *tree;
    let rc_t = Rc::new(t);
    match parent_transaction {
        Option::Some(pt) => {
            let ghost c0 = pt.children@;
            pt.add_child(Message::Transaction(rc_clone(&rc_t)));
            proof {
                lemma_msgs_view_push(c0, Message::Transaction(rc_t));
                assert(msgs_view(c0, 0).push(msg_view(Message::Transaction(rc_t))) =~= msgs_view(
                    c0,
                    0,
                ) + seq![MsgModel::Transaction(tx)]);
            }
        },
        Option::None => {},
    }
    let ghost tr0 = tree.transactions@;
    tree.add_transaction(rc_t);
    proof {
        lemma_txs_cat_push(tr0, rc_t);
        lemma_cat_singleton(MsgModel::Transaction(tx));
        assert(txs_of_msg(MsgModel::Transaction(tx)) == txs_of_list(tx.children, 0) + seq![tx]);
        assert(txs_cat_view(tree.transactions@) =~= (txs_cat_view(t0.transactions@) + txs_of_list(
            run.msgs,
            0,
        )).push(tx));
        assert((txs_cat_view(t0.transactions@) + txs_of_list(run.msgs, 0)).push(tx)
            =~= txs_cat_view(t0.transactions@) + (txs_of_list(run.msgs, 0) + seq![tx]));
        assert(leaves_of_msg(MsgModel::Transaction(tx), LeafKind::Event) == leaves_of_list(
            tx.children,
            0,
            LeafKind::Event,
        ));
        assert(leaves_of_msg(MsgModel::Transaction(tx), LeafKind::Heartbeat) == leaves_of_list(
            tx.children,
            0,
            LeafKind::Heartbeat,
        ));
        assert(leaves_of_msg(MsgModel::Transaction(tx), LeafKind::Metric) == leaves_of_list(
            tx.children,
            0,
            LeafKind::Metric,
        ));
        assert(leaves_of_msg(MsgModel::Transaction(tx), LeafKind::Trace) == leaves_of_list(
            tx.children,
            0,
            LeafKind::Trace,
        ));
        assert(tree_plus_msgs(t0, *tree, seq![MsgModel::Transaction(tx)]));
        assert(parent_plus_msgs(par0, *parent_transaction, seq![MsgModel::Transaction(tx)]));
    }
    Ok(())
}

/// The message loop: read tag bytes and decode messages until the record
/// ends or a close tag is consumed; the result says which of the two ended
/// the run.
#[verifier::loop_isolation(false)]
pub(crate) fn decode_message(
    tree: &mut MessageTree,
    transaction: &mut Option<InnerTransaction>,
    s: &Vec<u8>,
    pos: &mut usize,
) -> (r: Result<bool, DecodeError>)
    requires
        *old(pos) <= s@.len(),
    ensures
        match parse_msgs(s@, *old(pos) as int) {
            Parsed::Found(run, end) => r == Ok::<bool, DecodeError>(run.closed) && *final(pos)
                == end && *old(pos) <= end <= s@.len() && tree_plus_msgs(
                *old(tree),
                *final(tree),
                run.msgs,
            ) && parent_plus_msgs(*old(transaction), *final(transaction), run.msgs),
            Parsed::Fail(e) => r == Err::<bool, DecodeError>(e),
        },
    decreases s@.len() - *old(pos), 1int,
{
    let ghost pos0 = *pos as int;
    let ghost t0 = *tree;
    let ghost x0 = *transaction;
    let ghost mut done: Seq<MsgModel> = Seq::empty();
    proof {
        lemma_plus_msgs_refl(t0, x0);
    }
    loop
        invariant
            *pos <= s@.len(),
            pos0 <= *pos as int,
            tree_plus_msgs(t0, *tree, done),
            parent_plus_msgs(x0, *transaction, done),
            (match parse_msgs(s@, *pos as int) {
                Parsed::Found(run, end) => parse_msgs(s@, pos0) == Parsed::<MsgRun>::Found(
                    MsgRun { msgs: done + run.msgs, closed: run.closed },
                    end,
                ),
                Parsed::Fail(e) => parse_msgs(s@, pos0) == Parsed::<MsgRun>::Fail(e),
            }),
        decreases s@.len() - *pos,
    {
        let p = *pos;
        if p == s.len() {
            proof {
                assert(parse_msgs(s@, p as int) == Parsed::<MsgRun>::Found(
                    MsgRun { msgs: Seq::empty(), closed: false },
                    p as int,
                ));
                assert(done + Seq::<MsgModel>::empty() =~= done);
            }
            return Ok(false);
        }
        let tag = s[p];
        if tag == TAG_TX_CLOSE {
            *pos = p + 1;
            proof {
                assert(parse_msgs(s@, p as int) == Parsed::<MsgRun>::Found(
                    MsgRun { msgs: Seq::empty(), closed: true },
                    p + 1 as int,
                ));
                assert(done + Seq::<MsgModel>::empty() =~= done);
            }
            return Ok(true);
        } else if tag == TAG_TX_OPEN {
            *pos = p + 1;
            let ghost t1 = *tree;
            let ghost x1 = *transaction;
            match decode_transaction(tree, transaction, s, pos) {
                Err(e) => {
                    return Err(e);
                },
                Ok(()) => {
                    proof {
                        let txr = parse_tx(s@, p + 1 as int);
                        match txr {
                            Parsed::Found(txm, p2) => {
                                let m = MsgModel::Transaction(txm);
                                lemma_plus_msgs_step(t0, t1, *tree, x0, x1, *transaction, done, m);
                                match parse_msgs(s@, p2) {
                                    Parsed::Found(run2, end) => {
                                        assert(done + (seq![m] + run2.msgs) =~= done.push(m)
                                            + run2.msgs);
                                    },
                                    Parsed::Fail(_) => {},
                                }
                                done = done.push(m);
                            },
                            Parsed::Fail(_) => {
                                assert(false);
                            },
                        }
                    }
                },
            }
        } else if tag == TAG_EVENT || tag == TAG_METRIC || tag == TAG_HEARTBEAT || tag
            == TAG_TRACE {
            *pos = p + 1;
            let ghost t1 = *tree;
            let ghost x1 = *transaction;
            let res = if tag == TAG_EVENT {
                decode_event(tree, transaction, s, pos)
            } else if tag == TAG_METRIC {
                decode_metric(tree, transaction, s, pos)
            } else if tag == TAG_HEARTBEAT {
                decode_heartbeat(tree, transaction, s, pos)
            } else {
                decode_trace(tree, transaction, s, pos)
            };
            match res {
                Err(e) => {
                    return Err(e);
                },
                Ok(()) => {
                    proof {
                        let lr = parse_leaf(s@, p + 1 as int);
                        match lr {
                            Parsed::Found(l, p2) => {
                                let m = leaf_msg(tag, l);
                                lemma_plus_msgs_step(t0, t1, *tree, x0, x1, *transaction, done, m);
                                match parse_msgs(s@, p2) {
                                    Parsed::Found(run2, end) => {
                                        assert(done + (seq![m] + run2.msgs) =~= done.push(m)
                                            + run2.msgs);
                                    },
                                    Parsed::Fail(_) => {},
                                }
                                done = done.push(m);
                            },
                            Parsed::Fail(_) => {
                                assert(false);
                            },
                        }
                    }
                },
            }
        } else {
            proof {
                assert(parse_msgs(s@, p as int) == Parsed::<MsgRun>::Fail(
                    DecodeError::UnknownMessageKind,
                ));
            }
            return Err(DecodeError::UnknownMessageKind);
        }
    }
}

/// The character sequences of a vector of decoded header fields.
pub open spec fn header_views(v: Seq<String>) -> Seq<Seq<char>> {
    Seq::new(v.len(), |j: int| v[j]@)
}

proof fn lemma_header_views_push(v: Seq<String>, x: String)
    ensures
        header_views(v.push(x)) == header_views(v).push(x@),
{
    assert(header_views(v.push(x)) =~= header_views(v).push(x@));
}

/// Read the record header: the three version bytes, which must spell the
/// supported version, then the ten header strings into the tree's fields.
#[verifier::loop_isolation(false)]
pub(crate) fn decode_header(tree: &mut MessageTree, s: &Vec<u8>, pos: &mut usize) -> (r: Result<
    (),
    DecodeError,
>)
    requires
        *old(pos) <= s@.len(),
    ensures
        match parse_header(s@, *old(pos) as int) {
            Parsed::Found(h, p) => r is Ok && *final(pos) == p && *old(pos) <= p <= s@.len()
                && final(tree).domain@ == h[0] && final(tree).hostname@ == h[1] && final(tree).ip_address@ == h[2] && final(tree).thread_group_name@ == h[3] && final(tree).thread_id@ == h[4] && final(tree).thread_name@ == h[5] && final(tree).message_id@
                == h[6] && final(tree).parent_message_id@ == h[7] && final(tree).root_message_id@
                == h[8] && final(tree).session_token@ == h[9] && *final(tree) == (MessageTree {
                domain: final(tree).domain,
                hostname: final(tree).hostname,
                ip_address: final(tree).ip_address,
                thread_group_name: final(tree).thread_group_name,
                thread_id: final(tree).thread_id,
                thread_name: final(tree).thread_name,
                message_id: final(tree).message_id,
                parent_message_id: final(tree).parent_message_id,
                root_message_id: final(tree).root_message_id,
                session_token: final(tree).session_token,
                ..*old(tree)
            }),
            Parsed::Fail(e) => r == Err::<(), DecodeError>(e),
        },
{
    let p = *pos;
    if s.len() - p < 3 {
        return Err(DecodeError::TruncatedStream);
    }
    if !(s[p] == 78 && s[p + 1] == 84 && s[p + 2] == 49) {
        proof {
            assert(s@.subrange(p as int, p + 3 as int)[0] == s@[p as int]);
            assert(s@.subrange(p as int, p + 3 as int)[1] == s@[p + 1 as int]);
            assert(s@.subrange(p as int, p + 3 as int)[2] == s@[p + 2 as int]);
            assert(version_bytes()[0] == 78u8 && version_bytes()[1] == 84u8 && version_bytes()[2]
                == 49u8);
            assert(s@.subrange(p as int, p + 3 as int) != version_bytes());
        }
        return Err(DecodeError::UnknownVersion);
    }
    *pos = p + 3;
    proof {
        assert(s@.subrange(p as int, p + 3 as int) =~= version_bytes());
    }
    let ghost start = *pos as int;
    let mut fields: Vec<String> = Vec::new();
    let mut i: usize = 0;
    proof {
        assert(header_views(fields@) =~= Seq::<Seq<char>>::empty());
    }
    while i < 10
        invariant
            i == fields@.len(),
            0 <= i <= 10,
            *pos <= s@.len(),
            start <= *pos as int,
            (match parse_nstrings(s@, *pos as int, (10 - i) as nat) {
                Parsed::Found(rest, end) => parse_nstrings(s@, start, 10) == Parsed::<
                    Seq<Seq<char>>,
                >::Found(header_views(fields@) + rest, end),
                Parsed::Fail(e) => parse_nstrings(s@, start, 10) == Parsed::<
                    Seq<Seq<char>>,
                >::Fail(e),
            }),
        decreases 10 - i,
    {
        let ghost cur = *pos as int;
        let ghost f0 = fields@;
        match read_string(s, pos) {
            Ok(st) => {
                proof {
                    lemma_header_views_push(f0, st);
                    match parse_nstrings(s@, *pos as int, (10 - (i + 1)) as nat) {
                        Parsed::Found(rest2, end) => {
                            assert(header_views(f0) + (seq![st@] + rest2) =~= header_views(
                                f0,
                            ).push(st@) + rest2);
                        },
                        Parsed::Fail(_) => {},
                    }
                }
                fields.push(st);
            },
            Err(e) => {
                return Err(e);
            },
        }
        i += 1;
    }
    proof {
        assert(parse_nstrings(s@, *pos as int, 0) == Parsed::<Seq<Seq<char>>>::Found(
            Seq::<Seq<char>>::empty(),
            *pos as int,
        ));
        assert(header_views(fields@) + Seq::<Seq<char>>::empty() =~= header_views(fields@));
    }
    tree.domain = fields[0].clone();
    tree.hostname = fields[1].clone();
    tree.ip_address = fields[2].clone();
    tree.thread_group_name = fields[3].clone();
    tree.thread_id = fields[4].clone();
    tree.thread_name = fields[5].clone();
    tree.message_id = fields[6].clone();
    tree.parent_message_id = fields[7].clone();
    tree.root_message_id = fields[8].clone();
    tree.session_token = fields[9].clone();
    Ok(())
}

impl MessageTree {
    /// Decode exactly one tree record from its decompressed bytes: the
    /// header, the message run, and the choice of the representative
    /// message — the last element of the first non-empty catalogue, searched
    /// in the order transactions, events, metrics, heartbeats, traces.
    pub fn decode(data: &Vec<u8>) -> (r: Result<MessageTree, DecodeError>)
        ensures
            match parse_tree(data@) {
                Parsed::Found(tm, end) => r matches Ok(t) && tree_view(t) == tm,
                Parsed::Fail(e) => r == Err::<MessageTree, DecodeError>(e),
            },
    {
        let mut tree = MessageTree {
            domain: String::new(),
            hostname: String::new(),
            ip_address: String::new(),
            message: Message::Transaction(
                Rc::new(InnerTransaction::new(String::new(), String::new(), 0)),
            ),
            message_id: String::new(),
            parent_message_id: String::new(),
            root_message_id: String::new(),
            session_token: String::new(),
            thread_group_name: String::new(),
            thread_id: String::new(),
            thread_name: String::new(),
            format_message_id: String::new(),
            discard: false,
            process_loss: false,
            hit_sample: false,
            events: Vec::new(),
            transactions: Vec::new(),
            heartbeats: Vec::new(),
            metrics: Vec::new(),
            traces: Vec::new(),
        };
        let mut pos: usize = 0;
        match decode_header(&mut tree, data, &mut pos) {
            Ok(()) => {},
            Err(e) => {
                return Err(e);
            },
        }
        let ghost th = tree;
        let ghost hdr_end = pos as int;
        let mut none_tx: Option<InnerTransaction> = Option::None;
        match decode_message(&mut tree, &mut none_tx, data, &mut pos) {
            Ok(_) => {},
            Err(e) => {
                return Err(e);
            },
        }
        let ghost run = (match parse_msgs(data@, hdr_end) {
            Parsed::Found(run, _) => run,
            Parsed::Fail(_) => arbitrary(),
        });
        proof {
            assert(events_cat_view(th.events@) =~= Seq::<LeafModel>::empty());
            assert(txs_cat_view(th.transactions@) =~= Seq::<TxModel>::empty());
            assert(heartbeats_cat_view(th.heartbeats@) =~= Seq::<LeafModel>::empty());
            assert(metrics_cat_view(th.metrics@) =~= Seq::<LeafModel>::empty());
            assert(traces_cat_view(th.traces@) =~= Seq::<LeafModel>::empty());
            assert(Seq::<TxModel>::empty() + txs_of_list(run.msgs, 0) =~= txs_of_list(
                run.msgs,
                0,
            ));
            assert(Seq::<LeafModel>::empty() + leaves_of_list(run.msgs, 0, LeafKind::Event)
                =~= leaves_of_list(run.msgs, 0, LeafKind::Event));
            assert(Seq::<LeafModel>::empty() + leaves_of_list(run.msgs, 0, LeafKind::Heartbeat)
                =~= leaves_of_list(run.msgs, 0, LeafKind::Heartbeat));
            assert(Seq::<LeafModel>::empty() + leaves_of_list(run.msgs, 0, LeafKind::Metric)
                =~= leaves_of_list(run.msgs, 0, LeafKind::Metric));
            assert(Seq::<LeafModel>::empty() + leaves_of_list(run.msgs, 0, LeafKind::Trace)
                =~= leaves_of_list(run.msgs, 0, LeafKind::Trace));
        }
        if tree.transactions.len() > 0 {
            let rc = rc_clone(&tree.transactions[tree.transactions.len() - 1]);
            tree.message = Message::Transaction(rc);
        } else if tree.events.len() > 0 {
            let rc = rc_clone(&tree.events[tree.events.len() - 1]);
            tree.message = Message::Event(rc);
        } else if tree.metrics.len() > 0 {
            let rc = rc_clone(&tree.metrics[tree.metrics.len() - 1]);
            tree.message = Message::Metric(rc);
        } else if tree.heartbeats.len() > 0 {
            let rc = rc_clone(&tree.heartbeats[tree.heartbeats.len() - 1]);
            tree.message = Message::Heartbeat(rc);
        } else if tree.traces.len() > 0 {
            let rc = rc_clone(&tree.traces[tree.traces.len() - 1]);
            tree.message = Message::Trace(rc);
        } else {
            proof {
                assert(parse_tree(data@) == Parsed::<crate::model::TreeModel>::Fail(
                    DecodeError::EmptyTree,
                ));
            }
            return Err(DecodeError::EmptyTree);
        }
        proof {
            match parse_tree(data@) {
                Parsed::Found(tm, end) => {
                    assert(tree_view(tree) == tm);
                },
                Parsed::Fail(_) => {
                    assert(false);
                },
            }
        }
        Ok(tree)
    }
}

} // verus!
