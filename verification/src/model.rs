use vstd::prelude::*;

verus! {

broadcast use vstd::seq::group_seq_axioms;

/// Mathematical value of one leaf message (event, metric, heartbeat or trace).
pub struct LeafModel {
    pub ty: Seq<char>,
    pub name: Seq<char>,
    pub ts: u64,
    pub status: Seq<char>,
    pub data: Seq<char>,
}

/// Mathematical value of one transaction, children included.
pub struct TxModel {
    pub ty: Seq<char>,
    pub name: Seq<char>,
    pub ts: u64,
    pub status: Seq<char>,
    pub data: Seq<char>,
    pub duration_in_ms: u64,
    pub children: Seq<MsgModel>,
}

/// The four leaf kinds, used to pick one flat catalogue.
pub enum LeafKind {
    Event,
    Heartbeat,
    Metric,
    Trace,
}

/// Mathematical value of one message of any kind.
pub enum MsgModel {
    Event(LeafModel),
    Transaction(TxModel),
    Heartbeat(LeafModel),
    Metric(LeafModel),
    Trace(LeafModel),
}

/// Mathematical value of one decoded tree: the ten header fields, the five
/// flat catalogues, and the representative message.
pub struct TreeModel {
    pub domain: Seq<char>,
    pub hostname: Seq<char>,
    pub ip_address: Seq<char>,
    pub thread_group_name: Seq<char>,
    pub thread_id: Seq<char>,
    pub thread_name: Seq<char>,
    pub message_id: Seq<char>,
    pub parent_message_id: Seq<char>,
    pub root_message_id: Seq<char>,
    pub session_token: Seq<char>,
    pub events: Seq<LeafModel>,
    pub transactions: Seq<TxModel>,
    pub heartbeats: Seq<LeafModel>,
    pub metrics: Seq<LeafModel>,
    pub traces: Seq<LeafModel>,
    pub message: MsgModel,
}

/// The transactions that decoding one message appends to the flat
/// transaction catalogue, in the order of their closing tags: a
/// transaction stands after all of its descendants (post-order).
pub open spec fn txs_of_msg(m: MsgModel) -> Seq<TxModel>
    decreases m, 0int,
{
    match m {
        MsgModel::Transaction(t) => txs_of_list(t.children, 0) + seq![t],
        _ => seq![],
    }
}

/// The transactions contributed by the messages of `ms` from index `i` on.
pub open spec fn txs_of_list(ms: Seq<MsgModel>, i: int) -> Seq<TxModel>
    decreases ms, ms.len() - i,
{
    if i < 0 || i >= ms.len() {
        seq![]
    } else {
        txs_of_msg(ms[i]) + txs_of_list(ms, i + 1)
    }
}

/// True when `m` is a leaf of kind `k` with value `l`.
pub open spec fn is_leaf_of_kind(m: MsgModel, k: LeafKind, l: LeafModel) -> bool {
    match (m, k) {
        (MsgModel::Event(e), LeafKind::Event) => e == l,
        (MsgModel::Heartbeat(e), LeafKind::Heartbeat) => e == l,
        (MsgModel::Metric(e), LeafKind::Metric) => e == l,
        (MsgModel::Trace(e), LeafKind::Trace) => e == l,
        _ => false,
    }
}

/// The leaves of kind `k` that decoding one message appends to the matching
/// flat catalogue, in emission order (the order of their open tags).
pub open spec fn leaves_of_msg(m: MsgModel, k: LeafKind) -> Seq<LeafModel>
    decreases m, 0int,
{
    match m {
        MsgModel::Transaction(t) => leaves_of_list(t.children, 0, k),
        MsgModel::Event(e) => if k is Event { seq![e] } else { seq![] },
        MsgModel::Heartbeat(e) => if k is Heartbeat { seq![e] } else { seq![] },
        MsgModel::Metric(e) => if k is Metric { seq![e] } else { seq![] },
        MsgModel::Trace(e) => if k is Trace { seq![e] } else { seq![] },
    }
}

/// The leaves of kind `k` contributed by the messages of `ms` from index `i` on.
pub open spec fn leaves_of_list(ms: Seq<MsgModel>, i: int, k: LeafKind) -> Seq<LeafModel>
    decreases ms, ms.len() - i,
{
    if i < 0 || i >= ms.len() {
        seq![]
    } else {
        leaves_of_msg(ms[i], k) + leaves_of_list(ms, i + 1, k)
    }
}

/// Unfolding one step of `txs_of_list` from the front.
pub proof fn lemma_txs_of_list_step(ms: Seq<MsgModel>, i: int)
    requires
        0 <= i < ms.len(),
    ensures
        txs_of_list(ms, i) == txs_of_msg(ms[i]) + txs_of_list(ms, i + 1),
{
}

/// The transaction catalogue of a list extended by one message is the old
/// catalogue followed by the new message's own contribution.
pub proof fn lemma_txs_of_list_push(ms: Seq<MsgModel>, m: MsgModel)
    ensures
        txs_of_list(ms.push(m), 0) == txs_of_list(ms, 0) + txs_of_msg(m),
    decreases ms.len(),
{
    lemma_txs_of_list_push_from(ms, m, 0);
}

proof fn lemma_txs_of_list_push_from(ms: Seq<MsgModel>, m: MsgModel, i: int)
    requires
        0 <= i <= ms.len(),
    ensures
        txs_of_list(ms.push(m), i) == txs_of_list(ms, i) + txs_of_msg(m),
    decreases ms.len() - i,
{
    let e = ms.push(m);
    if i == ms.len() {
        assert(e[i] == m);
        assert(txs_of_list(e, i + 1) == Seq::<TxModel>::empty());
        assert(txs_of_list(e, i) == txs_of_msg(m) + Seq::<TxModel>::empty());
        assert(txs_of_msg(m) + Seq::<TxModel>::empty() == txs_of_msg(m));
        assert(txs_of_list(ms, i) == Seq::<TxModel>::empty());
        assert(Seq::<TxModel>::empty() + txs_of_msg(m) == txs_of_msg(m));
    } else {
        assert(e[i] == ms[i]);
        lemma_txs_of_list_push_from(ms, m, i + 1);
        assert((txs_of_msg(ms[i]) + txs_of_list(ms, i + 1)) + txs_of_msg(m) == txs_of_msg(ms[i])
            + (txs_of_list(ms, i + 1) + txs_of_msg(m)));
    }
}

/// Unfolding one step of `leaves_of_list` from the front.
pub proof fn lemma_leaves_of_list_step(ms: Seq<MsgModel>, i: int, k: LeafKind)
    requires
        0 <= i < ms.len(),
    ensures
        leaves_of_list(ms, i, k) == leaves_of_msg(ms[i], k) + leaves_of_list(ms, i + 1, k),
{
}

/// The leaf catalogue of a list extended by one message is the old catalogue
/// followed by the new message's own contribution.
pub proof fn lemma_leaves_of_list_push(ms: Seq<MsgModel>, m: MsgModel, k: LeafKind)
    ensures
        leaves_of_list(ms.push(m), 0, k) == leaves_of_list(ms, 0, k) + leaves_of_msg(m, k),
{
    lemma_leaves_of_list_push_from(ms, m, 0, k);
}

proof fn lemma_leaves_of_list_push_from(ms: Seq<MsgModel>, m: MsgModel, i: int, k: LeafKind)
    requires
        0 <= i <= ms.len(),
    ensures
        leaves_of_list(ms.push(m), i, k) == leaves_of_list(ms, i, k) + leaves_of_msg(m, k),
    decreases ms.len() - i,
{
    let e = ms.push(m);
    if i == ms.len() {
        assert(e[i] == m);
        assert(leaves_of_list(e, i + 1, k) == Seq::<LeafModel>::empty());
        assert(leaves_of_msg(m, k) + Seq::<LeafModel>::empty() == leaves_of_msg(m, k));
        assert(Seq::<LeafModel>::empty() + leaves_of_msg(m, k) == leaves_of_msg(m, k));
    } else {
        assert(e[i] == ms[i]);
        lemma_leaves_of_list_push_from(ms, m, i + 1, k);
        assert((leaves_of_msg(ms[i], k) + leaves_of_list(ms, i + 1, k)) + leaves_of_msg(m, k)
            == leaves_of_msg(ms[i], k) + (leaves_of_list(ms, i + 1, k) + leaves_of_msg(m, k)));
    }
}

} // verus!
