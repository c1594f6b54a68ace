use vstd::prelude::*;

use crate::model::{
    leaves_of_list, leaves_of_msg, txs_of_list, txs_of_msg, LeafKind, LeafModel, MsgModel,
    TreeModel, TxModel,
};
use crate::parse::{
    needs_rewrite, parse_leaf, parse_msgs, parse_tree, parse_tx, Parsed,
};

verus! {

broadcast use vstd::seq::group_seq_axioms;

/// The name-rewrite rule holds of one transaction: if its type marks a
/// system transaction, or its name begins with the upload-metric key, then
/// its name is exactly that key.
pub open spec fn rewrite_ok(tx: TxModel) -> bool {
    needs_rewrite(tx.ty, tx.name) ==> tx.name == "UploadMetric"@
}

/// The rewrite rule holds of a message and of everything below it.
pub open spec fn msg_rewritten(m: MsgModel) -> bool
    decreases m, 0int,
{
    match m {
        MsgModel::Transaction(t) => rewrite_ok(t) && list_rewritten(t.children, 0),
        _ => true,
    }
}

/// The rewrite rule holds of every message of `ms` from index `i` on.
pub open spec fn list_rewritten(ms: Seq<MsgModel>, i: int) -> bool
    decreases ms, ms.len() - i,
{
    if i < 0 || i >= ms.len() {
        true
    } else {
        msg_rewritten(ms[i]) && list_rewritten(ms, i + 1)
    }
}

proof fn lemma_list_rewritten_iff(ms: Seq<MsgModel>, i: int)
    requires
        0 <= i <= ms.len(),
    ensures
        list_rewritten(ms, i) <==> (forall|j: int|
            i <= j < ms.len() ==> msg_rewritten(#[trigger] ms[j])),
    decreases ms.len() - i,
{
    if i < ms.len() {
        lemma_list_rewritten_iff(ms, i + 1);
    }
}

/// Every transaction a successful transaction parse yields, itself and all
/// of its descendants, satisfies the rewrite rule.
proof fn lemma_parse_tx_rewritten(s: Seq<u8>, pos: int)
    ensures
        (match parse_tx(s, pos) {
            Parsed::Found(tx, _) => rewrite_ok(tx) && list_rewritten(tx.children, 0),
            Parsed::Fail(_) => true,
        }),
    decreases s.len() - pos, 0int,
{
    match parse_tx(s, pos) {
        Parsed::Found(tx, _) => {
            match crate::parse::parse_varint(s, pos) {
                Option::Some((ts, p1)) => {
                    match crate::parse::parse_string(s, p1) {
                        Parsed::Found(ty, p2) => {
                            match crate::parse::parse_string(s, p2) {
                                Parsed::Found(name0, p3) => {
                                    if pos < p3 <= s.len() {
                                        lemma_parse_msgs_rewritten(s, p3);
                                        reveal_strlit("System");
                                        reveal_strlit("UploadMetric");
                                    }
                                },
                                Parsed::Fail(_) => {},
                            }
                        },
                        Parsed::Fail(_) => {},
                    }
                },
                Option::None => {},
            }
        },
        Parsed::Fail(_) => {},
    }
}

/// Every transaction a successful message-run parse yields satisfies the
/// rewrite rule, descendants included.
proof fn lemma_parse_msgs_rewritten(s: Seq<u8>, pos: int)
    ensures
        (match parse_msgs(s, pos) {
            Parsed::Found(run, _) => list_rewritten(run.msgs, 0),
            Parsed::Fail(_) => true,
        }),
    decreases s.len() - pos, 1int,
{
    match parse_msgs(s, pos) {
        Parsed::Found(run, _) => {
            if !(0 <= pos <= s.len()) {
            } else if pos == s.len() {
            } else {
                let tag = s[pos];
                if tag == crate::parse::TAG_TX_CLOSE {
                } else if tag == crate::parse::TAG_TX_OPEN {
                    lemma_parse_tx_rewritten(s, pos + 1);
                    match parse_tx(s, pos + 1) {
                        Parsed::Found(tx, p2) => {
                            if pos < p2 <= s.len() {
                                lemma_parse_msgs_rewritten(s, p2);
                                match parse_msgs(s, p2) {
                                    Parsed::Found(run2, _) => {
                                        let m = MsgModel::Transaction(tx);
                                        lemma_list_rewritten_iff(run2.msgs, 0);
                                        lemma_list_rewritten_iff(seq![m] + run2.msgs, 0);
                                        assert(forall|j: int|
                                            0 <= j < run2.msgs.len() ==> (seq![m]
                                                + run2.msgs)[j + 1] == run2.msgs[j]);
                                        assert((seq![m] + run2.msgs)[0] == m);
                                    },
                                    Parsed::Fail(_) => {},
                                }
                            }
                        },
                        Parsed::Fail(_) => {},
                    }
                } else if crate::parse::is_leaf_tag(tag) {
                    match parse_leaf(s, pos + 1) {
                        Parsed::Found(l, p2) => {
                            if pos < p2 <= s.len() {
                                lemma_parse_msgs_rewritten(s, p2);
                                match parse_msgs(s, p2) {
                                    Parsed::Found(run2, _) => {
                                        let m = crate::parse::leaf_msg(tag, l);
                                        lemma_list_rewritten_iff(run2.msgs, 0);
                                        lemma_list_rewritten_iff(seq![m] + run2.msgs, 0);
                                        assert(forall|j: int|
                                            0 <= j < run2.msgs.len() ==> (seq![m]
                                                + run2.msgs)[j + 1] == run2.msgs[j]);
                                        assert((seq![m] + run2.msgs)[0] == m);
                                        assert(msg_rewritten(m));
                                    },
                                    Parsed::Fail(_) => {},
                                }
                            }
                        },
                        Parsed::Fail(_) => {},
                    }
                } else {
                }
            }
        },
        Parsed::Fail(_) => {},
    }
}

/// The rewrite rule carries from a message list into its transaction
/// catalogue.
proof fn lemma_cat_rewritten_msg(m: MsgModel)
    requires
        msg_rewritten(m),
    ensures
        forall|t: TxModel| txs_of_msg(m).contains(t) ==> rewrite_ok(t),
    decreases m, 0int,
{
    match m {
        MsgModel::Transaction(tx) => {
            lemma_cat_rewritten_list(tx.children, 0);
            assert forall|t: TxModel| txs_of_msg(m).contains(t) implies rewrite_ok(t) by {
                let cat = txs_of_list(tx.children, 0) + seq![tx];
                let i = choose|i: int| 0 <= i < cat.len() && cat[i] == t;
                if i < txs_of_list(tx.children, 0).len() {
                    assert(txs_of_list(tx.children, 0).contains(t));
                } else {
                    assert(t == tx);
                }
            }
        },
        _ => {},
    }
}

proof fn lemma_cat_rewritten_list(ms: Seq<MsgModel>, i: int)
    requires
        list_rewritten(ms, i),
    ensures
        forall|t: TxModel| txs_of_list(ms, i).contains(t) ==> rewrite_ok(t),
    decreases ms, ms.len() - i,
{
    if i < 0 || i >= ms.len() {
    } else {
        lemma_cat_rewritten_msg(ms[i]);
        lemma_cat_rewritten_list(ms, i + 1);
        assert forall|t: TxModel| txs_of_list(ms, i).contains(t) implies rewrite_ok(t) by {
            let cat = txs_of_msg(ms[i]) + txs_of_list(ms, i + 1);
            let j = choose|j: int| 0 <= j < cat.len() && cat[j] == t;
            if j < txs_of_msg(ms[i]).len() {
                assert(txs_of_msg(ms[i]).contains(t));
            } else {
                assert(txs_of_list(ms, i + 1).contains(t));
            }
        }
    }
}

/// Name rewrite: in every decoded tree, a transaction whose type is
/// `"System"`, or whose name begins with `"UploadMetric"`, carries exactly
/// the name `"UploadMetric"`.
pub proof fn lemma_name_rewrite(s: Seq<u8>)
    ensures
        (match parse_tree(s) {
            Parsed::Found(tm, _) => forall|i: int|
                0 <= i < tm.transactions.len() ==> rewrite_ok(#[trigger] tm.transactions[i]),
            Parsed::Fail(_) => true,
        }),
{
    match parse_tree(s) {
        Parsed::Found(tm, _) => {
            match crate::parse::parse_header(s, 0) {
                Parsed::Found(h, p) => {
                    lemma_parse_msgs_rewritten(s, p);
                    match parse_msgs(s, p) {
                        Parsed::Found(run, _) => {
                            lemma_cat_rewritten_list(run.msgs, 0);
                            assert forall|i: int| 0 <= i < tm.transactions.len() implies rewrite_ok(
                                #[trigger] tm.transactions[i],
                            ) by {
                                assert(txs_of_list(run.msgs, 0).contains(tm.transactions[i]));
                            }
                        },
                        Parsed::Fail(_) => {
                            assert(false);
                        },
                    }
                },
                Parsed::Fail(_) => {
                    assert(false);
                },
            }
        },
        Parsed::Fail(_) => {},
    }
}

/// The entry a message contributes for itself sits in the catalogues of any
/// list the message belongs to.
proof fn lemma_cat_embed_list(ms: Seq<MsgModel>, i: int, j: int)
    requires
        0 <= i <= j < ms.len(),
    ensures
        forall|t: TxModel| txs_of_msg(ms[j]).contains(t) ==> txs_of_list(ms, i).contains(t),
        forall|k: LeafKind, l: LeafModel|
            leaves_of_msg(ms[j], k).contains(l) ==> #[trigger] leaves_of_list(ms, i, k).contains(
                l,
            ),
    decreases j - i,
{
    if i == j {
        assert forall|t: TxModel| txs_of_msg(ms[j]).contains(t) implies txs_of_list(
            ms,
            i,
        ).contains(t) by {
            let a = txs_of_msg(ms[i]);
            let w = choose|w: int| 0 <= w < a.len() && a[w] == t;
            assert(txs_of_list(ms, i)[w] == t);
        }
        assert forall|k: LeafKind, l: LeafModel|
            leaves_of_msg(ms[j], k).contains(l) implies #[trigger] leaves_of_list(
            ms,
            i,
            k,
        ).contains(l) by {
            let a = leaves_of_msg(ms[i], k);
            let w = choose|w: int| 0 <= w < a.len() && a[w] == l;
            assert(leaves_of_list(ms, i, k)[w] == l);
        }
    } else {
        lemma_cat_embed_list(ms, i + 1, j);
        assert forall|t: TxModel| txs_of_msg(ms[j]).contains(t) implies txs_of_list(
            ms,
            i,
        ).contains(t) by {
            let b = txs_of_list(ms, i + 1);
            assert(b.contains(t));
            let w = choose|w: int| 0 <= w < b.len() && b[w] == t;
            assert(txs_of_list(ms, i)[txs_of_msg(ms[i]).len() + w] == t);
        }
        assert forall|k: LeafKind, l: LeafModel|
            leaves_of_msg(ms[j], k).contains(l) implies #[trigger] leaves_of_list(
            ms,
            i,
            k,
        ).contains(l) by {
            let b = leaves_of_list(ms, i + 1, k);
            assert(b.contains(l));
            let w = choose|w: int| 0 <= w < b.len() && b[w] == l;
            assert(leaves_of_list(ms, i, k)[leaves_of_msg(ms[i], k).len() + w] == l);
        }
    }
}

/// What it means for one child message's entry to sit in the catalogues a
/// message list contributes.
pub open spec fn child_in_cats_of(ms: Seq<MsgModel>, c: MsgModel) -> bool {
    match c {
        MsgModel::Transaction(ct) => txs_of_list(ms, 0).contains(ct),
        MsgModel::Event(l) => leaves_of_list(ms, 0, LeafKind::Event).contains(l),
        MsgModel::Metric(l) => leaves_of_list(ms, 0, LeafKind::Metric).contains(l),
        MsgModel::Heartbeat(l) => leaves_of_list(ms, 0, LeafKind::Heartbeat).contains(l),
        MsgModel::Trace(l) => leaves_of_list(ms, 0, LeafKind::Trace).contains(l),
    }
}

/// The per-message version of `child_in_cats_of`.
spec fn child_in_cats_of_msg(m: MsgModel, c: MsgModel) -> bool {
    match c {
        MsgModel::Transaction(ct) => txs_of_msg(m).contains(ct),
        MsgModel::Event(l) => leaves_of_msg(m, LeafKind::Event).contains(l),
        MsgModel::Metric(l) => leaves_of_msg(m, LeafKind::Metric).contains(l),
        MsgModel::Heartbeat(l) => leaves_of_msg(m, LeafKind::Heartbeat).contains(l),
        MsgModel::Trace(l) => leaves_of_msg(m, LeafKind::Trace).contains(l),
    }
}

/// Each element of a message list has its own entry in the list's
/// catalogues.
pub proof fn lemma_own_entry(ms: Seq<MsgModel>, j: int)
    requires
        0 <= j < ms.len(),
    ensures
        child_in_cats_of(ms, ms[j]),
{
    lemma_cat_embed_list(ms, 0, j);
    match ms[j] {
        MsgModel::Transaction(ct) => {
            let a = txs_of_list(ct.children, 0) + seq![ct];
            assert(a[a.len() - 1] == ct);
            assert(txs_of_msg(ms[j]).contains(ct));
        },
        MsgModel::Event(l) => {
            assert(leaves_of_msg(ms[j], LeafKind::Event)[0] == l);
            assert(leaves_of_msg(ms[j], LeafKind::Event).contains(l));
        },
        MsgModel::Metric(l) => {
            assert(leaves_of_msg(ms[j], LeafKind::Metric)[0] == l);
            assert(leaves_of_msg(ms[j], LeafKind::Metric).contains(l));
        },
        MsgModel::Heartbeat(l) => {
            assert(leaves_of_msg(ms[j], LeafKind::Heartbeat)[0] == l);
            assert(leaves_of_msg(ms[j], LeafKind::Heartbeat).contains(l));
        },
        MsgModel::Trace(l) => {
            assert(leaves_of_msg(ms[j], LeafKind::Trace)[0] == l);
            assert(leaves_of_msg(ms[j], LeafKind::Trace).contains(l));
        },
    }
}

/// Every child of every transaction in a message's catalogue contribution
/// has its own entry in that same contribution.
proof fn lemma_msg_children_in_cats(m: MsgModel)
    ensures
        forall|t: TxModel, ci: int|
            #[trigger] txs_of_msg(m).contains(t) && 0 <= ci < t.children.len()
                ==> child_in_cats_of_msg(m, #[trigger] t.children[ci]),
    decreases m, 0int, 0int,
{
    match m {
        MsgModel::Transaction(tx) => {
            lemma_list_children_in_cats(tx.children);
            assert forall|t: TxModel, ci: int|
                #[trigger] txs_of_msg(m).contains(t) && 0 <= ci
                    < t.children.len() implies child_in_cats_of_msg(
                m,
                #[trigger] t.children[ci],
            ) by {
                let cat = txs_of_list(tx.children, 0) + seq![tx];
                let w = choose|w: int| 0 <= w < cat.len() && cat[w] == t;
                if w < txs_of_list(tx.children, 0).len() {
                    assert(txs_of_list(tx.children, 0).contains(t));
                    assert(child_in_cats_of(tx.children, t.children[ci]));
                } else {
                    assert(t == tx);
                    lemma_own_entry(tx.children, ci);
                }
                match t.children[ci] {
                    MsgModel::Transaction(ct) => {
                        let a = txs_of_list(tx.children, 0);
                        assert(a.contains(ct));
                        let v = choose|v: int| 0 <= v < a.len() && a[v] == ct;
                        assert((a + seq![tx])[v] == ct);
                    },
                    _ => {},
                }
            }
        },
        _ => {},
    }
}

/// Every child of every transaction in a list's catalogues has its own
/// entry in those same catalogues.
proof fn lemma_list_children_in_cats(ms: Seq<MsgModel>)
    ensures
        forall|t: TxModel, ci: int|
            #[trigger] txs_of_list(ms, 0).contains(t) && 0 <= ci < t.children.len()
                ==> child_in_cats_of(ms, #[trigger] t.children[ci]),
    decreases ms, ms.len() + 1, 0int,
{
    lemma_list_children_in_cats_from(ms, 0);
    assert forall|t: TxModel, ci: int|
        #[trigger] txs_of_list(ms, 0).contains(t) && 0 <= ci
            < t.children.len() implies child_in_cats_of(ms, #[trigger] t.children[ci]) by {
        assert(child_in_cats_from(ms, 0, t.children[ci]));
    }
}

/// `child_in_cats_of`, from index `i` on.
spec fn child_in_cats_from(ms: Seq<MsgModel>, i: int, c: MsgModel) -> bool {
    match c {
        MsgModel::Transaction(ct) => txs_of_list(ms, i).contains(ct),
        MsgModel::Event(l) => leaves_of_list(ms, i, LeafKind::Event).contains(l),
        MsgModel::Metric(l) => leaves_of_list(ms, i, LeafKind::Metric).contains(l),
        MsgModel::Heartbeat(l) => leaves_of_list(ms, i, LeafKind::Heartbeat).contains(l),
        MsgModel::Trace(l) => leaves_of_list(ms, i, LeafKind::Trace).contains(l),
    }
}

proof fn lemma_list_children_in_cats_from(ms: Seq<MsgModel>, i: int)
    requires
        0 <= i <= ms.len(),
    ensures
        forall|t: TxModel, ci: int|
            #[trigger] txs_of_list(ms, i).contains(t) && 0 <= ci < t.children.len()
                ==> child_in_cats_from(ms, i, #[trigger] t.children[ci]),
    decreases ms, ms.len() - i, 0int,
{
    if i == ms.len() {
    } else {
        lemma_msg_children_in_cats(ms[i]);
        lemma_list_children_in_cats_from(ms, i + 1);
        assert forall|t: TxModel, ci: int|
            #[trigger] txs_of_list(ms, i).contains(t) && 0 <= ci
                < t.children.len() implies child_in_cats_from(
            ms,
            i,
            #[trigger] t.children[ci],
        ) by {
            let cat = txs_of_msg(ms[i]) + txs_of_list(ms, i + 1);
            let w = choose|w: int| 0 <= w < cat.len() && cat[w] == t;
            if w < txs_of_msg(ms[i]).len() {
                assert(txs_of_msg(ms[i]).contains(t));
                assert(child_in_cats_of_msg(ms[i], t.children[ci]));
                match t.children[ci] {
                    MsgModel::Transaction(ct) => {
                        let a = txs_of_msg(ms[i]);
                        assert(a.contains(ct));
                        let v = choose|v: int| 0 <= v < a.len() && a[v] == ct;
                        assert(txs_of_list(ms, i)[v] == ct);
                    },
                    MsgModel::Event(l) => {
                        let a = leaves_of_msg(ms[i], LeafKind::Event);
                        assert(a.contains(l));
                        let v = choose|v: int| 0 <= v < a.len() && a[v] == l;
                        assert(leaves_of_list(ms, i, LeafKind::Event)[v] == l);
                    },
                    MsgModel::Metric(l) => {
                        let a = leaves_of_msg(ms[i], LeafKind::Metric);
                        assert(a.contains(l));
                        let v = choose|v: int| 0 <= v < a.len() && a[v] == l;
                        assert(leaves_of_list(ms, i, LeafKind::Metric)[v] == l);
                    },
                    MsgModel::Heartbeat(l) => {
                        let a = leaves_of_msg(ms[i], LeafKind::Heartbeat);
                        assert(a.contains(l));
                        let v = choose|v: int| 0 <= v < a.len() && a[v] == l;
                        assert(leaves_of_list(ms, i, LeafKind::Heartbeat)[v] == l);
                    },
                    MsgModel::Trace(l) => {
                        let a = leaves_of_msg(ms[i], LeafKind::Trace);
                        assert(a.contains(l));
                        let v = choose|v: int| 0 <= v < a.len() && a[v] == l;
                        assert(leaves_of_list(ms, i, LeafKind::Trace)[v] == l);
                    },
                }
            } else {
                assert(txs_of_list(ms, i + 1).contains(t));
                assert(child_in_cats_from(ms, i + 1, t.children[ci]));
                match t.children[ci] {
                    MsgModel::Transaction(ct) => {
                        let b = txs_of_list(ms, i + 1);
                        assert(b.contains(ct));
                        let v = choose|v: int| 0 <= v < b.len() && b[v] == ct;
                        assert(txs_of_list(ms, i)[txs_of_msg(ms[i]).len() + v] == ct);
                    },
                    MsgModel::Event(l) => {
                        let b = leaves_of_list(ms, i + 1, LeafKind::Event);
                        assert(b.contains(l));
                        let v = choose|v: int| 0 <= v < b.len() && b[v] == l;
                        assert(leaves_of_list(ms, i, LeafKind::Event)[leaves_of_msg(
                            ms[i],
                            LeafKind::Event,
                        ).len() + v] == l);
                    },
                    MsgModel::Metric(l) => {
                        let b = leaves_of_list(ms, i + 1, LeafKind::Metric);
                        assert(b.contains(l));
                        let v = choose|v: int| 0 <= v < b.len() && b[v] == l;
                        assert(leaves_of_list(ms, i, LeafKind::Metric)[leaves_of_msg(
                            ms[i],
                            LeafKind::Metric,
                        ).len() + v] == l);
                    },
                    MsgModel::Heartbeat(l) => {
                        let b = leaves_of_list(ms, i + 1, LeafKind::Heartbeat);
                        assert(b.contains(l));
                        let v = choose|v: int| 0 <= v < b.len() && b[v] == l;
                        assert(leaves_of_list(ms, i, LeafKind::Heartbeat)[leaves_of_msg(
                            ms[i],
                            LeafKind::Heartbeat,
                        ).len() + v] == l);
                    },
                    MsgModel::Trace(l) => {
                        let b = leaves_of_list(ms, i + 1, LeafKind::Trace);
                        assert(b.contains(l));
                        let v = choose|v: int| 0 <= v < b.len() && b[v] == l;
                        assert(leaves_of_list(ms, i, LeafKind::Trace)[leaves_of_msg(
                            ms[i],
                            LeafKind::Trace,
                        ).len() + v] == l);
                    },
                }
            }
        }
    }
}

/// Within one message's transaction contribution, every child transaction
/// stands at a smaller index than its parent.
proof fn lemma_post_msg(m: MsgModel)
    ensures
        forall|p: int, ci: int|
            0 <= p < txs_of_msg(m).len() && 0 <= ci < txs_of_msg(m)[p].children.len() && (
            #[trigger] txs_of_msg(m)[p].children[ci]) is Transaction ==> exists|j: int|
                0 <= j < p && txs_of_msg(m)[j] == txs_of_msg(m)[p].children[ci]->Transaction_0,
    decreases m, 0int, 0int,
{
    match m {
        MsgModel::Transaction(t) => {
            lemma_post_list_from(t.children, 0);
            let c = txs_of_list(t.children, 0);
            assert forall|p: int, ci: int|
                0 <= p < txs_of_msg(m).len() && 0 <= ci < txs_of_msg(m)[p].children.len() && (
                #[trigger] txs_of_msg(m)[p].children[ci]) is Transaction implies exists|j: int|
                0 <= j < p && txs_of_msg(m)[j] == txs_of_msg(
                    m,
                )[p].children[ci]->Transaction_0 by {
                let ct = txs_of_msg(m)[p].children[ci]->Transaction_0;
                if p < c.len() {
                    assert(txs_of_msg(m)[p] == c[p]);
                    assert(c[p].children[ci] is Transaction);
                    let j = choose|j: int| 0 <= j < p && #[trigger] c[j] == c[p].children[ci]->Transaction_0;
                    assert(txs_of_msg(m)[j] == ct);
                } else {
                    assert(txs_of_msg(m)[p] == t);
                    lemma_own_entry(t.children, ci);
                    assert(c.contains(ct));
                    let j = choose|j: int| 0 <= j < c.len() && c[j] == ct;
                    assert(txs_of_msg(m)[j] == ct);
                }
            }
        },
        _ => {},
    }
}

/// Within the transaction catalogue of a message list, every child
/// transaction stands at a smaller index than its parent.
proof fn lemma_post_list_from(ms: Seq<MsgModel>, i: int)
    requires
        0 <= i <= ms.len(),
    ensures
        forall|p: int, ci: int|
            0 <= p < txs_of_list(ms, i).len() && 0 <= ci < txs_of_list(ms, i)[p].children.len()
                && (#[trigger] txs_of_list(ms, i)[p].children[ci]) is Transaction ==> exists|
                j: int,
            |
                0 <= j < p && txs_of_list(ms, i)[j] == txs_of_list(
                    ms,
                    i,
                )[p].children[ci]->Transaction_0,
    decreases ms, ms.len() - i, 0int,
{
    if i == ms.len() {
    } else {
        lemma_post_msg(ms[i]);
        lemma_post_list_from(ms, i + 1);
        let a = txs_of_msg(ms[i]);
        let b = txs_of_list(ms, i + 1);
        assert forall|p: int, ci: int|
            0 <= p < txs_of_list(ms, i).len() && 0 <= ci < txs_of_list(ms, i)[p].children.len()
                && (#[trigger] txs_of_list(ms, i)[p].children[ci]) is Transaction implies exists|
            j: int,
        |
            0 <= j < p && txs_of_list(ms, i)[j] == txs_of_list(
                ms,
                i,
            )[p].children[ci]->Transaction_0 by {
            let ct = txs_of_list(ms, i)[p].children[ci]->Transaction_0;
            if p < a.len() {
                assert(txs_of_list(ms, i)[p] == a[p]);
                assert(a[p].children[ci] is Transaction);
                let j = choose|j: int| 0 <= j < p && #[trigger] a[j] == a[p].children[ci]->Transaction_0;
                assert(txs_of_list(ms, i)[j] == ct);
            } else {
                assert(txs_of_list(ms, i)[p] == b[p - a.len()]);
                assert(b[p - a.len()].children[ci] is Transaction);
                let j = choose|j: int|
                    0 <= j < p - a.len() && #[trigger] b[j] == b[p - a.len(
                    )].children[ci]->Transaction_0;
                assert(txs_of_list(ms, i)[a.len() + j] == ct);
            }
        }
    }
}

/// Catalogue order is closing-tag order: in every decoded tree, each child
/// transaction of a catalogued transaction stands earlier in the flat
/// transaction catalogue than its parent (post-order).
pub proof fn lemma_catalogue_postorder(s: Seq<u8>)
    ensures
        (match parse_tree(s) {
            Parsed::Found(tm, _) => forall|p: int, ci: int|
                0 <= p < tm.transactions.len() && 0 <= ci < tm.transactions[p].children.len()
                    && (#[trigger] tm.transactions[p].children[ci]) is Transaction ==> exists|
                    j: int,
                |
                    0 <= j < p && tm.transactions[j]
                        == tm.transactions[p].children[ci]->Transaction_0,
            Parsed::Fail(_) => true,
        }),
{
    match parse_tree(s) {
        Parsed::Found(tm, _) => {
            match crate::parse::parse_header(s, 0) {
                Parsed::Found(h, p0) => {
                    match parse_msgs(s, p0) {
                        Parsed::Found(run, _) => {
                            lemma_post_list_from(run.msgs, 0);
                            assert(tm.transactions == txs_of_list(run.msgs, 0));
                        },
                        Parsed::Fail(_) => {
                            assert(false);
                        },
                    }
                },
                Parsed::Fail(_) => {
                    assert(false);
                },
            }
        },
        Parsed::Fail(_) => {},
    }
}

/// What it means for a child message to be present, by its kind, in a
/// decoded tree's flat catalogues.
pub open spec fn child_in_tree_catalogues(tm: TreeModel, c: MsgModel) -> bool {
    match c {
        MsgModel::Transaction(ct) => tm.transactions.contains(ct),
        MsgModel::Event(l) => tm.events.contains(l),
        MsgModel::Metric(l) => tm.metrics.contains(l),
        MsgModel::Heartbeat(l) => tm.heartbeats.contains(l),
        MsgModel::Trace(l) => tm.traces.contains(l),
    }
}

/// In every decoded tree, every child of every transaction in the flat
/// transaction catalogue is present in the flat catalogue of its kind.
pub proof fn lemma_children_in_catalogues(s: Seq<u8>)
    ensures
        (match parse_tree(s) {
            Parsed::Found(tm, _) => forall|i: int, ci: int|
                0 <= i < tm.transactions.len() && 0 <= ci < (
                #[trigger] tm.transactions[i]).children.len() ==> child_in_tree_catalogues(
                    tm,
                    #[trigger] tm.transactions[i].children[ci],
                ),
            Parsed::Fail(_) => true,
        }),
{
    match parse_tree(s) {
        Parsed::Found(tm, _) => {
            match crate::parse::parse_header(s, 0) {
                Parsed::Found(h, p) => {
                    match parse_msgs(s, p) {
                        Parsed::Found(run, _) => {
                            lemma_list_children_in_cats(run.msgs);
                            assert forall|i: int, ci: int|
                                0 <= i < tm.transactions.len() && 0 <= ci < (
                                #[trigger] tm.transactions[i]).children.len() implies child_in_tree_catalogues(
                                tm,
                                #[trigger] tm.transactions[i].children[ci],
                            ) by {
                                let t = tm.transactions[i];
                                assert(txs_of_list(run.msgs, 0).contains(t));
                                assert(child_in_cats_of(run.msgs, t.children[ci]));
                            }
                        },
                        Parsed::Fail(_) => {
                            assert(false);
                        },
                    }
                },
                Parsed::Fail(_) => {
                    assert(false);
                },
            }
        },
        Parsed::Fail(_) => {},
    }
}

/// The representative message of every decoded tree is an element of one of
/// the flat catalogues, and it is a transaction whenever the transaction
/// catalogue is not empty.
pub open spec fn msg_in_catalogues(tm: TreeModel, m: MsgModel) -> bool {
    match m {
        MsgModel::Transaction(t) => tm.transactions.contains(t),
        MsgModel::Event(l) => tm.events.contains(l),
        MsgModel::Metric(l) => tm.metrics.contains(l),
        MsgModel::Heartbeat(l) => tm.heartbeats.contains(l),
        MsgModel::Trace(l) => tm.traces.contains(l),
    }
}

pub proof fn lemma_representative_in_catalogues(s: Seq<u8>)
    ensures
        (match parse_tree(s) {
            Parsed::Found(tm, _) => msg_in_catalogues(tm, tm.message) && (tm.transactions.len()
                > 0 ==> tm.message is Transaction),
            Parsed::Fail(_) => true,
        }),
{
    match parse_tree(s) {
        Parsed::Found(tm, _) => {
            if tm.transactions.len() > 0 {
                assert(tm.transactions[tm.transactions.len() - 1] == tm.transactions.last());
                assert(tm.transactions.contains(tm.transactions.last()));
            } else if tm.events.len() > 0 {
                assert(tm.events[tm.events.len() - 1] == tm.events.last());
                assert(tm.events.contains(tm.events.last()));
            } else if tm.metrics.len() > 0 {
                assert(tm.metrics[tm.metrics.len() - 1] == tm.metrics.last());
                assert(tm.metrics.contains(tm.metrics.last()));
            } else if tm.heartbeats.len() > 0 {
                assert(tm.heartbeats[tm.heartbeats.len() - 1] == tm.heartbeats.last());
                assert(tm.heartbeats.contains(tm.heartbeats.last()));
            } else {
                assert(tm.traces.len() > 0);
                assert(tm.traces[tm.traces.len() - 1] == tm.traces.last());
                assert(tm.traces.contains(tm.traces.last()));
            }
        },
        Parsed::Fail(_) => {},
    }
}

} // verus!
