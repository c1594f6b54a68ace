use vstd::prelude::*;
use std::rc::Rc;

use crate::model::{LeafModel, MsgModel, TreeModel, TxModel};

verus! {

broadcast use vstd::seq::group_seq_axioms, vstd::std_specs::vec::group_vec_axioms;

pub type Text = String;

pub type MessageId = Text;

/// One event: an instantaneous occurrence.
#[derive(Debug, Clone, PartialEq)]
pub struct InnerEvent {
    pub status: Text,
    pub ty: Text,
    pub name: Text,
    pub timestamp_in_ms: u64,
    pub data: Text,
}

pub type Event = Rc<InnerEvent>;

/// One transaction: a timed span owning the messages discovered between its
/// open and close tags.
#[derive(Debug, Clone, PartialEq)]
pub struct InnerTransaction {
    pub status: Text,
    pub ty: Text,
    pub name: Text,
    pub timestamp_in_ms: u64,
    pub data: Text,
    pub duration_in_ms: u64,
    pub children: Vec<Message>,
}

pub type Transaction = Rc<InnerTransaction>;

/// One heartbeat: a periodic status report.
#[derive(Debug, Clone, PartialEq)]
pub struct InnerHeartbeat {
    pub status: Text,
    pub ty: Text,
    pub name: Text,
    pub timestamp_in_ms: u64,
    pub data: Text,
}

pub type Heartbeat = Rc<InnerHeartbeat>;

/// One metric: a measured value.
#[derive(Debug, Clone, PartialEq)]
pub struct InnerMetric {
    pub status: Text,
    pub ty: Text,
    pub name: Text,
    pub timestamp_in_ms: u64,
    pub data: Text,
}

pub type Metric = Rc<InnerMetric>;

/// One trace: a diagnostic note.
#[derive(Debug, Clone, PartialEq)]
pub struct InnerTrace {
    pub status: Text,
    pub ty: Text,
    pub name: Text,
    pub timestamp_in_ms: u64,
    pub data: Text,
}

pub type Trace = Rc<InnerTrace>;

/// A message of any of the five kinds. Leaves and closed transactions are
/// shared immutably: a child sits both in its parent's `children` list and in
/// the tree's flat catalogue.
#[derive(Debug, Clone, PartialEq)]
pub enum Message {
    Event(Event),
    Transaction(Transaction),
    Heartbeat(Heartbeat),
    Metric(Metric),
    Trace(Trace),
}

/// The model value of an event-shaped record.
pub open spec fn event_view(e: InnerEvent) -> LeafModel {
    LeafModel {
        ty: e.ty@,
        name: e.name@,
        ts: e.timestamp_in_ms,
        status: e.status@,
        data: e.data@,
    }
}

/// The model value of a heartbeat.
pub open spec fn heartbeat_view(e: InnerHeartbeat) -> LeafModel {
    LeafModel {
        ty: e.ty@,
        name: e.name@,
        ts: e.timestamp_in_ms,
        status: e.status@,
        data: e.data@,
    }
}

/// The model value of a metric.
pub open spec fn metric_view(e: InnerMetric) -> LeafModel {
    LeafModel {
        ty: e.ty@,
        name: e.name@,
        ts: e.timestamp_in_ms,
        status: e.status@,
        data: e.data@,
    }
}

/// The model value of a trace.
pub open spec fn trace_view(e: InnerTrace) -> LeafModel {
    LeafModel {
        ty: e.ty@,
        name: e.name@,
        ts: e.timestamp_in_ms,
        status: e.status@,
        data: e.data@,
    }
}

/// The model value of a transaction, children included.
pub open spec fn tx_view(t: InnerTransaction) -> TxModel
    decreases t, 1int,
{
    TxModel {
        ty: t.ty@,
        name: t.name@,
        ts: t.timestamp_in_ms,
        status: t.status@,
        data: t.data@,
        duration_in_ms: t.duration_in_ms,
        children: msgs_view(t.children@, 0),
    }
}

/// The model value of one message.
pub open spec fn msg_view(m: Message) -> MsgModel
    decreases m, 2int,
{
    match m {
        Message::Event(e) => MsgModel::Event(event_view(*e)),
        Message::Transaction(t) => MsgModel::Transaction(tx_view(*t)),
        Message::Heartbeat(e) => MsgModel::Heartbeat(heartbeat_view(*e)),
        Message::Metric(e) => MsgModel::Metric(metric_view(*e)),
        Message::Trace(e) => MsgModel::Trace(trace_view(*e)),
    }
}

/// The model values of the messages of `v` from index `i` on.
pub open spec fn msgs_view(v: Seq<Message>, i: int) -> Seq<MsgModel>
    decreases v, v.len() - i,
{
    if i < 0 || i >= v.len() {
        seq![]
    } else {
        seq![msg_view(v[i])] + msgs_view(v, i + 1)
    }
}

/// `msgs_view` lists one model value per message, in order.
pub proof fn lemma_msgs_view_len(v: Seq<Message>, i: int)
    requires
        0 <= i <= v.len(),
    ensures
        msgs_view(v, i).len() == v.len() - i,
        forall|j: int| i <= j < v.len() ==> msgs_view(v, i)[j - i] == msg_view(v[j]),
    decreases v.len() - i,
{
    if i < v.len() {
        lemma_msgs_view_len(v, i + 1);
    }
}

/// Appending one message appends its model value.
pub proof fn lemma_msgs_view_push(v: Seq<Message>, m: Message)
    ensures
        msgs_view(v.push(m), 0) == msgs_view(v, 0).push(msg_view(m)),
{
    lemma_msgs_view_len(v, 0);
    lemma_msgs_view_len(v.push(m), 0);
    let a = msgs_view(v.push(m), 0);
    let b = msgs_view(v, 0).push(msg_view(m));
    assert forall|j: int| 0 <= j < a.len() implies a[j] == b[j] by {
        assert(a[j - 0int] == msg_view(v.push(m)[j]));
        if j < v.len() {
            assert(v.push(m)[j] == v[j]);
            assert(msgs_view(v, 0)[j - 0int] == msg_view(v[j]));
        } else {
            assert(v.push(m)[j] == m);
        }
    }
    assert(a =~= b);
}

impl InnerEvent {
    pub fn new(ty: Text, name: Text, ts: u64, status: Text, data: Text) -> (r: Self)
        ensures
            event_view(r) == (LeafModel { ty: ty@, name: name@, ts, status: status@, data: data@ }),
    {
        InnerEvent { ty, name, timestamp_in_ms: ts, status, data }
    }
}

impl InnerHeartbeat {
    pub fn new(ty: Text, name: Text, ts: u64, status: Text, data: Text) -> (r: Self)
        ensures
            heartbeat_view(r) == (LeafModel {
                ty: ty@,
                name: name@,
                ts,
                status: status@,
                data: data@,
            }),
    {
        InnerHeartbeat { ty, name, timestamp_in_ms: ts, status, data }
    }
}

impl InnerMetric {
    pub fn new(ty: Text, name: Text, ts: u64, status: Text, data: Text) -> (r: Self)
        ensures
            metric_view(r) == (LeafModel { ty: ty@, name: name@, ts, status: status@, data: data@ }),
    {
        InnerMetric { ty, name, timestamp_in_ms: ts, status, data }
    }
}

impl InnerTrace {
    pub fn new(ty: Text, name: Text, ts: u64, status: Text, data: Text) -> (r: Self)
        ensures
            trace_view(r) == (LeafModel { ty: ty@, name: name@, ts, status: status@, data: data@ }),
    {
        InnerTrace { ty, name, timestamp_in_ms: ts, status, data }
    }
}

impl InnerTransaction {
    /// A transaction still being decoded: no status, data or duration yet,
    /// and no children.
    pub fn new(ty: Text, name: Text, ts: u64) -> (r: Self)
        ensures
            tx_view(r) == (TxModel {
                ty: ty@,
                name: name@,
                ts,
                status: Seq::<char>::empty(),
                data: Seq::<char>::empty(),
                duration_in_ms: 0,
                children: Seq::<MsgModel>::empty(),
            }),
    {
        let r = InnerTransaction {
            ty,
            name,
            timestamp_in_ms: ts,
            status: String::new(),
            data: String::new(),
            duration_in_ms: 0,
            children: Vec::new(),
        };
        proof {
            assert(msgs_view(r.children@, 0) =~= Seq::<MsgModel>::empty());
        }
        r
    }

    /// Append one discovered child to this transaction.
    pub fn add_child(&mut self, message: Message)
        ensures
            *final(self) == (InnerTransaction { children: final(self).children, ..*old(self) }),
            final(self).children@ == old(self).children@.push(message),
    {
        self.children.push(message);
    }
}

impl Message {
    /// The status text of the message, whatever its kind.
    pub fn status(&self) -> (r: &Text)
        ensures
            r@ == self.status_spec(),
    {
        match self {
            Message::Event(e) => &e.status,
            Message::Transaction(e) => &e.status,
            Message::Trace(e) => &e.status,
            Message::Heartbeat(e) => &e.status,
            Message::Metric(e) => &e.status,
        }
    }

    pub open spec fn status_spec(&self) -> Seq<char> {
        match self {
            Message::Event(e) => e.status@,
            Message::Transaction(e) => e.status@,
            Message::Trace(e) => e.status@,
            Message::Heartbeat(e) => e.status@,
            Message::Metric(e) => e.status@,
        }
    }

    /// The type text of the message.
    pub fn ty(&self) -> (r: &Text)
        ensures
            r@ == self.ty_spec(),
    {
        match self {
            Message::Event(e) => &e.ty,
            Message::Transaction(e) => &e.ty,
            Message::Trace(e) => &e.ty,
            Message::Heartbeat(e) => &e.ty,
            Message::Metric(e) => &e.ty,
        }
    }

    pub open spec fn ty_spec(&self) -> Seq<char> {
        match self {
            Message::Event(e) => e.ty@,
            Message::Transaction(e) => e.ty@,
            Message::Trace(e) => e.ty@,
            Message::Heartbeat(e) => e.ty@,
            Message::Metric(e) => e.ty@,
        }
    }

    /// The name text of the message.
    pub fn name(&self) -> (r: &Text)
        ensures
            r@ == self.name_spec(),
    {
        match self {
            Message::Event(e) => &e.name,
            Message::Transaction(e) => &e.name,
            Message::Trace(e) => &e.name,
            Message::Heartbeat(e) => &e.name,
            Message::Metric(e) => &e.name,
        }
    }

    pub open spec fn name_spec(&self) -> Seq<char> {
        match self {
            Message::Event(e) => e.name@,
            Message::Transaction(e) => e.name@,
            Message::Trace(e) => e.name@,
            Message::Heartbeat(e) => e.name@,
            Message::Metric(e) => e.name@,
        }
    }

    pub open spec fn ts_spec(&self) -> u64 {
        match self {
            Message::Event(e) => e.timestamp_in_ms,
            Message::Transaction(e) => e.timestamp_in_ms,
            Message::Trace(e) => e.timestamp_in_ms,
            Message::Heartbeat(e) => e.timestamp_in_ms,
            Message::Metric(e) => e.timestamp_in_ms,
        }
    }

    /// The timestamp scaled from milliseconds to seconds, truncated into
    /// the 32-bit range.
    pub fn ts(&self) -> (r: i32)
        ensures
            self.ts_spec() / 1000 <= i32::MAX ==> r == self.ts_spec() / 1000,
    {
        let ms: u64 = match self {
            Message::Event(e) => e.timestamp_in_ms,
            Message::Transaction(e) => e.timestamp_in_ms,
            Message::Trace(e) => e.timestamp_in_ms,
            Message::Heartbeat(e) => e.timestamp_in_ms,
            Message::Metric(e) => e.timestamp_in_ms,
        };
        #[verifier::truncate] ((ms / 1000) as i32)
    }

    /// The duration of a transaction; leaves have none.
    pub fn duration_in_ms(&self) -> (r: Option<u64>)
        ensures
            r == self.duration_spec(),
    {
        match self {
            Message::Transaction(e) => Some(e.duration_in_ms),
            _ => None,
        }
    }

    pub open spec fn duration_spec(&self) -> Option<u64> {
        match self {
            Message::Transaction(e) => Some(e.duration_in_ms),
            _ => None,
        }
    }
}

/// One decoded telemetry record: the ten header fields, the flat per-kind
/// catalogues of every message seen while decoding, and a representative
/// message chosen at the end.
#[derive(Debug, Clone, PartialEq)]
pub struct MessageTree {
    pub domain: Text,
    pub hostname: Text,
    pub ip_address: Text,
    pub message: Message,
    pub message_id: Text,
    pub parent_message_id: Text,
    pub root_message_id: Text,
    pub session_token: Text,
    pub thread_group_name: Text,
    pub thread_id: Text,
    pub thread_name: Text,
    pub format_message_id: MessageId,
    pub discard: bool,
    pub process_loss: bool,
    pub hit_sample: bool,
    pub events: Vec<Event>,
    pub transactions: Vec<Transaction>,
    pub heartbeats: Vec<Heartbeat>,
    pub metrics: Vec<Metric>,
    pub traces: Vec<Trace>,
}

/// Relies on `Rc::clone`: the clone is another handle to the same shared
/// value.
#[verifier::external_body]
pub(crate) fn rc_clone<T>(rc: &Rc<T>) -> (res: Rc<T>)
    ensures
        res == *rc,
{
    Rc::clone(rc)
}

/// The model values of a flat event catalogue.
pub open spec fn events_cat_view(v: Seq<Event>) -> Seq<LeafModel> {
    Seq::new(v.len(), |i: int| event_view(*v[i]))
}

/// The model values of a flat transaction catalogue.
pub open spec fn txs_cat_view(v: Seq<Transaction>) -> Seq<TxModel> {
    Seq::new(v.len(), |i: int| tx_view(*v[i]))
}

/// The model values of a flat heartbeat catalogue.
pub open spec fn heartbeats_cat_view(v: Seq<Heartbeat>) -> Seq<LeafModel> {
    Seq::new(v.len(), |i: int| heartbeat_view(*v[i]))
}

/// The model values of a flat metric catalogue.
pub open spec fn metrics_cat_view(v: Seq<Metric>) -> Seq<LeafModel> {
    Seq::new(v.len(), |i: int| metric_view(*v[i]))
}

/// The model values of a flat trace catalogue.
pub open spec fn traces_cat_view(v: Seq<Trace>) -> Seq<LeafModel> {
    Seq::new(v.len(), |i: int| trace_view(*v[i]))
}

/// Appending to a catalogue appends its model value.
pub proof fn lemma_events_cat_push(v: Seq<Event>, e: Event)
    ensures
        events_cat_view(v.push(e)) == events_cat_view(v).push(event_view(*e)),
{
    assert(events_cat_view(v.push(e)) =~= events_cat_view(v).push(event_view(*e)));
}

pub proof fn lemma_txs_cat_push(v: Seq<Transaction>, e: Transaction)
    ensures
        txs_cat_view(v.push(e)) == txs_cat_view(v).push(tx_view(*e)),
{
    assert(txs_cat_view(v.push(e)) =~= txs_cat_view(v).push(tx_view(*e)));
}

pub proof fn lemma_heartbeats_cat_push(v: Seq<Heartbeat>, e: Heartbeat)
    ensures
        heartbeats_cat_view(v.push(e)) == heartbeats_cat_view(v).push(heartbeat_view(*e)),
{
    assert(heartbeats_cat_view(v.push(e)) =~= heartbeats_cat_view(v).push(heartbeat_view(*e)));
}

pub proof fn lemma_metrics_cat_push(v: Seq<Metric>, e: Metric)
    ensures
        metrics_cat_view(v.push(e)) == metrics_cat_view(v).push(metric_view(*e)),
{
    assert(metrics_cat_view(v.push(e)) =~= metrics_cat_view(v).push(metric_view(*e)));
}

pub proof fn lemma_traces_cat_push(v: Seq<Trace>, e: Trace)
    ensures
        traces_cat_view(v.push(e)) == traces_cat_view(v).push(trace_view(*e)),
{
    assert(traces_cat_view(v.push(e)) =~= traces_cat_view(v).push(trace_view(*e)));
}

/// The model value of a decoded tree.
pub open spec fn tree_view(t: MessageTree) -> TreeModel {
    TreeModel {
        domain: t.domain@,
        hostname: t.hostname@,
        ip_address: t.ip_address@,
        thread_group_name: t.thread_group_name@,
        thread_id: t.thread_id@,
        thread_name: t.thread_name@,
        message_id: t.message_id@,
        parent_message_id: t.parent_message_id@,
        root_message_id: t.root_message_id@,
        session_token: t.session_token@,
        events: events_cat_view(t.events@),
        transactions: txs_cat_view(t.transactions@),
        heartbeats: heartbeats_cat_view(t.heartbeats@),
        metrics: metrics_cat_view(t.metrics@),
        traces: traces_cat_view(t.traces@),
        message: msg_view(t.message),
    }
}

impl MessageTree {
    /// Append one event to the flat event catalogue.
    pub fn add_event(&mut self, event: Event)
        ensures
            *final(self) == (MessageTree { events: final(self).events, ..*old(self) }),
            final(self).events@ == old(self).events@.push(event),
    {
        self.events.push(event)
    }

    /// Append one closed transaction to the flat transaction catalogue.
    pub fn add_transaction(&mut self, transaction: Transaction)
        ensures
            *final(self) == (MessageTree { transactions: final(self).transactions, ..*old(self) }),
            final(self).transactions@ == old(self).transactions@.push(transaction),
    {
        self.transactions.push(transaction)
    }

    /// Append one heartbeat to the flat heartbeat catalogue.
    pub fn add_heartbeat(&mut self, heartbeat: Heartbeat)
        ensures
            *final(self) == (MessageTree { heartbeats: final(self).heartbeats, ..*old(self) }),
            final(self).heartbeats@ == old(self).heartbeats@.push(heartbeat),
    {
        self.heartbeats.push(heartbeat)
    }

    /// Append one metric to the flat metric catalogue.
    pub fn add_metric(&mut self, metric: Metric)
        ensures
            *final(self) == (MessageTree { metrics: final(self).metrics, ..*old(self) }),
            final(self).metrics@ == old(self).metrics@.push(metric),
    {
        self.metrics.push(metric)
    }

    /// Append one trace to the flat trace catalogue.
    pub fn add_trace(&mut self, trace: Trace)
        ensures
            *final(self) == (MessageTree { traces: final(self).traces, ..*old(self) }),
            final(self).traces@ == old(self).traces@.push(trace),
    {
        self.traces.push(trace)
    }
}

} // verus!
