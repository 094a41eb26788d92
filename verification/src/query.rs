//! The response side of a query: every message of the stream is classified,
//! data messages are decoded, and the records are gathered until the stream
//! ends or fails.

use vstd::prelude::*;
use crate::attr::{models, AttrModel, Attribute, DecodeError};
use crate::record::Record;

verus! {

/// One message of a response stream, or the failure of the transport to
/// deliver one.
#[derive(Debug, Clone, PartialEq, Eq)]
pub enum StreamItem {
    /// A message without content.
    Noop,
    /// The error marker of the protocol.
    Error,
    /// The terminal marker: the response is complete.
    Done,
    /// A data message with its attributes.
    Data(Vec<Attribute>),
    /// The transport failed while it received.
    Failure,
}

/// What a stream item is, as a mathematical value.
pub ghost enum ItemModel {
    Noop,
    Error,
    Done,
    Data(Seq<AttrModel>),
    Failure,
}

impl View for StreamItem {
    type V = ItemModel;

    open spec fn view(&self) -> ItemModel {
        match self {
            StreamItem::Noop => ItemModel::Noop,
            StreamItem::Error => ItemModel::Error,
            StreamItem::Done => ItemModel::Done,
            StreamItem::Data(attrs) => ItemModel::Data(models(attrs@)),
            StreamItem::Failure => ItemModel::Failure,
        }
    }
}

/// Message type of a message without content.
pub const NLMSG_NOOP: u16 = 1;
/// Message type of the error marker.
pub const NLMSG_ERROR: u16 = 2;
/// Message type of the terminal marker.
pub const NLMSG_DONE: u16 = 3;

/// The stream item that a message of type `nl_type` is. The three markers
/// are told by their type alone; a message of any other type is data, and
/// one that holds no payload to decode counts as a failure of the
/// transport.
pub open spec fn classified(nl_type: u16, payload: Option<Seq<AttrModel>>) -> ItemModel {
    if nl_type == NLMSG_NOOP {
        ItemModel::Noop
    } else if nl_type == NLMSG_ERROR {
        ItemModel::Error
    } else if nl_type == NLMSG_DONE {
        ItemModel::Done
    } else {
        match payload {
            Some(attrs) => ItemModel::Data(attrs),
            None => ItemModel::Failure,
        }
    }
}

/// The models of the attributes of a payload, where there is one.
pub open spec fn payload_model(payload: Option<Vec<Attribute>>) -> Option<Seq<AttrModel>> {
    match payload {
        Some(attrs) => Some(models(attrs@)),
        None => None,
    }
}

impl StreamItem {
    /// Classifies a received message by its type.
    pub fn from_message(nl_type: u16, payload: Option<Vec<Attribute>>) -> (item: StreamItem)
        ensures
            item@ == classified(nl_type, payload_model(payload)),
    {
        if nl_type == NLMSG_NOOP {
            StreamItem::Noop
        } else if nl_type == NLMSG_ERROR {
            StreamItem::Error
        } else if nl_type == NLMSG_DONE {
            StreamItem::Done
        } else {
            match payload {
                Some(attrs) => StreamItem::Data(attrs),
                None => StreamItem::Failure,
            }
        }
    }
}

/// The models of a sequence of stream items, in the same order.
pub open spec fn item_models(items: Seq<StreamItem>) -> Seq<ItemModel> {
    items.map_values(|item: StreamItem| item@)
}

/// The models of a sequence of records, in the same order.
pub open spec fn record_models<T: Record>(records: Seq<T>) -> Seq<T::V> {
    records.map_values(|rec: T| rec@)
}

/// Why a query failed.
#[derive(Debug, Clone, Copy, PartialEq, Eq, Structural)]
pub enum QueryError {
    /// The transport could not be set up, or the family name not resolved.
    Connection,
    /// The request could not be sent.
    Send,
    /// The response stream held the error marker of the protocol.
    Protocol,
    /// A data message could not be decoded.
    Malformed(DecodeError),
    /// The transport failed while it received the response.
    Stream,
}

/// How many records a query keeps.
#[derive(Debug, Clone, Copy, PartialEq, Eq, Structural)]
pub enum Shape {
    /// The last record received, or the absent record where none came.
    Single,
    /// Every record received, in the order of arrival.
    Multi,
}

/// Where a query stands.
#[derive(Debug, Clone, Copy, PartialEq, Eq, Structural)]
pub enum Phase {
    /// The request is out and nothing has come back yet.
    Sent,
    /// A part of the response has come.
    Receiving,
    /// The terminal marker has come.
    Done,
    /// The query has failed.
    Failed(QueryError),
}

/// A query whose response is being received.
pub struct Query<T: Record> {
    shape: Shape,
    phase: Phase,
    records: Vec<T>,
}

/// What a query holds, as a mathematical value.
pub ghost struct QueryModel<V> {
    pub shape: Shape,
    pub phase: Phase,
    pub records: Seq<V>,
}

impl<V> QueryModel<V> {
    /// A query takes items until it is done or has failed.
    pub open spec fn open(self) -> bool {
        self.phase is Sent || self.phase is Receiving
    }

    /// The query in the given phase, with the records it has.
    pub open spec fn moved_to(self, phase: Phase) -> Self {
        QueryModel { shape: self.shape, phase, records: self.records }
    }

    /// The failed query. What it had gathered is dropped.
    pub open spec fn failed(self, e: QueryError) -> Self {
        QueryModel { shape: self.shape, phase: Phase::Failed(e), records: Seq::empty() }
    }

    /// The query after one more record has come.
    pub open spec fn with_record(self, rec: V) -> Self {
        QueryModel {
            shape: self.shape,
            phase: Phase::Receiving,
            records: match self.shape {
                Shape::Single => seq![rec],
                Shape::Multi => self.records.push(rec),
            },
        }
    }

    /// What a multi-record query gives: the error, or the records.
    pub open spec fn all(self) -> Result<Seq<V>, QueryError> {
        match self.phase {
            Phase::Failed(e) => Err(e),
            _ => Ok(self.records),
        }
    }
}

/// The query before any item has come.
pub open spec fn started<V>(shape: Shape) -> QueryModel<V> {
    QueryModel { shape, phase: Phase::Sent, records: Seq::empty() }
}

/// The query after one item. A query that is done or has failed stays as it
/// is. Else a no-op is passed over, the error marker and a failure of the
/// transport fail the query, the terminal marker ends it, and any other
/// message is decoded: its record is kept, or its error fails the query.
pub open spec fn step<T: Record>(q: QueryModel<T::V>, item: ItemModel) -> QueryModel<T::V> {
    if !q.open() {
        q
    } else {
        match item {
            ItemModel::Noop => q.moved_to(Phase::Receiving),
            ItemModel::Error => q.failed(QueryError::Protocol),
            ItemModel::Done => q.moved_to(Phase::Done),
            ItemModel::Failure => q.failed(QueryError::Stream),
            ItemModel::Data(attrs) => match T::decoded(attrs) {
                Ok(rec) => q.with_record(rec),
                Err(e) => q.failed(QueryError::Malformed(e)),
            },
        }
    }
}

/// The query after the items of a stream, taken in order.
pub open spec fn run<T: Record>(q: QueryModel<T::V>, items: Seq<ItemModel>) -> QueryModel<T::V>
    decreases items.len(),
{
    if items.len() == 0 {
        q
    } else {
        step::<T>(run::<T>(q, items.drop_last()), items.last())
    }
}

/// What a single-record query gives: the error, or the last record that
/// came, or the absent record where none came.
pub open spec fn single<T: Record>(q: QueryModel<T::V>) -> Result<T::V, QueryError> {
    match q.phase {
        Phase::Failed(e) => Err(e),
        _ => Ok(
            if q.records.len() == 0 {
                T::absent_model()
            } else {
                q.records.last()
            },
        ),
    }
}

impl<T: Record> View for Query<T> {
    type V = QueryModel<T::V>;

    closed spec fn view(&self) -> QueryModel<T::V> {
        QueryModel {
            shape: self.shape,
            phase: self.phase,
            records: record_models::<T>(self.records@),
        }
    }
}

impl<T: Record> Query<T> {
    /// The query of the given shape, its request just sent.
    pub fn new(shape: Shape) -> (q: Self)
        ensures
            q@ == started::<T::V>(shape),
    {
        let q = Query { shape, phase: Phase::Sent, records: Vec::new() };
        assert(q@.records =~= Seq::empty());
        q
    }

    /// Where the query stands.
    pub fn phase(&self) -> (phase: Phase)
        ensures
            phase == self@.phase,
    {
        self.phase
    }

    /// Whether the query takes further items.
    pub fn is_open(&self) -> (open: bool)
        ensures
            open == self@.open(),
    {
        match self.phase {
            Phase::Sent => true,
            Phase::Receiving => true,
            _ => false,
        }
    }

    /// Takes the next item of the response stream.
    pub fn feed(&mut self, item: &StreamItem)
        ensures
            final(self)@ == step::<T>(old(self)@, item@),
    {
        if !self.is_open() {
            return ;
        }
        match item {
            StreamItem::Noop => {
                self.phase = Phase::Receiving;
            },
            StreamItem::Error => {
                self.fail(QueryError::Protocol);
            },
            StreamItem::Done => {
                self.phase = Phase::Done;
            },
            StreamItem::Failure => {
                self.fail(QueryError::Stream);
            },
            StreamItem::Data(attrs) => {
                match T::decode(attrs) {
                    Ok(rec) => {
                        match self.shape {
                            Shape::Single => {
                                self.records = Vec::new();
                            },
                            Shape::Multi => {},
                        }
                        self.records.push(rec);
                        self.phase = Phase::Receiving;
                        assert(self@.records =~= old(self)@.with_record(rec@).records);
                    },
                    Err(e) => {
                        self.fail(QueryError::Malformed(e));
                    },
                }
            },
        }
    }

    /// Fails the query and drops what it had gathered.
    fn fail(&mut self, e: QueryError)
        ensures
            final(self)@ == old(self)@.failed(e),
    {
        self.phase = Phase::Failed(e);
        self.records = Vec::new();
        assert(self@.records =~= Seq::empty());
    }

    /// Ends a multi-record query: the error if it failed, else the records
    /// in the order in which they came.
    pub fn into_records(self) -> (r: Result<Vec<T>, QueryError>)
        ensures
            match r {
                Ok(records) => self@.all() == Ok::<Seq<T::V>, QueryError>(
                    record_models::<T>(records@),
                ),
                Err(e) => self@.all() == Err::<Seq<T::V>, QueryError>(e),
            },
    {
        match self.phase {
            Phase::Failed(e) => Err(e),
            _ => Ok(self.records),
        }
    }

    /// Ends a single-record query: the error if it failed, else the last
    /// record that came, or the absent record where none came.
    pub fn into_record(self) -> (r: Result<T, QueryError>)
        ensures
            match r {
                Ok(rec) => single::<T>(self@) == Ok::<T::V, QueryError>(rec@),
                Err(e) => single::<T>(self@) == Err::<T::V, QueryError>(e),
            },
    {
        match self.phase {
            Phase::Failed(e) => Err(e),
            _ => {
                let mut records = self.records;
                match records.pop() {
                    Some(rec) => Ok(rec),
                    None => Ok(T::absent()),
                }
            },
        }
    }
}

/// A query that is done or has failed stays as it is, whatever comes.
pub proof fn lemma_closed_stays<T: Record>(q: QueryModel<T::V>, items: Seq<ItemModel>, k: int)
    requires
        0 <= k <= items.len(),
        !run::<T>(q, items.take(k)).open(),
    ensures
        run::<T>(q, items) == run::<T>(q, items.take(k)),
    decreases items.len() - k,
{
    if k < items.len() {
        assert(items.take(k + 1).drop_last() =~= items.take(k));
        lemma_closed_stays::<T>(q, items, k + 1);
    } else {
        assert(items.take(k) =~= items);
    }
}

/// The records of the first `n` items of a stream, each a data message that
/// decodes.
pub open spec fn leading_records<T: Record>(items: Seq<ItemModel>, n: int) -> Seq<T::V> {
    Seq::new(n as nat, |i: int| T::decoded(items[i]->Data_0)->Ok_0)
}

proof fn lemma_leading_data<T: Record>(items: Seq<ItemModel>, n: int, k: int)
    requires
        0 <= k <= n <= items.len(),
        forall|i: int|
            0 <= i < n ==> (#[trigger] items[i]) is Data && T::decoded(items[i]->Data_0) is Ok,
    ensures
        run::<T>(started(Shape::Multi), items.take(k)) == (QueryModel::<T::V> {
            shape: Shape::Multi,
            phase: if k == 0 {
                Phase::Sent
            } else {
                Phase::Receiving
            },
            records: leading_records::<T>(items, k),
        }),
    decreases k,
{
    if k == 0 {
        assert(leading_records::<T>(items, 0) =~= Seq::empty());
    } else {
        lemma_leading_data::<T>(items, n, k - 1);
        assert(items.take(k).drop_last() =~= items.take(k - 1));
        assert(items.take(k).last() == items[k - 1]);
        assert(leading_records::<T>(items, k) =~= leading_records::<T>(items, k - 1).push(
            T::decoded(items[k - 1]->Data_0)->Ok_0,
        ));
    }
}

/// A dump ends at its terminal marker: a multi-record query whose stream
/// starts with `n` data messages that decode, followed by the terminal
/// marker, gives exactly their `n` records in the order of arrival,
/// whatever follows the marker.
pub proof fn lemma_dump_termination<T: Record>(items: Seq<ItemModel>, n: int)
    requires
        0 <= n < items.len(),
        forall|i: int|
            0 <= i < n ==> (#[trigger] items[i]) is Data && T::decoded(items[i]->Data_0) is Ok,
        items[n] is Done,
    ensures
        run::<T>(started(Shape::Multi), items).all() == Ok::<Seq<T::V>, QueryError>(
            leading_records::<T>(items, n),
        ),
        leading_records::<T>(items, n).len() == n,
{
    lemma_leading_data::<T>(items, n, n);
    assert(items.take(n + 1).drop_last() =~= items.take(n));
    assert(items.take(n + 1).last() == items[n]);
    lemma_closed_stays::<T>(started(Shape::Multi), items, n + 1);
}

proof fn lemma_leading_single<T: Record>(items: Seq<ItemModel>, n: int, k: int)
    requires
        0 < k <= n <= items.len(),
        forall|i: int|
            0 <= i < n ==> (#[trigger] items[i]) is Data && T::decoded(items[i]->Data_0) is Ok,
    ensures
        run::<T>(started(Shape::Single), items.take(k)) == (QueryModel::<T::V> {
            shape: Shape::Single,
            phase: Phase::Receiving,
            records: seq![T::decoded(items[k - 1]->Data_0)->Ok_0],
        }),
    decreases k,
{
    assert(items.take(k).drop_last() =~= items.take(k - 1));
    assert(items.take(k).last() == items[k - 1]);
    if k == 1 {
        assert(items.take(0).len() == 0);
    } else {
        lemma_leading_single::<T>(items, n, k - 1);
    }
}

/// The last record wins: a single-record query whose stream starts with
/// `n` data messages that decode, `n` at least one, followed by the
/// terminal marker, gives the record of the last of them.
pub proof fn lemma_single_keeps_last<T: Record>(items: Seq<ItemModel>, n: int)
    requires
        0 < n < items.len(),
        forall|i: int|
            0 <= i < n ==> (#[trigger] items[i]) is Data && T::decoded(items[i]->Data_0) is Ok,
        items[n] is Done,
    ensures
        single::<T>(run::<T>(started(Shape::Single), items)) == Ok::<T::V, QueryError>(
            T::decoded(items[n - 1]->Data_0)->Ok_0,
        ),
{
    lemma_leading_single::<T>(items, n, n);
    assert(items.take(n + 1).drop_last() =~= items.take(n));
    assert(items.take(n + 1).last() == items[n]);
    lemma_closed_stays::<T>(started(Shape::Single), items, n + 1);
}

/// The items of a stream that are not no-ops, in their order.
pub open spec fn without_noops(items: Seq<ItemModel>) -> Seq<ItemModel> {
    items.filter(|item: ItemModel| !(item is Noop))
}

/// A no-op changes nothing of the answer: a stream gives what it gives
/// without its no-ops.
pub proof fn lemma_noop_skipped<T: Record>(shape: Shape, items: Seq<ItemModel>)
    ensures
        run::<T>(started(shape), items).all() == run::<T>(
            started(shape),
            without_noops(items),
        ).all(),
        single::<T>(run::<T>(started(shape), items)) == single::<T>(
            run::<T>(started(shape), without_noops(items)),
        ),
{
    lemma_noop_run::<T>(shape, items);
}

proof fn lemma_noop_run<T: Record>(shape: Shape, items: Seq<ItemModel>)
    ensures
        ({
            let with = run::<T>(started(shape), items);
            let without = run::<T>(started(shape), without_noops(items));
            &&& with.shape == without.shape
            &&& with.records == without.records
            &&& with.open() == without.open()
            &&& !with.open() ==> with.phase == without.phase
        }),
    decreases items.len(),
{
    reveal(Seq::filter);
    if items.len() > 0 {
        let rest = items.drop_last();
        lemma_noop_run::<T>(shape, rest);
        if items.last() is Noop {
            assert(without_noops(items) == without_noops(rest));
        } else {
            assert(without_noops(items) == without_noops(rest).push(items.last()));
            assert(without_noops(items).drop_last() =~= without_noops(rest));
        }
    }
}

proof fn lemma_not_done<T: Record>(shape: Shape, items: Seq<ItemModel>, k: int)
    requires
        0 <= k <= items.len(),
        forall|i: int| 0 <= i < k ==> !((#[trigger] items[i]) is Done),
    ensures
        !(run::<T>(started(shape), items.take(k)).phase is Done),
    decreases k,
{
    if k > 0 {
        lemma_not_done::<T>(shape, items, k - 1);
        assert(items.take(k).drop_last() =~= items.take(k - 1));
        assert(items.take(k).last() == items[k - 1]);
    }
}

/// An error marker that comes before any terminal marker fails the query,
/// of either shape: the answer is an error, and no record that came before
/// the marker is given out.
pub proof fn lemma_error_marker_fails<T: Record>(shape: Shape, items: Seq<ItemModel>, k: int)
    requires
        0 <= k < items.len(),
        items[k] is Error,
        forall|i: int| 0 <= i < k ==> !((#[trigger] items[i]) is Done),
    ensures
        run::<T>(started(shape), items).all() is Err,
        single::<T>(run::<T>(started(shape), items)) is Err,
        run::<T>(started(shape), items).records.len() == 0,
{
    lemma_not_done::<T>(shape, items, k);
    lemma_failed_is_empty::<T>(shape, items.take(k));
    assert(items.take(k + 1).drop_last() =~= items.take(k));
    assert(items.take(k + 1).last() == items[k]);
    lemma_closed_stays::<T>(started(shape), items, k + 1);
}

/// A query that has failed holds no record.
pub proof fn lemma_failed_is_empty<T: Record>(shape: Shape, items: Seq<ItemModel>)
    ensures
        run::<T>(started(shape), items).phase is Failed ==> run::<T>(
            started(shape),
            items,
        ).records.len() == 0,
    decreases items.len(),
{
    if items.len() > 0 {
        lemma_failed_is_empty::<T>(shape, items.drop_last());
    }
}

/// Feeds the query the items of a stream until the stream ends or the
/// query is closed.
fn drain<T: Record>(q: &mut Query<T>, items: &Vec<StreamItem>)
    ensures
        final(q)@ == run::<T>(old(q)@, item_models(items@)),
{
    let ghost all = item_models(items@);
    let ghost start = q@;
    let mut i: usize = 0;
    while i < items.len() && q.is_open()
        invariant
            i <= items.len(),
            all == item_models(items@),
            q@ == run::<T>(start, all.take(i as int)),
        decreases items.len() - i,
    {
        proof {
            assert(all.take(i + 1).drop_last() =~= all.take(i as int));
            assert(all.take(i + 1).last() == items@[i as int]@);
        }
        q.feed(&items[i]);
        i += 1;
    }
    proof {
        if i < items.len() {
            lemma_closed_stays::<T>(start, all, i as int);
        } else {
            assert(all.take(i as int) =~= all);
        }
    }
}

/// The answer to a single-record query whose response stream is `items`:
/// the last record of the stream up to its terminal marker, the absent
/// record where it holds none, or the error on which the stream failed.
pub fn get_info<T: Record>(items: &Vec<StreamItem>) -> (r: Result<T, QueryError>)
    ensures
        match r {
            Ok(rec) => single::<T>(run::<T>(started(Shape::Single), item_models(items@))) == Ok::<
                T::V,
                QueryError,
            >(rec@),
            Err(e) => single::<T>(run::<T>(started(Shape::Single), item_models(items@))) == Err::<
                T::V,
                QueryError,
            >(e),
        },
{
    let mut q = Query::<T>::new(Shape::Single);
    drain(&mut q, items);
    q.into_record()
}

/// The answer to a multi-record query whose response stream is `items`:
/// the records of the stream up to its terminal marker, in their order, or
/// the error on which the stream failed.
pub fn get_info_vec<T: Record>(items: &Vec<StreamItem>) -> (r: Result<Vec<T>, QueryError>)
    ensures
        match r {
            Ok(records) => run::<T>(started(Shape::Multi), item_models(items@)).all() == Ok::<
                Seq<T::V>,
                QueryError,
            >(record_models::<T>(records@)),
            Err(e) => run::<T>(started(Shape::Multi), item_models(items@)).all() == Err::<
                Seq<T::V>,
                QueryError,
            >(e),
        },
{
    let mut q = Query::<T>::new(Shape::Multi);
    drain(&mut q, items);
    q.into_records()
}

} // verus!
