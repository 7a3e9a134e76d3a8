//! Result batching: turning the flat message sequence of a simple query into
//! a sequence of self-consistent tables and command-completion markers.
//!
//! A single textual request may contain several `;`-separated statements; the
//! server reports them as one interleaved stream of row messages and
//! completion messages with no statement delimiter beyond schema shape and
//! the completion markers themselves. The batcher coalesces consecutive rows
//! of identical schema into one table, closes the open table on a completion
//! marker or on a schema change, and rejects any other message kind as a
//! protocol violation.

use vstd::prelude::*;

use crate::error::CoreError;

verus! {

// ---------------------------------------------------------------------------
// Ghost models
// ---------------------------------------------------------------------------

/// Ghost model of a [`Table`]: a header of column names and the rows, each
/// row a sequence of optional cell texts.
pub ghost struct TableV {
    pub header: Seq<Seq<char>>,
    pub rows: Seq<Seq<Option<Seq<char>>>>,
}

/// Ghost model of a [`PgResponse`].
pub ghost enum ResponseV {
    Table(TableV),
    CommandComplete(u64),
}

/// Ghost model of a [`SimpleRow`].
pub ghost struct SimpleRowV {
    pub columns: Seq<Seq<char>>,
    pub values: Seq<Option<Seq<char>>>,
}

/// Ghost model of a [`QueryMessage`].
pub ghost enum QueryMessageV {
    Row(SimpleRowV),
    CommandComplete(u64),
    Unsupported,
}

// ---------------------------------------------------------------------------
// Executable data model
// ---------------------------------------------------------------------------

/// The ordered column names of a table.
///
/// Uniqueness of the names is not required; order is significant.
#[derive(Debug, PartialEq, Eq)]
pub struct Header {
    pub columns: Vec<String>,
}

impl DeepView for Header {
    type V = Seq<Seq<char>>;

    open spec fn deep_view(&self) -> Seq<Seq<char>> {
        self.columns.deep_view()
    }
}

impl Header {
    pub fn new(columns: Vec<String>) -> (h: Self)
        ensures
            h.deep_view() == columns.deep_view(),
    {
        Header { columns }
    }

    pub fn push(&mut self, col: String)
        ensures
            final(self).deep_view() == old(self).deep_view().push(col@),
    {
        self.columns.push(col);
        proof {
            assert(self.deep_view() =~= old(self).deep_view().push(col@));
        }
    }

    /// Set the header's columns.
    pub fn set_columns(&mut self, columns: Vec<String>)
        ensures
            final(self).deep_view() == columns.deep_view(),
    {
        self.columns = columns;
    }
}

impl Default for Header {
    fn default() -> (h: Self)
        ensures
            h.deep_view() == Seq::<Seq<char>>::empty(),
    {
        let h = Header { columns: Vec::new() };
        proof {
            assert(h.deep_view() =~= Seq::<Seq<char>>::empty());
        }
        h
    }
}

impl Clone for Header {
    fn clone(&self) -> (res: Self)
        ensures
            res.deep_view() == self.deep_view(),
    {
        Header { columns: clone_string_vec(&self.columns) }
    }
}

/// One row of a result set; `None` is a SQL null.
#[derive(Debug, PartialEq, Eq)]
pub struct Row {
    pub values: Vec<Option<String>>,
}

impl DeepView for Row {
    type V = Seq<Option<Seq<char>>>;

    open spec fn deep_view(&self) -> Seq<Option<Seq<char>>> {
        self.values.deep_view()
    }
}

impl Row {
    pub fn new(values: Vec<Option<String>>) -> (r: Self)
        ensures
            r.deep_view() == values.deep_view(),
    {
        Row { values }
    }

    pub fn push(&mut self, value: Option<String>)
        ensures
            final(self).deep_view() == old(self).deep_view().push(value.deep_view()),
    {
        self.values.push(value);
        proof {
            assert(self.deep_view() =~= old(self).deep_view().push(value.deep_view()));
        }
    }
}

impl Default for Row {
    fn default() -> (r: Self)
        ensures
            r.deep_view() == Seq::<Option<Seq<char>>>::empty(),
    {
        let r = Row { values: Vec::new() };
        proof {
            assert(r.deep_view() =~= Seq::<Option<Seq<char>>>::empty());
        }
        r
    }
}

impl Clone for Row {
    fn clone(&self) -> (res: Self)
        ensures
            res.deep_view() == self.deep_view(),
    {
        Row { values: clone_opt_string_vec(&self.values) }
    }
}

/// Rows sharing one schema, together with that schema.
#[derive(Debug, PartialEq, Eq)]
pub struct Table {
    pub header: Header,
    pub rows: Vec<Row>,
}

impl DeepView for Table {
    type V = TableV;

    open spec fn deep_view(&self) -> TableV {
        TableV { header: self.header.deep_view(), rows: self.rows.deep_view() }
    }
}

impl Table {
    pub fn new(header: Header, rows: Vec<Row>) -> (t: Self)
        ensures
            t.deep_view() == (TableV { header: header.deep_view(), rows: rows.deep_view() }),
    {
        Table { header, rows }
    }
}

impl Default for Table {
    fn default() -> (t: Self)
        ensures
            t.deep_view() == (TableV {
                header: Seq::<Seq<char>>::empty(),
                rows: Seq::<Seq<Option<Seq<char>>>>::empty(),
            }),
    {
        let t = Table { header: Header::default(), rows: Vec::new() };
        proof {
            assert(t.rows.deep_view() =~= Seq::<Seq<Option<Seq<char>>>>::empty());
        }
        t
    }
}

impl Clone for Table {
    fn clone(&self) -> (res: Self)
        ensures
            res.deep_view() == self.deep_view(),
    {
        let mut rows: Vec<Row> = Vec::new();
        proof {
            assert(rows.deep_view() =~= self.rows.deep_view().take(0));
        }
        let mut i: usize = 0;
        while i < self.rows.len()
            invariant
                i <= self.rows.len(),
                rows.deep_view() == self.rows.deep_view().take(i as int),
            decreases self.rows.len() - i,
        {
            push_deep(&mut rows, self.rows[i].clone());
            proof {
                assert(self.rows.deep_view()[i as int] == self.rows@[i as int].deep_view());
                assert(rows.deep_view() =~= self.rows.deep_view().take(i + 1));
            }
            i += 1;
        }
        proof {
            assert(self.rows.deep_view().take(self.rows@.len() as int) =~= self.rows.deep_view());
        }
        Table { header: self.header.clone(), rows }
    }
}

/// One item of a response: a table of rows, or the affected-row count of a
/// statement that returned no rows.
#[derive(Debug, PartialEq, Eq)]
pub enum PgResponse {
    Table(Table),
    CommandComplete(u64),
}

impl DeepView for PgResponse {
    type V = ResponseV;

    open spec fn deep_view(&self) -> ResponseV {
        match self {
            PgResponse::Table(t) => ResponseV::Table(t.deep_view()),
            PgResponse::CommandComplete(n) => ResponseV::CommandComplete(*n),
        }
    }
}

impl Clone for PgResponse {
    fn clone(&self) -> (res: Self)
        ensures
            res.deep_view() == self.deep_view(),
    {
        match self {
            PgResponse::Table(t) => PgResponse::Table(t.clone()),
            PgResponse::CommandComplete(n) => PgResponse::CommandComplete(*n),
        }
    }
}

/// One row message of a simple-query result: the column names reported by
/// the row's own metadata, in order, and the cell values, in column order.
#[derive(Debug, PartialEq, Eq)]
pub struct SimpleRow {
    pub columns: Vec<String>,
    pub values: Vec<Option<String>>,
}

impl DeepView for SimpleRow {
    type V = SimpleRowV;

    open spec fn deep_view(&self) -> SimpleRowV {
        SimpleRowV { columns: self.columns.deep_view(), values: self.values.deep_view() }
    }
}

/// One wire-level message of a simple-query result, reduced to the fields
/// the batcher reads. `Unsupported` stands for every message kind that a
/// simple query must not produce.
#[derive(Debug, PartialEq, Eq)]
pub enum QueryMessage {
    Row(SimpleRow),
    CommandComplete(u64),
    Unsupported,
}

impl DeepView for QueryMessage {
    type V = QueryMessageV;

    open spec fn deep_view(&self) -> QueryMessageV {
        match self {
            QueryMessage::Row(r) => QueryMessageV::Row(r.deep_view()),
            QueryMessage::CommandComplete(n) => QueryMessageV::CommandComplete(*n),
            QueryMessage::Unsupported => QueryMessageV::Unsupported,
        }
    }
}

// ---------------------------------------------------------------------------
// The batching state machine, in specification form
// ---------------------------------------------------------------------------

/// The batcher's state: no table open, or one table open and collecting rows.
pub ghost enum BatchStateV {
    NoTable,
    Open(TableV),
}

/// One transition of the batcher: the next state and the items emitted, or
/// `None` on a message kind that a simple query must not produce.
pub open spec fn step_spec(st: BatchStateV, m: QueryMessageV) -> Option<
    (BatchStateV, Seq<ResponseV>),
> {
    match m {
        QueryMessageV::Row(row) => Some(
            match st {
                BatchStateV::NoTable => (
                    BatchStateV::Open(TableV { header: row.columns, rows: seq![row.values] }),
                    Seq::<ResponseV>::empty(),
                ),
                BatchStateV::Open(t) => if t.header == row.columns {
                    (
                        BatchStateV::Open(
                            TableV { header: t.header, rows: t.rows.push(row.values) },
                        ),
                        Seq::<ResponseV>::empty(),
                    )
                } else {
                    (
                        BatchStateV::Open(TableV { header: row.columns, rows: seq![row.values] }),
                        seq![ResponseV::Table(t)],
                    )
                },
            },
        ),
        QueryMessageV::CommandComplete(n) => Some(
            match st {
                BatchStateV::NoTable => (BatchStateV::NoTable, seq![ResponseV::CommandComplete(n)]),
                BatchStateV::Open(t) => (
                    BatchStateV::NoTable,
                    seq![ResponseV::Table(t), ResponseV::CommandComplete(n)],
                ),
            },
        ),
        QueryMessageV::Unsupported => None,
    }
}

/// The batcher run over a whole message sequence from state `st`: the final
/// state and everything emitted, or `None` on a protocol violation.
pub open spec fn run_spec(st: BatchStateV, msgs: Seq<QueryMessageV>) -> Option<
    (BatchStateV, Seq<ResponseV>),
>
    decreases msgs.len(),
{
    if msgs.len() == 0 {
        Some((st, Seq::<ResponseV>::empty()))
    } else {
        match step_spec(st, msgs[0]) {
            None => None,
            Some(p) => match run_spec(p.0, msgs.drop_first()) {
                None => None,
                Some(q) => Some((q.0, p.1 + q.1)),
            },
        }
    }
}

/// What flushing the final state emits: the still-open table, if any.
pub open spec fn flush_spec(st: BatchStateV) -> Seq<ResponseV> {
    match st {
        BatchStateV::NoTable => Seq::<ResponseV>::empty(),
        BatchStateV::Open(t) => seq![ResponseV::Table(t)],
    }
}

/// The full batching function on the ghost model: run from the empty state,
/// then flush.
pub open spec fn batches_spec(msgs: Seq<QueryMessageV>) -> Option<Seq<ResponseV>> {
    match run_spec(BatchStateV::NoTable, msgs) {
        None => None,
        Some(p) => Some(p.1 + flush_spec(p.0)),
    }
}

/// Running over `a + b` is running over `a`, then over `b` from where `a`
/// left off, with the emitted items concatenated.
pub proof fn lemma_run_append(st: BatchStateV, a: Seq<QueryMessageV>, b: Seq<QueryMessageV>)
    ensures
        run_spec(st, a + b) == (match run_spec(st, a) {
            None => None::<(BatchStateV, Seq<ResponseV>)>,
            Some(p) => match run_spec(p.0, b) {
                None => None::<(BatchStateV, Seq<ResponseV>)>,
                Some(q) => Some((q.0, p.1 + q.1)),
            },
        }),
    decreases a.len(),
{
    if a.len() == 0 {
        assert(a + b =~= b);
        match run_spec(st, b) {
            None => {},
            Some(q) => {
                assert(Seq::<ResponseV>::empty() + q.1 =~= q.1);
            },
        }
    } else {
        assert((a + b)[0] == a[0]);
        assert((a + b).drop_first() =~= a.drop_first() + b);
        match step_spec(st, a[0]) {
            None => {},
            Some(p) => {
                lemma_run_append(p.0, a.drop_first(), b);
                match run_spec(p.0, a.drop_first()) {
                    None => {},
                    Some(q) => {
                        match run_spec(q.0, b) {
                            None => {},
                            Some(r) => {
                                assert(p.1 + (q.1 + r.1) =~= (p.1 + q.1) + r.1);
                            },
                        }
                    },
                }
            },
        }
    }
}

// ---------------------------------------------------------------------------
// Laws of the batcher
// ---------------------------------------------------------------------------

/// Every message of the sequence is a row message.
pub open spec fn all_row_messages(msgs: Seq<QueryMessageV>) -> bool {
    forall|i: int| 0 <= i < msgs.len() ==> msgs[i] is Row
}

/// The column names a row message carries; empty for the other kinds.
pub open spec fn msg_columns(m: QueryMessageV) -> Seq<Seq<char>> {
    match m {
        QueryMessageV::Row(r) => r.columns,
        _ => Seq::<Seq<char>>::empty(),
    }
}

/// The cell values a row message carries; empty for the other kinds.
pub open spec fn msg_values(m: QueryMessageV) -> Seq<Option<Seq<char>>> {
    match m {
        QueryMessageV::Row(r) => r.values,
        _ => Seq::<Option<Seq<char>>>::empty(),
    }
}

/// The number of maximal runs of constant header in an all-row sequence.
pub open spec fn header_runs(msgs: Seq<QueryMessageV>) -> nat
    decreases msgs.len(),
{
    if msgs.len() == 0 {
        0
    } else if msgs.len() == 1 {
        1
    } else {
        header_runs(msgs.drop_last()) + if msg_columns(msgs.last()) == msg_columns(
            msgs[msgs.len() - 2],
        ) {
            0
        } else {
            1nat
        }
    }
}

proof fn lemma_run_all_rows(msgs: Seq<QueryMessageV>)
    requires
        all_row_messages(msgs),
        msgs.len() > 0,
    ensures
        ({
            let r = run_spec(BatchStateV::NoTable, msgs);
            &&& r is Some
            &&& r.unwrap().0 is Open
            &&& match r.unwrap().0 {
                BatchStateV::Open(t) => t.header == msg_columns(msgs.last()),
                BatchStateV::NoTable => false,
            }
            &&& r.unwrap().1.len() + 1 == header_runs(msgs)
            &&& forall|j: int|
                0 <= j < r.unwrap().1.len() ==> #[trigger] r.unwrap().1[j] is Table
        }),
    decreases msgs.len(),
{
    if msgs.len() == 1 {
        assert(msgs[0] is Row);
        let stepped = step_spec(BatchStateV::NoTable, msgs[0]).unwrap();
        assert(msgs.drop_first().len() == 0);
        assert(run_spec(stepped.0, msgs.drop_first()) == Some(
            (stepped.0, Seq::<ResponseV>::empty()),
        ));
        assert(run_spec(BatchStateV::NoTable, msgs) == Some(
            (stepped.0, stepped.1 + Seq::<ResponseV>::empty()),
        ));
        assert(stepped.1 + Seq::<ResponseV>::empty() =~= Seq::<ResponseV>::empty());
        assert(msgs.last() == msgs[0]);
    } else {
        let pre = msgs.drop_last();
        let last = msgs.last();
        assert(all_row_messages(pre));
        assert(pre.last() == msgs[msgs.len() - 2]);
        lemma_run_all_rows(pre);
        assert(msgs =~= pre + seq![last]);
        lemma_run_append(BatchStateV::NoTable, pre, seq![last]);
        let p = run_spec(BatchStateV::NoTable, pre).unwrap();
        let stepped = step_spec(p.0, last).unwrap();
        assert(seq![last].drop_first() =~= Seq::<QueryMessageV>::empty());
        assert(run_spec(stepped.0, seq![last].drop_first()) == Some(
            (stepped.0, Seq::<ResponseV>::empty()),
        ));
        let q = run_spec(p.0, seq![last]).unwrap();
        assert(q.1 =~= stepped.1);
        let r = run_spec(BatchStateV::NoTable, msgs).unwrap();
        assert(r.1 == p.1 + q.1);
        match p.0 {
            BatchStateV::Open(t) => {
                if t.header == msg_columns(last) {
                    assert(stepped.1 =~= Seq::<ResponseV>::empty());
                    assert(r.1 =~= p.1);
                } else {
                    assert(r.1 =~= p.1.push(ResponseV::Table(t)));
                }
            },
            BatchStateV::NoTable => {
                assert(false);
            },
        }
    }
}

/// With no command completion, the number of emitted items equals the number
/// of maximal runs of constant header, and every item is a table.
pub proof fn lemma_rows_header_runs(msgs: Seq<QueryMessageV>)
    requires
        all_row_messages(msgs),
    ensures
        batches_spec(msgs) is Some,
        batches_spec(msgs).unwrap().len() == header_runs(msgs),
        forall|j: int|
            0 <= j < batches_spec(msgs).unwrap().len() ==> #[trigger] batches_spec(
                msgs,
            ).unwrap()[j] is Table,
{
    if msgs.len() == 0 {
        assert(batches_spec(msgs).unwrap() =~= Seq::<ResponseV>::empty());
    } else {
        lemma_run_all_rows(msgs);
        let r = run_spec(BatchStateV::NoTable, msgs).unwrap();
        match r.0 {
            BatchStateV::Open(t) => {
                assert(batches_spec(msgs).unwrap() =~= r.1.push(ResponseV::Table(t)));
            },
            BatchStateV::NoTable => {
                assert(false);
            },
        }
    }
}

proof fn lemma_run_uniform(msgs: Seq<QueryMessageV>)
    requires
        all_row_messages(msgs),
        msgs.len() > 0,
        forall|i: int| 0 <= i < msgs.len() ==> msg_columns(#[trigger] msgs[i]) == msg_columns(
            msgs[0],
        ),
    ensures
        run_spec(BatchStateV::NoTable, msgs) == Some(
            (
                BatchStateV::Open(
                    TableV {
                        header: msg_columns(msgs[0]),
                        rows: Seq::new(msgs.len(), |i: int| msg_values(msgs[i])),
                    },
                ),
                Seq::<ResponseV>::empty(),
            ),
        ),
    decreases msgs.len(),
{
    let goal_rows = Seq::new(msgs.len(), |i: int| msg_values(msgs[i]));
    let goal = TableV { header: msg_columns(msgs[0]), rows: goal_rows };
    if msgs.len() == 1 {
        assert(msgs[0] is Row);
        let stepped = step_spec(BatchStateV::NoTable, msgs[0]).unwrap();
        assert(msgs.drop_first().len() == 0);
        assert(run_spec(stepped.0, msgs.drop_first()) == Some(
            (stepped.0, Seq::<ResponseV>::empty()),
        ));
        assert(run_spec(BatchStateV::NoTable, msgs) == Some(
            (stepped.0, stepped.1 + Seq::<ResponseV>::empty()),
        ));
        assert(stepped.1 + Seq::<ResponseV>::empty() =~= Seq::<ResponseV>::empty());
        assert(seq![msg_values(msgs[0])] =~= goal_rows);
        assert(stepped.0 == BatchStateV::Open(goal));
    } else {
        let pre = msgs.drop_last();
        let last = msgs.last();
        assert(msgs[msgs.len() - 1] == last);
        assert(pre[0] == msgs[0]);
        lemma_run_uniform(pre);
        assert(msgs =~= pre + seq![last]);
        lemma_run_append(BatchStateV::NoTable, pre, seq![last]);
        assert(seq![last].drop_first() =~= Seq::<QueryMessageV>::empty());
        let p = run_spec(BatchStateV::NoTable, pre).unwrap();
        let prev = TableV {
            header: msg_columns(pre[0]),
            rows: Seq::new(pre.len(), |i: int| msg_values(pre[i])),
        };
        assert(p.0 == BatchStateV::Open(prev));
        assert(prev.header == msg_columns(last));
        let stepped = step_spec(p.0, last).unwrap();
        assert(run_spec(stepped.0, seq![last].drop_first()) == Some(
            (stepped.0, Seq::<ResponseV>::empty()),
        ));
        assert forall|i: int| 0 <= i < msgs.len() implies prev.rows.push(msg_values(last))[i]
            == goal_rows[i] by {
            if i < pre.len() {
                assert(pre[i] == msgs[i]);
            } else {
                assert(msgs[i] == last);
            }
        }
        assert(prev.rows.push(msg_values(last)) =~= goal_rows);
        assert(stepped.0 == BatchStateV::Open(goal));
        assert(Seq::<ResponseV>::empty() + (Seq::<ResponseV>::empty()
            + Seq::<ResponseV>::empty()) =~= Seq::<ResponseV>::empty());
        assert(run_spec(BatchStateV::NoTable, msgs) == Some(
            (stepped.0, p.1 + (stepped.1 + Seq::<ResponseV>::empty())),
        ));
    }
}

/// With no command completion and one shared header, the whole sequence
/// batches to exactly one table that contains every row, in order; an empty
/// sequence batches to nothing.
pub proof fn lemma_rows_single_header(msgs: Seq<QueryMessageV>)
    requires
        all_row_messages(msgs),
        forall|i: int| 0 <= i < msgs.len() ==> msg_columns(#[trigger] msgs[i]) == msg_columns(
            msgs[0],
        ),
    ensures
        msgs.len() == 0 ==> batches_spec(msgs) == Some(Seq::<ResponseV>::empty()),
        msgs.len() > 0 ==> batches_spec(msgs) == Some(
            seq![
                ResponseV::Table(
                    TableV {
                        header: msg_columns(msgs[0]),
                        rows: Seq::new(msgs.len(), |i: int| msg_values(msgs[i])),
                    },
                ),
            ],
        ),
{
    if msgs.len() == 0 {
        assert(batches_spec(msgs).unwrap() =~= Seq::<ResponseV>::empty());
    } else {
        lemma_run_uniform(msgs);
        let t = TableV {
            header: msg_columns(msgs[0]),
            rows: Seq::new(msgs.len(), |i: int| msg_values(msgs[i])),
        };
        assert(batches_spec(msgs).unwrap() =~= seq![ResponseV::Table(t)]);
    }
}

/// A row message whose value count matches its column count.
pub open spec fn row_msg_wf(m: QueryMessageV) -> bool {
    match m {
        QueryMessageV::Row(r) => r.values.len() == r.columns.len(),
        _ => true,
    }
}

/// Within one table, every row's column count equals the header's: no ragged
/// tables.
pub open spec fn table_wf(t: TableV) -> bool {
    forall|i: int| 0 <= i < t.rows.len() ==> (#[trigger] t.rows[i]).len() == t.header.len()
}

/// A response item whose table, if it is one, is well-formed.
pub open spec fn response_wf(r: ResponseV) -> bool {
    match r {
        ResponseV::Table(t) => table_wf(t),
        ResponseV::CommandComplete(_) => true,
    }
}

/// A batcher state whose open table, if any, is well-formed.
pub open spec fn state_wf(st: BatchStateV) -> bool {
    match st {
        BatchStateV::NoTable => true,
        BatchStateV::Open(t) => table_wf(t) && t.rows.len() > 0,
    }
}

proof fn lemma_run_wf(st: BatchStateV, msgs: Seq<QueryMessageV>)
    requires
        state_wf(st),
        forall|i: int| 0 <= i < msgs.len() ==> row_msg_wf(#[trigger] msgs[i]),
    ensures
        run_spec(st, msgs) is Some ==> ({
            let r = run_spec(st, msgs).unwrap();
            &&& state_wf(r.0)
            &&& forall|j: int| 0 <= j < r.1.len() ==> response_wf(#[trigger] r.1[j])
        }),
    decreases msgs.len(),
{
    if msgs.len() == 0 {
    } else {
        match step_spec(st, msgs[0]) {
            None => {},
            Some(p) => {
                assert(state_wf(p.0) && forall|j: int|
                    0 <= j < p.1.len() ==> response_wf(#[trigger] p.1[j]));
                assert(forall|i: int|
                    0 <= i < msgs.drop_first().len() ==> row_msg_wf(
                        #[trigger] msgs.drop_first()[i],
                    ));
                lemma_run_wf(p.0, msgs.drop_first());
            },
        }
    }
}

/// Every table the batcher emits is self-consistent: given row messages whose
/// value count matches their column count, each output table's rows all have
/// exactly the header's column count.
pub proof fn lemma_batches_well_formed(msgs: Seq<QueryMessageV>)
    requires
        forall|i: int| 0 <= i < msgs.len() ==> row_msg_wf(#[trigger] msgs[i]),
        batches_spec(msgs) is Some,
    ensures
        forall|j: int|
            0 <= j < batches_spec(msgs).unwrap().len() ==> response_wf(
                #[trigger] batches_spec(msgs).unwrap()[j],
            ),
{
    lemma_run_wf(BatchStateV::NoTable, msgs);
}

/// The batcher fails exactly on the sequences that hold a message kind a
/// simple query must not produce.
pub proof fn lemma_protocol_violation(msgs: Seq<QueryMessageV>)
    ensures
        batches_spec(msgs) is None <==> exists|i: int|
            0 <= i < msgs.len() && #[trigger] msgs[i] is Unsupported,
{
    lemma_run_tail_violation(BatchStateV::NoTable, msgs);
}

proof fn lemma_run_tail_violation(st: BatchStateV, msgs: Seq<QueryMessageV>)
    ensures
        run_spec(st, msgs) is None <==> exists|i: int|
            0 <= i < msgs.len() && #[trigger] msgs[i] is Unsupported,
    decreases msgs.len(),
{
    if msgs.len() == 0 {
    } else {
        match step_spec(st, msgs[0]) {
            None => {
                assert(msgs[0] is Unsupported);
            },
            Some(p) => {
                lemma_run_tail_violation(p.0, msgs.drop_first());
                if run_spec(p.0, msgs.drop_first()) is None {
                    let i = choose|i: int|
                        0 <= i < msgs.drop_first().len() && #[trigger] msgs.drop_first()[
                            i
                        ] is Unsupported;
                    assert(msgs[i + 1] is Unsupported);
                } else {
                    assert forall|i: int|
                        0 <= i < msgs.len() implies !(#[trigger] msgs[i] is Unsupported) by {
                        if i > 0 {
                            assert(msgs.drop_first()[i - 1] == msgs[i]);
                        }
                    }
                }
            },
        }
    }
}

// ---------------------------------------------------------------------------
// Executable batching
// ---------------------------------------------------------------------------

/// The ghost state that an `Option<Table>` open-table variable stands for.
pub open spec fn state_view(st: &Option<Table>) -> BatchStateV {
    match st {
        Option::None => BatchStateV::NoTable,
        Option::Some(t) => BatchStateV::Open(t.deep_view()),
    }
}

/// Push one element, tracked on the deep view.
pub(crate) fn push_deep<T: DeepView>(v: &mut Vec<T>, x: T)
    ensures
        final(v).deep_view() == old(v).deep_view().push(x.deep_view()),
{
    v.push(x);
    proof {
        assert(v.deep_view() =~= old(v).deep_view().push(x.deep_view()));
    }
}

/// Clone a vector of strings, preserving its mathematical contents.
fn clone_string_vec(v: &Vec<String>) -> (r: Vec<String>)
    ensures
        r.deep_view() == v.deep_view(),
{
    let mut r: Vec<String> = Vec::new();
    proof {
        assert(r.deep_view() =~= v.deep_view().take(0));
    }
    let mut i: usize = 0;
    while i < v.len()
        invariant
            i <= v.len(),
            r.deep_view() == v.deep_view().take(i as int),
        decreases v.len() - i,
    {
        push_deep(&mut r, v[i].clone());
        proof {
            assert(v.deep_view()[i as int] == v@[i as int].deep_view());
            assert(r.deep_view() =~= v.deep_view().take(i + 1));
        }
        i += 1;
    }
    proof {
        assert(v.deep_view().take(v@.len() as int) =~= v.deep_view());
    }
    r
}

/// Clone a vector of optional strings, preserving its mathematical contents.
fn clone_opt_string_vec(v: &Vec<Option<String>>) -> (r: Vec<Option<String>>)
    ensures
        r.deep_view() == v.deep_view(),
{
    let mut r: Vec<Option<String>> = Vec::new();
    proof {
        assert(r.deep_view() =~= v.deep_view().take(0));
    }
    let mut i: usize = 0;
    while i < v.len()
        invariant
            i <= v.len(),
            r.deep_view() == v.deep_view().take(i as int),
        decreases v.len() - i,
    {
        match &v[i] {
            Option::Some(s) => push_deep(&mut r, Some(s.clone())),
            Option::None => push_deep(&mut r, None),
        }
        proof {
            assert(v.deep_view()[i as int] == v@[i as int].deep_view());
            assert(r.deep_view() =~= v.deep_view().take(i + 1));
        }
        i += 1;
    }
    proof {
        assert(v.deep_view().take(v@.len() as int) =~= v.deep_view());
    }
    r
}

/// Element-wise, order-sensitive comparison of two column-name lists.
fn string_vecs_equal(a: &Vec<String>, b: &Vec<String>) -> (r: bool)
    ensures
        r == (a.deep_view() == b.deep_view()),
{
    if a.len() != b.len() {
        proof {
            assert(a.deep_view().len() != b.deep_view().len());
        }
        return false;
    }
    let mut i: usize = 0;
    while i < a.len()
        invariant
            i <= a.len(),
            a@.len() == b@.len(),
            forall|j: int| 0 <= j < i ==> a.deep_view()[j] == b.deep_view()[j],
        decreases a.len() - i,
    {
        if !a[i].eq(&b[i]) {
            proof {
                assert(a.deep_view()[i as int] != b.deep_view()[i as int]);
            }
            return false;
        }
        i += 1;
    }
    proof {
        assert(a.deep_view() =~= b.deep_view());
    }
    true
}

impl PgResponse {
    /// Convert the flat message sequence of one executed simple query into
    /// the ordered sequence of result items, coalescing consecutive rows of
    /// identical schema into one table. A message kind that a simple query
    /// must not produce fails the whole batch with a protocol error.
    pub fn process_batches(batches: Vec<QueryMessage>) -> (r: Result<Vec<PgResponse>, CoreError>)
        ensures
            match r {
                Ok(responses) => batches_spec(batches.deep_view()) == Some(responses.deep_view()),
                Err(e) => batches_spec(batches.deep_view()) is None && e == CoreError::Protocol,
            },
    {
        let ghost msgs = batches.deep_view();
        let mut responses: Vec<PgResponse> = Vec::new();
        let mut table: Option<Table> = None;
        proof {
            assert(responses.deep_view() =~= Seq::<ResponseV>::empty());
            assert(msgs.take(0) =~= Seq::<QueryMessageV>::empty());
        }
        let mut i: usize = 0;
        while i < batches.len()
            invariant
                i <= batches.len(),
                msgs == batches.deep_view(),
                msgs.len() == batches@.len(),
                run_spec(BatchStateV::NoTable, msgs.take(i as int)) == Some(
                    (state_view(&table), responses.deep_view()),
                ),
            decreases batches.len() - i,
        {
            let ghost pre_state = state_view(&table);
            let ghost pre_resp = responses.deep_view();
            let ghost m = msgs[i as int];
            proof {
                assert(msgs.take(i + 1) =~= msgs.take(i as int) + seq![m]);
                lemma_run_append(BatchStateV::NoTable, msgs.take(i as int), seq![m]);
                assert(seq![m].drop_first() =~= Seq::<QueryMessageV>::empty());
                assert(m == batches@[i as int].deep_view());
            }
            match &batches[i] {
                QueryMessage::Row(row) => {
                    let cur = table;
                    match cur {
                        Option::None => {
                            let cols = clone_string_vec(&row.columns);
                            let vals = clone_opt_string_vec(&row.values);
                            table = Some(Table::new(Header::new(cols), vec![Row::new(vals)]));
                            proof {
                                let stepped = step_spec(pre_state, m).unwrap();
                                assert(table.unwrap().deep_view().rows =~= seq![
                                    row.deep_view().values,
                                ]);
                                assert(state_view(&table) == stepped.0);
                                assert(pre_resp + (stepped.1 + Seq::<ResponseV>::empty())
                                    =~= pre_resp);
                            }
                        },
                        Option::Some(mut t) => {
                            if string_vecs_equal(&t.header.columns, &row.columns) {
                                let ghost pre_t = t.deep_view();
                                let vals = clone_opt_string_vec(&row.values);
                                push_deep(&mut t.rows, Row::new(vals));
                                table = Some(t);
                                proof {
                                    let stepped = step_spec(pre_state, m).unwrap();
                                    assert(state_view(&table) == stepped.0);
                                    assert(pre_resp + (stepped.1 + Seq::<ResponseV>::empty())
                                        =~= pre_resp);
                                }
                            } else {
                                let cols = clone_string_vec(&row.columns);
                                let vals = clone_opt_string_vec(&row.values);
                                let ghost closed = t.deep_view();
                                push_deep(&mut responses, PgResponse::Table(t));
                                table = Some(Table::new(Header::new(cols), vec![Row::new(vals)]));
                                proof {
                                    let stepped = step_spec(pre_state, m).unwrap();
                                    assert(table.unwrap().deep_view().rows =~= seq![
                                        row.deep_view().values,
                                    ]);
                                    assert(state_view(&table) == stepped.0);
                                    assert(pre_resp + (stepped.1 + Seq::<ResponseV>::empty())
                                        =~= pre_resp.push(ResponseV::Table(closed)));
                                }
                            }
                        },
                    }
                },
                QueryMessage::CommandComplete(n) => {
                    let cur = table;
                    table = None;
                    match cur {
                        Option::Some(t) => {
                            let ghost closed = t.deep_view();
                            push_deep(&mut responses, PgResponse::Table(t));
                            push_deep(&mut responses, PgResponse::CommandComplete(*n));
                            proof {
                                let stepped = step_spec(pre_state, m).unwrap();
                                assert(state_view(&table) == stepped.0);
                                assert(pre_resp + (stepped.1 + Seq::<ResponseV>::empty())
                                    =~= pre_resp.push(ResponseV::Table(closed)).push(
                                    ResponseV::CommandComplete(*n),
                                ));
                            }
                        },
                        Option::None => {
                            push_deep(&mut responses, PgResponse::CommandComplete(*n));
                            proof {
                                let stepped = step_spec(pre_state, m).unwrap();
                                assert(state_view(&table) == stepped.0);
                                assert(pre_resp + (stepped.1 + Seq::<ResponseV>::empty())
                                    =~= pre_resp.push(ResponseV::CommandComplete(*n)));
                            }
                        },
                    }
                },
                QueryMessage::Unsupported => {
                    proof {
                        assert(msgs =~= msgs.take(i as int) + msgs.skip(i as int));
                        lemma_run_append(
                            BatchStateV::NoTable,
                            msgs.take(i as int),
                            msgs.skip(i as int),
                        );
                        assert(msgs.skip(i as int)[0] == m);
                    }
                    return Err(CoreError::Protocol);
                },
            }
            proof {
                let stepped = step_spec(pre_state, m).unwrap();
                assert(seq![m][0] == m);
                assert(run_spec(stepped.0, seq![m].drop_first()) == Some(
                    (stepped.0, Seq::<ResponseV>::empty()),
                ));
                assert(run_spec(pre_state, seq![m]) == Some(
                    (stepped.0, stepped.1 + Seq::<ResponseV>::empty()),
                ));
            }
            i += 1;
        }
        proof {
            assert(msgs.take(batches@.len() as int) =~= msgs);
        }
        let ghost run_out = responses.deep_view();
        let fin = table;
        match fin {
            Option::Some(t) => {
                let ghost closed = t.deep_view();
                push_deep(&mut responses, PgResponse::Table(t));
                proof {
                    assert(responses.deep_view() =~= run_out + flush_spec(BatchStateV::Open(
                        closed,
                    )));
                }
            },
            Option::None => {
                proof {
                    assert(responses.deep_view() =~= run_out + flush_spec(BatchStateV::NoTable));
                }
            },
        }
        Ok(responses)
    }
}

} // verus!
