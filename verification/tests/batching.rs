use slonik_core::error::CoreError;
use slonik_core::pg_response::{Header, PgResponse, QueryMessage, Row, SimpleRow, Table};

fn row_msg(columns: &[&str], values: &[Option<&str>]) -> QueryMessage {
    QueryMessage::Row(SimpleRow {
        columns: columns.iter().map(|c| c.to_string()).collect(),
        values: values.iter().map(|v| v.map(|s| s.to_string())).collect(),
    })
}

fn table(columns: &[&str], rows: &[&[Option<&str>]]) -> PgResponse {
    PgResponse::Table(Table {
        header: Header { columns: columns.iter().map(|c| c.to_string()).collect() },
        rows: rows
            .iter()
            .map(|r| Row { values: r.iter().map(|v| v.map(|s| s.to_string())).collect() })
            .collect(),
    })
}

#[test]
fn prettytable() {
    let mut header = Header::default();
    header.push("col1".to_string());
    header.push("col2".to_string());
    header.push("col3".to_string());

    let mut row1 = Row::default();
    row1.push(Some("value1_1".to_string()));
    row1.push(Some("value2_1".to_string()));
    row1.push(Some("value3_1".to_string()));

    let mut row2 = Row::default();
    row2.push(Some("value1_2".to_string()));
    row2.push(Some("value2_2".to_string()));
    row2.push(Some("value3_2".to_string()));

    let mut row3 = Row::default();
    row3.push(Some("value1_3".to_string()));
    row3.push(Some("value2_3".to_string()));
    row3.push(Some("value3_3".to_string()));

    let table = Table { header, rows: vec![row1, row2, row3] };

    assert_eq!(table.header.columns, vec!["col1", "col2", "col3"]);
    assert_eq!(table.rows.len(), 3);
    assert_eq!(table.rows[0].values[0].as_deref(), Some("value1_1"));
    assert_eq!(table.rows[2].values[2].as_deref(), Some("value3_3"));
}

#[test]
fn two_statements_two_tables() {
    let h1 = ["a", "b"];
    let h2 = ["c"];
    let messages = vec![
        row_msg(&h1, &[Some("1"), Some("2")]),
        row_msg(&h1, &[Some("3"), None]),
        QueryMessage::CommandComplete(2),
        row_msg(&h2, &[Some("4")]),
        QueryMessage::CommandComplete(1),
    ];

    let out = PgResponse::process_batches(messages).unwrap();

    assert_eq!(
        out,
        vec![
            table(&h1, &[&[Some("1"), Some("2")], &[Some("3"), None]]),
            PgResponse::CommandComplete(2),
            table(&h2, &[&[Some("4")]]),
            PgResponse::CommandComplete(1),
        ]
    );
}

#[test]
fn complete_without_rows() {
    let out = PgResponse::process_batches(vec![QueryMessage::CommandComplete(0)]).unwrap();
    assert_eq!(out, vec![PgResponse::CommandComplete(0)]);
}

#[test]
fn schema_change_without_complete() {
    let messages = vec![row_msg(&["a"], &[Some("1")]), row_msg(&["b"], &[Some("2")])];

    let out = PgResponse::process_batches(messages).unwrap();

    assert_eq!(
        out,
        vec![table(&["a"], &[&[Some("1")]]), table(&["b"], &[&[Some("2")]])]
    );
}

#[test]
fn uniform_rows_single_table() {
    let h = ["x", "y"];
    let messages = vec![
        row_msg(&h, &[Some("1"), Some("2")]),
        row_msg(&h, &[Some("3"), Some("4")]),
        row_msg(&h, &[Some("5"), None]),
    ];

    let out = PgResponse::process_batches(messages).unwrap();

    assert_eq!(
        out,
        vec![table(
            &h,
            &[
                &[Some("1"), Some("2")],
                &[Some("3"), Some("4")],
                &[Some("5"), None],
            ]
        )]
    );
}

#[test]
fn varied_headers_one_table_per_run() {
    let messages = vec![
        row_msg(&["a"], &[Some("1")]),
        row_msg(&["a"], &[Some("2")]),
        row_msg(&["b"], &[Some("3")]),
        row_msg(&["a"], &[Some("4")]),
        row_msg(&["a"], &[Some("5")]),
    ];

    let out = PgResponse::process_batches(messages).unwrap();

    // Three maximal runs of constant header: a,a | b | a,a.
    assert_eq!(out.len(), 3);
    assert_eq!(
        out,
        vec![
            table(&["a"], &[&[Some("1")], &[Some("2")]]),
            table(&["b"], &[&[Some("3")]]),
            table(&["a"], &[&[Some("4")], &[Some("5")]]),
        ]
    );
}

#[test]
fn header_order_is_significant() {
    let messages = vec![
        row_msg(&["a", "b"], &[Some("1"), Some("2")]),
        row_msg(&["b", "a"], &[Some("3"), Some("4")]),
    ];

    let out = PgResponse::process_batches(messages).unwrap();

    assert_eq!(out.len(), 2);
}

#[test]
fn unsupported_message_is_protocol_error() {
    let messages = vec![row_msg(&["a"], &[Some("1")]), QueryMessage::Unsupported];

    let out = PgResponse::process_batches(messages);

    assert_eq!(out, Err(CoreError::Protocol));
}

#[test]
fn empty_batch_yields_empty_response() {
    let out = PgResponse::process_batches(Vec::new()).unwrap();
    assert_eq!(out, Vec::new());
}

#[test]
fn header_and_row_builders() {
    let header = Header::new(vec!["id".to_string()]);
    assert_eq!(header.columns, vec!["id"]);

    let mut header2 = Header::default();
    header2.set_columns(vec!["k".to_string(), "v".to_string()]);
    assert_eq!(header2.columns.len(), 2);

    let row = Row::new(vec![Some("7".to_string()), None]);
    assert_eq!(row.values, vec![Some("7".to_string()), None]);

    let t = Table::new(header, vec![row]);
    assert_eq!(t.rows.len(), 1);
    let copy = t.clone();
    assert_eq!(copy, t);
}
