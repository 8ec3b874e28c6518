use std::sync::Arc;

use arrow_array::types::Int32Type;
use arrow_array::{
    new_null_array, Array, ArrayRef, BooleanArray, DictionaryArray, Float64Array, Int64Array, RecordBatch, StringArray,
    UnionArray,
};
use arrow_ipc::writer::StreamWriter;
use arrow_schema::{DataType, Field, Fields, Schema, UnionFields, UnionMode};
use flowsurface::connector::client::{
    collect_trades, parse_arrow_trades, range_query, raw_qty_unit, validate_arrow_schema,
    ArrowBatch, ArrowColumn, ArrowField, ArrowParseError, ColumnType, RawQtyUnit, RequiredColumn,
    ServerClient, TradeColumns,
};
use flowsurface::connector::network::{Network, TradeFetchMode};
use flowsurface::units::MarketKind;

fn schema() -> Schema {
    Schema::new(vec![
        Field::new("ts", DataType::Int64, true),
        Field::new("price", DataType::Float64, true),
        Field::new("qty", DataType::Float64, true),
        Field::new("is_sell", DataType::Boolean, true),
    ])
}

fn batch(
    ts: Vec<Option<i64>>,
    price: Vec<Option<f64>>,
    qty: Vec<Option<f64>>,
    is_sell: Vec<Option<bool>>,
) -> RecordBatch {
    let columns: Vec<ArrayRef> = vec![
        Arc::new(Int64Array::from(ts)),
        Arc::new(Float64Array::from(price)),
        Arc::new(Float64Array::from(qty)),
        Arc::new(BooleanArray::from(is_sell)),
    ];
    RecordBatch::try_new(Arc::new(schema()), columns).unwrap()
}

fn bytes(schema: &Schema, batches: &[RecordBatch]) -> Vec<u8> {
    let mut out: Vec<u8> = Vec::new();
    let mut writer = StreamWriter::try_new(&mut out, schema).unwrap();
    for b in batches {
        writer.write(b).unwrap();
    }
    writer.finish().unwrap();
    drop(writer);
    out
}

#[test]
fn trades_are_read_from_a_stream() {
    let b = batch(
        vec![Some(1_000), Some(2_000)],
        vec![Some(10.5), Some(11.0)],
        vec![Some(0.25), Some(3.0)],
        vec![Some(true), Some(false)],
    );
    let parsed = parse_arrow_trades(bytes(&schema(), &[b])).unwrap();
    assert_eq!(parsed.raw_row_count, 2);
    assert_eq!(parsed.last_ts, Some(2_000));
    assert_eq!(parsed.trades.len(), 2);
    assert_eq!(parsed.trades[0].time, 1_000);
    assert!(parsed.trades[0].is_sell);
    assert_eq!(f64::from_bits(parsed.trades[0].price_bits), 10.5);
    assert_eq!(f64::from_bits(parsed.trades[1].qty_bits), 3.0);
}

#[test]
fn rows_with_nulls_are_counted_but_give_no_trade() {
    let b = batch(
        vec![Some(1_000), None, Some(5_000)],
        vec![Some(10.5), Some(11.0), None],
        vec![Some(0.25), Some(3.0), Some(1.0)],
        vec![Some(true), Some(false), Some(false)],
    );
    let parsed = parse_arrow_trades(bytes(&schema(), &[b])).unwrap();
    assert_eq!(parsed.raw_row_count, 3);
    assert_eq!(parsed.trades.len(), 1);
    assert_eq!(parsed.last_ts, Some(5_000));
}

#[test]
fn several_batches_are_read_in_order() {
    let a = batch(vec![Some(9_000)], vec![Some(1.0)], vec![Some(1.0)], vec![Some(true)]);
    let b = batch(vec![Some(4_000)], vec![Some(2.0)], vec![Some(2.0)], vec![Some(false)]);
    let parsed = parse_arrow_trades(bytes(&schema(), &[a, b])).unwrap();
    let times: Vec<u64> = parsed.trades.iter().map(|t| t.time).collect();
    assert_eq!(times, vec![9_000, 4_000]);
    assert_eq!(parsed.last_ts, Some(9_000));
    let none = parse_arrow_trades(bytes(&schema(), &[])).unwrap();
    assert_eq!(none.raw_row_count, 0);
    assert_eq!(none.last_ts, None);
}

#[test]
fn what_is_no_stream_is_an_error() {
    match parse_arrow_trades(vec![1, 2, 3]) {
        Err(ArrowParseError::Open(e)) => assert!(!e.is_empty()),
        other => panic!("{:?}", other.is_ok()),
    }
}

#[test]
fn a_stream_without_a_column_is_an_error() {
    let schema = Schema::new(vec![Field::new("ts", DataType::Int64, true)]);
    let columns: Vec<ArrayRef> = vec![Arc::new(Int64Array::from(vec![1]))];
    let b = RecordBatch::try_new(Arc::new(schema.clone()), columns).unwrap();
    let r = parse_arrow_trades(bytes(&schema, &[b]));
    assert!(matches!(r, Err(ArrowParseError::MissingColumn(RequiredColumn::Price))));
}

#[test]
fn a_column_of_another_type_is_an_error() {
    let schema = Schema::new(vec![
        Field::new("ts", DataType::Utf8, true),
        Field::new("price", DataType::Float64, true),
        Field::new("qty", DataType::Float64, true),
        Field::new("is_sell", DataType::Boolean, true),
    ]);
    let columns: Vec<ArrayRef> = vec![
        Arc::new(StringArray::from(vec!["a"])),
        Arc::new(Float64Array::from(vec![1.0])),
        Arc::new(Float64Array::from(vec![1.0])),
        Arc::new(BooleanArray::from(vec![true])),
    ];
    let b = RecordBatch::try_new(Arc::new(schema.clone()), columns).unwrap();
    match parse_arrow_trades(bytes(&schema, &[b])) {
        Err(e) => {
            assert_eq!(e.message(), "Arrow stream schema column 'ts': expected Int64, got Utf8");
            assert!(matches!(e, ArrowParseError::WrongType(RequiredColumn::Ts, _)));
        }
        Ok(_) => panic!("a text column is no time"),
    }
}

fn one_trade() -> RecordBatch {
    batch(vec![Some(7)], vec![Some(1.5)], vec![Some(2.5)], vec![Some(true)])
}

/// The metadata of the messages of a stream: where each starts and ends.
fn messages(data: &[u8]) -> Vec<(usize, usize)> {
    let mut out = Vec::new();
    let mut at = 0;
    loop {
        let size = u32::from_le_bytes([data[at + 4], data[at + 5], data[at + 6], data[at + 7]]);
        if size == 0 {
            return out;
        }
        let meta = at + 8;
        let body = meta + size as usize;
        out.push((meta, body));
        let message = arrow_ipc::root_as_message(&data[meta..body]).unwrap();
        at = body + message.bodyLength() as usize;
    }
}

/// The stream with one buffer of its first batch moved.
fn with_moved_buffer(data: &[u8], which: usize, offset: i64, length: i64) -> Vec<u8> {
    with_moved_buffer_of(data, 1, which, offset, length)
}

fn with_moved_buffer_of(
    data: &[u8],
    message: usize,
    which: usize,
    offset: i64,
    length: i64,
) -> Vec<u8> {
    let (meta, body) = messages(data)[message];
    let message = arrow_ipc::root_as_message(&data[meta..body]).unwrap();
    let buffers = message.header_as_record_batch().unwrap().buffers().unwrap();
    let old = buffers.get(which);
    let mut wanted = old.offset().to_le_bytes().to_vec();
    wanted.extend_from_slice(&old.length().to_le_bytes());
    let places = (meta..body - 15).filter(|i| data[*i..*i + 16] == wanted[..]);
    let moved = places.filter_map(|at| {
        let mut out = data.to_vec();
        out[at..at + 8].copy_from_slice(&offset.to_le_bytes());
        out[at + 8..at + 16].copy_from_slice(&length.to_le_bytes());
        let message = arrow_ipc::root_as_message(&out[meta..body]).ok()?;
        let now = *message.header_as_record_batch()?.buffers()?.get(which);
        ((now.offset(), now.length()) == (offset, length)).then_some(out)
    });
    moved.last().unwrap()
}

#[test]
fn a_buffer_outside_of_its_message_is_an_error() {
    let data = bytes(&schema(), &[one_trade()]);
    let (meta, body) = messages(&data)[1];
    let message = arrow_ipc::root_as_message(&data[meta..body]).unwrap();
    let end = message.bodyLength();
    for (offset, length) in [(-8, 8), (0, -8), (0, end + 1), (end, 8), (i64::MAX, i64::MAX)] {
        let moved = with_moved_buffer(&data, 1, offset, length);
        assert!(matches!(parse_arrow_trades(moved), Err(ArrowParseError::Batch(_))));
    }
    let short = with_moved_buffer(&data, 1, 0, 4);
    assert!(matches!(parse_arrow_trades(short), Err(ArrowParseError::Batch(_))));
}

/// A stream with a column in a dictionary, and where the bytes of its messages stand.
fn with_dictionary() -> Vec<u8> {
    let words: DictionaryArray<Int32Type> = vec!["a"].into_iter().collect();
    let mut fields: Vec<Field> = schema().fields().iter().map(|f| f.as_ref().clone()).collect();
    fields.insert(0, Field::new("word", words.data_type().clone(), true));
    let schema = Schema::new(fields);
    let mut columns: Vec<ArrayRef> = one_trade().columns().to_vec();
    columns.insert(0, Arc::new(words));
    bytes(&schema, &[RecordBatch::try_new(Arc::new(schema.clone()), columns).unwrap()])
}

#[test]
fn a_dictionary_needs_a_column() {
    let data = with_dictionary();
    assert_eq!(parse_arrow_trades(data.clone()).unwrap().trades.len(), 1);
    // The schema and the batch of a stream without such a column, with the dictionary between.
    let plain = bytes(&schema(), &[one_trade()]);
    let (_, dictionary_end) = messages(&data)[2];
    let from = messages(&data)[1].0 - 8;
    let batch_from = messages(&plain)[1].0 - 8;
    let to = messages(&data)[2].0 - 8;
    assert!(from < to && to < dictionary_end);
    let mut mixed = plain[..batch_from].to_vec();
    mixed.extend_from_slice(&data[from..to]);
    mixed.extend_from_slice(&plain[batch_from..]);
    assert!(matches!(parse_arrow_trades(mixed), Err(ArrowParseError::Batch(_))));
}

#[test]
fn a_buffer_that_no_column_uses_does_not_matter() {
    // The batch has a column more than the schema says, and that one's buffers lie nowhere.
    let mut fields: Vec<Field> = schema().fields().iter().map(|f| f.as_ref().clone()).collect();
    fields.push(Field::new("more", DataType::Int64, true));
    let wide = Schema::new(fields);
    let mut columns: Vec<ArrayRef> = one_trade().columns().to_vec();
    columns.push(Arc::new(Int64Array::from(vec![9])));
    let b = RecordBatch::try_new(Arc::new(wide.clone()), columns).unwrap();
    let data = bytes(&wide, &[b]);
    let broken = with_moved_buffer(&data, 9, 1_000_000, 8);
    assert!(matches!(parse_arrow_trades(broken.clone()), Err(ArrowParseError::Batch(_))));
    let plain = bytes(&schema(), &[]);
    let mut narrow = plain[..plain.len() - 8].to_vec();
    narrow.extend_from_slice(&broken[messages(&broken)[1].0 - 8..]);
    let parsed = parse_arrow_trades(narrow).unwrap();
    assert_eq!((parsed.raw_row_count, parsed.trades.len()), (1, 1));
    // Too few buffers are an error.
    let plain = bytes(&wide, &[]);
    let mut short = plain[..plain.len() - 8].to_vec();
    let thin = bytes(&schema(), &[one_trade()]);
    short.extend_from_slice(&thin[messages(&thin)[1].0 - 8..]);
    assert!(matches!(parse_arrow_trades(short), Err(ArrowParseError::Batch(_))));
}

#[test]
fn the_buffers_of_columns_of_all_types_are_counted() {
    let item = |t: DataType| Arc::new(Field::new("item", t, true));
    let entries = DataType::Struct(Fields::from(vec![
        Field::new("keys", DataType::Utf8, false),
        Field::new("values", DataType::Int64, true),
    ]));
    let members = |_: ()| -> UnionFields {
        [(0, item(DataType::Int64)), (1, item(DataType::Utf8View))].into_iter().collect()
    };
    let types = vec![
        DataType::Null,
        DataType::Utf8,
        DataType::LargeBinary,
        DataType::Utf8View,
        DataType::BinaryView,
        DataType::FixedSizeBinary(3),
        DataType::Date32,
        DataType::Decimal128(10, 2),
        DataType::List(item(DataType::Utf8)),
        DataType::LargeList(item(DataType::Boolean)),
        DataType::ListView(item(DataType::Int64)),
        DataType::FixedSizeList(item(DataType::Utf8View), 2),
        DataType::Struct(Fields::from(vec![
            Field::new("a", DataType::Null, true),
            Field::new("b", DataType::List(item(DataType::Float64)), true),
        ])),
        DataType::Map(Arc::new(Field::new("entries", entries, false)), false),
        DataType::Dictionary(Box::new(DataType::Int32), Box::new(DataType::Utf8)),
        DataType::Union(members(()), UnionMode::Sparse),
        DataType::Union(members(()), UnionMode::Dense),
        DataType::RunEndEncoded(
            Arc::new(Field::new("run_ends", DataType::Int32, false)),
            Arc::new(Field::new("values", DataType::Utf8, true)),
        ),
    ];
    for only in 0..=types.len() {
        let chosen: Vec<&DataType> = if only < types.len() {
            vec![&types[only]]
        } else {
            types.iter().collect()
        };
        let mut fields: Vec<Field> = Vec::new();
        let mut columns: Vec<ArrayRef> = Vec::new();
        for (i, t) in chosen.iter().enumerate() {
            fields.push(Field::new(format!("x{}", i), (*t).clone(), true));
            columns.push(new_null_array(t, 1));
        }
        fields.extend(schema().fields().iter().map(|f| f.as_ref().clone()));
        columns.extend(one_trade().columns().to_vec());
        let wide = Schema::new(fields);
        let b = RecordBatch::try_new(Arc::new(wide.clone()), columns).unwrap();
        let data = bytes(&wide, &[b]);
        let parsed = parse_arrow_trades(data.clone());
        assert_eq!(parsed.map(|p| p.trades.len()).ok(), Some(1), "{:?}", chosen);
        // The last buffer is the one with the values of the last column.
        let at = messages(&data).len() - 1;
        let (meta, body) = messages(&data)[at];
        let message = arrow_ipc::root_as_message(&data[meta..body]).unwrap();
        let count = message.header_as_record_batch().unwrap().buffers().unwrap().len();
        let broken = with_moved_buffer_of(&data, at, count - 1, 1_000_000, 8);
        assert!(matches!(parse_arrow_trades(broken), Err(ArrowParseError::Batch(_))));
    }
}

#[test]
fn a_stream_that_breaks_off_is_an_error() {
    let data = bytes(&schema(), &[one_trade()]);
    let (meta, body) = messages(&data)[1];
    for len in [meta - 3, meta + 5, body + 1] {
        let r = parse_arrow_trades(data[..len].to_vec());
        assert!(matches!(r, Err(ArrowParseError::Batch(_))));
    }
    // A stream may also just end.
    let r = parse_arrow_trades(data[..meta - 8].to_vec()).unwrap();
    assert_eq!(r.raw_row_count, 0);
    let r = parse_arrow_trades(data[..meta - 6].to_vec()).unwrap();
    assert_eq!(r.raw_row_count, 0);
    // A schema where a batch is expected.
    let mut twice = data[..meta - 8].to_vec();
    twice.extend_from_slice(&data);
    assert!(matches!(parse_arrow_trades(twice), Err(ArrowParseError::Batch(_))));
    let r = parse_arrow_trades(data[meta - 8..].to_vec());
    assert!(matches!(r, Err(ArrowParseError::Open(_))));
}

#[test]
fn the_schema_is_looked_at_before_the_batches() {
    let schema = Schema::new(vec![Field::new("ts", DataType::Int64, true)]);
    let columns: Vec<ArrayRef> = vec![Arc::new(Int64Array::from(vec![1]))];
    let b = RecordBatch::try_new(Arc::new(schema.clone()), columns).unwrap();
    let broken = with_moved_buffer(&bytes(&schema, &[b]), 1, 0, 1_000_000);
    let r = parse_arrow_trades(broken);
    assert!(matches!(r, Err(ArrowParseError::MissingColumn(RequiredColumn::Price))));
}

#[test]
fn other_columns_do_not_matter() {
    let words: DictionaryArray<Int32Type> = vec!["a", "b"].into_iter().collect();
    let members: UnionFields = [(3, Arc::new(Field::new("n", DataType::Int64, true)))]
        .into_iter()
        .collect();
    let inner: Vec<ArrayRef> = vec![Arc::new(Int64Array::from(vec![8, 9]))];
    let union = UnionArray::try_new(members.clone(), vec![3i8, 3].into(), None, inner).unwrap();
    let schema = Schema::new(vec![
        Field::new("is_sell", DataType::Boolean, false),
        Field::new("word", words.data_type().clone(), true),
        Field::new("qty", DataType::Float64, true),
        Field::new("union", DataType::Union(members, UnionMode::Sparse), true),
        Field::new("ts", DataType::Int64, true),
        Field::new("note", DataType::Utf8, true),
        Field::new("price", DataType::Float64, true),
    ]);
    let columns: Vec<ArrayRef> = vec![
        Arc::new(BooleanArray::from(vec![true, false])),
        Arc::new(words),
        Arc::new(Float64Array::from(vec![0.5, 1.5])),
        Arc::new(union),
        Arc::new(Int64Array::from(vec![-5, 6])),
        Arc::new(StringArray::from(vec!["x", "y"])),
        Arc::new(Float64Array::from(vec![2.0, 3.0])),
    ];
    let b = RecordBatch::try_new(Arc::new(schema.clone()), columns).unwrap();
    let data = bytes(&schema, &[b]);
    assert_eq!(messages(&data).len(), 3);
    let parsed = parse_arrow_trades(data).unwrap();
    assert_eq!(parsed.raw_row_count, 2);
    assert_eq!(parsed.last_ts, Some(6));
    assert_eq!((parsed.trades[0].time, parsed.trades[0].is_sell), (0, true));
    assert_eq!(f64::from_bits(parsed.trades[1].price_bits), 3.0);
    assert_eq!(f64::from_bits(parsed.trades[1].qty_bits), 1.5);
}

#[test]
fn a_union_of_too_many_unnumbered_columns_is_an_error() {
    for (n, deep) in [(128, false), (129, false), (128, true), (129, true)] {
        let inner: Fields =
            (0..n).map(|i| Field::new(format!("c{}", i), DataType::Int64, true)).collect();
        let mut other = Field::new("other", DataType::Struct(inner), true);
        if deep {
            other = Field::new("outer", DataType::List(Arc::new(other)), true);
        }
        let schema = Schema::new(vec![
            Field::new("ts", DataType::Int64, true),
            Field::new("price", DataType::Float64, true),
            Field::new("qty", DataType::Float64, true),
            Field::new("is_sell", DataType::Boolean, true),
            other,
        ]);
        let data = bytes(&schema, &[]);
        let (meta, body) = messages(&data)[0];
        // The struct is turned into a union, which then numbers nothing.
        let changed = (meta..body).filter(|i| data[*i] == arrow_ipc::Type::Struct_.0).find_map(|i| {
            let mut out = data.clone();
            out[i] = arrow_ipc::Type::Union.0;
            let message = arrow_ipc::root_as_message(&out[meta..body]).ok()?;
            let mut field = message.header_as_schema()?.fields()?.get(4);
            if deep {
                field = field.children()?.get(0);
            }
            let is_union = field.type_type() == arrow_ipc::Type::Union;
            let children = field.children()?.len();
            (is_union && children == n).then_some(out)
        });
        let r = parse_arrow_trades(changed.unwrap());
        if n == 128 {
            assert_eq!(r.unwrap().raw_row_count, 0);
        } else {
            assert!(matches!(r, Err(ArrowParseError::Open(_))));
        }
    }
}

#[test]
fn columns_of_what_is_not_nested_mean_nothing() {
    // A struct that holds a union of too many unnumbered columns becomes a number: then it is not
    // looked into.
    let inner: Fields =
        (0..129).map(|i| Field::new(format!("c{}", i), DataType::Int64, true)).collect();
    let union = Field::new("union", DataType::Struct(inner), true);
    let outer = Field::new("outer", DataType::Struct(Fields::from(vec![union])), true);
    let mut fields: Vec<Field> = schema().fields().iter().map(|f| f.as_ref().clone()).collect();
    fields.push(outer);
    let data = bytes(&Schema::new(fields), &[]);
    let (meta, body) = messages(&data)[0];
    let places: Vec<usize> =
        (meta..body).filter(|i| data[*i] == arrow_ipc::Type::Struct_.0).collect();
    let typed = |data: &[u8], outer_is: arrow_ipc::Type, inner_is: arrow_ipc::Type| {
        let message = arrow_ipc::root_as_message(&data[meta..body]).ok()?;
        let outer = message.header_as_schema()?.fields()?.get(4);
        let inner = outer.children()?.get(0);
        let fits = outer.type_type() == outer_is && inner.type_type() == inner_is;
        (fits && inner.children()?.len() == 129).then_some(())
    };
    let change = |data: &[u8], to: arrow_ipc::Type, outer: arrow_ipc::Type, inner: arrow_ipc::Type| {
        places.iter().find_map(|i| {
            let mut out = data.to_vec();
            out[*i] = to.0;
            typed(&out, outer, inner).map(|_| out)
        })
    };
    let (structure, union, null) =
        (arrow_ipc::Type::Struct_, arrow_ipc::Type::Union, arrow_ipc::Type::Null);
    let nested = change(&data, union, structure, union).unwrap();
    assert!(matches!(parse_arrow_trades(nested.clone()), Err(ArrowParseError::Open(_))));
    let flat = change(&nested, null, null, union).unwrap();
    assert_eq!(parse_arrow_trades(flat).unwrap().raw_row_count, 0);
}

fn field(name: &str, data_type: ColumnType) -> ArrowField {
    ArrowField { name: name.to_string(), data_type, type_text: "T".to_string() }
}

#[test]
fn columns_are_found_by_name() {
    let fields = vec![
        field("x", ColumnType::Other),
        field("is_sell", ColumnType::Boolean),
        field("qty", ColumnType::Float64),
        field("price", ColumnType::Float64),
        field("ts", ColumnType::Int64),
    ];
    let cols = validate_arrow_schema(&fields).unwrap();
    assert_eq!((cols.ts, cols.price, cols.qty, cols.is_sell), (4, 3, 2, 1));
    assert_eq!(RequiredColumn::IsSell.name(), "is_sell");
    assert_eq!(RequiredColumn::Ts.data_type(), ColumnType::Int64);
}

#[test]
fn a_column_that_holds_something_else_is_an_error() {
    let cols = TradeColumns { ts: 0, price: 1, qty: 2, is_sell: 3 };
    let b = ArrowBatch {
        rows: 1,
        columns: vec![
            ArrowColumn::Int64(vec![Some(1)]),
            ArrowColumn::Other,
            ArrowColumn::Float64(vec![Some(0)]),
            ArrowColumn::Boolean(vec![Some(true)]),
        ],
    };
    assert!(matches!(
        collect_trades(&vec![b], cols),
        Err(ArrowParseError::NotOfType(RequiredColumn::Price))
    ));
}

#[test]
fn a_client_needs_a_url() {
    let c = ServerClient::new(" https://example.com/api/// ", Some("tok".to_string())).unwrap();
    assert_eq!(c.base_url(), "https://example.com/api");
    assert_eq!(c.trades_url(), "https://example.com/api/trades.arrow");
    assert_eq!(c.authorization(), Some("Bearer tok".to_string()));
    assert!(ServerClient::new("", None).is_none());
    assert!(ServerClient::new("no url", None).is_none());
    assert_eq!(ServerClient::new("http://a", None).unwrap().authorization(), None);
}

#[test]
fn a_client_is_made_for_the_server_mode_only() {
    let mut n = Network {
        proxy: None,
        trade_fetch_mode: TradeFetchMode::Server,
        server_url: Some("http://a/".to_string()),
        server_auth_token: None,
    };
    assert_eq!(ServerClient::from_mode(&n).unwrap().base_url(), "http://a");
    n.trade_fetch_mode = TradeFetchMode::Exchange;
    assert!(ServerClient::from_mode(&n).is_none());
}

#[test]
fn a_query_names_its_range() {
    let q = range_query(5, 77, 400_000);
    let got: Vec<(&str, &str)> = q.iter().map(|(k, v)| (*k, v.as_str())).collect();
    assert_eq!(got.len(), 3);
    assert!(got.iter().any(|(_, v)| *v == "5"));
    assert!(got.iter().any(|(_, v)| *v == "77"));
    assert!(got.iter().any(|(_, v)| *v == "400000"));
}

#[test]
fn inverse_contracts_are_counted_in_quote() {
    assert_eq!(raw_qty_unit(MarketKind::InversePerps), RawQtyUnit::Quote);
    assert_eq!(raw_qty_unit(MarketKind::LinearPerps), RawQtyUnit::Base);
    assert_eq!(raw_qty_unit(MarketKind::Spot), RawQtyUnit::Base);
}
