//! What holds of a parsed stream of trades, said of its rows: which of them are trades and what
//! each trade holds, how many rows there are, and which time is the latest.
use crate::connector::client;
use crate::connector::client::{
    ArrowParseError, BatchView, ColumnType, ColumnView, FieldView, ParsedArrowBatch, RequiredColumn,
    TradeColumns,
};
use vstd::prelude::*;

verus! {

/// Row `i` has a time.
pub open spec fn has_time(b: BatchView, cols: TradeColumns, i: int) -> bool {
    let c = b.columns[cols.ts as int];
    c is Int64 && i < c->Int64_0.len() && c->Int64_0[i] is Some
}

/// The time of row `i`; a time before 1970 counts as 1970.
pub open spec fn time_at(b: BatchView, cols: TradeColumns, i: int) -> int {
    let ts = b.columns[cols.ts as int]->Int64_0[i]->0;
    if ts < 0 {
        0
    } else {
        ts as int
    }
}

/// A column of fractions has a value in row `i`.
pub open spec fn has_number(c: ColumnView, i: int) -> bool {
    c is Float64 && i < c->Float64_0.len() && c->Float64_0[i] is Some
}

/// A yes-or-no column has a value in row `i`.
pub open spec fn has_answer(c: ColumnView, i: int) -> bool {
    c is Boolean && i < c->Boolean_0.len() && c->Boolean_0[i] is Some
}

/// No value is missing in row `i`.
pub open spec fn is_whole(b: BatchView, cols: TradeColumns, i: int) -> bool {
    &&& has_time(b, cols, i)
    &&& has_number(b.columns[cols.price as int], i)
    &&& has_number(b.columns[cols.qty as int], i)
    &&& has_answer(b.columns[cols.is_sell as int], i)
}

/// How many of the first `n` rows are whole.
pub open spec fn whole_rows(b: BatchView, cols: TradeColumns, n: int) -> nat
    decreases n,
{
    if n <= 0 {
        0
    } else if is_whole(b, cols, n - 1) {
        whole_rows(b, cols, n - 1) + 1
    } else {
        whole_rows(b, cols, n - 1)
    }
}

/// How many rows of the first `n` batches are whole.
pub open spec fn whole_in(bs: Seq<BatchView>, cols: TradeColumns, n: int) -> nat
    decreases n,
{
    if n <= 0 {
        0
    } else {
        whole_in(bs, cols, n - 1) + whole_rows(bs[n - 1], cols, bs[n - 1].rows as int)
    }
}

proof fn lemma_rows(b: BatchView, cols: TradeColumns, n: int, i: int)
    requires
        0 <= n,
    ensures
        client::row_trades(b, cols, n).len() == whole_rows(b, cols, n),
        0 <= i < n && is_whole(b, cols, i) ==> {
            let k = whole_rows(b, cols, i) as int;
            &&& k < whole_rows(b, cols, n)
            &&& client::row_trade(b, cols, i) == Some(client::row_trades(b, cols, n)[k])
        },
    decreases n,
{
    if n > 0 {
        lemma_rows(b, cols, n - 1, i);
    }
}

proof fn lemma_batches(bs: Seq<BatchView>, cols: TradeColumns, n: int, b: int, i: int)
    requires
        0 <= n <= bs.len(),
    ensures
        client::stream_trades(bs, cols, n).len() == whole_in(bs, cols, n),
        0 <= b < n && 0 <= i < bs[b].rows && is_whole(bs[b], cols, i) ==> {
            let k = (whole_in(bs, cols, b) + whole_rows(bs[b], cols, i)) as int;
            &&& k < whole_in(bs, cols, n)
            &&& client::row_trade(bs[b], cols, i) == Some(client::stream_trades(bs, cols, n)[k])
        },
    decreases n,
{
    if n > 0 {
        lemma_batches(bs, cols, n - 1, b, i);
        lemma_rows(bs[n - 1], cols, bs[n - 1].rows as int, i);
    }
}

/// The trades of a stream are its whole rows in order: each whole row is a trade, at the place
/// that the number of whole rows before it gives, and that trade holds the row's own values.
pub proof fn rows_become_trades_in_order(
    bs: Seq<BatchView>,
    cols: TradeColumns,
    r: Result<ParsedArrowBatch, ArrowParseError>,
    b: int,
    i: int,
)
    requires
        client::parsed_is(bs, cols, r),
        r is Ok,
        0 <= b < bs.len(),
        0 <= i < bs[b].rows,
        is_whole(bs[b], cols, i),
    ensures
        ({
            let k = (whole_in(bs, cols, b) + whole_rows(bs[b], cols, i)) as int;
            let trades = r->Ok_0.trades@;
            let columns = bs[b].columns;
            &&& k < trades.len()
            &&& trades[k].time == time_at(bs[b], cols, i)
            &&& trades[k].is_sell == columns[cols.is_sell as int]->Boolean_0[i]->0
            &&& trades[k].price_bits == columns[cols.price as int]->Float64_0[i]->0
            &&& trades[k].qty_bits == columns[cols.qty as int]->Float64_0[i]->0
        }),
{
    lemma_batches(bs, cols, bs.len() as int, b, i);
}

/// A row in which a value is missing is no trade: there are as many trades as whole rows.
pub proof fn only_whole_rows_are_trades(
    bs: Seq<BatchView>,
    cols: TradeColumns,
    r: Result<ParsedArrowBatch, ArrowParseError>,
)
    requires
        client::parsed_is(bs, cols, r),
        r is Ok,
    ensures
        r->Ok_0.trades@.len() == whole_in(bs, cols, bs.len() as int),
{
    lemma_batches(bs, cols, bs.len() as int, 0, 0);
}

/// The rows of the batches from `n` on.
pub open spec fn rows_from(bs: Seq<BatchView>, n: int) -> nat
    decreases bs.len() - n,
{
    if n >= bs.len() {
        0
    } else {
        bs[n].rows + rows_from(bs, n + 1)
    }
}

proof fn lemma_rows_add_up(bs: Seq<BatchView>, n: int)
    requires
        0 <= n <= bs.len(),
    ensures
        client::stream_rows(bs, n) + rows_from(bs, n) == rows_from(bs, 0),
    decreases n,
{
    if n > 0 {
        lemma_rows_add_up(bs, n - 1);
    }
}

/// Every row counts, whether it is a trade or not.
pub proof fn every_row_is_counted(
    bs: Seq<BatchView>,
    cols: TradeColumns,
    r: Result<ParsedArrowBatch, ArrowParseError>,
)
    requires
        client::parsed_is(bs, cols, r),
        r is Ok,
        rows_from(bs, 0) <= usize::MAX,
    ensures
        r->Ok_0.raw_row_count == rows_from(bs, 0),
{
    lemma_rows_add_up(bs, bs.len() as int);
}

proof fn lemma_latest_row(b: BatchView, cols: TradeColumns, n: int) -> (i: int)
    requires
        n >= 0,
        client::latest_row(b, cols, n) is Some,
    ensures
        0 <= i < n,
        has_time(b, cols, i),
        time_at(b, cols, i) == client::latest_row(b, cols, n)->0,
    decreases n,
{
    if client::latest_row(b, cols, n) == client::row_time(b, cols, n - 1) {
        n - 1
    } else {
        lemma_latest_row(b, cols, n - 1)
    }
}

proof fn lemma_latest_in(bs: Seq<BatchView>, cols: TradeColumns, n: int) -> (found: (int, int))
    requires
        0 <= n <= bs.len(),
        client::latest_in_stream(bs, cols, n) is Some,
    ensures
        0 <= found.0 < n,
        0 <= found.1 < bs[found.0].rows,
        has_time(bs[found.0], cols, found.1),
        time_at(bs[found.0], cols, found.1) == client::latest_in_stream(bs, cols, n)->0,
    decreases n,
{
    let last = bs[n - 1];
    if client::latest_in_stream(bs, cols, n) == client::latest_row(last, cols, last.rows as int) {
        (n - 1, lemma_latest_row(last, cols, last.rows as int))
    } else {
        lemma_latest_in(bs, cols, n - 1)
    }
}

/// The reported time is that of a row, which is found.
pub proof fn last_ts_is_a_row(
    bs: Seq<BatchView>,
    cols: TradeColumns,
    r: Result<ParsedArrowBatch, ArrowParseError>,
) -> (found: (int, int))
    requires
        client::parsed_is(bs, cols, r),
        r is Ok,
        r->Ok_0.last_ts is Some,
    ensures
        0 <= found.0 < bs.len(),
        0 <= found.1 < bs[found.0].rows,
        has_time(bs[found.0], cols, found.1),
        time_at(bs[found.0], cols, found.1) == r->Ok_0.last_ts->0,
{
    lemma_latest_in(bs, cols, bs.len() as int)
}

/// A row that has a time is no later than the reported one, whether it is whole or not.
pub proof fn no_row_is_later(
    bs: Seq<BatchView>,
    cols: TradeColumns,
    r: Result<ParsedArrowBatch, ArrowParseError>,
    b: int,
    i: int,
)
    requires
        client::parsed_is(bs, cols, r),
        r is Ok,
        0 <= b < bs.len(),
        0 <= i < bs[b].rows,
        has_time(bs[b], cols, i),
    ensures
        r->Ok_0.last_ts matches Some(t) && time_at(bs[b], cols, i) <= t,
{
    client::last_ts_is_the_latest(bs, cols, r, b, i);
}

/// Column `at` is the first of the stream's columns with the name.
pub open spec fn is_first_named(fields: Seq<FieldView>, name: Seq<char>, at: int) -> bool {
    &&& 0 <= at < fields.len()
    &&& fields[at].name == name
    &&& forall|j: int| #![trigger fields[j]] 0 <= j < at ==> fields[j].name != name
}

/// No column of the stream has the name.
pub open spec fn none_named(fields: Seq<FieldView>, name: Seq<char>) -> bool {
    forall|j: int| #![trigger fields[j]] 0 <= j < fields.len() ==> fields[j].name != name
}

proof fn lemma_first_named(fields: Seq<FieldView>, name: Seq<char>, i: int)
    requires
        0 <= i <= fields.len(),
        forall|j: int| #![trigger fields[j]] 0 <= j < i ==> fields[j].name != name,
    ensures
        match client::first_named(fields, name, i) {
            Some(at) => is_first_named(fields, name, at),
            None => none_named(fields, name),
        },
    decreases fields.len() - i,
{
    if i < fields.len() && fields[i].name != name {
        lemma_first_named(fields, name, i + 1);
    }
}

/// The columns of a stream are found by their names, wherever they stand, and have the types that
/// their values need; a column that is reported missing is nowhere.
pub proof fn columns_are_found_by_name(fields: Seq<FieldView>)
    requires
        fields.len() <= usize::MAX,
    ensures
        match client::missing_column(fields) {
            Some(RequiredColumn::Ts) => none_named(fields, "ts"@),
            Some(RequiredColumn::Price) => none_named(fields, "price"@),
            Some(RequiredColumn::Qty) => none_named(fields, "qty"@),
            Some(RequiredColumn::IsSell) => none_named(fields, "is_sell"@),
            None => {
                let cols = client::columns_of(fields);
                &&& is_first_named(fields, "ts"@, cols.ts as int)
                &&& is_first_named(fields, "price"@, cols.price as int)
                &&& is_first_named(fields, "qty"@, cols.qty as int)
                &&& is_first_named(fields, "is_sell"@, cols.is_sell as int)
                &&& client::mistyped_column(fields) is None <==> {
                    &&& fields[cols.ts as int].data_type == ColumnType::Int64
                    &&& fields[cols.price as int].data_type == ColumnType::Float64
                    &&& fields[cols.qty as int].data_type == ColumnType::Float64
                    &&& fields[cols.is_sell as int].data_type == ColumnType::Boolean
                }
            },
        },
{
    lemma_first_named(fields, "ts"@, 0);
    lemma_first_named(fields, "price"@, 0);
    lemma_first_named(fields, "qty"@, 0);
    lemma_first_named(fields, "is_sell"@, 0);
}

/// A stream whose columns are not those of trades is refused with the column that is missing, or
/// with one of the wrong type and the type that it has.
pub proof fn refusals_name_the_column(
    data: Seq<u8>,
    r: Result<ParsedArrowBatch, ArrowParseError>,
    fields: Seq<FieldView>,
    described: Seq<u8>,
    start: int,
    at: int,
)
    requires
        client::stream_parsed_is(data, r),
        client::opened(data) == Some((fields, described, start)),
        0 <= at < fields.len(),
    ensures
        r matches Err(ArrowParseError::MissingColumn(c)) ==> fields[at].name != c.spec_name(),
        r matches Err(ArrowParseError::WrongType(c, got)) ==> is_first_named(
            fields,
            c.spec_name(),
            at,
        ) ==> got@ == fields[at].type_text && fields[at].data_type != c.spec_type(),
        !(r matches Err(ArrowParseError::Open(_))),
{
    lemma_first_named(fields, "ts"@, 0);
    lemma_first_named(fields, "price"@, 0);
    lemma_first_named(fields, "qty"@, 0);
    lemma_first_named(fields, "is_sell"@, 0);
}

} // verus!
