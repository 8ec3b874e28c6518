//! The market-data server: its address, the query that it is sent, and the Arrow streams of
//! trades that it answers with.
use crate::connector::frames;
use crate::connector::frames::{check_batch, check_unions, read_frame, Frame, MessageKind};
use crate::connector::network;
use crate::connector::network::{Network, TradeFetchMode};
use crate::text;
use crate::text::{decimal, trim, trim_end_slashes};
use crate::units::MarketKind;
use arrow_array::{BooleanArray, Float64Array, Int64Array, RecordBatch};
use arrow_ipc::reader::StreamReader;
use arrow_schema::DataType;
use vstd::prelude::*;
use vstd::slice::slice_subrange;
use vstd::string::*;

verus! {

/// What `Url::parse` accepts.
pub uninterp spec fn url_parses(s: Seq<char>) -> bool;

/// `url::Url::parse`: whether the text is a URL. What that takes is the URL standard, which is
/// not restated here; it depends on the text alone.
#[verifier::external_body]
pub(crate) fn parses_as_url(s: &str) -> (r: bool)
    ensures
        r == url_parses(s@),
{
    url::Url::parse(s).is_ok()
}

/// A base URL without the white space around it and without the slashes at its end.
pub open spec fn base_of(url: Seq<char>) -> Seq<char> {
    text::without_trailing_char(text::trimmed(url), '/')
}

/// A handle to a remote market-data server, which offers trades at `/trades.arrow`.
#[derive(Debug, Clone)]
pub struct ServerClient {
    pub base_url: String,
    /// Sent with every request, where there is one.
    pub auth_token: Option<String>,
}

impl ServerClient {
    /// The client for a base URL that has been trimmed; `parses` says whether it is a URL.
    /// There is none for an empty or invalid one.
    pub fn from_trimmed(trimmed: String, auth_token: Option<String>, parses: bool) -> (r: Option<
        ServerClient,
    >)
        ensures
            r is Some <==> trimmed@.len() > 0 && parses,
            r matches Some(c) ==> c.base_url@ == trimmed@ && c.auth_token == auth_token,
    {
        if trimmed.as_str().is_empty() || !parses {
            None
        } else {
            Some(ServerClient { base_url: trimmed, auth_token })
        }
    }

    /// The client for a base URL such as `http://127.0.0.1:8080`. Slashes at its end are
    /// stripped. There is none for an empty or invalid URL.
    pub fn new(base_url: &str, auth_token: Option<String>) -> (r: Option<ServerClient>)
        ensures
            r is Some <==> base_of(base_url@).len() > 0 && url_parses(base_of(base_url@)),
            r matches Some(c) ==> c.base_url@ == base_of(base_url@) && c.auth_token == auth_token,
    {
        let outer: String = trim(base_url);
        let trimmed: String = trim_end_slashes(outer.as_str());
        let parses: bool = parses_as_url(trimmed.as_str());
        ServerClient::from_trimmed(trimmed, auth_token, parses)
    }

    /// The client that the configuration asks for: none unless trades come from the server and
    /// its URL is valid.
    pub fn from_mode(network: &Network) -> (r: Option<ServerClient>)
        ensures
            r is Some <==> network.trade_fetch_mode == TradeFetchMode::Server
                && network.server_url is Some && base_of(network.server_url->0@).len() > 0
                && url_parses(base_of(network.server_url->0@)),
            r matches Some(c) ==> c.base_url@ == base_of(network.server_url->0@)
                && network::text_view(c.auth_token) == network::text_view(
                network.server_auth_token,
            ),
    {
        if network.trade_fetch_mode != TradeFetchMode::Server {
            return None;
        }
        match &network.server_url {
            None => None,
            Some(url) => ServerClient::new(
                url.as_str(),
                network::copy_text(&network.server_auth_token),
            ),
        }
    }

    pub fn base_url(&self) -> (s: &str)
        ensures
            s@ == self.base_url@,
    {
        self.base_url.as_str()
    }

    /// The address of the Arrow endpoint.
    pub fn trades_url(&self) -> (s: String)
        ensures
            s@ == self.base_url@ + "/trades.arrow"@,
    {
        self.base_url.clone().concat("/trades.arrow")
    }

    /// The value of the authorization header, where there is a token.
    pub fn authorization(&self) -> (r: Option<String>)
        ensures
            match self.auth_token {
                None => r is None,
                Some(token) => r matches Some(s) && s@ == "Bearer "@ + token@,
            },
    {
        match &self.auth_token {
            None => None,
            Some(token) => Some("Bearer ".to_owned().concat(token.as_str())),
        }
    }
}

/// The time range and limit of a query, as the parameters that they are sent as.
pub fn range_query(from: u64, to: u64, limit: usize) -> (q: Vec<(&'static str, String)>)
    ensures
        q@.len() == 3,
        q@[0].0@ == "from"@ && q@[0].1@ == text::decimal_digits(from as nat),
        q@[1].0@ == "to"@ && q@[1].1@ == text::decimal_digits(to as nat),
        q@[2].0@ == "limit"@ && q@[2].1@ == text::decimal_digits(limit as nat),
{
    let mut q: Vec<(&'static str, String)> = Vec::new();
    q.push(("from", decimal(from)));
    q.push(("to", decimal(to)));
    q.push(("limit", decimal(limit as u64)));
    q
}

/// What the sizes of a market's trades are counted in.
#[derive(Debug, Clone, Copy, PartialEq, Eq, Structural)]
pub enum RawQtyUnit {
    Base,
    Quote,
}

/// What the sizes of a market's trades are counted in.
pub fn raw_qty_unit(market: MarketKind) -> (u: RawQtyUnit)
    ensures
        u == (match market {
            MarketKind::InversePerps => RawQtyUnit::Quote,
            MarketKind::Spot | MarketKind::LinearPerps => RawQtyUnit::Base,
        }),
{
    match market {
        MarketKind::InversePerps => RawQtyUnit::Quote,
        MarketKind::Spot | MarketKind::LinearPerps => RawQtyUnit::Base,
    }
}

/// The types that the required columns have.
#[derive(Debug, Clone, Copy, PartialEq, Eq, Structural)]
pub enum ColumnType {
    Int64,
    Float64,
    Boolean,
    Other,
}

/// One column of a stream: its name and its type. `type_text` is how messages call the type.
#[derive(Debug, Clone)]
pub struct ArrowField {
    pub name: String,
    pub data_type: ColumnType,
    pub type_text: String,
}

/// The values of one column, `None` where a value is missing. Numbers with a fraction are held
/// by the bits of their double-precision form.
#[derive(Debug, Clone)]
pub enum ArrowColumn {
    Int64(Vec<Option<i64>>),
    Float64(Vec<Option<u64>>),
    Boolean(Vec<Option<bool>>),
    Other,
}

/// Some rows of a stream, column by column.
#[derive(Debug, Clone)]
pub struct ArrowBatch {
    pub rows: usize,
    pub columns: Vec<ArrowColumn>,
}

/// The values of one column.
pub enum ColumnView {
    Int64(Seq<Option<i64>>),
    Float64(Seq<Option<u64>>),
    Boolean(Seq<Option<bool>>),
    Other,
}

impl View for ArrowColumn {
    type V = ColumnView;

    open spec fn view(&self) -> ColumnView {
        match self {
            ArrowColumn::Int64(v) => ColumnView::Int64(v@),
            ArrowColumn::Float64(v) => ColumnView::Float64(v@),
            ArrowColumn::Boolean(v) => ColumnView::Boolean(v@),
            ArrowColumn::Other => ColumnView::Other,
        }
    }
}

/// The columns of a batch as their values.
pub open spec fn columns_view(columns: Seq<ArrowColumn>) -> Seq<ColumnView> {
    columns.map_values(|c: ArrowColumn| c@)
}

/// A column of a stream: its name, its type and how messages call the type.
pub struct FieldView {
    pub name: Seq<char>,
    pub data_type: ColumnType,
    pub type_text: Seq<char>,
}

impl View for ArrowField {
    type V = FieldView;

    open spec fn view(&self) -> FieldView {
        FieldView { name: self.name@, data_type: self.data_type, type_text: self.type_text@ }
    }
}

/// The columns of a stream.
pub open spec fn field_views(fields: Seq<ArrowField>) -> Seq<FieldView> {
    fields.map_values(|f: ArrowField| f@)
}

/// What a batch holds.
pub struct BatchView {
    pub rows: nat,
    pub columns: Seq<ColumnView>,
}

impl View for ArrowBatch {
    type V = BatchView;

    open spec fn view(&self) -> BatchView {
        BatchView { rows: self.rows as nat, columns: columns_view(self.columns@) }
    }
}

/// A batch of an Arrow stream, as `arrow_array` keeps it.
#[verifier::external_body]
pub struct StreamBatch {
    batch: RecordBatch,
}

/// What a batch of a stream holds, row count and columns.
pub uninterp spec fn batch_contents(batch: StreamBatch) -> BatchView;

/// The columns that the message at the start of a stream declares, or `None` where it does not
/// start a stream.
pub uninterp spec fn arrow_fields(schema: Seq<u8>) -> Option<Seq<FieldView>>;

/// The message that starts a stream can be read: it is one message, and no union in it holds too
/// many columns without numbering them.
pub open spec fn can_open(schema: Seq<u8>) -> bool {
    exists|meta: int, body: int| #[trigger]
        frames::is_message(schema, meta, body) && frames::unions_numbered(
            schema.subrange(meta, body),
            Seq::empty(),
        )
}

/// `arrow_ipc`'s `StreamReader::try_new` and `StreamReader::schema`, on the first message of a
/// stream: its columns, each by its name, its type, and the text that `Debug` gives of the type.
/// What a schema looks like is the Arrow IPC format, which is not restated here; what is read
/// depends on the bytes alone. Of the text of an error nothing is claimed.
#[verifier::external_body]
fn open_stream(schema: &[u8]) -> (r: Result<Vec<ArrowField>, String>)
    requires
        can_open(schema@),
    ensures
        (match r {
            Ok(f) => Some(field_views(f@)),
            Err(_) => None,
        }) == arrow_fields(schema@),
{
    let reader = StreamReader::try_new(schema, None).map_err(|e| e.to_string())?;
    Ok(reader.schema().fields().iter().map(|f| ArrowField {
        name: f.name().clone(),
        data_type: match f.data_type() {
            DataType::Int64 => ColumnType::Int64,
            DataType::Float64 => ColumnType::Float64,
            DataType::Boolean => ColumnType::Boolean,
            _ => ColumnType::Other,
        },
        type_text: format!("{:?}", f.data_type()),
    }).collect())
}

/// `RecordBatch::num_rows` and `RecordBatch::columns`: how many rows there are, and each column
/// by its values.
#[verifier::external_body]
fn batch_rows(batch: &StreamBatch) -> (r: ArrowBatch)
    ensures
        r@ == batch_contents(*batch),
{
    let columns = batch.batch.columns().iter().map(|c| {
        if let Some(a) = c.as_any().downcast_ref::<Int64Array>() {
            ArrowColumn::Int64(a.iter().collect())
        } else if let Some(a) = c.as_any().downcast_ref::<Float64Array>() {
            ArrowColumn::Float64(a.iter().map(|v| v.map(|x| x.to_bits())).collect())
        } else if let Some(a) = c.as_any().downcast_ref::<BooleanArray>() {
            ArrowColumn::Boolean(a.iter().collect())
        } else {
            ArrowColumn::Other
        }
    }).collect();
    ArrowBatch { rows: batch.batch.num_rows(), columns }
}

/// The columns that a stream of trades must have.
#[derive(Debug, Clone, Copy, PartialEq, Eq, Structural)]
pub enum RequiredColumn {
    Ts,
    Price,
    Qty,
    IsSell,
}

impl RequiredColumn {
    /// The name of the column.
    pub open spec fn spec_name(self) -> Seq<char> {
        match self {
            RequiredColumn::Ts => "ts"@,
            RequiredColumn::Price => "price"@,
            RequiredColumn::Qty => "qty"@,
            RequiredColumn::IsSell => "is_sell"@,
        }
    }

    /// The name of the column.
    pub fn name(self) -> (s: &'static str)
        ensures
            s@ == self.spec_name(),
    {
        match self {
            RequiredColumn::Ts => "ts",
            RequiredColumn::Price => "price",
            RequiredColumn::Qty => "qty",
            RequiredColumn::IsSell => "is_sell",
        }
    }

    /// The type that the column must have.
    pub open spec fn spec_type(self) -> ColumnType {
        match self {
            RequiredColumn::Ts => ColumnType::Int64,
            RequiredColumn::Price | RequiredColumn::Qty => ColumnType::Float64,
            RequiredColumn::IsSell => ColumnType::Boolean,
        }
    }

    /// The type that the column must have.
    pub fn data_type(self) -> (t: ColumnType)
        ensures
            t == self.spec_type(),
    {
        match self {
            RequiredColumn::Ts => ColumnType::Int64,
            RequiredColumn::Price | RequiredColumn::Qty => ColumnType::Float64,
            RequiredColumn::IsSell => ColumnType::Boolean,
        }
    }

    /// How messages call that type.
    pub open spec fn spec_type_label(self) -> Seq<char> {
        match self {
            RequiredColumn::Ts => "Int64"@,
            RequiredColumn::Price | RequiredColumn::Qty => "Float64"@,
            RequiredColumn::IsSell => "Boolean"@,
        }
    }

    fn type_label(self) -> (s: &'static str)
        ensures
            s@ == self.spec_type_label(),
    {
        match self {
            RequiredColumn::Ts => "Int64",
            RequiredColumn::Price | RequiredColumn::Qty => "Float64",
            RequiredColumn::IsSell => "Boolean",
        }
    }
}

/// Why a stream could not be taken in.
#[derive(Debug, Clone)]
pub enum ArrowParseError {
    /// The bytes do not start an Arrow stream.
    Open(String),
    /// A required column is missing.
    MissingColumn(RequiredColumn),
    /// A required column is declared with another type.
    WrongType(RequiredColumn, String),
    /// A batch has another type in a required column than the stream declares.
    NotOfType(RequiredColumn),
    /// A batch is broken.
    Batch(String),
}

impl ArrowParseError {
    /// What the log says.
    pub open spec fn spec_message(self) -> Seq<char> {
        match self {
            ArrowParseError::Open(e) => "arrow stream open: "@ + e@,
            ArrowParseError::MissingColumn(c) => "Arrow stream schema missing required column '"@
                + c.spec_name() + "'"@,
            ArrowParseError::WrongType(c, got) => "Arrow stream schema column '"@ + c.spec_name()
                + "': expected "@ + c.spec_type_label() + ", got "@ + got@,
            ArrowParseError::NotOfType(c) => "column '"@ + c.spec_name() + "' is not "@
                + c.spec_type_label(),
            ArrowParseError::Batch(e) => "arrow batch: "@ + e@,
        }
    }

    /// What the log says.
    pub fn message(&self) -> (s: String)
        ensures
            s@ == self.spec_message(),
    {
        match self {
            ArrowParseError::Open(e) => "arrow stream open: ".to_owned().concat(e.as_str()),
            ArrowParseError::MissingColumn(c) =>
                "Arrow stream schema missing required column '".to_owned().concat(c.name()).concat(
                "'",
            ),
            ArrowParseError::WrongType(c, got) => "Arrow stream schema column '".to_owned().concat(
                c.name(),
            ).concat("': expected ").concat(c.type_label()).concat(", got ").concat(got.as_str()),
            ArrowParseError::NotOfType(c) => "column '".to_owned().concat(c.name()).concat(
                "' is not ",
            ).concat(c.type_label()),
            ArrowParseError::Batch(e) => "arrow batch: ".to_owned().concat(e.as_str()),
        }
    }
}

/// Where the required columns are.
#[derive(Debug, Clone, Copy, PartialEq, Eq, Structural)]
pub struct TradeColumns {
    pub ts: usize,
    pub price: usize,
    pub qty: usize,
    pub is_sell: usize,
}

impl TradeColumns {
    pub open spec fn at(self, c: RequiredColumn) -> int {
        match c {
            RequiredColumn::Ts => self.ts as int,
            RequiredColumn::Price => self.price as int,
            RequiredColumn::Qty => self.qty as int,
            RequiredColumn::IsSell => self.is_sell as int,
        }
    }
}

/// The first column from `i` on that has the name, if there is one.
pub open spec fn first_named(
    fields: Seq<FieldView>,
    name: Seq<char>,
    i: int,
) -> Option<int>
    decreases fields.len() - i,
{
    if i >= fields.len() {
        None
    } else if fields[i].name == name {
        Some(i)
    } else {
        first_named(fields, name, i + 1)
    }
}

/// The column that a stream lacks, the first in the order of `RequiredColumn`.
pub open spec fn missing_column(fields: Seq<FieldView>) -> Option<RequiredColumn> {
    if first_named(fields, "ts"@, 0) is None {
        Some(RequiredColumn::Ts)
    } else if first_named(fields, "price"@, 0) is None {
        Some(RequiredColumn::Price)
    } else if first_named(fields, "qty"@, 0) is None {
        Some(RequiredColumn::Qty)
    } else if first_named(fields, "is_sell"@, 0) is None {
        Some(RequiredColumn::IsSell)
    } else {
        None
    }
}

/// The column is there with the type that it must have.
pub open spec fn typed(fields: Seq<FieldView>, c: RequiredColumn) -> bool {
    fields[first_named(fields, c.spec_name(), 0)->0].data_type == c.spec_type()
}

/// The column that a stream declares with another type, the first in the order of
/// `RequiredColumn`.
pub open spec fn mistyped_column(fields: Seq<FieldView>) -> Option<RequiredColumn> {
    if !typed(fields, RequiredColumn::Ts) {
        Some(RequiredColumn::Ts)
    } else if !typed(fields, RequiredColumn::Price) {
        Some(RequiredColumn::Price)
    } else if !typed(fields, RequiredColumn::Qty) {
        Some(RequiredColumn::Qty)
    } else if !typed(fields, RequiredColumn::IsSell) {
        Some(RequiredColumn::IsSell)
    } else {
        None
    }
}

/// The columns of a stream that has them all.
pub open spec fn columns_of(fields: Seq<FieldView>) -> TradeColumns {
    TradeColumns {
        ts: first_named(fields, "ts"@, 0)->0 as usize,
        price: first_named(fields, "price"@, 0)->0 as usize,
        qty: first_named(fields, "qty"@, 0)->0 as usize,
        is_sell: first_named(fields, "is_sell"@, 0)->0 as usize,
    }
}

/// The columns that are read of a stream, in the order of `RequiredColumn`.
pub open spec fn projection(cols: TradeColumns) -> Seq<usize> {
    seq![cols.ts, cols.price, cols.qty, cols.is_sell]
}

/// Where the required columns are among those that are read.
pub open spec fn projected() -> TradeColumns {
    TradeColumns { ts: 0, price: 1, qty: 2, is_sell: 3 }
}

/// What a batch of a stream holds in the columns `cols`, or `None` where it is broken: `schema`
/// is the message at the start of the stream, and `message` the one that holds the batch.
pub uninterp spec fn arrow_batch(
    schema: Seq<u8>,
    message: Seq<u8>,
    cols: Seq<usize>,
) -> Option<BatchView>;

/// The message at the start of a stream declares the required columns, `cols`, with their types.
pub open spec fn declares(schema: Seq<u8>, cols: Seq<usize>) -> bool {
    arrow_fields(schema) matches Some(f) && missing_column(f) is None && mistyped_column(f) is None
        && cols == projection(columns_of(f))
}

/// The message holds a batch of rows, and the buffers that the columns of `schema` use of it lie
/// in it.
pub open spec fn is_sound_batch(schema: Seq<u8>, message: Seq<u8>) -> bool {
    exists|from: int, to: int, meta: int, body: int|
        #![trigger frames::is_message(schema, from, to), frames::is_message(message, meta, body)]
        {
            &&& frames::is_message(schema, from, to)
            &&& frames::is_message(message, meta, body)
            &&& frames::message_at(message, meta, body).kind() == MessageKind::RecordBatch
            &&& frames::batch_is_sound(
                schema.subrange(from, to),
                frames::message_at(message, meta, body),
            )
        }
}

/// `arrow_ipc`'s `StreamReader`, on the first message of a stream and one that holds a batch: the
/// batch, of which only the columns `cols` are read. What a batch looks like is the Arrow IPC
/// format, which is not restated here; what is read depends on the bytes and on `cols` alone. Of
/// the text of an error nothing is claimed.
#[verifier::external_body]
fn read_batch(schema: &[u8], message: &[u8], cols: Vec<usize>) -> (r: Result<StreamBatch, String>)
    requires
        can_open(schema@),
        declares(schema@, cols@),
        is_sound_batch(schema@, message@),
    ensures
        (match r {
            Ok(b) => Some(batch_contents(b)),
            Err(_) => None,
        }) == arrow_batch(schema@, message@, cols@),
{
    let bytes = std::io::Read::chain(schema, message);
    let mut reader = StreamReader::try_new(bytes, Some(cols)).map_err(|e| e.to_string())?;
    match reader.next() {
        Some(Ok(batch)) => Ok(StreamBatch { batch }),
        Some(Err(e)) => Err(e.to_string()),
        None => Err(String::new()),
    }
}

/// A column, or a column inside a column, of a stream has its values in the dictionary `id`:
/// `schema` is the message at the start of the stream.
pub uninterp spec fn arrow_has_dictionary(schema: Seq<u8>, id: i64) -> bool;

/// `arrow_schema`'s `Schema::fields_with_dict_id`, on the schema that `StreamReader` reads from the
/// first message of a stream: whether there is a column with its values in the dictionary `id`. It
/// depends on the bytes and on `id` alone.
#[verifier::external_body]
#[allow(deprecated)]
fn has_dictionary(schema: &[u8], id: i64) -> (r: bool)
    requires
        can_open(schema@),
    ensures
        r == arrow_has_dictionary(schema@, id),
{
    let reader = StreamReader::try_new(schema, None).ok();
    reader.map(|r| !r.schema().fields_with_dict_id(id).is_empty()).unwrap_or(false)
}

fn index_of(fields: &Vec<ArrowField>, c: RequiredColumn) -> (r: Result<usize, ArrowParseError>)
    ensures
        match r {
            Ok(i) => i < fields@.len() && first_named(field_views(fields@), c.spec_name(), 0)
                == Some(i as int),
            Err(e) => e == ArrowParseError::MissingColumn(c) && first_named(
                field_views(fields@),
                c.spec_name(),
                0,
            ) is None,
        },
{
    let wanted: String = c.name().to_owned();
    let ghost views = field_views(fields@);
    let mut i: usize = 0;
    while i < fields.len()
        invariant
            i <= fields@.len(),
            views == field_views(fields@),
            wanted@ == c.spec_name(),
            first_named(views, c.spec_name(), 0) == first_named(views, c.spec_name(), i as int),
        decreases fields@.len() - i,
    {
        assert(views[i as int] == fields@[i as int]@);
        if fields[i].name == wanted {
            return Ok(i);
        }
        i += 1;
    }
    Err(ArrowParseError::MissingColumn(c))
}

fn check_type(fields: &Vec<ArrowField>, i: usize, c: RequiredColumn) -> (r: Result<
    (),
    ArrowParseError,
>)
    requires
        i < fields@.len(),
    ensures
        match r {
            Ok(_) => fields@[i as int].data_type == c.spec_type(),
            Err(e) => fields@[i as int].data_type != c.spec_type() && (e
                matches ArrowParseError::WrongType(d, got) && d == c && got@
                == fields@[i as int].type_text@),
        },
{
    if fields[i].data_type != c.data_type() {
        return Err(ArrowParseError::WrongType(c, fields[i].type_text.clone()));
    }
    Ok(())
}

/// Finds the required columns by name and checks their types, before any row is read. Extra
/// columns and the order of columns do not matter.
pub fn validate_arrow_schema(fields: &Vec<ArrowField>) -> (r: Result<TradeColumns, ArrowParseError>)
    ensures
        ({
            let views = field_views(fields@);
            match missing_column(views) {
                Some(c) => r == Err::<TradeColumns, ArrowParseError>(
                    ArrowParseError::MissingColumn(c),
                ),
                None => match mistyped_column(views) {
                    Some(c) => r matches Err(ArrowParseError::WrongType(d, got)) && d == c && got@
                        == views[first_named(views, c.spec_name(), 0)->0].type_text,
                    None => r == Ok::<TradeColumns, ArrowParseError>(columns_of(views)),
                },
            }
        }),
{
    let ghost views = field_views(fields@);
    let ts: usize = match index_of(fields, RequiredColumn::Ts) {
        Ok(i) => i,
        Err(e) => {
            return Err(e);
        },
    };
    let price: usize = match index_of(fields, RequiredColumn::Price) {
        Ok(i) => i,
        Err(e) => {
            return Err(e);
        },
    };
    let qty: usize = match index_of(fields, RequiredColumn::Qty) {
        Ok(i) => i,
        Err(e) => {
            return Err(e);
        },
    };
    let is_sell: usize = match index_of(fields, RequiredColumn::IsSell) {
        Ok(i) => i,
        Err(e) => {
            return Err(e);
        },
    };
    proof {
        assert(views[ts as int] == fields@[ts as int]@);
        assert(views[price as int] == fields@[price as int]@);
        assert(views[qty as int] == fields@[qty as int]@);
        assert(views[is_sell as int] == fields@[is_sell as int]@);
    }
    if let Err(e) = check_type(fields, ts, RequiredColumn::Ts) {
        return Err(e);
    }
    if let Err(e) = check_type(fields, price, RequiredColumn::Price) {
        return Err(e);
    }
    if let Err(e) = check_type(fields, qty, RequiredColumn::Qty) {
        return Err(e);
    }
    if let Err(e) = check_type(fields, is_sell, RequiredColumn::IsSell) {
        return Err(e);
    }
    Ok(TradeColumns { ts, price, qty, is_sell })
}

/// A trade as the server sends it: price and size by the bits of their double-precision form.
#[derive(Debug, Clone, Copy, PartialEq, Eq, Structural)]
pub struct RawTrade {
    pub time: u64,
    pub is_sell: bool,
    pub price_bits: u64,
    pub qty_bits: u64,
}

/// What a stream of trades held.
#[derive(Debug, Clone)]
pub struct ParsedArrowBatch {
    /// The rows without missing values.
    pub trades: Vec<RawTrade>,
    /// How many rows there were, as far as that can be counted.
    pub raw_row_count: usize,
    /// The latest time among all rows that have one.
    pub last_ts: Option<u64>,
}

/// The value of an integer column in row `i`.
pub open spec fn int_at(c: ColumnView, i: int) -> Option<i64> {
    match c {
        ColumnView::Int64(v) => if 0 <= i < v.len() {
            v[i]
        } else {
            None
        },
        _ => None,
    }
}

/// The value of a fractional column in row `i`.
pub open spec fn float_at(c: ColumnView, i: int) -> Option<u64> {
    match c {
        ColumnView::Float64(v) => if 0 <= i < v.len() {
            v[i]
        } else {
            None
        },
        _ => None,
    }
}

/// The value of a yes-or-no column in row `i`.
pub open spec fn bool_at(c: ColumnView, i: int) -> Option<bool> {
    match c {
        ColumnView::Boolean(v) => if 0 <= i < v.len() {
            v[i]
        } else {
            None
        },
        _ => None,
    }
}

/// A time of the server: before 1970 counts as 1970.
pub open spec fn time_of(ts: i64) -> u64 {
    if ts < 0 {
        0
    } else {
        ts as u64
    }
}

/// The time of row `i`, if it has one.
pub open spec fn row_time(b: BatchView, cols: TradeColumns, i: int) -> Option<u64> {
    match int_at(b.columns[cols.ts as int], i) {
        Some(ts) => Some(time_of(ts)),
        None => None,
    }
}

/// The trade of row `i`, if no value of it is missing.
pub open spec fn row_trade(b: BatchView, cols: TradeColumns, i: int) -> Option<RawTrade> {
    let ts = int_at(b.columns[cols.ts as int], i);
    let price = float_at(b.columns[cols.price as int], i);
    let qty = float_at(b.columns[cols.qty as int], i);
    let is_sell = bool_at(b.columns[cols.is_sell as int], i);
    if ts is Some && price is Some && qty is Some && is_sell is Some {
        Some(
            RawTrade {
                time: time_of(ts->0),
                is_sell: is_sell->0,
                price_bits: price->0,
                qty_bits: qty->0,
            },
        )
    } else {
        None
    }
}

/// The trades of the first `n` rows, in order.
pub open spec fn row_trades(b: BatchView, cols: TradeColumns, n: int) -> Seq<RawTrade>
    decreases n,
{
    if n <= 0 {
        Seq::empty()
    } else {
        match row_trade(b, cols, n - 1) {
            Some(t) => row_trades(b, cols, n - 1).push(t),
            None => row_trades(b, cols, n - 1),
        }
    }
}

/// The later of two times that may be missing.
pub open spec fn later(a: Option<u64>, b: Option<u64>) -> Option<u64> {
    match (a, b) {
        (Some(x), Some(y)) => if y > x {
            Some(y)
        } else {
            Some(x)
        },
        (None, _) => b,
        (_, None) => a,
    }
}

/// The latest time among the first `n` rows.
pub open spec fn latest_row(b: BatchView, cols: TradeColumns, n: int) -> Option<u64>
    decreases n,
{
    if n <= 0 {
        None
    } else {
        later(latest_row(b, cols, n - 1), row_time(b, cols, n - 1))
    }
}

/// The trades of the first `n` batches, in order.
pub open spec fn stream_trades(bs: Seq<BatchView>, cols: TradeColumns, n: int) -> Seq<RawTrade>
    decreases n,
{
    if n <= 0 {
        Seq::empty()
    } else {
        stream_trades(bs, cols, n - 1) + row_trades(bs[n - 1], cols, bs[n - 1].rows as int)
    }
}

/// The latest time among the rows of the first `n` batches.
pub open spec fn latest_in_stream(bs: Seq<BatchView>, cols: TradeColumns, n: int) -> Option<u64>
    decreases n,
{
    if n <= 0 {
        None
    } else {
        later(
            latest_in_stream(bs, cols, n - 1),
            latest_row(bs[n - 1], cols, bs[n - 1].rows as int),
        )
    }
}

/// The rows of the first `n` batches.
pub open spec fn stream_rows(bs: Seq<BatchView>, n: int) -> int
    decreases n,
{
    if n <= 0 {
        0
    } else {
        stream_rows(bs, n - 1) + bs[n - 1].rows
    }
}

/// Column `c` of the batch has the type that it must have.
pub open spec fn holds_type(b: BatchView, cols: TradeColumns, c: RequiredColumn) -> bool {
    cols.at(c) < b.columns.len() && match c {
        RequiredColumn::Ts => b.columns[cols.at(c)] is Int64,
        RequiredColumn::Price | RequiredColumn::Qty => b.columns[cols.at(c)] is Float64,
        RequiredColumn::IsSell => b.columns[cols.at(c)] is Boolean,
    }
}

/// The column that a batch has with another type, the first in the order of `RequiredColumn`.
pub open spec fn odd_column(b: BatchView, cols: TradeColumns) -> Option<RequiredColumn> {
    if !holds_type(b, cols, RequiredColumn::Ts) {
        Some(RequiredColumn::Ts)
    } else if !holds_type(b, cols, RequiredColumn::Price) {
        Some(RequiredColumn::Price)
    } else if !holds_type(b, cols, RequiredColumn::Qty) {
        Some(RequiredColumn::Qty)
    } else if !holds_type(b, cols, RequiredColumn::IsSell) {
        Some(RequiredColumn::IsSell)
    } else {
        None
    }
}

/// The odd column of the first batch, from batch `i` on, that has one.
pub open spec fn first_odd(bs: Seq<BatchView>, cols: TradeColumns, i: int) -> Option<RequiredColumn>
    decreases bs.len() - i,
{
    if i >= bs.len() {
        None
    } else if odd_column(bs[i], cols) is Some {
        odd_column(bs[i], cols)
    } else {
        first_odd(bs, cols, i + 1)
    }
}

/// Batches as what they hold.
pub open spec fn batch_views(bs: Seq<ArrowBatch>) -> Seq<BatchView> {
    bs.map_values(|b: ArrowBatch| b@)
}

/// What parsing the batches of a stream comes to.
pub open spec fn parsed_is(
    bs: Seq<BatchView>,
    cols: TradeColumns,
    r: Result<ParsedArrowBatch, ArrowParseError>,
) -> bool {
    match first_odd(bs, cols, 0) {
        Some(c) => r == Err::<ParsedArrowBatch, ArrowParseError>(ArrowParseError::NotOfType(c)),
        None => {
            &&& r matches Ok(p)
            &&& p.trades@ == stream_trades(bs, cols, bs.len() as int)
            &&& p.last_ts == latest_in_stream(bs, cols, bs.len() as int)
            &&& p.raw_row_count == crate::math::min_int(
                stream_rows(bs, bs.len() as int),
                usize::MAX as int,
            )
        },
    }
}

fn read_int(c: &ArrowColumn, i: usize) -> (r: Option<i64>)
    ensures
        r == int_at(c@, i as int),
{
    match c {
        ArrowColumn::Int64(v) => if i < v.len() {
            v[i]
        } else {
            None
        },
        _ => None,
    }
}

fn read_float(c: &ArrowColumn, i: usize) -> (r: Option<u64>)
    ensures
        r == float_at(c@, i as int),
{
    match c {
        ArrowColumn::Float64(v) => if i < v.len() {
            v[i]
        } else {
            None
        },
        _ => None,
    }
}

fn read_bool(c: &ArrowColumn, i: usize) -> (r: Option<bool>)
    ensures
        r == bool_at(c@, i as int),
{
    match c {
        ArrowColumn::Boolean(v) => if i < v.len() {
            v[i]
        } else {
            None
        },
        _ => None,
    }
}

fn check_column(b: &ArrowBatch, i: usize, c: RequiredColumn) -> (r: bool)
    ensures
        forall|cols: TradeColumns|
            cols.at(c) == i ==> #[trigger] holds_type(b@, cols, c) == r,
{
    if i >= b.columns.len() {
        return false;
    }
    assert(b@.columns[i as int] == b.columns@[i as int]@);
    match (&b.columns[i], c) {
        (ArrowColumn::Int64(_), RequiredColumn::Ts) => true,
        (ArrowColumn::Float64(_), RequiredColumn::Price) => true,
        (ArrowColumn::Float64(_), RequiredColumn::Qty) => true,
        (ArrowColumn::Boolean(_), RequiredColumn::IsSell) => true,
        _ => false,
    }
}

fn find_odd_column(b: &ArrowBatch, cols: TradeColumns) -> (r: Option<RequiredColumn>)
    ensures
        r == odd_column(b@, cols),
{
    if !check_column(b, cols.ts, RequiredColumn::Ts) {
        Some(RequiredColumn::Ts)
    } else if !check_column(b, cols.price, RequiredColumn::Price) {
        Some(RequiredColumn::Price)
    } else if !check_column(b, cols.qty, RequiredColumn::Qty) {
        Some(RequiredColumn::Qty)
    } else if !check_column(b, cols.is_sell, RequiredColumn::IsSell) {
        Some(RequiredColumn::IsSell)
    } else {
        None
    }
}

/// The later of two times that may be missing.
fn later_of(a: Option<u64>, b: Option<u64>) -> (r: Option<u64>)
    ensures
        r == later(a, b),
{
    match (a, b) {
        (Some(x), Some(y)) => if y > x {
            Some(y)
        } else {
            Some(x)
        },
        (None, _) => b,
        (_, None) => a,
    }
}

/// Adds the trades of one batch to `trades` and returns the latest time among its rows.
fn take_batch(b: &ArrowBatch, cols: TradeColumns, trades: &mut Vec<RawTrade>) -> (latest: Option<
    u64,
>)
    requires
        odd_column(b@, cols) is None,
    ensures
        final(trades)@ == old(trades)@ + row_trades(b@, cols, b.rows as int),
        latest == latest_row(b@, cols, b.rows as int),
{
    let ghost before = trades@;
    let mut latest: Option<u64> = None;
    let mut i: usize = 0;
    proof {
        assert(holds_type(b@, cols, RequiredColumn::Ts));
        assert(holds_type(b@, cols, RequiredColumn::Price));
        assert(holds_type(b@, cols, RequiredColumn::Qty));
        assert(holds_type(b@, cols, RequiredColumn::IsSell));
        assert(trades@ =~= before + row_trades(b@, cols, 0));
    }
    while i < b.rows
        invariant
            i <= b.rows,
            cols.ts < b.columns@.len(),
            cols.price < b.columns@.len(),
            cols.qty < b.columns@.len(),
            cols.is_sell < b.columns@.len(),
            trades@ == before + row_trades(b@, cols, i as int),
            latest == latest_row(b@, cols, i as int),
        decreases b.rows - i,
    {
        proof {
            assert(b@.columns[cols.ts as int] == b.columns@[cols.ts as int]@);
            assert(b@.columns[cols.price as int] == b.columns@[cols.price as int]@);
            assert(b@.columns[cols.qty as int] == b.columns@[cols.qty as int]@);
            assert(b@.columns[cols.is_sell as int] == b.columns@[cols.is_sell as int]@);
        }
        let ts: Option<i64> = read_int(&b.columns[cols.ts], i);
        let time: Option<u64> = match ts {
            Some(t) => if t < 0 {
                Some(0)
            } else {
                Some(t as u64)
            },
            None => None,
        };
        latest = later_of(latest, time);
        let price: Option<u64> = read_float(&b.columns[cols.price], i);
        let qty: Option<u64> = read_float(&b.columns[cols.qty], i);
        let is_sell: Option<bool> = read_bool(&b.columns[cols.is_sell], i);
        if let (Some(time), Some(price_bits), Some(qty_bits), Some(is_sell)) = (
            time,
            price,
            qty,
            is_sell,
        ) {
            trades.push(RawTrade { time, is_sell, price_bits, qty_bits });
        }
        proof {
            assert(trades@ =~= before + row_trades(b@, cols, i + 1));
        }
        i += 1;
    }
    latest
}

/// Takes in the batches of a stream whose columns are known. Rows with a missing value are no
/// trades, but their times count.
pub fn collect_trades(batches: &Vec<ArrowBatch>, cols: TradeColumns) -> (r: Result<
    ParsedArrowBatch,
    ArrowParseError,
>)
    ensures
        parsed_is(batch_views(batches@), cols, r),
{
    let ghost bs = batch_views(batches@);
    let mut trades: Vec<RawTrade> = Vec::new();
    let mut raw_row_count: usize = 0;
    let mut last_ts: Option<u64> = None;
    let mut i: usize = 0;
    while i < batches.len()
        invariant
            i <= batches@.len(),
            bs == batch_views(batches@),
            first_odd(bs, cols, 0) == first_odd(bs, cols, i as int),
            trades@ == stream_trades(bs, cols, i as int),
            last_ts == latest_in_stream(bs, cols, i as int),
            raw_row_count == crate::math::min_int(stream_rows(bs, i as int), usize::MAX as int),
            stream_rows(bs, i as int) >= 0,
        decreases batches@.len() - i,
    {
        let b: &ArrowBatch = &batches[i];
        assert(bs[i as int] == b@);
        if let Some(c) = find_odd_column(b, cols) {
            return Err(ArrowParseError::NotOfType(c));
        }
        raw_row_count = raw_row_count.saturating_add(b.rows);
        let latest: Option<u64> = take_batch(b, cols, &mut trades);
        last_ts = later_of(last_ts, latest);
        i += 1;
    }
    Ok(ParsedArrowBatch { trades, raw_row_count, last_ts })
}

/// The batches of a stream from `pos` on, or `None` where one of them cannot be read. `schema` is
/// the message at the start of the stream, of which `described` are the bytes that describe it. Messages with
/// the values of a dictionary are passed over, as no required column has one, but the stream has
/// to have a column for it.
pub open spec fn batches_from(
    data: Seq<u8>,
    schema: Seq<u8>,
    described: Seq<u8>,
    cols: Seq<usize>,
    pos: int,
) -> Option<Seq<BatchView>>
    decreases data.len() - pos,
    when 0 <= pos <= data.len()
    via batches_from_ends
{
    match frames::frame_at(data, pos) {
        frames::FrameView::End => Some(Seq::empty()),
        frames::FrameView::Broken => None,
        frames::FrameView::Message { meta, body, end } => {
            let m = frames::message_at(data, meta, body);
            let rest = batches_from(data, schema, described, cols, end);
            match m.kind() {
                MessageKind::Dictionary => if m.dictionary is Some && arrow_has_dictionary(
                    schema,
                    m.dictionary->0,
                ) {
                    rest
                } else {
                    None
                },
                MessageKind::RecordBatch => {
                    let batch = arrow_batch(schema, data.subrange(pos, end), cols);
                    if frames::batch_is_sound(described, m) && batch is Some && rest is Some {
                        Some(seq![batch->0] + rest->0)
                    } else {
                        None
                    }
                },
                MessageKind::Schema | MessageKind::Other => None,
            }
        },
    }
}

#[via_fn]
proof fn batches_from_ends(
    data: Seq<u8>,
    schema: Seq<u8>,
    described: Seq<u8>,
    cols: Seq<usize>,
    pos: int,
) {
    if let frames::FrameView::Message { meta, body, end } = frames::frame_at(data, pos) {
        frames::lemma_cut_out(data, pos, meta, body, end);
    }
}

/// `described` are the bytes that describe the message `schema`.
pub open spec fn describes(schema: Seq<u8>, described: Seq<u8>) -> bool {
    exists|from: int, to: int| #[trigger]
        frames::is_message(schema, from, to) && described == schema.subrange(from, to)
}

/// `first` in front of the batches of the rest of a stream.
pub open spec fn in_front(first: Seq<BatchView>, rest: Option<Seq<BatchView>>) -> Option<
    Seq<BatchView>,
> {
    match rest {
        Some(bs) => Some(first + bs),
        None => None,
    }
}

/// Reads the batches of a stream from `pos` on; `schema` is the message at its start, of which
/// `described` are the bytes that describe it.
fn read_batches(
    data: &[u8],
    schema: &[u8],
    described: &[u8],
    cols: TradeColumns,
    pos: usize,
) -> (r: Result<Vec<ArrowBatch>, ArrowParseError>)
    requires
        pos <= data@.len(),
        can_open(schema@),
        describes(schema@, described@),
        declares(schema@, projection(cols)),
    ensures
        match batches_from(data@, schema@, described@, projection(cols), pos as int) {
            Some(bs) => r matches Ok(b) && batch_views(b@) == bs,
            None => r matches Err(ArrowParseError::Batch(_)),
        },
{
    let ghost all = batches_from(data@, schema@, described@, projection(cols), pos as int);
    let mut batches: Vec<ArrowBatch> = Vec::new();
    let mut at: usize = pos;
    proof {
        assert(batch_views(batches@) =~= Seq::empty());
        assert(all is Some ==> Seq::empty() + all->0 =~= all->0);
    }
    loop
        invariant
            at <= data@.len(),
            can_open(schema@),
            describes(schema@, described@),
            declares(schema@, projection(cols)),
            all == in_front(
                batch_views(batches@),
                batches_from(data@, schema@, described@, projection(cols), at as int),
            ),
            all == batches_from(data@, schema@, described@, projection(cols), pos as int),
        decreases data@.len() - at,
    {
        let (meta, body, end, info): (usize, usize, usize, frames::MessageInfo) = match read_frame(
            data,
            at,
        ) {
            Frame::End => {
                assert(batch_views(batches@) + Seq::<BatchView>::empty() =~= batch_views(batches@));
                return Ok(batches);
            },
            Frame::Broken => {
                return Err(ArrowParseError::Batch("the stream breaks off".to_owned()));
            },
            Frame::Message { meta, body, end, info } => (meta, body, end, info),
        };
        proof {
            frames::lemma_cut_out(data@, at as int, meta as int, body as int, end as int);
        }
        match info.kind() {
            MessageKind::Dictionary => {
                let known: bool = match info.dictionary {
                    Some(id) => has_dictionary(schema, id),
                    None => false,
                };
                if !known {
                    return Err(ArrowParseError::Batch("no column has the dictionary".to_owned()));
                }
            },
            MessageKind::RecordBatch => {
                if !check_batch(described, &info) {
                    return Err(
                        ArrowParseError::Batch("a buffer lies outside of its message".to_owned()),
                    );
                }
                let message: &[u8] = slice_subrange(data, at, end);
                let wanted: Vec<usize> = vec![cols.ts, cols.price, cols.qty, cols.is_sell];
                assert(wanted@ =~= projection(cols));
                proof {
                    let (from, to) = choose|from: int, to: int| #[trigger]
                        frames::is_message(schema@, from, to) && described@ == schema@.subrange(
                            from,
                            to,
                        );
                    assert(frames::is_message(schema@, from, to));
                    assert(frames::is_message(message@, meta - at, body - at));
                }
                let batch: StreamBatch = match read_batch(schema, message, wanted) {
                    Ok(b) => b,
                    Err(e) => {
                        return Err(ArrowParseError::Batch(e));
                    },
                };
                let rows: ArrowBatch = batch_rows(&batch);
                proof {
                    let rest = batches_from(data@, schema@, described@, projection(cols), end as int);
                    assert(batch_views(batches@.push(rows)) =~= batch_views(batches@).push(rows@));
                    if rest is Some {
                        assert(batch_views(batches@) + (seq![rows@] + rest->0) =~= batch_views(
                            batches@,
                        ).push(rows@) + rest->0);
                    }
                }
                batches.push(rows);
            },
            MessageKind::Schema | MessageKind::Other => {
                return Err(ArrowParseError::Batch("expected a batch of rows".to_owned()));
            },
        }
        at = end;
    }
}

/// The columns that a stream declares, the bytes that describe them, and where the batches start;
/// `None` where the bytes do not start a stream.
pub open spec fn opened(data: Seq<u8>) -> Option<(Seq<FieldView>, Seq<u8>, int)> {
    match frames::frame_at(data, 0) {
        frames::FrameView::Message { meta, body, end } => if frames::unions_numbered(
            data.subrange(meta, body),
            Seq::empty(),
        ) {
            match arrow_fields(data.subrange(0, end)) {
                Some(f) => Some((f, data.subrange(meta, body), end)),
                None => None,
            }
        } else {
            None
        },
        _ => None,
    }
}

/// What parsing the bytes of a stream comes to.
pub open spec fn stream_parsed_is(
    data: Seq<u8>,
    r: Result<ParsedArrowBatch, ArrowParseError>,
) -> bool {
    match opened(data) {
        None => r matches Err(ArrowParseError::Open(_)),
        Some((fields, described, start)) => match missing_column(fields) {
            Some(c) => r == Err::<ParsedArrowBatch, ArrowParseError>(
                ArrowParseError::MissingColumn(c),
            ),
            None => match mistyped_column(fields) {
                Some(c) => r matches Err(ArrowParseError::WrongType(d, got)) && d == c && got@
                    == fields[first_named(fields, c.spec_name(), 0)->0].type_text,
                None => match batches_from(
                    data,
                    data.subrange(0, start),
                    described,
                    projection(columns_of(fields)),
                    start,
                ) {
                    None => r matches Err(ArrowParseError::Batch(_)),
                    Some(bs) => parsed_is(bs, projected(), r),
                },
            },
        },
    }
}

/// Parses the bytes of an Arrow stream of trades. The columns are looked at before any batch is
/// read, and of the batches only the required columns are.
pub fn parse_arrow_trades(data: Vec<u8>) -> (r: Result<ParsedArrowBatch, ArrowParseError>)
    ensures
        stream_parsed_is(data@, r),
{
    let data: &[u8] = data.as_slice();
    let (meta, body, end): (usize, usize, usize) = match read_frame(data, 0) {
        Frame::Message { meta, body, end, info: _ } => (meta, body, end),
        _ => {
            return Err(ArrowParseError::Open("no message at the start".to_owned()));
        },
    };
    proof {
        frames::lemma_cut_out(data@, 0, meta as int, body as int, end as int);
    }
    let described: &[u8] = slice_subrange(data, meta, body);
    if !check_unions(described) {
        return Err(ArrowParseError::Open("a union holds too many columns".to_owned()));
    }
    let schema: &[u8] = slice_subrange(data, 0, end);
    assert(frames::is_message(schema@, meta as int, body as int));
    let fields: Vec<ArrowField> = match open_stream(schema) {
        Ok(f) => f,
        Err(e) => {
            return Err(ArrowParseError::Open(e));
        },
    };
    let cols: TradeColumns = match validate_arrow_schema(&fields) {
        Ok(c) => c,
        Err(e) => {
            return Err(e);
        },
    };
    let batches: Vec<ArrowBatch> = match read_batches(
        data,
        schema,
        described,
        cols,
        end,
    ) {
        Ok(b) => b,
        Err(e) => {
            return Err(e);
        },
    };
    collect_trades(&batches, TradeColumns { ts: 0, price: 1, qty: 2, is_sell: 3 })
}

/// No row of a stream has a later time than the parsed stream reports, whether the row is a
/// trade or not.
pub proof fn last_ts_is_the_latest(
    bs: Seq<BatchView>,
    cols: TradeColumns,
    r: Result<ParsedArrowBatch, ArrowParseError>,
    b: int,
    i: int,
)
    requires
        parsed_is(bs, cols, r),
        r is Ok,
        0 <= b < bs.len(),
        0 <= i < bs[b].rows,
        row_time(bs[b], cols, i) is Some,
    ensures
        r->Ok_0.last_ts matches Some(t) && row_time(bs[b], cols, i)->0 <= t,
{
    lemma_latest_in_stream(bs, cols, bs.len() as int, b, i);
}

proof fn lemma_latest_row(b: BatchView, cols: TradeColumns, n: int, i: int)
    requires
        0 <= i < n,
        row_time(b, cols, i) is Some,
    ensures
        latest_row(b, cols, n) matches Some(t) && row_time(b, cols, i)->0 <= t,
    decreases n,
{
    if i < n - 1 {
        lemma_latest_row(b, cols, n - 1, i);
    }
}

proof fn lemma_latest_in_stream(bs: Seq<BatchView>, cols: TradeColumns, n: int, b: int, i: int)
    requires
        0 <= b < n <= bs.len(),
        0 <= i < bs[b].rows,
        row_time(bs[b], cols, i) is Some,
    ensures
        latest_in_stream(bs, cols, n) matches Some(t) && row_time(bs[b], cols, i)->0 <= t,
    decreases n,
{
    if b < n - 1 {
        lemma_latest_in_stream(bs, cols, n - 1, b, i);
    } else {
        lemma_latest_row(bs[b], cols, bs[b].rows as int, i);
    }
}

/// The trade is not later than `t`.
pub open spec fn no_later(trade: RawTrade, t: Option<u64>) -> bool {
    t is Some && trade.time <= t->0
}

/// There are no more trades than rows, and no trade is later than the reported time.
pub proof fn trades_are_rows(
    bs: Seq<BatchView>,
    cols: TradeColumns,
    r: Result<ParsedArrowBatch, ArrowParseError>,
)
    requires
        parsed_is(bs, cols, r),
        r is Ok,
    ensures
        r->Ok_0.trades@.len() <= stream_rows(bs, bs.len() as int),
        forall|k: int|
            0 <= k < r->Ok_0.trades@.len() ==> no_later(
                #[trigger] r->Ok_0.trades@[k],
                r->Ok_0.last_ts,
            ),
{
    lemma_stream_trades(bs, cols, bs.len() as int);
}

proof fn lemma_row_trades(b: BatchView, cols: TradeColumns, n: int)
    requires
        n >= 0,
    ensures
        row_trades(b, cols, n).len() <= n,
        forall|k: int|
            0 <= k < row_trades(b, cols, n).len() ==> no_later(
                #[trigger] row_trades(b, cols, n)[k],
                latest_row(b, cols, n),
            ),
    decreases n,
{
    if n > 0 {
        lemma_row_trades(b, cols, n - 1);
        let before = row_trades(b, cols, n - 1);
        let after = row_trades(b, cols, n);
        assert forall|k: int| 0 <= k < after.len() implies no_later(
            #[trigger] after[k],
            latest_row(b, cols, n),
        ) by {
            if k < before.len() {
                assert(after[k] == before[k]);
            }
        }
    }
}

proof fn lemma_stream_trades(bs: Seq<BatchView>, cols: TradeColumns, n: int)
    requires
        0 <= n <= bs.len(),
    ensures
        stream_trades(bs, cols, n).len() <= stream_rows(bs, n),
        forall|k: int|
            0 <= k < stream_trades(bs, cols, n).len() ==> no_later(
                #[trigger] stream_trades(bs, cols, n)[k],
                latest_in_stream(bs, cols, n),
            ),
    decreases n,
{
    if n > 0 {
        lemma_stream_trades(bs, cols, n - 1);
        lemma_row_trades(bs[n - 1], cols, bs[n - 1].rows as int);
        let before = stream_trades(bs, cols, n - 1);
        let after = stream_trades(bs, cols, n);
        let rows = row_trades(bs[n - 1], cols, bs[n - 1].rows as int);
        assert forall|k: int| 0 <= k < after.len() implies no_later(
            #[trigger] after[k],
            latest_in_stream(bs, cols, n),
        ) by {
            if k < before.len() {
                assert(after[k] == before[k]);
            } else {
                assert(after[k] == rows[k - before.len()]);
            }
        }
    }
}

} // verus!
