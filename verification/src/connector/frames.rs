//! The messages that an Arrow stream is made of: where each of them starts and ends, and whether
//! what it says of itself can be relied on when it is read.
use arrow_ipc::root_as_message;
use vstd::prelude::*;
use vstd::slice::slice_subrange;

verus! {

/// What a message of an Arrow stream is for.
#[derive(Debug, Clone, Copy, PartialEq, Eq, Structural)]
pub enum MessageKind {
    Schema,
    RecordBatch,
    Dictionary,
    Other,
}

/// The numbers by which the format knows what a message is for.
pub const HEADER_SCHEMA: u8 = 1;

pub const HEADER_DICTIONARY: u8 = 2;

pub const HEADER_RECORD_BATCH: u8 = 3;

/// What a message says of itself: what it is for, how many bytes follow it, and which version of
/// the format it follows. A batch of rows says where in those bytes its buffers are, each by its offset and its
/// length, and how many buffers of data each column of views has; a batch with the values of a
/// dictionary says which one.
#[derive(Debug, Clone)]
pub struct MessageInfo {
    pub header: u8,
    pub body_length: i64,
    pub version: i16,
    pub buffers: Vec<(i64, i64)>,
    pub view_buffers: Vec<i64>,
    pub dictionary: Option<i64>,
}

/// What a message says of itself.
pub struct MessageView {
    pub header: u8,
    pub body_length: int,
    pub version: int,
    pub buffers: Seq<(i64, i64)>,
    pub view_buffers: Seq<i64>,
    pub dictionary: Option<i64>,
}

impl View for MessageInfo {
    type V = MessageView;

    open spec fn view(&self) -> MessageView {
        MessageView {
            header: self.header,
            body_length: self.body_length as int,
            version: self.version as int,
            buffers: self.buffers@,
            view_buffers: self.view_buffers@,
            dictionary: self.dictionary,
        }
    }
}

impl MessageView {
    /// What the message is for.
    pub open spec fn kind(self) -> MessageKind {
        if self.header == HEADER_SCHEMA {
            MessageKind::Schema
        } else if self.header == HEADER_DICTIONARY {
            MessageKind::Dictionary
        } else if self.header == HEADER_RECORD_BATCH {
            MessageKind::RecordBatch
        } else {
            MessageKind::Other
        }
    }
}

impl MessageInfo {
    /// What the message is for.
    pub fn kind(&self) -> (k: MessageKind)
        ensures
            k == self@.kind(),
    {
        if self.header == HEADER_SCHEMA {
            MessageKind::Schema
        } else if self.header == HEADER_DICTIONARY {
            MessageKind::Dictionary
        } else if self.header == HEADER_RECORD_BATCH {
            MessageKind::RecordBatch
        } else {
            MessageKind::Other
        }
    }
}

/// What the bytes of a message say of it, or `None` where they are no message.
pub uninterp spec fn arrow_message(meta: Seq<u8>) -> Option<MessageView>;

/// `arrow_ipc::root_as_message`: verifies the bytes of a message and reads its header; the
/// buffers are those that `header_as_record_batch` lists, and the dictionary is the one that
/// `header_as_dictionary_batch` names. What a message looks like is the
/// flatbuffers format, which is not restated here; what is read depends on the bytes alone.
#[verifier::external_body]
fn message_info(meta: &[u8]) -> (r: Option<MessageInfo>)
    ensures
        (match r {
            Some(m) => Some(m@),
            None => None,
        }) == arrow_message(meta@),
{
    let message = root_as_message(meta).ok()?;
    let batch = message.header_as_record_batch();
    let spans = batch.and_then(|b| b.buffers()).into_iter().flatten();
    let views = batch.and_then(|b| b.variadicBufferCounts()).into_iter().flatten();
    Some(MessageInfo {
        header: message.header_type().0,
        body_length: message.bodyLength(),
        version: message.version().0,
        buffers: spans.map(|s| (s.offset(), s.length())).collect(),
        view_buffers: views.collect(),
        dictionary: message.header_as_dictionary_batch().map(|d| d.id()),
    })
}

/// The number that four bytes stand for, the lowest first.
pub open spec fn word_at(data: Seq<u8>, at: int) -> int {
    data[at] + 0x100 * data[at + 1] + 0x1_0000 * data[at + 2] + 0x100_0000 * data[at + 3]
}

/// The word that may stand in front of the length of a message.
pub const CONTINUATION: u32 = 0xffff_ffff;

/// What is at a place of a stream. A message starts there and is described from `meta` to `body`;
/// the bytes that it describes go on to `end`.
pub enum FrameView {
    /// The stream ends.
    End,
    /// The stream breaks off, or holds something that is no message.
    Broken,
    Message { meta: int, body: int, end: int },
}

/// The message whose length stands at `at`: the stream ends at a length of zero, and a length
/// with the highest bit set counts as negative.
pub open spec fn sized_frame(data: Seq<u8>, at: int) -> FrameView {
    if data.len() - at < 4 {
        FrameView::Broken
    } else {
        let size = word_at(data, at);
        let meta = at + 4;
        let body = meta + size;
        if size == 0 {
            FrameView::End
        } else if size > i32::MAX || body > data.len() {
            FrameView::Broken
        } else {
            match arrow_message(data.subrange(meta, body)) {
                None => FrameView::Broken,
                Some(m) => if m.body_length < 0 || body + m.body_length > data.len() {
                    FrameView::Broken
                } else {
                    FrameView::Message { meta, body, end: body + m.body_length }
                },
            }
        }
    }
}

/// What is at `pos` of a stream. A stream may end without saying so.
pub open spec fn frame_at(data: Seq<u8>, pos: int) -> FrameView {
    if data.len() - pos < 4 {
        FrameView::End
    } else if word_at(data, pos) == CONTINUATION {
        sized_frame(data, pos + 4)
    } else {
        sized_frame(data, pos)
    }
}

/// What the message from `meta` to `body` says of itself.
pub open spec fn message_at(data: Seq<u8>, meta: int, body: int) -> MessageView {
    arrow_message(data.subrange(meta, body))->0
}

/// What is at a place of a stream, and what the message there says of itself.
pub enum Frame {
    End,
    Broken,
    Message { meta: usize, body: usize, end: usize, info: MessageInfo },
}

impl View for Frame {
    type V = FrameView;

    open spec fn view(&self) -> FrameView {
        match self {
            Frame::End => FrameView::End,
            Frame::Broken => FrameView::Broken,
            Frame::Message { meta, body, end, info: _ } => FrameView::Message {
                meta: *meta as int,
                body: *body as int,
                end: *end as int,
            },
        }
    }
}

fn read_word(data: &[u8], at: usize) -> (w: u32)
    requires
        at + 4 <= data@.len(),
    ensures
        w == word_at(data@, at as int),
{
    data[at] as u32 + 0x100 * data[at + 1] as u32 + 0x1_0000 * data[at + 2] as u32 + 0x100_0000
        * data[at + 3] as u32
}

fn read_sized_frame(data: &[u8], at: usize) -> (f: Frame)
    requires
        at <= data@.len(),
    ensures
        f@ == sized_frame(data@, at as int),
        f matches Frame::Message { meta, body, end, info } ==> arrow_message(
            data@.subrange(meta as int, body as int),
        ) == Some(info@),
{
    if data.len() - at < 4 {
        return Frame::Broken;
    }
    let size: u32 = read_word(data, at);
    if size == 0 {
        return Frame::End;
    }
    let meta: usize = at + 4;
    if size > 0x7fff_ffff || size as usize > data.len() - meta {
        return Frame::Broken;
    }
    let body: usize = meta + size as usize;
    match message_info(slice_subrange(data, meta, body)) {
        None => Frame::Broken,
        Some(info) => {
            if info.body_length < 0 || info.body_length as u64 > (data.len() - body) as u64 {
                return Frame::Broken;
            }
            let end: usize = body + info.body_length as usize;
            Frame::Message { meta, body, end, info }
        },
    }
}

/// Finds the message that starts at `pos`.
pub fn read_frame(data: &[u8], pos: usize) -> (f: Frame)
    requires
        pos <= data@.len(),
    ensures
        f@ == frame_at(data@, pos as int),
        f matches Frame::Message { meta, body, end, info } ==> arrow_message(
            data@.subrange(meta as int, body as int),
        ) == Some(info@),
{
    if data.len() - pos < 4 {
        return Frame::End;
    }
    if read_word(data, pos) == CONTINUATION {
        read_sized_frame(data, pos + 4)
    } else {
        read_sized_frame(data, pos)
    }
}

/// The bytes are one message and nothing else, described from `meta` to `body`.
pub open spec fn is_message(bytes: Seq<u8>, meta: int, body: int) -> bool {
    frame_at(bytes, 0) == (FrameView::Message { meta, body, end: bytes.len() as int })
}

/// A message that is cut out of a stream is the same message.
pub proof fn lemma_cut_out(data: Seq<u8>, pos: int, meta: int, body: int, end: int)
    requires
        0 <= pos <= data.len(),
        frame_at(data, pos) == (FrameView::Message { meta, body, end }),
    ensures
        pos < meta < body <= end <= data.len(),
        is_message(data.subrange(pos, end), meta - pos, body - pos),
        data.subrange(pos, end).subrange(meta - pos, body - pos) == data.subrange(meta, body),
{
    let cut = data.subrange(pos, end);
    assert(cut.subrange(meta - pos, body - pos) =~= data.subrange(meta, body));
    assert(word_at(cut, 0) == word_at(data, pos));
    assert(word_at(cut, meta - pos - 4) == word_at(data, meta - 4));
}

/// The first `used` buffers of a message are there, and lie in the bytes that follow it.
pub open spec fn buffers_fit(m: MessageView, used: int) -> bool {
    &&& used <= m.buffers.len()
    &&& forall|i: int|
        0 <= i < used ==> 0 <= (#[trigger] m.buffers[i]).0 && 0 <= m.buffers[i].1
            && m.buffers[i].0 + m.buffers[i].1 <= m.body_length
}

fn check_buffers(m: &MessageInfo, used: usize) -> (r: bool)
    ensures
        r == buffers_fit(m@, used as int),
{
    if used > m.buffers.len() {
        return false;
    }
    let mut i: usize = 0;
    while i < used
        invariant
            i <= used <= m.buffers@.len(),
            forall|j: int|
                0 <= j < i ==> 0 <= (#[trigger] m@.buffers[j]).0 && 0 <= m@.buffers[j].1
                    && m@.buffers[j].0 + m@.buffers[j].1 <= m@.body_length,
        decreases used - i,
    {
        let (offset, length): (i64, i64) = m.buffers[i];
        assert(m@.buffers[i as int] == (offset, length));
        if offset < 0 || length < 0 || offset > m.body_length || length > m.body_length - offset {
            return false;
        }
        i += 1;
    }
    true
}

/// The numbers by which the format knows the types of columns, as far as it matters which one a
/// column has.
pub const TYPE_NULL: u8 = 1;

pub const TYPE_BINARY: u8 = 4;

pub const TYPE_UTF8: u8 = 5;

pub const TYPE_LIST: u8 = 12;

pub const TYPE_STRUCT: u8 = 13;

pub const TYPE_UNION: u8 = 14;

pub const TYPE_FIXED_SIZE_LIST: u8 = 16;

pub const TYPE_MAP: u8 = 17;

pub const TYPE_LARGE_BINARY: u8 = 19;

pub const TYPE_LARGE_UTF8: u8 = 20;

pub const TYPE_LARGE_LIST: u8 = 21;

pub const TYPE_RUN_END_ENCODED: u8 = 22;

pub const TYPE_BINARY_VIEW: u8 = 23;

pub const TYPE_UTF8_VIEW: u8 = 24;

pub const TYPE_LIST_VIEW: u8 = 25;

pub const TYPE_LARGE_LIST_VIEW: u8 = 26;

/// The mode of a union whose columns are not as long as the union.
pub const UNION_DENSE: i16 = 1;

/// The version of the format from which on unions have no buffer for missing values.
pub const VERSION_FIVE: i16 = 4;

/// How a column, or a column inside a column, is made: the number of its type, how many columns it
/// lists, whether its values stand in a dictionary, and of a union its mode and whether it numbers
/// its columns.
#[derive(Debug, Clone, Copy, PartialEq, Eq, Structural)]
pub struct FieldShape {
    pub type_id: u8,
    pub children: usize,
    pub in_dictionary: bool,
    pub union_mode: Option<i16>,
    pub numbers_columns: bool,
}

impl FieldShape {
    /// The column is made of the columns that it lists; those that others list mean nothing.
    pub open spec fn spec_is_nested(self) -> bool {
        ||| self.type_id == TYPE_LIST
        ||| self.type_id == TYPE_STRUCT
        ||| self.type_id == TYPE_UNION
        ||| self.type_id == TYPE_FIXED_SIZE_LIST
        ||| self.type_id == TYPE_MAP
        ||| self.type_id == TYPE_LARGE_LIST
        ||| self.type_id == TYPE_RUN_END_ENCODED
        ||| self.type_id == TYPE_LIST_VIEW
        ||| self.type_id == TYPE_LARGE_LIST_VIEW
    }

    fn is_nested(self) -> (r: bool)
        ensures
            r == self.spec_is_nested(),
    {
        self.type_id == TYPE_LIST || self.type_id == TYPE_STRUCT || self.type_id == TYPE_UNION
            || self.type_id == TYPE_FIXED_SIZE_LIST || self.type_id == TYPE_MAP || self.type_id
            == TYPE_LARGE_LIST || self.type_id == TYPE_RUN_END_ENCODED || self.type_id
            == TYPE_LIST_VIEW || self.type_id == TYPE_LARGE_LIST_VIEW
    }

    /// The column is one of views, which has as many buffers as the batch says.
    pub open spec fn spec_is_view(self) -> bool {
        !self.in_dictionary && (self.type_id == TYPE_BINARY_VIEW || self.type_id == TYPE_UTF8_VIEW)
    }

    fn is_view(self) -> (r: bool)
        ensures
            r == self.spec_is_view(),
    {
        !self.in_dictionary && (self.type_id == TYPE_BINARY_VIEW || self.type_id == TYPE_UTF8_VIEW)
    }

    /// How many buffers a column has that is not one of views, without those of the columns in it:
    /// mostly one for missing values and one for the values.
    pub open spec fn spec_own_buffers(self, version: int) -> int {
        if self.in_dictionary {
            2
        } else if self.type_id == TYPE_NULL || self.type_id == TYPE_RUN_END_ENCODED {
            0
        } else if self.type_id == TYPE_STRUCT || self.type_id == TYPE_FIXED_SIZE_LIST {
            1
        } else if self.type_id == TYPE_BINARY || self.type_id == TYPE_UTF8 || self.type_id
            == TYPE_LARGE_BINARY || self.type_id == TYPE_LARGE_UTF8 || self.type_id
            == TYPE_LIST_VIEW || self.type_id == TYPE_LARGE_LIST_VIEW {
            3
        } else if self.type_id == TYPE_UNION {
            1 + (if version < VERSION_FIVE {
                1int
            } else {
                0
            }) + (if self.union_mode == Some(UNION_DENSE) {
                1int
            } else {
                0
            })
        } else {
            2
        }
    }

    fn own_buffers(self, version: i16) -> (n: usize)
        ensures
            n == self.spec_own_buffers(version as int),
            n <= 3,
    {
        if self.in_dictionary {
            2
        } else if self.type_id == TYPE_NULL || self.type_id == TYPE_RUN_END_ENCODED {
            0
        } else if self.type_id == TYPE_STRUCT || self.type_id == TYPE_FIXED_SIZE_LIST {
            1
        } else if self.type_id == TYPE_BINARY || self.type_id == TYPE_UTF8 || self.type_id
            == TYPE_LARGE_BINARY || self.type_id == TYPE_LARGE_UTF8 || self.type_id
            == TYPE_LIST_VIEW || self.type_id == TYPE_LARGE_LIST_VIEW {
            3
        } else if self.type_id == TYPE_UNION {
            let missing: usize = if version < VERSION_FIVE {
                1
            } else {
                0
            };
            let offsets: usize = if self.union_mode == Some(UNION_DENSE) {
                1
            } else {
                0
            };
            1 + missing + offsets
        } else {
            2
        }
    }

    /// A union that does not number its columns does not hold too many of them.
    pub open spec fn is_numbered(self) -> bool {
        self.type_id == TYPE_UNION && !self.numbers_columns ==> self.children <= MAX_UNNUMBERED
    }
}

/// The columns that the column lists that `path` leads to, or those of the schema itself where
/// `path` is empty.
pub uninterp spec fn arrow_children(meta: Seq<u8>, path: Seq<usize>) -> Seq<FieldShape>;

/// How deep columns can lie inside of columns.
pub const MAX_DEPTH: usize = 64;

/// Each step of `path` leads to a column that is there.
pub open spec fn is_path(meta: Seq<u8>, path: Seq<usize>) -> bool {
    forall|k: int|
        0 <= k < path.len() ==> #[trigger] path[k] < arrow_children(meta, path.take(k)).len()
}

proof fn lemma_longer_path(meta: Seq<u8>, path: Seq<usize>, i: usize)
    requires
        is_path(meta, path),
        i < arrow_children(meta, path).len(),
    ensures
        is_path(meta, path.push(i)),
{
    let longer = path.push(i);
    assert forall|k: int| 0 <= k < longer.len() implies #[trigger] longer[k] < arrow_children(
        meta,
        longer.take(k),
    ).len() by {
        assert(longer.take(k) =~= path.take(k));
        if k < path.len() {
            assert(path[k] < arrow_children(meta, path.take(k)).len());
        } else {
            assert(path.take(k) =~= path);
        }
    }
}

/// `arrow_ipc`'s `Schema::fields` and `Field::children`: the columns that a column of the schema
/// lists that the bytes of a message hold, each by what `Field` and `Union` say of it; there are
/// none where the bytes hold no schema. No message is read whose tables lie deeper in each other
/// than `MAX_DEPTH`, which is the limit that `root_as_message` verifies.
#[verifier::external_body]
fn child_shapes(meta: &[u8], path: &Vec<usize>) -> (r: Vec<FieldShape>)
    requires
        is_path(meta@, path@),
    ensures
        r@ == arrow_children(meta@, path@),
        path@.len() >= MAX_DEPTH ==> r@.len() == 0,
{
    let message = root_as_message(meta).ok();
    let top = message.and_then(|m| m.header_as_schema()).and_then(|s| s.fields());
    let inner = path.iter().fold(top, |f, i| f.and_then(|f| f.get(*i).children()));
    inner.into_iter().flatten().map(|f| FieldShape {
        type_id: f.type_type().0,
        children: f.children().map(|c| c.len()).unwrap_or(0),
        in_dictionary: f.dictionary().is_some(),
        union_mode: f.type_as_union().map(|u| u.mode().0),
        numbers_columns: f.type_as_union().and_then(|u| u.typeIds()).is_some(),
    }).collect()
}

/// How many columns a union can hold that does not number them.
pub const MAX_UNNUMBERED: usize = 128;

/// Below `path` no union that a column is made of holds too many columns without numbering them.
pub open spec fn unions_numbered(meta: Seq<u8>, path: Seq<usize>) -> bool
    decreases MAX_DEPTH - path.len(),
{
    forall|i: int|
        #![trigger arrow_children(meta, path)[i]]
        0 <= i < arrow_children(meta, path).len() ==> {
            let f = arrow_children(meta, path)[i];
            &&& f.is_numbered()
            &&& f.spec_is_nested() && f.children > 0 && path.len() < MAX_DEPTH ==> unions_numbered(
                meta,
                path.push(i as usize),
            )
        }
}

fn check_below(meta: &[u8], path: &Vec<usize>) -> (r: bool)
    requires
        is_path(meta@, path@),
        path@.len() <= MAX_DEPTH,
    ensures
        r == unions_numbered(meta@, path@),
    decreases MAX_DEPTH - path@.len(),
{
    let shapes: Vec<FieldShape> = child_shapes(meta, path);
    let mut i: usize = 0;
    while i < shapes.len()
        invariant
            i <= shapes@.len(),
            shapes@ == arrow_children(meta@, path@),
            is_path(meta@, path@),
            path@.len() >= MAX_DEPTH ==> shapes@.len() == 0,
            path@.len() <= MAX_DEPTH,
            forall|j: int|
                #![trigger arrow_children(meta@, path@)[j]]
                0 <= j < i ==> {
                    let f = arrow_children(meta@, path@)[j];
                    &&& f.is_numbered()
                    &&& f.spec_is_nested() && f.children > 0 && path@.len() < MAX_DEPTH
                        ==> unions_numbered(meta@, path@.push(j as usize))
                },
        decreases shapes@.len() - i,
    {
        let f: FieldShape = shapes[i];
        assert(arrow_children(meta@, path@)[i as int] == f);
        if f.type_id == TYPE_UNION && !f.numbers_columns && f.children > MAX_UNNUMBERED {
            return false;
        }
        if f.is_nested() && f.children > 0 {
            let mut inner: Vec<usize> = path.clone();
            inner.push(i);
            proof {
                assert(inner@ =~= path@.push(i));
                lemma_longer_path(meta@, path@, i);
            }
            if !check_below(meta, &inner) {
                return false;
            }
        }
        i += 1;
    }
    true
}

/// Whether no union that a column of the schema in a message is made of holds too many columns
/// without numbering them.
pub fn check_unions(meta: &[u8]) -> (r: bool)
    ensures
        r == unions_numbered(meta@, Seq::empty()),
{
    let path: Vec<usize> = Vec::new();
    assert(path@ =~= Seq::empty());
    check_below(meta, &path)
}

/// How many buffers of a batch the columns up to some place use, and how many of its counts of
/// buffers of views.
#[derive(Debug, Clone, Copy, PartialEq, Eq, Structural)]
pub struct Used {
    pub buffers: usize,
    pub views: usize,
}

/// What is used after a column and before those in it, or `None` where the batch does not have
/// that much.
pub open spec fn after_own(m: MessageView, f: FieldShape, used: Used) -> Option<Used> {
    let more = if f.spec_is_view() {
        m.view_buffers[used.views as int] + 2
    } else {
        f.spec_own_buffers(m.version)
    };
    if f.spec_is_view() && (used.views >= m.view_buffers.len() || more < 2) {
        None
    } else if used.buffers + more > m.buffers.len() {
        None
    } else {
        Some(
            Used {
                buffers: (used.buffers + more) as usize,
                views: if f.spec_is_view() {
                    (used.views + 1) as usize
                } else {
                    used.views
                },
            },
        )
    }
}

/// What is used after the columns below `path` from the one at `i` on, or `None` where the batch
/// does not have that much.
pub open spec fn used_from(
    meta: Seq<u8>,
    path: Seq<usize>,
    i: int,
    m: MessageView,
    used: Used,
) -> Option<Used>
    decreases MAX_DEPTH - path.len(), arrow_children(meta, path).len() - i,
{
    let shapes = arrow_children(meta, path);
    if i < 0 || i >= shapes.len() {
        Some(used)
    } else {
        let f = shapes[i];
        let own = after_own(m, f, used);
        let all = if own is Some && f.spec_is_nested() && !f.in_dictionary && path.len()
            < MAX_DEPTH {
            used_from(meta, path.push(i as usize), 0, m, own->0)
        } else {
            own
        };
        match all {
            Some(u) => used_from(meta, path, i + 1, m, u),
            None => None,
        }
    }
}

fn use_own(m: &MessageInfo, f: FieldShape, used: Used) -> (r: Option<Used>)
    requires
        used.buffers <= m.buffers@.len(),
        used.views <= m.view_buffers@.len(),
    ensures
        r == after_own(m@, f, used),
        r matches Some(u) ==> u.buffers <= m.buffers@.len() && u.views <= m.view_buffers@.len(),
{
    let left: usize = m.buffers.len() - used.buffers;
    if f.is_view() {
        if used.views >= m.view_buffers.len() {
            return None;
        }
        let n: i64 = m.view_buffers[used.views];
        assert(m@.view_buffers[used.views as int] == n);
        if n < 0 || n as u64 > left as u64 || left - (n as usize) < 2 {
            return None;
        }
        Some(Used { buffers: used.buffers + n as usize + 2, views: used.views + 1 })
    } else {
        let more: usize = f.own_buffers(m.version);
        if more > left {
            return None;
        }
        Some(Used { buffers: used.buffers + more, views: used.views })
    }
}

fn use_below(meta: &[u8], path: &Vec<usize>, m: &MessageInfo, start: Used) -> (r: Option<Used>)
    requires
        is_path(meta@, path@),
        path@.len() <= MAX_DEPTH,
        start.buffers <= m.buffers@.len(),
        start.views <= m.view_buffers@.len(),
    ensures
        r == used_from(meta@, path@, 0, m@, start),
        r matches Some(u) ==> u.buffers <= m.buffers@.len() && u.views <= m.view_buffers@.len(),
    decreases MAX_DEPTH - path@.len(),
{
    let shapes: Vec<FieldShape> = child_shapes(meta, path);
    let mut used: Used = start;
    let mut i: usize = 0;
    while i < shapes.len()
        invariant
            i <= shapes@.len(),
            shapes@ == arrow_children(meta@, path@),
            is_path(meta@, path@),
            path@.len() >= MAX_DEPTH ==> shapes@.len() == 0,
            path@.len() <= MAX_DEPTH,
            used.buffers <= m.buffers@.len(),
            used.views <= m.view_buffers@.len(),
            used_from(meta@, path@, 0, m@, start) == used_from(meta@, path@, i as int, m@, used),
        decreases shapes@.len() - i,
    {
        let f: FieldShape = shapes[i];
        let own: Used = match use_own(m, f, used) {
            Some(u) => u,
            None => {
                return None;
            },
        };
        if f.is_nested() && !f.in_dictionary {
            let mut inner: Vec<usize> = path.clone();
            inner.push(i);
            proof {
                assert(inner@ =~= path@.push(i));
                lemma_longer_path(meta@, path@, i);
            }
            used = match use_below(meta, &inner, m, own) {
                Some(u) => u,
                None => {
                    return None;
                },
            };
        } else {
            used = own;
        }
        i += 1;
    }
    Some(used)
}

/// The buffers that the columns of a schema use of a batch are there, and lie in its bytes. `meta`
/// is the message with the schema. Buffers that no column uses do not matter.
pub open spec fn batch_is_sound(meta: Seq<u8>, m: MessageView) -> bool {
    match used_from(meta, Seq::empty(), 0, m, Used { buffers: 0, views: 0 }) {
        Some(u) => buffers_fit(m, u.buffers as int),
        None => false,
    }
}

/// Whether the buffers that the columns of a schema use of a batch are there, and lie in its
/// bytes.
pub fn check_batch(meta: &[u8], m: &MessageInfo) -> (r: bool)
    ensures
        r == batch_is_sound(meta@, m@),
{
    let path: Vec<usize> = Vec::new();
    assert(path@ =~= Seq::empty());
    match use_below(meta, &path, m, Used { buffers: 0, views: 0 }) {
        Some(u) => check_buffers(m, u.buffers),
        None => false,
    }
}

} // verus!
