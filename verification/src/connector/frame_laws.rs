//! What holds of the bytes of a stream: a message that was written is found where it stands, one
//! that was cut off is not, and the batches come in the order in which they stand.
use crate::connector::client;
use crate::connector::frames;
use crate::connector::frames::{FieldShape, FrameView, MessageView, Used};
use vstd::prelude::*;

verus! {

/// Four bytes stand for `n`, the lowest first.
pub open spec fn stand_for(word: Seq<u8>, n: int) -> bool {
    word.len() == 4 && n == word[0] + 256 * (word[1] + 256 * (word[2] + 256 * word[3]))
}

/// The bytes of a message: a marker of four bytes that are all ones, where there is one, the length
/// of its description, the description and what it describes.
pub open spec fn written(marked: bool, word: Seq<u8>, description: Seq<u8>, body: Seq<u8>) -> Seq<
    u8,
> {
    (if marked {
        seq![255u8, 255u8, 255u8, 255u8]
    } else {
        Seq::empty()
    }) + word + description + body
}

/// A message is found where it stands, whatever is in front of it and after it.
pub proof fn written_messages_are_found(
    before: Seq<u8>,
    marked: bool,
    word: Seq<u8>,
    description: Seq<u8>,
    body: Seq<u8>,
    after: Seq<u8>,
)
    requires
        stand_for(word, description.len() as int),
        0 < description.len() <= i32::MAX,
        frames::arrow_message(description) is Some,
        frames::arrow_message(description)->0.body_length == body.len(),
    ensures
        ({
            let data = before + written(marked, word, description, body) + after;
            let meta = before.len() + (if marked {
                8int
            } else {
                4
            });
            frames::frame_at(data, before.len() as int) == (FrameView::Message {
                meta,
                body: meta + description.len(),
                end: meta + description.len() + body.len(),
            })
        }),
{
    let data = before + written(marked, word, description, body) + after;
    let pos = before.len() as int;
    let at = pos + (if marked {
        4int
    } else {
        0
    });
    let meta = at + 4;
    assert(data[at] == word[0]);
    assert(data[at + 1] == word[1]);
    assert(data[at + 2] == word[2]);
    assert(data[at + 3] == word[3]);
    assert(data.subrange(meta, meta + description.len()) =~= description);
    if marked {
        assert(data[pos] == 255u8);
        assert(data[pos + 1] == 255u8);
        assert(data[pos + 2] == 255u8);
        assert(data[pos + 3] == 255u8);
    }
}

/// A message of which a part was cut off is not found.
pub proof fn cut_off_messages_are_not_found(data: Seq<u8>, pos: int, meta: int, body: int, end: int, cut: int)
    requires
        0 <= pos,
        frames::frame_at(data, pos) == (FrameView::Message { meta, body, end }),
        pos + 4 <= cut < end,
    ensures
        frames::frame_at(data.take(cut), pos) is Broken,
{
    let part = data.take(cut);
    assert(frames::word_at(part, pos) == frames::word_at(data, pos));
    if meta <= cut {
        assert(frames::word_at(part, meta - 4) == frames::word_at(data, meta - 4));
    }
    if body <= cut {
        assert(part.subrange(meta, body) =~= data.subrange(meta, body));
    }
}

/// A stream ends where its bytes do, or at a length of zero, and nowhere else.
pub proof fn streams_end_with_their_bytes(data: Seq<u8>, pos: int)
    requires
        0 <= pos <= data.len(),
    ensures
        frames::frame_at(data, pos) is End <==> {
            ||| data.len() < pos + 4
            ||| forall|i: int| pos <= i < pos + 4 ==> data[i] == 0
            ||| data.len() >= pos + 8 && (forall|i: int| pos <= i < pos + 4 ==> data[i] == 255) && (
            forall|i: int| pos + 4 <= i < pos + 8 ==> data[i] == 0)
        },
{
    if data.len() >= pos + 4 {
        assert(frames::word_at(data, pos) == 0 <==> forall|i: int|
            pos <= i < pos + 4 ==> data[i] == 0);
        assert(frames::word_at(data, pos) == frames::CONTINUATION <==> forall|i: int|
            pos <= i < pos + 4 ==> data[i] == 255) by {
            if frames::word_at(data, pos) == frames::CONTINUATION {
                assert(data[pos] == 255 && data[pos + 1] == 255 && data[pos + 2] == 255 && data[pos
                    + 3] == 255);
            }
        }
        if data.len() >= pos + 8 {
            assert(frames::word_at(data, pos + 4) == 0 <==> forall|i: int|
                pos + 4 <= i < pos + 8 ==> data[i] == 0);
        }
    }
}

/// Batches come in the order in which they stand in the stream, and one that cannot be read spoils
/// the whole of it.
pub proof fn batches_come_in_order(
    data: Seq<u8>,
    schema: Seq<u8>,
    described: Seq<u8>,
    cols: Seq<usize>,
    pos: int,
    meta: int,
    body: int,
    end: int,
)
    requires
        0 <= pos <= data.len(),
        frames::frame_at(data, pos) == (FrameView::Message { meta, body, end }),
        frames::message_at(data, meta, body).header == 3,
    ensures
        ({
            let all = client::batches_from(data, schema, described, cols, pos);
            let rest = client::batches_from(data, schema, described, cols, end);
            let here = client::arrow_batch(schema, data.subrange(pos, end), cols);
            &&& all is Some ==> {
                &&& here is Some && rest is Some
                &&& all->0.len() == rest->0.len() + 1
                &&& all->0[0] == here->0
                &&& forall|i: int| #![trigger all->0[i + 1]] 0 <= i < rest->0.len() ==> all->0[i + 1]
                    == rest->0[i]
            }
            &&& all is None ==> here is None || rest is None || !frames::batch_is_sound(
                described,
                frames::message_at(data, meta, body),
            )
        }),
{
    frames::lemma_cut_out(data, pos, meta, body, end);
}

/// Messages with the values of a dictionary that the stream knows are passed over, and a second
/// schema or a message of another kind spoils the stream.
pub proof fn dictionaries_are_passed_over(
    data: Seq<u8>,
    schema: Seq<u8>,
    described: Seq<u8>,
    cols: Seq<usize>,
    pos: int,
    meta: int,
    body: int,
    end: int,
)
    requires
        0 <= pos <= data.len(),
        frames::frame_at(data, pos) == (FrameView::Message { meta, body, end }),
    ensures
        ({
            let m = frames::message_at(data, meta, body);
            let all = client::batches_from(data, schema, described, cols, pos);
            &&& m.header == 2 && m.dictionary is Some && client::arrow_has_dictionary(
                schema,
                m.dictionary->0,
            ) ==> all == client::batches_from(data, schema, described, cols, end)
            &&& m.header == 2 && m.dictionary is None ==> all is None
            &&& m.header != 2 && m.header != 3 ==> all is None
        }),
{
    frames::lemma_cut_out(data, pos, meta, body, end);
}

/// A column uses at least one buffer of a batch for each part of it that the format has, and never
/// more than the batch has.
pub proof fn columns_use_what_is_there(m: MessageView, f: FieldShape, used: Used)
    requires
        m.buffers.len() <= usize::MAX,
        m.view_buffers.len() <= usize::MAX,
    ensures
        frames::after_own(m, f, used) matches Some(u) ==> {
            &&& used.buffers <= u.buffers <= m.buffers.len()
            &&& used.views <= u.views <= used.views + 1
            &&& u.views != used.views ==> u.views <= m.view_buffers.len() && u.buffers
                == used.buffers + 2 + m.view_buffers[used.views as int]
            &&& u.views == used.views ==> u.buffers <= used.buffers + 3
        },
{
}

/// Every buffer that a sound batch uses lies within the bytes that follow its message.
pub proof fn used_buffers_lie_in_the_body(
    described: Seq<u8>,
    m: MessageView,
    i: int,
) -> (used: Used)
    requires
        frames::batch_is_sound(described, m),
    ensures
        frames::used_from(described, Seq::empty(), 0, m, Used { buffers: 0, views: 0 }) == Some(
            used,
        ),
        used.buffers <= m.buffers.len(),
        0 <= i < used.buffers ==> 0 <= m.buffers[i].0 <= m.buffers[i].0 + m.buffers[i].1
            <= m.body_length,
{
    frames::used_from(described, Seq::empty(), 0, m, Used { buffers: 0, views: 0 })->0
}

/// A column of views uses as many buffers as the batch counts for it, and two more; without a count
/// that it can use, and without that many buffers, the batch cannot be read.
pub proof fn views_use_what_is_counted(m: MessageView, f: FieldShape, used: Used)
    requires
        f.spec_is_view(),
        m.buffers.len() <= usize::MAX,
        m.view_buffers.len() <= usize::MAX,
    ensures
        frames::after_own(m, f, used) is Some <==> {
            &&& used.views < m.view_buffers.len()
            &&& m.view_buffers[used.views as int] >= 0
            &&& used.buffers + 2 + m.view_buffers[used.views as int] <= m.buffers.len()
        },
{
}

/// Buffers that lie within the bytes of a message fit, at their very start and end, too.
pub proof fn buffers_within_the_body_fit(m: MessageView, used: int)
    requires
        used <= m.buffers.len(),
        forall|i: int|
            #![trigger m.buffers[i]]
            0 <= i < used ==> m.buffers[i].0 >= 0 && m.buffers[i].1 >= 0 && m.buffers[i].0
                + m.buffers[i].1 <= m.body_length,
    ensures
        frames::buffers_fit(m, used),
{
}

/// Columns of views are those of bytes and of text by views, and columns are made of others where
/// they are lists, maps, structs, unions or runs; a dictionary in place of the values leaves no
/// views.
pub proof fn kinds_of_columns_are_known_by_number(f: FieldShape)
    ensures
        f.spec_is_view() <==> !f.in_dictionary && seq![23u8, 24u8].contains(f.type_id),
        f.spec_is_nested() <==> seq![
            12u8,
            13u8,
            14u8,
            16u8,
            17u8,
            21u8,
            22u8,
            25u8,
            26u8,
        ].contains(f.type_id),
{
    let views = seq![23u8, 24u8];
    assert(views[0] == 23 && views[1] == 24);
    let nested = seq![12u8, 13u8, 14u8, 16u8, 17u8, 21u8, 22u8, 25u8, 26u8];
    assert(nested[0] == 12 && nested[1] == 13 && nested[2] == 14 && nested[3] == 16 && nested[4]
        == 17 && nested[5] == 21 && nested[6] == 22 && nested[7] == 25 && nested[8] == 26);
}

/// A column has a buffer for missing values and one for the values; text and bytes have one more
/// for where each value ends, as have views of lists for how long each one is; structs and lists of
/// a fixed length have none for values; and neither what is always missing nor runs have any. Only
/// a union's buffers depend on the version of the format.
pub proof fn buffers_of_columns_are_known_by_number(f: FieldShape, version: int, other: int)
    ensures
        f.in_dictionary ==> f.spec_own_buffers(version) == 2,
        !f.in_dictionary && f.type_id != 14 ==> {
            let n = f.spec_own_buffers(version);
            &&& n == f.spec_own_buffers(other)
            &&& n == 0 <==> seq![1u8, 22u8].contains(f.type_id)
            &&& n == 1 <==> seq![13u8, 16u8].contains(f.type_id)
            &&& n == 3 <==> seq![4u8, 5u8, 19u8, 20u8, 25u8, 26u8].contains(f.type_id)
            &&& 0 <= n <= 3
        },
        !f.in_dictionary && f.type_id == 14 ==> {
            &&& version >= 4 ==> f.spec_own_buffers(version) == (if f.union_mode == Some(1i16) {
                2int
            } else {
                1
            })
            &&& version < 4 && other >= 4 ==> f.spec_own_buffers(version) == f.spec_own_buffers(
                other,
            ) + 1
        },
{
    let none = seq![1u8, 22u8];
    let one = seq![13u8, 16u8];
    let three = seq![4u8, 5u8, 19u8, 20u8, 25u8, 26u8];
    assert(none[0] == 1 && none[1] == 22);
    assert(one[0] == 13 && one[1] == 16);
    assert(three[0] == 4 && three[1] == 5 && three[2] == 19 && three[3] == 20 && three[4] == 25
        && three[5] == 26);
}

/// The buffers that columns from the one at `i` on have of their own, added up.
pub open spec fn own_total(shapes: Seq<FieldShape>, version: int, i: int) -> int
    decreases shapes.len() - i,
{
    if i < 0 || i >= shapes.len() {
        0
    } else {
        shapes[i].spec_own_buffers(version) + own_total(shapes, version, i + 1)
    }
}

/// The columns of a schema in which no column is made of others, or of views, use the buffers that
/// each of them has, in all; they can be read just if the batch has that many.
pub proof fn plain_columns_use_their_buffers(
    meta: Seq<u8>,
    i: int,
    m: MessageView,
    used: Used,
)
    requires
        0 <= i <= frames::arrow_children(meta, Seq::empty()).len(),
        m.buffers.len() <= usize::MAX,
        used.buffers <= m.buffers.len(),
        forall|c: int|
            #![trigger frames::arrow_children(meta, Seq::empty())[c]]
            0 <= c < frames::arrow_children(meta, Seq::empty()).len() ==> {
                let f = frames::arrow_children(meta, Seq::empty())[c];
                !f.spec_is_view() && !f.spec_is_nested()
            },
    ensures
        ({
            let total = used.buffers + own_total(
                frames::arrow_children(meta, Seq::empty()),
                m.version,
                i,
            );
            &&& frames::used_from(meta, Seq::empty(), i, m, used) is Some <==> total
                <= m.buffers.len()
            &&& frames::used_from(meta, Seq::empty(), i, m, used) matches Some(u) ==> u.buffers
                == total && u.views == used.views
        }),
    decreases frames::arrow_children(meta, Seq::empty()).len() - i,
{
    let shapes = frames::arrow_children(meta, Seq::empty());
    if i < shapes.len() {
        lemma_own_total(shapes, m.version, i + 1);
        let f = shapes[i];
        if let Some(u) = frames::after_own(m, f, used) {
            plain_columns_use_their_buffers(meta, i + 1, m, u);
        }
    }
}

proof fn lemma_own_total(shapes: Seq<FieldShape>, version: int, i: int)
    ensures
        own_total(shapes, version, i) >= 0,
    decreases shapes.len() - i,
{
    if 0 <= i < shapes.len() {
        lemma_own_total(shapes, version, i + 1);
    }
}

} // verus!
