//! The stored forms. A list of identifiers is stored as eight bytes for
//! each, most significant byte first, one after the other; a list of tags is
//! stored as one text, a comma between each tag and the next.

use crate::lesson::Id;
use crate::text::push_char;
use byteorder::{BigEndian, ReadBytesExt, WriteBytesExt};
use vstd::prelude::*;
use vstd::std_specs::iter::IteratorSpec;
use vstd::string::StringExecFns;

verus! {

/// The eight bytes of `id`, most significant first.
pub open spec fn be_bytes(id: u64) -> Seq<u8> {
    seq![
        ((id >> 56) & 0xff) as u8,
        ((id >> 48) & 0xff) as u8,
        ((id >> 40) & 0xff) as u8,
        ((id >> 32) & 0xff) as u8,
        ((id >> 24) & 0xff) as u8,
        ((id >> 16) & 0xff) as u8,
        ((id >> 8) & 0xff) as u8,
        (id & 0xff) as u8,
    ]
}

/// The number that eight bytes hold, most significant first.
pub open spec fn be_value(bytes: Seq<u8>) -> u64 {
    ((bytes[0] as u64) << 56) | ((bytes[1] as u64) << 48) | ((bytes[2] as u64) << 40) | ((
    bytes[3] as u64) << 32) | ((bytes[4] as u64) << 24) | ((bytes[5] as u64) << 16) | ((
    bytes[6] as u64) << 8) | (bytes[7] as u64)
}

/// The stored form of `ids`: the bytes of each identifier, in list order.
pub open spec fn encoded(ids: Seq<Id>) -> Seq<u8> {
    Seq::new(8 * ids.len(), |k: int| be_bytes(ids[k / 8])[k % 8])
}

/// The identifiers that `bytes` store: one for each full run of eight bytes,
/// in order. Bytes left over at the end are ignored.
pub open spec fn decoded(bytes: Seq<u8>) -> Seq<Id> {
    Seq::new(bytes.len() / 8, |i: int| be_value(bytes.subrange(8 * i, 8 * i + 8)))
}

/// The number that the bytes of `id` hold is `id`.
pub proof fn lemma_value_of_bytes(id: u64)
    ensures
        be_bytes(id).len() == 8,
        be_value(be_bytes(id)) == id,
{
    let b0 = ((id >> 56) & 0xff) as u8;
    let b1 = ((id >> 48) & 0xff) as u8;
    let b2 = ((id >> 40) & 0xff) as u8;
    let b3 = ((id >> 32) & 0xff) as u8;
    let b4 = ((id >> 24) & 0xff) as u8;
    let b5 = ((id >> 16) & 0xff) as u8;
    let b6 = ((id >> 8) & 0xff) as u8;
    let b7 = (id & 0xff) as u8;
    assert(((b0 as u64) << 56) | ((b1 as u64) << 48) | ((b2 as u64) << 40) | ((b3 as u64) << 32) | (
    (b4 as u64) << 24) | ((b5 as u64) << 16) | ((b6 as u64) << 8) | (b7 as u64) == id) by (bit_vector)
        requires
            b0 == ((id >> 56) & 0xff) as u8,
            b1 == ((id >> 48) & 0xff) as u8,
            b2 == ((id >> 40) & 0xff) as u8,
            b3 == ((id >> 32) & 0xff) as u8,
            b4 == ((id >> 24) & 0xff) as u8,
            b5 == ((id >> 16) & 0xff) as u8,
            b6 == ((id >> 8) & 0xff) as u8,
            b7 == (id & 0xff) as u8,
    ;
}

/// The bytes of the number that eight bytes hold are those bytes.
pub proof fn lemma_bytes_of_value(bytes: Seq<u8>)
    requires
        bytes.len() == 8,
    ensures
        be_bytes(be_value(bytes)) == bytes,
{
    let b0 = bytes[0];
    let b1 = bytes[1];
    let b2 = bytes[2];
    let b3 = bytes[3];
    let b4 = bytes[4];
    let b5 = bytes[5];
    let b6 = bytes[6];
    let b7 = bytes[7];
    let id = be_value(bytes);
    assert(((id >> 56) & 0xff) as u8 == b0 && ((id >> 48) & 0xff) as u8 == b1 && ((id >> 40)
        & 0xff) as u8 == b2 && ((id >> 32) & 0xff) as u8 == b3 && ((id >> 24) & 0xff) as u8 == b4 && (
    (id >> 16) & 0xff) as u8 == b5 && ((id >> 8) & 0xff) as u8 == b6 && (id & 0xff) as u8 == b7)
        by (bit_vector)
        requires
            id == ((b0 as u64) << 56) | ((b1 as u64) << 48) | ((b2 as u64) << 40) | ((b3 as u64)
                << 32) | ((b4 as u64) << 24) | ((b5 as u64) << 16) | ((b6 as u64) << 8) | (
            b7 as u64),
    ;
    assert(be_bytes(id) =~= bytes);
}

/// Reading back what was stored gives the list that was stored.
pub proof fn law_decode_encoded(ids: Seq<Id>)
    ensures
        decoded(encoded(ids)) == ids,
{
    let bytes = encoded(ids);
    assert(bytes.len() / 8 == ids.len());
    assert forall|i: int| 0 <= i < ids.len() implies decoded(bytes)[i] == ids[i] by {
        let run = bytes.subrange(8 * i, 8 * i + 8);
        lemma_value_of_bytes(ids[i]);
        assert forall|k: int| 0 <= k < 8 implies run[k] == be_bytes(ids[i])[k] by {
            assert(run[k] == bytes[8 * i + k]);
            assert((8 * i + k) / 8 == i);
            assert((8 * i + k) % 8 == k);
        }
        assert(run =~= be_bytes(ids[i]));
    }
    assert(decoded(bytes) =~= ids);
}

/// Storing what was read from full runs of eight bytes gives those bytes.
pub proof fn law_encode_decoded(bytes: Seq<u8>)
    requires
        bytes.len() % 8 == 0,
    ensures
        encoded(decoded(bytes)) == bytes,
{
    let ids = decoded(bytes);
    assert(8 * ids.len() == bytes.len());
    assert forall|k: int| 0 <= k < bytes.len() implies encoded(ids)[k] == bytes[k] by {
        let i = k / 8;
        let run = bytes.subrange(8 * i, 8 * i + 8);
        lemma_bytes_of_value(run);
        assert(run[k % 8] == bytes[8 * i + k % 8]);
    }
    assert(encoded(ids) =~= bytes);
}

/// `byteorder::WriteBytesExt::write_u64` in big-endian order, on a vector of
/// bytes: the eight bytes of `id` are appended, most significant first.
/// Writing to a vector does not fail.
#[verifier::external_body]
fn write_u64_be(writer: &mut Vec<u8>, id: u64)
    ensures
        final(writer)@ == old(writer)@ + be_bytes(id),
{
    let _ = writer.write_u64::<BigEndian>(id);
}

/// `byteorder::ReadBytesExt::read_u64` in big-endian order, on a cursor over
/// the bytes from `at` on: the number that the next eight bytes hold, most
/// significant first, or `None` where fewer than eight bytes are left.
#[verifier::external_body]
fn read_u64_be(bytes: &Vec<u8>, at: usize) -> (id: Option<u64>)
    requires
        at <= bytes.len(),
    ensures
        id == (if at + 8 <= bytes.len() {
            Some(be_value(bytes@.subrange(at as int, at + 8)))
        } else {
            None::<u64>
        }),
{
    std::io::Cursor::new(&bytes[at..]).read_u64::<BigEndian>().ok()
}

/// The stored form of `ids`.
pub fn ids_to_bytes(ids: &Vec<Id>) -> (writer: Vec<u8>)
    ensures
        writer@ == encoded(ids@),
{
    let mut writer: Vec<u8> = Vec::new();
    let mut i: usize = 0;
    while i < ids.len()
        invariant
            i <= ids.len(),
            writer@ == encoded(ids@.subrange(0, i as int)),
        decreases ids.len() - i,
    {
        let ghost before = writer@;
        write_u64_be(&mut writer, ids[i]);
        proof {
            let short = ids@.subrange(0, i as int);
            let long = ids@.subrange(0, i + 1);
            assert forall|k: int| 0 <= k < 8 * long.len() implies writer@[k] == encoded(long)[k] by {
                if k < 8 * short.len() {
                    assert(writer@[k] == before[k]);
                    assert(short[k / 8] == long[k / 8]);
                } else {
                    assert(writer@[k] == be_bytes(ids[i as int])[k - 8 * short.len()]);
                    assert(k / 8 == i);
                    assert(k % 8 == k - 8 * short.len());
                }
            }
            assert(writer@ =~= encoded(long));
        }
        i += 1;
    }
    assert(ids@.subrange(0, ids.len() as int) =~= ids@);
    writer
}

/// The identifiers that `bytes` store.
pub fn ids_from_bytes(bytes: &Vec<u8>) -> (output: Vec<Id>)
    ensures
        output@ == decoded(bytes@),
{
    let mut output: Vec<Id> = Vec::new();
    let mut at: usize = 0;
    loop
        invariant
            at <= bytes.len(),
            at == 8 * output.len(),
            output@ == decoded(bytes@).subrange(0, output.len() as int),
            output.len() <= decoded(bytes@).len(),
        ensures
            output@ == decoded(bytes@),
        decreases bytes.len() - at,
    {
        match read_u64_be(bytes, at) {
            Some(id) => {
                proof {
                    let n = output.len() as int;
                    assert(n < bytes.len() / 8);
                    assert(decoded(bytes@).subrange(0, n + 1) =~= decoded(bytes@).subrange(
                        0,
                        n,
                    ).push(id));
                }
                output.push(id);
                at += 8;
            },
            None => {
                proof {
                    assert(output.len() == bytes.len() / 8);
                    assert(decoded(bytes@).subrange(0, output.len() as int) =~= decoded(bytes@));
                }
                break;
            },
        }
    }
    output
}

/// The tags of a list, as mathematical values.
pub open spec fn tag_views(tags: Seq<String>) -> Seq<Seq<char>> {
    tags.map_values(|tag: String| tag@)
}

/// The stored form of `tags`: the tags in list order, a comma between each
/// and the next.
pub open spec fn joined(tags: Seq<Seq<char>>) -> Seq<char>
    decreases tags.len(),
{
    if tags.len() == 0 {
        Seq::empty()
    } else if tags.len() == 1 {
        tags[0]
    } else {
        joined(tags.drop_last()) + seq![','] + tags.last()
    }
}

/// The tags that `text` stores: the runs of characters between its commas,
/// in order. A text without comma stores one tag, which an empty text
/// stores too.
pub open spec fn split(text: Seq<char>) -> Seq<Seq<char>>
    decreases text.len(),
{
    if text.len() == 0 {
        seq![Seq::empty()]
    } else if text.last() == ',' {
        split(text.drop_last()).push(Seq::empty())
    } else {
        split(text.drop_last()).drop_last().push(split(text.drop_last()).last().push(text.last()))
    }
}

/// A text stores at least one tag.
pub proof fn lemma_split_some(text: Seq<char>)
    ensures
        split(text).len() > 0,
    decreases text.len(),
{
    if text.len() > 0 {
        lemma_split_some(text.drop_last());
    }
}

/// What a text stores once a run without comma follows it: what it stored,
/// with the run at the end of the last tag.
pub proof fn lemma_split_run(text: Seq<char>, run: Seq<char>)
    requires
        !run.contains(','),
    ensures
        split(text).len() > 0,
        split(text + run) == split(text).drop_last().push(split(text).last() + run),
    decreases run.len(),
{
    lemma_split_some(text);
    if run.len() == 0 {
        assert(text + run =~= text);
        assert(split(text).last() + run =~= split(text).last());
        assert(split(text).drop_last().push(split(text).last()) =~= split(text));
    } else {
        let front = run.drop_last();
        assert(!front.contains(',')) by {
            if front.contains(',') {
                let k = choose|k: int| 0 <= k < front.len() && front[k] == ',';
                assert(run[k] == ',');
            }
        }
        assert(run[run.len() - 1] != ',');
        lemma_split_run(text, front);
        assert((text + run).drop_last() =~= text + front);
        assert((text + run).last() == run.last());
        assert((split(text).last() + front).push(run.last()) =~= split(text).last() + run);
        let before = split(text + front);
        assert(before.drop_last() =~= split(text).drop_last());
    }
}

/// Reading back the stored form of at least one tag, none of which holds a
/// comma, gives the tags that were stored.
pub proof fn law_split_joined(tags: Seq<Seq<char>>)
    requires
        tags.len() > 0,
        forall|i: int| 0 <= i < tags.len() ==> !(#[trigger] tags[i]).contains(','),
    ensures
        split(joined(tags)) == tags,
    decreases tags.len(),
{
    if tags.len() == 1 {
        lemma_split_run(Seq::empty(), tags[0]);
        assert(Seq::<char>::empty() + tags[0] =~= tags[0]);
        assert(split(Seq::<char>::empty()) =~= seq![Seq::<char>::empty()]);
        assert(Seq::<char>::empty() + tags[0] =~= tags[0]);
        assert(split(joined(tags)) =~= tags);
    } else {
        let front = tags.drop_last();
        assert forall|i: int| 0 <= i < front.len() implies !(#[trigger] front[i]).contains(',') by {
            assert(front[i] == tags[i]);
        }
        law_split_joined(front);
        let text = joined(front) + seq![','];
        assert(text.drop_last() =~= joined(front));
        assert(text.last() == ',');
        assert(split(text) == front.push(Seq::empty()));
        lemma_split_run(text, tags.last());
        assert(Seq::<char>::empty() + tags.last() =~= tags.last());
        assert(front.push(Seq::empty()).drop_last() =~= front);
        assert(front.push(tags.last()) =~= tags);
    }
}

/// The stored form of `tags`.
pub fn tags_to_text(tags: &Vec<String>) -> (text: String)
    ensures
        text@ == joined(tag_views(tags@)),
{
    let mut text = String::new();
    let mut i: usize = 0;
    while i < tags.len()
        invariant
            i <= tags.len(),
            text@ == joined(tag_views(tags@).subrange(0, i as int)),
        decreases tags.len() - i,
    {
        let ghost before = text@;
        if i > 0 {
            push_char(&mut text, ',');
        }
        text.append(tags[i].as_str());
        proof {
            let done = tag_views(tags@).subrange(0, i as int);
            let next = tag_views(tags@).subrange(0, i + 1);
            assert(next.drop_last() =~= done);
            assert(next.last() == tags@[i as int]@);
            if i == 0 {
                assert(before + tags@[i as int]@ =~= tags@[i as int]@);
            } else {
                assert(before.push(',') + tags@[i as int]@ =~= before + seq![','] + tags@[i as int]@);
            }
        }
        i += 1;
    }
    assert(tag_views(tags@).subrange(0, tags.len() as int) =~= tag_views(tags@));
    text
}

/// The tags that `text` stores.
pub fn tags_from_text(text: &str) -> (tags: Vec<String>)
    ensures
        tag_views(tags@) == split(text@),
{
    let mut tags: Vec<String> = Vec::new();
    let mut current = String::new();
    assert(tag_views(tags@).push(current@) =~= split(text@.subrange(0, 0)));
    for c in iter: text.chars()
        invariant
            iter.seq() == text@,
            tag_views(tags@).push(current@) == split(text@.subrange(0, iter.index() as int)),
    {
        let ghost done = text@.subrange(0, iter.index() as int);
        let ghost next = text@.subrange(0, iter.index() + 1);
        let ghost before = tag_views(tags@);
        let ghost run = current@;
        proof {
            assert(next.drop_last() =~= done);
            assert(next.last() == c);
        }
        if c == ',' {
            tags.push(current);
            current = String::new();
            proof {
                assert(tag_views(tags@) =~= before.push(run));
            }
        } else {
            push_char(&mut current, c);
            proof {
                assert(before.push(run).drop_last() =~= before);
            }
        }
    }
    let ghost before = tag_views(tags@);
    tags.push(current);
    proof {
        assert(text@.subrange(0, text@.len() as int) =~= text@);
        assert(tag_views(tags@) =~= before.push(current@));
    }
    tags
}

} // verus!
