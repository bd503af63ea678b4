//! What the bytes of create contexts mean.

use crate::create_context::{
    chain_contexts, context_models, entry_bytes, entry_context, header_bytes, linked_entry,
    packable, packed_contexts, parsed_contexts, ContextModel, CreateContext,
};
use crate::wire::{le_bytes, u16_at, u32_at};
use vstd::prelude::*;

verus! {

/// The number in the two bytes at `at`, lowest first.
pub open spec fn two_bytes(bytes: Seq<u8>, at: int) -> int {
    bytes[at] + bytes[at + 1] * 0x100
}

/// The number in the four bytes at `at`, lowest first.
pub open spec fn four_bytes(bytes: Seq<u8>, at: int) -> int {
    bytes[at] + bytes[at + 1] * 0x100 + bytes[at + 2] * 0x1_0000 + bytes[at + 3] * 0x100_0000
}

/// Where the data of a context with a name of this length starts: on the first
/// multiple of eight behind the header and the name.
pub open spec fn data_offset(name_len: int) -> int {
    if name_len % 8 == 0 {
        16 + name_len
    } else {
        16 + name_len + 8 - name_len % 8
    }
}

/// Fields are little-endian.
pub proof fn law_fields_are_little_endian(bytes: Seq<u8>, at: int)
    ensures
        u16_at(bytes, at) == two_bytes(bytes, at),
        u32_at(bytes, at) == four_bytes(bytes, at),
{
}

/// A number that fits is written so that it reads back.
pub proof fn law_numbers_read_back(value: nat)
    ensures
        value <= u16::MAX ==> le_bytes(value, 2).len() == 2 && two_bytes(le_bytes(value, 2), 0)
            == value,
        value <= u32::MAX ==> le_bytes(value, 4).len() == 4 && four_bytes(le_bytes(value, 4), 0)
            == value,
{
    if value <= u16::MAX {
        crate::wire::lemma_le_u16(value);
    }
    if value <= u32::MAX {
        crate::wire::lemma_le_u32(value);
    }
}

/// A context is read if and only if its name and its data lie within its bytes.
/// They are the bytes that its header points to: the name by the fields at 4 and
/// 6, the data by those at 10 and 12. Data of length zero lies anywhere.
pub proof fn law_context_is_what_its_header_points_to(entry: Seq<u8>, i: int)
    requires
        entry.len() >= 16,
    ensures
        ({
            let name_at = two_bytes(entry, 4);
            let name_len = two_bytes(entry, 6);
            let data_at = two_bytes(entry, 10);
            let data_len = four_bytes(entry, 12);
            &&& entry_context(entry) is Some <==> name_at + name_len <= entry.len() && (data_len
                == 0 || data_at + data_len <= entry.len())
            &&& entry_context(entry) matches Some(context) ==> {
                &&& context.name.len() == name_len
                &&& context.data.len() == data_len
                &&& 0 <= i < name_len ==> context.name[i] == entry[name_at + i]
                &&& 0 <= i < data_len ==> context.data[i] == entry[data_at + i]
            }
        }),
{
}

/// A list of contexts holds the names and data of its contexts, in order.
pub proof fn law_contexts_hold_their_names_and_data(contexts: Seq<CreateContext>, i: int)
    ensures
        context_models(contexts).len() == contexts.len(),
        0 <= i < contexts.len() ==> context_models(contexts)[i].name == contexts[i].name@
            && context_models(contexts)[i].data == contexts[i].data@,
{
}

/// No bytes are no contexts, and fewer than a header are an error.
pub proof fn law_short_chains(bytes: Seq<u8>)
    ensures
        bytes.len() == 0 ==> parsed_contexts(bytes) == Some(Seq::<ContextModel>::empty()),
        0 < bytes.len() < 16 ==> parsed_contexts(bytes) is None,
{
}

/// A chain whose first field is zero is one context.
pub proof fn law_last_context_ends_the_chain(bytes: Seq<u8>)
    requires
        bytes.len() >= 16,
        four_bytes(bytes, 0) == 0,
    ensures
        parsed_contexts(bytes) is Some <==> entry_context(bytes) is Some,
        parsed_contexts(bytes) matches Some(contexts) ==> contexts.len() == 1
            && entry_context(bytes) == Some(contexts[0]),
{
}

/// Otherwise the field says where the next context starts, behind a header and
/// within the bytes. The chain is what stands before that, followed by the chain
/// that starts there. Where either cannot be read, neither can the whole.
pub proof fn law_chain_goes_on_where_it_says(bytes: Seq<u8>)
    requires
        bytes.len() >= 16,
        four_bytes(bytes, 0) != 0,
    ensures
        ({
            let next = four_bytes(bytes, 0);
            let fits = 16 <= next < bytes.len();
            &&& !fits ==> parsed_contexts(bytes) is None
            &&& fits ==> (parsed_contexts(bytes) is Some <==> entry_context(
                bytes.take(next),
            ) is Some && parsed_contexts(bytes.skip(next)) is Some)
            &&& fits && parsed_contexts(bytes) is Some ==> {
                let contexts = parsed_contexts(bytes)->0;
                &&& contexts.len() > 0
                &&& entry_context(bytes.take(next)) == Some(contexts[0])
                &&& parsed_contexts(bytes.skip(next)) == Some(contexts.drop_first())
            }
        }),
{
    let next = four_bytes(bytes, 0);
    if 16 <= next < bytes.len() && chain_contexts(bytes) is Some {
        let rest = chain_contexts(bytes.skip(next))->0;
        assert(chain_contexts(bytes)->0 =~= seq![chain_contexts(bytes)->0[0]] + rest);
        assert((chain_contexts(bytes)->0).drop_first() =~= rest);
    }
}

/// A context can be written if and only if its fields can hold where its data
/// starts and, rounded up to a multiple of eight, how long it is.
pub proof fn law_context_is_packable_if_its_fields_hold_it(context: ContextModel)
    ensures
        ({
            let len = data_offset(context.name.len() as int) + context.data.len();
            packable(context) <==> data_offset(context.name.len() as int) <= 0xffff && (len + 7) / 8
                * 8 <= 0xffff_ffff
        }),
{
}

/// A single context, byte by byte: no next one, the name at 16, its length, two
/// zeros, where the data starts, its length, the name, zeros, the data.
pub proof fn law_context_bytes(context: ContextModel, i: int)
    requires
        packable(context),
    ensures
        ({
            let bytes = packed_contexts(seq![context]);
            let name_len = context.name.len() as int;
            let data_len = context.data.len() as int;
            let data_at = data_offset(name_len);
            &&& bytes.len() == data_at + data_len
            &&& four_bytes(bytes, 0) == 0
            &&& two_bytes(bytes, 4) == 16
            &&& two_bytes(bytes, 6) == name_len
            &&& two_bytes(bytes, 8) == 0
            &&& two_bytes(bytes, 10) == (if data_len > 0 {
                data_at
            } else {
                0
            })
            &&& four_bytes(bytes, 12) == data_len
            &&& 0 <= i < name_len ==> bytes[16 + i] == context.name[i]
            &&& 16 + name_len <= i < data_at ==> bytes[i] == 0
            &&& 0 <= i < data_len ==> bytes[data_at + i] == context.data[i]
        }),
{
    lemma_context_bytes(context, 0, i);
    assert(seq![context][0] == context);
}

/// The data of a context starts where its format says.
proof fn lemma_data_offset(context: ContextModel)
    ensures
        crate::create_context::data_start(context) == data_offset(context.name.len() as int),
{
}

/// The fields of a header, whatever follows it.
proof fn lemma_header_fields(
    next: int,
    name_len: int,
    data_at: int,
    data_len: int,
    rest: Seq<u8>,
)
    requires
        0 <= next <= u32::MAX,
        0 <= name_len <= u16::MAX,
        0 <= data_at <= u16::MAX,
        0 <= data_len <= u32::MAX,
    ensures
        ({
            let header = header_bytes(next, name_len, data_at, data_len);
            let bytes = header + rest;
            &&& header.len() == 16
            &&& four_bytes(bytes, 0) == next
            &&& two_bytes(bytes, 4) == 16
            &&& two_bytes(bytes, 6) == name_len
            &&& two_bytes(bytes, 8) == 0
            &&& two_bytes(bytes, 10) == data_at
            &&& four_bytes(bytes, 12) == data_len
        }),
{
    let header = header_bytes(next, name_len, data_at, data_len);
    let bytes = header + rest;
    crate::create_context::lemma_header(next, name_len, data_at, data_len, rest);
    crate::wire::lemma_le_bytes_len(next as nat, 4);
    crate::wire::lemma_le_bytes_len(16, 2);
    crate::wire::lemma_le_bytes_len(name_len as nat, 2);
    crate::wire::lemma_le_bytes_len(data_at as nat, 2);
    crate::wire::lemma_le_bytes_len(data_len as nat, 4);
    assert(header[8] == 0 && header[9] == 0);
    assert(bytes[8] == header[8] && bytes[9] == header[9]);
    law_fields_are_little_endian(bytes, 0);
    law_fields_are_little_endian(bytes, 4);
    law_fields_are_little_endian(bytes, 6);
    law_fields_are_little_endian(bytes, 10);
    law_fields_are_little_endian(bytes, 12);
}

/// A header of 16 bytes, a name, a gap and data, in one piece.
proof fn lemma_parts(
    header: Seq<u8>,
    name: Seq<u8>,
    gap: Seq<u8>,
    data: Seq<u8>,
    i: int,
)
    requires
        header.len() == 16,
    ensures
        ({
            let bytes = header + (name + gap + data);
            let data_at = 16 + name.len() + gap.len();
            &&& header + name + gap + data == bytes
            &&& bytes.len() == data_at + data.len()
            &&& 0 <= i < name.len() ==> bytes[16 + i] == name[i]
            &&& 16 + name.len() <= i < data_at ==> bytes[i] == gap[i - 16 - name.len()]
            &&& 0 <= i < data.len() ==> bytes[data_at + i] == data[i]
        }),
{
    assert(header + name + gap + data =~= header + (name + gap + data));
}

/// A context, byte by byte, `next` bytes before the one that follows.
proof fn lemma_context_bytes(context: ContextModel, next: int, i: int)
    requires
        packable(context),
        0 <= next <= u32::MAX,
    ensures
        ({
            let bytes = entry_bytes(context, next);
            let name_len = context.name.len() as int;
            let data_len = context.data.len() as int;
            let data_at = data_offset(name_len);
            &&& bytes.len() == data_at + data_len
            &&& four_bytes(bytes, 0) == next
            &&& two_bytes(bytes, 4) == 16
            &&& two_bytes(bytes, 6) == name_len
            &&& two_bytes(bytes, 8) == 0
            &&& two_bytes(bytes, 10) == (if data_len > 0 {
                data_at
            } else {
                0
            })
            &&& four_bytes(bytes, 12) == data_len
            &&& 0 <= i < name_len ==> bytes[16 + i] == context.name[i]
            &&& 16 + name_len <= i < data_at ==> bytes[i] == 0
            &&& 0 <= i < data_len ==> bytes[data_at + i] == context.data[i]
        }),
{
    let name_len = context.name.len() as int;
    let data_len = context.data.len() as int;
    lemma_data_offset(context);
    let start = data_offset(name_len);
    let data_at = if data_len > 0 {
        start
    } else {
        0
    };
    let gap = crate::wire::zeros((start - 16 - name_len) as nat);
    let header = header_bytes(next, name_len, data_at, data_len);
    lemma_header_fields(next, name_len, data_at, data_len, context.name + gap + context.data);
    lemma_parts(header, context.name, gap, context.data, i);
}

/// A context before others is the same bytes, but for the distance to the next
/// one, and zeros up to the next multiple of eight, where the others start.
pub proof fn law_linked_context_bytes(contexts: Seq<ContextModel>, i: int)
    requires
        contexts.len() >= 2,
        packable(contexts[0]),
    ensures
        ({
            let bytes = packed_contexts(contexts);
            let alone = packed_contexts(seq![contexts[0]]);
            let next = four_bytes(bytes, 0);
            &&& next % 8 == 0
            &&& alone.len() <= next < alone.len() + 8
            &&& next <= bytes.len()
            &&& 4 <= i < alone.len() ==> bytes[i] == alone[i]
            &&& alone.len() <= i < next ==> bytes[i] == 0
            &&& bytes.skip(next) == packed_contexts(contexts.drop_first())
        }),
{
    let rest = packed_contexts(contexts.drop_first());
    assert(seq![contexts[0]][0] == contexts[0]);
    assert(packed_contexts(contexts) == linked_entry(contexts[0]) + rest);
    assert(packed_contexts(seq![contexts[0]]) == entry_bytes(contexts[0], 0));
    lemma_linked_bytes(contexts[0], rest, i);
}

/// The same of one context and the bytes of the others.
proof fn lemma_linked_bytes(context: ContextModel, rest: Seq<u8>, i: int)
    requires
        packable(context),
    ensures
        ({
            let bytes = linked_entry(context) + rest;
            let alone = entry_bytes(context, 0);
            let next = four_bytes(bytes, 0);
            &&& next % 8 == 0
            &&& alone.len() <= next < alone.len() + 8
            &&& next <= bytes.len()
            &&& 4 <= i < alone.len() ==> bytes[i] == alone[i]
            &&& alone.len() <= i < next ==> bytes[i] == 0
            &&& bytes.skip(next) == rest
        }),
{
    let len = crate::create_context::entry_len(context);
    let next = crate::create_context::aligned(len);
    let padding = crate::wire::zeros((next - len) as nat);
    let linked = entry_bytes(context, next);
    lemma_context_bytes(context, 0, i);
    lemma_context_bytes(context, next, i);
    if 4 <= i < entry_bytes(context, 0).len() {
        lemma_same_but_for_next(context, next, i);
    }
    lemma_data_offset(context);
    lemma_first_part(linked, padding, rest, i);
}

/// Contexts that differ in the distance to the next one differ in four bytes.
proof fn lemma_same_but_for_next(context: ContextModel, next: int, i: int)
    requires
        packable(context),
        0 <= next <= u32::MAX,
        4 <= i < entry_bytes(context, 0).len(),
    ensures
        entry_bytes(context, next)[i] == entry_bytes(context, 0)[i],
{
    let one = entry_bytes(context, next);
    let other = entry_bytes(context, 0);
    crate::wire::lemma_le_bytes_len(0, 4);
    crate::wire::lemma_le_bytes_len(next as nat, 4);
    assert(one.skip(4) =~= other.skip(4));
    assert(one[i] == one.skip(4)[i - 4]);
    assert(other[i] == other.skip(4)[i - 4]);
}

proof fn lemma_first_part(first: Seq<u8>, padding: Seq<u8>, rest: Seq<u8>, i: int)
    requires
        first.len() >= 4,
    ensures
        ({
            let bytes = first + padding + rest;
            &&& four_bytes(bytes, 0) == four_bytes(first, 0)
            &&& 0 <= i < first.len() ==> bytes[i] == first[i]
            &&& first.len() <= i < first.len() + padding.len() ==> bytes[i] == padding[i
                - first.len()]
            &&& bytes.skip((first.len() + padding.len()) as int) == rest
        }),
{
    assert((first + padding + rest).skip((first.len() + padding.len()) as int) =~= rest);
}

/// What was written is what is read: contexts come back in number, order, name
/// and data.
pub proof fn law_written_contexts_read_back(contexts: Seq<ContextModel>)
    requires
        forall|i: int| 0 <= i < contexts.len() ==> packable(#[trigger] contexts[i]),
    ensures
        parsed_contexts(packed_contexts(contexts)) == Some(contexts),
{
    crate::create_context::lemma_packed_contexts_parse(contexts);
}

} // verus!
