//! The chain of contexts that extends a CREATE request or response.
//!
//! Each context starts with a header of 16 bytes: the distance to the next
//! context (4 bytes, zero in the last one), where its name stands (2 bytes) and
//! how long that is (2 bytes), 2 reserved bytes, where its data stands (2 bytes)
//! and how long that is (4 bytes). Positions count from the start of the
//! context. Names, data and contexts start on multiples of eight.

use crate::error::SmbError;
use crate::wire::{read_bytes, read_u16, read_u32, write_bytes, write_le, write_zeros};
use vstd::prelude::*;

verus! {

/// A named piece of data in a CREATE request or response.
pub struct CreateContext {
    pub name: Vec<u8>,
    pub data: Vec<u8>,
}

/// What a create context holds.
#[verifier::ext_equal]
pub struct ContextModel {
    pub name: Seq<u8>,
    pub data: Seq<u8>,
}

impl View for CreateContext {
    type V = ContextModel;

    open spec fn view(&self) -> ContextModel {
        ContextModel { name: self.name@, data: self.data@ }
    }
}

/// What each context of a list holds.
pub open spec fn context_models(contexts: Seq<CreateContext>) -> Seq<ContextModel> {
    contexts.map_values(|context: CreateContext| context@)
}

/// The length of a context header.
pub const HEADER_LEN: usize = 16;

/// The next multiple of eight.
pub open spec fn aligned(len: int) -> int {
    (len + 7) / 8 * 8
}

/// The context that fills `entry`, if its name and data lie within.
pub open spec fn entry_context(entry: Seq<u8>) -> Option<ContextModel> {
    let name_at = crate::wire::u16_at(entry, 4);
    let name_len = crate::wire::u16_at(entry, 6);
    let data_at = crate::wire::u16_at(entry, 10);
    let data_len = crate::wire::u32_at(entry, 12);
    if entry.len() < HEADER_LEN || name_at + name_len > entry.len() || (data_len > 0 && data_at
        + data_len > entry.len()) {
        None
    } else {
        Some(
            ContextModel {
                name: entry.subrange(name_at, name_at + name_len),
                data: if data_len > 0 {
                    entry.subrange(data_at, data_at + data_len)
                } else {
                    Seq::empty()
                },
            },
        )
    }
}

/// The contexts of a chain that starts at the first byte.
pub open spec fn chain_contexts(bytes: Seq<u8>) -> Option<Seq<ContextModel>>
    decreases bytes.len(),
{
    let next = crate::wire::u32_at(bytes, 0);
    if bytes.len() < HEADER_LEN {
        None
    } else if next == 0 {
        match entry_context(bytes) {
            Some(last) => Some(seq![last]),
            None => None,
        }
    } else if next >= bytes.len() || next < HEADER_LEN {
        None
    } else {
        match (entry_context(bytes.take(next)), chain_contexts(bytes.skip(next))) {
            (Some(first), Some(rest)) => Some(seq![first] + rest),
            _ => None,
        }
    }
}

/// The contexts that `bytes` hold, or none where they break the format. No
/// bytes are no contexts.
pub open spec fn parsed_contexts(bytes: Seq<u8>) -> Option<Seq<ContextModel>> {
    if bytes.len() == 0 {
        Some(Seq::empty())
    } else {
        chain_contexts(bytes)
    }
}

/// Reads the context that fills the bytes from `at` up to `end`.
fn parse_entry(bytes: &[u8], at: usize, end: usize) -> (context: Option<CreateContext>)
    requires
        at + HEADER_LEN <= end <= bytes@.len(),
    ensures
        match (context, entry_context(bytes@.subrange(at as int, end as int))) {
            (Some(parsed), Some(expected)) => parsed@ == expected,
            (None, None) => true,
            _ => false,
        },
{
    let ghost entry = bytes@.subrange(at as int, end as int);
    let len: usize = end - at;
    let name_at: usize = read_u16(bytes, at + 4) as usize;
    let name_len: usize = read_u16(bytes, at + 6) as usize;
    let data_at: usize = read_u16(bytes, at + 10) as usize;
    let data_len: usize = read_u32(bytes, at + 12) as usize;
    if name_at > len || name_len > len - name_at {
        return None;
    }
    let name = read_bytes(bytes, at + name_at, name_len);
    assert(name@ =~= entry.subrange(name_at as int, name_at + name_len));
    if data_len == 0 {
        return Some(CreateContext { name, data: Vec::new() });
    }
    if data_at > len || data_len > len - data_at {
        return None;
    }
    let data = read_bytes(bytes, at + data_at, data_len);
    assert(data@ =~= entry.subrange(data_at as int, data_at + data_len));
    Some(CreateContext { name, data })
}

/// Reads a chain of create contexts.
pub fn parse_contexts(bytes: &[u8]) -> (contexts: Result<Vec<CreateContext>, SmbError>)
    ensures
        match (contexts, parsed_contexts(bytes@)) {
            (Ok(parsed), Some(expected)) => context_models(parsed@) == expected,
            (Err(error), None) => error == SmbError::InvalidCreateContexts,
            _ => false,
        },
{
    let mut contexts: Vec<CreateContext> = Vec::new();
    let len: usize = bytes.len();
    if len == 0 {
        assert(context_models(contexts@) =~= Seq::empty());
        return Ok(contexts);
    }
    let mut at: usize = 0;
    let mut more: bool = true;
    assert(bytes@.skip(0) =~= bytes@);
    while more
        invariant
            len == bytes@.len(),
            at < len,
            match chain_contexts(bytes@) {
                Some(all) => if more {
                    chain_contexts(bytes@.skip(at as int)) matches Some(rest) && all
                        == context_models(contexts@) + rest
                } else {
                    all == context_models(contexts@)
                },
                None => more && chain_contexts(bytes@.skip(at as int)) is None,
            },
        decreases (if more { len - at } else { 0 }),
    {
        let ghost rest = bytes@.skip(at as int);
        let ghost before = context_models(contexts@);
        if len - at < HEADER_LEN {
            return Err(SmbError::InvalidCreateContexts);
        }
        let next: usize = read_u32(bytes, at) as usize;
        let end: usize = if next == 0 {
            len
        } else if next >= len - at || next < HEADER_LEN {
            return Err(SmbError::InvalidCreateContexts);
        } else {
            at + next
        };
        proof {
            assert(bytes@.subrange(at as int, end as int) =~= if next == 0 {
                rest
            } else {
                rest.take(next as int)
            });
            assert(next != 0 ==> rest.skip(next as int) =~= bytes@.skip(end as int));
        }
        match parse_entry(bytes, at, end) {
            None => {
                return Err(SmbError::InvalidCreateContexts);
            },
            Some(context) => {
                let ghost parsed = context@;
                contexts.push(context);
                proof {
                    assert(context_models(contexts@) =~= before.push(parsed));
                }
            },
        }
        if next == 0 {
            more = false;
        } else {
            at = end;
        }
        proof {
            if chain_contexts(bytes@) is Some {
                let all = chain_contexts(bytes@).unwrap();
                assert(all =~= if next == 0 {
                    context_models(contexts@)
                } else {
                    context_models(contexts@) + chain_contexts(bytes@.skip(at as int)).unwrap()
                });
            }
        }
    }
    Ok(contexts)
}

/// Where the data of a context stands.
pub open spec fn data_start(context: ContextModel) -> int {
    aligned(HEADER_LEN + context.name.len())
}

/// How many bytes a context takes up, without what aligns the one behind it.
pub open spec fn entry_len(context: ContextModel) -> int {
    data_start(context) + context.data.len()
}

/// A context whose lengths and positions fit their fields.
pub open spec fn packable(context: ContextModel) -> bool {
    data_start(context) <= u16::MAX && aligned(entry_len(context)) <= u32::MAX
}

/// The header of a context.
pub open spec fn header_bytes(next: int, name_len: int, data_at: int, data_len: int) -> Seq<u8> {
    crate::wire::le_bytes(next as nat, 4) + crate::wire::le_bytes(HEADER_LEN as nat, 2)
        + crate::wire::le_bytes(name_len as nat, 2) + crate::wire::zeros(2)
        + crate::wire::le_bytes(data_at as nat, 2) + crate::wire::le_bytes(data_len as nat, 4)
}

/// A context, `next` bytes before the one that follows.
pub open spec fn entry_bytes(context: ContextModel, next: int) -> Seq<u8> {
    header_bytes(
        next,
        context.name.len() as int,
        if context.data.len() > 0 {
            data_start(context)
        } else {
            0
        },
        context.data.len() as int,
    ) + context.name + crate::wire::zeros(
        (data_start(context) - HEADER_LEN - context.name.len()) as nat,
    ) + context.data
}

/// A context that is not the last one, up to where the next one starts.
pub open spec fn linked_entry(context: ContextModel) -> Seq<u8> {
    let next = aligned(entry_len(context));
    entry_bytes(context, next) + crate::wire::zeros((next - entry_len(context)) as nat)
}

/// A list of contexts as a chain.
pub open spec fn packed_contexts(contexts: Seq<ContextModel>) -> Seq<u8>
    decreases contexts.len(),
{
    if contexts.len() == 0 {
        Seq::empty()
    } else if contexts.len() == 1 {
        entry_bytes(contexts[0], 0)
    } else {
        linked_entry(contexts[0]) + packed_contexts(contexts.drop_first())
    }
}

/// A header reads back as it was written.
pub proof fn lemma_header(next: int, name_len: int, data_at: int, data_len: int, rest: Seq<u8>)
    requires
        0 <= next <= u32::MAX,
        0 <= name_len <= u16::MAX,
        0 <= data_at <= u16::MAX,
        0 <= data_len <= u32::MAX,
    ensures
        ({
            let bytes = header_bytes(next, name_len, data_at, data_len) + rest;
            &&& header_bytes(next, name_len, data_at, data_len).len() == HEADER_LEN
            &&& crate::wire::u32_at(bytes, 0) == next
            &&& crate::wire::u16_at(bytes, 4) == HEADER_LEN
            &&& crate::wire::u16_at(bytes, 6) == name_len
            &&& crate::wire::u16_at(bytes, 10) == data_at
            &&& crate::wire::u32_at(bytes, 12) == data_len
        }),
{
    let bytes = header_bytes(next, name_len, data_at, data_len) + rest;
    crate::wire::lemma_le_u32(next as nat);
    crate::wire::lemma_le_u16(HEADER_LEN as nat);
    crate::wire::lemma_le_u16(name_len as nat);
    crate::wire::lemma_le_u16(data_at as nat);
    crate::wire::lemma_le_u32(data_len as nat);
    assert(bytes.subrange(0, 4) =~= crate::wire::le_bytes(next as nat, 4));
    assert(bytes.subrange(4, 6) =~= crate::wire::le_bytes(HEADER_LEN as nat, 2));
    assert(bytes.subrange(6, 8) =~= crate::wire::le_bytes(name_len as nat, 2));
    assert(bytes.subrange(10, 12) =~= crate::wire::le_bytes(data_at as nat, 2));
    assert(bytes.subrange(12, 16) =~= crate::wire::le_bytes(data_len as nat, 4));
    crate::wire::lemma_u16_at_part(bytes, bytes.subrange(0, 4), 0, 0);
    crate::wire::lemma_u16_at_part(bytes, bytes.subrange(0, 4), 0, 2);
    crate::wire::lemma_u16_at_part(bytes, bytes.subrange(4, 6), 4, 0);
    crate::wire::lemma_u16_at_part(bytes, bytes.subrange(6, 8), 6, 0);
    crate::wire::lemma_u16_at_part(bytes, bytes.subrange(10, 12), 10, 0);
    crate::wire::lemma_u16_at_part(bytes, bytes.subrange(12, 16), 12, 0);
    crate::wire::lemma_u16_at_part(bytes, bytes.subrange(12, 16), 12, 2);
}

/// A context reads back as it was written, whatever aligns the one behind it.
proof fn lemma_entry(context: ContextModel, next: int, padding: Seq<u8>)
    requires
        packable(context),
        0 <= next <= u32::MAX,
    ensures
        entry_bytes(context, next).len() == entry_len(context),
        entry_context(entry_bytes(context, next) + padding) == Some(context),
        crate::wire::u32_at(entry_bytes(context, next) + padding, 0) == next,
{
    let name_len = context.name.len() as int;
    let data_len = context.data.len() as int;
    let data_at = if data_len > 0 {
        data_start(context)
    } else {
        0
    };
    let gap = crate::wire::zeros((data_start(context) - HEADER_LEN - name_len) as nat);
    let header = header_bytes(next, name_len, data_at, data_len);
    let entry = entry_bytes(context, next) + padding;
    lemma_header(next, name_len, data_at, data_len, context.name + gap + context.data + padding);
    assert(entry =~= header + (context.name + gap + context.data + padding));
    assert(entry.subrange(16, 16 + name_len) =~= context.name);
    assert(entry.subrange(data_start(context), data_start(context) + data_len) =~= context.data);
}

/// A list with a context in it takes up bytes.
proof fn lemma_packed_not_empty(contexts: Seq<ContextModel>)
    requires
        contexts.len() > 0,
        packable(contexts[0]),
    ensures
        packed_contexts(contexts).len() > 0,
{
    lemma_entry(contexts[0], 0, Seq::empty());
    lemma_entry(contexts[0], aligned(entry_len(contexts[0])), Seq::empty());
}

/// A context that is not the last one reads back, and so does where the next
/// one starts.
proof fn lemma_linked_entry(context: ContextModel, rest: Seq<u8>)
    requires
        packable(context),
        rest.len() > 0,
    ensures
        chain_contexts(linked_entry(context) + rest) == (match chain_contexts(rest) {
            Some(others) => Some(seq![context] + others),
            None => None,
        }),
{
    let bytes = linked_entry(context) + rest;
    let next = aligned(entry_len(context));
    let padding = crate::wire::zeros((next - entry_len(context)) as nat);
    lemma_entry(context, next, padding);
    lemma_entry(context, next, padding + rest);
    assert(bytes =~= entry_bytes(context, next) + (padding + rest));
    assert(bytes.take(next) =~= linked_entry(context));
    assert(bytes.skip(next) =~= rest);
}

/// Reading a chain of contexts gives back the contexts that were written.
pub proof fn lemma_packed_contexts_parse(contexts: Seq<ContextModel>)
    requires
        forall|i: int| 0 <= i < contexts.len() ==> packable(#[trigger] contexts[i]),
    ensures
        parsed_contexts(packed_contexts(contexts)) == Some(contexts),
    decreases contexts.len(),
{
    if contexts.len() == 0 {
        assert(contexts =~= Seq::empty());
    } else if contexts.len() == 1 {
        let bytes = packed_contexts(contexts);
        lemma_packed_not_empty(contexts);
        lemma_entry(contexts[0], 0, Seq::empty());
        assert(bytes + Seq::empty() =~= bytes);
        assert(contexts =~= seq![contexts[0]]);
    } else {
        let rest = contexts.drop_first();
        lemma_packed_contexts_parse(rest);
        lemma_packed_not_empty(rest);
        lemma_packed_not_empty(contexts);
        lemma_linked_entry(contexts[0], packed_contexts(rest));
        assert(seq![contexts[0]] + rest =~= contexts);
    }
}

/// Appends a context, `next` bytes before the one that follows.
fn write_entry(out: &mut Vec<u8>, context: &CreateContext, next: u32)
    requires
        packable(context@),
    ensures
        final(out)@ == old(out)@ + entry_bytes(context@, next as int),
{
    let ghost start = out@;
    let name_len: usize = context.name.len();
    let data_len: usize = context.data.len();
    let data_at: usize = (HEADER_LEN + name_len + 7) / 8 * 8;
    write_le(out, next as u64, 4);
    write_le(out, HEADER_LEN as u64, 2);
    write_le(out, name_len as u64, 2);
    write_zeros(out, 2);
    write_le(
        out,
        if data_len > 0 {
            data_at as u64
        } else {
            0
        },
        2,
    );
    write_le(out, data_len as u64, 4);
    write_bytes(out, context.name.as_slice());
    write_zeros(out, data_at - HEADER_LEN - name_len);
    write_bytes(out, context.data.as_slice());
    proof {
        assert(out@ =~= start + entry_bytes(context@, next as int));
    }
}

/// Writes a chain of create contexts.
pub fn pack_contexts(contexts: &[CreateContext]) -> (bytes: Vec<u8>)
    requires
        forall|i: int| 0 <= i < contexts@.len() ==> packable((#[trigger] contexts@[i])@),
    ensures
        bytes@ == packed_contexts(context_models(contexts@)),
        parsed_contexts(bytes@) == Some(context_models(contexts@)),
{
    let ghost models = context_models(contexts@);
    let mut bytes: Vec<u8> = Vec::new();
    let len: usize = contexts.len();
    let mut i: usize = 0;
    proof {
        assert(models.skip(0) =~= models);
        assert(bytes@ + packed_contexts(models) =~= packed_contexts(models));
    }
    while i < len
        invariant
            i <= len,
            len == contexts@.len(),
            models == context_models(contexts@),
            forall|j: int| 0 <= j < contexts@.len() ==> packable((#[trigger] contexts@[j])@),
            bytes@ + packed_contexts(models.skip(i as int)) == packed_contexts(models),
        decreases len - i,
    {
        let ghost before = bytes@;
        let ghost rest = models.skip(i as int);
        let context = &contexts[i];
        proof {
            assert(rest[0] == context@);
            assert(rest.drop_first() =~= models.skip(i + 1));
            lemma_entry(context@, 0, Seq::empty());
        }
        if i + 1 == len {
            write_entry(&mut bytes, context, 0);
            proof {
                assert(models.skip(i + 1) =~= Seq::empty());
            }
        } else {
            let data_at: usize = (HEADER_LEN + context.name.len() + 7) / 8 * 8;
            let used: usize = data_at + context.data.len();
            let next: usize = (used + 7) / 8 * 8;
            proof {
                lemma_entry(context@, next as int, Seq::empty());
            }
            write_entry(&mut bytes, context, next as u32);
            write_zeros(&mut bytes, next - used);
        }
        i = i + 1;
        proof {
            assert(bytes@ + packed_contexts(models.skip(i as int)) =~= before + packed_contexts(
                rest,
            ));
        }
    }
    proof {
        assert(models.skip(len as int) =~= Seq::empty());
        assert(bytes@ + packed_contexts(Seq::empty()) =~= bytes@);
        assert forall|j: int| 0 <= j < models.len() implies packable(#[trigger] models[j]) by {
            assert(packable(contexts@[j]@));
        }
        lemma_packed_contexts_parse(models);
    }
    bytes
}

} // verus!
