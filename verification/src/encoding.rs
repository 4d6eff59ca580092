//! The fixed-width 15-byte instruction record: one opcode byte, a kind
//! byte holding the three addressing modes and two convert flags, three
//! big-endian 4-byte payloads, and a types byte holding the three numeric
//! tags and the third convert flag.
use vstd::prelude::*;
use crate::data_struct::{Type, TypedByte, spec_type_code};
use crate::utils::{
    create_kind_byte, create_two_bits, convert_kind_byte, convert_two_bits, spec_be0, spec_be1,
    spec_be2, spec_be3, spec_two_bit_fields, spec_u32_of_be, u32_from_be_bytes, u32_to_be_bytes,
    lemma_kind_byte_roundtrip, lemma_be_bytes_roundtrip,
};

verus! {

/// One decoded parameter: its payload value with tag, its addressing
/// mode, and its convert flag.
#[derive(Clone, Copy, PartialEq, Eq, Structural, Debug)]
pub struct Param {
    pub value: TypedByte,
    pub mode: usize,
    pub convert: bool,
}

/// A decoded instruction: the opcode and its three parameters.
#[derive(Clone, Copy, PartialEq, Eq, Structural, Debug)]
pub struct Command {
    pub opcode: u8,
    pub param1: Param,
    pub param2: Param,
    pub param3: Param,
}

/// A legal instruction: a known opcode and two-bit addressing modes.
pub open spec fn spec_command_wf(c: Command) -> bool {
    &&& c.opcode <= 16
    &&& c.param1.mode < 4
    &&& c.param2.mode < 4
    &&& c.param3.mode < 4
}

/// The tag that a two-bit type code stands for; the reserved code 3 has
/// no meaning and is never decoded.
pub open spec fn spec_type_of_code(code: u8) -> Type {
    if code == 0 {
        Type::Usigned
    } else if code == 1 {
        Type::Signed
    } else {
        Type::Floating
    }
}

/// The 15 bytes that a command is written as.
pub open spec fn spec_encode(c: Command) -> Seq<u8> {
    let kind_low = (if c.param1.convert {
        1u8
    } else {
        0u8
    }) + (if c.param2.convert {
        2u8
    } else {
        0u8
    });
    let types_low: u8 = if c.param3.convert {
        1u8
    } else {
        0u8
    };
    let kind_byte = (c.param1.mode * 64 + c.param2.mode * 16 + c.param3.mode * 4 + kind_low) as u8;
    let types_byte = (spec_type_code(c.param1.value.typ) * 64 + spec_type_code(c.param2.value.typ) * 16
        + spec_type_code(c.param3.value.typ) * 4 + types_low) as u8;
    seq![
        c.opcode,
        kind_byte,
        spec_be0(c.param1.value.value),
        spec_be1(c.param1.value.value),
        spec_be2(c.param1.value.value),
        spec_be3(c.param1.value.value),
        spec_be0(c.param2.value.value),
        spec_be1(c.param2.value.value),
        spec_be2(c.param2.value.value),
        spec_be3(c.param2.value.value),
        spec_be0(c.param3.value.value),
        spec_be1(c.param3.value.value),
        spec_be2(c.param3.value.value),
        spec_be3(c.param3.value.value),
        types_byte,
    ]
}

/// The command that 15 bytes spell.
pub open spec fn spec_decode(b: Seq<u8>) -> Command {
    let kind = spec_two_bit_fields(b[1]);
    let types = spec_two_bit_fields(b[14]);
    let v1 = spec_u32_of_be(b[2], b[3], b[4], b[5]);
    let v2 = spec_u32_of_be(b[6], b[7], b[8], b[9]);
    let v3 = spec_u32_of_be(b[10], b[11], b[12], b[13]);
    Command {
        opcode: b[0],
        param1: Param {
            value: TypedByte { value: v1, typ: spec_type_of_code(types[0]) },
            mode: kind[0] as usize,
            convert: kind[3] % 2 == 1,
        },
        param2: Param {
            value: TypedByte { value: v2, typ: spec_type_of_code(types[1]) },
            mode: kind[1] as usize,
            convert: kind[3] / 2 != 0,
        },
        param3: Param {
            value: TypedByte { value: v3, typ: spec_type_of_code(types[2]) },
            mode: kind[2] as usize,
            convert: types[3] % 2 == 1,
        },
    }
}

/// One record of a buffer is well formed when its opcode byte names a
/// known opcode and none of its three type codes is the reserved code 3.
pub open spec fn spec_record_wf(b: Seq<u8>, r: int) -> bool {
    &&& b[15 * r] <= 16
    &&& spec_two_bit_fields(b[15 * r + 14])[0] <= 2
    &&& spec_two_bit_fields(b[15 * r + 14])[1] <= 2
    &&& spec_two_bit_fields(b[15 * r + 14])[2] <= 2
}

/// A whole buffer is well formed when it is a sequence of 15-byte records,
/// each of them well formed.
pub open spec fn spec_buffer_wf(b: Seq<u8>) -> bool {
    &&& b.len() % 15 == 0
    &&& forall|r: int| 0 <= r < b.len() / 15 ==> spec_record_wf(b, r)
}

/// Appends the 15-byte record of `c` to `buffer`.
pub fn encode_command(c: &Command, buffer: &mut Vec<u8>)
    requires
        spec_command_wf(*c),
    ensures
        final(buffer)@ == old(buffer)@ + spec_encode(*c),
{
    let ghost before = buffer@;
    buffer.push(c.opcode);
    let kind_low = create_two_bits([c.param1.convert, c.param2.convert]);
    buffer.push(create_kind_byte(c.param1.mode as u8, c.param2.mode as u8, c.param3.mode as u8, kind_low));
    let b1 = u32_to_be_bytes(c.param1.value.value);
    buffer.push(b1[0]);
    buffer.push(b1[1]);
    buffer.push(b1[2]);
    buffer.push(b1[3]);
    let b2 = u32_to_be_bytes(c.param2.value.value);
    buffer.push(b2[0]);
    buffer.push(b2[1]);
    buffer.push(b2[2]);
    buffer.push(b2[3]);
    let b3 = u32_to_be_bytes(c.param3.value.value);
    buffer.push(b3[0]);
    buffer.push(b3[1]);
    buffer.push(b3[2]);
    buffer.push(b3[3]);
    let types_low = create_two_bits([c.param3.convert, false]);
    buffer.push(
        create_kind_byte(
            c.param1.value.typ.code(),
            c.param2.value.typ.code(),
            c.param3.value.typ.code(),
            types_low,
        ),
    );
    proof {
        assert(buffer@ =~= before + spec_encode(*c));
    }
}

/// Decodes the 15-byte record that starts at `index`.
pub fn decode_at(buffer: &[u8], index: usize) -> (r: Command)
    requires
        index + 15 <= buffer@.len(),
        index % 15 == 0,
        spec_record_wf(buffer@, index as int / 15),
    ensures
        r == spec_decode(buffer@.subrange(index as int, index + 15)),
        spec_command_wf(r),
{
    let ghost record = buffer@.subrange(index as int, index + 15);
    let len = buffer.len();
    let opcode = *vstd::slice::slice_index_get(buffer, index);
    let kind_byte = *vstd::slice::slice_index_get(buffer, index + 1);
    let types_byte = *vstd::slice::slice_index_get(buffer, index + 14);
    let kind = convert_kind_byte(kind_byte);
    let types = convert_kind_byte(types_byte);
    let v1 = u32_from_be_bytes(
        *vstd::slice::slice_index_get(buffer, index + 2),
        *vstd::slice::slice_index_get(buffer, index + 3),
        *vstd::slice::slice_index_get(buffer, index + 4),
        *vstd::slice::slice_index_get(buffer, index + 5),
    );
    let v2 = u32_from_be_bytes(
        *vstd::slice::slice_index_get(buffer, index + 6),
        *vstd::slice::slice_index_get(buffer, index + 7),
        *vstd::slice::slice_index_get(buffer, index + 8),
        *vstd::slice::slice_index_get(buffer, index + 9),
    );
    let v3 = u32_from_be_bytes(
        *vstd::slice::slice_index_get(buffer, index + 10),
        *vstd::slice::slice_index_get(buffer, index + 11),
        *vstd::slice::slice_index_get(buffer, index + 12),
        *vstd::slice::slice_index_get(buffer, index + 13),
    );
    let convs = convert_two_bits((kind[3]) as u8);
    let conv3 = convert_two_bits((types[3]) as u8);
    proof {
        assert(15 * (index as int / 15) == index as int);
    }
    let t1 = Type::from_code(types[0] as u8);
    let t2 = Type::from_code(types[1] as u8);
    let t3 = Type::from_code(types[2] as u8);
    let r = Command {
        opcode,
        param1: Param { value: TypedByte { value: v1, typ: t1 }, mode: kind[0], convert: convs[0] },
        param2: Param { value: TypedByte { value: v2, typ: t2 }, mode: kind[1], convert: convs[1] },
        param3: Param { value: TypedByte { value: v3, typ: t3 }, mode: kind[2], convert: conv3[0] },
    };
    proof {
        assert(record[0] == buffer@[index as int]);
        assert(r =~= spec_decode(record));
    }
    r
}

/// Checks that a buffer is a sequence of well-formed 15-byte records.
pub fn check_buffer(buffer: &[u8]) -> (r: bool)
    ensures
        r == spec_buffer_wf(buffer@),
{
    let len = buffer.len();
    if len % 15 != 0 {
        return false;
    }
    let count = len / 15;
    let mut i: usize = 0;
    while i < count
        invariant
            0 <= i <= count,
            len == buffer@.len(),
            len % 15 == 0,
            count == len / 15,
            forall|r: int| 0 <= r < i ==> spec_record_wf(buffer@, r),
        decreases count - i,
    {
        let opcode = *vstd::slice::slice_index_get(buffer, 15 * i);
        let types = convert_kind_byte(*vstd::slice::slice_index_get(buffer, 15 * i + 14));
        if opcode > 16 || types[0] > 2 || types[1] > 2 || types[2] > 2 {
            proof {
                assert(!spec_record_wf(buffer@, i as int));
            }
            return false;
        }
        proof {
            assert(spec_record_wf(buffer@, i as int));
        }
        i += 1;
    }
    true
}

/// Decoding the record that encoding wrote yields the command again: the
/// 15-byte encoding loses nothing of a legal instruction.
pub proof fn lemma_encode_decode_roundtrip(c: Command)
    requires
        spec_command_wf(c),
    ensures
        spec_decode(spec_encode(c)) == c,
{
    let kind_low: u8 = ((if c.param1.convert {
        1u8
    } else {
        0u8
    }) + (if c.param2.convert {
        2u8
    } else {
        0u8
    })) as u8;
    let types_low: u8 = if c.param3.convert {
        1u8
    } else {
        0u8
    };
    lemma_kind_byte_roundtrip(c.param1.mode as u8, c.param2.mode as u8, c.param3.mode as u8, kind_low);
    lemma_kind_byte_roundtrip(
        spec_type_code(c.param1.value.typ),
        spec_type_code(c.param2.value.typ),
        spec_type_code(c.param3.value.typ),
        types_low,
    );
    lemma_be_bytes_roundtrip(c.param1.value.value);
    lemma_be_bytes_roundtrip(c.param2.value.value);
    lemma_be_bytes_roundtrip(c.param3.value.value);
    assert(spec_decode(spec_encode(c)) =~= c);
}

/// The record of a legal instruction is well formed wherever it stands in
/// a buffer.
pub proof fn lemma_encode_record_wf(c: Command, b: Seq<u8>, r: int)
    requires
        spec_command_wf(c),
        0 <= r,
        15 * r + 15 <= b.len(),
        b.subrange(15 * r, 15 * r + 15) == spec_encode(c),
    ensures
        spec_record_wf(b, r),
{
    let types_low: u8 = if c.param3.convert {
        1u8
    } else {
        0u8
    };
    lemma_kind_byte_roundtrip(
        spec_type_code(c.param1.value.typ),
        spec_type_code(c.param2.value.typ),
        spec_type_code(c.param3.value.typ),
        types_low,
    );
    assert(b[15 * r] == spec_encode(c)[0]);
    assert(b[15 * r + 14] == spec_encode(c)[14]);
}

/// Two well-formed buffers concatenated are again a well-formed buffer.
pub proof fn lemma_buffer_wf_concat(a: Seq<u8>, b: Seq<u8>)
    requires
        spec_buffer_wf(a),
        spec_buffer_wf(b),
    ensures
        spec_buffer_wf(a + b),
{
    let ab = a + b;
    let na = a.len() as int / 15;
    let nb = b.len() as int / 15;
    assert(15 * na == a.len());
    assert(15 * nb == b.len());
    assert(ab.len() == a.len() + b.len());
    assert(ab.len() % 15 == 0);
    assert(ab.len() as int / 15 == na + nb);
    assert forall|r: int| 0 <= r < ab.len() as int / 15 implies spec_record_wf(ab, r) by {
        if r < na {
            assert(15 * r + 15 <= 15 * na);
            assert(ab[15 * r] == a[15 * r]);
            assert(ab[15 * r + 14] == a[15 * r + 14]);
            assert(spec_record_wf(a, r));
        } else {
            let r2 = r - na;
            assert(spec_record_wf(b, r2));
            assert(15 * r == a.len() + 15 * r2);
            assert(15 * r2 + 15 <= 15 * nb);
            assert(ab[15 * r] == b[15 * r2]);
            assert(ab[15 * r + 14] == b[15 * r2 + 14]);
        }
    }
}

/// The 15 bytes of one legal instruction are by themselves a well-formed
/// buffer.
pub proof fn lemma_encode_buffer_wf(c: Command)
    requires
        spec_command_wf(c),
    ensures
        spec_buffer_wf(spec_encode(c)),
{
    let b = spec_encode(c);
    assert(b.len() == 15);
    assert(b.subrange(0, 15) =~= b);
    lemma_encode_record_wf(c, b, 0);
    assert forall|r: int| 0 <= r < b.len() as int / 15 implies spec_record_wf(b, r) by {
        assert(r == 0);
    }
}

} // verus!
