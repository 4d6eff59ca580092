//! The stack machine: decodes 15-byte records, resolves operands through
//! the four addressing modes, and dispatches the opcode handlers over an
//! auto-growing memory and a typed value stack.
use vstd::prelude::*;
use vstd::string::StringExecFns;
use vstd::string::StrSliceExecFns;
use rand::Rng;
use crate::data_struct::{IError, Stack, Type, TypedByte, spec_i32_bits, spec_bits_i32, bits_to_i32,
    i32_to_bits};
use crate::encoding::{Command, Param, spec_buffer_wf, spec_record_wf, spec_decode, decode_at,
    spec_command_wf};
use crate::infra::Infra;
use crate::text::{u32_to_string, usize_to_string, i32_to_string, parse_u32, parse_i32};
use crate::utils::{u32_add, u32_sub, u32_mul, u32_div, u32_mod, i32_add, i32_sub, i32_mul, i32_div,
    i32_mod, spec_wrap_i32, spec_trunc_div, spec_trunc_rem};

verus! {

// The timestamp type of the standard library, declared so it can stand
// in the interpreter's fields; its values are opaque here.
#[verifier::external_type_specification]
#[verifier::external_body]
pub struct ExInstant(std::time::Instant);

/// Relies on Instant::now: an opaque timestamp of the present moment.
#[verifier::external_body]
fn instant_now() -> std::time::Instant {
    std::time::Instant::now()
}

/// Relies on Instant::elapsed: the number of whole milliseconds that
/// have passed since the timestamp was taken, saturating at the largest
/// 64-bit value.
#[verifier::external_body]
fn elapsed_millis(t: &std::time::Instant) -> u64 {
    let ms = t.elapsed().as_millis();
    if ms > u64::MAX as u128 {
        u64::MAX
    } else {
        ms as u64
    }
}

/// Relies on rand::thread_rng and Rng::gen: a 32-bit value drawn
/// uniformly at random.
#[verifier::external_body]
fn random_u32() -> u32 {
    rand::thread_rng().gen()
}

/// The memory cell every address starts out as: unsigned zero.
pub open spec fn spec_zero_byte() -> TypedByte {
    TypedByte { value: 0, typ: Type::Usigned }
}

/// `m` grown, if needed, so that address `a` exists; new cells are
/// unsigned zero.
pub open spec fn spec_grow(m: Seq<TypedByte>, a: int) -> Seq<TypedByte> {
    if m.len() > a {
        m
    } else {
        m + Seq::new((a + 1 - m.len()) as nat, |i: int| spec_zero_byte())
    }
}

/// What resolving one operand does: given the stack, the memory, the raw
/// payload and its addressing mode, yields the stack and memory afterward
/// and the resolved value, or `None` where resolution fails.
pub open spec fn spec_resolve(
    stack: Seq<TypedByte>,
    memory: Seq<TypedByte>,
    byte: TypedByte,
    mode: int,
) -> (Seq<TypedByte>, Seq<TypedByte>, Option<TypedByte>) {
    if mode == 0 {
        (stack, memory, Some(byte))
    } else if mode == 1 {
        if byte.value == 0 && stack.len() > 0 {
            (stack.drop_last(), memory, Some(stack.last()))
        } else {
            (stack, memory, None)
        }
    } else if mode == 2 {
        if byte.typ == Type::Usigned && byte.value < usize::MAX {
            let m = spec_grow(memory, byte.value as int);
            (stack, m, Some(m[byte.value as int]))
        } else {
            (stack, memory, None)
        }
    } else {
        if byte.typ == Type::Usigned && byte.value < usize::MAX {
            let m1 = spec_grow(memory, byte.value as int);
            let cell = m1[byte.value as int];
            if cell.typ == Type::Usigned && cell.value < usize::MAX {
                let m2 = spec_grow(m1, cell.value as int);
                (stack, m2, Some(m2[cell.value as int]))
            } else {
                (stack, m1, None)
            }
        } else {
            (stack, memory, None)
        }
    }
}

pub struct Interpreter<'a, I: Infra> {
    pub memory: Vec<TypedByte>,
    pub debug: bool,
    pub time: Option<std::time::Instant>,
    pub duration_millis: Option<u64>,
    pub stack: Stack,
    pub infra: I,
    pub index: usize,
    pub current_command: usize,
    pub buffer: &'a [u8],
}

impl<'a, I: Infra> Interpreter<'a, I> {
    /// The interpreter's invariant: the stack discipline holds, the
    /// buffer is a sequence of well-formed records, and the program
    /// counter sits on a record boundary.
    pub open spec fn inv(&self) -> bool {
        &&& self.stack.wf()
        &&& spec_buffer_wf(self.buffer@)
        &&& self.index % 15 == 0
    }

    /// A fresh interpreter over a compiled buffer, with empty memory and
    /// stack and the program counter at the start.
    pub fn new(buffer: &'a [u8], infra: I) -> (r: Result<Self, IError>)
        ensures
            r is Ok,
            r->Ok_0.buffer@ == buffer@,
            r->Ok_0.memory@ == Seq::<TypedByte>::empty(),
            r->Ok_0.stack@ == Seq::<TypedByte>::empty(),
            r->Ok_0.index == 0,
            r->Ok_0.current_command == 0,
            r->Ok_0.debug == false,
            r->Ok_0.time is None,
            r->Ok_0.duration_millis is None,
            spec_buffer_wf(buffer@) ==> r->Ok_0.inv(),
    {
        Ok(
            Interpreter {
                memory: Vec::new(),
                debug: false,
                time: None,
                duration_millis: None,
                stack: Stack::new(),
                infra,
                index: 0,
                current_command: 0,
                buffer,
            },
        )
    }

    /// Turns the debug trace on or off.
    pub fn debug(&mut self, new: bool)
        ensures
            *final(self) == (Interpreter { debug: new, ..*old(self) }),
    {
        self.debug = new;
    }

    /// Grows the memory so that `address` exists, filling any new cells
    /// with unsigned zero.
    pub fn validate_until(&mut self, address: usize)
        requires
            address < usize::MAX,
        ensures
            final(self).memory@ == spec_grow(old(self).memory@, address as int),
            final(self).memory@.len() > address,
            *final(self) == (Interpreter { memory: final(self).memory, ..*old(self) }),
    {
        if self.memory.len() <= address {
            let byte = TypedByte::unsigned(0);
            let ghost before = self.memory@;
            self.memory.resize(address + 1, byte);
            proof {
                assert(final(self).memory@ =~= spec_grow(before, address as int));
            }
        }
    }

    /// Resolves one operand through its addressing mode: immediate,
    /// stack-relative (pops the top; the payload must be zero),
    /// direct memory, or indirect memory.
    pub fn convert(&mut self, byte: TypedByte, mode: usize) -> (r: Result<TypedByte, IError>)
        requires
            mode < 4,
            old(self).stack.wf(),
        ensures
            ({
                let (s2, m2, res) = spec_resolve(old(self).stack@, old(self).memory@, byte,
                    mode as int);
                &&& final(self).stack@ == s2
                &&& final(self).memory@ == m2
                &&& (r is Ok <==> res is Some)
                &&& (r is Ok ==> r->Ok_0 == res->0)
            }),
            final(self).stack.wf(),
            final(self).stack.pushes() == old(self).stack.pushes(),
            final(self).index == old(self).index,
            final(self).current_command == old(self).current_command,
            final(self).buffer == old(self).buffer,
            final(self).debug == old(self).debug,
            final(self).time == old(self).time,
            final(self).duration_millis == old(self).duration_millis,
            final(self).infra == old(self).infra,
    {
        if mode == 0 {
            Ok(byte)
        } else if mode == 1 {
            if byte.value != 0 {
                return Err(IError::message("chupou is not 0"));
            }
            let top = self.stack.top()?;
            self.stack.pop();
            Ok(top)
        } else if mode == 2 {
            let address = byte.force_u32(self.current_command)?;
            if address as u64 >= usize::MAX as u64 {
                return Err(IError::message("memory address out of range"));
            }
            self.validate_until(address as usize);
            Ok(self.memory[address as usize])
        } else {
            let address = byte.force_u32(self.current_command)?;
            if address as u64 >= usize::MAX as u64 {
                return Err(IError::message("memory address out of range"));
            }
            self.validate_until(address as usize);
            let cell = self.memory[address as usize];
            let address2 = cell.force_u32(self.current_command)?;
            if address2 as u64 >= usize::MAX as u64 {
                return Err(IError::message("memory address out of range"));
            }
            self.validate_until(address2 as usize);
            Ok(self.memory[address2 as usize])
        }
    }
}

/// Resolving the three parameters of an instruction in order: the stack
/// and memory afterward, and the three values, or `None` where the first
/// failing resolution stops the instruction.
pub open spec fn spec_resolve3(
    stack: Seq<TypedByte>,
    memory: Seq<TypedByte>,
    p1: Param,
    p2: Param,
    p3: Param,
) -> (Seq<TypedByte>, Seq<TypedByte>, Option<(TypedByte, TypedByte, TypedByte)>) {
    let (s1, m1, r1) = spec_resolve(stack, memory, p1.value, p1.mode as int);
    if r1 is None {
        (s1, m1, None)
    } else {
        let (s2, m2, r2) = spec_resolve(s1, m1, p2.value, p2.mode as int);
        if r2 is None {
            (s2, m2, None)
        } else {
            let (s3, m3, r3) = spec_resolve(s2, m2, p3.value, p3.mode as int);
            if r3 is None {
                (s3, m3, None)
            } else {
                (s3, m3, Some((r1->0, r2->0, r3->0)))
            }
        }
    }
}

/// The exact bits that integer arithmetic pushes: operation `op` applied
/// to payloads `a` and `b` under tag `t`, with 32-bit wrap-around, or
/// `None` for division or remainder by zero. Floating operands are not
/// covered here: their arithmetic is the host's.
pub open spec fn spec_arith_bits(op: u32, t: Type, a: u32, b: u32) -> Option<u32> {
    if t == Type::Usigned {
        if op == 0 {
            Some(((a + b) % 0x1_0000_0000) as u32)
        } else if op == 1 {
            Some(((a - b + 0x1_0000_0000) % 0x1_0000_0000) as u32)
        } else if op == 2 {
            Some(((a * b) % 0x1_0000_0000) as u32)
        } else if op == 3 {
            if b != 0 {
                Some((a as int / b as int) as u32)
            } else {
                None
            }
        } else {
            if b != 0 {
                Some((a as int % b as int) as u32)
            } else {
                None
            }
        }
    } else {
        let x = spec_bits_i32(a) as int;
        let y = spec_bits_i32(b) as int;
        if op == 0 {
            Some(spec_i32_bits(spec_wrap_i32(x + y) as i32))
        } else if op == 1 {
            Some(spec_i32_bits(spec_wrap_i32(x - y) as i32))
        } else if op == 2 {
            Some(spec_i32_bits(spec_wrap_i32(x * y) as i32))
        } else if op == 3 {
            if y != 0 {
                Some(spec_i32_bits(spec_wrap_i32(spec_trunc_div(x, y)) as i32))
            } else {
                None
            }
        } else {
            if y != 0 {
                Some(spec_i32_bits(spec_wrap_i32(spec_trunc_rem(x, y)) as i32))
            } else {
                None
            }
        }
    }
}

/// The operand pair that arithmetic and equality tests actually use, once
/// a set convert flag has reinterpreted one side's tag as the other's.
pub open spec fn spec_converted_pair(p2: Param, p3: Param, v: TypedByte, v2: TypedByte) -> (
    TypedByte,
    TypedByte,
) {
    if p2.convert {
        (TypedByte { value: v.value, typ: v2.typ }, v2)
    } else if p3.convert {
        (v, TypedByte { value: v2.value, typ: v.typ })
    } else {
        (v, v2)
    }
}

/// Rewrites the program counter to the byte offset of command index
/// `pos`: exactly `15 * pos`. Execution halts afterward if that offset
/// lies at or past the end of the buffer. A target whose byte offset
/// does not fit the machine's pointer width is reported as an error and
/// the counter stays.
fn set_jump<I: Infra>(interpreter: &mut Interpreter<I>, pos: u32) -> (r: Result<(), IError>)
    ensures
        *final(interpreter) == (Interpreter {
            index: final(interpreter).index,
            ..*old(interpreter)
        }),
        r is Ok <==> 15 * pos <= usize::MAX,
        r is Ok ==> final(interpreter).index == 15 * pos,
        r is Err ==> final(interpreter).index == old(interpreter).index,
{
    let target = pos as u64 * 15;
    if target > usize::MAX as u64 {
        return Err(IError::message("jump target out of range"));
    }
    interpreter.index = target as usize;
    Ok(())
}

/// Opcode 0: does nothing.
pub fn do_no_shit<I: Infra>(interpreter: &mut Interpreter<I>, params: [Param; 3]) -> (r: Result<
    (),
    IError,
>)
    ensures
        *final(interpreter) == *old(interpreter),
        r is Ok,
{
    Ok(())
}

/// Opcode 1: typed arithmetic. The first parameter picks the operation
/// (0 add, 1 subtract, 2 multiply, 3 divide, 4 remainder), the other two
/// are the operands; the result is pushed. Matching tags are required
/// unless a convert flag reinterprets one side. Integer division or
/// remainder by zero is reported as an error rather than trapping.
pub fn operations<I: Infra>(interpreter: &mut Interpreter<I>, params: [Param; 3]) -> (r: Result<
    (),
    IError,
>)
    requires
        old(interpreter).stack.wf(),
        params[0].mode < 4,
        params[1].mode < 4,
        params[2].mode < 4,
    ensures
        final(interpreter).stack.wf(),
        final(interpreter).index == old(interpreter).index,
        final(interpreter).current_command == old(interpreter).current_command,
        final(interpreter).buffer == old(interpreter).buffer,
        final(interpreter).debug == old(interpreter).debug,
        ({
            let (s, m, res) = spec_resolve3(old(interpreter).stack@, old(interpreter).memory@,
                params[0], params[1], params[2]);
            res is Some ==> {
                let (kv, v, v2) = res->0;
                let (a, b) = spec_converted_pair(params[1], params[2], v, v2);
                &&& (r is Ok <==> kv.typ == Type::Usigned && kv.value <= 4 && (params[1].convert
                    || params[2].convert || v.typ == v2.typ) && (a.typ == Type::Floating
                    || spec_arith_bits(kv.value, a.typ, a.value, b.value) is Some))
                &&& (r is Ok && a.typ != Type::Floating ==> final(interpreter).stack@ == s.push(
                    TypedByte {
                        value: spec_arith_bits(kv.value, a.typ, a.value, b.value)->0,
                        typ: a.typ,
                    },
                ) && final(interpreter).memory@ == m)
                &&& (r is Ok && a.typ == Type::Floating ==> {
                    &&& final(interpreter).stack@.len() == s.len() + 1
                    &&& final(interpreter).stack@.drop_last() == s
                    &&& final(interpreter).stack@.last().typ == Type::Floating
                    &&& final(interpreter).memory@ == m
                })
            }
        }),
        ({
            let (s, m, res) = spec_resolve3(old(interpreter).stack@, old(interpreter).memory@,
                params[0], params[1], params[2]);
            res is None ==> r is Err
        }),
{
    let kind_byte = interpreter.convert(params[0].value, params[0].mode)?;
    let kind = kind_byte.force_u32(interpreter.current_command)?;
    let value = interpreter.convert(params[1].value, params[1].mode)?;
    let value2 = interpreter.convert(params[2].value, params[2].mode)?;
    let (a, b) = if params[1].convert {
        (value.convert(value2.typ), value2)
    } else if params[2].convert {
        (value, value2.convert(value.typ))
    } else {
        if value.typ != value2.typ {
            let mut message = String::new();
            message.append("Adding with incompatible types at command ");
            let n = usize_to_string(interpreter.current_command);
            message.append(n.as_str());
            return Err(IError::from_string(message));
        }
        (value, value2)
    };
    if kind > 4 {
        return Err(IError::message("invalid operation"));
    }
    let bits: u32 = match a.typ {
        Type::Usigned => {
            match kind {
                0 => u32_add(a.value, b.value),
                1 => u32_sub(a.value, b.value),
                2 => u32_mul(a.value, b.value),
                3 => {
                    if b.value == 0 {
                        return Err(IError::message("dividing by zero"));
                    }
                    u32_div(a.value, b.value)
                },
                _ => {
                    if b.value == 0 {
                        return Err(IError::message("dividing by zero"));
                    }
                    u32_mod(a.value, b.value)
                },
            }
        },
        Type::Signed => {
            let x = bits_to_i32(a.value);
            let y = bits_to_i32(b.value);
            let v: i32 = match kind {
                0 => i32_add(x, y),
                1 => i32_sub(x, y),
                2 => i32_mul(x, y),
                3 => {
                    if y == 0 {
                        return Err(IError::message("dividing by zero"));
                    }
                    i32_div(x, y)
                },
                _ => {
                    if y == 0 {
                        return Err(IError::message("dividing by zero"));
                    }
                    i32_mod(x, y)
                },
            };
            i32_to_bits(v)
        },
        Type::Floating => {
            match kind {
                0 => interpreter.infra.float_add(a.value, b.value),
                1 => interpreter.infra.float_sub(a.value, b.value),
                2 => interpreter.infra.float_mul(a.value, b.value),
                3 => interpreter.infra.float_div(a.value, b.value),
                _ => interpreter.infra.float_rem(a.value, b.value),
            }
        },
    };
    interpreter.stack.push(TypedByte { value: bits, typ: a.typ });
    Ok(())
}

/// Opcode 2: compares the first two operands and, when the first is
/// lower, jumps to the command index given by the third. The comparison
/// reads the payloads as their big-endian bytes, lexicographically, which
/// is the same order as the 32-bit numbers they spell.
pub fn if_lower<I: Infra>(interpreter: &mut Interpreter<I>, params: [Param; 3]) -> (r: Result<
    (),
    IError,
>)
    requires
        old(interpreter).stack.wf(),
        params[0].mode < 4,
        params[1].mode < 4,
        params[2].mode < 4,
    ensures
        final(interpreter).stack.wf(),
        final(interpreter).current_command == old(interpreter).current_command,
        final(interpreter).buffer == old(interpreter).buffer,
        final(interpreter).debug == old(interpreter).debug,
        r is Err ==> final(interpreter).index == old(interpreter).index,
        ({
            let (s, m, res) = spec_resolve3(old(interpreter).stack@, old(interpreter).memory@,
                params[0], params[1], params[2]);
            &&& (res is None ==> r is Err && final(interpreter).index == old(interpreter).index)
            &&& (res is Some ==> {
                let (v, v2, posv) = res->0;
                &&& (r is Ok <==> posv.typ == Type::Usigned && v.typ == v2.typ && (v.value
                    < v2.value ==> 15 * posv.value <= usize::MAX))
                &&& (r is Ok ==> {
                    &&& final(interpreter).stack@ == s
                    &&& final(interpreter).memory@ == m
                    &&& final(interpreter).index == (if v.value < v2.value {
                        15 * posv.value
                    } else {
                        old(interpreter).index as int
                    })
                })
            })
        }),
{
    let value = interpreter.convert(params[0].value, params[0].mode)?;
    let value2 = interpreter.convert(params[1].value, params[1].mode)?;
    let pos_byte = interpreter.convert(params[2].value, params[2].mode)?;
    let pos = pos_byte.force_u32(interpreter.current_command)?;
    if value.typ != value2.typ {
        let mut message = String::new();
        message.append("Comparing with incompatible types ");
        let n = usize_to_string(interpreter.current_command);
        message.append(n.as_str());
        return Err(IError::from_string(message));
    }
    if value.value < value2.value {
        set_jump(interpreter, pos)?;
    }
    Ok(())
}

/// Opcode 3: pushes the resolved first parameter.
pub fn push_stack<I: Infra>(interpreter: &mut Interpreter<I>, params: [Param; 3]) -> (r: Result<
    (),
    IError,
>)
    requires
        old(interpreter).stack.wf(),
        params[0].mode < 4,
    ensures
        final(interpreter).stack.wf(),
        final(interpreter).index == old(interpreter).index,
        final(interpreter).current_command == old(interpreter).current_command,
        final(interpreter).buffer == old(interpreter).buffer,
        final(interpreter).debug == old(interpreter).debug,
        ({
            let (s, m, res) = spec_resolve(old(interpreter).stack@, old(interpreter).memory@,
                params[0].value, params[0].mode as int);
            &&& (r is Ok <==> res is Some)
            &&& (r is Ok ==> final(interpreter).stack@ == s.push(res->0))
            &&& (r is Ok ==> final(interpreter).memory@ == m)
        }),
{
    let value = interpreter.convert(params[0].value, params[0].mode)?;
    interpreter.stack.push(value);
    Ok(())
}

/// Opcode 4: compares the first two operands for equality and jumps to
/// the command index given by the third when they agree. Floating
/// operands are compared approximately, truncated to four decimal
/// places, by the host.
pub fn if_true_jump<I: Infra>(interpreter: &mut Interpreter<I>, params: [Param; 3]) -> (r: Result<
    (),
    IError,
>)
    requires
        old(interpreter).stack.wf(),
        params[0].mode < 4,
        params[1].mode < 4,
        params[2].mode < 4,
    ensures
        final(interpreter).stack.wf(),
        final(interpreter).current_command == old(interpreter).current_command,
        final(interpreter).buffer == old(interpreter).buffer,
        final(interpreter).debug == old(interpreter).debug,
        r is Err ==> final(interpreter).index == old(interpreter).index,
        ({
            let (s, m, res) = spec_resolve3(old(interpreter).stack@, old(interpreter).memory@,
                params[0], params[1], params[2]);
            &&& (res is None ==> r is Err && final(interpreter).index == old(interpreter).index)
            &&& (res is Some ==> {
                let (v, v2, posv) = res->0;
                &&& (v.typ != Type::Floating ==> (r is Ok <==> posv.typ == Type::Usigned
                    && v.typ == v2.typ && (v.value == v2.value ==> 15 * posv.value
                    <= usize::MAX)))
                &&& (r is Ok ==> {
                    &&& final(interpreter).stack@ == s
                    &&& final(interpreter).memory@ == m
                    &&& (v.typ != Type::Floating ==> final(interpreter).index == (if v.value
                        == v2.value {
                        15 * posv.value
                    } else {
                        old(interpreter).index as int
                    }))
                    &&& (v.typ == Type::Floating ==> final(interpreter).index == 15 * posv.value
                        || final(interpreter).index == old(interpreter).index)
                })
            })
        }),
{
    let value = interpreter.convert(params[0].value, params[0].mode)?;
    let value2 = interpreter.convert(params[1].value, params[1].mode)?;
    let pos_byte = interpreter.convert(params[2].value, params[2].mode)?;
    let pos = pos_byte.force_u32(interpreter.current_command)?;
    if value.typ != value2.typ {
        return Err(IError::message("Comparing incompatible types"));
    }
    if matches!(value.typ, Type::Floating) {
        if interpreter.infra.float_approx_eq(value.value, value2.value, 4) {
            set_jump(interpreter, pos)?;
        }
    } else if value.value == value2.value {
        set_jump(interpreter, pos)?;
    }
    Ok(())
}

/// Opcode 5: jumps to the command index given by the first parameter when
/// the stack is empty.
pub fn vstack_jump<I: Infra>(interpreter: &mut Interpreter<I>, params: [Param; 3]) -> (r: Result<
    (),
    IError,
>)
    requires
        old(interpreter).stack.wf(),
        params[0].mode < 4,
    ensures
        final(interpreter).stack.wf(),
        final(interpreter).current_command == old(interpreter).current_command,
        final(interpreter).buffer == old(interpreter).buffer,
        final(interpreter).debug == old(interpreter).debug,
        r is Err ==> final(interpreter).index == old(interpreter).index,
        ({
            let (s, m, res) = spec_resolve(old(interpreter).stack@, old(interpreter).memory@,
                params[0].value, params[0].mode as int);
            &&& (res is None ==> r is Err && final(interpreter).index == old(interpreter).index)
            &&& (res is Some ==> {
                &&& (r is Ok <==> res->0.typ == Type::Usigned && (s.len() == 0 ==> 15
                    * res->0.value <= usize::MAX))
                &&& (r is Ok ==> {
                    &&& final(interpreter).stack@ == s
                    &&& final(interpreter).memory@ == m
                    &&& final(interpreter).index == (if s.len() == 0 {
                        15 * res->0.value
                    } else {
                        old(interpreter).index as int
                    })
                })
            })
        }),
{
    let value_byte = interpreter.convert(params[0].value, params[0].mode)?;
    let value = value_byte.force_u32(interpreter.current_command)?;
    if interpreter.stack.is_empty() {
        set_jump(interpreter, value)?;
    }
    Ok(())
}

/// Opcode 7: prints the top of the stack, which must be unsigned, as the
/// character its low byte spells (bytes past ASCII print the replacement
/// character), then pops it.
pub fn print<I: Infra>(interpreter: &mut Interpreter<I>, params: [Param; 3]) -> (r: Result<
    (),
    IError,
>)
    requires
        old(interpreter).stack.wf(),
    ensures
        final(interpreter).stack.wf(),
        final(interpreter).index == old(interpreter).index,
        final(interpreter).current_command == old(interpreter).current_command,
        final(interpreter).buffer == old(interpreter).buffer,
        final(interpreter).debug == old(interpreter).debug,
        final(interpreter).memory@ == old(interpreter).memory@,
        r is Ok <==> old(interpreter).stack@.len() > 0 && old(interpreter).stack@.last().typ
            == Type::Usigned,
        r is Ok ==> final(interpreter).stack@ == old(interpreter).stack@.drop_last(),
        r is Err ==> final(interpreter).stack@ == old(interpreter).stack@,
{
    if interpreter.stack.is_empty() {
        let mut message = String::new();
        message.append("Trying to use the stack while empty in command ");
        let n = usize_to_string(interpreter.current_command);
        message.append(n.as_str());
        return Err(IError::from_string(message));
    }
    let stack_byte = interpreter.stack.top()?;
    if !matches!(stack_byte.typ, Type::Usigned) {
        return Err(IError::message("Invalid number type for ASCII"));
    }
    let low = (stack_byte.value % 256) as u8;
    let text = if low < 128 {
        crate::text::char_to_string(low as char)
    } else {
        crate::text::char_to_string('\u{FFFD}')
    };
    interpreter.infra.print(text);
    interpreter.stack.pop();
    Ok(())
}

/// Opcode 8: prints the top of the stack according to its tag, then pops
/// it.
pub fn printnumber<I: Infra>(interpreter: &mut Interpreter<I>, params: [Param; 3]) -> (r: Result<
    (),
    IError,
>)
    requires
        old(interpreter).stack.wf(),
    ensures
        final(interpreter).stack.wf(),
        final(interpreter).index == old(interpreter).index,
        final(interpreter).current_command == old(interpreter).current_command,
        final(interpreter).buffer == old(interpreter).buffer,
        final(interpreter).debug == old(interpreter).debug,
        final(interpreter).memory@ == old(interpreter).memory@,
        r is Ok <==> old(interpreter).stack@.len() > 0,
        r is Ok ==> final(interpreter).stack@ == old(interpreter).stack@.drop_last(),
        r is Err ==> final(interpreter).stack@ == old(interpreter).stack@,
{
    let top = interpreter.stack.top()?;
    let text = match top.typ {
        Type::Usigned => u32_to_string(top.value),
        Type::Signed => i32_to_string(bits_to_i32(top.value)),
        Type::Floating => interpreter.infra.float_to_string(top.value),
    };
    interpreter.infra.print(text);
    interpreter.stack.pop();
    Ok(())
}

/// Opcode 9: unconditional jump to the command index given by the first
/// parameter.
pub fn jump<I: Infra>(interpreter: &mut Interpreter<I>, params: [Param; 3]) -> (r: Result<
    (),
    IError,
>)
    requires
        old(interpreter).stack.wf(),
        params[0].mode < 4,
    ensures
        final(interpreter).stack.wf(),
        final(interpreter).current_command == old(interpreter).current_command,
        final(interpreter).buffer == old(interpreter).buffer,
        final(interpreter).debug == old(interpreter).debug,
        r is Err ==> final(interpreter).index == old(interpreter).index,
        ({
            let (s, m, res) = spec_resolve(old(interpreter).stack@, old(interpreter).memory@,
                params[0].value, params[0].mode as int);
            &&& (res is None ==> r is Err && final(interpreter).index == old(interpreter).index)
            &&& (res is Some ==> {
                &&& (r is Ok <==> res->0.typ == Type::Usigned && 15 * res->0.value
                    <= usize::MAX)
                &&& (r is Ok ==> {
                    &&& final(interpreter).stack@ == s
                    &&& final(interpreter).memory@ == m
                    &&& final(interpreter).index == 15 * res->0.value
                })
            })
        }),
{
    let value_byte = interpreter.convert(params[0].value, params[0].mode)?;
    let value = value_byte.force_u32(interpreter.current_command)?;
    set_jump(interpreter, value)?;
    Ok(())
}

/// Opcode 10: pops the top of the stack and stores it at the address
/// given by the first parameter, growing the memory to cover it.
pub fn set<I: Infra>(interpreter: &mut Interpreter<I>, params: [Param; 3]) -> (r: Result<
    (),
    IError,
>)
    requires
        old(interpreter).stack.wf(),
        params[0].mode < 4,
    ensures
        final(interpreter).stack.wf(),
        final(interpreter).index == old(interpreter).index,
        final(interpreter).current_command == old(interpreter).current_command,
        final(interpreter).buffer == old(interpreter).buffer,
        final(interpreter).debug == old(interpreter).debug,
        ({
            let (s, m, res) = spec_resolve(old(interpreter).stack@, old(interpreter).memory@,
                params[0].value, params[0].mode as int);
            &&& (res is None ==> r is Err)
            &&& (res is Some ==> {
                let a = res->0.value as int;
                &&& (r is Ok <==> res->0.typ == Type::Usigned && res->0.value < usize::MAX
                    && s.len() > 0)
                &&& (r is Ok ==> {
                    &&& final(interpreter).stack@ == s.drop_last()
                    &&& final(interpreter).memory@ == spec_grow(m, a).update(a, s.last())
                })
            })
        }),
{
    let address_byte = interpreter.convert(params[0].value, params[0].mode)?;
    let address = address_byte.force_u32(interpreter.current_command)?;
    if address as u64 >= usize::MAX as u64 {
        return Err(IError::message("memory address out of range"));
    }
    let typed_byte = interpreter.stack.top()?;
    interpreter.stack.pop();
    interpreter.validate_until(address as usize);
    interpreter.memory[address as usize] = typed_byte;
    Ok(())
}

/// Opcode 11: pops the top of the stack; on an empty stack does nothing.
pub fn pop_stack<I: Infra>(interpreter: &mut Interpreter<I>, params: [Param; 3]) -> (r: Result<
    (),
    IError,
>)
    requires
        old(interpreter).stack.wf(),
    ensures
        final(interpreter).stack.wf(),
        final(interpreter).index == old(interpreter).index,
        final(interpreter).current_command == old(interpreter).current_command,
        final(interpreter).buffer == old(interpreter).buffer,
        final(interpreter).debug == old(interpreter).debug,
        final(interpreter).memory@ == old(interpreter).memory@,
        r is Ok,
        old(interpreter).stack@.len() > 0 ==> final(interpreter).stack@
            == old(interpreter).stack@.drop_last(),
        old(interpreter).stack@.len() == 0 ==> final(interpreter).stack@
            == old(interpreter).stack@,
{
    if !interpreter.stack.is_empty() {
        interpreter.stack.pop();
    }
    Ok(())
}

/// Opcode 14: flushes the output.
pub fn flush<I: Infra>(interpreter: &mut Interpreter<I>, params: [Param; 3]) -> (r: Result<
    (),
    IError,
>)
    ensures
        final(interpreter).stack == old(interpreter).stack,
        final(interpreter).memory == old(interpreter).memory,
        final(interpreter).index == old(interpreter).index,
        final(interpreter).current_command == old(interpreter).current_command,
        final(interpreter).buffer == old(interpreter).buffer,
        final(interpreter).debug == old(interpreter).debug,
        r is Ok,
{
    interpreter.infra.flush();
    Ok(())
}

/// The run of consecutive non-zero payloads in `m` starting at `a`,
/// read as raw 32-bit numbers, up to the first zero cell or the end.
pub open spec fn spec_cstring_run(m: Seq<TypedByte>, a: int) -> Seq<u32>
    decreases m.len() - a,
{
    if 0 <= a < m.len() && m[a].value != 0 {
        seq![m[a].value] + spec_cstring_run(m, a + 1)
    } else {
        Seq::<u32>::empty()
    }
}

/// Opcode 6: reads one line of input. The first parameter is the
/// destination address, the second the kind (1 parses unsigned, 2 signed,
/// 3 floating; anything else stores the characters), the third the
/// character limit for the raw form.
#[verifier::rlimit(60)]
pub fn input<I: Infra>(interpreter: &mut Interpreter<I>, params: [Param; 3]) -> (r: Result<
    (),
    IError,
>)
    requires
        old(interpreter).stack.wf(),
        params[0].mode < 4,
        params[1].mode < 4,
        params[2].mode < 4,
    ensures
        final(interpreter).stack.wf(),
        final(interpreter).index == old(interpreter).index,
        final(interpreter).current_command == old(interpreter).current_command,
        final(interpreter).buffer == old(interpreter).buffer,
        final(interpreter).debug == old(interpreter).debug,
        final(interpreter).time == old(interpreter).time,
        final(interpreter).duration_millis == old(interpreter).duration_millis,
        ({
            let (s, m, res) = spec_resolve3(old(interpreter).stack@, old(interpreter).memory@,
                params[0], params[1], params[2]);
            &&& (res is None ==> r is Err)
            &&& (res is Some ==> {
                let (av, kv, lv) = res->0;
                &&& (av.typ != Type::Usigned || kv.typ != Type::Usigned || lv.typ
                    != Type::Usigned ==> r is Err)
                &&& (r is Ok ==> final(interpreter).stack@ == s)
                &&& (av.typ == Type::Usigned && kv.typ == Type::Usigned && lv.typ
                    == Type::Usigned ==> {
                    let a = av.value as int;
                    let limit = lv.value as int;
                    &&& (kv.value == 1 ==> (r is Ok ==> exists|v: u32|
                        final(interpreter).memory@ == spec_grow(m, a).update(
                            a,
                            TypedByte { value: v, typ: Type::Usigned },
                        )))
                    &&& (kv.value == 2 ==> (r is Ok ==> exists|v: u32|
                        final(interpreter).memory@ == spec_grow(m, a).update(
                            a,
                            TypedByte { value: v, typ: Type::Signed },
                        )))
                    &&& (kv.value == 3 ==> (r is Ok ==> exists|v: u32|
                        final(interpreter).memory@ == spec_grow(m, a).update(
                            a,
                            TypedByte { value: v, typ: Type::Floating },
                        )))
                    &&& (kv.value == 0 || kv.value > 3 ==> (r is Ok ==> exists|j: int|
                        #![trigger final(interpreter).memory@[a + j]]
                        {
                            let grown = spec_grow(m, a + limit + 2);
                            &&& 0 <= j <= limit
                            &&& final(interpreter).memory@.len() == grown.len()
                            &&& (forall|k: int|
                                0 <= k < grown.len() && !(a <= k <= a + j)
                                    ==> #[trigger] final(interpreter).memory@[k] == grown[k])
                            &&& (forall|k: int|
                                a <= k < a + j ==> (#[trigger] final(interpreter).memory@[k]).typ
                                    == Type::Usigned)
                            &&& final(interpreter).memory@[a + j] == spec_zero_byte()
                        }))
                })
            })
        }),
{
    let value_byte = interpreter.convert(params[0].value, params[0].mode)?;
    let value32 = value_byte.force_u32(interpreter.current_command)?;
    let kind_byte = interpreter.convert(params[1].value, params[1].mode)?;
    let kind = kind_byte.force_u32(interpreter.current_command)?;
    let limit_byte = interpreter.convert(params[2].value, params[2].mode)?;
    let limit = limit_byte.force_u32(interpreter.current_command)?;
    let ghost resolved = *interpreter;

    interpreter.infra.flush();
    let buff = interpreter.infra.read_line()?;

    if kind == 1 {
        if value32 as u64 >= usize::MAX as u64 {
            return Err(IError::message("memory address out of range"));
        }
        let parsed = match parse_u32(crate::text::trim(buff.as_str())) {
            Ok(v) => v,
            Err(e) => {
                return Err(IError::message(e));
            },
        };
        interpreter.validate_until(value32 as usize);
        interpreter.memory[value32 as usize] = TypedByte::unsigned(parsed);
        proof {
            let (s0, m0, res0) = spec_resolve3(old(interpreter).stack@, old(interpreter).memory@,
                params[0], params[1], params[2]);
            assert(m0 == resolved.memory@);
            assert(interpreter.memory@ =~= spec_grow(m0, value32 as int).update(
                value32 as int,
                TypedByte { value: parsed, typ: Type::Usigned },
            ));
        }
    } else if kind == 2 {
        if value32 as u64 >= usize::MAX as u64 {
            return Err(IError::message("memory address out of range"));
        }
        let parsed = match parse_i32(crate::text::trim(buff.as_str())) {
            Ok(v) => v,
            Err(e) => {
                return Err(IError::message(e));
            },
        };
        interpreter.validate_until(value32 as usize);
        interpreter.memory[value32 as usize] = TypedByte::signed(parsed);
        proof {
            let (s0, m0, res0) = spec_resolve3(old(interpreter).stack@, old(interpreter).memory@,
                params[0], params[1], params[2]);
            assert(m0 == resolved.memory@);
            assert(interpreter.memory@ =~= spec_grow(m0, value32 as int).update(
                value32 as int,
                TypedByte { value: spec_i32_bits(parsed), typ: Type::Signed },
            ));
        }
    } else if kind == 3 {
        if value32 as u64 >= usize::MAX as u64 {
            return Err(IError::message("memory address out of range"));
        }
        let parsed = match interpreter.infra.parse_float(crate::text::trim(buff.as_str())) {
            Some(bits) => bits,
            None => {
                return Err(IError::message("invalid float literal"));
            },
        };
        interpreter.validate_until(value32 as usize);
        interpreter.memory[value32 as usize] = TypedByte::floating_bits(parsed);
        proof {
            let (s0, m0, res0) = spec_resolve3(old(interpreter).stack@, old(interpreter).memory@,
                params[0], params[1], params[2]);
            assert(m0 == resolved.memory@);
            assert(interpreter.memory@ =~= spec_grow(m0, value32 as int).update(
                value32 as int,
                TypedByte { value: parsed, typ: Type::Floating },
            ));
        }
    } else {
        let address_to = value32 as u64 + limit as u64 + 2;
        if address_to >= usize::MAX as u64 {
            return Err(IError::message("memory address out of range"));
        }
        let ghost m3 = interpreter.memory@;
        interpreter.validate_until(address_to as usize);
        let ghost pre = *interpreter;
        proof {
            assert(pre.memory@ == spec_grow(m3, value32 as int + limit as int + 2));
        }
        let mut value: usize = value32 as usize;
        let len = buff.as_str().unicode_len();
        let mut i: usize = 0;
        while i < len && i < limit as usize
            invariant
                value == value32 + i,
                i <= len,
                len == buff@.len(),
                value32 + limit + 2 < usize::MAX,
                i <= limit,
                pre.memory@ == spec_grow(m3, value32 as int + limit as int + 2),
                interpreter.memory@.len() == pre.memory@.len(),
                interpreter.memory@.len() > value32 + limit + 1,
                forall|k: int|
                    0 <= k < interpreter.memory@.len() && !(value32 <= k < value32 + i)
                        ==> interpreter.memory@[k] == pre.memory@[k],
                forall|k: int|
                    value32 <= k < value32 + i ==> interpreter.memory@[k].typ == Type::Usigned,
                interpreter.stack == pre.stack,
                interpreter.index == pre.index,
                interpreter.current_command == pre.current_command,
                interpreter.buffer == pre.buffer,
                interpreter.debug == pre.debug,
                interpreter.time == pre.time,
                interpreter.duration_millis == pre.duration_millis,
                interpreter.stack.wf(),
            decreases len - i,
        {
            let char = buff.as_str().get_char(i);
            let char = if char == '\n' {
                '\0'
            } else {
                char
            };
            let code = char as u32;
            interpreter.memory[value] = TypedByte::unsigned(code);
            value += 1;
            i += 1;
        }
        interpreter.memory[value] = TypedByte::unsigned(0);
        proof {
            let (s0, m0, res0) = spec_resolve3(old(interpreter).stack@, old(interpreter).memory@,
                params[0], params[1], params[2]);
            let a = value32 as int;
            let j = i as int;
            let grown_spec = spec_grow(m0, a + limit as int + 2);
            assert(m0 == resolved.memory@);
            assert(m3 == resolved.memory@);
            assert(pre.memory@ == grown_spec);
            assert(0 <= j <= limit as int);
            assert(interpreter.memory@[a + j] == spec_zero_byte());
            assert(interpreter.memory@.len() == grown_spec.len());
            assert(forall|k: int|
                0 <= k < grown_spec.len() && !(a <= k <= a + j)
                    ==> #[trigger] interpreter.memory@[k] == grown_spec[k]);
            assert(forall|k: int|
                a <= k < a + j ==> (#[trigger] interpreter.memory@[k]).typ == Type::Usigned);
        }
    }
    Ok(())
}

/// Opcode 12: starting at the address given by the first parameter, reads
/// consecutive cells up to the first zero payload and pushes them in
/// reverse, so that popping and printing yields them in forward order.
/// Every pushed value carries the unsigned tag, whatever the cells held.
pub fn load_string<I: Infra>(interpreter: &mut Interpreter<I>, params: [Param; 3]) -> (r: Result<
    (),
    IError,
>)
    requires
        old(interpreter).stack.wf(),
        params[0].mode < 4,
    ensures
        final(interpreter).stack.wf(),
        final(interpreter).index == old(interpreter).index,
        final(interpreter).current_command == old(interpreter).current_command,
        final(interpreter).buffer == old(interpreter).buffer,
        final(interpreter).debug == old(interpreter).debug,
        ({
            let (s, m, res) = spec_resolve(old(interpreter).stack@, old(interpreter).memory@,
                params[0].value, params[0].mode as int);
            &&& (res is None ==> r is Err)
            &&& (res is Some ==> {
                let a = res->0.value as int;
                let grown = spec_grow(m, a + 5);
                let run = spec_cstring_run(grown, a);
                &&& (r is Ok <==> res->0.typ == Type::Usigned && res->0.value + 5 < usize::MAX)
                &&& (r is Ok ==> {
                    &&& final(interpreter).memory@ == grown
                    &&& final(interpreter).stack@ == s + run.reverse().map_values(
                        |v: u32| TypedByte { value: v, typ: Type::Usigned },
                    )
                })
            })
        }),
{
    let value_byte = interpreter.convert(params[0].value, params[0].mode)?;
    let value32 = value_byte.force_u32(interpreter.current_command)?;
    if value32 as u64 + 5 >= usize::MAX as u64 {
        return Err(IError::message("memory address out of range"));
    }
    let ghost s = interpreter.stack@;
    interpreter.validate_until(value32 as usize + 5);
    let ghost pre = *interpreter;
    let ghost grown = interpreter.memory@;
    let ghost run = spec_cstring_run(grown, value32 as int);
    let mut buffer: Vec<u32> = Vec::new();
    let mut value: usize = value32 as usize;
    let mlen = interpreter.memory.len();
    while value < mlen && interpreter.memory[value].value != 0
        invariant
            value32 <= value <= mlen,
            mlen == interpreter.memory@.len(),
            interpreter.memory@ == grown,
            interpreter.stack == pre.stack,
            interpreter.index == pre.index,
            interpreter.current_command == pre.current_command,
            interpreter.buffer == pre.buffer,
            interpreter.debug == pre.debug,
            interpreter.stack.wf(),
            run == buffer@ + spec_cstring_run(grown, value as int),
            forall|k: int| value32 <= k < value ==> grown[k].value != 0,
        decreases mlen - value,
    {
        let temp = interpreter.memory[value].value;
        buffer.push(temp);
        value += 1;
        proof {
            assert(run =~= buffer@ + spec_cstring_run(grown, value as int));
        }
    }
    proof {
        assert(spec_cstring_run(grown, value as int) =~= Seq::<u32>::empty());
        assert(run =~= buffer@);
    }
    let mut j: usize = buffer.len();
    proof {
        assert(run.subrange(run.len() as int, run.len() as int) =~= Seq::<u32>::empty());
        assert(interpreter.stack@ =~= s + run.subrange(
            j as int,
            run.len() as int,
        ).reverse().map_values(|v: u32| TypedByte { value: v, typ: Type::Usigned }));
    }
    while j > 0
        invariant
            0 <= j <= buffer@.len(),
            buffer@ == run,
            interpreter.memory@ == grown,
            interpreter.index == pre.index,
            interpreter.current_command == pre.current_command,
            interpreter.buffer == pre.buffer,
            interpreter.debug == pre.debug,
            interpreter.stack.wf(),
            interpreter.stack@ == s + run.subrange(j as int, run.len() as int).reverse().map_values(
                |v: u32| TypedByte { value: v, typ: Type::Usigned },
            ),
        decreases j,
    {
        j -= 1;
        let v = buffer[j];
        interpreter.stack.push(TypedByte::unsigned(v));
        proof {
            assert(interpreter.stack@ =~= s + run.subrange(
                j as int,
                run.len() as int,
            ).reverse().map_values(|v: u32| TypedByte { value: v, typ: Type::Usigned }));
        }
    }
    proof {
        assert(run.subrange(0, run.len() as int) =~= run);
        assert(interpreter.stack@ =~= s + run.reverse().map_values(
            |v: u32| TypedByte { value: v, typ: Type::Usigned },
        ));
    }
    Ok(())
}

/// Opcode 13: timer operations. Subcommand 0 records the present moment;
/// subcommand 1 consumes two stack values, concatenating their payloads
/// big-endian (the top as the high four bytes) into a target duration in
/// milliseconds; subcommand 2 pushes 0, 1 or 2 as the elapsed whole
/// milliseconds compare below, equal to, or above the target. Unknown
/// subcommands do nothing.
pub fn time_operations<I: Infra>(interpreter: &mut Interpreter<I>, params: [Param; 3]) -> (r:
    Result<(), IError>)
    requires
        old(interpreter).stack.wf(),
        params[0].mode < 4,
    ensures
        final(interpreter).stack.wf(),
        final(interpreter).index == old(interpreter).index,
        final(interpreter).current_command == old(interpreter).current_command,
        final(interpreter).buffer == old(interpreter).buffer,
        final(interpreter).debug == old(interpreter).debug,
        ({
            let (s, m, res) = spec_resolve(old(interpreter).stack@, old(interpreter).memory@,
                params[0].value, params[0].mode as int);
            &&& (res is None ==> r is Err)
            &&& (res is Some && res->0.typ == Type::Usigned ==> {
                let sub = res->0.value;
                &&& (sub == 0 ==> r is Ok && final(interpreter).stack@ == s
                    && final(interpreter).time is Some && final(interpreter).memory@ == m
                    && final(interpreter).duration_millis == old(interpreter).duration_millis)
                &&& (sub == 1 ==> {
                    &&& (r is Ok <==> s.len() >= 2)
                    &&& (r is Ok ==> {
                        &&& final(interpreter).stack@ == s.drop_last().drop_last()
                        &&& final(interpreter).duration_millis == Some(
                            (s.last().value * 0x1_0000_0000 + s[s.len() - 2].value) as u64,
                        )
                        &&& final(interpreter).memory@ == m
                        &&& final(interpreter).time == old(interpreter).time
                    })
                })
                &&& (sub == 2 ==> {
                    &&& r is Ok
                    &&& final(interpreter).memory@ == m
                    &&& final(interpreter).time == old(interpreter).time
                    &&& final(interpreter).duration_millis == old(interpreter).duration_millis
                    &&& (old(interpreter).time is Some && old(interpreter).duration_millis
                        is Some ==> {
                        &&& final(interpreter).stack@.len() == s.len() + 1
                        &&& final(interpreter).stack@.drop_last() == s
                        &&& final(interpreter).stack@.last().typ == Type::Usigned
                        &&& final(interpreter).stack@.last().value <= 2
                    })
                    &&& (old(interpreter).time is None || old(interpreter).duration_millis
                        is None ==> final(interpreter).stack@ == s)
                })
                &&& (sub > 2 ==> r is Ok && final(interpreter).stack@ == s
                    && final(interpreter).memory@ == m && final(interpreter).time
                    == old(interpreter).time && final(interpreter).duration_millis
                    == old(interpreter).duration_millis)
            })
        }),
{
    let sub_byte = interpreter.convert(params[0].value, params[0].mode)?;
    let sub = sub_byte.force_u32(interpreter.current_command)?;
    if sub == 0 {
        interpreter.time = Some(instant_now());
    } else if sub == 1 {
        let a = interpreter.stack.top()?;
        interpreter.stack.pop();
        let b = interpreter.stack.top()?;
        interpreter.stack.pop();
        let millis = a.value as u64 * 0x1_0000_0000u64 + b.value as u64;
        interpreter.duration_millis = Some(millis);
    } else if sub == 2 {
        if interpreter.time.is_some() {
            if interpreter.duration_millis.is_some() {
                let elapsed = match &interpreter.time {
                    Some(t) => elapsed_millis(t),
                    None => 0,
                };
                let target = match interpreter.duration_millis {
                    Some(d) => d,
                    None => 0,
                };
                if elapsed < target {
                    interpreter.stack.push(TypedByte::unsigned(0));
                } else if elapsed == target {
                    interpreter.stack.push(TypedByte::unsigned(1));
                } else {
                    interpreter.stack.push(TypedByte::unsigned(2));
                }
            }
        }
    }
    Ok(())
}

/// Opcode 15: terminal control. Subcommand 0 switches raw mode by a
/// popped flag, 1 clears (popped 0 purges, anything else clears all),
/// 2 pops two values into a poll timeout and pushes the key code
/// received, 3 shows or hides the cursor by a popped flag, and 4 moves
/// the cursor to a popped column and row. Unknown subcommands do
/// nothing.
pub fn terminal_commands<I: Infra>(interpreter: &mut Interpreter<I>, params: [Param; 3]) -> (r:
    Result<(), IError>)
    requires
        old(interpreter).stack.wf(),
        params[0].mode < 4,
    ensures
        final(interpreter).stack.wf(),
        final(interpreter).index == old(interpreter).index,
        final(interpreter).current_command == old(interpreter).current_command,
        final(interpreter).buffer == old(interpreter).buffer,
        final(interpreter).debug == old(interpreter).debug,
        final(interpreter).time == old(interpreter).time,
        final(interpreter).duration_millis == old(interpreter).duration_millis,
        ({
            let (s, m, res) = spec_resolve(old(interpreter).stack@, old(interpreter).memory@,
                params[0].value, params[0].mode as int);
            &&& (res is None ==> r is Err)
            &&& (res is Some && res->0.typ == Type::Usigned ==> {
                let sub = res->0.value;
                &&& (sub == 0 || sub == 1 || sub == 3 ==> {
                    &&& (s.len() == 0 || s.last().typ != Type::Usigned ==> r is Err)
                    &&& (r is Ok ==> final(interpreter).stack@ == s.drop_last()
                        && final(interpreter).memory@ == m)
                })
                &&& (sub == 2 ==> {
                    &&& (s.len() < 2 ==> r is Err)
                    &&& (r is Ok ==> {
                        &&& final(interpreter).stack@.len() == s.len() - 1
                        &&& final(interpreter).stack@.drop_last()
                            == s.drop_last().drop_last()
                        &&& final(interpreter).stack@.last().typ == Type::Usigned
                        &&& final(interpreter).memory@ == m
                    })
                })
                &&& (sub == 4 ==> {
                    &&& (s.len() < 2 || s.last().typ != Type::Usigned ==> r is Err)
                    &&& (r is Ok ==> final(interpreter).stack@ == s.drop_last().drop_last()
                        && final(interpreter).memory@ == m)
                })
                &&& (sub > 4 ==> r is Ok && final(interpreter).stack@ == s
                    && final(interpreter).memory@ == m)
            })
        }),
{
    let sub_byte = interpreter.convert(params[0].value, params[0].mode)?;
    let sub = sub_byte.force_u32(interpreter.current_command)?;
    if sub == 0 {
        let top = interpreter.stack.top()?;
        let on_off = top.force_u32(interpreter.current_command)?;
        interpreter.stack.pop();
        if on_off == 0 {
            interpreter.infra.disable_raw_mode()?;
        } else {
            interpreter.infra.enable_raw_mode()?;
        }
    } else if sub == 1 {
        let top = interpreter.stack.top()?;
        let kind = top.force_u32(interpreter.current_command)?;
        interpreter.stack.pop();
        if kind == 0 {
            interpreter.infra.clear_purge()?;
        } else {
            interpreter.infra.clear_all()?;
        }
    } else if sub == 2 {
        let a = interpreter.stack.top()?;
        interpreter.stack.pop();
        let b = interpreter.stack.top()?;
        interpreter.stack.pop();
        let millis = a.value as u64 * 0x1_0000_0000u64 + b.value as u64;
        let value = interpreter.infra.poll(millis)?;
        interpreter.stack.push(TypedByte::unsigned(value));
    } else if sub == 3 {
        let top = interpreter.stack.top()?;
        let on_off = top.force_u32(interpreter.current_command)?;
        interpreter.stack.pop();
        if on_off == 0 {
            interpreter.infra.hide_cursor()?;
        } else {
            interpreter.infra.show_cursor()?;
        }
    } else if sub == 4 {
        let top = interpreter.stack.top()?;
        let x = top.force_u32(interpreter.current_command)?;
        interpreter.stack.pop();
        let top2 = interpreter.stack.top()?;
        let y = top2.force_u32(interpreter.current_command)?;
        interpreter.stack.pop();
        interpreter.infra.move_cursor(x, y)?;
    }
    Ok(())
}

/// 2 raised to `k`.
pub open spec fn spec_pow2(k: nat) -> nat
    decreases k,
{
    if k == 0 {
        1
    } else {
        2 * spec_pow2((k - 1) as nat)
    }
}

/// The position of the highest set bit of `m` (zero for `m` 0 or 1).
pub open spec fn spec_msb(m: nat) -> nat
    decreases m,
{
    if m < 2 {
        0
    } else {
        1 + spec_msb(m / 2)
    }
}

proof fn lemma_pow2_pos(k: nat)
    ensures
        spec_pow2(k) >= 1,
    decreases k,
{
    if k > 0 {
        lemma_pow2_pos((k - 1) as nat);
    }
}

proof fn lemma_pow2_adds(a: nat, b: nat)
    ensures
        spec_pow2(a + b) == spec_pow2(a) * spec_pow2(b),
    decreases a,
{
    if a > 0 {
        lemma_pow2_adds((a - 1) as nat, b);
        let x = spec_pow2((a - 1) as nat);
        let y = spec_pow2(b);
        assert(spec_pow2(a + b) == 2 * spec_pow2((a - 1 + b) as nat));
        assert(spec_pow2((a - 1 + b) as nat) == x * y);
        assert(spec_pow2(a) == 2 * x);
        assert(2 * (x * y) == (2 * x) * y) by (nonlinear_arith);
        assert(spec_pow2(a + b) == spec_pow2(a) * spec_pow2(b));
    } else {
        assert(spec_pow2(a + b) == spec_pow2(b));
        assert(spec_pow2(a) == 1);
        assert(1 * spec_pow2(b) == spec_pow2(b)) by (nonlinear_arith);
    }
}

proof fn lemma_pow2_24()
    ensures
        spec_pow2(23) == 0x80_0000,
        spec_pow2(24) == 0x100_0000,
{
    reveal_with_fuel(spec_pow2, 25);
}

proof fn lemma_msb_range(m: nat, k: nat)
    requires
        spec_pow2(k) <= m < spec_pow2(k + 1),
    ensures
        spec_msb(m) == k,
    decreases k,
{
    if k == 0 {
    } else {
        assert(spec_pow2(k + 1) == 2 * spec_pow2(k));
        assert(spec_pow2(k) == 2 * spec_pow2((k - 1) as nat));
        lemma_msb_range(m / 2, (k - 1) as nat);
    }
}

/// The IEEE-754 single bit pattern of `m` divided by 2 to the 24: how a
/// 24-bit draw becomes a float in the unit interval. Zero maps to zero;
/// otherwise the exponent field is 103 plus the highest set bit's
/// position and the remaining bits, shifted up, form the fraction.
pub open spec fn spec_unit_float_bits(m: u32) -> u32 {
    if m == 0 {
        0
    } else {
        let k = spec_msb(m as nat);
        (((103 + k) * 0x80_0000) as int + (m - spec_pow2(k)) * spec_pow2((23 - k) as nat)) as u32
    }
}

/// Builds the bit pattern of `m` divided by 2 to the 24 as a 32-bit
/// float; `m` must fit in 24 bits, so the value lies in the unit
/// interval and the conversion is exact.
fn unit_float_bits(m: u32) -> (r: u32)
    requires
        m < 0x100_0000,
    ensures
        r == spec_unit_float_bits(m),
{
    if m == 0 {
        return 0;
    }
    let mut k: u32 = 0;
    let mut p: u32 = 1;
    while m / p >= 2
        invariant
            1 <= p <= m,
            m < 0x100_0000,
            p == spec_pow2(k as nat),
            k <= 23,
        decreases 23 - k,
    {
        proof {
            let pp = p as int;
            let mm = m as int;
            assert(mm >= 2 * pp) by (nonlinear_arith)
                requires
                    mm / pp >= 2,
                    pp >= 1,
            ;
            lemma_pow2_24();
            if k as nat + 1 > 23 {
                assert(spec_pow2(24) == 0x100_0000);
            }
        }
        p = p * 2;
        k = k + 1;
    }
    proof {
        let pp = p as int;
        let mm = m as int;
        assert(mm < 2 * pp) by (nonlinear_arith)
            requires
                mm / pp < 2,
                pp >= 1,
                mm >= 0,
        ;
        lemma_msb_range(m as nat, k as nat);
        lemma_pow2_24();
    }
    let q = 0x80_0000u32 / p;
    proof {
        lemma_pow2_adds(k as nat, (23 - k) as nat);
        let pp = p as int;
        let qq = q as int;
        let mm = m as int;
        let w = spec_pow2((23 - k) as nat) as int;
        lemma_pow2_pos((23 - k) as nat);
        assert(qq == w) by (nonlinear_arith)
            requires
                pp * w == 0x80_0000,
                qq == 0x80_0000int / pp,
                pp >= 1,
        ;
        assert((mm - pp) * qq < pp * qq) by (nonlinear_arith)
            requires
                0 <= mm - pp < pp,
                qq >= 1,
        ;
        assert(pp * qq == 0x80_0000);
    }
    let mantissa = (m - p) * q;
    (103 + k) * 0x80_0000 + mantissa
}

/// Opcode 16: pushes a uniformly distributed floating value in the unit
/// interval, built from 24 fresh random bits.
pub fn random<I: Infra>(interpreter: &mut Interpreter<I>, params: [Param; 3]) -> (r: Result<
    (),
    IError,
>)
    requires
        old(interpreter).stack.wf(),
    ensures
        final(interpreter).stack.wf(),
        final(interpreter).index == old(interpreter).index,
        final(interpreter).current_command == old(interpreter).current_command,
        final(interpreter).buffer == old(interpreter).buffer,
        final(interpreter).debug == old(interpreter).debug,
        final(interpreter).memory@ == old(interpreter).memory@,
        r is Ok,
        final(interpreter).stack@.len() == old(interpreter).stack@.len() + 1,
        final(interpreter).stack@.drop_last() == old(interpreter).stack@,
        final(interpreter).stack@.last().typ == Type::Floating,
        exists|m: u32|
            m < 0x100_0000 && final(interpreter).stack@.last().value == spec_unit_float_bits(m),
{
    let draw = random_u32();
    let bits = unit_float_bits(draw / 0x100);
    let ghost before = interpreter.stack@;
    interpreter.stack.push(TypedByte::floating_bits(bits));
    proof {
        assert(interpreter.stack@.drop_last() =~= before);
        assert(draw / 0x100 < 0x100_0000 && interpreter.stack@.last().value
            == spec_unit_float_bits(draw / 0x100));
    }
    Ok(())
}

impl<'a, I: Infra> Interpreter<'a, I> {
    /// Dispatches one decoded instruction to its opcode's handler. The
    /// invariant is preserved, and the program counter moves only through
    /// the jump opcodes, always onto a record boundary.
    pub fn execute_command(&mut self, opcode: u8, param1: Param, param2: Param, param3: Param)
        -> (r: Result<(), IError>)
        requires
            opcode <= 16,
            param1.mode < 4,
            param2.mode < 4,
            param3.mode < 4,
            old(self).inv(),
        ensures
            final(self).inv(),
            final(self).buffer == old(self).buffer,
            final(self).debug == old(self).debug,
            final(self).current_command == old(self).current_command,
            opcode == 0 ==> r is Ok && *final(self) == *old(self),
            opcode == 3 ==> ({
                let (s, m, res) = spec_resolve(old(self).stack@, old(self).memory@, param1.value,
                    param1.mode as int);
                &&& (r is Ok <==> res is Some)
                &&& (r is Ok ==> final(self).stack@ == s.push(res->0))
                &&& (r is Ok ==> final(self).memory@ == m)
                &&& final(self).index == old(self).index
            }),
            opcode == 9 ==> ({
                let (s, m, res) = spec_resolve(old(self).stack@, old(self).memory@, param1.value,
                    param1.mode as int);
                res is Some && res->0.typ == Type::Usigned && 15 * res->0.value <= usize::MAX
                    ==> r is Ok && final(self).index == 15 * res->0.value && final(self).stack@
                    == s && final(self).memory@ == m
            }),
            opcode == 11 ==> r is Ok && (if old(self).stack@.len() > 0 {
                final(self).stack@ == old(self).stack@.drop_last()
            } else {
                final(self).stack@ == old(self).stack@
            }) && final(self).index == old(self).index,
            opcode == 7 ==> {
                &&& (r is Ok <==> old(self).stack@.len() > 0 && old(self).stack@.last().typ
                    == Type::Usigned)
                &&& (r is Ok ==> final(self).stack@ == old(self).stack@.drop_last())
                &&& final(self).memory@ == old(self).memory@
                &&& final(self).index == old(self).index
            },
            opcode == 8 ==> {
                &&& (r is Ok <==> old(self).stack@.len() > 0)
                &&& (r is Ok ==> final(self).stack@ == old(self).stack@.drop_last())
                &&& final(self).memory@ == old(self).memory@
                &&& final(self).index == old(self).index
            },
            opcode == 10 ==> ({
                let (s, m, res) = spec_resolve(old(self).stack@, old(self).memory@, param1.value,
                    param1.mode as int);
                &&& (res is Some ==> {
                    let a = res->0.value as int;
                    &&& (r is Ok <==> res->0.typ == Type::Usigned && res->0.value < usize::MAX
                        && s.len() > 0)
                    &&& (r is Ok ==> final(self).stack@ == s.drop_last() && final(self).memory@
                        == spec_grow(m, a).update(a, s.last()))
                })
                &&& final(self).index == old(self).index
            }),
            opcode == 2 ==> ({
                let (s, m, res) = spec_resolve3(old(self).stack@, old(self).memory@, param1,
                    param2, param3);
                res is Some ==> {
                    let (v, v2, posv) = res->0;
                    r is Ok ==> final(self).stack@ == s && final(self).memory@ == m
                        && final(self).index == (if v.value < v2.value {
                        15 * posv.value
                    } else {
                        old(self).index as int
                    })
                }
            }),
            opcode == 4 ==> ({
                let (s, m, res) = spec_resolve3(old(self).stack@, old(self).memory@, param1,
                    param2, param3);
                res is Some ==> {
                    let (v, v2, posv) = res->0;
                    r is Ok && v.typ != Type::Floating ==> final(self).stack@ == s
                        && final(self).memory@ == m
                        && final(self).index == (if v.value == v2.value {
                        15 * posv.value
                    } else {
                        old(self).index as int
                    })
                }
            }),
            opcode == 5 ==> ({
                let (s, m, res) = spec_resolve(old(self).stack@, old(self).memory@, param1.value,
                    param1.mode as int);
                res is Some ==> (r is Ok ==> final(self).stack@ == s && final(self).memory@ == m
                    && final(self).index == (if s.len() == 0 {
                    15 * res->0.value
                } else {
                    old(self).index as int
                }))
            }),
            opcode == 16 ==> r is Ok && final(self).stack@.len() == old(self).stack@.len() + 1
                && final(self).stack@.drop_last() == old(self).stack@
                && final(self).stack@.last().typ == Type::Floating
                && final(self).memory@ == old(self).memory@
                && final(self).index == old(self).index,
    {
        let params = [param1, param2, param3];
        let r = if opcode == 0 {
            do_no_shit(self, params)
        } else if opcode == 1 {
            operations(self, params)
        } else if opcode == 2 {
            if_lower(self, params)
        } else if opcode == 3 {
            push_stack(self, params)
        } else if opcode == 4 {
            if_true_jump(self, params)
        } else if opcode == 5 {
            vstack_jump(self, params)
        } else if opcode == 6 {
            input(self, params)
        } else if opcode == 7 {
            print(self, params)
        } else if opcode == 8 {
            printnumber(self, params)
        } else if opcode == 9 {
            jump(self, params)
        } else if opcode == 10 {
            set(self, params)
        } else if opcode == 11 {
            pop_stack(self, params)
        } else if opcode == 12 {
            load_string(self, params)
        } else if opcode == 13 {
            time_operations(self, params)
        } else if opcode == 14 {
            flush(self, params)
        } else if opcode == 15 {
            terminal_commands(self, params)
        } else {
            random(self, params)
        };
        r
    }

    /// Executes the instruction under the program counter: decodes the
    /// record, advances the counter by one record, and dispatches.
    /// Returns whether execution has halted, that is, whether the
    /// counter now lies past the last record (immediately so when it
    /// already did).
    pub fn step(&mut self) -> (r: Result<bool, IError>)
        requires
            old(self).inv(),
        ensures
            final(self).inv(),
            final(self).buffer == old(self).buffer,
            final(self).debug == old(self).debug,
            old(self).index >= old(self).buffer@.len() ==> r == Ok::<bool, IError>(true)
                && *final(self) == *old(self),
            r is Ok ==> (r->Ok_0 <==> final(self).index >= final(self).buffer@.len()),
            r is Ok && old(self).index < old(self).buffer@.len() ==> final(self).current_command
                == final(self).index / 15,
            old(self).index < old(self).buffer@.len() ==> ({
                let c = spec_decode(
                    old(self).buffer@.subrange(old(self).index as int, old(self).index + 15),
                );
                let advanced = old(self).index + 15;
                &&& (c.opcode == 0 ==> r is Ok && final(self).index == advanced
                    && final(self).stack@ == old(self).stack@
                    && final(self).memory@ == old(self).memory@)
                &&& (c.opcode == 3 ==> ({
                    let (s, m, res) = spec_resolve(old(self).stack@, old(self).memory@,
                        c.param1.value, c.param1.mode as int);
                    &&& (r is Ok <==> res is Some)
                    &&& (r is Ok ==> final(self).stack@ == s.push(res->0) && final(self).memory@
                        == m && final(self).index == advanced)
                }))
                &&& (c.opcode == 7 ==> {
                    &&& (r is Ok <==> old(self).stack@.len() > 0
                        && old(self).stack@.last().typ == Type::Usigned)
                    &&& (r is Ok ==> final(self).stack@ == old(self).stack@.drop_last()
                        && final(self).memory@ == old(self).memory@
                        && final(self).index == advanced)
                })
                &&& (c.opcode == 8 ==> {
                    &&& (r is Ok <==> old(self).stack@.len() > 0)
                    &&& (r is Ok ==> final(self).stack@ == old(self).stack@.drop_last()
                        && final(self).memory@ == old(self).memory@
                        && final(self).index == advanced)
                })
                &&& (c.opcode == 9 ==> ({
                    let (s, m, res) = spec_resolve(old(self).stack@, old(self).memory@,
                        c.param1.value, c.param1.mode as int);
                    res is Some && res->0.typ == Type::Usigned && 15 * res->0.value
                        <= usize::MAX ==> r is Ok && final(self).index == 15 * res->0.value
                        && final(self).stack@ == s && final(self).memory@ == m
                }))
                &&& (c.opcode == 10 ==> ({
                    let (s, m, res) = spec_resolve(old(self).stack@, old(self).memory@,
                        c.param1.value, c.param1.mode as int);
                    res is Some ==> {
                        let a = res->0.value as int;
                        &&& (r is Ok <==> res->0.typ == Type::Usigned && res->0.value
                            < usize::MAX && s.len() > 0)
                        &&& (r is Ok ==> final(self).stack@ == s.drop_last()
                            && final(self).memory@ == spec_grow(m, a).update(a, s.last())
                            && final(self).index == advanced)
                    }
                }))
                &&& (c.opcode == 11 ==> r is Ok && (if old(self).stack@.len() > 0 {
                    final(self).stack@ == old(self).stack@.drop_last()
                } else {
                    final(self).stack@ == old(self).stack@
                }) && final(self).index == advanced)
                &&& (c.opcode == 2 ==> ({
                    let (s, m, res) = spec_resolve3(old(self).stack@, old(self).memory@,
                        c.param1, c.param2, c.param3);
                    res is Some ==> {
                        let (v, v2, posv) = res->0;
                        r is Ok ==> final(self).stack@ == s && final(self).memory@ == m
                            && final(self).index == (if v.value < v2.value {
                            15 * posv.value
                        } else {
                            advanced
                        })
                    }
                }))
                &&& (c.opcode == 4 ==> ({
                    let (s, m, res) = spec_resolve3(old(self).stack@, old(self).memory@,
                        c.param1, c.param2, c.param3);
                    res is Some ==> {
                        let (v, v2, posv) = res->0;
                        r is Ok && v.typ != Type::Floating ==> final(self).stack@ == s
                            && final(self).memory@ == m
                            && final(self).index == (if v.value == v2.value {
                            15 * posv.value
                        } else {
                            advanced
                        })
                    }
                }))
                &&& (c.opcode == 5 ==> ({
                    let (s, m, res) = spec_resolve(old(self).stack@, old(self).memory@,
                        c.param1.value, c.param1.mode as int);
                    res is Some ==> (r is Ok ==> final(self).stack@ == s && final(self).memory@
                        == m && final(self).index == (if s.len() == 0 {
                        15 * res->0.value
                    } else {
                        advanced
                    }))
                }))
                &&& (c.opcode == 16 ==> r is Ok && final(self).stack@.len() == old(
                    self,
                ).stack@.len() + 1 && final(self).stack@.drop_last() == old(self).stack@
                    && final(self).stack@.last().typ == Type::Floating
                    && final(self).memory@ == old(self).memory@
                    && final(self).index == advanced)
            }),
    {
        if self.index >= self.buffer.len() {
            return Ok(true);
        }
        proof {
            let b = self.buffer@;
            let i = self.index as int;
            assert(b.len() % 15 == 0);
            assert(i % 15 == 0);
            assert(i + 15 <= b.len() && 0 <= i / 15 < b.len() / 15 && 15 * (i / 15) == i)
                by (nonlinear_arith)
                requires
                    i % 15 == 0,
                    b.len() % 15 == 0,
                    0 <= i < b.len(),
            ;
        }
        let command = decode_at(self.buffer, self.index);
        if self.debug {
            let mut line = String::new();
            line.append("command: ");
            let n = usize_to_string(self.current_command);
            line.append(n.as_str());
            line.append("  opcode: ");
            let o = u32_to_string(command.opcode as u32);
            line.append(o.as_str());
            self.infra.println(line);
        }
        self.index += 15;
        match self.execute_command(command.opcode, command.param1, command.param2, command.param3)
        {
            Ok(()) => {
                self.current_command = self.index / 15;
                Ok(self.index >= self.buffer.len())
            },
            Err(err) => Err(err),
        }
    }
}

/// Memory growth discipline: after growing the memory to cover address
/// `a` (as a store or a memory-mode operand resolution does), the memory
/// is longer than `a`, every cell that existed before is untouched, and
/// every newly created cell is unsigned zero.
pub proof fn lemma_memory_growth(m: Seq<TypedByte>, a: int)
    requires
        a >= 0,
    ensures
        spec_grow(m, a).len() > a,
        spec_grow(m, a).len() >= m.len(),
        forall|i: int| 0 <= i < m.len() ==> spec_grow(m, a)[i] == m[i],
        forall|i: int| m.len() <= i < spec_grow(m, a).len() ==> spec_grow(m, a)[i]
            == spec_zero_byte(),
{
}

} // verus!
