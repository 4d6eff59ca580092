//! The value model: tagged 4-byte values, the error type, and the
//! last-in-first-out value stack.
use vstd::prelude::*;
use crate::text::usize_to_string;
use vstd::string::StringExecFns;

verus! {

/// The numeric tag a value carries: the two-bit type codes of the
/// instruction encoding, in order.
#[derive(Clone, Copy, PartialEq, Eq, Structural, Debug)]
pub enum Type {
    Usigned,
    Signed,
    Floating,
}

/// The two-bit code of a tag.
pub open spec fn spec_type_code(t: Type) -> u8 {
    match t {
        Type::Usigned => 0,
        Type::Signed => 1,
        Type::Floating => 2,
    }
}

impl Type {
    /// The two-bit code this tag is written as.
    pub fn code(&self) -> (r: u8)
        ensures
            r == spec_type_code(*self),
    {
        match self {
            Type::Usigned => 0,
            Type::Signed => 1,
            Type::Floating => 2,
        }
    }

    /// The tag written as `code`; the code 3 is reserved and has no tag.
    pub fn from_code(code: u8) -> (r: Type)
        requires
            code < 3,
        ensures
            spec_type_code(r) == code,
    {
        if code == 0 {
            Type::Usigned
        } else if code == 1 {
            Type::Signed
        } else {
            Type::Floating
        }
    }
}

/// An error surfaced to the caller, carrying its message.
#[derive(Debug)]
pub struct IError {
    error: String,
}

impl View for IError {
    type V = Seq<char>;

    closed spec fn view(&self) -> Seq<char> {
        self.error@
    }
}

impl IError {
    /// Wraps a message.
    pub fn message(error: &str) -> (r: IError)
        ensures
            r@ == error@,
    {
        IError { error: error.to_owned() }
    }

    /// Wraps an already-built message.
    pub fn from_string(error: String) -> (r: IError)
        ensures
            r@ == error@,
    {
        IError { error }
    }

    /// The message carried by this error.
    pub fn text(&self) -> (r: &String)
        ensures
            r@ == self@,
    {
        &self.error
    }
}

/// The bit pattern that a signed 32-bit value is stored as.
pub open spec fn spec_i32_bits(v: i32) -> u32 {
    if v >= 0 {
        v as u32
    } else {
        (v + 0x1_0000_0000) as u32
    }
}

/// The signed 32-bit value that a bit pattern stands for.
pub open spec fn spec_bits_i32(u: u32) -> i32 {
    if u <= 0x7FFF_FFFF {
        u as i32
    } else {
        (u - 0x1_0000_0000) as i32
    }
}

/// Converts a signed value to the bit pattern it is stored as.
pub fn i32_to_bits(v: i32) -> (r: u32)
    ensures
        r == spec_i32_bits(v),
{
    if v >= 0 {
        v as u32
    } else {
        let wide: i64 = v as i64;
        let magnitude: u64 = (-wide) as u64;
        (0x1_0000_0000u64 - magnitude) as u32
    }
}

/// Reads a bit pattern back as the signed value it stands for.
pub fn bits_to_i32(u: u32) -> (r: i32)
    ensures
        r == spec_bits_i32(u),
{
    if u <= 0x7FFF_FFFF {
        u as i32
    } else {
        let wide: i64 = u as i64 - 0x1_0000_0000i64;
        wide as i32
    }
}

/// Storing a signed value and reading it back yields the value again.
pub proof fn lemma_i32_bits_roundtrip(v: i32)
    ensures
        spec_bits_i32(spec_i32_bits(v)) == v,
{
}

/// The universal value unit: a 4-byte big-endian payload (held here as the
/// 32-bit number those bytes spell) together with its numeric tag.
#[derive(Clone, Copy, PartialEq, Eq, Structural, Debug)]
pub struct TypedByte {
    pub value: u32,
    pub typ: Type,
}

impl TypedByte {
    /// An unsigned value.
    pub fn unsigned(value: u32) -> (r: TypedByte)
        ensures
            r.value == value,
            r.typ == Type::Usigned,
    {
        TypedByte { value, typ: Type::Usigned }
    }

    /// A signed value, stored as its bit pattern.
    pub fn signed(value: i32) -> (r: TypedByte)
        ensures
            r.value == spec_i32_bits(value),
            r.typ == Type::Signed,
    {
        TypedByte { value: i32_to_bits(value), typ: Type::Signed }
    }

    /// A floating value, given by the bit pattern of the 32-bit float.
    pub fn floating_bits(bits: u32) -> (r: TypedByte)
        ensures
            r.value == bits,
            r.typ == Type::Floating,
    {
        TypedByte { value: bits, typ: Type::Floating }
    }

    /// Reinterprets this value under another tag: the convert flag's
    /// effect. The four payload bytes stay exactly as they are.
    pub fn convert(self, typ: Type) -> (r: TypedByte)
        ensures
            r.value == self.value,
            r.typ == typ,
    {
        TypedByte { value: self.value, typ }
    }

    /// Reads this value as an unsigned number; any other tag is refused.
    pub fn force_u32(&self, current_command: usize) -> (r: Result<u32, IError>)
        ensures
            r is Ok <==> self.typ == Type::Usigned,
            r is Ok ==> r->Ok_0 == self.value,
    {
        if self.typ != Type::Usigned {
            let mut message = String::new();
            message.append("Invalid number type at the command ");
            let n = usize_to_string(current_command);
            message.append(n.as_str());
            return Err(IError::from_string(message));
        }
        Ok(self.value)
    }
}

/// The value stack. The ghost counters record how many values were ever
/// pushed and how many pops actually removed one; together with `wf` they
/// state the stack discipline: the length always equals pushes minus
/// effective pops, and can never go negative.
pub struct Stack {
    pub vec: Vec<TypedByte>,
    pushes: Ghost<nat>,
    pops: Ghost<nat>,
}

impl View for Stack {
    type V = Seq<TypedByte>;

    closed spec fn view(&self) -> Seq<TypedByte> {
        self.vec@
    }
}

impl Stack {
    /// How many values were ever pushed.
    pub closed spec fn pushes(&self) -> nat {
        self.pushes@
    }

    /// How many pops removed a value (a pop of an empty stack removes
    /// nothing and does not count).
    pub closed spec fn pops(&self) -> nat {
        self.pops@
    }

    /// The stack discipline invariant.
    pub open spec fn wf(&self) -> bool {
        self.pops() <= self.pushes() && self@.len() == self.pushes() - self.pops()
    }

    /// An empty stack.
    pub fn new() -> (s: Stack)
        ensures
            s@ == Seq::<TypedByte>::empty(),
            s.wf(),
            s.pushes() == 0,
            s.pops() == 0,
    {
        Stack { vec: Vec::new(), pushes: Ghost(0), pops: Ghost(0) }
    }

    pub fn len(&self) -> (r: usize)
        ensures
            r == self@.len(),
    {
        self.vec.len()
    }

    pub fn is_empty(&self) -> (r: bool)
        ensures
            r == (self@.len() == 0),
    {
        self.vec.len() == 0
    }

    /// Pushes a value on top.
    pub fn push(&mut self, value: TypedByte)
        requires
            old(self).wf(),
        ensures
            final(self)@ == old(self)@.push(value),
            final(self).wf(),
            final(self).pushes() == old(self).pushes() + 1,
            final(self).pops() == old(self).pops(),
    {
        self.vec.push(value);
        proof {
            self.pushes@ = self.pushes@ + 1;
        }
    }

    /// Removes and returns the top value; on an empty stack removes
    /// nothing.
    pub fn pop(&mut self) -> (r: Option<TypedByte>)
        requires
            old(self).wf(),
        ensures
            old(self)@.len() == 0 ==> {
                &&& r is None
                &&& final(self)@ == old(self)@
                &&& final(self).pops() == old(self).pops()
            },
            old(self)@.len() > 0 ==> {
                &&& r == Some(old(self)@.last())
                &&& final(self)@ == old(self)@.drop_last()
                &&& final(self).pops() == old(self).pops() + 1
            },
            final(self).pushes() == old(self).pushes(),
            final(self).wf(),
    {
        let r = self.vec.pop();
        if r.is_some() {
            proof {
                self.pops@ = self.pops@ + 1;
            }
        }
        r
    }

    /// The top value, without removing it; fails on an empty stack.
    pub fn top(&self) -> (r: Result<TypedByte, IError>)
        ensures
            r is Ok <==> self@.len() > 0,
            r is Ok ==> r->Ok_0 == self@.last(),
    {
        if self.vec.len() > 0 {
            return Ok(self.vec[self.vec.len() - 1]);
        }
        Err(IError::message("Trying to access the stack while it is empty"))
    }
}

/// Stack discipline: at any moment the stack's length equals the number of
/// pushes so far minus the number of effective pops so far, and the
/// effective pops never outnumber the pushes.
pub proof fn lemma_stack_discipline(s: Stack)
    requires
        s.wf(),
    ensures
        s@.len() == s.pushes() - s.pops(),
        s.pops() <= s.pushes(),
{
}

} // verus!
