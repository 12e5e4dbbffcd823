//! Built-in operations and the lowering of literals.
use crate::types::{IntegerSize, Type, TypeModel};
use vstd::prelude::*;

verus! {

/// Intrinsics are operations built into the compier.
#[derive(Clone, Copy, Debug, PartialEq, Eq, Structural, PartialOrd, Ord, Hash)]
pub enum Intrinsic {
    /// Adds two numbers. Ints and floats supported.
    Add,
    /// Subtracts two numbers. Ints and floats supported.
    Sub,
    /// Multiplies two numbers. Ints and floats supported.
    Mul,
    /// Divides two numbers. Ints and floats supported.
    Div,
    /// Modulo of the two two numbers. Ints and floats supported.
    Rem,
    /// Negate a number. Ints and floats are supported.
    Neg,
    /// And of two values. Bitwise for integers, logical for booleans.
    And,
    /// Or of two values. Bitwise for integers, logical for booleans.
    Or,
    /// Xor of two values. Bitwise for integers, logical for booleans.
    Xor,
    /// Not. Bitwise for integers, logical for booleans.
    Not,
    /// Shift a number left by N bits. Integers only.
    Shl,
    /// Shift a number right by N bits. Integers only.
    Shr,
    /// Compares two arbitrary values. Any type supported,
    /// pointers will be compared by address.
    Eq,
    /// Compares two numbers (less than). Ints and floats supported.
    Lt,
    /// Compares two numbers (less than or equal). Ints and floats supported.
    Le,
    /// Compares two numbers (greater than). Ints and floats supported.
    Gt,
    /// Compares two numbers (greater than or equal). Ints and floats supported.
    Ge,
    /// Constructs a bigger value from smaller literals (bitwise concat),
    /// useful for large constants. Type is inherited from the literals.
    /// Only argument is the number of literals to bitwise concatenate.
    AggregateLiteral(u8),
}

impl Intrinsic {
    /// Number of arguments of the intrinsic.
    pub open spec fn spec_arg_count(self) -> u32 {
        match self {
            Intrinsic::Neg | Intrinsic::Not => 1,
            Intrinsic::AggregateLiteral(count) => count as u32,
            _ => 2,
        }
    }

    /// Whether debug display writes the intrinsic between its arguments.
    pub open spec fn spec_infix(self) -> bool {
        !(self is AggregateLiteral) && self.spec_arg_count() != 1
    }

    /// The result type the intrinsic fixes, if it fixes one.
    pub open spec fn spec_type_override(self) -> Option<TypeModel> {
        match self {
            Intrinsic::Eq | Intrinsic::Lt | Intrinsic::Le | Intrinsic::Gt | Intrinsic::Ge => Some(
                TypeModel::Bool,
            ),
            _ => None,
        }
    }

    /// Returns the number of arguments this intrinsic requires.
    pub fn arg_count(self) -> (r: u32)
        ensures
            r == self.spec_arg_count(),
    {
        match self {
            Intrinsic::Add => 2,
            Intrinsic::Sub => 2,
            Intrinsic::Mul => 2,
            Intrinsic::Div => 2,
            Intrinsic::Rem => 2,
            Intrinsic::Neg => 1,
            Intrinsic::And => 2,
            Intrinsic::Or => 2,
            Intrinsic::Xor => 2,
            Intrinsic::Not => 1,
            Intrinsic::Shl => 2,
            Intrinsic::Shr => 2,
            Intrinsic::Eq => 2,
            Intrinsic::Lt => 2,
            Intrinsic::Le => 2,
            Intrinsic::Gt => 2,
            Intrinsic::Ge => 2,
            Intrinsic::AggregateLiteral(count) => count as u32,
        }
    }

    /// Weather debug display should use infix notation for this intrinsic.
    pub fn infix(self) -> (r: bool)
        ensures
            r == self.spec_infix(),
    {
        match self {
            Intrinsic::AggregateLiteral(..) => false,
            _ => self.arg_count() != 1,
        }
    }

    /// For some intrinsics yields their return type,
    /// for others type must be derived from the arguments.
    pub fn type_override(self) -> (r: Option<Type>)
        ensures
            match r {
                Some(t) => self.spec_type_override() == Some(t@),
                None => self.spec_type_override() is None,
            },
    {
        match self {
            Intrinsic::Eq => Some(Type::Bool),
            Intrinsic::Lt => Some(Type::Bool),
            Intrinsic::Le => Some(Type::Bool),
            Intrinsic::Gt => Some(Type::Bool),
            Intrinsic::Ge => Some(Type::Bool),
            _ => None,
        }
    }
}

} // verus!

verus! {

/// The 32-bit chunks of `v`, least significant first, as `int_literal` cuts them:
/// while the value does not fit in an `i32`, its low 32 bits are taken and it is
/// shifted right (arithmetically) by 32 bits; the value that fits is the last chunk,
/// so that chunk carries the sign.
pub open spec fn int_chunks(v: i128, fuel: nat) -> Seq<i32>
    decreases fuel,
{
    if fuel == 0 {
        Seq::empty()
    } else if -0x8000_0000 <= v < 0x8000_0000 {
        seq![v as i32]
    } else {
        seq![(v & 0xffff_ffffi128) as i32] + int_chunks(v >> 32u32, (fuel - 1) as nat)
    }
}

/// The 32-bit chunks of `v`, least significant first, as `uint_literal` cuts them.
pub open spec fn uint_chunks(v: u128, fuel: nat) -> Seq<u32>
    decreases fuel,
{
    if fuel == 0 {
        Seq::empty()
    } else {
        let rest = v >> 32u32;
        if rest == 0 {
            seq![(v & 0xffff_ffffu128) as u32]
        } else {
            seq![(v & 0xffff_ffffu128) as u32] + uint_chunks(rest, (fuel - 1) as nat)
        }
    }
}

/// The instructions that encode literal chunks (least significant first):
/// an aggregate header unless there is exactly one chunk, then the chunks,
/// most significant first.
pub open spec fn literal_instrs(count: nat, chunk: spec_fn(int) -> super::Instr) -> Seq<super::Instr> {
    (if count != 1 {
        seq![super::Instr::Intrinsic(Intrinsic::AggregateLiteral(count as u8))]
    } else {
        Seq::empty()
    }) + Seq::new(count, |j: int| chunk(count - 1 - j))
}

/// Instructions `int_literal` appends for `v`.
pub open spec fn int_literal_instrs(v: i128, size: IntegerSize) -> Seq<super::Instr> {
    let chunks = int_chunks(v, 4);
    literal_instrs(chunks.len(), |k: int| super::Instr::IConst(chunks[k], size))
}

/// Instructions `uint_literal` appends for `v`.
pub open spec fn uint_literal_instrs(v: u128, size: IntegerSize) -> Seq<super::Instr> {
    let chunks = uint_chunks(v, 4);
    literal_instrs(chunks.len(), |k: int| super::Instr::UConst(chunks[k], size))
}

/// Bitwise concatenation of 32-bit literals, most significant first, the first one signed.
pub open spec fn concat_signed(s: Seq<i32>) -> int
    decreases s.len(),
{
    if s.len() == 0 {
        0
    } else if s.len() == 1 {
        s[0] as int
    } else {
        concat_signed(s.drop_last()) * 0x1_0000_0000 + (s.last() as u32) as int
    }
}

/// Bitwise concatenation of 32-bit literals, most significant first.
pub open spec fn concat_unsigned(s: Seq<u32>) -> int
    decreases s.len(),
{
    if s.len() == 0 {
        0
    } else {
        concat_unsigned(s.drop_last()) * 0x1_0000_0000 + s.last() as int
    }
}

/// How many significant bits an `i128` has left after `n` chunks were cut off.
pub open spec fn fits_after_cuts(x: i128, n: nat) -> bool {
    if n == 0 {
        true
    } else if n == 1 {
        -0x8000_0000_0000_0000_0000_0000i128 <= x < 0x8000_0000_0000_0000_0000_0000i128
    } else if n == 2 {
        -0x8000_0000_0000_0000i128 <= x < 0x8000_0000_0000_0000i128
    } else {
        -0x8000_0000i128 <= x < 0x8000_0000i128
    }
}

proof fn lemma_int_shift(x: i128, n: nat)
    requires
        n <= 3,
        fits_after_cuts(x, n),
    ensures
        n < 3 ==> fits_after_cuts(x >> 32u32, n + 1),
        n == 3 ==> (x >> 32u32) == 0 || (x >> 32u32) == -1,
{
    assert(-0x8000_0000_0000_0000_0000_0000i128 <= (x >> 32u32) < 0x8000_0000_0000_0000_0000_0000i128) by (bit_vector);
    assert(-0x8000_0000_0000_0000_0000_0000i128 <= x < 0x8000_0000_0000_0000_0000_0000i128
        ==> -0x8000_0000_0000_0000i128 <= (x >> 32u32) < 0x8000_0000_0000_0000i128) by (bit_vector);
    assert(-0x8000_0000_0000_0000i128 <= x < 0x8000_0000_0000_0000i128
        ==> -0x8000_0000i128 <= (x >> 32u32) < 0x8000_0000i128) by (bit_vector);
    assert(-0x8000_0000i128 <= x < 0x8000_0000i128
        ==> ((x >> 32u32) == 0 || (x >> 32u32) == -1)) by (bit_vector);
}

proof fn lemma_uint_shift(x: u128, n: nat)
    requires
        n <= 3,
        x < pow2_u128(128 - 32 * n),
    ensures
        n < 3 ==> (x >> 32u32) < pow2_u128(128 - 32 * (n + 1)),
        n == 3 ==> (x >> 32u32) == 0,
{
    if n == 0 {
        assert((x >> 32u32) < 0x1_0000_0000_0000_0000_0000_0000u128) by (bit_vector);
    } else if n == 1 {
        assert(x < 0x1_0000_0000_0000_0000_0000_0000u128 ==> (x >> 32u32) < 0x1_0000_0000_0000_0000u128) by (bit_vector);
    } else if n == 2 {
        assert(x < 0x1_0000_0000_0000_0000u128 ==> (x >> 32u32) < 0x1_0000_0000u128) by (bit_vector);
    } else {
        assert(x < 0x1_0000_0000u128 ==> (x >> 32u32) == 0) by (bit_vector);
    }
}

/// Bound on an `u128` that has had `128 - k` of its bits cut off.
pub open spec fn pow2_u128(k: int) -> int {
    if k >= 128 {
        0x1_0000_0000_0000_0000_0000_0000_0000_0000int
    } else if k >= 96 {
        0x1_0000_0000_0000_0000_0000_0000int
    } else if k >= 64 {
        0x1_0000_0000_0000_0000int
    } else {
        0x1_0000_0000int
    }
}

impl super::Body {
    /// Pushes an arbitrarily-sized int literal,
    /// possibly making use of [`Intrinsic::AggregateLiteral`].
    /// See also [`Self::uint_literal`].
    pub fn int_literal(&mut self, value: i128, size: IntegerSize)
        ensures
            final(self).instructions@ == old(self).instructions@ + int_literal_instrs(value, size),
            final(self).variables == old(self).variables,
            final(self).symbols == old(self).symbols,
            final(self).label_names == old(self).label_names,
    {
        let ghost v0 = value;
        let mut value = value;
        let mut segments: Vec<i32> = Vec::with_capacity(4);
        loop
            invariant_except_break
                segments@.len() < 4,
                fits_after_cuts(value, segments@.len() as nat),
                segments@ + int_chunks(value, (4 - segments@.len()) as nat) == int_chunks(v0, 4),
            ensures
                1 <= segments@.len() <= 4,
                segments@ == int_chunks(v0, 4),
            decreases 4 - segments@.len(),
        {
            if value >= -0x8000_0000 && value < 0x8000_0000 {
                segments.push(value as i32);
                assert(segments@ =~= int_chunks(v0, 4));
                break;
            }
            proof {
                lemma_int_shift(value, segments@.len() as nat);
            }
            segments.push(#[verifier::truncate] ((value & 0xffff_ffff) as i32));
            value >>= 32;
            assert(segments@ + int_chunks(value, (4 - segments@.len()) as nat) =~= int_chunks(v0, 4));
        }
        self.push_literal_header(segments.len());
        let ghost base = self.instructions@;
        let ghost chunks = segments@;
        let mut i = segments.len();
        while i > 0
            invariant
                i <= segments@.len(),
                segments@ == chunks,
                self.variables == old(self).variables,
                self.symbols == old(self).symbols,
                self.label_names == old(self).label_names,
                self.instructions@ == base + Seq::new(
                    (chunks.len() - i) as nat,
                    |j: int| super::Instr::IConst(chunks[chunks.len() - 1 - j], size),
                ),
            decreases i,
        {
            i -= 1;
            self.instructions.push(super::Instr::IConst(segments[i], size));
            assert(self.instructions@ =~= base + Seq::new(
                (chunks.len() - i) as nat,
                |j: int| super::Instr::IConst(chunks[chunks.len() - 1 - j], size),
            ));
        }
        assert(self.instructions@ =~= old(self).instructions@ + int_literal_instrs(v0, size));
    }

    /// Pushes an arbitrarily-sized unsigned int literal,
    /// possibly making use of [`Intrinsic::AggregateLiteral`].
    /// See also [`Self::int_literal`].
    pub fn uint_literal(&mut self, value: u128, size: IntegerSize)
        ensures
            final(self).instructions@ == old(self).instructions@ + uint_literal_instrs(value, size),
            final(self).variables == old(self).variables,
            final(self).symbols == old(self).symbols,
            final(self).label_names == old(self).label_names,
    {
        let ghost v0 = value;
        let mut value = value;
        let mut segments: Vec<u32> = Vec::with_capacity(4);
        loop
            invariant_except_break
                segments@.len() < 4,
                value < pow2_u128(128 - 32 * segments@.len()),
                segments@ + uint_chunks(value, (4 - segments@.len()) as nat) == uint_chunks(v0, 4),
            ensures
                1 <= segments@.len() <= 4,
                segments@ == uint_chunks(v0, 4),
            decreases 4 - segments@.len(),
        {
            proof {
                lemma_uint_shift(value, segments@.len() as nat);
            }
            segments.push(#[verifier::truncate] ((value & 0xffff_ffff) as u32));
            value >>= 32;
            if value == 0 {
                assert(segments@ =~= uint_chunks(v0, 4));
                break;
            }
            assert(segments@ + uint_chunks(value, (4 - segments@.len()) as nat) =~= uint_chunks(v0, 4));
        }
        self.push_literal_header(segments.len());
        let ghost base = self.instructions@;
        let ghost chunks = segments@;
        let mut i = segments.len();
        while i > 0
            invariant
                i <= segments@.len(),
                segments@ == chunks,
                self.variables == old(self).variables,
                self.symbols == old(self).symbols,
                self.label_names == old(self).label_names,
                self.instructions@ == base + Seq::new(
                    (chunks.len() - i) as nat,
                    |j: int| super::Instr::UConst(chunks[chunks.len() - 1 - j], size),
                ),
            decreases i,
        {
            i -= 1;
            self.instructions.push(super::Instr::UConst(segments[i], size));
            assert(self.instructions@ =~= base + Seq::new(
                (chunks.len() - i) as nat,
                |j: int| super::Instr::UConst(chunks[chunks.len() - 1 - j], size),
            ));
        }
        assert(self.instructions@ =~= old(self).instructions@ + uint_literal_instrs(v0, size));
    }

    /// Push the aggregate header for `count` literal chunks, if there is more than one.
    fn push_literal_header(&mut self, count: usize)
        requires
            1 <= count <= 4,
        ensures
            final(self).instructions@ == old(self).instructions@ + (if count != 1 {
                seq![super::Instr::Intrinsic(Intrinsic::AggregateLiteral(count as u8))]
            } else {
                Seq::empty()
            }),
            final(self).variables == old(self).variables,
            final(self).symbols == old(self).symbols,
            final(self).label_names == old(self).label_names,
    {
        if count != 1 {
            self.instructions.push(Intrinsic::AggregateLiteral(count as u8).into());
        }
        assert(self.instructions@ =~= old(self).instructions@ + (if count != 1 {
            seq![super::Instr::Intrinsic(Intrinsic::AggregateLiteral(count as u8))]
        } else {
            Seq::empty()
        }));
    }
}

proof fn lemma_concat_unsigned_push(s: Seq<u32>, x: u32)
    ensures
        concat_unsigned(s.push(x)) == concat_unsigned(s) * 0x1_0000_0000 + x as int,
{
    assert(s.push(x).drop_last() =~= s);
}

proof fn lemma_concat_signed_push(s: Seq<i32>, x: i32)
    requires
        s.len() >= 1,
    ensures
        concat_signed(s.push(x)) == concat_signed(s) * 0x1_0000_0000 + (x as u32) as int,
{
    assert(s.push(x).drop_last() =~= s);
}

proof fn lemma_uint_chunks_value(v: u128, n: nat)
    requires
        n <= 3,
        v < pow2_u128(128 - 32 * n),
    ensures
        concat_unsigned(uint_chunks(v, (4 - n) as nat).reverse()) == v,
        1 <= uint_chunks(v, (4 - n) as nat).len() <= 4 - n,
    decreases 4 - n,
{
    lemma_uint_shift(v, n);
    let rest = v >> 32u32;
    let lo = (v & 0xffff_ffffu128) as u32;
    assert(rest * 0x1_0000_0000 + (v & 0xffff_ffffu128) == v) by (bit_vector)
        requires
            rest == v >> 32u32,
    ;
    assert((v & 0xffff_ffffu128) < 0x1_0000_0000) by (bit_vector);
    if rest == 0 {
        assert(uint_chunks(v, (4 - n) as nat) == seq![lo]);
        assert(seq![lo].reverse() =~= seq![].push(lo));
        lemma_concat_unsigned_push(seq![], lo);
    } else {
        lemma_uint_chunks_value(rest, n + 1);
        let tail = uint_chunks(rest, (4 - (n + 1)) as nat);
        assert(uint_chunks(v, (4 - n) as nat) == seq![lo] + tail);
        assert((seq![lo] + tail).reverse() =~= tail.reverse().push(lo));
        lemma_concat_unsigned_push(tail.reverse(), lo);
    }
}

proof fn lemma_int_chunks_value(v: i128, n: nat)
    requires
        n <= 3,
        fits_after_cuts(v, n),
    ensures
        concat_signed(int_chunks(v, (4 - n) as nat).reverse()) == v,
        1 <= int_chunks(v, (4 - n) as nat).len() <= 4 - n,
    decreases 4 - n,
{
    if -0x8000_0000 <= v < 0x8000_0000 {
        let x = v as i32;
        assert(int_chunks(v, (4 - n) as nat) == seq![x]);
        assert(seq![x].reverse() =~= seq![x]);
    } else {
        lemma_int_shift(v, n);
        let rest = v >> 32u32;
        let lo = (v & 0xffff_ffffi128) as i32;
        assert(rest * 0x1_0000_0000 + ((v & 0xffff_ffffi128) as i32) as u32 == v) by (bit_vector)
            requires
                rest == v >> 32u32,
        ;
        lemma_int_chunks_value(rest, n + 1);
        let tail = int_chunks(rest, (4 - (n + 1)) as nat);
        assert(int_chunks(v, (4 - n) as nat) == seq![lo] + tail);
        assert((seq![lo] + tail).reverse() =~= tail.reverse().push(lo));
        lemma_concat_signed_push(tail.reverse(), lo);
    }
}

/// The unsigned literals `uint_literal` emits, most significant first, concatenate
/// bitwise back to the value, and there are at most four of them.
pub proof fn law_uint_literal_value(v: u128)
    ensures
        concat_unsigned(uint_chunks(v, 4).reverse()) == v,
        1 <= uint_chunks(v, 4).len() <= 4,
{
    lemma_uint_chunks_value(v, 0);
}

/// The signed literals `int_literal` emits, most significant first (that one read
/// as signed, the others as unsigned), concatenate bitwise back to the value, and
/// there are at most four of them.
pub proof fn law_int_literal_value(v: i128)
    ensures
        concat_signed(int_chunks(v, 4).reverse()) == v,
        1 <= int_chunks(v, 4).len() <= 4,
{
    lemma_int_chunks_value(v, 0);
}

/// A signed value needs a single literal exactly when it fits in an `i32`.
pub proof fn law_int_literal_single(v: i128)
    ensures
        (int_chunks(v, 4).len() == 1) == (-0x8000_0000 <= v < 0x8000_0000),
{
    if !(-0x8000_0000 <= v < 0x8000_0000) {
        lemma_int_shift(v, 0);
        lemma_int_chunks_value(v >> 32u32, 1);
    }
}

/// A value needs a single literal exactly when it fits in 32 bits.
pub proof fn law_uint_literal_single(v: u128)
    ensures
        (uint_chunks(v, 4).len() == 1) == (v < 0x1_0000_0000),
{
    lemma_uint_chunks_value(v, 0);
    let rest = v >> 32u32;
    assert((rest == 0) == (v < 0x1_0000_0000)) by (bit_vector)
        requires
            rest == v >> 32u32,
    ;
    if rest != 0 {
        lemma_uint_shift(v, 0);
        lemma_uint_chunks_value(rest, 1);
    }
}

} // verus!
