//! Declarative struct codec over linear memory.
//!
//! A format is a string of field codes, one byte per field:
//!
//! | code | field                | bytes |
//! |------|----------------------|-------|
//! | `b`  | signed 8-bit int     | 1     |
//! | `B`  | unsigned 8-bit int   | 1     |
//! | `h`  | signed 16-bit int    | 2     |
//! | `H`  | unsigned 16-bit int  | 2     |
//! | `i`  | signed 32-bit int    | 4     |
//! | `I`  | unsigned 32-bit int  | 4     |
//! | `l`  | signed 64-bit int    | 8     |
//! | `L`  | unsigned 64-bit int  | 8     |
//! | `f`  | 32-bit float         | 4     |
//! | `d`  | 64-bit float         | 8     |
//!
//! Fields are packed back to back, little-endian, from the given offset.
use vstd::arithmetic::div_mod::{lemma_mod_breakdown, lemma_small_mod};
use vstd::prelude::*;

use crate::memory::{
    fits, lemma_le_bytes_len, lemma_le_value_bound, lemma_pow256_8, le_bytes, le_value, overwrite, pow256,
    push_le, read_le, write_memory,
};

verus! {

#[derive(PartialEq, Eq, Structural, Clone, Copy, Debug)]
pub enum FieldCode {
    I8,
    U8,
    I16,
    U16,
    I32,
    U32,
    I64,
    U64,
    F32,
    F64,
}

/// A host value as the codec sees it: an integer, or the bits of a float.
#[derive(PartialEq, Eq, Structural, Clone, Copy, Debug)]
pub enum StructValue {
    Int(i64),
    F32(u32),
    F64(u64),
}

#[derive(PartialEq, Eq, Structural, Clone, Copy, Debug)]
pub enum StructError {
    /// The byte at this position of the format is no field code.
    UnknownCode { at: usize, code: u8 },
    /// The format has `expected` fields but `got` values were given.
    ValueCount { expected: usize, got: usize },
    /// The value for this field is of the wrong kind.
    TypeMismatch { field: usize },
    /// The struct does not fit in memory at the given offset.
    OutOfBounds { start: usize, len: usize },
}

pub open spec fn code_of(b: u8) -> Option<FieldCode> {
    if b == 98 {
        Some(FieldCode::I8)
    } else if b == 66 {
        Some(FieldCode::U8)
    } else if b == 104 {
        Some(FieldCode::I16)
    } else if b == 72 {
        Some(FieldCode::U16)
    } else if b == 105 {
        Some(FieldCode::I32)
    } else if b == 73 {
        Some(FieldCode::U32)
    } else if b == 108 {
        Some(FieldCode::I64)
    } else if b == 76 {
        Some(FieldCode::U64)
    } else if b == 102 {
        Some(FieldCode::F32)
    } else if b == 100 {
        Some(FieldCode::F64)
    } else {
        None
    }
}

pub open spec fn width(c: FieldCode) -> nat {
    match c {
        FieldCode::I8 | FieldCode::U8 => 1,
        FieldCode::I16 | FieldCode::U16 => 2,
        FieldCode::I32 | FieldCode::U32 | FieldCode::F32 => 4,
        FieldCode::I64 | FieldCode::U64 | FieldCode::F64 => 8,
    }
}

/// The fields of a format, if every byte of it is a field code.
pub open spec fn parsed(f: Seq<u8>, codes: Seq<FieldCode>) -> bool {
    codes.len() == f.len() && forall|j: int| 0 <= j < f.len() ==> code_of(#[trigger] f[j]) == Some(codes[j])
}

/// `at` is the first byte of `f` that is no field code.
pub open spec fn first_unknown(f: Seq<u8>, at: int) -> bool {
    &&& 0 <= at < f.len()
    &&& code_of(f[at]).is_none()
    &&& forall|j: int| 0 <= j < at ==> code_of(#[trigger] f[j]).is_some()
}

/// Total size of the fields.
pub open spec fn layout_len(codes: Seq<FieldCode>) -> nat
    decreases codes.len(),
{
    if codes.len() == 0 {
        0
    } else {
        layout_len(codes.drop_last()) + width(codes.last())
    }
}

/// Offset of field `j` from the start of the struct.
pub open spec fn offset(codes: Seq<FieldCode>, j: int) -> nat {
    layout_len(codes.take(j))
}

/// The value that the `width(c)` bytes `s` hold as a field `c`.
pub open spec fn field_value(c: FieldCode, s: Seq<u8>) -> StructValue {
    let x = le_value(s);
    match c {
        FieldCode::I8 => StructValue::Int(x as u8 as i8 as i64),
        FieldCode::U8 => StructValue::Int(x as u8 as i64),
        FieldCode::I16 => StructValue::Int(x as u16 as i16 as i64),
        FieldCode::U16 => StructValue::Int(x as u16 as i64),
        FieldCode::I32 => StructValue::Int(x as u32 as i32 as i64),
        FieldCode::U32 => StructValue::Int(x as u32 as i64),
        FieldCode::I64 | FieldCode::U64 => StructValue::Int(x as u64 as i64),
        FieldCode::F32 => StructValue::F32(x as u32),
        FieldCode::F64 => StructValue::F64(x as u64),
    }
}

/// `v` is of the kind that field `c` stores.
pub open spec fn kind_ok(c: FieldCode, v: StructValue) -> bool {
    match c {
        FieldCode::F32 => v is F32,
        FieldCode::F64 => v is F64,
        _ => v is Int,
    }
}

/// The bytes that field `c` holding `v` occupies: the low bytes of the
/// integer's two's complement, or the bits of the float.
pub open spec fn field_bytes(c: FieldCode, v: StructValue) -> Seq<u8> {
    match v {
        StructValue::Int(x) => le_bytes(x as u64 as nat, width(c)),
        StructValue::F32(b) => le_bytes(b as nat, width(c)),
        StructValue::F64(b) => le_bytes(b as nat, width(c)),
    }
}

/// The bytes of a whole struct.
pub open spec fn struct_bytes(codes: Seq<FieldCode>, vals: Seq<StructValue>) -> Seq<u8>
    decreases codes.len(),
{
    if codes.len() == 0 || vals.len() == 0 {
        Seq::empty()
    } else {
        struct_bytes(codes.drop_last(), vals.drop_last()) + field_bytes(codes.last(), vals.last())
    }
}

/// `vals` are the fields of the struct laid out at `p`.
pub open spec fn reads_as(data: Seq<u8>, p: int, codes: Seq<FieldCode>, vals: Seq<StructValue>) -> bool {
    &&& vals.len() == codes.len()
    &&& forall|j: int|
        0 <= j < codes.len() ==> #[trigger] vals[j] == field_value(
            codes[j],
            data.subrange(p + offset(codes, j), p + offset(codes, j) + width(codes[j])),
        )
}

/// Format `f` describes a struct that fits at `p` and holds `vals`.
pub open spec fn struct_at(data: Seq<u8>, p: int, f: Seq<u8>, vals: Seq<StructValue>) -> bool {
    exists|codes: Seq<FieldCode>|
        #[trigger] parsed(f, codes) && p + layout_len(codes) <= data.len() && reads_as(data, p, codes, vals)
}

// ---------------------------------------------------------------- lemmas

proof fn lemma_offset_step(codes: Seq<FieldCode>, j: int)
    requires
        0 <= j < codes.len(),
    ensures
        offset(codes, j + 1) == offset(codes, j) + width(codes[j]),
{
    assert(codes.take(j + 1).drop_last() =~= codes.take(j));
}

proof fn lemma_offset_all(codes: Seq<FieldCode>)
    ensures
        offset(codes, codes.len() as int) == layout_len(codes),
{
    assert(codes.take(codes.len() as int) =~= codes);
}

proof fn lemma_offset_mono(codes: Seq<FieldCode>, j: int)
    requires
        0 <= j <= codes.len(),
    ensures
        offset(codes, j) <= layout_len(codes),
    decreases codes.len() - j,
{
    if j < codes.len() {
        lemma_offset_step(codes, j);
        lemma_offset_mono(codes, j + 1);
    } else {
        lemma_offset_all(codes);
    }
}

proof fn lemma_struct_bytes_step(codes: Seq<FieldCode>, vals: Seq<StructValue>, j: int)
    requires
        0 <= j < codes.len(),
        codes.len() == vals.len(),
    ensures
        struct_bytes(codes.take(j + 1), vals.take(j + 1)) == struct_bytes(codes.take(j), vals.take(j))
            + field_bytes(codes[j], vals[j]),
{
    assert(codes.take(j + 1).drop_last() =~= codes.take(j));
    assert(vals.take(j + 1).drop_last() =~= vals.take(j));
}

proof fn lemma_field_bytes_len(c: FieldCode, v: StructValue)
    ensures
        field_bytes(c, v).len() == width(c),
{
    match v {
        StructValue::Int(x) => lemma_le_bytes_len(x as u64 as nat, width(c)),
        StructValue::F32(b) => lemma_le_bytes_len(b as nat, width(c)),
        StructValue::F64(b) => lemma_le_bytes_len(b as nat, width(c)),
    }
}

proof fn lemma_struct_bytes_len(codes: Seq<FieldCode>, vals: Seq<StructValue>)
    requires
        codes.len() == vals.len(),
    ensures
        struct_bytes(codes, vals).len() == layout_len(codes),
    decreases codes.len(),
{
    if codes.len() > 0 {
        lemma_struct_bytes_len(codes.drop_last(), vals.drop_last());
        lemma_field_bytes_len(codes.last(), vals.last());
    }
}

/// Field `j` of the struct bytes is the bytes of that field.
proof fn lemma_struct_bytes_field(codes: Seq<FieldCode>, vals: Seq<StructValue>, j: int)
    requires
        codes.len() == vals.len(),
        0 <= j < codes.len(),
    ensures
        struct_bytes(codes, vals).subrange(offset(codes, j) as int, (offset(codes, j) + width(codes[j])) as int)
            == field_bytes(codes[j], vals[j]),
    decreases codes.len(),
{
    let n = codes.len() - 1;
    let a = struct_bytes(codes.drop_last(), vals.drop_last());
    lemma_struct_bytes_len(codes.drop_last(), vals.drop_last());
    lemma_field_bytes_len(codes.last(), vals.last());
    if j == n {
        assert(codes.take(j) =~= codes.drop_last());
        assert(struct_bytes(codes, vals).subrange(a.len() as int, (a.len() + width(codes[j])) as int) =~= field_bytes(
            codes[j],
            vals[j],
        ));
    } else {
        lemma_struct_bytes_field(codes.drop_last(), vals.drop_last(), j);
        assert(codes.drop_last().take(j) =~= codes.take(j));
        lemma_offset_step(codes.drop_last(), j);
        lemma_offset_mono(codes.drop_last(), j + 1);
        assert(struct_bytes(codes, vals).subrange(offset(codes, j) as int, (offset(codes, j) + width(codes[j])) as int)
            =~= a.subrange(offset(codes, j) as int, (offset(codes, j) + width(codes[j])) as int));
    }
}

// ---------------------------------------------------------------- exec

fn code_from_byte(b: u8) -> (r: Option<FieldCode>)
    ensures
        r == code_of(b),
{
    if b == 98 {
        Some(FieldCode::I8)
    } else if b == 66 {
        Some(FieldCode::U8)
    } else if b == 104 {
        Some(FieldCode::I16)
    } else if b == 72 {
        Some(FieldCode::U16)
    } else if b == 105 {
        Some(FieldCode::I32)
    } else if b == 73 {
        Some(FieldCode::U32)
    } else if b == 108 {
        Some(FieldCode::I64)
    } else if b == 76 {
        Some(FieldCode::U64)
    } else if b == 102 {
        Some(FieldCode::F32)
    } else if b == 100 {
        Some(FieldCode::F64)
    } else {
        None
    }
}

impl FieldCode {
    /// Size in bytes of the field.
    pub fn width(&self) -> (r: usize)
        ensures
            r as nat == width(*self),
    {
        match self {
            FieldCode::I8 | FieldCode::U8 => 1,
            FieldCode::I16 | FieldCode::U16 => 2,
            FieldCode::I32 | FieldCode::U32 | FieldCode::F32 => 4,
            FieldCode::I64 | FieldCode::U64 | FieldCode::F64 => 8,
        }
    }
}

/// The field codes of a format.
pub fn parse_format(f: &[u8]) -> (r: Result<Vec<FieldCode>, StructError>)
    ensures
        match r {
            Ok(codes) => parsed(f@, codes@),
            Err(e) => e matches StructError::UnknownCode { at, code } && first_unknown(f@, at as int)
                && code == f@[at as int],
        },
{
    let mut codes: Vec<FieldCode> = Vec::new();
    let mut j: usize = 0;
    while j < f.len()
        invariant
            j <= f@.len(),
            codes@.len() == j,
            forall|q: int| 0 <= q < j ==> code_of(#[trigger] f@[q]) == Some(codes@[q]),
        decreases f@.len() - j,
    {
        match code_from_byte(f[j]) {
            Some(c) => codes.push(c),
            None => {
                return Err(StructError::UnknownCode { at: j, code: f[j] });
            },
        }
        j += 1;
    }
    Ok(codes)
}

/// Total size of the fields, or `None` when it does not fit in a `usize`.
fn layout_size(codes: &Vec<FieldCode>) -> (r: Option<usize>)
    ensures
        match r {
            Some(n) => n as nat == layout_len(codes@),
            None => layout_len(codes@) > usize::MAX,
        },
{
    let mut total: usize = 0;
    let mut j: usize = 0;
    assert(codes@.take(0) =~= Seq::<FieldCode>::empty());
    while j < codes.len()
        invariant
            j <= codes@.len(),
            total as nat == offset(codes@, j as int),
        decreases codes@.len() - j,
    {
        proof {
            lemma_offset_step(codes@, j as int);
        }
        let w = codes[j].width();
        if total > usize::MAX - w {
            proof {
                lemma_offset_mono(codes@, j + 1);
            }
            return None;
        }
        total = total + w;
        j += 1;
    }
    proof {
        lemma_offset_all(codes@);
    }
    Some(total)
}

fn decode_field(c: FieldCode, x: u64) -> (r: StructValue)
    requires
        (x as nat) < crate::memory::pow256(width(c)),
    ensures
        r == field_value_of(c, x as nat),
{
    match c {
        FieldCode::I8 => StructValue::Int(x as u8 as i8 as i64),
        FieldCode::U8 => StructValue::Int(x as u8 as i64),
        FieldCode::I16 => StructValue::Int(x as u16 as i16 as i64),
        FieldCode::U16 => StructValue::Int(x as u16 as i64),
        FieldCode::I32 => StructValue::Int(x as u32 as i32 as i64),
        FieldCode::U32 => StructValue::Int(x as u32 as i64),
        FieldCode::I64 | FieldCode::U64 => StructValue::Int(x as i64),
        FieldCode::F32 => StructValue::F32(x as u32),
        FieldCode::F64 => StructValue::F64(x),
    }
}

/// `field_value` on the number that the bytes hold.
pub open spec fn field_value_of(c: FieldCode, x: nat) -> StructValue {
    match c {
        FieldCode::I8 => StructValue::Int(x as u8 as i8 as i64),
        FieldCode::U8 => StructValue::Int(x as u8 as i64),
        FieldCode::I16 => StructValue::Int(x as u16 as i16 as i64),
        FieldCode::U16 => StructValue::Int(x as u16 as i64),
        FieldCode::I32 => StructValue::Int(x as u32 as i32 as i64),
        FieldCode::U32 => StructValue::Int(x as u32 as i64),
        FieldCode::I64 | FieldCode::U64 => StructValue::Int(x as u64 as i64),
        FieldCode::F32 => StructValue::F32(x as u32),
        FieldCode::F64 => StructValue::F64(x as u64),
    }
}

/// Reads the struct that format `f` describes at offset `p`.
pub fn read_struct(data: &[u8], p: usize, f: &[u8]) -> (r: Result<Vec<StructValue>, StructError>)
    ensures
        match r {
            Ok(vals) => struct_at(data@, p as int, f@, vals@),
            Err(StructError::UnknownCode { at, code }) => first_unknown(f@, at as int) && code == f@[at as int],
            Err(StructError::OutOfBounds { start, len }) => start == p && exists|codes: Seq<FieldCode>|
                #[trigger] parsed(f@, codes) && !fits(data@.len(), p as nat, layout_len(codes)) && (
                layout_len(codes) <= usize::MAX ==> len as nat == layout_len(codes)),
            Err(_) => false,
        },
{
    let codes = match parse_format(f) {
        Ok(c) => c,
        Err(e) => {
            return Err(e);
        },
    };
    let dl = data.len();
    let total = match layout_size(&codes) {
        Some(t) => t,
        None => {
            assert(parsed(f@, codes@));
            assert(dl == data@.len());
            assert(!fits(data@.len(), p as nat, layout_len(codes@)));
            return Err(StructError::OutOfBounds { start: p, len: usize::MAX });
        },
    };
    if total > dl || p > dl - total {
        assert(parsed(f@, codes@));
        return Err(StructError::OutOfBounds { start: p, len: total });
    }
    let mut vals: Vec<StructValue> = Vec::new();
    let mut pos: usize = p;
    let mut j: usize = 0;
    assert(codes@.take(0) =~= Seq::<FieldCode>::empty());
    while j < codes.len()
        invariant
            dl == data@.len(),
            p + layout_len(codes@) <= dl,
            j <= codes@.len(),
            vals@.len() == j,
            pos == p + offset(codes@, j as int),
            forall|q: int|
                0 <= q < j ==> #[trigger] vals@[q] == field_value(
                    codes@[q],
                    data@.subrange(p + offset(codes@, q), p + offset(codes@, q) + width(codes@[q])),
                ),
        decreases codes@.len() - j,
    {
        proof {
            lemma_offset_step(codes@, j as int);
            lemma_offset_mono(codes@, j + 1);
        }
        let c = codes[j];
        let w = c.width();
        let x = read_le(data, pos, w);
        proof {
            lemma_le_value_bound(data@.subrange(pos as int, pos + w));
        }
        vals.push(decode_field(c, x));
        pos = pos + w;
        j += 1;
    }
    assert(reads_as(data@, p as int, codes@, vals@));
    assert(parsed(f@, codes@));
    assert(struct_at(data@, p as int, f@, vals@));
    Ok(vals)
}

fn kind_matches(c: FieldCode, v: StructValue) -> (r: bool)
    ensures
        r == kind_ok(c, v),
{
    match (c, v) {
        (FieldCode::F32, StructValue::F32(_)) => true,
        (FieldCode::F32, _) => false,
        (FieldCode::F64, StructValue::F64(_)) => true,
        (FieldCode::F64, _) => false,
        (_, StructValue::Int(_)) => true,
        _ => false,
    }
}

/// The error, if any, that writing `vals` as the fields `codes` meets before
/// memory is touched: a wrong number of values, then the first value of the
/// wrong kind.
pub open spec fn value_error(codes: Seq<FieldCode>, vals: Seq<StructValue>) -> Option<StructError> {
    if codes.len() != vals.len() {
        Some(StructError::ValueCount { expected: codes.len() as usize, got: vals.len() as usize })
    } else if exists|j: int| 0 <= j < codes.len() && !kind_ok(codes[j], #[trigger] vals[j]) {
        let j = choose|j: int| 0 <= j < codes.len() && !kind_ok(codes[j], #[trigger] vals[j]) && forall|q: int|
            0 <= q < j ==> kind_ok(codes[q], #[trigger] vals[q]);
        Some(StructError::TypeMismatch { field: j as usize })
    } else {
        None
    }
}

/// Writes `vals` as the struct that format `f` describes at offset `p`, and
/// returns the number of bytes written.
pub fn write_struct(data: &mut [u8], p: usize, f: &[u8], vals: &Vec<StructValue>) -> (r: Result<usize, StructError>)
    ensures
        match r {
            Ok(n) => exists|codes: Seq<FieldCode>|
                #[trigger] parsed(f@, codes) && value_error(codes, vals@).is_none() && fits(
                    old(data)@.len(),
                    p as nat,
                    layout_len(codes),
                ) && n as nat == layout_len(codes) && final(data)@ == overwrite(
                    old(data)@,
                    p as int,
                    struct_bytes(codes, vals@),
                ),
            Err(StructError::UnknownCode { at, code }) => first_unknown(f@, at as int) && code == f@[at as int]
                && final(data)@ == old(data)@,
            Err(StructError::OutOfBounds { start, len }) => start == p && final(data)@ == old(data)@
                && exists|codes: Seq<FieldCode>|
                #[trigger] parsed(f@, codes) && value_error(codes, vals@).is_none() && !fits(
                    old(data)@.len(),
                    p as nat,
                    layout_len(codes),
                ) && len as nat == layout_len(codes),
            Err(e) => final(data)@ == old(data)@ && exists|codes: Seq<FieldCode>|
                #[trigger] parsed(f@, codes) && value_error(codes, vals@) == Some(e),
        },
{
    let codes = match parse_format(f) {
        Ok(c) => c,
        Err(e) => {
            return Err(e);
        },
    };
    if codes.len() != vals.len() {
        assert(parsed(f@, codes@));
        return Err(StructError::ValueCount { expected: codes.len(), got: vals.len() });
    }
    let mut j: usize = 0;
    while j < codes.len()
        invariant
            parsed(f@, codes@),
            codes@.len() == vals@.len(),
            j <= codes@.len(),
            forall|q: int| 0 <= q < j ==> kind_ok(codes@[q], #[trigger] vals@[q]),
        decreases codes@.len() - j,
    {
        if !kind_matches(codes[j], vals[j]) {
            proof {
                let jj = choose|jj: int| 0 <= jj < codes@.len() && !kind_ok(codes@[jj], #[trigger] vals@[jj])
                    && forall|q: int| 0 <= q < jj ==> kind_ok(codes@[q], #[trigger] vals@[q]);
                if jj < j {
                } else if jj > j {
                    assert(kind_ok(codes@[j as int], vals@[j as int]));
                }
                assert(jj == j);
                assert(parsed(f@, codes@));
            }
            return Err(StructError::TypeMismatch { field: j });
        }
        j += 1;
    }
    assert(value_error(codes@, vals@).is_none());
    let mut out: Vec<u8> = Vec::new();
    let mut k: usize = 0;
    assert(codes@.take(0) =~= Seq::<FieldCode>::empty());
    while k < codes.len()
        invariant
            codes@.len() == vals@.len(),
            k <= codes@.len(),
            out@ == struct_bytes(codes@.take(k as int), vals@.take(k as int)),
        decreases codes@.len() - k,
    {
        proof {
            lemma_struct_bytes_step(codes@, vals@, k as int);
        }
        let w = codes[k].width();
        match vals[k] {
            StructValue::Int(x) => push_le(&mut out, x as u64, w),
            StructValue::F32(b) => push_le(&mut out, b as u64, w),
            StructValue::F64(b) => push_le(&mut out, b, w),
        }
        k += 1;
    }
    proof {
        assert(codes@.take(codes@.len() as int) =~= codes@);
        assert(vals@.take(vals@.len() as int) =~= vals@);
        lemma_struct_bytes_len(codes@, vals@);
        assert(parsed(f@, codes@));
    }
    let n = out.len();
    match write_memory(data, p, out.as_slice()) {
        Ok(()) => Ok(n),
        Err(_) => Err(StructError::OutOfBounds { start: p, len: n }),
    }
}

// ---------------------------------------------------------------- round trip

/// `v` is of the kind that field `c` stores and, for an integer, within the
/// field's range.
pub open spec fn value_fits(c: FieldCode, v: StructValue) -> bool {
    match (c, v) {
        (FieldCode::I8, StructValue::Int(x)) => -0x80 <= x < 0x80,
        (FieldCode::U8, StructValue::Int(x)) => 0 <= x < 0x100,
        (FieldCode::I16, StructValue::Int(x)) => -0x8000 <= x < 0x8000,
        (FieldCode::U16, StructValue::Int(x)) => 0 <= x < 0x1_0000,
        (FieldCode::I32, StructValue::Int(x)) => -0x8000_0000 <= x < 0x8000_0000,
        (FieldCode::U32, StructValue::Int(x)) => 0 <= x < 0x1_0000_0000,
        (FieldCode::I64, StructValue::Int(_)) => true,
        (FieldCode::U64, StructValue::Int(_)) => true,
        (FieldCode::F32, StructValue::F32(_)) => true,
        (FieldCode::F64, StructValue::F64(_)) => true,
        _ => false,
    }
}

proof fn lemma_le_mod(v: nat, w: nat)
    ensures
        le_value(le_bytes(v, w)) == v % pow256(w),
    decreases w,
{
    if w == 0 {
        assert(le_bytes(v, w) =~= Seq::<u8>::empty());
    } else {
        lemma_le_mod(v / 256, (w - 1) as nat);
        let s = le_bytes(v, w);
        assert(s.drop_first() =~= le_bytes(v / 256, (w - 1) as nat));
        lemma_pow256_pos((w - 1) as nat);
        lemma_mod_breakdown(v as int, 256, pow256((w - 1) as nat) as int);
    }
}

proof fn lemma_pow256_pos(n: nat)
    ensures
        pow256(n) > 0,
    decreases n,
{
    if n > 0 {
        lemma_pow256_pos((n - 1) as nat);
    }
}

/// A value that fits its field reads back as itself.
proof fn lemma_field_round_trip(c: FieldCode, v: StructValue)
    requires
        value_fits(c, v),
    ensures
        field_value(c, field_bytes(c, v)) == v,
{
    lemma_pow256_8();
    match v {
        StructValue::Int(x) => {
            let y = x as u64;
            lemma_le_mod(y as nat, width(c));
            match c {
                FieldCode::I8 => {
                    assert((y % 0x100) as u8 as i8 as i64 == x) by (bit_vector)
                        requires
                            y == x as u64,
                            -0x80 <= x < 0x80,
                    ;
                },
                FieldCode::U8 => {
                    assert((y % 0x100) as u8 as i64 == x) by (bit_vector)
                        requires
                            y == x as u64,
                            0 <= x < 0x100,
                    ;
                },
                FieldCode::I16 => {
                    assert((y % 0x1_0000) as u16 as i16 as i64 == x) by (bit_vector)
                        requires
                            y == x as u64,
                            -0x8000 <= x < 0x8000,
                    ;
                },
                FieldCode::U16 => {
                    assert((y % 0x1_0000) as u16 as i64 == x) by (bit_vector)
                        requires
                            y == x as u64,
                            0 <= x < 0x1_0000,
                    ;
                },
                FieldCode::I32 => {
                    assert((y % 0x1_0000_0000) as u32 as i32 as i64 == x) by (bit_vector)
                        requires
                            y == x as u64,
                            -0x8000_0000 <= x < 0x8000_0000,
                    ;
                },
                FieldCode::U32 => {
                    assert((y % 0x1_0000_0000) as u32 as i64 == x) by (bit_vector)
                        requires
                            y == x as u64,
                            0 <= x < 0x1_0000_0000,
                    ;
                },
                _ => {
                    lemma_small_mod(y as nat, pow256(8));
                    assert(y as i64 == x) by (bit_vector)
                        requires
                            y == x as u64,
                    ;
                },
            }
        },
        StructValue::F32(b) => {
            lemma_le_mod(b as nat, 4);
            lemma_small_mod(b as nat, pow256(4));
        },
        StructValue::F64(b) => {
            lemma_le_mod(b as nat, 8);
            lemma_small_mod(b as nat, pow256(8));
        },
    }
}

proof fn lemma_parsed_unique(f: Seq<u8>, c1: Seq<FieldCode>, c2: Seq<FieldCode>)
    requires
        parsed(f, c1),
        parsed(f, c2),
    ensures
        c1 == c2,
{
    assert forall|j: int| 0 <= j < c1.len() implies c1[j] == c2[j] by {
        assert(code_of(f[j]) == Some(c1[j]));
    }
    assert(c1 =~= c2);
}

/// Writing values that fit their fields and then reading the same format at
/// the same offset gives exactly those values back.
pub proof fn law_struct_round_trip(
    data: Seq<u8>,
    p: int,
    f: Seq<u8>,
    codes: Seq<FieldCode>,
    vals: Seq<StructValue>,
)
    requires
        parsed(f, codes),
        vals.len() == codes.len(),
        forall|j: int| 0 <= j < codes.len() ==> value_fits(codes[j], #[trigger] vals[j]),
        0 <= p,
        p + layout_len(codes) <= data.len(),
    ensures
        struct_at(overwrite(data, p, struct_bytes(codes, vals)), p, f, vals),
        forall|other: Seq<StructValue>|
            #[trigger] struct_at(overwrite(data, p, struct_bytes(codes, vals)), p, f, other) ==> other
                == vals,
{
    let bytes = struct_bytes(codes, vals);
    let d2 = overwrite(data, p, bytes);
    lemma_struct_bytes_len(codes, vals);
    assert forall|j: int| 0 <= j < codes.len() implies #[trigger] vals[j] == field_value(
        codes[j],
        d2.subrange(p + offset(codes, j), p + offset(codes, j) + width(codes[j])),
    ) by {
        lemma_offset_step(codes, j);
        lemma_offset_mono(codes, j + 1);
        lemma_struct_bytes_field(codes, vals, j);
        let o = offset(codes, j) as int;
        let w = width(codes[j]) as int;
        assert(d2.subrange(p + o, p + o + w) =~= bytes.subrange(o, o + w));
        lemma_field_round_trip(codes[j], vals[j]);
    }
    assert(reads_as(d2, p, codes, vals));
    assert(struct_at(d2, p, f, vals));
    assert forall|other: Seq<StructValue>| #[trigger] struct_at(d2, p, f, other) implies other == vals by {
        let c2 = choose|c2: Seq<FieldCode>|
            #[trigger] parsed(f, c2) && p + layout_len(c2) <= d2.len() && reads_as(d2, p, c2, other);
        lemma_parsed_unique(f, codes, c2);
        assert forall|j: int| 0 <= j < other.len() implies other[j] == vals[j] by {
            assert(reads_as(d2, p, codes, other));
        }
        assert(other =~= vals);
    }
}

} // verus!
