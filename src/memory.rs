//! Bounds-checked access to a guest's linear memory.
//!
//! Every access names an absolute byte offset and a length, and fails with an
//! explicit bounds error when the range does not lie within the memory.
//! Multi-byte values are little-endian in memory.  Floating-point values are
//! carried as their IEEE-754 bit patterns.
use vstd::prelude::*;

use rayon::iter::{IndexedParallelIterator, IntoParallelRefIterator, ParallelIterator};
use rayon::slice::{ParallelSlice, ParallelSliceMut};

use crate::values::{Color, Vector2, Vector3};

verus! {

#[derive(PartialEq, Eq, Structural, Clone, Copy, Debug)]
pub enum MemoryError {
    /// The range of `len` bytes at `start` is not inside the memory.
    OutOfBounds { start: usize, len: usize },
    /// A type id of the host's value types that has no array layout.
    UnsupportedType(i64),
    /// A number that is no type id at all.
    UnknownType(i64),
}

// ---------------------------------------------------------------- little-endian

/// `256` to the power `n`.
pub open spec fn pow256(n: nat) -> nat
    decreases n,
{
    if n == 0 {
        1
    } else {
        256 * pow256((n - 1) as nat)
    }
}

/// The number that the bytes `s` encode, least significant byte first.
pub open spec fn le_value(s: Seq<u8>) -> nat
    decreases s.len(),
{
    if s.len() == 0 {
        0
    } else {
        s[0] as nat + 256 * le_value(s.drop_first())
    }
}

/// The `w` least significant bytes of `v`, least significant first.
pub open spec fn le_bytes(v: nat, w: nat) -> Seq<u8>
    decreases w,
{
    if w == 0 {
        Seq::empty()
    } else {
        seq![(v % 256) as u8] + le_bytes(v / 256, (w - 1) as nat)
    }
}

pub proof fn lemma_le_bytes_len(v: nat, w: nat)
    ensures
        le_bytes(v, w).len() == w,
    decreases w,
{
    if w > 0 {
        lemma_le_bytes_len(v / 256, (w - 1) as nat);
    }
}

pub proof fn lemma_le_value_bound(s: Seq<u8>)
    ensures
        le_value(s) < pow256(s.len()),
    decreases s.len(),
{
    if s.len() > 0 {
        lemma_le_value_bound(s.drop_first());
    }
}

/// Encoding a value that fits and decoding it again gives the value back.
pub proof fn lemma_le_round_trip(v: nat, w: nat)
    requires
        v < pow256(w),
    ensures
        le_value(le_bytes(v, w)) == v,
    decreases w,
{
    if w > 0 {
        lemma_le_round_trip(v / 256, (w - 1) as nat);
        let s = le_bytes(v, w);
        assert(s.drop_first() =~= le_bytes(v / 256, (w - 1) as nat));
    }
}

pub proof fn lemma_pow256_8()
    ensures
        pow256(1) == 0x100,
        pow256(2) == 0x1_0000,
        pow256(4) == 0x1_0000_0000,
        pow256(8) == 0x1_0000_0000_0000_0000,
{
    reveal_with_fuel(pow256, 9);
}

proof fn lemma_pow256_mono(a: nat, b: nat)
    requires
        a <= b,
    ensures
        pow256(a) <= pow256(b),
    decreases b,
{
    if a < b {
        lemma_pow256_mono(a, (b - 1) as nat);
    }
}

proof fn lemma_le_value_split(s: Seq<u8>, i: int, e: int)
    requires
        0 <= i < e <= s.len(),
    ensures
        le_value(s.subrange(i, e)) == s[i] as nat + 256 * le_value(s.subrange(i + 1, e)),
{
    assert(s.subrange(i, e).drop_first() =~= s.subrange(i + 1, e));
}

/// Reads the `w`-byte little-endian number at `pos`.
pub fn read_le(data: &[u8], pos: usize, w: usize) -> (r: u64)
    requires
        w <= 8,
        pos + w <= data@.len(),
    ensures
        r as nat == le_value(data@.subrange(pos as int, pos + w)),
{
    let dl = data.len();
    let mut acc: u64 = 0;
    let mut j: usize = w;
    proof {
        assert(data@.subrange(pos + w, pos + w).len() == 0);
    }
    while j > 0
        invariant
            w <= 8,
            dl == data@.len(),
            pos + w <= data@.len(),
            j <= w,
            acc as nat == le_value(data@.subrange(pos + j, pos + w)),
            acc < pow256((w - j) as nat),
        decreases j,
    {
        proof {
            lemma_le_value_split(data@, pos + j - 1, pos + w);
            lemma_pow256_8();
            lemma_pow256_mono((w - j + 1) as nat, 8);
            assert(pow256((w - j + 1) as nat) == 256 * pow256((w - j) as nat));
        }
        acc = acc * 256 + data[pos + j - 1] as u64;
        j -= 1;
    }
    acc
}

/// Appends the `w` least significant bytes of `v`, least significant first.
pub fn push_le(out: &mut Vec<u8>, v: u64, w: usize)
    ensures
        final(out)@ == old(out)@ + le_bytes(v as nat, w as nat),
{
    let mut x: u64 = v;
    let mut j: usize = 0;
    while j < w
        invariant
            j <= w,
            out@ + le_bytes(x as nat, (w - j) as nat) == old(out)@ + le_bytes(v as nat, w as nat),
        decreases w - j,
    {
        let ghost before = out@;
        let ghost rest = le_bytes((x / 256) as nat, (w - j - 1) as nat);
        out.push((x % 256) as u8);
        proof {
            assert(le_bytes(x as nat, (w - j) as nat) == seq![(x % 256) as u8] + rest);
            assert(before + (seq![(x % 256) as u8] + rest) =~= out@ + rest);
        }
        x = x / 256;
        j += 1;
    }
    assert(out@ + le_bytes(x as nat, 0) =~= out@);
}

// ---------------------------------------------------------------- raw ranges

/// `data` with the bytes from `at` on replaced by `src`.
pub open spec fn overwrite(data: Seq<u8>, at: int, src: Seq<u8>) -> Seq<u8> {
    Seq::new(data.len(), |p: int| if at <= p < at + src.len() { src[p - at] } else { data[p] })
}

pub open spec fn fits(len: nat, start: nat, n: nat) -> bool {
    start + n <= len
}

/// Copies the `n` bytes at `i` out of memory.
pub fn read_memory(data: &[u8], i: usize, n: usize) -> (r: Result<Vec<u8>, MemoryError>)
    ensures
        match r {
            Ok(v) => fits(data@.len(), i as nat, n as nat) && v@ == data@.subrange(i as int, i + n),
            Err(e) => !fits(data@.len(), i as nat, n as nat) && e == MemoryError::OutOfBounds {
                start: i,
                len: n,
            },
        },
{
    if n > data.len() || i > data.len() - n {
        return Err(MemoryError::OutOfBounds { start: i, len: n });
    }
    let dl = data.len();
    let mut v: Vec<u8> = Vec::new();
    let mut j: usize = 0;
    while j < n
        invariant
            dl == data@.len(),
            i + n <= data@.len(),
            j <= n,
            v@ == data@.subrange(i as int, i + j),
        decreases n - j,
    {
        v.push(data[i + j]);
        j += 1;
        assert(v@ =~= data@.subrange(i as int, i + j));
    }
    Ok(v)
}

/// Copies `src` into memory at `i`.
pub fn write_memory(data: &mut [u8], i: usize, src: &[u8]) -> (r: Result<(), MemoryError>)
    ensures
        match r {
            Ok(()) => fits(old(data)@.len(), i as nat, src@.len()) && final(data)@ == overwrite(
                old(data)@,
                i as int,
                src@,
            ),
            Err(e) => !fits(old(data)@.len(), i as nat, src@.len()) && final(data)@ == old(data)@
                && e == MemoryError::OutOfBounds { start: i, len: src@.len() as usize },
        },
{
    let n = src.len();
    if n > data.len() || i > data.len() - n {
        return Err(MemoryError::OutOfBounds { start: i, len: n });
    }
    let dl = data.len();
    let mut j: usize = 0;
    while j < n
        invariant
            dl == data@.len(),
            n == src@.len(),
            i + n <= data@.len(),
            data@.len() == old(data)@.len(),
            j <= n,
            forall|p: int| 0 <= p < data@.len() && !(i <= p < i + j) ==> data@[p] == old(data)@[p],
            forall|p: int| i <= p < i + j ==> data@[p] == src@[p - i],
        decreases n - j,
    {
        data[i + j] = src[j];
        j += 1;
    }
    assert(data@ =~= overwrite(old(data)@, i as int, src@));
    Ok(())
}

// ---------------------------------------------------------------- scalars

/// The unsigned `w`-byte number at `i`.
pub open spec fn scalar_at(data: Seq<u8>, i: int, w: int) -> nat {
    le_value(data.subrange(i, i + w))
}

fn get_scalar(data: &[u8], i: usize, w: usize) -> (r: Result<u64, MemoryError>)
    requires
        w <= 8,
    ensures
        match r {
            Ok(v) => fits(data@.len(), i as nat, w as nat) && v as nat == scalar_at(data@, i as int, w as int),
            Err(e) => !fits(data@.len(), i as nat, w as nat) && e == MemoryError::OutOfBounds {
                start: i,
                len: w,
            },
        },
{
    if w > data.len() || i > data.len() - w {
        return Err(MemoryError::OutOfBounds { start: i, len: w });
    }
    Ok(read_le(data, i, w))
}

fn put_scalar(data: &mut [u8], i: usize, v: u64, w: usize) -> (r: Result<(), MemoryError>)
    requires
        w <= 8,
    ensures
        match r {
            Ok(()) => fits(old(data)@.len(), i as nat, w as nat) && final(data)@ == overwrite(
                old(data)@,
                i as int,
                le_bytes(v as nat, w as nat),
            ),
            Err(e) => !fits(old(data)@.len(), i as nat, w as nat) && final(data)@ == old(data)@
                && e == MemoryError::OutOfBounds { start: i, len: w },
        },
{
    let mut b: Vec<u8> = Vec::new();
    push_le(&mut b, v, w);
    proof {
        lemma_le_bytes_len(v as nat, w as nat);
        assert(b@ =~= le_bytes(v as nat, w as nat));
    }
    write_memory(data, i, b.as_slice())
}

/// The byte at `i`.
pub fn get_8(data: &[u8], i: usize) -> (r: Result<u8, MemoryError>)
    ensures
        match r {
            Ok(v) => fits(data@.len(), i as nat, 1) && v as nat == scalar_at(data@, i as int, 1),
            Err(e) => !fits(data@.len(), i as nat, 1) && e == MemoryError::OutOfBounds { start: i, len: 1 },
        },
{
    match get_scalar(data, i, 1) {
        Ok(v) => {
            proof {
                lemma_le_value_bound(data@.subrange(i as int, i + 1));
                lemma_pow256_8();
            }
            Ok(v as u8)
        },
        Err(e) => Err(e),
    }
}

/// The little-endian 16-bit number at `i`.
pub fn get_16(data: &[u8], i: usize) -> (r: Result<u16, MemoryError>)
    ensures
        match r {
            Ok(v) => fits(data@.len(), i as nat, 2) && v as nat == scalar_at(data@, i as int, 2),
            Err(e) => !fits(data@.len(), i as nat, 2) && e == MemoryError::OutOfBounds { start: i, len: 2 },
        },
{
    match get_scalar(data, i, 2) {
        Ok(v) => {
            proof {
                lemma_le_value_bound(data@.subrange(i as int, i + 2));
                lemma_pow256_8();
            }
            Ok(v as u16)
        },
        Err(e) => Err(e),
    }
}

/// The little-endian 32-bit number at `i`.
pub fn get_32(data: &[u8], i: usize) -> (r: Result<u32, MemoryError>)
    ensures
        match r {
            Ok(v) => fits(data@.len(), i as nat, 4) && v as nat == scalar_at(data@, i as int, 4),
            Err(e) => !fits(data@.len(), i as nat, 4) && e == MemoryError::OutOfBounds { start: i, len: 4 },
        },
{
    match get_scalar(data, i, 4) {
        Ok(v) => {
            proof {
                lemma_le_value_bound(data@.subrange(i as int, i + 4));
                lemma_pow256_8();
            }
            Ok(v as u32)
        },
        Err(e) => Err(e),
    }
}

/// The little-endian 64-bit number at `i`, read as two's complement.
pub fn get_64(data: &[u8], i: usize) -> (r: Result<i64, MemoryError>)
    ensures
        match r {
            Ok(v) => fits(data@.len(), i as nat, 8) && v == scalar_at(data@, i as int, 8) as u64 as i64,
            Err(e) => !fits(data@.len(), i as nat, 8) && e == MemoryError::OutOfBounds { start: i, len: 8 },
        },
{
    match get_scalar(data, i, 8) {
        Ok(v) => Ok(v as i64),
        Err(e) => Err(e),
    }
}

/// Stores the low byte of `v` at `i`.
pub fn put_8(data: &mut [u8], i: usize, v: i64) -> (r: Result<(), MemoryError>)
    ensures
        match r {
            Ok(()) => fits(old(data)@.len(), i as nat, 1) && final(data)@ == overwrite(
                old(data)@,
                i as int,
                le_bytes(v as u64 as nat, 1),
            ),
            Err(e) => !fits(old(data)@.len(), i as nat, 1) && final(data)@ == old(data)@
                && e == MemoryError::OutOfBounds { start: i, len: 1 },
        },
{
    put_scalar(data, i, v as u64, 1)
}

/// Stores the low two bytes of `v` at `i`, little-endian.
pub fn put_16(data: &mut [u8], i: usize, v: i64) -> (r: Result<(), MemoryError>)
    ensures
        match r {
            Ok(()) => fits(old(data)@.len(), i as nat, 2) && final(data)@ == overwrite(
                old(data)@,
                i as int,
                le_bytes(v as u64 as nat, 2),
            ),
            Err(e) => !fits(old(data)@.len(), i as nat, 2) && final(data)@ == old(data)@
                && e == MemoryError::OutOfBounds { start: i, len: 2 },
        },
{
    put_scalar(data, i, v as u64, 2)
}

/// Stores the low four bytes of `v` at `i`, little-endian.
pub fn put_32(data: &mut [u8], i: usize, v: i64) -> (r: Result<(), MemoryError>)
    ensures
        match r {
            Ok(()) => fits(old(data)@.len(), i as nat, 4) && final(data)@ == overwrite(
                old(data)@,
                i as int,
                le_bytes(v as u64 as nat, 4),
            ),
            Err(e) => !fits(old(data)@.len(), i as nat, 4) && final(data)@ == old(data)@
                && e == MemoryError::OutOfBounds { start: i, len: 4 },
        },
{
    put_scalar(data, i, v as u64, 4)
}

/// Stores `v` at `i` as eight little-endian bytes.
pub fn put_64(data: &mut [u8], i: usize, v: i64) -> (r: Result<(), MemoryError>)
    ensures
        match r {
            Ok(()) => fits(old(data)@.len(), i as nat, 8) && final(data)@ == overwrite(
                old(data)@,
                i as int,
                le_bytes(v as u64 as nat, 8),
            ),
            Err(e) => !fits(old(data)@.len(), i as nat, 8) && final(data)@ == old(data)@
                && e == MemoryError::OutOfBounds { start: i, len: 8 },
        },
{
    put_scalar(data, i, v as u64, 8)
}

// ---------------------------------------------------------------- bulk arrays

/// A homogeneous array that moves to and from memory as a run of records.
#[derive(Debug)]
pub enum TypedArray {
    Bytes(Vec<u8>),
    Int32(Vec<i32>),
    Int64(Vec<i64>),
    Float32(Vec<u32>),
    Float64(Vec<u64>),
    Vector2(Vec<Vector2>),
    Vector3(Vec<Vector3>),
    Color(Vec<Color>),
}

/// The element types that have a record layout in memory.
#[derive(PartialEq, Eq, Structural, Clone, Copy, Debug)]
pub enum ArrayKind {
    Bytes,
    Int32,
    Int64,
    Float32,
    Float64,
    Vector2,
    Vector3,
    Color,
}

/// The `w` bytes of `b` at `at`.
pub open spec fn chunk(b: Seq<u8>, at: int, w: int) -> Seq<u8> {
    b.subrange(at, at + w)
}

/// The number of bytes an array occupies in memory.
pub open spec fn array_size(a: TypedArray) -> nat {
    match a {
        TypedArray::Bytes(v) => v@.len(),
        TypedArray::Int32(v) => 4 * v@.len(),
        TypedArray::Int64(v) => 8 * v@.len(),
        TypedArray::Float32(v) => 4 * v@.len(),
        TypedArray::Float64(v) => 8 * v@.len(),
        TypedArray::Vector2(v) => 8 * v@.len(),
        TypedArray::Vector3(v) => 12 * v@.len(),
        TypedArray::Color(v) => 16 * v@.len(),
    }
}

/// `b` is the run of little-endian records that `a` occupies in memory:
/// each element in turn, each of its components in field order.
pub open spec fn encodes(b: Seq<u8>, a: TypedArray) -> bool {
    &&& b.len() == array_size(a)
    &&& match a {
        TypedArray::Bytes(v) => b == v@,
        TypedArray::Int32(v) => forall|e: int|
            0 <= e < v@.len() ==> chunk(b, 4 * e, 4) == le_bytes((#[trigger] v@[e]) as u32 as nat, 4),
        TypedArray::Int64(v) => forall|e: int|
            0 <= e < v@.len() ==> chunk(b, 8 * e, 8) == le_bytes((#[trigger] v@[e]) as u64 as nat, 8),
        TypedArray::Float32(v) => forall|e: int|
            0 <= e < v@.len() ==> chunk(b, 4 * e, 4) == le_bytes((#[trigger] v@[e]) as nat, 4),
        TypedArray::Float64(v) => forall|e: int|
            0 <= e < v@.len() ==> chunk(b, 8 * e, 8) == le_bytes((#[trigger] v@[e]) as nat, 8),
        TypedArray::Vector2(v) => forall|e: int|
            0 <= e < v@.len() ==> chunk(b, 8 * e, 4) == le_bytes((#[trigger] v@[e]).x as nat, 4) && chunk(
                b,
                8 * e + 4,
                4,
            ) == le_bytes(v@[e].y as nat, 4),
        TypedArray::Vector3(v) => forall|e: int|
            0 <= e < v@.len() ==> chunk(b, 12 * e, 4) == le_bytes((#[trigger] v@[e]).x as nat, 4)
                && chunk(b, 12 * e + 4, 4) == le_bytes(v@[e].y as nat, 4) && chunk(b, 12 * e + 8, 4)
                == le_bytes(v@[e].z as nat, 4),
        TypedArray::Color(v) => forall|e: int|
            0 <= e < v@.len() ==> chunk(b, 16 * e, 4) == le_bytes((#[trigger] v@[e]).r as nat, 4)
                && chunk(b, 16 * e + 4, 4) == le_bytes(v@[e].g as nat, 4) && chunk(b, 16 * e + 8, 4)
                == le_bytes(v@[e].b as nat, 4) && chunk(b, 16 * e + 12, 4) == le_bytes(v@[e].a as nat, 4),
    }
}

/// Writes the `w` least significant bytes of `v` into `c`, least significant first.
fn write_le(c: &mut [u8], v: u64, w: usize)
    requires
        old(c)@.len() == w,
    ensures
        final(c)@ == le_bytes(v as nat, w as nat),
{
    let mut x: u64 = v;
    let mut j: usize = 0;
    while j < w
        invariant
            c@.len() == w,
            j <= w,
            c@.subrange(0, j as int) + le_bytes(x as nat, (w - j) as nat) == le_bytes(v as nat, w as nat),
        decreases w - j,
    {
        let ghost before = c@.subrange(0, j as int);
        let ghost rest = le_bytes((x / 256) as nat, (w - j - 1) as nat);
        c[j] = (x % 256) as u8;
        proof {
            assert(le_bytes(x as nat, (w - j) as nat) == seq![(x % 256) as u8] + rest);
            assert(c@.subrange(0, j + 1) =~= before.push((x % 256) as u8));
            assert(before + (seq![(x % 256) as u8] + rest) =~= c@.subrange(0, j + 1) + rest);
        }
        x = x / 256;
        j += 1;
    }
    assert(c@.subrange(0, w as int) + le_bytes(x as nat, 0) =~= c@);
}

/// Relies on rayon's `par_chunks_exact_mut`, `zip`, `par_iter` and
/// `for_each`: the buffer is cut into consecutive chunks of `w` bytes, chunk
/// `k` is paired with word `k`, and `write_le` fills each chunk in parallel.
#[verifier::external_body]
fn par_write_words(d: &mut [u8], words: &[u64], w: usize)
    requires
        1 <= w <= 8,
        old(d)@.len() == words@.len() * w,
    ensures
        final(d)@.len() == old(d)@.len(),
        forall|k: int|
            0 <= k < words@.len() ==> chunk(final(d)@, w * k, w as int) == le_bytes(
                (#[trigger] words@[k]) as nat,
                w as nat,
            ),
{
    d.par_chunks_exact_mut(w).zip(words.par_iter()).for_each(|(c, x)| write_le(c, *x, w));
}

/// A buffer of `words.len()` records of `w` bytes, record `k` holding `words[k]`.
fn write_words(words: &Vec<u64>, w: usize) -> (r: Vec<u8>)
    requires
        1 <= w <= 8,
        words@.len() * w <= usize::MAX,
    ensures
        r@.len() == words@.len() * w,
        forall|k: int|
            0 <= k < words@.len() ==> chunk(r@, w * k, w as int) == le_bytes((#[trigger] words@[k]) as nat, w as nat),
{
    let mut buf: Vec<u8> = vec![0u8; words.len() * w];
    par_write_words(buf.as_mut_slice(), words.as_slice(), w);
    buf
}

/// The bytes that `a` occupies in memory.
pub fn encode_array(a: &TypedArray) -> (r: Vec<u8>)
    requires
        array_size(*a) <= usize::MAX,
    ensures
        encodes(r@, *a),
{
    match a {
        TypedArray::Bytes(v) => {
            let mut out: Vec<u8> = Vec::new();
            let mut e: usize = 0;
            while e < v.len()
                invariant
                    e <= v@.len(),
                    out@ == v@.take(e as int),
                decreases v@.len() - e,
            {
                out.push(v[e]);
                e += 1;
                assert(out@ =~= v@.take(e as int));
            }
            assert(v@.take(v@.len() as int) =~= v@);
            assert(encodes(out@, *a));
            out
        },
        TypedArray::Int32(v) => {
            let mut words: Vec<u64> = Vec::new();
            let mut e: usize = 0;
            while e < v.len()
                invariant
                    e <= v@.len(),
                    words@.len() == e,
                    forall|q: int| 0 <= q < e ==> #[trigger] words@[q] == v@[q] as u32 as u64,
                decreases v@.len() - e,
            {
                words.push(v[e] as u32 as u64);
                e += 1;
            }
            let r = write_words(&words, 4);
            proof {
                assert forall|e: int| 0 <= e < v@.len() implies chunk(r@, 4 * e, 4) == le_bytes(
                    (#[trigger] v@[e]) as u32 as nat,
                    4,
                ) by {
                    assert(words@[e] == v@[e] as u32 as u64);
                }
            }
            r
        },
        TypedArray::Int64(v) => {
            let mut words: Vec<u64> = Vec::new();
            let mut e: usize = 0;
            while e < v.len()
                invariant
                    e <= v@.len(),
                    words@.len() == e,
                    forall|q: int| 0 <= q < e ==> #[trigger] words@[q] == v@[q] as u64,
                decreases v@.len() - e,
            {
                words.push(v[e] as u64);
                e += 1;
            }
            let r = write_words(&words, 8);
            proof {
                assert forall|e: int| 0 <= e < v@.len() implies chunk(r@, 8 * e, 8) == le_bytes(
                    (#[trigger] v@[e]) as u64 as nat,
                    8,
                ) by {
                    assert(words@[e] == v@[e] as u64);
                }
            }
            r
        },
        TypedArray::Float32(v) => {
            let mut words: Vec<u64> = Vec::new();
            let mut e: usize = 0;
            while e < v.len()
                invariant
                    e <= v@.len(),
                    words@.len() == e,
                    forall|q: int| 0 <= q < e ==> #[trigger] words@[q] == v@[q] as u64,
                decreases v@.len() - e,
            {
                words.push(v[e] as u64);
                e += 1;
            }
            let r = write_words(&words, 4);
            proof {
                assert forall|e: int| 0 <= e < v@.len() implies chunk(r@, 4 * e, 4) == le_bytes(
                    (#[trigger] v@[e]) as nat,
                    4,
                ) by {
                    assert(words@[e] == v@[e] as u64);
                }
            }
            r
        },
        TypedArray::Float64(v) => {
            let r = write_words(v, 8);
            proof {
                assert forall|e: int| 0 <= e < v@.len() implies chunk(r@, 8 * e, 8) == le_bytes(
                    (#[trigger] v@[e]) as nat,
                    8,
                ) by {
                    assert(v@[e] == v@[e]);
                }
            }
            r
        },
        TypedArray::Vector2(v) => {
            let mut words: Vec<u64> = Vec::new();
            let mut e: usize = 0;
            while e < v.len()
                invariant
                    e <= v@.len(),
                    8 * v@.len() <= usize::MAX,
                    words@.len() == 2 * e,
                    forall|q: int| 0 <= q < e ==> words@[2 * q] == (#[trigger] v@[q]).x as u64
                        && words@[2 * q + 1] == v@[q].y as u64,
                decreases v@.len() - e,
            {
                let ghost before = words@;
                words.push(v[e].x as u64);
                words.push(v[e].y as u64);
                proof {
                    assert(words@ =~= before + seq![v@[e as int].x as u64, v@[e as int].y as u64]);
                    assert(words@[2 * e] == v@[e as int].x as u64 && words@[2 * e + 1] == v@[e as int].y as u64);
                    assert forall|q: int| 0 <= q < e implies words@[2 * q] == #[trigger] before[2 * q] && words@[2 * q + 1]
                        == before[2 * q + 1] by {}
                }
                e += 1;
            }
            let r = write_words(&words, 4);
            proof {
                assert(e == v@.len());
                assert forall|p: int| 0 <= p < v@.len() implies chunk(r@, 8 * p, 4) == le_bytes(
                    (#[trigger] v@[p]).x as nat,
                    4,
                ) && chunk(r@, 8 * p + 4, 4) == le_bytes(v@[p].y as nat, 4) by {
                    assert(words@[2 * p] == v@[p].x as u64 && words@[2 * p + 1] == v@[p].y as u64);
                    assert(words@[2 * p + 1] == words@[2 * p + 1]);
                }
            }
            r
        },
        TypedArray::Vector3(v) => {
            let mut words: Vec<u64> = Vec::new();
            let mut e: usize = 0;
            while e < v.len()
                invariant
                    e <= v@.len(),
                    12 * v@.len() <= usize::MAX,
                    words@.len() == 3 * e,
                    forall|q: int| 0 <= q < e ==> words@[3 * q] == (#[trigger] v@[q]).x as u64
                        && words@[3 * q + 1] == v@[q].y as u64 && words@[3 * q + 2] == v@[q].z as u64,
                decreases v@.len() - e,
            {
                let ghost before = words@;
                words.push(v[e].x as u64);
                words.push(v[e].y as u64);
                words.push(v[e].z as u64);
                proof {
                    assert(words@ =~= before + seq![v@[e as int].x as u64, v@[e as int].y as u64, v@[e as int].z as u64]);
                    assert(words@[3 * e] == v@[e as int].x as u64 && words@[3 * e + 1] == v@[e as int].y as u64
                        && words@[3 * e + 2] == v@[e as int].z as u64);
                    assert forall|q: int| 0 <= q < e implies words@[3 * q] == #[trigger] before[3 * q] && words@[3 * q + 1]
                        == before[3 * q + 1] && words@[3 * q + 2] == before[3 * q + 2] by {}
                }
                e += 1;
            }
            let r = write_words(&words, 4);
            proof {
                assert(e == v@.len());
                assert forall|p: int| 0 <= p < v@.len() implies chunk(r@, 12 * p, 4) == le_bytes(
                    (#[trigger] v@[p]).x as nat,
                    4,
                ) && chunk(r@, 12 * p + 4, 4) == le_bytes(v@[p].y as nat, 4) && chunk(r@, 12 * p + 8, 4)
                    == le_bytes(v@[p].z as nat, 4) by {
                    assert(words@[3 * p] == v@[p].x as u64 && words@[3 * p + 1] == v@[p].y as u64
                        && words@[3 * p + 2] == v@[p].z as u64);
                }
            }
            r
        },
        TypedArray::Color(v) => {
            let mut words: Vec<u64> = Vec::new();
            let mut e: usize = 0;
            while e < v.len()
                invariant
                    e <= v@.len(),
                    16 * v@.len() <= usize::MAX,
                    words@.len() == 4 * e,
                    forall|q: int| 0 <= q < e ==> words@[4 * q] == (#[trigger] v@[q]).r as u64
                        && words@[4 * q + 1] == v@[q].g as u64 && words@[4 * q + 2] == v@[q].b as u64
                        && words@[4 * q + 3] == v@[q].a as u64,
                decreases v@.len() - e,
            {
                let ghost before = words@;
                words.push(v[e].r as u64);
                words.push(v[e].g as u64);
                words.push(v[e].b as u64);
                words.push(v[e].a as u64);
                proof {
                    assert(words@ =~= before + seq![v@[e as int].r as u64, v@[e as int].g as u64, v@[e as int].b as u64, v@[e as int].a as u64]);
                    assert(words@[4 * e] == v@[e as int].r as u64 && words@[4 * e + 1] == v@[e as int].g as u64
                        && words@[4 * e + 2] == v@[e as int].b as u64 && words@[4 * e + 3] == v@[e as int].a as u64);
                    assert forall|q: int| 0 <= q < e implies words@[4 * q] == #[trigger] before[4 * q] && words@[4 * q + 1]
                        == before[4 * q + 1] && words@[4 * q + 2] == before[4 * q + 2] && words@[4 * q + 3] == before[4 * q + 3] by {}
                }
                e += 1;
            }
            let r = write_words(&words, 4);
            proof {
                assert(e == v@.len());
                assert forall|p: int| 0 <= p < v@.len() implies chunk(r@, 16 * p, 4) == le_bytes(
                    (#[trigger] v@[p]).r as nat,
                    4,
                ) && chunk(r@, 16 * p + 4, 4) == le_bytes(v@[p].g as nat, 4) && chunk(r@, 16 * p + 8, 4)
                    == le_bytes(v@[p].b as nat, 4) && chunk(r@, 16 * p + 12, 4) == le_bytes(v@[p].a as nat, 4) by {
                    assert(words@[4 * p] == v@[p].r as u64 && words@[4 * p + 1] == v@[p].g as u64
                        && words@[4 * p + 2] == v@[p].b as u64 && words@[4 * p + 3] == v@[p].a as u64);
                }
            }
            r
        },
    }
}

/// Stores the array `a` at offset `i` as a contiguous run of little-endian records.
pub fn put_array(data: &mut [u8], i: usize, a: &TypedArray) -> (r: Result<(), MemoryError>)
    requires
        array_size(*a) <= usize::MAX,
    ensures
        match r {
            Ok(()) => fits(old(data)@.len(), i as nat, array_size(*a)) && exists|b: Seq<u8>|
                #[trigger] encodes(b, *a) && final(data)@ == overwrite(old(data)@, i as int, b),
            Err(e) => !fits(old(data)@.len(), i as nat, array_size(*a)) && final(data)@ == old(data)@
                && e == MemoryError::OutOfBounds { start: i, len: array_size(*a) as usize },
        },
{
    let bytes = encode_array(a);
    write_memory(data, i, bytes.as_slice())
}

/// The `c`-th `w`-byte number of the run that starts at `i`.
pub open spec fn comp(data: Seq<u8>, i: int, w: int, c: int) -> nat {
    le_value(data.subrange(i + w * c, i + w * c + w))
}

/// The element type that a host type id names, if it has a record layout.
/// The ids are those of the host's packed-array value types.
pub open spec fn kind_of(t: i64) -> Result<ArrayKind, MemoryError> {
    if t == 29 {
        Ok(ArrayKind::Bytes)
    } else if t == 30 {
        Ok(ArrayKind::Int32)
    } else if t == 31 {
        Ok(ArrayKind::Int64)
    } else if t == 32 {
        Ok(ArrayKind::Float32)
    } else if t == 33 {
        Ok(ArrayKind::Float64)
    } else if t == 35 {
        Ok(ArrayKind::Vector2)
    } else if t == 36 {
        Ok(ArrayKind::Vector3)
    } else if t == 37 {
        Ok(ArrayKind::Color)
    } else if t <= 37 {
        Err(MemoryError::UnsupportedType(t))
    } else {
        Err(MemoryError::UnknownType(t))
    }
}

/// The size in bytes of one record.
pub open spec fn stride(k: ArrayKind) -> nat {
    match k {
        ArrayKind::Bytes => 1,
        ArrayKind::Int32 => 4,
        ArrayKind::Int64 => 8,
        ArrayKind::Float32 => 4,
        ArrayKind::Float64 => 8,
        ArrayKind::Vector2 => 8,
        ArrayKind::Vector3 => 12,
        ArrayKind::Color => 16,
    }
}

pub open spec fn kind_matches(a: TypedArray, k: ArrayKind) -> bool {
    match a {
        TypedArray::Bytes(_) => k == ArrayKind::Bytes,
        TypedArray::Int32(_) => k == ArrayKind::Int32,
        TypedArray::Int64(_) => k == ArrayKind::Int64,
        TypedArray::Float32(_) => k == ArrayKind::Float32,
        TypedArray::Float64(_) => k == ArrayKind::Float64,
        TypedArray::Vector2(_) => k == ArrayKind::Vector2,
        TypedArray::Vector3(_) => k == ArrayKind::Vector3,
        TypedArray::Color(_) => k == ArrayKind::Color,
    }
}

/// `a` holds the `n` records that start at `i`.
pub open spec fn decodes(data: Seq<u8>, i: int, n: int, a: TypedArray) -> bool {
    match a {
        TypedArray::Bytes(v) => v@ == data.subrange(i, i + n),
        TypedArray::Int32(v) => v@.len() == n && forall|e: int|
            0 <= e < n ==> #[trigger] v@[e] == comp(data, i, 4, e) as u32 as i32,
        TypedArray::Int64(v) => v@.len() == n && forall|e: int|
            0 <= e < n ==> #[trigger] v@[e] == comp(data, i, 8, e) as u64 as i64,
        TypedArray::Float32(v) => v@.len() == n && forall|e: int|
            0 <= e < n ==> #[trigger] v@[e] == comp(data, i, 4, e),
        TypedArray::Float64(v) => v@.len() == n && forall|e: int|
            0 <= e < n ==> #[trigger] v@[e] == comp(data, i, 8, e),
        TypedArray::Vector2(v) => v@.len() == n && forall|e: int|
            0 <= e < n ==> (#[trigger] v@[e]).x == comp(data, i, 4, 2 * e) && v@[e].y == comp(
                data,
                i,
                4,
                2 * e + 1,
            ),
        TypedArray::Vector3(v) => v@.len() == n && forall|e: int|
            0 <= e < n ==> (#[trigger] v@[e]).x == comp(data, i, 4, 3 * e) && v@[e].y == comp(
                data,
                i,
                4,
                3 * e + 1,
            ) && v@[e].z == comp(data, i, 4, 3 * e + 2),
        TypedArray::Color(v) => v@.len() == n && forall|e: int|
            0 <= e < n ==> (#[trigger] v@[e]).r == comp(data, i, 4, 4 * e) && v@[e].g == comp(
                data,
                i,
                4,
                4 * e + 1,
            ) && v@[e].b == comp(data, i, 4, 4 * e + 2) && v@[e].a == comp(data, i, 4, 4 * e + 3),
    }
}

impl ArrayKind {
    /// The element type that the host type id `t` names.
    pub fn from_type_id(t: i64) -> (r: Result<ArrayKind, MemoryError>)
        ensures
            r == kind_of(t),
    {
        if t == 29 {
            Ok(ArrayKind::Bytes)
        } else if t == 30 {
            Ok(ArrayKind::Int32)
        } else if t == 31 {
            Ok(ArrayKind::Int64)
        } else if t == 32 {
            Ok(ArrayKind::Float32)
        } else if t == 33 {
            Ok(ArrayKind::Float64)
        } else if t == 35 {
            Ok(ArrayKind::Vector2)
        } else if t == 36 {
            Ok(ArrayKind::Vector3)
        } else if t == 37 {
            Ok(ArrayKind::Color)
        } else if t <= 37 {
            Err(MemoryError::UnsupportedType(t))
        } else {
            Err(MemoryError::UnknownType(t))
        }
    }

    /// The size in bytes of one record.
    pub fn stride(&self) -> (r: usize)
        ensures
            r as nat == stride(*self),
    {
        match self {
            ArrayKind::Bytes => 1,
            ArrayKind::Int32 => 4,
            ArrayKind::Int64 => 8,
            ArrayKind::Float32 => 4,
            ArrayKind::Float64 => 8,
            ArrayKind::Vector2 => 8,
            ArrayKind::Vector3 => 12,
            ArrayKind::Color => 16,
        }
    }
}

/// The byte length of `n` records of `w` bytes, or the largest `usize` where
/// that does not fit.
pub open spec fn span_len(n: nat, w: nat) -> usize {
    if n * w <= usize::MAX {
        (n * w) as usize
    } else {
        usize::MAX
    }
}

fn check_span(dl: usize, i: usize, n: usize, w: usize) -> (r: Result<(), MemoryError>)
    requires
        1 <= w <= 16,
    ensures
        match r {
            Ok(()) => fits(dl as nat, i as nat, (n * w) as nat),
            Err(e) => !fits(dl as nat, i as nat, (n * w) as nat) && e == MemoryError::OutOfBounds {
                start: i,
                len: span_len(n as nat, w as nat),
            },
        },
{
    let total = match n.checked_mul(w) {
        Some(x) => x,
        None => {
            return Err(MemoryError::OutOfBounds { start: i, len: usize::MAX });
        },
    };
    if total > dl || i > dl - total {
        return Err(MemoryError::OutOfBounds { start: i, len: total });
    }
    Ok(())
}

/// Relies on rayon's `par_chunks_exact`, `map` and `collect`: the bytes are
/// cut into consecutive chunks of `w` (a shorter tail is left out), each chunk
/// is decoded by `read_le` in parallel, and the results are collected in the
/// order of the chunks.
#[verifier::external_body]
fn par_read_words(s: &[u8], w: usize) -> (r: Vec<u64>)
    requires
        1 <= w <= 8,
    ensures
        r@.len() == s@.len() / (w as nat),
        forall|k: int|
            0 <= k < r@.len() ==> #[trigger] r@[k] as nat == le_value(s@.subrange(w * k, w * k + w)),
{
    s.par_chunks_exact(w).map(|c| read_le(c, 0, w)).collect()
}

/// The `count` consecutive `w`-byte numbers that start at `i`.
fn read_words(data: &[u8], i: usize, count: usize, w: usize) -> (r: Vec<u64>)
    requires
        1 <= w <= 8,
        i + count * w <= data@.len(),
    ensures
        r@.len() == count,
        forall|k: int| 0 <= k < count ==> #[trigger] r@[k] as nat == comp(data@, i as int, w as int, k),
        forall|k: int| 0 <= k < count ==> #[trigger] comp(data@, i as int, w as int, k) < pow256(w as nat),
{
    let dl = data.len();
    assert(count * w <= dl);
    let total = count * w;
    let bytes = match read_memory(data, i, total) {
        Ok(b) => b,
        Err(_) => {
            assert(false);
            Vec::new()
        },
    };
    let words = par_read_words(bytes.as_slice(), w);
    proof {
        vstd::arithmetic::div_mod::lemma_div_by_multiple(count as int, w as int);
        assert forall|k: int| 0 <= k < count implies words@[k] as nat == comp(
            data@,
            i as int,
            w as int,
            k,
        ) && #[trigger] comp(data@, i as int, w as int, k) < pow256(w as nat) by {
            assert(w * k + w <= w * count) by (nonlinear_arith)
                requires
                    0 <= k < count,
                    1 <= w,
            ;
            assert(w * count == count * w) by (nonlinear_arith);
            assert(bytes@.subrange(w * k, w * k + w) =~= data@.subrange(i + w * k, i + w * k + w));
            lemma_le_value_bound(data@.subrange(i + w * k, i + w * k + w));
        }
    }
    words
}

/// Reads `n` records of the element type with host type id `t`, starting at `i`.
pub fn get_array(data: &[u8], i: usize, n: usize, t: i64) -> (r: Result<TypedArray, MemoryError>)
    ensures
        match kind_of(t) {
            Err(e) => r == Err::<TypedArray, MemoryError>(e),
            Ok(k) => if fits(data@.len(), i as nat, n as nat * stride(k)) {
                r.is_ok() && kind_matches(r.unwrap(), k) && decodes(data@, i as int, n as int, r.unwrap())
            } else {
                r == Err::<TypedArray, MemoryError>(MemoryError::OutOfBounds {
                    start: i,
                    len: span_len(n as nat, stride(k)),
                })
            },
        },
{
    let k = match ArrayKind::from_type_id(t) {
        Ok(k) => k,
        Err(e) => {
            return Err(e);
        },
    };
    let w = k.stride();
    let dl = data.len();
    match check_span(dl, i, n, w) {
        Ok(()) => {},
        Err(e) => {
            return Err(e);
        },
    }
    proof {
        lemma_pow256_8();
    }
    match k {
        ArrayKind::Bytes => {
            match read_memory(data, i, n) {
                Ok(v) => Ok(TypedArray::Bytes(v)),
                Err(e) => Err(e),
            }
        },
        ArrayKind::Int32 => {
            let words = read_words(data, i, n, 4);
            let mut v: Vec<i32> = Vec::new();
            let mut e: usize = 0;
            while e < n
                invariant
                    words@.len() == n,
                    forall|q: int| 0 <= q < n ==> #[trigger] words@[q] as nat == comp(data@, i as int, 4, q),
                    e <= n,
                    v@.len() == e,
                    forall|q: int| 0 <= q < e ==> #[trigger] v@[q] == comp(data@, i as int, 4, q) as u32 as i32,
                decreases n - e,
            {
                v.push(words[e] as u32 as i32);
                e += 1;
            }
            Ok(TypedArray::Int32(v))
        },
        ArrayKind::Int64 => {
            let words = read_words(data, i, n, 8);
            let mut v: Vec<i64> = Vec::new();
            let mut e: usize = 0;
            while e < n
                invariant
                    words@.len() == n,
                    forall|q: int| 0 <= q < n ==> #[trigger] words@[q] as nat == comp(data@, i as int, 8, q),
                    e <= n,
                    v@.len() == e,
                    forall|q: int| 0 <= q < e ==> #[trigger] v@[q] == comp(data@, i as int, 8, q) as u64 as i64,
                decreases n - e,
            {
                v.push(words[e] as i64);
                e += 1;
            }
            Ok(TypedArray::Int64(v))
        },
        ArrayKind::Float32 => {
            let words = read_words(data, i, n, 4);
            let mut v: Vec<u32> = Vec::new();
            let mut e: usize = 0;
            while e < n
                invariant
                    pow256(4) == 0x1_0000_0000,
                    words@.len() == n,
                    forall|q: int| 0 <= q < n ==> #[trigger] words@[q] as nat == comp(data@, i as int, 4, q),
                    forall|q: int| 0 <= q < n ==> #[trigger] comp(data@, i as int, 4, q) < pow256(4),
                    e <= n,
                    v@.len() == e,
                    forall|q: int| 0 <= q < e ==> #[trigger] v@[q] == comp(data@, i as int, 4, q),
                decreases n - e,
            {
                v.push(words[e] as u32);
                e += 1;
            }
            Ok(TypedArray::Float32(v))
        },
        ArrayKind::Float64 => {
            let words = read_words(data, i, n, 8);
            let mut v: Vec<u64> = Vec::new();
            let mut e: usize = 0;
            while e < n
                invariant
                    words@.len() == n,
                    forall|q: int| 0 <= q < n ==> #[trigger] words@[q] as nat == comp(data@, i as int, 8, q),
                    e <= n,
                    v@.len() == e,
                    forall|q: int| 0 <= q < e ==> #[trigger] v@[q] == comp(data@, i as int, 8, q),
                decreases n - e,
            {
                v.push(words[e]);
                e += 1;
            }
            Ok(TypedArray::Float64(v))
        },
        ArrayKind::Vector2 => {
            let words = read_words(data, i, 2 * n, 4);
            let mut v: Vec<Vector2> = Vec::new();
            let mut e: usize = 0;
            while e < n
                invariant
                    pow256(4) == 0x1_0000_0000,
                    words@.len() == 2 * n,
                    2 * n <= usize::MAX,
                    forall|q: int| 0 <= q < 2 * n ==> #[trigger] words@[q] as nat == comp(data@, i as int, 4, q),
                    forall|q: int| 0 <= q < 2 * n ==> #[trigger] comp(data@, i as int, 4, q) < pow256(4),
                    e <= n,
                    v@.len() == e,
                    forall|q: int| 0 <= q < e ==> (#[trigger] v@[q]).x == comp(data@, i as int, 4, 2 * q)
                        && v@[q].y == comp(data@, i as int, 4, 2 * q + 1),
                decreases n - e,
            {
                let x = words[2 * e];
                let y = words[2 * e + 1];
                v.push(Vector2 { x: x as u32, y: y as u32 });
                e += 1;
            }
            Ok(TypedArray::Vector2(v))
        },
        ArrayKind::Vector3 => {
            assert(n * 12 <= dl);
            let words = read_words(data, i, 3 * n, 4);
            let mut v: Vec<Vector3> = Vec::new();
            let mut e: usize = 0;
            while e < n
                invariant
                    pow256(4) == 0x1_0000_0000,
                    words@.len() == 3 * n,
                    3 * n <= usize::MAX,
                    forall|q: int| 0 <= q < 3 * n ==> #[trigger] words@[q] as nat == comp(data@, i as int, 4, q),
                    forall|q: int| 0 <= q < 3 * n ==> #[trigger] comp(data@, i as int, 4, q) < pow256(4),
                    e <= n,
                    v@.len() == e,
                    forall|q: int| 0 <= q < e ==> (#[trigger] v@[q]).x == comp(data@, i as int, 4, 3 * q)
                        && v@[q].y == comp(data@, i as int, 4, 3 * q + 1) && v@[q].z == comp(
                        data@,
                        i as int,
                        4,
                        3 * q + 2,
                    ),
                decreases n - e,
            {
                let x = words[3 * e];
                let y = words[3 * e + 1];
                let z = words[3 * e + 2];
                v.push(Vector3 { x: x as u32, y: y as u32, z: z as u32 });
                e += 1;
            }
            Ok(TypedArray::Vector3(v))
        },
        ArrayKind::Color => {
            assert(n * 16 <= dl);
            let words = read_words(data, i, 4 * n, 4);
            let mut v: Vec<Color> = Vec::new();
            let mut e: usize = 0;
            while e < n
                invariant
                    pow256(4) == 0x1_0000_0000,
                    words@.len() == 4 * n,
                    4 * n <= usize::MAX,
                    forall|q: int| 0 <= q < 4 * n ==> #[trigger] words@[q] as nat == comp(data@, i as int, 4, q),
                    forall|q: int| 0 <= q < 4 * n ==> #[trigger] comp(data@, i as int, 4, q) < pow256(4),
                    e <= n,
                    v@.len() == e,
                    forall|q: int| 0 <= q < e ==> (#[trigger] v@[q]).r == comp(data@, i as int, 4, 4 * q)
                        && v@[q].g == comp(data@, i as int, 4, 4 * q + 1) && v@[q].b == comp(
                        data@,
                        i as int,
                        4,
                        4 * q + 2,
                    ) && v@[q].a == comp(data@, i as int, 4, 4 * q + 3),
                decreases n - e,
            {
                let r0 = words[4 * e];
                let g0 = words[4 * e + 1];
                let b0 = words[4 * e + 2];
                let a0 = words[4 * e + 3];
                v.push(Color { r: r0 as u32, g: g0 as u32, b: b0 as u32, a: a0 as u32 });
                e += 1;
            }
            Ok(TypedArray::Color(v))
        },
    }
}

// ---------------------------------------------------------------- round trip

/// The number of elements of an array.
pub open spec fn array_len(a: TypedArray) -> nat {
    match a {
        TypedArray::Bytes(v) => v@.len(),
        TypedArray::Int32(v) => v@.len(),
        TypedArray::Int64(v) => v@.len(),
        TypedArray::Float32(v) => v@.len(),
        TypedArray::Float64(v) => v@.len(),
        TypedArray::Vector2(v) => v@.len(),
        TypedArray::Vector3(v) => v@.len(),
        TypedArray::Color(v) => v@.len(),
    }
}

proof fn lemma_window(data: Seq<u8>, i: int, b: Seq<u8>, at: int, w: int)
    requires
        0 <= i,
        0 <= at,
        0 <= w,
        at + w <= b.len(),
        i + b.len() <= data.len(),
    ensures
        overwrite(data, i, b).subrange(i + at, i + at + w) == chunk(b, at, w),
{
    assert(overwrite(data, i, b).subrange(i + at, i + at + w) =~= chunk(b, at, w));
}

proof fn lemma_word4(data: Seq<u8>, i: int, b: Seq<u8>, at: int, x: u32)
    requires
        0 <= i,
        0 <= at,
        at + 4 <= b.len(),
        i + b.len() <= data.len(),
        chunk(b, at, 4) == le_bytes(x as nat, 4),
    ensures
        le_value(overwrite(data, i, b).subrange(i + at, i + at + 4)) == x as nat,
{
    lemma_window(data, i, b, at, 4);
    lemma_pow256_8();
    lemma_le_round_trip(x as nat, 4);
}

proof fn lemma_word8(data: Seq<u8>, i: int, b: Seq<u8>, at: int, x: u64)
    requires
        0 <= i,
        0 <= at,
        at + 8 <= b.len(),
        i + b.len() <= data.len(),
        chunk(b, at, 8) == le_bytes(x as nat, 8),
    ensures
        le_value(overwrite(data, i, b).subrange(i + at, i + at + 8)) == x as nat,
{
    lemma_window(data, i, b, at, 8);
    lemma_pow256_8();
    lemma_le_round_trip(x as nat, 8);
}

/// An array stored with `put_array` at offset `i` reads back, as records of
/// its own element type at the same offset, as the same array.
pub proof fn law_array_round_trip(data: Seq<u8>, i: int, a: TypedArray, b: Seq<u8>)
    requires
        encodes(b, a),
        0 <= i,
        i + b.len() <= data.len(),
    ensures
        decodes(overwrite(data, i, b), i, array_len(a) as int, a),
{
    let d2 = overwrite(data, i, b);
    match a {
        TypedArray::Bytes(v) => {
            assert(d2.subrange(i, i + v@.len()) =~= b);
        },
        TypedArray::Int32(v) => {
            assert forall|e: int| 0 <= e < v@.len() implies #[trigger] v@[e] == comp(d2, i, 4, e) as u32 as i32 by {
                let y = v@[e];
                let x = y as u32;
                lemma_word4(data, i, b, 4 * e, x);
                assert(x as i32 == y) by (bit_vector)
                    requires
                        x == y as u32,
                ;
            }
        },
        TypedArray::Int64(v) => {
            assert forall|e: int| 0 <= e < v@.len() implies #[trigger] v@[e] == comp(d2, i, 8, e) as u64 as i64 by {
                let y = v@[e];
                let x = y as u64;
                lemma_word8(data, i, b, 8 * e, x);
                assert(x as i64 == y) by (bit_vector)
                    requires
                        x == y as u64,
                ;
            }
        },
        TypedArray::Float32(v) => {
            assert forall|e: int| 0 <= e < v@.len() implies #[trigger] v@[e] == comp(d2, i, 4, e) by {
                lemma_word4(data, i, b, 4 * e, v@[e]);
            }
        },
        TypedArray::Float64(v) => {
            assert forall|e: int| 0 <= e < v@.len() implies #[trigger] v@[e] == comp(d2, i, 8, e) by {
                lemma_word8(data, i, b, 8 * e, v@[e]);
            }
        },
        TypedArray::Vector2(v) => {
            assert forall|e: int| 0 <= e < v@.len() implies (#[trigger] v@[e]).x == comp(d2, i, 4, 2 * e)
                && v@[e].y == comp(d2, i, 4, 2 * e + 1) by {
                lemma_word4(data, i, b, 8 * e, v@[e].x);
                lemma_word4(data, i, b, 8 * e + 4, v@[e].y);
            }
        },
        TypedArray::Vector3(v) => {
            assert forall|e: int| 0 <= e < v@.len() implies (#[trigger] v@[e]).x == comp(d2, i, 4, 3 * e)
                && v@[e].y == comp(d2, i, 4, 3 * e + 1) && v@[e].z == comp(d2, i, 4, 3 * e + 2) by {
                lemma_word4(data, i, b, 12 * e, v@[e].x);
                lemma_word4(data, i, b, 12 * e + 4, v@[e].y);
                lemma_word4(data, i, b, 12 * e + 8, v@[e].z);
            }
        },
        TypedArray::Color(v) => {
            assert forall|e: int| 0 <= e < v@.len() implies (#[trigger] v@[e]).r == comp(d2, i, 4, 4 * e)
                && v@[e].g == comp(d2, i, 4, 4 * e + 1) && v@[e].b == comp(d2, i, 4, 4 * e + 2) && v@[e].a
                == comp(d2, i, 4, 4 * e + 3) by {
                lemma_word4(data, i, b, 16 * e, v@[e].r);
                lemma_word4(data, i, b, 16 * e + 4, v@[e].g);
                lemma_word4(data, i, b, 16 * e + 8, v@[e].b);
                lemma_word4(data, i, b, 16 * e + 12, v@[e].a);
            }
        },
    }
}

/// The element type of an array.
pub open spec fn array_kind(a: TypedArray) -> ArrayKind {
    match a {
        TypedArray::Bytes(_) => ArrayKind::Bytes,
        TypedArray::Int32(_) => ArrayKind::Int32,
        TypedArray::Int64(_) => ArrayKind::Int64,
        TypedArray::Float32(_) => ArrayKind::Float32,
        TypedArray::Float64(_) => ArrayKind::Float64,
        TypedArray::Vector2(_) => ArrayKind::Vector2,
        TypedArray::Vector3(_) => ArrayKind::Vector3,
        TypedArray::Color(_) => ArrayKind::Color,
    }
}

/// Two arrays of the same element type with the same elements in the same order.
pub open spec fn same_array(a: TypedArray, b: TypedArray) -> bool {
    match (a, b) {
        (TypedArray::Bytes(x), TypedArray::Bytes(y)) => x@ == y@,
        (TypedArray::Int32(x), TypedArray::Int32(y)) => x@ == y@,
        (TypedArray::Int64(x), TypedArray::Int64(y)) => x@ == y@,
        (TypedArray::Float32(x), TypedArray::Float32(y)) => x@ == y@,
        (TypedArray::Float64(x), TypedArray::Float64(y)) => x@ == y@,
        (TypedArray::Vector2(x), TypedArray::Vector2(y)) => x@ == y@,
        (TypedArray::Vector3(x), TypedArray::Vector3(y)) => x@ == y@,
        (TypedArray::Color(x), TypedArray::Color(y)) => x@ == y@,
        _ => false,
    }
}

/// Reading back, with `get_array` and the array's own element type, what
/// `put_array` stored gives the same array, for every element type.
pub proof fn law_put_then_get(data: Seq<u8>, i: int, a: TypedArray, b: Seq<u8>, r: TypedArray)
    requires
        encodes(b, a),
        0 <= i,
        i + b.len() <= data.len(),
        kind_matches(r, array_kind(a)),
        decodes(overwrite(data, i, b), i, array_len(a) as int, r),
    ensures
        same_array(r, a),
{
    law_array_round_trip(data, i, a, b);
    let d2 = overwrite(data, i, b);
    match (r, a) {
        (TypedArray::Bytes(x), TypedArray::Bytes(y)) => {},
        (TypedArray::Int32(x), TypedArray::Int32(y)) => {
            assert forall|e: int| 0 <= e < x@.len() implies x@[e] == y@[e] by {
                assert(x@[e] == comp(d2, i, 4, e) as u32 as i32);
                assert(y@[e] == comp(d2, i, 4, e) as u32 as i32);
            }
            assert(x@ =~= y@);
        },
        (TypedArray::Int64(x), TypedArray::Int64(y)) => {
            assert forall|e: int| 0 <= e < x@.len() implies x@[e] == y@[e] by {
                assert(x@[e] == comp(d2, i, 8, e) as u64 as i64);
                assert(y@[e] == comp(d2, i, 8, e) as u64 as i64);
            }
            assert(x@ =~= y@);
        },
        (TypedArray::Float32(x), TypedArray::Float32(y)) => {
            assert forall|e: int| 0 <= e < x@.len() implies x@[e] == y@[e] by {
                assert(x@[e] == comp(d2, i, 4, e));
                assert(y@[e] == comp(d2, i, 4, e));
            }
            assert(x@ =~= y@);
        },
        (TypedArray::Float64(x), TypedArray::Float64(y)) => {
            assert forall|e: int| 0 <= e < x@.len() implies x@[e] == y@[e] by {
                assert(x@[e] == comp(d2, i, 8, e));
                assert(y@[e] == comp(d2, i, 8, e));
            }
            assert(x@ =~= y@);
        },
        (TypedArray::Vector2(x), TypedArray::Vector2(y)) => {
            assert forall|e: int| 0 <= e < x@.len() implies x@[e] == y@[e] by {
                assert(x@[e].x == y@[e].x && x@[e].y == y@[e].y);
            }
            assert(x@ =~= y@);
        },
        (TypedArray::Vector3(x), TypedArray::Vector3(y)) => {
            assert forall|e: int| 0 <= e < x@.len() implies x@[e] == y@[e] by {
                assert(x@[e].x == y@[e].x && x@[e].y == y@[e].y && x@[e].z == y@[e].z);
            }
            assert(x@ =~= y@);
        },
        (TypedArray::Color(x), TypedArray::Color(y)) => {
            assert forall|e: int| 0 <= e < x@.len() implies x@[e] == y@[e] by {
                assert(x@[e].r == y@[e].r && x@[e].g == y@[e].g && x@[e].b == y@[e].b && x@[e].a == y@[e].a);
            }
            assert(x@ =~= y@);
        },
        _ => {},
    }
}

/// Encoding the number that some bytes hold gives those bytes back.
proof fn lemma_bytes_of_value(s: Seq<u8>)
    ensures
        le_bytes(le_value(s), s.len()) == s,
    decreases s.len(),
{
    if s.len() == 0 {
        assert(le_bytes(le_value(s), 0) =~= s);
    } else {
        let rest = s.drop_first();
        lemma_bytes_of_value(rest);
        vstd::arithmetic::div_mod::lemma_fundamental_div_mod_converse(
            le_value(s) as int,
            256,
            le_value(rest) as int,
            s[0] as int,
        );
        assert(le_bytes(le_value(s), s.len()) =~= s);
    }
}

/// Word `at` of `b` equals word `at` of the memory run it is laid over, when
/// it encodes the number that run holds there.
proof fn lemma_word_back(data: Seq<u8>, i: int, b: Seq<u8>, at: int, w: int, x: nat)
    requires
        0 <= i,
        0 <= at,
        0 <= w,
        at + w <= b.len(),
        i + b.len() <= data.len(),
        x == le_value(data.subrange(i + at, i + at + w)),
        chunk(b, at, w) == le_bytes(x, w as nat),
    ensures
        chunk(b, at, w) == chunk(data.subrange(i, i + b.len()), at, w),
{
    lemma_bytes_of_value(data.subrange(i + at, i + at + w));
    assert(chunk(data.subrange(i, i + b.len()), at, w) =~= data.subrange(i + at, i + at + w));
}

/// Two runs made of `k` words of `w` bytes that agree word by word are equal.
proof fn lemma_cover(b: Seq<u8>, d: Seq<u8>, w: int, k: int)
    requires
        w > 0,
        k >= 0,
        b.len() == w * k,
        d.len() == w * k,
        forall|q: int| 0 <= q < k ==> #[trigger] chunk(b, w * q, w) == chunk(d, w * q, w),
    ensures
        b == d,
{
    assert forall|p: int| 0 <= p < b.len() implies b[p] == d[p] by {
        let q = p / w;
        let j = p % w;
        vstd::arithmetic::div_mod::lemma_fundamental_div_mod(p, w);
        assert(0 <= j < w) by (nonlinear_arith)
            requires
                j == p % w,
                w > 0,
        ;
        assert(0 <= q < k) by (nonlinear_arith)
            requires
                p == w * q + j,
                0 <= j < w,
                0 <= p < w * k,
                w > 0,
        ;
        assert(w * q + w <= w * k) by (nonlinear_arith)
            requires
                q < k,
                w > 0,
        ;
        assert(chunk(b, w * q, w)[j] == b[p]);
        assert(chunk(d, w * q, w)[j] == d[p]);
    }
    assert(b =~= d);
}

proof fn lemma_u32_of_i32(x: u32)
    ensures
        (x as i32) as u32 == x,
{
    assert((x as i32) as u32 == x) by (bit_vector);
}

proof fn lemma_u64_of_i64(x: u64)
    ensures
        (x as i64) as u64 == x,
{
    assert((x as i64) as u64 == x) by (bit_vector);
}

/// Storing with `put_array`, at the same offset, an array that `get_array`
/// read there leaves every byte of memory as it was.
#[verifier::rlimit(60)]
pub proof fn law_get_then_put(data: Seq<u8>, i: int, a: TypedArray, b: Seq<u8>)
    requires
        0 <= i,
        i + array_size(a) <= data.len(),
        decodes(data, i, array_len(a) as int, a),
        encodes(b, a),
    ensures
        overwrite(data, i, b) == data,
{
    let d = data.subrange(i, i + b.len());
    lemma_pow256_8();
    match a {
        TypedArray::Bytes(v) => {},
        TypedArray::Int32(v) => {
            assert forall|q: int| 0 <= q < v@.len() implies #[trigger] chunk(b, 4 * q, 4) == chunk(d, 4 * q, 4) by {
                let c = comp(data, i, 4, q);
                lemma_le_value_bound(data.subrange(i + 4 * q, i + 4 * q + 4));
                lemma_u32_of_i32(c as u32);
                assert(v@[q] == (c as u32) as i32);
                assert(v@[q] as u32 == c as u32);
                assert((c as u32) as nat == c);
                assert(chunk(b, 4 * q, 4) == le_bytes(v@[q] as u32 as nat, 4));
                lemma_word_back(data, i, b, 4 * q, 4, c);
            }
            lemma_cover(b, d, 4, v@.len() as int);
        },
        TypedArray::Int64(v) => {
            assert forall|q: int| 0 <= q < v@.len() implies #[trigger] chunk(b, 8 * q, 8) == chunk(d, 8 * q, 8) by {
                let c = comp(data, i, 8, q);
                lemma_le_value_bound(data.subrange(i + 8 * q, i + 8 * q + 8));
                lemma_u64_of_i64(c as u64);
                assert(v@[q] == (c as u64) as i64);
                assert(v@[q] as u64 == c as u64);
                assert((c as u64) as nat == c);
                assert(chunk(b, 8 * q, 8) == le_bytes(v@[q] as u64 as nat, 8));
                lemma_word_back(data, i, b, 8 * q, 8, c);
            }
            lemma_cover(b, d, 8, v@.len() as int);
        },
        TypedArray::Float32(v) => {
            assert forall|q: int| 0 <= q < v@.len() implies #[trigger] chunk(b, 4 * q, 4) == chunk(d, 4 * q, 4) by {
                assert(v@[q] as nat == comp(data, i, 4, q));
                assert(chunk(b, 4 * q, 4) == le_bytes(v@[q] as nat, 4));
                lemma_word_back(data, i, b, 4 * q, 4, comp(data, i, 4, q));
            }
            lemma_cover(b, d, 4, v@.len() as int);
        },
        TypedArray::Float64(v) => {
            assert forall|q: int| 0 <= q < v@.len() implies #[trigger] chunk(b, 8 * q, 8) == chunk(d, 8 * q, 8) by {
                assert(v@[q] as nat == comp(data, i, 8, q));
                assert(chunk(b, 8 * q, 8) == le_bytes(v@[q] as nat, 8));
                lemma_word_back(data, i, b, 8 * q, 8, comp(data, i, 8, q));
            }
            lemma_cover(b, d, 8, v@.len() as int);
        },
        TypedArray::Vector2(v) => {
            assert forall|q: int| 0 <= q < 2 * v@.len() implies #[trigger] chunk(b, 4 * q, 4) == chunk(d, 4 * q, 4) by {
                let e = q / 2;
                assert(0 <= e < v@.len());
                let x = v@[e];
                assert(x.x == comp(data, i, 4, 2 * e) && x.y == comp(data, i, 4, 2 * e + 1));
                assert(chunk(b, 8 * e, 4) == le_bytes(x.x as nat, 4) && chunk(b, 8 * e + 4, 4) == le_bytes(
                    x.y as nat,
                    4,
                ));
                if q % 2 == 0 {
                    assert(q == 2 * e);
                } else {
                    assert(q == 2 * e + 1);
                }
                lemma_word_back(data, i, b, 4 * q, 4, comp(data, i, 4, q));
            }
            lemma_cover(b, d, 4, (2 * v@.len()) as int);
        },
        TypedArray::Vector3(v) => {
            assert forall|q: int| 0 <= q < 3 * v@.len() implies #[trigger] chunk(b, 4 * q, 4) == chunk(d, 4 * q, 4) by {
                let e = q / 3;
                assert(0 <= e < v@.len());
                let x = v@[e];
                assert(x.x == comp(data, i, 4, 3 * e) && x.y == comp(data, i, 4, 3 * e + 1) && x.z == comp(
                    data,
                    i,
                    4,
                    3 * e + 2,
                ));
                assert(chunk(b, 12 * e, 4) == le_bytes(x.x as nat, 4) && chunk(b, 12 * e + 4, 4) == le_bytes(
                    x.y as nat,
                    4,
                ) && chunk(b, 12 * e + 8, 4) == le_bytes(x.z as nat, 4));
                if q % 3 == 0 {
                    assert(q == 3 * e);
                } else if q % 3 == 1 {
                    assert(q == 3 * e + 1);
                } else {
                    assert(q == 3 * e + 2);
                }
                lemma_word_back(data, i, b, 4 * q, 4, comp(data, i, 4, q));
            }
            lemma_cover(b, d, 4, (3 * v@.len()) as int);
        },
        TypedArray::Color(v) => {
            assert forall|q: int| 0 <= q < 4 * v@.len() implies #[trigger] chunk(b, 4 * q, 4) == chunk(d, 4 * q, 4) by {
                let e = q / 4;
                assert(0 <= e < v@.len());
                let x = v@[e];
                assert(x.r == comp(data, i, 4, 4 * e) && x.g == comp(data, i, 4, 4 * e + 1) && x.b == comp(
                    data,
                    i,
                    4,
                    4 * e + 2,
                ) && x.a == comp(data, i, 4, 4 * e + 3));
                assert(chunk(b, 16 * e, 4) == le_bytes(x.r as nat, 4) && chunk(b, 16 * e + 4, 4) == le_bytes(
                    x.g as nat,
                    4,
                ) && chunk(b, 16 * e + 8, 4) == le_bytes(x.b as nat, 4) && chunk(b, 16 * e + 12, 4)
                    == le_bytes(x.a as nat, 4));
                if q % 4 == 0 {
                    assert(q == 4 * e);
                } else if q % 4 == 1 {
                    assert(q == 4 * e + 1);
                } else if q % 4 == 2 {
                    assert(q == 4 * e + 2);
                } else {
                    assert(q == 4 * e + 3);
                }
                lemma_word_back(data, i, b, 4 * q, 4, comp(data, i, 4, q));
            }
            lemma_cover(b, d, 4, (4 * v@.len()) as int);
        },
    }
    assert(overwrite(data, i, b) =~= data);
}

} // verus!
