//! Byte-level building blocks of the wire formats: little-endian integers and
//! the variable-length encoding that bincode's standard configuration uses.
//!
//! A reader is described by a function from the bytes still to be read to the
//! value and the bytes left over. A writer is described by the bytes it adds.

use vstd::prelude::*;
use vstd::slice::slice_subrange;
use vstd::utf8::{decode_utf8, encode_utf8, valid_utf8};

verus! {

/// The `width` bytes of `n` in little-endian order.
pub open spec fn le_bytes(n: nat, width: nat) -> Seq<u8>
    decreases width,
{
    if width == 0 {
        Seq::empty()
    } else {
        seq![(n % 256) as u8] + le_bytes(n / 256, (width - 1) as nat)
    }
}

/// The number that a little-endian byte sequence stands for.
pub open spec fn le_value(s: Seq<u8>) -> nat
    decreases s.len(),
{
    if s.len() == 0 {
        0
    } else {
        s[0] as nat + 256 * le_value(s.drop_first())
    }
}

/// `256` to the power of `width`: one more than the largest number of that width.
pub open spec fn le_bound(width: nat) -> nat
    decreases width,
{
    if width == 0 {
        1
    } else {
        256 * le_bound((width - 1) as nat)
    }
}

/// Writing a number and reading it back gives the number, if it fits the width.
pub proof fn lemma_le_round_trip(n: nat, width: nat)
    requires
        n < le_bound(width),
    ensures
        le_bytes(n, width).len() == width,
        le_value(le_bytes(n, width)) == n,
    decreases width,
{
    if width > 0 {
        let w = (width - 1) as nat;
        lemma_le_round_trip(n / 256, w);
        assert(le_bytes(n, width).drop_first() =~= le_bytes(n / 256, w));
    }
}

/// A little-endian number is smaller than the bound of its width.
pub proof fn lemma_le_value_bound(s: Seq<u8>)
    ensures
        le_value(s) < le_bound(s.len()),
    decreases s.len(),
{
    if s.len() > 0 {
        lemma_le_value_bound(s.drop_first());
    }
}

/// The bounds of the integer widths that the formats use.
pub proof fn lemma_le_bounds()
    ensures
        le_bound(1) == 0x100,
        le_bound(2) == 0x1_0000,
        le_bound(4) == 0x1_0000_0000,
        le_bound(8) == 0x1_0000_0000_0000_0000,
{
    reveal_with_fuel(le_bound, 9);
}

pub proof fn lemma_le_bytes_len(n: nat, width: nat)
    ensures
        le_bytes(n, width).len() == width,
    decreases width,
{
    if width > 0 {
        lemma_le_bytes_len(n / 256, (width - 1) as nat);
    }
}

/// Appends `width` bytes of `n`, lowest byte first.
pub fn put_le(out: &mut Vec<u8>, n: u64, width: usize)
    ensures
        final(out)@ == old(out)@ + le_bytes(n as nat, width as nat),
{
    let mut rest: u64 = n;
    let mut left: usize = width;
    while left > 0
        invariant
            left <= width,
            out@ + le_bytes(rest as nat, left as nat) == old(out)@ + le_bytes(
                n as nat,
                width as nat,
            ),
        decreases left,
    {
        let ghost before = out@;
        let low: u8 = (rest % 256) as u8;
        out.push(low);
        proof {
            assert(before + (seq![low] + le_bytes(rest as nat / 256, (left - 1) as nat))
                =~= before.push(low) + le_bytes(rest as nat / 256, (left - 1) as nat));
        }
        rest = rest / 256;
        left = left - 1;
    }
    assert(out@ + le_bytes(rest as nat, 0) =~= out@);
}

/// Reads `width` bytes at `at` as a little-endian number.
pub fn get_le(input: &[u8], at: usize, width: usize) -> (n: u64)
    requires
        width <= 8,
        at + width <= input@.len(),
    ensures
        n as nat == le_value(input@.subrange(at as int, at + width)),
{
    let total: usize = input.len();
    let mut n: u64 = 0;
    let mut i: usize = width;
    proof {
        assert(input@.subrange(at + width, at + width) =~= Seq::<u8>::empty());
    }
    while i > 0
        invariant
            i <= width <= 8,
            at + width <= total == input@.len(),
            n as nat == le_value(input@.subrange(at + i, at + width)),
        decreases i,
    {
        let ghost tail = input@.subrange(at + i, at + width);
        i = i - 1;
        proof {
            let whole = input@.subrange(at + i, at + width);
            assert(whole.drop_first() =~= tail);
            lemma_le_value_bound(tail);
            reveal_with_fuel(le_bound, 9);
        }
        n = input[at + i] as u64 + 256 * n;
    }
    n
}

/// Takes a fixed-width little-endian number off the front of `s`.
pub open spec fn dec_le(s: Seq<u8>, width: nat) -> Option<(nat, Seq<u8>)> {
    if s.len() < width {
        None
    } else {
        Some((le_value(s.take(width as int)), s.skip(width as int)))
    }
}

/// bincode's variable-length form of an unsigned number: one byte up to 250,
/// else a marker byte followed by two, four or eight little-endian bytes.
pub open spec fn varint(n: nat) -> Seq<u8> {
    if n <= 250 {
        seq![n as u8]
    } else if n < 0x1_0000 {
        seq![251u8] + le_bytes(n, 2)
    } else if n < 0x1_0000_0000 {
        seq![252u8] + le_bytes(n, 4)
    } else {
        seq![253u8] + le_bytes(n, 8)
    }
}

/// Takes a variable-length unsigned number of at most `width` bytes off `s`.
pub open spec fn dec_varint(s: Seq<u8>, width: nat) -> Option<(nat, Seq<u8>)> {
    if s.len() == 0 {
        None
    } else if s[0] <= 250 {
        Some((s[0] as nat, s.skip(1)))
    } else if s[0] == 251 {
        dec_le(s.skip(1), 2)
    } else if s[0] == 252 && width >= 4 {
        dec_le(s.skip(1), 4)
    } else if s[0] == 253 && width >= 8 {
        dec_le(s.skip(1), 8)
    } else {
        None
    }
}

/// The unsigned number under which bincode stores a signed one.
pub open spec fn zigzag(v: int) -> nat {
    if v < 0 {
        (-2 * v - 1) as nat
    } else {
        (2 * v) as nat
    }
}

/// The signed number that `zigzag` stores as `n`.
pub open spec fn unzigzag(n: nat) -> int {
    if n % 2 == 0 {
        (n / 2) as int
    } else {
        -((n / 2) as int) - 1
    }
}

/// Reading a number just written gives the number and what followed it.
pub proof fn lemma_le_read(n: nat, width: nat, tail: Seq<u8>)
    requires
        n < le_bound(width),
    ensures
        dec_le(le_bytes(n, width) + tail, width) == Some((n, tail)),
{
    lemma_le_round_trip(n, width);
    let s = le_bytes(n, width) + tail;
    assert(s.take(width as int) =~= le_bytes(n, width));
    assert(s.skip(width as int) =~= tail);
}

/// Reading a variable-length number just written gives the number and what followed it.
pub proof fn lemma_varint_read(n: nat, width: nat, tail: Seq<u8>)
    requires
        width == 2 || width == 4 || width == 8,
        n < le_bound(width),
    ensures
        dec_varint(varint(n) + tail, width) == Some((n, tail)),
        varint(n).len() >= 1,
{
    lemma_le_bounds();
    let s = varint(n) + tail;
    if n <= 250 {
        assert(s.skip(1) =~= tail);
    } else {
        let w: nat = if n < 0x1_0000 {
            2
        } else if n < 0x1_0000_0000 {
            4
        } else {
            8
        };
        assert(s.skip(1) =~= le_bytes(n, w) + tail);
        lemma_le_read(n, w, tail);
    }
}

/// A reader's outcome `r` on `input` agrees with what its description says:
/// the same value, and the position at which the left-over bytes begin.
pub open spec fn reads<T>(
    r: Option<(T, usize)>,
    input: Seq<u8>,
    described: Option<(T, Seq<u8>)>,
) -> bool {
    match described {
        Some((v, rest)) => r matches Some((x, at)) && x == v && at <= input.len() && rest
            == input.skip(at as int),
        None => r is None,
    }
}

// ---------------------------------------------------------------------------
// bincode
// ---------------------------------------------------------------------------

/// `bincode::serde::encode_to_vec` of an unsigned number under
/// `bincode::config::standard()`: the variable-length form. bincode writes a
/// `u16`, `u32` or `usize` exactly as it writes the same number as a `u64`.
#[verifier::external_body]
fn bincode_encode_u64(v: u64) -> (r: Vec<u8>)
    ensures
        r@ == varint(v as nat),
{
    bincode::serde::encode_to_vec(v, bincode::config::standard()).expect("bincode encode")
}

/// `bincode::serde::encode_to_vec` of a signed number under
/// `bincode::config::standard()`: the variable-length form of its zigzag
/// number. bincode writes an `i16` or `i32` exactly as the same `i64`.
#[verifier::external_body]
fn bincode_encode_i64(v: i64) -> (r: Vec<u8>)
    ensures
        r@ == varint(zigzag(v as int)),
{
    bincode::serde::encode_to_vec(v, bincode::config::standard()).expect("bincode encode")
}

/// `bincode::serde::encode_to_vec` of a string under
/// `bincode::config::standard()`: its length in bytes, then its UTF-8 bytes.
#[verifier::external_body]
fn bincode_encode_str(v: &str) -> (r: Vec<u8>)
    ensures
        r@ == varint(encode_utf8(v@).len()) + encode_utf8(v@),
{
    bincode::serde::encode_to_vec(v, bincode::config::standard()).expect("bincode encode")
}

/// `bincode::serde::decode_from_slice` to a `u16` under
/// `bincode::config::standard()`: a variable-length number of at most two
/// bytes, with the number of bytes it took. Bytes behind it are not looked at.
#[verifier::external_body]
fn bincode_decode_u16(input: &[u8]) -> (r: Option<(u16, usize)>)
    ensures
        reads(
            r,
            input@,
            match dec_varint(input@, 2) {
                Some((n, rest)) => Some((n as u16, rest)),
                None => None,
            },
        ),
{
    bincode::serde::decode_from_slice(input, bincode::config::standard()).ok()
}

/// `bincode::serde::decode_from_slice` to a `u32` under
/// `bincode::config::standard()`: a variable-length number of at most four
/// bytes, with the number of bytes it took. Bytes behind it are not looked at.
#[verifier::external_body]
fn bincode_decode_u32(input: &[u8]) -> (r: Option<(u32, usize)>)
    ensures
        reads(
            r,
            input@,
            match dec_varint(input@, 4) {
                Some((n, rest)) => Some((n as u32, rest)),
                None => None,
            },
        ),
{
    bincode::serde::decode_from_slice(input, bincode::config::standard()).ok()
}

/// `bincode::serde::decode_from_slice` to a `u64` under
/// `bincode::config::standard()`: a variable-length number of at most eight
/// bytes, with the number of bytes it took. Bytes behind it are not looked at.
#[verifier::external_body]
fn bincode_decode_u64(input: &[u8]) -> (r: Option<(u64, usize)>)
    ensures
        reads(
            r,
            input@,
            match dec_varint(input@, 8) {
                Some((n, rest)) => Some((n as u64, rest)),
                None => None,
            },
        ),
{
    bincode::serde::decode_from_slice(input, bincode::config::standard()).ok()
}

/// `bincode::serde::decode_from_slice` to an `i16` under
/// `bincode::config::standard()`: the signed number whose zigzag number is
/// stored in variable length, with the number of bytes it took.
#[verifier::external_body]
fn bincode_decode_i16(input: &[u8]) -> (r: Option<(i16, usize)>)
    ensures
        reads(
            r,
            input@,
            match dec_varint(input@, 2) {
                Some((n, rest)) => Some((unzigzag(n) as i16, rest)),
                None => None,
            },
        ),
{
    bincode::serde::decode_from_slice(input, bincode::config::standard()).ok()
}

/// `bincode::serde::decode_from_slice` to an `i32` under
/// `bincode::config::standard()`: the signed number whose zigzag number is
/// stored in variable length, with the number of bytes it took.
#[verifier::external_body]
fn bincode_decode_i32(input: &[u8]) -> (r: Option<(i32, usize)>)
    ensures
        reads(
            r,
            input@,
            match dec_varint(input@, 4) {
                Some((n, rest)) => Some((unzigzag(n) as i32, rest)),
                None => None,
            },
        ),
{
    bincode::serde::decode_from_slice(input, bincode::config::standard()).ok()
}

/// `bincode::serde::decode_from_slice` to a `String` under
/// `bincode::config::standard()`: a length, then that many bytes, which must be
/// UTF-8. bincode allocates the announced length before it reads, so the bytes
/// must be there.
#[verifier::external_body]
fn bincode_decode_string(input: &[u8]) -> (r: Option<(String, usize)>)
    requires
        dec_bytes(input@) is Some,
    ensures
        reads(
            match r {
                Some((v, n)) => Some((v@, n)),
                None => None,
            },
            input@,
            dec_str(input@),
        ),
{
    bincode::serde::decode_from_slice(input, bincode::config::standard()).ok()
}

// ---------------------------------------------------------------------------
// Values
// ---------------------------------------------------------------------------

/// A value with a place in the bincode wire format.
///
/// `enc` and `dec` describe the format on the value's model: `enc` gives the
/// bytes of a value, `dec` takes a value off the front of a byte sequence.
pub trait Wire: Sized {
    type Model;

    spec fn model(&self) -> Self::Model;

    spec fn enc(m: Self::Model) -> Seq<u8>;

    spec fn dec(s: Seq<u8>) -> Option<(Self::Model, Seq<u8>)>;

    /// Reading a value just written gives the value and what followed it.
    proof fn round_trip(m: Self::Model, tail: Seq<u8>)
        requires
            Self::enc(m).len() <= u64::MAX,
        ensures
            Self::dec(Self::enc(m) + tail) == Some((m, tail)),
    ;

    /// Every value takes at least one byte.
    proof fn takes_a_byte(m: Self::Model)
        ensures
            Self::enc(m).len() >= 1,
    ;

    /// Appends the value.
    fn put(&self, out: &mut Vec<u8>)
        ensures
            final(out)@ == old(out)@ + Self::enc(self.model()),
    ;

    /// Reads a value at `at`; gives it with the position behind it.
    fn get(input: &[u8], at: usize) -> (r: Option<(Self, usize)>)
        requires
            at <= input@.len(),
        ensures
            reads(
                match r {
                    Some((v, n)) => Some((v.model(), n)),
                    None => None,
                },
                input@,
                Self::dec(input@.skip(at as int)),
            ),
    ;
}

impl Wire for u8 {
    type Model = u8;

    open spec fn model(&self) -> u8 {
        *self
    }

    open spec fn enc(m: u8) -> Seq<u8> {
        seq![m]
    }

    open spec fn dec(s: Seq<u8>) -> Option<(u8, Seq<u8>)> {
        if s.len() == 0 {
            None
        } else {
            Some((s[0], s.skip(1)))
        }
    }

    proof fn round_trip(m: u8, tail: Seq<u8>) {
        assert((seq![m] + tail).skip(1) =~= tail);
    }

    proof fn takes_a_byte(m: u8) {
    }

    fn put(&self, out: &mut Vec<u8>) {
        out.push(*self);
    }

    fn get(input: &[u8], at: usize) -> (r: Option<(u8, usize)>) {
        if at < input.len() {
            assert(input@.skip(at as int).skip(1) =~= input@.skip(at + 1));
            Some((input[at], at + 1))
        } else {
            None
        }
    }
}

impl Wire for bool {
    type Model = bool;

    open spec fn model(&self) -> bool {
        *self
    }

    open spec fn enc(m: bool) -> Seq<u8> {
        if m {
            seq![1u8]
        } else {
            seq![0u8]
        }
    }

    open spec fn dec(s: Seq<u8>) -> Option<(bool, Seq<u8>)> {
        if s.len() == 0 || s[0] > 1 {
            None
        } else {
            Some((s[0] == 1, s.skip(1)))
        }
    }

    proof fn round_trip(m: bool, tail: Seq<u8>) {
        assert((Self::enc(m) + tail).skip(1) =~= tail);
    }

    proof fn takes_a_byte(m: bool) {
    }

    fn put(&self, out: &mut Vec<u8>) {
        if *self {
            out.push(1);
        } else {
            out.push(0);
        }
    }

    fn get(input: &[u8], at: usize) -> (r: Option<(bool, usize)>) {
        if at < input.len() && input[at] <= 1 {
            assert(input@.skip(at as int).skip(1) =~= input@.skip(at + 1));
            Some((input[at] == 1, at + 1))
        } else {
            None
        }
    }
}

impl Wire for u16 {
    type Model = u16;

    open spec fn model(&self) -> u16 {
        *self
    }

    open spec fn enc(m: u16) -> Seq<u8> {
        varint(m as nat)
    }

    open spec fn dec(s: Seq<u8>) -> Option<(u16, Seq<u8>)> {
        match dec_varint(s, 2) {
            Some((n, rest)) => Some((n as u16, rest)),
            None => None,
        }
    }

    proof fn round_trip(m: u16, tail: Seq<u8>) {
        lemma_le_bounds();
        lemma_varint_read(m as nat, 2, tail);
    }

    proof fn takes_a_byte(m: u16) {
        lemma_varint_len(m as nat);
    }

    fn put(&self, out: &mut Vec<u8>) {
        let b = bincode_encode_u64(*self as u64);
        out.extend_from_slice(b.as_slice());
        assert(out@ =~= old(out)@ + Self::enc(self.model()));
    }

    fn get(input: &[u8], at: usize) -> (r: Option<(u16, usize)>) {
        let tail = slice_subrange(input, at, input.len());
        assert(tail@ =~= input@.skip(at as int));
        let got = bincode_decode_u16(tail);
        proof {
            lemma_reads_shift(got, input@, at as int, Self::dec(input@.skip(at as int)));
        }
        match got {
            Some((v, n)) => Some((v, n + at)),
            None => None,
        }
    }
}

impl Wire for u32 {
    type Model = u32;

    open spec fn model(&self) -> u32 {
        *self
    }

    open spec fn enc(m: u32) -> Seq<u8> {
        varint(m as nat)
    }

    open spec fn dec(s: Seq<u8>) -> Option<(u32, Seq<u8>)> {
        match dec_varint(s, 4) {
            Some((n, rest)) => Some((n as u32, rest)),
            None => None,
        }
    }

    proof fn round_trip(m: u32, tail: Seq<u8>) {
        lemma_le_bounds();
        lemma_varint_read(m as nat, 4, tail);
    }

    proof fn takes_a_byte(m: u32) {
        lemma_varint_len(m as nat);
    }

    fn put(&self, out: &mut Vec<u8>) {
        let b = bincode_encode_u64(*self as u64);
        out.extend_from_slice(b.as_slice());
        assert(out@ =~= old(out)@ + Self::enc(self.model()));
    }

    fn get(input: &[u8], at: usize) -> (r: Option<(u32, usize)>) {
        let tail = slice_subrange(input, at, input.len());
        assert(tail@ =~= input@.skip(at as int));
        let got = bincode_decode_u32(tail);
        proof {
            lemma_reads_shift(got, input@, at as int, Self::dec(input@.skip(at as int)));
        }
        match got {
            Some((v, n)) => Some((v, n + at)),
            None => None,
        }
    }
}

impl Wire for u64 {
    type Model = u64;

    open spec fn model(&self) -> u64 {
        *self
    }

    open spec fn enc(m: u64) -> Seq<u8> {
        varint(m as nat)
    }

    open spec fn dec(s: Seq<u8>) -> Option<(u64, Seq<u8>)> {
        match dec_varint(s, 8) {
            Some((n, rest)) => Some((n as u64, rest)),
            None => None,
        }
    }

    proof fn round_trip(m: u64, tail: Seq<u8>) {
        lemma_le_bounds();
        lemma_varint_read(m as nat, 8, tail);
    }

    proof fn takes_a_byte(m: u64) {
        lemma_varint_len(m as nat);
    }

    fn put(&self, out: &mut Vec<u8>) {
        let b = bincode_encode_u64(*self as u64);
        out.extend_from_slice(b.as_slice());
        assert(out@ =~= old(out)@ + Self::enc(self.model()));
    }

    fn get(input: &[u8], at: usize) -> (r: Option<(u64, usize)>) {
        let tail = slice_subrange(input, at, input.len());
        assert(tail@ =~= input@.skip(at as int));
        let got = bincode_decode_u64(tail);
        proof {
            lemma_reads_shift(got, input@, at as int, Self::dec(input@.skip(at as int)));
        }
        match got {
            Some((v, n)) => Some((v, n + at)),
            None => None,
        }
    }
}

impl Wire for i16 {
    type Model = i16;

    open spec fn model(&self) -> i16 {
        *self
    }

    open spec fn enc(m: i16) -> Seq<u8> {
        varint(zigzag(m as int))
    }

    open spec fn dec(s: Seq<u8>) -> Option<(i16, Seq<u8>)> {
        match dec_varint(s, 2) {
            Some((n, rest)) => Some((unzigzag(n) as i16, rest)),
            None => None,
        }
    }

    proof fn round_trip(m: i16, tail: Seq<u8>) {
        lemma_le_bounds();
        lemma_varint_read(zigzag(m as int), 2, tail);
    }

    proof fn takes_a_byte(m: i16) {
        lemma_varint_len(zigzag(m as int));
    }

    fn put(&self, out: &mut Vec<u8>) {
        let b = bincode_encode_i64(*self as i64);
        out.extend_from_slice(b.as_slice());
        assert(out@ =~= old(out)@ + Self::enc(self.model()));
    }

    fn get(input: &[u8], at: usize) -> (r: Option<(i16, usize)>) {
        let tail = slice_subrange(input, at, input.len());
        assert(tail@ =~= input@.skip(at as int));
        let got = bincode_decode_i16(tail);
        proof {
            lemma_reads_shift(got, input@, at as int, Self::dec(input@.skip(at as int)));
        }
        match got {
            Some((v, n)) => Some((v, n + at)),
            None => None,
        }
    }
}

impl Wire for i32 {
    type Model = i32;

    open spec fn model(&self) -> i32 {
        *self
    }

    open spec fn enc(m: i32) -> Seq<u8> {
        varint(zigzag(m as int))
    }

    open spec fn dec(s: Seq<u8>) -> Option<(i32, Seq<u8>)> {
        match dec_varint(s, 4) {
            Some((n, rest)) => Some((unzigzag(n) as i32, rest)),
            None => None,
        }
    }

    proof fn round_trip(m: i32, tail: Seq<u8>) {
        lemma_le_bounds();
        lemma_varint_read(zigzag(m as int), 4, tail);
    }

    proof fn takes_a_byte(m: i32) {
        lemma_varint_len(zigzag(m as int));
    }

    fn put(&self, out: &mut Vec<u8>) {
        let b = bincode_encode_i64(*self as i64);
        out.extend_from_slice(b.as_slice());
        assert(out@ =~= old(out)@ + Self::enc(self.model()));
    }

    fn get(input: &[u8], at: usize) -> (r: Option<(i32, usize)>) {
        let tail = slice_subrange(input, at, input.len());
        assert(tail@ =~= input@.skip(at as int));
        let got = bincode_decode_i32(tail);
        proof {
            lemma_reads_shift(got, input@, at as int, Self::dec(input@.skip(at as int)));
        }
        match got {
            Some((v, n)) => Some((v, n + at)),
            None => None,
        }
    }
}

/// A variable-length number takes between one and nine bytes.
pub proof fn lemma_varint_len(n: nat)
    ensures
        1 <= varint(n).len() <= 9,
{
    lemma_le_bytes_len(n, 2);
    lemma_le_bytes_len(n, 4);
    lemma_le_bytes_len(n, 8);
}

/// Moves a reader's outcome on a tail of the input to the whole input.
proof fn lemma_reads_shift<T>(
    r: Option<(T, usize)>,
    input: Seq<u8>,
    at: int,
    described: Option<(T, Seq<u8>)>,
)
    requires
        0 <= at <= input.len() <= usize::MAX,
        reads(r, input.skip(at), described),
    ensures
        r matches Some((v, n)) ==> n + at <= input.len() && reads(
            Some((v, (n + at) as usize)),
            input,
            described,
        ),
        r is None ==> described is None,
{
    if let Some((v, n)) = r {
        assert(input.skip(at).skip(n as int) =~= input.skip(n + at));
    }
}

/// The 32 bits of a single-precision number, stored as four bytes.
#[derive(Clone, Copy, Debug, PartialEq, Eq, Structural)]
pub struct Bits32(pub u32);

impl Wire for Bits32 {
    type Model = Bits32;

    open spec fn model(&self) -> Bits32 {
        *self
    }

    open spec fn enc(m: Bits32) -> Seq<u8> {
        le_bytes(m.0 as nat, 4)
    }

    open spec fn dec(s: Seq<u8>) -> Option<(Bits32, Seq<u8>)> {
        match dec_le(s, 4) {
            Some((n, rest)) => Some((Bits32(n as u32), rest)),
            None => None,
        }
    }

    proof fn round_trip(m: Bits32, tail: Seq<u8>) {
        lemma_le_bounds();
        lemma_le_read(m.0 as nat, 4, tail);
    }

    proof fn takes_a_byte(m: Bits32) {
        lemma_le_bytes_len(m.0 as nat, 4);
    }

    fn put(&self, out: &mut Vec<u8>) {
        put_le(out, self.0 as u64, 4);
    }

    fn get(input: &[u8], at: usize) -> (r: Option<(Bits32, usize)>) {
        if input.len() - at < 4 {
            return None;
        }
        let n = get_le(input, at, 4);
        proof {
            assert(input@.skip(at as int).take(4) =~= input@.subrange(at as int, at + 4));
            assert(input@.skip(at as int).skip(4) =~= input@.skip(at + 4));
            lemma_le_value_bound(input@.subrange(at as int, at + 4));
            lemma_le_bounds();
        }
        Some((Bits32(n as u32), at + 4))
    }
}

/// A byte sequence behind its length.
pub open spec fn enc_bytes(b: Seq<u8>) -> Seq<u8> {
    varint(b.len()) + b
}

pub open spec fn dec_bytes(s: Seq<u8>) -> Option<(Seq<u8>, Seq<u8>)> {
    match dec_varint(s, 8) {
        Some((n, rest)) => if n <= rest.len() {
            Some((rest.take(n as int), rest.skip(n as int)))
        } else {
            None
        },
        None => None,
    }
}

pub open spec fn dec_str(s: Seq<u8>) -> Option<(Seq<char>, Seq<u8>)> {
    match dec_bytes(s) {
        Some((b, rest)) => if valid_utf8(b) {
            Some((decode_utf8(b), rest))
        } else {
            None
        },
        None => None,
    }
}

proof fn lemma_bytes_read(b: Seq<u8>, tail: Seq<u8>)
    requires
        b.len() <= u64::MAX,
    ensures
        dec_bytes(enc_bytes(b) + tail) == Some((b, tail)),
{
    lemma_le_bounds();
    assert(enc_bytes(b) + tail =~= varint(b.len()) + (b + tail));
    lemma_varint_read(b.len(), 8, b + tail);
    assert((b + tail).take(b.len() as int) =~= b);
    assert((b + tail).skip(b.len() as int) =~= tail);
}

/// A number read at full width is the number stored.
proof fn lemma_dec_u64_exact(s: Seq<u8>)
    ensures
        dec_varint(s, 8) matches Some((n, rest)) ==> u64::dec(s) == Some((n as u64, rest)) && n
            <= u64::MAX,
{
    if dec_varint(s, 8) is Some {
        lemma_le_bounds();
        let t = s.skip(1);
        if s[0] == 251 {
            lemma_le_value_bound(t.take(2));
        } else if s[0] == 252 {
            lemma_le_value_bound(t.take(4));
        } else if s[0] == 253 {
            lemma_le_value_bound(t.take(8));
        }
    }
}

impl Wire for Vec<u8> {
    type Model = Seq<u8>;

    open spec fn model(&self) -> Seq<u8> {
        self@
    }

    open spec fn enc(m: Seq<u8>) -> Seq<u8> {
        enc_bytes(m)
    }

    open spec fn dec(s: Seq<u8>) -> Option<(Seq<u8>, Seq<u8>)> {
        dec_bytes(s)
    }

    proof fn round_trip(m: Seq<u8>, tail: Seq<u8>) {
        lemma_bytes_read(m, tail);
    }

    proof fn takes_a_byte(m: Seq<u8>) {
        lemma_varint_len(m.len());
    }

    fn put(&self, out: &mut Vec<u8>) {
        (self.len() as u64).put(out);
        out.extend_from_slice(self.as_slice());
        assert(out@ =~= old(out)@ + enc_bytes(self@));
    }

    fn get(input: &[u8], at: usize) -> (r: Option<(Vec<u8>, usize)>) {
        let (len, start): (u64, usize) = match u64::get(input, at) {
            Some(x) => x,
            None => return None,
        };
        proof {
            lemma_dec_u64_exact(input@.skip(at as int));
        }
        if len > (input.len() - start) as u64 {
            return None;
        }
        let end: usize = start + len as usize;
        let data = slice_to_vec(slice_subrange(input, start, end));
        proof {
            assert(input@.skip(start as int).take(len as int) =~= data@);
            assert(input@.skip(start as int).skip(len as int) =~= input@.skip(end as int));
        }
        Some((data, end))
    }
}

/// A copy of a byte slice.
pub fn slice_to_vec(s: &[u8]) -> (v: Vec<u8>)
    ensures
        v@ == s@,
{
    let mut v: Vec<u8> = Vec::new();
    v.extend_from_slice(s);
    assert(v@ =~= s@);
    v
}

impl Wire for String {
    type Model = Seq<char>;

    open spec fn model(&self) -> Seq<char> {
        self@
    }

    open spec fn enc(m: Seq<char>) -> Seq<u8> {
        enc_bytes(encode_utf8(m))
    }

    open spec fn dec(s: Seq<u8>) -> Option<(Seq<char>, Seq<u8>)> {
        dec_str(s)
    }

    proof fn round_trip(m: Seq<char>, tail: Seq<u8>) {
        lemma_bytes_read(encode_utf8(m), tail);
        vstd::utf8::encode_utf8_valid_utf8(m);
        vstd::utf8::encode_utf8_decode_utf8(m);
    }

    proof fn takes_a_byte(m: Seq<char>) {
        lemma_varint_len(encode_utf8(m).len());
    }

    fn put(&self, out: &mut Vec<u8>) {
        let b = bincode_encode_str(self.as_str());
        out.extend_from_slice(b.as_slice());
        assert(out@ =~= old(out)@ + Self::enc(self.model()));
    }

    fn get(input: &[u8], at: usize) -> (r: Option<(String, usize)>) {
        let (len, start): (u64, usize) = match u64::get(input, at) {
            Some(x) => x,
            None => return None,
        };
        proof {
            lemma_dec_u64_exact(input@.skip(at as int));
        }
        if len > (input.len() - start) as u64 {
            return None;
        }
        let tail = slice_subrange(input, at, input.len());
        assert(tail@ =~= input@.skip(at as int));
        match bincode_decode_string(tail) {
            Some((text, n)) => {
                assert(input@.skip(at as int).skip(n as int) =~= input@.skip(n + at));
                Some((text, n + at))
            },
            None => None,
        }
    }
}

impl<T: Wire> Wire for Option<T> {
    type Model = Option<T::Model>;

    open spec fn model(&self) -> Option<T::Model> {
        match self {
            Some(v) => Some(v.model()),
            None => None,
        }
    }

    open spec fn enc(m: Option<T::Model>) -> Seq<u8> {
        match m {
            Some(v) => seq![1u8] + T::enc(v),
            None => seq![0u8],
        }
    }

    open spec fn dec(s: Seq<u8>) -> Option<(Option<T::Model>, Seq<u8>)> {
        match bool::dec(s) {
            None => None,
            Some((present, rest)) => if present {
                match T::dec(rest) {
                    None => None,
                    Some((v, rest2)) => Some((Some(v), rest2)),
                }
            } else {
                Some((None, rest))
            },
        }
    }

    proof fn round_trip(m: Option<T::Model>, tail: Seq<u8>) {
        match m {
            None => {
                assert((seq![0u8] + tail).skip(1) =~= tail);
            },
            Some(v) => {
                assert((Self::enc(m) + tail).skip(1) =~= T::enc(v) + tail);
                T::round_trip(v, tail);
            },
        }
    }

    proof fn takes_a_byte(m: Option<T::Model>) {
    }

    fn put(&self, out: &mut Vec<u8>) {
        match self {
            None => {
                out.push(0);
            },
            Some(v) => {
                out.push(1);
                v.put(out);
                assert(out@ =~= old(out)@ + (seq![1u8] + T::enc(v.model())));
            },
        }
    }

    fn get(input: &[u8], at: usize) -> (r: Option<(Option<T>, usize)>) {
        match bool::get(input, at) {
            None => None,
            Some((present, n)) => if present {
                match T::get(input, n) {
                    None => None,
                    Some((v, m)) => Some((Some(v), m)),
                }
            } else {
                Some((None, n))
            },
        }
    }
}

/// Two values, one behind the other.
impl<A: Wire, B: Wire> Wire for (A, B) {
    type Model = (A::Model, B::Model);

    open spec fn model(&self) -> (A::Model, B::Model) {
        (self.0.model(), self.1.model())
    }

    open spec fn enc(m: (A::Model, B::Model)) -> Seq<u8> {
        A::enc(m.0) + B::enc(m.1)
    }

    open spec fn dec(s: Seq<u8>) -> Option<((A::Model, B::Model), Seq<u8>)> {
        match A::dec(s) {
            None => None,
            Some((a, rest)) => match B::dec(rest) {
                None => None,
                Some((b, rest2)) => Some(((a, b), rest2)),
            },
        }
    }

    proof fn round_trip(m: (A::Model, B::Model), tail: Seq<u8>) {
        assert(Self::enc(m) + tail =~= A::enc(m.0) + (B::enc(m.1) + tail));
        A::round_trip(m.0, B::enc(m.1) + tail);
        B::round_trip(m.1, tail);
    }

    proof fn takes_a_byte(m: (A::Model, B::Model)) {
        A::takes_a_byte(m.0);
    }

    fn put(&self, out: &mut Vec<u8>) {
        self.0.put(out);
        self.1.put(out);
        assert(out@ =~= old(out)@ + Self::enc(self.model()));
    }

    fn get(input: &[u8], at: usize) -> (r: Option<((A, B), usize)>) {
        match A::get(input, at) {
            None => None,
            Some((a, n)) => match B::get(input, n) {
                None => None,
                Some((b, m)) => Some(((a, b), m)),
            },
        }
    }
}

/// An enum variant with content: the variant's number, then the content.
#[verifier::opaque]
pub open spec fn enc_variant<T: Wire>(number: u32, m: T::Model) -> Seq<u8> {
    u32::enc(number) + T::enc(m)
}

/// Takes the content of an enum variant off the bytes behind its number.
#[verifier::opaque]
pub open spec fn dec_content<T: Wire>(s: Seq<u8>) -> Option<(T::Model, Seq<u8>)> {
    T::dec(s)
}

/// Reading an enum variant just written gives the variant's number, then its content.
pub proof fn lemma_variant_read<T: Wire>(number: u32, m: T::Model, tail: Seq<u8>)
    requires
        enc_variant::<T>(number, m).len() <= u64::MAX,
    ensures
        u32::dec(enc_variant::<T>(number, m) + tail) matches Some((n, rest)) && n == number
            && dec_content::<T>(rest) == Some((m, tail)),
{
    reveal(enc_variant);
    reveal(dec_content);
    let s = enc_variant::<T>(number, m) + tail;
    assert(s =~= u32::enc(number) + (T::enc(m) + tail));
    u32::takes_a_byte(number);
    lemma_le_bounds();
    lemma_varint_read(number as nat, 4, T::enc(m) + tail);
    T::round_trip(m, tail);
}

pub proof fn lemma_variant_len<T: Wire>(number: u32, m: T::Model)
    ensures
        enc_variant::<T>(number, m).len() >= 1,
{
    reveal(enc_variant);
    u32::takes_a_byte(number);
}

/// Appends an enum variant with content.
pub fn put_variant<T: Wire>(number: u32, content: &T, out: &mut Vec<u8>)
    ensures
        final(out)@ == old(out)@ + enc_variant::<T>(number, content.model()),
{
    number.put(out);
    content.put(out);
    proof {
        reveal(enc_variant);
    }
    assert(out@ =~= old(out)@ + enc_variant::<T>(number, content.model()));
}

/// Reads the content of an enum variant.
pub fn get_content<T: Wire>(input: &[u8], at: usize) -> (r: Option<(T, usize)>)
    requires
        at <= input@.len(),
    ensures
        reads(
            match r {
                Some((v, n)) => Some((v.model(), n)),
                None => None,
            },
            input@,
            dec_content::<T>(input@.skip(at as int)),
        ),
{
    proof {
        reveal(dec_content);
    }
    T::get(input, at)
}

// ---------------------------------------------------------------------------
// Lists
// ---------------------------------------------------------------------------

/// The models of a list's items.
pub open spec fn models<T: Wire>(items: Seq<T>) -> Seq<T::Model> {
    items.map_values(|v: T| v.model())
}

/// The items of a list, one behind the other.
pub open spec fn enc_items<T: Wire>(m: Seq<T::Model>) -> Seq<u8>
    decreases m.len(),
{
    if m.len() == 0 {
        Seq::empty()
    } else {
        T::enc(m[0]) + enc_items::<T>(m.drop_first())
    }
}

/// Takes `n` items off the front of `s`.
pub open spec fn dec_items<T: Wire>(s: Seq<u8>, n: nat) -> Option<(Seq<T::Model>, Seq<u8>)>
    decreases n,
{
    if n == 0 {
        Some((Seq::empty(), s))
    } else {
        match T::dec(s) {
            None => None,
            Some((v, rest)) => match dec_items::<T>(rest, (n - 1) as nat) {
                None => None,
                Some((vs, rest2)) => Some((seq![v] + vs, rest2)),
            },
        }
    }
}

proof fn lemma_items_read<T: Wire>(m: Seq<T::Model>, tail: Seq<u8>)
    requires
        enc_items::<T>(m).len() <= u64::MAX,
    ensures
        dec_items::<T>(enc_items::<T>(m) + tail, m.len()) == Some((m, tail)),
        m.len() <= enc_items::<T>(m).len(),
    decreases m.len(),
{
    if m.len() == 0 {
        assert(enc_items::<T>(m) + tail =~= tail);
        assert(m =~= Seq::empty());
    } else {
        let more = m.drop_first();
        T::takes_a_byte(m[0]);
        lemma_items_read::<T>(more, tail);
        assert(enc_items::<T>(m) + tail =~= T::enc(m[0]) + (enc_items::<T>(more) + tail));
        T::round_trip(m[0], enc_items::<T>(more) + tail);
        assert(seq![m[0]] + more =~= m);
    }
}

/// A list: the number of items, then the items.
pub open spec fn enc_list<T: Wire>(m: Seq<T::Model>) -> Seq<u8> {
    varint(m.len()) + enc_items::<T>(m)
}

pub open spec fn dec_list<T: Wire>(s: Seq<u8>) -> Option<(Seq<T::Model>, Seq<u8>)> {
    match dec_varint(s, 8) {
        None => None,
        Some((n, rest)) => dec_items::<T>(rest, n),
    }
}

/// Reading a list just written gives the list and what followed it.
pub proof fn lemma_list_read<T: Wire>(m: Seq<T::Model>, tail: Seq<u8>)
    requires
        enc_list::<T>(m).len() <= u64::MAX,
    ensures
        dec_list::<T>(enc_list::<T>(m) + tail) == Some((m, tail)),
{
    lemma_le_bounds();
    lemma_items_read::<T>(m, tail);
    assert(enc_list::<T>(m) + tail =~= varint(m.len()) + (enc_items::<T>(m) + tail));
    lemma_varint_read(m.len(), 8, enc_items::<T>(m) + tail);
}

/// Appends a list.
pub fn put_list<T: Wire>(items: &Vec<T>, out: &mut Vec<u8>)
    ensures
        final(out)@ == old(out)@ + enc_list::<T>(models(items@)),
{
    (items.len() as u64).put(out);
    let ghost m = models(items@);
    let mut i: usize = 0;
    assert(m.skip(0) =~= m);
    assert(out@ + enc_items::<T>(m) =~= old(out)@ + enc_list::<T>(m));
    while i < items.len()
        invariant
            i <= items@.len(),
            m == models(items@),
            out@ + enc_items::<T>(m.skip(i as int)) == old(out)@ + enc_list::<T>(m),
        decreases items@.len() - i,
    {
        let ghost before = out@;
        items[i].put(out);
        proof {
            let rest = m.skip(i as int);
            assert(rest.drop_first() =~= m.skip(i + 1));
            assert(before + (T::enc(rest[0]) + enc_items::<T>(rest.drop_first())) =~= out@
                + enc_items::<T>(rest.drop_first()));
        }
        i = i + 1;
    }
    assert(m.skip(i as int) =~= Seq::empty());
    assert(out@ + enc_items::<T>(m.skip(i as int)) =~= out@);
}

/// Reads a list.
pub fn get_list<T: Wire>(input: &[u8], at: usize) -> (r: Option<(Vec<T>, usize)>)
    requires
        at <= input@.len(),
    ensures
        reads(
            match r {
                Some((v, n)) => Some((models(v@), n)),
                None => None,
            },
            input@,
            dec_list::<T>(input@.skip(at as int)),
        ),
{
    let (count, start): (u64, usize) = match u64::get(input, at) {
        Some(x) => x,
        None => return None,
    };
    proof {
        lemma_dec_u64_exact(input@.skip(at as int));
    }
    let mut items: Vec<T> = Vec::new();
    let mut pos: usize = start;
    let mut left: u64 = count;
    proof {
        let d = dec_items::<T>(input@.skip(start as int), count as nat);
        assert(models(items@) =~= Seq::empty());
        if let Some((vs, rest)) = d {
            assert(models(items@) + vs =~= vs);
        }
    }
    while left > 0
        invariant
            pos <= input@.len(),
            dec_list::<T>(input@.skip(at as int)) == (match dec_items::<T>(
                input@.skip(pos as int),
                left as nat,
            ) {
                None => None,
                Some((vs, rest)) => Some((models(items@) + vs, rest)),
            }),
        decreases left,
    {
        match T::get(input, pos) {
            None => return None,
            Some((v, n)) => {
                let ghost had = models(items@);
                proof {
                    let d = dec_items::<T>(input@.skip(n as int), (left - 1) as nat);
                    if let Some((vs, rest)) = d {
                        assert(had + (seq![v.model()] + vs) =~= had.push(v.model()) + vs);
                    }
                    assert(models(items@.push(v)) =~= had.push(v.model()));
                }
                items.push(v);
                pos = n;
                left = left - 1;
            },
        }
    }
    assert(models(items@) + Seq::empty() =~= models(items@));
    Some((items, pos))
}

/// The lowest byte of a number comes first, and each byte counts 256 times as much as the
/// one before it.
pub proof fn the_lowest_byte_comes_first(s: Seq<u8>)
    ensures
        s.len() == 1 ==> le_value(s) == s[0],
        s.len() == 2 ==> le_value(s) == s[0] + 0x100 * s[1],
        s.len() == 4 ==> le_value(s) == s[0] + 0x100 * s[1] + 0x1_0000 * s[2] + 0x100_0000 * s[3],
        s.len() == 8 ==> le_value(s) == s[0] + 0x100 * s[1] + 0x1_0000 * s[2] + 0x100_0000 * s[3]
            + 0x1_0000_0000 * s[4] + 0x100_0000_0000 * s[5] + 0x1_0000_0000_0000 * s[6]
            + 0x100_0000_0000_0000 * s[7],
{
    reveal_with_fuel(le_value, 9);
    let s1 = s.drop_first();
    let s2 = s1.drop_first();
    let s3 = s2.drop_first();
    let s4 = s3.drop_first();
    let s5 = s4.drop_first();
    let s6 = s5.drop_first();
    let s7 = s6.drop_first();
}

/// Written numbers are the numbers read: four bytes, lowest first, make the number up
/// again, and so do two and eight.
pub proof fn numbers_are_written_lowest_byte_first(n: nat)
    ensures
        n < 0x1_0000 ==> ({
            let b = le_bytes(n, 2);
            b.len() == 2 && n == b[0] + 0x100 * b[1]
        }),
        n < 0x1_0000_0000 ==> ({
            let b = le_bytes(n, 4);
            b.len() == 4 && n == b[0] + 0x100 * b[1] + 0x1_0000 * b[2] + 0x100_0000 * b[3]
        }),
        n < 0x1_0000_0000_0000_0000 ==> ({
            let b = le_bytes(n, 8);
            b.len() == 8 && n == b[0] + 0x100 * b[1] + 0x1_0000 * b[2] + 0x100_0000 * b[3]
                + 0x1_0000_0000 * b[4] + 0x100_0000_0000 * b[5] + 0x1_0000_0000_0000 * b[6]
                + 0x100_0000_0000_0000 * b[7]
        }),
{
    lemma_le_bounds();
    if n < 0x1_0000 {
        lemma_le_round_trip(n, 2);
        the_lowest_byte_comes_first(le_bytes(n, 2));
    }
    if n < 0x1_0000_0000 {
        lemma_le_round_trip(n, 4);
        the_lowest_byte_comes_first(le_bytes(n, 4));
    }
    if n < 0x1_0000_0000_0000_0000 {
        lemma_le_round_trip(n, 8);
        the_lowest_byte_comes_first(le_bytes(n, 8));
    }
}

/// Numbers up to 250 take one byte, which is the number. Larger ones take a byte that tells
/// their width, 251 for two bytes, 252 for four and 253 for eight, and then those bytes.
/// Of a signed number the sign is in the lowest bit.
pub proof fn numbers_take_few_bytes(n: nat, v: int)
    requires
        n < 0x1_0000_0000_0000_0000,
        v >= 0,
    ensures
        n <= 250 ==> varint(n).len() == 1 && varint(n)[0] == n,
        250 < n < 0x1_0000 ==> varint(n).len() == 3 && varint(n)[0] == 251 && le_value(
            varint(n).skip(1),
        ) == n,
        0x1_0000 <= n < 0x1_0000_0000 ==> varint(n).len() == 5 && varint(n)[0] == 252 && le_value(
            varint(n).skip(1),
        ) == n,
        0x1_0000_0000 <= n ==> varint(n).len() == 9 && varint(n)[0] == 253 && le_value(
            varint(n).skip(1),
        ) == n,
        zigzag(v) == 2 * v,
        zigzag(-1 - v) == 2 * v + 1,
        unzigzag((2 * v) as nat) == v,
        unzigzag((2 * v + 1) as nat) == -1 - v,
{
    lemma_le_bounds();
    if 250 < n < 0x1_0000 {
        lemma_le_round_trip(n, 2);
        assert(varint(n).skip(1) =~= le_bytes(n, 2));
    } else if 0x1_0000 <= n < 0x1_0000_0000 {
        lemma_le_round_trip(n, 4);
        assert(varint(n).skip(1) =~= le_bytes(n, 4));
    } else if 0x1_0000_0000 <= n {
        lemma_le_round_trip(n, 8);
        assert(varint(n).skip(1) =~= le_bytes(n, 8));
    }
}

/// What a value of a simple type looks like: a byte is itself, yes is 1 and no is 0,
/// nothing is 0 and something is 1 and then the thing, a text is its length and then its
/// bytes, a list its length and then its items, and a pair its first and then its second
/// part.
pub proof fn values_look_like_this<T: Wire>(
    b: u8,
    text: Seq<char>,
    bytes: Seq<u8>,
    m: T::Model,
    items: Seq<T::Model>,
)
    ensures
        u8::enc(b) == seq![b],
        bool::enc(true) == seq![1u8],
        bool::enc(false) == seq![0u8],
        Option::<T>::enc(None) == seq![0u8],
        Option::<T>::enc(Some(m)) == seq![1u8] + T::enc(m),
        String::enc(text) == varint(encode_utf8(text).len()) + encode_utf8(text),
        Vec::<u8>::enc(bytes) == varint(bytes.len()) + bytes,
        <(T, u8)>::enc((m, b)) == T::enc(m) + seq![b],
        Bits32::enc(Bits32(b as u32)) == seq![b, 0u8, 0u8, 0u8],
        enc_list::<T>(Seq::empty()) == seq![0u8],
        enc_items::<T>(seq![m] + items) == T::enc(m) + enc_items::<T>(items),
{
    reveal_with_fuel(le_bytes, 5);
    assert(Bits32::enc(Bits32(b as u32)) =~= seq![b, 0u8, 0u8, 0u8]);
    assert(enc_list::<T>(Seq::empty()) =~= seq![0u8]);
    assert((seq![m] + items).drop_first() =~= items);
}

} // verus!
