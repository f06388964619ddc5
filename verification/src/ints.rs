use vstd::prelude::*;
use crate::endian::Endian;

verus! {

// ---------------------------------------------------------------- 16 bits

/// The 2 bytes of `v`, least significant first.
#[verifier::opaque]
pub open spec fn u16_le_bytes(v: u16) -> Seq<u8> {
    seq![
        (v % 0x100) as u8,
        ((v / 0x100) % 0x100) as u8,
    ]
}

/// The value of the 2 bytes `s`, least significant first.
#[verifier::opaque]
pub open spec fn u16_le_value(s: Seq<u8>) -> u16 {
    (s[0] as int + s[1] as int * 0x100) as u16
}

/// The 2 bytes of `v` in byte order `e`.
pub open spec fn u16_bytes(e: Endian, v: u16) -> Seq<u8> {
    match e {
        Endian::Little => u16_le_bytes(v),
        Endian::Big => u16_le_bytes(v).reverse(),
    }
}

/// The value of 2 bytes in byte order `e`.
pub open spec fn u16_value(e: Endian, s: Seq<u8>) -> u16 {
    match e {
        Endian::Little => u16_le_value(s),
        Endian::Big => u16_le_value(s.reverse()),
    }
}

/// Each `u16` has one encoding of 2 bytes least significant first, and
/// every 2 bytes are the encoding of one `u16`.
pub proof fn lemma_u16_le(v: u16, s: Seq<u8>)
    ensures
        u16_le_bytes(v).len() == 2,
        u16_le_value(u16_le_bytes(v)) == v,
        s.len() == 2 ==> u16_le_bytes(u16_le_value(s)) == s,
{
    reveal(u16_le_value);
    reveal(u16_le_bytes);
    lemma_u16_le_digits(v);
    if s.len() == 2 {
        let b0 = s[0];
        let b1 = s[1];
        lemma_u16_le_bytes_of_value(b0, b1);
        assert(u16_le_bytes(u16_le_value(s)) =~= s);
    }
}

proof fn lemma_u16_le_digits(v: u16)
    ensures
        u16_le_value(u16_le_bytes(v)) == v,
{
    reveal(u16_le_value);
    reveal(u16_le_bytes);
    let x = u16_le_value(u16_le_bytes(v));
    assert(x == ((((v % 0x100) as u8) as int) + ((((v / 0x100) % 0x100) as u8) as int * 0x100)) as u16);
    assert(((((v % 0x100) as u8) as int) + ((((v / 0x100) % 0x100) as u8) as int * 0x100)) as u16 == v) by (bit_vector);
}

proof fn lemma_u16_le_bytes_of_value(b0: u8, b1: u8)
    ensures
        ({
            let x = (b0 as int + b1 as int * 0x100) as u16;
            (x % 0x100) as u8 == b0 && ((x / 0x100) % 0x100) as u8 == b1
        }),
{
    assert({
        let x = (b0 as int + b1 as int * 0x100) as u16;
        (x % 0x100) as u8 == b0 && ((x / 0x100) % 0x100) as u8 == b1
    }) by (bit_vector);
}

/// Each `u16` has one encoding of 2 bytes in each byte order, and every 2
/// bytes are the encoding of one `u16`.
pub proof fn lemma_u16_bytes(e: Endian)
    ensures
        forall|v: u16| #[trigger] u16_bytes(e, v).len() == 2 && u16_value(e, u16_bytes(e, v)) == v,
        forall|s: Seq<u8>| s.len() == 2 ==> #[trigger] u16_bytes(e, u16_value(e, s)) == s,
{
    assert forall|v: u16| #[trigger] u16_bytes(e, v).len() == 2 && u16_value(e, u16_bytes(e, v)) == v by {
        lemma_u16_le(v, Seq::empty());
        let b = u16_le_bytes(v);
        assert(b.reverse().reverse() =~= b);
    }
    assert forall|s: Seq<u8>| s.len() == 2 implies #[trigger] u16_bytes(e, u16_value(e, s)) == s by {
        lemma_u16_le(0, s);
        lemma_u16_le(0, s.reverse());
        assert(s.reverse().reverse() =~= s);
    }
}

/// Going through `u16` and back keeps an `i16`, and the other way round.
pub proof fn lemma_i16_cast(v: i16, u: u16)
    ensures
        (v as u16) as i16 == v,
        (u as i16) as u16 == u,
{
    assert((v as u16) as i16 == v) by (bit_vector);
    assert((u as i16) as u16 == u) by (bit_vector);
}

/// Calls `byteorder::BigEndian::read_u16`, which reads the first 2 bytes of
/// `buf`, most significant byte first (it panics on fewer than 2).
#[verifier::external_body]
pub(crate) fn be_read_u16(buf: &[u8]) -> (r: u16)
    requires
        buf@.len() == 2,
    ensures
        r == u16_value(Endian::Big, buf@),
{
    <byteorder::BigEndian as byteorder::ByteOrder>::read_u16(buf)
}

/// Calls `byteorder::BigEndian::read_i16`, which reads the first 2 bytes of
/// `buf` as a `u16`, most significant byte first, and reinterprets it as an `i16`.
#[verifier::external_body]
pub(crate) fn be_read_i16(buf: &[u8]) -> (r: i16)
    requires
        buf@.len() == 2,
    ensures
        r == u16_value(Endian::Big, buf@) as i16,
{
    <byteorder::BigEndian as byteorder::ByteOrder>::read_i16(buf)
}

/// Calls `byteorder::BigEndian::write_u16` on a buffer of 2 bytes, which stores
/// `n` most significant byte first.
#[verifier::external_body]
pub(crate) fn be_write_u16(n: u16) -> (r: [u8; 2])
    ensures
        r@ == u16_bytes(Endian::Big, n),
{
    let mut buf = [0u8; 2];
    <byteorder::BigEndian as byteorder::ByteOrder>::write_u16(&mut buf, n);
    buf
}

/// Calls `byteorder::BigEndian::write_i16` on a buffer of 2 bytes, which stores
/// `n` reinterpreted as a `u16`, most significant byte first.
#[verifier::external_body]
pub(crate) fn be_write_i16(n: i16) -> (r: [u8; 2])
    ensures
        r@ == u16_bytes(Endian::Big, n as u16),
{
    let mut buf = [0u8; 2];
    <byteorder::BigEndian as byteorder::ByteOrder>::write_i16(&mut buf, n);
    buf
}

/// Calls `byteorder::LittleEndian::read_u16`, which reads the first 2 bytes of
/// `buf`, least significant byte first (it panics on fewer than 2).
#[verifier::external_body]
pub(crate) fn le_read_u16(buf: &[u8]) -> (r: u16)
    requires
        buf@.len() == 2,
    ensures
        r == u16_value(Endian::Little, buf@),
{
    <byteorder::LittleEndian as byteorder::ByteOrder>::read_u16(buf)
}

/// Calls `byteorder::LittleEndian::read_i16`, which reads the first 2 bytes of
/// `buf` as a `u16`, least significant byte first, and reinterprets it as an `i16`.
#[verifier::external_body]
pub(crate) fn le_read_i16(buf: &[u8]) -> (r: i16)
    requires
        buf@.len() == 2,
    ensures
        r == u16_value(Endian::Little, buf@) as i16,
{
    <byteorder::LittleEndian as byteorder::ByteOrder>::read_i16(buf)
}

/// Calls `byteorder::LittleEndian::write_u16` on a buffer of 2 bytes, which stores
/// `n` least significant byte first.
#[verifier::external_body]
pub(crate) fn le_write_u16(n: u16) -> (r: [u8; 2])
    ensures
        r@ == u16_bytes(Endian::Little, n),
{
    let mut buf = [0u8; 2];
    <byteorder::LittleEndian as byteorder::ByteOrder>::write_u16(&mut buf, n);
    buf
}

/// Calls `byteorder::LittleEndian::write_i16` on a buffer of 2 bytes, which stores
/// `n` reinterpreted as a `u16`, least significant byte first.
#[verifier::external_body]
pub(crate) fn le_write_i16(n: i16) -> (r: [u8; 2])
    ensures
        r@ == u16_bytes(Endian::Little, n as u16),
{
    let mut buf = [0u8; 2];
    <byteorder::LittleEndian as byteorder::ByteOrder>::write_i16(&mut buf, n);
    buf
}

// ---------------------------------------------------------------- 32 bits

/// The 4 bytes of `v`, least significant first.
#[verifier::opaque]
pub open spec fn u32_le_bytes(v: u32) -> Seq<u8> {
    seq![
        (v % 0x100) as u8,
        ((v / 0x100) % 0x100) as u8,
        ((v / 0x10000) % 0x100) as u8,
        ((v / 0x1000000) % 0x100) as u8,
    ]
}

/// The value of the 4 bytes `s`, least significant first.
#[verifier::opaque]
pub open spec fn u32_le_value(s: Seq<u8>) -> u32 {
    (s[0] as int + s[1] as int * 0x100 + s[2] as int * 0x10000 + s[3] as int * 0x1000000) as u32
}

/// The 4 bytes of `v` in byte order `e`.
pub open spec fn u32_bytes(e: Endian, v: u32) -> Seq<u8> {
    match e {
        Endian::Little => u32_le_bytes(v),
        Endian::Big => u32_le_bytes(v).reverse(),
    }
}

/// The value of 4 bytes in byte order `e`.
pub open spec fn u32_value(e: Endian, s: Seq<u8>) -> u32 {
    match e {
        Endian::Little => u32_le_value(s),
        Endian::Big => u32_le_value(s.reverse()),
    }
}

/// Each `u32` has one encoding of 4 bytes least significant first, and
/// every 4 bytes are the encoding of one `u32`.
pub proof fn lemma_u32_le(v: u32, s: Seq<u8>)
    ensures
        u32_le_bytes(v).len() == 4,
        u32_le_value(u32_le_bytes(v)) == v,
        s.len() == 4 ==> u32_le_bytes(u32_le_value(s)) == s,
{
    reveal(u32_le_value);
    reveal(u32_le_bytes);
    lemma_u32_le_digits(v);
    if s.len() == 4 {
        let b0 = s[0];
        let b1 = s[1];
        let b2 = s[2];
        let b3 = s[3];
        lemma_u32_le_bytes_of_value(b0, b1, b2, b3);
        assert(u32_le_bytes(u32_le_value(s)) =~= s);
    }
}

proof fn lemma_u32_le_digits(v: u32)
    ensures
        u32_le_value(u32_le_bytes(v)) == v,
{
    reveal(u32_le_value);
    reveal(u32_le_bytes);
    let x = u32_le_value(u32_le_bytes(v));
    assert(x == ((((v % 0x100) as u8) as int) + ((((v / 0x100) % 0x100) as u8) as int * 0x100) + ((((v / 0x10000) % 0x100) as u8) as int * 0x10000) + ((((v / 0x1000000) % 0x100) as u8) as int * 0x1000000)) as u32);
    assert(((((v % 0x100) as u8) as int) + ((((v / 0x100) % 0x100) as u8) as int * 0x100) + ((((v / 0x10000) % 0x100) as u8) as int * 0x10000) + ((((v / 0x1000000) % 0x100) as u8) as int * 0x1000000)) as u32 == v) by (bit_vector);
}

proof fn lemma_u32_le_bytes_of_value(b0: u8, b1: u8, b2: u8, b3: u8)
    ensures
        ({
            let x = (b0 as int + b1 as int * 0x100 + b2 as int * 0x10000 + b3 as int * 0x1000000) as u32;
            (x % 0x100) as u8 == b0 && ((x / 0x100) % 0x100) as u8 == b1 && ((x / 0x10000) % 0x100) as u8 == b2 && ((x / 0x1000000) % 0x100) as u8 == b3
        }),
{
    assert({
        let x = (b0 as int + b1 as int * 0x100 + b2 as int * 0x10000 + b3 as int * 0x1000000) as u32;
        (x % 0x100) as u8 == b0 && ((x / 0x100) % 0x100) as u8 == b1 && ((x / 0x10000) % 0x100) as u8 == b2 && ((x / 0x1000000) % 0x100) as u8 == b3
    }) by (bit_vector);
}

/// Each `u32` has one encoding of 4 bytes in each byte order, and every 4
/// bytes are the encoding of one `u32`.
pub proof fn lemma_u32_bytes(e: Endian)
    ensures
        forall|v: u32| #[trigger] u32_bytes(e, v).len() == 4 && u32_value(e, u32_bytes(e, v)) == v,
        forall|s: Seq<u8>| s.len() == 4 ==> #[trigger] u32_bytes(e, u32_value(e, s)) == s,
{
    assert forall|v: u32| #[trigger] u32_bytes(e, v).len() == 4 && u32_value(e, u32_bytes(e, v)) == v by {
        lemma_u32_le(v, Seq::empty());
        let b = u32_le_bytes(v);
        assert(b.reverse().reverse() =~= b);
    }
    assert forall|s: Seq<u8>| s.len() == 4 implies #[trigger] u32_bytes(e, u32_value(e, s)) == s by {
        lemma_u32_le(0, s);
        lemma_u32_le(0, s.reverse());
        assert(s.reverse().reverse() =~= s);
    }
}

/// Going through `u32` and back keeps an `i32`, and the other way round.
pub proof fn lemma_i32_cast(v: i32, u: u32)
    ensures
        (v as u32) as i32 == v,
        (u as i32) as u32 == u,
{
    assert((v as u32) as i32 == v) by (bit_vector);
    assert((u as i32) as u32 == u) by (bit_vector);
}

/// Calls `byteorder::BigEndian::read_u32`, which reads the first 4 bytes of
/// `buf`, most significant byte first (it panics on fewer than 4).
#[verifier::external_body]
pub(crate) fn be_read_u32(buf: &[u8]) -> (r: u32)
    requires
        buf@.len() == 4,
    ensures
        r == u32_value(Endian::Big, buf@),
{
    <byteorder::BigEndian as byteorder::ByteOrder>::read_u32(buf)
}

/// Calls `byteorder::BigEndian::read_i32`, which reads the first 4 bytes of
/// `buf` as a `u32`, most significant byte first, and reinterprets it as an `i32`.
#[verifier::external_body]
pub(crate) fn be_read_i32(buf: &[u8]) -> (r: i32)
    requires
        buf@.len() == 4,
    ensures
        r == u32_value(Endian::Big, buf@) as i32,
{
    <byteorder::BigEndian as byteorder::ByteOrder>::read_i32(buf)
}

/// Calls `byteorder::BigEndian::write_u32` on a buffer of 4 bytes, which stores
/// `n` most significant byte first.
#[verifier::external_body]
pub(crate) fn be_write_u32(n: u32) -> (r: [u8; 4])
    ensures
        r@ == u32_bytes(Endian::Big, n),
{
    let mut buf = [0u8; 4];
    <byteorder::BigEndian as byteorder::ByteOrder>::write_u32(&mut buf, n);
    buf
}

/// Calls `byteorder::BigEndian::write_i32` on a buffer of 4 bytes, which stores
/// `n` reinterpreted as a `u32`, most significant byte first.
#[verifier::external_body]
pub(crate) fn be_write_i32(n: i32) -> (r: [u8; 4])
    ensures
        r@ == u32_bytes(Endian::Big, n as u32),
{
    let mut buf = [0u8; 4];
    <byteorder::BigEndian as byteorder::ByteOrder>::write_i32(&mut buf, n);
    buf
}

/// Calls `byteorder::LittleEndian::read_u32`, which reads the first 4 bytes of
/// `buf`, least significant byte first (it panics on fewer than 4).
#[verifier::external_body]
pub(crate) fn le_read_u32(buf: &[u8]) -> (r: u32)
    requires
        buf@.len() == 4,
    ensures
        r == u32_value(Endian::Little, buf@),
{
    <byteorder::LittleEndian as byteorder::ByteOrder>::read_u32(buf)
}

/// Calls `byteorder::LittleEndian::read_i32`, which reads the first 4 bytes of
/// `buf` as a `u32`, least significant byte first, and reinterprets it as an `i32`.
#[verifier::external_body]
pub(crate) fn le_read_i32(buf: &[u8]) -> (r: i32)
    requires
        buf@.len() == 4,
    ensures
        r == u32_value(Endian::Little, buf@) as i32,
{
    <byteorder::LittleEndian as byteorder::ByteOrder>::read_i32(buf)
}

/// Calls `byteorder::LittleEndian::write_u32` on a buffer of 4 bytes, which stores
/// `n` least significant byte first.
#[verifier::external_body]
pub(crate) fn le_write_u32(n: u32) -> (r: [u8; 4])
    ensures
        r@ == u32_bytes(Endian::Little, n),
{
    let mut buf = [0u8; 4];
    <byteorder::LittleEndian as byteorder::ByteOrder>::write_u32(&mut buf, n);
    buf
}

/// Calls `byteorder::LittleEndian::write_i32` on a buffer of 4 bytes, which stores
/// `n` reinterpreted as a `u32`, least significant byte first.
#[verifier::external_body]
pub(crate) fn le_write_i32(n: i32) -> (r: [u8; 4])
    ensures
        r@ == u32_bytes(Endian::Little, n as u32),
{
    let mut buf = [0u8; 4];
    <byteorder::LittleEndian as byteorder::ByteOrder>::write_i32(&mut buf, n);
    buf
}

// ---------------------------------------------------------------- 64 bits

/// The 8 bytes of `v`, least significant first.
#[verifier::opaque]
pub open spec fn u64_le_bytes(v: u64) -> Seq<u8> {
    seq![
        (v % 0x100) as u8,
        ((v / 0x100) % 0x100) as u8,
        ((v / 0x10000) % 0x100) as u8,
        ((v / 0x1000000) % 0x100) as u8,
        ((v / 0x100000000) % 0x100) as u8,
        ((v / 0x10000000000) % 0x100) as u8,
        ((v / 0x1000000000000) % 0x100) as u8,
        ((v / 0x100000000000000) % 0x100) as u8,
    ]
}

/// The value of the 8 bytes `s`, least significant first.
#[verifier::opaque]
pub open spec fn u64_le_value(s: Seq<u8>) -> u64 {
    (s[0] as int + s[1] as int * 0x100 + s[2] as int * 0x10000 + s[3] as int * 0x1000000 + s[4] as int * 0x100000000 + s[5] as int * 0x10000000000 + s[6] as int * 0x1000000000000 + s[7] as int * 0x100000000000000) as u64
}

/// The 8 bytes of `v` in byte order `e`.
pub open spec fn u64_bytes(e: Endian, v: u64) -> Seq<u8> {
    match e {
        Endian::Little => u64_le_bytes(v),
        Endian::Big => u64_le_bytes(v).reverse(),
    }
}

/// The value of 8 bytes in byte order `e`.
pub open spec fn u64_value(e: Endian, s: Seq<u8>) -> u64 {
    match e {
        Endian::Little => u64_le_value(s),
        Endian::Big => u64_le_value(s.reverse()),
    }
}

/// Each `u64` has one encoding of 8 bytes least significant first, and
/// every 8 bytes are the encoding of one `u64`.
pub proof fn lemma_u64_le(v: u64, s: Seq<u8>)
    ensures
        u64_le_bytes(v).len() == 8,
        u64_le_value(u64_le_bytes(v)) == v,
        s.len() == 8 ==> u64_le_bytes(u64_le_value(s)) == s,
{
    reveal(u64_le_value);
    reveal(u64_le_bytes);
    lemma_u64_le_digits(v);
    if s.len() == 8 {
        let b0 = s[0];
        let b1 = s[1];
        let b2 = s[2];
        let b3 = s[3];
        let b4 = s[4];
        let b5 = s[5];
        let b6 = s[6];
        let b7 = s[7];
        lemma_u64_le_bytes_of_value(b0, b1, b2, b3, b4, b5, b6, b7);
        assert(u64_le_bytes(u64_le_value(s)) =~= s);
    }
}

proof fn lemma_u64_le_digits(v: u64)
    ensures
        u64_le_value(u64_le_bytes(v)) == v,
{
    reveal(u64_le_value);
    reveal(u64_le_bytes);
    let x = u64_le_value(u64_le_bytes(v));
    assert(x == ((((v % 0x100) as u8) as int) + ((((v / 0x100) % 0x100) as u8) as int * 0x100) + ((((v / 0x10000) % 0x100) as u8) as int * 0x10000) + ((((v / 0x1000000) % 0x100) as u8) as int * 0x1000000) + ((((v / 0x100000000) % 0x100) as u8) as int * 0x100000000) + ((((v / 0x10000000000) % 0x100) as u8) as int * 0x10000000000) + ((((v / 0x1000000000000) % 0x100) as u8) as int * 0x1000000000000) + ((((v / 0x100000000000000) % 0x100) as u8) as int * 0x100000000000000)) as u64);
    assert(((((v % 0x100) as u8) as int) + ((((v / 0x100) % 0x100) as u8) as int * 0x100) + ((((v / 0x10000) % 0x100) as u8) as int * 0x10000) + ((((v / 0x1000000) % 0x100) as u8) as int * 0x1000000) + ((((v / 0x100000000) % 0x100) as u8) as int * 0x100000000) + ((((v / 0x10000000000) % 0x100) as u8) as int * 0x10000000000) + ((((v / 0x1000000000000) % 0x100) as u8) as int * 0x1000000000000) + ((((v / 0x100000000000000) % 0x100) as u8) as int * 0x100000000000000)) as u64 == v) by (bit_vector);
}

proof fn lemma_u64_le_bytes_of_value(b0: u8, b1: u8, b2: u8, b3: u8, b4: u8, b5: u8, b6: u8, b7: u8)
    ensures
        ({
            let x = (b0 as int + b1 as int * 0x100 + b2 as int * 0x10000 + b3 as int * 0x1000000 + b4 as int * 0x100000000 + b5 as int * 0x10000000000 + b6 as int * 0x1000000000000 + b7 as int * 0x100000000000000) as u64;
            (x % 0x100) as u8 == b0 && ((x / 0x100) % 0x100) as u8 == b1 && ((x / 0x10000) % 0x100) as u8 == b2 && ((x / 0x1000000) % 0x100) as u8 == b3 && ((x / 0x100000000) % 0x100) as u8 == b4 && ((x / 0x10000000000) % 0x100) as u8 == b5 && ((x / 0x1000000000000) % 0x100) as u8 == b6 && ((x / 0x100000000000000) % 0x100) as u8 == b7
        }),
{
    assert({
        let x = (b0 as int + b1 as int * 0x100 + b2 as int * 0x10000 + b3 as int * 0x1000000 + b4 as int * 0x100000000 + b5 as int * 0x10000000000 + b6 as int * 0x1000000000000 + b7 as int * 0x100000000000000) as u64;
        (x % 0x100) as u8 == b0 && ((x / 0x100) % 0x100) as u8 == b1 && ((x / 0x10000) % 0x100) as u8 == b2 && ((x / 0x1000000) % 0x100) as u8 == b3 && ((x / 0x100000000) % 0x100) as u8 == b4 && ((x / 0x10000000000) % 0x100) as u8 == b5 && ((x / 0x1000000000000) % 0x100) as u8 == b6 && ((x / 0x100000000000000) % 0x100) as u8 == b7
    }) by (bit_vector);
}

/// Each `u64` has one encoding of 8 bytes in each byte order, and every 8
/// bytes are the encoding of one `u64`.
pub proof fn lemma_u64_bytes(e: Endian)
    ensures
        forall|v: u64| #[trigger] u64_bytes(e, v).len() == 8 && u64_value(e, u64_bytes(e, v)) == v,
        forall|s: Seq<u8>| s.len() == 8 ==> #[trigger] u64_bytes(e, u64_value(e, s)) == s,
{
    assert forall|v: u64| #[trigger] u64_bytes(e, v).len() == 8 && u64_value(e, u64_bytes(e, v)) == v by {
        lemma_u64_le(v, Seq::empty());
        let b = u64_le_bytes(v);
        assert(b.reverse().reverse() =~= b);
    }
    assert forall|s: Seq<u8>| s.len() == 8 implies #[trigger] u64_bytes(e, u64_value(e, s)) == s by {
        lemma_u64_le(0, s);
        lemma_u64_le(0, s.reverse());
        assert(s.reverse().reverse() =~= s);
    }
}

/// Going through `u64` and back keeps an `i64`, and the other way round.
pub proof fn lemma_i64_cast(v: i64, u: u64)
    ensures
        (v as u64) as i64 == v,
        (u as i64) as u64 == u,
{
    assert((v as u64) as i64 == v) by (bit_vector);
    assert((u as i64) as u64 == u) by (bit_vector);
}

/// Calls `byteorder::BigEndian::read_u64`, which reads the first 8 bytes of
/// `buf`, most significant byte first (it panics on fewer than 8).
#[verifier::external_body]
pub(crate) fn be_read_u64(buf: &[u8]) -> (r: u64)
    requires
        buf@.len() == 8,
    ensures
        r == u64_value(Endian::Big, buf@),
{
    <byteorder::BigEndian as byteorder::ByteOrder>::read_u64(buf)
}

/// Calls `byteorder::BigEndian::read_i64`, which reads the first 8 bytes of
/// `buf` as a `u64`, most significant byte first, and reinterprets it as an `i64`.
#[verifier::external_body]
pub(crate) fn be_read_i64(buf: &[u8]) -> (r: i64)
    requires
        buf@.len() == 8,
    ensures
        r == u64_value(Endian::Big, buf@) as i64,
{
    <byteorder::BigEndian as byteorder::ByteOrder>::read_i64(buf)
}

/// Calls `byteorder::BigEndian::write_u64` on a buffer of 8 bytes, which stores
/// `n` most significant byte first.
#[verifier::external_body]
pub(crate) fn be_write_u64(n: u64) -> (r: [u8; 8])
    ensures
        r@ == u64_bytes(Endian::Big, n),
{
    let mut buf = [0u8; 8];
    <byteorder::BigEndian as byteorder::ByteOrder>::write_u64(&mut buf, n);
    buf
}

/// Calls `byteorder::BigEndian::write_i64` on a buffer of 8 bytes, which stores
/// `n` reinterpreted as a `u64`, most significant byte first.
#[verifier::external_body]
pub(crate) fn be_write_i64(n: i64) -> (r: [u8; 8])
    ensures
        r@ == u64_bytes(Endian::Big, n as u64),
{
    let mut buf = [0u8; 8];
    <byteorder::BigEndian as byteorder::ByteOrder>::write_i64(&mut buf, n);
    buf
}

/// Calls `byteorder::LittleEndian::read_u64`, which reads the first 8 bytes of
/// `buf`, least significant byte first (it panics on fewer than 8).
#[verifier::external_body]
pub(crate) fn le_read_u64(buf: &[u8]) -> (r: u64)
    requires
        buf@.len() == 8,
    ensures
        r == u64_value(Endian::Little, buf@),
{
    <byteorder::LittleEndian as byteorder::ByteOrder>::read_u64(buf)
}

/// Calls `byteorder::LittleEndian::read_i64`, which reads the first 8 bytes of
/// `buf` as a `u64`, least significant byte first, and reinterprets it as an `i64`.
#[verifier::external_body]
pub(crate) fn le_read_i64(buf: &[u8]) -> (r: i64)
    requires
        buf@.len() == 8,
    ensures
        r == u64_value(Endian::Little, buf@) as i64,
{
    <byteorder::LittleEndian as byteorder::ByteOrder>::read_i64(buf)
}

/// Calls `byteorder::LittleEndian::write_u64` on a buffer of 8 bytes, which stores
/// `n` least significant byte first.
#[verifier::external_body]
pub(crate) fn le_write_u64(n: u64) -> (r: [u8; 8])
    ensures
        r@ == u64_bytes(Endian::Little, n),
{
    let mut buf = [0u8; 8];
    <byteorder::LittleEndian as byteorder::ByteOrder>::write_u64(&mut buf, n);
    buf
}

/// Calls `byteorder::LittleEndian::write_i64` on a buffer of 8 bytes, which stores
/// `n` reinterpreted as a `u64`, least significant byte first.
#[verifier::external_body]
pub(crate) fn le_write_i64(n: i64) -> (r: [u8; 8])
    ensures
        r@ == u64_bytes(Endian::Little, n as u64),
{
    let mut buf = [0u8; 8];
    <byteorder::LittleEndian as byteorder::ByteOrder>::write_i64(&mut buf, n);
    buf
}

/// Going through `u8` and back keeps an `i8`, and the other way round.
pub proof fn lemma_i8_cast(v: i8, u: u8)
    ensures
        (v as u8) as i8 == v,
        (u as i8) as u8 == u,
{
    assert((v as u8) as i8 == v) by (bit_vector);
    assert((u as i8) as u8 == u) by (bit_vector);
}

} // verus!
