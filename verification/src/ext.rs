use vstd::prelude::*;

use std::string::FromUtf8Error;
use vstd::arithmetic::div_mod::{lemma_add_mod_noop, lemma_mul_mod_noop_left};
use vstd::utf8::{decode_utf8, valid_utf8};

use crate::error::{IoError, IoErrorKind};

verus! {

/// 2 to the 64th: one more than the largest `u64`.
pub open spec fn u64_modulus() -> nat {
    0x1_0000_0000_0000_0000
}

/// The low 64 bits of `n`.
pub open spec fn low_u64(n: nat) -> u64 {
    (n % u64_modulus()) as u64
}

/// The number that `s` writes in base 256, most significant byte first.
pub open spec fn be_value(s: Seq<u8>) -> nat
    decreases s.len(),
{
    if s.len() == 0 {
        0
    } else {
        (be_value(s.drop_last()) * 256 + s.last()) as nat
    }
}

/// The number that the low seven bits of each byte of `s` write in base 128,
/// most significant group first.
pub open spec fn vlq_value(s: Seq<u8>) -> nat
    decreases s.len(),
{
    if s.len() == 0 {
        0
    } else {
        (vlq_value(s.drop_last()) * 128 + s.last() % 128) as nat
    }
}

/// The index of the first byte of `s` that `p` holds of.
pub open spec fn first_where(s: Seq<u8>, p: spec_fn(u8) -> bool) -> Option<nat>
    decreases s.len(),
{
    if s.len() == 0 {
        None
    } else if p(s[0]) {
        Some(0)
    } else {
        match first_where(s.drop_first(), p) {
            Some(k) => Some(k + 1),
            None => None,
        }
    }
}

/// Whether a byte ends a variable-length quantity: its high bit is clear.
pub open spec fn ends_vlq() -> spec_fn(u8) -> bool {
    |b: u8| b < 0x80
}

/// Whether a byte is zero.
pub open spec fn is_zero() -> spec_fn(u8) -> bool {
    |b: u8| b == 0
}

/// The number of bytes of the variable-length quantity at the front of `s`:
/// up to and including the first byte whose high bit is clear.
pub open spec fn vlq_len(s: Seq<u8>) -> Option<nat> {
    match first_where(s, ends_vlq()) {
        Some(k) => Some(k + 1),
        None => None,
    }
}

/// The index of the first zero byte of `s`.
pub open spec fn zero_index(s: Seq<u8>) -> Option<nat> {
    first_where(s, is_zero())
}

/// What a read gives back, as contracts speak of it: the value's view, or the
/// kind of the error.
pub open spec fn io_view<T: View>(r: Result<T, IoError>) -> Result<T::V, IoErrorKind> {
    match r {
        Ok(v) => Ok(v@),
        Err(e) => Err(e@),
    }
}

/// Taking `len` bytes from the front of `s`: the bytes and what is left, or
/// `UnexpectedEof` with nothing left where `s` is shorter.
pub open spec fn take_bytes(s: Seq<u8>, len: nat) -> (Result<Seq<u8>, IoErrorKind>, Seq<u8>) {
    if len <= s.len() {
        (Ok(s.take(len as int)), s.skip(len as int))
    } else {
        (Err(IoErrorKind::UnexpectedEof), Seq::empty())
    }
}

/// Taking one byte from the front of `s`.
pub open spec fn take_u8(s: Seq<u8>) -> (Result<u8, IoErrorKind>, Seq<u8>) {
    if 1 <= s.len() {
        (Ok(s[0]), s.skip(1))
    } else {
        (Err(IoErrorKind::UnexpectedEof), Seq::empty())
    }
}

/// Taking a big-endian `u16` from the front of `s`.
pub open spec fn take_u16_be(s: Seq<u8>) -> (Result<u16, IoErrorKind>, Seq<u8>) {
    if 2 <= s.len() {
        (Ok((s[0] * 256 + s[1]) as u16), s.skip(2))
    } else {
        (Err(IoErrorKind::UnexpectedEof), Seq::empty())
    }
}

/// Taking a variable-length quantity of at most `max_bytes` bytes (of any length
/// where `max_bytes` is 0) from the front of `s`; its value is kept to the low
/// 64 bits. Where the quantity has not ended within `max_bytes` bytes, those
/// bytes are taken and the read fails with `VlqExceedsMaxSize`; where `s` ends
/// first, all of it is taken and the read fails with `UnexpectedEof`.
pub open spec fn take_vlq(s: Seq<u8>, max_bytes: nat) -> (Result<u64, IoErrorKind>, Seq<u8>) {
    match vlq_len(s) {
        Some(n) if max_bytes == 0 || n <= max_bytes => (
            Ok(low_u64(vlq_value(s.take(n as int)))),
            s.skip(n as int),
        ),
        _ => if 0 < max_bytes && max_bytes <= s.len() {
            (Err(IoErrorKind::VlqExceedsMaxSize), s.skip(max_bytes as int))
        } else {
            (Err(IoErrorKind::UnexpectedEof), Seq::empty())
        },
    }
}

/// Taking `len` bytes from the front of `s` as a big-endian unsigned number,
/// kept to its low 64 bits.
pub open spec fn take_unum(s: Seq<u8>, len: nat) -> (Result<u64, IoErrorKind>, Seq<u8>) {
    match take_bytes(s, len) {
        (Ok(b), rest) => (Ok(low_u64(be_value(b))), rest),
        (Err(e), rest) => (Err(e), rest),
    }
}

/// Taking a null-terminated UTF-8 string from the front of `s`: the bytes
/// before the first zero byte, decoded, and what follows that zero byte.
pub open spec fn take_c_string(s: Seq<u8>) -> (Result<Seq<char>, IoErrorKind>, Seq<u8>) {
    match zero_index(s) {
        Some(k) => if valid_utf8(s.take(k as int)) {
            (Ok(decode_utf8(s.take(k as int))), s.skip(k as int + 1))
        } else {
            (Err(IoErrorKind::InvalidUtf8), s.skip(k as int + 1))
        },
        None => (Err(IoErrorKind::UnexpectedEof), Seq::empty()),
    }
}

/// Where `p` holds of none of the first `i` bytes of `s`, the first byte that
/// `p` holds of is found `i` bytes further on than in what follows them.
pub proof fn lemma_first_where_skip(s: Seq<u8>, p: spec_fn(u8) -> bool, i: nat)
    requires
        i <= s.len(),
        forall|j: int| 0 <= j < i ==> !p(#[trigger] s[j]),
    ensures
        first_where(s, p) == match first_where(s.skip(i as int), p) {
            Some(k) => Some(k + i),
            None => None::<nat>,
        },
    decreases i,
{
    if i == 0 {
        assert(s.skip(0) =~= s);
        match first_where(s, p) {
            Some(k) => {},
            None => {},
        }
    } else {
        let t = s.drop_first();
        assert forall|j: int| 0 <= j < i - 1 implies !p(#[trigger] t[j]) by {
            assert(t[j] == s[j + 1]);
        }
        lemma_first_where_skip(t, p, (i - 1) as nat);
        assert(t.skip(i - 1) =~= s.skip(i as int));
        assert(!p(s[0]));
    }
}

/// The byte that `first_where` finds is in `s`, and `p` holds of it.
pub proof fn lemma_first_where_found(s: Seq<u8>, p: spec_fn(u8) -> bool)
    ensures
        first_where(s, p) matches Some(k) ==> k < s.len() && p(s[k as int]),
    decreases s.len(),
{
    if s.len() > 0 && !p(s[0]) {
        lemma_first_where_found(s.drop_first(), p);
    }
}

/// 128 to the `n`th.
pub open spec fn pow128(n: nat) -> nat
    decreases n,
{
    if n == 0 {
        1
    } else {
        128 * pow128((n - 1) as nat)
    }
}

/// A variable-length quantity of `n` bytes is less than 128 to the `n`th.
pub proof fn lemma_vlq_value_bound(s: Seq<u8>)
    ensures
        vlq_value(s) < pow128(s.len()),
    decreases s.len(),
{
    if s.len() > 0 {
        let p = vlq_value(s.drop_last());
        let q = pow128(s.drop_last().len());
        let c = s.last() % 128;
        lemma_vlq_value_bound(s.drop_last());
        assert(p * 128 + c < 128 * q) by (nonlinear_arith)
            requires
                p < q,
                c < 128,
        ;
    }
}

/// `pow128` grows with its argument.
pub proof fn lemma_pow128_le(a: nat, b: nat)
    requires
        a <= b,
    ensures
        pow128(a) <= pow128(b),
{
    lemma_pow128_grows(a, b);
}

/// 128 to the 2nd, 4th and 8th.
pub proof fn lemma_pow128_values()
    ensures
        pow128(2) == 0x4000,
        pow128(4) == 0x1000_0000,
        pow128(8) == 0x100_0000_0000_0000,
{
    reveal_with_fuel(pow128, 9);
}

/// `pow128` grows with its argument.
proof fn lemma_pow128_grows(a: nat, b: nat)
    requires
        a <= b,
    ensures
        pow128(a) <= pow128(b),
    decreases b - a,
{
    if a < b {
        lemma_pow128_grows(a, (b - 1) as nat);
    }
}

/// A variable-length quantity read with a limit of `max_bytes` between 1 and 9
/// loses no bits: its value is the whole number that its bytes write, and is
/// less than 128 to the `max_bytes`th.
pub proof fn lemma_vlq_fits(s: Seq<u8>, max_bytes: nat)
    requires
        1 <= max_bytes <= 9,
    ensures
        take_vlq(s, max_bytes).0 matches Ok(v) ==> {
            &&& vlq_len(s) matches Some(n) && v as nat == vlq_value(s.take(n as int))
            &&& (v as nat) < pow128(max_bytes)
        },
{
    if let Some(n) = vlq_len(s) {
        if n <= max_bytes {
            let x = vlq_value(s.take(n as int));
            lemma_vlq_value_bound(s.take(n as int));
            lemma_pow128_grows(n, max_bytes);
            lemma_pow128_grows(max_bytes, 9);
            lemma_first_where_found(s, ends_vlq());
            reveal_with_fuel(pow128, 10);
            assert(pow128(9) == 0x8000_0000_0000_0000);
            assert(x < u64_modulus());
            assert(x % u64_modulus() == x) by {
                vstd::arithmetic::div_mod::lemma_small_mod(x, u64_modulus());
            }
        }
    }
}

/// Where the first `n` bytes of `s` are a variable-length quantity (each but
/// the last with its high bit set, the last with it clear), reading one with a
/// limit of `max_bytes` between 1 and 9 gives its whole value and leaves what
/// follows it when it fits the limit, and fails with `VlqExceedsMaxSize`
/// after `max_bytes` bytes when it does not.
pub proof fn lemma_vlq_read(s: Seq<u8>, n: nat, max_bytes: nat)
    requires
        1 <= n <= s.len(),
        1 <= max_bytes <= 9,
        forall|j: int| 0 <= j < n - 1 ==> #[trigger] s[j] >= 0x80,
        s[n - 1] < 0x80,
    ensures
        vlq_len(s) == Some(n),
        vlq_value(s.take(n as int)) < pow128(n),
        n <= max_bytes ==> take_vlq(s, max_bytes) == (
            Ok::<u64, IoErrorKind>(vlq_value(s.take(n as int)) as u64),
            s.skip(n as int),
        ),
        n > max_bytes ==> take_vlq(s, max_bytes) == (
            Err::<u64, IoErrorKind>(IoErrorKind::VlqExceedsMaxSize),
            s.skip(max_bytes as int),
        ),
{
    assert forall|j: int| 0 <= j < (n - 1) as nat implies !ends_vlq()(#[trigger] s[j]) by {}
    lemma_first_where_skip(s, ends_vlq(), (n - 1) as nat);
    assert(s.skip(n - 1)[0] == s[n - 1]);
    lemma_vlq_value_bound(s.take(n as int));
    lemma_vlq_fits(s, max_bytes);
}

/// Whether `p` is one whole variable-length quantity: at least one byte, each
/// byte but the last with its high bit set, the last with it clear.
pub open spec fn is_vlq(p: Seq<u8>) -> bool {
    &&& p.len() >= 1
    &&& forall|j: int| 0 <= j < p.len() - 1 ==> #[trigger] p[j] >= 0x80
    &&& p[p.len() - 1] < 0x80
}

/// A variable-length quantity `p` within the limit reads as its whole value,
/// whatever follows it, and leaves exactly what follows it.
pub proof fn lemma_vlq_prefix(p: Seq<u8>, t: Seq<u8>, max_bytes: nat)
    requires
        is_vlq(p),
        p.len() <= max_bytes <= 9,
    ensures
        vlq_value(p) < pow128(p.len()),
        take_vlq(p + t, max_bytes) == (Ok::<u64, IoErrorKind>(vlq_value(p) as u64), t),
{
    let s = p + t;
    assert forall|j: int| 0 <= j < p.len() - 1 implies #[trigger] s[j] >= 0x80 by {
        assert(s[j] == p[j]);
    }
    assert(s[p.len() - 1] == p[p.len() - 1]);
    lemma_vlq_read(s, p.len(), max_bytes);
    assert(s.take(p.len() as int) =~= p);
    assert(s.skip(p.len() as int) =~= t);
}

/// An unsized number of at most 8 bytes loses no bits: reading `b` and `rest`
/// as a number of `b.len()` bytes gives the whole number that `b` writes, most
/// significant byte first, and leaves `rest`.
pub proof fn lemma_unum_read(b: Seq<u8>, rest: Seq<u8>)
    requires
        b.len() <= 8,
    ensures
        be_value(b) < u64_modulus(),
        take_unum(b + rest, b.len()) == (Ok::<u64, IoErrorKind>(be_value(b) as u64), rest),
{
    lemma_be_value_bound(b);
    vstd::arithmetic::power::lemma_pow_increases(256, b.len(), 8);
    reveal_with_fuel(vstd::arithmetic::power::pow, 9);
    assert(vstd::arithmetic::power::pow(256, 8) == u64_modulus());
    vstd::arithmetic::div_mod::lemma_small_mod(be_value(b), u64_modulus());
    assert((b + rest).take(b.len() as int) =~= b);
    assert((b + rest).skip(b.len() as int) =~= rest);
}

/// A number of `n` bytes is less than 256 to the `n`th.
proof fn lemma_be_value_bound(s: Seq<u8>)
    ensures
        be_value(s) < vstd::arithmetic::power::pow(256, s.len()),
    decreases s.len(),
{
    reveal(vstd::arithmetic::power::pow);
    if s.len() > 0 {
        let p = be_value(s.drop_last());
        let q = vstd::arithmetic::power::pow(256, s.drop_last().len());
        let c = s.last();
        lemma_be_value_bound(s.drop_last());
        assert(p * 256 + c < 256 * q) by (nonlinear_arith)
            requires
                p < q,
                c < 256,
        ;
    }
}

/// A string read up to its zero byte is the bytes before the first zero byte,
/// whatever else they hold: where `t` holds no zero byte, reading `t`, a zero
/// byte and `rest` gives `t` decoded (or `InvalidUtf8` where `t` is not UTF-8)
/// and leaves `rest`.
pub proof fn lemma_c_string_read(t: Seq<u8>, rest: Seq<u8>)
    requires
        forall|j: int| 0 <= j < t.len() ==> #[trigger] t[j] != 0,
    ensures
        valid_utf8(t) ==> take_c_string(t + seq![0u8] + rest) == (
            Ok::<Seq<char>, IoErrorKind>(decode_utf8(t)),
            rest,
        ),
        !valid_utf8(t) ==> take_c_string(t + seq![0u8] + rest) == (
            Err::<Seq<char>, IoErrorKind>(IoErrorKind::InvalidUtf8),
            rest,
        ),
{
    let s = t + seq![0u8] + rest;
    assert forall|j: int| 0 <= j < t.len() implies !is_zero()(#[trigger] s[j]) by {
        assert(s[j] == t[j]);
    }
    lemma_first_where_skip(s, is_zero(), t.len());
    assert(s.skip(t.len() as int)[0] == 0);
    assert(s.take(t.len() as int) =~= t);
    assert(s.skip(t.len() as int + 1) =~= rest);
}

/// `((x mod m) * k + c) mod m` is `(x * k + c) mod m`.
pub proof fn lemma_mod_shift(x: int, k: int, c: int, m: int)
    requires
        0 < m,
    ensures
        ((x % m) * k + c) % m == (x * k + c) % m,
{
    lemma_add_mod_noop((x % m) * k, c, m);
    lemma_mul_mod_noop_left(x, k, m);
    lemma_add_mod_noop(x * k, c, m);
}

/// Calls `String::from_utf8`, which gives back the bytes as a `String` where they
/// are valid UTF-8 and an error otherwise. The contract claims that std's test
/// and decoding agree with vstd's `valid_utf8` and `decode_utf8`; nothing is said
/// of the error value.
#[verifier::external_body]
pub(crate) fn string_from_utf8(bytes: Vec<u8>) -> (r: Result<String, FromUtf8Error>)
    ensures
        r is Ok <==> valid_utf8(bytes@),
        r matches Ok(s) ==> s@ == decode_utf8(bytes@),
{
    String::from_utf8(bytes)
}

/// A source of bytes, read from the front, with the reads that BSV data is
/// made of.
pub trait ReadExt: Sized {
    /// The bytes that have not been read yet, in order.
    spec fn unread(&self) -> Seq<u8>;

    /// Takes the next `len` bytes. Where fewer are left, fails with
    /// `UnexpectedEof` and leaves nothing unread.
    fn read_exact(&mut self, len: usize) -> (r: Result<Vec<u8>, IoError>)
        ensures
            (io_view(r), final(self).unread()) == take_bytes(old(self).unread(), len as nat),
    ;

    /// Reads a variable-length quantity: seven bits from each byte, most
    /// significant first, until a byte whose high bit is clear. At most
    /// `max_bytes` bytes are read; 0 sets no limit.
    fn read_vlq(&mut self, max_bytes: usize) -> (r: Result<u64, IoError>)
        ensures
            (io_view(r), final(self).unread()) == take_vlq(old(self).unread(), max_bytes as nat),
    {
        let ghost s0 = self.unread();
        let mut value: u64 = 0;
        let mut i: usize = 0;
        let ghost mut count: nat = 0;
        assert(s0.take(0) =~= Seq::<u8>::empty());
        loop
            invariant
                s0 == old(self).unread(),
                count <= s0.len(),
                max_bytes == 0 ==> i == 0,
                max_bytes != 0 ==> i == count && i < max_bytes,
                forall|j: int| 0 <= j < count ==> !ends_vlq()(#[trigger] s0[j]),
                self.unread() == s0.skip(count as int),
                value == low_u64(vlq_value(s0.take(count as int))),
            decreases self.unread().len(),
        {
            proof {
                lemma_first_where_skip(s0, ends_vlq(), count);
            }
            let bytes = match self.read_exact(1) {
                Ok(b) => b,
                Err(e) => {
                    assert(s0.skip(count as int).len() == 0);
                    return Err(e);
                },
            };
            let byte = bytes[0];
            proof {
                let x = vlq_value(s0.take(count as int));
                let c = (byte % 128) as int;
                assert(s0.take(count as int + 1).drop_last() =~= s0.take(count as int));
                assert(vlq_value(s0.take(count as int + 1)) == x * 128 + c);
                assert(((value << 7u64) | ((byte & 0x7fu8) as u64)) == (value * 128 + byte % 128)
                    % 0x1_0000_0000_0000_0000) by (bit_vector);
                lemma_mod_shift(x as int, 128, c, u64_modulus() as int);
                assert((byte >> 7u8 == 0) == (byte < 0x80)) by (bit_vector);
                assert(self.unread() =~= s0.skip(count as int + 1));
                count = count + 1;
            }
            value = (value << 7) | (byte & 0x7f) as u64;
            if byte >> 7 == 0 {
                return Ok(value);
            }
            if max_bytes != 0 {
                i = i + 1;
                if max_bytes == i {
                    proof {
                        lemma_first_where_skip(s0, ends_vlq(), count);
                    }
                    return Err(IoError::VlqExceedsMaxSize);
                }
            }
        }
    }

    /// Reads one byte.
    fn read_u8(&mut self) -> (r: Result<u8, IoError>)
        ensures
            (io_view(r), final(self).unread()) == take_u8(old(self).unread()),
    {
        let bytes = self.read_exact(1)?;
        Ok(bytes[0])
    }

    /// Reads a big-endian `u16`.
    fn read_u16_be(&mut self) -> (r: Result<u16, IoError>)
        ensures
            (io_view(r), final(self).unread()) == take_u16_be(old(self).unread()),
    {
        let bytes = self.read_exact(2)?;
        Ok((bytes[0] as u16) * 256 + bytes[1] as u16)
    }

    /// Reads `len` bytes as a big-endian unsigned number, keeping its low 64 bits.
    fn read_unum(&mut self, len: usize) -> (r: Result<u64, IoError>)
        ensures
            (io_view(r), final(self).unread()) == take_unum(old(self).unread(), len as nat),
    {
        let buffer = self.read_exact(len)?;
        let mut value: u64 = 0;
        let mut i: usize = 0;
        while i < buffer.len()
            invariant
                i <= buffer.len(),
                value == low_u64(be_value(buffer@.take(i as int))),
            decreases buffer.len() - i,
        {
            let x = buffer[i];
            proof {
                let v = be_value(buffer@.take(i as int));
                assert(buffer@.take(i + 1).drop_last() =~= buffer@.take(i as int));
                assert(((value << 8u64) | (x as u64)) == (value * 256 + x) % 0x1_0000_0000_0000_0000)
                    by (bit_vector);
                lemma_mod_shift(v as int, 256, x as int, u64_modulus() as int);
            }
            value = (value << 8) | x as u64;
            i = i + 1;
        }
        assert(buffer@.take(buffer.len() as int) =~= buffer@);
        Ok(value)
    }

    /// Reads `len` bytes.
    fn read_blob(&mut self, len: usize) -> (r: Result<Vec<u8>, IoError>)
        ensures
            (io_view(r), final(self).unread()) == take_bytes(old(self).unread(), len as nat),
    {
        self.read_exact(len)
    }

    /// Reads bytes up to the first zero byte, which is taken too, and decodes
    /// those before it as UTF-8.
    fn read_null_terminated_string(&mut self) -> (r: Result<String, IoError>)
        ensures
            (io_view(r), final(self).unread()) == take_c_string(old(self).unread()),
    {
        let ghost s0 = self.unread();
        let mut buffer: Vec<u8> = Vec::new();
        loop
            invariant
                s0 == old(self).unread(),
                buffer.len() <= s0.len(),
                forall|j: int| 0 <= j < buffer.len() ==> #[trigger] s0[j] != 0,
                buffer@ == s0.take(buffer.len() as int),
                self.unread() == s0.skip(buffer.len() as int),
            decreases self.unread().len(),
        {
            proof {
                lemma_first_where_skip(s0, is_zero(), buffer.len() as nat);
            }
            let byte = match self.read_exact(1) {
                Ok(b) => b,
                Err(e) => {
                    assert(s0.skip(buffer.len() as int).len() == 0);
                    return Err(e);
                },
            };
            let ghost k = buffer.len();
            assert(self.unread() =~= s0.skip(k + 1));
            if byte[0] != 0 {
                buffer.push(byte[0]);
                assert(buffer@ =~= s0.take(buffer.len() as int));
            } else {
                assert(buffer@ =~= s0.take(k as int));
                return match string_from_utf8(buffer) {
                    Ok(s) => Ok(s),
                    Err(e) => Err(IoError::InvalidUtf8(e)),
                };
            }
        }
    }

    /// Reads nothing: the bytes are to be skipped into a buffer made with a
    /// capacity of `len` and a length of 0, so none are taken.
    fn skip(&mut self, len: usize) -> (r: Result<(), IoError>)
        ensures
            r is Ok,
            final(self).unread() == old(self).unread(),
    {
        self.read_exact(0)?;
        Ok(())
    }
}

/// Bytes held in memory, read from the front.
pub struct ByteReader {
    data: Vec<u8>,
    pos: usize,
}

impl ByteReader {
    /// A reader positioned at the first of `data`.
    pub fn new(data: Vec<u8>) -> (r: ByteReader)
        ensures
            r.unread() == data@,
    {
        let r = ByteReader { data, pos: 0 };
        assert(r.data@.subrange(0, r.data@.len() as int) =~= r.data@);
        r
    }
}

impl ReadExt for ByteReader {
    closed spec fn unread(&self) -> Seq<u8> {
        if self.pos <= self.data@.len() {
            self.data@.subrange(self.pos as int, self.data@.len() as int)
        } else {
            Seq::empty()
        }
    }

    fn read_exact(&mut self, len: usize) -> (r: Result<Vec<u8>, IoError>) {
        let n = self.data.len();
        if self.pos > n {
            self.pos = n;
        }
        let avail = n - self.pos;
        if len > avail {
            self.pos = n;
            assert(self.unread() =~= Seq::<u8>::empty());
            return Err(IoError::UnexpectedEof);
        }
        let mut out: Vec<u8> = Vec::new();
        let start = self.pos;
        let mut i: usize = 0;
        while i < len
            invariant
                start == self.pos,
                self.pos + len <= n,
                n == self.data@.len(),
                i <= len,
                out@ =~= self.data@.subrange(start as int, start + i),
            decreases len - i,
        {
            out.push(self.data[start + i]);
            i = i + 1;
        }
        self.pos = start + len;
        assert(out@ =~= old(self).unread().take(len as int));
        assert(self.unread() =~= old(self).unread().skip(len as int));
        Ok(out)
    }
}

} // verus!
