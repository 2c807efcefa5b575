//! Bounded reads over the decompressed bytes of a QSH file.
//!
//! Every read states its result as a function of the bytes not yet read:
//! on success it gives the value and consumes exactly its encoding, on
//! failure it leaves the reader as it was.

use vstd::prelude::*;
use vstd::slice::slice_subrange;
use vstd::utf8::{decode_utf8, valid_utf8};

use crate::types::{stream_of, Header, Stream, Timestamp};
use crate::{error_of, ErrorKind, QshError};

verus! {

// ---------------------------------------------------------------- encodings

pub open spec fn pow256(n: nat) -> nat
    decreases n,
{
    if n == 0 {
        1
    } else {
        256 * pow256((n - 1) as nat)
    }
}

pub open spec fn pow128(n: nat) -> nat
    decreases n,
{
    if n == 0 {
        1
    } else {
        128 * pow128((n - 1) as nat)
    }
}

/// The little-endian value of the bytes.
pub open spec fn le_value(s: Seq<u8>) -> nat
    decreases s.len(),
{
    if s.len() == 0 {
        0
    } else {
        s[0] as nat + 256 * le_value(s.drop_first())
    }
}

/// The two's-complement reading of a 16-bit unsigned value.
pub open spec fn signed16(v: int) -> int {
    if v < 0x8000 {
        v
    } else {
        v - 0x1_0000
    }
}

/// The two's-complement reading of a 64-bit unsigned value.
pub open spec fn signed64(v: int) -> int {
    if v < 0x8000_0000_0000_0000 {
        v
    } else {
        v - 0x1_0000_0000_0000_0000
    }
}

/// The index of the first byte without the continuation bit.
pub open spec fn leb_end(s: Seq<u8>) -> Option<int>
    decreases s.len(),
{
    if s.len() == 0 {
        None
    } else if s[0] < 0x80 {
        Some(0)
    } else {
        match leb_end(s.drop_first()) {
            None => None,
            Some(t) => Some(t + 1),
        }
    }
}

/// The seven-bit groups of the bytes, least significant first.
pub open spec fn leb_raw(s: Seq<u8>) -> nat
    decreases s.len(),
{
    if s.len() == 0 {
        0
    } else {
        (s[0] % 128) as nat + 128 * leb_raw(s.drop_first())
    }
}

/// Unsigned LEB128 at the front of `s`: the value and the bytes after it.
/// Ten bytes at most, the tenth being 0 or 1.
pub open spec fn spec_uleb(s: Seq<u8>) -> Result<(int, Seq<u8>), ErrorKind> {
    match leb_end(s) {
        None => Err(ErrorKind::UnexpectedEnd),
        Some(t) => if t <= 8 || (t == 9 && s[9] <= 1) {
            Ok((leb_raw(s.take(t + 1)) as int, s.skip(t + 1)))
        } else {
            Err(ErrorKind::Overflow)
        },
    }
}

/// Signed LEB128 at the front of `s`: bit 6 of the last byte extends the
/// sign. Ten bytes at most, the tenth being 0 or 0x7f.
pub open spec fn spec_leb(s: Seq<u8>) -> Result<(int, Seq<u8>), ErrorKind> {
    match leb_end(s) {
        None => Err(ErrorKind::UnexpectedEnd),
        Some(t) => if t <= 8 {
            let raw = leb_raw(s.take(t + 1)) as int;
            Ok((if s[t] >= 0x40 { raw - pow128((t + 1) as nat) } else { raw }, s.skip(t + 1)))
        } else if t == 9 && (s[9] == 0 || s[9] == 0x7f) {
            let raw = leb_raw(s.take(9)) as int;
            Ok((if s[9] == 0x7f { raw - 0x8000_0000_0000_0000 } else { raw }, s.skip(10)))
        } else {
            Err(ErrorKind::Overflow)
        },
    }
}

/// The value of an unsigned LEB128 that escapes to a signed one.
pub const GROWING_ESCAPE: u64 = 268_435_455;

/// A growing integer: unsigned LEB128, except that the value 268,435,455
/// announces a signed LEB128 with the real value. Unsigned values beyond
/// `i64` wrap round.
pub open spec fn spec_growing(s: Seq<u8>) -> Result<(int, Seq<u8>), ErrorKind> {
    match spec_uleb(s) {
        Err(k) => Err(k),
        Ok((u, rest)) => if u == GROWING_ESCAPE {
            spec_leb(rest)
        } else {
            Ok((signed64(u), rest))
        },
    }
}

pub open spec fn spec_fixed(s: Seq<u8>, n: nat) -> Result<(int, Seq<u8>), ErrorKind> {
    if s.len() < n {
        Err(ErrorKind::UnexpectedEnd)
    } else {
        Ok((le_value(s.take(n as int)) as int, s.skip(n as int)))
    }
}

pub open spec fn spec_signed(s: Seq<u8>, n: nat) -> Result<(int, Seq<u8>), ErrorKind> {
    match spec_fixed(s, n) {
        Err(k) => Err(k),
        Ok((v, rest)) => Ok((if n == 2 { signed16(v) } else { signed64(v) }, rest)),
    }
}

/// A string: a signed LEB128 length, then that many bytes of UTF-8.
pub open spec fn spec_string(s: Seq<u8>) -> Result<(Seq<char>, Seq<u8>), ErrorKind> {
    match spec_leb(s) {
        Err(k) => Err(k),
        Ok((n, rest)) => if n < 0 || rest.len() < n {
            Err(ErrorKind::UnexpectedEnd)
        } else if !valid_utf8(rest.take(n)) {
            Err(ErrorKind::InvalidUtf8)
        } else {
            Ok((decode_utf8(rest.take(n)), rest.skip(n)))
        },
    }
}

// ---------------------------------------------------------------- outside calls

/// Relies on `leb128::read::unsigned` (leb128 0.2): it reads bytes up to the
/// first one without the continuation bit and ORs their low seven bits in,
/// least significant first; a tenth byte other than 0 or 1 is `Overflow`
/// (after skipping to the end of the number), running out of bytes is an I/O
/// error. Gives the value and the number of bytes left after it.
#[verifier::external_body]
fn read_uleb(b: &[u8]) -> (r: Result<(u64, usize), QshError>)
    ensures
        match spec_uleb(b@) {
            Ok((v, rest)) => r matches Ok((x, n)) && x as int == v && n == rest.len(),
            Err(k) => r matches Err(e) && e.kind() == k,
        },
{
    let mut rest: &[u8] = b;
    match leb128::read::unsigned(&mut rest) {
        Ok(v) => Ok((v, rest.len())),
        Err(leb128::read::Error::IoError(_)) => Err(QshError::UnexpectedEnd),
        Err(leb128::read::Error::Overflow) => Err(QshError::Overflow),
    }
}

/// Relies on `leb128::read::signed` (leb128 0.2): as the unsigned read, and
/// bit 6 of the last byte extends the sign when fewer than 64 bits were
/// read; a tenth byte other than 0 or 0x7f is `Overflow`. Gives the value
/// and the number of bytes left after it.
#[verifier::external_body]
fn read_leb(b: &[u8]) -> (r: Result<(i64, usize), QshError>)
    ensures
        match spec_leb(b@) {
            Ok((v, rest)) => r matches Ok((x, n)) && x as int == v && n == rest.len(),
            Err(k) => r matches Err(e) && e.kind() == k,
        },
{
    let mut rest: &[u8] = b;
    match leb128::read::signed(&mut rest) {
        Ok(v) => Ok((v, rest.len())),
        Err(leb128::read::Error::IoError(_)) => Err(QshError::UnexpectedEnd),
        Err(leb128::read::Error::Overflow) => Err(QshError::Overflow),
    }
}

/// Relies on `String::from_utf8`: it succeeds exactly on valid UTF-8, and
/// the string then holds the characters that the bytes encode.
#[verifier::external_body]
fn utf8_string(b: Vec<u8>) -> (r: Option<String>)
    ensures
        r is Some <==> valid_utf8(b@),
        r matches Some(s) ==> s@ == decode_utf8(b@),
{
    String::from_utf8(b).ok()
}

// ---------------------------------------------------------------- lemmas

/// The growing integer escapes to signed LEB128 on the value 268,435,455,
/// encoded `ff ff ff 7f`: what follows is read as a signed LEB128.
pub proof fn lemma_growing_escape(rest: Seq<u8>)
    ensures
        spec_growing(seq![0xffu8, 0xff, 0xff, 0x7f] + rest) == spec_leb(rest),
{
    let s = seq![0xffu8, 0xff, 0xff, 0x7f] + rest;
    assert(s.drop_first() =~= seq![0xffu8, 0xff, 0x7f] + rest);
    assert(s.drop_first().drop_first() =~= seq![0xffu8, 0x7f] + rest);
    assert(s.drop_first().drop_first().drop_first() =~= seq![0x7fu8] + rest);
    assert(leb_end(s.drop_first().drop_first().drop_first()) == Some(0int));
    assert(s.drop_first().drop_first()[0] == 0xff);
    assert(leb_end(s.drop_first().drop_first()) == Some(1int));
    assert(s.drop_first()[0] == 0xff);
    assert(leb_end(s.drop_first()) == Some(2int));
    assert(s[0] == 0xff);
    assert(leb_end(s) == Some(3int));
    let t = s.take(4);
    assert(t =~= seq![0xffu8, 0xff, 0xff, 0x7f]);
    assert(t.drop_first() =~= seq![0xffu8, 0xff, 0x7f]);
    assert(t.drop_first().drop_first() =~= seq![0xffu8, 0x7f]);
    assert(t.drop_first().drop_first().drop_first() =~= seq![0x7fu8]);
    assert(t.drop_first().drop_first().drop_first().drop_first() =~= Seq::<u8>::empty());
    lemma_raw_7f();
    assert(leb_raw(seq![0xffu8, 0x7f]) == 127 + 128 * 127) by {
        assert(seq![0xffu8, 0x7f].drop_first() =~= seq![0x7fu8]);
    }
    assert(leb_raw(seq![0xffu8, 0xff, 0x7f]) == 127 + 128 * (127 + 128 * 127)) by {
        assert(seq![0xffu8, 0xff, 0x7f].drop_first() =~= seq![0xffu8, 0x7f]);
    }
    assert(leb_raw(t) == 127 + 128 * (127 + 128 * (127 + 128 * 127)));
    assert(s.skip(4) =~= rest);
}

/// A growing integer below the escape value is the unsigned LEB128 itself:
/// `7f` reads as 127.
pub proof fn lemma_growing_plain(rest: Seq<u8>)
    ensures
        spec_growing(seq![0x7fu8] + rest) == Ok::<(int, Seq<u8>), ErrorKind>((127, rest)),
{
    let s = seq![0x7fu8] + rest;
    assert(leb_end(s) == Some(0int));
    assert(s.take(1) =~= seq![0x7fu8]);
    lemma_raw_7f();
    assert(s.skip(1) =~= rest);
}

proof fn lemma_raw_7f()
    ensures
        leb_raw(seq![0x7fu8]) == 127,
{
    assert(seq![0x7fu8].drop_first() =~= Seq::<u8>::empty());
    assert(leb_raw(Seq::<u8>::empty()) == 0);
    assert(seq![0x7fu8][0] == 0x7f);
}

/// Bytes handed over in two pieces read as one: a read of `n` bytes that
/// starts in the first piece and ends in the second sees the end of the
/// first followed by the start of the second; a `u64` read there is the
/// little-endian value of those joined bytes.
pub proof fn lemma_read_across_pieces(a: Seq<u8>, b: Seq<u8>, n: int)
    requires
        a.len() < n <= a.len() + b.len(),
    ensures
        (a + b).take(n) == a + b.take(n - a.len()),
        n == 8 ==> spec_fixed(a + b, 8) == Ok::<(int, Seq<u8>), ErrorKind>(
            (le_value(a + b.take(8 - a.len())) as int, (a + b).skip(8)),
        ),
{
    assert((a + b).take(n) =~= a + b.take(n - a.len()));
}

proof fn lemma_le_bound(s: Seq<u8>)
    ensures
        le_value(s) < pow256(s.len()),
    decreases s.len(),
{
    if s.len() > 0 {
        lemma_le_bound(s.drop_first());
        let a = s[0] as nat;
        let r = le_value(s.drop_first());
        let p = pow256(s.drop_first().len());
        assert(a + 256 * r < 256 * p) by (nonlinear_arith)
            requires
                a < 256,
                r < p,
        ;
    }
}

proof fn lemma_le_step(s: Seq<u8>, i: int, n: int)
    requires
        0 <= i < n <= s.len(),
    ensures
        le_value(s.subrange(i, n)) == s[i] as nat + 256 * le_value(s.subrange(i + 1, n)),
{
    assert(s.subrange(i, n).drop_first() =~= s.subrange(i + 1, n));
}

proof fn lemma_leb_end_bound(s: Seq<u8>)
    ensures
        leb_end(s) matches Some(t) ==> 0 <= t < s.len(),
    decreases s.len(),
{
    if s.len() > 0 && s[0] >= 0x80 {
        lemma_leb_end_bound(s.drop_first());
    }
}

proof fn lemma_skip_skip(s: Seq<u8>, a: int, b: int)
    requires
        0 <= a,
        0 <= b,
        a + b <= s.len(),
    ensures
        s.skip(a).skip(b) == s.skip(a + b),
{
    assert(s.skip(a).skip(b) =~= s.skip(a + b));
}

/// The unsigned value of `v` as `i64`, wrapping round above `i64::MAX`.
fn wrap_i64(v: u64) -> (r: i64)
    ensures
        r as int == signed64(v as int),
{
    if v <= i64::MAX as u64 {
        v as i64
    } else {
        ((v - 0x8000_0000_0000_0000u64) as i64) + i64::MIN
    }
}

// ---------------------------------------------------------------- reader

/// The bytes of a QSH payload and how far they have been read. Bytes can
/// be handed over all at once or in pieces as they are decompressed; a read
/// that spans two pieces sees them joined.
pub struct QshRead {
    data: Vec<u8>,
    pos: usize,
}

impl View for QshRead {
    type V = Seq<u8>;

    /// The bytes not yet read.
    closed spec fn view(&self) -> Seq<u8> {
        self.data@.skip(self.pos as int)
    }
}

impl QshRead {
    pub closed spec fn wf(&self) -> bool {
        self.pos <= self.data@.len()
    }

    /// A reader over `data`.
    pub fn new(data: Vec<u8>) -> (r: QshRead)
        ensures
            r.wf(),
            r@ == data@,
    {
        let r = QshRead { data, pos: 0 };
        assert(r@ =~= r.data@);
        r
    }

    /// Appends bytes after those not yet read; the bytes already read are
    /// let go.
    pub fn feed(&mut self, more: &[u8])
        requires
            old(self).wf(),
        ensures
            final(self).wf(),
            final(self)@ == old(self)@ + more@,
    {
        let ghost want = self@ + more@;
        let mut d: Vec<u8> = Vec::new();
        let mut i: usize = self.pos;
        while i < self.data.len()
            invariant
                self.pos <= i <= self.data@.len(),
                d@ == self.data@.subrange(self.pos as int, i as int),
            decreases self.data@.len() - i,
        {
            d.push(self.data[i]);
            i = i + 1;
            assert(d@ =~= self.data@.subrange(self.pos as int, i as int));
        }
        let mut j: usize = 0;
        while j < more.len()
            invariant
                j <= more@.len(),
                d@ == self@ + more@.subrange(0, j as int),
            decreases more@.len() - j,
        {
            d.push(more[j]);
            j = j + 1;
            assert(d@ =~= self@ + more@.subrange(0, j as int));
        }
        assert(d@ =~= want);
        self.data = d;
        self.pos = 0;
        assert(self@ =~= want);
    }

    /// How many bytes are left.
    pub fn remaining(&self) -> (n: usize)
        requires
            self.wf(),
        ensures
            n == self@.len(),
    {
        self.data.len() - self.pos
    }

    /// The byte `i` places ahead, without consuming anything.
    pub fn peek(&self, i: usize) -> (b: u8)
        requires
            self.wf(),
            i < self@.len(),
        ensures
            b == self@[i as int],
    {
        let len = self.data.len();
        assert(self.pos + i < len);
        self.data[self.pos + i]
    }

    /// Whether every byte has been read.
    pub fn eof(&self) -> (r: bool)
        requires
            self.wf(),
        ensures
            r == (self@.len() == 0),
    {
        self.pos >= self.data.len()
    }

    /// Consumes `n` bytes, which must be there.
    fn advance(&mut self, n: usize)
        requires
            old(self).wf(),
            n <= old(self)@.len(),
        ensures
            final(self).wf(),
            final(self)@ == old(self)@.skip(n as int),
            final(self).data == old(self).data,
    {
        let len = self.data.len();
        proof {
            lemma_skip_skip(self.data@, self.pos as int, n as int);
            assert(self@.len() == self.data@.len() - self.pos);
            assert(self.pos + n <= len);
        }
        self.pos = self.pos + n;
    }

    fn rest_slice(&self) -> (r: &[u8])
        requires
            self.wf(),
        ensures
            r@ == self@,
    {
        let r = slice_subrange(self.data.as_slice(), self.pos, self.data.len());
        assert(r@ =~= self@);
        r
    }

    /// The next `n` bytes.
    pub fn consume(&mut self, n: usize) -> (r: Result<Vec<u8>, QshError>)
        requires
            old(self).wf(),
        ensures
            final(self).wf(),
            n <= old(self)@.len() ==> (r matches Ok(v) && v@ == old(self)@.take(n as int) && final(self)@
                == old(self)@.skip(n as int)),
            n > old(self)@.len() ==> (r matches Err(e) && e.kind() == ErrorKind::UnexpectedEnd && final(self)@
                == old(self)@),
    {
        if self.data.len() - self.pos < n {
            return Err(error_of(ErrorKind::UnexpectedEnd, ""));
        }
        let len = self.data.len();
        let mut v: Vec<u8> = Vec::new();
        let mut i: usize = 0;
        while i < n
            invariant
                self.wf(),
                len == self.data@.len(),
                i <= n <= self@.len(),
                v@ == self@.take(i as int),
            decreases n - i,
        {
            assert(self.pos + i < len);
            v.push(self.data[self.pos + i]);
            i = i + 1;
            assert(v@ =~= self@.take(i as int));
        }
        self.advance(n);
        Ok(v)
    }

    /// One byte.
    pub fn byte(&mut self) -> (r: Result<u8, QshError>)
        requires
            old(self).wf(),
        ensures
            final(self).wf(),
            match spec_fixed(old(self)@, 1) {
                Ok((v, rest)) => r matches Ok(x) && x as int == v && final(self)@ == rest,
                Err(k) => r matches Err(e) && e.kind() == k && final(self)@ == old(self)@,
            },
    {
        if self.pos >= self.data.len() {
            return Err(error_of(ErrorKind::UnexpectedEnd, ""));
        }
        let b = self.data[self.pos];
        proof {
            let s = self@;
            assert(s.take(1).drop_first() =~= Seq::<u8>::empty());
            assert(le_value(s.take(1)) == s[0] as nat + 256 * le_value(Seq::<u8>::empty()));
        }
        self.advance(1);
        Ok(b)
    }

    /// A little-endian `u16`.
    pub fn u16(&mut self) -> (r: Result<u16, QshError>)
        requires
            old(self).wf(),
        ensures
            final(self).wf(),
            match spec_fixed(old(self)@, 2) {
                Ok((v, rest)) => r matches Ok(x) && x as int == v && final(self)@ == rest,
                Err(k) => r matches Err(e) && e.kind() == k && final(self)@ == old(self)@,
            },
    {
        if self.data.len() - self.pos < 2 {
            return Err(error_of(ErrorKind::UnexpectedEnd, ""));
        }
        let b0 = self.data[self.pos];
        let b1 = self.data[self.pos + 1];
        proof {
            let s = self@.take(2);
            assert(s.drop_first().drop_first() =~= Seq::<u8>::empty());
            assert(le_value(s.drop_first()) == s[1] as nat + 256 * le_value(Seq::<u8>::empty()));
        }
        self.advance(2);
        Ok(b0 as u16 + 256 * (b1 as u16))
    }

    /// A little-endian `u64`.
    pub fn u64(&mut self) -> (r: Result<u64, QshError>)
        requires
            old(self).wf(),
        ensures
            final(self).wf(),
            match spec_fixed(old(self)@, 8) {
                Ok((v, rest)) => r matches Ok(x) && x as int == v && final(self)@ == rest,
                Err(k) => r matches Err(e) && e.kind() == k && final(self)@ == old(self)@,
            },
    {
        if self.data.len() - self.pos < 8 {
            return Err(error_of(ErrorKind::UnexpectedEnd, ""));
        }
        let ghost s = self@.take(8);
        let len = self.data.len();
        let p = self.pos;
        let mut res: u64 = 0;
        let mut i: usize = 8;
        proof {
            assert(s.subrange(8, 8) =~= Seq::<u8>::empty());
            reveal_with_fuel(pow256, 9);
        }
        while i > 0
            invariant
                i <= 8,
                self.wf(),
                len == self.data@.len(),
                p == self.pos,
                p + 8 <= len,
                s == self@.take(8),
                res as nat == le_value(s.subrange(i as int, 8)),
                (res as nat) < pow256((8 - i) as nat),
                pow256(8) == 0x1_0000_0000_0000_0000,
            decreases i,
        {
            let b = self.data[p + i - 1];
            proof {
                assert(b == s[i - 1]);
                lemma_le_step(s, i - 1, 8);
                lemma_le_bound(s.subrange(i - 1, 8));
                assert(s.subrange(i - 1, 8).len() == 9 - i);
                assert(pow256((8 - (i - 1)) as nat) == 256 * pow256((8 - i) as nat));
                assert(pow256((9 - i) as nat) <= pow256(8)) by {
                    lemma_pow256_mono((9 - i) as nat, 8);
                }
            }
            res = res * 256 + b as u64;
            i = i - 1;
        }
        assert(s.subrange(0, 8) =~= s);
        self.advance(8);
        Ok(res)
    }

    /// A little-endian `i16`.
    pub fn i16(&mut self) -> (r: Result<i16, QshError>)
        requires
            old(self).wf(),
        ensures
            final(self).wf(),
            match spec_signed(old(self)@, 2) {
                Ok((v, rest)) => r matches Ok(x) && x as int == v && final(self)@ == rest,
                Err(k) => r matches Err(e) && e.kind() == k && final(self)@ == old(self)@,
            },
    {
        let u = match self.u16() {
            Ok(u) => u,
            Err(e) => return Err(e),
        };
        if u <= 0x7fff {
            Ok(u as i16)
        } else {
            Ok(((u - 0x8000u16) as i16) + i16::MIN)
        }
    }

    /// A little-endian `i64`.
    pub fn i64(&mut self) -> (r: Result<i64, QshError>)
        requires
            old(self).wf(),
        ensures
            final(self).wf(),
            match spec_signed(old(self)@, 8) {
                Ok((v, rest)) => r matches Ok(x) && x as int == v && final(self)@ == rest,
                Err(k) => r matches Err(e) && e.kind() == k && final(self)@ == old(self)@,
            },
    {
        match self.u64() {
            Ok(u) => Ok(wrap_i64(u)),
            Err(e) => Err(e),
        }
    }

    /// An unsigned LEB128.
    pub fn uleb(&mut self) -> (r: Result<u64, QshError>)
        requires
            old(self).wf(),
        ensures
            final(self).wf(),
            match spec_uleb(old(self)@) {
                Ok((v, rest)) => r matches Ok(x) && x as int == v && final(self)@ == rest,
                Err(k) => r matches Err(e) && e.kind() == k && final(self)@ == old(self)@,
            },
    {
        let s = self.rest_slice();
        proof {
            lemma_leb_end_bound(s@);
        }
        match read_uleb(s) {
            Ok((v, left)) => {
                let n = s.len() - left;
                self.advance(n);
                Ok(v)
            },
            Err(e) => Err(e),
        }
    }

    /// A signed LEB128.
    pub fn leb(&mut self) -> (r: Result<i64, QshError>)
        requires
            old(self).wf(),
        ensures
            final(self).wf(),
            match spec_leb(old(self)@) {
                Ok((v, rest)) => r matches Ok(x) && x as int == v && final(self)@ == rest,
                Err(k) => r matches Err(e) && e.kind() == k && final(self)@ == old(self)@,
            },
    {
        let s = self.rest_slice();
        proof {
            lemma_leb_end_bound(s@);
        }
        match read_leb(s) {
            Ok((v, left)) => {
                let n = s.len() - left;
                self.advance(n);
                Ok(v)
            },
            Err(e) => Err(e),
        }
    }

    /// A growing integer.
    pub fn growing(&mut self) -> (r: Result<i64, QshError>)
        requires
            old(self).wf(),
        ensures
            final(self).wf(),
            match spec_growing(old(self)@) {
                Ok((v, rest)) => r matches Ok(x) && x as int == v && final(self)@ == rest,
                Err(k) => r matches Err(e) && e.kind() == k && final(self)@ == old(self)@,
            },
    {
        let s = self.rest_slice();
        proof {
            lemma_leb_end_bound(s@);
        }
        let (u, left) = match read_uleb(s) {
            Ok(x) => x,
            Err(e) => return Err(e),
        };
        let n = s.len() - left;
        if u == GROWING_ESCAPE {
            let t = slice_subrange(s, n, s.len());
            proof {
                assert(t@ =~= self@.skip(n as int));
                lemma_leb_end_bound(t@);
            }
            match read_leb(t) {
                Ok((v, left2)) => {
                    proof {
                        lemma_skip_skip(self@, n as int, (t@.len() - left2) as int);
                    }
                    self.advance(s.len() - left2);
                    Ok(v)
                },
                Err(e) => Err(e),
            }
        } else {
            self.advance(n);
            Ok(wrap_i64(u))
        }
    }

    /// A length-prefixed UTF-8 string.
    pub fn string(&mut self) -> (r: Result<String, QshError>)
        requires
            old(self).wf(),
        ensures
            final(self).wf(),
            match spec_string(old(self)@) {
                Ok((v, rest)) => r matches Ok(x) && x@ == v && final(self)@ == rest,
                Err(k) => r matches Err(e) && e.kind() == k && final(self)@ == old(self)@,
            },
    {
        let s = self.rest_slice();
        proof {
            lemma_leb_end_bound(s@);
        }
        let (n, left) = match read_leb(s) {
            Ok(x) => x,
            Err(e) => return Err(e),
        };
        let h = s.len() - left;
        if n < 0 || (left as u64) < (n as u64) {
            return Err(error_of(ErrorKind::UnexpectedEnd, ""));
        }
        let n = n as usize;
        let ghost rest = s@.skip(h as int);
        let sl = s.len();
        let mut b: Vec<u8> = Vec::new();
        let mut i: usize = 0;
        while i < n
            invariant
                i <= n,
                h + n <= s@.len(),
                sl == s@.len(),
                rest == s@.skip(h as int),
                b@ == rest.take(i as int),
            decreases n - i,
        {
            b.push(s[h + i]);
            i = i + 1;
            assert(b@ =~= rest.take(i as int));
        }
        match utf8_string(b) {
            Some(t) => {
                proof {
                    lemma_skip_skip(self@, h as int, n as int);
                }
                self.advance(h + n);
                Ok(t)
            },
            None => Err(error_of(ErrorKind::InvalidUtf8, "")),
        }
    }
}

proof fn lemma_pow256_mono(a: nat, b: nat)
    requires
        a <= b,
    ensures
        pow256(a) <= pow256(b),
    decreases b,
{
    if a < b {
        lemma_pow256_mono(a, (b - 1) as nat);
    }
}

// ---------------------------------------------------------------- header

/// "QScalp History Data" in ASCII.
pub open spec fn spec_signature() -> Seq<u8> {
    seq![
        0x51u8, 0x53, 0x63, 0x61, 0x6c, 0x70, 0x20, 0x48, 0x69, 0x73, 0x74, 0x6f, 0x72, 0x79, 0x20, 0x44,
        0x61, 0x74, 0x61,
    ]
}

fn signature() -> (r: Vec<u8>)
    ensures
        r@ == spec_signature(),
{
    let v: Vec<u8> = vec![
        0x51u8, 0x53, 0x63, 0x61, 0x6c, 0x70, 0x20, 0x48, 0x69, 0x73, 0x74, 0x6f, 0x72, 0x79, 0x20, 0x44,
        0x61, 0x74, 0x61,
    ];
    assert(v@ =~= spec_signature());
    v
}

/// A header as mathematical values.
pub struct HeaderModel {
    pub recording_time: int,
    pub version: u8,
    pub stream: Stream,
    pub instrument: Seq<char>,
    pub recorder: Seq<char>,
    pub comment: Seq<char>,
}

/// The stream type and instrument that end a header.
pub open spec fn spec_header_stream(s: Seq<u8>, rec: Seq<char>, com: Seq<char>, t: int) -> Result<(HeaderModel, Seq<u8>), ErrorKind> {
    match spec_fixed(s, 1) {
        Err(k) => Err(k),
        Ok((st, s2)) => match spec_string(s2) {
            Err(k) => Err(k),
            Ok((ins, s3)) => match stream_of(st as u8) {
                None => Err(ErrorKind::Validation),
                Some(stream) => Ok((
                    HeaderModel {
                        recording_time: if t < 0 { 0 } else { t },
                        version: 4,
                        stream,
                        instrument: ins,
                        recorder: rec,
                        comment: com,
                    },
                    s3,
                )),
            },
        },
    }
}

/// The header after its signature: version 4, recorder, comment, recording
/// time (negative times read as zero), exactly one stream, then its type and
/// instrument.
pub open spec fn spec_header_body(s: Seq<u8>) -> Result<(HeaderModel, Seq<u8>), ErrorKind> {
    match spec_fixed(s, 1) {
        Err(k) => Err(k),
        Ok((ver, s2)) => if ver != 4 {
            Err(ErrorKind::Validation)
        } else {
            match spec_string(s2) {
                Err(k) => Err(k),
                Ok((rec, s3)) => match spec_string(s3) {
                    Err(k) => Err(k),
                    Ok((com, s4)) => match spec_signed(s4, 8) {
                        Err(k) => Err(k),
                        Ok((t, s5)) => match spec_fixed(s5, 1) {
                            Err(k) => Err(k),
                            Ok((cnt, s6)) => if cnt != 1 {
                                Err(ErrorKind::Validation)
                            } else {
                                spec_header_stream(s6, rec, com, t)
                            },
                        },
                    },
                },
            }
        },
    }
}

/// The header at the front of `s`, and the bytes after it.
pub open spec fn spec_header(s: Seq<u8>) -> Result<(HeaderModel, Seq<u8>), ErrorKind> {
    if s.len() < 19 {
        Err(ErrorKind::UnexpectedEnd)
    } else if s.take(19) != spec_signature() {
        Err(ErrorKind::Validation)
    } else {
        spec_header_body(s.skip(19))
    }
}

pub open spec fn header_is(h: Header, m: HeaderModel) -> bool {
    &&& h.recording_time as int == m.recording_time
    &&& h.version == m.version
    &&& h.stream == m.stream
    &&& h.instrument@ == m.instrument
    &&& h.recorder@ == m.recorder
    &&& h.comment@ == m.comment
}

/// Reads the header of a QSH file. A wrong signature, a version other than
/// 4, a stream count other than one and an unknown stream type are
/// `Validation` errors.
pub fn header(p: &mut QshRead) -> (r: Result<Header, QshError>)
    requires
        old(p).wf(),
    ensures
        final(p).wf(),
        match spec_header(old(p)@) {
            Ok((h, rest)) => r matches Ok(x) && header_is(x, h) && final(p)@ == rest,
            Err(k) => r matches Err(e) && e.kind() == k,
        },
{
    let ghost s = p@;
    if p.remaining() < 19 {
        return Err(error_of(ErrorKind::UnexpectedEnd, ""));
    }
    let sig = signature();
    let mut i: usize = 0;
    while i < 19
        invariant
            i <= 19,
            p.wf(),
            p@ == s,
            s.len() >= 19,
            sig@ == spec_signature(),
            forall|j: int| 0 <= j < i ==> s[j] == spec_signature()[j],
        decreases 19 - i,
    {
        if p.peek(i) != sig[i] {
            proof {
                assert(s.take(19)[i as int] != spec_signature()[i as int]);
            }
            return Err(error_of(ErrorKind::Validation, "not a QScalp History file: bad signature"));
        }
        i = i + 1;
    }
    proof {
        assert(s.take(19) =~= spec_signature());
    }
    p.advance(19);
    header_body(p)
}

fn header_body(p: &mut QshRead) -> (r: Result<Header, QshError>)
    requires
        old(p).wf(),
    ensures
        final(p).wf(),
        match spec_header_body(old(p)@) {
            Ok((h, rest)) => r matches Ok(x) && header_is(x, h) && final(p)@ == rest,
            Err(k) => r matches Err(e) && e.kind() == k,
        },
{
    let version = match p.byte() {
        Ok(v) => v,
        Err(e) => return Err(e),
    };
    if version != 4 {
        return Err(error_of(ErrorKind::Validation, "unsupported format version, 4 is expected"));
    }
    let recorder = match p.string() {
        Ok(v) => v,
        Err(e) => return Err(e),
    };
    let comment = match p.string() {
        Ok(v) => v,
        Err(e) => return Err(e),
    };
    let recording_time = match p.i64() {
        Ok(v) => v,
        Err(e) => return Err(e),
    };
    let stream_count = match p.byte() {
        Ok(v) => v,
        Err(e) => return Err(e),
    };
    if stream_count == 0 {
        return Err(error_of(ErrorKind::Validation, "the file holds no data stream"));
    }
    if stream_count > 1 {
        return Err(error_of(ErrorKind::Validation, "files with several streams are not supported"));
    }
    header_stream(p, recorder, comment, recording_time)
}

fn header_stream(p: &mut QshRead, recorder: String, comment: String, t: i64) -> (r: Result<Header, QshError>)
    requires
        old(p).wf(),
    ensures
        final(p).wf(),
        match spec_header_stream(old(p)@, recorder@, comment@, t as int) {
            Ok((h, rest)) => r matches Ok(x) && header_is(x, h) && final(p)@ == rest,
            Err(k) => r matches Err(e) && e.kind() == k,
        },
{
    let stream_type = match p.byte() {
        Ok(v) => v,
        Err(e) => return Err(e),
    };
    let instrument = match p.string() {
        Ok(v) => v,
        Err(e) => return Err(e),
    };
    let stream = match Stream::from_byte(stream_type) {
        Some(st) => st,
        None => return Err(error_of(ErrorKind::Validation, "unsupported stream type")),
    };
    let recording_time: Timestamp = if t < 0 { 0 } else { t };
    Ok(Header { recording_time, version: 4, stream, instrument, recorder, comment })
}

} // verus!
