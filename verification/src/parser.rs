//! The byte cursor: sequential reads of little-endian integers, of
//! length-prefixed strings and of reserved regions.

use vstd::prelude::*;
use vstd::utf8::{decode_utf8, valid_utf8};
use crate::error::{AsepriteError, Corruption};

verus! {

/// What a [`Parser`] stands for: the bytes of the source and the offset of
/// the next byte to read. The offset may lie behind the last byte; every read
/// from there fails.
pub struct ParserView {
    pub data: Seq<u8>,
    pub pos: int,
}

impl ParserView {
    /// `n` more bytes can be read.
    pub open spec fn has(self, n: int) -> bool {
        self.pos + n <= self.data.len()
    }
}

/// The unsigned 16-bit integer stored at `at`, low byte first.
pub open spec fn le_u16(s: Seq<u8>, at: int) -> u16 {
    (s[at] as int + 256 * s[at + 1] as int) as u16
}

/// The unsigned 32-bit integer stored at `at`, low byte first.
pub open spec fn le_u32(s: Seq<u8>, at: int) -> u32 {
    (s[at] as int + 256 * s[at + 1] as int + 65536 * s[at + 2] as int + 16777216 * s[at
        + 3] as int) as u32
}

/// The unsigned 64-bit integer stored at `at`, low byte first.
pub open spec fn le_u64(s: Seq<u8>, at: int) -> u64 {
    (le_u32(s, at) as int + 4294967296 * le_u32(s, at + 4) as int) as u64
}

/// The signed 8-bit integer stored at `at` in two's complement.
pub open spec fn le_i8(s: Seq<u8>, at: int) -> i8 {
    if s[at] < 128 {
        s[at] as i8
    } else {
        (s[at] as int - 256) as i8
    }
}

/// The signed 32-bit integer stored at `at` in two's complement, low byte
/// first.
pub open spec fn le_i32(s: Seq<u8>, at: int) -> i32 {
    let u = le_u32(s, at) as int;
    if u < 2147483648 {
        u as i32
    } else {
        (u - 4294967296) as i32
    }
}

/// The signed 64-bit integer stored at `at` in two's complement, low byte
/// first.
pub open spec fn le_i64(s: Seq<u8>, at: int) -> i64 {
    let u = le_u64(s, at) as int;
    if u < 9223372036854775808 {
        u as i64
    } else {
        (u - 18446744073709551616) as i64
    }
}

/// The signed 16-bit integer stored at `at` in two's complement, low byte
/// first.
pub open spec fn le_i16(s: Seq<u8>, at: int) -> i16 {
    let u = le_u16(s, at) as int;
    if u < 32768 {
        u as i16
    } else {
        (u - 65536) as i16
    }
}

/// A value that can be read from the cursor.
pub trait Parse: Sized + View {
    /// What a read at offset `pos` of `data` gives: the value and the offset
    /// behind it, or the error.
    spec fn decode(data: Seq<u8>, pos: int) -> Result<(Self::V, int), AsepriteError>;

    /// Reads one value. A read that fails leaves the cursor where it was.
    fn parse(p: &mut Parser) -> (r: Result<Self, AsepriteError>)
        ensures
            final(p)@.data == old(p)@.data,
            match Self::decode(old(p)@.data, old(p)@.pos) {
                Ok((v, end)) => r is Ok && r->Ok_0@ == v && final(p)@.pos == end,
                Err(e) => r is Err && r->Err_0 == e && final(p)@.pos == old(p)@.pos,
            },
    ;
}

/// `r` and the cursor `after` are what reading a `P` at the cursor `before`
/// gives.
pub open spec fn reads<P: Parse>(before: ParserView, after: ParserView, r: Result<P, AsepriteError>)
    -> bool {
    &&& after.data == before.data
    &&& match P::decode(before.data, before.pos) {
        Ok((v, end)) => r is Ok && r->Ok_0@ == v && after.pos == end,
        Err(e) => r is Err && r->Err_0 == e && after.pos == before.pos,
    }
}

/// A sequential cursor over the bytes of a file.
#[derive(Debug)]
pub struct Parser {
    data: Vec<u8>,
    pos: usize,
}

impl View for Parser {
    type V = ParserView;

    closed spec fn view(&self) -> ParserView {
        ParserView { data: self.data@, pos: self.pos as int }
    }
}

/// `String::from_utf8` of std: the bytes as a string where they are valid
/// UTF-8, the characters being those that the bytes encode; nothing where
/// they are not.
#[verifier::external_body]
fn string_from_utf8(bytes: Vec<u8>) -> (r: Option<String>)
    ensures
        r is Some <==> valid_utf8(bytes@),
        r is Some ==> r->0@ == decode_utf8(bytes@),
{
    String::from_utf8(bytes).ok()
}

impl Parser {
    /// A cursor at the first byte of `data`.
    pub fn new(data: Vec<u8>) -> (p: Parser)
        ensures
            p@ == (ParserView { data: data@, pos: 0 }),
    {
        Parser { data, pos: 0 }
    }

    /// Moves the cursor to the absolute offset `n`, which may lie behind the
    /// last byte. Fails only where the machine cannot hold the offset.
    pub fn seek(&mut self, n: u64) -> (r: Result<(), AsepriteError>)
        ensures
            final(self)@.data == old(self)@.data,
            n <= usize::MAX ==> r == Ok::<(), AsepriteError>(()) && final(self)@.pos == n,
            n > usize::MAX ==> r == Err::<(), AsepriteError>(AsepriteError::Io) && final(self)@.pos
                == old(self)@.pos,
    {
        if n > usize::MAX as u64 {
            return Err(AsepriteError::Io);
        }
        self.pos = n as usize;
        Ok(())
    }

    /// Puts the cursor back to an offset that it has passed.
    pub fn rewind(&mut self, n: usize)
        requires
            n <= old(self)@.pos,
        ensures
            final(self)@ == (ParserView { pos: n as int, ..old(self)@ }),
    {
        self.pos = n;
    }

    /// Whether `n` more bytes can be read.
    pub fn available(&self, n: usize) -> (b: bool)
        ensures
            b == self@.has(n as int),
            b ==> self@.pos + n <= usize::MAX,
    {
        self.pos <= self.data.len() && n <= self.data.len() - self.pos
    }

    /// Reads the next `n` bytes.
    pub fn next_n(&mut self, n: usize) -> (r: Result<Vec<u8>, AsepriteError>)
        ensures
            final(self)@.data == old(self)@.data,
            old(self)@.has(n as int) ==> r is Ok && r->Ok_0@ == old(self)@.data.subrange(
                old(self)@.pos,
                old(self)@.pos + n,
            ) && final(self)@.pos == old(self)@.pos + n,
            !old(self)@.has(n as int) ==> r == Err::<Vec<u8>, AsepriteError>(AsepriteError::Io)
                && final(self)@.pos == old(self)@.pos,
    {
        if !self.available(n) {
            return Err(AsepriteError::Io);
        }
        let start: usize = self.pos;
        let mut out: Vec<u8> = Vec::new();
        let mut i: usize = 0;
        while i < n
            invariant
                i <= n,
                start + n <= self.data@.len(),
                start + n <= usize::MAX,
                out@ == self.data@.subrange(start as int, start + i),
            decreases n - i,
        {
            out.push(self.data[start + i]);
            i += 1;
            assert(out@ =~= self.data@.subrange(start as int, start + i));
        }
        self.pos = start + n;
        Ok(out)
    }

    /// Reads one value of the type asked for.
    pub fn next<P: Parse>(&mut self) -> (r: Result<P, AsepriteError>)
        ensures
            reads::<P>(old(self)@, final(self)@, r),
    {
        P::parse(self)
    }

    /// Discards the next `n` bytes.
    pub fn skip(&mut self, n: usize) -> (r: Result<(), AsepriteError>)
        ensures
            final(self)@.data == old(self)@.data,
            old(self)@.has(n as int) ==> r == Ok::<(), AsepriteError>(()) && final(self)@.pos
                == old(self)@.pos + n,
            !old(self)@.has(n as int) ==> r == Err::<(), AsepriteError>(AsepriteError::Io)
                && final(self)@.pos == old(self)@.pos,
    {
        if !self.available(n) {
            return Err(AsepriteError::Io);
        }
        self.pos = self.pos + n;
        Ok(())
    }

    /// The number of bytes in the source.
    pub fn len(&self) -> (n: usize)
        ensures
            n == self@.data.len(),
    {
        self.data.len()
    }

    /// The offset of the next byte to read.
    pub fn position(&self) -> (n: usize)
        ensures
            n == self@.pos,
    {
        self.pos
    }

    /// Discards the bytes up to the absolute offset `n`. A target in front of
    /// the cursor is refused: the cursor never moves backwards here, and no
    /// byte is read twice.
    pub fn advance_to(&mut self, n: usize) -> (r: Result<(), AsepriteError>)
        ensures
            final(self)@.data == old(self)@.data,
            r == advance_outcome(old(self)@, n as int),
            r is Ok ==> final(self)@.pos == n,
            r is Err ==> final(self)@.pos == old(self)@.pos,
    {
        if n < self.pos {
            return Err(AsepriteError::CorruptFile(Corruption::ChunkOverrun));
        }
        let extra: usize = n - self.pos;
        self.skip(extra)
    }
}

/// How an advance of the cursor `c` to the offset `n` ends.
pub open spec fn advance_outcome(c: ParserView, n: int) -> Result<(), AsepriteError> {
    if n < c.pos {
        Err(AsepriteError::CorruptFile(Corruption::ChunkOverrun))
    } else if n > c.data.len() {
        Err(AsepriteError::Io)
    } else {
        Ok(())
    }
}

impl Parse for u8 {
    open spec fn decode(data: Seq<u8>, pos: int) -> Result<(u8, int), AsepriteError> {
        if pos + 1 <= data.len() {
            Ok((data[pos], pos + 1))
        } else {
            Err(AsepriteError::Io)
        }
    }

    fn parse(p: &mut Parser) -> (r: Result<u8, AsepriteError>) {
        let b = p.next_n(1)?;
        Ok(b[0])
    }
}

impl Parse for u16 {
    open spec fn decode(data: Seq<u8>, pos: int) -> Result<(u16, int), AsepriteError> {
        if pos + 2 <= data.len() {
            Ok((le_u16(data, pos), pos + 2))
        } else {
            Err(AsepriteError::Io)
        }
    }

    fn parse(p: &mut Parser) -> (r: Result<u16, AsepriteError>) {
        let b = p.next_n(2)?;
        Ok(b[0] as u16 + 256 * (b[1] as u16))
    }
}

impl Parse for i16 {
    open spec fn decode(data: Seq<u8>, pos: int) -> Result<(i16, int), AsepriteError> {
        if pos + 2 <= data.len() {
            Ok((le_i16(data, pos), pos + 2))
        } else {
            Err(AsepriteError::Io)
        }
    }

    fn parse(p: &mut Parser) -> (r: Result<i16, AsepriteError>) {
        let b = p.next_n(2)?;
        let u: i32 = b[0] as i32 + 256 * (b[1] as i32);
        if u < 32768 {
            Ok(u as i16)
        } else {
            Ok((u - 65536) as i16)
        }
    }
}

impl Parse for u32 {
    open spec fn decode(data: Seq<u8>, pos: int) -> Result<(u32, int), AsepriteError> {
        if pos + 4 <= data.len() {
            Ok((le_u32(data, pos), pos + 4))
        } else {
            Err(AsepriteError::Io)
        }
    }

    fn parse(p: &mut Parser) -> (r: Result<u32, AsepriteError>) {
        let b = p.next_n(4)?;
        Ok(
            b[0] as u32 + 256 * (b[1] as u32) + 65536 * (b[2] as u32) + 16777216 * (b[3] as u32),
        )
    }
}

impl Parse for i8 {
    open spec fn decode(data: Seq<u8>, pos: int) -> Result<(i8, int), AsepriteError> {
        if pos + 1 <= data.len() {
            Ok((le_i8(data, pos), pos + 1))
        } else {
            Err(AsepriteError::Io)
        }
    }

    fn parse(p: &mut Parser) -> (r: Result<i8, AsepriteError>) {
        let b = p.next_n(1)?;
        if b[0] < 128 {
            Ok(b[0] as i8)
        } else {
            Ok((b[0] as i16 - 256) as i8)
        }
    }
}

impl Parse for i32 {
    open spec fn decode(data: Seq<u8>, pos: int) -> Result<(i32, int), AsepriteError> {
        if pos + 4 <= data.len() {
            Ok((le_i32(data, pos), pos + 4))
        } else {
            Err(AsepriteError::Io)
        }
    }

    fn parse(p: &mut Parser) -> (r: Result<i32, AsepriteError>) {
        let u: u32 = p.next()?;
        if u < 2147483648 {
            Ok(u as i32)
        } else {
            Ok((u as i64 - 4294967296) as i32)
        }
    }
}

impl Parse for u64 {
    open spec fn decode(data: Seq<u8>, pos: int) -> Result<(u64, int), AsepriteError> {
        if pos + 8 <= data.len() {
            Ok((le_u64(data, pos), pos + 8))
        } else {
            Err(AsepriteError::Io)
        }
    }

    fn parse(p: &mut Parser) -> (r: Result<u64, AsepriteError>) {
        if !p.available(8) {
            return Err(AsepriteError::Io);
        }
        let low: u32 = p.next()?;
        let high: u32 = p.next()?;
        Ok(low as u64 + 4294967296 * (high as u64))
    }
}

impl Parse for i64 {
    open spec fn decode(data: Seq<u8>, pos: int) -> Result<(i64, int), AsepriteError> {
        if pos + 8 <= data.len() {
            Ok((le_i64(data, pos), pos + 8))
        } else {
            Err(AsepriteError::Io)
        }
    }

    fn parse(p: &mut Parser) -> (r: Result<i64, AsepriteError>) {
        let u: u64 = p.next()?;
        if u < 9223372036854775808 {
            Ok(u as i64)
        } else {
            Ok((u as i128 - 18446744073709551616) as i64)
        }
    }
}

/// The bytes of the string whose length prefix stands at `pos`.
pub open spec fn string_bytes(data: Seq<u8>, pos: int) -> Seq<u8> {
    data.subrange(pos + 2, pos + 2 + le_u16(data, pos))
}

impl Parse for String {
    /// A string is a 16-bit length and that many bytes of UTF-8.
    open spec fn decode(data: Seq<u8>, pos: int) -> Result<(Seq<char>, int), AsepriteError> {
        if pos + 2 > data.len() {
            Err(AsepriteError::Io)
        } else if pos + 2 + le_u16(data, pos) > data.len() {
            Err(AsepriteError::Io)
        } else if !valid_utf8(string_bytes(data, pos)) {
            Err(AsepriteError::CorruptFile(Corruption::InvalidUtf8))
        } else {
            Ok((decode_utf8(string_bytes(data, pos)), pos + 2 + le_u16(data, pos)))
        }
    }

    fn parse(p: &mut Parser) -> (r: Result<String, AsepriteError>) {
        let start: usize = p.position();
        let len: u16 = p.next()?;
        let bytes = match p.next_n(len as usize) {
            Ok(bytes) => bytes,
            Err(e) => {
                p.rewind(start);
                return Err(e);
            },
        };
        match string_from_utf8(bytes) {
            Some(s) => Ok(s),
            None => {
                p.rewind(start);
                Err(AsepriteError::CorruptFile(Corruption::InvalidUtf8))
            },
        }
    }
}

/// A reserved region of `N` bytes, read and thrown away.
#[derive(Debug)]
pub struct Skip<const N: usize>;

impl<const N: usize> View for Skip<N> {
    type V = ();

    open spec fn view(&self) -> () {
        ()
    }
}

impl<const N: usize> Parse for Skip<N> {
    open spec fn decode(data: Seq<u8>, pos: int) -> Result<((), int), AsepriteError> {
        if pos + N <= data.len() {
            Ok(((), pos + N))
        } else {
            Err(AsepriteError::Io)
        }
    }

    fn parse(p: &mut Parser) -> (r: Result<Self, AsepriteError>) {
        p.skip(N)?;
        Ok(Skip)
    }
}

} // verus!
