//! A decoder for RDB snapshot files: a header, then tagged sections.
use vstd::prelude::*;
use crate::decimal::{decimal, write_decimal};
use crate::handler::{RedisHandler, RedisReplicationInfo};
use crate::store::{entries_insert, Config, DataStore, Stored, ValueType};

verus! {

/// Why a snapshot could not be read.
#[derive(Debug)]
pub enum RdbFileError {
    UnknownStartingByte(u8),
    UnexpectedByte { expected: String, actual: u8 },
    NotRedisFile,
    InvalidFile(String),
    /// The input ends inside an item.
    UnexpectedEnd,
    Unimplemented(String),
}

/// The model of a snapshot error: its kind, with its text as characters.
pub enum RdbErrorKind {
    UnknownStartingByte(u8),
    /// What was expected, and the byte found.
    UnexpectedByte(Seq<char>, u8),
    NotRedisFile,
    InvalidFile(Seq<char>),
    UnexpectedEnd,
    Unimplemented(Seq<char>),
}

impl RdbFileError {
    pub open spec fn kind(&self) -> RdbErrorKind {
        match self {
            RdbFileError::UnknownStartingByte(b) => RdbErrorKind::UnknownStartingByte(*b),
            RdbFileError::UnexpectedByte { expected, actual } => RdbErrorKind::UnexpectedByte(expected@, *actual),
            RdbFileError::NotRedisFile => RdbErrorKind::NotRedisFile,
            RdbFileError::InvalidFile(m) => RdbErrorKind::InvalidFile(m@),
            RdbFileError::UnexpectedEnd => RdbErrorKind::UnexpectedEnd,
            RdbFileError::Unimplemented(m) => RdbErrorKind::Unimplemented(m@),
        }
    }
}

/// One item of a snapshot.
#[derive(Debug, PartialEq)]
pub enum RdbValue {
    Header { version: [u8; 4] },
    MetadataSection { key: Vec<u8>, value: Vec<u8> },
    Database(DataStore),
    EndOfFile { checksum: [u8; 8] },
}

pub open spec fn le16(s: Seq<u8>, p: int) -> int {
    s[p] + 256 * s[p + 1]
}

pub open spec fn le32(s: Seq<u8>, p: int) -> int {
    s[p] + 256 * s[p + 1] + 65536 * s[p + 2] + 16777216 * s[p + 3]
}

pub open spec fn le64(s: Seq<u8>, p: int) -> int {
    le32(s, p) + 4294967296 * le32(s, p + 4)
}

pub open spec fn be32(s: Seq<u8>, p: int) -> int {
    16777216 * s[p] + 65536 * s[p + 1] + 256 * s[p + 2] + s[p + 3]
}

/// A 16-bit two's complement value, little-endian.
pub open spec fn le_i16(s: Seq<u8>, p: int) -> int {
    if le16(s, p) >= 32768 {
        le16(s, p) - 65536
    } else {
        le16(s, p)
    }
}

/// A 32-bit two's complement value, little-endian.
pub open spec fn le_i32(s: Seq<u8>, p: int) -> int {
    if le32(s, p) >= 2147483648 {
        le32(s, p) - 4294967296
    } else {
        le32(s, p)
    }
}

/// A length at position `p`, and the position after it. The top two bits
/// of the first byte select the form; `11` is no length.
pub open spec fn size_at(s: Seq<u8>, p: int) -> Result<(int, int), RdbErrorKind> {
    if p >= s.len() {
        Err(RdbErrorKind::UnexpectedEnd)
    } else {
        let b = s[p];
        if b < 64 {
            Ok((b as int, p + 1))
        } else if b < 128 {
            if p + 2 > s.len() {
                Err(RdbErrorKind::UnexpectedEnd)
            } else {
                Ok(((b - 64) * 256 + s[p + 1], p + 2))
            }
        } else if b < 192 {
            if p + 5 > s.len() {
                Err(RdbErrorKind::UnexpectedEnd)
            } else {
                Ok((be32(s, p + 1), p + 5))
            }
        } else {
            Err(RdbErrorKind::UnknownStartingByte(b))
        }
    }
}

/// A string at position `p`, and the position after it: a length and that
/// many bytes, or an integer tag and the decimal form of the integer.
pub open spec fn string_at(s: Seq<u8>, p: int) -> Result<(Seq<u8>, int), RdbErrorKind> {
    if p >= s.len() {
        Err(RdbErrorKind::UnexpectedEnd)
    } else if s[p] < 192 {
        match size_at(s, p) {
            Err(k) => Err(k),
            Ok((n, q)) => if q + n > s.len() {
                Err(RdbErrorKind::UnexpectedEnd)
            } else {
                Ok((s.subrange(q, q + n), q + n))
            },
        }
    } else if s[p] == 0xc0 {
        if p + 2 > s.len() {
            Err(RdbErrorKind::UnexpectedEnd)
        } else {
            Ok((decimal(s[p + 1] as int), p + 2))
        }
    } else if s[p] == 0xc1 {
        if p + 3 > s.len() {
            Err(RdbErrorKind::UnexpectedEnd)
        } else {
            Ok((decimal(le_i16(s, p + 1)), p + 3))
        }
    } else if s[p] == 0xc2 {
        if p + 5 > s.len() {
            Err(RdbErrorKind::UnexpectedEnd)
        } else {
            Ok((decimal(le_i32(s, p + 1)), p + 5))
        }
    } else {
        Err(RdbErrorKind::UnknownStartingByte(s[p]))
    }
}

/// The model of a snapshot item.
pub enum RdbItem {
    Header(Seq<u8>),
    Metadata(Seq<u8>, Seq<u8>),
    Database(Seq<(Seq<u8>, Stored)>),
    EndOfFile(Seq<u8>),
}

impl View for RdbValue {
    type V = RdbItem;

    open spec fn view(&self) -> RdbItem {
        match self {
            RdbValue::Header { version } => RdbItem::Header(version@),
            RdbValue::MetadataSection { key, value } => RdbItem::Metadata(key@, value@),
            RdbValue::Database(d) => RdbItem::Database(d@),
            RdbValue::EndOfFile { checksum } => RdbItem::EndOfFile(checksum@),
        }
    }
}

pub open spec fn magic() -> Seq<u8> {
    seq![82u8, 69u8, 68u8, 73u8, 83u8]
}

/// The 9-byte header: `REDIS` and four version bytes.
pub open spec fn header_at(s: Seq<u8>, p: int) -> Result<(RdbItem, int), RdbErrorKind> {
    if p + 9 > s.len() {
        Err(RdbErrorKind::UnexpectedEnd)
    } else if s.subrange(p, p + 5) != magic() {
        Err(RdbErrorKind::NotRedisFile)
    } else {
        Ok((RdbItem::Header(s.subrange(p + 5, p + 9)), p + 9))
    }
}

/// A key and a value, stored with deadline `expiration`.
pub open spec fn pair_at(s: Seq<u8>, p: int, expiration: Option<int>) -> Result<((Seq<u8>, Stored), int), RdbErrorKind> {
    match string_at(s, p) {
        Err(k) => Err(k),
        Ok((key, q)) => match string_at(s, q) {
            Err(k) => Err(k),
            Ok((value, q2)) => Ok(((key, Stored { value, expiration }), q2)),
        },
    }
}

/// The value-type byte `0x00` at `p`, then a key and a value.
pub open spec fn typed_pair_at(s: Seq<u8>, p: int, expiration: Option<int>) -> Result<((Seq<u8>, Stored), int), RdbErrorKind> {
    if p >= s.len() {
        Err(RdbErrorKind::UnexpectedEnd)
    } else if s[p] != 0 {
        Err(RdbErrorKind::UnexpectedByte("0x00"@, s[p]))
    } else {
        pair_at(s, p + 1, expiration)
    }
}

/// One database entry: no deadline (`0x00`), a deadline in milliseconds
/// (`0xfc`, 8 bytes) or in seconds (`0xfd`, 4 bytes), little-endian.
#[verifier::opaque]
pub open spec fn entry_at(s: Seq<u8>, p: int) -> Result<((Seq<u8>, Stored), int), RdbErrorKind> {
    if p >= s.len() {
        Err(RdbErrorKind::UnexpectedEnd)
    } else if s[p] == 0 {
        pair_at(s, p + 1, None)
    } else if s[p] == 0xfc {
        if p + 9 > s.len() {
            Err(RdbErrorKind::UnexpectedEnd)
        } else {
            typed_pair_at(s, p + 9, Some(le64(s, p + 1)))
        }
    } else if s[p] == 0xfd {
        if p + 5 > s.len() {
            Err(RdbErrorKind::UnexpectedEnd)
        } else {
            typed_pair_at(s, p + 5, Some(le32(s, p + 1) * 1000))
        }
    } else {
        Err(RdbErrorKind::UnexpectedByte("One of (0xfc, 0xfd, 00)"@, s[p]))
    }
}

/// `n` entries from `p`, bound into `acc` in order.
pub open spec fn entries_at(s: Seq<u8>, p: int, n: nat, acc: Seq<(Seq<u8>, Stored)>) -> Result<(Seq<(Seq<u8>, Stored)>, int), RdbErrorKind>
    decreases n,
{
    if n == 0 {
        Ok((acc, p))
    } else {
        match entry_at(s, p) {
            Err(k) => Err(k),
            Ok((e, q)) => entries_at(s, q, (n - 1) as nat, entries_insert(acc, e.0, e.1)),
        }
    }
}

/// A database section body: index 0, `0xfb`, the number of keys, the number
/// of expiring keys, then the entries.
pub open spec fn database_at(s: Seq<u8>, p: int) -> Result<(RdbItem, int), RdbErrorKind> {
    match size_at(s, p) {
        Err(k) => Err(k),
        Ok((idx, q1)) => if idx != 0 {
            Err(RdbErrorKind::Unimplemented("Multiple databases not supported"@))
        } else if q1 >= s.len() {
            Err(RdbErrorKind::UnexpectedEnd)
        } else if s[q1] != 0xfb {
            Err(RdbErrorKind::UnexpectedByte("0xfb"@, s[q1]))
        } else {
            match size_at(s, q1 + 1) {
                Err(k) => Err(k),
                Ok((n, q2)) => match size_at(s, q2) {
                    Err(k) => Err(k),
                    Ok((_, q3)) => match entries_at(s, q3, n as nat, Seq::empty()) {
                        Err(k) => Err(k),
                        Ok((d, q4)) => Ok((RdbItem::Database(d), q4)),
                    },
                },
            }
        },
    }
}

/// The item after a section tag at `p`.
pub open spec fn value_at(s: Seq<u8>, p: int) -> Result<(RdbItem, int), RdbErrorKind> {
    if p >= s.len() {
        Err(RdbErrorKind::UnexpectedEnd)
    } else if s[p] == 0xfa {
        match string_at(s, p + 1) {
            Err(k) => Err(k),
            Ok((key, q)) => match string_at(s, q) {
                Err(k) => Err(k),
                Ok((value, q2)) => Ok((RdbItem::Metadata(key, value), q2)),
            },
        }
    } else if s[p] == 0xfe {
        database_at(s, p + 1)
    } else if s[p] == 0xff {
        if p + 9 > s.len() {
            Err(RdbErrorKind::UnexpectedEnd)
        } else {
            Ok((RdbItem::EndOfFile(s.subrange(p + 1, p + 9)), p + 9))
        }
    } else {
        Err(RdbErrorKind::UnknownStartingByte(s[p]))
    }
}

/// The metadata entries (appended to `meta`, in order) and the keyspace of
/// the sections from `p` to the end-of-file marker: the last database
/// section wins.
pub open spec fn sections_at(
    s: Seq<u8>,
    p: int,
    meta: Seq<(Seq<u8>, Seq<u8>)>,
    db: Seq<(Seq<u8>, Stored)>,
) -> Result<(Seq<(Seq<u8>, Seq<u8>)>, Seq<(Seq<u8>, Stored)>), RdbErrorKind>
    decreases s.len() - p,
{
    match value_at(s, p) {
        Err(k) => Err(k),
        Ok((item, q)) => match item {
            RdbItem::EndOfFile(_) => Ok((meta, db)),
            RdbItem::Header(_) => Err(RdbErrorKind::InvalidFile("Multiple file headers"@)),
            _ => if q <= p || q > s.len() {
                Err(RdbErrorKind::UnexpectedEnd)
            } else {
                match item {
                    RdbItem::Database(d) => sections_at(s, q, meta, d),
                    RdbItem::Metadata(k, v) => sections_at(s, q, meta.push((k, v)), db),
                    _ => sections_at(s, q, meta, db),
                }
            },
        },
    }
}

/// The metadata entries and the keyspace of a whole snapshot starting at `p`.
pub open spec fn file_at(s: Seq<u8>, p: int) -> Result<(Seq<(Seq<u8>, Seq<u8>)>, Seq<(Seq<u8>, Stored)>), RdbErrorKind> {
    match header_at(s, p) {
        Err(k) => Err(k),
        Ok((_, q)) => sections_at(s, q, Seq::empty(), Seq::empty()),
    }
}

pub open spec fn item_matches(r: Result<RdbValue, RdbFileError>, s: Result<(RdbItem, int), RdbErrorKind>, pos: int) -> bool {
    match (r, s) {
        (Ok(x), Ok((y, q))) => x@ == y && pos == q,
        (Err(e), Err(k)) => e.kind() == k,
        _ => false,
    }
}

pub open spec fn pairs_view(m: Seq<(Vec<u8>, Vec<u8>)>) -> Seq<(Seq<u8>, Seq<u8>)> {
    Seq::new(m.len(), |i: int| (m[i].0@, m[i].1@))
}

/// The one-byte length prefix, for `n` below 64.
pub open spec fn short_prefix(n: nat) -> Seq<u8> {
    seq![n as u8]
}

/// The two-byte length prefix: `01` and 14 bits, for `n` below 16384.
pub open spec fn medium_prefix(n: nat) -> Seq<u8> {
    seq![(64 + n / 256) as u8, (n % 256) as u8]
}

/// The five-byte length prefix: `0x80` and 32 big-endian bits.
pub open spec fn long_prefix(n: nat) -> Seq<u8> {
    let n1 = n / 256;
    let n2 = n1 / 256;
    seq![128u8, (n2 / 256) as u8, (n2 % 256) as u8, (n1 % 256) as u8, (n % 256) as u8]
}

/// Whether `pre` is a length prefix for `n`, in any of the three forms.
pub open spec fn is_length_prefix(pre: Seq<u8>, n: nat) -> bool {
    ||| (n < 64 && pre == short_prefix(n))
    ||| (n < 16384 && pre == medium_prefix(n))
    ||| (n < 0x1_0000_0000 && pre == long_prefix(n))
}

/// A length-prefixed string reads back as exactly its bytes, whatever they
/// hold (CR, LF, NUL or bytes that are not UTF-8), with any of the three
/// length forms, wherever it stands and whatever follows it.
pub proof fn lemma_string_round_trip(before: Seq<u8>, pre: Seq<u8>, content: Seq<u8>, rest: Seq<u8>)
    requires
        is_length_prefix(pre, content.len()),
    ensures
        string_at(before + pre + content + rest, before.len() as int) == Ok::<(Seq<u8>, int), RdbErrorKind>(
            (content, before.len() + pre.len() + content.len() as int),
        ),
{
    let n = content.len();
    let p = before.len() as int;
    let s = before + pre + content + rest;
    assert forall|i: int| 0 <= i < pre.len() implies s[p + i] == #[trigger] pre[i] by {}
    if n < 64 && pre == short_prefix(n) {
        assert(s[p] == n as u8);
    } else if n < 16384 && pre == medium_prefix(n) {
        vstd::arithmetic::div_mod::lemma_fundamental_div_mod(n as int, 256);
        assert(s[p] == (64 + n / 256) as u8);
        assert(s[p + 1] == (n % 256) as u8);
    } else {
        let n1 = n / 256;
        let n2 = n1 / 256;
        vstd::arithmetic::div_mod::lemma_fundamental_div_mod(n as int, 256);
        vstd::arithmetic::div_mod::lemma_fundamental_div_mod(n1 as int, 256);
        vstd::arithmetic::div_mod::lemma_fundamental_div_mod(n2 as int, 256);
        assert(n2 / 256 < 256);
        assert(s[p] == 128u8);
        assert(s[p + 1] == (n2 / 256) as u8);
        assert(s[p + 2] == (n2 % 256) as u8);
        assert(s[p + 3] == (n1 % 256) as u8);
        assert(s[p + 4] == (n % 256) as u8);
        assert(be32(s, p + 1) == n);
    }
    assert(s.subrange(p + pre.len(), p + pre.len() + n as int) =~= content);
}

/// The little-endian two's complement bytes of `x`, `width` bytes long.
pub open spec fn le_bytes(x: int, width: nat) -> Seq<u8>
    decreases width,
{
    if width == 0 {
        Seq::empty()
    } else {
        let u = if x < 0 { x + 256 * pow256((width - 1) as nat) } else { x };
        seq![(u % 256) as u8] + le_bytes(u / 256, (width - 1) as nat)
    }
}

pub open spec fn pow256(k: nat) -> int
    decreases k,
{
    if k == 0 {
        1
    } else {
        256 * pow256((k - 1) as nat)
    }
}

/// An integer-encoded string reads back as the decimal form of the integer,
/// wherever it stands: tag `0xc0` and one unsigned byte, `0xc1` and a signed
/// 16-bit value, `0xc2` and a signed 32-bit value. Other tags from `0xc3`
/// are refused.
pub proof fn lemma_integer_strings(before: Seq<u8>, b: u8, x16: i16, x32: i32, tag: u8, rest: Seq<u8>)
    requires
        tag >= 0xc3,
    ensures
        string_at(before + seq![0xc0u8, b] + rest, before.len() as int) == Ok::<(Seq<u8>, int), RdbErrorKind>(
            (decimal(b as int), before.len() as int + 2),
        ),
        string_at(before + seq![0xc1u8] + le_bytes(x16 as int, 2) + rest, before.len() as int) == Ok::<
            (Seq<u8>, int),
            RdbErrorKind,
        >((decimal(x16 as int), before.len() as int + 3)),
        string_at(before + seq![0xc2u8] + le_bytes(x32 as int, 4) + rest, before.len() as int) == Ok::<
            (Seq<u8>, int),
            RdbErrorKind,
        >((decimal(x32 as int), before.len() as int + 5)),
        string_at(before + seq![tag] + rest, before.len() as int) == Err::<(Seq<u8>, int), RdbErrorKind>(
            RdbErrorKind::UnknownStartingByte(tag),
        ),
{
    reveal_with_fuel(le_bytes, 5);
    reveal_with_fuel(pow256, 5);
    let p = before.len() as int;
    let s1 = before + seq![0xc0u8, b] + rest;
    assert(s1[p] == 0xc0u8 && s1[p + 1] == b);
    let u16v: int = if x16 < 0 { x16 + 65536 } else { x16 as int };
    let w16 = le_bytes(x16 as int, 2);
    vstd::arithmetic::div_mod::lemma_fundamental_div_mod(u16v, 256);
    assert(w16 =~= seq![(u16v % 256) as u8, ((u16v / 256) % 256) as u8]);
    let s2 = before + seq![0xc1u8] + w16 + rest;
    assert(s2[p] == 0xc1u8 && s2[p + 1] == w16[0] && s2[p + 2] == w16[1]);
    assert(le16(s2, p + 1) == u16v);
    let u32v: int = if x32 < 0 { x32 + 4294967296 } else { x32 as int };
    let q1 = u32v / 256;
    let q2 = q1 / 256;
    let q3 = q2 / 256;
    vstd::arithmetic::div_mod::lemma_fundamental_div_mod(u32v, 256);
    vstd::arithmetic::div_mod::lemma_fundamental_div_mod(q1, 256);
    vstd::arithmetic::div_mod::lemma_fundamental_div_mod(q2, 256);
    vstd::arithmetic::div_mod::lemma_fundamental_div_mod(q3, 256);
    let w32 = le_bytes(x32 as int, 4);
    assert(w32 =~= seq![(u32v % 256) as u8, (q1 % 256) as u8, (q2 % 256) as u8, (q3 % 256) as u8]);
    let s3 = before + seq![0xc2u8] + w32 + rest;
    assert(s3[p] == 0xc2u8 && s3[p + 1] == w32[0] && s3[p + 2] == w32[1] && s3[p + 3] == w32[2]
        && s3[p + 4] == w32[3]);
    assert(le32(s3, p + 1) == u32v);
    let s4 = before + seq![tag] + rest;
    assert(s4[p] == tag);
}

/// A reader over the bytes of a snapshot.
pub struct RdbReader<'a> {
    pub input: &'a [u8],
    pub pos: usize,
}

impl<'a> RdbReader<'a> {
    pub fn new(input: &'a [u8]) -> (r: Self)
        ensures
            r.input@ == input@,
            r.pos == 0,
    {
        RdbReader { input, pos: 0 }
    }

    pub fn read_next_byte(&mut self) -> (r: Result<u8, RdbFileError>)
        requires
            old(self).pos <= old(self).input@.len(),
        ensures
            final(self).input == old(self).input,
            final(self).pos <= final(self).input@.len(),
            old(self).pos < old(self).input@.len() ==> r == Ok::<u8, RdbFileError>(old(self).input@[old(self).pos as int])
                && final(self).pos == old(self).pos + 1,
            old(self).pos >= old(self).input@.len() ==> (r matches Err(e) && e.kind() == RdbErrorKind::UnexpectedEnd),
    {
        if self.pos < self.input.len() {
            let b = self.input[self.pos];
            self.pos = self.pos + 1;
            Ok(b)
        } else {
            Err(RdbFileError::UnexpectedEnd)
        }
    }

    /// Reads a length.
    pub fn read_size(&mut self) -> (r: Result<usize, RdbFileError>)
        requires
            old(self).pos <= old(self).input@.len(),
        ensures
            final(self).input == old(self).input,
            final(self).pos <= final(self).input@.len(),
            match (r, size_at(old(self).input@, old(self).pos as int)) {
                (Ok(n), Ok((m, q))) => n == m && final(self).pos == q,
                (Err(e), Err(k)) => e.kind() == k,
                _ => false,
            },
    {
        let b = match self.read_next_byte() {
            Ok(b) => b,
            Err(e) => {
                return Err(e);
            },
        };
        if b < 64 {
            Ok(b as usize)
        } else if b < 128 {
            let c = match self.read_next_byte() {
                Ok(c) => c,
                Err(e) => {
                    return Err(e);
                },
            };
            Ok((b as usize - 64) * 256 + c as usize)
        } else if b < 192 {
            if self.input.len() - self.pos < 4 {
                return Err(RdbFileError::UnexpectedEnd);
            }
            let p = self.pos;
            let v: u32 = self.input[p] as u32 * 16777216 + self.input[p + 1] as u32 * 65536
                + self.input[p + 2] as u32 * 256 + self.input[p + 3] as u32;
            self.pos = p + 4;
            Ok(v as usize)
        } else {
            Err(RdbFileError::UnknownStartingByte(b))
        }
    }

    fn take_bytes(&mut self, n: usize) -> (r: Result<Vec<u8>, RdbFileError>)
        requires
            old(self).pos <= old(self).input@.len(),
        ensures
            final(self).input == old(self).input,
            final(self).pos <= final(self).input@.len(),
            old(self).pos + n <= old(self).input@.len() ==> (r matches Ok(v) && v@ == old(self).input@.subrange(
                old(self).pos as int,
                old(self).pos + n,
            ) && final(self).pos == old(self).pos + n),
            old(self).pos + n > old(self).input@.len() ==> (r matches Err(e) && e.kind() == RdbErrorKind::UnexpectedEnd),
    {
        if self.input.len() - self.pos < n {
            return Err(RdbFileError::UnexpectedEnd);
        }
        let p = self.pos;
        let v = vstd::slice::slice_to_vec(vstd::slice::slice_subrange(self.input, p, p + n));
        self.pos = p + n;
        Ok(v)
    }

    /// Reads a string: raw bytes after a length, or the decimal form of an
    /// integer after a tag `0xc0`, `0xc1` or `0xc2`.
    pub fn read_string(&mut self) -> (r: Result<Vec<u8>, RdbFileError>)
        requires
            old(self).pos <= old(self).input@.len(),
        ensures
            final(self).input == old(self).input,
            final(self).pos <= final(self).input@.len(),
            match (r, string_at(old(self).input@, old(self).pos as int)) {
                (Ok(v), Ok((w, q))) => v@ == w && final(self).pos == q,
                (Err(e), Err(k)) => e.kind() == k,
                _ => false,
            },
    {
        if self.pos >= self.input.len() {
            return Err(RdbFileError::UnexpectedEnd);
        }
        let b = self.input[self.pos];
        if b < 192 {
            let n = match self.read_size() {
                Ok(n) => n,
                Err(e) => {
                    return Err(e);
                },
            };
            self.take_bytes(n)
        } else if b == 0xc0 {
            if self.input.len() - self.pos < 2 {
                return Err(RdbFileError::UnexpectedEnd);
            }
            let v = self.input[self.pos + 1];
            self.pos = self.pos + 2;
            let mut out: Vec<u8> = Vec::new();
            write_decimal(v as i64, &mut out);
            Ok(out)
        } else if b == 0xc1 {
            if self.input.len() - self.pos < 3 {
                return Err(RdbFileError::UnexpectedEnd);
            }
            let p = self.pos;
            let u: i64 = self.input[p + 1] as i64 + 256 * self.input[p + 2] as i64;
            let v: i64 = if u >= 32768 {
                u - 65536
            } else {
                u
            };
            self.pos = p + 3;
            let mut out: Vec<u8> = Vec::new();
            write_decimal(v, &mut out);
            Ok(out)
        } else if b == 0xc2 {
            if self.input.len() - self.pos < 5 {
                return Err(RdbFileError::UnexpectedEnd);
            }
            let p = self.pos;
            let u: i64 = self.input[p + 1] as i64 + 256 * self.input[p + 2] as i64 + 65536
                * self.input[p + 3] as i64 + 16777216 * self.input[p + 4] as i64;
            let v: i64 = if u >= 2147483648 {
                u - 4294967296
            } else {
                u
            };
            self.pos = p + 5;
            let mut out: Vec<u8> = Vec::new();
            write_decimal(v, &mut out);
            Ok(out)
        } else {
            Err(RdbFileError::UnknownStartingByte(b))
        }
    }

    /// Reads the 9-byte header.
    pub fn read_header(&mut self) -> (r: Result<RdbValue, RdbFileError>)
        requires
            old(self).pos <= old(self).input@.len(),
        ensures
            final(self).input == old(self).input,
            final(self).pos <= final(self).input@.len(),
            item_matches(r, header_at(old(self).input@, old(self).pos as int), final(self).pos as int),
    {
        if self.input.len() - self.pos < 9 {
            return Err(RdbFileError::UnexpectedEnd);
        }
        let p = self.pos;
        let magic: [u8; 5] = [82u8, 69u8, 68u8, 73u8, 83u8];
        let head = vstd::slice::slice_subrange(self.input, p, p + 5);
        if !crate::resp::bytes_equal(head, &magic) {
            return Err(RdbFileError::NotRedisFile);
        }
        let version: [u8; 4] = [self.input[p + 5], self.input[p + 6], self.input[p + 7], self.input[p + 8]];
        self.pos = p + 9;
        let r = RdbValue::Header { version };
        proof {
            assert(version@ =~= self.input@.subrange(p + 5, p + 9));
        }
        Ok(r)
    }

    fn read_le_u32(&mut self) -> (r: Result<u32, RdbFileError>)
        requires
            old(self).pos <= old(self).input@.len(),
        ensures
            final(self).input == old(self).input,
            final(self).pos <= final(self).input@.len(),
            old(self).pos + 4 <= old(self).input@.len() ==> (r matches Ok(v) && v == le32(old(self).input@, old(self).pos as int)
                && final(self).pos == old(self).pos + 4),
            old(self).pos + 4 > old(self).input@.len() ==> (r matches Err(e) && e.kind() == RdbErrorKind::UnexpectedEnd),
    {
        if self.input.len() - self.pos < 4 {
            return Err(RdbFileError::UnexpectedEnd);
        }
        let p = self.pos;
        let v: u32 = self.input[p] as u32 + 256 * self.input[p + 1] as u32 + 65536 * self.input[p + 2] as u32
            + 16777216 * self.input[p + 3] as u32;
        self.pos = p + 4;
        Ok(v)
    }

    fn read_le_u64(&mut self) -> (r: Result<u64, RdbFileError>)
        requires
            old(self).pos <= old(self).input@.len(),
        ensures
            final(self).input == old(self).input,
            final(self).pos <= final(self).input@.len(),
            old(self).pos + 8 <= old(self).input@.len() ==> (r matches Ok(v) && v == le64(old(self).input@, old(self).pos as int)
                && final(self).pos == old(self).pos + 8),
            old(self).pos + 8 > old(self).input@.len() ==> (r matches Err(e) && e.kind() == RdbErrorKind::UnexpectedEnd),
    {
        if self.input.len() - self.pos < 8 {
            return Err(RdbFileError::UnexpectedEnd);
        }
        let lo = match self.read_le_u32() {
            Ok(v) => v,
            Err(e) => {
                return Err(e);
            },
        };
        let hi = match self.read_le_u32() {
            Ok(v) => v,
            Err(e) => {
                return Err(e);
            },
        };
        Ok(lo as u64 + 4294967296 * hi as u64)
    }

    fn read_pair(&mut self, expiration: Option<u64>) -> (r: Result<(Vec<u8>, ValueType), RdbFileError>)
        requires
            old(self).pos <= old(self).input@.len(),
        ensures
            final(self).input == old(self).input,
            final(self).pos <= final(self).input@.len(),
            match (r, pair_at(old(self).input@, old(self).pos as int, match expiration {
                Some(d) => Some(d as int),
                None => None,
            })) {
                (Ok(x), Ok((e, q))) => x.0@ == e.0 && x.1@ == e.1 && final(self).pos == q,
                (Err(err), Err(k)) => err.kind() == k,
                _ => false,
            },
    {
        let key = match self.read_string() {
            Ok(k) => k,
            Err(e) => {
                return Err(e);
            },
        };
        let value = match self.read_string() {
            Ok(v) => v,
            Err(e) => {
                return Err(e);
            },
        };
        Ok((key, ValueType::with_expiration(value, expiration)))
    }

    fn read_typed_pair(&mut self, expiration: Option<u64>) -> (r: Result<(Vec<u8>, ValueType), RdbFileError>)
        requires
            old(self).pos <= old(self).input@.len(),
        ensures
            final(self).input == old(self).input,
            final(self).pos <= final(self).input@.len(),
            match (r, typed_pair_at(old(self).input@, old(self).pos as int, match expiration {
                Some(d) => Some(d as int),
                None => None,
            })) {
                (Ok(x), Ok((e, q))) => x.0@ == e.0 && x.1@ == e.1 && final(self).pos == q,
                (Err(err), Err(k)) => err.kind() == k,
                _ => false,
            },
    {
        let b = match self.read_next_byte() {
            Ok(b) => b,
            Err(e) => {
                return Err(e);
            },
        };
        if b != 0 {
            return Err(RdbFileError::UnexpectedByte { expected: String::from_str("0x00"), actual: b });
        }
        self.read_pair(expiration)
    }

    fn read_entry(&mut self) -> (r: Result<(Vec<u8>, ValueType), RdbFileError>)
        requires
            old(self).pos <= old(self).input@.len(),
        ensures
            final(self).input == old(self).input,
            final(self).pos <= final(self).input@.len(),
            match (r, entry_at(old(self).input@, old(self).pos as int)) {
                (Ok(x), Ok((e, q))) => x.0@ == e.0 && x.1@ == e.1 && final(self).pos == q,
                (Err(err), Err(k)) => err.kind() == k,
                _ => false,
            },
    {
        proof {
            reveal(entry_at);
        }
        let b = match self.read_next_byte() {
            Ok(b) => b,
            Err(e) => {
                return Err(e);
            },
        };
        if b == 0 {
            self.read_pair(None)
        } else if b == 0xfc {
            let millis = match self.read_le_u64() {
                Ok(v) => v,
                Err(e) => {
                    return Err(e);
                },
            };
            self.read_typed_pair(Some(millis))
        } else if b == 0xfd {
            let seconds = match self.read_le_u32() {
                Ok(v) => v,
                Err(e) => {
                    return Err(e);
                },
            };
            self.read_typed_pair(Some(seconds as u64 * 1000))
        } else {
            Err(
                RdbFileError::UnexpectedByte {
                    expected: String::from_str("One of (0xfc, 0xfd, 00)"),
                    actual: b,
                },
            )
        }
    }

    /// Reads `n_values` database entries into a new keyspace.
    fn read_entries(&mut self, n_values: usize) -> (r: Result<DataStore, RdbFileError>)
        requires
            old(self).pos <= old(self).input@.len(),
        ensures
            final(self).input == old(self).input,
            final(self).pos <= final(self).input@.len(),
            match (r, entries_at(old(self).input@, old(self).pos as int, n_values as nat, Seq::empty())) {
                (Ok(d), Ok((m, q))) => d.wf() && d@ == m && final(self).pos == q,
                (Err(e), Err(k)) => e.kind() == k,
                _ => false,
            },
    {
        let ghost s = self.input@;
        let ghost start = self.pos as int;
        let mut contents = DataStore::new();
        let mut k: usize = 0;
        while k < n_values
            invariant
                0 <= k <= n_values,
                self.input@ == s,
                s == old(self).input@,
                start == old(self).pos,
                self.input == old(self).input,
                self.pos <= self.input@.len(),
                contents.wf(),
                entries_at(s, start, n_values as nat, Seq::empty()) == entries_at(
                    s,
                    self.pos as int,
                    (n_values - k) as nat,
                    contents@,
                ),
            decreases n_values - k,
        {
            let ghost p = self.pos as int;
            let ghost acc = contents@;
            let ghost m = (n_values - k) as nat;
            match self.read_entry() {
                Ok((key, value)) => {
                    let ghost kv = key@;
                    let ghost vv = value@;
                    contents.insert(key, value);
                    proof {
                        let (e, q) = entry_at(s, p)->Ok_0;
                        assert(e.0 == kv && e.1 == vv && q == self.pos);
                        assert(entries_at(s, p, m, acc) == entries_at(s, q, (m - 1) as nat, entries_insert(acc, kv, vv)));
                    }
                },
                Err(e) => {
                    proof {
                        assert(entries_at(s, p, m, acc) == Err::<(Seq<(Seq<u8>, Stored)>, int), RdbErrorKind>(e.kind()));
                    }
                    return Err(e);
                },
            }
            k += 1;
        }
        Ok(contents)
    }

    /// Reads a database section body, after its `0xfe` tag.
    pub fn read_database(&mut self) -> (r: Result<RdbValue, RdbFileError>)
        requires
            old(self).pos <= old(self).input@.len(),
        ensures
            final(self).input == old(self).input,
            final(self).pos <= final(self).input@.len(),
            item_matches(r, database_at(old(self).input@, old(self).pos as int), final(self).pos as int),
            r matches Ok(RdbValue::Database(d)) ==> d.wf(),
    {
        let database_idx = match self.read_size() {
            Ok(n) => n,
            Err(e) => {
                return Err(e);
            },
        };
        if database_idx != 0 {
            return Err(RdbFileError::Unimplemented(String::from_str("Multiple databases not supported")));
        }
        let b = match self.read_next_byte() {
            Ok(b) => b,
            Err(e) => {
                return Err(e);
            },
        };
        if b != 0xfb {
            return Err(RdbFileError::UnexpectedByte { expected: String::from_str("0xfb"), actual: b });
        }
        let n_values = match self.read_size() {
            Ok(n) => n,
            Err(e) => {
                return Err(e);
            },
        };
        match self.read_size() {
            Ok(_) => {},
            Err(e) => {
                return Err(e);
            },
        }
        match self.read_entries(n_values) {
            Ok(contents) => Ok(RdbValue::Database(contents)),
            Err(e) => Err(e),
        }
    }


    /// Reads a metadata entry, after its `0xfa` tag: a name and a value.
    pub fn read_metadata_entry(&mut self) -> (r: Result<RdbValue, RdbFileError>)
        requires
            old(self).pos <= old(self).input@.len(),
        ensures
            final(self).input == old(self).input,
            final(self).pos <= final(self).input@.len(),
            match (r, string_at(old(self).input@, old(self).pos as int)) {
                (Ok(v), Ok((key, q))) => match string_at(old(self).input@, q) {
                    Ok((value, q2)) => v@ == RdbItem::Metadata(key, value) && final(self).pos == q2,
                    Err(_) => false,
                },
                (Err(e), Ok((_, q))) => string_at(old(self).input@, q) matches Err(k) && e.kind() == k,
                (Err(e), Err(k)) => e.kind() == k,
                _ => false,
            },
    {
        let key = match self.read_string() {
            Ok(k) => k,
            Err(e) => {
                return Err(e);
            },
        };
        let value = match self.read_string() {
            Ok(v) => v,
            Err(e) => {
                return Err(e);
            },
        };
        Ok(RdbValue::MetadataSection { key, value })
    }

    /// Reads the 8 checksum bytes after the `0xff` tag; they are not checked.
    pub fn read_end_of_file(&mut self) -> (r: Result<RdbValue, RdbFileError>)
        requires
            old(self).pos <= old(self).input@.len(),
        ensures
            final(self).input == old(self).input,
            final(self).pos <= final(self).input@.len(),
            old(self).pos + 8 <= old(self).input@.len() ==> (r matches Ok(v) && v@ == RdbItem::EndOfFile(
                old(self).input@.subrange(old(self).pos as int, old(self).pos + 8),
            ) && final(self).pos == old(self).pos + 8),
            old(self).pos + 8 > old(self).input@.len() ==> (r matches Err(e) && e.kind() == RdbErrorKind::UnexpectedEnd),
    {
        if self.input.len() - self.pos < 8 {
            return Err(RdbFileError::UnexpectedEnd);
        }
        let p = self.pos;
        let i = self.input;
        let checksum: [u8; 8] = [i[p], i[p + 1], i[p + 2], i[p + 3], i[p + 4], i[p + 5], i[p + 6], i[p + 7]];
        self.pos = p + 8;
        proof {
            assert(checksum@ =~= i@.subrange(p as int, p + 8));
        }
        Ok(RdbValue::EndOfFile { checksum })
    }

    /// Reads the next section: its tag, then its body.
    pub fn read_next_value(&mut self) -> (r: Result<RdbValue, RdbFileError>)
        requires
            old(self).pos <= old(self).input@.len(),
        ensures
            final(self).input == old(self).input,
            final(self).pos <= final(self).input@.len(),
            item_matches(r, value_at(old(self).input@, old(self).pos as int), final(self).pos as int),
            r matches Ok(RdbValue::Database(d)) ==> d.wf(),
    {
        let b = match self.read_next_byte() {
            Ok(b) => b,
            Err(e) => {
                return Err(e);
            },
        };
        if b == 0xfa {
            self.read_metadata_entry()
        } else if b == 0xfe {
            self.read_database()
        } else if b == 0xff {
            self.read_end_of_file()
        } else {
            Err(RdbFileError::UnknownStartingByte(b))
        }
    }

    /// Reads a whole snapshot from the current position: the header, then
    /// sections up to the end-of-file marker. Gives the metadata entries in
    /// the order they appear, and the keyspace of the last database section.
    pub fn read_file(&mut self) -> (r: Result<(Vec<(Vec<u8>, Vec<u8>)>, DataStore), RdbFileError>)
        requires
            old(self).pos <= old(self).input@.len(),
        ensures
            final(self).input == old(self).input,
            match (r, file_at(old(self).input@, old(self).pos as int)) {
                (Ok((meta, d)), Ok((mm, dm))) => d.wf() && d@ == dm && pairs_view(meta@) == mm,
                (Err(e), Err(k)) => e.kind() == k,
                _ => false,
            },
    {
        match self.read_header() {
            Ok(_) => {},
            Err(e) => {
                return Err(e);
            },
        }
        let ghost s = self.input@;
        let mut db = DataStore::new();
        let mut meta: Vec<(Vec<u8>, Vec<u8>)> = Vec::new();
        proof {
            assert(pairs_view(meta@) =~= Seq::<(Seq<u8>, Seq<u8>)>::empty());
        }
        loop
            invariant
                self.input == old(self).input,
                s == old(self).input@,
                self.pos <= self.input@.len(),
                db.wf(),
                file_at(s, old(self).pos as int) == sections_at(s, self.pos as int, pairs_view(meta@), db@),
            decreases self.input@.len() - self.pos,
        {
            let p = self.pos;
            match self.read_next_value() {
                Err(e) => {
                    return Err(e);
                },
                Ok(RdbValue::Header { .. }) => {
                    return Err(RdbFileError::InvalidFile(String::from_str("Multiple file headers")));
                },
                Ok(RdbValue::EndOfFile { .. }) => {
                    return Ok((meta, db));
                },
                Ok(RdbValue::MetadataSection { key, value }) => {
                    if self.pos <= p {
                        return Err(RdbFileError::UnexpectedEnd);
                    }
                    let ghost before = pairs_view(meta@);
                    let ghost entry = (key@, value@);
                    meta.push((key, value));
                    proof {
                        assert(pairs_view(meta@) =~= before.push(entry));
                    }
                },
                Ok(RdbValue::Database(d)) => {
                    if self.pos <= p {
                        return Err(RdbFileError::UnexpectedEnd);
                    }
                    db = d;
                },
            }
        }
    }

    /// The keyspace of a whole snapshot from the current position; metadata
    /// is read and left out.
    pub fn read_contents(&mut self) -> (r: Result<DataStore, RdbFileError>)
        requires
            old(self).pos <= old(self).input@.len(),
        ensures
            final(self).input == old(self).input,
            match (r, file_at(old(self).input@, old(self).pos as int)) {
                (Ok(d), Ok((_, dm))) => d.wf() && d@ == dm,
                (Err(e), Err(k)) => e.kind() == k,
                _ => false,
            },
    {
        match self.read_file() {
            Ok((_, d)) => Ok(d),
            Err(e) => Err(e),
        }
    }

    /// Builds a handler whose keyspace is the snapshot's, with no
    /// configuration and the default replication identity.
    pub fn create_handler(&mut self) -> (r: Result<RedisHandler, RdbFileError>)
        requires
            old(self).pos <= old(self).input@.len(),
        ensures
            match (r, file_at(old(self).input@, old(self).pos as int)) {
                (Ok(h), Ok((_, m))) => h.wf() && h.data@ == m && h.config@.len() == 0,
                (Err(e), Err(k)) => e.kind() == k,
                _ => false,
            },
    {
        match self.read_contents() {
            Ok(db) => Ok(
                RedisHandler::new_with_contents(Config::new(), RedisReplicationInfo::default(), db),
            ),
            Err(e) => Err(e),
        }
    }
}

} // verus!
