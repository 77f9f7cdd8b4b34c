//! RESP values, their canonical encoding, and a zero-copy parser.
use vstd::prelude::*;
use vstd::utf8::valid_utf8;
use crate::decimal::{decimal, parse_decimal, parse_int_spec, write_decimal, write_digits, IntError};

verus! {

/// A RESP value, as written on the wire. Payloads borrow from the input
/// buffer they were parsed from.
#[derive(PartialEq, Debug)]
pub enum RespValue<'a> {
    SimpleString(&'a [u8]),
    SimpleError(&'a [u8]),
    SimpleInteger(i64),
    BulkString(&'a [u8]),
    NullBulkString,
    Array(Vec<RespValue<'a>>),
    NullArray,
}

/// The mathematical model of a RESP value.
pub enum Resp {
    Simple(Seq<u8>),
    Error(Seq<u8>),
    Int(int),
    Bulk(Seq<u8>),
    NullBulk,
    Array(Seq<Resp>),
    NullArray,
}

impl<'a> View for RespValue<'a> {
    type V = Resp;

    open spec fn view(&self) -> Resp
        decreases self,
    {
        match self {
            RespValue::SimpleString(s) => Resp::Simple(s@),
            RespValue::SimpleError(s) => Resp::Error(s@),
            RespValue::SimpleInteger(n) => Resp::Int(*n as int),
            RespValue::BulkString(s) => Resp::Bulk(s@),
            RespValue::NullBulkString => Resp::NullBulk,
            RespValue::Array(vs) => Resp::Array(
                Seq::new(
                    vs.len() as nat,
                    |i: int|
                        if 0 <= i < vs.len() {
                            vs[i].view()
                        } else {
                            Resp::NullArray
                        },
                ),
            ),
            RespValue::NullArray => Resp::NullArray,
        }
    }
}

pub open spec fn crlf() -> Seq<u8> {
    seq![13u8, 10u8]
}

/// The canonical wire form of a value.
pub open spec fn encode(v: Resp) -> Seq<u8>
    decreases v,
{
    match v {
        Resp::Simple(s) => seq![43u8] + s + crlf(),
        Resp::Error(s) => seq![45u8] + s + crlf(),
        Resp::Int(n) => seq![58u8] + decimal(n) + crlf(),
        Resp::Bulk(s) => seq![36u8] + decimal(s.len() as int) + crlf() + s + crlf(),
        Resp::NullBulk => seq![36u8, 45u8, 49u8, 13u8, 10u8],
        Resp::Array(vs) => seq![42u8] + decimal(vs.len() as int) + crlf() + encode_seq(vs),
        Resp::NullArray => seq![42u8, 45u8, 49u8, 13u8, 10u8],
    }
}


/// The encoding of each value of `vs`, one after the other.
pub open spec fn encode_seq(vs: Seq<Resp>) -> Seq<u8>
    decreases vs,
{
    if vs.len() == 0 {
        Seq::empty()
    } else {
        encode(vs[0]) + encode_seq(vs.subrange(1, vs.len() as int))
    }
}

pub proof fn lemma_encode_seq_push(vs: Seq<Resp>, v: Resp)
    ensures
        encode_seq(vs.push(v)) == encode_seq(vs) + encode(v),
    decreases vs.len(),
{
    if vs.len() == 0 {
        assert(vs.push(v).subrange(1, 1) =~= Seq::<Resp>::empty());
        assert(encode_seq(Seq::<Resp>::empty()) == Seq::<u8>::empty());
        assert(vs.push(v)[0] == v);
        assert(encode_seq(vs.push(v)) =~= encode(v));
    } else {
        let rest = vs.subrange(1, vs.len() as int);
        lemma_encode_seq_push(rest, v);
        assert(vs.push(v).subrange(1, vs.len() as int + 1) =~= rest.push(v));
        assert(encode_seq(vs.push(v)) =~= encode_seq(vs) + encode(v));
    }
}

/// Why a buffer is not a RESP value.
#[derive(PartialEq, Eq, Structural, Clone, Copy, Debug)]
pub enum RespError {
    /// The input ends inside a value.
    UnexpectedEnd,
    /// A value starts with a byte that is not one of `+ - : $ *`.
    UnknownStartingByte(u8),
    /// A number is not a signed 64-bit decimal.
    IntParseFailure(IntError),
    /// A number's bytes are not UTF-8.
    Utf8Failure,
    /// A bulk string's declared length is below -1, or its payload is not
    /// followed by CRLF.
    BadBulkStringSize(i64),
    /// An array's declared length is below -1.
    BadArraySize(i64),
}

fn push_all(out: &mut Vec<u8>, s: &[u8])
    ensures
        final(out)@ == old(out)@ + s@,
{
    let mut i: usize = 0;
    while i < s.len()
        invariant
            0 <= i <= s@.len(),
            out@ == old(out)@ + s@.subrange(0, i as int),
        decreases s@.len() - i,
    {
        out.push(s[i]);
        i += 1;
        proof {
            assert(out@ =~= old(out)@ + s@.subrange(0, i as int));
        }
    }
    proof {
        assert(s@.subrange(0, i as int) =~= s@);
    }
}

fn push_crlf(out: &mut Vec<u8>)
    ensures
        final(out)@ == old(out)@ + crlf(),
{
    out.push(13u8);
    out.push(10u8);
    proof {
        assert(final(out)@ =~= old(out)@ + crlf());
    }
}

/// The name of a value's variant, for diagnostics.
pub open spec fn variant_name(v: Resp) -> Seq<char> {
    match v {
        Resp::Simple(_) => "SimpleString"@,
        Resp::Error(_) => "SimpleError"@,
        Resp::Int(_) => "SimpleInteger"@,
        Resp::Bulk(_) => "BulkString"@,
        Resp::NullBulk => "NullBulkString"@,
        Resp::Array(_) => "Array"@,
        Resp::NullArray => "NullArray"@,
    }
}

impl<'a> RespValue<'a> {
    /// The name of this value's variant.
    pub fn type_string(&self) -> (r: String)
        ensures
            r@ == variant_name(self@),
    {
        match self {
            RespValue::SimpleString(_) => String::from_str("SimpleString"),
            RespValue::SimpleError(_) => String::from_str("SimpleError"),
            RespValue::SimpleInteger(_) => String::from_str("SimpleInteger"),
            RespValue::BulkString(_) => String::from_str("BulkString"),
            RespValue::NullBulkString => String::from_str("NullBulkString"),
            RespValue::Array(_) => String::from_str("Array"),
            RespValue::NullArray => String::from_str("NullArray"),
        }
    }

    /// Appends the canonical wire form of this value to `writer`. Writing to
    /// memory cannot fail.
    pub fn write(&self, writer: &mut Vec<u8>) -> (r: Result<(), RespError>)
        ensures
            final(writer)@ == old(writer)@ + encode(self@),
            r is Ok,
        decreases self,
    {
        let ghost start = writer@;
        match self {
            RespValue::SimpleString(contents) => {
                writer.push(43u8);
                push_all(writer, contents);
                push_crlf(writer);
                proof {
                    assert(writer@ =~= start + encode(self@));
                }
            },
            RespValue::SimpleError(contents) => {
                writer.push(45u8);
                push_all(writer, contents);
                push_crlf(writer);
                proof {
                    assert(writer@ =~= start + encode(self@));
                }
            },
            RespValue::SimpleInteger(value) => {
                writer.push(58u8);
                write_decimal(*value, writer);
                push_crlf(writer);
                proof {
                    assert(writer@ =~= start + encode(self@));
                }
            },
            RespValue::BulkString(contents) => {
                writer.push(36u8);
                write_digits(contents.len() as u64, writer);
                push_crlf(writer);
                push_all(writer, contents);
                push_crlf(writer);
                proof {
                    assert(writer@ =~= start + encode(self@));
                }
            },
            RespValue::NullBulkString => {
                writer.push(36u8);
                writer.push(45u8);
                writer.push(49u8);
                push_crlf(writer);
                proof {
                    assert(writer@ =~= start + encode(self@));
                }
            },
            RespValue::Array(vals) => {
                writer.push(42u8);
                write_digits(vals.len() as u64, writer);
                push_crlf(writer);
                let ghost head = writer@;
                let ghost items = self@->Array_0;
                assert(head =~= start + seq![42u8] + decimal(items.len() as int) + crlf());
                let mut i: usize = 0;
                while i < vals.len()
                    invariant
                        0 <= i <= vals@.len(),
                        *self is Array,
                        self->Array_0 == *vals,
                        items.len() == vals@.len(),
                        forall|j: int| 0 <= j < vals@.len() ==> #[trigger] items[j] == vals@[j]@,
                        writer@ == head + encode_seq(items.take(i as int)),
                    decreases vals@.len() - i,
                {
                    proof {
                        assert(decreases_to!(*self => vals[i as int])) by {
                            broadcast use vstd::std_specs::vec::axiom_vec_index_decreases;
                            let vs = self->Array_0;
                            assert(vs == *vals);
                            assert(decreases_to!(*self => vs));
                            assert(decreases_to!(vs => vs[i as int]));
                        }
                    }
                    vals[i].write(writer);
                    proof {
                        assert(items.take(i + 1) =~= items.take(i as int).push(items[i as int]));
                        lemma_encode_seq_push(items.take(i as int), items[i as int]);
                    }
                    i += 1;
                }
                proof {
                    assert(items.take(i as int) =~= items);
                    assert(self@ == Resp::Array(items));
                    assert(writer@ =~= start + encode(self@));
                }
            },
            RespValue::NullArray => {
                writer.push(42u8);
                writer.push(45u8);
                writer.push(49u8);
                push_crlf(writer);
                proof {
                    assert(writer@ =~= start + encode(self@));
                }
            },
        }
        Ok(())
    }
}


/// Whether `needle` occurs in `haystack` at index `i`.
pub open spec fn occurs_at(haystack: Seq<u8>, needle: Seq<u8>, i: int) -> bool {
    0 <= i && i + needle.len() <= haystack.len() && haystack.subrange(i, i + needle.len())
        == needle
}

/// Whether a CRLF pair starts at index `i` of `s`.
pub open spec fn crlf_at(s: Seq<u8>, i: int) -> bool {
    0 <= i && i + 2 <= s.len() && s[i] == 13u8 && s[i as int + 1] == 10u8
}

/// The index of the first CRLF pair of `s` at or after `i`.
pub open spec fn find_crlf(s: Seq<u8>, i: nat) -> Option<nat>
    decreases s.len() - i,
{
    if i + 2 > s.len() {
        None
    } else if s[i as int] == 13u8 && s[i as int + 1] == 10u8 {
        Some(i)
    } else {
        find_crlf(s, i + 1)
    }
}

pub proof fn lemma_find_crlf_bound(s: Seq<u8>, i: nat)
    ensures
        find_crlf(s, i) matches Some(e) ==> i <= e && crlf_at(s, e as int),
    decreases s.len() - i,
{
    if i + 2 <= s.len() && !(s[i as int] == 13u8 && s[i as int + 1] == 10u8) {
        lemma_find_crlf_bound(s, i + 1);
    }
}

pub proof fn lemma_find_crlf_first(s: Seq<u8>, i: nat, k: int)
    requires
        i <= k,
        crlf_at(s, k),
        forall|j: int| i <= j < k ==> !crlf_at(s, j),
    ensures
        find_crlf(s, i) == Some(k as nat),
    decreases k - i,
{
    if i < k {
        assert(!crlf_at(s, i as int));
        lemma_find_crlf_first(s, i + 1, k);
    }
}

pub proof fn lemma_find_crlf_none(s: Seq<u8>, i: nat)
    requires
        forall|j: int| i <= j ==> !crlf_at(s, j),
    ensures
        find_crlf(s, i) is None,
    decreases s.len() - i,
{
    if i + 2 <= s.len() {
        assert(!crlf_at(s, i as int));
        lemma_find_crlf_none(s, i + 1);
    }
}

/// The number that a word holds: UTF-8 text of a signed 64-bit decimal.
pub open spec fn integer_of(w: Seq<u8>) -> Result<i64, RespError> {
    if !valid_utf8(w) {
        Err(RespError::Utf8Failure)
    } else {
        match parse_int_spec(w) {
            Ok(n) => Ok(n),
            Err(k) => Err(RespError::IntParseFailure(k)),
        }
    }
}

/// Relies on std::str::from_utf8: it succeeds exactly on well-formed UTF-8.
#[verifier::external_body]
fn is_utf8(bytes: &[u8]) -> (r: bool)
    ensures
        r == valid_utf8(bytes@),
{
    std::str::from_utf8(bytes).is_ok()
}

/// A bulk string whose header held `size_word`, followed by `rest`.
pub open spec fn parse_bulk(size_word: Seq<u8>, rest: Seq<u8>) -> Result<(Resp, Seq<u8>), RespError> {
    match integer_of(size_word) {
        Err(e) => Err(e),
        Ok(n) => if n < -1 {
            Err(RespError::BadBulkStringSize(n))
        } else if n == -1 {
            Ok((Resp::NullBulk, rest))
        } else if rest.len() < n + 2 {
            Err(RespError::UnexpectedEnd)
        } else if !crlf_at(rest, n as int) {
            Err(RespError::BadBulkStringSize(n))
        } else {
            Ok((Resp::Bulk(rest.subrange(0, n as int)), rest.subrange(n + 2, rest.len() as int)))
        },
    }
}

/// An array whose header held `size_word`, with its items at the front of `rest`.
pub open spec fn parse_array_body(size_word: Seq<u8>, rest: Seq<u8>) -> Result<(Resp, Seq<u8>), RespError>
    decreases rest.len(), 2nat, 0nat,
{
    match integer_of(size_word) {
        Err(e) => Err(e),
        Ok(n) => if n < -1 {
            Err(RespError::BadArraySize(n))
        } else if n == -1 {
            Ok((Resp::NullArray, rest))
        } else {
            match parse_items(rest, n as nat) {
                Ok((vs, r)) => Ok((Resp::Array(vs), r)),
                Err(err) => Err(err),
            }
        },
    }
}

/// The value whose first line is `word`, followed by `rest`.
pub open spec fn parse_word(word: Seq<u8>, rest: Seq<u8>) -> Result<(Resp, Seq<u8>), RespError>
    decreases rest.len(), 3nat, 0nat,
{
    if word.len() == 0 {
        Err(RespError::UnexpectedEnd)
    } else if word[0] == 43u8 {
        Ok((Resp::Simple(word.subrange(1, word.len() as int)), rest))
    } else if word[0] == 45u8 {
        Ok((Resp::Error(word.subrange(1, word.len() as int)), rest))
    } else if word[0] == 58u8 {
        match integer_of(word.subrange(1, word.len() as int)) {
            Ok(n) => Ok((Resp::Int(n as int), rest)),
            Err(e) => Err(e),
        }
    } else if word[0] == 36u8 {
        parse_bulk(word.subrange(1, word.len() as int), rest)
    } else if word[0] == 42u8 {
        parse_array_body(word.subrange(1, word.len() as int), rest)
    } else {
        Err(RespError::UnknownStartingByte(word[0]))
    }
}

/// Parses one value from the front of `s`, giving it and the bytes after it.
pub open spec fn parse_value(s: Seq<u8>) -> Result<(Resp, Seq<u8>), RespError>
    decreases s.len(), 0nat, 0nat,
{
    match find_crlf(s, 0) {
        None => Err(RespError::UnexpectedEnd),
        Some(e) => {
            proof {
                lemma_find_crlf_bound(s, 0);
            }
            parse_word(s.subrange(0, e as int), s.subrange(e as int + 2, s.len() as int))
        },
    }
}

/// Parses `n` values one after the other from the front of `s`.
pub open spec fn parse_items(s: Seq<u8>, n: nat) -> Result<(Seq<Resp>, Seq<u8>), RespError>
    decreases s.len(), 1nat, n,
{
    if n == 0 {
        Ok((Seq::empty(), s))
    } else {
        match parse_value(s) {
            Err(err) => Err(err),
            Ok((v, rest)) => if rest.len() < s.len() {
                match parse_items(rest, (n - 1) as nat) {
                    Ok((vs, r)) => Ok((seq![v] + vs, r)),
                    Err(err) => Err(err),
                }
            } else {
                Err(RespError::UnexpectedEnd)
            },
        }
    }
}

/// Parses the whole of `s` as a sequence of values.
pub open spec fn parse_all(s: Seq<u8>) -> Result<Seq<Resp>, RespError>
    decreases s.len(),
{
    if s.len() == 0 {
        Ok(Seq::empty())
    } else {
        match parse_value(s) {
            Err(err) => Err(err),
            Ok((v, rest)) => if rest.len() < s.len() {
                match parse_all(rest) {
                    Ok(vs) => Ok(seq![v] + vs),
                    Err(err) => Err(err),
                }
            } else {
                Err(RespError::UnexpectedEnd)
            },
        }
    }
}

/// Relies on memchr::memmem::find: the index of the first occurrence of
/// `needle` in `haystack`, or `None` where it does not occur.
#[verifier::external_body]
fn find_subslice(haystack: &[u8], needle: &[u8]) -> (r: Option<usize>)
    ensures
        match r {
            Some(i) => occurs_at(haystack@, needle@, i as int) && forall|j: int|
                0 <= j < i ==> !occurs_at(haystack@, needle@, j),
            None => forall|j: int| !occurs_at(haystack@, needle@, j),
        },
{
    memchr::memmem::find(haystack, needle)
}

/// One step of parsing: a value, and the input that follows it.
#[derive(PartialEq, Debug)]
pub struct RespParseStep<'a> {
    pub value: RespValue<'a>,
    pub remainder: &'a [u8],
}

/// The word before the first CRLF, and the input after that CRLF.
struct RespPartialParse<'a> {
    word: &'a [u8],
    remainder: &'a [u8],
}

pub open spec fn step_matches(r: Result<RespParseStep, RespError>, s: Result<(Resp, Seq<u8>), RespError>) -> bool {
    match (r, s) {
        (Ok(step), Ok((v, rest))) => step.value@ == v && step.remainder@ == rest,
        (Err(e), Err(e2)) => e == e2,
        _ => false,
    }
}

pub open spec fn items_of(vals: Seq<RespValue>) -> Seq<Resp> {
    Seq::new(vals.len(), |i: int| vals[i]@)
}

pub open spec fn prepend_items(vs: Seq<Resp>, r: Result<(Seq<Resp>, Seq<u8>), RespError>) -> Result<(Seq<Resp>, Seq<u8>), RespError> {
    match r {
        Ok((ws, rest)) => Ok((vs + ws, rest)),
        Err(err) => Err(err),
    }
}

/// Whether two byte strings are equal.
pub fn bytes_equal(a: &[u8], b: &[u8]) -> (r: bool)
    ensures
        r == (a@ == b@),
{
    if a.len() != b.len() {
        return false;
    }
    let mut i: usize = 0;
    while i < a.len()
        invariant
            0 <= i <= a@.len(),
            a@.len() == b@.len(),
            forall|j: int| 0 <= j < i ==> a@[j] == b@[j],
        decreases a@.len() - i,
    {
        if a[i] != b[i] {
            return false;
        }
        i += 1;
    }
    proof {
        assert(a@ =~= b@);
    }
    true
}

/// A RESP parser. It splits words at the CRLF separator.
pub struct RespParser {
    separator: Vec<u8>,
}

impl RespParser {
    pub closed spec fn wf(&self) -> bool {
        self.separator@ == crlf()
    }

    pub fn new() -> (r: Self)
        ensures
            r.wf(),
    {
        let mut separator: Vec<u8> = Vec::new();
        separator.push(13u8);
        separator.push(10u8);
        proof {
            assert(separator@ =~= crlf());
        }
        RespParser { separator }
    }

    fn next_word<'b>(&self, input: &'b [u8]) -> (r: Result<RespPartialParse<'b>, RespError>)
        requires
            self.wf(),
        ensures
            match (r, find_crlf(input@, 0)) {
                (Ok(p), Some(e)) => p.word@ == input@.subrange(0, e as int) && p.remainder@
                    == input@.subrange(e as int + 2, input@.len() as int) && e + 2 <= input@.len(),
                (Err(err), None) => err == RespError::UnexpectedEnd,
                _ => false,
            },
    {
        let sep = self.separator.as_slice();
        assert(sep@ == crlf());
        match find_subslice(input, sep) {
            Some(pos) => {
                proof {
                    assert(pos + 2 <= input@.len());
                    assert forall|j: int| 0 <= j < pos implies !crlf_at(input@, j) by {
                        if crlf_at(input@, j) {
                            assert(input@.subrange(j, j + 2) =~= crlf());
                            assert(occurs_at(input@, self.separator@, j));
                        }
                    }
                    assert(input@.subrange(pos as int, pos + 2) == crlf());
                    assert(input@[pos as int] == input@.subrange(pos as int, pos + 2)[0]);
                    assert(input@[pos + 1] == input@.subrange(pos as int, pos + 2)[1]);
                    lemma_find_crlf_first(input@, 0, pos as int);
                }
                assert(pos + 2 <= input.len());
                let after: usize = pos + 2;
                Ok(
                    RespPartialParse {
                        word: vstd::slice::slice_subrange(input, 0, pos),
                        remainder: vstd::slice::slice_subrange(input, after, input.len()),
                    },
                )
            },
            None => {
                proof {
                    assert forall|j: int| 0 <= j implies !crlf_at(input@, j) by {
                        if crlf_at(input@, j) {
                            assert(input@.subrange(j, j + 2) =~= crlf());
                            assert(occurs_at(input@, self.separator@, j));
                        }
                    }
                    lemma_find_crlf_none(input@, 0);
                }
                Err(RespError::UnexpectedEnd)
            },
        }
    }

    /// Parses all of `input` as a sequence of values. Empty input gives no
    /// values.
    pub fn get_values<'b>(&self, input: &'b [u8]) -> (r: Result<Vec<RespValue<'b>>, RespError>)
        requires
            self.wf(),
        ensures
            match r {
                Ok(vs) => parse_all(input@) == Ok::<Seq<Resp>, RespError>(items_of(vs@)),
                Err(err) => parse_all(input@) == Err::<Seq<Resp>, RespError>(err),
            },
    {
        let mut resp_values: Vec<RespValue<'b>> = Vec::new();
        let mut curr: &'b [u8] = input;
        proof {
            assert(items_of(resp_values@) =~= Seq::<Resp>::empty());
        }
        while curr.len() > 0
            invariant
                self.wf(),
                parse_all(input@) == match parse_all(curr@) {
                    Ok(ws) => Ok(items_of(resp_values@) + ws),
                    Err(err) => Err::<Seq<Resp>, RespError>(err),
                },
            decreases curr@.len(),
        {
            match self.next_value(curr) {
                Err(err) => {
                    return Err(err);
                },
                Ok(step) => {
                    let ghost old_items = items_of(resp_values@);
                    let ghost v = step.value@;
                    resp_values.push(step.value);
                    proof {
                        assert(items_of(resp_values@) =~= old_items.push(v));
                        match parse_all(step.remainder@) {
                            Ok(ws) => {
                                assert(old_items + (seq![v] + ws) =~= items_of(resp_values@) + ws);
                            },
                            Err(_) => {},
                        }
                    }
                    curr = step.remainder;
                },
            }
        }
        proof {
            assert(items_of(resp_values@) + Seq::<Resp>::empty() =~= items_of(resp_values@));
        }
        Ok(resp_values)
    }

    /// Parses the value at the front of `input`, giving it and the input
    /// after it.
    pub fn next_value<'b>(&self, input: &'b [u8]) -> (r: Result<RespParseStep<'b>, RespError>)
        requires
            self.wf(),
        ensures
            step_matches(r, parse_value(input@)),
            r matches Ok(step) ==> step.remainder@.len() < input@.len(),
        decreases input@.len(), 0nat,
    {
        let p = match self.next_word(input) {
            Ok(p) => p,
            Err(err) => {
                return Err(err);
            },
        };
        let word = p.word;
        let remainder = p.remainder;
        if word.len() == 0 {
            return Err(RespError::UnexpectedEnd);
        }
        let tail = vstd::slice::slice_subrange(word, 1, word.len());
        proof {
            assert(tail@ == word@.subrange(1, word@.len() as int));
        }
        if word[0] == 43u8 {
            Ok(RespParseStep { value: RespValue::SimpleString(tail), remainder })
        } else if word[0] == 45u8 {
            Ok(RespParseStep { value: RespValue::SimpleError(tail), remainder })
        } else if word[0] == 58u8 {
            match parse_integer(tail) {
                Ok(n) => Ok(RespParseStep { value: RespValue::SimpleInteger(n), remainder }),
                Err(err) => Err(err),
            }
        } else if word[0] == 36u8 {
            self.parse_bulk_string(tail, remainder)
        } else if word[0] == 42u8 {
            self.parse_array(tail, remainder)
        } else {
            Err(RespError::UnknownStartingByte(word[0]))
        }
    }

    fn parse_bulk_string<'b>(&self, input: &[u8], remainder: &'b [u8]) -> (r: Result<
        RespParseStep<'b>,
        RespError,
    >)
        ensures
            step_matches(r, parse_bulk(input@, remainder@)),
            r matches Ok(step) ==> step.remainder@.len() <= remainder@.len(),
    {
        let size = match parse_integer(input) {
            Ok(n) => n,
            Err(err) => {
                return Err(err);
            },
        };
        if size < -1 {
            Err(RespError::BadBulkStringSize(size))
        } else if size == -1 {
            Ok(RespParseStep { value: RespValue::NullBulkString, remainder })
        } else if remainder.len() < 2 || (size as u64) > (remainder.len() - 2) as u64 {
            Err(RespError::UnexpectedEnd)
        } else {
            let n: usize = size as usize;
            if remainder[n] != 13u8 || remainder[n + 1] != 10u8 {
                Err(RespError::BadBulkStringSize(size))
            } else {
                Ok(
                    RespParseStep {
                        value: RespValue::BulkString(vstd::slice::slice_subrange(remainder, 0, n)),
                        remainder: vstd::slice::slice_subrange(remainder, n + 2, remainder.len()),
                    },
                )
            }
        }
    }

    fn parse_array<'b>(&self, input: &[u8], remainder: &'b [u8]) -> (r: Result<
        RespParseStep<'b>,
        RespError,
    >)
        requires
            self.wf(),
        ensures
            step_matches(r, parse_array_body(input@, remainder@)),
            r matches Ok(step) ==> step.remainder@.len() <= remainder@.len(),
        decreases remainder@.len(), 1nat,
    {
        let size = match parse_integer(input) {
            Ok(n) => n,
            Err(err) => {
                return Err(err);
            },
        };
        if size < -1 {
            return Err(RespError::BadArraySize(size));
        } else if size == -1 {
            return Ok(RespParseStep { value: RespValue::NullArray, remainder });
        }
        let mut vals: Vec<RespValue<'b>> = Vec::new();
        let mut curr: &'b [u8] = remainder;
        let mut k: i64 = 0;
        proof {
            assert(items_of(vals@) =~= Seq::<Resp>::empty());
            assert(prepend_items(Seq::empty(), parse_items(remainder@, size as nat))
                =~= parse_items(remainder@, size as nat)) by {
                match parse_items(remainder@, size as nat) {
                    Ok((ws, rest)) => {
                        assert(Seq::<Resp>::empty() + ws =~= ws);
                    },
                    Err(_) => {},
                }
            }
        }
        while k < size
            invariant
                self.wf(),
                0 <= k <= size,
                curr@.len() <= remainder@.len(),
                parse_array_body(input@, remainder@) == match parse_items(remainder@, size as nat) {
                    Ok((vs, r)) => Ok((Resp::Array(vs), r)),
                    Err(err) => Err::<(Resp, Seq<u8>), RespError>(err),
                },
                parse_items(remainder@, size as nat) == prepend_items(
                    items_of(vals@),
                    parse_items(curr@, (size - k) as nat),
                ),
            decreases curr@.len(),
        {
            match self.next_value(curr) {
                Err(err) => {
                    proof {
                        assert(parse_items(curr@, (size - k) as nat) == Err::<
                            (Seq<Resp>, Seq<u8>),
                            RespError,
                        >(err));
                    }
                    return Err(err);
                },
                Ok(step) => {
                    let ghost old_items = items_of(vals@);
                    let ghost v = step.value@;
                    vals.push(step.value);
                    proof {
                        assert(items_of(vals@) =~= old_items.push(v));
                        match parse_items(step.remainder@, (size - k - 1) as nat) {
                            Ok((ws, rest)) => {
                                assert(old_items + (seq![v] + ws) =~= items_of(vals@) + ws);
                            },
                            Err(_) => {},
                        }
                    }
                    curr = step.remainder;
                    k += 1;
                },
            }
        }
        proof {
            assert(items_of(vals@) + Seq::<Resp>::empty() =~= items_of(vals@));
            let value = RespValue::Array(vals);
            assert(value@->Array_0 =~= items_of(vals@));
        }
        Ok(RespParseStep { value: RespValue::Array(vals), remainder: curr })
    }
}

/// Parses a signed decimal number.
pub fn parse_integer(input: &[u8]) -> (r: Result<i64, RespError>)
    ensures
        r == integer_of(input@),
{
    if !is_utf8(input) {
        return Err(RespError::Utf8Failure);
    }
    match parse_decimal(input) {
        Ok(n) => Ok(n),
        Err(k) => Err(RespError::IntParseFailure(k)),
    }
}

} // verus!
