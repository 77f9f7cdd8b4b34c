//! Every well-formed value, and every sequence of them, parses back from its
//! encoding.
use vstd::prelude::*;
use crate::decimal::{all_digits, decimal, digits, digits_value, i64_range, is_digit, parse_int_spec};
use crate::resp::{
    crlf, crlf_at, encode, encode_seq, find_crlf, lemma_find_crlf_first, parse_all, parse_items,
    integer_of, parse_value, parse_word, Resp,
};

verus! {

/// Whether a simple string's payload holds no CRLF pair.
pub open spec fn inline_ok(s: Seq<u8>) -> bool {
    forall|i: int| !#[trigger] crlf_at(s, i)
}

/// Whether a value can be written and read back: inline payloads hold no
/// CRLF, integers fit in 64 bits, and lengths fit in a signed 64-bit count.
pub open spec fn resp_wf(v: Resp) -> bool
    decreases v,
{
    match v {
        Resp::Simple(s) => inline_ok(s),
        Resp::Error(s) => inline_ok(s),
        Resp::Int(n) => i64_range(n),
        Resp::Bulk(s) => s.len() <= i64::MAX,
        Resp::NullBulk => true,
        Resp::Array(vs) => vs.len() <= i64::MAX && items_wf(vs),
        Resp::NullArray => true,
    }
}

/// Whether each of `vs` can be written and read back, checked from the
/// front; the array case of `resp_wf` recurses through it.
pub open spec fn items_wf(vs: Seq<Resp>) -> bool
    decreases vs,
{
    if vs.len() == 0 {
        true
    } else {
        resp_wf(vs[0]) && items_wf(vs.subrange(1, vs.len() as int))
    }
}

/// Whether each of `vs` can be written and read back.
pub open spec fn all_wf(vs: Seq<Resp>) -> bool {
    forall|i: int| 0 <= i < vs.len() ==> #[trigger] resp_wf(vs[i])
}

proof fn lemma_digits(n: nat)
    ensures
        digits(n).len() > 0,
        all_digits(digits(n)),
        digits_value(digits(n)) == n,
    decreases n,
{
    if n < 10 {
        assert(digits(n).drop_last() =~= Seq::<u8>::empty());
        assert(digits(n).last() == (48 + n) as u8);
        assert(digits_value(Seq::<u8>::empty()) == 0);
    } else {
        lemma_digits(n / 10);
        let d = digits(n / 10);
        assert(digits(n).drop_last() =~= d);
        assert(digits(n).last() == (48 + n % 10) as u8);
        vstd::arithmetic::div_mod::lemma_fundamental_div_mod(n as int, 10);
        assert forall|i: int| 0 <= i < digits(n).len() implies is_digit(#[trigger] digits(n)[i]) by {
            if i < d.len() {
                assert(digits(n)[i] == d[i]);
            }
        }
    }
}

proof fn lemma_parse_decimal(n: int)
    requires
        i64_range(n),
    ensures
        parse_int_spec(decimal(n)) == Ok::<i64, crate::decimal::IntError>(n as i64),
        forall|i: int| 0 <= i < decimal(n).len() ==> #[trigger] decimal(n)[i] != 13u8 && decimal(n)[i] < 128,
{
    if n < 0 {
        lemma_digits((-n) as nat);
        let w = decimal(n);
        assert(w.subrange(1, w.len() as int) =~= digits((-n) as nat));
        assert(is_digit(digits((-n) as nat)[0]));
        assert forall|i: int| 0 <= i < w.len() implies #[trigger] w[i] != 13u8 by {
            if i > 0 {
                assert(w[i] == digits((-n) as nat)[i - 1]);
                assert(is_digit(digits((-n) as nat)[i - 1]));
            }
        }
    } else {
        lemma_digits(n as nat);
        assert(is_digit(digits(n as nat)[0]));
        assert forall|i: int| 0 <= i < decimal(n).len() implies #[trigger] decimal(n)[i] != 13u8 by {
            assert(is_digit(digits(n as nat)[i]));
        }
    }
}

/// The first CRLF of `a + CRLF + b` ends `a`, where `a` holds none.
proof fn lemma_word(a: Seq<u8>, b: Seq<u8>)
    requires
        inline_ok(a),
    ensures
        find_crlf(a + crlf() + b, 0) == Some(a.len()),
{
    let s = a + crlf() + b;
    assert(crlf_at(s, a.len() as int));
    assert forall|j: int| 0 <= j < a.len() implies !crlf_at(s, j) by {
        if j + 1 < a.len() {
            assert(s[j] == a[j] && s[j + 1] == a[j + 1]);
            assert(!crlf_at(a, j));
        } else {
            assert(s[j + 1] == 13u8);
        }
    }
    lemma_find_crlf_first(s, 0, a.len() as int);
}

proof fn lemma_encode_nonempty(v: Resp)
    ensures
        encode(v).len() > 0,
{
}

/// A line `w` without CRLF, then CRLF, then `r`: the word is `w`.
proof fn lemma_parse_line(w: Seq<u8>, r: Seq<u8>)
    requires
        inline_ok(w),
    ensures
        parse_value(w + crlf() + r) == parse_word(w, r),
{
    let s = w + crlf() + r;
    lemma_word(w, r);
    assert(s.subrange(0, w.len() as int) =~= w);
    assert(s.subrange(w.len() as int + 2, s.len() as int) =~= r);
}

proof fn lemma_inline_tagged(tag: u8, p: Seq<u8>)
    requires
        inline_ok(p),
        tag != 13u8,
    ensures
        inline_ok(seq![tag] + p),
        (seq![tag] + p)[0] == tag,
        (seq![tag] + p).subrange(1, p.len() as int + 1) == p,
{
    let w = seq![tag] + p;
    assert forall|i: int| !#[trigger] crlf_at(w, i) by {
        if i > 0 && i + 2 <= w.len() {
            assert(w[i] == p[i - 1] && w[i + 1] == p[i]);
            assert(!crlf_at(p, i - 1));
        }
    }
    assert(w.subrange(1, p.len() as int + 1) =~= p);
}

/// Bytes below 0x80 are well-formed UTF-8.
proof fn lemma_ascii_utf8(w: Seq<u8>)
    requires
        forall|i: int| 0 <= i < w.len() ==> #[trigger] w[i] < 128,
    ensures
        vstd::utf8::valid_utf8(w),
    decreases w.len(),
{
    if w.len() > 0 {
        let b = w[0];
        assert(b < 128);
        assert((b & 0x7f) as u32 <= 0x7f) by (bit_vector);
        let tail = w.subrange(1, w.len() as int);
        assert(vstd::utf8::pop_first_scalar(w) =~= tail);
        assert forall|i: int| 0 <= i < tail.len() implies #[trigger] tail[i] < 128 by {
            assert(tail[i] == w[i + 1]);
        }
        lemma_ascii_utf8(tail);
    }
}

proof fn lemma_decimal_inline(n: int)
    requires
        i64_range(n),
    ensures
        inline_ok(decimal(n)),
        integer_of(decimal(n)) == Ok::<i64, crate::resp::RespError>(n as i64),
{
    lemma_parse_decimal(n);
    lemma_ascii_utf8(decimal(n));
    assert forall|i: int| !#[trigger] crlf_at(decimal(n), i) by {
        if 0 <= i < decimal(n).len() {
            assert(decimal(n)[i] != 13u8);
        }
    }
}

proof fn lemma_parse_simple(tag: u8, p: Seq<u8>, rest: Seq<u8>)
    requires
        inline_ok(p),
        tag == 43u8 || tag == 45u8,
    ensures
        parse_value(seq![tag] + p + crlf() + rest) == Ok::<(Resp, Seq<u8>), crate::resp::RespError>(
            (if tag == 43u8 { Resp::Simple(p) } else { Resp::Error(p) }, rest),
        ),
{
    lemma_inline_tagged(tag, p);
    lemma_parse_line(seq![tag] + p, rest);
}

proof fn lemma_parse_int(n: int, rest: Seq<u8>)
    requires
        i64_range(n),
    ensures
        parse_value(seq![58u8] + decimal(n) + crlf() + rest) == Ok::<(Resp, Seq<u8>), crate::resp::RespError>(
            (Resp::Int(n), rest),
        ),
{
    lemma_decimal_inline(n);
    lemma_inline_tagged(58u8, decimal(n));
    lemma_parse_line(seq![58u8] + decimal(n), rest);
}

proof fn lemma_parse_null(tag: u8, rest: Seq<u8>)
    requires
        tag == 36u8 || tag == 42u8,
    ensures
        parse_value(seq![tag] + decimal(-1) + crlf() + rest) == Ok::<(Resp, Seq<u8>), crate::resp::RespError>(
            (if tag == 36u8 { Resp::NullBulk } else { Resp::NullArray }, rest),
        ),
{
    lemma_decimal_inline(-1);
    lemma_inline_tagged(tag, decimal(-1));
    lemma_parse_line(seq![tag] + decimal(-1), rest);
}

proof fn lemma_parse_bulk(p: Seq<u8>, rest: Seq<u8>)
    requires
        p.len() <= i64::MAX,
    ensures
        parse_value(seq![36u8] + decimal(p.len() as int) + crlf() + (p + crlf() + rest)) == Ok::<
            (Resp, Seq<u8>),
            crate::resp::RespError,
        >((Resp::Bulk(p), rest)),
{
    let n = p.len() as int;
    lemma_decimal_inline(n);
    lemma_inline_tagged(36u8, decimal(n));
    let r1 = p + crlf() + rest;
    lemma_parse_line(seq![36u8] + decimal(n), r1);
    assert(crlf_at(r1, n));
    assert(r1.subrange(0, n) =~= p);
    assert(r1.subrange(n + 2, r1.len() as int) =~= rest);
}

proof fn lemma_parse_array(vs: Seq<Resp>, rest: Seq<u8>)
    requires
        vs.len() <= i64::MAX,
        parse_items(encode_seq(vs) + rest, vs.len()) == Ok::<(Seq<Resp>, Seq<u8>), crate::resp::RespError>((vs, rest)),
    ensures
        parse_value(seq![42u8] + decimal(vs.len() as int) + crlf() + (encode_seq(vs) + rest)) == Ok::<
            (Resp, Seq<u8>),
            crate::resp::RespError,
        >((Resp::Array(vs), rest)),
{
    let n = vs.len() as int;
    lemma_decimal_inline(n);
    lemma_inline_tagged(42u8, decimal(n));
    lemma_parse_line(seq![42u8] + decimal(n), encode_seq(vs) + rest);
}

/// A well-formed value parses back from its encoding, whatever follows it.
pub proof fn lemma_parse_encode(v: Resp, rest: Seq<u8>)
    requires
        resp_wf(v),
    ensures
        parse_value(encode(v) + rest) == Ok::<(Resp, Seq<u8>), crate::resp::RespError>((v, rest)),
    decreases v, 0nat,
{
    match v {
        Resp::Simple(p) => {
            assert(encode(v) + rest =~= seq![43u8] + p + crlf() + rest);
            lemma_parse_simple(43u8, p, rest);
        },
        Resp::Error(p) => {
            assert(encode(v) + rest =~= seq![45u8] + p + crlf() + rest);
            lemma_parse_simple(45u8, p, rest);
        },
        Resp::Int(n) => {
            assert(encode(v) + rest =~= seq![58u8] + decimal(n) + crlf() + rest);
            lemma_parse_int(n, rest);
        },
        Resp::Bulk(p) => {
            assert(encode(v) + rest =~= seq![36u8] + decimal(p.len() as int) + crlf() + (p + crlf()
                + rest));
            lemma_parse_bulk(p, rest);
        },
        Resp::NullBulk => {
            assert(decimal(-1) =~= seq![45u8, 49u8]);
            assert(encode(v) + rest =~= seq![36u8] + decimal(-1) + crlf() + rest);
            lemma_parse_null(36u8, rest);
        },
        Resp::Array(vs) => {
            assert(encode(v) + rest =~= seq![42u8] + decimal(vs.len() as int) + crlf() + (
            encode_seq(vs) + rest));
            lemma_parse_items_encode(vs, rest);
            lemma_parse_array(vs, rest);
        },
        Resp::NullArray => {
            assert(decimal(-1) =~= seq![45u8, 49u8]);
            assert(encode(v) + rest =~= seq![42u8] + decimal(-1) + crlf() + rest);
            lemma_parse_null(42u8, rest);
        },
    }
}

/// Well-formed values, encoded one after the other, parse back as items of
/// an array, whatever follows them.
pub proof fn lemma_parse_items_encode(vs: Seq<Resp>, rest: Seq<u8>)
    requires
        items_wf(vs),
    ensures
        parse_items(encode_seq(vs) + rest, vs.len()) == Ok::<(Seq<Resp>, Seq<u8>), crate::resp::RespError>((vs, rest)),
    decreases vs, 1nat,
{
    if vs.len() > 0 {
        let tail = vs.subrange(1, vs.len() as int);
        let r1 = encode_seq(tail) + rest;
        assert(encode_seq(vs) + rest =~= encode(vs[0]) + r1);
        lemma_parse_encode(vs[0], r1);
        lemma_encode_nonempty(vs[0]);
        lemma_parse_items_encode(tail, rest);
        let s = encode_seq(vs) + rest;
        assert(parse_value(s) == Ok::<(Resp, Seq<u8>), crate::resp::RespError>((vs[0], r1)));
        assert(r1.len() < s.len());
        assert((vs.len() - 1) as nat == tail.len());
        assert(seq![vs[0]] + tail =~= vs);
        assert(parse_items(s, vs.len()) == Ok::<(Seq<Resp>, Seq<u8>), crate::resp::RespError>((seq![vs[0]] + tail, rest)));
    } else {
        assert(encode_seq(vs) + rest =~= rest);
        assert(vs =~= Seq::<Resp>::empty());
    }
}

/// Round trip of a concatenation: the encodings of well-formed values, one
/// after the other, parse back as exactly those values.
pub proof fn lemma_round_trip_all(vs: Seq<Resp>)
    requires
        all_wf(vs),
    ensures
        parse_all(encode_seq(vs)) == Ok::<Seq<Resp>, crate::resp::RespError>(vs),
    decreases vs.len(),
{
    if vs.len() > 0 {
        let tail = vs.subrange(1, vs.len() as int);
        assert(all_wf(tail)) by {
            assert forall|i: int| 0 <= i < tail.len() implies #[trigger] resp_wf(tail[i]) by {
                assert(tail[i] == vs[i + 1]);
            }
        }
        assert(resp_wf(vs[0]));
        lemma_parse_encode(vs[0], encode_seq(tail));
        lemma_encode_nonempty(vs[0]);
        lemma_round_trip_all(tail);
        assert(seq![vs[0]] + tail =~= vs);
    } else {
        assert(encode_seq(vs) =~= Seq::<u8>::empty());
        assert(vs =~= Seq::<Resp>::empty());
    }
}

/// Round trip of one value: the encoding of a well-formed value parses back
/// as that value alone. This covers both null sentinels and empty arrays.
pub proof fn lemma_round_trip(v: Resp)
    requires
        resp_wf(v),
    ensures
        parse_all(encode(v)) == Ok::<Seq<Resp>, crate::resp::RespError>(seq![v]),
{
    lemma_parse_encode(v, Seq::empty());
    assert(encode(v) + Seq::<u8>::empty() =~= encode(v));
    lemma_encode_nonempty(v);
    assert(parse_all(Seq::<u8>::empty()) == Ok::<Seq<Resp>, crate::resp::RespError>(Seq::empty()));
    assert(seq![v] + Seq::<Resp>::empty() =~= seq![v]);
}

} // verus!
