//! Scanning of the text form: literal pieces, unsigned decimals and quoted
//! strings, read from the front of the UTF-8 bytes of a text.
use vstd::prelude::*;
use vstd::utf8::{decode_utf8, encode_utf8, is_ascii_chars, valid_utf8};
use crate::codec::{lemma_read, read_fn, read_ok};

verus! {

/// The bytes after the prefix `p` of `b`, where `b` starts with `p`.
#[verifier::opaque]
pub open spec fn after(b: Seq<u8>, p: Seq<u8>) -> Option<Seq<u8>> {
    if b.len() >= p.len() && b.take(p.len() as int) == p {
        Some(b.skip(p.len() as int))
    } else {
        None
    }
}

/// Whether a byte ends a number in the text form: a comma or a closing
/// bracket or brace.
pub open spec fn is_delim(c: u8) -> bool {
    c == 44 || c == 93 || c == 125
}

/// Whether a byte is an ASCII decimal digit.
pub open spec fn is_digit(c: u8) -> bool {
    48 <= c <= 57
}

/// The number of decimal digits at the front of `b`.
pub open spec fn digit_run(b: Seq<u8>) -> nat
    decreases b.len(),
{
    if b.len() > 0 && is_digit(b[0]) {
        1 + digit_run(b.drop_first())
    } else {
        0
    }
}

/// The value of a run of decimal digits.
pub open spec fn digits_value(d: Seq<u8>) -> int
    decreases d.len(),
{
    if d.len() == 0 {
        0
    } else {
        digits_value(d.drop_last()) * 10 + (d.last() - 48)
    }
}

/// Reads an unsigned decimal that fits a `u64`, with the bytes after it.
#[verifier::opaque]
pub open spec fn parse_decimal(b: Seq<u8>) -> Option<(u64, Seq<u8>)> {
    let n = digit_run(b);
    if n == 0 || digits_value(b.take(n as int)) > u64::MAX {
        None
    } else {
        Some((digits_value(b.take(n as int)) as u64, b.skip(n as int)))
    }
}

/// The escaped form of a text: a double quote or a backslash gets a
/// backslash in front of it.
pub open spec fn escape(s: Seq<char>) -> Seq<char>
    decreases s.len(),
{
    if s.len() == 0 {
        Seq::empty()
    } else if s[0] == '"' || s[0] == '\\' {
        seq!['\\', s[0]] + escape(s.drop_first())
    } else {
        seq![s[0]] + escape(s.drop_first())
    }
}

/// The escaped form of UTF-8 bytes: a double quote (34) or a backslash (92)
/// gets a backslash in front of it.
pub open spec fn escape_bytes(b: Seq<u8>) -> Seq<u8>
    decreases b.len(),
{
    if b.len() == 0 {
        Seq::empty()
    } else if b[0] == 34 || b[0] == 92 {
        seq![92u8, b[0]] + escape_bytes(b.drop_first())
    } else {
        seq![b[0]] + escape_bytes(b.drop_first())
    }
}

/// Reads escaped bytes up to the closing double quote: gives the bytes with
/// their escapes undone and the bytes after that quote. A backslash must be
/// followed by a double quote or a backslash.
pub open spec fn unescape(b: Seq<u8>) -> Option<(Seq<u8>, Seq<u8>)>
    decreases b.len(),
{
    if b.len() == 0 {
        None
    } else if b[0] == 34 {
        Some((Seq::empty(), b.drop_first()))
    } else if b[0] == 92 {
        if b.len() >= 2 && (b[1] == 34 || b[1] == 92) {
            match unescape(b.skip(2)) {
                Some((c, r)) => Some((seq![b[1]] + c, r)),
                None => None,
            }
        } else {
            None
        }
    } else {
        match unescape(b.drop_first()) {
            Some((c, r)) => Some((seq![b[0]] + c, r)),
            None => None,
        }
    }
}

/// Reads an escaped text up to its closing double quote, with the bytes after
/// that quote.
pub open spec fn parse_escaped(b: Seq<u8>) -> Option<(Seq<char>, Seq<u8>)> {
    match unescape(b) {
        Some((c, r)) => if valid_utf8(c) {
            Some((decode_utf8(c), r))
        } else {
            None
        },
        None => None,
    }
}

/// Relies on `std::str::from_utf8`: it accepts exactly the valid UTF-8 byte
/// sequences and reads them as their characters.
#[verifier::external_body]
fn utf8_text(b: &[u8]) -> (r: Option<String>)
    ensures
        match r {
            Some(s) => valid_utf8(b@) && s@ == decode_utf8(b@),
            None => !valid_utf8(b@),
        },
{
    match std::str::from_utf8(b) {
        Ok(s) => Some(s.to_string()),
        Err(_) => None,
    }
}

/// Returns the bytes after `lit`, where `b` starts with the UTF-8 bytes of `lit`.
pub(crate) fn strip_lit<'a>(b: &'a [u8], lit: &str) -> (r: Option<&'a [u8]>)
    ensures
        match after(b@, encode_utf8(lit@)) {
            Some(rest) => r matches Some(t) && t@ == rest,
            None => r is None,
        },
{
    reveal(after);
    let p = lit.as_bytes();
    if b.len() < p.len() {
        return None;
    }
    let mut i: usize = 0;
    while i < p.len()
        invariant
            0 <= i <= p@.len() <= b@.len(),
            p@ == encode_utf8(lit@),
            forall|k: int| 0 <= k < i ==> b@[k] == p@[k],
        decreases p@.len() - i,
    {
        if b[i] != p[i] {
            reveal(after);
            assert(b@.take(p@.len() as int)[i as int] != p@[i as int]);
            return None;
        }
        i = i + 1;
    }
    assert(b@.take(p@.len() as int) =~= p@);
    Some(vstd::slice::slice_subrange(b, p.len(), b.len()))
}

#[verifier::spinoff_prover]
proof fn lemma_digit_run_at(b: Seq<u8>, i: nat)
    requires
        i <= b.len(),
        forall|k: int| 0 <= k < i ==> is_digit(#[trigger] b[k]),
        i == b.len() || !is_digit(b[i as int]),
    ensures
        digit_run(b) == i,
    decreases i,
{
    if i > 0 {
        assert forall|k: int| 0 <= k < i - 1 implies is_digit(#[trigger] b.drop_first()[k]) by {
            assert(b.drop_first()[k] == b[k + 1]);
        }
        lemma_digit_run_at(b.drop_first(), (i - 1) as nat);
    }
}

#[verifier::spinoff_prover]
proof fn lemma_digit_run_props(b: Seq<u8>, k: nat)
    requires
        k <= b.len(),
        forall|j: int| 0 <= j < k ==> is_digit(#[trigger] b[j]),
    ensures
        k <= digit_run(b) <= b.len(),
        forall|j: int| 0 <= j < digit_run(b) ==> is_digit(#[trigger] b[j]),
    decreases b.len(),
{
    if b.len() > 0 && is_digit(b[0]) {
        let t = b.drop_first();
        let k2: nat = if k > 0 { (k - 1) as nat } else { 0 };
        assert forall|j: int| 0 <= j < k2 implies is_digit(#[trigger] t[j]) by {
            assert(t[j] == b[j + 1]);
        }
        lemma_digit_run_props(t, k2);
        assert forall|j: int| 0 <= j < digit_run(b) implies is_digit(#[trigger] b[j]) by {
            if j > 0 {
                assert(b[j] == t[j - 1]);
            }
        }
    } else if k > 0 {
        assert(is_digit(b[0]));
    }
}

#[verifier::spinoff_prover]
proof fn lemma_digits_grow(b: Seq<u8>, k: int, n: int)
    requires
        0 <= k <= n <= b.len(),
        forall|j: int| 0 <= j < n ==> is_digit(#[trigger] b[j]),
    ensures
        digits_value(b.take(n)) >= digits_value(b.take(k)),
        digits_value(b.take(k)) >= 0,
    decreases n,
{
    if k < n {
        lemma_digits_grow(b, k, n - 1);
        assert(b.take(n).drop_last() =~= b.take(n - 1));
        lemma_digits_grow(b, n - 1, n - 1);
    } else if n > 0 {
        assert(b.take(n).drop_last() =~= b.take(n - 1));
        lemma_digits_grow(b, n - 1, n - 1);
    }
}

/// Reads an unsigned decimal that fits a `u64`.
pub(crate) fn read_decimal<'a>(b: &'a [u8]) -> (r: Option<(u64, &'a [u8])>)
    ensures
        match parse_decimal(b@) {
            Some((v, rest)) => r matches Some((x, t)) && x == v && t@ == rest,
            None => r is None,
        },
{
    reveal(parse_decimal);
    let mut i: usize = 0;
    let mut acc: u64 = 0;
    while i < b.len() && 48u8 <= b[i] && b[i] <= 57u8
        invariant
            0 <= i <= b@.len(),
            forall|k: int| 0 <= k < i ==> is_digit(#[trigger] b@[k]),
            acc == digits_value(b@.take(i as int)),
        decreases b@.len() - i,
    {
        let d = (b[i] - 48u8) as u64;
        proof {
            assert(b@.take(i + 1).drop_last() =~= b@.take(i as int));
        }
        if acc > (u64::MAX - d) / 10 {
            proof {
                assert(digits_value(b@.take(i + 1)) > u64::MAX) by (nonlinear_arith)
                    requires
                        digits_value(b@.take(i + 1)) == acc * 10 + d,
                        acc > (u64::MAX - d) / 10,
                        d <= 9,
                ;
                reveal(parse_decimal);
                lemma_digit_run_props(b@, (i + 1) as nat);
                lemma_digits_grow(b@, i + 1, digit_run(b@) as int);
            }
            return None;
        }
        acc = acc * 10 + d;
        i = i + 1;
    }
    proof {
        lemma_digit_run_at(b@, i as nat);
    }
    if i == 0 {
        return None;
    }
    Some((acc, vstd::slice::slice_subrange(b, i, b.len())))
}

/// Puts `pre` in front of the bytes that an unescaping found.
pub open spec fn prepend_bytes(pre: Seq<u8>, p: Option<(Seq<u8>, Seq<u8>)>) -> Option<(Seq<u8>, Seq<u8>)> {
    match p {
        Some((c, r)) => Some((pre + c, r)),
        None => None,
    }
}

/// Reads an escaped text up to its closing double quote and returns it with
/// the bytes after that quote.
pub(crate) fn read_escaped<'a>(b: &'a [u8]) -> (r: Option<(String, &'a [u8])>)
    ensures
        match parse_escaped(b@) {
            Some((s, rest)) => r matches Some((x, t)) && x@ == s && t@ == rest,
            None => r is None,
        },
{
    let mut out: Vec<u8> = Vec::new();
    let mut i: usize = 0;
    assert(b@.skip(0) =~= b@);
    assert(prepend_bytes(Seq::empty(), unescape(b@)) == unescape(b@)) by {
        if let Some((c, r)) = unescape(b@) {
            assert(Seq::<u8>::empty() + c =~= c);
        }
    }
    while i < b.len()
        invariant
            0 <= i <= b@.len(),
            unescape(b@) == prepend_bytes(out@, unescape(b@.skip(i as int))),
        decreases b@.len() - i,
    {
        let c = b[i];
        let ghost t = b@.skip(i as int);
        if c == 34u8 {
            proof {
                assert(t.drop_first() =~= b@.skip(i + 1));
                assert(out@ + Seq::<u8>::empty() =~= out@);
            }
            let rest = vstd::slice::slice_subrange(b, i + 1, b.len());
            return match utf8_text(out.as_slice()) {
                Some(s) => Some((s, rest)),
                None => None,
            };
        } else if c == 92u8 {
            if i + 1 < b.len() && (b[i + 1] == 34u8 || b[i + 1] == 92u8) {
                let d = b[i + 1];
                proof {
                    assert(t.skip(2) =~= b@.skip(i + 2));
                    assert(t[1] == d);
                    if let Some((cc, rr)) = unescape(b@.skip(i + 2)) {
                        assert(out@ + (seq![d] + cc) =~= out@.push(d) + cc);
                    }
                }
                out.push(d);
                i = i + 2;
            } else {
                return None;
            }
        } else {
            proof {
                assert(t.drop_first() =~= b@.skip(i + 1));
                if let Some((cc, rr)) = unescape(b@.skip(i + 1)) {
                    assert(out@ + (seq![c] + cc) =~= out@.push(c) + cc);
                }
            }
            out.push(c);
            i = i + 1;
        }
    }
    assert(b@.skip(i as int).len() == 0);
    None
}

/// Returns the escaped form of `s`.
pub(crate) fn escaped(s: &str) -> (r: String)
    ensures
        r@ == escape(s@),
{
    let b = s.as_bytes();
    let mut out: Vec<u8> = Vec::new();
    let mut i: usize = 0;
    while i < b.len()
        invariant
            0 <= i <= b@.len(),
            out@ == escape_bytes(b@.take(i as int)),
        decreases b@.len() - i,
    {
        let c = b[i];
        proof {
            lemma_escape_bytes_concat(b@.take(i as int), seq![c]);
            assert(b@.take(i + 1) =~= b@.take(i as int) + seq![c]);
            assert(seq![c].drop_first() =~= Seq::<u8>::empty());
        }
        assert(escape_bytes(seq![c].drop_first()) =~= Seq::<u8>::empty());
        assert(seq![c][0] == c);
        if c == 34u8 || c == 92u8 {
            out.push(92u8);
            out.push(c);
            assert(escape_bytes(seq![c]) =~= seq![92u8, c]);
        } else {
            out.push(c);
            assert(escape_bytes(seq![c]) =~= seq![c]);
        }
        assert(out@ =~= escape_bytes(b@.take(i + 1)));
        i = i + 1;
    }
    assert(b@.take(b@.len() as int) =~= b@);
    proof {
        lemma_escape_utf8(s@);
        vstd::utf8::encode_utf8_valid_utf8(escape(s@));
        vstd::utf8::encode_utf8_decode_utf8(escape(s@));
    }
    match utf8_text(out.as_slice()) {
        Some(r) => r,
        None => String::new(),
    }
}

/// Escaping distributes over joined bytes.
pub proof fn lemma_escape_bytes_concat(a: Seq<u8>, b: Seq<u8>)
    ensures
        escape_bytes(a + b) == escape_bytes(a) + escape_bytes(b),
    decreases a.len(),
{
    if a.len() == 0 {
        assert(a + b =~= b);
        assert(escape_bytes(a) + escape_bytes(b) =~= escape_bytes(b));
    } else {
        assert((a + b).drop_first() =~= a.drop_first() + b);
        assert((a + b)[0] == a[0]);
        lemma_escape_bytes_concat(a.drop_first(), b);
        assert(escape_bytes(a + b) =~= escape_bytes(a) + escape_bytes(b));
    }
}

/// Bytes with no double quote and no backslash escape to themselves.
proof fn lemma_escape_bytes_plain(b: Seq<u8>)
    requires
        forall|i: int| 0 <= i < b.len() ==> b[i] != 34 && b[i] != 92,
    ensures
        escape_bytes(b) == b,
    decreases b.len(),
{
    if b.len() > 0 {
        lemma_escape_bytes_plain(b.drop_first());
        assert(seq![b[0]] + b.drop_first() =~= b);
    }
}

proof fn lemma_high_bit(y: u8)
    by (bit_vector)
    ensures
        (0x80u8 | y) >= 0x80u8,
        (0xC0u8 | y) >= 0x80u8,
        (0xE0u8 | y) >= 0x80u8,
        (0xF0u8 | y) >= 0x80u8,
{
}

/// The UTF-8 bytes of a character other than a double quote or a backslash
/// hold neither: an ASCII character is its own byte, and every byte of a
/// longer encoding is 0x80 or above.
proof fn lemma_char_bytes_plain(c: char)
    requires
        c != '"' && c != '\\',
    ensures
        forall|i: int| 0 <= i < encode_utf8(seq![c]).len() ==> encode_utf8(seq![c])[i] != 34 && encode_utf8(seq![c])[i] != 92,
{
    let v = c as u32;
    vstd::utf8::char_is_scalar(c);
    assert(seq![c].drop_first() =~= Seq::<char>::empty());
    assert(encode_utf8(seq![c].drop_first()) =~= Seq::<u8>::empty());
    assert(seq![c][0] == c);
    assert(encode_utf8(seq![c]) =~= vstd::utf8::encode_scalar(v));
    let e = vstd::utf8::encode_scalar(v);
    if v <= 0x7f {
        assert(((v & 0x7f) as u8) as u32 == v) by (bit_vector)
            requires
                v <= 0x7f,
        ;
        assert(v != 34 && v != 92);
    } else {
        lemma_high_bit(((v >> 6) & 0x1F) as u8);
        lemma_high_bit(((v >> 12) & 0x0F) as u8);
        lemma_high_bit(((v >> 18) & 0x7) as u8);
        lemma_high_bit((v & 0x3F) as u8);
        lemma_high_bit(((v >> 6) & 0x3F) as u8);
        lemma_high_bit(((v >> 12) & 0x3F) as u8);
        assert forall|i: int| 0 <= i < e.len() implies e[i] >= 0x80 by {}
    }
}

/// The UTF-8 bytes of the escaped form of a text are the escaped UTF-8 bytes
/// of the text.
pub proof fn lemma_escape_utf8(s: Seq<char>)
    ensures
        encode_utf8(escape(s)) == escape_bytes(encode_utf8(s)),
    decreases s.len(),
{
    if s.len() > 0 {
        let c = s[0];
        let t = s.drop_first();
        lemma_escape_utf8(t);
        assert(s =~= seq![c] + t);
        lemma_utf8_concat(seq![c], t);
        assert(seq![c].drop_first() =~= Seq::<char>::empty());
        lemma_escape_bytes_concat(encode_utf8(seq![c]), encode_utf8(t));
        if c == '"' || c == '\\' {
            let p = seq!['\\', c];
            lemma_utf8_concat(p, escape(t));
            assert(is_ascii_chars(p));
            vstd::utf8::is_ascii_chars_encode_utf8(p);
            assert(is_ascii_chars(seq![c]));
            vstd::utf8::is_ascii_chars_encode_utf8(seq![c]);
            let ec = encode_utf8(seq![c]);
            assert(ec =~= seq![c as u8]);
            assert(ec.drop_first() =~= Seq::<u8>::empty());
            assert(escape_bytes(ec.drop_first()) =~= Seq::<u8>::empty());
            assert(ec[0] == 34 || ec[0] == 92);
            assert(escape_bytes(ec) =~= seq![92u8, c as u8]);
            assert(encode_utf8(p) =~= seq![92u8, c as u8]);
        } else {
            lemma_utf8_concat(seq![c], escape(t));
            lemma_char_bytes_plain(c);
            lemma_escape_bytes_plain(encode_utf8(seq![c]));
        }
    }
}

/// A text with no double quote and no backslash is its own escaped form.
pub proof fn lemma_escape_plain(s: Seq<char>)
    requires
        forall|i: int| 0 <= i < s.len() ==> s[i] != '"' && s[i] != '\\',
    ensures
        escape(s) == s,
    decreases s.len(),
{
    if s.len() > 0 {
        lemma_escape_plain(s.drop_first());
        assert(seq![s[0]] + s.drop_first() =~= s);
    }
}

/// Escaped bytes, then a double quote, read back as the bytes, whatever
/// follows.
pub proof fn lemma_unescape(e: Seq<u8>, rest: Seq<u8>)
    ensures
        unescape(escape_bytes(e) + (seq![34u8] + rest)) == Some((e, rest)),
    decreases e.len(),
{
    let b = escape_bytes(e) + (seq![34u8] + rest);
    if e.len() == 0 {
        assert(b =~= seq![34u8] + rest);
        assert(b.drop_first() =~= rest);
        assert(e =~= Seq::<u8>::empty());
    } else {
        let tail = escape_bytes(e.drop_first()) + (seq![34u8] + rest);
        lemma_unescape(e.drop_first(), rest);
        if e[0] == 34 || e[0] == 92 {
            assert(b =~= seq![92u8, e[0]] + tail);
            assert(b.skip(2) =~= tail);
        } else {
            assert(b =~= seq![e[0]] + tail);
            assert(b.drop_first() =~= tail);
        }
        assert(seq![e[0]] + e.drop_first() =~= e);
    }
}



/// Bytes that differ from a prefix at its first byte do not start with it.
#[verifier::spinoff_prover]
pub proof fn lemma_not_after(b: Seq<u8>, p: Seq<u8>)
    requires
        b.len() > 0,
        p.len() > 0,
        b[0] != p[0],
    ensures
        after(b, p) is None,
{
    reveal(after);
    if b.len() >= p.len() {
        assert(b.take(p.len() as int)[0] != p[0]);
    }
}

/// The UTF-8 form of two texts one after the other is their two forms one
/// after the other.
#[verifier::spinoff_prover]
pub proof fn lemma_utf8_concat(a: Seq<char>, b: Seq<char>)
    ensures
        encode_utf8(a + b) == encode_utf8(a) + encode_utf8(b),
    decreases a.len(),
{
    if a.len() == 0 {
        assert(a + b =~= b);
        assert(encode_utf8(a) + encode_utf8(b) =~= encode_utf8(b));
    } else {
        assert((a + b).drop_first() =~= a.drop_first() + b);
        assert((a + b)[0] == a[0]);
        lemma_utf8_concat(a.drop_first(), b);
        assert(encode_utf8(a + b) =~= encode_utf8(a) + encode_utf8(b));
    }
}

/// A prefix is stripped from the front of what it starts.
#[verifier::spinoff_prover]
pub proof fn lemma_after_prefix(p: Seq<u8>, rest: Seq<u8>)
    ensures
        after(p + rest, p) == Some(rest),
{
    reveal(after);
    assert((p + rest).take(p.len() as int) =~= p);
    assert((p + rest).skip(p.len() as int) =~= rest);
}

/// A run of digits, then a byte that is no digit, reads as the value of the run.
#[verifier::spinoff_prover]
pub proof fn lemma_parse_digits(d: Seq<u8>, rest: Seq<u8>)
    requires
        d.len() > 0,
        forall|k: int| 0 <= k < d.len() ==> is_digit(#[trigger] d[k]),
        rest.len() == 0 || !is_digit(rest[0]),
        digits_value(d) <= u64::MAX,
    ensures
        parse_decimal(d + rest) == Some((digits_value(d) as u64, rest)),
{
    reveal(parse_decimal);
    let b = d + rest;
    assert forall|k: int| 0 <= k < d.len() implies is_digit(#[trigger] b[k]) by {
        assert(b[k] == d[k]);
    }
    if rest.len() > 0 {
        assert(b[d.len() as int] == rest[0]);
    }
    lemma_digit_run_at(b, d.len());
    assert(b.take(d.len() as int) =~= d);
    assert(b.skip(d.len() as int) =~= rest);
}

/// One more text piece joins the front of a text whose UTF-8 form, followed
/// by the rest, is known.
#[verifier::spinoff_prover]
pub proof fn lemma_utf8_step(a: Seq<char>, c: Seq<char>, next: Seq<u8>, whole: Seq<u8>)
    requires
        encode_utf8(a) + (encode_utf8(c) + next) == whole,
    ensures
        encode_utf8(a + c) + next == whole,
{
    lemma_utf8_concat(a, c);
    assert(encode_utf8(a + c) + next =~= encode_utf8(a) + (encode_utf8(c) + next));
}

/// The number of bytes at the front of `b` before a comma or a closing
/// bracket or brace.
pub open spec fn token_len(b: Seq<u8>) -> nat
    decreases b.len(),
{
    if b.len() > 0 && !is_delim(b[0]) {
        1 + token_len(b.drop_first())
    } else {
        0
    }
}

/// Reads a float: the bytes up to the next comma or closing bracket or brace,
/// read by `pt` as a bit pattern, and the bytes after them.
pub open spec fn parse_float(b: Seq<u8>, pt: spec_fn(Seq<u8>) -> Option<u64>) -> Option<(u64, Seq<u8>)> {
    let n = token_len(b);
    if n == 0 {
        None
    } else {
        match pt(b.take(n as int)) {
            Some(x) => Some((x, b.skip(n as int))),
            None => None,
        }
    }
}

proof fn lemma_token_at(b: Seq<u8>, i: nat)
    requires
        i <= b.len(),
        forall|k: int| 0 <= k < i ==> !is_delim(#[trigger] b[k]),
        i == b.len() || is_delim(b[i as int]),
    ensures
        token_len(b) == i,
    decreases i,
{
    if i > 0 {
        assert forall|k: int| 0 <= k < i - 1 implies !is_delim(#[trigger] b.drop_first()[k]) by {
            assert(b.drop_first()[k] == b[k + 1]);
        }
        lemma_token_at(b.drop_first(), (i - 1) as nat);
    }
}

/// A float text with no comma or closing bracket or brace, then such a byte
/// or nothing, reads as `pt` reads the text.
pub proof fn lemma_parse_float(e: Seq<u8>, rest: Seq<u8>, pt: spec_fn(Seq<u8>) -> Option<u64>)
    requires
        e.len() > 0,
        forall|i: int| 0 <= i < e.len() ==> !is_delim(#[trigger] e[i]),
        rest.len() == 0 || is_delim(rest[0]),
    ensures
        parse_float(e + rest, pt) == (match pt(e) {
            Some(x) => Some((x, rest)),
            None => None,
        }),
{
    let b = e + rest;
    assert forall|k: int| 0 <= k < e.len() implies !is_delim(#[trigger] b[k]) by {
        assert(b[k] == e[k]);
    }
    if rest.len() > 0 {
        assert(b[e.len() as int] == rest[0]);
    }
    lemma_token_at(b, e.len());
    assert(b.take(e.len() as int) =~= e);
    assert(b.skip(e.len() as int) =~= rest);
}

/// Reads a float with `read` from the bytes up to the next comma or closing
/// bracket or brace.
pub(crate) fn read_float<'a, P: Fn(Vec<u8>) -> Option<u64>>(b: &'a [u8], read: &P) -> (r: Option<(u64, &'a [u8])>)
    requires
        read_ok(*read),
    ensures
        match parse_float(b@, read_fn(*read)) {
            Some((x, rest)) => r matches Some((y, t)) && y == x && t@ == rest,
            None => r is None,
        },
{
    let mut tok: Vec<u8> = Vec::new();
    let mut i: usize = 0;
    while i < b.len() && !(b[i] == 44u8 || b[i] == 93u8 || b[i] == 125u8)
        invariant
            0 <= i <= b@.len(),
            forall|k: int| 0 <= k < i ==> !is_delim(#[trigger] b@[k]),
            tok@ == b@.take(i as int),
        decreases b@.len() - i,
    {
        tok.push(b[i]);
        assert(tok@ =~= b@.take(i + 1));
        i = i + 1;
    }
    proof {
        lemma_token_at(b@, i as nat);
    }
    if i == 0 {
        return None;
    }
    let r = read(tok);
    proof {
        lemma_read(*read, tok, r);
    }
    match r {
        Some(x) => Some((x, vstd::slice::slice_subrange(b, i, b.len()))),
        None => None,
    }
}

} // verus!
