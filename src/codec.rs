//! The capability that makes a value storable: a text form, a binary form,
//! and for decodable values the way back from each.
use vstd::prelude::*;
use vstd::string::StringExecFns;
use vstd::utf8::{encode_utf8, is_ascii_chars};
use crate::errors::CalcifyError;
use crate::text::{
    after, digits_value, is_delim, is_digit, lemma_after_prefix, lemma_parse_digits, lemma_utf8_concat,
    parse_decimal, parse_escaped, read_decimal, read_escaped, strip_lit, escape, escaped,
    lemma_escape_utf8, lemma_unescape,
};
use crate::msgpack::{
    lemma_str_round_trip, lemma_uint_round_trip, parse_str, parse_uint, put_str, put_uint, str_bytes,
    str_fits, take_str, take_uint, uint_bytes,
};

verus! {

/// Whether `show`, which writes the text of a 64-bit float given by its bit
/// pattern, accepts every pattern and gives one text for each.
pub open spec fn show_ok<F: Fn(u64) -> String>(show: F) -> bool {
    &&& forall|b: u64| show.requires((b,))
    &&& forall|b: u64, s1: String, s2: String|
        show.ensures((b,), s1) && show.ensures((b,), s2) ==> s1@ == s2@
}

/// The text that `show` writes for each bit pattern.
pub open spec fn show_fn<F: Fn(u64) -> String>(show: F) -> spec_fn(u64) -> Seq<char> {
    |b: u64| (choose|s: String| show.ensures((b,), s))@
}

/// Whether `read`, which reads the bit pattern of a 64-bit float from the
/// bytes of its text, accepts all bytes and gives one answer for each text.
pub open spec fn read_ok<P: Fn(Vec<u8>) -> Option<u64>>(read: P) -> bool {
    &&& forall|t: Vec<u8>| read.requires((t,))
    &&& forall|t1: Vec<u8>, t2: Vec<u8>, r1: Option<u64>, r2: Option<u64>|
        t1@ == t2@ && read.ensures((t1,), r1) && read.ensures((t2,), r2) ==> r1 == r2
}

/// Whether `read` gives `r` for some bytes that spell `t`.
pub open spec fn reads_to<P: Fn(Vec<u8>) -> Option<u64>>(read: P, t: Seq<u8>, r: Option<u64>) -> bool {
    exists|v: Vec<u8>| #![trigger read.ensures((v,), r)] v@ == t && read.ensures((v,), r)
}

/// The answer that `read` gives for each text.
pub open spec fn read_fn<P: Fn(Vec<u8>) -> Option<u64>>(read: P) -> spec_fn(Seq<u8>) -> Option<u64> {
    |t: Seq<u8>| choose|r: Option<u64>| reads_to(read, t, r)
}

/// A text that `show` wrote is the one `show_fn` names.
pub proof fn lemma_show<F: Fn(u64) -> String>(show: F, b: u64, s: String)
    requires
        show_ok(show),
        show.ensures((b,), s),
    ensures
        show_fn(show)(b) == s@,
{
    let c = choose|c: String| show.ensures((b,), c);
    assert(show.ensures((b,), c));
}

/// An answer that `read` gave is the one `read_fn` names.
pub proof fn lemma_read<P: Fn(Vec<u8>) -> Option<u64>>(read: P, t: Vec<u8>, r: Option<u64>)
    requires
        read_ok(read),
        read.ensures((t,), r),
    ensures
        read_fn(read)(t@) == r,
{
    assert(reads_to(read, t@, r));
    let c = choose|c: Option<u64>| reads_to(read, t@, c);
    assert(reads_to(read, t@, c));
    let v = choose|v: Vec<u8>| v@ == t@ && read.ensures((v,), c);
}

/// Whether a float text and a float reader fit together: the text of every
/// bit pattern is not empty, holds no comma or closing bracket or brace, and
/// reads back as that pattern.
pub open spec fn float_text_ok(ft: spec_fn(u64) -> Seq<char>, pt: spec_fn(Seq<u8>) -> Option<u64>) -> bool {
    forall|b: u64|
        #![trigger ft(b)]
        encode_utf8(ft(b)).len() > 0 && (forall|i: int|
            0 <= i < encode_utf8(ft(b)).len() ==> !is_delim(#[trigger] encode_utf8(ft(b))[i]))
            && pt(encode_utf8(ft(b))) == Some(b)
}

/// A value that can be written as text and as MessagePack bytes.
pub trait Serializable: View + Sized {
    /// The text form of a value, where `ft` gives the text of each float.
    spec fn json_of(v: Self::V, ft: spec_fn(u64) -> Seq<char>) -> Seq<char>;

    /// The binary form of a value.
    spec fn msg_of(v: Self::V) -> Seq<u8>;

    /// Whether every length inside the value fits its binary header.
    spec fn encodable(v: Self::V) -> bool;

    /// Returns the text form, with each float written by `show`.
    fn to_json<F: Fn(u64) -> String>(&self, show: &F) -> (r: String)
        requires
            show_ok(*show),
        ensures
            r@ == Self::json_of(self@, show_fn(*show)),
    ;

    /// Whether every length inside the value fits its binary header.
    fn is_encodable(&self) -> (r: bool)
        ensures
            r == Self::encodable(self@),
    ;

    /// Returns a value with the same view.
    fn duplicate(&self) -> (r: Self)
        ensures
            r@ == self@,
    ;

    /// Appends the binary form to `buf`.
    fn write_msg(&self, buf: &mut Vec<u8>)
        requires
            Self::encodable(self@),
        ensures
            final(buf)@ == old(buf)@ + Self::msg_of(self@),
    ;

    /// Returns the binary form, or `LengthError` where a length inside the
    /// value does not fit its header.
    fn to_msg(&self) -> (r: Result<Vec<u8>, CalcifyError>)
        ensures
            Self::encodable(self@) ==> (r matches Ok(b) && b@ == Self::msg_of(self@)),
            !Self::encodable(self@) ==> r == Err::<Vec<u8>, CalcifyError>(CalcifyError::LengthError),
    {
        if !self.is_encodable() {
            return Err(CalcifyError::LengthError);
        }
        let mut buf: Vec<u8> = Vec::new();
        self.write_msg(&mut buf);
        assert(buf@ =~= Self::msg_of(self@));
        Ok(buf)
    }
}

/// A value that can be read back from its binary form.
pub trait Deserializable: Serializable {
    /// Reads a value from the front of `b`, with the bytes that follow it.
    spec fn parse_msg(b: Seq<u8>) -> Option<(Self::V, Seq<u8>)>;

    /// The binary form of a value reads back as that value, whatever follows.
    proof fn lemma_msg_round_trip(v: Self::V, rest: Seq<u8>)
        requires
            Self::encodable(v),
        ensures
            Self::parse_msg(Self::msg_of(v) + rest) == Some((v, rest)),
    ;

    /// Reads a value from the front of the UTF-8 bytes `b` of a text, with the
    /// bytes that follow it; `pt` reads each float from its text.
    spec fn parse_json(b: Seq<u8>, pt: spec_fn(Seq<u8>) -> Option<u64>) -> Option<(Self::V, Seq<u8>)>;

    /// The text form of a value reads back as that value, where the float
    /// text and reader fit together and the bytes after it start with a comma
    /// or a closing bracket or brace; the text is not empty and does not start
    /// with a closing bracket (byte 93).
    proof fn lemma_json_round_trip(v: Self::V, rest: Seq<u8>, ft: spec_fn(u64) -> Seq<char>, pt: spec_fn(Seq<u8>) -> Option<u64>)
        requires
            float_text_ok(ft, pt),
            rest.len() == 0 || is_delim(rest[0]),
        ensures
            Self::parse_json(encode_utf8(Self::json_of(v, ft)) + rest, pt) == Some((v, rest)),
            encode_utf8(Self::json_of(v, ft)).len() > 0,
            encode_utf8(Self::json_of(v, ft))[0] != 93,
    ;

    /// Reads a value from the front of the UTF-8 bytes of a text and returns it
    /// with the unread bytes.
    fn read_json<'a, P: Fn(Vec<u8>) -> Option<u64>>(b: &'a [u8], read: &P) -> (r: Result<(Self, &'a [u8]), CalcifyError>)
        requires
            read_ok(*read),
        ensures
            match Self::parse_json(b@, read_fn(*read)) {
                Some((v, rest)) => r matches Ok((x, t)) && x@ == v && t@ == rest,
                None => r matches Err(e) && e == CalcifyError::ParseError,
            },
    ;

    /// Reads a value from its whole text form, with each float read by `read`;
    /// a `ParseError` where the text is malformed or has bytes after the value.
    fn from_json<P: Fn(Vec<u8>) -> Option<u64>>(s: &str, read: &P) -> (r: Result<Self, CalcifyError>)
        requires
            read_ok(*read),
        ensures
            match Self::parse_json(encode_utf8(s@), read_fn(*read)) {
                Some((v, rest)) => if rest.len() == 0 {
                    r matches Ok(x) && x@ == v
                } else {
                    r matches Err(e) && e == CalcifyError::ParseError
                },
                None => r matches Err(e) && e == CalcifyError::ParseError,
            },
    {
        match Self::read_json(s.as_bytes(), read) {
            Ok((v, rest)) => if rest.len() == 0 {
                Ok(v)
            } else {
                Err(CalcifyError::ParseError)
            },
            Err(_) => Err(CalcifyError::ParseError),
        }
    }

    /// Reads a value from the front of `b` and returns it with the unread bytes.
    fn from_msg<'a>(b: &'a [u8]) -> (r: Result<(Self, &'a [u8]), CalcifyError>)
        ensures
            match Self::parse_msg(b@) {
                Some((v, rest)) => r matches Ok((x, t)) && x@ == v && t@ == rest,
                None => r matches Err(e) && e == CalcifyError::ParseError,
            },
    ;
}

/// The decimal digit of `d`.
pub open spec fn digit_char(d: nat) -> char {
    if d == 0 { '0' } else if d == 1 { '1' } else if d == 2 { '2' } else if d == 3 { '3' }
    else if d == 4 { '4' } else if d == 5 { '5' } else if d == 6 { '6' } else if d == 7 { '7' }
    else if d == 8 { '8' } else { '9' }
}

/// The decimal digits of `v`, most significant first, without leading zeros.
pub open spec fn decimal(v: nat) -> Seq<char>
    decreases v,
{
    if v < 10 {
        seq![digit_char(v)]
    } else {
        decimal(v / 10).push(digit_char(v % 10))
    }
}

/// The decimal digits of `v` as ASCII bytes.
pub open spec fn decimal_bytes(v: nat) -> Seq<u8>
    decreases v,
{
    if v < 10 {
        seq![(48 + v) as u8]
    } else {
        decimal_bytes(v / 10).push((48 + v % 10) as u8)
    }
}

#[verifier::spinoff_prover]
proof fn lemma_digit_utf8(d: nat)
    requires
        d < 10,
    ensures
        encode_utf8(seq![digit_char(d)]) == seq![(48 + d) as u8],
{
    let c = seq![digit_char(d)];
    assert(is_ascii_chars(c));
    vstd::utf8::is_ascii_chars_encode_utf8(c);
    assert(encode_utf8(c) =~= seq![(48 + d) as u8]);
}

/// The decimal text of `v` is ASCII, one byte per digit.
#[verifier::spinoff_prover]
pub proof fn lemma_decimal_utf8(v: nat)
    ensures
        encode_utf8(decimal(v)) == decimal_bytes(v),
        decimal_bytes(v).len() > 0,
        forall|k: int| 0 <= k < decimal_bytes(v).len() ==> is_digit(#[trigger] decimal_bytes(v)[k]),
        digits_value(decimal_bytes(v)) == v,
    decreases v,
{
    if v < 10 {
        lemma_digit_utf8(v);
        let db = seq![(48 + v) as u8];
        assert(db.drop_last() =~= Seq::<u8>::empty());
        assert(digits_value(db.drop_last()) == 0);
        assert(db.last() == (48 + v) as u8);
        assert(digits_value(db) == v);
    } else {
        lemma_decimal_utf8(v / 10);
        lemma_digit_utf8(v % 10);
        lemma_utf8_concat(decimal(v / 10), seq![digit_char(v % 10)]);
        assert(decimal(v / 10).push(digit_char(v % 10)) =~= decimal(v / 10) + seq![digit_char(v % 10)]);
        assert(decimal_bytes(v) =~= decimal_bytes(v / 10) + seq![(48 + v % 10) as u8]);
        assert(decimal_bytes(v).drop_last() =~= decimal_bytes(v / 10));
        let db = decimal_bytes(v);
        assert forall|k: int| 0 <= k < db.len() implies is_digit(#[trigger] db[k]) by {
            if k < db.len() - 1 {
                assert(db[k] == decimal_bytes(v / 10)[k]);
            }
        }
        assert(db.last() == (48 + v % 10) as u8);
        assert(digits_value(db) == digits_value(decimal_bytes(v / 10)) * 10 + (v % 10));
        assert(v == (v / 10) * 10 + v % 10);
    }
}

/// The decimal text of `v`, then a byte that is no digit, reads back as `v`.
#[verifier::spinoff_prover]
pub proof fn lemma_decimal_round_trip(v: u64, rest: Seq<u8>)
    requires
        rest.len() == 0 || !is_digit(rest[0]),
    ensures
        parse_decimal(encode_utf8(decimal(v as nat)) + rest) == Some((v, rest)),
        encode_utf8(decimal(v as nat)).len() > 0,
{
    lemma_decimal_utf8(v as nat);
    lemma_parse_digits(decimal_bytes(v as nat), rest);
}

/// A quoted string reads back, whatever follows it: its escaped form, then
/// the closing quote.
pub proof fn lemma_string_text(v: Seq<char>, rest: Seq<u8>)
    ensures
        after(encode_utf8(quoted(v)) + rest, encode_utf8("\""@)) == Some(encode_utf8(escape(v)) + (encode_utf8("\""@) + rest)),
        encode_utf8(quoted(v)) + rest == encode_utf8("\""@) + (encode_utf8(escape(v)) + (encode_utf8("\""@) + rest)),
        parse_escaped(encode_utf8(escape(v)) + (encode_utf8("\""@) + rest)) == Some((v, rest)),
        encode_utf8(quoted(v)).len() > 0,
        encode_utf8(quoted(v))[0] == 34,
{
    let q = encode_utf8("\""@);
    reveal_strlit("\"");
    lemma_lit_bytes("\""@);
    assert(q =~= seq![34u8]);
    let e = encode_utf8(escape(v));
    lemma_utf8_concat("\""@ + escape(v), "\""@);
    lemma_utf8_concat("\""@, escape(v));
    let tail = e + (q + rest);
    assert(encode_utf8(quoted(v)) + rest =~= q + tail);
    lemma_after_prefix(q, tail);
    lemma_escape_utf8(v);
    lemma_unescape(encode_utf8(v), rest);
    vstd::utf8::encode_utf8_valid_utf8(v);
    vstd::utf8::encode_utf8_decode_utf8(v);
    assert((q + tail)[0] == 34);
}

/// An ASCII literal takes one byte per character.
#[verifier::spinoff_prover]
pub proof fn lemma_lit_bytes(s: Seq<char>)
    requires
        is_ascii_chars(s),
    ensures
        encode_utf8(s).len() == s.len(),
        forall|i: int| 0 <= i < s.len() ==> encode_utf8(s)[i] == s[i] as u8,
{
    vstd::utf8::is_ascii_chars_encode_utf8(s);
}

fn digit_str(d: u64) -> (r: &'static str)
    requires
        d < 10,
    ensures
        r@ == seq![digit_char(d as nat)],
{
    proof {
        reveal_strlit("0");
        reveal_strlit("1");
        reveal_strlit("2");
        reveal_strlit("3");
        reveal_strlit("4");
        reveal_strlit("5");
        reveal_strlit("6");
        reveal_strlit("7");
        reveal_strlit("8");
        reveal_strlit("9");
    }
    if d == 0 { "0" } else if d == 1 { "1" } else if d == 2 { "2" } else if d == 3 { "3" }
    else if d == 4 { "4" } else if d == 5 { "5" } else if d == 6 { "6" } else if d == 7 { "7" }
    else if d == 8 { "8" } else { "9" }
}

/// Appends the decimal digits of `v` to `out`.
pub(crate) fn push_decimal(out: &mut String, v: u64)
    ensures
        final(out)@ == old(out)@ + decimal(v as nat),
    decreases v,
{
    if v >= 10 {
        push_decimal(out, v / 10);
    }
    out.append(digit_str(v % 10));
    assert(final(out)@ =~= old(out)@ + decimal(v as nat));
}

impl Serializable for u64 {
    open spec fn json_of(v: u64, ft: spec_fn(u64) -> Seq<char>) -> Seq<char> {
        decimal(v as nat)
    }

    open spec fn msg_of(v: u64) -> Seq<u8> {
        uint_bytes(v)
    }

    open spec fn encodable(v: u64) -> bool {
        true
    }

    fn to_json<F: Fn(u64) -> String>(&self, show: &F) -> (r: String) {
        let mut out = String::new();
        push_decimal(&mut out, *self);
        assert(out@ =~= decimal(*self as nat));
        out
    }

    fn is_encodable(&self) -> (r: bool) {
        true
    }

    fn duplicate(&self) -> (r: u64) {
        *self
    }

    fn write_msg(&self, buf: &mut Vec<u8>) {
        put_uint(buf, *self);
    }
}

impl Deserializable for u64 {
    open spec fn parse_json(b: Seq<u8>, pt: spec_fn(Seq<u8>) -> Option<u64>) -> Option<(u64, Seq<u8>)> {
        parse_decimal(b)
    }

    #[verifier::spinoff_prover]
    proof fn lemma_json_round_trip(v: u64, rest: Seq<u8>, ft: spec_fn(u64) -> Seq<char>, pt: spec_fn(Seq<u8>) -> Option<u64>) {
        lemma_decimal_round_trip(v, rest);
        lemma_decimal_utf8(v as nat);
    }

    fn read_json<'a, P: Fn(Vec<u8>) -> Option<u64>>(b: &'a [u8], read: &P) -> (r: Result<(u64, &'a [u8]), CalcifyError>) {
        match read_decimal(b) {
            Some((v, rest)) => Ok((v, rest)),
            None => Err(CalcifyError::ParseError),
        }
    }

    open spec fn parse_msg(b: Seq<u8>) -> Option<(u64, Seq<u8>)> {
        parse_uint(b)
    }

    #[verifier::spinoff_prover]
    proof fn lemma_msg_round_trip(v: u64, rest: Seq<u8>) {
        lemma_uint_round_trip(v, rest);
    }

    fn from_msg<'a>(b: &'a [u8]) -> (r: Result<(u64, &'a [u8]), CalcifyError>) {
        match take_uint(b) {
            Some((v, rest)) => Ok((v, rest)),
            None => Err(CalcifyError::ParseError),
        }
    }
}

/// The text of a string record: its escaped characters between double
/// quotes.
pub open spec fn quoted(s: Seq<char>) -> Seq<char> {
    "\""@ + escape(s) + "\""@
}

impl Serializable for String {
    open spec fn json_of(v: Seq<char>, ft: spec_fn(u64) -> Seq<char>) -> Seq<char> {
        quoted(v)
    }

    open spec fn msg_of(v: Seq<char>) -> Seq<u8> {
        str_bytes(v)
    }

    open spec fn encodable(v: Seq<char>) -> bool {
        str_fits(v)
    }

    fn to_json<F: Fn(u64) -> String>(&self, show: &F) -> (r: String) {
        proof {
            reveal_strlit("\"");
        }
        let mut out = String::from_str("\"");
        out.append(escaped(self.as_str()).as_str());
        out.append("\"");
        assert(out@ =~= quoted(self@));
        out
    }

    fn is_encodable(&self) -> (r: bool) {
        self.as_str().as_bytes().len() <= 0xffff_ffffusize
    }

    fn duplicate(&self) -> (r: String) {
        self.clone()
    }

    fn write_msg(&self, buf: &mut Vec<u8>) {
        put_str(buf, self.as_str());
    }
}

impl Deserializable for String {
    /// A double quote, the escaped characters, the closing double quote.
    open spec fn parse_json(b: Seq<u8>, pt: spec_fn(Seq<u8>) -> Option<u64>) -> Option<(Seq<char>, Seq<u8>)> {
        match after(b, encode_utf8("\""@)) {
            Some(r1) => parse_escaped(r1),
            None => None,
        }
    }

    #[verifier::spinoff_prover]
    proof fn lemma_json_round_trip(v: Seq<char>, rest: Seq<u8>, ft: spec_fn(u64) -> Seq<char>, pt: spec_fn(Seq<u8>) -> Option<u64>) {
        lemma_string_text(v, rest);
    }

    fn read_json<'a, P: Fn(Vec<u8>) -> Option<u64>>(b: &'a [u8], read: &P) -> (r: Result<(String, &'a [u8]), CalcifyError>) {
        match strip_lit(b, "\"") {
            Some(r1) => match read_escaped(r1) {
                Some((s, rest)) => Ok((s, rest)),
                None => Err(CalcifyError::ParseError),
            },
            None => Err(CalcifyError::ParseError),
        }
    }

    open spec fn parse_msg(b: Seq<u8>) -> Option<(Seq<char>, Seq<u8>)> {
        parse_str(b)
    }

    #[verifier::spinoff_prover]
    proof fn lemma_msg_round_trip(v: Seq<char>, rest: Seq<u8>) {
        lemma_str_round_trip(v, rest);
    }

    fn from_msg<'a>(b: &'a [u8]) -> (r: Result<(String, &'a [u8]), CalcifyError>) {
        match take_str(b) {
            Some((s, rest)) => Ok((String::from_str(s), rest)),
            None => Err(CalcifyError::ParseError),
        }
    }
}

} // verus!
