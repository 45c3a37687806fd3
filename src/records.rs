//! The record types of the closed tag set that hold real numbers. A real number
//! is held as the IEEE-754 bit pattern of a 64-bit float, which is exactly what
//! the binary form stores; its text is written and read by functions that the
//! caller supplies.
use vstd::prelude::*;
use vstd::string::StringExecFns;
use crate::codec::{
    lemma_lit_bytes, lemma_show, show_fn, Deserializable, Serializable,
};
use vstd::utf8::encode_utf8;
use crate::errors::CalcifyError;
use crate::text::{
    after, lemma_after_prefix, lemma_parse_float, lemma_utf8_step, parse_float,
    read_float, strip_lit,
};
use crate::msgpack::{
    array_len_bytes, f64_bytes, lemma_array_len_round_trip, lemma_f64_round_trip,
    lemma_uint_round_trip, parse_array_len, parse_f64, parse_uint, put_array_len, put_f64_bits,
    put_uint, take_array_len, take_f64_bits, take_uint, uint_bytes,
};

verus! {

/// A 64-bit float, held as its IEEE-754 bit pattern.
#[derive(Debug, Clone, Copy, PartialEq, Eq, Structural)]
pub struct Real {
    pub bits: u64,
}

impl View for Real {
    type V = Real;

    open spec fn view(&self) -> Real {
        *self
    }
}

impl Real {
    /// The float whose bit pattern is `bits`.
    pub fn from_bits(bits: u64) -> (r: Real)
        ensures
            r.bits == bits,
    {
        Real { bits }
    }

    /// The bit pattern of the float.
    pub fn to_bits(&self) -> (r: u64)
        ensures
            r == self.bits,
    {
        self.bits
    }
}

impl Serializable for Real {
    /// In text a float is written by the caller's float writer, which `ft`
    /// stands for: writing a float as decimal text is floating-point work.
    open spec fn json_of(v: Real, ft: spec_fn(u64) -> Seq<char>) -> Seq<char> {
        ft(v.bits)
    }

    open spec fn msg_of(v: Real) -> Seq<u8> {
        f64_bytes(v.bits)
    }

    open spec fn encodable(v: Real) -> bool {
        true
    }

    fn to_json<F: Fn(u64) -> String>(&self, show: &F) -> (r: String) {
        let t = show(self.bits);
        proof {
            lemma_show(*show, self.bits, t);
        }
        t
    }

    fn is_encodable(&self) -> (r: bool) {
        true
    }

    fn duplicate(&self) -> (r: Self) {
        *self
    }

    fn write_msg(&self, buf: &mut Vec<u8>) {
        put_f64_bits(buf, self.bits);
    }
}

impl Deserializable for Real {
    open spec fn parse_json(b: Seq<u8>, pt: spec_fn(Seq<u8>) -> Option<u64>) -> Option<(Real, Seq<u8>)> {
        match parse_float(b, pt) {
            Some((bits, rest)) => Some((Real { bits }, rest)),
            None => None,
        }
    }

    proof fn lemma_json_round_trip(v: Real, rest: Seq<u8>, ft: spec_fn(u64) -> Seq<char>, pt: spec_fn(Seq<u8>) -> Option<u64>) {
        let e = encode_utf8(ft(v.bits));
        assert(e.len() > 0);
        lemma_parse_float(e, rest, pt);
    }

    fn read_json<'a, P: Fn(Vec<u8>) -> Option<u64>>(b: &'a [u8], read: &P) -> (r: Result<(Real, &'a [u8]), CalcifyError>) {
        match read_float(b, read) {
            Some((bits, rest)) => Ok((Real { bits }, rest)),
            None => Err(CalcifyError::ParseError),
        }
    }

    open spec fn parse_msg(b: Seq<u8>) -> Option<(Real, Seq<u8>)> {
        match parse_f64(b) {
            Some((bits, rest)) => Some((Real { bits }, rest)),
            None => None,
        }
    }

    #[verifier::spinoff_prover]
    proof fn lemma_msg_round_trip(v: Real, rest: Seq<u8>) {
        lemma_f64_round_trip(v.bits, rest);
    }

    fn from_msg<'a>(b: &'a [u8]) -> (r: Result<(Real, &'a [u8]), CalcifyError>) {
        match take_f64_bits(b) {
            Some((bits, rest)) => Ok((Real { bits }, rest)),
            None => Err(CalcifyError::ParseError),
        }
    }
}

/// Reads `n` floats after an array header that must say `n`.
pub open spec fn parse_reals(b: Seq<u8>, n: nat) -> Option<(Seq<Real>, Seq<u8>)>
    decreases n,
{
    if n == 0 {
        Some((Seq::empty(), b))
    } else {
        match Real::parse_msg(b) {
            Some((x, r1)) => match parse_reals(r1, (n - 1) as nat) {
                Some((xs, r2)) => Some((seq![x] + xs, r2)),
                None => None,
            },
            None => None,
        }
    }
}

/// The binary form of consecutive floats.
pub open spec fn reals_bytes(xs: Seq<Real>) -> Seq<u8>
    decreases xs.len(),
{
    if xs.len() == 0 {
        Seq::empty()
    } else {
        f64_bytes(xs[0].bits) + reals_bytes(xs.drop_first())
    }
}

#[verifier::spinoff_prover]
proof fn lemma_reals_round_trip(xs: Seq<Real>, rest: Seq<u8>)
    ensures
        parse_reals(reals_bytes(xs) + rest, xs.len()) == Some((xs, rest)),
    decreases xs.len(),
{
    if xs.len() > 0 {
        let tail = xs.drop_first();
        lemma_reals_round_trip(tail, rest);
        assert(reals_bytes(xs) + rest =~= f64_bytes(xs[0].bits) + (reals_bytes(tail) + rest));
        lemma_f64_round_trip(xs[0].bits, reals_bytes(tail) + rest);
        assert(seq![xs[0]] + tail =~= xs);
    } else {
        assert(reals_bytes(xs) + rest =~= rest);
        assert(xs =~= Seq::<Real>::empty());
    }
}

/// Appends the floats of `xs`, one after another.
fn put_reals(buf: &mut Vec<u8>, xs: &[Real])
    ensures
        final(buf)@ == old(buf)@ + reals_bytes(xs@),
{
    let mut i: usize = 0;
    while i < xs.len()
        invariant
            0 <= i <= xs@.len(),
            buf@ == old(buf)@ + reals_bytes(xs@.subrange(0, i as int)),
        decreases xs@.len() - i,
    {
        proof {
            lemma_reals_snoc(xs@.subrange(0, i as int), xs@[i as int]);
            assert(xs@.subrange(0, i as int).push(xs@[i as int]) =~= xs@.subrange(0, i + 1));
        }
        put_f64_bits(buf, xs[i].bits);
        assert(buf@ =~= old(buf)@ + reals_bytes(xs@.subrange(0, i + 1)));
        i = i + 1;
    }
    assert(xs@.subrange(0, xs@.len() as int) =~= xs@);
}

#[verifier::spinoff_prover]
proof fn lemma_reals_snoc(xs: Seq<Real>, x: Real)
    ensures
        reals_bytes(xs.push(x)) == reals_bytes(xs) + f64_bytes(x.bits),
    decreases xs.len(),
{
    if xs.len() == 0 {
        assert(xs.push(x).drop_first() =~= Seq::<Real>::empty());
        assert(reals_bytes(xs.push(x).drop_first()) == Seq::<u8>::empty());
        assert(xs.push(x)[0] == x);
        assert(reals_bytes(xs) == Seq::<u8>::empty());
        assert(reals_bytes(xs.push(x)) =~= reals_bytes(xs) + f64_bytes(x.bits));
    } else {
        lemma_reals_snoc(xs.drop_first(), x);
        assert(xs.push(x).drop_first() =~= xs.drop_first().push(x));
        assert(xs.push(x)[0] == xs[0]);
        assert(reals_bytes(xs.push(x)) == f64_bytes(xs[0].bits) + reals_bytes(
            xs.drop_first().push(x),
        ));
        assert(reals_bytes(xs.push(x)) =~= reals_bytes(xs) + f64_bytes(x.bits));
    }
}

/// Reads `n` floats, one after another.
fn take_reals<'a>(b: &'a [u8], n: usize) -> (r: Option<(Vec<Real>, &'a [u8])>)
    ensures
        match parse_reals(b@, n as nat) {
            Some((xs, rest)) => r matches Some((v, t)) && v@ == xs && t@ == rest,
            None => r is None,
        },
    decreases n,
{
    if n == 0 {
        return Some((Vec::new(), b));
    }
    match Real::from_msg(b) {
        Ok((x, r1)) => match take_reals(r1, n - 1) {
            Some((mut v, r2)) => {
                let ghost tail = v@;
                v.insert(0, x);
                assert(v@ =~= seq![x] + tail);
                Some((v, r2))
            },
            None => None,
        },
        Err(_) => None,
    }
}


#[verifier::spinoff_prover]
proof fn lemma_parse_reals_len(b: Seq<u8>, n: nat)
    ensures
        parse_reals(b, n) matches Some((xs, _)) ==> xs.len() == n,
    decreases n,
{
    if n > 0 {
        if let Some((x, r1)) = Real::parse_msg(b) {
            lemma_parse_reals_len(r1, (n - 1) as nat);
        }
    }
}

/// Point, or Two Vector: a plot is a Collection of Points.
#[derive(Debug, Clone, Copy, PartialEq, Eq, Structural)]
pub struct Point {
    /// Independent variable.
    pub x: Real,
    /// Dependent variable.
    pub y: Real,
}

impl View for Point {
    type V = Point;

    open spec fn view(&self) -> Point {
        *self
    }
}

impl Point {
    /// Returns a new Point from its components.
    pub fn new(x: Real, y: Real) -> (r: Point)
        ensures
            r.x == x,
            r.y == y,
    {
        Point { x, y }
    }

    /// The components in order.
    pub open spec fn components(self) -> Seq<Real> {
        seq![self.x, self.y]
    }
}

impl Serializable for Point {
    open spec fn json_of(v: Point, ft: spec_fn(u64) -> Seq<char>) -> Seq<char> {
        "{\"x\":"@ + Real::json_of(v.x, ft) + ",\"y\":"@ + Real::json_of(v.y, ft) + "}"@
    }

    open spec fn msg_of(v: Point) -> Seq<u8> {
        array_len_bytes(2) + reals_bytes(v.components())
    }

    open spec fn encodable(v: Point) -> bool {
        true
    }

    fn to_json<F: Fn(u64) -> String>(&self, show: &F) -> (r: String) {
        let mut out = String::from_str("{\"x\":");
        let t0 = self.x.to_json(show);
        out.append(t0.as_str());
        out.append(",\"y\":");
        let t1 = self.y.to_json(show);
        out.append(t1.as_str());
        out.append("}");
        assert(out@ =~= Self::json_of(*self, show_fn(*show)));
        out
    }

    fn is_encodable(&self) -> (r: bool) {
        true
    }

    fn duplicate(&self) -> (r: Self) {
        *self
    }

    fn write_msg(&self, buf: &mut Vec<u8>) {
        put_array_len(buf, 2);
        let xs: Vec<Real> = vec![self.x, self.y];
        assert(xs@ =~= self.components());
        put_reals(buf, xs.as_slice());
        assert(final(buf)@ =~= old(buf)@ + Self::msg_of(*self));
    }
}

impl Deserializable for Point {
    #[verifier::spinoff_prover]
    #[verifier::rlimit(100)]
    proof fn lemma_json_round_trip(v: Point, rest: Seq<u8>, ft: spec_fn(u64) -> Seq<char>, pt: spec_fn(Seq<u8>) -> Option<u64>) {
        let c0 = "{\"x\":"@;
        let c1 = Real::json_of(v.x, ft);
        let c2 = ",\"y\":"@;
        let c3 = Real::json_of(v.y, ft);
        let c4 = "}"@;
        let e0 = encode_utf8(c0);
        let e1 = encode_utf8(c1);
        let e2 = encode_utf8(c2);
        let e3 = encode_utf8(c3);
        let e4 = encode_utf8(c4);
        let t5 = rest;
        let t4 = e4 + t5;
        let t3 = e3 + t4;
        let t2 = e2 + t3;
        let t1 = e1 + t2;
        let t0 = e0 + t1;
        assert(encode_utf8(Self::json_of(v, ft)) + rest == t0) by {
            lemma_point_text_bytes(v, rest, ft);
        }
        assert(after(t0, e0) == Some(t1)) by {
            lemma_after_prefix(e0, t1);
        }
        assert(Real::parse_json(t1, pt) == Some((v.x, t2))) by {
            reveal_strlit(",\"y\":");
            lemma_lit_bytes(c2);
            assert(t2[0] == e2[0]);
            Real::lemma_json_round_trip(v.x, t2, ft, pt);
        }
        assert(after(t2, e2) == Some(t3)) by {
            lemma_after_prefix(e2, t3);
        }
        assert(Real::parse_json(t3, pt) == Some((v.y, t4))) by {
            reveal_strlit("}");
            lemma_lit_bytes(c4);
            assert(t4[0] == e4[0]);
            Real::lemma_json_round_trip(v.y, t4, ft, pt);
        }
        assert(after(t4, e4) == Some(t5)) by {
            lemma_after_prefix(e4, t5);
        }
        assert(encode_utf8(Self::json_of(v, ft)).len() > 0 && encode_utf8(Self::json_of(v, ft))[0] != 93) by {
            reveal_strlit("{\"x\":");
            lemma_lit_bytes(c0);
            assert(t0[0] == e0[0]);
            assert(encode_utf8(Self::json_of(v, ft)) + rest == t0);
        }
    }

    open spec fn parse_json(b: Seq<u8>, pt: spec_fn(Seq<u8>) -> Option<u64>) -> Option<(Point, Seq<u8>)> {
        match after(b, encode_utf8("{\"x\":"@)) {
            Some(q0) => match Real::parse_json(q0, pt) {
                Some((v_x, q1)) => match after(q1, encode_utf8(",\"y\":"@)) {
                    Some(q2) => match Real::parse_json(q2, pt) {
                        Some((v_y, q3)) => match after(q3, encode_utf8("}"@)) {
                            Some(q4) => Some((Point { x: v_x, y: v_y }, q4)),
                            None => None,
                        },
                        None => None,
                    },
                    None => None,
                },
                None => None,
            },
            None => None,
        }
    }

    fn read_json<'a, P: Fn(Vec<u8>) -> Option<u64>>(b: &'a [u8], read: &P) -> (r: Result<(Point, &'a [u8]), CalcifyError>) {
        match strip_lit(b, "{\"x\":") {
            Some(q0) => match Real::read_json(q0, read) {
                Ok((v_x, q1)) => match strip_lit(q1, ",\"y\":") {
                    Some(q2) => match Real::read_json(q2, read) {
                        Ok((v_y, q3)) => match strip_lit(q3, "}") {
                            Some(q4) => Ok((Point { x: v_x, y: v_y }, q4)),
                            None => Err(CalcifyError::ParseError),
                        },
                        Err(_) => Err(CalcifyError::ParseError),
                    },
                    None => Err(CalcifyError::ParseError),
                },
                Err(_) => Err(CalcifyError::ParseError),
            },
            None => Err(CalcifyError::ParseError),
        }
    }

    open spec fn parse_msg(b: Seq<u8>) -> Option<(Point, Seq<u8>)> {
        match parse_array_len(b) {
            Some((n, r1)) => if n == 2 {
                match parse_reals(r1, 2) {
                    Some((xs, r2)) => Some((Point { x: xs[0], y: xs[1] }, r2)),
                    None => None,
                }
            } else {
                None
            },
            None => None,
        }
    }

    #[verifier::spinoff_prover]
    proof fn lemma_msg_round_trip(v: Point, rest: Seq<u8>) {
        let xs = v.components();
        lemma_reals_round_trip(xs, rest);
        lemma_array_len_round_trip(2, reals_bytes(xs) + rest);
        assert(Self::msg_of(v) + rest =~= array_len_bytes(2) + (reals_bytes(xs) + rest));
    }

    fn from_msg<'a>(b: &'a [u8]) -> (r: Result<(Point, &'a [u8]), CalcifyError>) {
        match take_array_len(b) {
            Some((n, r1)) => {
                if n != 2 {
                    return Err(CalcifyError::ParseError);
                }
                match take_reals(r1, 2) {
                    Some((xs, r2)) => {
                        proof {
                            lemma_parse_reals_len(r1@, 2);
                        }
                        Ok((Point { x: xs[0], y: xs[1] }, r2))
                    },
                    None => Err(CalcifyError::ParseError),
                }
            },
            None => Err(CalcifyError::ParseError),
        }
    }
}

/// A vector of three components.
#[derive(Debug, Clone, Copy, PartialEq, Eq, Structural)]
pub struct ThreeVec {
    /// First component.
    pub x0: Real,
    /// Second component.
    pub x1: Real,
    /// Third component.
    pub x2: Real,
}

impl View for ThreeVec {
    type V = ThreeVec;

    open spec fn view(&self) -> ThreeVec {
        *self
    }
}

impl ThreeVec {
    /// Returns a new ThreeVec from its components.
    pub fn new(x0: Real, x1: Real, x2: Real) -> (r: ThreeVec)
        ensures
            r.x0 == x0,
            r.x1 == x1,
            r.x2 == x2,
    {
        ThreeVec { x0, x1, x2 }
    }

    /// The components in order.
    pub open spec fn components(self) -> Seq<Real> {
        seq![self.x0, self.x1, self.x2]
    }

    /// The component `x0`.
    pub fn x0(&self) -> (r: Real)
        ensures
            r == self.x0,
    {
        self.x0
    }

    /// The component `x1`.
    pub fn x1(&self) -> (r: Real)
        ensures
            r == self.x1,
    {
        self.x1
    }

    /// The component `x2`.
    pub fn x2(&self) -> (r: Real)
        ensures
            r == self.x2,
    {
        self.x2
    }
}

impl Serializable for ThreeVec {
    open spec fn json_of(v: ThreeVec, ft: spec_fn(u64) -> Seq<char>) -> Seq<char> {
        "{\"x0\":"@ + Real::json_of(v.x0, ft) + ",\"x1\":"@ + Real::json_of(v.x1, ft) + ",\"x2\":"@ + Real::json_of(v.x2, ft) + "}"@
    }

    open spec fn msg_of(v: ThreeVec) -> Seq<u8> {
        array_len_bytes(3) + reals_bytes(v.components())
    }

    open spec fn encodable(v: ThreeVec) -> bool {
        true
    }

    fn to_json<F: Fn(u64) -> String>(&self, show: &F) -> (r: String) {
        let mut out = String::from_str("{\"x0\":");
        let t0 = self.x0.to_json(show);
        out.append(t0.as_str());
        out.append(",\"x1\":");
        let t1 = self.x1.to_json(show);
        out.append(t1.as_str());
        out.append(",\"x2\":");
        let t2 = self.x2.to_json(show);
        out.append(t2.as_str());
        out.append("}");
        assert(out@ =~= Self::json_of(*self, show_fn(*show)));
        out
    }

    fn is_encodable(&self) -> (r: bool) {
        true
    }

    fn duplicate(&self) -> (r: Self) {
        *self
    }

    fn write_msg(&self, buf: &mut Vec<u8>) {
        put_array_len(buf, 3);
        let xs: Vec<Real> = vec![self.x0, self.x1, self.x2];
        assert(xs@ =~= self.components());
        put_reals(buf, xs.as_slice());
        assert(final(buf)@ =~= old(buf)@ + Self::msg_of(*self));
    }
}

impl Deserializable for ThreeVec {
    #[verifier::spinoff_prover]
    #[verifier::rlimit(100)]
    proof fn lemma_json_round_trip(v: ThreeVec, rest: Seq<u8>, ft: spec_fn(u64) -> Seq<char>, pt: spec_fn(Seq<u8>) -> Option<u64>) {
        let c0 = "{\"x0\":"@;
        let c1 = Real::json_of(v.x0, ft);
        let c2 = ",\"x1\":"@;
        let c3 = Real::json_of(v.x1, ft);
        let c4 = ",\"x2\":"@;
        let c5 = Real::json_of(v.x2, ft);
        let c6 = "}"@;
        let e0 = encode_utf8(c0);
        let e1 = encode_utf8(c1);
        let e2 = encode_utf8(c2);
        let e3 = encode_utf8(c3);
        let e4 = encode_utf8(c4);
        let e5 = encode_utf8(c5);
        let e6 = encode_utf8(c6);
        let t7 = rest;
        let t6 = e6 + t7;
        let t5 = e5 + t6;
        let t4 = e4 + t5;
        let t3 = e3 + t4;
        let t2 = e2 + t3;
        let t1 = e1 + t2;
        let t0 = e0 + t1;
        assert(encode_utf8(Self::json_of(v, ft)) + rest == t0) by {
            lemma_three_vec_text_bytes(v, rest, ft);
        }
        assert(after(t0, e0) == Some(t1)) by {
            lemma_after_prefix(e0, t1);
        }
        assert(Real::parse_json(t1, pt) == Some((v.x0, t2))) by {
            reveal_strlit(",\"x1\":");
            lemma_lit_bytes(c2);
            assert(t2[0] == e2[0]);
            Real::lemma_json_round_trip(v.x0, t2, ft, pt);
        }
        assert(after(t2, e2) == Some(t3)) by {
            lemma_after_prefix(e2, t3);
        }
        assert(Real::parse_json(t3, pt) == Some((v.x1, t4))) by {
            reveal_strlit(",\"x2\":");
            lemma_lit_bytes(c4);
            assert(t4[0] == e4[0]);
            Real::lemma_json_round_trip(v.x1, t4, ft, pt);
        }
        assert(after(t4, e4) == Some(t5)) by {
            lemma_after_prefix(e4, t5);
        }
        assert(Real::parse_json(t5, pt) == Some((v.x2, t6))) by {
            reveal_strlit("}");
            lemma_lit_bytes(c6);
            assert(t6[0] == e6[0]);
            Real::lemma_json_round_trip(v.x2, t6, ft, pt);
        }
        assert(after(t6, e6) == Some(t7)) by {
            lemma_after_prefix(e6, t7);
        }
        assert(encode_utf8(Self::json_of(v, ft)).len() > 0 && encode_utf8(Self::json_of(v, ft))[0] != 93) by {
            reveal_strlit("{\"x0\":");
            lemma_lit_bytes(c0);
            assert(t0[0] == e0[0]);
            assert(encode_utf8(Self::json_of(v, ft)) + rest == t0);
        }
    }

    open spec fn parse_json(b: Seq<u8>, pt: spec_fn(Seq<u8>) -> Option<u64>) -> Option<(ThreeVec, Seq<u8>)> {
        match after(b, encode_utf8("{\"x0\":"@)) {
            Some(q0) => match Real::parse_json(q0, pt) {
                Some((v_x0, q1)) => match after(q1, encode_utf8(",\"x1\":"@)) {
                    Some(q2) => match Real::parse_json(q2, pt) {
                        Some((v_x1, q3)) => match after(q3, encode_utf8(",\"x2\":"@)) {
                            Some(q4) => match Real::parse_json(q4, pt) {
                                Some((v_x2, q5)) => match after(q5, encode_utf8("}"@)) {
                                    Some(q6) => Some((ThreeVec { x0: v_x0, x1: v_x1, x2: v_x2 }, q6)),
                                    None => None,
                                },
                                None => None,
                            },
                            None => None,
                        },
                        None => None,
                    },
                    None => None,
                },
                None => None,
            },
            None => None,
        }
    }

    fn read_json<'a, P: Fn(Vec<u8>) -> Option<u64>>(b: &'a [u8], read: &P) -> (r: Result<(ThreeVec, &'a [u8]), CalcifyError>) {
        match strip_lit(b, "{\"x0\":") {
            Some(q0) => match Real::read_json(q0, read) {
                Ok((v_x0, q1)) => match strip_lit(q1, ",\"x1\":") {
                    Some(q2) => match Real::read_json(q2, read) {
                        Ok((v_x1, q3)) => match strip_lit(q3, ",\"x2\":") {
                            Some(q4) => match Real::read_json(q4, read) {
                                Ok((v_x2, q5)) => match strip_lit(q5, "}") {
                                    Some(q6) => Ok((ThreeVec { x0: v_x0, x1: v_x1, x2: v_x2 }, q6)),
                                    None => Err(CalcifyError::ParseError),
                                },
                                Err(_) => Err(CalcifyError::ParseError),
                            },
                            None => Err(CalcifyError::ParseError),
                        },
                        Err(_) => Err(CalcifyError::ParseError),
                    },
                    None => Err(CalcifyError::ParseError),
                },
                Err(_) => Err(CalcifyError::ParseError),
            },
            None => Err(CalcifyError::ParseError),
        }
    }

    open spec fn parse_msg(b: Seq<u8>) -> Option<(ThreeVec, Seq<u8>)> {
        match parse_array_len(b) {
            Some((n, r1)) => if n == 3 {
                match parse_reals(r1, 3) {
                    Some((xs, r2)) => Some((ThreeVec { x0: xs[0], x1: xs[1], x2: xs[2] }, r2)),
                    None => None,
                }
            } else {
                None
            },
            None => None,
        }
    }

    #[verifier::spinoff_prover]
    proof fn lemma_msg_round_trip(v: ThreeVec, rest: Seq<u8>) {
        let xs = v.components();
        lemma_reals_round_trip(xs, rest);
        lemma_array_len_round_trip(3, reals_bytes(xs) + rest);
        assert(Self::msg_of(v) + rest =~= array_len_bytes(3) + (reals_bytes(xs) + rest));
    }

    fn from_msg<'a>(b: &'a [u8]) -> (r: Result<(ThreeVec, &'a [u8]), CalcifyError>) {
        match take_array_len(b) {
            Some((n, r1)) => {
                if n != 3 {
                    return Err(CalcifyError::ParseError);
                }
                match take_reals(r1, 3) {
                    Some((xs, r2)) => {
                        proof {
                            lemma_parse_reals_len(r1@, 3);
                        }
                        Ok((ThreeVec { x0: xs[0], x1: xs[1], x2: xs[2] }, r2))
                    },
                    None => Err(CalcifyError::ParseError),
                }
            },
            None => Err(CalcifyError::ParseError),
        }
    }
}

/// A four-vector: time component first, then the three spatial ones.
#[derive(Debug, Clone, Copy, PartialEq, Eq, Structural)]
pub struct FourVec {
    /// Time component.
    pub m0: Real,
    /// First spatial component.
    pub m1: Real,
    /// Second spatial component.
    pub m2: Real,
    /// Third spatial component.
    pub m3: Real,
}

impl View for FourVec {
    type V = FourVec;

    open spec fn view(&self) -> FourVec {
        *self
    }
}

impl FourVec {
    /// Returns a new FourVec from its components.
    pub fn new(m0: Real, m1: Real, m2: Real, m3: Real) -> (r: FourVec)
        ensures
            r.m0 == m0,
            r.m1 == m1,
            r.m2 == m2,
            r.m3 == m3,
    {
        FourVec { m0, m1, m2, m3 }
    }

    /// The components in order.
    pub open spec fn components(self) -> Seq<Real> {
        seq![self.m0, self.m1, self.m2, self.m3]
    }

    /// The component `m0`.
    pub fn m0(&self) -> (r: Real)
        ensures
            r == self.m0,
    {
        self.m0
    }

    /// The component `m1`.
    pub fn m1(&self) -> (r: Real)
        ensures
            r == self.m1,
    {
        self.m1
    }

    /// The component `m2`.
    pub fn m2(&self) -> (r: Real)
        ensures
            r == self.m2,
    {
        self.m2
    }

    /// The component `m3`.
    pub fn m3(&self) -> (r: Real)
        ensures
            r == self.m3,
    {
        self.m3
    }
}

impl Serializable for FourVec {
    open spec fn json_of(v: FourVec, ft: spec_fn(u64) -> Seq<char>) -> Seq<char> {
        "{\"m0\":"@ + Real::json_of(v.m0, ft) + ",\"m1\":"@ + Real::json_of(v.m1, ft) + ",\"m2\":"@ + Real::json_of(v.m2, ft) + ",\"m3\":"@ + Real::json_of(v.m3, ft) + "}"@
    }

    open spec fn msg_of(v: FourVec) -> Seq<u8> {
        array_len_bytes(4) + reals_bytes(v.components())
    }

    open spec fn encodable(v: FourVec) -> bool {
        true
    }

    fn to_json<F: Fn(u64) -> String>(&self, show: &F) -> (r: String) {
        let mut out = String::from_str("{\"m0\":");
        let t0 = self.m0.to_json(show);
        out.append(t0.as_str());
        out.append(",\"m1\":");
        let t1 = self.m1.to_json(show);
        out.append(t1.as_str());
        out.append(",\"m2\":");
        let t2 = self.m2.to_json(show);
        out.append(t2.as_str());
        out.append(",\"m3\":");
        let t3 = self.m3.to_json(show);
        out.append(t3.as_str());
        out.append("}");
        assert(out@ =~= Self::json_of(*self, show_fn(*show)));
        out
    }

    fn is_encodable(&self) -> (r: bool) {
        true
    }

    fn duplicate(&self) -> (r: Self) {
        *self
    }

    fn write_msg(&self, buf: &mut Vec<u8>) {
        put_array_len(buf, 4);
        let xs: Vec<Real> = vec![self.m0, self.m1, self.m2, self.m3];
        assert(xs@ =~= self.components());
        put_reals(buf, xs.as_slice());
        assert(final(buf)@ =~= old(buf)@ + Self::msg_of(*self));
    }
}

impl Deserializable for FourVec {
    #[verifier::spinoff_prover]
    #[verifier::rlimit(100)]
    proof fn lemma_json_round_trip(v: FourVec, rest: Seq<u8>, ft: spec_fn(u64) -> Seq<char>, pt: spec_fn(Seq<u8>) -> Option<u64>) {
        let c0 = "{\"m0\":"@;
        let c1 = Real::json_of(v.m0, ft);
        let c2 = ",\"m1\":"@;
        let c3 = Real::json_of(v.m1, ft);
        let c4 = ",\"m2\":"@;
        let c5 = Real::json_of(v.m2, ft);
        let c6 = ",\"m3\":"@;
        let c7 = Real::json_of(v.m3, ft);
        let c8 = "}"@;
        let e0 = encode_utf8(c0);
        let e1 = encode_utf8(c1);
        let e2 = encode_utf8(c2);
        let e3 = encode_utf8(c3);
        let e4 = encode_utf8(c4);
        let e5 = encode_utf8(c5);
        let e6 = encode_utf8(c6);
        let e7 = encode_utf8(c7);
        let e8 = encode_utf8(c8);
        let t9 = rest;
        let t8 = e8 + t9;
        let t7 = e7 + t8;
        let t6 = e6 + t7;
        let t5 = e5 + t6;
        let t4 = e4 + t5;
        let t3 = e3 + t4;
        let t2 = e2 + t3;
        let t1 = e1 + t2;
        let t0 = e0 + t1;
        assert(encode_utf8(Self::json_of(v, ft)) + rest == t0) by {
            lemma_four_vec_text_bytes(v, rest, ft);
        }
        assert(after(t0, e0) == Some(t1)) by {
            lemma_after_prefix(e0, t1);
        }
        assert(Real::parse_json(t1, pt) == Some((v.m0, t2))) by {
            reveal_strlit(",\"m1\":");
            lemma_lit_bytes(c2);
            assert(t2[0] == e2[0]);
            Real::lemma_json_round_trip(v.m0, t2, ft, pt);
        }
        assert(after(t2, e2) == Some(t3)) by {
            lemma_after_prefix(e2, t3);
        }
        assert(Real::parse_json(t3, pt) == Some((v.m1, t4))) by {
            reveal_strlit(",\"m2\":");
            lemma_lit_bytes(c4);
            assert(t4[0] == e4[0]);
            Real::lemma_json_round_trip(v.m1, t4, ft, pt);
        }
        assert(after(t4, e4) == Some(t5)) by {
            lemma_after_prefix(e4, t5);
        }
        assert(Real::parse_json(t5, pt) == Some((v.m2, t6))) by {
            reveal_strlit(",\"m3\":");
            lemma_lit_bytes(c6);
            assert(t6[0] == e6[0]);
            Real::lemma_json_round_trip(v.m2, t6, ft, pt);
        }
        assert(after(t6, e6) == Some(t7)) by {
            lemma_after_prefix(e6, t7);
        }
        assert(Real::parse_json(t7, pt) == Some((v.m3, t8))) by {
            reveal_strlit("}");
            lemma_lit_bytes(c8);
            assert(t8[0] == e8[0]);
            Real::lemma_json_round_trip(v.m3, t8, ft, pt);
        }
        assert(after(t8, e8) == Some(t9)) by {
            lemma_after_prefix(e8, t9);
        }
        assert(encode_utf8(Self::json_of(v, ft)).len() > 0 && encode_utf8(Self::json_of(v, ft))[0] != 93) by {
            reveal_strlit("{\"m0\":");
            lemma_lit_bytes(c0);
            assert(t0[0] == e0[0]);
            assert(encode_utf8(Self::json_of(v, ft)) + rest == t0);
        }
    }

    open spec fn parse_json(b: Seq<u8>, pt: spec_fn(Seq<u8>) -> Option<u64>) -> Option<(FourVec, Seq<u8>)> {
        match after(b, encode_utf8("{\"m0\":"@)) {
            Some(q0) => match Real::parse_json(q0, pt) {
                Some((v_m0, q1)) => match after(q1, encode_utf8(",\"m1\":"@)) {
                    Some(q2) => match Real::parse_json(q2, pt) {
                        Some((v_m1, q3)) => match after(q3, encode_utf8(",\"m2\":"@)) {
                            Some(q4) => match Real::parse_json(q4, pt) {
                                Some((v_m2, q5)) => match after(q5, encode_utf8(",\"m3\":"@)) {
                                    Some(q6) => match Real::parse_json(q6, pt) {
                                        Some((v_m3, q7)) => match after(q7, encode_utf8("}"@)) {
                                            Some(q8) => Some((FourVec { m0: v_m0, m1: v_m1, m2: v_m2, m3: v_m3 }, q8)),
                                            None => None,
                                        },
                                        None => None,
                                    },
                                    None => None,
                                },
                                None => None,
                            },
                            None => None,
                        },
                        None => None,
                    },
                    None => None,
                },
                None => None,
            },
            None => None,
        }
    }

    fn read_json<'a, P: Fn(Vec<u8>) -> Option<u64>>(b: &'a [u8], read: &P) -> (r: Result<(FourVec, &'a [u8]), CalcifyError>) {
        match strip_lit(b, "{\"m0\":") {
            Some(q0) => match Real::read_json(q0, read) {
                Ok((v_m0, q1)) => match strip_lit(q1, ",\"m1\":") {
                    Some(q2) => match Real::read_json(q2, read) {
                        Ok((v_m1, q3)) => match strip_lit(q3, ",\"m2\":") {
                            Some(q4) => match Real::read_json(q4, read) {
                                Ok((v_m2, q5)) => match strip_lit(q5, ",\"m3\":") {
                                    Some(q6) => match Real::read_json(q6, read) {
                                        Ok((v_m3, q7)) => match strip_lit(q7, "}") {
                                            Some(q8) => Ok((FourVec { m0: v_m0, m1: v_m1, m2: v_m2, m3: v_m3 }, q8)),
                                            None => Err(CalcifyError::ParseError),
                                        },
                                        Err(_) => Err(CalcifyError::ParseError),
                                    },
                                    None => Err(CalcifyError::ParseError),
                                },
                                Err(_) => Err(CalcifyError::ParseError),
                            },
                            None => Err(CalcifyError::ParseError),
                        },
                        Err(_) => Err(CalcifyError::ParseError),
                    },
                    None => Err(CalcifyError::ParseError),
                },
                Err(_) => Err(CalcifyError::ParseError),
            },
            None => Err(CalcifyError::ParseError),
        }
    }

    open spec fn parse_msg(b: Seq<u8>) -> Option<(FourVec, Seq<u8>)> {
        match parse_array_len(b) {
            Some((n, r1)) => if n == 4 {
                match parse_reals(r1, 4) {
                    Some((xs, r2)) => Some((FourVec { m0: xs[0], m1: xs[1], m2: xs[2], m3: xs[3] }, r2)),
                    None => None,
                }
            } else {
                None
            },
            None => None,
        }
    }

    #[verifier::spinoff_prover]
    proof fn lemma_msg_round_trip(v: FourVec, rest: Seq<u8>) {
        let xs = v.components();
        lemma_reals_round_trip(xs, rest);
        lemma_array_len_round_trip(4, reals_bytes(xs) + rest);
        assert(Self::msg_of(v) + rest =~= array_len_bytes(4) + (reals_bytes(xs) + rest));
    }

    fn from_msg<'a>(b: &'a [u8]) -> (r: Result<(FourVec, &'a [u8]), CalcifyError>) {
        match take_array_len(b) {
            Some((n, r1)) => {
                if n != 4 {
                    return Err(CalcifyError::ParseError);
                }
                match take_reals(r1, 4) {
                    Some((xs, r2)) => {
                        proof {
                            lemma_parse_reals_len(r1@, 4);
                        }
                        Ok((FourVec { m0: xs[0], m1: xs[1], m2: xs[2], m3: xs[3] }, r2))
                    },
                    None => Err(CalcifyError::ParseError),
                }
            },
            None => Err(CalcifyError::ParseError),
        }
    }
}

/// A three by three matrix, held as three rows.
#[derive(Debug, Clone, Copy, PartialEq, Eq, Structural)]
pub struct ThreeMat {
    /// First row.
    pub r0: ThreeVec,
    /// Second row.
    pub r1: ThreeVec,
    /// Third row.
    pub r2: ThreeVec,
}

impl View for ThreeMat {
    type V = ThreeMat;

    open spec fn view(&self) -> ThreeMat {
        *self
    }
}

impl ThreeMat {
    /// Returns a new ThreeMat from its rows.
    pub fn new(r0: ThreeVec, r1: ThreeVec, r2: ThreeVec) -> (r: ThreeMat)
        ensures
            r.r0 == r0,
            r.r1 == r1,
            r.r2 == r2,
    {
        ThreeMat { r0, r1, r2 }
    }

    /// The row `r0`.
    pub fn r0(&self) -> (r: ThreeVec)
        ensures
            r == self.r0,
    {
        self.r0
    }

    /// The row `r1`.
    pub fn r1(&self) -> (r: ThreeVec)
        ensures
            r == self.r1,
    {
        self.r1
    }

    /// The row `r2`.
    pub fn r2(&self) -> (r: ThreeVec)
        ensures
            r == self.r2,
    {
        self.r2
    }
}

impl Serializable for ThreeMat {
    open spec fn json_of(v: ThreeMat, ft: spec_fn(u64) -> Seq<char>) -> Seq<char> {
        "{\"r0\":"@ + ThreeVec::json_of(v.r0, ft) + ",\"r1\":"@ + ThreeVec::json_of(v.r1, ft) + ",\"r2\":"@ + ThreeVec::json_of(v.r2, ft) + "}"@
    }

    open spec fn msg_of(v: ThreeMat) -> Seq<u8> {
        array_len_bytes(3) + ThreeVec::msg_of(v.r0) + ThreeVec::msg_of(v.r1) + ThreeVec::msg_of(v.r2)
    }

    open spec fn encodable(v: ThreeMat) -> bool {
        true
    }

    fn to_json<F: Fn(u64) -> String>(&self, show: &F) -> (r: String) {
        let mut out = String::from_str("{\"r0\":");
        let t0 = self.r0.to_json(show);
        out.append(t0.as_str());
        out.append(",\"r1\":");
        let t1 = self.r1.to_json(show);
        out.append(t1.as_str());
        out.append(",\"r2\":");
        let t2 = self.r2.to_json(show);
        out.append(t2.as_str());
        out.append("}");
        assert(out@ =~= Self::json_of(*self, show_fn(*show)));
        out
    }

    fn is_encodable(&self) -> (r: bool) {
        true
    }

    fn duplicate(&self) -> (r: Self) {
        *self
    }

    fn write_msg(&self, buf: &mut Vec<u8>) {
        put_array_len(buf, 3);
        self.r0.write_msg(buf);
        self.r1.write_msg(buf);
        self.r2.write_msg(buf);
        assert(final(buf)@ =~= old(buf)@ + Self::msg_of(*self));
    }
}

impl Deserializable for ThreeMat {
    #[verifier::spinoff_prover]
    #[verifier::rlimit(100)]
    proof fn lemma_json_round_trip(v: ThreeMat, rest: Seq<u8>, ft: spec_fn(u64) -> Seq<char>, pt: spec_fn(Seq<u8>) -> Option<u64>) {
        let c0 = "{\"r0\":"@;
        let c1 = ThreeVec::json_of(v.r0, ft);
        let c2 = ",\"r1\":"@;
        let c3 = ThreeVec::json_of(v.r1, ft);
        let c4 = ",\"r2\":"@;
        let c5 = ThreeVec::json_of(v.r2, ft);
        let c6 = "}"@;
        let e0 = encode_utf8(c0);
        let e1 = encode_utf8(c1);
        let e2 = encode_utf8(c2);
        let e3 = encode_utf8(c3);
        let e4 = encode_utf8(c4);
        let e5 = encode_utf8(c5);
        let e6 = encode_utf8(c6);
        let t7 = rest;
        let t6 = e6 + t7;
        let t5 = e5 + t6;
        let t4 = e4 + t5;
        let t3 = e3 + t4;
        let t2 = e2 + t3;
        let t1 = e1 + t2;
        let t0 = e0 + t1;
        assert(encode_utf8(Self::json_of(v, ft)) + rest == t0) by {
            lemma_three_mat_text_bytes(v, rest, ft);
        }
        assert(after(t0, e0) == Some(t1)) by {
            lemma_after_prefix(e0, t1);
        }
        assert(ThreeVec::parse_json(t1, pt) == Some((v.r0, t2))) by {
            reveal_strlit(",\"r1\":");
            lemma_lit_bytes(c2);
            assert(t2[0] == e2[0]);
            ThreeVec::lemma_json_round_trip(v.r0, t2, ft, pt);
        }
        assert(after(t2, e2) == Some(t3)) by {
            lemma_after_prefix(e2, t3);
        }
        assert(ThreeVec::parse_json(t3, pt) == Some((v.r1, t4))) by {
            reveal_strlit(",\"r2\":");
            lemma_lit_bytes(c4);
            assert(t4[0] == e4[0]);
            ThreeVec::lemma_json_round_trip(v.r1, t4, ft, pt);
        }
        assert(after(t4, e4) == Some(t5)) by {
            lemma_after_prefix(e4, t5);
        }
        assert(ThreeVec::parse_json(t5, pt) == Some((v.r2, t6))) by {
            reveal_strlit("}");
            lemma_lit_bytes(c6);
            assert(t6[0] == e6[0]);
            ThreeVec::lemma_json_round_trip(v.r2, t6, ft, pt);
        }
        assert(after(t6, e6) == Some(t7)) by {
            lemma_after_prefix(e6, t7);
        }
        assert(encode_utf8(Self::json_of(v, ft)).len() > 0 && encode_utf8(Self::json_of(v, ft))[0] != 93) by {
            reveal_strlit("{\"r0\":");
            lemma_lit_bytes(c0);
            assert(t0[0] == e0[0]);
            assert(encode_utf8(Self::json_of(v, ft)) + rest == t0);
        }
    }

    open spec fn parse_json(b: Seq<u8>, pt: spec_fn(Seq<u8>) -> Option<u64>) -> Option<(ThreeMat, Seq<u8>)> {
        match after(b, encode_utf8("{\"r0\":"@)) {
            Some(q0) => match ThreeVec::parse_json(q0, pt) {
                Some((v_r0, q1)) => match after(q1, encode_utf8(",\"r1\":"@)) {
                    Some(q2) => match ThreeVec::parse_json(q2, pt) {
                        Some((v_r1, q3)) => match after(q3, encode_utf8(",\"r2\":"@)) {
                            Some(q4) => match ThreeVec::parse_json(q4, pt) {
                                Some((v_r2, q5)) => match after(q5, encode_utf8("}"@)) {
                                    Some(q6) => Some((ThreeMat { r0: v_r0, r1: v_r1, r2: v_r2 }, q6)),
                                    None => None,
                                },
                                None => None,
                            },
                            None => None,
                        },
                        None => None,
                    },
                    None => None,
                },
                None => None,
            },
            None => None,
        }
    }

    fn read_json<'a, P: Fn(Vec<u8>) -> Option<u64>>(b: &'a [u8], read: &P) -> (r: Result<(ThreeMat, &'a [u8]), CalcifyError>) {
        match strip_lit(b, "{\"r0\":") {
            Some(q0) => match ThreeVec::read_json(q0, read) {
                Ok((v_r0, q1)) => match strip_lit(q1, ",\"r1\":") {
                    Some(q2) => match ThreeVec::read_json(q2, read) {
                        Ok((v_r1, q3)) => match strip_lit(q3, ",\"r2\":") {
                            Some(q4) => match ThreeVec::read_json(q4, read) {
                                Ok((v_r2, q5)) => match strip_lit(q5, "}") {
                                    Some(q6) => Ok((ThreeMat { r0: v_r0, r1: v_r1, r2: v_r2 }, q6)),
                                    None => Err(CalcifyError::ParseError),
                                },
                                Err(_) => Err(CalcifyError::ParseError),
                            },
                            None => Err(CalcifyError::ParseError),
                        },
                        Err(_) => Err(CalcifyError::ParseError),
                    },
                    None => Err(CalcifyError::ParseError),
                },
                Err(_) => Err(CalcifyError::ParseError),
            },
            None => Err(CalcifyError::ParseError),
        }
    }

    open spec fn parse_msg(b: Seq<u8>) -> Option<(ThreeMat, Seq<u8>)> {
        match parse_array_len(b) {
            Some((n, r1)) => if n == 3 {
                match ThreeVec::parse_msg(r1) {
                    Some((w0, q0)) => match ThreeVec::parse_msg(q0) {
                        Some((w1, q1)) => match ThreeVec::parse_msg(q1) {
                            Some((w2, q2)) => Some((ThreeMat { r0: w0, r1: w1, r2: w2 }, q2)),
                            None => None,
                        },
                        None => None,
                    },
                    None => None,
                }
            } else {
                None
            },
            None => None,
        }
    }

    #[verifier::spinoff_prover]
    proof fn lemma_msg_round_trip(v: ThreeMat, rest: Seq<u8>) {
        let t2 = ThreeVec::msg_of(v.r2) + rest;
        let t1 = ThreeVec::msg_of(v.r1) + t2;
        let t0 = ThreeVec::msg_of(v.r0) + t1;
        assert(Self::msg_of(v) + rest == array_len_bytes(3) + t0) by {
            assert(Self::msg_of(v) + rest =~= array_len_bytes(3) + t0);
        }
        assert(parse_array_len(array_len_bytes(3) + t0) == Some((3u32, t0))) by {
            lemma_array_len_round_trip(3, t0);
        }
        assert(ThreeVec::parse_msg(t0) == Some((v.r0, t1))) by {
            ThreeVec::lemma_msg_round_trip(v.r0, t1);
        }
        assert(ThreeVec::parse_msg(t1) == Some((v.r1, t2))) by {
            ThreeVec::lemma_msg_round_trip(v.r1, t2);
        }
        assert(ThreeVec::parse_msg(t2) == Some((v.r2, rest))) by {
            ThreeVec::lemma_msg_round_trip(v.r2, rest);
        }
    }

    fn from_msg<'a>(b: &'a [u8]) -> (r: Result<(ThreeMat, &'a [u8]), CalcifyError>) {
        match take_array_len(b) {
            Some((n, r1)) => {
                if n != 3 {
                    return Err(CalcifyError::ParseError);
                }
                match ThreeVec::from_msg(r1) {
                    Ok((w0, q0)) => {
                        match ThreeVec::from_msg(q0) {
                            Ok((w1, q1)) => {
                                match ThreeVec::from_msg(q1) {
                                    Ok((w2, q2)) => {
                                        Ok((ThreeMat { r0: w0, r1: w1, r2: w2 }, q2))
                                    },
                                    Err(e) => Err(e),
                                }
                            },
                            Err(e) => Err(e),
                        }
                    },
                    Err(e) => Err(e),
                }
            },
            None => Err(CalcifyError::ParseError),
        }
    }
}

/// A four by four matrix, held as four rows.
#[derive(Debug, Clone, Copy, PartialEq, Eq, Structural)]
pub struct FourMat {
    /// First row.
    pub n0: FourVec,
    /// Second row.
    pub n1: FourVec,
    /// Third row.
    pub n2: FourVec,
    /// Fourth row.
    pub n3: FourVec,
}

impl View for FourMat {
    type V = FourMat;

    open spec fn view(&self) -> FourMat {
        *self
    }
}

impl FourMat {
    /// Returns a new FourMat from its rows.
    pub fn new(n0: FourVec, n1: FourVec, n2: FourVec, n3: FourVec) -> (r: FourMat)
        ensures
            r.n0 == n0,
            r.n1 == n1,
            r.n2 == n2,
            r.n3 == n3,
    {
        FourMat { n0, n1, n2, n3 }
    }

    /// The row `n0`.
    pub fn n0(&self) -> (r: FourVec)
        ensures
            r == self.n0,
    {
        self.n0
    }

    /// The row `n1`.
    pub fn n1(&self) -> (r: FourVec)
        ensures
            r == self.n1,
    {
        self.n1
    }

    /// The row `n2`.
    pub fn n2(&self) -> (r: FourVec)
        ensures
            r == self.n2,
    {
        self.n2
    }

    /// The row `n3`.
    pub fn n3(&self) -> (r: FourVec)
        ensures
            r == self.n3,
    {
        self.n3
    }
}

impl Serializable for FourMat {
    open spec fn json_of(v: FourMat, ft: spec_fn(u64) -> Seq<char>) -> Seq<char> {
        "{\"n0\":"@ + FourVec::json_of(v.n0, ft) + ",\"n1\":"@ + FourVec::json_of(v.n1, ft) + ",\"n2\":"@ + FourVec::json_of(v.n2, ft) + ",\"n3\":"@ + FourVec::json_of(v.n3, ft) + "}"@
    }

    open spec fn msg_of(v: FourMat) -> Seq<u8> {
        array_len_bytes(4) + FourVec::msg_of(v.n0) + FourVec::msg_of(v.n1) + FourVec::msg_of(v.n2) + FourVec::msg_of(v.n3)
    }

    open spec fn encodable(v: FourMat) -> bool {
        true
    }

    fn to_json<F: Fn(u64) -> String>(&self, show: &F) -> (r: String) {
        let mut out = String::from_str("{\"n0\":");
        let t0 = self.n0.to_json(show);
        out.append(t0.as_str());
        out.append(",\"n1\":");
        let t1 = self.n1.to_json(show);
        out.append(t1.as_str());
        out.append(",\"n2\":");
        let t2 = self.n2.to_json(show);
        out.append(t2.as_str());
        out.append(",\"n3\":");
        let t3 = self.n3.to_json(show);
        out.append(t3.as_str());
        out.append("}");
        assert(out@ =~= Self::json_of(*self, show_fn(*show)));
        out
    }

    fn is_encodable(&self) -> (r: bool) {
        true
    }

    fn duplicate(&self) -> (r: Self) {
        *self
    }

    fn write_msg(&self, buf: &mut Vec<u8>) {
        put_array_len(buf, 4);
        self.n0.write_msg(buf);
        self.n1.write_msg(buf);
        self.n2.write_msg(buf);
        self.n3.write_msg(buf);
        assert(final(buf)@ =~= old(buf)@ + Self::msg_of(*self));
    }
}

impl Deserializable for FourMat {
    #[verifier::spinoff_prover]
    #[verifier::rlimit(100)]
    proof fn lemma_json_round_trip(v: FourMat, rest: Seq<u8>, ft: spec_fn(u64) -> Seq<char>, pt: spec_fn(Seq<u8>) -> Option<u64>) {
        let c0 = "{\"n0\":"@;
        let c1 = FourVec::json_of(v.n0, ft);
        let c2 = ",\"n1\":"@;
        let c3 = FourVec::json_of(v.n1, ft);
        let c4 = ",\"n2\":"@;
        let c5 = FourVec::json_of(v.n2, ft);
        let c6 = ",\"n3\":"@;
        let c7 = FourVec::json_of(v.n3, ft);
        let c8 = "}"@;
        let e0 = encode_utf8(c0);
        let e1 = encode_utf8(c1);
        let e2 = encode_utf8(c2);
        let e3 = encode_utf8(c3);
        let e4 = encode_utf8(c4);
        let e5 = encode_utf8(c5);
        let e6 = encode_utf8(c6);
        let e7 = encode_utf8(c7);
        let e8 = encode_utf8(c8);
        let t9 = rest;
        let t8 = e8 + t9;
        let t7 = e7 + t8;
        let t6 = e6 + t7;
        let t5 = e5 + t6;
        let t4 = e4 + t5;
        let t3 = e3 + t4;
        let t2 = e2 + t3;
        let t1 = e1 + t2;
        let t0 = e0 + t1;
        assert(encode_utf8(Self::json_of(v, ft)) + rest == t0) by {
            lemma_four_mat_text_bytes(v, rest, ft);
        }
        assert(after(t0, e0) == Some(t1)) by {
            lemma_after_prefix(e0, t1);
        }
        assert(FourVec::parse_json(t1, pt) == Some((v.n0, t2))) by {
            reveal_strlit(",\"n1\":");
            lemma_lit_bytes(c2);
            assert(t2[0] == e2[0]);
            FourVec::lemma_json_round_trip(v.n0, t2, ft, pt);
        }
        assert(after(t2, e2) == Some(t3)) by {
            lemma_after_prefix(e2, t3);
        }
        assert(FourVec::parse_json(t3, pt) == Some((v.n1, t4))) by {
            reveal_strlit(",\"n2\":");
            lemma_lit_bytes(c4);
            assert(t4[0] == e4[0]);
            FourVec::lemma_json_round_trip(v.n1, t4, ft, pt);
        }
        assert(after(t4, e4) == Some(t5)) by {
            lemma_after_prefix(e4, t5);
        }
        assert(FourVec::parse_json(t5, pt) == Some((v.n2, t6))) by {
            reveal_strlit(",\"n3\":");
            lemma_lit_bytes(c6);
            assert(t6[0] == e6[0]);
            FourVec::lemma_json_round_trip(v.n2, t6, ft, pt);
        }
        assert(after(t6, e6) == Some(t7)) by {
            lemma_after_prefix(e6, t7);
        }
        assert(FourVec::parse_json(t7, pt) == Some((v.n3, t8))) by {
            reveal_strlit("}");
            lemma_lit_bytes(c8);
            assert(t8[0] == e8[0]);
            FourVec::lemma_json_round_trip(v.n3, t8, ft, pt);
        }
        assert(after(t8, e8) == Some(t9)) by {
            lemma_after_prefix(e8, t9);
        }
        assert(encode_utf8(Self::json_of(v, ft)).len() > 0 && encode_utf8(Self::json_of(v, ft))[0] != 93) by {
            reveal_strlit("{\"n0\":");
            lemma_lit_bytes(c0);
            assert(t0[0] == e0[0]);
            assert(encode_utf8(Self::json_of(v, ft)) + rest == t0);
        }
    }

    open spec fn parse_json(b: Seq<u8>, pt: spec_fn(Seq<u8>) -> Option<u64>) -> Option<(FourMat, Seq<u8>)> {
        match after(b, encode_utf8("{\"n0\":"@)) {
            Some(q0) => match FourVec::parse_json(q0, pt) {
                Some((v_n0, q1)) => match after(q1, encode_utf8(",\"n1\":"@)) {
                    Some(q2) => match FourVec::parse_json(q2, pt) {
                        Some((v_n1, q3)) => match after(q3, encode_utf8(",\"n2\":"@)) {
                            Some(q4) => match FourVec::parse_json(q4, pt) {
                                Some((v_n2, q5)) => match after(q5, encode_utf8(",\"n3\":"@)) {
                                    Some(q6) => match FourVec::parse_json(q6, pt) {
                                        Some((v_n3, q7)) => match after(q7, encode_utf8("}"@)) {
                                            Some(q8) => Some((FourMat { n0: v_n0, n1: v_n1, n2: v_n2, n3: v_n3 }, q8)),
                                            None => None,
                                        },
                                        None => None,
                                    },
                                    None => None,
                                },
                                None => None,
                            },
                            None => None,
                        },
                        None => None,
                    },
                    None => None,
                },
                None => None,
            },
            None => None,
        }
    }

    fn read_json<'a, P: Fn(Vec<u8>) -> Option<u64>>(b: &'a [u8], read: &P) -> (r: Result<(FourMat, &'a [u8]), CalcifyError>) {
        match strip_lit(b, "{\"n0\":") {
            Some(q0) => match FourVec::read_json(q0, read) {
                Ok((v_n0, q1)) => match strip_lit(q1, ",\"n1\":") {
                    Some(q2) => match FourVec::read_json(q2, read) {
                        Ok((v_n1, q3)) => match strip_lit(q3, ",\"n2\":") {
                            Some(q4) => match FourVec::read_json(q4, read) {
                                Ok((v_n2, q5)) => match strip_lit(q5, ",\"n3\":") {
                                    Some(q6) => match FourVec::read_json(q6, read) {
                                        Ok((v_n3, q7)) => match strip_lit(q7, "}") {
                                            Some(q8) => Ok((FourMat { n0: v_n0, n1: v_n1, n2: v_n2, n3: v_n3 }, q8)),
                                            None => Err(CalcifyError::ParseError),
                                        },
                                        Err(_) => Err(CalcifyError::ParseError),
                                    },
                                    None => Err(CalcifyError::ParseError),
                                },
                                Err(_) => Err(CalcifyError::ParseError),
                            },
                            None => Err(CalcifyError::ParseError),
                        },
                        Err(_) => Err(CalcifyError::ParseError),
                    },
                    None => Err(CalcifyError::ParseError),
                },
                Err(_) => Err(CalcifyError::ParseError),
            },
            None => Err(CalcifyError::ParseError),
        }
    }

    open spec fn parse_msg(b: Seq<u8>) -> Option<(FourMat, Seq<u8>)> {
        match parse_array_len(b) {
            Some((n, r1)) => if n == 4 {
                match FourVec::parse_msg(r1) {
                    Some((w0, q0)) => match FourVec::parse_msg(q0) {
                        Some((w1, q1)) => match FourVec::parse_msg(q1) {
                            Some((w2, q2)) => match FourVec::parse_msg(q2) {
                                Some((w3, q3)) => Some((FourMat { n0: w0, n1: w1, n2: w2, n3: w3 }, q3)),
                                None => None,
                            },
                            None => None,
                        },
                        None => None,
                    },
                    None => None,
                }
            } else {
                None
            },
            None => None,
        }
    }

    #[verifier::spinoff_prover]
    proof fn lemma_msg_round_trip(v: FourMat, rest: Seq<u8>) {
        let t3 = FourVec::msg_of(v.n3) + rest;
        let t2 = FourVec::msg_of(v.n2) + t3;
        let t1 = FourVec::msg_of(v.n1) + t2;
        let t0 = FourVec::msg_of(v.n0) + t1;
        assert(Self::msg_of(v) + rest == array_len_bytes(4) + t0) by {
            assert(Self::msg_of(v) + rest =~= array_len_bytes(4) + t0);
        }
        assert(parse_array_len(array_len_bytes(4) + t0) == Some((4u32, t0))) by {
            lemma_array_len_round_trip(4, t0);
        }
        assert(FourVec::parse_msg(t0) == Some((v.n0, t1))) by {
            FourVec::lemma_msg_round_trip(v.n0, t1);
        }
        assert(FourVec::parse_msg(t1) == Some((v.n1, t2))) by {
            FourVec::lemma_msg_round_trip(v.n1, t2);
        }
        assert(FourVec::parse_msg(t2) == Some((v.n2, t3))) by {
            FourVec::lemma_msg_round_trip(v.n2, t3);
        }
        assert(FourVec::parse_msg(t3) == Some((v.n3, rest))) by {
            FourVec::lemma_msg_round_trip(v.n3, rest);
        }
    }

    fn from_msg<'a>(b: &'a [u8]) -> (r: Result<(FourMat, &'a [u8]), CalcifyError>) {
        match take_array_len(b) {
            Some((n, r1)) => {
                if n != 4 {
                    return Err(CalcifyError::ParseError);
                }
                match FourVec::from_msg(r1) {
                    Ok((w0, q0)) => {
                        match FourVec::from_msg(q0) {
                            Ok((w1, q1)) => {
                                match FourVec::from_msg(q1) {
                                    Ok((w2, q2)) => {
                                        match FourVec::from_msg(q2) {
                                            Ok((w3, q3)) => {
                                                Ok((FourMat { n0: w0, n1: w1, n2: w2, n3: w3 }, q3))
                                            },
                                            Err(e) => Err(e),
                                        }
                                    },
                                    Err(e) => Err(e),
                                }
                            },
                            Err(e) => Err(e),
                        }
                    },
                    Err(e) => Err(e),
                }
            },
            None => Err(CalcifyError::ParseError),
        }
    }
}


/// A bin of a histogram: a histogram is a Collection of Bins.
#[derive(Debug, Clone, Copy, PartialEq, Eq, Structural)]
pub struct Bin {
    /// Inclusive edge.
    pub in_edge: Real,
    /// Exclusive edge.
    pub ex_edge: Real,
    /// Number of entries in the bin.
    pub count: u64,
}

impl View for Bin {
    type V = Bin;

    open spec fn view(&self) -> Bin {
        *self
    }
}

impl Bin {
    /// Returns a new Bin from its edges and its count.
    pub fn new(in_edge: Real, ex_edge: Real, count: u64) -> (r: Bin)
        ensures
            r.in_edge == in_edge,
            r.ex_edge == ex_edge,
            r.count == count,
    {
        Bin { in_edge, ex_edge, count }
    }

    /// The edges in order.
    pub open spec fn edges(self) -> Seq<Real> {
        seq![self.in_edge, self.ex_edge]
    }
}

impl Serializable for Bin {
    open spec fn json_of(v: Bin, ft: spec_fn(u64) -> Seq<char>) -> Seq<char> {
        "{\"count\":"@ + u64::json_of(v.count, ft) + ",\"range\":["@ + Real::json_of(v.in_edge, ft) + ","@ + Real::json_of(v.ex_edge, ft) + "]}"@
    }

    open spec fn msg_of(v: Bin) -> Seq<u8> {
        array_len_bytes(2) + uint_bytes(v.count) + array_len_bytes(2) + reals_bytes(v.edges())
    }

    open spec fn encodable(v: Bin) -> bool {
        true
    }

    fn to_json<F: Fn(u64) -> String>(&self, show: &F) -> (r: String) {
        let mut out = String::from_str("{\"count\":");
        let c = self.count.to_json(show);
        out.append(c.as_str());
        out.append(",\"range\":[");
        let t0 = self.in_edge.to_json(show);
        out.append(t0.as_str());
        out.append(",");
        let t1 = self.ex_edge.to_json(show);
        out.append(t1.as_str());
        out.append("]}");
        assert(out@ =~= Self::json_of(*self, show_fn(*show)));
        out
    }

    fn is_encodable(&self) -> (r: bool) {
        true
    }

    fn duplicate(&self) -> (r: Self) {
        *self
    }

    fn write_msg(&self, buf: &mut Vec<u8>) {
        put_array_len(buf, 2);
        put_uint(buf, self.count);
        put_array_len(buf, 2);
        let xs: Vec<Real> = vec![self.in_edge, self.ex_edge];
        assert(xs@ =~= self.edges());
        put_reals(buf, xs.as_slice());
        assert(final(buf)@ =~= old(buf)@ + Self::msg_of(*self));
    }
}

impl Deserializable for Bin {
    #[verifier::spinoff_prover]
    #[verifier::rlimit(100)]
    proof fn lemma_json_round_trip(v: Bin, rest: Seq<u8>, ft: spec_fn(u64) -> Seq<char>, pt: spec_fn(Seq<u8>) -> Option<u64>) {
        let c0 = "{\"count\":"@;
        let c1 = u64::json_of(v.count, ft);
        let c2 = ",\"range\":["@;
        let c3 = Real::json_of(v.in_edge, ft);
        let c4 = ","@;
        let c5 = Real::json_of(v.ex_edge, ft);
        let c6 = "]}"@;
        let e0 = encode_utf8(c0);
        let e1 = encode_utf8(c1);
        let e2 = encode_utf8(c2);
        let e3 = encode_utf8(c3);
        let e4 = encode_utf8(c4);
        let e5 = encode_utf8(c5);
        let e6 = encode_utf8(c6);
        let t7 = rest;
        let t6 = e6 + t7;
        let t5 = e5 + t6;
        let t4 = e4 + t5;
        let t3 = e3 + t4;
        let t2 = e2 + t3;
        let t1 = e1 + t2;
        let t0 = e0 + t1;
        assert(encode_utf8(Self::json_of(v, ft)) + rest == t0) by {
            lemma_bin_text_bytes(v, rest, ft);
        }
        assert(after(t0, e0) == Some(t1)) by {
            lemma_after_prefix(e0, t1);
        }
        assert(u64::parse_json(t1, pt) == Some((v.count, t2))) by {
            reveal_strlit(",\"range\":[");
            lemma_lit_bytes(c2);
            assert(t2[0] == e2[0]);
            u64::lemma_json_round_trip(v.count, t2, ft, pt);
        }
        assert(after(t2, e2) == Some(t3)) by {
            lemma_after_prefix(e2, t3);
        }
        assert(Real::parse_json(t3, pt) == Some((v.in_edge, t4))) by {
            reveal_strlit(",");
            lemma_lit_bytes(c4);
            assert(t4[0] == e4[0]);
            Real::lemma_json_round_trip(v.in_edge, t4, ft, pt);
        }
        assert(after(t4, e4) == Some(t5)) by {
            lemma_after_prefix(e4, t5);
        }
        assert(Real::parse_json(t5, pt) == Some((v.ex_edge, t6))) by {
            reveal_strlit("]}");
            lemma_lit_bytes(c6);
            assert(t6[0] == e6[0]);
            Real::lemma_json_round_trip(v.ex_edge, t6, ft, pt);
        }
        assert(after(t6, e6) == Some(t7)) by {
            lemma_after_prefix(e6, t7);
        }
        assert(encode_utf8(Self::json_of(v, ft)).len() > 0 && encode_utf8(Self::json_of(v, ft))[0] != 93) by {
            reveal_strlit("{\"count\":");
            lemma_lit_bytes(c0);
            assert(t0[0] == e0[0]);
            assert(encode_utf8(Self::json_of(v, ft)) + rest == t0);
        }
    }

    open spec fn parse_json(b: Seq<u8>, pt: spec_fn(Seq<u8>) -> Option<u64>) -> Option<(Bin, Seq<u8>)> {
        match after(b, encode_utf8("{\"count\":"@)) {
            Some(q0) => match u64::parse_json(q0, pt) {
                Some((v_count, q1)) => match after(q1, encode_utf8(",\"range\":["@)) {
                    Some(q2) => match Real::parse_json(q2, pt) {
                        Some((v_in_edge, q3)) => match after(q3, encode_utf8(","@)) {
                            Some(q4) => match Real::parse_json(q4, pt) {
                                Some((v_ex_edge, q5)) => match after(q5, encode_utf8("]}"@)) {
                                    Some(q6) => Some((Bin { count: v_count, in_edge: v_in_edge, ex_edge: v_ex_edge }, q6)),
                                    None => None,
                                },
                                None => None,
                            },
                            None => None,
                        },
                        None => None,
                    },
                    None => None,
                },
                None => None,
            },
            None => None,
        }
    }

    fn read_json<'a, P: Fn(Vec<u8>) -> Option<u64>>(b: &'a [u8], read: &P) -> (r: Result<(Bin, &'a [u8]), CalcifyError>) {
        match strip_lit(b, "{\"count\":") {
            Some(q0) => match u64::read_json(q0, read) {
                Ok((v_count, q1)) => match strip_lit(q1, ",\"range\":[") {
                    Some(q2) => match Real::read_json(q2, read) {
                        Ok((v_in_edge, q3)) => match strip_lit(q3, ",") {
                            Some(q4) => match Real::read_json(q4, read) {
                                Ok((v_ex_edge, q5)) => match strip_lit(q5, "]}") {
                                    Some(q6) => Ok((Bin { count: v_count, in_edge: v_in_edge, ex_edge: v_ex_edge }, q6)),
                                    None => Err(CalcifyError::ParseError),
                                },
                                Err(_) => Err(CalcifyError::ParseError),
                            },
                            None => Err(CalcifyError::ParseError),
                        },
                        Err(_) => Err(CalcifyError::ParseError),
                    },
                    None => Err(CalcifyError::ParseError),
                },
                Err(_) => Err(CalcifyError::ParseError),
            },
            None => Err(CalcifyError::ParseError),
        }
    }

    open spec fn parse_msg(b: Seq<u8>) -> Option<(Bin, Seq<u8>)> {
        match parse_array_len(b) {
            Some((n, r1)) => if n == 2 {
                match parse_uint(r1) {
                    Some((count, r2)) => match parse_array_len(r2) {
                        Some((m, r3)) => if m == 2 {
                            match parse_reals(r3, 2) {
                                Some((xs, r4)) => Some((Bin { in_edge: xs[0], ex_edge: xs[1], count }, r4)),
                                None => None,
                            }
                        } else {
                            None
                        },
                        None => None,
                    },
                    None => None,
                }
            } else {
                None
            },
            None => None,
        }
    }

    #[verifier::spinoff_prover]
    proof fn lemma_msg_round_trip(v: Bin, rest: Seq<u8>) {
        let xs = v.edges();
        let t3 = reals_bytes(xs) + rest;
        let t2 = array_len_bytes(2) + t3;
        let t1 = uint_bytes(v.count) + t2;
        let b = Self::msg_of(v) + rest;
        assert(b =~= array_len_bytes(2) + t1);
        assert(parse_array_len(b) == Some((2u32, t1))) by {
            lemma_array_len_round_trip(2, t1);
        }
        assert(parse_uint(t1) == Some((v.count, t2))) by {
            lemma_uint_round_trip(v.count, t2);
        }
        assert(parse_array_len(t2) == Some((2u32, t3))) by {
            lemma_array_len_round_trip(2, t3);
        }
        assert(parse_reals(t3, 2) == Some((xs, rest))) by {
            lemma_reals_round_trip(xs, rest);
        }
        assert(Bin { in_edge: xs[0], ex_edge: xs[1], count: v.count } == v);
    }

    fn from_msg<'a>(b: &'a [u8]) -> (r: Result<(Bin, &'a [u8]), CalcifyError>) {
        let (n, r1) = match take_array_len(b) {
            Some(p) => p,
            None => return Err(CalcifyError::ParseError),
        };
        if n != 2 {
            return Err(CalcifyError::ParseError);
        }
        let (count, r2) = match take_uint(r1) {
            Some(p) => p,
            None => return Err(CalcifyError::ParseError),
        };
        let (m, r3) = match take_array_len(r2) {
            Some(p) => p,
            None => return Err(CalcifyError::ParseError),
        };
        if m != 2 {
            return Err(CalcifyError::ParseError);
        }
        match take_reals(r3, 2) {
            Some((xs, r4)) => {
                proof {
                    lemma_parse_reals_len(r3@, 2);
                }
                Ok((Bin { in_edge: xs[0], ex_edge: xs[1], count }, r4))
            },
            None => Err(CalcifyError::ParseError),
        }
    }
}

/// A bin of a two-dimensional histogram: such a histogram is a Collection of PointBins.
#[derive(Debug, Clone, Copy, PartialEq, Eq, Structural)]
pub struct PointBin {
    /// Inclusive edge along the x axis.
    pub in_edge_x: Real,
    /// Exclusive edge along the x axis.
    pub ex_edge_x: Real,
    /// Inclusive edge along the y axis.
    pub in_edge_y: Real,
    /// Exclusive edge along the y axis.
    pub ex_edge_y: Real,
    /// Number of entries in the bin.
    pub count: u64,
}

impl View for PointBin {
    type V = PointBin;

    open spec fn view(&self) -> PointBin {
        *self
    }
}

impl PointBin {
    /// Returns a new PointBin from its edges and its count.
    pub fn new(in_edge_x: Real, ex_edge_x: Real, in_edge_y: Real, ex_edge_y: Real, count: u64) -> (r: PointBin)
        ensures
            r.in_edge_x == in_edge_x,
            r.ex_edge_x == ex_edge_x,
            r.in_edge_y == in_edge_y,
            r.ex_edge_y == ex_edge_y,
            r.count == count,
    {
        PointBin { in_edge_x, ex_edge_x, in_edge_y, ex_edge_y, count }
    }

    /// The edges in order.
    pub open spec fn edges(self) -> Seq<Real> {
        seq![self.in_edge_x, self.ex_edge_x, self.in_edge_y, self.ex_edge_y]
    }
}

impl Serializable for PointBin {
    open spec fn json_of(v: PointBin, ft: spec_fn(u64) -> Seq<char>) -> Seq<char> {
        "{\"count\":"@ + u64::json_of(v.count, ft) + ",\"range\":["@ + Real::json_of(v.in_edge_x, ft) + ","@ + Real::json_of(v.ex_edge_x, ft) + ","@ + Real::json_of(v.in_edge_y, ft) + ","@ + Real::json_of(v.ex_edge_y, ft) + "]}"@
    }

    open spec fn msg_of(v: PointBin) -> Seq<u8> {
        array_len_bytes(2) + uint_bytes(v.count) + array_len_bytes(4) + reals_bytes(v.edges())
    }

    open spec fn encodable(v: PointBin) -> bool {
        true
    }

    fn to_json<F: Fn(u64) -> String>(&self, show: &F) -> (r: String) {
        let mut out = String::from_str("{\"count\":");
        let c = self.count.to_json(show);
        out.append(c.as_str());
        out.append(",\"range\":[");
        let t0 = self.in_edge_x.to_json(show);
        out.append(t0.as_str());
        out.append(",");
        let t1 = self.ex_edge_x.to_json(show);
        out.append(t1.as_str());
        out.append(",");
        let t2 = self.in_edge_y.to_json(show);
        out.append(t2.as_str());
        out.append(",");
        let t3 = self.ex_edge_y.to_json(show);
        out.append(t3.as_str());
        out.append("]}");
        assert(out@ =~= Self::json_of(*self, show_fn(*show)));
        out
    }

    fn is_encodable(&self) -> (r: bool) {
        true
    }

    fn duplicate(&self) -> (r: Self) {
        *self
    }

    fn write_msg(&self, buf: &mut Vec<u8>) {
        put_array_len(buf, 2);
        put_uint(buf, self.count);
        put_array_len(buf, 4);
        let xs: Vec<Real> = vec![self.in_edge_x, self.ex_edge_x, self.in_edge_y, self.ex_edge_y];
        assert(xs@ =~= self.edges());
        put_reals(buf, xs.as_slice());
        assert(final(buf)@ =~= old(buf)@ + Self::msg_of(*self));
    }
}

impl Deserializable for PointBin {
    #[verifier::spinoff_prover]
    #[verifier::rlimit(100)]
    proof fn lemma_json_round_trip(v: PointBin, rest: Seq<u8>, ft: spec_fn(u64) -> Seq<char>, pt: spec_fn(Seq<u8>) -> Option<u64>) {
        let c0 = "{\"count\":"@;
        let c1 = u64::json_of(v.count, ft);
        let c2 = ",\"range\":["@;
        let c3 = Real::json_of(v.in_edge_x, ft);
        let c4 = ","@;
        let c5 = Real::json_of(v.ex_edge_x, ft);
        let c6 = ","@;
        let c7 = Real::json_of(v.in_edge_y, ft);
        let c8 = ","@;
        let c9 = Real::json_of(v.ex_edge_y, ft);
        let c10 = "]}"@;
        let e0 = encode_utf8(c0);
        let e1 = encode_utf8(c1);
        let e2 = encode_utf8(c2);
        let e3 = encode_utf8(c3);
        let e4 = encode_utf8(c4);
        let e5 = encode_utf8(c5);
        let e6 = encode_utf8(c6);
        let e7 = encode_utf8(c7);
        let e8 = encode_utf8(c8);
        let e9 = encode_utf8(c9);
        let e10 = encode_utf8(c10);
        let t11 = rest;
        let t10 = e10 + t11;
        let t9 = e9 + t10;
        let t8 = e8 + t9;
        let t7 = e7 + t8;
        let t6 = e6 + t7;
        let t5 = e5 + t6;
        let t4 = e4 + t5;
        let t3 = e3 + t4;
        let t2 = e2 + t3;
        let t1 = e1 + t2;
        let t0 = e0 + t1;
        assert(encode_utf8(Self::json_of(v, ft)) + rest == t0) by {
            lemma_point_bin_text_bytes(v, rest, ft);
        }
        assert(after(t0, e0) == Some(t1)) by {
            lemma_after_prefix(e0, t1);
        }
        assert(u64::parse_json(t1, pt) == Some((v.count, t2))) by {
            reveal_strlit(",\"range\":[");
            lemma_lit_bytes(c2);
            assert(t2[0] == e2[0]);
            u64::lemma_json_round_trip(v.count, t2, ft, pt);
        }
        assert(after(t2, e2) == Some(t3)) by {
            lemma_after_prefix(e2, t3);
        }
        assert(Real::parse_json(t3, pt) == Some((v.in_edge_x, t4))) by {
            reveal_strlit(",");
            lemma_lit_bytes(c4);
            assert(t4[0] == e4[0]);
            Real::lemma_json_round_trip(v.in_edge_x, t4, ft, pt);
        }
        assert(after(t4, e4) == Some(t5)) by {
            lemma_after_prefix(e4, t5);
        }
        assert(Real::parse_json(t5, pt) == Some((v.ex_edge_x, t6))) by {
            reveal_strlit(",");
            lemma_lit_bytes(c6);
            assert(t6[0] == e6[0]);
            Real::lemma_json_round_trip(v.ex_edge_x, t6, ft, pt);
        }
        assert(after(t6, e6) == Some(t7)) by {
            lemma_after_prefix(e6, t7);
        }
        assert(Real::parse_json(t7, pt) == Some((v.in_edge_y, t8))) by {
            reveal_strlit(",");
            lemma_lit_bytes(c8);
            assert(t8[0] == e8[0]);
            Real::lemma_json_round_trip(v.in_edge_y, t8, ft, pt);
        }
        assert(after(t8, e8) == Some(t9)) by {
            lemma_after_prefix(e8, t9);
        }
        assert(Real::parse_json(t9, pt) == Some((v.ex_edge_y, t10))) by {
            reveal_strlit("]}");
            lemma_lit_bytes(c10);
            assert(t10[0] == e10[0]);
            Real::lemma_json_round_trip(v.ex_edge_y, t10, ft, pt);
        }
        assert(after(t10, e10) == Some(t11)) by {
            lemma_after_prefix(e10, t11);
        }
        assert(encode_utf8(Self::json_of(v, ft)).len() > 0 && encode_utf8(Self::json_of(v, ft))[0] != 93) by {
            reveal_strlit("{\"count\":");
            lemma_lit_bytes(c0);
            assert(t0[0] == e0[0]);
            assert(encode_utf8(Self::json_of(v, ft)) + rest == t0);
        }
    }

    open spec fn parse_json(b: Seq<u8>, pt: spec_fn(Seq<u8>) -> Option<u64>) -> Option<(PointBin, Seq<u8>)> {
        match after(b, encode_utf8("{\"count\":"@)) {
            Some(q0) => match u64::parse_json(q0, pt) {
                Some((v_count, q1)) => match after(q1, encode_utf8(",\"range\":["@)) {
                    Some(q2) => match Real::parse_json(q2, pt) {
                        Some((v_in_edge_x, q3)) => match after(q3, encode_utf8(","@)) {
                            Some(q4) => match Real::parse_json(q4, pt) {
                                Some((v_ex_edge_x, q5)) => match after(q5, encode_utf8(","@)) {
                                    Some(q6) => match Real::parse_json(q6, pt) {
                                        Some((v_in_edge_y, q7)) => match after(q7, encode_utf8(","@)) {
                                            Some(q8) => match Real::parse_json(q8, pt) {
                                                Some((v_ex_edge_y, q9)) => match after(q9, encode_utf8("]}"@)) {
                                                    Some(q10) => Some((PointBin { count: v_count, in_edge_x: v_in_edge_x, ex_edge_x: v_ex_edge_x, in_edge_y: v_in_edge_y, ex_edge_y: v_ex_edge_y }, q10)),
                                                    None => None,
                                                },
                                                None => None,
                                            },
                                            None => None,
                                        },
                                        None => None,
                                    },
                                    None => None,
                                },
                                None => None,
                            },
                            None => None,
                        },
                        None => None,
                    },
                    None => None,
                },
                None => None,
            },
            None => None,
        }
    }

    fn read_json<'a, P: Fn(Vec<u8>) -> Option<u64>>(b: &'a [u8], read: &P) -> (r: Result<(PointBin, &'a [u8]), CalcifyError>) {
        match strip_lit(b, "{\"count\":") {
            Some(q0) => match u64::read_json(q0, read) {
                Ok((v_count, q1)) => match strip_lit(q1, ",\"range\":[") {
                    Some(q2) => match Real::read_json(q2, read) {
                        Ok((v_in_edge_x, q3)) => match strip_lit(q3, ",") {
                            Some(q4) => match Real::read_json(q4, read) {
                                Ok((v_ex_edge_x, q5)) => match strip_lit(q5, ",") {
                                    Some(q6) => match Real::read_json(q6, read) {
                                        Ok((v_in_edge_y, q7)) => match strip_lit(q7, ",") {
                                            Some(q8) => match Real::read_json(q8, read) {
                                                Ok((v_ex_edge_y, q9)) => match strip_lit(q9, "]}") {
                                                    Some(q10) => Ok((PointBin { count: v_count, in_edge_x: v_in_edge_x, ex_edge_x: v_ex_edge_x, in_edge_y: v_in_edge_y, ex_edge_y: v_ex_edge_y }, q10)),
                                                    None => Err(CalcifyError::ParseError),
                                                },
                                                Err(_) => Err(CalcifyError::ParseError),
                                            },
                                            None => Err(CalcifyError::ParseError),
                                        },
                                        Err(_) => Err(CalcifyError::ParseError),
                                    },
                                    None => Err(CalcifyError::ParseError),
                                },
                                Err(_) => Err(CalcifyError::ParseError),
                            },
                            None => Err(CalcifyError::ParseError),
                        },
                        Err(_) => Err(CalcifyError::ParseError),
                    },
                    None => Err(CalcifyError::ParseError),
                },
                Err(_) => Err(CalcifyError::ParseError),
            },
            None => Err(CalcifyError::ParseError),
        }
    }

    open spec fn parse_msg(b: Seq<u8>) -> Option<(PointBin, Seq<u8>)> {
        match parse_array_len(b) {
            Some((n, r1)) => if n == 2 {
                match parse_uint(r1) {
                    Some((count, r2)) => match parse_array_len(r2) {
                        Some((m, r3)) => if m == 4 {
                            match parse_reals(r3, 4) {
                                Some((xs, r4)) => Some((PointBin { in_edge_x: xs[0], ex_edge_x: xs[1], in_edge_y: xs[2], ex_edge_y: xs[3], count }, r4)),
                                None => None,
                            }
                        } else {
                            None
                        },
                        None => None,
                    },
                    None => None,
                }
            } else {
                None
            },
            None => None,
        }
    }

    #[verifier::spinoff_prover]
    proof fn lemma_msg_round_trip(v: PointBin, rest: Seq<u8>) {
        let xs = v.edges();
        let t3 = reals_bytes(xs) + rest;
        let t2 = array_len_bytes(4) + t3;
        let t1 = uint_bytes(v.count) + t2;
        let b = Self::msg_of(v) + rest;
        assert(b =~= array_len_bytes(2) + t1);
        assert(parse_array_len(b) == Some((2u32, t1))) by {
            lemma_array_len_round_trip(2, t1);
        }
        assert(parse_uint(t1) == Some((v.count, t2))) by {
            lemma_uint_round_trip(v.count, t2);
        }
        assert(parse_array_len(t2) == Some((4u32, t3))) by {
            lemma_array_len_round_trip(4, t3);
        }
        assert(parse_reals(t3, 4) == Some((xs, rest))) by {
            lemma_reals_round_trip(xs, rest);
        }
        assert(PointBin { in_edge_x: xs[0], ex_edge_x: xs[1], in_edge_y: xs[2], ex_edge_y: xs[3], count: v.count } == v);
    }

    fn from_msg<'a>(b: &'a [u8]) -> (r: Result<(PointBin, &'a [u8]), CalcifyError>) {
        let (n, r1) = match take_array_len(b) {
            Some(p) => p,
            None => return Err(CalcifyError::ParseError),
        };
        if n != 2 {
            return Err(CalcifyError::ParseError);
        }
        let (count, r2) = match take_uint(r1) {
            Some(p) => p,
            None => return Err(CalcifyError::ParseError),
        };
        let (m, r3) = match take_array_len(r2) {
            Some(p) => p,
            None => return Err(CalcifyError::ParseError),
        };
        if m != 4 {
            return Err(CalcifyError::ParseError);
        }
        match take_reals(r3, 4) {
            Some((xs, r4)) => {
                proof {
                    lemma_parse_reals_len(r3@, 4);
                }
                Ok((PointBin { in_edge_x: xs[0], ex_edge_x: xs[1], in_edge_y: xs[2], ex_edge_y: xs[3], count }, r4))
            },
            None => Err(CalcifyError::ParseError),
        }
    }
}


#[verifier::spinoff_prover]
proof fn lemma_point_text_bytes(v: Point, rest: Seq<u8>, ft: spec_fn(u64) -> Seq<char>)
    ensures
        encode_utf8(Point::json_of(v, ft)) + rest == encode_utf8("{\"x\":"@) + (encode_utf8(Real::json_of(v.x, ft)) + (encode_utf8(",\"y\":"@) + (encode_utf8(Real::json_of(v.y, ft)) + (encode_utf8("}"@) + rest)))),
{
    let c0 = "{\"x\":"@;
    let c1 = Real::json_of(v.x, ft);
    let c2 = ",\"y\":"@;
    let c3 = Real::json_of(v.y, ft);
    let c4 = "}"@;
    let t5 = rest;
    let t4 = encode_utf8(c4) + t5;
    let t3 = encode_utf8(c3) + t4;
    let t2 = encode_utf8(c2) + t3;
    let t1 = encode_utf8(c1) + t2;
    let t0 = encode_utf8(c0) + t1;
    let s0 = c0;
    let s1 = s0 + c1;
    lemma_utf8_step(s0, c1, t2, t0);
    let s2 = s1 + c2;
    lemma_utf8_step(s1, c2, t3, t0);
    let s3 = s2 + c3;
    lemma_utf8_step(s2, c3, t4, t0);
    let s4 = s3 + c4;
    lemma_utf8_step(s3, c4, t5, t0);
    assert(Point::json_of(v, ft) == s4);
}

#[verifier::spinoff_prover]
proof fn lemma_three_vec_text_bytes(v: ThreeVec, rest: Seq<u8>, ft: spec_fn(u64) -> Seq<char>)
    ensures
        encode_utf8(ThreeVec::json_of(v, ft)) + rest == encode_utf8("{\"x0\":"@) + (encode_utf8(Real::json_of(v.x0, ft)) + (encode_utf8(",\"x1\":"@) + (encode_utf8(Real::json_of(v.x1, ft)) + (encode_utf8(",\"x2\":"@) + (encode_utf8(Real::json_of(v.x2, ft)) + (encode_utf8("}"@) + rest)))))),
{
    let c0 = "{\"x0\":"@;
    let c1 = Real::json_of(v.x0, ft);
    let c2 = ",\"x1\":"@;
    let c3 = Real::json_of(v.x1, ft);
    let c4 = ",\"x2\":"@;
    let c5 = Real::json_of(v.x2, ft);
    let c6 = "}"@;
    let t7 = rest;
    let t6 = encode_utf8(c6) + t7;
    let t5 = encode_utf8(c5) + t6;
    let t4 = encode_utf8(c4) + t5;
    let t3 = encode_utf8(c3) + t4;
    let t2 = encode_utf8(c2) + t3;
    let t1 = encode_utf8(c1) + t2;
    let t0 = encode_utf8(c0) + t1;
    let s0 = c0;
    let s1 = s0 + c1;
    lemma_utf8_step(s0, c1, t2, t0);
    let s2 = s1 + c2;
    lemma_utf8_step(s1, c2, t3, t0);
    let s3 = s2 + c3;
    lemma_utf8_step(s2, c3, t4, t0);
    let s4 = s3 + c4;
    lemma_utf8_step(s3, c4, t5, t0);
    let s5 = s4 + c5;
    lemma_utf8_step(s4, c5, t6, t0);
    let s6 = s5 + c6;
    lemma_utf8_step(s5, c6, t7, t0);
    assert(ThreeVec::json_of(v, ft) == s6);
}

#[verifier::spinoff_prover]
proof fn lemma_four_vec_text_bytes(v: FourVec, rest: Seq<u8>, ft: spec_fn(u64) -> Seq<char>)
    ensures
        encode_utf8(FourVec::json_of(v, ft)) + rest == encode_utf8("{\"m0\":"@) + (encode_utf8(Real::json_of(v.m0, ft)) + (encode_utf8(",\"m1\":"@) + (encode_utf8(Real::json_of(v.m1, ft)) + (encode_utf8(",\"m2\":"@) + (encode_utf8(Real::json_of(v.m2, ft)) + (encode_utf8(",\"m3\":"@) + (encode_utf8(Real::json_of(v.m3, ft)) + (encode_utf8("}"@) + rest)))))))),
{
    let c0 = "{\"m0\":"@;
    let c1 = Real::json_of(v.m0, ft);
    let c2 = ",\"m1\":"@;
    let c3 = Real::json_of(v.m1, ft);
    let c4 = ",\"m2\":"@;
    let c5 = Real::json_of(v.m2, ft);
    let c6 = ",\"m3\":"@;
    let c7 = Real::json_of(v.m3, ft);
    let c8 = "}"@;
    let t9 = rest;
    let t8 = encode_utf8(c8) + t9;
    let t7 = encode_utf8(c7) + t8;
    let t6 = encode_utf8(c6) + t7;
    let t5 = encode_utf8(c5) + t6;
    let t4 = encode_utf8(c4) + t5;
    let t3 = encode_utf8(c3) + t4;
    let t2 = encode_utf8(c2) + t3;
    let t1 = encode_utf8(c1) + t2;
    let t0 = encode_utf8(c0) + t1;
    let s0 = c0;
    let s1 = s0 + c1;
    lemma_utf8_step(s0, c1, t2, t0);
    let s2 = s1 + c2;
    lemma_utf8_step(s1, c2, t3, t0);
    let s3 = s2 + c3;
    lemma_utf8_step(s2, c3, t4, t0);
    let s4 = s3 + c4;
    lemma_utf8_step(s3, c4, t5, t0);
    let s5 = s4 + c5;
    lemma_utf8_step(s4, c5, t6, t0);
    let s6 = s5 + c6;
    lemma_utf8_step(s5, c6, t7, t0);
    let s7 = s6 + c7;
    lemma_utf8_step(s6, c7, t8, t0);
    let s8 = s7 + c8;
    lemma_utf8_step(s7, c8, t9, t0);
    assert(FourVec::json_of(v, ft) == s8);
}

#[verifier::spinoff_prover]
proof fn lemma_three_mat_text_bytes(v: ThreeMat, rest: Seq<u8>, ft: spec_fn(u64) -> Seq<char>)
    ensures
        encode_utf8(ThreeMat::json_of(v, ft)) + rest == encode_utf8("{\"r0\":"@) + (encode_utf8(ThreeVec::json_of(v.r0, ft)) + (encode_utf8(",\"r1\":"@) + (encode_utf8(ThreeVec::json_of(v.r1, ft)) + (encode_utf8(",\"r2\":"@) + (encode_utf8(ThreeVec::json_of(v.r2, ft)) + (encode_utf8("}"@) + rest)))))),
{
    let c0 = "{\"r0\":"@;
    let c1 = ThreeVec::json_of(v.r0, ft);
    let c2 = ",\"r1\":"@;
    let c3 = ThreeVec::json_of(v.r1, ft);
    let c4 = ",\"r2\":"@;
    let c5 = ThreeVec::json_of(v.r2, ft);
    let c6 = "}"@;
    let t7 = rest;
    let t6 = encode_utf8(c6) + t7;
    let t5 = encode_utf8(c5) + t6;
    let t4 = encode_utf8(c4) + t5;
    let t3 = encode_utf8(c3) + t4;
    let t2 = encode_utf8(c2) + t3;
    let t1 = encode_utf8(c1) + t2;
    let t0 = encode_utf8(c0) + t1;
    let s0 = c0;
    let s1 = s0 + c1;
    lemma_utf8_step(s0, c1, t2, t0);
    let s2 = s1 + c2;
    lemma_utf8_step(s1, c2, t3, t0);
    let s3 = s2 + c3;
    lemma_utf8_step(s2, c3, t4, t0);
    let s4 = s3 + c4;
    lemma_utf8_step(s3, c4, t5, t0);
    let s5 = s4 + c5;
    lemma_utf8_step(s4, c5, t6, t0);
    let s6 = s5 + c6;
    lemma_utf8_step(s5, c6, t7, t0);
    assert(ThreeMat::json_of(v, ft) == s6);
}

#[verifier::spinoff_prover]
proof fn lemma_four_mat_text_bytes(v: FourMat, rest: Seq<u8>, ft: spec_fn(u64) -> Seq<char>)
    ensures
        encode_utf8(FourMat::json_of(v, ft)) + rest == encode_utf8("{\"n0\":"@) + (encode_utf8(FourVec::json_of(v.n0, ft)) + (encode_utf8(",\"n1\":"@) + (encode_utf8(FourVec::json_of(v.n1, ft)) + (encode_utf8(",\"n2\":"@) + (encode_utf8(FourVec::json_of(v.n2, ft)) + (encode_utf8(",\"n3\":"@) + (encode_utf8(FourVec::json_of(v.n3, ft)) + (encode_utf8("}"@) + rest)))))))),
{
    let c0 = "{\"n0\":"@;
    let c1 = FourVec::json_of(v.n0, ft);
    let c2 = ",\"n1\":"@;
    let c3 = FourVec::json_of(v.n1, ft);
    let c4 = ",\"n2\":"@;
    let c5 = FourVec::json_of(v.n2, ft);
    let c6 = ",\"n3\":"@;
    let c7 = FourVec::json_of(v.n3, ft);
    let c8 = "}"@;
    let t9 = rest;
    let t8 = encode_utf8(c8) + t9;
    let t7 = encode_utf8(c7) + t8;
    let t6 = encode_utf8(c6) + t7;
    let t5 = encode_utf8(c5) + t6;
    let t4 = encode_utf8(c4) + t5;
    let t3 = encode_utf8(c3) + t4;
    let t2 = encode_utf8(c2) + t3;
    let t1 = encode_utf8(c1) + t2;
    let t0 = encode_utf8(c0) + t1;
    let s0 = c0;
    let s1 = s0 + c1;
    lemma_utf8_step(s0, c1, t2, t0);
    let s2 = s1 + c2;
    lemma_utf8_step(s1, c2, t3, t0);
    let s3 = s2 + c3;
    lemma_utf8_step(s2, c3, t4, t0);
    let s4 = s3 + c4;
    lemma_utf8_step(s3, c4, t5, t0);
    let s5 = s4 + c5;
    lemma_utf8_step(s4, c5, t6, t0);
    let s6 = s5 + c6;
    lemma_utf8_step(s5, c6, t7, t0);
    let s7 = s6 + c7;
    lemma_utf8_step(s6, c7, t8, t0);
    let s8 = s7 + c8;
    lemma_utf8_step(s7, c8, t9, t0);
    assert(FourMat::json_of(v, ft) == s8);
}

#[verifier::spinoff_prover]
proof fn lemma_bin_text_bytes(v: Bin, rest: Seq<u8>, ft: spec_fn(u64) -> Seq<char>)
    ensures
        encode_utf8(Bin::json_of(v, ft)) + rest == encode_utf8("{\"count\":"@) + (encode_utf8(u64::json_of(v.count, ft)) + (encode_utf8(",\"range\":["@) + (encode_utf8(Real::json_of(v.in_edge, ft)) + (encode_utf8(","@) + (encode_utf8(Real::json_of(v.ex_edge, ft)) + (encode_utf8("]}"@) + rest)))))),
{
    let c0 = "{\"count\":"@;
    let c1 = u64::json_of(v.count, ft);
    let c2 = ",\"range\":["@;
    let c3 = Real::json_of(v.in_edge, ft);
    let c4 = ","@;
    let c5 = Real::json_of(v.ex_edge, ft);
    let c6 = "]}"@;
    let t7 = rest;
    let t6 = encode_utf8(c6) + t7;
    let t5 = encode_utf8(c5) + t6;
    let t4 = encode_utf8(c4) + t5;
    let t3 = encode_utf8(c3) + t4;
    let t2 = encode_utf8(c2) + t3;
    let t1 = encode_utf8(c1) + t2;
    let t0 = encode_utf8(c0) + t1;
    let s0 = c0;
    let s1 = s0 + c1;
    lemma_utf8_step(s0, c1, t2, t0);
    let s2 = s1 + c2;
    lemma_utf8_step(s1, c2, t3, t0);
    let s3 = s2 + c3;
    lemma_utf8_step(s2, c3, t4, t0);
    let s4 = s3 + c4;
    lemma_utf8_step(s3, c4, t5, t0);
    let s5 = s4 + c5;
    lemma_utf8_step(s4, c5, t6, t0);
    let s6 = s5 + c6;
    lemma_utf8_step(s5, c6, t7, t0);
    assert(Bin::json_of(v, ft) == s6);
}

#[verifier::spinoff_prover]
proof fn lemma_point_bin_text_bytes(v: PointBin, rest: Seq<u8>, ft: spec_fn(u64) -> Seq<char>)
    ensures
        encode_utf8(PointBin::json_of(v, ft)) + rest == encode_utf8("{\"count\":"@) + (encode_utf8(u64::json_of(v.count, ft)) + (encode_utf8(",\"range\":["@) + (encode_utf8(Real::json_of(v.in_edge_x, ft)) + (encode_utf8(","@) + (encode_utf8(Real::json_of(v.ex_edge_x, ft)) + (encode_utf8(","@) + (encode_utf8(Real::json_of(v.in_edge_y, ft)) + (encode_utf8(","@) + (encode_utf8(Real::json_of(v.ex_edge_y, ft)) + (encode_utf8("]}"@) + rest)))))))))),
{
    let c0 = "{\"count\":"@;
    let c1 = u64::json_of(v.count, ft);
    let c2 = ",\"range\":["@;
    let c3 = Real::json_of(v.in_edge_x, ft);
    let c4 = ","@;
    let c5 = Real::json_of(v.ex_edge_x, ft);
    let c6 = ","@;
    let c7 = Real::json_of(v.in_edge_y, ft);
    let c8 = ","@;
    let c9 = Real::json_of(v.ex_edge_y, ft);
    let c10 = "]}"@;
    let t11 = rest;
    let t10 = encode_utf8(c10) + t11;
    let t9 = encode_utf8(c9) + t10;
    let t8 = encode_utf8(c8) + t9;
    let t7 = encode_utf8(c7) + t8;
    let t6 = encode_utf8(c6) + t7;
    let t5 = encode_utf8(c5) + t6;
    let t4 = encode_utf8(c4) + t5;
    let t3 = encode_utf8(c3) + t4;
    let t2 = encode_utf8(c2) + t3;
    let t1 = encode_utf8(c1) + t2;
    let t0 = encode_utf8(c0) + t1;
    let s0 = c0;
    let s1 = s0 + c1;
    lemma_utf8_step(s0, c1, t2, t0);
    let s2 = s1 + c2;
    lemma_utf8_step(s1, c2, t3, t0);
    let s3 = s2 + c3;
    lemma_utf8_step(s2, c3, t4, t0);
    let s4 = s3 + c4;
    lemma_utf8_step(s3, c4, t5, t0);
    let s5 = s4 + c5;
    lemma_utf8_step(s4, c5, t6, t0);
    let s6 = s5 + c6;
    lemma_utf8_step(s5, c6, t7, t0);
    let s7 = s6 + c7;
    lemma_utf8_step(s6, c7, t8, t0);
    let s8 = s7 + c8;
    lemma_utf8_step(s7, c8, t9, t0);
    let s9 = s8 + c9;
    lemma_utf8_step(s8, c9, t10, t0);
    let s10 = s9 + c10;
    lemma_utf8_step(s9, c10, t11, t0);
    assert(PointBin::json_of(v, ft) == s10);
}

} // verus!
