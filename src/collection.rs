//! An ordered, homogeneous sequence of records, with its text and binary forms.
use vstd::prelude::*;
use vstd::string::StringExecFns;
use crate::codec::{
    float_text_ok, lemma_lit_bytes, read_fn, read_ok, show_fn, show_ok, Deserializable, Serializable,
};
use vstd::utf8::encode_utf8;
use crate::errors::CalcifyError;
use crate::text::{after, lemma_after_prefix, lemma_not_after, lemma_utf8_concat, strip_lit};
use crate::msgpack::{array_len_bytes, lemma_array_len_round_trip, parse_array_len, put_array_len, take_array_len};

verus! {

/// An ordered sequence of records of one type.
#[derive(Debug, Clone, PartialEq)]
pub struct Collection<T> {
    pub vec: Vec<T>,
}

impl<T: View> View for Collection<T> {
    type V = Seq<T::V>;

    open spec fn view(&self) -> Seq<T::V> {
        self.vec@.map_values(|x: T| x@)
    }
}

/// The binary forms of the records of `s`, one after another.
pub open spec fn msgs_of<T: Serializable>(s: Seq<T::V>) -> Seq<u8>
    decreases s.len(),
{
    if s.len() == 0 {
        Seq::empty()
    } else {
        msgs_of::<T>(s.drop_last()) + T::msg_of(s.last())
    }
}

/// The text forms of the records of `s`, separated by commas.
pub open spec fn jsons_of<T: Serializable>(s: Seq<T::V>, ft: spec_fn(u64) -> Seq<char>) -> Seq<char>
    decreases s.len(),
{
    if s.len() == 0 {
        Seq::empty()
    } else if s.len() == 1 {
        T::json_of(s[0], ft)
    } else {
        jsons_of::<T>(s.drop_last(), ft) + ","@ + T::json_of(s.last(), ft)
    }
}

/// Reads `n` records one after another.
pub open spec fn parse_many<T: Deserializable>(b: Seq<u8>, n: nat) -> Option<(Seq<T::V>, Seq<u8>)>
    decreases n,
{
    if n == 0 {
        Some((Seq::empty(), b))
    } else {
        match T::parse_msg(b) {
            Some((x, r1)) => match parse_many::<T>(r1, (n - 1) as nat) {
                Some((xs, r2)) => Some((seq![x] + xs, r2)),
                None => None,
            },
            None => None,
        }
    }
}

/// Reads records of text form separated by commas, up to the closing bracket;
/// `fuel` bounds their number.
pub open spec fn parse_items<T: Deserializable>(b: Seq<u8>, fuel: nat, pt: spec_fn(Seq<u8>) -> Option<u64>) -> Option<(Seq<T::V>, Seq<u8>)>
    decreases fuel,
{
    if fuel == 0 {
        None
    } else {
        match T::parse_json(b, pt) {
            Some((x, r1)) => match after(r1, encode_utf8("]"@)) {
                Some(r2) => Some((seq![x], r2)),
                None => match after(r1, encode_utf8(","@)) {
                    Some(r2) => match parse_items::<T>(r2, (fuel - 1) as nat, pt) {
                        Some((xs, r3)) => Some((seq![x] + xs, r3)),
                        None => None,
                    },
                    None => None,
                },
            },
            None => None,
        }
    }
}

/// Puts `pre` in front of the records that a parse found.
pub open spec fn prepend<V>(pre: Seq<V>, p: Option<(Seq<V>, Seq<u8>)>) -> Option<(Seq<V>, Seq<u8>)> {
    match p {
        Some((xs, r)) => Some((pre + xs, r)),
        None => None,
    }
}

#[verifier::spinoff_prover]
proof fn lemma_msgs_prepend<T: Serializable>(x: T::V, s: Seq<T::V>)
    ensures
        msgs_of::<T>(seq![x] + s) == T::msg_of(x) + msgs_of::<T>(s),
    decreases s.len(),
{
    let xs = seq![x] + s;
    if s.len() == 0 {
        assert(xs.drop_last() =~= Seq::<T::V>::empty());
        assert(xs.last() == x);
        assert(msgs_of::<T>(xs.drop_last()) == Seq::<u8>::empty());
        assert(msgs_of::<T>(s) == Seq::<u8>::empty());
        assert(msgs_of::<T>(xs) =~= T::msg_of(x) + msgs_of::<T>(s));
    } else {
        lemma_msgs_prepend::<T>(x, s.drop_last());
        assert(xs.drop_last() =~= seq![x] + s.drop_last());
        assert(xs.last() == s.last());
        assert(msgs_of::<T>(xs) == msgs_of::<T>(seq![x] + s.drop_last()) + T::msg_of(s.last()));
        assert(msgs_of::<T>(s) == msgs_of::<T>(s.drop_last()) + T::msg_of(s.last()));
        assert(msgs_of::<T>(xs) =~= T::msg_of(x) + msgs_of::<T>(s));
    }
}

#[verifier::spinoff_prover]
proof fn lemma_many_round_trip<T: Deserializable>(s: Seq<T::V>, rest: Seq<u8>)
    requires
        forall|i: int| 0 <= i < s.len() ==> T::encodable(#[trigger] s[i]),
    ensures
        parse_many::<T>(msgs_of::<T>(s) + rest, s.len()) == Some((s, rest)),
    decreases s.len(),
{
    if s.len() == 0 {
        assert(msgs_of::<T>(s) + rest =~= rest);
        assert(s =~= Seq::<T::V>::empty());
    } else {
        let tail = s.drop_first();
        assert(s =~= seq![s[0]] + tail);
        lemma_msgs_prepend::<T>(s[0], tail);
        lemma_many_round_trip::<T>(tail, rest);
        T::lemma_msg_round_trip(s[0], msgs_of::<T>(tail) + rest);
        assert(msgs_of::<T>(s) + rest =~= T::msg_of(s[0]) + (msgs_of::<T>(tail) + rest));
    }
}

#[verifier::spinoff_prover]
proof fn lemma_jsons_prepend<T: Serializable>(x: T::V, s: Seq<T::V>, ft: spec_fn(u64) -> Seq<char>)
    requires
        s.len() > 0,
    ensures
        jsons_of::<T>(seq![x] + s, ft) == T::json_of(x, ft) + ","@ + jsons_of::<T>(s, ft),
    decreases s.len(),
{
    let xs = seq![x] + s;
    if s.len() == 1 {
        assert(xs.drop_last() =~= seq![x]);
        assert(jsons_of::<T>(seq![x], ft) == T::json_of(x, ft));
        assert(xs.last() == s[0]);
        assert(jsons_of::<T>(s, ft) == T::json_of(s[0], ft));
    } else {
        lemma_jsons_prepend::<T>(x, s.drop_last(), ft);
        assert(xs.drop_last() =~= seq![x] + s.drop_last());
        assert(xs.last() == s.last());
        assert(jsons_of::<T>(xs, ft) =~= T::json_of(x, ft) + ","@ + jsons_of::<T>(s, ft));
    }
}

#[verifier::spinoff_prover]
proof fn lemma_items_round_trip<T: Deserializable>(s: Seq<T::V>, rest: Seq<u8>, fuel: nat, ft: spec_fn(u64) -> Seq<char>, pt: spec_fn(Seq<u8>) -> Option<u64>)
    requires
        float_text_ok(ft, pt),
        s.len() > 0,
        fuel >= s.len(),
    ensures
        parse_items::<T>(encode_utf8(jsons_of::<T>(s, ft)) + (encode_utf8("]"@) + rest), fuel, pt) == Some((s, rest)),
        encode_utf8(jsons_of::<T>(s, ft)).len() >= s.len(),
        encode_utf8(jsons_of::<T>(s, ft))[0] != 93,
    decreases s.len(),
{
    reveal_strlit("]");
    reveal_strlit(",");
    lemma_lit_bytes("]"@);
    lemma_lit_bytes(","@);
    let rb = encode_utf8("]"@);
    let cm = encode_utf8(","@);
    let x = s[0];
    if s.len() == 1 {
        assert(jsons_of::<T>(s, ft) == T::json_of(x, ft));
        T::lemma_json_round_trip(x, rb + rest, ft, pt);
        lemma_after_prefix(rb, rest);
        assert(seq![x] =~= s);
    } else {
        let tl = s.drop_first();
        assert(s =~= seq![x] + tl);
        lemma_jsons_prepend::<T>(x, tl, ft);
        lemma_items_round_trip::<T>(tl, rest, (fuel - 1) as nat, ft, pt);
        let ex = encode_utf8(T::json_of(x, ft));
        let et = encode_utf8(jsons_of::<T>(tl, ft));
        lemma_utf8_concat(T::json_of(x, ft) + ","@, jsons_of::<T>(tl, ft));
        lemma_utf8_concat(T::json_of(x, ft), ","@);
        assert(encode_utf8(jsons_of::<T>(s, ft)) =~= ex + cm + et);
        let after_x = cm + (et + (rb + rest));
        assert(encode_utf8(jsons_of::<T>(s, ft)) + (rb + rest) =~= ex + after_x);
        T::lemma_json_round_trip(x, after_x, ft, pt);
        assert(after_x[0] == 44);
        lemma_not_after(after_x, rb);
        lemma_after_prefix(cm, et + (rb + rest));
        assert(seq![x] + tl =~= s);
    }
}

impl<T: Serializable> Collection<T> {
    /// Whether the records fit their headers and the count fits an array header.
    pub open spec fn fits(s: Seq<T::V>) -> bool {
        &&& s.len() <= u32::MAX
        &&& forall|i: int| 0 <= i < s.len() ==> T::encodable(#[trigger] s[i])
    }

    /// Returns an empty Collection.
    pub fn empty() -> (r: Collection<T>)
        ensures
            r@ == Seq::<T::V>::empty(),
    {
        let r = Collection { vec: Vec::new() };
        assert(r@ =~= Seq::<T::V>::empty());
        r
    }

    /// Returns a Collection that holds the records of `vec`, in order.
    pub fn from_vec(vec: Vec<T>) -> (r: Collection<T>)
        ensures
            r.vec@ == vec@,
            r@ == vec@.map_values(|x: T| x@),
    {
        Collection { vec }
    }

    /// Returns the record at index `i`.
    pub fn at(&self, i: usize) -> (r: &T)
        requires
            i < self.vec@.len(),
        ensures
            *r == self.vec@[i as int],
            r@ == self@[i as int],
    {
        &self.vec[i]
    }

    /// Replaces the record at index `i`.
    pub fn set(&mut self, i: usize, nn: T)
        requires
            i < old(self).vec@.len(),
        ensures
            final(self).vec@ == old(self).vec@.update(i as int, nn),
            final(self)@ == old(self)@.update(i as int, nn@),
    {
        self.vec.set(i, nn);
        assert(final(self)@ =~= old(self)@.update(i as int, nn@));
    }

    /// Appends a record at the end.
    pub fn push(&mut self, nn: T)
        ensures
            final(self).vec@ == old(self).vec@.push(nn),
            final(self)@ == old(self)@.push(nn@),
    {
        self.vec.push(nn);
        assert(final(self)@ =~= old(self)@.push(nn@));
    }

    /// The number of records.
    pub fn len(&self) -> (r: usize)
        ensures
            r == self@.len(),
    {
        self.vec.len()
    }

    /// Appends the records of `other`, in order.
    pub fn extend(&mut self, other: Collection<T>)
        ensures
            final(self).vec@ == old(self).vec@ + other.vec@,
            final(self)@ == old(self)@ + other@,
    {
        let mut o = other.vec;
        self.vec.append(&mut o);
        assert(final(self)@ =~= old(self)@ + other@);
    }

    /// Returns the Collection of the results of `close` on each record, in order.
    pub fn map<F, Z: Serializable>(&self, close: F) -> (r: Collection<Z>)
        where
            F: Fn(&T) -> Z,
        requires
            forall|i: int| 0 <= i < self.vec@.len() ==> close.requires((&self.vec@[i],)),
        ensures
            r.vec@.len() == self.vec@.len(),
            forall|i: int| 0 <= i < self.vec@.len() ==> close.ensures((&self.vec@[i],), #[trigger] r.vec@[i]),
    {
        let mut out: Vec<Z> = Vec::new();
        let mut i: usize = 0;
        while i < self.vec.len()
            invariant
                0 <= i <= self.vec@.len(),
                out@.len() == i,
                forall|k: int| 0 <= k < self.vec@.len() ==> close.requires((&self.vec@[k],)),
                forall|k: int| 0 <= k < i ==> close.ensures((&self.vec@[k],), #[trigger] out@[k]),
            decreases self.vec@.len() - i,
        {
            let z = close(&self.vec[i]);
            out.push(z);
            i = i + 1;
        }
        Collection { vec: out }
    }

    /// Returns the Collection of the records that pass `close`, in order: a cut
    /// keeps the records for which the test holds.
    pub fn cut<F>(&self, close: F) -> (r: Collection<T>)
        where
            F: Fn(&T) -> bool,
        requires
            forall|i: int| 0 <= i < self.vec@.len() ==> close.requires((&self.vec@[i],)),
        ensures
            exists|keep: Seq<bool>|
                #![trigger kept(self@, keep)]
                keep.len() == self@.len() && (forall|i: int|
                    0 <= i < self.vec@.len() ==> close.ensures((&self.vec@[i],), #[trigger] keep[i]))
                    && r@ == kept(self@, keep),
    {
        let mut out: Vec<T> = Vec::new();
        let ghost mut keep: Seq<bool> = Seq::empty();
        let mut i: usize = 0;
        while i < self.vec.len()
            invariant
                0 <= i <= self.vec@.len(),
                keep.len() == i,
                forall|k: int| 0 <= k < self.vec@.len() ==> close.requires((&self.vec@[k],)),
                forall|k: int| 0 <= k < i ==> close.ensures((&self.vec@[k],), #[trigger] keep[k]),
                out@.map_values(|x: T| x@) == kept(self@.take(i as int), keep),
            decreases self.vec@.len() - i,
        {
            let b = close(&self.vec[i]);
            proof {
                assert(self@.take(i + 1).drop_last() =~= self@.take(i as int));
                assert(keep.push(b).drop_last() =~= keep);
            }
            if b {
                let x = self.vec[i].duplicate();
                out.push(x);
            }
            proof {
                keep = keep.push(b);
            }
            assert(out@.map_values(|x: T| x@) =~= kept(self@.take(i + 1), keep));
            i = i + 1;
        }
        assert(self@.take(self@.len() as int) =~= self@);
        let r = Collection { vec: out };
        assert(r@ == kept(self@, keep));
        r
    }
}

/// The records of `s` whose flag in `keep` is set, in order.
pub open spec fn kept<V>(s: Seq<V>, keep: Seq<bool>) -> Seq<V>
    decreases s.len(),
{
    if s.len() == 0 || keep.len() == 0 {
        Seq::empty()
    } else if keep.last() {
        kept(s.drop_last(), keep.drop_last()).push(s.last())
    } else {
        kept(s.drop_last(), keep.drop_last())
    }
}


impl<T: Serializable> Serializable for Collection<T> {
    open spec fn json_of(v: Seq<T::V>, ft: spec_fn(u64) -> Seq<char>) -> Seq<char> {
        "["@ + jsons_of::<T>(v, ft) + "]"@
    }

    open spec fn msg_of(v: Seq<T::V>) -> Seq<u8> {
        array_len_bytes(v.len() as u32) + msgs_of::<T>(v)
    }

    open spec fn encodable(v: Seq<T::V>) -> bool {
        Self::fits(v)
    }

    fn to_json<F: Fn(u64) -> String>(&self, show: &F) -> (r: String) {
        let ghost ft = show_fn(*show);
        let mut out = String::from_str("[");
        let mut i: usize = 0;
        while i < self.vec.len()
            invariant
                show_ok(*show),
                ft == show_fn(*show),
                0 <= i <= self.vec@.len(),
                out@ == "["@ + jsons_of::<T>(self@.take(i as int), ft),
            decreases self.vec@.len() - i,
        {
            proof {
                assert(self@.take(i + 1).drop_last() =~= self@.take(i as int));
                assert(self@.take(i + 1).last() == self.vec@[i as int]@);
            }
            if i > 0 {
                out.append(",");
            }
            let t = self.vec[i].to_json(show);
            out.append(t.as_str());
            proof {
                if i == 0 {
                    assert(self@.take(1)[0] == self.vec@[0]@);
                }
            }
            assert(out@ =~= "["@ + jsons_of::<T>(self@.take(i + 1), ft));
            i = i + 1;
        }
        out.append("]");
        assert(self@.take(self@.len() as int) =~= self@);
        out
    }

    fn is_encodable(&self) -> (r: bool) {
        assert(self@.len() == self.vec@.len());
        if self.vec.len() > 0xffff_ffffusize {
            assert(!Self::fits(self@));
            return false;
        }
        let mut i: usize = 0;
        while i < self.vec.len()
            invariant
                0 <= i <= self.vec@.len(),
                forall|k: int| 0 <= k < i ==> T::encodable(#[trigger] self@[k]),
            decreases self.vec@.len() - i,
        {
            assert(self@[i as int] == self.vec@[i as int]@);
            if !self.vec[i].is_encodable() {
                return false;
            }
            i = i + 1;
        }
        true
    }

    fn duplicate(&self) -> (r: Collection<T>) {
        let mut out: Vec<T> = Vec::new();
        let mut i: usize = 0;
        while i < self.vec.len()
            invariant
                0 <= i <= self.vec@.len(),
                out@.map_values(|x: T| x@) == self@.take(i as int),
            decreases self.vec@.len() - i,
        {
            let x = self.vec[i].duplicate();
            let ghost before = out@;
            out.push(x);
            assert(self@[i as int] == self.vec@[i as int]@);
            assert(out@.map_values(|y: T| y@) =~= before.map_values(|y: T| y@).push(x@));
            assert(self@.take(i + 1) =~= self@.take(i as int).push(self@[i as int]));
            assert(out@.map_values(|y: T| y@) =~= self@.take(i + 1));
            i = i + 1;
        }
        assert(self@.take(self@.len() as int) =~= self@);
        Collection { vec: out }
    }

    fn write_msg(&self, buf: &mut Vec<u8>) {
        put_array_len(buf, self.vec.len() as u32);
        let mut i: usize = 0;
        while i < self.vec.len()
            invariant
                0 <= i <= self.vec@.len(),
                Self::fits(self@),
                buf@ == old(buf)@ + array_len_bytes(self@.len() as u32) + msgs_of::<T>(self@.take(i as int)),
            decreases self.vec@.len() - i,
        {
            proof {
                assert(self@.take(i + 1).drop_last() =~= self@.take(i as int));
                assert(self@.take(i + 1).last() == self.vec@[i as int]@);
                assert(T::encodable(self@[i as int]));
            }
            self.vec[i].write_msg(buf);
            assert(buf@ =~= old(buf)@ + array_len_bytes(self@.len() as u32) + msgs_of::<T>(self@.take(i + 1)));
            i = i + 1;
        }
        assert(self@.take(self@.len() as int) =~= self@);
        assert(final(buf)@ =~= old(buf)@ + Self::msg_of(self@));
    }
}

impl<T: Deserializable> Deserializable for Collection<T> {
    #[verifier::spinoff_prover]
    proof fn lemma_json_round_trip(v: Seq<T::V>, rest: Seq<u8>, ft: spec_fn(u64) -> Seq<char>, pt: spec_fn(Seq<u8>) -> Option<u64>) {
        reveal_strlit("[");
        reveal_strlit("]");
        lemma_lit_bytes("["@);
        lemma_lit_bytes("]"@);
        let lb = encode_utf8("["@);
        let rb = encode_utf8("]"@);
        let body = encode_utf8(jsons_of::<T>(v, ft));
        lemma_utf8_concat("["@ + jsons_of::<T>(v, ft), "]"@);
        lemma_utf8_concat("["@, jsons_of::<T>(v, ft));
        let r1 = body + (rb + rest);
        assert(encode_utf8(Self::json_of(v, ft)) + rest =~= lb + r1);
        lemma_after_prefix(lb, r1);
        if v.len() == 0 {
            assert(body =~= Seq::<u8>::empty());
            assert(r1 =~= rb + rest);
            lemma_after_prefix(rb, rest);
        } else {
            lemma_items_round_trip::<T>(v, rest, v.len(), ft, pt);
            lemma_items_round_trip::<T>(v, rest, r1.len(), ft, pt);
            assert(r1[0] == body[0]);
            lemma_not_after(r1, rb);
        }
        assert((lb + r1)[0] == 91);
    }

    /// An opening bracket, the records separated by commas, a closing bracket.
    open spec fn parse_json(b: Seq<u8>, pt: spec_fn(Seq<u8>) -> Option<u64>) -> Option<(Seq<T::V>, Seq<u8>)> {
        match after(b, encode_utf8("["@)) {
            Some(r1) => match after(r1, encode_utf8("]"@)) {
                Some(r2) => Some((Seq::empty(), r2)),
                None => parse_items::<T>(r1, r1.len(), pt),
            },
            None => None,
        }
    }

    fn read_json<'a, P: Fn(Vec<u8>) -> Option<u64>>(b: &'a [u8], read: &P) -> (r: Result<(Collection<T>, &'a [u8]), CalcifyError>) {
        let ghost pt = read_fn(*read);
        let start = match strip_lit(b, "[") {
            Some(r1) => r1,
            None => return Err(CalcifyError::ParseError),
        };
        if let Some(r2) = strip_lit(start, "]") {
            let c = Collection { vec: Vec::new() };
            assert(c@ =~= Seq::<T::V>::empty());
            return Ok((c, r2));
        }
        let fuel = start.len();
        let mut out: Vec<T> = Vec::new();
        let mut cur: &'a [u8] = start;
        let mut i: usize = 0;
        assert(out@.map_values(|x: T| x@) =~= Seq::<T::V>::empty());
        assert(prepend(Seq::<T::V>::empty(), parse_items::<T>(start@, fuel as nat, pt)) == parse_items::<T>(start@, fuel as nat, pt)) by {
            if let Some((xs, r)) = parse_items::<T>(start@, fuel as nat, pt) {
                assert(Seq::<T::V>::empty() + xs =~= xs);
            }
        }
        while i < fuel
            invariant
                read_ok(*read),
                pt == read_fn(*read),
                0 <= i <= fuel,
                fuel == start@.len(),
                Self::parse_json(b@, pt) == parse_items::<T>(start@, fuel as nat, pt),
                parse_items::<T>(start@, fuel as nat, pt) == prepend(out@.map_values(|x: T| x@), parse_items::<T>(cur@, (fuel - i) as nat, pt)),
            decreases fuel - i,
        {
            let (x, r1) = match T::read_json(cur, read) {
                Ok(p) => p,
                Err(_) => return Err(CalcifyError::ParseError),
            };
            let ghost ov = out@.map_values(|y: T| y@);
            let ghost xv = x@;
            out.push(x);
            proof {
                assert(out@.map_values(|y: T| y@) =~= ov + seq![xv]);
            }
            if let Some(r2) = strip_lit(r1, "]") {
                return Ok((Collection { vec: out }, r2));
            }
            match strip_lit(r1, ",") {
                Some(r2) => {
                    proof {
                        if let Some((xs, fin)) = parse_items::<T>(r2@, (fuel - i - 1) as nat, pt) {
                            assert(ov + (seq![xv] + xs) =~= out@.map_values(|y: T| y@) + xs);
                        }
                    }
                    cur = r2;
                },
                None => return Err(CalcifyError::ParseError),
            }
            i = i + 1;
        }
        Err(CalcifyError::ParseError)
    }

    open spec fn parse_msg(b: Seq<u8>) -> Option<(Seq<T::V>, Seq<u8>)> {
        match parse_array_len(b) {
            Some((n, r)) => parse_many::<T>(r, n as nat),
            None => None,
        }
    }

    #[verifier::spinoff_prover]
    proof fn lemma_msg_round_trip(v: Seq<T::V>, rest: Seq<u8>) {
        assert(Self::fits(v));
        let body = msgs_of::<T>(v) + rest;
        lemma_many_round_trip::<T>(v, rest);
        lemma_array_len_round_trip(v.len() as u32, body);
        assert(Self::msg_of(v) + rest =~= array_len_bytes(v.len() as u32) + body);
        assert(parse_array_len(Self::msg_of(v) + rest) == Some((v.len() as u32, body)));
        assert((v.len() as u32) as nat == v.len());
    }

    fn from_msg<'a>(b: &'a [u8]) -> (r: Result<(Collection<T>, &'a [u8]), CalcifyError>) {
        let (n, start) = match take_array_len(b) {
            Some(p) => p,
            None => return Err(CalcifyError::ParseError),
        };
        assert(parse_array_len(b@) == Some((n, start@)));
        let mut out: Vec<T> = Vec::new();
        let mut cur: &'a [u8] = start;
        let mut i: u32 = 0;
        assert(out@.map_values(|x: T| x@) =~= Seq::<T::V>::empty());
        assert(prepend(Seq::<T::V>::empty(), parse_many::<T>(start@, n as nat)) == parse_many::<T>(start@, n as nat)) by {
            if let Some((xs, r)) = parse_many::<T>(start@, n as nat) {
                assert(Seq::<T::V>::empty() + xs =~= xs);
            }
        }
        while i < n
            invariant
                0 <= i <= n,
                parse_array_len(b@) == Some((n, start@)),
                parse_many::<T>(start@, n as nat) == prepend(out@.map_values(|x: T| x@), parse_many::<T>(cur@, (n - i) as nat)),
            decreases n - i,
        {
            match T::from_msg(cur) {
                Ok((x, rest)) => {
                    proof {
                        let ov = out@.map_values(|y: T| y@);
                        let nv = out@.push(x).map_values(|y: T| y@);
                        assert(nv =~= ov + seq![x@]);
                        if let Some((xs, fin)) = parse_many::<T>(rest@, (n - i - 1) as nat) {
                            assert(ov + (seq![x@] + xs) =~= nv + xs);
                        }
                    }
                    out.push(x);
                    cur = rest;
                },
                Err(e) => {
                    assert(parse_many::<T>(cur@, (n - i) as nat) is None);
                    assert(parse_many::<T>(start@, n as nat) is None);
                    assert(Self::parse_msg(b@) is None);
                    return Err(CalcifyError::ParseError);
                },
            }
            i = i + 1;
        }
        proof {
            let ov = out@.map_values(|y: T| y@);
            assert(ov + Seq::<T::V>::empty() =~= ov);
        }
        Ok((Collection { vec: out }, cur))
    }
}

} // verus!
