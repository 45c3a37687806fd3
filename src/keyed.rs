//! Lists of named entries with distinct names, as the containers hold their
//! metadata and their collections, and the binary form of such lists.
use vstd::prelude::*;
use vstd::string::StringExecFns;
use crate::branch::same_str;
use vstd::utf8::encode_utf8;
use crate::text::{after, parse_escaped, read_escaped, strip_lit};
use crate::msgpack::{lemma_str_round_trip, parse_str, put_str, str_bytes, str_fits, take_str};

verus! {

/// Whether some entry of `s` is named `k`.
pub open spec fn has_key<V>(s: Seq<(Seq<char>, V)>, k: Seq<char>) -> bool {
    exists|i: int| 0 <= i < s.len() && (#[trigger] s[i]).0 == k
}

/// Whether the entries of `s` have distinct names.
pub open spec fn keys_distinct<V>(s: Seq<(Seq<char>, V)>) -> bool {
    forall|i: int, j: int| 0 <= i < j < s.len() ==> (#[trigger] s[i]).0 != (#[trigger] s[j]).0
}

/// The value of the entry named `k`, where there is one.
pub open spec fn value_of<V>(s: Seq<(Seq<char>, V)>, k: Seq<char>) -> Option<V>
    decreases s.len(),
{
    if s.len() == 0 {
        None
    } else if s[0].0 == k {
        Some(s[0].1)
    } else {
        value_of(s.drop_first(), k)
    }
}

/// The view of a list of named string entries.
pub open spec fn fields_view(v: Seq<(String, String)>) -> Seq<(Seq<char>, Seq<char>)> {
    v.map_values(|p: (String, String)| (p.0@, p.1@))
}

/// The binary form of named string entries: each name, then its value.
pub open spec fn fields_msg(s: Seq<(Seq<char>, Seq<char>)>) -> Seq<u8>
    decreases s.len(),
{
    if s.len() == 0 {
        Seq::empty()
    } else {
        str_bytes(s[0].0) + str_bytes(s[0].1) + fields_msg(s.drop_first())
    }
}

/// Whether every name and value fits a string header.
pub open spec fn fields_fit(s: Seq<(Seq<char>, Seq<char>)>) -> bool {
    forall|i: int| 0 <= i < s.len() ==> str_fits((#[trigger] s[i]).0) && str_fits(s[i].1)
}

/// Reads `n - 1` named string entries, then the name `end`, and gives the
/// entries and the bytes after `end`. An entry may itself be named `end`: the
/// count, not the name, says where the entries stop.
pub open spec fn parse_fields(b: Seq<u8>, n: nat, end: Seq<char>) -> Option<(Seq<(Seq<char>, Seq<char>)>, Seq<u8>)>
    decreases n,
{
    if n == 0 {
        None
    } else {
        match parse_str(b) {
            Some((k, r1)) => if n == 1 {
                if k == end {
                    Some((Seq::empty(), r1))
                } else {
                    None
                }
            } else {
                match parse_str(r1) {
                    Some((v, r2)) => match parse_fields(r2, (n - 1) as nat, end) {
                        Some((fs, r3)) => Some((seq![(k, v)] + fs, r3)),
                        None => None,
                    },
                    None => None,
                }
            },
            None => None,
        }
    }
}

/// Returns the index of the entry named `key`, if any.
pub(crate) fn find_key<X>(v: &Vec<(String, X)>, key: &str) -> (r: Option<usize>)
    ensures
        match r {
            Some(i) => i < v@.len() && v@[i as int].0@ == key@ && forall|j: int|
                0 <= j < i ==> (#[trigger] v@[j]).0@ != key@,
            None => forall|i: int| 0 <= i < v@.len() ==> (#[trigger] v@[i]).0@ != key@,
        },
{
    let mut i: usize = 0;
    while i < v.len()
        invariant
            0 <= i <= v@.len(),
            forall|k: int| 0 <= k < i ==> (#[trigger] v@[k]).0@ != key@,
        decreases v@.len() - i,
    {
        if same_str(v[i].0.as_str(), key) {
            return Some(i);
        }
        i = i + 1;
    }
    None
}

/// Whether the names of `v` are distinct.
pub(crate) fn distinct_keys<X>(v: &Vec<(String, X)>) -> (r: bool)
    ensures
        r == (forall|i: int, j: int| 0 <= i < j < v@.len() ==> (#[trigger] v@[i]).0@ != (#[trigger] v@[j]).0@),
{
    let mut j: usize = 0;
    while j < v.len()
        invariant
            0 <= j <= v@.len(),
            forall|a: int, c: int| 0 <= a < c < j ==> (#[trigger] v@[a]).0@ != (#[trigger] v@[c]).0@,
        decreases v@.len() - j,
    {
        let mut i: usize = 0;
        while i < j
            invariant
                0 <= i <= j < v@.len(),
                forall|a: int, c: int| 0 <= a < c < j ==> (#[trigger] v@[a]).0@ != (#[trigger] v@[c]).0@,
                forall|a: int| 0 <= a < i ==> (#[trigger] v@[a]).0@ != v@[j as int].0@,
            decreases j - i,
        {
            if same_str(v[i].0.as_str(), v[j].0.as_str()) {
                return false;
            }
            i = i + 1;
        }
        j = j + 1;
    }
    true
}

/// Whether every name and value of `v` fits a string header.
pub(crate) fn fields_fit_exec(v: &Vec<(String, String)>) -> (r: bool)
    ensures
        r == fields_fit(fields_view(v@)),
{
    let mut i: usize = 0;
    while i < v.len()
        invariant
            0 <= i <= v@.len(),
            forall|k: int| 0 <= k < i ==> str_fits((#[trigger] fields_view(v@)[k]).0) && str_fits(fields_view(v@)[k].1),
        decreases v@.len() - i,
    {
        let a = v[i].0.as_str().as_bytes().len() <= 0xffff_ffffusize;
        let b = v[i].1.as_str().as_bytes().len() <= 0xffff_ffffusize;
        if !(a && b) {
            assert(!(str_fits(fields_view(v@)[i as int].0) && str_fits(fields_view(v@)[i as int].1)));
            return false;
        }
        i = i + 1;
    }
    true
}

#[verifier::spinoff_prover]
proof fn lemma_fields_msg_snoc(s: Seq<(Seq<char>, Seq<char>)>, p: (Seq<char>, Seq<char>))
    ensures
        fields_msg(s.push(p)) == fields_msg(s) + str_bytes(p.0) + str_bytes(p.1),
    decreases s.len(),
{
    if s.len() == 0 {
        assert(s.push(p).drop_first() =~= s);
        assert(fields_msg(s.push(p)) =~= fields_msg(s) + str_bytes(p.0) + str_bytes(p.1));
    } else {
        lemma_fields_msg_snoc(s.drop_first(), p);
        assert(s.push(p).drop_first() =~= s.drop_first().push(p));
        assert(fields_msg(s.push(p)) =~= fields_msg(s) + str_bytes(p.0) + str_bytes(p.1));
    }
}

/// Appends each name, then its value.
pub(crate) fn write_fields(buf: &mut Vec<u8>, v: &Vec<(String, String)>)
    requires
        fields_fit(fields_view(v@)),
    ensures
        final(buf)@ == old(buf)@ + fields_msg(fields_view(v@)),
{
    let mut i: usize = 0;
    while i < v.len()
        invariant
            0 <= i <= v@.len(),
            fields_fit(fields_view(v@)),
            buf@ == old(buf)@ + fields_msg(fields_view(v@).take(i as int)),
        decreases v@.len() - i,
    {
        let ghost p = fields_view(v@)[i as int];
        proof {
            assert(fields_view(v@).take(i + 1) =~= fields_view(v@).take(i as int).push(p));
            lemma_fields_msg_snoc(fields_view(v@).take(i as int), p);
            assert(str_fits(p.0) && str_fits(p.1));
        }
        put_str(buf, v[i].0.as_str());
        put_str(buf, v[i].1.as_str());
        assert(buf@ =~= old(buf)@ + fields_msg(fields_view(v@).take(i + 1)));
        i = i + 1;
    }
    assert(fields_view(v@).take(v@.len() as int) =~= fields_view(v@));
}

/// Puts `pre` in front of the entries that a parse found.
pub open spec fn prepend_fields(pre: Seq<(Seq<char>, Seq<char>)>, p: Option<(Seq<(Seq<char>, Seq<char>)>, Seq<u8>)>) -> Option<(Seq<(Seq<char>, Seq<char>)>, Seq<u8>)> {
    match p {
        Some((xs, r)) => Some((pre + xs, r)),
        None => None,
    }
}

/// Reads `n - 1` named string entries, then the name `end`; returns the
/// entries and the bytes after `end`.
pub(crate) fn read_fields<'a>(b: &'a [u8], n: u32, end: &str) -> (r: Option<(Vec<(String, String)>, &'a [u8])>)
    ensures
        match parse_fields(b@, n as nat, end@) {
            Some((fs, rest)) => r matches Some((v, t)) && fields_view(v@) == fs && t@ == rest,
            None => r is None,
        },
{
    let mut out: Vec<(String, String)> = Vec::new();
    let mut cur: &'a [u8] = b;
    let mut i: u32 = 0;
    assert(prepend_fields(Seq::empty(), parse_fields(b@, n as nat, end@)) == parse_fields(b@, n as nat, end@)) by {
        if let Some((xs, r)) = parse_fields(b@, n as nat, end@) {
            assert(Seq::<(Seq<char>, Seq<char>)>::empty() + xs =~= xs);
        }
    }
    assert(fields_view(out@) =~= Seq::empty());
    while i < n
        invariant
            0 <= i <= n,
            parse_fields(b@, n as nat, end@) == prepend_fields(fields_view(out@), parse_fields(cur@, (n - i) as nat, end@)),
        decreases n - i,
    {
        let (k, r1) = match take_str(cur) {
            Some(p) => p,
            None => return None,
        };
        if i + 1 == n {
            if same_str(k, end) {
                proof {
                    let ov = fields_view(out@);
                    assert(ov + Seq::<(Seq<char>, Seq<char>)>::empty() =~= ov);
                }
                return Some((out, r1));
            }
            return None;
        }
        let (v, r2) = match take_str(r1) {
            Some(p) => p,
            None => return None,
        };
        let ghost ov = fields_view(out@);
        out.push((String::from_str(k), String::from_str(v)));
        proof {
            assert(fields_view(out@) =~= ov + seq![(k@, v@)]);
            if let Some((xs, fin)) = parse_fields(r2@, (n - i - 1) as nat, end@) {
                assert(ov + (seq![(k@, v@)] + xs) =~= fields_view(out@) + xs);
            }
        }
        cur = r2;
        i = i + 1;
    }
    None
}

/// The named string entries read back from their binary form, then `end`.
#[verifier::spinoff_prover]
pub proof fn lemma_fields_round_trip(s: Seq<(Seq<char>, Seq<char>)>, end: Seq<char>, rest: Seq<u8>)
    requires
        fields_fit(s),
        str_fits(end),
    ensures
        parse_fields(fields_msg(s) + str_bytes(end) + rest, s.len() + 1, end) == Some((s, rest)),
    decreases s.len(),
{
    if s.len() == 0 {
        lemma_str_round_trip(end, rest);
        assert(fields_msg(s) + str_bytes(end) + rest =~= str_bytes(end) + rest);
        assert(s =~= Seq::<(Seq<char>, Seq<char>)>::empty());
    } else {
        let tail = s.drop_first();
        assert forall|i: int| 0 <= i < tail.len() implies str_fits((#[trigger] tail[i]).0) && str_fits(tail[i].1) by {
            assert(tail[i] == s[i + 1]);
        }
        let after = fields_msg(tail) + str_bytes(end) + rest;
        let b = fields_msg(s) + str_bytes(end) + rest;
        assert(parse_fields(after, tail.len() + 1, end) == Some((tail, rest))) by {
            lemma_fields_round_trip(tail, end, rest);
        }
        assert(b =~= str_bytes(s[0].0) + (str_bytes(s[0].1) + after));
        assert(parse_str(b) == Some((s[0].0, str_bytes(s[0].1) + after))) by {
            lemma_str_round_trip(s[0].0, str_bytes(s[0].1) + after);
        }
        assert(parse_str(str_bytes(s[0].1) + after) == Some((s[0].1, after))) by {
            lemma_str_round_trip(s[0].1, after);
        }
        assert(seq![(s[0].0, s[0].1)] + tail =~= s);
    }
}


/// Reads metadata fields of text form `"<key>":"<value>",` up to the key
/// `end` whose value is not a string; gives the fields and the bytes after
/// `"<end>":`. A field may itself be named `end`: its value is a string.
/// `fuel` bounds the number of fields.
pub open spec fn parse_fields_json(b: Seq<u8>, fuel: nat, end: Seq<char>) -> Option<(Seq<(Seq<char>, Seq<char>)>, Seq<u8>)>
    decreases fuel,
{
    if fuel == 0 {
        None
    } else {
        match after(b, encode_utf8("\""@)) {
            Some(r1) => match parse_escaped(r1) {
                Some((k, r2)) => match after(r2, encode_utf8(":"@)) {
                    Some(r3) => if k == end && after(r3, encode_utf8("\""@)) is None {
                        Some((Seq::empty(), r3))
                    } else {
                        match after(r3, encode_utf8("\""@)) {
                            Some(r4) => match parse_escaped(r4) {
                                Some((v, r5)) => match after(r5, encode_utf8(","@)) {
                                    Some(r6) => match parse_fields_json(r6, (fuel - 1) as nat, end) {
                                        Some((fs, r7)) => Some((seq![(k, v)] + fs, r7)),
                                        None => None,
                                    },
                                    None => None,
                                },
                                None => None,
                            },
                            None => None,
                        }
                    },
                    None => None,
                },
                None => None,
            },
            None => None,
        }
    }
}

/// Reads metadata fields of text form up to the key `end` whose value is not a
/// string; returns them with the bytes after `"<end>":`.
pub(crate) fn read_fields_json<'a>(b: &'a [u8], end: &str) -> (r: Option<(Vec<(String, String)>, &'a [u8])>)
    ensures
        match parse_fields_json(b@, b@.len(), end@) {
            Some((fs, rest)) => r matches Some((v, t)) && fields_view(v@) == fs && t@ == rest,
            None => r is None,
        },
{
    let fuel = b.len();
    let mut out: Vec<(String, String)> = Vec::new();
    let mut cur: &'a [u8] = b;
    let mut i: usize = 0;
    assert(prepend_fields(Seq::empty(), parse_fields_json(b@, fuel as nat, end@)) == parse_fields_json(b@, fuel as nat, end@)) by {
        if let Some((xs, r)) = parse_fields_json(b@, fuel as nat, end@) {
            assert(Seq::<(Seq<char>, Seq<char>)>::empty() + xs =~= xs);
        }
    }
    assert(fields_view(out@) =~= Seq::empty());
    while i < fuel
        invariant
            0 <= i <= fuel,
            fuel == b@.len(),
            parse_fields_json(b@, fuel as nat, end@) == prepend_fields(fields_view(out@), parse_fields_json(cur@, (fuel - i) as nat, end@)),
        decreases fuel - i,
    {
        let r1 = match strip_lit(cur, "\"") {
            Some(p) => p,
            None => return None,
        };
        let (k, r2) = match read_escaped(r1) {
            Some(p) => p,
            None => return None,
        };
        let r3 = match strip_lit(r2, ":") {
            Some(p) => p,
            None => return None,
        };
        let r4 = match strip_lit(r3, "\"") {
            Some(p) => p,
            None => {
                if same_str(k.as_str(), end) {
                    proof {
                        let ov = fields_view(out@);
                        assert(ov + Seq::<(Seq<char>, Seq<char>)>::empty() =~= ov);
                    }
                    return Some((out, r3));
                }
                return None;
            },
        };
        let (v, r5) = match read_escaped(r4) {
            Some(p) => p,
            None => return None,
        };
        let r6 = match strip_lit(r5, ",") {
            Some(p) => p,
            None => return None,
        };
        let ghost ov = fields_view(out@);
        let ghost kv = (k@, v@);
        out.push((k, v));
        proof {
            assert(fields_view(out@) =~= ov + seq![kv]);
            if let Some((xs, fin)) = parse_fields_json(r6@, (fuel - i - 1) as nat, end@) {
                assert(ov + (seq![kv] + xs) =~= fields_view(out@) + xs);
            }
        }
        cur = r6;
        i = i + 1;
    }
    None
}

} // verus!
