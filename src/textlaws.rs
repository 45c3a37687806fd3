//! The laws that tie the text forms of the containers to their decoders.
use vstd::prelude::*;
use vstd::utf8::encode_utf8;
use crate::codec::{float_text_ok, lemma_lit_bytes, lemma_string_text, quoted, Deserializable, Serializable};
use crate::errors::CalcifyError;
use crate::branch::{branch_json, parse_branch_json, tag_of, tag_parse_json, typed_parse_json, BranchView, Tag};
use crate::collection::Collection;
use crate::feedtree::{feeds_json, feedtree_json, parse_feeds_json, parse_feedtree_json, FeedTreeView};
use crate::keyed::{keys_distinct, parse_fields_json};
use crate::records::{Bin, FourMat, FourVec, Point, PointBin, Real, ThreeMat, ThreeVec};
use crate::text::is_delim;
use crate::tree::{branches_json, parse_branches_json, parse_tree_json, tree_json, TreeView};
use crate::text::{
    after, escape, lemma_after_prefix, lemma_escape_plain, lemma_not_after, lemma_utf8_concat,
    parse_escaped,
};
use crate::tree::fields_json;

verus! {

/// The text of one metadata field: `"<key>":"<value>",`.
pub open spec fn field_json(p: (Seq<char>, Seq<char>)) -> Seq<char> {
    quoted(p.0) + ":"@ + quoted(p.1) + ","@
}

#[verifier::spinoff_prover]
proof fn lemma_fields_json_prepend(p: (Seq<char>, Seq<char>), s: Seq<(Seq<char>, Seq<char>)>)
    ensures
        fields_json(seq![p] + s) == field_json(p) + fields_json(s),
    decreases s.len(),
{
    let xs = seq![p] + s;
    if s.len() == 0 {
        assert(xs.drop_last() =~= Seq::<(Seq<char>, Seq<char>)>::empty());
        assert(xs.last() == p);
        assert(fields_json(xs.drop_last()) == Seq::<char>::empty());
        assert(fields_json(s) == Seq::<char>::empty());
        assert(fields_json(xs) =~= field_json(p) + fields_json(s));
    } else {
        lemma_fields_json_prepend(p, s.drop_last());
        assert(xs.drop_last() =~= seq![p] + s.drop_last());
        assert(xs.last() == s.last());
        assert(fields_json(xs) =~= field_json(p) + fields_json(s));
    }
}

/// A quoted text reads back, leaving what follows: the opening quote, the
/// escaped text, the closing quote.
#[verifier::spinoff_prover]
proof fn lemma_quoted(s: Seq<char>, rest: Seq<u8>)
    ensures
        encode_utf8(quoted(s)) + rest == encode_utf8("\""@) + (encode_utf8(escape(s)) + (encode_utf8("\""@) + rest)),
        after(encode_utf8(quoted(s)) + rest, encode_utf8("\""@)) == Some(encode_utf8(escape(s)) + (encode_utf8("\""@) + rest)),
        parse_escaped(encode_utf8(escape(s)) + (encode_utf8("\""@) + rest)) == Some((s, rest)),
{
    lemma_string_text(s, rest);
    lemma_after_prefix(encode_utf8("\""@), encode_utf8(escape(s)) + (encode_utf8("\""@) + rest));
}

/// Metadata fields, then the key `end`, a colon and bytes that do not start
/// with a double quote, read back from their text.
#[verifier::spinoff_prover]
pub proof fn lemma_fields_json_round_trip(s: Seq<(Seq<char>, Seq<char>)>, end: Seq<char>, rest: Seq<u8>, fuel: nat)
    requires
        fuel > s.len(),
        rest.len() > 0 && rest[0] != 34,
    ensures
        parse_fields_json(encode_utf8(fields_json(s)) + (encode_utf8(quoted(end) + ":"@) + rest), fuel, end) == Some((s, rest)),
        encode_utf8(fields_json(s)).len() >= s.len(),
    decreases s.len(),
{
    reveal_strlit(":");
    reveal_strlit(",");
    reveal_strlit("\"");
    lemma_lit_bytes(":"@);
    lemma_lit_bytes(","@);
    lemma_lit_bytes("\""@);
    let q = encode_utf8("\""@);
    let co = encode_utf8(":"@);
    let cm = encode_utf8(","@);
    if s.len() == 0 {
        assert(fields_json(s) == Seq::<char>::empty());
        assert(encode_utf8(fields_json(s)) =~= Seq::<u8>::empty());
        lemma_utf8_concat(quoted(end), ":"@);
        lemma_quoted(end, co + rest);
        let b = encode_utf8(quoted(end) + ":"@) + rest;
        assert(encode_utf8(fields_json(s)) + (encode_utf8(quoted(end) + ":"@) + rest) =~= b);
        assert(b =~= encode_utf8(quoted(end)) + (co + rest));
        lemma_after_prefix(co, rest);
        lemma_not_after(rest, q);
        assert(s =~= Seq::<(Seq<char>, Seq<char>)>::empty());
    } else {
        let p = s[0];
        let tl = s.drop_first();
        assert(s =~= seq![p] + tl);
        lemma_fields_json_prepend(p, tl);
        let tail = encode_utf8(fields_json(tl)) + (encode_utf8(quoted(end) + ":"@) + rest);
        lemma_fields_json_round_trip(tl, end, rest, (fuel - 1) as nat);
        lemma_utf8_concat(field_json(p), fields_json(tl));
        lemma_utf8_concat(quoted(p.0) + ":"@ + quoted(p.1), ","@);
        lemma_utf8_concat(quoted(p.0) + ":"@, quoted(p.1));
        lemma_utf8_concat(quoted(p.0), ":"@);
        let r6 = tail;
        let r5 = cm + r6;
        let r3 = encode_utf8(quoted(p.1)) + r5;
        let r2 = co + r3;
        assert(encode_utf8(fields_json(s)) + (encode_utf8(quoted(end) + ":"@) + rest) =~= encode_utf8(quoted(p.0)) + r2);
        lemma_quoted(p.0, r2);
        lemma_after_prefix(co, r3);
        lemma_quoted(p.1, r5);
        lemma_after_prefix(cm, r6);
        assert(seq![(p.0, p.1)] + tl =~= s);
        assert(encode_utf8(fields_json(s)).len() >= s.len());
    }
}


/// Whether the Branch holds the text and binary forms of some Collection of
/// `T`.
pub open spec fn typed_text_form<T: Deserializable>(b: BranchView, ft: spec_fn(u64) -> Seq<char>) -> bool {
    exists|v: Seq<T::V>|
        Collection::<T>::fits(v) && b.msg == Collection::<T>::msg_of(v)
            && b.json == Collection::<T>::json_of(v, ft)
}

/// Whether the Branch holds the forms of a Collection of the record type that
/// its tag names, the `Object` tag excepted.
#[verifier::opaque]
pub open spec fn branch_text_readable(b: BranchView, ft: spec_fn(u64) -> Seq<char>) -> bool {
    match tag_of(b.subtype) {
        Some(Tag::F64) => typed_text_form::<Real>(b, ft),
        Some(Tag::Str) => typed_text_form::<String>(b, ft),
        Some(Tag::ThreeVec) => typed_text_form::<ThreeVec>(b, ft),
        Some(Tag::ThreeMat) => typed_text_form::<ThreeMat>(b, ft),
        Some(Tag::FourVec) => typed_text_form::<FourVec>(b, ft),
        Some(Tag::FourMat) => typed_text_form::<FourMat>(b, ft),
        Some(Tag::Bin) => typed_text_form::<Bin>(b, ft),
        Some(Tag::Point) => typed_text_form::<Point>(b, ft),
        Some(Tag::PointBin) => typed_text_form::<PointBin>(b, ft),
        _ => false,
    }
}

#[verifier::spinoff_prover]
proof fn lemma_typed_text_round_trip<T: Deserializable>(b: BranchView, rest: Seq<u8>, ft: spec_fn(u64) -> Seq<char>, pt: spec_fn(Seq<u8>) -> Option<u64>)
    requires
        float_text_ok(ft, pt),
        typed_text_form::<T>(b, ft),
        rest.len() == 0 || is_delim(rest[0]),
    ensures
        typed_parse_json::<T>(encode_utf8(b.json) + rest, ft, pt) == Some((b.json, b.msg, rest)),
{
    let v = choose|v: Seq<T::V>|
        Collection::<T>::fits(v) && b.msg == Collection::<T>::msg_of(v)
            && b.json == Collection::<T>::json_of(v, ft);
    Collection::<T>::lemma_json_round_trip(v, rest, ft, pt);
}

#[verifier::spinoff_prover]
proof fn lemma_branch_json_bytes(b: BranchView, rest: Seq<u8>)
    ensures
        encode_utf8(branch_json(b)) + rest == encode_utf8("{\"subtype\":\""@) + (encode_utf8(escape(b.subtype)) + (
        encode_utf8("\""@) + (encode_utf8(",\"branch\":"@) + (encode_utf8(b.json) + (encode_utf8("}"@)
            + rest))))),
        encode_utf8(branch_json(b)).len() > 0,
        encode_utf8(branch_json(b))[0] == 123,
{
    reveal_strlit("{\"subtype\":");
    reveal_strlit("{\"subtype\":\"");
    reveal_strlit("\"");
    let l1 = "{\"subtype\":"@;
    let l2 = ",\"branch\":"@;
    let l3 = "}"@;
    lemma_lit_bytes(l1);
    lemma_lit_bytes("\""@);
    assert("{\"subtype\":\""@ =~= l1 + "\""@);
    lemma_utf8_concat(l1, "\""@);
    let st = b.subtype;
    lemma_utf8_concat(l1 + quoted(st) + l2 + b.json, l3);
    lemma_utf8_concat(l1 + quoted(st) + l2, b.json);
    lemma_utf8_concat(l1 + quoted(st), l2);
    lemma_utf8_concat(l1, quoted(st));
    lemma_utf8_concat("\""@ + escape(st), "\""@);
    lemma_utf8_concat("\""@, escape(st));
    assert(encode_utf8(branch_json(b)) + rest =~= encode_utf8("{\"subtype\":\""@) + (encode_utf8(escape(st)) + (
    encode_utf8("\""@) + (encode_utf8(l2) + (encode_utf8(b.json) + (encode_utf8(l3) + rest))))));
    assert(encode_utf8(branch_json(b)) =~= encode_utf8(l1) + encode_utf8(quoted(st)) + encode_utf8(l2) + encode_utf8(b.json) + encode_utf8(l3));
}

#[verifier::spinoff_prover]
proof fn lemma_tag_text(b: BranchView, tail: Seq<u8>, ft: spec_fn(u64) -> Seq<char>, pt: spec_fn(Seq<u8>) -> Option<u64>)
    requires
        float_text_ok(ft, pt),
        branch_text_readable(b, ft),
        tail.len() > 0 && is_delim(tail[0]),
    ensures
        tag_of(b.subtype) is Some,
        tag_of(b.subtype)->0 != Tag::Object,
        tag_parse_json(tag_of(b.subtype)->0, encode_utf8(b.json) + tail, ft, pt) == Some((b.json, b.msg, tail)),
{
    reveal(branch_text_readable);
    match tag_of(b.subtype)->0 {
        Tag::F64 => lemma_typed_text_round_trip::<Real>(b, tail, ft, pt),
        Tag::Str => lemma_typed_text_round_trip::<String>(b, tail, ft, pt),
        Tag::ThreeVec => lemma_typed_text_round_trip::<ThreeVec>(b, tail, ft, pt),
        Tag::ThreeMat => lemma_typed_text_round_trip::<ThreeMat>(b, tail, ft, pt),
        Tag::FourVec => lemma_typed_text_round_trip::<FourVec>(b, tail, ft, pt),
        Tag::FourMat => lemma_typed_text_round_trip::<FourMat>(b, tail, ft, pt),
        Tag::Bin => lemma_typed_text_round_trip::<Bin>(b, tail, ft, pt),
        Tag::Point => lemma_typed_text_round_trip::<Point>(b, tail, ft, pt),
        Tag::PointBin => lemma_typed_text_round_trip::<PointBin>(b, tail, ft, pt),
        Tag::Object => {},
    }
}

/// A Branch that holds a Collection of the type its tag names reads back
/// from its text, whatever bytes follow it.
#[verifier::spinoff_prover]
pub proof fn law_branch_json_round_trip(b: BranchView, rest: Seq<u8>, ft: spec_fn(u64) -> Seq<char>, pt: spec_fn(Seq<u8>) -> Option<u64>)
    requires
        float_text_ok(ft, pt),
        branch_text_readable(b, ft),
    ensures
        parse_branch_json(encode_utf8(branch_json(b)) + rest, ft, pt) == Ok::<(BranchView, Seq<u8>), CalcifyError>((b, rest)),
        encode_utf8(branch_json(b)).len() > 0,
        encode_utf8(branch_json(b))[0] == 123,
{
    let l1q = encode_utf8("{\"subtype\":\""@);
    let l2 = encode_utf8(",\"branch\":"@);
    let l3 = encode_utf8("}"@);
    let q = encode_utf8("\""@);
    let st = b.subtype;
    let tail = l3 + rest;
    let r3 = encode_utf8(b.json) + tail;
    let r2 = l2 + r3;
    let a = encode_utf8(escape(st)) + (q + r2);
    let whole = encode_utf8(branch_json(b)) + rest;
    assert(whole == l1q + a) by {
        lemma_branch_json_bytes(b, rest);
    }
    assert(after(whole, l1q) == Some(a)) by {
        lemma_after_prefix(l1q, a);
    }
    assert(tail.len() > 0 && tail[0] == 125) by {
        reveal_strlit("}");
        lemma_lit_bytes("}"@);
    }
    assert(tag_of(st) is Some && tag_of(st)->0 != Tag::Object && tag_parse_json(tag_of(st)->0, r3, ft, pt)
        == Some((b.json, b.msg, tail))) by {
        lemma_tag_text(b, tail, ft, pt);
    }
    assert(parse_escaped(a) == Some((st, r2))) by {
        lemma_quoted(st, r2);
    }
    assert(after(r2, l2) == Some(r3)) by {
        lemma_after_prefix(l2, r3);
    }
    assert(after(tail, l3) == Some(rest)) by {
        lemma_after_prefix(l3, rest);
    }
    lemma_branch_json_bytes(b, rest);
}

/// The text of a Branch whose tag is outside the closed set reads back as a
/// `ParseError`; one tagged `Object` as an `ObjectBranchDeserializeError`.
#[verifier::spinoff_prover]
pub proof fn law_tag_closure_json(b: BranchView, rest: Seq<u8>, ft: spec_fn(u64) -> Seq<char>, pt: spec_fn(Seq<u8>) -> Option<u64>)
    requires
        float_text_ok(ft, pt),
    ensures
        tag_of(b.subtype) is None ==> parse_branch_json(encode_utf8(branch_json(b)) + rest, ft, pt)
            == Err::<(BranchView, Seq<u8>), CalcifyError>(CalcifyError::ParseError),
        b.subtype == "Object"@ ==> parse_branch_json(encode_utf8(branch_json(b)) + rest, ft, pt)
            == Err::<(BranchView, Seq<u8>), CalcifyError>(CalcifyError::ObjectBranchDeserializeError),
{
    let l1q = encode_utf8("{\"subtype\":\""@);
    let l2 = encode_utf8(",\"branch\":"@);
    let l3 = encode_utf8("}"@);
    let q = encode_utf8("\""@);
    let st = b.subtype;
    let r3 = encode_utf8(b.json) + (l3 + rest);
    let r2 = l2 + r3;
    let a = encode_utf8(escape(st)) + (q + r2);
    let whole = encode_utf8(branch_json(b)) + rest;
    assert(whole == l1q + a) by {
        lemma_branch_json_bytes(b, rest);
    }
    assert(after(whole, l1q) == Some(a)) by {
        lemma_after_prefix(l1q, a);
    }
    assert(parse_escaped(a) == Some((st, r2))) by {
        lemma_quoted(st, r2);
    }
    assert(after(r2, l2) == Some(r3)) by {
        lemma_after_prefix(l2, r3);
    }
    if st == "Object"@ {
        reveal_strlit("Object");
        reveal_strlit("f64");
        reveal_strlit("String");
        reveal_strlit("ThreeVec");
        reveal_strlit("ThreeMat");
        reveal_strlit("FourVec");
        reveal_strlit("FourMat");
        reveal_strlit("Bin");
        reveal_strlit("Point");
        reveal_strlit("PointBin");
        assert(tag_of(st) == Some(Tag::Object));
    }
}

/// The text of one named Branch: `"<name>":<branch>`.
pub open spec fn branch_item_json(p: (Seq<char>, BranchView)) -> Seq<char> {
    quoted(p.0) + ":"@ + branch_json(p.1)
}

#[verifier::spinoff_prover]
proof fn lemma_branches_json_prepend(p: (Seq<char>, BranchView), s: Seq<(Seq<char>, BranchView)>)
    requires
        s.len() > 0,
    ensures
        branches_json(seq![p] + s) == branch_item_json(p) + ","@ + branches_json(s),
    decreases s.len(),
{
    let xs = seq![p] + s;
    if s.len() == 1 {
        assert(xs.drop_last() =~= seq![p]);
        assert(xs.last() == s[0]);
        assert(branches_json(seq![p]) == branch_item_json(p));
        assert(branches_json(s) == branch_item_json(s[0]));
        assert(branches_json(xs) =~= branch_item_json(p) + ","@ + branches_json(s));
    } else {
        lemma_branches_json_prepend(p, s.drop_last());
        assert(xs.drop_last() =~= seq![p] + s.drop_last());
        assert(xs.last() == s.last());
        assert(branches_json(xs) =~= branch_item_json(p) + ","@ + branches_json(s));
    }
}

/// The bytes of one named Branch: its quoted name, a colon, the Branch.
#[verifier::spinoff_prover]
proof fn lemma_item_bytes(p: (Seq<char>, BranchView), rest: Seq<u8>)
    ensures
        encode_utf8(branch_item_json(p)) + rest == encode_utf8(quoted(p.0)) + (encode_utf8(":"@) + (
        encode_utf8(branch_json(p.1)) + rest)),
{
    lemma_utf8_concat(quoted(p.0) + ":"@, branch_json(p.1));
    lemma_utf8_concat(quoted(p.0), ":"@);
    assert(encode_utf8(branch_item_json(p)) + rest =~= encode_utf8(quoted(p.0)) + (encode_utf8(":"@) + (
    encode_utf8(branch_json(p.1)) + rest)));
}

#[verifier::spinoff_prover]
proof fn lemma_branches_json_round_trip(s: Seq<(Seq<char>, BranchView)>, rest: Seq<u8>, fuel: nat, ft: spec_fn(u64) -> Seq<char>, pt: spec_fn(Seq<u8>) -> Option<u64>)
    requires
        float_text_ok(ft, pt),
        s.len() > 0,
        fuel >= s.len(),
        forall|i: int| 0 <= i < s.len() ==> branch_text_readable((#[trigger] s[i]).1, ft),
    ensures
        parse_branches_json(encode_utf8(branches_json(s)) + (encode_utf8("}"@) + rest), fuel, ft, pt) == Ok::<(Seq<(Seq<char>, BranchView)>, Seq<u8>), CalcifyError>((s, rest)),
        encode_utf8(branches_json(s)).len() >= s.len(),
        encode_utf8(branches_json(s))[0] == 34,
    decreases s.len(),
{
    reveal_strlit(":");
    reveal_strlit(",");
    reveal_strlit("}");
    lemma_lit_bytes(":"@);
    lemma_lit_bytes(","@);
    lemma_lit_bytes("}"@);
    let co = encode_utf8(":"@);
    let cm = encode_utf8(","@);
    let cb = encode_utf8("}"@);
    let p = s[0];
    assert(branch_text_readable(p.1, ft));
    if s.len() == 1 {
        assert(branches_json(s) == branch_item_json(p));
        let r4 = cb + rest;
        let r3 = encode_utf8(branch_json(p.1)) + r4;
        let r2 = co + r3;
        lemma_item_bytes(p, r4);
        lemma_quoted(p.0, r2);
        lemma_string_text(p.0, r2);
        lemma_after_prefix(co, r3);
        law_branch_json_round_trip(p.1, r4, ft, pt);
        lemma_after_prefix(cb, rest);
        assert(seq![(p.0, p.1)] =~= s);
        assert(encode_utf8(branches_json(s)) + r4 == encode_utf8(quoted(p.0)) + r2);
        lemma_utf8_concat(quoted(p.0) + ":"@, branch_json(p.1));
        lemma_utf8_concat(quoted(p.0), ":"@);
    } else {
        let tl = s.drop_first();
        assert(s =~= seq![p] + tl);
        lemma_branches_json_prepend(p, tl);
        assert forall|i: int| 0 <= i < tl.len() implies branch_text_readable((#[trigger] tl[i]).1, ft) by {
            assert(tl[i] == s[i + 1]);
        }
        lemma_branches_json_round_trip(tl, rest, (fuel - 1) as nat, ft, pt);
        let r6 = encode_utf8(branches_json(tl)) + (cb + rest);
        let r4 = cm + r6;
        let r3 = encode_utf8(branch_json(p.1)) + r4;
        let r2 = co + r3;
        lemma_utf8_concat(branch_item_json(p) + ","@, branches_json(tl));
        lemma_utf8_concat(branch_item_json(p), ","@);
        lemma_item_bytes(p, r4);
        assert(encode_utf8(branches_json(s)) + (cb + rest) =~= encode_utf8(branch_item_json(p)) + r4);
        lemma_quoted(p.0, r2);
        lemma_string_text(p.0, r2);
        lemma_after_prefix(co, r3);
        law_branch_json_round_trip(p.1, r4, ft, pt);
        assert(r4[0] == 44);
        lemma_not_after(r4, cb);
        lemma_after_prefix(cm, r6);
        assert(seq![(p.0, p.1)] + tl =~= s);
        lemma_utf8_concat(quoted(p.0) + ":"@, branch_json(p.1));
        lemma_utf8_concat(quoted(p.0), ":"@);
    }
}

/// The bytes of a Tree's text: an opening brace, the fields, the key
/// `branches` and a colon, the map of Branches, a closing brace.
#[verifier::spinoff_prover]
proof fn lemma_tree_json_bytes(t: TreeView)
    ensures
        encode_utf8(tree_json(t)) == encode_utf8("{"@) + (encode_utf8(fields_json(t.metadata)) + (
        encode_utf8(quoted("branches"@) + ":"@) + (encode_utf8("{"@) + (encode_utf8(
            branches_json(t.branches),
        ) + (encode_utf8("}"@) + encode_utf8("}"@)))))),
{
    reveal_strlit("\"branches\":{");
    reveal_strlit("}}");
    reveal_strlit("}");
    reveal_strlit("{");
    reveal_strlit("branches");
    reveal_strlit("\"");
    reveal_strlit(":");
    let a = "{"@;
    let f = fields_json(t.metadata);
    let k = quoted("branches"@) + ":"@;
    let o = "{"@;
    let bj = branches_json(t.branches);
    let c = "}"@;
    lemma_escape_plain("branches"@);
    assert("\"branches\":{"@ =~= k + o);
    assert("}}"@ =~= c + c);
    assert(tree_json(t) =~= a + f + k + o + bj + c + c);
    lemma_utf8_concat(a + f + k + o + bj + c, c);
    lemma_utf8_concat(a + f + k + o + bj, c);
    lemma_utf8_concat(a + f + k + o, bj);
    lemma_utf8_concat(a + f + k, o);
    lemma_utf8_concat(a + f, k);
    lemma_utf8_concat(a, f);
    assert(encode_utf8(tree_json(t)) =~= encode_utf8(a) + (encode_utf8(f) + (encode_utf8(k) + (
    encode_utf8(o) + (encode_utf8(bj) + (encode_utf8(c) + encode_utf8(c)))))));
}

/// The text of the Branches of a Tree, then the closing brace of the Tree.
pub open spec fn tree_branches_bytes(t: TreeView) -> Seq<u8> {
    encode_utf8(branches_json(t.branches)) + (encode_utf8("}"@) + encode_utf8("}"@))
}

#[verifier::spinoff_prover]
proof fn lemma_tree_branches_step(t: TreeView, ft: spec_fn(u64) -> Seq<char>, pt: spec_fn(Seq<u8>) -> Option<u64>)
    requires
        float_text_ok(ft, pt),
        forall|i: int|
            0 <= i < t.branches.len() ==> branch_text_readable((#[trigger] t.branches[i]).1, ft),
    ensures
        (match after(tree_branches_bytes(t), encode_utf8("}"@)) {
            Some(r4) => Ok((Seq::<(Seq<char>, BranchView)>::empty(), r4)),
            None => parse_branches_json(tree_branches_bytes(t), tree_branches_bytes(t).len(), ft, pt),
        }) == Ok::<(Seq<(Seq<char>, BranchView)>, Seq<u8>), CalcifyError>((t.branches, encode_utf8("}"@))),
{
    reveal_strlit("}");
    lemma_lit_bytes("}"@);
    let cb = encode_utf8("}"@);
    let r3 = tree_branches_bytes(t);
    if t.branches.len() == 0 {
        assert(branches_json(t.branches) == Seq::<char>::empty());
        assert(encode_utf8(branches_json(t.branches)) =~= Seq::<u8>::empty());
        assert(r3 =~= cb + cb);
        lemma_after_prefix(cb, cb);
        assert(t.branches =~= Seq::<(Seq<char>, BranchView)>::empty());
    } else {
        lemma_branches_json_round_trip(t.branches, cb, t.branches.len(), ft, pt);
        lemma_branches_json_round_trip(t.branches, cb, r3.len(), ft, pt);
        assert(r3[0] == 34);
        lemma_not_after(r3, cb);
    }
}

#[verifier::spinoff_prover]
proof fn lemma_tree_fields_step(t: TreeView, rr: Seq<u8>)
    requires
        rr.len() > 0 && rr[0] != 34,
    ensures
        ({
            let r1 = encode_utf8(fields_json(t.metadata)) + (encode_utf8(quoted("branches"@) + ":"@) + rr);
            parse_fields_json(r1, r1.len(), "branches"@) == Some((t.metadata, rr))
        }),
{
    reveal_strlit("branches");
    lemma_lit_bytes("branches"@);
    let r1 = encode_utf8(fields_json(t.metadata)) + (encode_utf8(quoted("branches"@) + ":"@) + rr);
    lemma_fields_json_round_trip(t.metadata, "branches"@, rr, t.metadata.len() + 1);
    lemma_fields_json_round_trip(t.metadata, "branches"@, rr, r1.len());
}

/// A Tree reads back from its text form, where its names are distinct, each
/// Branch holds a Collection of the type its tag names, and the float text
/// and reader fit together. Names, values and strings may hold any character,
/// and a metadata field may have any name, `branches` included.
#[verifier::spinoff_prover]
pub proof fn law_tree_json_round_trip(t: TreeView, ft: spec_fn(u64) -> Seq<char>, pt: spec_fn(Seq<u8>) -> Option<u64>)
    requires
        float_text_ok(ft, pt),
        keys_distinct(t.metadata),
        keys_distinct(t.branches),
        forall|i: int|
            0 <= i < t.branches.len() ==> branch_text_readable((#[trigger] t.branches[i]).1, ft),
    ensures
        parse_tree_json(encode_utf8(tree_json(t)), ft, pt) == Ok::<(TreeView, Seq<u8>), CalcifyError>((t, Seq::<u8>::empty())),
{
    reveal_strlit("}");
    reveal_strlit("{");
    lemma_lit_bytes("}"@);
    lemma_lit_bytes("{"@);
    let cb = encode_utf8("}"@);
    let ob = encode_utf8("{"@);
    let r3 = tree_branches_bytes(t);
    let rr = ob + r3;
    let r1 = encode_utf8(fields_json(t.metadata)) + (encode_utf8(quoted("branches"@) + ":"@) + rr);
    let e = Seq::<u8>::empty();
    lemma_tree_json_bytes(t);
    assert(encode_utf8(tree_json(t)) == ob + r1);
    lemma_after_prefix(ob, r1);
    assert(rr[0] == 123);
    lemma_tree_fields_step(t, rr);
    lemma_after_prefix(ob, r3);
    lemma_tree_branches_step(t, ft, pt);
    assert(cb =~= cb + e);
    lemma_after_prefix(cb, e);
}

/// The text of one named feed: `"<name>":<collection>`.
pub open spec fn feed_item_json<T: Serializable>(p: (Seq<char>, Seq<T::V>), ft: spec_fn(u64) -> Seq<char>) -> Seq<char> {
    quoted(p.0) + ":"@ + Collection::<T>::json_of(p.1, ft)
}

#[verifier::spinoff_prover]
proof fn lemma_feeds_json_prepend<T: Serializable>(p: (Seq<char>, Seq<T::V>), s: Seq<(Seq<char>, Seq<T::V>)>, ft: spec_fn(u64) -> Seq<char>)
    requires
        s.len() > 0,
    ensures
        feeds_json::<T>(seq![p] + s, ft) == feed_item_json::<T>(p, ft) + ","@ + feeds_json::<T>(s, ft),
    decreases s.len(),
{
    let xs = seq![p] + s;
    if s.len() == 1 {
        assert(xs.drop_last() =~= seq![p]);
        assert(xs.last() == s[0]);
        assert(feeds_json::<T>(seq![p], ft) == feed_item_json::<T>(p, ft));
        assert(feeds_json::<T>(s, ft) == feed_item_json::<T>(s[0], ft));
        assert(feeds_json::<T>(xs, ft) =~= feed_item_json::<T>(p, ft) + ","@ + feeds_json::<T>(s, ft));
    } else {
        lemma_feeds_json_prepend::<T>(p, s.drop_last(), ft);
        assert(xs.drop_last() =~= seq![p] + s.drop_last());
        assert(xs.last() == s.last());
        assert(feeds_json::<T>(xs, ft) =~= feed_item_json::<T>(p, ft) + ","@ + feeds_json::<T>(s, ft));
    }
}

#[verifier::spinoff_prover]
proof fn lemma_feed_item_bytes<T: Serializable>(p: (Seq<char>, Seq<T::V>), rest: Seq<u8>, ft: spec_fn(u64) -> Seq<char>)
    ensures
        encode_utf8(feed_item_json::<T>(p, ft)) + rest == encode_utf8(quoted(p.0)) + (encode_utf8(":"@) + (
        encode_utf8(Collection::<T>::json_of(p.1, ft)) + rest)),
{
    lemma_utf8_concat(quoted(p.0) + ":"@, Collection::<T>::json_of(p.1, ft));
    lemma_utf8_concat(quoted(p.0), ":"@);
    assert(encode_utf8(feed_item_json::<T>(p, ft)) + rest =~= encode_utf8(quoted(p.0)) + (encode_utf8(":"@) + (
    encode_utf8(Collection::<T>::json_of(p.1, ft)) + rest)));
}

#[verifier::spinoff_prover]
proof fn lemma_feeds_json_round_trip<T: Deserializable>(s: Seq<(Seq<char>, Seq<T::V>)>, rest: Seq<u8>, fuel: nat, ft: spec_fn(u64) -> Seq<char>, pt: spec_fn(Seq<u8>) -> Option<u64>)
    requires
        float_text_ok(ft, pt),
        s.len() > 0,
        fuel >= s.len(),
    ensures
        parse_feeds_json::<T>(encode_utf8(feeds_json::<T>(s, ft)) + (encode_utf8("}"@) + rest), fuel, pt) == Some((s, rest)),
        encode_utf8(feeds_json::<T>(s, ft)).len() >= s.len(),
        encode_utf8(feeds_json::<T>(s, ft))[0] == 34,
    decreases s.len(),
{
    reveal_strlit(":");
    reveal_strlit(",");
    reveal_strlit("}");
    lemma_lit_bytes(":"@);
    lemma_lit_bytes(","@);
    lemma_lit_bytes("}"@);
    let co = encode_utf8(":"@);
    let cm = encode_utf8(","@);
    let cb = encode_utf8("}"@);
    let p = s[0];
    if s.len() == 1 {
        assert(feeds_json::<T>(s, ft) == feed_item_json::<T>(p, ft));
        let r4 = cb + rest;
        let r3 = encode_utf8(Collection::<T>::json_of(p.1, ft)) + r4;
        let r2 = co + r3;
        lemma_feed_item_bytes::<T>(p, r4, ft);
        lemma_quoted(p.0, r2);
        lemma_string_text(p.0, r2);
        lemma_after_prefix(co, r3);
        assert(r4[0] == 125);
        Collection::<T>::lemma_json_round_trip(p.1, r4, ft, pt);
        lemma_after_prefix(cb, rest);
        assert(seq![(p.0, p.1)] =~= s);
        lemma_utf8_concat(quoted(p.0) + ":"@, Collection::<T>::json_of(p.1, ft));
        lemma_utf8_concat(quoted(p.0), ":"@);
    } else {
        let tl = s.drop_first();
        assert(s =~= seq![p] + tl);
        lemma_feeds_json_prepend::<T>(p, tl, ft);
        lemma_feeds_json_round_trip::<T>(tl, rest, (fuel - 1) as nat, ft, pt);
        let r6 = encode_utf8(feeds_json::<T>(tl, ft)) + (cb + rest);
        let r4 = cm + r6;
        let r3 = encode_utf8(Collection::<T>::json_of(p.1, ft)) + r4;
        let r2 = co + r3;
        lemma_utf8_concat(feed_item_json::<T>(p, ft) + ","@, feeds_json::<T>(tl, ft));
        lemma_utf8_concat(feed_item_json::<T>(p, ft), ","@);
        lemma_feed_item_bytes::<T>(p, r4, ft);
        assert(encode_utf8(feeds_json::<T>(s, ft)) + (cb + rest) =~= encode_utf8(feed_item_json::<T>(p, ft)) + r4);
        lemma_quoted(p.0, r2);
        lemma_string_text(p.0, r2);
        lemma_after_prefix(co, r3);
        assert(r4[0] == 44);
        Collection::<T>::lemma_json_round_trip(p.1, r4, ft, pt);
        lemma_not_after(r4, cb);
        lemma_after_prefix(cm, r6);
        assert(seq![(p.0, p.1)] + tl =~= s);
        lemma_utf8_concat(quoted(p.0) + ":"@, Collection::<T>::json_of(p.1, ft));
        lemma_utf8_concat(quoted(p.0), ":"@);
    }
}

#[verifier::spinoff_prover]
proof fn lemma_feedtree_json_bytes<T: Serializable>(t: FeedTreeView<T::V>, ft: spec_fn(u64) -> Seq<char>)
    ensures
        encode_utf8(feedtree_json::<T>(t, ft)) == encode_utf8("{"@) + (encode_utf8(fields_json(t.metadata)) + (
        encode_utf8(quoted("feeds"@) + ":"@) + (encode_utf8("{"@) + (encode_utf8(
            feeds_json::<T>(t.feeds, ft),
        ) + (encode_utf8("}"@) + encode_utf8("}"@)))))),
{
    reveal_strlit("\"feeds\":{");
    reveal_strlit("}}");
    reveal_strlit("}");
    reveal_strlit("{");
    reveal_strlit("feeds");
    reveal_strlit("\"");
    reveal_strlit(":");
    let a = "{"@;
    let f = fields_json(t.metadata);
    let k = quoted("feeds"@) + ":"@;
    let o = "{"@;
    let bj = feeds_json::<T>(t.feeds, ft);
    let c = "}"@;
    lemma_escape_plain("feeds"@);
    assert("\"feeds\":{"@ =~= k + o);
    assert("}}"@ =~= c + c);
    assert(feedtree_json::<T>(t, ft) =~= a + f + k + o + bj + c + c);
    lemma_utf8_concat(a + f + k + o + bj + c, c);
    lemma_utf8_concat(a + f + k + o + bj, c);
    lemma_utf8_concat(a + f + k + o, bj);
    lemma_utf8_concat(a + f + k, o);
    lemma_utf8_concat(a + f, k);
    lemma_utf8_concat(a, f);
    assert(encode_utf8(feedtree_json::<T>(t, ft)) =~= encode_utf8(a) + (encode_utf8(f) + (encode_utf8(k) + (
    encode_utf8(o) + (encode_utf8(bj) + (encode_utf8(c) + encode_utf8(c)))))));
}

/// The text of the feeds of a FeedTree, then the closing brace of the FeedTree.
pub open spec fn feedtree_feeds_bytes<T: Serializable>(t: FeedTreeView<T::V>, ft: spec_fn(u64) -> Seq<char>) -> Seq<u8> {
    encode_utf8(feeds_json::<T>(t.feeds, ft)) + (encode_utf8("}"@) + encode_utf8("}"@))
}

#[verifier::spinoff_prover]
proof fn lemma_feedtree_feeds_step<T: Deserializable>(t: FeedTreeView<T::V>, ft: spec_fn(u64) -> Seq<char>, pt: spec_fn(Seq<u8>) -> Option<u64>)
    requires
        float_text_ok(ft, pt),
    ensures
        (match after(feedtree_feeds_bytes::<T>(t, ft), encode_utf8("}"@)) {
            Some(r4) => Some((Seq::<(Seq<char>, Seq<T::V>)>::empty(), r4)),
            None => parse_feeds_json::<T>(feedtree_feeds_bytes::<T>(t, ft), feedtree_feeds_bytes::<T>(t, ft).len(), pt),
        }) == Some((t.feeds, encode_utf8("}"@))),
{
    reveal_strlit("}");
    lemma_lit_bytes("}"@);
    let cb = encode_utf8("}"@);
    let r3 = feedtree_feeds_bytes::<T>(t, ft);
    if t.feeds.len() == 0 {
        assert(feeds_json::<T>(t.feeds, ft) == Seq::<char>::empty());
        assert(encode_utf8(feeds_json::<T>(t.feeds, ft)) =~= Seq::<u8>::empty());
        assert(r3 =~= cb + cb);
        lemma_after_prefix(cb, cb);
        assert(t.feeds =~= Seq::<(Seq<char>, Seq<T::V>)>::empty());
    } else {
        lemma_feeds_json_round_trip::<T>(t.feeds, cb, t.feeds.len(), ft, pt);
        lemma_feeds_json_round_trip::<T>(t.feeds, cb, r3.len(), ft, pt);
        assert(r3[0] == 34);
        lemma_not_after(r3, cb);
    }
}

#[verifier::spinoff_prover]
proof fn lemma_feedtree_fields_step(md: Seq<(Seq<char>, Seq<char>)>, rr: Seq<u8>)
    requires
        rr.len() > 0 && rr[0] != 34,
    ensures
        ({
            let r1 = encode_utf8(fields_json(md)) + (encode_utf8(quoted("feeds"@) + ":"@) + rr);
            parse_fields_json(r1, r1.len(), "feeds"@) == Some((md, rr))
        }),
{
    reveal_strlit("feeds");
    lemma_lit_bytes("feeds"@);
    let r1 = encode_utf8(fields_json(md)) + (encode_utf8(quoted("feeds"@) + ":"@) + rr);
    lemma_fields_json_round_trip(md, "feeds"@, rr, md.len() + 1);
    lemma_fields_json_round_trip(md, "feeds"@, rr, r1.len());
}

/// A FeedTree reads back from its text form, where its names are distinct and
/// the float text and reader fit together; every feed comes back with the
/// same records in the same order.
#[verifier::spinoff_prover]
pub proof fn law_feedtree_json_round_trip<T: Deserializable>(t: FeedTreeView<T::V>, ft: spec_fn(u64) -> Seq<char>, pt: spec_fn(Seq<u8>) -> Option<u64>)
    requires
        float_text_ok(ft, pt),
        keys_distinct(t.metadata),
        keys_distinct(t.feeds),
    ensures
        parse_feedtree_json::<T>(encode_utf8(feedtree_json::<T>(t, ft)), pt) == Some((t, Seq::<u8>::empty())),
{
    reveal_strlit("}");
    reveal_strlit("{");
    lemma_lit_bytes("}"@);
    lemma_lit_bytes("{"@);
    let cb = encode_utf8("}"@);
    let ob = encode_utf8("{"@);
    let r3 = feedtree_feeds_bytes::<T>(t, ft);
    let rr = ob + r3;
    let r1 = encode_utf8(fields_json(t.metadata)) + (encode_utf8(quoted("feeds"@) + ":"@) + rr);
    let e = Seq::<u8>::empty();
    lemma_feedtree_json_bytes::<T>(t, ft);
    assert(encode_utf8(feedtree_json::<T>(t, ft)) == ob + r1);
    lemma_after_prefix(ob, r1);
    assert(rr[0] == 123);
    lemma_feedtree_fields_step(t.metadata, rr);
    lemma_after_prefix(ob, r3);
    lemma_feedtree_feeds_step::<T>(t, ft, pt);
    assert(cb =~= cb + e);
    lemma_after_prefix(cb, e);
}

} // verus!
