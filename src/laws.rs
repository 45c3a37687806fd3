//! The laws that tie the encoders to the decoders.
use vstd::prelude::*;
use vstd::utf8::encode_utf8;
use crate::branch::{branch_msg, parse_branch, tag_of, tag_parse, typed_parse, BranchView, Tag};
use crate::codec::{float_text_ok, Deserializable, Serializable};
use crate::collection::Collection;
use crate::errors::CalcifyError;
use crate::feedtree::{feedtree_fits, feedtree_msg, feeds_msg, parse_feeds, parse_feedtree, FeedTreeView};
use crate::keyed::{fields_msg, keys_distinct, lemma_fields_round_trip, parse_fields};
use crate::msgpack::{
    lemma_ascii_fits, lemma_map_len_round_trip, lemma_str_round_trip, map_len_bytes, parse_map_len,
    parse_str, str_bytes, str_fits,
};
use crate::records::{Bin, FourMat, FourVec, Point, PointBin, Real, ThreeMat, ThreeVec};
use crate::tree::{branches_msg, parse_branches, parse_tree, tree_fits, tree_msg, TreeView};

verus! {

/// Any record, and any Collection of records, reads back from its binary
/// form, whatever bytes follow it.
#[verifier::spinoff_prover]
pub proof fn law_msg_round_trip<T: Deserializable>(v: T::V, rest: Seq<u8>)
    requires
        T::encodable(v),
    ensures
        T::parse_msg(T::msg_of(v) + rest) == Some((v, rest)),
{
    T::lemma_msg_round_trip(v, rest);
}

/// Any record, and any Collection of records, reads back from its whole text
/// form.
#[verifier::spinoff_prover]
pub proof fn law_json_round_trip<T: Deserializable>(v: T::V, ft: spec_fn(u64) -> Seq<char>, pt: spec_fn(Seq<u8>) -> Option<u64>)
    requires
        float_text_ok(ft, pt),
    ensures
        T::parse_json(encode_utf8(T::json_of(v, ft)), pt) == Some((v, Seq::<u8>::empty())),
{
    T::lemma_json_round_trip(v, Seq::empty(), ft, pt);
    assert(encode_utf8(T::json_of(v, ft)) + Seq::<u8>::empty() =~= encode_utf8(T::json_of(v, ft)));
}

/// A Collection, of any length, reads back from its binary form as the same
/// records in the same order.
#[verifier::spinoff_prover]
pub proof fn law_collection_round_trip<T: Deserializable>(v: Seq<T::V>)
    requires
        Collection::<T>::fits(v),
    ensures
        Collection::<T>::parse_msg(Collection::<T>::msg_of(v)) == Some((v, Seq::<u8>::empty())),
{
    Collection::<T>::lemma_msg_round_trip(v, Seq::empty());
    assert(Collection::<T>::msg_of(v) + Seq::<u8>::empty() =~= Collection::<T>::msg_of(v));
}

/// Whether the Branch holds the forms of some Collection of `T`.
pub open spec fn typed_form<T: Serializable>(b: BranchView, ft: spec_fn(u64) -> Seq<char>) -> bool {
    exists|v: Seq<T::V>|
        Collection::<T>::fits(v) && b.msg == Collection::<T>::msg_of(v) && b.json
            == Collection::<T>::json_of(v, ft)
}

/// Whether the Branch holds a Collection of the record type that its tag names,
/// the `Object` tag excepted.
#[verifier::opaque]
pub open spec fn branch_readable(b: BranchView, ft: spec_fn(u64) -> Seq<char>) -> bool {
    &&& str_fits(b.subtype)
    &&& match tag_of(b.subtype) {
        Some(Tag::F64) => typed_form::<Real>(b, ft),
        Some(Tag::Str) => typed_form::<String>(b, ft),
        Some(Tag::ThreeVec) => typed_form::<ThreeVec>(b, ft),
        Some(Tag::ThreeMat) => typed_form::<ThreeMat>(b, ft),
        Some(Tag::FourVec) => typed_form::<FourVec>(b, ft),
        Some(Tag::FourMat) => typed_form::<FourMat>(b, ft),
        Some(Tag::Bin) => typed_form::<Bin>(b, ft),
        Some(Tag::Point) => typed_form::<Point>(b, ft),
        Some(Tag::PointBin) => typed_form::<PointBin>(b, ft),
        _ => false,
    }
}

#[verifier::spinoff_prover]
proof fn lemma_typed_round_trip<T: Deserializable>(b: BranchView, rest: Seq<u8>, ft: spec_fn(u64) -> Seq<char>)
    requires
        typed_form::<T>(b, ft),
    ensures
        typed_parse::<T>(b.msg + rest, ft) == Some((b.json, b.msg, rest)),
{
    let v = choose|v: Seq<T::V>|
        Collection::<T>::fits(v) && b.msg == Collection::<T>::msg_of(v) && b.json
            == Collection::<T>::json_of(v, ft);
    Collection::<T>::lemma_msg_round_trip(v, rest);
}

/// The header of a Branch, up to its collection: a map of two entries, the
/// key `subtype`, the tag, the key `branch`.
#[verifier::spinoff_prover]
proof fn lemma_branch_header(b: BranchView, rest: Seq<u8>)
    requires
        str_fits(b.subtype),
    ensures
        ({
            let r1 = str_bytes("subtype"@) + str_bytes(b.subtype) + str_bytes("branch"@) + b.msg + rest;
            let r2 = str_bytes(b.subtype) + str_bytes("branch"@) + b.msg + rest;
            let r3 = str_bytes("branch"@) + b.msg + rest;
            &&& branch_msg(b) + rest == map_len_bytes(2) + r1
            &&& parse_map_len(map_len_bytes(2) + r1) == Some((2u32, r1))
            &&& parse_str(r1) == Some(("subtype"@, r2))
            &&& parse_str(r2) == Some((b.subtype, r3))
            &&& parse_str(r3) == Some(("branch"@, b.msg + rest))
        }),
{
    reveal_strlit("subtype");
    reveal_strlit("branch");
    lemma_ascii_fits("subtype"@);
    lemma_ascii_fits("branch"@);
    let r1 = str_bytes("subtype"@) + str_bytes(b.subtype) + str_bytes("branch"@) + b.msg + rest;
    let r2 = str_bytes(b.subtype) + str_bytes("branch"@) + b.msg + rest;
    let r3 = str_bytes("branch"@) + b.msg + rest;
    assert(branch_msg(b) + rest =~= map_len_bytes(2) + r1);
    lemma_map_len_round_trip(2, r1);
    assert(r1 =~= str_bytes("subtype"@) + r2);
    lemma_str_round_trip("subtype"@, r2);
    assert(r2 =~= str_bytes(b.subtype) + r3);
    lemma_str_round_trip(b.subtype, r3);
    assert(r3 =~= str_bytes("branch"@) + (b.msg + rest));
    lemma_str_round_trip("branch"@, b.msg + rest);
}

/// A Branch made from any Collection of Points under the tag `Point` holds
/// what its tag names, so it reads back from a Tree's binary form.
#[verifier::spinoff_prover]
pub proof fn law_point_branch_readable(v: Seq<Point>, ft: spec_fn(u64) -> Seq<char>)
    requires
        Collection::<Point>::fits(v),
    ensures
        branch_readable(
            BranchView {
                subtype: "Point"@,
                json: Collection::<Point>::json_of(v, ft),
                msg: Collection::<Point>::msg_of(v),
            },
            ft,
        ),
{
    reveal_strlit("Point");
    reveal_strlit("f64");
    reveal_strlit("String");
    reveal_strlit("ThreeVec");
    reveal_strlit("ThreeMat");
    reveal_strlit("FourVec");
    reveal_strlit("FourMat");
    reveal_strlit("Bin");
    lemma_ascii_fits("Point"@);
    assert(tag_of("Point"@) == Some(Tag::Point));
    let b = BranchView {
        subtype: "Point"@,
        json: Collection::<Point>::json_of(v, ft),
        msg: Collection::<Point>::msg_of(v),
    };
    assert(typed_form::<Point>(b, ft));
    reveal(branch_readable);
}

/// A Branch that holds a Collection of the type its tag names reads back from
/// its binary form, whatever bytes follow it.
#[verifier::spinoff_prover]
pub proof fn law_branch_round_trip(b: BranchView, rest: Seq<u8>, ft: spec_fn(u64) -> Seq<char>)
    requires
        branch_readable(b, ft),
    ensures
        parse_branch(branch_msg(b) + rest, ft) == Ok::<(BranchView, Seq<u8>), CalcifyError>((b, rest)),
{
    reveal(branch_readable);
    lemma_branch_header(b, rest);
    let t = tag_of(b.subtype)->0;
    match t {
        Tag::F64 => lemma_typed_round_trip::<Real>(b, rest, ft),
        Tag::Str => lemma_typed_round_trip::<String>(b, rest, ft),
        Tag::ThreeVec => lemma_typed_round_trip::<ThreeVec>(b, rest, ft),
        Tag::ThreeMat => lemma_typed_round_trip::<ThreeMat>(b, rest, ft),
        Tag::FourVec => lemma_typed_round_trip::<FourVec>(b, rest, ft),
        Tag::FourMat => lemma_typed_round_trip::<FourMat>(b, rest, ft),
        Tag::Bin => lemma_typed_round_trip::<Bin>(b, rest, ft),
        Tag::Point => lemma_typed_round_trip::<Point>(b, rest, ft),
        Tag::PointBin => lemma_typed_round_trip::<PointBin>(b, rest, ft),
        Tag::Object => {},
    }
    assert(tag_parse(t, b.msg + rest, ft) == Some((b.json, b.msg, rest)));
}

/// A Branch whose tag is outside the closed set reads back as a `ParseError`;
/// one tagged `Object` as an `ObjectBranchDeserializeError`.
#[verifier::spinoff_prover]
pub proof fn law_tag_closure(b: BranchView, rest: Seq<u8>, ft: spec_fn(u64) -> Seq<char>)
    requires
        str_fits(b.subtype),
    ensures
        tag_of(b.subtype) is None ==> parse_branch(branch_msg(b) + rest, ft) == Err::<(BranchView, Seq<u8>), CalcifyError>(CalcifyError::ParseError),
        b.subtype == "Object"@ ==> parse_branch(branch_msg(b) + rest, ft) == Err::<(BranchView, Seq<u8>), CalcifyError>(CalcifyError::ObjectBranchDeserializeError),
{
    lemma_branch_header(b, rest);
    if b.subtype == "Object"@ {
        reveal_strlit("Object");
        reveal_strlit("f64");
        reveal_strlit("String");
        reveal_strlit("ThreeVec");
        reveal_strlit("ThreeMat");
        reveal_strlit("FourVec");
        reveal_strlit("FourMat");
        reveal_strlit("Bin");
        reveal_strlit("Point");
        reveal_strlit("PointBin");
        assert(tag_of(b.subtype) == Some(Tag::Object));
    }
}

#[verifier::spinoff_prover]
proof fn lemma_branches_round_trip(s: Seq<(Seq<char>, BranchView)>, rest: Seq<u8>, ft: spec_fn(u64) -> Seq<char>)
    requires
        forall|i: int| 0 <= i < s.len() ==> str_fits((#[trigger] s[i]).0) && branch_readable(s[i].1, ft),
    ensures
        parse_branches(branches_msg(s) + rest, s.len(), ft) == Ok::<(Seq<(Seq<char>, BranchView)>, Seq<u8>), CalcifyError>((s, rest)),
    decreases s.len(),
{
    if s.len() == 0 {
        assert(branches_msg(s) + rest =~= rest);
        assert(s =~= Seq::<(Seq<char>, BranchView)>::empty());
    } else {
        let tail = s.drop_first();
        assert forall|i: int| 0 <= i < tail.len() implies str_fits((#[trigger] tail[i]).0) && branch_readable(tail[i].1, ft) by {
            assert(tail[i] == s[i + 1]);
        }
        let after = branches_msg(tail) + rest;
        assert(parse_branches(after, tail.len(), ft) == Ok::<(Seq<(Seq<char>, BranchView)>, Seq<u8>), CalcifyError>((tail, rest))) by {
            lemma_branches_round_trip(tail, rest, ft);
        }
        assert(str_fits(s[0].0) && branch_readable(s[0].1, ft));
        let b = branches_msg(s) + rest;
        assert(b =~= str_bytes(s[0].0) + (branch_msg(s[0].1) + after));
        assert(parse_str(b) == Some((s[0].0, branch_msg(s[0].1) + after))) by {
            lemma_str_round_trip(s[0].0, branch_msg(s[0].1) + after);
        }
        assert(parse_branch(branch_msg(s[0].1) + after, ft) == Ok::<(BranchView, Seq<u8>), CalcifyError>((s[0].1, after))) by {
            law_branch_round_trip(s[0].1, after, ft);
        }
        assert(seq![(s[0].0, s[0].1)] + tail =~= s);
    }
}

/// A Tree reads back from its binary form, where its names are distinct and
/// each Branch holds a Collection of the type its tag names; a metadata field
/// may have any name, `branches` included.
#[verifier::spinoff_prover]
pub proof fn law_tree_round_trip(t: TreeView, ft: spec_fn(u64) -> Seq<char>)
    requires
        keys_distinct(t.metadata),
        keys_distinct(t.branches),
        tree_fits(t),
        forall|i: int| 0 <= i < t.branches.len() ==> branch_readable((#[trigger] t.branches[i]).1, ft),
    ensures
        parse_tree(tree_msg(t), ft) == Ok::<(TreeView, Seq<u8>), CalcifyError>((t, Seq::<u8>::empty())),
{
    reveal_strlit("branches");
    lemma_ascii_fits("branches"@);
    let n = (t.metadata.len() + 1) as u32;
    let m = t.branches.len() as u32;
    let tail = branches_msg(t.branches);
    let rest_f = map_len_bytes(m) + tail;
    let r1 = fields_msg(t.metadata) + str_bytes("branches"@) + rest_f;
    let b = tree_msg(t);
    assert(b =~= map_len_bytes(n) + r1);
    assert(parse_map_len(b) == Some((n, r1))) by {
        lemma_map_len_round_trip(n, r1);
    }
    assert(parse_fields(r1, n as nat, "branches"@) == Some((t.metadata, rest_f))) by {
        lemma_fields_round_trip(t.metadata, "branches"@, rest_f);
    }
    assert(parse_map_len(rest_f) == Some((m, tail))) by {
        lemma_map_len_round_trip(m, tail);
    }
    assert(parse_branches(tail, m as nat, ft) == Ok::<(Seq<(Seq<char>, BranchView)>, Seq<u8>), CalcifyError>((t.branches, Seq::<u8>::empty()))) by {
        assert forall|i: int| 0 <= i < t.branches.len() implies str_fits((#[trigger] t.branches[i]).0) && branch_readable(t.branches[i].1, ft) by {}
        lemma_branches_round_trip(t.branches, Seq::empty(), ft);
        assert(tail + Seq::<u8>::empty() =~= tail);
    }
}

#[verifier::spinoff_prover]
proof fn lemma_feeds_round_trip<T: Deserializable>(s: Seq<(Seq<char>, Seq<T::V>)>, rest: Seq<u8>)
    requires
        forall|i: int| 0 <= i < s.len() ==> str_fits((#[trigger] s[i]).0) && Collection::<T>::fits(s[i].1),
    ensures
        parse_feeds::<T>(feeds_msg::<T>(s) + rest, s.len()) == Some((s, rest)),
    decreases s.len(),
{
    if s.len() == 0 {
        assert(feeds_msg::<T>(s) + rest =~= rest);
        assert(s =~= Seq::<(Seq<char>, Seq<T::V>)>::empty());
    } else {
        let tail = s.drop_first();
        assert forall|i: int| 0 <= i < tail.len() implies str_fits((#[trigger] tail[i]).0) && Collection::<T>::fits(tail[i].1) by {
            assert(tail[i] == s[i + 1]);
        }
        let after = feeds_msg::<T>(tail) + rest;
        assert(parse_feeds::<T>(after, tail.len()) == Some((tail, rest))) by {
            lemma_feeds_round_trip::<T>(tail, rest);
        }
        assert(str_fits(s[0].0) && Collection::<T>::fits(s[0].1));
        let b = feeds_msg::<T>(s) + rest;
        assert(b =~= str_bytes(s[0].0) + (Collection::<T>::msg_of(s[0].1) + after));
        assert(parse_str(b) == Some((s[0].0, Collection::<T>::msg_of(s[0].1) + after))) by {
            lemma_str_round_trip(s[0].0, Collection::<T>::msg_of(s[0].1) + after);
        }
        assert(Collection::<T>::parse_msg(Collection::<T>::msg_of(s[0].1) + after) == Some((s[0].1, after))) by {
            Collection::<T>::lemma_msg_round_trip(s[0].1, after);
        }
        assert(seq![(s[0].0, s[0].1)] + tail =~= s);
    }
}

/// A FeedTree reads back from its binary form, where its names are distinct:
/// every feed comes back with the same records in the same order, those
/// appended after creation included, and a metadata field may have any name.
#[verifier::spinoff_prover]
pub proof fn law_feedtree_round_trip<T: Deserializable>(t: FeedTreeView<T::V>)
    requires
        keys_distinct(t.metadata),
        keys_distinct(t.feeds),
        feedtree_fits::<T>(t),
    ensures
        parse_feedtree::<T>(feedtree_msg::<T>(t)) == Some((t, Seq::<u8>::empty())),
{
    reveal_strlit("feeds");
    lemma_ascii_fits("feeds"@);
    let n = (t.metadata.len() + 1) as u32;
    let m = t.feeds.len() as u32;
    let tail = feeds_msg::<T>(t.feeds);
    let rest_f = map_len_bytes(m) + tail;
    let r1 = fields_msg(t.metadata) + str_bytes("feeds"@) + rest_f;
    let b = feedtree_msg::<T>(t);
    assert(b =~= map_len_bytes(n) + r1);
    assert(parse_map_len(b) == Some((n, r1))) by {
        lemma_map_len_round_trip(n, r1);
    }
    assert(parse_fields(r1, n as nat, "feeds"@) == Some((t.metadata, rest_f))) by {
        lemma_fields_round_trip(t.metadata, "feeds"@, rest_f);
    }
    assert(parse_map_len(rest_f) == Some((m, tail))) by {
        lemma_map_len_round_trip(m, tail);
    }
    assert(parse_feeds::<T>(tail, m as nat) == Some((t.feeds, Seq::<u8>::empty()))) by {
        lemma_feeds_round_trip::<T>(t.feeds, Seq::empty());
        assert(tail + Seq::<u8>::empty() =~= tail);
    }
}

} // verus!
