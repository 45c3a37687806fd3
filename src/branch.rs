//! A Branch: a collection held under a subtype tag from a closed set, kept in
//! its encoded forms, and the tag dispatch that decodes it again.
use vstd::prelude::*;
use vstd::string::StringExecFns;
use crate::codec::{quoted, read_fn, read_ok, show_fn, show_ok, Deserializable, Serializable};
use crate::collection::Collection;
use vstd::utf8::encode_utf8;
use crate::errors::CalcifyError;
use crate::text::{after, escaped, parse_escaped, read_escaped, strip_lit};
use crate::msgpack::{
    lemma_ascii_fits, map_len_bytes, parse_map_len, parse_str,
    put_map_len, put_str, str_bytes, str_fits, take_map_len, take_str,
};
use crate::records::{Bin, FourMat, FourVec, Point, PointBin, Real, ThreeMat, ThreeVec};

verus! {

/// The closed set of subtype tags.
#[derive(Debug, Clone, Copy, PartialEq, Eq, Structural)]
pub enum Tag {
    F64,
    Str,
    ThreeVec,
    ThreeMat,
    FourVec,
    FourMat,
    Bin,
    Point,
    PointBin,
    /// Write-only: any record type may be stored under it, none read back.
    Object,
}

impl Tag {
    /// The text of the tag.
    pub open spec fn name(self) -> Seq<char> {
        match self {
            Tag::F64 => "f64"@,
            Tag::Str => "String"@,
            Tag::ThreeVec => "ThreeVec"@,
            Tag::ThreeMat => "ThreeMat"@,
            Tag::FourVec => "FourVec"@,
            Tag::FourMat => "FourMat"@,
            Tag::Bin => "Bin"@,
            Tag::Point => "Point"@,
            Tag::PointBin => "PointBin"@,
            Tag::Object => "Object"@,
        }
    }
}

/// The tag whose text is `s`, if any.
pub open spec fn tag_of(s: Seq<char>) -> Option<Tag> {
    if s == "f64"@ {
        Some(Tag::F64)
    } else if s == "String"@ {
        Some(Tag::Str)
    } else if s == "ThreeVec"@ {
        Some(Tag::ThreeVec)
    } else if s == "ThreeMat"@ {
        Some(Tag::ThreeMat)
    } else if s == "FourVec"@ {
        Some(Tag::FourVec)
    } else if s == "FourMat"@ {
        Some(Tag::FourMat)
    } else if s == "Bin"@ {
        Some(Tag::Bin)
    } else if s == "Point"@ {
        Some(Tag::Point)
    } else if s == "PointBin"@ {
        Some(Tag::PointBin)
    } else if s == "Object"@ {
        Some(Tag::Object)
    } else {
        None
    }
}

/// Whether `s` is one of the subtype tags.
pub open spec fn is_subtype(s: Seq<char>) -> bool {
    tag_of(s) is Some
}

/// Whether two strings hold the same characters.
pub(crate) fn same_str(a: &str, b: &str) -> (r: bool)
    ensures
        r == (a@ == b@),
{
    String::from_str(a) == String::from_str(b)
}

/// Returns the tag whose text is `s`, if any.
pub fn tag_from_str(s: &str) -> (r: Option<Tag>)
    ensures
        r == tag_of(s@),
{
    if same_str(s, "f64") {
        Some(Tag::F64)
    } else if same_str(s, "String") {
        Some(Tag::Str)
    } else if same_str(s, "ThreeVec") {
        Some(Tag::ThreeVec)
    } else if same_str(s, "ThreeMat") {
        Some(Tag::ThreeMat)
    } else if same_str(s, "FourVec") {
        Some(Tag::FourVec)
    } else if same_str(s, "FourMat") {
        Some(Tag::FourMat)
    } else if same_str(s, "Bin") {
        Some(Tag::Bin)
    } else if same_str(s, "Point") {
        Some(Tag::Point)
    } else if same_str(s, "PointBin") {
        Some(Tag::PointBin)
    } else if same_str(s, "Object") {
        Some(Tag::Object)
    } else {
        None
    }
}

/// Whether `s` is one of the subtype tags.
pub fn is_valid_subtype(s: &str) -> (r: bool)
    ensures
        r == is_subtype(s@),
{
    tag_from_str(s).is_some()
}

/// A collection stored under a subtype tag, held in its text and binary forms.
#[derive(Debug)]
pub struct Branch {
    subtype: String,
    json: String,
    msg: Vec<u8>,
}

/// What a Branch holds: its subtype, the text form and the binary form of its
/// collection.
pub struct BranchView {
    pub subtype: Seq<char>,
    pub json: Seq<char>,
    pub msg: Seq<u8>,
}

impl View for Branch {
    type V = BranchView;

    closed spec fn view(&self) -> BranchView {
        BranchView { subtype: self.subtype@, json: self.json@, msg: self.msg@ }
    }
}

/// The text form of a Branch.
pub open spec fn branch_json(b: BranchView) -> Seq<char> {
    "{\"subtype\":"@ + quoted(b.subtype) + ",\"branch\":"@ + b.json + "}"@
}

/// The binary form of a Branch: a map of two entries.
pub open spec fn branch_msg(b: BranchView) -> Seq<u8> {
    map_len_bytes(2) + str_bytes("subtype"@) + str_bytes(b.subtype) + str_bytes("branch"@) + b.msg
}

/// Reads a collection of `T` and gives its text form, its binary form and the
/// bytes after it.
pub open spec fn typed_parse<T: Deserializable>(b: Seq<u8>, ft: spec_fn(u64) -> Seq<char>) -> Option<(Seq<char>, Seq<u8>, Seq<u8>)> {
    match Collection::<T>::parse_msg(b) {
        Some((v, r)) => if Collection::<T>::fits(v) {
            Some((Collection::<T>::json_of(v, ft), Collection::<T>::msg_of(v), r))
        } else {
            None
        },
        None => None,
    }
}

/// Reads the collection of the record type that a readable tag names.
pub open spec fn tag_parse(t: Tag, b: Seq<u8>, ft: spec_fn(u64) -> Seq<char>) -> Option<(Seq<char>, Seq<u8>, Seq<u8>)> {
    match t {
        Tag::F64 => typed_parse::<Real>(b, ft),
        Tag::Str => typed_parse::<String>(b, ft),
        Tag::ThreeVec => typed_parse::<ThreeVec>(b, ft),
        Tag::ThreeMat => typed_parse::<ThreeMat>(b, ft),
        Tag::FourVec => typed_parse::<FourVec>(b, ft),
        Tag::FourMat => typed_parse::<FourMat>(b, ft),
        Tag::Bin => typed_parse::<Bin>(b, ft),
        Tag::Point => typed_parse::<Point>(b, ft),
        Tag::PointBin => typed_parse::<PointBin>(b, ft),
        Tag::Object => None,
    }
}

/// Reads a Branch: unknown tags are a `ParseError`, the `Object` tag an
/// `ObjectBranchDeserializeError`.
pub open spec fn parse_branch(b: Seq<u8>, ft: spec_fn(u64) -> Seq<char>) -> Result<(BranchView, Seq<u8>), CalcifyError> {
    match parse_map_len(b) {
        Some((n, r1)) => if n != 2 {
            Err(CalcifyError::ParseError)
        } else {
            match parse_str(r1) {
                Some((k1, r2)) => if k1 != "subtype"@ {
                    Err(CalcifyError::ParseError)
                } else {
                    match parse_str(r2) {
                        Some((st, r3)) => match parse_str(r3) {
                            Some((k2, r4)) => if k2 != "branch"@ {
                                Err(CalcifyError::ParseError)
                            } else {
                                match tag_of(st) {
                                    None => Err(CalcifyError::ParseError),
                                    Some(t) => if t == Tag::Object {
                                        Err(CalcifyError::ObjectBranchDeserializeError)
                                    } else {
                                        match tag_parse(t, r4, ft) {
                                            Some((j, m, r5)) => Ok(
                                                (BranchView { subtype: st, json: j, msg: m }, r5),
                                            ),
                                            None => Err(CalcifyError::ParseError),
                                        }
                                    },
                                }
                            },
                            None => Err(CalcifyError::ParseError),
                        },
                        None => Err(CalcifyError::ParseError),
                    }
                },
                None => Err(CalcifyError::ParseError),
            }
        },
        None => Err(CalcifyError::ParseError),
    }
}

fn typed_decode<'a, T: Deserializable, F: Fn(u64) -> String>(b: &'a [u8], show: &F) -> (r: Option<(String, Vec<u8>, &'a [u8])>)
    requires
        show_ok(*show),
    ensures
        match typed_parse::<T>(b@, show_fn(*show)) {
            Some((j, m, rest)) => r matches Some((x, y, t)) && x@ == j && y@ == m && t@ == rest,
            None => r is None,
        },
{
    match Collection::<T>::from_msg(b) {
        Ok((c, rest)) => {
            match c.to_msg() {
                Ok(m) => Some((c.to_json(show), m, rest)),
                Err(_) => None,
            }
        },
        Err(_) => None,
    }
}

fn tag_decode<'a, F: Fn(u64) -> String>(t: Tag, b: &'a [u8], show: &F) -> (r: Option<(String, Vec<u8>, &'a [u8])>)
    requires
        show_ok(*show),
    ensures
        match tag_parse(t, b@, show_fn(*show)) {
            Some((j, m, rest)) => r matches Some((x, y, z)) && x@ == j && y@ == m && z@ == rest,
            None => r is None,
        },
{
    match t {
        Tag::F64 => typed_decode::<Real, F>(b, show),
        Tag::Str => typed_decode::<String, F>(b, show),
        Tag::ThreeVec => typed_decode::<ThreeVec, F>(b, show),
        Tag::ThreeMat => typed_decode::<ThreeMat, F>(b, show),
        Tag::FourVec => typed_decode::<FourVec, F>(b, show),
        Tag::FourMat => typed_decode::<FourMat, F>(b, show),
        Tag::Bin => typed_decode::<Bin, F>(b, show),
        Tag::Point => typed_decode::<Point, F>(b, show),
        Tag::PointBin => typed_decode::<PointBin, F>(b, show),
        Tag::Object => None,
    }
}

/// Reads the text form of a collection of `T` and gives its text form, its
/// binary form and the bytes after it.
pub open spec fn typed_parse_json<T: Deserializable>(b: Seq<u8>, ft: spec_fn(u64) -> Seq<char>, pt: spec_fn(Seq<u8>) -> Option<u64>) -> Option<(Seq<char>, Seq<u8>, Seq<u8>)> {
    match Collection::<T>::parse_json(b, pt) {
        Some((v, r)) => if Collection::<T>::fits(v) {
            Some((Collection::<T>::json_of(v, ft), Collection::<T>::msg_of(v), r))
        } else {
            None
        },
        None => None,
    }
}

/// Reads the text form of the collection of the record type that a readable
/// tag names.
pub open spec fn tag_parse_json(t: Tag, b: Seq<u8>, ft: spec_fn(u64) -> Seq<char>, pt: spec_fn(Seq<u8>) -> Option<u64>) -> Option<(Seq<char>, Seq<u8>, Seq<u8>)> {
    match t {
        Tag::F64 => typed_parse_json::<Real>(b, ft, pt),
        Tag::Str => typed_parse_json::<String>(b, ft, pt),
        Tag::ThreeVec => typed_parse_json::<ThreeVec>(b, ft, pt),
        Tag::ThreeMat => typed_parse_json::<ThreeMat>(b, ft, pt),
        Tag::FourVec => typed_parse_json::<FourVec>(b, ft, pt),
        Tag::FourMat => typed_parse_json::<FourMat>(b, ft, pt),
        Tag::Bin => typed_parse_json::<Bin>(b, ft, pt),
        Tag::Point => typed_parse_json::<Point>(b, ft, pt),
        Tag::PointBin => typed_parse_json::<PointBin>(b, ft, pt),
        Tag::Object => None,
    }
}

/// Reads the text form of a Branch: unknown tags are a `ParseError`, the
/// `Object` tag an `ObjectBranchDeserializeError`.
pub open spec fn parse_branch_json(b: Seq<u8>, ft: spec_fn(u64) -> Seq<char>, pt: spec_fn(Seq<u8>) -> Option<u64>) -> Result<(BranchView, Seq<u8>), CalcifyError> {
    match after(b, encode_utf8("{\"subtype\":\""@)) {
        Some(r1) => match parse_escaped(r1) {
            Some((st, r2)) => match after(r2, encode_utf8(",\"branch\":"@)) {
                Some(r3) => match tag_of(st) {
                    None => Err(CalcifyError::ParseError),
                    Some(t) => if t == Tag::Object {
                        Err(CalcifyError::ObjectBranchDeserializeError)
                    } else {
                        match tag_parse_json(t, r3, ft, pt) {
                            Some((j, m, r4)) => match after(r4, encode_utf8("}"@)) {
                                Some(r5) => Ok((BranchView { subtype: st, json: j, msg: m }, r5)),
                                None => Err(CalcifyError::ParseError),
                            },
                            None => Err(CalcifyError::ParseError),
                        }
                    },
                },
                None => Err(CalcifyError::ParseError),
            },
            None => Err(CalcifyError::ParseError),
        },
        None => Err(CalcifyError::ParseError),
    }
}

fn typed_decode_json<'a, T: Deserializable, P: Fn(Vec<u8>) -> Option<u64>, F: Fn(u64) -> String>(b: &'a [u8], read: &P, show: &F) -> (r: Option<(String, Vec<u8>, &'a [u8])>)
    requires
        read_ok(*read),
        show_ok(*show),
    ensures
        match typed_parse_json::<T>(b@, show_fn(*show), read_fn(*read)) {
            Some((j, m, rest)) => r matches Some((x, y, t)) && x@ == j && y@ == m && t@ == rest,
            None => r is None,
        },
{
    match Collection::<T>::read_json(b, read) {
        Ok((c, rest)) => {
            match c.to_msg() {
                Ok(m) => Some((c.to_json(show), m, rest)),
                Err(_) => None,
            }
        },
        Err(_) => None,
    }
}

fn tag_decode_json<'a, P: Fn(Vec<u8>) -> Option<u64>, F: Fn(u64) -> String>(t: Tag, b: &'a [u8], read: &P, show: &F) -> (r: Option<(String, Vec<u8>, &'a [u8])>)
    requires
        read_ok(*read),
        show_ok(*show),
    ensures
        match tag_parse_json(t, b@, show_fn(*show), read_fn(*read)) {
            Some((j, m, rest)) => r matches Some((x, y, z)) && x@ == j && y@ == m && z@ == rest,
            None => r is None,
        },
{
    match t {
        Tag::F64 => typed_decode_json::<Real, P, F>(b, read, show),
        Tag::Str => typed_decode_json::<String, P, F>(b, read, show),
        Tag::ThreeVec => typed_decode_json::<ThreeVec, P, F>(b, read, show),
        Tag::ThreeMat => typed_decode_json::<ThreeMat, P, F>(b, read, show),
        Tag::FourVec => typed_decode_json::<FourVec, P, F>(b, read, show),
        Tag::FourMat => typed_decode_json::<FourMat, P, F>(b, read, show),
        Tag::Bin => typed_decode_json::<Bin, P, F>(b, read, show),
        Tag::Point => typed_decode_json::<Point, P, F>(b, read, show),
        Tag::PointBin => typed_decode_json::<PointBin, P, F>(b, read, show),
        Tag::Object => None,
    }
}

impl Branch {
    /// Stores `branch` under the tag `subtype`; its text is written with
    /// `show`, the writer of floats.
    pub fn new<T: Serializable, F: Fn(u64) -> String>(subtype: String, branch: Collection<T>, show: &F) -> (r: Branch)
        requires
            Collection::<T>::fits(branch@),
            show_ok(*show),
        ensures
            r@.subtype == subtype@,
            r@.json == Collection::<T>::json_of(branch@, show_fn(*show)),
            r@.msg == Collection::<T>::msg_of(branch@),
    {
        let json = branch.to_json(show);
        let mut msg: Vec<u8> = Vec::new();
        branch.write_msg(&mut msg);
        assert(msg@ =~= Collection::<T>::msg_of(branch@));
        Branch { subtype, json, msg }
    }

    /// The subtype tag.
    pub fn subtype(&self) -> (r: &str)
        ensures
            r@ == self@.subtype,
    {
        self.subtype.as_str()
    }

    /// Reads the stored collection back as a Collection of `T`. The caller
    /// picks the `T` that matches the subtype; another `T` gives a
    /// `ParseError` or other records.
    pub fn extract<T: Deserializable>(&self) -> (r: Result<Collection<T>, CalcifyError>)
        ensures
            match Collection::<T>::parse_msg(self@.msg) {
                Some((v, _)) => r matches Ok(c) && c@ == v,
                None => r == Err::<Collection<T>, CalcifyError>(CalcifyError::ParseError),
            },
    {
        match Collection::<T>::from_msg(self.msg.as_slice()) {
            Ok((c, _)) => Ok(c),
            Err(_) => Err(CalcifyError::ParseError),
        }
    }

    /// The text form: `{"subtype":"<tag>","branch":<collection>}`.
    pub fn to_json(&self) -> (r: String)
        ensures
            r@ == branch_json(self@),
    {
        let mut out = String::from_str("{\"subtype\":");
        out.append("\"");
        out.append(escaped(self.subtype.as_str()).as_str());
        out.append("\"");
        out.append(",\"branch\":");
        out.append(self.json.as_str());
        out.append("}");
        proof {
            reveal_strlit("\"");
        }
        assert(out@ =~= branch_json(self@));
        out
    }

    /// Appends the binary form to `buf`.
    pub fn write_msg(&self, buf: &mut Vec<u8>)
        requires
            str_fits(self@.subtype),
        ensures
            final(buf)@ == old(buf)@ + branch_msg(self@),
    {
        proof {
            reveal_strlit("subtype");
            reveal_strlit("branch");
            lemma_ascii_fits("subtype"@);
            lemma_ascii_fits("branch"@);
        }
        put_map_len(buf, 2);
        put_str(buf, "subtype");
        put_str(buf, self.subtype.as_str());
        put_str(buf, "branch");
        let ghost before = buf@;
        let mut m = self.msg.clone();
        buf.append(&mut m);
        assert(final(buf)@ =~= old(buf)@ + branch_msg(self@));
    }

    /// Reads a Branch from the front of `b`, dispatching on its tag; returns it
    /// with the unread bytes. Its text form is written with `show`.
    pub fn from_msg<'a, F: Fn(u64) -> String>(b: &'a [u8], show: &F) -> (r: Result<(Branch, &'a [u8]), CalcifyError>)
        requires
            show_ok(*show),
        ensures
            match parse_branch(b@, show_fn(*show)) {
                Ok((v, rest)) => r matches Ok((x, t)) && x@ == v && t@ == rest,
                Err(e) => r matches Err(f) && f == e,
            },
    {
        let (n, r1) = match take_map_len(b) {
            Some(p) => p,
            None => return Err(CalcifyError::ParseError),
        };
        if n != 2 {
            return Err(CalcifyError::ParseError);
        }
        let (k1, r2) = match take_str(r1) {
            Some(p) => p,
            None => return Err(CalcifyError::ParseError),
        };
        if !same_str(k1, "subtype") {
            return Err(CalcifyError::ParseError);
        }
        let (st, r3) = match take_str(r2) {
            Some(p) => p,
            None => return Err(CalcifyError::ParseError),
        };
        let (k2, r4) = match take_str(r3) {
            Some(p) => p,
            None => return Err(CalcifyError::ParseError),
        };
        if !same_str(k2, "branch") {
            return Err(CalcifyError::ParseError);
        }
        let t = match tag_from_str(st) {
            Some(t) => t,
            None => return Err(CalcifyError::ParseError),
        };
        if t == Tag::Object {
            return Err(CalcifyError::ObjectBranchDeserializeError);
        }
        match tag_decode(t, r4, show) {
            Some((json, msg, r5)) => Ok((Branch { subtype: String::from_str(st), json, msg }, r5)),
            None => Err(CalcifyError::ParseError),
        }
    }

    /// Reads the text form of a Branch from the front of `b`, dispatching on
    /// its tag, with `read` reading each float; returns it with the unread
    /// bytes. Its text form is written again with `show`.
    pub fn read_json<'a, P: Fn(Vec<u8>) -> Option<u64>, F: Fn(u64) -> String>(b: &'a [u8], read: &P, show: &F) -> (r: Result<(Branch, &'a [u8]), CalcifyError>)
        requires
            read_ok(*read),
            show_ok(*show),
        ensures
            match parse_branch_json(b@, show_fn(*show), read_fn(*read)) {
                Ok((v, rest)) => r matches Ok((x, t)) && x@ == v && t@ == rest,
                Err(e) => r matches Err(f) && f == e,
            },
    {
        let r1 = match strip_lit(b, "{\"subtype\":\"") {
            Some(p) => p,
            None => return Err(CalcifyError::ParseError),
        };
        let (st, r2) = match read_escaped(r1) {
            Some(p) => p,
            None => return Err(CalcifyError::ParseError),
        };
        let r3 = match strip_lit(r2, ",\"branch\":") {
            Some(p) => p,
            None => return Err(CalcifyError::ParseError),
        };
        let t = match tag_from_str(st.as_str()) {
            Some(t) => t,
            None => return Err(CalcifyError::ParseError),
        };
        if t == Tag::Object {
            return Err(CalcifyError::ObjectBranchDeserializeError);
        }
        match tag_decode_json(t, r3, read, show) {
            Some((json, msg, r4)) => match strip_lit(r4, "}") {
                Some(r5) => Ok((Branch { subtype: st, json, msg }, r5)),
                None => Err(CalcifyError::ParseError),
            },
            None => Err(CalcifyError::ParseError),
        }
    }
}

} // verus!
