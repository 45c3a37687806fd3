//! A Tree: a named container of metadata fields and of Branches, each Branch
//! under its own name and with its own record type.
use vstd::prelude::*;
use vstd::string::StringExecFns;
use crate::branch::{
    branch_json, branch_msg, is_subtype, parse_branch, parse_branch_json, Branch,
    BranchView,
};
use crate::codec::{quoted, read_fn, read_ok, show_fn, show_ok, Deserializable, Serializable};
use crate::collection::Collection;
use vstd::utf8::encode_utf8;
use crate::errors::CalcifyError;
use crate::text::{after, escaped, parse_escaped, read_escaped, strip_lit};
use crate::keyed::{
    distinct_keys, fields_fit, fields_fit_exec, fields_msg, fields_view, find_key, has_key,
    keys_distinct, parse_fields, parse_fields_json, read_fields, read_fields_json, value_of,
    write_fields,
};
use crate::msgpack::{
    lemma_ascii_fits, map_len_bytes, parse_map_len, parse_str, put_map_len, put_str, str_bytes,
    str_fits, take_map_len, take_str,
};

verus! {

/// What a Tree holds: its metadata fields and its Branches, each in order of
/// insertion.
pub struct TreeView {
    pub metadata: Seq<(Seq<char>, Seq<char>)>,
    pub branches: Seq<(Seq<char>, BranchView)>,
}

/// The view of a list of named Branches.
pub open spec fn branches_view(v: Seq<(String, Branch)>) -> Seq<(Seq<char>, BranchView)> {
    v.map_values(|p: (String, Branch)| (p.0@, p.1@))
}

/// The text of metadata fields: `"<key>":"<value>",` for each.
pub open spec fn fields_json(s: Seq<(Seq<char>, Seq<char>)>) -> Seq<char>
    decreases s.len(),
{
    if s.len() == 0 {
        Seq::empty()
    } else {
        fields_json(s.drop_last()) + quoted(s.last().0) + ":"@ + quoted(s.last().1) + ","@
    }
}

/// The text of named Branches: `"<name>":<branch>`, separated by commas.
pub open spec fn branches_json(s: Seq<(Seq<char>, BranchView)>) -> Seq<char>
    decreases s.len(),
{
    if s.len() == 0 {
        Seq::empty()
    } else if s.len() == 1 {
        quoted(s[0].0) + ":"@ + branch_json(s[0].1)
    } else {
        branches_json(s.drop_last()) + ","@ + quoted(s.last().0) + ":"@ + branch_json(s.last().1)
    }
}

/// The binary form of named Branches: each name, then its Branch.
pub open spec fn branches_msg(s: Seq<(Seq<char>, BranchView)>) -> Seq<u8>
    decreases s.len(),
{
    if s.len() == 0 {
        Seq::empty()
    } else {
        str_bytes(s[0].0) + branch_msg(s[0].1) + branches_msg(s.drop_first())
    }
}

/// The text form of a Tree.
pub open spec fn tree_json(t: TreeView) -> Seq<char> {
    "{"@ + fields_json(t.metadata) + "\"branches\":{"@ + branches_json(t.branches) + "}}"@
}

/// The binary form of a Tree: a map of the metadata fields and one entry
/// `"branches"`, whose value is a map of the named Branches.
pub open spec fn tree_msg(t: TreeView) -> Seq<u8> {
    map_len_bytes((t.metadata.len() + 1) as u32) + fields_msg(t.metadata) + str_bytes("branches"@)
        + map_len_bytes(t.branches.len() as u32) + branches_msg(t.branches)
}

/// Whether every count, name and value of a Tree fits its binary header.
pub open spec fn tree_fits(t: TreeView) -> bool {
    &&& t.metadata.len() + 1 <= u32::MAX
    &&& t.branches.len() <= u32::MAX
    &&& fields_fit(t.metadata)
    &&& forall|i: int|
        0 <= i < t.branches.len() ==> str_fits((#[trigger] t.branches[i]).0) && str_fits(
            t.branches[i].1.subtype,
        )
}

/// Reads `n` named Branches.
pub open spec fn parse_branches(b: Seq<u8>, n: nat, ft: spec_fn(u64) -> Seq<char>) -> Result<(Seq<(Seq<char>, BranchView)>, Seq<u8>), CalcifyError>
    decreases n,
{
    if n == 0 {
        Ok((Seq::empty(), b))
    } else {
        match parse_str(b) {
            Some((k, r1)) => match parse_branch(r1, ft) {
                Ok((bv, r2)) => match parse_branches(r2, (n - 1) as nat, ft) {
                    Ok((bs, r3)) => Ok((seq![(k, bv)] + bs, r3)),
                    Err(e) => Err(e),
                },
                Err(e) => Err(e),
            },
            None => Err(CalcifyError::ParseError),
        }
    }
}

/// Reads a Tree: the map count says how many metadata fields come before the
/// entry `branches`. Repeated names are a `ParseError`.
pub open spec fn parse_tree(b: Seq<u8>, ft: spec_fn(u64) -> Seq<char>) -> Result<(TreeView, Seq<u8>), CalcifyError> {
    match parse_map_len(b) {
        Some((n, r1)) => match parse_fields(r1, n as nat, "branches"@) {
            Some((md, r2)) => match parse_map_len(r2) {
                Some((m, r3)) => match parse_branches(r3, m as nat, ft) {
                    Ok((bs, r4)) => if keys_distinct(md) && keys_distinct(bs) {
                        Ok((TreeView { metadata: md, branches: bs }, r4))
                    } else {
                        Err(CalcifyError::ParseError)
                    },
                    Err(e) => Err(e),
                },
                None => Err(CalcifyError::ParseError),
            },
            None => Err(CalcifyError::ParseError),
        },
        None => Err(CalcifyError::ParseError),
    }
}

/// Reads named Branches of text form `"<name>":<branch>`, separated by
/// commas, through the closing brace; `fuel` bounds their number.
pub open spec fn parse_branches_json(b: Seq<u8>, fuel: nat, ft: spec_fn(u64) -> Seq<char>, pt: spec_fn(Seq<u8>) -> Option<u64>) -> Result<(Seq<(Seq<char>, BranchView)>, Seq<u8>), CalcifyError>
    decreases fuel,
{
    if fuel == 0 {
        Err(CalcifyError::ParseError)
    } else {
        match after(b, encode_utf8("\""@)) {
            Some(r1) => match parse_escaped(r1) {
                Some((k, r2)) => match after(r2, encode_utf8(":"@)) {
                    Some(r3) => match parse_branch_json(r3, ft, pt) {
                        Ok((bv, r4)) => match after(r4, encode_utf8("}"@)) {
                            Some(r5) => Ok((seq![(k, bv)], r5)),
                            None => match after(r4, encode_utf8(","@)) {
                                Some(r5) => match parse_branches_json(r5, (fuel - 1) as nat, ft, pt) {
                                    Ok((bs, r6)) => Ok((seq![(k, bv)] + bs, r6)),
                                    Err(e) => Err(e),
                                },
                                None => Err(CalcifyError::ParseError),
                            },
                        },
                        Err(e) => Err(e),
                    },
                    None => Err(CalcifyError::ParseError),
                },
                None => Err(CalcifyError::ParseError),
            },
            None => Err(CalcifyError::ParseError),
        }
    }
}

/// Reads the text form of a Tree. Repeated names are a `ParseError`.
pub open spec fn parse_tree_json(b: Seq<u8>, ft: spec_fn(u64) -> Seq<char>, pt: spec_fn(Seq<u8>) -> Option<u64>) -> Result<(TreeView, Seq<u8>), CalcifyError> {
    match after(b, encode_utf8("{"@)) {
        Some(r1) => match parse_fields_json(r1, r1.len(), "branches"@) {
            Some((md, r2)) => match after(r2, encode_utf8("{"@)) {
                Some(r3) => match (match after(r3, encode_utf8("}"@)) {
                    Some(r4) => Ok((Seq::<(Seq<char>, BranchView)>::empty(), r4)),
                    None => parse_branches_json(r3, r3.len(), ft, pt),
                }) {
                    Ok((bs, r5)) => match after(r5, encode_utf8("}"@)) {
                        Some(r6) => if keys_distinct(md) && keys_distinct(bs) {
                            Ok((TreeView { metadata: md, branches: bs }, r6))
                        } else {
                            Err(CalcifyError::ParseError)
                        },
                        None => Err(CalcifyError::ParseError),
                    },
                    Err(e) => Err(e),
                },
                None => Err(CalcifyError::ParseError),
            },
            None => Err(CalcifyError::ParseError),
        },
        None => Err(CalcifyError::ParseError),
    }
}

fn read_branches_json<'a, P: Fn(Vec<u8>) -> Option<u64>, F: Fn(u64) -> String>(b: &'a [u8], read: &P, show: &F) -> (r: Result<(Vec<(String, Branch)>, &'a [u8]), CalcifyError>)
    requires
        read_ok(*read),
        show_ok(*show),
    ensures
        match parse_branches_json(b@, b@.len(), show_fn(*show), read_fn(*read)) {
            Ok((bs, rest)) => r matches Ok((v, t)) && branches_view(v@) == bs && t@ == rest,
            Err(e) => r matches Err(f) && f == e,
        },
{
    let ghost ft = show_fn(*show);
    let ghost pt = read_fn(*read);
    let fuel = b.len();
    let mut out: Vec<(String, Branch)> = Vec::new();
    let mut cur: &'a [u8] = b;
    let mut i: usize = 0;
    assert(prepend_branches(Seq::empty(), parse_branches_json(b@, fuel as nat, ft, pt)) == parse_branches_json(b@, fuel as nat, ft, pt)) by {
        if let Ok((xs, r)) = parse_branches_json(b@, fuel as nat, ft, pt) {
            assert(Seq::<(Seq<char>, BranchView)>::empty() + xs =~= xs);
        }
    }
    assert(branches_view(out@) =~= Seq::empty());
    while i < fuel
        invariant
            read_ok(*read),
            show_ok(*show),
            ft == show_fn(*show),
            pt == read_fn(*read),
            0 <= i <= fuel,
            fuel == b@.len(),
            parse_branches_json(b@, fuel as nat, ft, pt) == prepend_branches(branches_view(out@), parse_branches_json(cur@, (fuel - i) as nat, ft, pt)),
        decreases fuel - i,
    {
        let r1 = match strip_lit(cur, "\"") {
            Some(p) => p,
            None => return Err(CalcifyError::ParseError),
        };
        let (k, r2) = match read_escaped(r1) {
            Some(p) => p,
            None => return Err(CalcifyError::ParseError),
        };
        let r3 = match strip_lit(r2, ":") {
            Some(p) => p,
            None => return Err(CalcifyError::ParseError),
        };
        let (br, r4) = match Branch::read_json(r3, read, show) {
            Ok(p) => p,
            Err(e) => return Err(e),
        };
        let ghost ov = branches_view(out@);
        let ghost kv = (k@, br@);
        out.push((k, br));
        proof {
            assert(branches_view(out@) =~= ov + seq![kv]);
        }
        if let Some(r5) = strip_lit(r4, "}") {
            return Ok((out, r5));
        }
        match strip_lit(r4, ",") {
            Some(r5) => {
                proof {
                    if let Ok((xs, fin)) = parse_branches_json(r5@, (fuel - i - 1) as nat, ft, pt) {
                        assert(ov + (seq![kv] + xs) =~= branches_view(out@) + xs);
                    }
                }
                cur = r5;
            },
            None => return Err(CalcifyError::ParseError),
        }
        i = i + 1;
    }
    Err(CalcifyError::ParseError)
}

/// Tree of Collections for saving to a file.
#[derive(Debug)]
pub struct Tree {
    metadata: Vec<(String, String)>,
    branches: Vec<(String, Branch)>,
}

impl View for Tree {
    type V = TreeView;

    closed spec fn view(&self) -> TreeView {
        TreeView { metadata: fields_view(self.metadata@), branches: branches_view(self.branches@) }
    }
}

#[verifier::spinoff_prover]
pub(crate) proof fn lemma_value_at<V>(s: Seq<(Seq<char>, V)>, k: Seq<char>, i: int)
    requires
        0 <= i < s.len(),
        s[i].0 == k,
        forall|j: int| 0 <= j < i ==> (#[trigger] s[j]).0 != k,
    ensures
        value_of(s, k) == Some(s[i].1),
    decreases i,
{
    if i > 0 {
        assert forall|j: int| 0 <= j < i - 1 implies (#[trigger] s.drop_first()[j]).0 != k by {
            assert(s.drop_first()[j] == s[j + 1]);
        }
        lemma_value_at(s.drop_first(), k, i - 1);
    }
}

#[verifier::spinoff_prover]
pub(crate) proof fn lemma_value_absent<V>(s: Seq<(Seq<char>, V)>, k: Seq<char>)
    requires
        !has_key(s, k),
    ensures
        value_of(s, k) is None,
    decreases s.len(),
{
    if s.len() > 0 {
        assert(s[0].0 != k);
        assert(!has_key(s.drop_first(), k)) by {
            if has_key(s.drop_first(), k) {
                let i = choose|i: int| 0 <= i < s.drop_first().len() && (#[trigger] s.drop_first()[i]).0 == k;
                assert(s[i + 1].0 == k);
            }
        }
        lemma_value_absent(s.drop_first(), k);
    }
}

#[verifier::spinoff_prover]
proof fn lemma_branches_msg_snoc(s: Seq<(Seq<char>, BranchView)>, p: (Seq<char>, BranchView))
    ensures
        branches_msg(s.push(p)) == branches_msg(s) + str_bytes(p.0) + branch_msg(p.1),
    decreases s.len(),
{
    if s.len() == 0 {
        assert(s.push(p).drop_first() =~= s);
        assert(branches_msg(s.push(p)) =~= branches_msg(s) + str_bytes(p.0) + branch_msg(p.1));
    } else {
        lemma_branches_msg_snoc(s.drop_first(), p);
        assert(s.push(p).drop_first() =~= s.drop_first().push(p));
        assert(branches_msg(s.push(p)) =~= branches_msg(s) + str_bytes(p.0) + branch_msg(p.1));
    }
}

/// Puts `pre` in front of the Branches that a parse found.
pub open spec fn prepend_branches(pre: Seq<(Seq<char>, BranchView)>, p: Result<(Seq<(Seq<char>, BranchView)>, Seq<u8>), CalcifyError>) -> Result<(Seq<(Seq<char>, BranchView)>, Seq<u8>), CalcifyError> {
    match p {
        Ok((xs, r)) => Ok((pre + xs, r)),
        Err(e) => Err(e),
    }
}

fn read_branches<'a, F: Fn(u64) -> String>(b: &'a [u8], n: u32, show: &F) -> (r: Result<(Vec<(String, Branch)>, &'a [u8]), CalcifyError>)
    requires
        show_ok(*show),
    ensures
        match parse_branches(b@, n as nat, show_fn(*show)) {
            Ok((bs, rest)) => r matches Ok((v, t)) && branches_view(v@) == bs && t@ == rest,
            Err(e) => r matches Err(f) && f == e,
        },
{
    let ghost ft = show_fn(*show);
    let mut out: Vec<(String, Branch)> = Vec::new();
    let mut cur: &'a [u8] = b;
    let mut i: u32 = 0;
    assert(prepend_branches(Seq::empty(), parse_branches(b@, n as nat, ft)) == parse_branches(b@, n as nat, ft)) by {
        if let Ok((xs, r)) = parse_branches(b@, n as nat, ft) {
            assert(Seq::<(Seq<char>, BranchView)>::empty() + xs =~= xs);
        }
    }
    assert(branches_view(out@) =~= Seq::empty());
    while i < n
        invariant
            show_ok(*show),
            ft == show_fn(*show),
            0 <= i <= n,
            parse_branches(b@, n as nat, ft) == prepend_branches(branches_view(out@), parse_branches(cur@, (n - i) as nat, ft)),
        decreases n - i,
    {
        let (k, r1) = match take_str(cur) {
            Some(p) => p,
            None => return Err(CalcifyError::ParseError),
        };
        let (br, r2) = match Branch::from_msg(r1, show) {
            Ok(p) => p,
            Err(e) => return Err(e),
        };
        let ghost ov = branches_view(out@);
        let ghost bv = br@;
        out.push((String::from_str(k), br));
        proof {
            assert(branches_view(out@) =~= ov + seq![(k@, bv)]);
            if let Ok((xs, fin)) = parse_branches(r2@, (n - i - 1) as nat, ft) {
                assert(ov + (seq![(k@, bv)] + xs) =~= branches_view(out@) + xs);
            }
        }
        cur = r2;
        i = i + 1;
    }
    proof {
        let ov = branches_view(out@);
        assert(ov + Seq::<(Seq<char>, BranchView)>::empty() =~= ov);
    }
    Ok((out, cur))
}

impl Tree {
    /// The metadata fields, and the Branches, have distinct names.
    pub open spec fn wf(&self) -> bool {
        keys_distinct(self@.metadata) && keys_distinct(self@.branches)
    }

    /// Returns a new Tree whose one metadata field is `Name`.
    pub fn new(name: &str) -> (r: Tree)
        ensures
            r.wf(),
            r@.metadata == seq![("Name"@, name@)],
            r@.branches == Seq::<(Seq<char>, BranchView)>::empty(),
    {
        let mut metadata: Vec<(String, String)> = Vec::new();
        metadata.push((String::from_str("Name"), String::from_str(name)));
        let branches: Vec<(String, Branch)> = Vec::new();
        let r = Tree { metadata, branches };
        assert(r@.metadata =~= seq![("Name"@, name@)]);
        assert(r@.branches =~= Seq::<(Seq<char>, BranchView)>::empty());
        r
    }

    /// Adds the metadata field `key` with value `f`; a `KeyError` where a field
    /// of that name exists already, and then the Tree is unchanged.
    pub fn add_field(&mut self, key: &str, f: &str) -> (r: Result<(), CalcifyError>)
        requires
            old(self).wf(),
        ensures
            final(self).wf(),
            has_key(old(self)@.metadata, key@) ==> r == Err::<(), CalcifyError>(CalcifyError::KeyError)
                && final(self)@ == old(self)@,
            !has_key(old(self)@.metadata, key@) ==> r == Ok::<(), CalcifyError>(())
                && final(self)@.metadata == old(self)@.metadata.push((key@, f@))
                && final(self)@.branches == old(self)@.branches,
    {
        match find_key(&self.metadata, key) {
            Some(i) => {
                assert(old(self)@.metadata[i as int].0 == key@);
                Err(CalcifyError::KeyError)
            },
            None => {
                let ghost before = self@;
                self.metadata.push((String::from_str(key), String::from_str(f)));
                assert(self@.metadata =~= before.metadata.push((key@, f@)));
                assert(!has_key(before.metadata, key@)) by {
                    if has_key(before.metadata, key@) {
                        let i = choose|i: int| 0 <= i < before.metadata.len() && (#[trigger] before.metadata[i]).0 == key@;
                        assert(self.metadata@[i].0@ == key@);
                    }
                }
                Ok(())
            },
        }
    }

    /// Adds `b` as the Branch `key` under the subtype tag `t`. A `KeyError`
    /// where a Branch of that name exists, a `LengthError` where `b` is too
    /// long for its binary form; either way the Tree is unchanged. The text
    /// form of `b` is written now, with `show` writing each float.
    pub fn add_branch<T: Serializable, F: Fn(u64) -> String>(&mut self, key: &str, b: Collection<T>, t: &str, show: &F) -> (r: Result<(), CalcifyError>)
        requires
            old(self).wf(),
            is_subtype(t@),
            show_ok(*show),
        ensures
            final(self).wf(),
            has_key(old(self)@.branches, key@) ==> r == Err::<(), CalcifyError>(CalcifyError::KeyError)
                && final(self)@ == old(self)@,
            !has_key(old(self)@.branches, key@) && !Collection::<T>::fits(b@) ==> r == Err::<(), CalcifyError>(CalcifyError::LengthError)
                && final(self)@ == old(self)@,
            !has_key(old(self)@.branches, key@) && Collection::<T>::fits(b@) ==> r == Ok::<(), CalcifyError>(())
                && final(self)@.metadata == old(self)@.metadata
                && final(self)@.branches == old(self)@.branches.push(
                    (key@, BranchView { subtype: t@, json: Collection::<T>::json_of(b@, show_fn(*show)), msg: Collection::<T>::msg_of(b@) }),
                ),
    {
        match find_key(&self.branches, key) {
            Some(i) => {
                assert(old(self)@.branches[i as int].0 == key@);
                Err(CalcifyError::KeyError)
            },
            None => {
                if !b.is_encodable() {
                    return Err(CalcifyError::LengthError);
                }
                let br = Branch::new(String::from_str(t), b, show);
                let ghost before = self@;
                self.branches.push((String::from_str(key), br));
                assert(self@.branches =~= before.branches.push((key@, br@)));
                assert(!has_key(before.branches, key@)) by {
                    if has_key(before.branches, key@) {
                        let i = choose|i: int| 0 <= i < before.branches.len() && (#[trigger] before.branches[i]).0 == key@;
                        assert(self.branches@[i].0@ == key@);
                    }
                }
                Ok(())
            },
        }
    }

    /// Returns the Branch named `key`, if any.
    pub fn get_branch(&self, key: &str) -> (r: Option<&Branch>)
        ensures
            match value_of(self@.branches, key@) {
                Some(bv) => r matches Some(b) && b@ == bv,
                None => r is None,
            },
    {
        match find_key(&self.branches, key) {
            Some(i) => {
                proof {
                    assert forall|j: int| 0 <= j < i implies (#[trigger] self@.branches[j]).0 != key@ by {
                        assert(self.branches@[j].0@ != key@);
                    }
                    lemma_value_at(self@.branches, key@, i as int);
                }
                Some(&self.branches[i].1)
            },
            None => {
                proof {
                    assert(!has_key(self@.branches, key@)) by {
                        if has_key(self@.branches, key@) {
                            let i = choose|i: int| 0 <= i < self@.branches.len() && (#[trigger] self@.branches[i]).0 == key@;
                            assert(self.branches@[i].0@ == key@);
                        }
                    }
                    lemma_value_absent(self@.branches, key@);
                }
                None
            },
        }
    }

    /// Reads the Branch named `key` as a Collection of `T`: a `KeyError` where
    /// there is no such Branch, a `ParseError` where its bytes do not read as a
    /// Collection of `T`.
    pub fn read_branch<T: Deserializable>(&self, key: &str) -> (r: Result<Collection<T>, CalcifyError>)
        ensures
            match value_of(self@.branches, key@) {
                Some(bv) => match Collection::<T>::parse_msg(bv.msg) {
                    Some((v, _)) => r matches Ok(c) && c@ == v,
                    None => r == Err::<Collection<T>, CalcifyError>(CalcifyError::ParseError),
                },
                None => r == Err::<Collection<T>, CalcifyError>(CalcifyError::KeyError),
            },
    {
        match self.get_branch(key) {
            Some(b) => b.extract(),
            None => Err(CalcifyError::KeyError),
        }
    }

    /// The text form: every metadata field as `"<key>":"<value>"`, then the
    /// entry `"branches"`, a map of the named Branches.
    pub fn to_json(&self) -> (r: String)
        ensures
            r@ == tree_json(self@),
    {
        proof {
            reveal_strlit("\"");
        }
        let mut out = String::from_str("{");
        let mut i: usize = 0;
        while i < self.metadata.len()
            invariant
                0 <= i <= self.metadata@.len(),
                out@ == "{"@ + fields_json(self@.metadata.take(i as int)),
            decreases self.metadata@.len() - i,
        {
            proof {
                assert(self@.metadata.take(i + 1).drop_last() =~= self@.metadata.take(i as int));
                assert(self@.metadata.take(i + 1).last() == (self.metadata@[i as int].0@, self.metadata@[i as int].1@));
            }
            out.append("\"");
            out.append(escaped(self.metadata[i].0.as_str()).as_str());
            out.append("\"");
            out.append(":");
            out.append("\"");
            out.append(escaped(self.metadata[i].1.as_str()).as_str());
            out.append("\"");
            out.append(",");
            proof {
                let s1 = self@.metadata.take(i + 1);
                assert(fields_json(s1) == fields_json(s1.drop_last()) + quoted(s1.last().0) + ":"@ + quoted(s1.last().1) + ","@);
            }
            assert(out@ =~= "{"@ + fields_json(self@.metadata.take(i + 1)));
            i = i + 1;
        }
        assert(self@.metadata.take(self@.metadata.len() as int) =~= self@.metadata);
        out.append("\"branches\":{");
        let ghost head = out@;
        let mut j: usize = 0;
        while j < self.branches.len()
            invariant
                0 <= j <= self.branches@.len(),
                out@ == head + branches_json(self@.branches.take(j as int)),
            decreases self.branches@.len() - j,
        {
            proof {
                assert(self@.branches.take(j + 1).drop_last() =~= self@.branches.take(j as int));
                assert(self@.branches.take(j + 1).last() == (self.branches@[j as int].0@, self.branches@[j as int].1@));
                assert(self@.branches.take(j + 1)[0] == self@.branches[0]);
            }
            if j > 0 {
                out.append(",");
            }
            out.append("\"");
            out.append(escaped(self.branches[j].0.as_str()).as_str());
            out.append("\"");
            out.append(":");
            let t = self.branches[j].1.to_json();
            out.append(t.as_str());
            assert(out@ =~= head + branches_json(self@.branches.take(j + 1)));
            j = j + 1;
        }
        assert(self@.branches.take(self@.branches.len() as int) =~= self@.branches);
        out.append("}}");
        assert(out@ =~= tree_json(self@));
        out
    }

    /// Whether every count, name and value fits its binary header.
    pub fn is_encodable(&self) -> (r: bool)
        ensures
            r == tree_fits(self@),
    {
        if self.metadata.len() >= 0xffff_ffffusize || self.branches.len() > 0xffff_ffffusize {
            return false;
        }
        if !fields_fit_exec(&self.metadata) {
            return false;
        }
        let mut i: usize = 0;
        while i < self.branches.len()
            invariant
                0 <= i <= self.branches@.len(),
                forall|k: int| 0 <= k < i ==> str_fits((#[trigger] self@.branches[k]).0) && str_fits(self@.branches[k].1.subtype),
            decreases self.branches@.len() - i,
        {
            let a = self.branches[i].0.as_str().as_bytes().len() <= 0xffff_ffffusize;
            let b = self.branches[i].1.subtype().as_bytes().len() <= 0xffff_ffffusize;
            assert(self@.branches[i as int] == (self.branches@[i as int].0@, self.branches@[i as int].1@));
            if !(a && b) {
                return false;
            }
            i = i + 1;
        }
        true
    }

    /// Appends the binary form to `buf`.
    pub fn write_msg(&self, buf: &mut Vec<u8>)
        requires
            tree_fits(self@),
        ensures
            final(buf)@ == old(buf)@ + tree_msg(self@),
    {
        proof {
            reveal_strlit("branches");
            lemma_ascii_fits("branches"@);
        }
        put_map_len(buf, (self.metadata.len() + 1) as u32);
        write_fields(buf, &self.metadata);
        put_str(buf, "branches");
        put_map_len(buf, self.branches.len() as u32);
        let ghost head = buf@;
        let mut i: usize = 0;
        while i < self.branches.len()
            invariant
                0 <= i <= self.branches@.len(),
                tree_fits(self@),
                buf@ == head + branches_msg(self@.branches.take(i as int)),
            decreases self.branches@.len() - i,
        {
            let ghost p = self@.branches[i as int];
            proof {
                assert(self@.branches.take(i + 1) =~= self@.branches.take(i as int).push(p));
                lemma_branches_msg_snoc(self@.branches.take(i as int), p);
                assert(str_fits(p.0) && str_fits(p.1.subtype));
            }
            put_str(buf, self.branches[i].0.as_str());
            self.branches[i].1.write_msg(buf);
            assert(buf@ =~= head + branches_msg(self@.branches.take(i + 1)));
            i = i + 1;
        }
        assert(self@.branches.take(self@.branches.len() as int) =~= self@.branches);
        assert(final(buf)@ =~= old(buf)@ + tree_msg(self@));
    }

    /// Returns the binary form, or a `LengthError` where a count, name or value
    /// does not fit its header.
    pub fn to_msg(&self) -> (r: Result<Vec<u8>, CalcifyError>)
        ensures
            tree_fits(self@) ==> (r matches Ok(b) && b@ == tree_msg(self@)),
            !tree_fits(self@) ==> r == Err::<Vec<u8>, CalcifyError>(CalcifyError::LengthError),
    {
        if !self.is_encodable() {
            return Err(CalcifyError::LengthError);
        }
        let mut buf: Vec<u8> = Vec::new();
        self.write_msg(&mut buf);
        assert(buf@ =~= tree_msg(self@));
        Ok(buf)
    }

    /// Reads a Tree from the front of `b` and returns it with the unread bytes.
    /// Each Branch is read through its tag: an unknown tag is a `ParseError`,
    /// the `Object` tag an `ObjectBranchDeserializeError`. The text form of
    /// each Branch is written with `show`.
    pub fn from_msg<'a, F: Fn(u64) -> String>(b: &'a [u8], show: &F) -> (r: Result<(Tree, &'a [u8]), CalcifyError>)
        requires
            show_ok(*show),
        ensures
            match parse_tree(b@, show_fn(*show)) {
                Ok((v, rest)) => r matches Ok((x, t)) && x@ == v && t@ == rest && x.wf(),
                Err(e) => r matches Err(f) && f == e,
            },
    {
        let ghost ft = show_fn(*show);
        let (n, r1) = match take_map_len(b) {
            Some(p) => p,
            None => return Err(CalcifyError::ParseError),
        };
        proof {
            reveal_strlit("branches");
        }
        let (metadata, r2) = match read_fields(r1, n, "branches") {
            Some(p) => p,
            None => return Err(CalcifyError::ParseError),
        };
        let (m, r3) = match take_map_len(r2) {
            Some(p) => p,
            None => return Err(CalcifyError::ParseError),
        };
        let (branches, r4) = match read_branches(r3, m, show) {
            Ok(p) => p,
            Err(e) => return Err(e),
        };
        if !distinct_keys(&metadata) || !distinct_keys(&branches) {
            proof {
                if keys_distinct(fields_view(metadata@)) && keys_distinct(branches_view(branches@)) {
                    assert forall|i: int, j: int| 0 <= i < j < metadata@.len() implies (#[trigger] metadata@[i]).0@ != (#[trigger] metadata@[j]).0@ by {
                        assert(fields_view(metadata@)[i].0 != fields_view(metadata@)[j].0);
                    }
                    assert forall|i: int, j: int| 0 <= i < j < branches@.len() implies (#[trigger] branches@[i]).0@ != (#[trigger] branches@[j]).0@ by {
                        assert(branches_view(branches@)[i].0 != branches_view(branches@)[j].0);
                    }
                }
            }
            return Err(CalcifyError::ParseError);
        }
        let t = Tree { metadata, branches };
        proof {
            assert forall|i: int, j: int| 0 <= i < j < t@.metadata.len() implies (#[trigger] t@.metadata[i]).0 != (#[trigger] t@.metadata[j]).0 by {
                assert(t.metadata@[i].0@ != t.metadata@[j].0@);
            }
            assert forall|i: int, j: int| 0 <= i < j < t@.branches.len() implies (#[trigger] t@.branches[i]).0 != (#[trigger] t@.branches[j]).0 by {
                assert(t.branches@[i].0@ != t.branches@[j].0@);
            }
        }
        Ok((t, r4))
    }

    /// Reads a Tree from its whole text form; each Branch is read through its
    /// tag. A `ParseError` where the text is malformed, has bytes after the
    /// Tree or repeats a name; an `ObjectBranchDeserializeError` for a Branch
    /// tagged `Object`. Floats are read with `read`, and the text of each
    /// Branch is written again with `show`.
    pub fn from_json<P: Fn(Vec<u8>) -> Option<u64>, F: Fn(u64) -> String>(s: &str, read: &P, show: &F) -> (r: Result<Tree, CalcifyError>)
        requires
            read_ok(*read),
            show_ok(*show),
        ensures
            match parse_tree_json(encode_utf8(s@), show_fn(*show), read_fn(*read)) {
                Ok((v, rest)) => if rest.len() == 0 {
                    r matches Ok(x) && x@ == v && x.wf()
                } else {
                    r == Err::<Tree, CalcifyError>(CalcifyError::ParseError)
                },
                Err(e) => r matches Err(f) && f == e,
            },
    {
        let ghost ft = show_fn(*show);
        let ghost pt = read_fn(*read);
        let b = s.as_bytes();
        let r1 = match strip_lit(b, "{") {
            Some(p) => p,
            None => return Err(CalcifyError::ParseError),
        };
        proof {
            reveal_strlit("branches");
        }
        let (metadata, r2) = match read_fields_json(r1, "branches") {
            Some(p) => p,
            None => return Err(CalcifyError::ParseError),
        };
        let r3 = match strip_lit(r2, "{") {
            Some(p) => p,
            None => return Err(CalcifyError::ParseError),
        };
        let (branches, r5) = match strip_lit(r3, "}") {
            Some(r4) => (Vec::new(), r4),
            None => match read_branches_json(r3, read, show) {
                Ok(p) => p,
                Err(e) => return Err(e),
            },
        };
        assert(branches@.len() == 0 ==> branches_view(branches@) =~= Seq::<(Seq<char>, BranchView)>::empty());
        let r6 = match strip_lit(r5, "}") {
            Some(p) => p,
            None => return Err(CalcifyError::ParseError),
        };
        if !distinct_keys(&metadata) || !distinct_keys(&branches) {
            proof {
                if keys_distinct(fields_view(metadata@)) && keys_distinct(branches_view(branches@)) {
                    assert forall|i: int, j: int| 0 <= i < j < metadata@.len() implies (#[trigger] metadata@[i]).0@ != (#[trigger] metadata@[j]).0@ by {
                        assert(fields_view(metadata@)[i].0 != fields_view(metadata@)[j].0);
                    }
                    assert forall|i: int, j: int| 0 <= i < j < branches@.len() implies (#[trigger] branches@[i]).0@ != (#[trigger] branches@[j]).0@ by {
                        assert(branches_view(branches@)[i].0 != branches_view(branches@)[j].0);
                    }
                }
            }
            return Err(CalcifyError::ParseError);
        }
        if r6.len() != 0 {
            return Err(CalcifyError::ParseError);
        }
        let t = Tree { metadata, branches };
        proof {
            assert forall|i: int, j: int| 0 <= i < j < t@.metadata.len() implies (#[trigger] t@.metadata[i]).0 != (#[trigger] t@.metadata[j]).0 by {
                assert(t.metadata@[i].0@ != t.metadata@[j].0@);
            }
            assert forall|i: int, j: int| 0 <= i < j < t@.branches.len() implies (#[trigger] t@.branches[i]).0 != (#[trigger] t@.branches[j]).0 by {
                assert(t.branches@[i].0@ != t.branches@[j].0@);
            }
        }
        Ok(t)
    }
}

} // verus!
