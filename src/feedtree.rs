//! A FeedTree: a named container of metadata fields and of feeds, named
//! Collections that all hold one record type and that grow after creation.
use vstd::prelude::*;
use vstd::string::StringExecFns;
use crate::codec::{quoted, read_fn, read_ok, show_fn, show_ok, Deserializable, Serializable};
use crate::collection::Collection;
use vstd::utf8::encode_utf8;
use crate::errors::CalcifyError;
use crate::text::{after, escaped, parse_escaped, read_escaped, strip_lit};
use crate::keyed::{
    distinct_keys, fields_fit, fields_fit_exec, fields_msg, fields_view, find_key, has_key,
    keys_distinct, parse_fields, parse_fields_json, read_fields, read_fields_json, value_of,
    write_fields,
};
use crate::msgpack::{
    lemma_ascii_fits, map_len_bytes, parse_map_len, parse_str, put_map_len, put_str, str_bytes,
    str_fits, take_map_len, take_str,
};
use crate::tree::fields_json;

verus! {

/// What a FeedTree holds: its metadata fields and its feeds, each in order of
/// insertion.
pub struct FeedTreeView<V> {
    pub metadata: Seq<(Seq<char>, Seq<char>)>,
    pub feeds: Seq<(Seq<char>, Seq<V>)>,
}

/// The view of a list of named feeds.
pub open spec fn feeds_view<T: View>(v: Seq<(String, Collection<T>)>) -> Seq<(Seq<char>, Seq<T::V>)> {
    v.map_values(|p: (String, Collection<T>)| (p.0@, p.1@))
}

/// The text of named feeds: `"<name>":<collection>`, separated by commas.
pub open spec fn feeds_json<T: Serializable>(s: Seq<(Seq<char>, Seq<T::V>)>, ft: spec_fn(u64) -> Seq<char>) -> Seq<char>
    decreases s.len(),
{
    if s.len() == 0 {
        Seq::empty()
    } else if s.len() == 1 {
        quoted(s[0].0) + ":"@ + Collection::<T>::json_of(s[0].1, ft)
    } else {
        feeds_json::<T>(s.drop_last(), ft) + ","@ + quoted(s.last().0) + ":"@ + Collection::<T>::json_of(
            s.last().1, ft,
        )
    }
}

/// The binary form of named feeds: each name, then its Collection.
pub open spec fn feeds_msg<T: Serializable>(s: Seq<(Seq<char>, Seq<T::V>)>) -> Seq<u8>
    decreases s.len(),
{
    if s.len() == 0 {
        Seq::empty()
    } else {
        str_bytes(s[0].0) + Collection::<T>::msg_of(s[0].1) + feeds_msg::<T>(s.drop_first())
    }
}

/// The text form of a FeedTree.
pub open spec fn feedtree_json<T: Serializable>(t: FeedTreeView<T::V>, ft: spec_fn(u64) -> Seq<char>) -> Seq<char> {
    "{"@ + fields_json(t.metadata) + "\"feeds\":{"@ + feeds_json::<T>(t.feeds, ft) + "}}"@
}

/// The binary form of a FeedTree: a map of the metadata fields and one entry
/// `"feeds"`, whose value is a map of the named Collections.
pub open spec fn feedtree_msg<T: Serializable>(t: FeedTreeView<T::V>) -> Seq<u8> {
    map_len_bytes((t.metadata.len() + 1) as u32) + fields_msg(t.metadata) + str_bytes("feeds"@)
        + map_len_bytes(t.feeds.len() as u32) + feeds_msg::<T>(t.feeds)
}

/// Whether every count, name, value and record fits its binary header.
pub open spec fn feedtree_fits<T: Serializable>(t: FeedTreeView<T::V>) -> bool {
    &&& t.metadata.len() + 1 <= u32::MAX
    &&& t.feeds.len() <= u32::MAX
    &&& fields_fit(t.metadata)
    &&& forall|i: int|
        0 <= i < t.feeds.len() ==> str_fits((#[trigger] t.feeds[i]).0) && Collection::<T>::fits(
            t.feeds[i].1,
        )
}

/// Reads `n` named Collections.
pub open spec fn parse_feeds<T: Deserializable>(b: Seq<u8>, n: nat) -> Option<(Seq<(Seq<char>, Seq<T::V>)>, Seq<u8>)>
    decreases n,
{
    if n == 0 {
        Some((Seq::empty(), b))
    } else {
        match parse_str(b) {
            Some((k, r1)) => match Collection::<T>::parse_msg(r1) {
                Some((c, r2)) => match parse_feeds::<T>(r2, (n - 1) as nat) {
                    Some((fs, r3)) => Some((seq![(k, c)] + fs, r3)),
                    None => None,
                },
                None => None,
            },
            None => None,
        }
    }
}

/// Reads a FeedTree: the map count says how many metadata fields come before
/// the entry `feeds`. Repeated names are a failure.
pub open spec fn parse_feedtree<T: Deserializable>(b: Seq<u8>) -> Option<(FeedTreeView<T::V>, Seq<u8>)> {
    match parse_map_len(b) {
        Some((n, r1)) => match parse_fields(r1, n as nat, "feeds"@) {
            Some((md, r2)) => match parse_map_len(r2) {
                Some((m, r3)) => match parse_feeds::<T>(r3, m as nat) {
                    Some((fs, r4)) => if keys_distinct(md) && keys_distinct(fs) {
                        Some((FeedTreeView { metadata: md, feeds: fs }, r4))
                    } else {
                        None
                    },
                    None => None,
                },
                None => None,
            },
            None => None,
        },
        None => None,
    }
}

#[verifier::spinoff_prover]
proof fn lemma_feeds_msg_snoc<T: Serializable>(s: Seq<(Seq<char>, Seq<T::V>)>, p: (Seq<char>, Seq<T::V>))
    ensures
        feeds_msg::<T>(s.push(p)) == feeds_msg::<T>(s) + str_bytes(p.0) + Collection::<T>::msg_of(p.1),
    decreases s.len(),
{
    if s.len() == 0 {
        assert(s.push(p).drop_first() =~= s);
        assert(feeds_msg::<T>(s.push(p)) =~= feeds_msg::<T>(s) + str_bytes(p.0) + Collection::<T>::msg_of(p.1));
    } else {
        lemma_feeds_msg_snoc::<T>(s.drop_first(), p);
        assert(s.push(p).drop_first() =~= s.drop_first().push(p));
        assert(feeds_msg::<T>(s.push(p)) =~= feeds_msg::<T>(s) + str_bytes(p.0) + Collection::<T>::msg_of(p.1));
    }
}

/// Puts `pre` in front of the feeds that a parse found.
pub open spec fn prepend_feeds<V>(pre: Seq<(Seq<char>, Seq<V>)>, p: Option<(Seq<(Seq<char>, Seq<V>)>, Seq<u8>)>) -> Option<(Seq<(Seq<char>, Seq<V>)>, Seq<u8>)> {
    match p {
        Some((xs, r)) => Some((pre + xs, r)),
        None => None,
    }
}

fn read_feeds<'a, T: Deserializable>(b: &'a [u8], n: u32) -> (r: Option<(Vec<(String, Collection<T>)>, &'a [u8])>)
    ensures
        match parse_feeds::<T>(b@, n as nat) {
            Some((fs, rest)) => r matches Some((v, t)) && feeds_view(v@) == fs && t@ == rest,
            None => r is None,
        },
{
    let mut out: Vec<(String, Collection<T>)> = Vec::new();
    let mut cur: &'a [u8] = b;
    let mut i: u32 = 0;
    assert(prepend_feeds(Seq::empty(), parse_feeds::<T>(b@, n as nat)) == parse_feeds::<T>(b@, n as nat)) by {
        if let Some((xs, r)) = parse_feeds::<T>(b@, n as nat) {
            assert(Seq::<(Seq<char>, Seq<T::V>)>::empty() + xs =~= xs);
        }
    }
    assert(feeds_view(out@) =~= Seq::empty());
    while i < n
        invariant
            0 <= i <= n,
            parse_feeds::<T>(b@, n as nat) == prepend_feeds(feeds_view(out@), parse_feeds::<T>(cur@, (n - i) as nat)),
        decreases n - i,
    {
        let (k, r1) = match take_str(cur) {
            Some(p) => p,
            None => return None,
        };
        let (c, r2) = match Collection::<T>::from_msg(r1) {
            Ok(p) => p,
            Err(_) => return None,
        };
        let ghost ov = feeds_view(out@);
        let ghost cv = c@;
        out.push((String::from_str(k), c));
        proof {
            assert(feeds_view(out@) =~= ov + seq![(k@, cv)]);
            if let Some((xs, fin)) = parse_feeds::<T>(r2@, (n - i - 1) as nat) {
                assert(ov + (seq![(k@, cv)] + xs) =~= feeds_view(out@) + xs);
            }
        }
        cur = r2;
        i = i + 1;
    }
    proof {
        let ov = feeds_view(out@);
        assert(ov + Seq::<(Seq<char>, Seq<T::V>)>::empty() =~= ov);
    }
    Some((out, cur))
}

/// Reads named Collections of text form `"<name>":<collection>`, separated
/// by commas, through the closing brace; `fuel` bounds their number.
pub open spec fn parse_feeds_json<T: Deserializable>(b: Seq<u8>, fuel: nat, pt: spec_fn(Seq<u8>) -> Option<u64>) -> Option<(Seq<(Seq<char>, Seq<T::V>)>, Seq<u8>)>
    decreases fuel,
{
    if fuel == 0 {
        None
    } else {
        match after(b, encode_utf8("\""@)) {
            Some(r1) => match parse_escaped(r1) {
                Some((k, r2)) => match after(r2, encode_utf8(":"@)) {
                    Some(r3) => match Collection::<T>::parse_json(r3, pt) {
                        Some((c, r4)) => match after(r4, encode_utf8("}"@)) {
                            Some(r5) => Some((seq![(k, c)], r5)),
                            None => match after(r4, encode_utf8(","@)) {
                                Some(r5) => match parse_feeds_json::<T>(r5, (fuel - 1) as nat, pt) {
                                    Some((fs, r6)) => Some((seq![(k, c)] + fs, r6)),
                                    None => None,
                                },
                                None => None,
                            },
                        },
                        None => None,
                    },
                    None => None,
                },
                None => None,
            },
            None => None,
        }
    }
}

/// Reads the text form of a FeedTree. Repeated names are a failure.
pub open spec fn parse_feedtree_json<T: Deserializable>(b: Seq<u8>, pt: spec_fn(Seq<u8>) -> Option<u64>) -> Option<(FeedTreeView<T::V>, Seq<u8>)> {
    match after(b, encode_utf8("{"@)) {
        Some(r1) => match parse_fields_json(r1, r1.len(), "feeds"@) {
            Some((md, r2)) => match after(r2, encode_utf8("{"@)) {
                Some(r3) => match (match after(r3, encode_utf8("}"@)) {
                    Some(r4) => Some((Seq::<(Seq<char>, Seq<T::V>)>::empty(), r4)),
                    None => parse_feeds_json::<T>(r3, r3.len(), pt),
                }) {
                    Some((fs, r5)) => match after(r5, encode_utf8("}"@)) {
                        Some(r6) => if keys_distinct(md) && keys_distinct(fs) {
                            Some((FeedTreeView { metadata: md, feeds: fs }, r6))
                        } else {
                            None
                        },
                        None => None,
                    },
                    None => None,
                },
                None => None,
            },
            None => None,
        },
        None => None,
    }
}

fn read_feeds_json<'a, T: Deserializable, P: Fn(Vec<u8>) -> Option<u64>>(b: &'a [u8], read: &P) -> (r: Option<(Vec<(String, Collection<T>)>, &'a [u8])>)
    requires
        read_ok(*read),
    ensures
        match parse_feeds_json::<T>(b@, b@.len(), read_fn(*read)) {
            Some((fs, rest)) => r matches Some((v, t)) && feeds_view(v@) == fs && t@ == rest,
            None => r is None,
        },
{
    let ghost pt = read_fn(*read);
    let fuel = b.len();
    let mut out: Vec<(String, Collection<T>)> = Vec::new();
    let mut cur: &'a [u8] = b;
    let mut i: usize = 0;
    assert(prepend_feeds(Seq::empty(), parse_feeds_json::<T>(b@, fuel as nat, pt)) == parse_feeds_json::<T>(b@, fuel as nat, pt)) by {
        if let Some((xs, r)) = parse_feeds_json::<T>(b@, fuel as nat, pt) {
            assert(Seq::<(Seq<char>, Seq<T::V>)>::empty() + xs =~= xs);
        }
    }
    assert(feeds_view(out@) =~= Seq::empty());
    while i < fuel
        invariant
            read_ok(*read),
            pt == read_fn(*read),
            0 <= i <= fuel,
            fuel == b@.len(),
            parse_feeds_json::<T>(b@, fuel as nat, pt) == prepend_feeds(feeds_view(out@), parse_feeds_json::<T>(cur@, (fuel - i) as nat, pt)),
        decreases fuel - i,
    {
        let r1 = match strip_lit(cur, "\"") {
            Some(p) => p,
            None => return None,
        };
        let (k, r2) = match read_escaped(r1) {
            Some(p) => p,
            None => return None,
        };
        let r3 = match strip_lit(r2, ":") {
            Some(p) => p,
            None => return None,
        };
        let (c, r4) = match Collection::<T>::read_json(r3, read) {
            Ok(p) => p,
            Err(_) => return None,
        };
        let ghost ov = feeds_view(out@);
        let ghost kv = (k@, c@);
        out.push((k, c));
        proof {
            assert(feeds_view(out@) =~= ov + seq![kv]);
        }
        if let Some(r5) = strip_lit(r4, "}") {
            return Some((out, r5));
        }
        match strip_lit(r4, ",") {
            Some(r5) => {
                proof {
                    if let Some((xs, fin)) = parse_feeds_json::<T>(r5@, (fuel - i - 1) as nat, pt) {
                        assert(ov + (seq![kv] + xs) =~= feeds_view(out@) + xs);
                    }
                }
                cur = r5;
            },
            None => return None,
        }
        i = i + 1;
    }
    None
}

/// Tree of Collections of one record type, which may grow after creation.
#[derive(Debug, PartialEq)]
pub struct FeedTree<T> {
    metadata: Vec<(String, String)>,
    datafeeds: Vec<(String, Collection<T>)>,
}

impl<T: View> View for FeedTree<T> {
    type V = FeedTreeView<T::V>;

    closed spec fn view(&self) -> FeedTreeView<T::V> {
        FeedTreeView { metadata: fields_view(self.metadata@), feeds: feeds_view(self.datafeeds@) }
    }
}

impl<T: Serializable> FeedTree<T> {
    /// The metadata fields, and the feeds, have distinct names.
    pub open spec fn wf(&self) -> bool {
        keys_distinct(self@.metadata) && keys_distinct(self@.feeds)
    }

    /// Returns a new FeedTree whose metadata fields are `Name` and `SubType`.
    pub fn new(name: &str, subtype: &str) -> (r: FeedTree<T>)
        ensures
            r.wf(),
            r@.metadata == seq![("Name"@, name@), ("SubType"@, subtype@)],
            r@.feeds == Seq::<(Seq<char>, Seq<T::V>)>::empty(),
    {
        let mut metadata: Vec<(String, String)> = Vec::new();
        metadata.push((String::from_str("Name"), String::from_str(name)));
        metadata.push((String::from_str("SubType"), String::from_str(subtype)));
        let datafeeds: Vec<(String, Collection<T>)> = Vec::new();
        let r = FeedTree { metadata, datafeeds };
        proof {
            reveal_strlit("Name");
            reveal_strlit("SubType");
            assert("Name"@.len() != "SubType"@.len());
        }
        assert(r@.metadata =~= seq![("Name"@, name@), ("SubType"@, subtype@)]);
        assert(r@.feeds =~= Seq::<(Seq<char>, Seq<T::V>)>::empty());
        r
    }

    /// Adds the metadata field `key` with value `f`; a `KeyError` where a field
    /// of that name exists already, and then the FeedTree is unchanged.
    pub fn add_field(&mut self, key: &str, f: &str) -> (r: Result<(), CalcifyError>)
        requires
            old(self).wf(),
        ensures
            final(self).wf(),
            has_key(old(self)@.metadata, key@) ==> r == Err::<(), CalcifyError>(CalcifyError::KeyError)
                && final(self)@ == old(self)@,
            !has_key(old(self)@.metadata, key@) ==> r == Ok::<(), CalcifyError>(())
                && final(self)@.metadata == old(self)@.metadata.push((key@, f@))
                && final(self)@.feeds == old(self)@.feeds,
    {
        match find_key(&self.metadata, key) {
            Some(i) => {
                assert(old(self)@.metadata[i as int].0 == key@);
                Err(CalcifyError::KeyError)
            },
            None => {
                let ghost before = self@;
                self.metadata.push((String::from_str(key), String::from_str(f)));
                assert(self@.metadata =~= before.metadata.push((key@, f@)));
                assert(!has_key(before.metadata, key@)) by {
                    if has_key(before.metadata, key@) {
                        let i = choose|i: int| 0 <= i < before.metadata.len() && (#[trigger] before.metadata[i]).0 == key@;
                        assert(self.metadata@[i].0@ == key@);
                    }
                }
                Ok(())
            },
        }
    }

    /// Adds the feed `key`; a `KeyError` where a feed of that name exists
    /// already, and then the FeedTree is unchanged.
    pub fn add_feed(&mut self, key: &str, f: Collection<T>) -> (r: Result<(), CalcifyError>)
        requires
            old(self).wf(),
        ensures
            final(self).wf(),
            has_key(old(self)@.feeds, key@) ==> r == Err::<(), CalcifyError>(CalcifyError::KeyError)
                && final(self)@ == old(self)@,
            !has_key(old(self)@.feeds, key@) ==> r == Ok::<(), CalcifyError>(())
                && final(self)@.metadata == old(self)@.metadata
                && final(self)@.feeds == old(self)@.feeds.push((key@, f@)),
    {
        match find_key(&self.datafeeds, key) {
            Some(i) => {
                assert(old(self)@.feeds[i as int].0 == key@);
                Err(CalcifyError::KeyError)
            },
            None => {
                let ghost before = self@;
                let ghost fv = f@;
                self.datafeeds.push((String::from_str(key), f));
                assert(self@.feeds =~= before.feeds.push((key@, fv)));
                assert(!has_key(before.feeds, key@)) by {
                    if has_key(before.feeds, key@) {
                        let i = choose|i: int| 0 <= i < before.feeds.len() && (#[trigger] before.feeds[i]).0 == key@;
                        assert(self.datafeeds@[i].0@ == key@);
                    }
                }
                Ok(())
            },
        }
    }

    /// Returns the feed named `key`, if any.
    pub fn get_feed(&self, key: &str) -> (r: Option<&Collection<T>>)
        ensures
            match value_of(self@.feeds, key@) {
                Some(c) => r matches Some(x) && x@ == c,
                None => r is None,
            },
    {
        match find_key(&self.datafeeds, key) {
            Some(i) => {
                proof {
                    assert forall|j: int| 0 <= j < i implies (#[trigger] self@.feeds[j]).0 != key@ by {
                        assert(self.datafeeds@[j].0@ != key@);
                    }
                    crate::tree::lemma_value_at(self@.feeds, key@, i as int);
                }
                Some(&self.datafeeds[i].1)
            },
            None => {
                proof {
                    assert(!has_key(self@.feeds, key@)) by {
                        if has_key(self@.feeds, key@) {
                            let i = choose|i: int| 0 <= i < self@.feeds.len() && (#[trigger] self@.feeds[i]).0 == key@;
                            assert(self.datafeeds@[i].0@ == key@);
                        }
                    }
                    crate::tree::lemma_value_absent(self@.feeds, key@);
                }
                None
            },
        }
    }

    /// Appends `data` to the feed named `key`; a `KeyError` where there is no
    /// such feed, and then the FeedTree is unchanged.
    pub fn write(&mut self, key: &str, data: T) -> (r: Result<(), CalcifyError>)
        requires
            old(self).wf(),
        ensures
            final(self).wf(),
            final(self)@.metadata == old(self)@.metadata,
            match value_of(old(self)@.feeds, key@) {
                Some(c) => r == Ok::<(), CalcifyError>(()) && value_of(final(self)@.feeds, key@) == Some(c.push(data@))
                    && final(self)@.feeds.len() == old(self)@.feeds.len()
                    && forall|i: int| 0 <= i < old(self)@.feeds.len() ==> (#[trigger] final(self)@.feeds[i]).0 == old(self)@.feeds[i].0
                        && (old(self)@.feeds[i].0 != key@ ==> final(self)@.feeds[i].1 == old(self)@.feeds[i].1),
                None => r == Err::<(), CalcifyError>(CalcifyError::KeyError) && final(self)@ == old(self)@,
            },
    {
        match find_key(&self.datafeeds, key) {
            Some(i) => {
                let ghost before = self@;
                let ghost dv = data@;
                proof {
                    assert forall|j: int| 0 <= j < i implies (#[trigger] before.feeds[j]).0 != key@ by {
                        assert(self.datafeeds@[j].0@ != key@);
                    }
                    crate::tree::lemma_value_at(before.feeds, key@, i as int);
                }
                let mut entry = self.datafeeds.remove(i);
                entry.1.push(data);
                self.datafeeds.insert(i, entry);
                proof {
                    let after = self@.feeds;
                    assert(after =~= before.feeds.update(i as int, (key@, before.feeds[i as int].1.push(dv))));
                    assert forall|j: int| 0 <= j < i implies (#[trigger] after[j]).0 != key@ by {
                        assert(after[j] == before.feeds[j]);
                    }
                    crate::tree::lemma_value_at(after, key@, i as int);
                    assert forall|a: int, c: int| 0 <= a < c < after.len() implies (#[trigger] after[a]).0 != (#[trigger] after[c]).0 by {
                        assert(before.feeds[a].0 != before.feeds[c].0);
                    }
                }
                Ok(())
            },
            None => {
                proof {
                    assert(!has_key(self@.feeds, key@)) by {
                        if has_key(self@.feeds, key@) {
                            let i = choose|i: int| 0 <= i < self@.feeds.len() && (#[trigger] self@.feeds[i]).0 == key@;
                            assert(self.datafeeds@[i].0@ == key@);
                        }
                    }
                    crate::tree::lemma_value_absent(self@.feeds, key@);
                }
                Err(CalcifyError::KeyError)
            },
        }
    }
}


impl<T: Serializable> FeedTree<T> {
    /// The text form: every metadata field as `"<key>":"<value>"`, then the
    /// entry `"feeds"`, a map of the named Collections; `show` writes each
    /// float.
    pub fn to_json<F: Fn(u64) -> String>(&self, show: &F) -> (r: String)
        requires
            show_ok(*show),
        ensures
            r@ == feedtree_json::<T>(self@, show_fn(*show)),
    {
        let ghost ft = show_fn(*show);
        let mut out = String::from_str("{");
        let mut i: usize = 0;
        while i < self.metadata.len()
            invariant
                show_ok(*show),
                ft == show_fn(*show),
                0 <= i <= self.metadata@.len(),
                out@ == "{"@ + fields_json(self@.metadata.take(i as int)),
            decreases self.metadata@.len() - i,
        {
            proof {
                let s1 = self@.metadata.take(i + 1);
                assert(s1.drop_last() =~= self@.metadata.take(i as int));
                assert(s1.last() == (self.metadata@[i as int].0@, self.metadata@[i as int].1@));
                assert(fields_json(s1) == fields_json(s1.drop_last()) + quoted(s1.last().0) + ":"@ + quoted(s1.last().1) + ","@);
            }
            out.append("\"");
            out.append(escaped(self.metadata[i].0.as_str()).as_str());
            out.append("\"");
            out.append(":");
            out.append("\"");
            out.append(escaped(self.metadata[i].1.as_str()).as_str());
            out.append("\"");
            out.append(",");
            assert(out@ =~= "{"@ + fields_json(self@.metadata.take(i + 1)));
            i = i + 1;
        }
        assert(self@.metadata.take(self@.metadata.len() as int) =~= self@.metadata);
        out.append("\"feeds\":{");
        let ghost head = out@;
        let mut j: usize = 0;
        while j < self.datafeeds.len()
            invariant
                show_ok(*show),
                ft == show_fn(*show),
                0 <= j <= self.datafeeds@.len(),
                out@ == head + feeds_json::<T>(self@.feeds.take(j as int), ft),
            decreases self.datafeeds@.len() - j,
        {
            proof {
                assert(self@.feeds.take(j + 1).drop_last() =~= self@.feeds.take(j as int));
                assert(self@.feeds.take(j + 1).last() == (self.datafeeds@[j as int].0@, self.datafeeds@[j as int].1@));
                assert(self@.feeds.take(j + 1)[0] == self@.feeds[0]);
            }
            if j > 0 {
                out.append(",");
            }
            out.append("\"");
            out.append(escaped(self.datafeeds[j].0.as_str()).as_str());
            out.append("\"");
            out.append(":");
            let t = self.datafeeds[j].1.to_json(show);
            out.append(t.as_str());
            assert(out@ =~= head + feeds_json::<T>(self@.feeds.take(j + 1), ft));
            j = j + 1;
        }
        assert(self@.feeds.take(self@.feeds.len() as int) =~= self@.feeds);
        out.append("}}");
        assert(out@ =~= feedtree_json::<T>(self@, ft));
        out
    }

    /// Whether every count, name, value and record fits its binary header.
    pub fn is_encodable(&self) -> (r: bool)
        ensures
            r == feedtree_fits::<T>(self@),
    {
        if self.metadata.len() >= 0xffff_ffffusize || self.datafeeds.len() > 0xffff_ffffusize {
            return false;
        }
        if !fields_fit_exec(&self.metadata) {
            return false;
        }
        let mut i: usize = 0;
        while i < self.datafeeds.len()
            invariant
                0 <= i <= self.datafeeds@.len(),
                forall|k: int| 0 <= k < i ==> str_fits((#[trigger] self@.feeds[k]).0) && Collection::<T>::fits(self@.feeds[k].1),
            decreases self.datafeeds@.len() - i,
        {
            let a = self.datafeeds[i].0.as_str().as_bytes().len() <= 0xffff_ffffusize;
            let b = self.datafeeds[i].1.is_encodable();
            assert(self@.feeds[i as int] == (self.datafeeds@[i as int].0@, self.datafeeds@[i as int].1@));
            if !(a && b) {
                return false;
            }
            i = i + 1;
        }
        true
    }

    /// Appends the binary form to `buf`.
    pub fn write_msg(&self, buf: &mut Vec<u8>)
        requires
            feedtree_fits::<T>(self@),
        ensures
            final(buf)@ == old(buf)@ + feedtree_msg::<T>(self@),
    {
        proof {
            reveal_strlit("feeds");
            lemma_ascii_fits("feeds"@);
        }
        put_map_len(buf, (self.metadata.len() + 1) as u32);
        write_fields(buf, &self.metadata);
        put_str(buf, "feeds");
        put_map_len(buf, self.datafeeds.len() as u32);
        let ghost head = buf@;
        let mut i: usize = 0;
        while i < self.datafeeds.len()
            invariant
                0 <= i <= self.datafeeds@.len(),
                feedtree_fits::<T>(self@),
                buf@ == head + feeds_msg::<T>(self@.feeds.take(i as int)),
            decreases self.datafeeds@.len() - i,
        {
            let ghost p = self@.feeds[i as int];
            proof {
                assert(self@.feeds.take(i + 1) =~= self@.feeds.take(i as int).push(p));
                lemma_feeds_msg_snoc::<T>(self@.feeds.take(i as int), p);
                assert(str_fits(p.0) && Collection::<T>::fits(p.1));
            }
            put_str(buf, self.datafeeds[i].0.as_str());
            self.datafeeds[i].1.write_msg(buf);
            assert(buf@ =~= head + feeds_msg::<T>(self@.feeds.take(i + 1)));
            i = i + 1;
        }
        assert(self@.feeds.take(self@.feeds.len() as int) =~= self@.feeds);
        assert(final(buf)@ =~= old(buf)@ + feedtree_msg::<T>(self@));
    }

    /// Returns the binary form, or a `LengthError` where a count, name, value
    /// or record does not fit its header.
    pub fn to_msg(&self) -> (r: Result<Vec<u8>, CalcifyError>)
        ensures
            feedtree_fits::<T>(self@) ==> (r matches Ok(b) && b@ == feedtree_msg::<T>(self@)),
            !feedtree_fits::<T>(self@) ==> r == Err::<Vec<u8>, CalcifyError>(CalcifyError::LengthError),
    {
        if !self.is_encodable() {
            return Err(CalcifyError::LengthError);
        }
        let mut buf: Vec<u8> = Vec::new();
        self.write_msg(&mut buf);
        assert(buf@ =~= feedtree_msg::<T>(self@));
        Ok(buf)
    }
}

impl<T: Deserializable> FeedTree<T> {
    /// Reads a FeedTree from the front of `b` and returns it with the unread
    /// bytes; a `ParseError` where the bytes are no FeedTree of `T`.
    pub fn from_msg<'a>(b: &'a [u8]) -> (r: Result<(FeedTree<T>, &'a [u8]), CalcifyError>)
        ensures
            match parse_feedtree::<T>(b@) {
                Some((v, rest)) => r matches Ok((x, t)) && x@ == v && t@ == rest && x.wf(),
                None => r == Err::<(FeedTree<T>, &'a [u8]), CalcifyError>(CalcifyError::ParseError),
            },
    {
        let (n, r1) = match take_map_len(b) {
            Some(p) => p,
            None => return Err(CalcifyError::ParseError),
        };
        proof {
            reveal_strlit("feeds");
        }
        let (metadata, r2) = match read_fields(r1, n, "feeds") {
            Some(p) => p,
            None => return Err(CalcifyError::ParseError),
        };
        let (m, r3) = match take_map_len(r2) {
            Some(p) => p,
            None => return Err(CalcifyError::ParseError),
        };
        let (datafeeds, r4) = match read_feeds::<T>(r3, m) {
            Some(p) => p,
            None => return Err(CalcifyError::ParseError),
        };
        if !distinct_keys(&metadata) || !distinct_keys(&datafeeds) {
            proof {
                if keys_distinct(fields_view(metadata@)) && keys_distinct(feeds_view(datafeeds@)) {
                    assert forall|i: int, j: int| 0 <= i < j < metadata@.len() implies (#[trigger] metadata@[i]).0@ != (#[trigger] metadata@[j]).0@ by {
                        assert(fields_view(metadata@)[i].0 != fields_view(metadata@)[j].0);
                    }
                    assert forall|i: int, j: int| 0 <= i < j < datafeeds@.len() implies (#[trigger] datafeeds@[i]).0@ != (#[trigger] datafeeds@[j]).0@ by {
                        assert(feeds_view(datafeeds@)[i].0 != feeds_view(datafeeds@)[j].0);
                    }
                }
            }
            return Err(CalcifyError::ParseError);
        }
        let t = FeedTree { metadata, datafeeds };
        proof {
            assert forall|i: int, j: int| 0 <= i < j < t@.metadata.len() implies (#[trigger] t@.metadata[i]).0 != (#[trigger] t@.metadata[j]).0 by {
                assert(t.metadata@[i].0@ != t.metadata@[j].0@);
            }
            assert forall|i: int, j: int| 0 <= i < j < t@.feeds.len() implies (#[trigger] t@.feeds[i]).0 != (#[trigger] t@.feeds[j]).0 by {
                assert(t.datafeeds@[i].0@ != t.datafeeds@[j].0@);
            }
        }
        Ok((t, r4))
    }

    /// Reads a FeedTree from its whole text form, with `read` reading each
    /// float; a `ParseError` where the text is malformed, has bytes after the
    /// FeedTree or repeats a name.
    pub fn from_json<P: Fn(Vec<u8>) -> Option<u64>>(s: &str, read: &P) -> (r: Result<FeedTree<T>, CalcifyError>)
        requires
            read_ok(*read),
        ensures
            match parse_feedtree_json::<T>(encode_utf8(s@), read_fn(*read)) {
                Some((v, rest)) => if rest.len() == 0 {
                    r matches Ok(x) && x@ == v && x.wf()
                } else {
                    r == Err::<FeedTree<T>, CalcifyError>(CalcifyError::ParseError)
                },
                None => r == Err::<FeedTree<T>, CalcifyError>(CalcifyError::ParseError),
            },
    {
        let ghost pt = read_fn(*read);
        let b = s.as_bytes();
        let r1 = match strip_lit(b, "{") {
            Some(p) => p,
            None => return Err(CalcifyError::ParseError),
        };
        proof {
            reveal_strlit("feeds");
        }
        let (metadata, r2) = match read_fields_json(r1, "feeds") {
            Some(p) => p,
            None => return Err(CalcifyError::ParseError),
        };
        let r3 = match strip_lit(r2, "{") {
            Some(p) => p,
            None => return Err(CalcifyError::ParseError),
        };
        let (datafeeds, r5) = match strip_lit(r3, "}") {
            Some(r4) => (Vec::new(), r4),
            None => match read_feeds_json::<T, P>(r3, read) {
                Some(p) => p,
                None => return Err(CalcifyError::ParseError),
            },
        };
        assert(datafeeds@.len() == 0 ==> feeds_view(datafeeds@) =~= Seq::<(Seq<char>, Seq<T::V>)>::empty());
        let r6 = match strip_lit(r5, "}") {
            Some(p) => p,
            None => return Err(CalcifyError::ParseError),
        };
        if !distinct_keys(&metadata) || !distinct_keys(&datafeeds) {
            proof {
                if keys_distinct(fields_view(metadata@)) && keys_distinct(feeds_view(datafeeds@)) {
                    assert forall|i: int, j: int| 0 <= i < j < metadata@.len() implies (#[trigger] metadata@[i]).0@ != (#[trigger] metadata@[j]).0@ by {
                        assert(fields_view(metadata@)[i].0 != fields_view(metadata@)[j].0);
                    }
                    assert forall|i: int, j: int| 0 <= i < j < datafeeds@.len() implies (#[trigger] datafeeds@[i]).0@ != (#[trigger] datafeeds@[j]).0@ by {
                        assert(feeds_view(datafeeds@)[i].0 != feeds_view(datafeeds@)[j].0);
                    }
                }
            }
            return Err(CalcifyError::ParseError);
        }
        if r6.len() != 0 {
            return Err(CalcifyError::ParseError);
        }
        let t = FeedTree { metadata, datafeeds };
        proof {
            assert forall|i: int, j: int| 0 <= i < j < t@.metadata.len() implies (#[trigger] t@.metadata[i]).0 != (#[trigger] t@.metadata[j]).0 by {
                assert(t.metadata@[i].0@ != t.metadata@[j].0@);
            }
            assert forall|i: int, j: int| 0 <= i < j < t@.feeds.len() implies (#[trigger] t@.feeds[i]).0 != (#[trigger] t@.feeds[j]).0 by {
                assert(t.datafeeds@[i].0@ != t.datafeeds@[j].0@);
            }
        }
        Ok(t)
    }
}

} // verus!
