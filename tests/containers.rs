use calcify::{
    is_valid_subtype, Bin, Branch, CalcifyError, Collection, Deserializable, FeedTree, Point, Real,
    Serializable, ThreeVec, Tree,
};

fn show(bits: u64) -> String {
    f64::from_bits(bits).to_string()
}

fn read(text: Vec<u8>) -> Option<u64> {
    std::str::from_utf8(&text).ok()?.parse::<f64>().ok().map(|x| x.to_bits())
}

fn float(x: f64) -> Real {
    Real::from_bits(x.to_bits())
}

fn floats(xs: &[f64]) -> Collection<Real> {
    Collection::from_vec(xs.iter().map(|x| float(*x)).collect())
}

fn random_three_vec() -> ThreeVec {
    ThreeVec::new(float(rand::random::<f64>()), float(rand::random::<f64>()), float(rand::random::<f64>()))
}

#[test]
fn collection_round_trip_lengths() {
    for n in [0usize, 1, 37] {
        let c: Collection<Real> = floats(&(0..n).map(|i| i as f64 * 0.5 - 3.0).collect::<Vec<_>>());
        let m = c.to_msg().unwrap();
        let (back, rest) = Collection::<Real>::from_msg(&m).unwrap();
        assert_eq!(back, c);
        assert!(rest.is_empty());
        assert_eq!(Collection::<Real>::from_json(&c.to_json(&show), &read).unwrap(), c);
    }
}

#[test]
fn collection_of_strings_round_trip() {
    let c = Collection::from_vec(vec![String::from("a,b"), String::from("{x}"), String::new()]);
    assert_eq!(c.to_json(&show), "[\"a,b\",\"{x}\",\"\"]");
    assert_eq!(Collection::<String>::from_json(&c.to_json(&show), &read).unwrap(), c);
    assert_eq!(Collection::<String>::from_msg(&c.to_msg().unwrap()).unwrap().0, c);
}

#[test]
fn collection_of_records_text_keeps_nested_commas() {
    let c = Collection::from_vec(vec![Point::new(float(0.0), float(1.0)), Point::new(float(2.0), float(3.0))]);
    let t = c.to_json(&show);
    assert!(t.starts_with("[{\"x\":"));
    assert_eq!(Collection::<Point>::from_json(&t, &read).unwrap(), c);
}

#[test]
fn collection_text_forms() {
    let c: Collection<u64> = Collection::from_vec(vec![1, 2, 30]);
    assert_eq!(c.to_json(&show), "[1,2,30]");
    assert_eq!(Collection::<u64>::empty().to_json(&show), "[]");
    assert_eq!(c.to_msg().unwrap(), vec![0x93, 1, 2, 30]);
    assert_eq!(Collection::<u64>::from_json("[1,2,", &read).unwrap_err(), CalcifyError::ParseError);
    assert_eq!(Collection::<u64>::from_json("[1;2]", &read).unwrap_err(), CalcifyError::ParseError);
    assert_eq!(Collection::<u64>::from_msg(&[0x93, 1, 2]).unwrap_err(), CalcifyError::ParseError);
}

#[test]
fn collection_long_header() {
    let c: Collection<u64> = Collection::from_vec((0..20).collect());
    let m = c.to_msg().unwrap();
    assert_eq!(&m[..3], &[0xdc, 0, 20]);
    assert_eq!(Collection::<u64>::from_msg(&m).unwrap().0, c);
}

#[test]
fn collection_operations() {
    let mut c: Collection<u64> = Collection::empty();
    c.push(1);
    c.push(2);
    c.push(3);
    assert_eq!(c.len(), 3);
    assert_eq!(*c.at(1), 2);
    c.set(1, 20);
    assert_eq!(c.vec, vec![1, 20, 3]);
    let doubled: Collection<u64> = c.map(|x| x * 2);
    assert_eq!(doubled.vec, vec![2, 40, 6]);
    let kept = c.cut(|x| *x > 2);
    assert_eq!(kept.vec, vec![20, 3]);
    c.extend(Collection::from_vec(vec![4, 5]));
    assert_eq!(c.vec, vec![1, 20, 3, 4, 5]);
}

#[test]
fn test_tree_json() {
    let fcol: Collection<Real> = floats(&[0.0, 0.0]);
    let mut col_3v: Collection<ThreeVec> = Collection::empty();
    for _i in 0..9 {
        col_3v.push(random_three_vec());
    }
    let mut ttree = Tree::new("Test_Tree");
    ttree.add_field("Desc", "This is a Tree for testing.").unwrap();
    ttree.add_branch("col_3v", col_3v.clone(), "ThreeVec", &show).unwrap();
    ttree.add_branch("fcol", fcol, "f64", &show).unwrap();
    ttree.add_branch("col_3v3", col_3v, "ThreeVec", &show).unwrap();
    let pp = ttree.to_json();
    let oo = Tree::from_json(&pp, &read, &show).unwrap();
    assert_eq!(oo.read_branch::<Real>("fcol").unwrap(), floats(&[0.0, 0.0]));
}

#[test]
fn test_tree_msg() {
    let fcol: Collection<Real> = floats(&[0.0, 0.0]);
    let mut col_3v: Collection<ThreeVec> = Collection::empty();
    for _i in 0..9 {
        col_3v.push(random_three_vec());
    }
    let mut ttree = Tree::new("Test_Tree");
    ttree.add_field("Desc", "This is a Tree for testing.").unwrap();
    ttree.add_branch("fcol", fcol, "f64", &show).unwrap();
    ttree.add_branch("col_3v", col_3v, "ThreeVec", &show).unwrap();
    let pp = ttree.to_msg().unwrap();
    let (oo, _) = Tree::from_msg(&pp, &show).unwrap();
    assert_eq!(oo.read_branch::<Real>("fcol").unwrap(), floats(&[0.0, 0.0]));
}

#[test]
fn test_ftree_json() {
    let mut col_3v: Collection<ThreeVec> = Collection::empty();
    for _i in 0..9 {
        col_3v.push(random_three_vec());
    }
    let mut ttree: FeedTree<ThreeVec> = FeedTree::new("Test_Tree", "ThreeVec");
    ttree.add_field("Desc", "This is a Tree for testing.").unwrap();
    ttree.add_feed("fcol", col_3v.clone()).unwrap();
    ttree.add_feed("fcol1", col_3v.clone()).unwrap();
    ttree.add_feed("fcol2", col_3v).unwrap();
    let pp = ttree.to_json(&show);
    let oo = FeedTree::<ThreeVec>::from_json(&pp, &read).unwrap();
    println!("{:?}", oo);
    assert_eq!(oo, ttree);
}

#[test]
fn test_ftree_msg() {
    let mut col_3v: Collection<ThreeVec> = Collection::empty();
    for _i in 0..9 {
        col_3v.push(random_three_vec());
    }
    let mut ttree: FeedTree<ThreeVec> = FeedTree::new("Test_Tree", "ThreeVec");
    ttree.add_field("Desc", "This is a Tree for testing.").unwrap();
    ttree.add_feed("fcol", col_3v.clone()).unwrap();
    ttree.add_feed("fcol2", col_3v).unwrap();
    let pp = ttree.to_msg().unwrap();
    let (oo, _) = FeedTree::<ThreeVec>::from_msg(&pp).unwrap();
    assert_eq!(oo, ttree);
}

#[test]
fn duplicate_keys_are_rejected_and_leave_container_unchanged() {
    let mut t = Tree::new("T");
    t.add_field("Desc", "x").unwrap();
    let before = t.to_json();
    assert_eq!(t.add_field("Desc", "y").unwrap_err(), CalcifyError::KeyError);
    assert_eq!(t.add_field("Name", "z").unwrap_err(), CalcifyError::KeyError);
    t.add_branch("b", floats(&[1.0]), "f64", &show).unwrap();
    let before_b = t.to_json();
    assert_ne!(before, before_b);
    assert_eq!(t.add_branch("b", floats(&[2.0]), "f64", &show).unwrap_err(), CalcifyError::KeyError);
    assert_eq!(t.to_json(), before_b);

    let mut f: FeedTree<u64> = FeedTree::new("F", "u64");
    f.add_feed("a", Collection::from_vec(vec![1])).unwrap();
    assert_eq!(f.add_feed("a", Collection::from_vec(vec![2])).unwrap_err(), CalcifyError::KeyError);
    assert_eq!(f.add_field("SubType", "x").unwrap_err(), CalcifyError::KeyError);
    assert_eq!(f.get_feed("a").unwrap().vec, vec![1]);
}

#[test]
fn missing_keys() {
    let t = Tree::new("T");
    assert_eq!(t.read_branch::<Real>("nope").unwrap_err(), CalcifyError::KeyError);
    assert!(t.get_branch("nope").is_none());
    let mut f: FeedTree<u64> = FeedTree::new("F", "u64");
    assert_eq!(f.write("nope", 1).unwrap_err(), CalcifyError::KeyError);
    assert!(f.get_feed("nope").is_none());
}

#[test]
fn subtype_set_is_closed() {
    for t in ["f64", "String", "ThreeVec", "ThreeMat", "FourVec", "FourMat", "Bin", "Point", "PointBin", "Object"] {
        assert!(is_valid_subtype(t));
    }
    assert!(!is_valid_subtype("u64"));
    assert!(!is_valid_subtype("point"));
}

#[test]
fn unknown_tag_decodes_as_parse_error() {
    let b = Branch::new(String::from("Nope"), floats(&[1.0]), &show);
    let mut m = Vec::new();
    b.write_msg(&mut m);
    assert_eq!(Branch::from_msg(&m, &show).unwrap_err(), CalcifyError::ParseError);
    assert_eq!(Branch::read_json(b.to_json().as_bytes(), &read, &show).unwrap_err(), CalcifyError::ParseError);
}

#[test]
fn object_branch_is_write_only() {
    let mut t = Tree::new("T");
    t.add_branch("o", Collection::<u64>::from_vec(vec![1, 2]), "Object", &show).unwrap();
    let m = t.to_msg().unwrap();
    assert_eq!(Tree::from_msg(&m, &show).unwrap_err(), CalcifyError::ObjectBranchDeserializeError);
    assert_eq!(Tree::from_json(&t.to_json(), &read, &show).unwrap_err(), CalcifyError::ObjectBranchDeserializeError);
    assert_eq!(t.read_branch::<u64>("o").unwrap().vec, vec![1, 2]);
}

#[test]
fn feed_append_then_flush() {
    let mut f: FeedTree<Real> = FeedTree::new("F", "f64");
    f.add_feed("f", floats(&[1.0, 2.0])).unwrap();
    f.write("f", float(3.0)).unwrap();
    f.write("f", float(4.0)).unwrap();
    let m = f.to_msg().unwrap();
    let (back, rest) = FeedTree::<Real>::from_msg(&m).unwrap();
    assert!(rest.is_empty());
    assert_eq!(*back.get_feed("f").unwrap(), floats(&[1.0, 2.0, 3.0, 4.0]));
}

#[test]
fn tree_scenario_points() {
    let mut t = Tree::new("T");
    t.add_field("Desc", "x").unwrap();
    let pts = Collection::from_vec(vec![Point::new(float(0.0), float(1.0)), Point::new(float(2.0), float(3.0))]);
    t.add_branch("pts", pts.clone(), "Point", &show).unwrap();
    let m = t.to_msg().unwrap();
    let (back, _) = Tree::from_msg(&m, &show).unwrap();
    assert_eq!(back.read_branch::<Point>("pts").unwrap(), pts);
    assert!(back.read_branch::<Bin>("pts").is_err());
    assert_eq!(back.get_branch("pts").unwrap().subtype(), "Point");
}

#[test]
fn tree_text_form() {
    let mut t = Tree::new("T");
    t.add_field("Desc", "x").unwrap();
    assert_eq!(t.to_json(), "{\"Name\":\"T\",\"Desc\":\"x\",\"branches\":{}}");
    t.add_branch("u", Collection::<u64>::from_vec(vec![7]), "Object", &show).unwrap();
    assert_eq!(
        t.to_json(),
        "{\"Name\":\"T\",\"Desc\":\"x\",\"branches\":{\"u\":{\"subtype\":\"Object\",\"branch\":[7]}}}"
    );
}

#[test]
fn tree_binary_form() {
    let t = Tree::new("T");
    let m = t.to_msg().unwrap();
    let mut want = vec![0x82, 0xa4, b'N', b'a', b'm', b'e', 0xa1, b'T', 0xa8];
    want.extend_from_slice(b"branches");
    want.push(0x80);
    assert_eq!(m, want);
    let (back, _) = Tree::from_msg(&m, &show).unwrap();
    assert_eq!(back.to_json(), t.to_json());
}

#[test]
fn malformed_trees_are_parse_errors() {
    assert_eq!(Tree::from_msg(&[0x81, 0xa1, b'a'], &show).unwrap_err(), CalcifyError::ParseError);
    assert_eq!(Tree::from_json("{\"Name\":\"T\"}", &read, &show).unwrap_err(), CalcifyError::ParseError);
    assert_eq!(Tree::from_json("{\"Name\":\"T\",\"Name\":\"U\",\"branches\":{}}", &read, &show).unwrap_err(), CalcifyError::ParseError);
    assert_eq!(FeedTree::<u64>::from_json("{\"feeds\":{}}x", &read).unwrap_err(), CalcifyError::ParseError);
}

#[test]
fn feedtree_text_round_trip_with_strings() {
    let mut f: FeedTree<String> = FeedTree::new("F", "String");
    f.add_feed("s", Collection::from_vec(vec![String::from("a}b"), String::from("c],d")])).unwrap();
    f.add_feed("e", Collection::empty()).unwrap();
    let back = FeedTree::<String>::from_json(&f.to_json(&show), &read).unwrap();
    assert_eq!(back, f);
}

#[test]
fn tree_text_and_binary_agree() {
    let mut t = Tree::new("T");
    t.add_field("Desc", "two encodings").unwrap();
    t.add_branch("s", Collection::from_vec(vec![String::from("a,b}"), String::from("é")]), "String", &show).unwrap();
    t.add_branch("b", Collection::from_vec(vec![Bin::new(float(0.0), float(1.0), 3)]), "Bin", &show).unwrap();
    let from_text = Tree::from_json(&t.to_json(), &read, &show).unwrap();
    let (from_bytes, _) = Tree::from_msg(&t.to_msg().unwrap(), &show).unwrap();
    assert_eq!(from_text.to_json(), t.to_json());
    assert_eq!(from_bytes.to_msg().unwrap(), t.to_msg().unwrap());
    assert_eq!(from_text.to_msg().unwrap(), from_bytes.to_msg().unwrap());
    assert_eq!(
        from_text.read_branch::<String>("s").unwrap().vec,
        vec![String::from("a,b}"), String::from("é")]
    );
}

#[test]
fn collection_of_quotes_round_trips_through_text() {
    let c = Collection::from_vec(vec![String::from("\""), String::from("\\"), String::from("\\\"x\"")]);
    let t = c.to_json(&show);
    assert_eq!(t, "[\"\\\"\",\"\\\\\",\"\\\\\\\"x\\\"\"]");
    assert_eq!(Collection::<String>::from_json(&t, &read).unwrap(), c);
}

#[test]
fn feedtree_text_round_trip_with_quoted_names() {
    let mut f: FeedTree<String> = FeedTree::new("na\"me", "String");
    f.add_field("k\"ey", "va\\lue\"").unwrap();
    f.add_feed("fe\"ed", Collection::from_vec(vec![String::from("\"")])).unwrap();
    let back = FeedTree::<String>::from_json(&f.to_json(&show), &read).unwrap();
    assert_eq!(back, f);
}

#[test]
fn tree_text_round_trip_with_quoted_names() {
    let mut t = Tree::new("T\"");
    t.add_field("a\\", "\"b").unwrap();
    t.add_branch("p\"ts", Collection::from_vec(vec![Point::new(float(0.0), float(1.0))]), "Point", &show).unwrap();
    let back = Tree::from_json(&t.to_json(), &read, &show).unwrap();
    assert_eq!(back.to_json(), t.to_json());
    assert_eq!(back.read_branch::<Point>("p\"ts").unwrap().len(), 1);
}

#[test]
fn metadata_named_like_the_container_map_round_trips() {
    let mut t = Tree::new("T");
    t.add_field("branches", "x").unwrap();
    t.add_branch("b", floats(&[1.0]), "f64", &show).unwrap();
    let (back, _) = Tree::from_msg(&t.to_msg().unwrap(), &show).unwrap();
    assert_eq!(back.to_json(), t.to_json());
    let again = Tree::from_json(&t.to_json(), &read, &show).unwrap();
    assert_eq!(again.to_json(), t.to_json());
    let mut f: FeedTree<u64> = FeedTree::new("F", "u64");
    f.add_field("feeds", "y").unwrap();
    f.add_feed("a", Collection::from_vec(vec![1])).unwrap();
    assert_eq!(FeedTree::<u64>::from_msg(&f.to_msg().unwrap()).unwrap().0, f);
    assert_eq!(FeedTree::<u64>::from_json(&f.to_json(&show), &read).unwrap(), f);
}

#[test]
fn map_count_must_match_the_metadata() {
    let t = Tree::new("T");
    let mut m = t.to_msg().unwrap();
    m[0] = 0x83;
    assert_eq!(Tree::from_msg(&m, &show).unwrap_err(), CalcifyError::ParseError);
}

#[test]
fn branch_text_with_unknown_or_object_tag() {
    let unknown = "{\"subtype\":\"Foo\",\"branch\":[1,2]}";
    assert_eq!(Branch::read_json(unknown.as_bytes(), &read, &show).unwrap_err(), CalcifyError::ParseError);
    let object = Branch::new(String::from("Object"), Collection::<u64>::from_vec(vec![1, 2]), &show);
    assert_eq!(Branch::read_json(object.to_json().as_bytes(), &read, &show).unwrap_err(), CalcifyError::ObjectBranchDeserializeError);
}

#[test]
fn point_bin_branch_reads_back() {
    let mut t = Tree::new("T");
    let b = Collection::from_vec(vec![calcify::PointBin::new(float(0.0), float(1.0), float(2.0), float(3.0), 4)]);
    t.add_branch("pb", b.clone(), "PointBin", &show).unwrap();
    assert_eq!(t.read_branch::<calcify::PointBin>("pb").unwrap(), b);
    let (back, _) = Tree::from_msg(&t.to_msg().unwrap(), &show).unwrap();
    assert_eq!(back.read_branch::<calcify::PointBin>("pb").unwrap(), b);
}
