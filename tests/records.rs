use calcify::{Bin, CalcifyError, Deserializable, FourMat, FourVec, Point, PointBin, Real, Serializable, ThreeMat, ThreeVec};

fn show(bits: u64) -> String {
    f64::from_bits(bits).to_string()
}

fn read(text: Vec<u8>) -> Option<u64> {
    std::str::from_utf8(&text).ok()?.parse::<f64>().ok().map(|x| x.to_bits())
}

fn float(x: f64) -> Real {
    Real::from_bits(x.to_bits())
}

fn tv(a: f64, b: f64, c: f64) -> ThreeVec {
    ThreeVec::new(float(a), float(b), float(c))
}

fn fv(a: f64, b: f64, c: f64, d: f64) -> FourVec {
    FourVec::new(float(a), float(b), float(c), float(d))
}

#[test]
fn bin_test_parse() {
    let xx = Bin::new(float(0.0), float(1.0), 0);
    let pp = xx.to_json(&show);
    assert_eq!(Bin::from_json(&pp, &read).unwrap(), xx);
}

#[test]
fn bin_test_msg_parse() {
    let xx = Bin::new(float(0.0), float(1.0), 0);
    let pp = xx.to_msg().unwrap();
    let (oo, _) = Bin::from_msg(&pp).unwrap();
    assert_eq!(oo, xx);
}

#[test]
fn point_bin_test_parse() {
    let xx = PointBin::new(float(0.0), float(1.0), float(0.0), float(1.0), 0);
    let pp = xx.to_json(&show);
    assert_eq!(PointBin::from_json(&pp, &read).unwrap(), xx);
}

#[test]
fn point_bin_test_msg_parse() {
    let xx = PointBin::new(float(0.0), float(1.0), float(0.0), float(1.0), 0);
    let pp = xx.to_msg().unwrap();
    let (oo, _) = PointBin::from_msg(&pp).unwrap();
    assert_eq!(oo, xx);
}

#[test]
fn point_test_parse() {
    let xx = Point::new(float(1.0), float(1.0));
    let pp = xx.to_json(&show);
    assert_eq!(Point::from_json(&pp, &read).unwrap(), xx);
}

#[test]
fn point_test_msg_parse() {
    let xx = Point::new(float(1.0), float(1.0));
    let pp = xx.to_msg().unwrap();
    let (oo, _) = Point::from_msg(&pp).unwrap();
    assert_eq!(oo, xx);
}

#[test]
fn four_vec_test_parse() {
    let xx = fv(5.0, 2.0, 2.0, 2.0);
    let pp = xx.to_json(&show);
    assert_eq!(FourVec::from_json(&pp, &read).unwrap(), xx);
}

#[test]
fn four_vec_test_msg_parse() {
    let xx = fv(5.0, 2.0, 2.0, 2.0);
    let pp = xx.to_msg().unwrap();
    let (oo, _) = FourVec::from_msg(&pp).unwrap();
    assert_eq!(oo, xx);
}

#[test]
fn four_mat_test_parse() {
    let xx = FourMat::new(fv(1.0, 1.0, 1.0, 1.0), fv(1.0, 1.0, 1.0, 1.0), fv(1.0, 1.0, 1.0, 1.0), fv(1.0, 1.0, 1.0, 1.0));
    let pp = xx.to_json(&show);
    assert_eq!(FourMat::from_json(&pp, &read).unwrap(), xx);
}

#[test]
fn four_mat_test_msg_parse() {
    let xx = FourMat::new(fv(1.0, 1.0, 1.0, 1.0), fv(1.0, 2.0, 1.0, 1.0), fv(1.0, 1.0, 3.0, 1.0), fv(1.0, 1.0, 1.0, 4.0));
    let pp = xx.to_msg().unwrap();
    let (oo, _) = FourMat::from_msg(&pp).unwrap();
    assert_eq!(oo, xx);
}

#[test]
fn three_mat_test_parse() {
    let xx = ThreeMat::new(tv(1.0, 1.0, 1.0), tv(1.0, 1.0, 1.0), tv(1.0, 1.0, 1.0));
    let pp = xx.to_json(&show);
    assert_eq!(ThreeMat::from_json(&pp, &read).unwrap(), xx);
}

#[test]
fn three_mat_msg_round_trip() {
    let xx = ThreeMat::new(tv(1.0, -2.0, 0.5), tv(0.0, -0.0, 1e300), tv(-1e-300, 7.0, 8.0));
    let pp = xx.to_msg().unwrap();
    let (oo, rest) = ThreeMat::from_msg(&pp).unwrap();
    assert_eq!(oo, xx);
    assert!(rest.is_empty());
}

#[test]
fn three_vec_text_round_trip_edge_values() {
    for x in [tv(0.0, -0.0, -1.5), tv(f64::MAX, f64::MIN_POSITIVE, -f64::MAX)] {
        let pp = x.to_json(&show);
        assert_eq!(ThreeVec::from_json(&pp, &read).unwrap(), x);
        let mm = x.to_msg().unwrap();
        assert_eq!(ThreeVec::from_msg(&mm).unwrap().0, x);
    }
}

#[test]
fn uint_msg_is_shortest_encoding() {
    assert_eq!(5u64.to_msg().unwrap(), vec![0x05]);
    assert_eq!(200u64.to_msg().unwrap(), vec![0xcc, 200]);
    assert_eq!(300u64.to_msg().unwrap(), vec![0xcd, 0x01, 0x2c]);
    assert_eq!(70000u64.to_msg().unwrap(), vec![0xce, 0x00, 0x01, 0x11, 0x70]);
    assert_eq!(u64::MAX.to_msg().unwrap(), vec![0xcf, 0xff, 0xff, 0xff, 0xff, 0xff, 0xff, 0xff, 0xff]);
}

#[test]
fn uint_reads_back_and_reports_rest() {
    let (v, rest) = u64::from_msg(&[0xcd, 0x01, 0x2c, 0x07]).unwrap();
    assert_eq!(v, 300);
    assert_eq!(rest, &[0x07]);
    assert_eq!(u64::from_msg(&[0xc0]).unwrap_err(), CalcifyError::ParseError);
    assert_eq!(u64::from_msg(&[]).unwrap_err(), CalcifyError::ParseError);
}

#[test]
fn uint_text() {
    assert_eq!(42u64.to_json(&show), "42");
    assert_eq!(0u64.to_json(&show), "0");
    assert_eq!(u64::from_json("18446744073709551615", &read).unwrap(), u64::MAX);
    assert_eq!(u64::from_json("18446744073709551616", &read).unwrap_err(), CalcifyError::ParseError);
    assert_eq!(u64::from_json("4x", &read).unwrap_err(), CalcifyError::ParseError);
}

#[test]
fn string_msg_and_text() {
    let s = String::from("abc");
    assert_eq!(s.to_msg().unwrap(), vec![0xa3, b'a', b'b', b'c']);
    assert_eq!(s.to_json(&show), "\"abc\"");
    assert_eq!(String::from_json("\"abc\"", &read).unwrap(), "abc");
    let long = "é".repeat(40);
    let m = long.to_msg().unwrap();
    assert_eq!(m[0], 0xd9);
    assert_eq!(m[1], 80);
    assert_eq!(String::from_msg(&m).unwrap().0, long);
    assert_eq!(String::from_json(&long.to_json(&show), &read).unwrap(), long);
}

#[test]
fn string_rejects_bad_utf8() {
    assert_eq!(String::from_msg(&[0xa2, 0xff, 0xfe]).unwrap_err(), CalcifyError::ParseError);
    assert_eq!(String::from_msg(&[0xa5, b'a']).unwrap_err(), CalcifyError::ParseError);
}

#[test]
fn float_msg_is_marker_and_big_endian_bits() {
    let m = float(1.0).to_msg().unwrap();
    assert_eq!(m, vec![0xcb, 0x3f, 0xf0, 0, 0, 0, 0, 0, 0]);
    assert_eq!(Real::from_msg(&m).unwrap().0.to_bits(), 1.0f64.to_bits());
}

#[test]
fn float_text_is_decimal() {
    assert_eq!(float(1.0).to_json(&show), "1");
    assert_eq!(float(-1.5).to_json(&show), "-1.5");
    assert_eq!(Real::from_json("1.5", &read).unwrap(), float(1.5));
    assert_eq!(Real::from_json("", &read).unwrap_err(), CalcifyError::ParseError);
    assert_eq!(Real::from_json("x", &read).unwrap_err(), CalcifyError::ParseError);
}

#[test]
fn point_text_form() {
    let p = Point::new(float(1.0), float(23.0));
    assert_eq!(p.to_json(&show), "{\"x\":1,\"y\":23}");
    assert_eq!(Point::from_json("{\"x\":1,\"y\":23} ", &read).unwrap_err(), CalcifyError::ParseError);
    assert_eq!(Point::from_json("{\"y\":1,\"x\":23}", &read).unwrap_err(), CalcifyError::ParseError);
}

#[test]
fn bin_text_form() {
    let b = Bin::new(float(1.0), float(2.0), 7);
    assert_eq!(b.to_json(&show), "{\"count\":7,\"range\":[1,2]}");
}

#[test]
fn record_wrong_arity_is_parse_error() {
    let p = Point::new(float(1.0), float(2.0)).to_msg().unwrap();
    assert_eq!(ThreeVec::from_msg(&p).unwrap_err(), CalcifyError::ParseError);
    let truncated = &p[..p.len() - 1];
    assert_eq!(Point::from_msg(truncated).unwrap_err(), CalcifyError::ParseError);
}

#[test]
fn error_messages() {
    assert_eq!(CalcifyError::KeyError.message(), "Invalid Key");
    assert_eq!(CalcifyError::ParseError.message(), "Error on parse in Deserializable.");
}

#[test]
fn mod_test_json() {
    let vec4 = FourVec::new(float(5.0), float(2.0), float(2.0), float(2.0));
    assert_eq!(
        vec4.to_json(&show),
        "{\"m0\":5,\"m1\":2,\"m2\":2,\"m3\":2}"
    );
}

#[test]
fn string_text_escapes_quotes_and_backslashes() {
    let s = String::from("a\"b\\c");
    assert_eq!(s.to_json(&show), "\"a\\\"b\\\\c\"");
    assert_eq!(String::from_json(&s.to_json(&show), &read).unwrap(), s);
    let q = String::from("\"");
    assert_eq!(q.to_json(&show), "\"\\\"\"");
    assert_eq!(String::from_json(&q.to_json(&show), &read).unwrap(), q);
    assert_eq!(String::from_json("\"a\\x\"", &read).unwrap_err(), CalcifyError::ParseError);
    assert_eq!(String::from_json("\"abc", &read).unwrap_err(), CalcifyError::ParseError);
}
