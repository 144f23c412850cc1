use payments_engine::parse::parse_units;
use payments_engine::render::render_units;

fn rendered(v: i128) -> String {
    String::from_utf8(render_units(v)).unwrap()
}

#[test]
fn whole_and_fractional_amounts() {
    assert_eq!(rendered(0), "0.0");
    assert_eq!(rendered(10000), "1.0");
    assert_eq!(rendered(15000), "1.5");
    assert_eq!(rendered(20000), "2.0");
    assert_eq!(rendered(12345), "1.2345");
    assert_eq!(rendered(31000), "3.1");
    assert_eq!(rendered(100), "0.01");
    assert_eq!(rendered(9), "0.0009");
    assert_eq!(rendered(1), "0.0001");
}

#[test]
fn negative_amounts() {
    assert_eq!(rendered(-15000), "-1.5");
    assert_eq!(rendered(-1), "-0.0001");
    assert_eq!(rendered(-123456789), "-12345.6789");
}

#[test]
fn wide_amounts() {
    assert_eq!(rendered(i64::MAX as i128), "922337203685477.5807");
    assert_eq!(rendered(i64::MAX as i128 * 2), "1844674407370955.1614");
    assert_eq!(rendered(i64::MIN as i128), "-922337203685477.5808");
}

#[test]
fn rendering_then_parsing_returns_the_value() {
    for v in [0i64, 1, 9, 100, 10000, 15000, 12345, 99990000, i64::MAX] {
        let text = render_units(v as i128);
        assert_eq!(parse_units(&text), Some(v));
    }
}
