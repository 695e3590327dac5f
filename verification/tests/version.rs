use release_history::{MalformedVersion, Version};

fn parsed(token: &str) -> Version {
    match Version::parse(token) {
        Ok(version) => version,
        Err(error) => panic!("{:?} was rejected: {:?}", token, error),
    }
}

fn rejected(token: &str) {
    assert_eq!(
        Version::parse(token),
        Err(MalformedVersion { token: token.to_string() })
    );
}

#[test]
fn parses_three_numbers() {
    assert_eq!(parsed("1.2.3"), Version { major: 1, minor: 2, patch: 3 });
    assert_eq!(parsed("0.0.0"), Version::new(0, 0, 0));
    assert_eq!(parsed("65535.65535.65535"), Version::new(65535, 65535, 65535));
    assert_eq!(parsed("10.200.3000"), Version::new(10, 200, 3000));
}

#[test]
fn writes_major_minor_patch() {
    assert_eq!(Version::new(1, 2, 3).to_text(), "1.2.3");
    assert_eq!(Version::new(0, 0, 0).to_text(), "0.0.0");
    assert_eq!(Version::new(65535, 0, 7).to_text(), "65535.0.7");
    assert_eq!(Version::new(10, 100, 1000).to_text(), "10.100.1000");
    assert_eq!(Version::new(9, 99, 10000).to_text(), "9.99.10000");
}

#[test]
fn text_round_trip() {
    let samples: [u16; 9] = [0, 1, 9, 10, 99, 100, 4096, 65534, 65535];
    for major in samples {
        for minor in samples {
            for patch in samples {
                let token = format!("{}.{}.{}", major, minor, patch);
                let version = parsed(&token);
                assert_eq!(version, Version::new(major, minor, patch));
                assert_eq!(version.to_text(), token);
            }
        }
    }
}

#[test]
fn too_few_fields() {
    rejected("1.2");
    rejected("1");
    rejected("");
}

#[test]
fn too_many_fields() {
    rejected("1.2.3.4");
    rejected("1.2.3.");
    rejected(".1.2.3");
}

#[test]
fn field_that_is_no_number() {
    rejected("1.x.3");
    rejected("1..3");
    rejected("a.b.c");
    rejected("1.2.3-beta");
    rejected("-1.0.0");
    rejected(" 1.2.3");
    rejected("1.2.3 ");
    rejected("1.+.3");
    rejected("1.2,3");
    rejected("١.٢.٣");
}

#[test]
fn unparsable_field_among_four_is_not_dropped() {
    rejected("1.x.2.3");
    rejected("x.1.2.3");
}

#[test]
fn number_out_of_range() {
    rejected("99999.0.0");
    rejected("65536.0.0");
    rejected("0.65536.0");
    rejected("0.0.65536");
    rejected("0.0.18446744073709551616");
    rejected("4294967296.0.0");
}

#[test]
fn plus_sign_and_leading_zeros_are_read() {
    assert_eq!(parsed("+1.2.3"), Version::new(1, 2, 3));
    assert_eq!(parsed("01.002.0003"), Version::new(1, 2, 3));
    assert_eq!(parsed("0000065535.0.0"), Version::new(65535, 0, 0));
    assert_eq!(parsed("+01.2.3").to_text(), "1.2.3");
    rejected("++1.2.3");
}

#[test]
fn default_is_one_zero_zero() {
    assert_eq!(Version::default(), Version::new(1, 0, 0));
    assert_eq!(Version::default().to_text(), "1.0.0");
}
