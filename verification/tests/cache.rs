use release_history::{decode, encode, load, save, Program, ReleaseError, Version};

fn sample() -> Vec<Program> {
    vec![
        Program::new(
            "widget".to_string(),
            vec![Version::new(1, 2, 3), Version::new(2, 0, 0)],
        ),
        Program::new("gadget".to_string(), vec![]),
    ]
}

fn value(text: &str) -> serde_json::Value {
    serde_json::from_str(text).unwrap()
}

#[test]
fn saved_text_is_indented_json() {
    let expected = r#"[
  {
    "name": "widget",
    "release_history": [
      {
        "major": 1,
        "minor": 2,
        "patch": 3
      },
      {
        "major": 2,
        "minor": 0,
        "patch": 0
      }
    ]
  },
  {
    "name": "gadget",
    "release_history": []
  }
]"#;
    assert_eq!(save(&sample()), Ok(expected.to_string()));
}

#[test]
fn empty_collection_is_an_empty_array() {
    assert_eq!(save(&Vec::new()), Ok("[]".to_string()));
    assert_eq!(load(Some("[]")), Ok(vec![]));
}

#[test]
fn load_reads_what_save_wrote() {
    let collections = vec![
        vec![],
        sample(),
        vec![Program::new(String::new(), vec![Version::new(0, 0, 0)])],
        vec![Program::new(
            "quo\"te, back\\slash\nline\ttab \u{1}\u{7f} größe 名前 🚀".to_string(),
            vec![Version::new(65535, 65535, 65535), Version::default()],
        )],
        vec![
            Program::new("same".to_string(), vec![]),
            Program::new("same".to_string(), vec![]),
        ],
    ];
    for collection in collections {
        let text = save(&collection).unwrap();
        assert_eq!(load(Some(&text)), Ok(collection));
    }
}

#[test]
fn decode_reads_what_encode_built() {
    let collection = sample();
    let document = encode(&collection);
    assert_eq!(decode(&document), Some(collection));
    assert_eq!(
        document,
        value(
            r#"[{"name":"widget","release_history":[{"major":1,"minor":2,"patch":3},
                {"major":2,"minor":0,"patch":0}]},{"name":"gadget","release_history":[]}]"#
        )
    );
}

#[test]
fn missing_cache_is_absent() {
    assert_eq!(load(None), Err(ReleaseError::CacheAbsent));
}

#[test]
fn text_that_is_no_json_is_corrupt() {
    for text in ["", "widget,1.2.3", "[", "[{]", "{\"name\": }", "[] []", "[1,]"] {
        assert_eq!(load(Some(text)), Err(ReleaseError::CacheCorrupt), "{:?}", text);
    }
}

#[test]
fn json_of_another_shape_is_corrupt() {
    let texts = [
        "null",
        "{}",
        "\"widget\"",
        "3",
        "[3]",
        "[[]]",
        r#"{"name":"x","release_history":[]}"#,
        r#"[{"name":"x"}]"#,
        r#"[{"release_history":[]}]"#,
        r#"[{"name":3,"release_history":[]}]"#,
        r#"[{"name":null,"release_history":[]}]"#,
        r#"[{"name":"x","release_history":{}}]"#,
        r#"[{"name":"x","release_history":"1.2.3"}]"#,
        r#"[{"name":"x","release_history":["1.2.3"]}]"#,
        r#"[{"name":"x","release_history":[[1,2,3]]}]"#,
        r#"[{"name":"x","release_history":[{"major":1,"minor":2}]}]"#,
        r#"[{"name":"x","release_history":[{"major":1,"minor":2,"patch":"3"}]}]"#,
        r#"[{"name":"x","release_history":[{"major":1,"minor":2,"patch":null}]}]"#,
        r#"[{"name":"x","release_history":[{"Major":1,"minor":2,"patch":3}]}]"#,
        r#"[{"name":"x","release_history":[]},{"name":"y"}]"#,
    ];
    for text in texts {
        assert_eq!(load(Some(text)), Err(ReleaseError::CacheCorrupt), "{}", text);
        assert_eq!(decode(&value(text)), None, "{}", text);
    }
}

#[test]
fn number_that_is_no_16_bit_unsigned_integer_is_corrupt() {
    for number in ["65536", "-1", "1.0", "1.5", "1e2", "4294967296", "18446744073709551616"] {
        let text = format!(
            r#"[{{"name":"x","release_history":[{{"major":0,"minor":{},"patch":0}}]}}]"#,
            number
        );
        assert_eq!(load(Some(&text)), Err(ReleaseError::CacheCorrupt), "{}", number);
    }
    let text = r#"[{"name":"x","release_history":[{"major":0,"minor":65535,"patch":0}]}]"#;
    assert_eq!(
        load(Some(text)),
        Ok(vec![Program::new("x".to_string(), vec![Version::new(0, 65535, 0)])])
    );
}

#[test]
fn layout_and_further_members_do_not_matter() {
    let text = "\n [ { \"release_history\" : [ {\"patch\":3, \"note\":\"x\", \"minor\":2,\n\
                \"major\":1} ], \"homepage\":null, \"name\" : \"widget\" } ]\n";
    assert_eq!(
        load(Some(text)),
        Ok(vec![Program::new("widget".to_string(), vec![Version::new(1, 2, 3)])])
    );
}
