use release_history::{gather, load, save, select_source, DataSource, Program, ReleaseError, Version};

#[test]
fn cache_is_chosen_where_there_is_one() {
    assert_eq!(select_source(true), DataSource::Cache);
    assert_eq!(select_source(false), DataSource::PlainText);
}

#[test]
fn missing_cache_falls_back_to_the_release_list() {
    let failure = load(None).unwrap_err();
    assert_eq!(failure, ReleaseError::CacheAbsent);
    assert!(failure.is_recoverable());
    assert_eq!(gather(DataSource::Cache, None), Err(ReleaseError::CacheAbsent));
    assert_eq!(
        gather(select_source(false), Some("widget,1.2.3,2.0.0\ngadget\n")),
        Ok(vec![
            Program::new("widget".to_string(), vec![Version::new(1, 2, 3), Version::new(2, 0, 0)]),
            Program::new("gadget".to_string(), vec![]),
        ])
    );
}

#[test]
fn only_a_missing_cache_is_recoverable() {
    assert!(ReleaseError::CacheAbsent.is_recoverable());
    assert!(!ReleaseError::CacheCorrupt.is_recoverable());
    assert!(!ReleaseError::FileNotFound.is_recoverable());
    assert!(!ReleaseError::EncodeFailed.is_recoverable());
    assert!(!ReleaseError::MalformedVersion { line: 1, token: "x".to_string() }.is_recoverable());
    assert!(!ReleaseError::MalformedRecord { line: 1 }.is_recoverable());
}

#[test]
fn missing_release_list_is_file_not_found() {
    assert_eq!(gather(DataSource::PlainText, None), Err(ReleaseError::FileNotFound));
}

#[test]
fn corrupt_cache_is_not_an_empty_collection() {
    assert_eq!(gather(DataSource::Cache, Some("widget,1.2.3")), Err(ReleaseError::CacheCorrupt));
    assert_eq!(gather(DataSource::Cache, Some("")), Err(ReleaseError::CacheCorrupt));
}

#[test]
fn each_source_is_read_in_its_own_format() {
    let collection = vec![Program::new("tool".to_string(), vec![Version::new(0, 1, 0)])];
    let cache = save(&collection).unwrap();
    assert_eq!(gather(DataSource::Cache, Some(&cache)), Ok(collection));
    assert_eq!(
        gather(DataSource::PlainText, Some("tool,0.1.0")),
        Ok(vec![Program::new("tool".to_string(), vec![Version::new(0, 1, 0)])])
    );
    assert_eq!(
        gather(DataSource::PlainText, Some("tool,0.1")),
        Err(ReleaseError::MalformedVersion { line: 1, token: "0.1".to_string() })
    );
}
