use tx2pack::SnapshotMetadata;

#[test]
fn test_metadata_builders() {
    let m = SnapshotMetadata::new("snap-1".to_owned())
        .with_name("first".to_owned())
        .with_description("the first snapshot".to_owned())
        .with_tag("nightly".to_owned())
        .with_tag("release".to_owned())
        .with_custom_field("author".to_owned(), "worldsim".to_owned());

    assert_eq!(m.id, "snap-1");
    assert_eq!(m.name.as_deref(), Some("first"));
    assert_eq!(m.description.as_deref(), Some("the first snapshot"));
    assert_eq!(m.schema_version, 1);
    assert_eq!(m.world_time, 0);
    assert_eq!(m.tags, vec!["nightly".to_owned(), "release".to_owned()]);
    assert_eq!(m.custom_fields, vec![("author".to_owned(), "worldsim".to_owned())]);
}

#[test]
fn test_metadata_custom_field_replaces() {
    let m = SnapshotMetadata::new("snap-2".to_owned())
        .with_custom_field("k".to_owned(), "v1".to_owned())
        .with_custom_field("k".to_owned(), "v2".to_owned());
    assert_eq!(m.custom_fields, vec![("k".to_owned(), "v2".to_owned())]);
}
