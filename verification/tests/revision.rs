use bundler::bundle::{Bundle, Document, NoMetadata, BUNDLE_PREFIX, PKG_VERSION};
use bundler::error::FetchError;
use bundler::text::push_decimal;
use std::hash::Hasher;

fn snapshot(text: &str) -> Document {
    Document::new(text.as_bytes().to_vec())
}

fn revision_of(proposals: &str, sessions: &str, permissions: &str) -> String {
    Bundle::new(
        NoMetadata.encode(),
        snapshot(proposals),
        snapshot(sessions),
        snapshot(permissions),
    )
    .revision()
    .to_string()
}

#[test]
fn revision_is_version_colon_hash() {
    assert_eq!(PKG_VERSION, "0.1.0");
    assert_eq!(
        revision_of("{\"alice\":[1,2]}", "{\"alice\":[7]}", "{\"alice\":[\"admin\"]}"),
        "0.1.0:11538048455400788205"
    );
    assert_eq!(revision_of("{}", "{}", "{}"), "0.1.0:15450378974111262562");
}

#[test]
fn revision_hashes_each_field_after_its_length() {
    let fields: [&[u8]; 4] = [b"null", b"[1]", b"[2,3]", b"{}"];
    let mut hasher = std::collections::hash_map::DefaultHasher::new();
    for field in fields {
        hasher.write(&(field.len() as u64).to_le_bytes());
        hasher.write(field);
    }
    assert_eq!(
        revision_of("[1]", "[2,3]", "{}"),
        format!("0.1.0:{}", hasher.finish())
    );
}

#[test]
fn same_fields_give_the_same_revision() {
    assert_eq!(
        revision_of("[1]", "[2]", "[3]"),
        revision_of("[1]", "[2]", "[3]")
    );
}

#[test]
fn changing_one_field_changes_the_revision() {
    let base = revision_of("[1]", "[2]", "[3]");
    assert_ne!(base, revision_of("[0]", "[2]", "[3]"));
    assert_ne!(base, revision_of("[1]", "[0]", "[3]"));
    assert_ne!(base, revision_of("[1]", "[2]", "[0]"));
    let with_metadata = Bundle::new(
        snapshot("{\"site\":\"i03\"}"),
        snapshot("[1]"),
        snapshot("[2]"),
        snapshot("[3]"),
    );
    assert_ne!(base, with_metadata.revision());
}

#[test]
fn fields_are_hashed_apart() {
    // The same bytes, divided differently between two fields.
    assert_ne!(revision_of("1", "23", "4"), revision_of("12", "3", "4"));
    // The same documents in another order.
    assert_ne!(revision_of("[1]", "[2]", "[3]"), revision_of("[2]", "[1]", "[3]"));
}

#[test]
fn no_metadata_is_null() {
    assert_eq!(NoMetadata.encode().as_bytes(), b"null");
}

#[test]
fn prefix_is_the_documented_constant() {
    assert_eq!(BUNDLE_PREFIX, "diamond/data");
}

#[test]
fn snapshot_keeps_its_bytes() {
    let snapshot = Document::new(vec![1, 2, 3]);
    assert_eq!(snapshot.as_bytes(), &[1, 2, 3]);
}

#[test]
fn fetch_is_all_or_nothing() {
    let bundle = Bundle::fetch(
        NoMetadata.encode(),
        Ok(snapshot("[1]")),
        Ok(snapshot("[2]")),
        Ok(snapshot("[3]")),
    );
    assert_eq!(
        bundle.ok().unwrap().revision(),
        revision_of("[1]", "[2]", "[3]")
    );
    let failed = Bundle::fetch(
        NoMetadata.encode(),
        Ok(snapshot("[1]")),
        Err(FetchError::Query),
        Ok(snapshot("[3]")),
    );
    assert_eq!(failed.err(), Some(FetchError::Query));
}

#[test]
fn fetch_reports_the_first_failure() {
    let failed = Bundle::fetch(
        NoMetadata.encode(),
        Err(FetchError::Connection),
        Err(FetchError::Query),
        Ok(snapshot("[3]")),
    );
    assert_eq!(failed.err(), Some(FetchError::Connection));
    let failed = Bundle::fetch(
        NoMetadata.encode(),
        Ok(snapshot("[1]")),
        Ok(snapshot("[2]")),
        Err(FetchError::Connection),
    );
    assert_eq!(failed.err(), Some(FetchError::Connection));
}

#[test]
fn decimal_numerals() {
    let mut out = String::from("n=");
    push_decimal(&mut out, 0);
    assert_eq!(out, "n=0");
    let mut out = String::new();
    push_decimal(&mut out, 9);
    push_decimal(&mut out, 10);
    push_decimal(&mut out, 1234567890);
    assert_eq!(out, "9101234567890");
    let mut out = String::new();
    push_decimal(&mut out, u64::MAX);
    assert_eq!(out, "18446744073709551615");
}
