use stcli_core::identity::{
    artifact_revision_hash, canonical_json, canonical_json_hash, session_projection_hash,
    ContentHash, EntityId, EntityIdError, ParseContentHashError,
};
use stcli_core::json::{Json, JsonNumber, NumberForm};

fn order(value: f64) -> i64 {
    if value >= 0.0 {
        value.abs().to_bits() as i64
    } else {
        -((-value).to_bits() as i64)
    }
}

fn number(n: u64) -> Json {
    Json::Number(JsonNumber { form: NumberForm::Unsigned(n), order: order(n as f64) })
}

fn object(members: Vec<(&str, Json)>) -> Json {
    let mut sorted: Vec<(String, Json)> =
        members.into_iter().map(|(name, value)| (name.to_owned(), value)).collect();
    sorted.sort_by(|left, right| left.0.cmp(&right.0));
    Json::Object(sorted)
}

#[test]
fn canonical_json_orders_object_members() {
    let value = object(vec![("z", number(1)), ("a", number(2))]);
    assert_eq!(canonical_json(&value).unwrap(), br#"{"a":2,"z":1}"#);
}

#[test]
fn content_hash_round_trips_through_text() {
    let hash = artifact_revision_hash("character-card", "json", b"{}");
    assert_eq!(ContentHash::parse(&hash.text()).unwrap(), hash);
}

#[test]
fn domain_separation_changes_hashes() {
    let value = object(vec![("a", number(1))]);
    let first = canonical_json_hash("stcli:first:v1", &value).unwrap();
    let second = canonical_json_hash("stcli:second:v1", &value).unwrap();
    assert_ne!(first, second);
}

#[test]
fn canonical_json_writes_every_form_of_value() {
    let value = object(vec![
        ("list", Json::Array(vec![Json::Null, Json::Bool(true)])),
        ("text", Json::Text("a\"b".to_owned())),
        (
            "real",
            Json::Number(JsonNumber { form: NumberForm::Real("0.50".to_owned()), order: order(0.5) }),
        ),
        (
            "less",
            Json::Number(JsonNumber { form: NumberForm::Negative(-3), order: order(-3.0) }),
        ),
    ]);
    assert_eq!(
        canonical_json(&value).unwrap(),
        br#"{"less":-3,"list":[null,true],"real":0.5,"text":"a\"b"}"#
    );
}

#[test]
fn a_numeral_that_is_none_has_no_canonical_form() {
    let value =
        Json::Number(JsonNumber { form: NumberForm::Real("no number".to_owned()), order: 0 });
    assert!(canonical_json(&value).is_err());
    assert!(canonical_json_hash("domain", &value).is_err());
    assert!(session_projection_hash(&value).is_err());
}

#[test]
fn a_hash_is_written_with_its_algorithm() {
    let hash = ContentHash::new([0xab; 32]);
    assert_eq!(hash.text(), format!("sha256:{}", "ab".repeat(32)));
    assert_eq!(hash.as_bytes(), &[0xab; 32]);
    assert_eq!(hash.hex(), "ab".repeat(32));
}

#[test]
fn hashes_that_are_ill_written_are_refused() {
    assert!(matches!(
        ContentHash::parse(&"ab".repeat(32)),
        Err(ParseContentHashError::MissingPrefix)
    ));
    assert!(ContentHash::parse("sha256:abcd").is_err());
    assert!(ContentHash::parse(&format!("sha256:{}", "zz".repeat(32))).is_err());
    assert_eq!(
        ContentHash::parse(&format!("sha256:{}", "AB".repeat(32))).unwrap(),
        ContentHash::new([0xab; 32])
    );
}

#[test]
fn the_revision_hash_frames_its_parts() {
    assert_ne!(
        artifact_revision_hash("ab", "c", b""),
        artifact_revision_hash("a", "bc", b"")
    );
    assert_ne!(
        artifact_revision_hash("a", "b", b"c").text(),
        ContentHash::new([0; 32]).text()
    );
}

#[test]
fn identities_are_read_as_they_are_written() {
    let id = EntityId::from_ulid(0x0123_4567_89ab_cdef_0123_4567_89ab_cdef);
    assert_eq!(EntityId::parse(&id.text()).unwrap(), id);
    assert_eq!(id.text().len(), 26);
    assert_eq!(id.into_ulid(), 0x0123_4567_89ab_cdef_0123_4567_89ab_cdef);
    assert_eq!(id.timestamp_ms(), 0x0123_4567_89ab);
    assert_eq!(EntityId::parse("short"), Err(EntityIdError::InvalidLength));
    assert_eq!(EntityId::parse(&"!".repeat(26)), Err(EntityIdError::InvalidChar));
    assert_eq!(EntityId::parse(&EntityId::new().text()).is_ok(), true);
}
