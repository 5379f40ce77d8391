use concordia_crossing::json::{
    canonical_fingerprint, canonical_json, canonical_json_inner, stable_run_id, to_lower_hex,
    without_id, JsonValue,
};
use concordia_crossing::analysis::run_identity;

fn text(s: &str) -> JsonValue {
    JsonValue::Text(s.to_string())
}

fn number(s: &str) -> JsonValue {
    JsonValue::Number(s.to_string())
}

fn object(members: Vec<(&str, JsonValue)>) -> JsonValue {
    JsonValue::Object(members.into_iter().map(|(k, v)| (k.to_string(), v)).collect())
}

fn constants() -> JsonValue {
    object(vec![
        ("lambda_235_per_year", number("9.8485e-10")),
        ("lambda_238_per_year", number("1.55125e-10")),
        ("u238_over_u235", number("137.88")),
    ])
}

fn run(id: JsonValue) -> JsonValue {
    object(vec![
        ("id", id),
        ("name", text("run A")),
        (
            "points",
            JsonValue::Array(vec![object(vec![("x", number("1.5")), ("y", number("0.2"))])]),
        ),
    ])
}

#[test]
fn canonical_text_sorts_keys_without_quoting() {
    let value = object(vec![
        ("b", JsonValue::Bool(true)),
        ("a", JsonValue::Array(vec![JsonValue::Null, number("1"), text("x")])),
        ("c", JsonValue::Bool(false)),
    ]);
    assert_eq!(canonical_json_inner(&value), "{a:[null,1,x],b:true,c:false}");
}

#[test]
fn canonical_text_of_nested_and_empty_values() {
    assert_eq!(canonical_json_inner(&JsonValue::Array(vec![])), "[]");
    assert_eq!(canonical_json_inner(&object(vec![])), "{}");
    let nested = object(vec![("z", object(vec![("y", text("1")), ("x", text("2"))]))]);
    assert_eq!(canonical_json_inner(&nested), "{z:{x:2,y:1}}");
}

#[test]
fn keys_are_ordered_by_bytes() {
    let value = object(vec![("é", number("1")), ("z", number("2")), ("Z", number("3"))]);
    assert_eq!(canonical_json_inner(&value), "{Z:3,z:2,é:1}");
}

#[test]
fn digest_is_lower_hex_sha256_of_canonical_text() {
    assert_eq!(
        canonical_json(&text("hello world")),
        "b94d27b9934d3e08a52e52d7da7dabfac484efe37a5380ee9088f7ace2efcde9"
    );
}

#[test]
fn lower_hex_renders_two_digits_per_byte() {
    assert_eq!(to_lower_hex(&[0x0a, 0x14, 0x1e, 0xff, 0x00]), "0a141eff00");
    assert_eq!(to_lower_hex(&[]), "");
}

#[test]
fn without_id_blanks_or_adds_the_identifier() {
    let blanked = without_id(run(text("given")));
    assert_eq!(
        canonical_json_inner(&blanked),
        "{id:null,name:run A,points:[{x:1.5,y:0.2}]}"
    );
    let added = without_id(object(vec![("name", text("n"))]));
    assert_eq!(canonical_json_inner(&added), "{id:null,name:n}");
    assert_eq!(canonical_json_inner(&without_id(text("t"))), "t");
}

#[test]
fn fingerprint_does_not_depend_on_the_identifier() {
    let a = canonical_fingerprint(run(text("fixture-normal")), constants());
    let b = canonical_fingerprint(run(JsonValue::Null), constants());
    assert_eq!(a, b);
    assert_eq!(a.len(), 64);
    assert!(a.chars().all(|c| c.is_ascii_hexdigit() && !c.is_ascii_uppercase()));
}

#[test]
fn fingerprint_is_the_digest_of_the_payload() {
    let expected_text = "{constants:{lambda_235_per_year:9.8485e-10,lambda_238_per_year:1.55125e-10,u238_over_u235:137.88},equation_version:upb-wetherill-tw-constants-v1,run:{id:null,name:run A,points:[{x:1.5,y:0.2}]}}";
    let payload = text(expected_text);
    assert_eq!(
        canonical_fingerprint(run(text("x")), constants()),
        canonical_json(&payload)
    );
}

#[test]
fn fingerprint_ignores_member_order() {
    let reordered = object(vec![
        (
            "points",
            JsonValue::Array(vec![object(vec![("y", number("0.2")), ("x", number("1.5"))])]),
        ),
        ("name", text("run A")),
        ("id", JsonValue::Null),
    ]);
    assert_eq!(
        canonical_fingerprint(reordered, constants()),
        canonical_fingerprint(run(JsonValue::Null), constants())
    );
}

#[test]
fn fingerprint_changes_with_the_data() {
    let other = object(vec![
        ("id", JsonValue::Null),
        ("name", text("run B")),
        ("points", JsonValue::Array(vec![])),
    ]);
    assert_ne!(
        canonical_fingerprint(other, constants()),
        canonical_fingerprint(run(JsonValue::Null), constants())
    );
}

#[test]
fn stable_id_is_the_fingerprint_prefix() {
    let fingerprint = canonical_fingerprint(run(text("abc")), constants());
    let id = stable_run_id(run(text("abc")), constants());
    assert_eq!(id.len(), 16);
    assert_eq!(id, fingerprint[..16]);
    assert_eq!(stable_run_id(run(JsonValue::Null), constants()), id);
}

#[test]
fn run_identity_keeps_a_given_id() {
    let given = run_identity(run(text("fixture-tangent")), constants(), Some("fixture-tangent".to_string()));
    assert_eq!(given.id, "fixture-tangent");
    let derived = run_identity(run(JsonValue::Null), constants(), None);
    assert_eq!(derived.fingerprint, given.fingerprint);
    assert_eq!(derived.id, given.fingerprint[..16]);
}
