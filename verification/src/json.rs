use vstd::prelude::*;
use vstd::utf8::encode_utf8;
use crate::text::{join, string_views, join_strings, concat3, push_char};
use crate::model::EQUATION_VERSION;

verus! {

/// Mathematical model of a JSON value: strings are character sequences and
/// object members keep the order in which they were given.
pub enum Json {
    Null,
    Bool(bool),
    Number(Seq<char>),
    Text(Seq<char>),
    Array(Seq<Json>),
    Object(Seq<(Seq<char>, Json)>),
}

/// A JSON value as handed to the fingerprint routines. Numbers are carried as
/// the text the serializer produced for them.
pub enum JsonValue {
    Null,
    Bool(bool),
    Number(String),
    Text(String),
    Array(Vec<JsonValue>),
    Object(Vec<(String, JsonValue)>),
}

impl View for JsonValue {
    type V = Json;

    open spec fn view(&self) -> Json {
        json_view(self)
    }
}

/// Model of a JSON value.
pub open spec fn json_view(v: &JsonValue) -> Json
    decreases v,
{
    match v {
        JsonValue::Null => Json::Null,
        JsonValue::Bool(b) => Json::Bool(*b),
        JsonValue::Number(t) => Json::Number(t@),
        JsonValue::Text(t) => Json::Text(t@),
        JsonValue::Array(items) => {
            proof {
                broadcast use vstd::std_specs::vec::axiom_vec_decreases_to_view;
            }
            Json::Array(items_view(items@))
        },
        JsonValue::Object(ms) => {
            proof {
                broadcast use vstd::std_specs::vec::axiom_vec_decreases_to_view;
            }
            Json::Object(members_view(ms@))
        },
    }
}

/// Models of array items, in order.
pub open spec fn items_view(items: Seq<JsonValue>) -> Seq<Json>
    decreases items,
{
    if items.len() == 0 {
        Seq::empty()
    } else {
        proof {
            broadcast use vstd::seq::axiom_seq_index_decreases, vstd::seq::axiom_seq_subrange_decreases;
        }
        items_view(items.drop_last()).push(json_view(&items.last()))
    }
}

/// Models of object members, in order.
pub open spec fn members_view(ms: Seq<(String, JsonValue)>) -> Seq<(Seq<char>, Json)>
    decreases ms,
{
    if ms.len() == 0 {
        Seq::empty()
    } else {
        proof {
            broadcast use vstd::seq::axiom_seq_index_decreases, vstd::seq::axiom_seq_subrange_decreases;
        }
        members_view(ms.drop_last()).push((ms.last().0@, json_view(&ms.last().1)))
    }
}

/// Strict lexicographic order on byte strings (the order of `str` in Rust).
pub open spec fn bytes_lt(a: Seq<u8>, b: Seq<u8>) -> bool
    decreases a.len(),
{
    if b.len() == 0 {
        false
    } else if a.len() == 0 {
        true
    } else if a[0] != b[0] {
        a[0] < b[0]
    } else {
        bytes_lt(a.drop_first(), b.drop_first())
    }
}

/// Object keys are ordered by their UTF-8 bytes.
pub open spec fn key_lt(a: Seq<char>, b: Seq<char>) -> bool {
    bytes_lt(encode_utf8(a), encode_utf8(b))
}

/// Inserts `e` after every entry whose key is not greater than its key.
pub open spec fn insert_entry(sorted: Seq<(Seq<char>, Seq<char>)>, e: (Seq<char>, Seq<char>)) -> Seq<
    (Seq<char>, Seq<char>),
>
    decreases sorted.len(),
{
    if sorted.len() == 0 {
        seq![e]
    } else if key_lt(e.0, sorted[0].0) {
        seq![e] + sorted
    } else {
        seq![sorted[0]] + insert_entry(sorted.drop_first(), e)
    }
}

/// Stable sort of `(key, text)` entries by key.
pub open spec fn sort_entries(es: Seq<(Seq<char>, Seq<char>)>) -> Seq<(Seq<char>, Seq<char>)>
    decreases es.len(),
{
    if es.len() == 0 {
        es
    } else {
        insert_entry(sort_entries(es.drop_last()), es.last())
    }
}

/// `key:text` for every entry.
pub open spec fn entry_texts(es: Seq<(Seq<char>, Seq<char>)>) -> Seq<Seq<char>> {
    es.map_values(|e: (Seq<char>, Seq<char>)| e.0 + ":"@ + e.1)
}

/// Canonical text of a JSON value: scalars as written, arrays in order,
/// object members `key:value` sorted by key; no quoting and no whitespace.
pub open spec fn canonical_text(v: Json) -> Seq<char>
    decreases v,
{
    match v {
        Json::Null => "null"@,
        Json::Bool(b) => if b {
            "true"@
        } else {
            "false"@
        },
        Json::Number(t) => t,
        Json::Text(t) => t,
        Json::Array(items) => "["@ + join(item_texts(items), ","@) + "]"@,
        Json::Object(ms) => "{"@ + join(entry_texts(sort_entries(member_texts(ms))), ","@) + "}"@,
    }
}

/// Canonical texts of array items, in order.
pub open spec fn item_texts(items: Seq<Json>) -> Seq<Seq<char>>
    decreases items,
{
    if items.len() == 0 {
        Seq::empty()
    } else {
        proof {
            broadcast use vstd::seq::axiom_seq_index_decreases, vstd::seq::axiom_seq_subrange_decreases;
        }
        item_texts(items.drop_last()).push(canonical_text(items.last()))
    }
}

/// `(key, canonical text of value)` for object members, in order.
pub open spec fn member_texts(ms: Seq<(Seq<char>, Json)>) -> Seq<(Seq<char>, Seq<char>)>
    decreases ms,
{
    if ms.len() == 0 {
        Seq::empty()
    } else {
        proof {
            broadcast use vstd::seq::axiom_seq_index_decreases, vstd::seq::axiom_seq_subrange_decreases;
        }
        member_texts(ms.drop_last()).push((ms.last().0, canonical_text(ms.last().1)))
    }
}

/// Character views of `(key, text)` entries.
pub open spec fn entries_view(es: Seq<(String, String)>) -> Seq<(Seq<char>, Seq<char>)> {
    es.map_values(|e: (String, String)| (e.0@, e.1@))
}

proof fn lemma_items_view(items: Seq<JsonValue>)
    ensures
        items_view(items).len() == items.len(),
        forall|k: int| 0 <= k < items.len() ==> #[trigger] items_view(items)[k] == items[k]@,
    decreases items.len(),
{
    if items.len() > 0 {
        lemma_items_view(items.drop_last());
    }
}

proof fn lemma_members_view(ms: Seq<(String, JsonValue)>)
    ensures
        members_view(ms).len() == ms.len(),
        forall|k: int|
            0 <= k < ms.len() ==> #[trigger] members_view(ms)[k] == (ms[k].0@, ms[k].1@),
    decreases ms.len(),
{
    if ms.len() > 0 {
        lemma_members_view(ms.drop_last());
    }
}

proof fn lemma_item_texts(items: Seq<Json>)
    ensures
        item_texts(items).len() == items.len(),
        forall|k: int|
            0 <= k < items.len() ==> #[trigger] item_texts(items)[k] == canonical_text(items[k]),
    decreases items.len(),
{
    if items.len() > 0 {
        lemma_item_texts(items.drop_last());
    }
}

proof fn lemma_member_texts(ms: Seq<(Seq<char>, Json)>)
    ensures
        member_texts(ms).len() == ms.len(),
        forall|k: int|
            0 <= k < ms.len() ==> #[trigger] member_texts(ms)[k] == (ms[k].0, canonical_text(ms[k].1)),
    decreases ms.len(),
{
    if ms.len() > 0 {
        lemma_member_texts(ms.drop_last());
    }
}

/// `insert_entry` places the entry at the first position whose key is greater.
proof fn lemma_insert_at(t: Seq<(Seq<char>, Seq<char>)>, e: (Seq<char>, Seq<char>), j: int)
    requires
        0 <= j <= t.len(),
        forall|k: int| 0 <= k < j ==> !key_lt(e.0, #[trigger] t[k].0),
        j < t.len() ==> key_lt(e.0, t[j].0),
    ensures
        insert_entry(t, e) == t.take(j) + seq![e] + t.skip(j),
    decreases j,
{
    if j == 0 {
        if t.len() == 0 {
            assert(t.take(0) + seq![e] + t.skip(0) =~= seq![e]);
        } else {
            assert(t.take(0) + seq![e] + t.skip(0) =~= seq![e] + t);
        }
    } else {
        assert(!key_lt(e.0, t[0].0));
        let rest = t.drop_first();
        assert forall|k: int| 0 <= k < j - 1 implies !key_lt(e.0, #[trigger] rest[k].0) by {
            assert(rest[k] == t[k + 1]);
        }
        lemma_insert_at(rest, e, j - 1);
        assert(seq![t[0]] + (rest.take(j - 1) + seq![e] + rest.skip(j - 1)) =~= t.take(j) + seq![e]
            + t.skip(j));
    }
}

/// Lexicographic comparison of two byte strings.
fn bytes_less(a: &[u8], b: &[u8]) -> (r: bool)
    ensures
        r == bytes_lt(a@, b@),
{
    let mut i: usize = 0;
    assert(a@.skip(0) =~= a@);
    assert(b@.skip(0) =~= b@);
    while i < a.len() && i < b.len()
        invariant
            i <= a.len(),
            i <= b.len(),
            bytes_lt(a@, b@) == bytes_lt(a@.skip(i as int), b@.skip(i as int)),
        decreases a.len() - i,
    {
        if a[i] != b[i] {
            assert(a@.skip(i as int)[0] == a[i as int]);
            assert(b@.skip(i as int)[0] == b[i as int]);
            return a[i] < b[i];
        }
        assert(a@.skip(i as int).drop_first() =~= a@.skip(i + 1));
        assert(b@.skip(i as int).drop_first() =~= b@.skip(i + 1));
        i = i + 1;
    }
    i < b.len()
}

/// Inserts `e` into the key-sorted entry list at its stable position.
fn insert_sorted(sorted: &mut Vec<(String, String)>, e: (String, String))
    ensures
        entries_view(final(sorted)@) == insert_entry(entries_view(old(sorted)@), (e.0@, e.1@)),
{
    let ghost t = entries_view(sorted@);
    let ghost ev = (e.0@, e.1@);
    let mut j: usize = 0;
    let mut stop = false;
    while j < sorted.len() && !stop
        invariant
            j <= sorted.len(),
            t == entries_view(sorted@),
            ev == (e.0@, e.1@),
            forall|k: int| 0 <= k < j ==> !key_lt(ev.0, #[trigger] t[k].0),
            stop ==> j < sorted.len() && key_lt(ev.0, t[j as int].0),
        decreases sorted.len() - j + (if stop { 0int } else { 1int }),
    {
        let less = bytes_less(e.0.as_str().as_bytes(), sorted[j].0.as_str().as_bytes());
        assert(t[j as int].0 == sorted@[j as int].0@);
        if less {
            stop = true;
        } else {
            j = j + 1;
        }
    }
    proof {
        lemma_insert_at(t, ev, j as int);
    }
    sorted.insert(j, e);
    assert(entries_view(sorted@) =~= t.take(j as int) + seq![ev] + t.skip(j as int));
}

/// Canonical text of a JSON value (see `canonical_text`).
#[verifier::loop_isolation(false)]
pub fn canonical_json_inner(value: &JsonValue) -> (text: String)
    ensures
        text@ == canonical_text(value@),
    decreases value,
{
    match value {
        JsonValue::Null => String::from_str("null"),
        JsonValue::Bool(b) => if *b {
            String::from_str("true")
        } else {
            String::from_str("false")
        },
        JsonValue::Number(t) => t.clone(),
        JsonValue::Text(t) => t.clone(),
        JsonValue::Array(items) => {
            let ghost js = items_view(items@);
            proof {
                lemma_items_view(items@);
                lemma_item_texts(js);
            }
            let mut parts: Vec<String> = Vec::new();
            let mut i: usize = 0;
            while i < items.len()
                invariant
                    i <= items.len(),
                    parts@.len() == i,
                    js == items_view(items@),
                    js.len() == items@.len(),
                    forall|k: int| 0 <= k < i ==> (#[trigger] parts@[k])@ == item_texts(js)[k],
                    forall|k: int| 0 <= k < js.len() ==> #[trigger] item_texts(js)[k] == canonical_text(js[k]),
                    forall|k: int| 0 <= k < items@.len() ==> #[trigger] js[k] == items@[k]@,
                    item_texts(js).len() == js.len(),
                decreases items.len() - i,
            {
                proof {
                    broadcast use vstd::std_specs::vec::axiom_vec_index_decreases;
                    assert(decreases_to!(*value => value->Array_0));
                    assert(decreases_to!(value->Array_0 => value->Array_0[i as int]));
                }
                let t = canonical_json_inner(&items[i]);
                parts.push(t);
                i = i + 1;
            }
            assert(string_views(parts@) =~= item_texts(js));
            let joined = join_strings(&parts, ",");
            concat3("[", joined.as_str(), "]")
        },
        JsonValue::Object(ms) => {
            let ghost jm = members_view(ms@);
            proof {
                lemma_members_view(ms@);
                lemma_member_texts(jm);
            }
            let ghost mt = member_texts(jm);
            let mut sorted: Vec<(String, String)> = Vec::new();
            let mut i: usize = 0;
            while i < ms.len()
                invariant
                    i <= ms.len(),
                    jm == members_view(ms@),
                    mt == member_texts(jm),
                    jm.len() == ms@.len(),
                    mt.len() == jm.len(),
                    forall|k: int| 0 <= k < jm.len() ==> #[trigger] mt[k] == (jm[k].0, canonical_text(jm[k].1)),
                    forall|k: int| 0 <= k < ms@.len() ==> #[trigger] jm[k] == (ms@[k].0@, ms@[k].1@),
                    entries_view(sorted@) == sort_entries(mt.take(i as int)),
                decreases ms.len() - i,
            {
                proof {
                    broadcast use vstd::std_specs::vec::axiom_vec_index_decreases;
                    assert(decreases_to!(*value => value->Object_0));
                    assert(decreases_to!(value->Object_0 => value->Object_0[i as int]));
                    assert(decreases_to!(value->Object_0[i as int] => value->Object_0[i as int].1));
                }
                let t = canonical_json_inner(&ms[i].1);
                let key = ms[i].0.clone();
                insert_sorted(&mut sorted, (key, t));
                proof {
                    assert(mt.take(i + 1).drop_last() =~= mt.take(i as int));
                    assert(mt.take(i + 1).last() == mt[i as int]);
                }
                i = i + 1;
            }
            assert(mt.take(ms.len() as int) =~= mt);
            let mut parts: Vec<String> = Vec::new();
            let mut k: usize = 0;
            while k < sorted.len()
                invariant
                    k <= sorted.len(),
                    parts@.len() == k,
                    forall|q: int| 0 <= q < k ==> (#[trigger] parts@[q])@ == entry_texts(entries_view(sorted@))[q],
                decreases sorted.len() - k,
            {
                let part = concat3(sorted[k].0.as_str(), ":", sorted[k].1.as_str());
                parts.push(part);
                k = k + 1;
            }
            assert(string_views(parts@) =~= entry_texts(entries_view(sorted@)));
            let joined = join_strings(&parts, ",");
            concat3("{", joined.as_str(), "}")
        },
    }
}

/// Name for the SHA-256 digest of a byte string as computed by `sha2::Sha256`.
pub uninterp spec fn sha256_digest(data: Seq<u8>) -> Seq<u8>;

/// Calls `sha2::Sha256::digest` (through `sha2::Digest`) and copies the digest
/// into a vector. The contract claims only that the result is the value named
/// `sha256_digest` of the input bytes and that it is 32 bytes long (the output
/// size of SHA-256); what the digest is, is left unsaid.
#[verifier::external_body]
fn sha256(data: &[u8]) -> (digest: Vec<u8>)
    ensures
        digest@ == sha256_digest(data@),
        digest@.len() == 32,
{
    <sha2::Sha256 as sha2::Digest>::digest(data).to_vec()
}

/// Lower-case hexadecimal digit for a nibble.
pub open spec fn hex_digit(d: int) -> char {
    if d < 10 {
        (48 + d) as char
    } else {
        (87 + d) as char
    }
}

/// Lower-case hexadecimal text of a byte string, two digits per byte, high nibble first.
pub open spec fn lower_hex(bytes: Seq<u8>) -> Seq<char>
    decreases bytes.len(),
{
    if bytes.len() == 0 {
        Seq::empty()
    } else {
        lower_hex(bytes.drop_last()) + seq![
            hex_digit(bytes.last() as int / 16),
            hex_digit(bytes.last() as int % 16),
        ]
    }
}

pub proof fn lemma_lower_hex_len(bytes: Seq<u8>)
    ensures
        lower_hex(bytes).len() == 2 * bytes.len(),
    decreases bytes.len(),
{
    if bytes.len() > 0 {
        lemma_lower_hex_len(bytes.drop_last());
    }
}

fn hex_char(d: u8) -> (c: char)
    requires
        d < 16,
    ensures
        c == hex_digit(d as int),
{
    if d < 10 {
        (48u8 + d) as char
    } else {
        (87u8 + d) as char
    }
}

/// Lower-case hexadecimal rendering of bytes (as `{:x}` prints a digest).
pub fn to_lower_hex(bytes: &[u8]) -> (hex: String)
    ensures
        hex@ == lower_hex(bytes@),
        hex@.len() == 2 * bytes@.len(),
        forall|k: int|
            0 <= k < bytes@.len() ==> hex@[2 * k] == "0123456789abcdef"@[bytes@[k] as int / 16]
                && hex@[2 * k + 1] == "0123456789abcdef"@[bytes@[k] as int % 16],
{
    proof {
        lemma_lower_hex_digits(bytes@);
    }
    let mut hex = String::new();
    let mut i: usize = 0;
    while i < bytes.len()
        invariant
            i <= bytes.len(),
            hex@ == lower_hex(bytes@.take(i as int)),
        decreases bytes.len() - i,
    {
        let b = bytes[i];
        push_char(&mut hex, hex_char(b / 16));
        push_char(&mut hex, hex_char(b % 16));
        assert(bytes@.take(i + 1).drop_last() =~= bytes@.take(i as int));
        i = i + 1;
    }
    assert(bytes@.take(bytes.len() as int) =~= bytes@);
    hex
}

/// Digest text of a JSON value: lower-case hex SHA-256 of the UTF-8 bytes of its canonical text.
pub open spec fn canonical_digest(v: Json) -> Seq<char> {
    lower_hex(sha256_digest(encode_utf8(canonical_text(v))))
}

/// Hashes the canonical text of a JSON value.
pub fn canonical_json(value: &JsonValue) -> (hex: String)
    ensures
        hex@ == canonical_digest(value@),
        hex@.len() == 64,
{
    let text = canonical_json_inner(value);
    let digest = sha256(text.as_str().as_bytes());
    proof {
        lemma_lower_hex_len(digest@);
    }
    to_lower_hex(digest.as_slice())
}

/// Whether some member of an object carries `key`.
pub open spec fn has_member(ms: Seq<(Seq<char>, Json)>, key: Seq<char>) -> bool {
    exists|k: int| 0 <= k < ms.len() && (#[trigger] ms[k]).0 == key
}

/// A run with its identifier blanked: every `id` member of an object becomes
/// `null`, and an object without one gains `id: null`; other values are unchanged.
pub open spec fn json_without_id(v: Json) -> Json {
    match v {
        Json::Object(ms) => if has_member(ms, "id"@) {
            Json::Object(
                ms.map_values(
                    |m: (Seq<char>, Json)|
                        if m.0 == "id"@ {
                            (m.0, Json::Null)
                        } else {
                            m
                        },
                ),
            )
        } else {
            Json::Object(ms.push(("id"@, Json::Null)))
        },
        _ => v,
    }
}

/// Blanks the identifier of a run (see `json_without_id`).
pub fn without_id(value: JsonValue) -> (r: JsonValue)
    ensures
        r@ == json_without_id(value@),
{
    match value {
        JsonValue::Object(mut ms) => {
            let ghost jm = members_view(ms@);
            proof {
                lemma_members_view(ms@);
            }
            let id_key = String::from_str("id");
            let mut found = false;
            let mut i: usize = 0;
            while i < ms.len()
                invariant
                    i <= ms.len(),
                    ms@.len() == jm.len(),
                    id_key@ == "id"@,
                    forall|k: int| #![trigger ms@[k]]
                        0 <= k < i ==> (ms@[k].0@, ms@[k].1@) == (if jm[k].0 == "id"@ {
                            (jm[k].0, Json::Null)
                        } else {
                            jm[k]
                        }),
                    forall|k: int| #![trigger ms@[k]]
                        i <= k < ms@.len() ==> (ms@[k].0@, ms@[k].1@) == jm[k],
                    found <==> exists|k: int| 0 <= k < i && (#[trigger] jm[k]).0 == "id"@,
                decreases ms.len() - i,
            {
                if ms[i].0 == id_key {
                    let key = ms[i].0.clone();
                    ms.set(i, (key, JsonValue::Null));
                    found = true;
                }
                i = i + 1;
            }
            if !found {
                ms.push((id_key, JsonValue::Null));
            }
            proof {
                lemma_members_view(ms@);
                if found {
                    assert(has_member(jm, "id"@));
                    assert(members_view(ms@) =~= jm.map_values(
                        |m: (Seq<char>, Json)|
                            if m.0 == "id"@ {
                                (m.0, Json::Null)
                            } else {
                                m
                            },
                    ));
                } else {
                    assert(!has_member(jm, "id"@));
                    assert(members_view(ms@) =~= jm.push(("id"@, Json::Null)));
                }
            }
            JsonValue::Object(ms)
        },
        other => other,
    }
}

/// The object whose canonical digest is a run's fingerprint: the equation
/// version, the equation constants and the run without its identifier.
pub open spec fn fingerprint_payload(run: Json, constants: Json) -> Json {
    Json::Object(
        seq![
            ("equation_version"@, Json::Text(EQUATION_VERSION@)),
            ("constants"@, constants),
            ("run"@, json_without_id(run)),
        ],
    )
}

/// Fingerprint of a run under the given equation constants.
pub open spec fn run_fingerprint(run: Json, constants: Json) -> Seq<char> {
    canonical_digest(fingerprint_payload(run, constants))
}

/// Canonical fingerprint of a run: 64 lower-case hex digits of the SHA-256 of
/// the canonical text of `{equation_version, constants, run without id}`.
pub fn canonical_fingerprint(run: JsonValue, constants: JsonValue) -> (fingerprint: String)
    ensures
        fingerprint@ == run_fingerprint(run@, constants@),
        fingerprint@.len() == 64,
{
    let ghost run_view = run@;
    let ghost constants_view = constants@;
    let blank = without_id(run);
    let mut members: Vec<(String, JsonValue)> = Vec::new();
    members.push((String::from_str("equation_version"), JsonValue::Text(String::from_str(EQUATION_VERSION))));
    members.push((String::from_str("constants"), constants));
    members.push((String::from_str("run"), blank));
    let payload = JsonValue::Object(members);
    proof {
        lemma_members_view(members@);
        assert(members_view(members@) =~= seq![
            ("equation_version"@, Json::Text(EQUATION_VERSION@)),
            ("constants"@, constants_view),
            ("run"@, json_without_id(run_view)),
        ]);
    }
    canonical_json(&payload)
}

/// Blanking the identifier twice is the same as blanking it once.
pub proof fn lemma_without_id_idempotent(v: Json)
    ensures
        json_without_id(json_without_id(v)) == json_without_id(v),
{
    let f = |m: (Seq<char>, Json)|
        if m.0 == "id"@ {
            (m.0, Json::Null)
        } else {
            m
        };
    match v {
        Json::Object(ms) => {
            if has_member(ms, "id"@) {
                let k = choose|k: int| 0 <= k < ms.len() && (#[trigger] ms[k]).0 == "id"@;
                let once = ms.map_values(f);
                assert(once[k].0 == "id"@);
                assert(has_member(once, "id"@));
                assert(once.map_values(f) =~= once);
            } else {
                let once = ms.push(("id"@, Json::Null));
                assert(once[ms.len() as int].0 == "id"@);
                assert(has_member(once, "id"@));
                assert forall|j: int| 0 <= j < once.len() implies #[trigger] once.map_values(f)[j]
                    == once[j] by {
                    if j < ms.len() {
                        assert(once[j] == ms[j]);
                        if ms[j].0 == "id"@ {
                            assert(has_member(ms, "id"@));
                        }
                    }
                }
                assert(once.map_values(f) =~= once);
            }
        },
        _ => {},
    }
}

/// A run's fingerprint does not depend on its identifier: blanking the
/// identifier first leaves the fingerprint unchanged, and two runs that agree
/// once their identifiers are blanked have the same fingerprint.
pub proof fn lemma_fingerprint_ignores_id(run: Json, other: Json, constants: Json)
    ensures
        run_fingerprint(json_without_id(run), constants) == run_fingerprint(run, constants),
        json_without_id(run) == json_without_id(other) ==> run_fingerprint(run, constants)
            == run_fingerprint(other, constants),
{
    lemma_without_id_idempotent(run);
}

/// Identifier assigned to a run that names none: the first 16 digits of its fingerprint.
pub fn stable_run_id(run: JsonValue, constants: JsonValue) -> (id: String)
    ensures
        id@ == run_fingerprint(run@, constants@).take(16),
        id@.len() == 16,
{
    let ghost run_view = run@;
    let blank = without_id(run);
    let fingerprint = canonical_fingerprint(blank, constants);
    proof {
        lemma_fingerprint_ignores_id(run_view, run_view, constants@);
    }
    let prefix = fingerprint.as_str().substring_char(0, 16);
    String::from_str(prefix)
}

/// Hex text of a byte string: each byte becomes two characters of
/// `0123456789abcdef`, the digit of its high nibble then that of its low nibble.
pub proof fn lemma_lower_hex_digits(bytes: Seq<u8>)
    ensures
        lower_hex(bytes).len() == 2 * bytes.len(),
        forall|k: int|
            0 <= k < bytes.len() ==> lower_hex(bytes)[2 * k] == "0123456789abcdef"@[bytes[k] as int
                / 16] && lower_hex(bytes)[2 * k + 1] == "0123456789abcdef"@[bytes[k] as int % 16],
    decreases bytes.len(),
{
    reveal_strlit("0123456789abcdef");
    lemma_lower_hex_len(bytes);
    if bytes.len() > 0 {
        let rest = bytes.drop_last();
        lemma_lower_hex_digits(rest);
        let last = bytes.last() as int;
        assert forall|d: int| 0 <= d < 16 implies hex_digit(d) == "0123456789abcdef"@[d] by {
            if d == 0 {} else if d == 1 {} else if d == 2 {} else if d == 3 {} else if d == 4 {
            } else if d == 5 {} else if d == 6 {} else if d == 7 {} else if d == 8 {} else if d == 9 {
            } else if d == 10 {} else if d == 11 {} else if d == 12 {} else if d == 13 {
            } else if d == 14 {} else {}
        }
        assert(0 <= last / 16 < 16);
        assert forall|k: int| 0 <= k < bytes.len() implies lower_hex(bytes)[2 * k]
            == "0123456789abcdef"@[bytes[k] as int / 16] && lower_hex(bytes)[2 * k + 1]
            == "0123456789abcdef"@[bytes[k] as int % 16] by {
            if k < rest.len() {
                assert(rest[k] == bytes[k]);
            }
        }
    }
}

/// Distinct byte strings have distinct hex texts: the text determines the bytes.
pub proof fn lemma_lower_hex_injective(a: Seq<u8>, b: Seq<u8>)
    requires
        lower_hex(a) == lower_hex(b),
    ensures
        a == b,
{
    reveal_strlit("0123456789abcdef");
    lemma_lower_hex_digits(a);
    lemma_lower_hex_digits(b);
    let table = "0123456789abcdef"@;
    assert forall|x: int, y: int| 0 <= x < 16 && 0 <= y < 16 && table[x] == table[y] implies x
        == y by {
        assert(table[0] == '0' && table[1] == '1' && table[2] == '2' && table[3] == '3');
        assert(table[4] == '4' && table[5] == '5' && table[6] == '6' && table[7] == '7');
        assert(table[8] == '8' && table[9] == '9' && table[10] == 'a' && table[11] == 'b');
        assert(table[12] == 'c' && table[13] == 'd' && table[14] == 'e' && table[15] == 'f');
    }
    assert forall|k: int| 0 <= k < a.len() implies a[k] == b[k] by {
        assert(lower_hex(a)[2 * k] == lower_hex(b)[2 * k]);
        assert(lower_hex(a)[2 * k + 1] == lower_hex(b)[2 * k + 1]);
        let x = a[k] as int;
        let y = b[k] as int;
        assert(x / 16 == y / 16);
        assert(x % 16 == y % 16);
        assert(x == 16 * (x / 16) + x % 16);
        assert(y == 16 * (y / 16) + y % 16);
    }
    assert(a =~= b);
}

/// Blanking the identifier of an object leaves every member not keyed `id`
/// in place, makes every member keyed `id` null, and leaves an `id` member in
/// the result; values that are not objects are unchanged.
pub proof fn lemma_without_id_effect(v: Json)
    ensures
        match v {
            Json::Object(ms) => match json_without_id(v) {
                Json::Object(rs) => {
                    &&& rs.len() >= ms.len()
                    &&& forall|k: int|
                        0 <= k < ms.len() ==> (#[trigger] rs[k]).0 == ms[k].0 && (ms[k].0 != "id"@
                            ==> rs[k] == ms[k])
                    &&& forall|k: int| 0 <= k < rs.len() && (#[trigger] rs[k]).0 == "id"@ ==> rs[k].1
                        == Json::Null
                    &&& exists|k: int| 0 <= k < rs.len() && (#[trigger] rs[k]).0 == "id"@
                    &&& rs.len() <= ms.len() + 1
                },
                _ => false,
            },
            _ => json_without_id(v) == v,
        },
{
    match v {
        Json::Object(ms) => {
            if has_member(ms, "id"@) {
                let k = choose|k: int| 0 <= k < ms.len() && (#[trigger] ms[k]).0 == "id"@;
                let rs = json_without_id(v)->Object_0;
                assert(rs[k].0 == "id"@);
            } else {
                let rs = json_without_id(v)->Object_0;
                assert(rs[ms.len() as int].0 == "id"@);
                assert forall|k: int| 0 <= k < rs.len() && (#[trigger] rs[k]).0 == "id"@ implies rs[k].1
                    == Json::Null by {
                    if k < ms.len() {
                        assert(rs[k] == ms[k]);
                        assert(has_member(ms, "id"@));
                    }
                }
            }
        },
        _ => {},
    }
}

} // verus!
