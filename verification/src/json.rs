//! The dataset document's JSON shell.
//!
//! The document is parsed by serde_json; this module declares the few
//! trusted accessors the ingestor needs, and converts the parts of the
//! tree the catalog reads into plain data (`JsonLite`, `FeatureDoc`) that
//! the verified ingestion rules in `trails` work on. What a given
//! document contains can only be observed at run time, so the functions
//! here carry structural contracts only; every decision the catalog makes
//! on the extracted data is specified exactly in `trails`.

use vstd::prelude::*;
use serde_json::Value;

verus! {

#[verifier::external_type_specification]
#[verifier::external_body]
pub struct ExValue(Value);

/// Whether serde_json accepts the text as one JSON document: what
/// `serde_json::from_str::<Value>` returns depends on the text alone.
pub uninterp spec fn json_ok(s: Seq<char>) -> bool;

/// Relies on serde_json::from_str: `Some` exactly when the text is a
/// valid JSON document, a function of the text alone.
#[verifier::external_body]
fn parse_value(s: &str) -> (r: Option<Value>)
    ensures
        r is Some <==> json_ok(s@),
{
    serde_json::from_str(s).ok()
}

/// Relies on serde_json::Value::get: the field of an object, by key.
#[verifier::external_body]
fn get_field<'a>(v: &'a Value, key: &str) -> (r: Option<&'a Value>) {
    v.get(key)
}

/// Relies on serde_json::Value::as_str: the owned text of a JSON string.
#[verifier::external_body]
fn as_str_owned(v: &Value) -> (r: Option<String>) {
    v.as_str().map(|s| s.to_string())
}

/// Relies on serde_json::Value::as_array: the elements of a JSON array.
#[verifier::external_body]
fn as_array<'a>(v: &'a Value) -> (r: Option<&'a Vec<Value>>) {
    v.as_array()
}

/// Relies on serde_json::Value::is_object.
#[verifier::external_body]
fn is_object(v: &Value) -> (r: bool) {
    v.is_object()
}

/// Relies on the Display form of serde_json::Number: the decimal text of
/// a JSON number.
#[verifier::external_body]
fn number_text(v: &Value) -> (r: Option<String>) {
    match v {
        Value::Number(n) => Some(n.to_string()),
        _ => None,
    }
}

/// The fragment of a JSON tree the geometry reader distinguishes: a
/// number (by its decimal text), an array, or anything else.
#[derive(Debug)]
pub enum JsonLite {
    Num(String),
    Arr(Vec<JsonLite>),
    Other,
}

/// Convert the JSON subtree under `v` into plain data, to `depth` levels;
/// anything deeper, and anything that is neither number nor array, reads
/// as `Other`.
fn value_to_lite(v: &Value, depth: u32) -> (r: JsonLite)
    decreases depth,
{
    if depth == 0 {
        return JsonLite::Other;
    }
    match number_text(v) {
        Some(t) => JsonLite::Num(t),
        None => {
            match as_array(v) {
                Some(arr) => {
                    let mut items: Vec<JsonLite> = Vec::new();
                    let n = arr.len();
                    let mut i: usize = 0;
                    while i < n
                        invariant
                            0 <= i <= n,
                            n == arr@.len(),
                            depth >= 1,
                        decreases n - i,
                    {
                        let item = value_to_lite(&arr[i], depth - 1);
                        items.push(item);
                        i = i + 1;
                    }
                    JsonLite::Arr(items)
                },
                None => JsonLite::Other,
            }
        },
    }
}

/// The parts of one feature that the ingestion rules read: the provider's
/// property fields as plain optional strings, the raw path length's
/// decimal text, and the geometry's type tag and coordinate tree.
#[derive(Debug)]
pub struct FeatureDoc {
    pub name: Option<String>,
    pub park: Option<String>,
    pub park_code: Option<String>,
    pub difficulty: Option<String>,
    pub length_text: Option<String>,
    pub geom_type: Option<String>,
    pub coords: JsonLite,
}

/// Read one feature's fields. `None` when the feature has no object
/// under "properties" or no "geometry" at all: such a feature is dropped.
fn feature_doc_of(v: &Value) -> (r: Option<FeatureDoc>) {
    let props = match get_field(v, "properties") {
        Some(p) => {
            if is_object(p) {
                p
            } else {
                return None;
            }
        },
        None => {
            return None;
        },
    };
    let geometry = match get_field(v, "geometry") {
        Some(g) => g,
        None => {
            return None;
        },
    };
    let name = match get_field(props, "Toponyme1") {
        Some(x) => as_str_owned(x),
        None => None,
    };
    let park = match get_field(props, "Nom_etab") {
        Some(x) => as_str_owned(x),
        None => None,
    };
    let park_code = match get_field(props, "Code_etab") {
        Some(x) => as_str_owned(x),
        None => None,
    };
    let difficulty = match get_field(props, "Niv_diff") {
        Some(x) => as_str_owned(x),
        None => None,
    };
    let length_text = match get_field(props, "Shape_Leng") {
        Some(x) => number_text(x),
        None => None,
    };
    let geom_type = match get_field(geometry, "type") {
        Some(x) => as_str_owned(x),
        None => None,
    };
    let coords = match get_field(geometry, "coordinates") {
        Some(c) => value_to_lite(c, 3),
        None => JsonLite::Other,
    };
    Some(FeatureDoc { name, park, park_code, difficulty, length_text, geom_type, coords })
}

/// Why a document yields no catalog.
#[derive(Clone, Copy, Debug, PartialEq, Eq, Structural)]
pub enum CatalogError {
    /// The payload is not valid JSON.
    InvalidJson,
    /// The document has no top-level "features" array: a fatal
    /// structural error.
    MissingFeatures,
}

/// Parse the dataset payload into one `FeatureDoc` per feature that has a
/// properties object and a geometry. The absence of a top-level
/// "features" array is the one fatal error; every malformed field of an
/// individual feature only degrades to `None` or drops that feature.
pub fn parse_features(text: &str) -> (r: Result<Vec<FeatureDoc>, CatalogError>)
    ensures
        (r matches Err(e) && e == CatalogError::InvalidJson) <==> !json_ok(text@),
{
    let root = match parse_value(text) {
        Some(v) => v,
        None => {
            return Err(CatalogError::InvalidJson);
        },
    };
    let features = match get_field(&root, "features") {
        Some(f) => match as_array(f) {
            Some(arr) => arr,
            None => {
                return Err(CatalogError::MissingFeatures);
            },
        },
        None => {
            return Err(CatalogError::MissingFeatures);
        },
    };
    let mut docs: Vec<FeatureDoc> = Vec::new();
    let n = features.len();
    let mut i: usize = 0;
    while i < n
        invariant
            0 <= i <= n,
            n == features@.len(),
        decreases n - i,
    {
        match feature_doc_of(&features[i]) {
            Some(doc) => docs.push(doc),
            None => (),
        }
        i = i + 1;
    }
    Ok(docs)
}

} // verus!
