//! The flat JSON Schema subset accepted for credential forms, the check of
//! submitted values against it, and the inputs of the standard OAuth form.
//! Schemas never resolve URLs or files; complex forms belong to a custom source.
use vstd::prelude::*;
use vstd::string::*;
use vstd::utf8::*;
use crate::error::{Error, Fault, fault_of, invalid};
use crate::json::{
    Json, JsonNumber, JsonV, NumberV, at, canonical_length, encode, field, has_key,
    lemma_view_items, lemma_view_members, number_is_i64, number_is_u64, number_literal,
    parse_number, serialized_length, set_member, text_of, view_items, view_json, view_members,
};
use crate::model::{
    ClientAuth, OAuth, OAuthGrant, Values, identifier, identifier_fault, is_identifier,
};
use crate::text::{blen, byte_len, str_eq};

verus! {

// ---------------------------------------------------------------------------
// What `jsonschema` makes of schemas

/// Whether `jsonschema` (format validation on, no remote or file retrieval)
/// compiles the JSON these bytes hold into a validator; false where they hold
/// no JSON.
pub uninterp spec fn compiles_as_schema(schema: Seq<u8>) -> bool;

/// Whether the validator `jsonschema` compiles from the first JSON accepts the
/// second; false where either holds no JSON or the first compiles to no validator.
pub uninterp spec fn schema_accepts(schema: Seq<u8>, instance: Seq<u8>) -> bool;

/// `jsonschema::options().should_validate_formats(true).build(&schema)` on the
/// value that `serde_json` reads from the bytes.
#[verifier::external_body]
fn schema_compiles(schema: &[u8]) -> (r: bool)
    ensures
        r == compiles_as_schema(schema@),
{
    match serde_json::from_slice::<serde_json::Value>(schema) {
        Ok(value) => jsonschema::options().should_validate_formats(true).build(&value).is_ok(),
        Err(_) => false,
    }
}

/// `Validator::is_valid` of the validator built as in [`schema_compiles`].
#[verifier::external_body]
fn schema_validates(schema: &[u8], instance: &[u8]) -> (r: bool)
    ensures
        r == schema_accepts(schema@, instance@),
{
    let (Ok(schema), Ok(instance)) = (
        serde_json::from_slice::<serde_json::Value>(schema),
        serde_json::from_slice::<serde_json::Value>(instance),
    ) else {
        return false;
    };
    match jsonschema::options().should_validate_formats(true).build(&schema) {
        Ok(validator) => validator.is_valid(&instance),
        Err(_) => false,
    }
}

// ---------------------------------------------------------------------------
// Keywords

/// Keywords allowed at the root of a credential schema.
pub open spec fn root_keyword(k: Seq<char>) -> bool {
    ||| k == "$schema"@
    ||| k == "title"@
    ||| k == "description"@
    ||| k == "type"@
    ||| k == "properties"@
    ||| k == "required"@
    ||| k == "additionalProperties"@
}

/// Keywords allowed in a credential property.
pub open spec fn property_keyword(k: Seq<char>) -> bool {
    ||| k == "type"@
    ||| k == "title"@
    ||| k == "description"@
    ||| k == "writeOnly"@
    ||| k == "enum"@
    ||| k == "default"@
    ||| k == "minLength"@
    ||| k == "maxLength"@
    ||| k == "pattern"@
    ||| k == "format"@
    ||| k == "minimum"@
    ||| k == "maximum"@
    ||| k == "contentMediaType"@
}

/// The primitive property types a credential form supports.
pub open spec fn primitive_type(t: Seq<char>) -> bool {
    t == "string"@ || t == "boolean"@ || t == "integer"@ || t == "number"@
}

fn is_root_keyword(k: &str) -> (r: bool)
    ensures
        r == root_keyword(k@),
{
    str_eq(k, "$schema") || str_eq(k, "title") || str_eq(k, "description") || str_eq(k, "type")
        || str_eq(k, "properties") || str_eq(k, "required") || str_eq(k, "additionalProperties")
}

fn is_property_keyword(k: &str) -> (r: bool)
    ensures
        r == property_keyword(k@),
{
    str_eq(k, "type") || str_eq(k, "title") || str_eq(k, "description") || str_eq(k, "writeOnly")
        || str_eq(k, "enum") || str_eq(k, "default") || str_eq(k, "minLength") || str_eq(
        k,
        "maxLength",
    ) || str_eq(k, "pattern") || str_eq(k, "format") || str_eq(k, "minimum") || str_eq(
        k,
        "maximum",
    ) || str_eq(k, "contentMediaType")
}

// ---------------------------------------------------------------------------
// Properties

/// A choice that does not have the declared primitive type.
pub open spec fn choice_mismatch(ty: Seq<char>, c: JsonV) -> bool {
    if ty == "string"@ {
        !(c is Str)
    } else if ty == "boolean"@ {
        !(c is Bool)
    } else if ty == "integer"@ {
        !(match c {
            JsonV::Number(n) => number_is_i64(n) || number_is_u64(n),
            _ => false,
        })
    } else if ty == "number"@ {
        !(c is Number)
    } else {
        true
    }
}

/// The items of the `enum` of a property, where it is an array.
pub open spec fn choices(prop: JsonV) -> Option<Seq<JsonV>> {
    match field(prop, "enum"@) {
        Some(JsonV::Array(a)) => Some(a),
        _ => None,
    }
}

/// The fault of one credential property, if any, in the order the checks run.
pub open spec fn property_fault(key: Seq<char>, prop: JsonV) -> Option<Fault> {
    if !is_identifier(encode_utf8(key)) {
        Some(identifier_fault())
    } else if key.len() > 0 && key[0] == '_' {
        Some(Fault::Invalid("Reserved credential key"@))
    } else {
        match prop {
            JsonV::Object(kw) => {
                let ty = text_of(at(prop, "type"@));
                if (exists|i: int| 0 <= i < kw.len() && !property_keyword(#[trigger] kw[i].0)) {
                    Some(Fault::Invalid("Unsupported credential property keyword"@))
                } else if !(ty matches Some(t) && primitive_type(t)) {
                    Some(
                        Fault::Invalid("Credential properties support strings, booleans and numbers"@),
                    )
                } else if (match field(prop, "format"@) {
                    Some(f) => match text_of(f) {
                        Some(t) => !(t == "uri"@ || t == "email"@),
                        None => false,
                    },
                    None => false,
                }) {
                    Some(Fault::Invalid("Unsupported credential format"@))
                } else if (choices(prop) matches Some(a) && a.len() > 100) {
                    Some(Fault::Invalid("Too many credential choices"@))
                } else if (choices(prop) matches Some(a) && (exists|i: int|
                    0 <= i < a.len() && choice_mismatch(ty->0, #[trigger] a[i]))) {
                    Some(Fault::Invalid("Credential choices must match the declared primitive type"@))
                } else if at(prop, "writeOnly"@) == JsonV::Bool(true) && (field(prop, "default"@) is Some
                    || field(prop, "enum"@) is Some) {
                    Some(
                        Fault::Invalid(
                            "Secret defaults or choices must not be stored in provider definitions"@,
                        ),
                    )
                } else {
                    None
                }
            },
            _ => Some(Fault::Invalid("Credential property must be a schema object"@)),
        }
    }
}

/// The first fault among the first `n` properties.
pub open spec fn properties_fault(props: Seq<(Seq<char>, JsonV)>, n: nat) -> Option<Fault>
    decreases n,
{
    if n == 0 {
        None
    } else {
        match properties_fault(props, (n - 1) as nat) {
            Some(f) => Some(f),
            None => property_fault(props[n - 1].0, props[n - 1].1),
        }
    }
}

fn choice_matches(ty: &str, c: &Json) -> (r: bool)
    ensures
        r == !choice_mismatch(ty@, c@),
{
    if str_eq(ty, "string") {
        matches!(c, Json::Str(_))
    } else if str_eq(ty, "boolean") {
        matches!(c, Json::Bool(_))
    } else if str_eq(ty, "integer") {
        match c {
            Json::Number(n) => match n {
                JsonNumber::Unsigned(_) => true,
                JsonNumber::Signed(_) => true,
                JsonNumber::Decimal(_) => false,
            },
            _ => false,
        }
    } else if str_eq(ty, "number") {
        matches!(c, Json::Number(_))
    } else {
        false
    }
}

/// Check one credential property.
#[verifier::loop_isolation(false)]
pub fn check_property(key: &str, prop: &Json) -> (r: Result<(), Error>)
    ensures
        fault_of(r) == property_fault(key@, prop@),
{
    identifier(key)?;
    if key.unicode_len() > 0 && key.get_char(0) == '_' {
        return Err(invalid("Reserved credential key"));
    }
    let kw = match prop {
        Json::Object(kw) => kw,
        _ => return Err(invalid("Credential property must be a schema object")),
    };
    proof {
        lemma_view_members(kw@);
    }
    let mut i: usize = 0;
    while i < kw.len()
        invariant
            0 <= i <= kw@.len(),
            forall|k: int| 0 <= k < i ==> property_keyword(#[trigger] kw@[k].0@),
        decreases kw@.len() - i,
    {
        if !is_property_keyword(kw[i].0.as_str()) {
            proof {
                assert(view_members(kw@)[i as int].0 == kw@[i as int].0@);
            }
            return Err(invalid("Unsupported credential property keyword"));
        }
        i = i + 1;
    }
    proof {
        let v = view_members(kw@);
        assert forall|k: int| 0 <= k < v.len() implies property_keyword(#[trigger] v[k].0) by {
            assert(v[k].0 == kw@[k].0@);
        }
    }
    let ty: &str = match prop.get("type") {
        Some(t) => match t.as_str() {
            Some(s) => s,
            None => return Err(
                invalid("Credential properties support strings, booleans and numbers"),
            ),
        },
        None => return Err(invalid("Credential properties support strings, booleans and numbers")),
    };
    if !(str_eq(ty, "string") || str_eq(ty, "boolean") || str_eq(ty, "integer") || str_eq(
        ty,
        "number",
    )) {
        return Err(invalid("Credential properties support strings, booleans and numbers"));
    }
    match prop.get("format") {
        Some(f) => match f.as_str() {
            Some(t) => {
                if !(str_eq(t, "uri") || str_eq(t, "email")) {
                    return Err(invalid("Unsupported credential format"));
                }
            },
            None => {},
        },
        None => {},
    }
    let choice_list = prop.get("enum");
    match choice_list {
        Some(Json::Array(a)) => {
            if a.len() > 100 {
                proof {
                    lemma_view_items(a@);
                }
                return Err(invalid("Too many credential choices"));
            }
            proof {
                lemma_view_items(a@);
            }
            let mut j: usize = 0;
            while j < a.len()
                invariant
                    0 <= j <= a@.len(),
                    forall|k: int| 0 <= k < j ==> !choice_mismatch(ty@, #[trigger] a@[k]@),
                decreases a@.len() - j,
            {
                if !choice_matches(ty, &a[j]) {
                    proof {
                        assert(view_items(a@)[j as int] == a@[j as int]@);
                    }
                    return Err(
                        invalid("Credential choices must match the declared primitive type"),
                    );
                }
                j = j + 1;
            }
            proof {
                let v = view_items(a@);
                assert forall|k: int| 0 <= k < v.len() implies !choice_mismatch(
                    ty@,
                    #[trigger] v[k],
                ) by {
                    assert(v[k] == a@[k]@);
                }
            }
        },
        _ => {},
    }
    let secret = match prop.get("writeOnly") {
        Some(w) => w.is_bool(true),
        None => false,
    };
    if secret && (prop.get("default").is_some() || choice_list.is_some()) {
        return Err(invalid("Secret defaults or choices must not be stored in provider definitions"));
    }
    Ok(())
}

// ---------------------------------------------------------------------------
// Schemas

pub open spec fn compile_fault(compiles: bool) -> Option<Fault> {
    if compiles {
        None
    } else {
        Some(Fault::Invalid("Invalid credential JSON Schema"@))
    }
}

/// A `required` entry that names no declared property.
pub open spec fn undeclared_required(props: Seq<(Seq<char>, JsonV)>, k: JsonV) -> bool {
    !(k matches JsonV::Str(name) && has_key(props, name))
}

/// The fault of the `required` list, or else of compiling the schema.
pub open spec fn required_fault(
    props: Seq<(Seq<char>, JsonV)>,
    required: Option<JsonV>,
    compiles: bool,
) -> Option<Fault> {
    match required {
        Some(JsonV::Array(keys)) => if (exists|i: int|
            0 <= i < keys.len() && undeclared_required(props, #[trigger] keys[i])) {
            Some(Fault::Invalid("Required keys must be declared properties"@))
        } else {
            compile_fault(compiles)
        },
        Some(_) => Some(Fault::Invalid("Required must be an array"@)),
        None => compile_fault(compiles),
    }
}

pub proof fn lemma_required_fault(
    props: Seq<(Seq<char>, JsonV)>,
    keys: Seq<JsonV>,
    k: int,
    compiles: bool,
)
    requires
        0 <= k < keys.len(),
        undeclared_required(props, keys[k]),
    ensures
        required_fault(props, Some(JsonV::Array(keys)), compiles) == Some(
            Fault::Invalid("Required keys must be declared properties"@),
        ),
{
    assert(exists|i: int| 0 <= i < keys.len() && undeclared_required(props, #[trigger] keys[i]));
    let req = Some(JsonV::Array(keys));
    let r = match req {
        Some(JsonV::Array(keys)) => if (exists|i: int|
            0 <= i < keys.len() && undeclared_required(props, #[trigger] keys[i])) {
            Some(Fault::Invalid("Required keys must be declared properties"@))
        } else {
            compile_fault(compiles)
        },
        Some(_) => Some(Fault::Invalid("Required must be an array"@)),
        None => compile_fault(compiles),
    };
    assert(r == Some(Fault::Invalid("Required keys must be declared properties"@)));
    assert(required_fault(props, req, compiles) == r);
}

/// The fault of the declared properties and what follows them.
pub open spec fn properties_stage_fault(
    s: JsonV,
    length: Option<nat>,
    compiles: bool,
) -> Option<Fault> {
    match at(s, "properties"@) {
        JsonV::Object(props) => if props.len() > 100 {
            Some(Fault::Invalid("Credential schema is too large"@))
        } else {
            match length {
                None => Some(Fault::Invalid("Invalid credential JSON Schema"@)),
                Some(n) => if n > 65536 {
                    Some(Fault::Invalid("Credential schema is too large"@))
                } else {
                    match properties_fault(props, props.len()) {
                        Some(f) => Some(f),
                        None => required_fault(props, field(s, "required"@), compiles),
                    }
                },
            }
        },
        _ => Some(Fault::Invalid("Credential properties are required"@)),
    }
}

/// A root keyword outside the supported subset.
pub open spec fn unsupported_root(root: Seq<(Seq<char>, JsonV)>) -> bool {
    exists|i: int| 0 <= i < root.len() && !root_keyword(#[trigger] root[i].0)
}

/// The fault of a credential schema, if any, in the order the checks run,
/// given the length of its `serde_json` text and whether `jsonschema` compiles it.
pub open spec fn schema_fault(s: JsonV, length: Option<nat>, compiles: bool) -> Option<Fault> {
    match s {
        JsonV::Object(root) => if unsupported_root(root) {
            Some(
                Fault::Invalid(
                    "Unsupported credential schema keyword; use a custom source for complex forms"@,
                ),
            )
        } else if at(s, "type"@) != JsonV::Str("object"@) || at(s, "additionalProperties"@)
            != JsonV::Bool(false) {
            Some(
                Fault::Invalid(
                    "Credential schemas must declare an object with additionalProperties: false"@,
                ),
            )
        } else {
            properties_stage_fault(s, length, compiles)
        },
        _ => Some(Fault::Invalid("Credential schema must be an object"@)),
    }
}

/// The fault `validate_schema` reports for a schema.
pub open spec fn credential_schema_fault(s: JsonV) -> Option<Fault> {
    schema_fault(s, canonical_length(encode(s)), compiles_as_schema(encode(s)))
}

fn members_of(j: &Json) -> (r: Option<&Vec<(String, Json)>>)
    ensures
        match j@ {
            JsonV::Object(e) => r matches Some(v) && view_members(v@) == e,
            _ => r is None,
        },
{
    match j {
        Json::Object(e) => Some(e),
        _ => None,
    }
}

/// Check a credential schema, given the length of its `serde_json` text and
/// whether `jsonschema` compiles it.
#[verifier::loop_isolation(false)]
pub fn validate_schema_with(schema: &Json, length: Option<usize>, compiles: bool) -> (r: Result<
    (),
    Error,
>)
    ensures
        fault_of(r) == schema_fault(
            schema@,
            match length {
                Some(n) => Some(n as nat),
                None => None,
            },
            compiles,
        ),
{
    let root = match members_of(schema) {
        Some(e) => e,
        None => return Err(invalid("Credential schema must be an object")),
    };
    proof {
        lemma_view_members(root@);
    }
    let mut i: usize = 0;
    while i < root.len()
        invariant
            0 <= i <= root@.len(),
            forall|k: int| 0 <= k < i ==> root_keyword(#[trigger] root@[k].0@),
        decreases root@.len() - i,
    {
        if !is_root_keyword(root[i].0.as_str()) {
            proof {
                assert(view_members(root@)[i as int].0 == root@[i as int].0@);
            }
            return Err(
                invalid(
                    "Unsupported credential schema keyword; use a custom source for complex forms",
                ),
            );
        }
        i = i + 1;
    }
    proof {
        let v = view_members(root@);
        assert forall|k: int| 0 <= k < v.len() implies root_keyword(#[trigger] v[k].0) by {
            assert(v[k].0 == root@[k].0@);
        }
    }
    let is_object = match schema.get("type") {
        Some(t) => t.is_text("object"),
        None => false,
    };
    let closed = match schema.get("additionalProperties") {
        Some(t) => t.is_bool(false),
        None => false,
    };
    if !is_object || !closed {
        return Err(
            invalid("Credential schemas must declare an object with additionalProperties: false"),
        );
    }
    let props = match schema.get("properties") {
        Some(p) => match members_of(p) {
            Some(e) => e,
            None => return Err(invalid("Credential properties are required")),
        },
        None => return Err(invalid("Credential properties are required")),
    };
    proof {
        lemma_view_members(props@);
    }
    let ghost pv = view_members(props@);
    if props.len() > 100 {
        return Err(invalid("Credential schema is too large"));
    }
    match length {
        None => return Err(invalid("Invalid credential JSON Schema")),
        Some(n) => {
            if n > 65536 {
                return Err(invalid("Credential schema is too large"));
            }
        },
    }
    let mut j: usize = 0;
    while j < props.len()
        invariant
            0 <= j <= props@.len(),
            properties_fault(pv, j as nat) is None,
        decreases props@.len() - j,
    {
        match check_property(props[j].0.as_str(), &props[j].1) {
            Ok(_) => {},
            Err(e) => {
                proof {
                    assert(pv[j as int] == (props@[j as int].0@, view_json(props@[j as int].1)));
                    assert(properties_fault(pv, (j + 1) as nat) == Some(e@));
                    lemma_first_fault_persists(pv, (j + 1) as nat, pv.len());
                }
                return Err(e);
            },
        }
        proof {
            assert(pv[j as int] == (props@[j as int].0@, view_json(props@[j as int].1)));
        }
        j = j + 1;
    }
    match schema.get("required") {
        Some(req) => {
            match req {
                Json::Array(keys) => {
                    proof {
                        lemma_view_items(keys@);
                    }
                    let mut k: usize = 0;
                    while k < keys.len()
                        invariant
                            0 <= k <= keys@.len(),
                            forall|m: int|
                                0 <= m < k ==> !undeclared_required(pv, #[trigger] keys@[m]@),
                        decreases keys@.len() - k,
                    {
                        let declared = match keys[k].as_str() {
                            Some(name) => schema_has_property(props, name),
                            None => false,
                        };
                        if !declared {
                            proof {
                                assert(view_items(keys@)[k as int] == keys@[k as int]@);
                                assert(undeclared_required(pv, keys@[k as int]@));
                                assert(undeclared_required(pv, view_items(keys@)[k as int]));
                                lemma_required_fault(pv, view_items(keys@), k as int, compiles);
                                assert(field(schema@, "required"@) == Some(JsonV::Array(view_items(keys@))));

                            }
                            return Err(invalid("Required keys must be declared properties"));
                        }
                        k = k + 1;
                    }
                    proof {
                        let v = view_items(keys@);
                        assert forall|m: int| 0 <= m < v.len() implies !undeclared_required(
                            pv,
                            #[trigger] v[m],
                        ) by {
                            assert(v[m] == keys@[m]@);
                        }
                    }
                },
                _ => return Err(invalid("Required must be an array")),
            }
        },
        None => {},
    }
    if !compiles {
        return Err(invalid("Invalid credential JSON Schema"));
    }
    Ok(())
}

/// Once a prefix of properties has a fault, every longer prefix has the same fault.
pub proof fn lemma_first_fault_persists(props: Seq<(Seq<char>, JsonV)>, m: nat, n: nat)
    requires
        m <= n,
        properties_fault(props, m) is Some,
    ensures
        properties_fault(props, n) == properties_fault(props, m),
    decreases n - m,
{
    if m < n {
        lemma_first_fault_persists(props, m, (n - 1) as nat);
    }
}

fn schema_has_property(props: &Vec<(String, Json)>, name: &str) -> (r: bool)
    ensures
        r == has_key(view_members(props@), name@),
{
    proof {
        lemma_view_members(props@);
    }
    let mut i: usize = 0;
    while i < props.len()
        invariant
            0 <= i <= props@.len(),
            view_members(props@).len() == props@.len(),
            forall|k: int|
                0 <= k < props@.len() ==> #[trigger] view_members(props@)[k] == (
                    props@[k].0@,
                    view_json(props@[k].1),
                ),
            forall|k: int| 0 <= k < i ==> #[trigger] props@[k].0@ != name@,
        decreases props@.len() - i,
    {
        if str_eq(props[i].0.as_str(), name) {
            proof {
                assert(view_members(props@)[i as int].0 == name@);
            }
            return true;
        }
        i = i + 1;
    }
    proof {
        let v = view_members(props@);
        if has_key(v, name@) {
            let k = choose|k: int| 0 <= k < v.len() && #[trigger] v[k].0 == name@;
            assert(props@[k].0@ == name@);
        }
    }
    false
}

/// `validate_schema(schema)`: reject unsupported schema features rather than
/// silently render an incomplete form.
pub fn validate_schema(schema: &Json) -> (r: Result<(), Error>)
    ensures
        fault_of(r) == credential_schema_fault(schema@),
{
    let bytes = schema.to_bytes();
    let length = serialized_length(bytes.as_slice());
    let compiles = schema_compiles(bytes.as_slice());
    validate_schema_with(schema, length, compiles)
}

// ---------------------------------------------------------------------------
// Submitted values

/// The declared type of the property a credential key names.
pub open spec fn declared_type(schema: JsonV, key: Seq<char>) -> Option<Seq<char>> {
    text_of(at(at(at(schema, "properties"@), key), "type"@))
}

/// A submitted credential value read as JSON of its declared type.
pub open spec fn credential_json(schema: JsonV, key: Seq<char>, text: Seq<char>) -> Result<
    JsonV,
    Fault,
> {
    if blen(text) > 65536 {
        Err(Fault::Invalid("Credential value is too large"@))
    } else {
        match declared_type(schema, key) {
            Some(t) => if t == "string"@ {
                Ok(JsonV::Str(text))
            } else if t == "boolean"@ {
                if text == "true"@ {
                    Ok(JsonV::Bool(true))
                } else if text == "false"@ {
                    Ok(JsonV::Bool(false))
                } else {
                    Err(Fault::Invalid("Invalid boolean credential"@))
                }
            } else if t == "integer"@ || t == "number"@ {
                match number_literal(text) {
                    Some(n) => Ok(JsonV::Number(n)),
                    None => Err(Fault::Invalid("Invalid numeric credential"@)),
                }
            } else {
                Err(Fault::Invalid("Unknown credential key"@))
            },
            None => Err(Fault::Invalid("Unknown credential key"@)),
        }
    }
}

/// The first fault among the first `n` submitted values.
pub open spec fn values_fault(schema: JsonV, values: Seq<(String, String)>, n: nat) -> Option<
    Fault,
>
    decreases n,
{
    if n == 0 {
        None
    } else {
        match values_fault(schema, values, (n - 1) as nat) {
            Some(f) => Some(f),
            None => match credential_json(schema, values[n - 1].0@, values[n - 1].1@) {
                Ok(_) => None,
                Err(f) => Some(f),
            },
        }
    }
}

/// The object built from the first `n` submitted values.
pub open spec fn values_data(schema: JsonV, values: Seq<(String, String)>, n: nat) -> Seq<
    (Seq<char>, JsonV),
>
    decreases n,
{
    if n == 0 {
        seq![]
    } else {
        set_member(
            values_data(schema, values, (n - 1) as nat),
            values[n - 1].0@,
            credential_json(schema, values[n - 1].0@, values[n - 1].1@)->Ok_0,
        )
    }
}

/// The fault `validate_values` reports, if any.
pub open spec fn credential_values_fault(schema: JsonV, values: Seq<(String, String)>) -> Option<
    Fault,
> {
    match credential_schema_fault(schema) {
        Some(f) => Some(f),
        None => match values_fault(schema, values, values.len()) {
            Some(f) => Some(f),
            None => if schema_accepts(
                encode(schema),
                encode(JsonV::Object(values_data(schema, values, values.len()))),
            ) {
                None
            } else {
                Some(Fault::Invalid("Credentials do not match the declared schema"@))
            },
        },
    }
}

pub proof fn lemma_values_fault_persists(
    schema: JsonV,
    values: Seq<(String, String)>,
    m: nat,
    n: nat,
)
    requires
        m <= n,
        values_fault(schema, values, m) is Some,
    ensures
        values_fault(schema, values, n) == values_fault(schema, values, m),
    decreases n - m,
{
    if m < n {
        lemma_values_fault_persists(schema, values, m, (n - 1) as nat);
    }
}

fn declared_type_of<'a>(schema: &'a Json, key: &str) -> (r: Option<&'a str>)
    ensures
        match r {
            Some(t) => declared_type(schema@, key@) == Some(t@),
            None => declared_type(schema@, key@) is None,
        },
{
    let props = schema.get("properties")?;
    let prop = props.get(key)?;
    let ty = prop.get("type")?;
    ty.as_str()
}

/// Read one submitted credential value as JSON of its declared type.
pub fn credential_value(schema: &Json, key: &str, text: &str) -> (r: Result<Json, Error>)
    ensures
        match r {
            Ok(v) => credential_json(schema@, key@, text@) == Ok::<JsonV, Fault>(v@),
            Err(e) => credential_json(schema@, key@, text@) == Err::<JsonV, Fault>(e@),
        },
{
    if byte_len(text) > 65536 {
        return Err(invalid("Credential value is too large"));
    }
    let ty = match declared_type_of(schema, key) {
        Some(t) => t,
        None => return Err(invalid("Unknown credential key")),
    };
    if str_eq(ty, "string") {
        Ok(Json::Str(text.to_owned()))
    } else if str_eq(ty, "boolean") {
        if str_eq(text, "true") {
            Ok(Json::Bool(true))
        } else if str_eq(text, "false") {
            Ok(Json::Bool(false))
        } else {
            Err(invalid("Invalid boolean credential"))
        }
    } else if str_eq(ty, "integer") || str_eq(ty, "number") {
        match parse_number(text) {
            Some(n) => Ok(Json::Number(n)),
            None => Err(invalid("Invalid numeric credential")),
        }
    } else {
        Err(invalid("Unknown credential key"))
    }
}

/// `validate_values(schema, values)`: values stay text in storage; their
/// declared JSON types are checked here, then the whole against the schema.
pub fn validate_values(schema: &Json, values: &Values) -> (r: Result<(), Error>)
    ensures
        fault_of(r) == credential_values_fault(schema@, values@),
{
    validate_schema(schema)?;
    let mut data = Json::object();
    let mut i: usize = 0;
    while i < values.len()
        invariant
            0 <= i <= values@.len(),
            credential_schema_fault(schema@) is None,
            values_fault(schema@, values@, i as nat) is None,
            data@ == JsonV::Object(values_data(schema@, values@, i as nat)),
        decreases values@.len() - i,
    {
        match credential_value(schema, values[i].0.as_str(), values[i].1.as_str()) {
            Ok(v) => {
                data.set(values[i].0.as_str(), v);
            },
            Err(e) => {
                proof {
                    lemma_values_fault_persists(
                        schema@,
                        values@,
                        (i + 1) as nat,
                        values@.len(),
                    );
                }
                return Err(e);
            },
        }
        i = i + 1;
    }
    let schema_bytes = schema.to_bytes();
    let data_bytes = data.to_bytes();
    if !schema_validates(schema_bytes.as_slice(), data_bytes.as_slice()) {
        return Err(invalid("Credentials do not match the declared schema"));
    }
    Ok(())
}

// ---------------------------------------------------------------------------
// Standard forms

/// A value with `key` set as [`Json::set`] sets it.
#[verifier::opaque]
pub open spec fn with(j: JsonV, key: Seq<char>, value: JsonV) -> JsonV {
    match j {
        JsonV::Object(e) => JsonV::Object(set_member(e, key, value)),
        _ => j,
    }
}

/// A value with an item appended as [`Json::push`] appends it.
pub open spec fn pushed(j: JsonV, item: JsonV) -> JsonV {
    match j {
        JsonV::Array(a) => JsonV::Array(a.push(item)),
        _ => j,
    }
}

pub open spec fn one() -> JsonV {
    JsonV::Number(NumberV::Unsigned(1))
}

pub open spec fn obj() -> JsonV {
    JsonV::Object(seq![])
}

pub open spec fn txt(s: Seq<char>) -> JsonV {
    JsonV::Str(s)
}

/// `{"type":"object","properties":{},"additionalProperties":false}`.
pub open spec fn empty_schema() -> JsonV {
    with(with(with(obj(), "type"@, txt("object"@)), "properties"@, obj()), "additionalProperties"@, JsonV::Bool(false))
}

pub open spec fn client_id_property() -> JsonV {
    with(with(with(obj(), "type"@, txt("string"@)), "title"@, txt("Client ID"@)), "minLength"@, one())
}

pub open spec fn client_secret_property() -> JsonV {
    with(
        with(with(with(obj(), "type"@, txt("string"@)), "title"@, txt("Client secret"@)), "writeOnly"@, JsonV::Bool(true)),
        "minLength"@,
        one(),
    )
}

pub open spec fn issuer_property() -> JsonV {
    with(with(with(obj(), "type"@, txt("string"@)), "title"@, txt("Service account issuer"@)), "minLength"@, one())
}

pub open spec fn private_key_property() -> JsonV {
    with(
        with(
            with(with(with(obj(), "type"@, txt("string"@)), "title"@, txt("Private key (PEM)"@)), "writeOnly"@, JsonV::Bool(true)),
            "contentMediaType"@,
            txt("application/x-pem-file"@),
        ),
        "minLength"@,
        one(),
    )
}

pub open spec fn subject_property() -> JsonV {
    with(with(obj(), "type"@, txt("string"@)), "title"@, txt("Subject (optional)"@))
}

/// The protocol-defined inputs before any additional fields.
pub open spec fn oauth_base_inputs(grant: OAuthGrant, client_auth: ClientAuth) -> JsonV {
    if grant == OAuthGrant::JwtBearer {
        with(
            with(
                empty_schema(),
                "properties"@,
                with(with(with(obj(), "issuer"@, issuer_property()), "private_key"@, private_key_property()), "subject"@, subject_property()),
            ),
            "required"@,
            JsonV::Array(seq![txt("issuer"@), txt("private_key"@)]),
        )
    } else {
        let base = with(
            with(empty_schema(), "properties"@, with(obj(), "client_id"@, client_id_property())),
            "required"@,
            JsonV::Array(seq![txt("client_id"@)]),
        );
        if client_auth != ClientAuth::NoAuth {
            let step = with(base, "properties"@, with(at(base, "properties"@), "client_secret"@, client_secret_property()));
            with(step, "required"@, pushed(at(step, "required"@), txt("client_secret"@)))
        } else {
            base
        }
    }
}

/// A schema with the first `n` additional properties merged in.
pub open spec fn merge_properties(schema: JsonV, extra: Seq<(Seq<char>, JsonV)>, n: nat) -> JsonV
    decreases n,
{
    if n == 0 {
        schema
    } else {
        let s = merge_properties(schema, extra, (n - 1) as nat);
        with(s, "properties"@, with(at(s, "properties"@), extra[n - 1].0, extra[n - 1].1))
    }
}

/// A schema with additional required keys appended to its `required` list.
pub open spec fn merge_required(schema: JsonV, extra: Seq<JsonV>) -> JsonV {
    match at(schema, "required"@) {
        JsonV::Array(a) => with(schema, "required"@, JsonV::Array(a + extra)),
        _ => schema,
    }
}

/// The standard OAuth form: protocol inputs, then the provider's additional fields.
pub open spec fn oauth_inputs_of(grant: OAuthGrant, client_auth: ClientAuth, additional: Option<JsonV>) -> JsonV {
    let base = oauth_base_inputs(grant, client_auth);
    match additional {
        Some(a) => {
            let merged = match at(a, "properties"@) {
                JsonV::Object(ps) => merge_properties(base, ps, ps.len()),
                _ => base,
            };
            match at(a, "required"@) {
                JsonV::Array(r) => merge_required(merged, r),
                _ => merged,
            }
        },
        None => base,
    }
}

fn put(j: &mut Json, key: &str, value: Json)
    ensures
        final(j)@ == with(old(j)@, key@, value@),
{
    proof {
        reveal(with);
    }
    j.set(key, value);
}

fn number_one() -> (r: Json)
    ensures
        r@ == one(),
{
    Json::Number(JsonNumber::Unsigned(1))
}

/// `empty()`: the schema of a form without inputs.
pub fn empty() -> (r: Json)
    ensures
        r@ == empty_schema(),
{
    let mut s = Json::object();
    put(&mut s, "type", Json::text("object"));
    put(&mut s, "properties", Json::object());
    put(&mut s, "additionalProperties", Json::Bool(false));
    s
}

fn string_property(title: &str) -> (r: Json)
    ensures
        r@ == with(with(obj(), "type"@, txt("string"@)), "title"@, txt(title@)),
{
    let mut p = Json::object();
    put(&mut p, "type", Json::text("string"));
    put(&mut p, "title", Json::text(title));
    p
}

fn member_copy(j: &Json, key: &str) -> (r: Json)
    ensures
        r@ == at(j@, key@),
{
    match j.get(key) {
        Some(v) => v.duplicate(),
        None => Json::Null,
    }
}

/// `oauth_inputs(grant, config, additional)`: the protocol-defined OAuth inputs;
/// providers supply endpoints and scopes, not form descriptors.
#[verifier::loop_isolation(false)]
pub fn oauth_inputs(grant: OAuthGrant, config: &OAuth, additional: Option<&Json>) -> (r: Json)
    ensures
        r@ == oauth_inputs_of(
            grant,
            config.client_auth,
            match additional {
                Some(a) => Some(a@),
                None => None,
            },
        ),
{
    let mut schema = base_inputs(grant, config.client_auth);
    let ghost base = schema@;
    merge_additional(&mut schema, additional);
    schema
}

fn jwt_inputs() -> (r: Json)
    ensures
        r@ == oauth_base_inputs(OAuthGrant::JwtBearer, ClientAuth::Body),
{
    let mut schema = empty();
    let mut issuer = string_property("Service account issuer");
    put(&mut issuer, "minLength", number_one());
    let mut key = string_property("Private key (PEM)");
    put(&mut key, "writeOnly", Json::Bool(true));
    put(&mut key, "contentMediaType", Json::text("application/x-pem-file"));
    put(&mut key, "minLength", number_one());
    let subject = string_property("Subject (optional)");
    let mut props = Json::object();
    put(&mut props, "issuer", issuer);
    put(&mut props, "private_key", key);
    put(&mut props, "subject", subject);
    put(&mut schema, "properties", props);
    let nothing: Vec<Json> = Vec::new();
    proof {
        assert(view_items(nothing@) =~= seq![]);
    }
    let mut required = Json::Array(nothing);
    required.push(Json::text("issuer"));
    required.push(Json::text("private_key"));
    proof {
        assert(seq![].push(txt("issuer"@)).push(txt("private_key"@)) =~= seq![
            txt("issuer"@),
            txt("private_key"@),
        ]);
    }
    put(&mut schema, "required", required);
    schema
}

fn client_inputs(client_auth: ClientAuth) -> (r: Json)
    ensures
        r@ == oauth_base_inputs(OAuthGrant::AuthorizationCode, client_auth),
{
    let mut schema = empty();
    let mut id = string_property("Client ID");
    put(&mut id, "minLength", number_one());
    let mut props = Json::object();
    put(&mut props, "client_id", id);
    put(&mut schema, "properties", props);
    let nothing: Vec<Json> = Vec::new();
    proof {
        assert(view_items(nothing@) =~= seq![]);
    }
    let mut required = Json::Array(nothing);
    required.push(Json::text("client_id"));
    proof {
        assert(seq![].push(txt("client_id"@)) =~= seq![txt("client_id"@)]);
    }
    put(&mut schema, "required", required);
    if client_auth != ClientAuth::NoAuth {
        let mut secret = string_property("Client secret");
        put(&mut secret, "writeOnly", Json::Bool(true));
        put(&mut secret, "minLength", number_one());
        let mut props = member_copy(&schema, "properties");
        put(&mut props, "client_secret", secret);
        put(&mut schema, "properties", props);
        let mut required = member_copy(&schema, "required");
        required.push(Json::text("client_secret"));
        put(&mut schema, "required", required);
    }
    schema
}

fn base_inputs(grant: OAuthGrant, client_auth: ClientAuth) -> (r: Json)
    ensures
        r@ == oauth_base_inputs(grant, client_auth),
{
    if grant == OAuthGrant::JwtBearer {
        jwt_inputs()
    } else {
        client_inputs(client_auth)
    }
}

#[verifier::loop_isolation(false)]
fn merge_additional(schema: &mut Json, additional: Option<&Json>)
    ensures
        final(schema)@ == match additional {
            Some(a) => {
                let merged = match at(a@, "properties"@) {
                    JsonV::Object(ps) => merge_properties(old(schema)@, ps, ps.len()),
                    _ => old(schema)@,
                };
                match at(a@, "required"@) {
                    JsonV::Array(r) => merge_required(merged, r),
                    _ => merged,
                }
            },
            None => old(schema)@,
        },
{
    let ghost base = schema@;
    match additional {
        Some(a) => {
            match a.get("properties") {
                Some(Json::Object(ps)) => {
                    proof {
                        lemma_view_members(ps@);
                    }
                    let mut i: usize = 0;
                    while i < ps.len()
                        invariant
                            0 <= i <= ps@.len(),
                            schema@ == merge_properties(base, view_members(ps@), i as nat),
                        decreases ps@.len() - i,
                    {
                        let mut props = member_copy(schema, "properties");
                        put(&mut props, ps[i].0.as_str(), ps[i].1.duplicate());
                        put(schema, "properties", props);
                        i = i + 1;
                    }
                },
                _ => {},
            }
            let ghost merged = schema@;
            match a.get("required") {
                Some(Json::Array(extra)) => {
                    match member_copy(schema, "required") {
                        Json::Array(mut list) => {
                            let ghost start = view_items(list@);
                            proof {
                                lemma_view_items(extra@);
                                lemma_view_items(list@);
                            }
                            let mut k: usize = 0;
                            while k < extra.len()
                                invariant
                                    0 <= k <= extra@.len(),
                                    view_items(list@) =~= start + view_items(extra@).take(k as int),
                                decreases extra@.len() - k,
                            {
                                let ghost prev = list@;
                                list.push(extra[k].duplicate());
                                proof {
                                    assert(list@.drop_last() =~= prev);
                                    assert(view_items(extra@).take(k as int + 1) =~= view_items(extra@).take(k as int).push(view_items(extra@)[k as int]));
                                }
                                k = k + 1;
                            }
                            proof {
                                assert(view_items(extra@).take(extra@.len() as int) =~= view_items(extra@));
                            }
                            put(schema, "required", Json::Array(list));
                        },
                        _ => {},
                    }
                },
                _ => {},
            }
        },
        None => {},
    }
}


/// A credential declared boolean reads the text `true` as JSON true and the
/// text `false` as JSON false; any other text is refused (every text here
/// within the size limit, beyond which all texts are refused alike).
pub proof fn law_boolean_credentials(schema: JsonV, key: Seq<char>, text: Seq<char>)
    requires
        declared_type(schema, key) == Some("boolean"@),
        blen(text) <= 65536,
    ensures
        text == "true"@ ==> credential_json(schema, key, text) == Ok::<JsonV, Fault>(JsonV::Bool(true)),
        text == "false"@ ==> credential_json(schema, key, text) == Ok::<JsonV, Fault>(JsonV::Bool(false)),
        text != "true"@ && text != "false"@ ==> credential_json(schema, key, text) is Err,
{
    reveal_strlit("boolean");
    reveal_strlit("string");
    reveal_strlit("true");
    reveal_strlit("false");
    assert("boolean"@.len() != "string"@.len());
}

} // verus!
