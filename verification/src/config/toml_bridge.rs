use vstd::prelude::*;

verus! {

/// `toml::Value`, the parsed form of a configuration document. Opaque to the
/// library: it is only carried between the trusted accessors below, and every
/// decision on what they hand back is made by verified code.
#[verifier::external_type_specification]
#[verifier::external_body]
pub struct ExTomlValue(toml::Value);

/// Relies on `<toml::Table as core::str::FromStr>::from_str`: parses a TOML
/// document into its top-level table. The error's rendering is carried over
/// as plain text.
#[verifier::external_body]
pub fn toml_parse(text: &str) -> (r: Result<toml::Value, String>) {
    match text.parse::<toml::Table>() {
        Ok(t) => Ok(toml::Value::Table(t)),
        Err(e) => Err(e.to_string()),
    }
}

/// Relies on `toml::Value::get` with a string index: looks the key up when
/// the value is a table; `None` where the value is no table or has no such
/// key.
#[verifier::external_body]
pub fn toml_get<'a>(v: &'a toml::Value, key: &str) -> (r: Option<&'a toml::Value>) {
    v.get(key)
}

/// Relies on `toml::Value::as_str`: the text a TOML string value holds,
/// `None` for a value of any other kind.
#[verifier::external_body]
pub fn toml_as_str(v: &toml::Value) -> (r: Option<String>) {
    v.as_str().map(|s| s.to_owned())
}

/// Relies on `toml::Value::as_integer`: the integer a TOML integer value
/// holds, `None` for a value of any other kind.
#[verifier::external_body]
pub fn toml_as_integer(v: &toml::Value) -> (r: Option<i64>) {
    v.as_integer()
}

/// Relies on `toml::Value::as_table` and `toml::map::Map::iter`: the
/// key/value pairs of a TOML table value, in the table's own order, `None`
/// for a value of any other kind.
#[verifier::external_body]
pub fn toml_table_entries(v: &toml::Value) -> (r: Option<Vec<(String, toml::Value)>>) {
    v.as_table().map(|t| t.iter().map(|(k, val)| (k.clone(), val.clone())).collect())
}

} // verus!
