//! Scopes that are written down as JSON.
use vstd::prelude::*;

use crate::document::ScopeConfig;

verus! {

/// What `serde_json` reads from the field `key` of the JSON object `json`, where that is a truth
/// value.
pub uninterp spec fn json_flag(json: Seq<char>, key: Seq<char>) -> Option<bool>;

/// `serde_json::Value::as_bool` of the field `key` of what `serde_json::from_str` reads from
/// `json`: none where the text is no JSON, where it is no object with that field, and where the
/// field is no truth value. It depends on the two texts alone.
#[verifier::external_body]
fn read_flag(json: &str, key: &str) -> (flag: Option<bool>)
    ensures
        flag == json_flag(json@, key@),
{
    match serde_json::from_str::<serde_json::Value>(json) {
        Ok(value) => value.get(key).and_then(serde_json::Value::as_bool),
        Err(_) => None,
    }
}

/// A flag that is set unless it says otherwise.
pub open spec fn flag_or_set(flag: Option<bool>) -> bool {
    match flag {
        Some(flag) => flag,
        None => true,
    }
}

/// The scope with the given flags; one that is not given is set.
pub open spec fn scope_of(
    declaration: Option<bool>,
    element: Option<bool>,
    export: Option<bool>,
    import: Option<bool>,
    types: Option<bool>,
) -> ScopeConfig {
    ScopeConfig {
        declaration: flag_or_set(declaration),
        element: flag_or_set(element),
        export: flag_or_set(export),
        import: flag_or_set(import),
        types: flag_or_set(types),
    }
}

/// The scope with the given flags; one that is not given is set.
pub fn scope_with_flags(
    declaration: Option<bool>,
    element: Option<bool>,
    export: Option<bool>,
    import: Option<bool>,
    types: Option<bool>,
) -> (scope: ScopeConfig)
    ensures
        scope == scope_of(declaration, element, export, import, types),
{
    ScopeConfig {
        declaration: declaration.unwrap_or(true),
        element: element.unwrap_or(true),
        export: export.unwrap_or(true),
        import: import.unwrap_or(true),
        types: types.unwrap_or(true),
    }
}

/// The scope that `json` describes: an object with the flags `declaration`, `element`, `export`,
/// `import` and `type`. What it does not say is set.
pub fn parse_scope(json: &str) -> (scope: ScopeConfig)
    ensures
        scope == scope_of(
            json_flag(json@, "declaration"@),
            json_flag(json@, "element"@),
            json_flag(json@, "export"@),
            json_flag(json@, "import"@),
            json_flag(json@, "type"@),
        ),
{
    scope_with_flags(
        read_flag(json, "declaration"),
        read_flag(json, "element"),
        read_flag(json, "export"),
        read_flag(json, "import"),
        read_flag(json, "type"),
    )
}

} // verus!
