//! Whether and where a worker exports traces.

use vstd::prelude::*;

use crate::text::str_eq;

verus! {

/// A switch is on where it says `true` or `1`.
pub open spec fn switched_on(value: Option<String>) -> bool {
    match value {
        Some(v) => v@ == "true"@ || v@ == "1"@,
        None => false,
    }
}

/// Whether an environment variable with this value switches something on.
pub fn is_switched_on(value: &Option<String>) -> (r: bool)
    ensures
        r == switched_on(*value),
{
    match value {
        Some(v) => str_eq(v, "true") || str_eq(v, "1"),
        None => false,
    }
}

/// Whether `OTEL_SDK_DISABLED` has this value.
pub fn otlp_disabled(disabled: &Option<String>) -> (r: bool)
    ensures
        r == switched_on(*disabled),
{
    is_switched_on(disabled)
}

/// Where traces go: to `OTEL_EXPORTER_OTLP_ENDPOINT`, unless it is empty or exporting is
/// disabled.
pub fn otlp_endpoint(disabled: &Option<String>, endpoint: &Option<String>) -> (r: Option<String>)
    ensures
        r is Some <==> !switched_on(*disabled) && endpoint is Some && endpoint->0@.len() > 0,
        r is Some ==> r->0@ == endpoint->0@,
{
    if otlp_disabled(disabled) {
        return None;
    }
    match endpoint {
        Some(e) => if e.as_str().is_empty() {
            None
        } else {
            Some(e.clone())
        },
        None => None,
    }
}

/// The name under which a worker's traces go.
pub fn service_name(given: &Option<String>, worker_id: &str) -> (r: String)
    ensures
        r@ == (match *given {
            Some(n) => n@,
            None => "veloce-worker-"@ + worker_id@,
        }),
{
    match given {
        Some(n) => n.clone(),
        None => {
            let mut r: String = "veloce-worker-".to_owned();
            r.append(worker_id);
            r
        },
    }
}

/// Traces go where they are to go exactly if exporting is not switched off; only `true` and `1`
/// switch anything on.
pub proof fn law_only_true_and_one_switch_on(value: Option<String>)
    ensures
        value is None ==> !switched_on(value),
        value is Some && value->0@ == "true"@ ==> switched_on(value),
        value is Some && value->0@ == "1"@ ==> switched_on(value),
        value is Some && value->0@ != "true"@ && value->0@ != "1"@ ==> !switched_on(value),
{
}

} // verus!
