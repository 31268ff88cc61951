//! The library's side of evaluating a proxy script: the driver text that wraps
//! a script, and what becomes of the value that the driver returns.
use vstd::prelude::*;
use vstd::string::*;
use crate::decode::{decode, decode_model, decoded_as};
use crate::types::{Error, ProxyEntry};

verus! {

/// The text that defines the driver `pac(__url, __host)`: it runs `script`,
/// then returns what the script's `FindProxyForURL` gives for the request.
pub fn driver_source(script: &str) -> (r: String)
    ensures
        r@ == "function pac(__url, __host) { "@ + script@
            + "; return FindProxyForURL(__url, __host); }"@,
{
    String::from_str("function pac(__url, __host) { ").concat(script).concat(
        "; return FindProxyForURL(__url, __host); }",
    )
}

/// The value that the driver returned, as far as the decision needs it.
pub enum ScriptValue {
    /// A string, with its text.
    Text(String),
    /// Any value that is not a string.
    Other,
}

/// The proxies that a driver's return value names: a string is decoded, any
/// other value is refused.
pub fn proxies_from_return(value: &ScriptValue) -> (r: Result<Vec<ProxyEntry>, Error>)
    ensures
        match value {
            ScriptValue::Text(s) => decoded_as(r, decode_model(s@)),
            ScriptValue::Other => r matches Err(Error::InvalidPacReturn),
        },
{
    match value {
        ScriptValue::Text(s) => decode(s.as_str()),
        ScriptValue::Other => Err(Error::InvalidPacReturn),
    }
}

} // verus!
