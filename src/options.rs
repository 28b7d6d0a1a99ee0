//! Options for deriving the type URLs of generated message types.

use vstd::prelude::*;

verus! {

/// The type URL of a message under the default scheme:
/// `type.googleapis.com/{package}.{message}`.
pub open spec fn default_type_url_spec(package: Seq<char>, message: Seq<char>) -> Seq<char> {
    "type.googleapis.com/"@ + package + "."@ + message
}

/// The type URL of a message under the default scheme:
/// `type.googleapis.com/{package}.{message}`.
pub fn default_type_url(package: &str, message: &str) -> (r: String)
    ensures
        r@ == default_type_url_spec(package@, message@),
{
    let mut s = String::from_str("type.googleapis.com/");
    s.append(package);
    s.append(".");
    s.append(message);
    s
}

/// How the type URL of each generated message type is made from its package
/// and message names.
pub struct SerdeOptions<G> {
    pub type_url_generator: G,
}

impl<G> SerdeOptions<G> {
    /// Sets a custom type URL generator: a function from a package name and
    /// a message name to a type URL.
    pub fn with_custom_type_url_generator<F: Fn(&str, &str) -> String>(self, generator: F) -> (r:
        SerdeOptions<F>)
        ensures
            r.type_url_generator == generator,
    {
        SerdeOptions { type_url_generator: generator }
    }
}

} // verus!
