//! Run fingerprinting: the structural identity of a strategy configuration.

use vstd::prelude::*;

use crate::ids::{blake3_digest, ConfigHash};

verus! {

/// The structural text of a configuration: the four component type names
/// joined by `+`.
pub open spec fn structural_text(signal: Seq<char>, position_manager: Seq<char>, execution_model: Seq<char>, signal_filter: Seq<char>) -> Seq<char> {
    signal + "+"@ + position_manager + "+"@ + execution_model + "+"@ + signal_filter
}

/// Structural hash of a strategy configuration: the digest of the UTF-8
/// encoding of its component type names joined by `+`, so parameter values
/// play no part.
pub fn structural_config_hash(signal: &str, position_manager: &str, execution_model: &str, signal_filter: &str) -> (h: ConfigHash)
    ensures
        h.0@ == blake3_digest(vstd::utf8::encode_utf8(structural_text(signal@, position_manager@, execution_model@, signal_filter@))),
{
    let mut text = String::from_str(signal);
    text.append("+");
    text.append(position_manager);
    text.append("+");
    text.append(execution_model);
    text.append("+");
    text.append(signal_filter);
    let t: &str = text.as_str();
    ConfigHash::from_bytes(t.as_bytes())
}

} // verus!
