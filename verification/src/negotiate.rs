//! Content negotiation: choosing between the compact binary form and the
//! structured textual form of a response, from the client's Accept header.
//!
//! The preference test is a plain substring check against the two accepted
//! binary media-type tokens — deliberately not a full media-type parse.

use vstd::prelude::*;

use crate::codec::{enc_module, enc_registry, encode_module, encode_registry};
use crate::data::{Module, Registry, RegistryInfo};
use crate::query::registry_info;
use crate::strings::{contains_sub, is_substring_of};

verus! {

/// The view of an optional Accept header.
pub open spec fn header_view(accept: Option<String>) -> Option<Seq<char>> {
    match accept {
        Some(s) => Some(s@),
        None => None,
    }
}

/// Whether the header signals a binary preference: it is present and holds
/// one of the two accepted binary media-type tokens. An absent header, or one
/// with neither token, prefers the textual form.
pub open spec fn prefers_binary(accept: Option<Seq<char>>) -> bool {
    match accept {
        Some(a) => is_substring_of("application/protobuf"@, a) || is_substring_of(
            "application/x-protobuf"@,
            a,
        ),
        None => false,
    }
}

/// The binary-preference signal of an Accept header.
pub fn accepts_protobuf(accept: &Option<String>) -> (r: bool)
    ensures
        r == prefers_binary(header_view(*accept)),
{
    match accept {
        Some(a) => contains_sub(a.as_str(), "application/protobuf") || contains_sub(
            a.as_str(),
            "application/x-protobuf",
        ),
        None => false,
    }
}

/// A negotiated module response: the module in its compact binary form, or
/// the marker that the caller is to emit its structured textual form.
pub enum ModuleBody {
    Binary(Vec<u8>),
    Textual,
}

/// A negotiated registry response: the whole registry in its compact binary
/// form, or its summary, to be emitted in the structured textual form.
pub enum RegistryBody {
    Binary(Vec<u8>),
    Summary(RegistryInfo),
}

/// The negotiated body for one module: its compact binary encoding exactly
/// when the caller prefers binary, the textual marker otherwise.
pub fn negotiate_module(binary_preferred: bool, m: &Module) -> (r: ModuleBody)
    ensures
        binary_preferred ==> (r matches ModuleBody::Binary(b) && b@ == enc_module(m@)),
        !binary_preferred ==> r is Textual,
{
    if binary_preferred {
        ModuleBody::Binary(encode_module(m))
    } else {
        ModuleBody::Textual
    }
}

/// The negotiated body for the registry route: the full registry in its
/// compact binary encoding when the caller prefers binary, its summary
/// otherwise.
pub fn negotiate_registry(binary_preferred: bool, reg: &Registry) -> (r: RegistryBody)
    ensures
        binary_preferred ==> (r matches RegistryBody::Binary(b) && b@ == enc_registry(reg@)),
        !binary_preferred ==> (r matches RegistryBody::Summary(info) && info.registry_url@
            == reg@.url && info.module_count == reg@.modules.len()),
{
    if binary_preferred {
        RegistryBody::Binary(encode_registry(reg))
    } else {
        RegistryBody::Summary(registry_info(reg))
    }
}

} // verus!
