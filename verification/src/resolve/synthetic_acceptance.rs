//! The synthetic acceptance overlay: the declared form and the integrity of a
//! golden curve. The keyed lookup in a curve belongs to the integration.

use crate::dict::Dict;
use crate::digest::{sha256_hex, sha256_text};
use crate::error::{invalid_config, refuses, InferlabError};
use crate::paths::{debug_path, debug_path_text};
use crate::protocol::{AcceptanceLength, SyntheticAcceptanceCurveInput, SyntheticAcceptanceInput};
use crate::resolve::topology::finite_at_least_one;
use crate::text::{cat2, cat3, cat4, cat7, debug, debug_text, decode_bytes, same};
use vstd::prelude::*;
use vstd::slice::slice_to_vec;
use vstd::string::*;
use vstd::utf8::{encode_utf8, valid_utf8};

verus! {

/// A golden curve that a server declares.
pub struct SyntheticAcceptanceCurveDefinition {
    pub path: String,
    pub expected_sha256: String,
    pub model_key: String,
    pub thinking_mode: Option<String>,
}

/// The synthetic acceptance that a server declares.
pub struct SyntheticAcceptanceDefinition {
    pub acceptance_length: Option<AcceptanceLength>,
    pub curve: Option<SyntheticAcceptanceCurveDefinition>,
}

/// The shape of a model's entry in a curve.
#[derive(Clone, Copy, Debug, PartialEq, Eq, Structural)]
pub enum CurveModelEntry {
    Flat,
    Matrix,
}

/// What was found of a curve file: its bytes, or why it cannot be read; and the
/// shapes of its entries, or why they are not those of a curve.
pub struct CurveFile<'a> {
    pub bytes: &'a Result<Vec<u8>, String>,
    pub entries: &'a Result<Dict<CurveModelEntry>, String>,
}

/// The resolved material of the request.
pub struct ResolvedSyntheticAcceptance<'a> {
    pub declared: &'a SyntheticAcceptanceDefinition,
    pub input: SyntheticAcceptanceInput,
}

impl<'a> ResolvedSyntheticAcceptance<'a> {
    /// The effective thinking mode of a matrix-shape curve entry; none for the
    /// explicit form and for flat entries, where no mode applies.
    pub fn effective_thinking_mode(&self) -> (r: &Option<String>)
        ensures
            *r == match self.input {
                SyntheticAcceptanceInput::Explicit { .. } => None,
                SyntheticAcceptanceInput::Curve(curve) => curve.thinking_mode,
            },
    {
        match &self.input {
            SyntheticAcceptanceInput::Explicit { .. } => &None,
            SyntheticAcceptanceInput::Curve(curve) => &curve.thinking_mode,
        }
    }
}

/// Where a curve is declared.
pub open spec fn curve_context(server_id: Seq<char>) -> Seq<char> {
    "server "@ + debug_text(server_id) + " synthetic_acceptance.curve"@
}

/// What is wrong with a curve.
pub open spec fn curve_text(context: Seq<char>, path: Seq<char>, reason: Seq<char>) -> Seq<char> {
    context + " "@ + debug_path_text(path) + ": "@ + reason
}

/// A mode is declared for an entry that has none.
pub open spec fn flat_entry_text(model_key: Seq<char>) -> Seq<char> {
    "thinking_mode is declared, but the entry of model "@ + debug_text(model_key)
        + " is a flat list without thinking modes"@
}

/// Why a curve is refused, if it is.
pub open spec fn curve_fault(
    server_id: Seq<char>,
    curve: SyntheticAcceptanceCurveDefinition,
    file: CurveFile,
) -> Option<Seq<char>> {
    let context = curve_context(server_id);
    match *file.bytes {
        Err(source) => Some(
            curve_text(
                context,
                curve.path@,
                "the curve file is missing or unreadable: "@ + source@,
            ),
        ),
        Ok(bytes) => if sha256_text(bytes@) != curve.expected_sha256@ {
            Some(
                context + " digest mismatch for "@ + debug_path_text(curve.path@) + ": expected "@
                    + curve.expected_sha256@ + ", observed "@ + sha256_text(bytes@),
            )
        } else {
            match *file.entries {
                Err(reason) => Some(curve_text(context, curve.path@, reason@)),
                Ok(entries) => if entries.at(curve.model_key@) == Some(CurveModelEntry::Flat)
                    && curve.thinking_mode is Some {
                    Some(curve_text(context, curve.path@, flat_entry_text(curve.model_key@)))
                } else if !valid_utf8(bytes@) {
                    Some(
                        curve_text(context, curve.path@, "the curve file is not valid UTF-8"@),
                    )
                } else {
                    None
                },
            }
        },
    }
}

/// The thinking mode that a curve is used with.
pub open spec fn curve_mode(
    curve: SyntheticAcceptanceCurveDefinition,
    entries: Dict<CurveModelEntry>,
) -> Option<Seq<char>> {
    let declared = match curve.thinking_mode {
        Some(mode) => Some(mode@),
        None => None,
    };
    match entries.at(curve.model_key@) {
        Some(CurveModelEntry::Flat) => None,
        Some(CurveModelEntry::Matrix) => match declared {
            Some(mode) => Some(mode),
            None => Some("thinking_on"@),
        },
        None => declared,
    }
}

/// Whether the input ships the curve.
pub open spec fn ships(
    input: SyntheticAcceptanceInput,
    curve: SyntheticAcceptanceCurveDefinition,
    file: CurveFile,
) -> bool {
    input matches SyntheticAcceptanceInput::Curve(found) && file.bytes matches Ok(bytes)
        && file.entries matches Ok(entries) && {
        &&& found.model_key == curve.model_key
        &&& found.sha256 == curve.expected_sha256
        &&& encode_utf8(found.text@) == bytes@
        &&& match found.thinking_mode {
            Some(mode) => curve_mode(curve, *entries) == Some(mode@),
            None => curve_mode(curve, *entries) is None,
        }
    }
}

fn copy_bytes(bytes: &Vec<u8>) -> (r: Vec<u8>)
    ensures
        r@ == bytes@,
{
    slice_to_vec(bytes.as_slice())
}

fn invalid_curve<T>(context: &str, path: &str, reason: &str) -> (r: Result<T, InferlabError>)
    ensures
        refuses(r, curve_text(context@, path@, reason@)),
{
    invalid_config(
        crate::text::cat5(context, " ", debug_path(path).as_str(), ": ", reason),
    )
}

/// Resolves a curve: its bytes must have the pinned digest and its entries the
/// shape of a curve. A mode is refused for a flat entry. A matrix entry without a declared mode is used with
/// thinking on; an unknown model key leaves the declared mode to the integration.
pub fn resolve_curve(server_id: &str, curve: &SyntheticAcceptanceCurveDefinition, file: &CurveFile) -> (r:
    Result<SyntheticAcceptanceInput, InferlabError>)
    ensures
        match curve_fault(server_id@, *curve, *file) {
            Some(text) => refuses(r, text),
            None => r matches Ok(input) && ships(input, *curve, *file),
        },
{
    let context = cat3("server ", debug(server_id).as_str(), " synthetic_acceptance.curve");
    let bytes = match file.bytes {
        Ok(bytes) => bytes,
        Err(source) => return invalid_curve(
            context.as_str(),
            curve.path.as_str(),
            cat2("the curve file is missing or unreadable: ", source.as_str()).as_str(),
        ),
    };
    let observed = sha256_hex(bytes.as_slice());
    if !same(observed.as_str(), curve.expected_sha256.as_str()) {
        return invalid_config(
            cat7(
                context.as_str(),
                " digest mismatch for ",
                debug_path(curve.path.as_str()).as_str(),
                ": expected ",
                curve.expected_sha256.as_str(),
                ", observed ",
                observed.as_str(),
            ),
        );
    }
    let entries = match file.entries {
        Ok(entries) => entries,
        Err(reason) => return invalid_curve(
            context.as_str(),
            curve.path.as_str(),
            reason.as_str(),
        ),
    };
    let entry = entries.get(curve.model_key.as_str());
    if let Some(CurveModelEntry::Flat) = entry {
        if curve.thinking_mode.is_some() {
            return invalid_curve(
                context.as_str(),
                curve.path.as_str(),
                cat3(
                    "thinking_mode is declared, but the entry of model ",
                    debug(curve.model_key.as_str()).as_str(),
                    " is a flat list without thinking modes",
                ).as_str(),
            );
        }
    }
    let text = match decode_bytes(copy_bytes(bytes)) {
        Ok(text) => text,
        Err(_) => return invalid_curve(
            context.as_str(),
            curve.path.as_str(),
            "the curve file is not valid UTF-8",
        ),
    };
    let declared = match &curve.thinking_mode {
        Some(mode) => Some(mode.clone()),
        None => None,
    };
    let thinking_mode = match entry {
        Some(CurveModelEntry::Flat) => None,
        Some(CurveModelEntry::Matrix) => match declared {
            Some(mode) => Some(mode),
            None => Some("thinking_on".to_owned()),
        },
        None => declared,
    };
    Ok(
        SyntheticAcceptanceInput::Curve(
            SyntheticAcceptanceCurveInput {
                model_key: curve.model_key.clone(),
                thinking_mode,
                text,
                sha256: curve.expected_sha256.clone(),
            },
        ),
    )
}

/// Why the declared synthetic acceptance is refused, if it is.
pub open spec fn declaration_fault(
    server_id: Seq<char>,
    declared: SyntheticAcceptanceDefinition,
    file: CurveFile,
) -> Option<Seq<char>> {
    match (declared.acceptance_length, declared.curve) {
        (Some(length), None) => if !finite_at_least_one(length.bits) {
            Some(
                "server "@ + debug_text(server_id)
                    + " synthetic_acceptance.acceptance_length must be a finite number of at least one, resolved "@
                    + length.text@,
            )
        } else {
            None
        },
        (None, Some(curve)) => curve_fault(server_id, curve, file),
        _ => Some(
            "server "@ + debug_text(server_id)
                + " synthetic_acceptance must declare exactly one of acceptance_length or curve"@,
        ),
    }
}

/// Resolves the request material of a server's synthetic acceptance: an explicit
/// length as it is declared, or a verified curve.
pub fn resolve_synthetic_acceptance<'a>(
    server_id: &str,
    declared: &'a SyntheticAcceptanceDefinition,
    file: &CurveFile,
) -> (r: Result<ResolvedSyntheticAcceptance<'a>, InferlabError>)
    ensures
        match declaration_fault(server_id@, *declared, *file) {
            Some(text) => refuses(r, text),
            None => r matches Ok(resolved) && resolved.declared == declared && match (
                declared.acceptance_length,
                declared.curve,
            ) {
                (Some(length), _) => resolved.input matches SyntheticAcceptanceInput::Explicit {
                    acceptance_length,
                } && acceptance_length == length,
                (None, Some(curve)) => ships(resolved.input, curve, *file),
                _ => false,
            },
        },
{
    match (&declared.acceptance_length, &declared.curve) {
        (Some(length), None) => {
            if length.bits < 0x3ff0_0000_0000_0000 || length.bits >= 0x7ff0_0000_0000_0000 {
                return invalid_config(
                    cat4(
                        "server ",
                        debug(server_id).as_str(),
                        " synthetic_acceptance.acceptance_length must be a finite number of at least one, resolved ",
                        length.text.as_str(),
                    ),
                );
            }
            Ok(
                ResolvedSyntheticAcceptance {
                    declared,
                    input: SyntheticAcceptanceInput::Explicit {
                        acceptance_length: AcceptanceLength {
                            bits: length.bits,
                            text: length.text.clone(),
                        },
                    },
                },
            )
        },
        (None, Some(curve)) => match resolve_curve(server_id, curve, file) {
            Ok(input) => Ok(ResolvedSyntheticAcceptance { declared, input }),
            Err(error) => Err(error),
        },
        _ => invalid_config(
            cat3(
                "server ",
                debug(server_id).as_str(),
                " synthetic_acceptance must declare exactly one of acceptance_length or curve",
            ),
        ),
    }
}

/// The text that ships is the one whose digest was pinned.
pub proof fn law_shipped_curve_has_the_pinned_digest(
    server_id: Seq<char>,
    curve: SyntheticAcceptanceCurveDefinition,
    file: CurveFile,
    input: SyntheticAcceptanceInput,
)
    requires
        curve_fault(server_id, curve, file) is None,
        ships(input, curve, file),
    ensures
        input matches SyntheticAcceptanceInput::Curve(found) && sha256_text(
            encode_utf8(found.text@),
        ) == found.sha256@,
{
}

/// A curve is used with the mode that is declared for it; an entry with modes is used
/// with thinking on where none is declared, and an entry without modes with none.
pub proof fn law_declared_thinking_mode_is_used(
    curve: SyntheticAcceptanceCurveDefinition,
    file: CurveFile,
    input: SyntheticAcceptanceInput,
    entries: Dict<CurveModelEntry>,
)
    requires
        ships(input, curve, file),
        file.entries matches Ok(read) && *read == entries,
    ensures
        input matches SyntheticAcceptanceInput::Curve(found) && {
            &&& found.model_key@ == curve.model_key@
            &&& found.sha256@ == curve.expected_sha256@
            &&& entries.at(curve.model_key@) == Some(CurveModelEntry::Flat)
                ==> found.thinking_mode is None
            &&& entries.at(curve.model_key@) != Some(CurveModelEntry::Flat) ==> (
            curve.thinking_mode matches Some(mode) ==> (found.thinking_mode matches Some(used)
                && used@ == mode@))
            &&& entries.at(curve.model_key@) == Some(CurveModelEntry::Matrix)
                && curve.thinking_mode is None ==> (found.thinking_mode matches Some(used) && used@
                == "thinking_on"@)
            &&& entries.at(curve.model_key@) is None && curve.thinking_mode is None
                ==> found.thinking_mode is None
        },
{
}

/// A server declares either a length or a curve, and not both; a length must be a
/// finite number of at least one, and a curve the one whose digest is pinned.
pub proof fn law_acceptance_is_declared_in_one_way(
    server_id: Seq<char>,
    declared: SyntheticAcceptanceDefinition,
    file: CurveFile,
)
    requires
        declaration_fault(server_id, declared, file) is None,
    ensures
        declared.acceptance_length is Some <==> declared.curve is None,
        declared.acceptance_length matches Some(length) ==> finite_at_least_one(length.bits),
        declared.curve matches Some(curve) ==> (file.bytes matches Ok(bytes) && sha256_text(bytes@)
            == curve.expected_sha256@ && valid_utf8(bytes@)),
{
}

} // verus!
