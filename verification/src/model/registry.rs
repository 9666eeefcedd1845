//! The models para can transcribe with.

use vstd::prelude::*;
use crate::inference::swift_bridge::ModelVersion;
use crate::strings::str_eq;

verus! {

/// One model para can transcribe with.
#[derive(Debug, Clone, Copy)]
pub struct ModelEntry {
    pub id: &'static str,
    pub description: &'static str,
    pub version: ModelVersion,
    pub is_default: bool,
}

/// The registered models, in listing order: the two published CoreML
/// conversions of Parakeet TDT 0.6b.
pub open spec fn spec_models() -> Seq<ModelEntry> {
    seq![
        ModelEntry {
            id: "parakeet-tdt-0.6b-v3",
            description: "Multilingual (25 European languages), automatic language detection, word-level timestamps. Default model.",
            version: ModelVersion::V3,
            is_default: true,
        },
        ModelEntry {
            id: "parakeet-tdt-0.6b-v2",
            description: "English only, word-level timestamps. Retained for compatibility.",
            version: ModelVersion::V2,
            is_default: false,
        },
    ]
}

/// The registered models, in listing order.
pub fn models() -> (r: Vec<ModelEntry>)
    ensures
        r@ == spec_models(),
{
    let mut r: Vec<ModelEntry> = Vec::new();
    r.push(ModelEntry {
        id: "parakeet-tdt-0.6b-v3",
        description: "Multilingual (25 European languages), automatic language detection, word-level timestamps. Default model.",
        version: ModelVersion::V3,
        is_default: true,
    });
    r.push(ModelEntry {
        id: "parakeet-tdt-0.6b-v2",
        description: "English only, word-level timestamps. Retained for compatibility.",
        version: ModelVersion::V2,
        is_default: false,
    });
    assert(r@ =~= spec_models());
    r
}

/// The default model: the one registered entry marked as such.
pub fn default_model() -> (r: ModelEntry)
    ensures
        r == spec_models()[0],
        r.is_default,
        r.id@ == "parakeet-tdt-0.6b-v3"@,
        r.version == ModelVersion::V3,
        r.version.spec_code() == 0,
{
    let all = models();
    all[0]
}

/// The registered model whose id is `id`.
pub open spec fn spec_find(id: Seq<char>) -> Option<ModelEntry> {
    if spec_models()[0].id@ == id {
        Some(spec_models()[0])
    } else if spec_models()[1].id@ == id {
        Some(spec_models()[1])
    } else {
        None
    }
}

/// Looks a model up by its id.
pub fn find(id: &str) -> (r: Option<ModelEntry>)
    ensures
        r == spec_find(id@),
{
    let all = models();
    if str_eq(all[0].id, id) {
        Some(all[0])
    } else if str_eq(all[1].id, id) {
        Some(all[1])
    } else {
        None
    }
}

/// The registry has exactly one default model, and it is the one
/// `default_model` returns.
pub proof fn law_exactly_one_default()
    ensures
        spec_models()[0].is_default,
        forall|k: int| 0 <= k < spec_models().len() && (#[trigger] spec_models()[k]).is_default ==> k == 0,
{
}

/// Model ids are distinct and non-empty, every model has a description, and
/// looking up a registered id finds exactly that model.
pub proof fn law_registered_ids_resolve()
    ensures
        spec_models()[0].id@ != spec_models()[1].id@,
        forall|k: int| 0 <= k < spec_models().len() ==> (#[trigger] spec_models()[k]).id@.len() > 0
            && spec_models()[k].description@.len() > 0,
        forall|k: int| 0 <= k < spec_models().len() ==> spec_find((#[trigger] spec_models()[k]).id@) == Some(spec_models()[k]),
{
    reveal_strlit("parakeet-tdt-0.6b-v3");
    reveal_strlit("parakeet-tdt-0.6b-v2");
    reveal_strlit("Multilingual (25 European languages), automatic language detection, word-level timestamps. Default model.");
    reveal_strlit("English only, word-level timestamps. Retained for compatibility.");
    assert(spec_models()[0].id@[19] != spec_models()[1].id@[19]);
}

/// A lookup only ever finds the model whose id was asked for.
pub proof fn law_find_matches_id(id: Seq<char>)
    ensures
        spec_find(id) matches Some(e) ==> e.id@ == id && spec_models().contains(e),
        (exists|k: int| 0 <= k < spec_models().len() && (#[trigger] spec_models()[k]).id@ == id) ==> spec_find(id) is Some,
{
    if spec_find(id) is Some {
        let e = spec_find(id).unwrap();
        if e == spec_models()[0] {
            assert(spec_models()[0] == spec_models()[0]);
        } else {
            assert(spec_models()[1] == e);
        }
    }
}

/// The `--list-models` line of one model: its id, a default marker, its
/// description, and whether its files are cached.
pub open spec fn listing_block(e: ModelEntry, cached: bool) -> Seq<char> {
    "  "@ + e.id@ + (if e.is_default { "  (default)"@ } else { Seq::empty() }) + "\n"@
        + "    "@ + e.description@ + "\n"@
        + "    Cache state: "@ + (if cached { "Cached"@ } else { "NotCached"@ }) + "\n"@ + "\n"@
}

/// The whole `--list-models` report, given whether each registered model is cached.
pub open spec fn spec_model_listing(cached: Seq<bool>) -> Seq<char> {
    "Available models:\n"@ + "\n"@
        + listing_block(spec_models()[0], cached[0])
        + listing_block(spec_models()[1], cached[1])
        + "Use --model <id> to select a model.\n"@
}

fn render_listing_block(e: ModelEntry, cached: bool) -> (r: String)
    ensures
        r@ == listing_block(e, cached),
{
    let mut out = String::from_str("  ");
    out.append(e.id);
    if e.is_default {
        out.append("  (default)");
    }
    out.append("\n");
    out.append("    ");
    out.append(e.description);
    out.append("\n");
    out.append("    Cache state: ");
    if cached {
        out.append("Cached");
    } else {
        out.append("NotCached");
    }
    out.append("\n");
    out.append("\n");
    out
}

/// The `--list-models` report: every registered model, which one is the
/// default, and whether its files are already cached (`cached[k]` for the
/// `k`-th model of [`models`]).
pub fn model_listing(cached: &[bool]) -> (r: String)
    requires
        cached@.len() == spec_models().len(),
    ensures
        r@ == spec_model_listing(cached@),
{
    let all = models();
    let mut out = String::from_str("Available models:\n");
    out.append("\n");
    let b0 = render_listing_block(all[0], cached[0]);
    out.append(b0.as_str());
    let b1 = render_listing_block(all[1], cached[1]);
    out.append(b1.as_str());
    out.append("Use --model <id> to select a model.\n");
    out
}

/// The ids of the registered models, separated by ", ".
pub open spec fn spec_valid_ids() -> Seq<char> {
    spec_models()[0].id@ + ", "@ + spec_models()[1].id@
}

/// The ids of the registered models, separated by ", ", for error messages.
pub fn valid_model_ids() -> (r: String)
    ensures
        r@ == spec_valid_ids(),
{
    let all = models();
    let mut out = String::from_str(all[0].id);
    out.append(", ");
    out.append(all[1].id);
    out
}

/// Each registered model loads the backend version its id names: the
/// `-v3` id loads version 3 (backend code 0) and the `-v2` id loads version 2
/// (backend code 1), so no two registered models load the same version, and
/// the default model is the multilingual v3 one.
pub proof fn law_model_versions_match_ids()
    ensures
        spec_models().len() == 2,
        forall|k: int| 0 <= k < spec_models().len() && (#[trigger] spec_models()[k]).id@ == "parakeet-tdt-0.6b-v3"@
            ==> spec_models()[k].version == ModelVersion::V3 && spec_models()[k].version.spec_code() == 0,
        forall|k: int| 0 <= k < spec_models().len() && (#[trigger] spec_models()[k]).id@ == "parakeet-tdt-0.6b-v2"@
            ==> spec_models()[k].version == ModelVersion::V2 && spec_models()[k].version.spec_code() == 1,
        forall|k: int, l: int| 0 <= k < l < spec_models().len()
            ==> (#[trigger] spec_models()[k]).version != (#[trigger] spec_models()[l]).version,
        forall|k: int| 0 <= k < spec_models().len() && (#[trigger] spec_models()[k]).is_default
            ==> spec_models()[k].id@ == "parakeet-tdt-0.6b-v3"@ && spec_models()[k].version == ModelVersion::V3,
{
    reveal_strlit("parakeet-tdt-0.6b-v3");
    reveal_strlit("parakeet-tdt-0.6b-v2");
    assert(spec_models()[0].id@[19] != spec_models()[1].id@[19]);
    assert("parakeet-tdt-0.6b-v3"@ != "parakeet-tdt-0.6b-v2"@) by {
        assert("parakeet-tdt-0.6b-v3"@[19] != "parakeet-tdt-0.6b-v2"@[19]);
    }
}

} // verus!
