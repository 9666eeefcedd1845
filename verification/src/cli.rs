//! The decisions of the command line that do not touch the outside world:
//! which model a run uses, which device it asks for, and whether progress is shown.

use vstd::prelude::*;
use crate::model::registry::{find, spec_find, spec_models, spec_valid_ids, valid_model_ids, default_model, ModelEntry};
use crate::strings::chars_of;

verus! {

/// `--device`'s values: `coreml` is kept as a synonym of `auto`, both of
/// which use the Neural Engine; `cpu` forces CPU-only inference.
#[derive(Debug, Clone, Copy, PartialEq, Eq, Structural)]
pub enum DeviceArg {
    Auto,
    Coreml,
    Cpu,
}

impl DeviceArg {
    /// Whether inference is forced onto the CPU.
    pub fn is_cpu_only(self) -> (r: bool)
        ensures
            r == (self == DeviceArg::Cpu),
    {
        match self {
            DeviceArg::Cpu => true,
            _ => false,
        }
    }
}

/// A `--model` id that is not registered, with the ids that are.
#[derive(Debug, Clone)]
pub struct UnknownModel {
    pub requested: String,
    pub valid_options: String,
}

/// Resolves `--model` (or `PARA_MODEL`) against the registry, or the default
/// model when none is asked for. An unknown id is an error that lists the
/// valid ids, never a silent substitution.
pub fn resolve_model(requested: Option<&str>) -> (r: Result<ModelEntry, UnknownModel>)
    ensures
        match requested {
            None => r == Ok::<ModelEntry, UnknownModel>(spec_models()[0]),
            Some(id) => match spec_find(id@) {
                Some(e) => r == Ok::<ModelEntry, UnknownModel>(e),
                None => r matches Err(u) && u.requested@ == id@ && u.valid_options@ == spec_valid_ids(),
            },
        },
{
    match requested {
        None => Ok(default_model()),
        Some(id) => match find(id) {
            Some(e) => Ok(e),
            None => Err(UnknownModel { requested: String::from_str(id), valid_options: valid_model_ids() }),
        },
    }
}

/// Whether progress output is suppressed: by `--no-progress`, or by
/// `PARA_NO_PROGRESS` set to any non-empty value.
pub fn progress_suppressed(no_progress_flag: bool, env_value: Option<&str>) -> (r: bool)
    ensures
        r == (no_progress_flag || (env_value matches Some(v) && v@.len() > 0)),
{
    if no_progress_flag {
        return true;
    }
    match env_value {
        Some(v) => chars_of(v).len() > 0,
        None => false,
    }
}

} // verus!
