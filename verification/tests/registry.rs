use para::inference::swift_bridge::ModelVersion;
use para::cli::{progress_suppressed, resolve_model, DeviceArg};
use para::model::registry::{default_model, find, model_listing, models, valid_model_ids};

#[test]
fn every_model_has_required_fields() {
    for entry in models() {
        assert!(!entry.id.is_empty());
        assert!(!entry.description.is_empty());
    }
}

#[test]
fn exactly_one_default_model() {
    assert_eq!(models().iter().filter(|m| m.is_default).count(), 1);
}

#[test]
fn default_model_resolves() {
    assert_eq!(default_model().id, "parakeet-tdt-0.6b-v3");
}

#[test]
fn find_unknown_model_returns_none() {
    assert!(find("does-not-exist").is_none());
}

#[test]
fn find_returns_the_model_with_that_id() {
    assert_eq!(find("parakeet-tdt-0.6b-v2").unwrap().id, "parakeet-tdt-0.6b-v2");
    assert!(find("parakeet-tdt-0.6b-v2").unwrap().version == ModelVersion::V2);
}

#[test]
fn resolve_model_defaults_and_rejects_unknown_ids_with_the_valid_list() {
    assert_eq!(resolve_model(None).unwrap().id, "parakeet-tdt-0.6b-v3");
    assert_eq!(resolve_model(Some("parakeet-tdt-0.6b-v2")).unwrap().id, "parakeet-tdt-0.6b-v2");
    let err = resolve_model(Some("totally-bogus-model")).unwrap_err();
    assert_eq!(err.requested, "totally-bogus-model");
    assert_eq!(err.valid_options, "parakeet-tdt-0.6b-v3, parakeet-tdt-0.6b-v2");
    assert_eq!(valid_model_ids(), "parakeet-tdt-0.6b-v3, parakeet-tdt-0.6b-v2");
}

#[test]
fn listing_names_every_model_once_with_one_default_and_cache_states() {
    let text = model_listing(&[true, false]);
    assert_eq!(
        text,
        "Available models:\n\n  parakeet-tdt-0.6b-v3  (default)\n    Multilingual (25 European languages), automatic language detection, word-level timestamps. Default model.\n    Cache state: Cached\n\n  parakeet-tdt-0.6b-v2\n    English only, word-level timestamps. Retained for compatibility.\n    Cache state: NotCached\n\nUse --model <id> to select a model.\n"
    );
    assert_eq!(text.matches("(default)").count(), 1);
}

#[test]
fn device_cpu_is_the_only_cpu_only_choice() {
    assert!(DeviceArg::Cpu.is_cpu_only());
    assert!(!DeviceArg::Auto.is_cpu_only());
    assert!(!DeviceArg::Coreml.is_cpu_only());
}

#[test]
fn any_non_empty_env_value_suppresses_progress() {
    assert!(progress_suppressed(true, None));
    assert!(progress_suppressed(false, Some("1")));
    assert!(!progress_suppressed(false, Some("")));
    assert!(!progress_suppressed(false, None));
}

#[test]
fn model_versions_map_to_backend_codes() {
    assert_eq!(ModelVersion::V3.code(), 0);
    assert_eq!(ModelVersion::V2.code(), 1);
}
