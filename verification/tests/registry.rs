use std::collections::HashMap;

use kin_lsp::capability::CapabilitySet;
use kin_lsp::registry::{
    language_from_slug, stamp_lsp_provenance, BinaryFinder, FoundProvider, LspCapability,
    LspProvenance, ProviderGap, ProviderGapReason, ProviderId, ProviderOverride, ProviderProbe,
    ProviderRegistry, RegistryConfig, RegistryConfigError, LANGUAGES,
};
use kin_lsp::types::{
    EntityId, GraphNodeId, LanguageId, Relation, RelationEvidence, RelationId, RelationKind,
    RelationOrigin,
};

/// Fake finder mapping binary name to (path, version) with no host PATH.
#[derive(Default)]
struct FakeFinder {
    present: HashMap<String, (String, Option<String>)>,
}

impl FakeFinder {
    fn with(mut self, binary: &str, path: &str, version: Option<&str>) -> Self {
        self.present.insert(
            binary.to_string(),
            (path.to_string(), version.map(|v| v.to_string())),
        );
        self
    }
}

impl BinaryFinder for FakeFinder {
    fn find_on_path(&self, binary: &str) -> Option<String> {
        self.present.get(binary).map(|(path, _)| path.clone())
    }
    fn probe_version(&self, command: &str) -> Option<String> {
        self.present
            .values()
            .find(|(p, _)| p == command)
            .and_then(|(_, v)| v.clone())
    }
}

#[test]
fn defaults_register_first_class_languages() {
    let registry = ProviderRegistry::with_defaults();
    assert_eq!(
        registry.candidates(LanguageId::Rust)[0].id.as_str(),
        "rust-analyzer"
    );
    assert_eq!(
        registry.candidates(LanguageId::Python)[0].id.as_str(),
        "pyright"
    );
    assert_eq!(
        registry.candidates(LanguageId::Python)[1].id.as_str(),
        "pylsp"
    );
    assert!(!registry.candidates(LanguageId::Go).is_empty());
    assert!(!registry.candidates(LanguageId::Cpp).is_empty());
    // A language with no LSP provider registered resolves to nothing.
    assert!(registry.candidates(LanguageId::Ruby).is_empty());
}

#[test]
fn resolve_picks_first_binary_on_path_and_probes_version() {
    let registry = ProviderRegistry::with_defaults();
    let finder = FakeFinder::default().with(
        "rust-analyzer",
        "/usr/bin/rust-analyzer",
        Some("rust-analyzer 1.79.0"),
    );
    let resolved = registry.resolve_with(LanguageId::Rust, &finder).unwrap();
    assert_eq!(resolved.id.as_str(), "rust-analyzer");
    assert_eq!(resolved.command, "/usr/bin/rust-analyzer");
    assert_eq!(resolved.version.as_deref(), Some("rust-analyzer 1.79.0"));
}

#[test]
fn resolve_falls_through_to_second_candidate() {
    let registry = ProviderRegistry::with_defaults();
    // pyright absent, pylsp present: resolves pylsp.
    let finder = FakeFinder::default().with("pylsp", "/usr/bin/pylsp", None);
    let resolved = registry.resolve_with(LanguageId::Python, &finder).unwrap();
    assert_eq!(resolved.id.as_str(), "pylsp");
}

#[test]
fn resolve_missing_binary_is_a_fail_loud_gap() {
    let registry = ProviderRegistry::with_defaults();
    let finder = FakeFinder::default();
    let gap = registry
        .resolve_with(LanguageId::Rust, &finder)
        .unwrap_err();
    assert_eq!(gap.reason, ProviderGapReason::NoBinaryOnPath);
    assert_eq!(gap.tried, vec![ProviderId::new("rust-analyzer")]);
}

#[test]
fn resolve_unregistered_language_reports_no_provider() {
    let registry = ProviderRegistry::with_defaults();
    let finder = FakeFinder::default();
    let gap = registry
        .resolve_with(LanguageId::Ruby, &finder)
        .unwrap_err();
    assert_eq!(gap.reason, ProviderGapReason::NoProviderRegistered);
}

#[test]
fn resolution_follows_the_search() {
    let registry = ProviderRegistry::with_defaults();
    let found = FoundProvider {
        candidate: 1,
        command: "/opt/vtsls".to_string(),
        version: None,
    };
    let resolved = registry
        .resolution(LanguageId::TypeScript, Some(found))
        .unwrap();
    assert_eq!(resolved.id.as_str(), "vtsls");
    assert_eq!(resolved.command, "/opt/vtsls");
    assert_eq!(resolved.args, vec!["--stdio"]);
    let gap = registry.resolution(LanguageId::Python, None).unwrap_err();
    assert_eq!(
        gap.tried,
        vec![ProviderId::new("pyright"), ProviderId::new("pylsp")]
    );
}

#[test]
fn config_override_reorders_provider_preference() {
    let config = RegistryConfig {
        providers: vec![ProviderOverride {
            language: "python".to_string(),
            provider: "pylsp".to_string(),
            binaries: vec![],
            args: None,
        }],
        required: vec![],
        disabled: vec![],
    };
    let registry = ProviderRegistry::from_config(&config).unwrap();
    // pylsp is now the first candidate, even though pyright is the default.
    assert_eq!(
        registry.candidates(LanguageId::Python)[0].id.as_str(),
        "pylsp"
    );
    assert_eq!(
        registry.candidates(LanguageId::Python)[1].id.as_str(),
        "pyright"
    );
}

#[test]
fn config_override_applies_binary_and_arg_overrides() {
    let config = RegistryConfig {
        providers: vec![ProviderOverride {
            language: "rust".to_string(),
            provider: "rust-analyzer".to_string(),
            binaries: vec!["/opt/ra/rust-analyzer".to_string()],
            args: Some(vec!["--log-file".to_string(), "/tmp/ra.log".to_string()]),
        }],
        required: vec![],
        disabled: vec![],
    };
    let registry = ProviderRegistry::from_config(&config).unwrap();
    let spec = &registry.candidates(LanguageId::Rust)[0];
    assert_eq!(spec.binaries[0], "/opt/ra/rust-analyzer");
    assert_eq!(spec.args, vec!["--log-file", "/tmp/ra.log"]);
}

#[test]
fn config_unknown_language_is_fail_loud() {
    let config = RegistryConfig {
        providers: vec![],
        required: vec!["cobol".to_string()],
        disabled: vec![],
    };
    let err = ProviderRegistry::from_config(&config).unwrap_err();
    assert_eq!(
        err,
        RegistryConfigError::UnknownLanguage("cobol".to_string())
    );
    assert_eq!(err.to_string(), "unknown language 'cobol' in [lsp] config");
}

#[test]
fn config_unknown_provider_is_fail_loud() {
    let config = RegistryConfig {
        providers: vec![ProviderOverride {
            language: "rust".to_string(),
            provider: "not-a-server".to_string(),
            binaries: vec![],
            args: None,
        }],
        required: vec![],
        disabled: vec![],
    };
    let err = ProviderRegistry::from_config(&config).unwrap_err();
    assert_eq!(
        err,
        RegistryConfigError::UnknownProvider {
            language: LanguageId::Rust,
            provider: ProviderId::new("not-a-server"),
        }
    );
    assert_eq!(
        err.to_string(),
        "provider 'not-a-server' is not registered for language 'rust'"
    );
}

#[test]
fn config_required_and_disabled_conflict_is_fail_loud() {
    let config = RegistryConfig {
        providers: vec![],
        required: vec!["rust".to_string()],
        disabled: vec!["rust".to_string()],
    };
    let err = ProviderRegistry::from_config(&config).unwrap_err();
    assert_eq!(
        err,
        RegistryConfigError::RequiredAndDisabled(LanguageId::Rust)
    );
    assert_eq!(
        err.to_string(),
        "language 'rust' is both required and disabled in [lsp] config"
    );
}

#[test]
fn required_and_disabled_flags_round_trip() {
    let config = RegistryConfig {
        providers: vec![],
        required: vec!["rust".to_string(), "python".to_string()],
        disabled: vec!["go".to_string()],
    };
    let registry = ProviderRegistry::from_config(&config).unwrap();
    assert!(registry.is_required(LanguageId::Rust));
    assert!(registry.is_required(LanguageId::Python));
    assert!(!registry.is_required(LanguageId::Go));
    assert!(registry.is_disabled(LanguageId::Go));
    assert_eq!(registry.required_languages().len(), 2);
}

#[test]
fn a_language_named_twice_is_required_once() {
    let config = RegistryConfig {
        providers: vec![],
        required: vec!["rust".to_string(), "Rust".to_string()],
        disabled: vec![],
    };
    let registry = ProviderRegistry::from_config(&config).unwrap();
    assert_eq!(registry.required_languages(), &[LanguageId::Rust]);
}

#[test]
fn the_default_config_changes_nothing() {
    let registry = ProviderRegistry::from_config(&RegistryConfig::default()).unwrap();
    let defaults = ProviderRegistry::default();
    for language in LANGUAGES {
        assert_eq!(registry.candidates(language), defaults.candidates(language));
        assert!(!registry.is_required(language));
        assert!(!registry.is_disabled(language));
    }
}

#[test]
fn probe_reports_missing_expected_and_minimum() {
    let registry = ProviderRegistry::with_defaults();
    let finder = FakeFinder::default().with("rust-analyzer", "/usr/bin/rust-analyzer", None);
    let resolved = registry.resolve_with(LanguageId::Rust, &finder).unwrap();
    // Live server reports only definition + references (missing the rest).
    let probe = ProviderProbe {
        resolved,
        probed_capabilities: CapabilitySet::of(&[
            LspCapability::Definition,
            LspCapability::References,
        ]),
    };
    assert!(probe.serves(LspCapability::Definition));
    assert!(!probe.serves(LspCapability::CallHierarchy));
    // Minimum floor met: no fail-loud gap.
    assert!(probe.missing_minimum().is_empty());
    // But the expected-vs-probed drift is recorded.
    assert!(probe
        .missing_expected()
        .contains(&LspCapability::CallHierarchy));
    assert!(probe
        .missing_expected()
        .contains(&LspCapability::TypeHierarchy));
}

#[test]
fn probe_below_minimum_is_detectable() {
    let registry = ProviderRegistry::with_defaults();
    let finder = FakeFinder::default().with("rust-analyzer", "/usr/bin/rust-analyzer", None);
    let resolved = registry.resolve_with(LanguageId::Rust, &finder).unwrap();
    // A server that serves neither definition nor references.
    let probe = ProviderProbe {
        resolved,
        probed_capabilities: CapabilitySet::new(),
    };
    let missing = probe.missing_minimum();
    assert!(missing.contains(&LspCapability::Definition));
    assert!(missing.contains(&LspCapability::References));
}

#[test]
fn a_probe_vouches_for_what_it_ran() {
    let registry = ProviderRegistry::with_defaults();
    let finder = FakeFinder::default().with("gopls", "/usr/bin/gopls", Some("v0.16"));
    let resolved = registry.resolve_with(LanguageId::Go, &finder).unwrap();
    let probe = ProviderProbe {
        resolved,
        probed_capabilities: CapabilitySet::of(&LspCapability::ALL),
    };
    let provenance = probe.provenance(LspCapability::References);
    assert_eq!(provenance.provider, ProviderId::new("gopls"));
    assert_eq!(provenance.version.as_deref(), Some("v0.16"));
    assert_eq!(provenance.capability, LspCapability::References);
}

#[test]
fn provenance_round_trips_through_relation_evidence() {
    let prov = LspProvenance {
        provider: ProviderId::new("rust-analyzer"),
        version: Some("rust-analyzer 1.79.0 (abcdef 2026-01-01)".to_string()),
        capability: LspCapability::CallHierarchy,
    };
    let evidence = prov.to_relation_evidence();
    assert!(LspProvenance::is_lsp_evidence(&evidence));
    let decoded = LspProvenance::from_relation_evidence(&evidence).unwrap();
    assert_eq!(decoded, prov);
    assert_eq!(
        evidence.parser_rule.as_deref(),
        Some("lsp/1;provider=rust-analyzer;capability=callHierarchy")
    );
}

#[test]
fn provenance_round_trips_without_version() {
    let prov = LspProvenance {
        provider: ProviderId::new("pyright"),
        version: None,
        capability: LspCapability::References,
    };
    let evidence = prov.to_relation_evidence();
    let decoded = LspProvenance::from_relation_evidence(&evidence).unwrap();
    assert_eq!(decoded, prov);
}

#[test]
fn non_lsp_evidence_decodes_to_none() {
    let parser_evidence = RelationEvidence {
        parser_rule: Some("include_directive".to_string()),
        token: Some("#include \"app.hpp\"".to_string()),
        ..RelationEvidence::default()
    };
    assert!(!LspProvenance::is_lsp_evidence(&parser_evidence));
    assert!(LspProvenance::from_relation_evidence(&parser_evidence).is_none());
    // Fully-empty evidence is also safely ignored.
    assert!(LspProvenance::from_relation_evidence(&RelationEvidence::default()).is_none());
}

fn ruled(rule: &str) -> RelationEvidence {
    RelationEvidence {
        parser_rule: Some(rule.to_string()),
        ..RelationEvidence::default()
    }
}

#[test]
fn a_tag_is_read_part_by_part() {
    let read = |rule: &str| LspProvenance::from_relation_evidence(&ruled(rule));
    // Unknown keys are ignored, and a later part counts over an earlier one.
    let prov = read("lsp/1;provider=a;extra=1;provider=b=c;capability=definition").unwrap();
    assert_eq!(prov.provider.as_str(), "b=c");
    assert_eq!(prov.capability, LspCapability::Definition);
    // A part without `=`, a missing part, an unknown capability, another marker.
    assert!(read("lsp/1;provider=a;broken;capability=definition").is_none());
    assert!(read("lsp/1;provider=a").is_none());
    assert!(read("lsp/1;provider=a;capability=bogus").is_none());
    assert!(read("lsp/2;provider=a;capability=definition").is_none());
    // A provider that holds the separator does not read back as it was.
    let prov = LspProvenance {
        provider: ProviderId::new("a;b"),
        version: None,
        capability: LspCapability::Definition,
    };
    assert!(LspProvenance::from_relation_evidence(&prov.to_relation_evidence()).is_none());
}

#[test]
fn stamping_adds_and_never_replaces() {
    let relation = |evidence: Vec<RelationEvidence>| Relation {
        id: RelationId::new(),
        kind: RelationKind::Calls,
        src: GraphNodeId::Entity(EntityId(1)),
        dst: GraphNodeId::Entity(EntityId(2)),
        confidence: 95,
        origin: RelationOrigin::Lsp,
        created_in: None,
        import_source: None,
        evidence,
    };
    let mut relations = vec![relation(vec![]), relation(vec![ruled("lsp_call_hierarchy")])];
    let prov = LspProvenance {
        provider: ProviderId::new("gopls"),
        version: None,
        capability: LspCapability::CallHierarchy,
    };
    stamp_lsp_provenance(&mut relations, &prov);
    assert_eq!(relations[0].evidence, vec![prov.to_relation_evidence()]);
    assert_eq!(
        relations[1].evidence,
        vec![ruled("lsp_call_hierarchy"), prov.to_relation_evidence()]
    );
}

#[test]
fn capability_slug_round_trips() {
    for cap in LspCapability::ALL {
        assert_eq!(LspCapability::from_slug(cap.as_slug()), Some(cap));
    }
    assert_eq!(LspCapability::from_slug("bogus"), None);
}

#[test]
fn language_slugs_round_trip() {
    for language in LANGUAGES {
        assert_eq!(language_from_slug(language.as_slug()), Some(language));
    }
    assert_eq!(language_from_slug("Python"), Some(LanguageId::Python));
    assert_eq!(language_from_slug("cobol"), None);
}

#[test]
fn gaps_say_why() {
    let gap = |reason: ProviderGapReason| ProviderGap {
        language: LanguageId::Go,
        reason,
        tried: vec![ProviderId::new("gopls")],
    };
    let reasons = vec![
        ProviderGapReason::NoProviderRegistered,
        ProviderGapReason::NoBinaryOnPath,
        ProviderGapReason::ServerUnusable {
            message: "it refused".to_string(),
        },
    ];
    let mut texts: Vec<String> = Vec::new();
    for reason in reasons {
        let text = gap(reason).to_string();
        assert!(text.contains("go"));
        texts.push(text);
    }
    assert!(texts[2].contains("it refused"));
    assert_ne!(texts[0], texts[1]);
    assert_ne!(texts[1], texts[2]);
}

#[test]
fn a_configuration_keeps_every_provider() {
    let over = |provider: &str| ProviderOverride {
        language: "python".to_string(),
        provider: provider.to_string(),
        binaries: vec![],
        args: None,
    };
    let registry = ProviderRegistry::from_config(&RegistryConfig {
        providers: vec![over("pylsp"), over("pyright"), over("pylsp")],
        required: vec![],
        disabled: vec![],
    })
    .unwrap();
    let defaults = ProviderRegistry::with_defaults();
    let before = defaults.candidates(LanguageId::Python);
    let after = registry.candidates(LanguageId::Python);
    assert_eq!(after.len(), before.len());
    for spec in before {
        assert_eq!(
            after
                .iter()
                .filter(|other| other.id == spec.id
                    && other.language == spec.language
                    && other.expected_capabilities == spec.expected_capabilities)
                .count(),
            1
        );
    }
    assert_eq!(after[0].id.as_str(), "pylsp");
}
