use kin_lsp::capability::CapabilitySet;
use kin_lsp::enrichment_proof::{
    LspEnrichmentProof, ProofGap, ProofMode, ProofRecorder, ProofViolation,
};
use kin_lsp::error::LspError;
use kin_lsp::json::{parse, Json};
use kin_lsp::proof_json::{read_proof, write_proof, Recorded};
use kin_lsp::registry::{
    LspCapability, ProviderGap, ProviderGapReason, ProviderId, ProviderProbe, ProviderRegistry,
    ResolvedProvider,
};
use kin_lsp::types::LanguageId;

fn probe(
    language: LanguageId,
    provider: &str,
    version: Option<&str>,
    caps: &[LspCapability],
) -> ProviderProbe {
    ProviderProbe {
        resolved: ResolvedProvider {
            id: ProviderId::new(provider),
            language,
            command: format!("/usr/bin/{provider}"),
            args: vec![],
            version: version.map(|v| v.to_string()),
            expected_capabilities: ProviderRegistry::with_defaults()
                .candidates(language)
                .iter()
                .find(|s| s.id.as_str() == provider)
                .map(|s| s.expected_capabilities)
                .unwrap_or(CapabilitySet::new()),
        },
        probed_capabilities: CapabilitySet::of(caps),
    }
}

#[test]
fn clean_required_run_is_citable() {
    let mut rec = ProofRecorder::with_required(ProofMode::Citable, &[LanguageId::Rust]);
    rec.record_probe(&probe(
        LanguageId::Rust,
        "rust-analyzer",
        Some("rust-analyzer 1.79.0"),
        &LspCapability::ALL,
    ));
    rec.file_attempted(LanguageId::Rust);
    rec.file_enriched(LanguageId::Rust, 7);
    let proof = rec.finish();

    assert_eq!(proof.total_relations(), 7);
    assert!(!proof.has_failures());
    assert!(proof.verify_citable().is_ok());
    let rust = proof.language(LanguageId::Rust).unwrap();
    assert_eq!(rust.version.as_deref(), Some("rust-analyzer 1.79.0"));
    assert_eq!(rust.files_enriched, 1);
}

#[test]
fn missing_required_provider_fails_citable() {
    // Required python, but nothing ever ran.
    let rec = ProofRecorder::with_required(ProofMode::Citable, &[LanguageId::Python]);
    let proof = rec.finish();
    let violations = proof.verify_citable().unwrap_err();
    assert_eq!(
        violations,
        vec![ProofViolation::MissingRequiredProvider(LanguageId::Python)]
    );
}

#[test]
fn required_gap_is_a_violation_and_not_double_counted() {
    let mut rec = ProofRecorder::with_required(ProofMode::Citable, &[LanguageId::Go]);
    rec.record_gap(&ProviderGap {
        language: LanguageId::Go,
        reason: ProviderGapReason::NoBinaryOnPath,
        tried: vec![ProviderId::new("gopls")],
    });
    let proof = rec.finish();
    let violations = proof.verify_citable().unwrap_err();
    // Exactly one violation: the unresolved required gap (NOT also a
    // MissingRequiredProvider, since the gap already explains the absence).
    assert_eq!(violations.len(), 1);
    assert!(matches!(
        violations[0],
        ProofViolation::UnresolvedRequiredGap {
            language: LanguageId::Go,
            ..
        }
    ));
}

#[test]
fn below_minimum_capabilities_fails_citable() {
    let mut rec = ProofRecorder::with_required(ProofMode::Citable, &[LanguageId::Rust]);
    // Server serves only call hierarchy: below the definition+references floor.
    rec.record_probe(&probe(
        LanguageId::Rust,
        "rust-analyzer",
        None,
        &[LspCapability::CallHierarchy],
    ));
    rec.file_attempted(LanguageId::Rust);
    let proof = rec.finish();
    let violations = proof.verify_citable().unwrap_err();
    assert!(matches!(
        &violations[0],
        ProofViolation::BelowMinimumCapabilities { language: LanguageId::Rust, missing }
            if missing.contains(&LspCapability::Definition)
                && missing.contains(&LspCapability::References)
    ));
}

#[test]
fn file_failure_fails_citable_but_advisory_tolerates_it() {
    let build = || {
        let mut rec = ProofRecorder::new(ProofMode::Citable);
        rec.record_probe(&probe(
            LanguageId::Rust,
            "rust-analyzer",
            None,
            &LspCapability::ALL,
        ));
        rec.file_attempted(LanguageId::Rust);
        rec.file_failed(LanguageId::Rust, "src/lib.rs", "server timeout");
        rec
    };

    // Required: violation.
    let mut rec = build();
    rec.required = vec![LanguageId::Rust];
    let proof = rec.finish();
    assert!(proof.has_failures());
    let violations = proof.verify_citable().unwrap_err();
    assert!(matches!(
        violations[0],
        ProofViolation::FileFailures {
            language: LanguageId::Rust,
            failed: 1
        }
    ));

    // Not required: the failure is recorded but not a citable violation.
    let proof2 = build().finish();
    assert!(proof2.has_failures());
    assert!(proof2.verify_citable().is_ok());
    assert_eq!(
        proof2.language(LanguageId::Rust).unwrap().failures[0].reason,
        "server timeout"
    );
}

#[test]
fn missing_expected_capabilities_recorded_without_failing_floor() {
    let mut rec = ProofRecorder::with_required(ProofMode::Citable, &[LanguageId::Python]);
    // pyright expects call hierarchy too, but this server only reports the floor.
    rec.record_probe(&probe(
        LanguageId::Python,
        "pyright",
        Some("pyright 1.1.400"),
        &[LspCapability::Definition, LspCapability::References],
    ));
    rec.file_attempted(LanguageId::Python);
    rec.file_enriched(LanguageId::Python, 3);
    let proof = rec.finish();
    // Floor met: citable-clean, but the expected-vs-probed drift is visible.
    assert!(proof.verify_citable().is_ok());
    let py = proof.language(LanguageId::Python).unwrap();
    assert!(py
        .missing_capabilities
        .contains(&LspCapability::CallHierarchy));
}

#[test]
fn finish_is_deterministic_across_insertion_order() {
    let build = |order: &[LanguageId]| {
        let mut rec = ProofRecorder::new(ProofMode::Advisory);
        for &lang in order {
            rec.file_attempted(lang);
        }
        rec.finish()
    };
    let a = build(&[LanguageId::Rust, LanguageId::Go, LanguageId::Python]);
    let b = build(&[LanguageId::Python, LanguageId::Rust, LanguageId::Go]);
    let langs_a: Vec<_> = a.languages.iter().map(|l| l.language).collect();
    let langs_b: Vec<_> = b.languages.iter().map(|l| l.language).collect();
    assert_eq!(langs_a, langs_b);
    assert_eq!(
        langs_a,
        vec![LanguageId::Go, LanguageId::Python, LanguageId::Rust]
    );
    assert_eq!(a, b);
}

#[test]
fn required_languages_are_sorted_and_listed_once() {
    let proof = ProofRecorder::with_required(
        ProofMode::Citable,
        &[
            LanguageId::Rust,
            LanguageId::C,
            LanguageId::Rust,
            LanguageId::JavaScript,
            LanguageId::Java,
        ],
    )
    .finish();
    assert_eq!(
        proof.required,
        vec![
            LanguageId::C,
            LanguageId::Java,
            LanguageId::JavaScript,
            LanguageId::Rust
        ]
    );
}

#[test]
fn gaps_of_one_language_keep_their_order() {
    let gap = |language: LanguageId, message: &str| ProviderGap {
        language,
        reason: ProviderGapReason::ServerUnusable {
            message: message.to_string(),
        },
        tried: vec![],
    };
    let mut rec = ProofRecorder::new(ProofMode::Advisory);
    rec.record_gap(&gap(LanguageId::Rust, "first"));
    rec.record_gap(&gap(LanguageId::Go, "other"));
    rec.record_gap(&gap(LanguageId::Rust, "second"));
    let proof = rec.finish();
    let languages: Vec<_> = proof.gaps.iter().map(|g| g.language).collect();
    assert_eq!(
        languages,
        vec![LanguageId::Go, LanguageId::Rust, LanguageId::Rust]
    );
    assert!(proof.gaps[1].detail.contains("first"));
    assert!(proof.gaps[2].detail.contains("second"));
    assert!(proof.has_failures());
    assert!(!proof.gaps[0].required);
}

#[test]
fn a_record_without_a_provider_is_a_violation_beside_its_failures() {
    let mut rec = ProofRecorder::with_required(ProofMode::Citable, &[LanguageId::Go]);
    rec.file_attempted(LanguageId::Go);
    rec.file_failed(LanguageId::Go, "a.go", "timeout");
    let violations = rec.finish().verify_citable().unwrap_err();
    assert_eq!(
        violations,
        vec![
            ProofViolation::MissingRequiredProvider(LanguageId::Go),
            ProofViolation::FileFailures {
                language: LanguageId::Go,
                failed: 1
            }
        ]
    );
}

#[test]
fn violations_say_what_is_wrong() {
    assert_eq!(
        ProofViolation::MissingRequiredProvider(LanguageId::Go).to_string(),
        "required language 'go' ran no LSP provider (enrichment never happened)"
    );
    assert_eq!(
        ProofViolation::BelowMinimumCapabilities {
            language: LanguageId::Rust,
            missing: CapabilitySet::of(&[LspCapability::References, LspCapability::Definition]),
        }
        .to_string(),
        "required language 'rust' server is below the citable capability floor (missing: definition, references)"
    );
    assert_eq!(
        ProofViolation::FileFailures {
            language: LanguageId::Rust,
            failed: 12
        }
        .to_string(),
        "required language 'rust' had 12 file(s) fail enrichment — a citable run cannot silently degrade"
    );
    assert_eq!(
        ProofViolation::UnresolvedRequiredGap {
            language: LanguageId::Java,
            detail: "nothing".to_string()
        }
        .to_string(),
        "required language 'java' has an unresolved gap: nothing"
    );
}

#[test]
fn a_summary_counts_everything() {
    let mut rec = ProofRecorder::new(ProofMode::default());
    rec.file_attempted(LanguageId::Rust);
    rec.file_attempted(LanguageId::Rust);
    rec.file_enriched(LanguageId::Rust, 10);
    rec.file_failed(LanguageId::Rust, "a.rs", "died");
    rec.file_attempted(LanguageId::Go);
    rec.file_enriched(LanguageId::Go, 5);
    assert_eq!(
        rec.finish().summary(),
        "lsp-proof[Advisory]: 2 language(s), 15 relations, files 3/2/1 attempted/enriched/failed, 0 gap(s)"
    );
}

#[test]
fn proof_json_round_trips() {
    let mut rec = ProofRecorder::with_required(ProofMode::Citable, &[LanguageId::Rust]);
    rec.record_probe(&probe(
        LanguageId::Rust,
        "rust-analyzer",
        Some("rust-analyzer 1.79.0"),
        &LspCapability::ALL,
    ));
    rec.file_attempted(LanguageId::Rust);
    rec.file_enriched(LanguageId::Rust, 4);
    let proof = rec.finish();
    let json = write_proof(&proof);
    let decoded = read_proof(&json.into_bytes()).unwrap();
    assert_eq!(decoded, proof);
}

#[test]
fn every_part_of_a_proof_is_kept_in_json() {
    let mut rec = ProofRecorder::with_required(
        ProofMode::Advisory,
        &[LanguageId::Go, LanguageId::CSharp],
    );
    rec.record_gap(&ProviderGap {
        language: LanguageId::Go,
        reason: ProviderGapReason::ServerUnusable {
            message: "\u{7}\"broken\"\\ \u{1f600}".to_string(),
        },
        tried: vec![ProviderId::new("gopls")],
    });
    rec.file_attempted(LanguageId::CSharp);
    rec.file_enriched(LanguageId::CSharp, u64::MAX);
    rec.file_failed(LanguageId::CSharp, "a.cs", "server\ndied");
    let proof = rec.finish();
    let text = write_proof(&proof);
    assert!(text.contains("\"relations_emitted\":18446744073709551615"));
    assert!(text.contains("\"mode\":\"advisory\""));
    assert!(text.contains("\"provider\":null"));
    assert!(text.contains("\"required\":[\"csharp\",\"go\"]"));
    assert_eq!(read_proof(&text.into_bytes()).unwrap(), proof);
}

#[test]
fn json_that_is_no_proof_is_refused() {
    let read = |text: &str| read_proof(&text.as_bytes().to_vec());
    assert!(matches!(read("{"), Err(LspError::Json(_))));
    let refused = Err(LspError::Protocol("not an enrichment proof".to_string()));
    for text in [
        "null",
        "{\"mode\":\"citable\",\"required\":[],\"languages\":[]}",
        "{\"mode\":\"proven\",\"required\":[],\"languages\":[],\"gaps\":[]}",
        "{\"mode\":\"citable\",\"required\":[\"Rust\"],\"languages\":[],\"gaps\":[]}",
        "{\"mode\":\"citable\",\"required\":[],\"languages\":[{}],\"gaps\":[]}",
    ] {
        assert_eq!(read(text), refused, "{text}");
    }
    let empty = read(
        "{\"mode\":\"citable\",\"required\":[\"rust\"],\"languages\":[],\"gaps\":[],\"more\":1}",
    )
    .unwrap();
    assert_eq!(empty.required, vec![LanguageId::Rust]);
    assert!(empty.verify_citable().is_err());
}

#[test]
fn names_are_read_back_from_json() {
    for capability in LspCapability::ALL {
        assert_eq!(
            LspCapability::from_json(&capability.to_json()),
            Some(capability)
        );
    }
    assert_eq!(
        LanguageId::from_json(&Json::Text("typescript".to_string())),
        Some(LanguageId::TypeScript)
    );
    assert_eq!(
        LanguageId::from_json(&Json::Text("TypeScript".to_string())),
        None
    );
    assert_eq!(
        ProofMode::from_json(&parse(&b"\"citable\"".to_vec()).unwrap()),
        Some(ProofMode::Citable)
    );
    assert_eq!(ProofMode::from_json(&Json::Natural(1)), None);
}

fn gap(language: LanguageId, detail: &str, required: bool) -> ProofGap {
    ProofGap {
        language,
        detail: detail.to_string(),
        required,
    }
}

#[test]
fn a_gap_of_a_required_language_is_open_whatever_its_mark() {
    let proof = LspEnrichmentProof {
        mode: ProofMode::Citable,
        required: vec![LanguageId::Go],
        languages: vec![],
        gaps: vec![gap(LanguageId::Go, "no binary", false)],
    };
    assert_eq!(
        proof.verify_citable().unwrap_err(),
        vec![ProofViolation::UnresolvedRequiredGap {
            language: LanguageId::Go,
            detail: "no binary".to_string()
        }]
    );
    // A gap that was recorded before its language was required.
    let mut rec = ProofRecorder::new(ProofMode::Citable);
    rec.record_gap(&ProviderGap {
        language: LanguageId::Go,
        reason: ProviderGapReason::NoBinaryOnPath,
        tried: vec![],
    });
    rec.record_probe(&probe(LanguageId::Go, "gopls", None, &LspCapability::ALL));
    rec.required = vec![LanguageId::Go];
    let proof = rec.finish();
    assert!(!proof.gaps[0].required);
    assert!(matches!(
        proof.verify_citable().unwrap_err()[..],
        [ProofViolation::UnresolvedRequiredGap { .. }]
    ));
}

#[test]
fn a_marked_gap_is_reported_before_an_unmarked_one() {
    let proof = LspEnrichmentProof {
        mode: ProofMode::Citable,
        required: vec![LanguageId::Go],
        languages: vec![],
        gaps: vec![
            gap(LanguageId::Rust, "other", true),
            gap(LanguageId::Go, "unmarked", false),
            gap(LanguageId::Go, "marked", true),
        ],
    };
    assert_eq!(
        proof.verify_citable().unwrap_err(),
        vec![ProofViolation::UnresolvedRequiredGap {
            language: LanguageId::Go,
            detail: "marked".to_string()
        }]
    );
}

#[test]
fn interleaving_languages_does_not_matter() {
    let go_gap = |text: &str| ProviderGap {
        language: LanguageId::Go,
        reason: ProviderGapReason::ServerUnusable {
            message: text.to_string(),
        },
        tried: vec![],
    };
    let rust = probe(LanguageId::Rust, "rust-analyzer", None, &LspCapability::ALL);
    let mut a = ProofRecorder::with_required(
        ProofMode::Citable,
        &[LanguageId::Rust, LanguageId::Go],
    );
    a.record_gap(&go_gap("first"));
    a.record_gap(&go_gap("second"));
    a.file_attempted(LanguageId::Go);
    a.record_probe(&rust);
    a.file_attempted(LanguageId::Rust);
    a.file_failed(LanguageId::Rust, "a.rs", "died");
    let mut b = ProofRecorder::with_required(
        ProofMode::Citable,
        &[LanguageId::Go, LanguageId::Rust, LanguageId::Go],
    );
    b.record_probe(&rust);
    b.record_gap(&go_gap("first"));
    b.file_attempted(LanguageId::Rust);
    b.file_attempted(LanguageId::Go);
    b.file_failed(LanguageId::Rust, "a.rs", "died");
    b.record_gap(&go_gap("second"));
    assert_eq!(a.finish(), b.finish());
}
