use uwu_infra::character::{
    build_full_text, extract_json_object, extract_json_would_panic, semantic_outcome,
    CharacterConstraint, CoreValue, EntryText,
};
use uwu_infra::context_types::LlmError;
use uwu_infra::federation::{FederatedEntry, FederationState, SharingPolicy};
use uwu_infra::intent::{ContextUri, MemoryClass, QueryKind, RetrieveContext, RuleBasedIntentAnalyzer};
use uwu_infra::metacog::{archived_ts_of, merge_calibration, sample_uri, TimeWindow};
use uwu_infra::semantic::{
    abstract_prompt, equivalence_prompt, multimodal_unsupported, overview_prompt, text_to_visual_prompt,
    visual_to_text_prompt,
};

fn ctx() -> RetrieveContext {
    RetrieveContext { user_id: Some("u1".into()), agent_id: Some("a1".into()) }
}

#[test]
fn event_query_is_classified() {
    let ia = RuleBasedIntentAnalyzer::new("u1", "a1");
    let tqs = ia.classify("what happened last week?", &ctx());
    assert_eq!(tqs[0].kind, QueryKind::EventRecall);
    assert_eq!(tqs[0].expected_class, Some(MemoryClass::Events));
}

#[test]
fn howto_query_targets_skills() {
    let ia = RuleBasedIntentAnalyzer::new("u1", "a1");
    let tqs = ia.classify("how to deploy the app?", &ctx());
    assert_eq!(tqs[0].kind, QueryKind::SkillReuse);
    assert!(!tqs[0].target_dirs.is_empty());
    assert_eq!(tqs[0].target_dirs[0], ContextUri("uwu://u1/agent/a1/memories/skills".to_string()));
    assert_eq!(tqs[0].target_dirs[2], ContextUri("uwu://u1/agent/a1/experiences".to_string()));
}

#[test]
fn ambiguous_query_gets_semantic_search() {
    let ia = RuleBasedIntentAnalyzer::new("u1", "a1");
    let tqs = ia.classify("rust async patterns", &ctx());
    assert!(tqs.iter().any(|t| t.kind == QueryKind::PatternMatch));
}

#[test]
fn preference_query_falls_back_to_semantic() {
    let ia = RuleBasedIntentAnalyzer::new("u1", "a1");
    let tqs = ia.classify("what does the user like?", &ctx());
    assert_eq!(tqs[0].kind, QueryKind::SemanticSearch);
}

#[test]
fn unmatched_query_uses_defaults_and_semantic_search() {
    let ia = RuleBasedIntentAnalyzer::new("du", "da");
    let tqs = ia.classify("XYZZY", &RetrieveContext::default());
    assert_eq!(tqs.len(), 1);
    assert_eq!(tqs[0].kind, QueryKind::SemanticSearch);
    assert_eq!(tqs[0].target_dirs.len(), 6);
    assert_eq!(tqs[0].target_dirs[0].0, "uwu://du/agent/da/memories/preferences");
    let upper = ia.classify("WHEN did it HAPPEN", &ctx());
    assert_eq!(upper[0].kind, QueryKind::EventRecall);
    let cn = ia.classify("上次的状态", &ctx());
    assert_eq!(cn[0].kind, QueryKind::EventRecall);
    assert_eq!(cn[1].kind, QueryKind::StateSnapshot);
}

fn honesty(terms: &[&str]) -> CharacterConstraint {
    CharacterConstraint::new(vec![CoreValue {
        name: "honesty".into(),
        description: "Always tell the truth and do not fabricate information.".into(),
        forbidden_terms: terms.iter().map(|t| t.to_string()).collect(),
    }])
}

#[test]
fn forbidden_term_blocks_write() {
    let cc = honesty(&["fabricate"]);
    let entry = EntryText { l0_abstract: "we fabricate results".into(), l1_overview: None };
    assert!(cc.check_write_sync(&entry).is_err());
}

#[test]
fn allowed_content_passes_keyword_check() {
    let cc = honesty(&["fabricate", "deceive"]);
    let entry = EntryText { l0_abstract: "we verified the results".into(), l1_overview: None };
    assert!(cc.check_write_sync(&entry).is_ok());
}

#[test]
fn builds_full_text_with_overview() {
    let entry = EntryText { l0_abstract: "abstract".into(), l1_overview: Some("overview content".into()) };
    let text = build_full_text(&entry);
    assert!(text.contains("abstract"));
    assert!(text.contains("overview content"));
    assert_eq!(text, "abstract\n---\noverview content");
}

#[test]
fn keyword_violation_names_value_and_term() {
    let cc = honesty(&["Deceive"]);
    let entry = EntryText { l0_abstract: "fine".into(), l1_overview: Some("We DECEIVE users".into()) };
    let err = cc.check_write_sync(&entry).unwrap_err();
    assert_eq!(err.0, "value `honesty` forbids term `Deceive`");
    assert_eq!(cc.values_text(), "- honesty: Always tell the truth and do not fabricate information.");
}

#[test]
fn json_extraction_from_model_answers() {
    assert_eq!(extract_json_object("  ```json\n{\"violation\": false}\n```  "), "{\"violation\": false}");
    assert_eq!(extract_json_object("sure: {\"a\": {\"b\": 1}} done"), "{\"a\": {\"b\": 1}}");
    assert_eq!(extract_json_object("  no json here "), "no json here");
    assert!(extract_json_would_panic("} then {"));
    assert!(!extract_json_would_panic("{ fine }"));
    assert!(semantic_outcome(Some((true, "honesty", "made up data"))).unwrap_err().0.contains("honesty"));
    assert!(semantic_outcome(Some((false, "", ""))).is_ok());
    assert!(semantic_outcome(None).is_ok());
    assert_eq!(LlmError::Provider("x".into()).message(), "provider: x");
}

fn fed_entry(abstract_: &str, policy: SharingPolicy, uri: &str) -> FederatedEntry {
    FederatedEntry {
        source_agent: "agent_a".into(),
        uri: ContextUri(uri.into()),
        abstract_: abstract_.into(),
        sharing_policy: policy,
        timestamp: 1_700_000_000,
    }
}

#[test]
fn federation_push_and_pull() {
    let mut fed = FederationState::new("agent_a");
    fed.register_peer("agent_b".to_string());
    fed.push_sync(fed_entry("solved memory leak in websocket handler", SharingPolicy::Public, "uwu://t/agent/a/memories/cases/c1"));
    let results = fed.pull_sync("memory leak");
    assert_eq!(results.len(), 1);
    let status = fed.status();
    assert_eq!(status.peer_count, 1);
    assert_eq!(status.public_entries, 1);
}

#[test]
fn federation_private_entries_not_pulled() {
    let mut fed = FederationState::new("agent_a");
    fed.push_sync(fed_entry("prefers secret configs", SharingPolicy::Private, "uwu://t/agent/a/memories/preferences/p1"));
    assert!(fed.pull_sync("secret").is_empty());
}

#[test]
fn federation_trusted_peers() {
    let mut fed = FederationState::new("agent_a");
    fed.push_sync(fed_entry(
        "trusted data",
        SharingPolicy::TrustedPeers { allowed_agents: vec!["agent_b".into()] },
        "uwu://t/x",
    ));
    assert!(fed.pull_sync("trusted").is_empty());
}

#[test]
fn metacog_time_window_filters_correctly() {
    let w = TimeWindow { from_ts: 10, to_ts: 20 };
    assert!(w.contains(10));
    assert!(w.contains(20));
    assert!(!w.contains(21));
    assert!(!w.contains(9));
}

#[test]
fn metacog_hot_samples_override_cold() {
    let w = TimeWindow { from_ts: 0, to_ts: 100 };
    let merged = merge_calibration(&vec![30, 10], &vec![10, 500, 20], w);
    let got: Vec<(bool, usize, i64)> = merged.iter().map(|s| (s.hot, s.index, s.ts)).collect();
    assert_eq!(got, vec![(true, 0, 10), (true, 2, 20), (false, 0, 30)]);
}

#[test]
fn metacog_archive_addresses() {
    assert_eq!(sample_uri("ag", 42).0, "uwu://default/agent/ag/metacog/pred_errors/42.json");
    assert_eq!(archived_ts_of("uwu://default/agent/ag/metacog/pred_errors/42.json"), Some(42));
    assert_eq!(archived_ts_of("uwu://x/-5.json"), Some(-5));
    assert_eq!(archived_ts_of("uwu://x/readme.md"), None);
}

#[test]
fn semantic_requests_name_the_entry() {
    let a = abstract_prompt("uwu://t/docs/x");
    assert_eq!(
        a,
        "You are a context summarizer. Write a concise L0 abstract (~100 tokens) for:\nURI: uwu://t/docs/x\n\nAn abstract should capture: what this entry is about, its category, and key information.\nRespond with ONLY the abstract text, no additional commentary.\n"
    );
    let o = overview_prompt("uwu://t/docs/x");
    assert!(o.starts_with("You are a context organizer. Write an L1 overview (~1000 tokens) for:\nURI: uwu://t/docs/x\n\n"));
    assert!(o.ends_with("Format as Markdown with ## section headers.\nRespond with ONLY the overview text.\n"));
    assert_eq!(multimodal_unsupported("uwu://t/img/1"), "multimodal_to_text not yet implemented for uwu://t/img/1");
}

#[test]
fn alignment_requests_quote_their_inputs() {
    assert_eq!(
        text_to_visual_prompt("a red apple"),
        "Convert this text description into a detailed visual description suitable for image generation:\n\nText: \"a red apple\"\n\nDescribe: colors, shapes, spatial relationships, lighting, perspective, style.\nRespond with ONLY the visual description."
    );
    assert_eq!(
        visual_to_text_prompt("round, red"),
        "Extract structured information from this visual description:\n\nVisual: \"round, red\"\n\nReturn: what objects are present, their properties, actions, and relationships.\nRespond with ONLY the structured summary."
    );
    assert_eq!(
        equivalence_prompt("x", "y"),
        "Are these two descriptions referring to the same thing?\n\nDescription A: \"x\"\nDescription B: \"y\"\n\nReturn a JSON with \"same\": true/false and \"confidence\": 0.0-1.0."
    );
}
