use uwu_infra::character::{CharacterConstraint, CoreValue, EntryText, REVIEW_HEAD, REVIEW_TAIL};
use uwu_infra::compute::{
    cluster_prompt, compute_counts, compute_stats, custom_counts, custom_prompt,
    empty_scope_result, join_with, listing_line, take_chars, trend_line, trend_prompt,
    ComputeCounts,
};
use uwu_infra::history::{
    crystal_id, distill_prompt, precedence_pairs, heal_line, heal_prompt,
    thrash_rollback, PairPrecedence,
};
use uwu_infra::metacog::{snapshot_uri, state_dir_uri, StateScope, StateSnapshot};
use uwu_infra::intent::MemoryClass;
use uwu_infra::sandbox::{gate_step, review_verdict, reviewed, GateStep, ReviewVerdict};

fn honesty_gate() -> CharacterConstraint {
    CharacterConstraint::new(vec![CoreValue {
        name: "honesty".into(),
        description: String::new(),
        forbidden_terms: vec!["fabricate".into()],
    }])
}

fn strings(v: &[&str]) -> Vec<String> {
    v.iter().map(|s| s.to_string()).collect()
}

#[test]
fn compute_stats_produces_summary() {
    let out = compute_stats(&vec!["entry one".len()], &vec![None]);
    assert!(out.result.contains("1 entries"));
}

#[test]
fn stats_on_empty_entries_triggers_compact() {
    let out = compute_stats(&vec![], &vec![]);
    assert_eq!(out.trigger_action, Some("compact".to_string()));
}

#[test]
fn stats_count_tokens_and_distinct_classes() {
    let out = compute_stats(
        &vec![9, 17, 3],
        &vec![Some(MemoryClass::Events), None, Some(MemoryClass::Events)],
    );
    assert_eq!(out.result, "3 entries, 6 tokens, 1 classes");
    assert_eq!(out.trigger_action, None);
    let c = compute_counts(
        &vec![4, 4, 4],
        &vec![Some(MemoryClass::Skills), Some(MemoryClass::Cases), Some(MemoryClass::Skills)],
    );
    assert_eq!(c, ComputeCounts { entry_count: 3, total_tokens: 3, unique_classes: 2 });
}

#[test]
fn write_gate_keyword_check_blocks() {
    let cc = honesty_gate();
    let entry = EntryText { l0_abstract: "we fabricate results".into(), l1_overview: None };
    let step = gate_step(cc.check_write_sync(&entry), false);
    assert!(matches!(step, GateStep::Refused(_)));
}

#[test]
fn write_gate_passes_safe_content() {
    let cc = honesty_gate();
    let entry = EntryText { l0_abstract: "we found and fixed the bug".into(), l1_overview: None };
    let step = gate_step(cc.check_write_sync(&entry), false);
    assert!(matches!(step, GateStep::Pass));
    let step = gate_step(cc.check_write_sync(&entry), true);
    assert!(matches!(step, GateStep::Review));
}

#[test]
fn review_answers_map_to_verdicts() {
    assert_eq!(
        review_verdict(Some(("reject", "harmful", "harm-prevention"))),
        ReviewVerdict::Reject { reason: "harmful".into(), rule: "harm-prevention".into() }
    );
    assert_eq!(
        review_verdict(Some(("quarantine", "unsure", ""))),
        ReviewVerdict::Quarantine { reason: "unsure".into() }
    );
    assert_eq!(review_verdict(Some(("pass", "fine", ""))), ReviewVerdict::Pass);
    assert_eq!(review_verdict(Some(("REJECT", "x", "y"))), ReviewVerdict::Pass);
    assert_eq!(review_verdict(None), ReviewVerdict::Pass);
    assert_eq!(reviewed(None), ReviewVerdict::Pass);
}

#[test]
fn review_prompt_frames_values_and_content() {
    let cc = honesty_gate();
    let entry = EntryText { l0_abstract: "a".into(), l1_overview: Some("b".into()) };
    let p = cc.review_prompt(&entry);
    assert!(p.starts_with(REVIEW_HEAD));
    assert!(p.ends_with(REVIEW_TAIL));
    assert!(p.contains("- honesty: \n"));
    assert!(p.contains("Content:\na\n---\nb\n"));
}

#[test]
fn custom_module_texts() {
    assert_eq!(
        empty_scope_result("dedupe", "uwu://t/x"),
        "custom module 'dedupe' executed on empty scope uwu://t/x"
    );
    let long = "x".repeat(250);
    let line = listing_line(3, "uwu://t/a", &long);
    assert_eq!(line, format!("[3] URI=uwu://t/a | L0={}", "x".repeat(200)));
    let p = custom_prompt("dedupe", 2, "uwu://t", "L1\nL2");
    assert!(p.starts_with("You are executing a custom WASM compute module named \"dedupe\".\n\nThe module operates on the following 2 context entries from scope uwu://t:\n\nL1\nL2\n\nExecute"));
    assert!(p.contains("If you don't recognize the module \"dedupe\", perform"));
    let reported = ComputeCounts { entry_count: 1, total_tokens: 7, unique_classes: 2 };
    assert_eq!(custom_counts(reported, 4).entry_count, 4);
    assert_eq!(custom_counts(reported, 0).entry_count, 1);
}

#[test]
fn cluster_and_trend_texts() {
    let joined = join_with(&strings(&["a", "b", "c"]), "\n---\n");
    assert_eq!(joined, "a\n---\nb\n---\nc");
    assert_eq!(join_with(&vec![], ","), "");
    assert_eq!(
        cluster_prompt(3, 2, "kmeans", &joined),
        "Cluster these 3 entries into 2 groups using kmeans:\n\na\n---\nb\n---\nc\n\nReturn: group labels and a one-sentence summary for each group."
    );
    assert_eq!(trend_line("2024-01-01T00:00:00+00:00", "héllo"), "2024-01-01T00:00:00+00:00|héllo");
    assert_eq!(take_chars("héllo", 2), "hé");
    assert_eq!(trend_prompt("l1\nl2"), "Detect trends:\n\nl1\nl2\n\nIdentify patterns.");
}

#[test]
fn thrashing_history_rolls_back_past_the_repeats() {
    let ms = strings(&["fix", "fix", "fix", "fix", "a", "b", "c"]);
    assert_eq!(thrash_rollback(&ms), Some(4));
    let calm = strings(&["a", "b", "c", "d", "e"]);
    assert_eq!(thrash_rollback(&calm), None);
    let short = strings(&["x", "x", "x"]);
    assert_eq!(thrash_rollback(&short), None);
    // The rollback point lies past the end: the last commit read is named.
    let all_same = strings(&["x", "x", "x", "x"]);
    assert_eq!(thrash_rollback(&all_same), Some(3));
    let ten_same = strings(&["m"; 10]);
    assert_eq!(thrash_rollback(&ten_same), Some(9));
    let twenty_same = strings(&["m"; 20]);
    assert_eq!(thrash_rollback(&twenty_same), Some(10));
}

#[test]
fn causal_pairs_counted_over_windows_of_three() {
    // "a" and "b" alternate: in the windows aba, bab, aba, bab each occurs
    // six times with a later commit and is followed by the other four times.
    let alternating: Vec<Vec<String>> = vec![
        strings(&["a"]),
        strings(&["b"]),
        strings(&["a"]),
        strings(&["b"]),
        strings(&["a"]),
        strings(&["b"]),
    ];
    assert_eq!(
        precedence_pairs(&alternating),
        vec![
            PairPrecedence { cause: "a".into(), effect: "b".into(), count: 4, total: 6 },
            PairPrecedence { cause: "b".into(), effect: "a".into(), count: 4, total: 6 },
        ]
    );
    // "x", "y", "z" repeat in this order: windows xyz, yzx, zxy, xyz. The
    // cause totals are x 5, y 4, z 3; x is followed by z only twice of 5.
    let ordered: Vec<Vec<String>> = vec![
        strings(&["x"]),
        strings(&["y"]),
        strings(&["z"]),
        strings(&["x"]),
        strings(&["y"]),
        strings(&["z"]),
    ];
    assert_eq!(
        precedence_pairs(&ordered),
        vec![
            PairPrecedence { cause: "x".into(), effect: "y".into(), count: 3, total: 5 },
            PairPrecedence { cause: "y".into(), effect: "z".into(), count: 3, total: 4 },
            PairPrecedence { cause: "z".into(), effect: "x".into(), count: 2, total: 3 },
        ]
    );
    assert!(precedence_pairs(&vec![strings(&["a"]), strings(&["b"])]).is_empty());
}

#[test]
fn diagnosis_and_distillation_texts() {
    assert_eq!(heal_line("merge", 2, 0, 1), "merge | adds:2 updates:0 deletes:1");
    let p = heal_prompt("l1\nl2");
    assert!(p.starts_with("Diagnose potential issues in this version history:\n\nl1\nl2\nReturn JSON array of repair actions:\n"));
    let d = distill_prompt("x\n===\ny");
    assert!(d.starts_with("Distill reusable knowledge principles from these experiences:\n\nx\n===\ny\n\nReturn a JSON array of crystals:\n"));
    assert!(d.ends_with("\"confidence\": 0.0-1.0}]\n"));
    assert_eq!(crystal_id(7), "crystal-7");
}

#[test]
fn state_directories_by_scope() {
    assert_eq!(state_dir_uri("a1", StateScope::Short).0, "uwu://default/agent/a1/state/short");
    assert_eq!(state_dir_uri("a1", StateScope::Mid).0, "uwu://default/agent/a1/state/mid");
    assert_eq!(state_dir_uri("a1", StateScope::Long).0, "uwu://default/agent/a1/state/long");
    assert_eq!(snapshot_uri("a1", StateScope::Mid).0, "uwu://default/agent/a1/state/mid/snapshot.json");
}

#[test]
fn state_snapshot_addresses_and_content() {
    assert_eq!(StateSnapshot::dir_uri("a7", StateScope::Mid).0, "uwu://default/agent/a7/state/mid");
    assert_eq!(
        StateSnapshot::snapshot_uri("a7", StateScope::Long).0,
        "uwu://default/agent/a7/state/long/snapshot.json"
    );
    let snap = |seq: u64, hash: &str| StateSnapshot {
        agent_id: "a7".into(),
        scope: StateScope::Short,
        sequence: seq,
        parent_snapshot: None,
        state_hash: hash.into(),
    };
    assert!(snap(1, "00ff").content_eq(&snap(2, "00ff")));
    assert!(!snap(1, "00ff").content_eq(&snap(1, "00fe")));
}
