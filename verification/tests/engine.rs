use bundle_extractor::classify::{classify_class, classify_entry, parse_type_tag, type_tag, unsupported_label,
    AssetMetadata, AssetType, CLASS_ID_SPRITE, CLASS_ID_TEXTURE2D, CLASS_ID_TEXT_ASSET};
use bundle_extractor::driver::{decide_archive, plan_item_actions, ArchiveDecision};
use bundle_extractor::rules::{apply_rule, item_output_paths, make_context, validate_rules,
    PlaceholderContext, Rule};

fn text_rule(template: &str, pattern: &str, replacement: &str) -> Rule {
    Rule {
        asset_type: AssetType::TextAsset,
        template: String::from(template),
        match_pattern: String::from(pattern),
        replacement: String::from(replacement),
    }
}

fn readme_ctx() -> PlaceholderContext {
    make_context(
        String::from("readme"),
        String::from("docs"),
        0,
        String::from("a.bundle"),
    )
}

#[test]
fn classify_known_classes() {
    assert_eq!(classify_class(CLASS_ID_SPRITE), Some(AssetType::Sprite));
    assert_eq!(classify_class(CLASS_ID_TEXTURE2D), Some(AssetType::Texture2D));
    assert_eq!(classify_class(CLASS_ID_TEXT_ASSET), Some(AssetType::TextAsset));
    assert_eq!(classify_class(142), None);
    assert_eq!(classify_class(-1), None);
}

#[test]
fn type_tags_round_trip() {
    for t in [AssetType::Sprite, AssetType::Texture2D, AssetType::TextAsset] {
        assert_eq!(parse_type_tag(type_tag(t)), Some(t));
    }
    assert_eq!(type_tag(AssetType::Sprite), "sprite");
    assert_eq!(type_tag(AssetType::Texture2D), "texture2d");
    assert_eq!(type_tag(AssetType::TextAsset), "text");
    assert_eq!(parse_type_tag("mesh"), None);
}

#[test]
fn unsupported_label_marks_class() {
    assert_eq!(unsupported_label("AssetBundle"), "AssetBundle (unsupported)");
    let m = AssetMetadata::Unsupported(unsupported_label("Shader"));
    assert!(!m.is_supported());
    assert_eq!(m.type_label(), "Shader (unsupported)");
    assert_eq!(m.display_name(), "");
}

#[test]
fn supported_metadata_carries_name() {
    let m = AssetMetadata::Supported(AssetType::TextAsset, String::from("readme"));
    assert!(m.is_supported());
    assert_eq!(m.type_label(), "text");
    assert_eq!(m.display_name(), "readme");
}

#[test]
fn classify_entry_assembles_the_verdict() {
    let m = classify_entry(CLASS_ID_TEXT_ASSET, "TextAsset", String::from("readme"));
    assert!(m.is_supported());
    assert_eq!(m.type_label(), "text");
    assert_eq!(m.display_name(), "readme");
    let u = classify_entry(142, "AssetBundle", String::new());
    assert!(!u.is_supported());
    assert_eq!(u.type_label(), "AssetBundle (unsupported)");
}

#[test]
fn scenario_single_text_rule() {
    // one text item named "readme" in container "docs", one rule: the
    // rendered template passes the match and lands under the destination root
    let rule = text_rule("{container}/{name}.txt", "^(.+)$", "$1");
    let ctx = readme_ctx();
    let path = apply_rule(&rule, AssetType::TextAsset, &ctx, "out");
    assert_eq!(path.as_deref(), Some("out/docs/readme.txt"));
}

#[test]
fn rule_fan_out_two_templates() {
    let rules = vec![
        text_rule("{container}/{name}.txt", "^(.+)$", "$1"),
        text_rule("flat/{name}-{index}.txt", "^(.+)$", "$1"),
    ];
    assert_eq!(validate_rules(&rules), None);
    let ctx = readme_ctx();
    let paths = item_output_paths(&rules, AssetType::TextAsset, &ctx, "out");
    assert_eq!(
        paths,
        vec![
            String::from("out/docs/readme.txt"),
            String::from("out/flat/readme-0.txt"),
        ]
    );
}

#[test]
fn unmatched_pattern_is_silently_skipped() {
    let rules = vec![
        text_rule("{container}/{name}.txt", "^never-.*$", "$0"),
        text_rule("{container}/{name}.txt", "^(.+)$", "$1"),
    ];
    let ctx = readme_ctx();
    let paths = item_output_paths(&rules, AssetType::TextAsset, &ctx, "out");
    assert_eq!(paths, vec![String::from("out/docs/readme.txt")]);
}

#[test]
fn type_mismatch_yields_nothing() {
    let rule = text_rule("{name}", "^(.+)$", "$1");
    let ctx = readme_ctx();
    assert_eq!(apply_rule(&rule, AssetType::Sprite, &ctx, "out"), None);
}

#[test]
fn undefined_placeholder_renders_without_failing() {
    // a placeholder the context does not define stays in the rendered text
    let rule = text_rule("{container}/{missing}", "^(.+)$", "$1");
    let ctx = readme_ctx();
    let path = apply_rule(&rule, AssetType::TextAsset, &ctx, "out");
    assert_eq!(path.as_deref(), Some("out/docs/{missing}"));
}

#[test]
fn replacement_uses_capture_groups() {
    let rule = text_rule("{container}/{name}", "^docs/(.*)$", "renamed/$1.txt");
    let ctx = readme_ctx();
    let path = apply_rule(&rule, AssetType::TextAsset, &ctx, "out");
    assert_eq!(path.as_deref(), Some("out/renamed/readme.txt"));
}

#[test]
fn invalid_pattern_is_reported_with_its_position() {
    let rules = vec![
        text_rule("{name}", "^(.+)$", "$1"),
        text_rule("{name}", "(", "$1"),
    ];
    assert_eq!(validate_rules(&rules), Some(1));
}

#[test]
fn context_stringifies_the_ordinal() {
    let ctx = make_context(String::from("n"), String::new(), 42, String::from("b"));
    assert_eq!(ctx.index, "42");
    let ctx0 = make_context(String::from("n"), String::new(), 0, String::from("b"));
    assert_eq!(ctx0.index, "0");
}

#[test]
fn stop_request_wins_over_everything() {
    let recorded = vec![String::from("a.bundle")];
    let (d, norm) = decide_archive(true, &recorded, "b.bundle");
    assert_eq!(d, ArchiveDecision::Interrupted);
    assert_eq!(norm, "b.bundle");
}

#[test]
fn second_run_skips_every_recorded_archive() {
    // the idempotence scenario: after a completed run the store holds every
    // normalized input path, and each decision on a rerun is a skip
    let recorded = vec![String::from("data/a.bundle"), String::from("data/b.bundle")];
    for raw in ["data/a.bundle", "data\\b.bundle"] {
        let (d, _) = decide_archive(false, &recorded, raw);
        assert_eq!(d, ArchiveDecision::Skip);
    }
    let (d, _) = decide_archive(false, &recorded, "data/c.bundle");
    assert_eq!(d, ArchiveDecision::Process);
}

#[test]
fn dry_run_plans_no_extraction() {
    let paths = vec![String::from("out/a.txt"), String::from("out/b.txt")];
    let plan = plan_item_actions(true, &paths);
    assert_eq!(plan.len(), 2);
    for (po, p) in plan.iter().zip(paths.iter()) {
        assert_eq!(&po.path, p);
        assert!(!po.extract);
    }
    let wet = plan_item_actions(false, &paths);
    assert!(wet.iter().all(|po| po.extract));
}
