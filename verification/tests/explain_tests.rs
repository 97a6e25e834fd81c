use chess_ai_rust::explain::{feature_label, feature_templates, phase_feature_index, replace_text};

#[test]
fn test_get_feature_label_uses_template_stripped_of_markup() {
    let label = feature_label(
        Some("Gains a **material advantage** ({:+.0} cp)"),
        "material_diff",
    );
    assert!(!label.contains("**"), "markup should be stripped: {label}");
    assert!(!label.contains("cp)"), "cp placeholder should be gone: {label}");
    assert!(label.contains("material advantage"), "got {label}");
    assert_eq!(label, "Gains a material advantage");
}

#[test]
fn test_get_feature_label_falls_back_to_title_case() {
    // Unknown features become readable rather than raw snake_case.
    assert_eq!(feature_label(None, "rook_on_7th_them"), "Rook On 7th Them");
    assert_eq!(feature_label(None, ""), "");
    assert_eq!(feature_label(None, "__a__b_"), "A B");
}

#[test]
fn test_new_locates_phase_feature() {
    let names = vec![
        "material_diff".to_string(),
        "phase".to_string(),
        "mobility_us".to_string(),
    ];
    assert_eq!(phase_feature_index(&names), 1);
    // Absent "phase" is flagged with -1 rather than defaulting to 0.
    assert_eq!(phase_feature_index(&vec!["material_diff".to_string()]), -1);
    assert_eq!(
        phase_feature_index(&vec!["phase".to_string(), "phase".to_string()]),
        0
    );
}

#[test]
fn test_replace_text_matches_str_replace() {
    for (s, pat, rep) in [
        ("aaaa", "aa", "b"),
        ("**bold** and **more**", "**", ""),
        ("x ({:+.1} cp) y", " ({:+.1} cp)", ""),
        ("nothing", "zz", "y"),
        ("", "a", "b"),
    ] {
        assert_eq!(replace_text(s, pat, rep), s.replace(pat, rep), "{s} / {pat}");
    }
}

#[test]
fn test_feature_templates_table() {
    let table = feature_templates();
    assert_eq!(table.len(), 48);
    assert_eq!(table[0], ("material_diff", "Gains a **material advantage** ({:+.0} cp)"));
    let phase = table.iter().find(|(k, _)| *k == "phase").unwrap();
    assert_eq!(phase.1, "Strategic move appropriate for the current game phase ({:+.0} cp)");
    assert_eq!(feature_label(Some(table[0].1), table[0].0), "Gains a material advantage");
}
