use insights::report::Paint;
use insights::setup::{
    answer_exec, eq_ignore_ascii_case_exec, from_answer, is_yes, merge_rule, print_summary, rule,
    rule_catalogue, rule_destinations, shell_rcs, shell_shim, shellexpand_tilde, strip_frontmatter,
};
use insights::wizard::{build_steps, next_step, StepKind};

fn pairs(items: &[(&str, &str)]) -> Vec<(String, String)> {
    items.iter().map(|(a, b)| (a.to_string(), b.to_string())).collect()
}

fn home() -> Option<String> {
    Some("/home/me".to_string())
}

#[test]
fn strip_frontmatter_drops_the_leading_block() {
    assert_eq!(strip_frontmatter("---\ndescription: x\nglobs: *\n---\n\n# Insights CLI\nUse it.\n"), "# Insights CLI\nUse it.");
    assert_eq!(strip_frontmatter("# No frontmatter\n"), "# No frontmatter\n");
    assert_eq!(strip_frontmatter("---\nnever closed\n"), "");
}

#[test]
fn rules_keep_frontmatter_only_for_mdc_files() {
    let template = "---\nalwaysApply: true\n---\n# Insights CLI\nbody";
    let mdc = rule("/home/me/.cursor/rules/use-insights.mdc", template, "shared.md");
    assert_eq!(mdc.content, template);
    assert!(!mdc.joins);

    let shared = rule("/home/me/notes/SHARED.md", template, "shared.MD");
    assert_eq!(shared.content, "# Insights CLI\nbody");
    assert!(shared.joins);

    let plain = rule("/repo/.windsurf/rules/use-insights.md", template, "shared.md");
    assert_eq!(plain.content, "# Insights CLI\nbody");
    assert!(!plain.joins);
}

#[test]
fn merge_rule_appends_once() {
    assert_eq!(merge_rule("# Mine\nstuff", "# Insights CLI\nbody"), Some("# Mine\nstuff\n\n# Insights CLI\nbody\n".to_string()));
    assert_eq!(merge_rule("x\n# Insights CLI\nbody\n", "# Insights CLI\nbody"), None);
    assert_eq!(merge_rule("", "# Insights CLI"), Some("\n\n# Insights CLI\n".to_string()));
}

#[test]
fn shell_shim_appends_once() {
    let shim = "[ -f ~/.config/insights/init.sh ] && . ~/.config/insights/init.sh";
    assert_eq!(shell_shim("export A=1\n", shim), Some(format!("export A=1\n\n{shim}\n")));
    assert_eq!(shell_shim(&format!("x\n{shim}\n"), shim), None);
}

#[test]
fn answers_and_paths() {
    let answers = pairs(&[("INSTALL_RULE", "Yes"), ("RULE_PATH", "~/rules/x.md"), ("SHIM_PATH", ""), ("INSTALL_SHIM", "n")]);
    assert_eq!(answer_exec(&answers, "RULE_PATH").as_deref(), Some("~/rules/x.md"));
    assert!(is_yes(&answers, "INSTALL_RULE"));
    assert!(!is_yes(&answers, "INSTALL_SHIM"));
    assert!(is_yes(&answers, "INSTALL_SYNC"));
    assert_eq!(from_answer(&answers, "RULE_PATH", &home()).as_deref(), Some("/home/me/rules/x.md"));
    assert_eq!(from_answer(&answers, "SHIM_PATH", &home()), None);
    assert_eq!(from_answer(&answers, "MISSING", &home()), None);
    assert_eq!(shellexpand_tilde("/etc/x", &home()), "/etc/x");
    assert_eq!(shellexpand_tilde("~/x", &None), "~/x");
    assert!(eq_ignore_ascii_case_exec("Shared.MD", "SHARED.md"));
    assert!(!eq_ignore_ascii_case_exec("SHARED.mdx", "SHARED.md"));
}

#[test]
fn destinations_follow_what_was_found() {
    let catalogue = rule_catalogue();
    assert_eq!(
        catalogue,
        pairs(&[
            ("Cursor (global)", "~/.cursor/rules/use-insights.mdc"),
            ("Cursor (project)", ".cursor/rules/use-insights.mdc"),
            ("Windsurf (project)", ".windsurf/rules/use-insights.md"),
            ("Zed", ".zed/rules"),
        ])
    );
    assert_eq!(
        rule_destinations(true, &[false, true, false, true]),
        pairs(&[("Cursor (project)", ".cursor/rules/use-insights.mdc"), ("Zed", ".zed/rules")])
    );
    assert_eq!(rule_destinations(true, &[true; 4]), catalogue);
    assert!(rule_destinations(false, &[true; 4]).is_empty());
    assert_eq!(shell_rcs(true, true, true), pairs(&[("~/.zshrc", "~/.zshrc"), ("~/.bashrc", "~/.bashrc")]));
    assert_eq!(shell_rcs(true, false, true), pairs(&[("~/.bashrc", "~/.bashrc")]));
    assert!(shell_rcs(false, true, true).is_empty());
}

#[test]
fn the_steps_of_the_setup() {
    let rcs = pairs(&[("~/.zshrc", "~/.zshrc")]);
    let steps = build_steps(&rcs, &[]);
    assert_eq!(steps.len(), 9);
    assert_eq!(steps[0].kind, StepKind::Dialog);
    assert_eq!(steps[1].id.as_deref(), Some("rule-confirm"));
    assert_eq!(steps[2].options, pairs(&[("Other", "other")]));
    assert_eq!(steps[5].options, pairs(&[("~/.zshrc", "~/.zshrc"), ("Other", "other")]));
    assert_eq!(steps[8].key, "SYNC_REMOTE");
}

#[test]
fn the_setup_walks_its_questions() {
    let steps = build_steps(&pairs(&[("~/.zshrc", "~/.zshrc")]), &pairs(&[("Zed", ".zed/rules")]));
    let mut answers: Vec<(String, String)> = Vec::new();

    assert_eq!(next_step(&steps, 0, &answers, true), Some(1));
    answers.push(("INSTALL_RULE".to_string(), "yes".to_string()));
    assert_eq!(next_step(&steps, 1, &answers, true), Some(2));
    assert_eq!(next_step(&steps, 1, &answers, false), Some(3));
    answers.push(("RULE_PATH".to_string(), "other".to_string()));
    assert_eq!(next_step(&steps, 2, &answers, true), Some(3));
    assert_eq!(next_step(&steps, 3, &answers, true), Some(4));
    answers.push(("INSTALL_SHIM".to_string(), "no".to_string()));
    assert_eq!(next_step(&steps, 4, &answers, true), Some(7));
    answers.push(("INSTALL_SYNC".to_string(), "y".to_string()));
    assert_eq!(next_step(&steps, 7, &answers, true), Some(8));
    assert_eq!(next_step(&steps, 8, &answers, true), None);

    let declined = pairs(&[("INSTALL_RULE", "no"), ("INSTALL_SHIM", "yes"), ("SHIM_PATH", "~/.zshrc"), ("INSTALL_SYNC", "no")]);
    assert_eq!(next_step(&steps, 1, &declined, true), Some(4));
    assert_eq!(next_step(&steps, 4, &declined, true), Some(5));
    assert_eq!(next_step(&steps, 5, &declined, true), Some(7));
    let other = pairs(&[("INSTALL_SHIM", "yes"), ("SHIM_PATH", "other")]);
    assert_eq!(next_step(&steps, 5, &other, true), Some(6));
    assert_eq!(next_step(&steps, 6, &other, true), Some(7));
    assert_eq!(next_step(&steps, 7, &declined, true), None);
}

#[test]
fn the_summary_names_what_was_installed() {
    let lines = print_summary(&Some("/r.md".to_string()), &None);
    let texts: Vec<String> = lines.iter().map(|l| l.iter().map(|p| p.text.clone()).collect::<String>()).collect();
    assert_eq!(
        texts,
        vec![
            "".to_string(),
            "Setup complete!".to_string(),
            "".to_string(),
            "  \u{2713} Rule: /r.md".to_string(),
            "".to_string(),
            "Hints:".to_string(),
            "  \u{2022} Re-run `insights setup` to regenerate with latest defaults.".to_string(),
        ]
    );
    assert_eq!(lines[1][0].paint, Paint::GreenBold);

    let nothing = print_summary(&None, &None);
    assert_eq!(nothing[3][0].text, "  No changes made.");
}
