use tfr::apply_policy;
use tfr::apply_template;
use tfr::is_rename_template_correct;
use tfr::ActionWhenRenamedFilePathExists;
use tfr::PathStatus;
use tfr::TemplateFileRenamer;
use tfr::TfrError;

fn strings(values: &[&str]) -> Vec<String> {
    values.iter().map(|v| v.to_string()).collect()
}

fn pairs(values: &[(&str, &str)]) -> Vec<(String, String)> {
    values
        .iter()
        .map(|(a, b)| (a.to_string(), b.to_string()))
        .collect()
}

#[test]
fn validator_accepts_full_coverage() {
    assert!(is_rename_template_correct("*.*", "img_#1.#2"));
    assert!(is_rename_template_correct("a_*_b_*.*", "#2_#1.#3"));
    assert!(is_rename_template_correct("no_wildcards.txt", "anything"));
}

#[test]
fn validator_rejects_uncovered_wildcard() {
    assert!(!is_rename_template_correct("*.*", "img_#1"));
    assert!(!is_rename_template_correct("*", ""));
    assert!(!is_rename_template_correct("*", "#0"));
}

#[test]
fn validator_ignores_extra_and_out_of_range_references() {
    assert!(is_rename_template_correct("*", "#1 #1 #5 #0"));
    assert!(!is_rename_template_correct("*.*", "#1 #1 #5 #0"));
}

#[test]
fn validator_does_not_count_escaped_markers() {
    assert!(is_rename_template_correct(r#"a\*b_*"#, "#1"));
}

#[test]
fn scenario_single_match_resolves() {
    let plan = apply_template("*.*", "img_#1.#2", &strings(&["photo.png"])).unwrap();
    assert_eq!(plan, pairs(&[("photo.png", "img_photo.png")]));
}

#[test]
fn scenario_reordered_references() {
    let plan = apply_template("a_*_b_*.*", "#2_#1.#3", &strings(&["a_X_b_Y.txt"])).unwrap();
    assert_eq!(plan, pairs(&[("a_X_b_Y.txt", "Y_X.txt")]));
}

#[test]
fn scenario_uncovered_wildcard_fails_before_files() {
    let result = apply_template("a_*_*.txt", "#1.txt", &strings(&["a_b_c.txt"]));
    assert!(matches!(result, Err(TfrError::IncorrectOutputTemplate(_))));
}

#[test]
fn bad_input_template_reported_after_output_check() {
    let result = apply_template("in/*/dir.txt", "#1", &strings(&[]));
    assert!(matches!(result, Err(TfrError::IncorrectInputTemplate(_))));
    let result = apply_template("in/a**.txt", "#1 #2", &strings(&[]));
    assert!(matches!(result, Err(TfrError::IncorrectInputTemplate(_))));
}

#[test]
fn non_matching_candidates_are_silently_excluded() {
    let plan = apply_template(
        "*.png",
        "img_#1.png",
        &strings(&["a.png", "b.txt", "c.png"]),
    )
    .unwrap();
    assert_eq!(
        plan,
        pairs(&[("a.png", "img_a.png"), ("c.png", "img_c.png")])
    );
}

#[test]
fn scenario_terminate_on_existing_file_voids_batch() {
    let planned = pairs(&[("a.png", "x.png"), ("b.png", "y.png")]);
    let statuses = vec![PathStatus::File, PathStatus::Missing];
    let result = apply_policy(
        &planned,
        &statuses,
        &ActionWhenRenamedFilePathExists::Terminate,
    );
    match result {
        Err(TfrError::ExistingPath(path, is_file)) => {
            assert_eq!(path, "x.png");
            assert!(is_file);
        }
        _ => panic!("expected an existing-path failure"),
    }
}

#[test]
fn scenario_skip_drops_only_existing_file() {
    let planned = pairs(&[("a.png", "x.png"), ("b.png", "y.png"), ("c.png", "z.png")]);
    let statuses = vec![PathStatus::Missing, PathStatus::File, PathStatus::Missing];
    let plan = apply_policy(&planned, &statuses, &ActionWhenRenamedFilePathExists::Skip).unwrap();
    assert_eq!(plan, pairs(&[("a.png", "x.png"), ("c.png", "z.png")]));
}

#[test]
fn scenario_overwrite_keeps_existing_file_pair() {
    let planned = pairs(&[("a.png", "x.png"), ("b.png", "y.png")]);
    let statuses = vec![PathStatus::File, PathStatus::Missing];
    let plan = apply_policy(
        &planned,
        &statuses,
        &ActionWhenRenamedFilePathExists::Overwrite,
    )
    .unwrap();
    assert_eq!(plan, pairs(&[("a.png", "x.png"), ("b.png", "y.png")]));
}

#[test]
fn scenario_directory_is_fatal_under_every_policy() {
    let planned = pairs(&[("a.png", "x.png")]);
    let statuses = vec![PathStatus::Other];
    for mode in [
        ActionWhenRenamedFilePathExists::Terminate,
        ActionWhenRenamedFilePathExists::Skip,
        ActionWhenRenamedFilePathExists::Overwrite,
    ] {
        match apply_policy(&planned, &statuses, &mode) {
            Err(TfrError::ExistingPath(path, is_file)) => {
                assert_eq!(path, "x.png");
                assert!(!is_file);
            }
            _ => panic!("expected an existing-path failure"),
        }
    }
}

#[test]
fn first_conflict_is_reported() {
    let planned = pairs(&[("a", "x"), ("b", "y"), ("c", "z")]);
    let statuses = vec![PathStatus::Missing, PathStatus::File, PathStatus::Other];
    match apply_policy(
        &planned,
        &statuses,
        &ActionWhenRenamedFilePathExists::Terminate,
    ) {
        Err(TfrError::ExistingPath(path, is_file)) => {
            assert_eq!(path, "y");
            assert!(is_file);
        }
        _ => panic!("expected an existing-path failure"),
    }
}

#[test]
fn empty_batch_gives_empty_plan() {
    let plan = apply_template("*.png", "#1.png", &strings(&[])).unwrap();
    assert_eq!(plan, pairs(&[]));
    let decided = apply_policy(
        &plan,
        &Vec::new(),
        &ActionWhenRenamedFilePathExists::Terminate,
    )
    .unwrap();
    assert_eq!(decided, pairs(&[]));
}

#[test]
fn renamer_holds_its_policy() {
    let renamer = TemplateFileRenamer::new(ActionWhenRenamedFilePathExists::Skip);
    assert_eq!(renamer.rename_mod, ActionWhenRenamedFilePathExists::Skip);
    let by_default = TemplateFileRenamer::default();
    assert_eq!(
        by_default.rename_mod,
        ActionWhenRenamedFilePathExists::Terminate
    );
}
