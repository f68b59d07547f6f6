use tfr::Template;
use tfr::TemplateError;

#[test]
fn test_simple() {
    let template = Template::new("word").unwrap();
    assert_eq!(template.captures("word"), Some(vec![]));
    assert_eq!(template.captures("not_word"), None);
    assert_eq!(template.captures("word_not"), None);
}

#[test]
fn test_incorrect_template() {
    assert_eq!(
        Template::new("/path/to/*/*.png").err().unwrap(),
        TemplateError::AsteriskInDirectory
    );
    assert_eq!(
        Template::new("/path/to/**.png").err().unwrap(),
        TemplateError::DoubleAsterisk
    );
}

#[test]
fn escaped_asterisk() {
    let template = Template::new(r#"asterisk\*asterisk"#).unwrap();
    assert_eq!(template.captures("asterisk*asterisk"), Some(vec![]));
    assert_eq!(template.captures("asterisk_asterisk"), None);
}

#[test]
fn test_correct_templates() {
    assert_eq!(
        Template::new("/path/to/*.png")
            .unwrap()
            .captures("/path/to/image.png"),
        Some(vec!["image".to_string()])
    );

    let template = Template::new("path/to/some_*_filename.*").unwrap();
    assert_eq!(
        template.captures("path/to/some_A_filename.bin"),
        Some(vec!["A".to_string(), "bin".to_string()])
    );
    assert_eq!(
        template.captures("path/to/some_A_filename.jpg"),
        Some(vec!["A".to_string(), "jpg".to_string()])
    );
    assert_eq!(
        template.captures("path/to/some_B_filename.bin"),
        Some(vec!["B".to_string(), "bin".to_string()])
    );
    assert_eq!(
        template.captures("path/to/some_B_filename.jpg"),
        Some(vec!["B".to_string(), "jpg".to_string()])
    );
    assert_eq!(
        template.captures("path/to/some__filename.jpg"),
        Some(vec!["".to_string(), "jpg".to_string()])
    );
    assert_eq!(template.captures("path/to/some_filename.jpg"), None);
}

#[test]
fn match_is_deterministic() {
    let template = Template::new("a_*_b_*.*").unwrap();
    let first = template.captures("a_X_b_Y.txt");
    let second = template.captures("a_X_b_Y.txt");
    assert_eq!(first, second);
    assert_eq!(
        first,
        Some(vec!["X".to_string(), "Y".to_string(), "txt".to_string()])
    );
}

#[test]
fn greedy_capture_takes_longest_run() {
    let template = Template::new("*.*").unwrap();
    assert_eq!(
        template.captures("a.b.c"),
        Some(vec!["a.b".to_string(), "c".to_string()])
    );
}

#[test]
fn capture_never_crosses_separator() {
    let template = Template::new("dir/*.txt").unwrap();
    assert_eq!(template.captures("dir/sub/file.txt"), None);
    assert_eq!(
        template.captures("dir/file.txt"),
        Some(vec!["file".to_string()])
    );
}

#[test]
fn escaped_asterisk_in_directory_is_legal() {
    let template = Template::new(r#"pre\*fix/name_*.rs"#).unwrap();
    assert_eq!(
        template.captures("pre*fix/name_one.rs"),
        Some(vec!["one".to_string()])
    );
}

#[test]
fn double_asterisk_checked_after_directory_check() {
    assert_eq!(
        Template::new("a/**/b.png").err().unwrap(),
        TemplateError::AsteriskInDirectory
    );
    assert_eq!(
        Template::new("a/b**.png").err().unwrap(),
        TemplateError::DoubleAsterisk
    );
}

#[test]
fn empty_capture_allowed() {
    let template = Template::new("*x").unwrap();
    assert_eq!(template.captures("x"), Some(vec!["".to_string()]));
    assert_eq!(template.captures("yx"), Some(vec!["y".to_string()]));
}
