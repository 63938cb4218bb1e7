use plainshare::scaffold::{
    default_description, escape_quotes, is_project_name_valid, render_config,
};

#[test]
fn existing_directory_rejects_the_project_name() {
    let (ok, message) = is_project_name_valid(&"blog".to_string(), true);
    assert!(!ok);
    assert_eq!(message, "🙅 Project directory already exists. Aborting.");
}

#[test]
fn fresh_directory_accepts_the_project_name() {
    let (ok, message) = is_project_name_valid(&"blog".to_string(), false);
    assert!(ok);
    assert_eq!(message, "");
}

#[test]
fn double_quotes_are_escaped() {
    assert_eq!(escape_quotes("a \"quoted\" word"), "a \\\"quoted\\\" word");
    assert_eq!(escape_quotes("no quotes"), "no quotes");
    assert_eq!(escape_quotes(""), "");
    assert_eq!(escape_quotes("\"\""), "\\\"\\\"");
}

#[test]
fn empty_description_falls_back_to_the_default() {
    assert_eq!(default_description(String::new()), "A PlainShare project");
    assert_eq!(default_description("mine".to_string()), "mine");
}

#[test]
fn config_file_text_is_rendered_exactly() {
    let text = render_config("blog", "My blog");
    assert_eq!(
        text,
        "\nname = \"blog\"\ndescription = \"My blog\"\nbuild_target = \"build\"\n",
    );
}
