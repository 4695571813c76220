use timetracker::export::{
    export_document, extract_project_name_from_key, generate_filename_from_template,
    replace_all_in,
};
use timetracker::kv::WireValue;
use timetracker::logger::Logger;

#[test]
fn project_name_from_keys() {
    assert_eq!(extract_project_name_from_key("projects/TypeRoof"), "TypeRoof");
    assert_eq!(extract_project_name_from_key("projects"), "all_projects");
    assert_eq!(extract_project_name_from_key("projects/"), "general");
    assert_eq!(extract_project_name_from_key("settings"), "general");
}

#[test]
fn filename_from_default_template() {
    assert_eq!(
        generate_filename_from_template("{timestamp}_{key-name}.json", "projects/abc", "20240101_120000"),
        "20240101_120000_projects_abc.json"
    );
}

#[test]
fn filename_with_project_name() {
    assert_eq!(
        generate_filename_from_template("{project-name}-{project-name}.json", "projects", "t"),
        "all_projects-all_projects.json"
    );
}

#[test]
fn replace_scans_left_to_right() {
    assert_eq!(replace_all_in("aaa", "aa", "b"), "ba");
    assert_eq!(replace_all_in("abc", "", "x"), "abc");
    assert_eq!(replace_all_in("a/b/c", "/", "_"), "a_b_c");
}

#[test]
fn export_documents() {
    assert_eq!(export_document(&WireValue::Text("[1]".to_string())), "[1]");
    assert_eq!(export_document(&WireValue::Text("plain".to_string())), "\"plain\"");
    assert_eq!(export_document(&WireValue::Json("5".to_string())), "{}");
}

#[test]
fn log_paths() {
    let dev = Logger::new("/work", true, Some("/home/u"));
    assert_eq!(dev.get_current_log_path(), "/work/timetracker.log");
    let prod = Logger::new("/work", false, Some("/home/u/"));
    assert_eq!(prod.get_current_log_path(), "/home/u/.timetracker.log");
    let no_home = Logger::new("/work", false, None);
    assert_eq!(no_home.get_current_log_path(), "/work/timetracker.log");
}

#[test]
fn log_line_format() {
    assert_eq!(
        Logger::entry_line("2024-01-01 00:00:00 UTC", "Added project"),
        "[2024-01-01 00:00:00 UTC] Added project\n"
    );
}
