use mii::analysis::{analyze, analyze_bins, extract_lmod_paths, module_dirs, parse_dir_span};
use mii::crawl::{classify, ModuleType};

#[test]
fn single_prepend_path_statement() {
    let text = "prepend_path(\"PATH\",\"/opt/foo/bin\")\n";
    assert_eq!(extract_lmod_paths(text), vec!["/opt/foo/bin".to_string()]);
}

#[test]
fn statements_in_file_order_with_blanks() {
    let text = "-- gcc\n  prepend_path ( \"PATH\" , \"/opt/gcc/bin\" )  \nsetenv(\"CC\",\"gcc\")\n\tprepend_path(\"PATH\", \"/opt/gcc/extra\", \":\")\r\n";
    assert_eq!(
        extract_lmod_paths(text),
        vec!["/opt/gcc/bin".to_string(), "/opt/gcc/extra".to_string()]
    );
}

#[test]
fn non_matching_lines_give_nothing() {
    assert!(extract_lmod_paths("").is_empty());
    assert!(extract_lmod_paths("prepend_path(\"MANPATH\",\"/opt/foo/man\")").is_empty());
    assert!(extract_lmod_paths("prepend_path(\"PATH\",\"\")").is_empty());
    assert!(extract_lmod_paths("prepend_path(\"PATH\",\"/x\") -- note").is_empty());
    assert!(extract_lmod_paths("x prepend_path(\"PATH\",\"/x\")").is_empty());
    assert!(extract_lmod_paths("prepend_path(\"PATH\",\"/x\",\";\")").is_empty());
}

#[test]
fn last_line_without_newline_counts() {
    assert_eq!(extract_lmod_paths("a\nprepend_path(\"PATH\",\"/y\")"), vec!["/y".to_string()]);
}

#[test]
fn dir_span_positions() {
    let line: Vec<char> = "prepend_path(\"PATH\",\"/ab\")".chars().collect();
    assert_eq!(parse_dir_span(&line), Some((21, 24)));
}

#[test]
fn tcl_module_has_no_dirs() {
    assert!(module_dirs("prepend_path(\"PATH\",\"/opt/foo/bin\")", ModuleType::TCL).is_empty());
    assert_eq!(
        module_dirs("prepend_path(\"PATH\",\"/opt/foo/bin\")", ModuleType::LMOD),
        vec!["/opt/foo/bin".to_string()]
    );
}

#[test]
fn bins_follow_directory_order() {
    let listings = vec![
        vec!["foo".to_string()],
        vec![],
        vec!["bar".to_string(), "baz".to_string()],
    ];
    assert_eq!(
        analyze_bins(&listings),
        vec!["foo".to_string(), "bar".to_string(), "baz".to_string()]
    );
}

#[test]
fn tcl_analysis_is_empty() {
    let m = classify("/m/bar/2.0", "bar/2.0");
    let info = analyze(m, &vec![]);
    assert_eq!(info.file.code, "bar/2.0");
    assert_eq!(info.file.modtype, ModuleType::TCL);
    assert!(info.bins.is_empty());
}
