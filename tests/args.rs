use md2cb::args::parse_args;

#[test]
fn test_parse_args_help() {
    let args = vec!["--help".to_string()];
    let config = parse_args(&args).unwrap();
    assert!(config.show_help);
}

#[test]
fn test_parse_args_version() {
    let args = vec!["-V".to_string()];
    let config = parse_args(&args).unwrap();
    assert!(config.show_version);
}

#[test]
fn test_parse_args_edit() {
    let args = vec!["--edit".to_string()];
    let config = parse_args(&args).unwrap();
    assert!(config.edit_mode);
}

#[test]
fn test_parse_args_file() {
    let args = vec!["readme.md".to_string()];
    let config = parse_args(&args).unwrap();
    assert_eq!(config.input_file.as_deref(), Some("readme.md"));
}

#[test]
fn test_parse_args_file_and_edit() {
    let args = vec!["-e".to_string(), "readme.md".to_string()];
    let config = parse_args(&args).unwrap();
    assert!(config.edit_mode);
    assert_eq!(config.input_file.as_deref(), Some("readme.md"));
}

#[test]
fn test_parse_args_unknown_option() {
    let args = vec!["--foo".to_string()];
    let err = parse_args(&args).unwrap_err();
    assert!(err.contains("unknown option"));
}

#[test]
fn test_parse_args_too_many_args() {
    let args = vec!["file1".to_string(), "file2".to_string()];
    let err = parse_args(&args).unwrap_err();
    assert!(err.contains("too many arguments"));
}

#[test]
fn parse_args_messages_exact() {
    let err = parse_args(&vec!["-x".to_string()]).unwrap_err();
    assert_eq!(err, "unknown option '-x'");
    let cfg = parse_args(&vec![]).unwrap();
    assert!(cfg.input_file.is_none() && !cfg.edit_mode && !cfg.show_help && !cfg.show_version);
}
