use addrkit::cli::run;

fn args(parts: &[&str]) -> Vec<String> {
    parts.iter().map(|s| s.to_string()).collect()
}

#[test]
fn run_formats_from_flags() {
    let output = run(args(&[
        "format",
        "--recipient",
        "Jane Doe",
        "--street1",
        "123 Main St",
        "--city",
        "Springfield",
        "--region",
        "IL",
        "--postal",
        "62704",
    ]))
    .unwrap();
    assert_eq!(output, "Jane Doe\n123 Main St\nSpringfield, IL 62704");
}

#[test]
fn run_parses_freeform_text_into_a_formatted_block() {
    let output = run(args(&[
        "parse",
        "Jane Doe, 123 Main St, Springfield, IL 62704",
    ]))
    .unwrap();
    assert_eq!(output, "Jane Doe\n123 Main St\nSpringfield, IL 62704");
}

#[test]
fn run_parse_without_text_is_an_error() {
    assert!(run(args(&["parse"])).is_err());
}

#[test]
fn run_rejects_unknown_command() {
    assert!(run(args(&["bogus"])).is_err());
}
