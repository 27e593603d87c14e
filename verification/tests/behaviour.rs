use addrkit::cli::{parse_address, run, usage};
use addrkit::{
    format_address, format_international_address, format_us_address, normalize_us_postal_code,
    normalize_us_region, normalize_whitespace, parse_us_address, validate, Address,
    ValidationIssue,
};

fn springfield() -> Address {
    Address {
        recipient: "Jane Doe".to_string(),
        street1: "123 Main St".to_string(),
        street2: "Apt 4B".to_string(),
        city: "Springfield".to_string(),
        region: "IL".to_string(),
        postal_code: "62704".to_string(),
        country: "".to_string(),
    }
}

fn downing_street() -> Address {
    Address {
        street1: "10 Downing Street".to_string(),
        city: "London".to_string(),
        postal_code: "SW1A 2AA".to_string(),
        country: "United Kingdom".to_string(),
        ..Address::default()
    }
}

fn args(parts: &[&str]) -> Vec<String> {
    parts.iter().map(|s| s.to_string()).collect()
}

#[test]
fn normalize_whitespace_handles_unicode_whitespace() {
    assert_eq!(normalize_whitespace("\u{3000}a\u{a0}\u{a0}b\u{2028}c\u{85}"), "a b c");
    assert_eq!(normalize_whitespace(" \t\n "), "");
    assert_eq!(normalize_whitespace("x"), "x");
}

#[test]
fn normalize_whitespace_is_idempotent() {
    for s in ["  a   b\tc\n", "", " \u{2003}Jane \u{a0} Doe  ", "abc"] {
        let once = normalize_whitespace(s);
        assert_eq!(normalize_whitespace(&once), once);
    }
}

#[test]
fn normalize_whitespace_leaves_single_spaces_between_words() {
    let out = normalize_whitespace("\t a \n\n b  c \u{3000}");
    assert!(!out.starts_with(' ') && !out.ends_with(' '));
    assert!(!out.contains("  "));
    assert!(out.chars().all(|c| c == ' ' || !c.is_whitespace()));
}

#[test]
fn normalize_us_postal_code_formats_nine_digits() {
    assert_eq!(normalize_us_postal_code("123456789"), Some("12345-6789".to_string()));
    assert_eq!(normalize_us_postal_code("ZIP 6 2 7 0 4"), Some("62704".to_string()));
    assert_eq!(normalize_us_postal_code("1234567890"), None);
    assert_eq!(normalize_us_postal_code("abc"), None);
}

#[test]
fn normalize_us_postal_code_is_idempotent() {
    for s in ["62704", "62704 - 1234", "627041234", " 6-2-7-0-4 "] {
        let once = normalize_us_postal_code(s).unwrap();
        assert_eq!(normalize_us_postal_code(&once), Some(once.clone()));
    }
}

#[test]
fn normalize_us_region_is_idempotent() {
    for s in ["illinois", "Il", "  new   york ", "U.S. Virgin Islands", "wy"] {
        let once = normalize_us_region(s).unwrap();
        assert_eq!(once.len(), 2);
        assert_eq!(normalize_us_region(&once), Some(once.clone()));
    }
}

#[test]
fn normalize_us_region_uses_unicode_upper_casing() {
    // U+0131 (dotless i) upper-cases to 'I', so this spells ILLINOIS.
    assert_eq!(normalize_us_region("\u{131}llinois"), Some("IL".to_string()));
    assert_eq!(normalize_us_region("Illinoiz"), None);
    // A two-character input is only looked up among the codes.
    assert_eq!(normalize_us_region("I L"), None);
}

#[test]
fn format_us_address_upper_cases_non_ascii_country() {
    let mut addr = springfield();
    addr.country = "  österreich ".to_string();
    assert_eq!(
        format_us_address(&addr),
        "Jane Doe\n123 Main St\nApt 4B\nSpringfield, IL 62704\nÖSTERREICH"
    );
}

#[test]
fn format_us_address_normalizes_postal_code_and_skips_blank_parts() {
    let addr = Address {
        city: "Springfield".to_string(),
        postal_code: "627041234".to_string(),
        ..Address::default()
    };
    assert_eq!(format_us_address(&addr), "Springfield 62704-1234");
    let addr = Address { region: "illinois".to_string(), ..Address::default() };
    assert_eq!(format_us_address(&addr), "IL");
    assert_eq!(format_us_address(&Address::default()), "");
}

#[test]
fn format_international_address_matches_readme_example() {
    assert_eq!(
        format_international_address(&downing_street()),
        "10 Downing Street\nLONDON SW1A 2AA\nUNITED KINGDOM"
    );
}

#[test]
fn format_international_address_expands_upper_case() {
    let addr = Address {
        street1: "Hauptstraße 1".to_string(),
        city: "Köln".to_string(),
        region: "nrw".to_string(),
        postal_code: "50667".to_string(),
        country: "Deutschland".to_string(),
        ..Address::default()
    };
    assert_eq!(
        format_international_address(&addr),
        "Hauptstraße 1\nKÖLN NRW 50667\nDEUTSCHLAND"
    );
}

#[test]
fn format_address_picks_layout_by_country() {
    assert_eq!(
        format_address(&downing_street()),
        "10 Downing Street\nLONDON SW1A 2AA\nUNITED KINGDOM"
    );
    let us = springfield();
    assert_eq!(format_address(&us), format_us_address(&us));
    let mut usa = springfield();
    usa.country = "u.s.a.".to_string();
    assert_eq!(format_address(&usa), "Jane Doe\n123 Main St\nApt 4B\nSpringfield, IL 62704");
}

#[test]
fn validate_reports_all_missing_fields_in_order() {
    assert_eq!(
        validate(&Address::default()),
        vec![
            ValidationIssue::MissingRecipient,
            ValidationIssue::MissingStreet,
            ValidationIssue::MissingCity,
            ValidationIssue::MissingRegion,
        ]
    );
}

#[test]
fn validate_treats_whitespace_only_fields_as_missing() {
    let mut addr = springfield();
    addr.recipient = " \t ".to_string();
    addr.city = "\n".to_string();
    assert_eq!(
        validate(&addr),
        vec![ValidationIssue::MissingRecipient, ValidationIssue::MissingCity]
    );
}

#[test]
fn validate_reports_normalized_text_of_bad_fields() {
    let mut addr = springfield();
    addr.region = "  Not   A State ".to_string();
    addr.postal_code = " 1234 ".to_string();
    addr.country = "United States of America".to_string();
    assert_eq!(
        validate(&addr),
        vec![
            ValidationIssue::InvalidRegion("Not A State".to_string()),
            ValidationIssue::InvalidPostalCode("1234".to_string()),
        ]
    );
}

#[test]
fn validation_issue_messages() {
    assert_eq!(ValidationIssue::MissingRecipient.message(), "recipient is missing");
    assert_eq!(ValidationIssue::MissingStreet.message(), "street1 is missing");
    assert_eq!(ValidationIssue::MissingCity.message(), "city is missing");
    assert_eq!(ValidationIssue::MissingRegion.message(), "region is missing");
    assert_eq!(
        ValidationIssue::InvalidRegion("Ontario".to_string()).message(),
        "region 'Ontario' is not a recognized US state, DC, or territory"
    );
    assert_eq!(
        ValidationIssue::InvalidPostalCode("abc".to_string()).message(),
        "postal code 'abc' is not a valid 5 or 9 digit US code"
    );
}

#[test]
fn parse_us_address_matches_readme_example() {
    let parsed = parse_us_address("Jane Doe, 123 Main St, Apt 4B, Springfield, IL 62704");
    assert_eq!(parsed, springfield());
}

#[test]
fn parse_us_address_treats_newlines_and_commas_alike() {
    let a = parse_us_address("Jane Doe\n123 Main St\nApt 4B\nSpringfield\nIL 62704\nUSA");
    let b = parse_us_address("Jane Doe,123 Main St,Apt 4B,Springfield,IL 62704,USA");
    assert_eq!(a, b);
    assert_eq!(a.country, "USA");
}

#[test]
fn parse_us_address_joins_extra_street_lines() {
    let parsed = parse_us_address("Jane Doe, 123 Main St, Apt 4B, Floor 2, Springfield, IL 62704");
    assert_eq!(parsed.street2, "Apt 4B, Floor 2");
    let parsed = parse_us_address("123 Main St, Apt 4B, Springfield, IL 62704");
    assert_eq!(parsed.recipient, "");
    assert_eq!(parsed.street1, "123 Main St");
    assert_eq!(parsed.street2, "Apt 4B");
}

#[test]
fn parse_us_address_keeps_unrecognized_postal_word_raw() {
    let parsed = parse_us_address("Springfield, IL 627-0X");
    assert_eq!(parsed.region, "IL");
    assert_eq!(parsed.postal_code, "627-0X");
    let parsed = parse_us_address("Springfield, New York");
    assert_eq!(parsed.region, "New York");
    assert_eq!(parsed.postal_code, "");
}

#[test]
fn parse_us_address_of_lone_country_sets_only_country() {
    let parsed = parse_us_address("United States");
    assert_eq!(
        parsed,
        Address { country: "United States".to_string(), ..Address::default() }
    );
}

#[test]
fn format_then_parse_gives_back_the_printed_fields() {
    let addr = Address {
        recipient: " Jane  Doe".to_string(),
        street1: "123 Main St".to_string(),
        street2: "".to_string(),
        city: "Springfield".to_string(),
        region: "illinois".to_string(),
        postal_code: "627041234".to_string(),
        country: "US".to_string(),
    };
    let parsed = parse_us_address(&format_us_address(&addr));
    assert_eq!(
        parsed,
        Address {
            recipient: "Jane Doe".to_string(),
            street1: "123 Main St".to_string(),
            street2: "".to_string(),
            city: "Springfield".to_string(),
            region: "IL".to_string(),
            postal_code: "62704-1234".to_string(),
            country: "".to_string(),
        }
    );
}

#[test]
fn run_validate_lists_problems_one_per_line() {
    let output = run(args(&["validate", "--recipient", "Jane Doe", "--street1", "123 Main St"]));
    assert_eq!(output, Ok("city is missing\nregion is missing".to_string()));
    let output = run(args(&[
        "validate", "--recipient", "Jane Doe", "--street1", "123 Main St", "--city", "Springfield",
        "--region", "IL", "--postal", "62704",
    ]));
    assert_eq!(output, Ok("ok".to_string()));
}

#[test]
fn run_formats_international_address() {
    let output = run(args(&[
        "format", "--street1", "10 Downing Street", "--city", "London", "--postal", "SW1A 2AA",
        "--country", "United Kingdom",
    ]));
    assert_eq!(output, Ok("10 Downing Street\nLONDON SW1A 2AA\nUNITED KINGDOM".to_string()));
}

#[test]
fn run_reports_flag_errors() {
    assert_eq!(
        run(args(&["format", "--city"])),
        Err("flag '--city' is missing a value".to_string())
    );
    assert_eq!(
        run(args(&["validate", "--zip", "62704"])),
        Err("unknown flag '--zip'".to_string())
    );
}

#[test]
fn run_reports_usage_errors() {
    assert_eq!(run(Vec::new()), Err(usage()));
    assert_eq!(
        run(args(&["bogus"])),
        Err(format!("unknown command 'bogus'\n\n{}", usage()))
    );
    assert_eq!(
        run(args(&["parse"])),
        Err(format!("parse requires a freeform address argument\n\n{}", usage()))
    );
    assert!(usage().starts_with("usage: addrkit <format|validate> [flags]\n   or: addrkit parse"));
}

#[test]
fn run_parse_rejoins_words_with_spaces() {
    let output = run(args(&["parse", "Jane", "Doe,", "123", "Main", "St,", "Springfield,", "IL", "62704"]));
    assert_eq!(output, Ok("Jane Doe\n123 Main St\nSpringfield, IL 62704".to_string()));
}

#[test]
fn parse_address_later_flags_win() {
    let addr = parse_address(&args(&["--city", "A", "--city", "B"])).unwrap();
    assert_eq!(addr.city, "B");
    assert_eq!(parse_address(&[]), Ok(Address::default()));
}

const TABLE: &[(&str, &str)] = &[
    ("Alabama", "AL"), ("Alaska", "AK"), ("Arizona", "AZ"), ("Arkansas", "AR"),
    ("California", "CA"), ("Colorado", "CO"), ("Connecticut", "CT"), ("Delaware", "DE"),
    ("District of Columbia", "DC"), ("Florida", "FL"), ("Georgia", "GA"), ("Hawaii", "HI"),
    ("Idaho", "ID"), ("Illinois", "IL"), ("Indiana", "IN"), ("Iowa", "IA"), ("Kansas", "KS"),
    ("Kentucky", "KY"), ("Louisiana", "LA"), ("Maine", "ME"), ("Maryland", "MD"),
    ("Massachusetts", "MA"), ("Michigan", "MI"), ("Minnesota", "MN"), ("Mississippi", "MS"),
    ("Missouri", "MO"), ("Montana", "MT"), ("Nebraska", "NE"), ("Nevada", "NV"),
    ("New Hampshire", "NH"), ("New Jersey", "NJ"), ("New Mexico", "NM"), ("New York", "NY"),
    ("North Carolina", "NC"), ("North Dakota", "ND"), ("Ohio", "OH"), ("Oklahoma", "OK"),
    ("Oregon", "OR"), ("Pennsylvania", "PA"), ("Rhode Island", "RI"), ("South Carolina", "SC"),
    ("South Dakota", "SD"), ("Tennessee", "TN"), ("Texas", "TX"), ("Utah", "UT"),
    ("Vermont", "VT"), ("Virginia", "VA"), ("Washington", "WA"), ("West Virginia", "WV"),
    ("Wisconsin", "WI"), ("Wyoming", "WY"), ("American Samoa", "AS"), ("Guam", "GU"),
    ("Northern Mariana Islands", "MP"), ("Puerto Rico", "PR"), ("U.S. Virgin Islands", "VI"),
];

#[test]
fn every_table_entry_normalizes_to_its_code() {
    assert_eq!(TABLE.len(), 56);
    for (name, code) in TABLE {
        assert_eq!(normalize_us_region(name), Some(code.to_string()));
        assert_eq!(normalize_us_region(code), Some(code.to_string()));
    }
}

#[test]
fn normalize_us_region_ignores_ascii_case_and_whitespace_runs() {
    for s in ["New York", "nEw yORK", "  new\t\tyork ", "ny", "Ontario", "X", ""] {
        let expected = normalize_us_region(s);
        assert_eq!(normalize_us_region(&s.to_ascii_lowercase()), expected);
        assert_eq!(normalize_us_region(&s.to_ascii_uppercase()), expected);
        assert_eq!(normalize_us_region(&normalize_whitespace(s)), expected);
    }
}

#[test]
fn foreign_country_adds_one_upper_case_last_line() {
    let mut addr = springfield();
    let without = format_us_address(&addr);
    addr.country = " new  zealand ".to_string();
    assert_eq!(format_us_address(&addr), format!("{without}\nNEW ZEALAND"));
    addr.country = "usa".to_string();
    assert_eq!(format_us_address(&addr), without);
    let only_country = Address { country: "Canada".to_string(), ..Address::default() };
    assert_eq!(format_us_address(&only_country), "CANADA");
}

#[test]
fn format_then_parse_collapses_raw_line_breaks() {
    let addr = Address {
        recipient: "Jane Doe\n".to_string(),
        street1: "\n123 Main St".to_string(),
        street2: "".to_string(),
        city: "Spring\nfield".to_string(),
        region: "IL".to_string(),
        postal_code: "62704,".to_string(),
        country: "".to_string(),
    };
    let parsed = parse_us_address(&format_us_address(&addr));
    assert_eq!(parsed.recipient, "Jane Doe");
    assert_eq!(parsed.street1, "123 Main St");
    assert_eq!(parsed.city, "Spring field");
    assert_eq!(parsed.region, "IL");
    assert_eq!(parsed.postal_code, "62704");
}
