use addrkit::{
    format_us_address, normalize_us_postal_code, normalize_us_region, normalize_whitespace,
    parse_us_address, validate, Address, ValidationIssue,
};

fn sample() -> Address {
    Address {
        recipient: "  Jane   Doe ".to_string(),
        street1: "123 Main St".to_string(),
        street2: "Apt 4B".to_string(),
        city: "Springfield".to_string(),
        region: "IL".to_string(),
        postal_code: "62704".to_string(),
        country: "US".to_string(),
    }
}

#[test]
fn normalize_whitespace_collapses_and_trims() {
    assert_eq!(normalize_whitespace("  a   b\tc\n"), "a b c");
    assert_eq!(normalize_whitespace(""), "");
}

#[test]
fn normalize_us_postal_code_accepts_five_digit() {
    assert_eq!(normalize_us_postal_code("62704"), Some("62704".to_string()));
}

#[test]
fn normalize_us_postal_code_accepts_zip_plus_four_with_junk() {
    assert_eq!(
        normalize_us_postal_code("62704 - 1234"),
        Some("62704-1234".to_string())
    );
}

#[test]
fn normalize_us_region_accepts_abbreviation_case_insensitively() {
    assert_eq!(normalize_us_region("il"), Some("IL".to_string()));
    assert_eq!(normalize_us_region("Il"), Some("IL".to_string()));
}

#[test]
fn normalize_us_region_accepts_full_name_case_insensitively() {
    assert_eq!(normalize_us_region("illinois"), Some("IL".to_string()));
    assert_eq!(normalize_us_region("  New   York "), Some("NY".to_string()));
}

#[test]
fn normalize_us_region_accepts_dc_and_territories() {
    assert_eq!(
        normalize_us_region("District of Columbia"),
        Some("DC".to_string())
    );
    assert_eq!(normalize_us_region("pr"), Some("PR".to_string()));
    assert_eq!(normalize_us_region("Puerto Rico"), Some("PR".to_string()));
}

#[test]
fn normalize_us_region_rejects_unknown_values() {
    assert_eq!(normalize_us_region("Ontario"), None);
    assert_eq!(normalize_us_region("ZZ"), None);
    assert_eq!(normalize_us_region(""), None);
}

#[test]
fn normalize_us_postal_code_rejects_bad_length() {
    assert_eq!(normalize_us_postal_code("1234"), None);
    assert_eq!(normalize_us_postal_code(""), None);
}

#[test]
fn format_us_address_produces_expected_block() {
    let formatted = format_us_address(&sample());
    assert_eq!(
        formatted,
        "Jane Doe\n123 Main St\nApt 4B\nSpringfield, IL 62704"
    );
}

#[test]
fn format_us_address_omits_domestic_country_and_blank_fields() {
    let mut addr = sample();
    addr.street2 = "".to_string();
    addr.country = "United States".to_string();
    let formatted = format_us_address(&addr);
    assert_eq!(formatted, "Jane Doe\n123 Main St\nSpringfield, IL 62704");
}

#[test]
fn format_us_address_keeps_foreign_country() {
    let mut addr = sample();
    addr.country = "Canada".to_string();
    let formatted = format_us_address(&addr);
    assert!(formatted.ends_with("\nCANADA"));
}

#[test]
fn format_us_address_canonicalizes_full_state_name() {
    let mut addr = sample();
    addr.region = "Illinois".to_string();
    let formatted = format_us_address(&addr);
    assert_eq!(
        formatted,
        "Jane Doe\n123 Main St\nApt 4B\nSpringfield, IL 62704"
    );
}

#[test]
fn format_us_address_passes_through_unrecognized_region() {
    let mut addr = sample();
    addr.region = "Ontario".to_string();
    let formatted = format_us_address(&addr);
    assert!(formatted.contains("Springfield, Ontario 62704"));
}

#[test]
fn validate_flags_missing_required_fields() {
    let issues = validate(&Address::default());
    assert!(issues.contains(&ValidationIssue::MissingRecipient));
    assert!(issues.contains(&ValidationIssue::MissingStreet));
    assert!(issues.contains(&ValidationIssue::MissingCity));
    assert!(issues.contains(&ValidationIssue::MissingRegion));
}

#[test]
fn validate_flags_unrecognized_region_for_domestic_address() {
    let mut addr = sample();
    addr.region = "Not A State".to_string();
    let issues = validate(&addr);
    assert_eq!(
        issues,
        vec![ValidationIssue::InvalidRegion("Not A State".to_string())]
    );
}

#[test]
fn validate_accepts_full_state_name_as_region() {
    let mut addr = sample();
    addr.region = "Illinois".to_string();
    assert!(validate(&addr).is_empty());
}

#[test]
fn validate_skips_region_check_for_foreign_address() {
    let mut addr = sample();
    addr.region = "Ontario".to_string();
    addr.country = "Canada".to_string();
    assert!(validate(&addr).is_empty());
}

#[test]
fn validate_checks_region_when_country_is_blank() {
    let mut addr = sample();
    addr.region = "Not A State".to_string();
    addr.country = "".to_string();
    let issues = validate(&addr);
    assert_eq!(
        issues,
        vec![ValidationIssue::InvalidRegion("Not A State".to_string())]
    );
}

#[test]
fn validate_flags_malformed_postal_code() {
    let mut addr = sample();
    addr.postal_code = "abc".to_string();
    let issues = validate(&addr);
    assert_eq!(
        issues,
        vec![ValidationIssue::InvalidPostalCode("abc".to_string())]
    );
}

#[test]
fn validate_accepts_complete_address() {
    assert!(validate(&sample()).is_empty());
}

#[test]
fn parse_us_address_reads_multiline_block() {
    let parsed = parse_us_address("Jane Doe\n123 Main St\nApt 4B\nSpringfield, IL 62704");
    assert_eq!(parsed.recipient, "Jane Doe");
    assert_eq!(parsed.street1, "123 Main St");
    assert_eq!(parsed.street2, "Apt 4B");
    assert_eq!(parsed.city, "Springfield");
    assert_eq!(parsed.region, "IL");
    assert_eq!(parsed.postal_code, "62704");
    assert_eq!(parsed.country, "");
}

#[test]
fn parse_us_address_reads_single_comma_separated_line() {
    let parsed = parse_us_address("Jane Doe, 123 Main St, Apt 4B, Springfield, IL 62704, USA");
    assert_eq!(parsed.recipient, "Jane Doe");
    assert_eq!(parsed.street1, "123 Main St");
    assert_eq!(parsed.street2, "Apt 4B");
    assert_eq!(parsed.city, "Springfield");
    assert_eq!(parsed.region, "IL");
    assert_eq!(parsed.postal_code, "62704");
    assert_eq!(parsed.country, "USA");
}

#[test]
fn parse_us_address_normalizes_zip_plus_four_and_junk_whitespace() {
    let parsed = parse_us_address("123  Main St\nSpringfield,   IL   62704-1234");
    assert_eq!(parsed.street1, "123 Main St");
    assert_eq!(parsed.postal_code, "62704-1234");
}

#[test]
fn parse_us_address_without_recipient_treats_leading_digits_as_street() {
    let parsed = parse_us_address("123 Main St, Springfield, IL 62704");
    assert_eq!(parsed.recipient, "");
    assert_eq!(parsed.street1, "123 Main St");
    assert_eq!(parsed.street2, "");
}

#[test]
fn parse_us_address_handles_city_region_postal_only() {
    let parsed = parse_us_address("Springfield, IL 62704");
    assert_eq!(parsed.recipient, "");
    assert_eq!(parsed.street1, "");
    assert_eq!(parsed.city, "Springfield");
    assert_eq!(parsed.region, "IL");
    assert_eq!(parsed.postal_code, "62704");
}

#[test]
fn parse_us_address_of_empty_string_is_default() {
    assert_eq!(parse_us_address(""), Address::default());
    assert_eq!(parse_us_address("   \n , "), Address::default());
}

#[test]
fn parse_us_address_round_trips_through_format() {
    let original = sample();
    let block = format_us_address(&original);
    let parsed = parse_us_address(&block);
    // The block prints the recipient with its whitespace collapsed, so that
    // is what comes back.
    assert_eq!(
        parsed.recipient,
        original.recipient.split_whitespace().collect::<Vec<_>>().join(" ")
    );
    assert_eq!(parsed.street1, original.street1);
    assert_eq!(parsed.street2, original.street2);
    assert_eq!(parsed.city, original.city);
    assert_eq!(parsed.region, original.region);
    assert_eq!(parsed.postal_code, original.postal_code);
}
