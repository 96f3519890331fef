use netdiag::ports::{
    get_common_ports, get_service_name, parse_port_range, select_ports, ParseError,
};

#[test]
fn test_single_port() {
    assert_eq!(parse_port_range("80").unwrap(), vec![80]);
}

#[test]
fn test_multiple_ports() {
    let mut result = parse_port_range("80,443,22").unwrap();
    result.sort();
    assert_eq!(result, vec![22, 80, 443]);
}

#[test]
fn test_port_range() {
    let result = parse_port_range("80-85").unwrap();
    assert_eq!(result, vec![80, 81, 82, 83, 84, 85]);
}

#[test]
fn test_mixed_format() {
    let mut result = parse_port_range("22,80-82,443").unwrap();
    result.sort();
    assert_eq!(result, vec![22, 80, 81, 82, 443]);
}

#[test]
fn test_invalid_port() {
    assert!(parse_port_range("0").is_err());
    assert!(parse_port_range("65536").is_err());
    assert!(parse_port_range("abc").is_err());
}

#[test]
fn test_invalid_range() {
    assert!(parse_port_range("443-80").is_err());
    assert!(parse_port_range("80-").is_err());
    assert!(parse_port_range("-80").is_err());
}

#[test]
fn parse_trims_whitespace_around_tokens_and_dashes() {
    assert_eq!(parse_port_range("  80 ,  443 ").unwrap(), vec![80, 443]);
    assert_eq!(parse_port_range("80 - 82").unwrap(), vec![80, 81, 82]);
}

#[test]
fn parse_deduplicates_overlapping_tokens() {
    assert_eq!(parse_port_range("80,80-82,81").unwrap(), vec![80, 81, 82]);
}

#[test]
fn parse_result_is_strictly_ascending_and_in_range() {
    let v = parse_port_range("9,1-4,65535,2").unwrap();
    assert_eq!(v, vec![1, 2, 3, 4, 9, 65535]);
    for w in v.windows(2) {
        assert!(w[0] < w[1]);
    }
    assert!(v.iter().all(|&p| p >= 1));
}

#[test]
fn parse_error_variants() {
    assert_eq!(
        parse_port_range("80-85-90").unwrap_err(),
        ParseError::InvalidRangeFormat
    );
    assert_eq!(
        parse_port_range("abc").unwrap_err(),
        ParseError::InvalidPortNumber
    );
    assert_eq!(
        parse_port_range("0").unwrap_err(),
        ParseError::InvalidPortNumber
    );
    assert_eq!(
        parse_port_range("65536").unwrap_err(),
        ParseError::InvalidPortNumber
    );
    assert_eq!(
        parse_port_range("0-5").unwrap_err(),
        ParseError::InvalidPortNumber
    );
    assert_eq!(
        parse_port_range("443-80").unwrap_err(),
        ParseError::InvalidRange
    );
    assert_eq!(
        parse_port_range("").unwrap_err(),
        ParseError::NoPortsSpecified
    );
    assert_eq!(
        parse_port_range("   ").unwrap_err(),
        ParseError::NoPortsSpecified
    );
}

#[test]
fn parse_reports_first_bad_token() {
    assert_eq!(
        parse_port_range("80,443-80,xyz").unwrap_err(),
        ParseError::InvalidRange
    );
    assert_eq!(
        parse_port_range("80,xyz,443-80").unwrap_err(),
        ParseError::InvalidPortNumber
    );
}

#[test]
fn common_ports_are_sorted_and_unique() {
    let v = get_common_ports();
    assert_eq!(
        v,
        vec![20, 21, 22, 23, 25, 53, 80, 110, 143, 443, 993, 995, 1433, 3306, 5432, 6379, 27017]
    );
    for w in v.windows(2) {
        assert!(w[0] < w[1]);
    }
}

#[test]
fn select_ports_honours_common_literal() {
    let preset = get_common_ports();
    assert_eq!(select_ports("common").unwrap(), preset);
    assert_eq!(select_ports("COMMON").unwrap(), preset);
    assert_eq!(select_ports("  CoMmOn  ").unwrap(), preset);
}

#[test]
fn select_ports_parses_everything_else() {
    assert_eq!(select_ports("80,22").unwrap(), vec![22, 80]);
    assert!(select_ports("commonish").is_err());
    assert!(select_ports("").is_err());
}

#[test]
fn service_names_of_well_known_ports() {
    assert_eq!(get_service_name(22), "SSH");
    assert_eq!(get_service_name(443), "HTTPS");
    assert_eq!(get_service_name(27017), "MongoDB");
    assert_eq!(get_service_name(9999), "");
    assert_eq!(get_service_name(20), "");
}
