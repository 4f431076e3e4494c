use std::str::FromStr;

use rotastellar::auth::{
    get_auth_header, mask_api_key, validate_api_key, AuthenticationError, Environment,
};
use rotastellar::intel::{ConfidenceLevel, PatternType, RiskLevel};
use rotastellar::types::TimeRange;

#[test]
fn test_validate_live_key() {
    let result = validate_api_key(Some("rs_live_abc123def456xyz789"));
    assert!(result.is_ok());
    assert_eq!(result.unwrap(), Environment::Live);
}

#[test]
fn test_validate_test_key() {
    let result = validate_api_key(Some("rs_test_abc123def456xyz789"));
    assert!(result.is_ok());
    assert_eq!(result.unwrap(), Environment::Test);
}

#[test]
fn test_validate_missing_key() {
    let result = validate_api_key(None);
    assert!(matches!(result, Err(AuthenticationError::MissingApiKey)));
}

#[test]
fn test_validate_invalid_prefix() {
    let result = validate_api_key(Some("sk_live_abc123def456xyz789"));
    assert!(matches!(
        result,
        Err(AuthenticationError::InvalidApiKey { .. })
    ));
}

#[test]
fn test_validate_short_body() {
    // Correct prefix but fewer than sixteen body characters.
    let result = validate_api_key(Some("rs_live_short"));
    assert!(matches!(
        result,
        Err(AuthenticationError::InvalidApiKey { .. })
    ));
}

#[test]
fn test_validate_trims_whitespace() {
    let result = validate_api_key(Some("  rs_live_abc123def456xyz789\n"));
    assert_eq!(result.unwrap(), Environment::Live);
    let result = validate_api_key(Some("   \t "));
    assert!(matches!(result, Err(AuthenticationError::MissingApiKey)));
}

#[test]
fn test_mask_api_key() {
    let masked = mask_api_key("rs_live_abc123def456xyz789");
    assert_eq!(masked, "rs_live_****z789");
}

#[test]
fn test_mask_short_key() {
    assert_eq!(mask_api_key("abc"), "abc****");
}

#[test]
fn test_api_key_validation() {
    let result = validate_api_key(None);
    assert!(result.is_err());
}

#[test]
fn test_auth_header() {
    assert_eq!(get_auth_header("rs_test_k"), "Bearer rs_test_k");
}

#[test]
fn test_pattern_types() {
    assert!(PatternType::OrbitRaise.is_maneuver());
    assert!(!PatternType::Tumbling.is_maneuver());
    assert!(PatternType::Tumbling.is_anomaly());
}

#[test]
fn test_risk_levels() {
    let critical = RiskLevel::Critical;
    let low = RiskLevel::Low;
    assert!(matches!(critical, RiskLevel::Critical));
    assert!(matches!(low, RiskLevel::Low));
}

#[test]
fn test_pattern_type_from_str() {
    assert_eq!(PatternType::from_str("maneuver"), Ok(PatternType::Maneuver));
    assert_eq!(PatternType::from_str("ORBIT_RAISE"), Ok(PatternType::OrbitRaise));
    assert_eq!(PatternType::from_str("invalid"), Err(()));
}

#[test]
fn test_pattern_type_is_maneuver() {
    assert!(PatternType::Maneuver.is_maneuver());
    assert!(PatternType::OrbitRaise.is_maneuver());
    assert!(!PatternType::Anomaly.is_maneuver());
    assert!(!PatternType::Tumbling.is_maneuver());
}

#[test]
fn test_confidence_level_ordering() {
    assert!(ConfidenceLevel::Uncertain < ConfidenceLevel::Possible);
    assert!(ConfidenceLevel::Possible < ConfidenceLevel::Likely);
    assert!(ConfidenceLevel::Likely < ConfidenceLevel::Confirmed);
}

#[test]
fn test_confidence_level_from_str() {
    assert_eq!(ConfidenceLevel::from_str("CONFIRMED"), Ok(ConfidenceLevel::Confirmed));
    assert_eq!(ConfidenceLevel::from_str("possible"), Ok(ConfidenceLevel::Possible));
    assert_eq!(ConfidenceLevel::from_str("nope"), Err(()));
}

#[test]
fn test_risk_level_from_str() {
    assert_eq!(RiskLevel::from_str("critical"), Ok(RiskLevel::Critical));
    assert_eq!(RiskLevel::from_str("HIGH"), Ok(RiskLevel::High));
    assert_eq!(RiskLevel::from_str("invalid"), Err(()));
}

#[test]
fn test_time_range() {
    let tr = TimeRange::new("2026-01-01T00:00:00Z", "2026-01-02T00:00:00Z").unwrap();
    assert_eq!(tr.start, "2026-01-01T00:00:00Z");
    assert_eq!(tr.end, "2026-01-02T00:00:00Z");
}
