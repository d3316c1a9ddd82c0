use xsra::cli::{AccessionOptions, Provider};
use xsra::prefetch::{
    identify_step, is_rate_limited, may_query, parse_url, parse_url_with_fallback, UrlStep,
};

#[test]
fn is_rate_limited_happy_path() {
    assert!(!is_rate_limited(r#"{"status": "success"}"#));
}

#[test]
fn is_rate_limited_detects_rate_limit_errors() {
    assert!(is_rate_limited("API rate limit exceeded"));
    assert!(is_rate_limited(r#"{"error": "API rate limit exceeded"}"#));
    assert!(is_rate_limited(r#"{"message": "rate limit exceeded"}"#));
    assert!(is_rate_limited(r#"{"error": "limit exceeded"}"#));
}

#[test]
fn is_rate_limited_needs_json_for_short_phrases() {
    assert!(!is_rate_limited("rate limit exceeded"));
    assert!(!is_rate_limited(""));
}

#[test]
fn parse_url_prefers_lite_when_full_quality_false() {
    let response = r#"
            url="https://example.com/SRR123456.sra"
            url="https://example.com/SRR123456.lite.sra"
        "#;
    let result = parse_url("SRR123456", response, false, Provider::Https);
    assert_eq!(
        result,
        Some("https://example.com/SRR123456.lite.sra".to_string())
    );
}

#[test]
fn parse_url_prefers_full_when_full_quality_true() {
    let response = r#"
            url="https://example.com/SRR123456.sra"
            url="https://example.com/SRR123456.lite.sra"
        "#;
    let result = parse_url("SRR123456", response, true, Provider::Https);
    assert_eq!(
        result,
        Some("https://example.com/SRR123456.sra".to_string())
    );
}

#[test]
fn parse_url_filters_unwanted_formats() {
    let response = r#"
            url="https://example.com/SRR999999.sra"
            url="https://example.com/SRR123456.fastq"
            url="https://example.com/SRR123456.sra.gz"
            url="https://example.com/SRR123456.sra"
        "#;
    let result = parse_url("SRR123456", response, true, Provider::Https);
    assert_eq!(
        result,
        Some("https://example.com/SRR123456.sra".to_string())
    );
}

#[test]
fn parse_url_returns_none_when_no_match() {
    assert_eq!(
        parse_url("SRR123456", "no urls here", true, Provider::Https),
        None
    );
}

#[test]
fn parse_url_matches_provider_scheme() {
    let response = "url=\"https://h/SRR1.sra\" url=\"gs://b/SRR1.sra\"";
    assert_eq!(
        parse_url("SRR1", response, true, Provider::Gcp),
        Some("gs://b/SRR1.sra".to_string())
    );
}

#[test]
fn fallback_prefers_requested_quality_when_both_available() {
    let response = r#"
            url="https://example.com/SRR123456.sra"
            url="https://example.com/SRR123456.lite.sra"
        "#;

    let lite_result =
        parse_url_with_fallback("SRR123456", response, false, false, Provider::Https);
    assert_eq!(
        lite_result,
        Some("https://example.com/SRR123456.lite.sra".to_string())
    );

    let full_result =
        parse_url_with_fallback("SRR123456", response, true, false, Provider::Https);
    assert_eq!(
        full_result,
        Some("https://example.com/SRR123456.sra".to_string())
    );
}

#[test]
fn fallback_falls_back_when_lite_unavailable() {
    let response = r#"url="https://example.com/SRR123456.sra""#;
    let result = parse_url_with_fallback("SRR123456", response, false, false, Provider::Https);
    assert_eq!(
        result,
        Some("https://example.com/SRR123456.sra".to_string())
    );
}

#[test]
fn fallback_prevents_when_lite_only_true() {
    let response = r#"url="https://example.com/SRR123456.sra""#;
    let result = parse_url_with_fallback("SRR123456", response, false, true, Provider::Https);
    assert_eq!(result, None);
}

#[test]
fn fallback_works_with_lite_only_when_available() {
    let response = r#"url="https://example.com/SRR123456.lite.sra""#;
    let result = parse_url_with_fallback("SRR123456", response, false, true, Provider::Https);
    assert_eq!(
        result,
        Some("https://example.com/SRR123456.lite.sra".to_string())
    );
}

#[test]
fn fallback_handles_conflicting_flags() {
    let response = r#"url="https://example.com/SRR123456.lite.sra""#;
    let result = parse_url_with_fallback("SRR123456", response, true, true, Provider::Https);
    assert_eq!(result, None);
}

#[test]
fn fallback_returns_none_when_no_urls() {
    let result =
        parse_url_with_fallback("SRR123456", "no urls here", false, false, Provider::Https);
    assert_eq!(result, None);
}

fn options(provider: Provider, retry_limit: usize) -> AccessionOptions {
    AccessionOptions {
        full_quality: true,
        provider,
        gcp_project_id: None,
        retry_limit,
        retry_delay: 100,
    }
}

#[test]
fn identify_step_waits_longer_after_each_limit() {
    let opts = options(Provider::Https, 3);
    match identify_step("SRR1", "API rate limit exceeded", &opts, 0) {
        UrlStep::Retry { delay_ms } => assert_eq!(delay_ms, 100),
        other => panic!("unexpected {:?}", other),
    }
    match identify_step("SRR1", "API rate limit exceeded", &opts, 2) {
        UrlStep::Retry { delay_ms } => assert_eq!(delay_ms, 300),
        other => panic!("unexpected {:?}", other),
    }
    assert!(may_query(2, &opts));
    assert!(!may_query(3, &opts));
    assert!(!may_query(0, &options(Provider::Https, 0)));
}

#[test]
fn identify_step_found_unsupported_and_missing() {
    let response = "url=\"gs://b/SRR1.sra\" url=\"s3://b/SRR1.sra\"";
    match identify_step("SRR1", response, &options(Provider::Gcp, 1), 0) {
        UrlStep::Found(u) => assert_eq!(u, "gs://b/SRR1.sra"),
        other => panic!("unexpected {:?}", other),
    }
    match identify_step("SRR1", response, &options(Provider::Aws, 1), 0) {
        UrlStep::Unsupported(u) => assert_eq!(u, "s3://b/SRR1.sra"),
        other => panic!("unexpected {:?}", other),
    }
    assert!(matches!(
        identify_step("SRR2", response, &options(Provider::Gcp, 1), 0),
        UrlStep::NotFound
    ));
}
