use xsra::cli::{
    parse_memory_size, parse_normalised_memory_size, AccessionOptions, BinseqFlavor, InputOptions, Provider, RecodeArgs,
    RecodeOutput, SelectionOptions,
};
use xsra::error::XsraError;
use xsra::partition::RuntimeOptions;

fn recode_args(selected: Vec<usize>, name: Option<&str>, flavor: BinseqFlavor) -> RecodeArgs {
    RecodeArgs {
        input: InputOptions {
            accession: "SRR1".to_string(),
            options: AccessionOptions {
                full_quality: false,
                provider: Provider::Https,
                gcp_project_id: None,
                retry_limit: 5,
                retry_delay: 500,
            },
        },
        selection: SelectionOptions { limit: None, selected },
        runtime: RuntimeOptions { threads: 1 },
        output: RecodeOutput {
            name: name.map(|s| s.to_string()),
            flavor,
            block_size: 131072,
        },
    }
}

#[test]
fn parse_memory_size_k_suffix() {
    assert_eq!(parse_memory_size("1K"), Ok(1024));
}

#[test]
fn parse_memory_size_m_suffix() {
    assert_eq!(parse_memory_size("1M"), Ok(1024 * 1024));
}

#[test]
fn parse_memory_size_g_suffix() {
    assert_eq!(parse_memory_size("1G"), Ok(1024 * 1024 * 1024));
}

#[test]
fn parse_memory_size_ascii_digit() {
    assert_eq!(parse_memory_size("1024"), Ok(1024));
}

#[test]
fn parse_memory_size_invalid_format() {
    assert!(parse_memory_size("512X").is_err());
}

#[test]
fn parse_memory_size_invalid_number() {
    assert!(parse_memory_size("abcK").is_err());
}

#[test]
fn parse_memory_size_case_whitespace_and_empty() {
    assert_eq!(parse_memory_size(" 128k "), Ok(128 * 1024));
    assert!(parse_memory_size("").is_err());
    assert!(parse_memory_size("K").is_err());
}

#[test]
fn recode_validation_counts_segments() {
    assert_eq!(
        recode_args(vec![], None, BinseqFlavor::Binseq).validate(),
        Err(XsraError::NoSegmentSelected)
    );
    assert_eq!(recode_args(vec![0], None, BinseqFlavor::Binseq).validate(), Ok(()));
    assert_eq!(recode_args(vec![0, 1], None, BinseqFlavor::Binseq).validate(), Ok(()));
    assert_eq!(
        recode_args(vec![0, 1, 2], None, BinseqFlavor::Binseq).validate(),
        Err(XsraError::TooManySegments)
    );
}

#[test]
fn recode_primary_and_extended_sids() {
    let single = recode_args(vec![3], None, BinseqFlavor::Binseq);
    assert!(!single.paired());
    assert_eq!(single.primary_sid(), 3);
    assert_eq!(single.extended_sid(), None);
    let pair = recode_args(vec![1, 2], None, BinseqFlavor::VBinseq);
    assert!(pair.paired());
    assert_eq!(pair.primary_sid(), 1);
    assert_eq!(pair.extended_sid(), Some(2));
}

#[test]
fn recode_output_name() {
    assert_eq!(recode_args(vec![0], None, BinseqFlavor::Binseq).output.name(), "output.bq");
    assert_eq!(recode_args(vec![0], None, BinseqFlavor::VBinseq).output.name(), "output.vbq");
    assert_eq!(
        recode_args(vec![0], Some("reads.bin"), BinseqFlavor::VBinseq).output.name(),
        "reads.bin"
    );
}

#[test]
fn provider_prefixes_and_names() {
    assert_eq!(Provider::Https.url_prefix(), "https://");
    assert_eq!(Provider::Gcp.url_prefix(), "gs://");
    assert_eq!(Provider::Aws.url_prefix(), "s3://");
    assert_eq!(Provider::Gcp.name(), "gcp");
    assert_eq!(BinseqFlavor::Binseq.extension(), "bq");
}

#[test]
fn normalised_memory_size_needs_a_number() {
    assert_eq!(parse_normalised_memory_size("2M"), Ok(2 * 1024 * 1024));
    assert_eq!(parse_normalised_memory_size("+3K"), Ok(3 * 1024));
    assert!(parse_normalised_memory_size("ABCK").is_err());
    assert!(parse_normalised_memory_size("12k").is_err());
    assert!(parse_normalised_memory_size("99999999999999999999G").is_err());
}
