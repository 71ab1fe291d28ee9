use kr2r::options::{IndexOptionsError, CURRENT_REVCOM_VERSION, INDEX_OPTIONS_SIZE};
use kr2r::pipeline::{pipeline_queue_capacity, pipeline_worker_count, PipelineLedger};
use kr2r::seed::ParseBinaryError;
use kr2r::{construct_seed_template, parse_binary, u64_to_option, IndexOptions, Meros};

#[test]
fn u64_to_option_zero_is_none() {
    assert_eq!(u64_to_option(0), None);
    assert_eq!(u64_to_option(5), Some(5));
    assert_eq!(u64_to_option(u64::MAX), Some(u64::MAX));
}

#[test]
fn parse_binary_reads_base_two() {
    assert_eq!(parse_binary("101"), Ok(5));
    assert_eq!(parse_binary("0"), Ok(0));
    assert_eq!(parse_binary("1"), Ok(1));
    assert_eq!(
        parse_binary("1111111111111111111111111111111111111111111111111111111111111111"),
        Ok(u64::MAX)
    );
    // Leading zeros do not overflow, whatever the digit count.
    assert_eq!(
        parse_binary("00000000000000000000000000000000000000000000000000000000000000000101"),
        Ok(5)
    );
}

#[test]
fn parse_binary_accepts_leading_plus() {
    assert_eq!(parse_binary("+101"), Ok(5));
    assert_eq!(parse_binary("+0"), Ok(0));
    assert_eq!(parse_binary("+1"), Ok(1));
}

#[test]
fn parse_binary_rejects_bad_input() {
    assert_eq!(parse_binary(""), Err(ParseBinaryError::Empty));
    assert_eq!(parse_binary("102"), Err(ParseBinaryError::InvalidDigit));
    assert_eq!(parse_binary("abc"), Err(ParseBinaryError::InvalidDigit));
    // A sign alone, a sign in the middle, a second sign, and a minus are all
    // invalid digits.
    assert_eq!(parse_binary("+"), Err(ParseBinaryError::InvalidDigit));
    assert_eq!(parse_binary("1+1"), Err(ParseBinaryError::InvalidDigit));
    assert_eq!(parse_binary("++1"), Err(ParseBinaryError::InvalidDigit));
    assert_eq!(parse_binary("-101"), Err(ParseBinaryError::InvalidDigit));
    assert_eq!(
        parse_binary("10000000000000000000000000000000000000000000000000000000000000000"),
        Err(ParseBinaryError::Overflow)
    );
}

#[test]
fn seed_template_shapes() {
    assert_eq!(construct_seed_template(5, 1), "11101");
    assert_eq!(construct_seed_template(8, 2), "11110101");
    assert_eq!(construct_seed_template(4, 0), "1111");
    assert_eq!(construct_seed_template(4, 1), "1101");
}

#[test]
fn index_options_round_trip() {
    let opts = IndexOptions::new(35, 31, 0x1ca, 0xe37, true, 7);
    assert_eq!(opts.revcom_version, CURRENT_REVCOM_VERSION);
    assert_eq!(opts.db_version, 0);
    assert_eq!(opts.db_type, 0);
    let bytes = opts.to_bytes();
    assert_eq!(bytes.len(), INDEX_OPTIONS_SIZE);
    let back = IndexOptions::from_bytes(&bytes).expect("round trip");
    assert_eq!(back, opts);
}

#[test]
fn index_options_round_trip_without_flags() {
    let opts = IndexOptions::new(19, 15, 0, 0, false, 0);
    let bytes = opts.to_bytes();
    let back = IndexOptions::from_bytes(&bytes).expect("round trip");
    assert_eq!(back, opts);
}

#[test]
fn index_options_rejects_short_record() {
    let bytes = vec![0u8; 10];
    assert_eq!(
        IndexOptions::from_bytes(&bytes),
        Err(IndexOptionsError::TooShort)
    );
}

#[test]
fn index_options_rejects_forged_version() {
    let opts = IndexOptions::new(35, 31, 0, 0, true, 0);
    let mut bytes = opts.to_bytes();
    bytes[48] = 0;
    assert_eq!(
        IndexOptions::from_bytes(&bytes),
        Err(IndexOptionsError::UnsupportedVersion)
    );
}

#[test]
fn meros_conversions() {
    let meros = Meros::new(35, 31, Some(0x1ca), None, Some(9));
    assert_eq!(meros.k_mer, 35);
    assert_eq!(meros.l_mer, 31);
    assert_eq!(meros.spaced_seed_mask, 0x1ca);
    assert_eq!(meros.toggle_mask, 0);
    assert_eq!(meros.min_clear_hash_value, Some(9));

    let opts = IndexOptions::from_meros(meros);
    assert_eq!(opts.k, 35);
    assert_eq!(opts.l, 31);
    assert_eq!(opts.spaced_seed_mask, 0x1ca);
    assert_eq!(opts.toggle_mask, 0);
    assert!(opts.dna_db);
    assert_eq!(opts.minimum_acceptable_hash_value, 9);

    let back = opts.as_meros();
    assert_eq!(back.k_mer, 35);
    assert_eq!(back.l_mer, 31);
    assert_eq!(back.spaced_seed_mask, 0x1ca);
    assert_eq!(back.toggle_mask, 0);
    assert_eq!(back.min_clear_hash_value, Some(9));
}

#[test]
fn pipeline_sizing() {
    assert_eq!(pipeline_worker_count(3), 1);
    assert_eq!(pipeline_worker_count(8), 6);
    assert_eq!(pipeline_queue_capacity(3), 5);
    assert_eq!(pipeline_queue_capacity(8), 10);
}

#[test]
fn pipeline_ledger_delivers_every_batch() {
    let n: u64 = 12;
    let mut ledger = PipelineLedger::new(4);
    let mut produced: u64 = 0;
    while produced < n {
        // Keep the input queue within its bound, as backpressure would.
        let burst = (n - produced).min(4);
        for _ in 0..burst {
            ledger.produce();
            produced += 1;
        }
        for _ in 0..burst {
            ledger.take();
            ledger.complete();
            ledger.deliver();
        }
    }
    assert_eq!(ledger.submitted, n);
    assert_eq!(ledger.delivered, n);
}
