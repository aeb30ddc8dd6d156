use chrono::{DateTime, NaiveDate, TimeZone, Utc};
use kstrk::capture::{KeyEvent, KeyType, Modifiers};
use kstrk::clock::day_number;
use kstrk::daemon::hour_bucket;
use kstrk::tokenize::{Tokenizer, TokenizerConfig};

const SAMPLES: [i64; 12] = [
    0,
    1,
    -1,
    86_399_999,
    86_400_000,
    -86_400_000,
    -86_400_001,
    951_782_400_000,
    1_700_000_000_123,
    4_102_444_799_999,
    -2_208_988_800_000,
    253_402_300_799_999,
];

#[test]
fn days_count_from_the_epoch() {
    assert_eq!(day_number(0), 0);
    assert_eq!(day_number(86_399_999), 0);
    assert_eq!(day_number(86_400_000), 1);
    assert_eq!(day_number(-1), -1);
    assert_eq!(day_number(-86_400_000), -1);
    assert_eq!(day_number(-86_400_001), -2);
    assert_eq!(day_number(1_700_000_000_123), 19_675);
    assert_eq!(day_number(i64::MAX), 106_751_991_167);
    assert_eq!(day_number(i64::MIN), -106_751_991_168);
}

#[test]
fn days_agree_with_the_calendar() {
    let epoch = NaiveDate::from_ymd_opt(1970, 1, 1).unwrap();
    for millis in SAMPLES {
        let date = DateTime::<Utc>::from_timestamp_millis(millis).unwrap().date_naive();
        assert_eq!(day_number(millis), (date - epoch).num_days(), "{}", millis);
    }
    // The last day of February in a leap year and the first of March.
    let leap = Utc.with_ymd_and_hms(2024, 2, 29, 23, 59, 59).unwrap().timestamp_millis();
    let march = Utc.with_ymd_and_hms(2024, 3, 1, 0, 0, 0).unwrap().timestamp_millis();
    assert_eq!(day_number(march) - day_number(leap), 1);
    assert_eq!(day_number(march), (NaiveDate::from_ymd_opt(2024, 3, 1).unwrap() - epoch).num_days());
}

#[test]
fn hour_buckets_agree_with_the_timestamp_in_seconds() {
    for millis in SAMPLES {
        let at = DateTime::<Utc>::from_timestamp_millis(millis).unwrap();
        assert_eq!(hour_bucket(millis), at.timestamp().div_euclid(3_600), "{}", millis);
        if millis >= 0 {
            assert_eq!(hour_bucket(millis), at.timestamp() / 3_600);
        }
    }
}

#[test]
fn gaps_agree_with_the_duration_between_two_instants() {
    for (i, first) in SAMPLES.iter().enumerate() {
        for second in &SAMPLES[i..] {
            let a = DateTime::<Utc>::from_timestamp_millis(*first).unwrap();
            let b = DateTime::<Utc>::from_timestamp_millis(*second).unwrap();
            let gap = b.signed_duration_since(a).num_milliseconds();
            let mut tokenizer =
                Tokenizer::new(TokenizerConfig { gap_threshold_ms: 500, min_token_length: 1 });
            let key = |timestamp: i64| KeyEvent {
                keycode: 0,
                key_type: KeyType::Character('a'),
                timestamp,
                modifiers: Modifiers::default(),
            };
            assert!(tokenizer.process(key(*first)).is_none());
            assert_eq!(tokenizer.process(key(*second)).is_some(), gap > 500);
        }
    }
}
