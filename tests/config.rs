use blind_watermark::config::{
    ConfigError, WatermarkConfig, WatermarkConfigBuilder, WatermarkMode,
};
use blind_watermark::quantization::{average_value, decode_bit};

#[test]
fn default_config() {
    let c = WatermarkConfig::default();
    assert_eq!(c.strength_1, 36);
    assert_eq!(c.strength_2, None);
    assert_eq!(c.mode, WatermarkMode::Normal);
}

#[test]
fn builder_sets_fields() {
    let c = WatermarkConfigBuilder::default()
        .mode(WatermarkMode::Strategy(0))
        .strength_2(20)
        .build()
        .unwrap();
    assert_eq!(c.strength_1, 36);
    assert_eq!(c.strength_2, Some(20));
    assert_eq!(c.mode, WatermarkMode::Strategy(0));
    let c = WatermarkConfigBuilder::default().strength_1(10).build().unwrap();
    assert_eq!(c.strength_1, 10);
    assert_eq!(c.mode, WatermarkMode::Normal);
}

#[test]
fn builder_rejects_non_positive_steps() {
    assert_eq!(
        WatermarkConfigBuilder::default().strength_1(0).build().err(),
        Some(ConfigError::NonPositiveStrength1)
    );
    assert_eq!(
        WatermarkConfigBuilder::default().strength_1(-3).strength_2(-1).build().err(),
        Some(ConfigError::NonPositiveStrength1)
    );
    assert_eq!(
        WatermarkConfigBuilder::default().strength_2(0).build().err(),
        Some(ConfigError::NonPositiveStrength2)
    );
}

#[test]
fn config_from_seed() {
    let c = WatermarkConfig::from_seed(None);
    assert_eq!((c.strength_1, c.strength_2, c.mode), (36, None, WatermarkMode::Normal));
    let c = WatermarkConfig::from_seed(Some(9));
    assert_eq!((c.strength_1, c.strength_2, c.mode), (36, Some(20), WatermarkMode::Strategy(9)));
}

#[test]
fn weighted_vote_of_two_singular_values() {
    assert!(average_value(true, true));
    assert!(average_value(true, false));
    assert!(!average_value(false, true));
    assert!(!average_value(false, false));
}

#[test]
fn block_bit_decision() {
    assert!(decode_bit(true, None));
    assert!(!decode_bit(false, None));
    assert!(decode_bit(true, Some(false)));
    assert!(!decode_bit(false, Some(true)));
}
