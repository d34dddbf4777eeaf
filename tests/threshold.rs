use vrrb_core_chain::dkg::{invalid_threshold_config, valid_threshold_config, ThresholdConfig};

#[test]
fn threshold_configs() {
    let v = valid_threshold_config();
    assert_eq!((v.upper_bound, v.threshold), (4, 1));
    assert!(v.is_valid());
    let i = invalid_threshold_config();
    assert_eq!((i.upper_bound, i.threshold), (4, 5));
    assert!(!i.is_valid());
    assert!(!ThresholdConfig { upper_bound: 4, threshold: 0 }.is_valid());
    assert!(!ThresholdConfig { upper_bound: 4, threshold: 4 }.is_valid());
}
