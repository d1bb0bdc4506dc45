use trendlab_core::fingerprint::structural_config_hash;
use trendlab_core::ids::ConfigHash;

#[test]
fn structural_hash_joins_component_types_with_plus() {
    let h = structural_config_hash("donchian", "atr_trail", "worst_case", "no_filter");
    assert_eq!(h, ConfigHash::from_bytes(b"donchian+atr_trail+worst_case+no_filter"));
}

#[test]
fn structural_hash_depends_on_every_component() {
    let base = structural_config_hash("donchian", "atr_trail", "worst_case", "no_filter");
    assert_ne!(base, structural_config_hash("ma_cross", "atr_trail", "worst_case", "no_filter"));
    assert_ne!(base, structural_config_hash("donchian", "chandelier", "worst_case", "no_filter"));
    assert_ne!(base, structural_config_hash("donchian", "atr_trail", "best_case", "no_filter"));
    assert_ne!(base, structural_config_hash("donchian", "atr_trail", "worst_case", "adx_filter"));
}
