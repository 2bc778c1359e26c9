use asset_extractor::runtime::RuntimeData;
use asset_extractor::zones::{parse_tld, TopLevelDomains};

#[test]
fn all_zones_expand_in_order() {
    let zones = parse_tld(TopLevelDomains::All);
    assert_eq!(
        zones,
        vec!["com", "de", "fi", "fr", "it", "es", "nl", "com.br", "com.tr"]
    );
}

#[test]
fn single_zone_expands_to_itself() {
    assert_eq!(parse_tld(TopLevelDomains::ComBr), vec!["com.br"]);
    assert_eq!(parse_tld(TopLevelDomains::De), vec!["de"]);
}

#[test]
fn data_path_joins_base_and_revision() {
    let runtime = RuntimeData::new(String::from("./data"), String::from("r63"));
    assert_eq!(runtime.get_data_path(), "./data/r63");
}
