use vzdv::aviation::parse_metar;
use vzdv::kden::{determine_runway_config, DenverConfig};

#[test]
fn test_determine_runway_config() {
    let mut weather = parse_metar("KDEN 030253Z 00000KT 10SM SCT100 BKN160 13/M12 A2943 RMK AO2 PK WND 21036/0211 SLP924 T01331117 58005").unwrap();
    assert_eq!(determine_runway_config(&weather), DenverConfig::NorthCalm);

    weather.wind = (250, 10, 0);
    assert_eq!(determine_runway_config(&weather), DenverConfig::SouthCalm);

    weather.wind = (189, 11, 22);
    assert_eq!(determine_runway_config(&weather), DenverConfig::SouthWest);

    weather.wind = (210, 20, 35);
    assert_eq!(determine_runway_config(&weather), DenverConfig::SouthAll);
}

#[test]
fn runway_config_texts() {
    assert_eq!(DenverConfig::NorthWest.name(), "North West");
    assert_eq!(DenverConfig::SouthWest.departing(), "17L, 17R, 25");
    assert_eq!(DenverConfig::EastAll.landing(), "7, 8");
}

#[test]
fn runway_config_by_sector() {
    let mut weather = parse_metar("KDEN 10SM").unwrap();
    weather.wind = (10, 15, 0);
    assert_eq!(determine_runway_config(&weather), DenverConfig::NorthEast);
    weather.wind = (300, 20, 0);
    assert_eq!(determine_runway_config(&weather), DenverConfig::NorthWest);
    weather.wind = (100, 12, 0);
    assert_eq!(determine_runway_config(&weather), DenverConfig::SouthEast);
    weather.wind = (0, 30, 0);
    assert_eq!(determine_runway_config(&weather), DenverConfig::NorthAll);
    weather.wind = (90, 26, 0);
    assert_eq!(determine_runway_config(&weather), DenverConfig::EastAll);
    weather.wind = (250, 5, 40);
    assert_eq!(determine_runway_config(&weather), DenverConfig::WestAll);
}
