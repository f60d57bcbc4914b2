use vzdv::aviation::{parse_metar, wind_between, MetarError, WeatherConditions};

#[test]
fn test_parse_metar_standard() {
    let ret = parse_metar("KDEN 030253Z 22013KT 10SM SCT100 BKN160 13/M12 A2943 RMK AO2 PK WND 21036/0211 SLP924 T01331117 58005").unwrap();
    assert_eq!(ret.name, "DEN");
    assert_eq!(ret.conditions, WeatherConditions::VFR);

    let ret = parse_metar("KDEN 2SM BNK005").unwrap();
    assert_eq!(ret.conditions, WeatherConditions::IFR);

    let ret = parse_metar("KDEN 4SM OVC020").unwrap();
    assert_eq!(ret.conditions, WeatherConditions::MVFR);

    let ret = parse_metar("KDEN 1/2SM OVC001").unwrap();
    assert_eq!(ret.conditions, WeatherConditions::LIFR);
}

#[test]
fn test_parse_metar_wind() {
    let missing = "K5SM 070435Z AUTO 10SM CLR M12/M13 A3015 RMK AO2";
    let ret = parse_metar(missing).unwrap();
    assert_eq!(ret.wind, (0, 0, 0));

    let standard = "KCPW 070435Z AUTO 03007KT OVC003 M13/M15 A3013 RMK AO2 PWINO";
    let ret = parse_metar(standard).unwrap();
    assert_eq!(ret.wind, (30, 7, 0));

    let gust = "KFLY 070435Z AUTO 36014G21KT OVC036 M05/M07 A3028 RMK AO2 T10531075 PWINO";
    let ret = parse_metar(gust).unwrap();
    assert_eq!(ret.wind, (360, 14, 21));
}

#[test]
fn test_parse_metar_odd_ones() {
    let entries = &[
        "K4BM 070435Z AUTO 36006KT BKN009 OVC014 A3021 RMK AO2 PWINO",
        "K5SM 070435Z AUTO 10SM CLR M12/M13 A3015 RMK AO2",
        "KAEJ 242115Z AUTO 18/M10 A3011 RMK AO2 T01801100 PWINO",
        "KCPW 070435Z AUTO 03007KT OVC003 M13/M15 A3013 RMK AO2 PWINO",
        "KDWX 070435Z AUTO 36009KT CLR M07/M10 A3026 RMK AO2 T10681100 PWINO",
        "KFLY 070435Z AUTO 36014G21KT OVC036 M05/M07 A3028 RMK AO2 T10531075 PWINO",
        "KHEQ 070435Z AUTO 00/00 RMK AO2 TSNO PWINO",
        "KMYP 070435Z AUTO OVC002 M14/M16 A3018 RMK AO2 PWINO",
        "KTBX 070415Z AUTO 15017KT CLR M06/M12 A3027 RMK AO2 PWINO",
        "KAPA 081853Z VRB06KT 10SM SCT055 16/02 A3027 RMK AO2 SLP224 T01610017",
    ];

    for entry in entries {
        _ = parse_metar(entry).unwrap();
    }
}

#[test]
fn test_wind_between() {
    assert!(wind_between(0, 0, 0));
    assert!(wind_between(90, 0, 180));
    assert!(wind_between(5, 350, 10));
    assert!(!wind_between(20, 0, 10));
}

#[test]
fn metar_fields_are_read() {
    let ret = parse_metar("KAPA 081853Z VRB06KT 10SM SCT055 BKN012 16/02 A3027").unwrap();
    assert_eq!(ret.name, "APA");
    assert_eq!(ret.wind, (0, 6, 0));
    assert_eq!(ret.visibility, 10);
    assert_eq!(ret.ceiling, 1200);
    assert_eq!(ret.conditions, WeatherConditions::MVFR);
    assert_eq!(ret.raw, "KAPA 081853Z VRB06KT 10SM SCT055 BKN012 16/02 A3027");
}

#[test]
fn metar_without_layers_has_default_ceiling() {
    let ret = parse_metar("DEN 10SM CLR").unwrap();
    assert_eq!(ret.name, "DEN");
    assert_eq!(ret.ceiling, 3456);
    assert_eq!(ret.conditions, WeatherConditions::VFR);
}

#[test]
fn metar_errors() {
    assert_eq!(parse_metar("KDEN OVCXYZ").err(), Some(MetarError::BadCeiling));
    assert_eq!(parse_metar("KDEN OVC700").err(), Some(MetarError::BadCeiling));
    assert_eq!(parse_metar("KDEN 1XSM").err(), Some(MetarError::BadVisibility));
    assert_eq!(parse_metar("KDEN ABCKT").err(), Some(MetarError::BadWind));
}

#[test]
fn wind_between_folds_headings() {
    assert!(wind_between(370, 0, 20));
    assert!(wind_between(355, 710, 5));
    assert!(!wind_between(180, 270, 90));
}
