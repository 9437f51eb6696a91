use cheburcheck::checker::{Checker, Refresh};
use cheburcheck::geoip::{
    AsnRecord, CityRecord, CountryRecord, GeoError, GeoIp, IpInfo, Names, Nation, Place,
    DISPLAY_LOCALE, UNKNOWN,
};

fn some(s: &str) -> Option<String> {
    Some(s.to_string())
}

fn place(id: Option<u32>, local: Option<Option<&str>>) -> Place {
    Place { geoname_id: id, names: local.map(|l| Names { local: l.map(|s| s.to_string()) }) }
}

fn nation(code: Option<&str>, local: Option<Option<&str>>) -> CountryRecord {
    CountryRecord {
        country: Some(Nation {
            iso_code: code.map(|s| s.to_string()),
            names: local.map(|l| Names { local: l.map(|s| s.to_string()) }),
        }),
    }
}

fn failure(text: &str) -> GeoError {
    GeoError { message: text.to_string() }
}

#[test]
fn geo_constants() {
    assert_eq!(DISPLAY_LOCALE, "ru");
    assert_eq!(UNKNOWN, "-");
}

#[test]
fn ip_info_default_knows_nothing() {
    let info = IpInfo::default();
    assert_eq!(info.asn, None);
    assert_eq!(info.country_code, None);
    assert_eq!(info.organisation, None);
    assert_eq!(info.city_geo_name_id, None);
    assert_eq!(info.location, "-");
}

#[test]
fn compose_without_records_knows_nothing() {
    let info = IpInfo::compose(None, None, None);
    assert_eq!(info.asn, None);
    assert_eq!(info.country_code, None);
    assert_eq!(info.organisation, None);
    assert_eq!(info.city_geo_name_id, None);
    assert_eq!(info.location, "-");
}

#[test]
fn compose_formats_the_network_number() {
    let asn = AsnRecord { number: Some(13335), organisation: some("CLOUDFLARENET") };
    let info = IpInfo::compose(Some(asn), None, None);
    assert_eq!(info.asn, some("AS13335"));
    assert_eq!(info.organisation, some("CLOUDFLARENET"));
    let asn = AsnRecord { number: None, organisation: some("Nameless") };
    let info = IpInfo::compose(Some(asn), None, None);
    assert_eq!(info.asn, None);
    assert_eq!(info.organisation, some("Nameless"));
    let asn = AsnRecord { number: Some(0), organisation: None };
    let info = IpInfo::compose(Some(asn), None, None);
    assert_eq!(info.asn, some("AS0"));
    assert_eq!(info.organisation, None);
    let asn = AsnRecord { number: Some(u32::MAX), organisation: None };
    assert_eq!(IpInfo::compose(Some(asn), None, None).asn, some("AS4294967295"));
}

#[test]
fn compose_location_is_city_and_country_where_both_are_known() {
    let city = CityRecord {
        city: Some(place(Some(524901), Some(Some("Москва")))),
        country: Some(place(None, Some(Some("Россия")))),
    };
    let info = IpInfo::compose(None, Some(city), Some(nation(Some("RU"), Some(Some("РФ")))));
    assert_eq!(info.location, "Москва, Россия");
    assert_eq!(info.city_geo_name_id, Some(524901));
    assert_eq!(info.country_code, some("RU"));
}

#[test]
fn compose_location_joins_a_city_with_the_country_of_the_other_record() {
    let city = CityRecord { city: Some(place(Some(1), Some(Some("Москва")))), country: None };
    let info = IpInfo::compose(None, Some(city), Some(nation(Some("RU"), Some(Some("Россия")))));
    assert_eq!(info.location, "Москва, Россия");
}

#[test]
fn compose_location_is_the_country_alone_where_the_city_has_no_name_in_the_locale() {
    let city = CityRecord {
        city: Some(place(Some(1), Some(None))),
        country: Some(place(None, Some(Some("Россия")))),
    };
    let info = IpInfo::compose(None, Some(city), None);
    assert_eq!(info.location, "Россия");
    assert_eq!(info.city_geo_name_id, Some(1));
    let city = CityRecord {
        city: Some(place(Some(1), None)),
        country: Some(place(None, Some(Some("Россия")))),
    };
    assert_eq!(IpInfo::compose(None, Some(city), None).location, "Россия");
    let city = CityRecord { city: None, country: Some(place(None, Some(Some("Россия")))) };
    assert_eq!(IpInfo::compose(None, Some(city), None).location, "Россия");
}

#[test]
fn compose_location_is_the_country_of_the_country_record_alone() {
    let info = IpInfo::compose(None, None, Some(nation(Some("DE"), Some(Some("Германия")))));
    assert_eq!(info.location, "Германия");
    assert_eq!(info.country_code, some("DE"));
    let city = CityRecord { city: Some(place(Some(7), Some(None))), country: Some(place(None, Some(None))) };
    let info = IpInfo::compose(None, Some(city), Some(nation(None, Some(Some("Германия")))));
    assert_eq!(info.location, "Германия");
    assert_eq!(info.country_code, None);
}

#[test]
fn compose_location_is_a_dash_where_the_country_is_not_known() {
    let city = CityRecord {
        city: Some(place(Some(1), Some(Some("Москва")))),
        country: Some(place(None, Some(None))),
    };
    assert_eq!(IpInfo::compose(None, Some(city), None).location, "-");
    let city = CityRecord { city: Some(place(Some(7), Some(Some("Москва")))), country: None };
    let info = IpInfo::compose(None, Some(city), Some(nation(Some("RU"), None)));
    assert_eq!(info.location, "-");
    assert_eq!(info.country_code, some("RU"));
    let info = IpInfo::compose(None, None, Some(CountryRecord { country: None }));
    assert_eq!(info.location, "-");
    assert_eq!(info.country_code, None);
    let info = IpInfo::compose(None, None, Some(nation(Some("RU"), Some(None))));
    assert_eq!(info.location, "-");
}

#[test]
fn compose_location_takes_an_empty_name_as_none() {
    let city = CityRecord {
        city: Some(place(Some(1), Some(Some("")))),
        country: Some(place(None, Some(Some("Россия")))),
    };
    assert_eq!(IpInfo::compose(None, Some(city), None).location, "Россия");
    let city = CityRecord {
        city: Some(place(Some(1), Some(Some("Москва")))),
        country: Some(place(None, Some(Some("")))),
    };
    assert_eq!(IpInfo::compose(None, Some(city), None).location, "-");
    let info = IpInfo::compose(None, None, Some(nation(None, Some(Some("")))));
    assert_eq!(info.location, "-");
}

#[test]
fn from_lookups_composes_what_was_found() {
    let asn = AsnRecord { number: Some(13335), organisation: some("CLOUDFLARENET") };
    let city = CityRecord {
        city: Some(place(Some(524901), Some(Some("Москва")))),
        country: Some(place(Some(2017370), Some(Some("Россия")))),
    };
    let info = IpInfo::from_lookups(
        Ok(Some(asn)),
        Ok(Some(city)),
        Ok(Some(nation(Some("RU"), Some(Some("Россия"))))),
    )
    .unwrap();
    assert_eq!(info.asn, some("AS13335"));
    assert_eq!(info.organisation, some("CLOUDFLARENET"));
    assert_eq!(info.country_code, some("RU"));
    assert_eq!(info.city_geo_name_id, Some(524901));
    assert_eq!(info.location, "Москва, Россия");
}

#[test]
fn from_lookups_without_records_knows_nothing() {
    let info = IpInfo::from_lookups(Ok(None), Ok(None), Ok(None)).unwrap();
    assert_eq!(info.asn, None);
    assert_eq!(info.location, "-");
}

#[test]
fn from_lookups_fails_with_the_first_failure() {
    let r = IpInfo::from_lookups(Err(failure("asn")), Err(failure("city")), Ok(None));
    assert_eq!(r.unwrap_err().message, "asn");
    let r = IpInfo::from_lookups(Ok(None), Err(failure("city")), Err(failure("country")));
    assert_eq!(r.unwrap_err().message, "city");
    let r = IpInfo::from_lookups(Ok(None), Ok(None), Err(failure("country")));
    assert_eq!(r.unwrap_err().message, "country");
}

#[test]
fn geo_ip_starts_without_databases() {
    let geo: GeoIp<String> = GeoIp::new();
    assert_eq!(geo.asn(), None);
    assert_eq!(geo.city(), None);
    assert_eq!(geo.country(), None);
}

#[test]
fn geo_ip_update_installs_all_three() {
    let mut geo: GeoIp<String> = GeoIp::new();
    let r = geo.update(Ok("asn".to_string()), Ok("country".to_string()), Ok("city".to_string()));
    assert!(r.is_ok());
    assert_eq!(geo.asn(), Some(&"asn".to_string()));
    assert_eq!(geo.country(), Some(&"country".to_string()));
    assert_eq!(geo.city(), Some(&"city".to_string()));
}

#[test]
fn geo_ip_update_with_one_failure_installs_none() {
    let mut geo: GeoIp<String> = GeoIp::new();
    let r = geo.update(Ok("asn".to_string()), Err(failure("no country")), Ok("city".to_string()));
    assert_eq!(r.unwrap_err().message, "no country");
    assert_eq!(geo.asn(), None);
    assert_eq!(geo.city(), None);
    assert_eq!(geo.country(), None);
}

#[test]
fn geo_ip_failed_update_keeps_the_old_databases() {
    let mut geo: GeoIp<String> = GeoIp::new();
    assert!(geo.update(Ok("a1".to_string()), Ok("k1".to_string()), Ok("c1".to_string())).is_ok());
    let r = geo.update(Ok("a2".to_string()), Ok("k2".to_string()), Err(failure("no city")));
    assert_eq!(r.unwrap_err().message, "no city");
    assert_eq!(geo.asn(), Some(&"a1".to_string()));
    assert_eq!(geo.country(), Some(&"k1".to_string()));
    assert_eq!(geo.city(), Some(&"c1".to_string()));
    let r = geo.update(Err(failure("first")), Err(failure("second")), Err(failure("third")));
    assert_eq!(r.unwrap_err().message, "first");
    assert_eq!(geo.asn(), Some(&"a1".to_string()));
}

#[test]
fn checker_install_geo_rejects_and_keeps() {
    let mut checker: Checker<u8> = Checker::new();
    assert!(matches!(checker.install_geo(None), Refresh::NotDownloaded));
    assert_eq!(checker.geo_ip().asn(), None);
    let done = checker.install_geo(Some((Ok(1), Ok(2), Ok(3))));
    assert!(matches!(done, Refresh::Installed));
    assert_eq!(checker.geo_ip().asn(), Some(&1));
    assert_eq!(checker.geo_ip().country(), Some(&2));
    assert_eq!(checker.geo_ip().city(), Some(&3));
    let done = checker.install_geo(Some((Ok(4), Err(failure("bad")), Ok(6))));
    match done {
        Refresh::Rejected(e) => assert_eq!(e.message, "bad"),
        _ => panic!("a database that cannot be opened is rejected"),
    }
    assert_eq!(checker.geo_ip().asn(), Some(&1));
    assert_eq!(checker.geo_ip().city(), Some(&3));
}

#[test]
fn update_all_installs_the_databases_beside_the_lists() {
    let mut checker: Checker<u8> = Checker::new();
    let report = checker.update_all(Some((Ok(1), Ok(2), Ok(3))), None, None, 5);
    assert!(matches!(report.geo, Refresh::Installed));
    assert!(matches!(report.rkn, Refresh::NotDownloaded));
    assert!(matches!(report.cdn, Refresh::NotDownloaded));
    assert_eq!(checker.geo_ip().asn(), Some(&1));
    assert_eq!(checker.last_update(), Some(5));
}
