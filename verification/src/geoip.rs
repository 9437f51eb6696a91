//! Geolocation facts about an address, put together from what up to three
//! databases hold for it: one of autonomous systems, one of cities, one of
//! countries.
//!
//! The databases themselves are read outside this library. What is kept
//! here is which databases are installed, the records as plain values, and
//! what the records say together.

use crate::text::{clone_optional, decimal, decimal_string, optional_text, optional_view};
use vstd::prelude::*;
use vstd::string::*;

verus! {

/// The locale in which places are named.
pub const DISPLAY_LOCALE: &'static str = "ru";

/// What stands in for a place that is not known.
pub const UNKNOWN: &'static str = "-";

/// The names of a place, as far as they are read: its name in the display locale.
#[derive(Debug)]
pub struct Names {
    pub local: Option<String>,
}

/// A city or a country of a record of cities.
#[derive(Debug)]
pub struct Place {
    pub geoname_id: Option<u32>,
    pub names: Option<Names>,
}

/// The country of a record of countries.
#[derive(Debug)]
pub struct Nation {
    pub iso_code: Option<String>,
    pub names: Option<Names>,
}

/// What the database of autonomous systems holds for an address.
#[derive(Debug)]
pub struct AsnRecord {
    pub number: Option<u32>,
    pub organisation: Option<String>,
}

/// What the database of cities holds for an address.
#[derive(Debug)]
pub struct CityRecord {
    pub city: Option<Place>,
    pub country: Option<Place>,
}

/// What the database of countries holds for an address.
#[derive(Debug)]
pub struct CountryRecord {
    pub country: Option<Nation>,
}

/// A place as plain text and numbers.
pub struct PlaceView {
    pub geoname_id: Option<u32>,
    /// `None` where the place has no names at all, `Some(None)` where it
    /// has names but none in the display locale.
    pub names: Option<Option<Seq<char>>>,
}

/// The country of a record of countries as plain text.
pub struct NationView {
    pub iso_code: Option<Seq<char>>,
    /// As for a place.
    pub names: Option<Option<Seq<char>>>,
}

/// A record of autonomous systems as plain text and numbers.
pub struct AsnView {
    pub number: Option<u32>,
    pub organisation: Option<Seq<char>>,
}

/// A record of cities as plain text and numbers.
pub struct CityView {
    pub city: Option<PlaceView>,
    pub country: Option<PlaceView>,
}

/// A record of countries as plain text and numbers.
pub struct CountryView {
    pub country: Option<NationView>,
}

impl View for Names {
    type V = Option<Seq<char>>;

    open spec fn view(&self) -> Option<Seq<char>> {
        optional_text(self.local)
    }
}

impl View for Place {
    type V = PlaceView;

    open spec fn view(&self) -> PlaceView {
        PlaceView { geoname_id: self.geoname_id, names: optional_view(self.names) }
    }
}

impl View for Nation {
    type V = NationView;

    open spec fn view(&self) -> NationView {
        NationView { iso_code: optional_text(self.iso_code), names: optional_view(self.names) }
    }
}

impl View for AsnRecord {
    type V = AsnView;

    open spec fn view(&self) -> AsnView {
        AsnView { number: self.number, organisation: optional_text(self.organisation) }
    }
}

impl View for CityRecord {
    type V = CityView;

    open spec fn view(&self) -> CityView {
        CityView { city: optional_view(self.city), country: optional_view(self.country) }
    }
}

impl View for CountryRecord {
    type V = CountryView;

    open spec fn view(&self) -> CountryView {
        CountryView { country: optional_view(self.country) }
    }
}

/// Why the geolocation databases could not be opened or read.
#[derive(Debug)]
pub struct GeoError {
    /// What the database reader said.
    pub message: String,
}

/// What is known about the place and the network of an address.
#[derive(Debug)]
pub struct IpInfo {
    pub asn: Option<String>,
    pub country_code: Option<String>,
    pub organisation: Option<String>,
    pub city_geo_name_id: Option<u32>,
    pub location: String,
}

/// The facts about an address as plain text and numbers.
pub struct IpInfoView {
    pub asn: Option<Seq<char>>,
    pub country_code: Option<Seq<char>>,
    pub organisation: Option<Seq<char>>,
    pub city_geo_name_id: Option<u32>,
    pub location: Seq<char>,
}

impl View for IpInfo {
    type V = IpInfoView;

    open spec fn view(&self) -> IpInfoView {
        IpInfoView {
            asn: optional_text(self.asn),
            country_code: optional_text(self.country_code),
            organisation: optional_text(self.organisation),
            city_geo_name_id: self.city_geo_name_id,
            location: self.location@,
        }
    }
}

/// Nothing known: no network, no country, no city, and `-` for the location.
pub open spec fn nothing_known() -> IpInfoView {
    IpInfoView {
        asn: None,
        country_code: None,
        organisation: None,
        city_geo_name_id: None,
        location: UNKNOWN@,
    }
}

/// The name a place is known by: its name in the display locale, where it
/// has one and that name is not empty.
pub open spec fn known_name(names: Option<Option<Seq<char>>>) -> Option<Seq<char>> {
    match names {
        Some(Some(name)) => if name.len() > 0 {
            Some(name)
        } else {
            None
        },
        _ => None,
    }
}

/// The name the city of an address is known by.
pub open spec fn city_name(city: Option<CityView>) -> Option<Seq<char>> {
    match city {
        Some(CityView { city: Some(place), .. }) => known_name(place.names),
        _ => None,
    }
}

/// The name the country of an address is known by: the name that the
/// record of cities has for the country, and where it has none, the name
/// that the record of countries has.
pub open spec fn country_name(city: Option<CityView>, country: Option<CountryView>) -> Option<
    Seq<char>,
> {
    let by_city = match city {
        Some(CityView { country: Some(place), .. }) => known_name(place.names),
        _ => None,
    };
    let by_country = match country {
        Some(CountryView { country: Some(nation) }) => known_name(nation.names),
        _ => None,
    };
    match by_city {
        Some(name) => Some(name),
        None => by_country,
    }
}

/// Where an address is: city and country where both are known by name, the
/// country alone where only the country is, and `-` else.
pub open spec fn location_of(city: Option<Seq<char>>, country: Option<Seq<char>>) -> Seq<char> {
    match (city, country) {
        (Some(town), Some(land)) => town + ", "@ + land,
        (None, Some(land)) => land,
        (_, None) => UNKNOWN@,
    }
}

/// The facts that three records, each of which may be missing, give about an address.
pub open spec fn composed(
    asn: Option<AsnView>,
    city: Option<CityView>,
    country: Option<CountryView>,
) -> IpInfoView {
    IpInfoView {
        asn: match asn {
            Some(AsnView { number: Some(number), .. }) => Some("AS"@ + decimal(number as nat)),
            _ => None,
        },
        country_code: match country {
            Some(CountryView { country: Some(nation) }) => nation.iso_code,
            _ => None,
        },
        organisation: match asn {
            Some(record) => record.organisation,
            None => None,
        },
        city_geo_name_id: match city {
            Some(CityView { city: Some(place), .. }) => place.geoname_id,
            _ => None,
        },
        location: location_of(city_name(city), country_name(city, country)),
    }
}

/// The facts that three lookups give about an address, or the text of the
/// first lookup that failed: that of autonomous systems before that of
/// cities, and that before the one of countries.
pub open spec fn looked_up(
    asn: Result<Option<AsnRecord>, GeoError>,
    city: Result<Option<CityRecord>, GeoError>,
    country: Result<Option<CountryRecord>, GeoError>,
) -> Result<IpInfoView, Seq<char>> {
    match (asn, city, country) {
        (Err(e), _, _) => Err(e.message@),
        (Ok(_), Err(e), _) => Err(e.message@),
        (Ok(_), Ok(_), Err(e)) => Err(e.message@),
        (Ok(a), Ok(c), Ok(k)) => Ok(composed(optional_view(a), optional_view(c), optional_view(k))),
    }
}

/// The location is never empty.
pub proof fn lemma_location_not_empty(city: Option<Seq<char>>, country: Option<Seq<char>>)
    requires
        city matches Some(town) ==> town.len() > 0,
        country matches Some(land) ==> land.len() > 0,
    ensures
        location_of(city, country).len() > 0,
{
    reveal_strlit("-");
}

impl Default for IpInfo {
    fn default() -> (r: IpInfo)
        ensures
            r@ == nothing_known(),
    {
        IpInfo {
            asn: None,
            country_code: None,
            organisation: None,
            city_geo_name_id: None,
            location: String::from_str(UNKNOWN),
        }
    }
}

/// The name in the display locale, where there is one that is not empty.
fn known_name_string(names: &Option<Names>) -> (r: Option<String>)
    ensures
        optional_text(r) == known_name(optional_view(*names)),
{
    match names {
        Some(Names { local: Some(name) }) => if name.as_str().unicode_len() > 0 {
            Some(name.clone())
        } else {
            None
        },
        _ => None,
    }
}

impl IpInfo {
    /// Puts together what the three databases hold for one address.
    ///
    /// The network is written `AS` and its number. A place is known by its
    /// name in the display locale. The location is city and country,
    /// separated by a comma, where both are known, the country alone where
    /// only the country is, and `-` else; it is never empty.
    pub fn compose(
        asn: Option<AsnRecord>,
        city: Option<CityRecord>,
        country: Option<CountryRecord>,
    ) -> (r: IpInfo)
        ensures
            r@ == composed(optional_view(asn), optional_view(city), optional_view(country)),
            r@.location.len() > 0,
    {
        let country_code = match &country {
            Some(CountryRecord { country: Some(nation) }) => clone_optional(&nation.iso_code),
            _ => None,
        };
        let city_geo_name_id = match &city {
            Some(CityRecord { city: Some(place), .. }) => place.geoname_id,
            _ => None,
        };
        let town = match &city {
            Some(CityRecord { city: Some(place), .. }) => known_name_string(&place.names),
            _ => None,
        };
        let by_city = match &city {
            Some(CityRecord { country: Some(place), .. }) => known_name_string(&place.names),
            _ => None,
        };
        let land = match by_city {
            Some(name) => Some(name),
            None => match &country {
                Some(CountryRecord { country: Some(nation) }) => known_name_string(&nation.names),
                _ => None,
            },
        };
        proof {
            lemma_location_not_empty(optional_text(town), optional_text(land));
        }
        let location = match (town, land) {
            (Some(town), Some(land)) => {
                let mut text = town;
                text.append(", ");
                text.append(land.as_str());
                text
            },
            (None, Some(land)) => land,
            (_, None) => String::from_str(UNKNOWN),
        };
        let (network, organisation) = match &asn {
            Some(record) => {
                let network = match record.number {
                    Some(number) => {
                        let mut text = String::from_str("AS");
                        let digits = decimal_string(number as u64);
                        text.append(digits.as_str());
                        Some(text)
                    },
                    None => None,
                };
                (network, clone_optional(&record.organisation))
            },
            None => (None, None),
        };
        IpInfo { asn: network, country_code, organisation, city_geo_name_id, location }
    }

    /// The facts about an address from what three lookups gave for it. A
    /// database that is missing or has no record for the address gave
    /// `Ok(None)` and contributes nothing; a lookup that failed fails the
    /// whole, the first such in the order of the arguments.
    pub fn from_lookups(
        asn: Result<Option<AsnRecord>, GeoError>,
        city: Result<Option<CityRecord>, GeoError>,
        country: Result<Option<CountryRecord>, GeoError>,
    ) -> (r: Result<IpInfo, GeoError>)
        ensures
            match looked_up(asn, city, country) {
                Ok(info) => r matches Ok(found) && found@ == info && info.location.len() > 0,
                Err(text) => r matches Err(e) && e.message@ == text,
            },
    {
        let asn = match asn {
            Ok(found) => found,
            Err(e) => {
                return Err(e);
            },
        };
        let city = match city {
            Ok(found) => found,
            Err(e) => {
                return Err(e);
            },
        };
        let country = match country {
            Ok(found) => found,
            Err(e) => {
                return Err(e);
            },
        };
        Ok(IpInfo::compose(asn, city, country))
    }
}

/// Which databases are installed: one of autonomous systems, one of cities
/// and one of countries, each of which may be missing. `D` is what an
/// opened database is to the one who reads it.
pub struct GeoIp<D> {
    asn: Option<D>,
    city: Option<D>,
    country: Option<D>,
}

/// The first of three failures, if any, in the order given.
pub open spec fn first_failure<D>(
    first: Result<D, GeoError>,
    second: Result<D, GeoError>,
    third: Result<D, GeoError>,
) -> Option<GeoError> {
    match (first, second, third) {
        (Err(e), _, _) => Some(e),
        (Ok(_), Err(e), _) => Some(e),
        (Ok(_), Ok(_), Err(e)) => Some(e),
        (Ok(_), Ok(_), Ok(_)) => None,
    }
}

impl<D> GeoIp<D> {
    /// The database of autonomous systems.
    pub closed spec fn asn_db(&self) -> Option<D> {
        self.asn
    }

    /// The database of cities.
    pub closed spec fn city_db(&self) -> Option<D> {
        self.city
    }

    /// The database of countries.
    pub closed spec fn country_db(&self) -> Option<D> {
        self.country
    }

    /// No database at all.
    pub fn new() -> (r: GeoIp<D>)
        ensures
            r.asn_db() is None,
            r.city_db() is None,
            r.country_db() is None,
    {
        GeoIp { asn: None, city: None, country: None }
    }

    /// Replaces the three databases by those opened from what was fetched:
    /// the one of autonomous systems, the one of countries and the one of
    /// cities, in that order.
    ///
    /// The three replace the old ones together. Where one of them could not
    /// be opened, all three stay as they were, and the failure of the first
    /// such is handed back.
    pub fn update(
        &mut self,
        asn: Result<D, GeoError>,
        country: Result<D, GeoError>,
        city: Result<D, GeoError>,
    ) -> (r: Result<(), GeoError>)
        ensures
            match (asn, country, city) {
                (Ok(a), Ok(k), Ok(c)) => {
                    &&& r is Ok
                    &&& final(self).asn_db() == Some(a)
                    &&& final(self).country_db() == Some(k)
                    &&& final(self).city_db() == Some(c)
                },
                _ => r matches Err(e) && Some(e) == first_failure(asn, country, city) && *final(self)
                    == *old(self),
            },
    {
        let asn = match asn {
            Ok(db) => db,
            Err(e) => {
                return Err(e);
            },
        };
        let country = match country {
            Ok(db) => db,
            Err(e) => {
                return Err(e);
            },
        };
        let city = match city {
            Ok(db) => db,
            Err(e) => {
                return Err(e);
            },
        };
        self.asn = Some(asn);
        self.country = Some(country);
        self.city = Some(city);
        Ok(())
    }

    /// The database of autonomous systems, where one is installed.
    pub fn asn(&self) -> (r: Option<&D>)
        ensures
            match r {
                Some(db) => self.asn_db() == Some(*db),
                None => self.asn_db() is None,
            },
    {
        self.asn.as_ref()
    }

    /// The database of cities, where one is installed.
    pub fn city(&self) -> (r: Option<&D>)
        ensures
            match r {
                Some(db) => self.city_db() == Some(*db),
                None => self.city_db() is None,
            },
    {
        self.city.as_ref()
    }

    /// The database of countries, where one is installed.
    pub fn country(&self) -> (r: Option<&D>)
        ensures
            match r {
                Some(db) => self.country_db() == Some(*db),
                None => self.country_db() is None,
            },
    {
        self.country.as_ref()
    }
}

} // verus!
