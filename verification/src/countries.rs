use vstd::prelude::*;
use crate::settings::str_eq;

verus! {

/// A European country with its map center and the zoom level that shows all of it.
#[derive(Clone, Copy, Debug)]
pub struct Country {
    /// ISO 3166-1 alpha-2 code.
    pub code: &'static str,
    pub name: &'static str,
    /// Center longitude in hundredths of a degree (lon before lat, as GeoJSON and MapLibre).
    pub lon_centideg: i32,
    /// Center latitude in hundredths of a degree.
    pub lat_centideg: i32,
    /// Default zoom showing the full country.
    pub zoom: u8,
}

/// Number of countries in the table.
pub const COUNTRY_COUNT: usize = 29;

/// Position of Germany, the fallback country, in the table.
pub const FALLBACK_COUNTRY: usize = 6;

/// The `i`-th country of the table (ordered by code).
pub open spec fn country_at(i: int) -> Country {
    if i == 0 { Country { code: "AT", name: "Austria", lon_centideg: 1412, lat_centideg: 4760, zoom: 6 } }
    else if i == 1 { Country { code: "BE", name: "Belgium", lon_centideg: 447, lat_centideg: 5050, zoom: 7 } }
    else if i == 2 { Country { code: "BG", name: "Bulgaria", lon_centideg: 2550, lat_centideg: 4270, zoom: 7 } }
    else if i == 3 { Country { code: "CH", name: "Switzerland", lon_centideg: 823, lat_centideg: 4682, zoom: 7 } }
    else if i == 4 { Country { code: "CY", name: "Cyprus", lon_centideg: 3343, lat_centideg: 3513, zoom: 8 } }
    else if i == 5 { Country { code: "CZ", name: "Czech Republic", lon_centideg: 1547, lat_centideg: 4982, zoom: 7 } }
    else if i == 6 { Country { code: "DE", name: "Germany", lon_centideg: 1045, lat_centideg: 5120, zoom: 5 } }
    else if i == 7 { Country { code: "DK", name: "Denmark", lon_centideg: 1000, lat_centideg: 5600, zoom: 6 } }
    else if i == 8 { Country { code: "EE", name: "Estonia", lon_centideg: 2475, lat_centideg: 5860, zoom: 7 } }
    else if i == 9 { Country { code: "ES", name: "Spain", lon_centideg: -370i32, lat_centideg: 4040, zoom: 5 } }
    else if i == 10 { Country { code: "FI", name: "Finland", lon_centideg: 2500, lat_centideg: 6400, zoom: 5 } }
    else if i == 11 { Country { code: "FR", name: "France", lon_centideg: 235, lat_centideg: 4623, zoom: 5 } }
    else if i == 12 { Country { code: "GR", name: "Greece", lon_centideg: 2182, lat_centideg: 3907, zoom: 6 } }
    else if i == 13 { Country { code: "HR", name: "Croatia", lon_centideg: 1520, lat_centideg: 4510, zoom: 7 } }
    else if i == 14 { Country { code: "HU", name: "Hungary", lon_centideg: 1950, lat_centideg: 4716, zoom: 7 } }
    else if i == 15 { Country { code: "IE", name: "Ireland", lon_centideg: -824i32, lat_centideg: 5341, zoom: 7 } }
    else if i == 16 { Country { code: "IT", name: "Italy", lon_centideg: 1257, lat_centideg: 4187, zoom: 5 } }
    else if i == 17 { Country { code: "LT", name: "Lithuania", lon_centideg: 2388, lat_centideg: 5517, zoom: 7 } }
    else if i == 18 { Country { code: "LU", name: "Luxembourg", lon_centideg: 613, lat_centideg: 4977, zoom: 9 } }
    else if i == 19 { Country { code: "LV", name: "Latvia", lon_centideg: 2475, lat_centideg: 5685, zoom: 7 } }
    else if i == 20 { Country { code: "MT", name: "Malta", lon_centideg: 1437, lat_centideg: 3590, zoom: 10 } }
    else if i == 21 { Country { code: "NL", name: "Netherlands", lon_centideg: 529, lat_centideg: 5213, zoom: 7 } }
    else if i == 22 { Country { code: "NO", name: "Norway", lon_centideg: 847, lat_centideg: 6047, zoom: 5 } }
    else if i == 23 { Country { code: "PL", name: "Poland", lon_centideg: 1914, lat_centideg: 5192, zoom: 6 } }
    else if i == 24 { Country { code: "PT", name: "Portugal", lon_centideg: -822i32, lat_centideg: 3940, zoom: 6 } }
    else if i == 25 { Country { code: "RO", name: "Romania", lon_centideg: 2497, lat_centideg: 4594, zoom: 7 } }
    else if i == 26 { Country { code: "SE", name: "Sweden", lon_centideg: 1500, lat_centideg: 6200, zoom: 5 } }
    else if i == 27 { Country { code: "SI", name: "Slovenia", lon_centideg: 1499, lat_centideg: 4612, zoom: 8 } }
    else { Country { code: "SK", name: "Slovakia", lon_centideg: 1970, lat_centideg: 4867, zoom: 7 } }
}

/// The country table, ordered by code.
pub fn countries() -> (res: Vec<Country>)
    ensures
        res@.len() == COUNTRY_COUNT,
        forall|i: int| 0 <= i < COUNTRY_COUNT ==> #[trigger] res@[i] == country_at(i),
{
    let mut v: Vec<Country> = Vec::new();
    v.push(Country { code: "AT", name: "Austria", lon_centideg: 1412, lat_centideg: 4760, zoom: 6 });
    v.push(Country { code: "BE", name: "Belgium", lon_centideg: 447, lat_centideg: 5050, zoom: 7 });
    v.push(Country { code: "BG", name: "Bulgaria", lon_centideg: 2550, lat_centideg: 4270, zoom: 7 });
    v.push(Country { code: "CH", name: "Switzerland", lon_centideg: 823, lat_centideg: 4682, zoom: 7 });
    v.push(Country { code: "CY", name: "Cyprus", lon_centideg: 3343, lat_centideg: 3513, zoom: 8 });
    v.push(Country { code: "CZ", name: "Czech Republic", lon_centideg: 1547, lat_centideg: 4982, zoom: 7 });
    v.push(Country { code: "DE", name: "Germany", lon_centideg: 1045, lat_centideg: 5120, zoom: 5 });
    v.push(Country { code: "DK", name: "Denmark", lon_centideg: 1000, lat_centideg: 5600, zoom: 6 });
    v.push(Country { code: "EE", name: "Estonia", lon_centideg: 2475, lat_centideg: 5860, zoom: 7 });
    v.push(Country { code: "ES", name: "Spain", lon_centideg: -370i32, lat_centideg: 4040, zoom: 5 });
    v.push(Country { code: "FI", name: "Finland", lon_centideg: 2500, lat_centideg: 6400, zoom: 5 });
    v.push(Country { code: "FR", name: "France", lon_centideg: 235, lat_centideg: 4623, zoom: 5 });
    v.push(Country { code: "GR", name: "Greece", lon_centideg: 2182, lat_centideg: 3907, zoom: 6 });
    v.push(Country { code: "HR", name: "Croatia", lon_centideg: 1520, lat_centideg: 4510, zoom: 7 });
    v.push(Country { code: "HU", name: "Hungary", lon_centideg: 1950, lat_centideg: 4716, zoom: 7 });
    v.push(Country { code: "IE", name: "Ireland", lon_centideg: -824i32, lat_centideg: 5341, zoom: 7 });
    v.push(Country { code: "IT", name: "Italy", lon_centideg: 1257, lat_centideg: 4187, zoom: 5 });
    v.push(Country { code: "LT", name: "Lithuania", lon_centideg: 2388, lat_centideg: 5517, zoom: 7 });
    v.push(Country { code: "LU", name: "Luxembourg", lon_centideg: 613, lat_centideg: 4977, zoom: 9 });
    v.push(Country { code: "LV", name: "Latvia", lon_centideg: 2475, lat_centideg: 5685, zoom: 7 });
    v.push(Country { code: "MT", name: "Malta", lon_centideg: 1437, lat_centideg: 3590, zoom: 10 });
    v.push(Country { code: "NL", name: "Netherlands", lon_centideg: 529, lat_centideg: 5213, zoom: 7 });
    v.push(Country { code: "NO", name: "Norway", lon_centideg: 847, lat_centideg: 6047, zoom: 5 });
    v.push(Country { code: "PL", name: "Poland", lon_centideg: 1914, lat_centideg: 5192, zoom: 6 });
    v.push(Country { code: "PT", name: "Portugal", lon_centideg: -822i32, lat_centideg: 3940, zoom: 6 });
    v.push(Country { code: "RO", name: "Romania", lon_centideg: 2497, lat_centideg: 4594, zoom: 7 });
    v.push(Country { code: "SE", name: "Sweden", lon_centideg: 1500, lat_centideg: 6200, zoom: 5 });
    v.push(Country { code: "SI", name: "Slovenia", lon_centideg: 1499, lat_centideg: 4612, zoom: 8 });
    v.push(Country { code: "SK", name: "Slovakia", lon_centideg: 1970, lat_centideg: 4867, zoom: 7 });
    assert forall|i: int| 0 <= i < COUNTRY_COUNT implies #[trigger] v@[i] == country_at(i) by {}
    v
}

/// Position of the country with code `code`: the first match, else Germany.
pub open spec fn country_index(code: Seq<char>) -> int {
    if exists|i: int| 0 <= i < COUNTRY_COUNT && (#[trigger] country_at(i)).code@ == code {
        choose|i: int| 0 <= i < COUNTRY_COUNT && (#[trigger] country_at(i)).code@ == code
            && forall|j: int| 0 <= j < i ==> (#[trigger] country_at(j)).code@ != code
    } else {
        FALLBACK_COUNTRY as int
    }
}

/// The country with code `code`, falling back to Germany.
pub fn find_country(code: &str) -> (res: Country)
    ensures
        res == country_at(country_index(code@)),
{
    let table: Vec<Country> = countries();
    let mut i: usize = 0;
    while i < table.len()
        invariant
            i <= table@.len(),
            table@.len() == COUNTRY_COUNT,
            forall|k: int| 0 <= k < COUNTRY_COUNT ==> #[trigger] table@[k] == country_at(k),
            forall|j: int| 0 <= j < i ==> (#[trigger] country_at(j)).code@ != code@,
        decreases table@.len() - i,
    {
        assert(table@[i as int] == country_at(i as int));
        if str_eq(table[i].code, code) {
            proof {
                assert(0 <= i < COUNTRY_COUNT && country_at(i as int).code@ == code@);
                let w = choose|x: int| 0 <= x < COUNTRY_COUNT && (#[trigger] country_at(x)).code@ == code@
                    && forall|j: int| 0 <= j < x ==> (#[trigger] country_at(j)).code@ != code@;
                assert(0 <= i < COUNTRY_COUNT && country_at(i as int).code@ == code@
                    && forall|j: int| 0 <= j < i ==> (#[trigger] country_at(j)).code@ != code@);
                if w < i {
                    assert(country_at(w).code@ != code@);
                } else if w > i {
                    assert(country_at(i as int).code@ != code@);
                }
            }
            return table[i];
        }
        i = i + 1;
    }
    assert(table@[FALLBACK_COUNTRY as int] == country_at(FALLBACK_COUNTRY as int));
    table[FALLBACK_COUNTRY]
}

} // verus!
