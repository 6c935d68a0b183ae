//! Maidenhead Locator System conversion, 4-character (field+square)
//! precision, such as `IO80`, shared by the location picker and the contact
//! map. Latitudes and longitudes are in millionths of a degree.

use vstd::prelude::*;
use crate::text::{
    ascii_lower, ascii_upper, chars_of, digit, is_digit, same_but_for_case, string_of,
    to_ascii_upper, trim, trimmed, trimmed_back, trimmed_front, white_space,
};

verus! {

/// The value nearest to `x` between `low` and `high`.
pub open spec fn between(x: int, low: int, high: int) -> int {
    if x < low {
        low
    } else if x > high {
        high
    } else {
        x
    }
}

/// How far north of the south pole a latitude lies, short of the north pole.
pub open spec fn north_of_pole(lat: int) -> int {
    between(between(lat, -90_000_000, 90_000_000) + 90_000_000, 0, 179_999_999)
}

/// How far east of the date line a longitude lies, short of a full turn.
pub open spec fn east_of_date_line(lon: int) -> int {
    between(between(lon, -180_000_000, 180_000_000) + 180_000_000, 0, 359_999_999)
}

/// The letter for a field, counted from zero.
pub open spec fn field_letter(n: int) -> char {
    (65 + n) as char
}

/// The locator of the square that a position lies in.
pub open spec fn locator_of(lat: int, lon: int) -> Seq<char> {
    let east = east_of_date_line(lon);
    let north = north_of_pole(lat);
    seq![
        field_letter(east / 20_000_000),
        field_letter(north / 10_000_000),
        digit(east % 20_000_000 / 2_000_000),
        digit(north % 10_000_000 / 1_000_000),
    ]
}

pub open spec fn is_field(c: char) -> bool {
    'A' <= ascii_upper(c) && ascii_upper(c) <= 'R'
}

/// Whether four characters, in either case, make a locator.
pub open spec fn is_locator(text: Seq<char>) -> bool {
    &&& text.len() == 4
    &&& is_field(text[0])
    &&& is_field(text[1])
    &&& is_digit(text[2])
    &&& is_digit(text[3])
}

/// The latitude and longitude at the center of a text's square, if the text
/// without the white space around it is a locator.
pub open spec fn center_of(text: Seq<char>) -> Option<(int, int)> {
    let inner = trimmed(text);
    if is_locator(inner) {
        let field_lon = ascii_upper(inner[0]) as int - 65;
        let field_lat = ascii_upper(inner[1]) as int - 65;
        let square_lon = inner[2] as int - 48;
        let square_lat = inner[3] as int - 48;
        Some(
            (
                field_lat * 10_000_000 + square_lat * 1_000_000 + 500_000 - 90_000_000,
                field_lon * 20_000_000 + square_lon * 2_000_000 + 1_000_000 - 180_000_000,
            ),
        )
    } else {
        None
    }
}

fn confine(x: i64, low: i64, high: i64) -> (y: i64)
    requires
        low <= high,
    ensures
        y == between(x as int, low as int, high as int),
{
    if x < low {
        low
    } else if x > high {
        high
    } else {
        x
    }
}

/// Converts a latitude and a longitude to a 4-character locator such as
/// `IO80`. What lies outside the globe counts as its nearest edge.
pub fn to_locator(lat: i64, lon: i64) -> (locator: String)
    ensures
        locator@ == locator_of(lat as int, lon as int),
{
    let east: u64 = confine(
        confine(lon, -180_000_000, 180_000_000) + 180_000_000,
        0,
        359_999_999,
    ) as u64;
    let north: u64 = confine(
        confine(lat, -90_000_000, 90_000_000) + 90_000_000,
        0,
        179_999_999,
    ) as u64;
    let chars: Vec<char> = vec![
        (65 + (east / 20_000_000) as u8) as char,
        (65 + (north / 10_000_000) as u8) as char,
        (48 + (east % 20_000_000 / 2_000_000) as u8) as char,
        (48 + (north % 10_000_000 / 1_000_000) as u8) as char,
    ];
    assert(chars@ == locator_of(lat as int, lon as int));
    string_of(&chars)
}

/// Parses a 4-character locator (case-insensitive) back to the latitude and
/// longitude at the *center* of that square. Returns `None` for anything that
/// is not a well-formed locator, such as freeform location text.
pub fn to_latlon_center(locator: &str) -> (center: Option<(i64, i64)>)
    ensures
        match center {
            Some((lat, lon)) => center_of(locator@) == Some((lat as int, lon as int)),
            None => center_of(locator@) is None,
        },
{
    let inner = trim(locator);
    let chars = chars_of(&inner);
    if chars.len() != 4 {
        return None;
    }
    let field_lon = to_ascii_upper(chars[0]);
    let field_lat = to_ascii_upper(chars[1]);
    if !('A' <= field_lon && field_lon <= 'R') || !('A' <= field_lat && field_lat <= 'R') {
        return None;
    }
    if !('0' <= chars[2] && chars[2] <= '9') || !('0' <= chars[3] && chars[3] <= '9') {
        return None;
    }
    let field_lon: i64 = field_lon as i64 - 65;
    let field_lat: i64 = field_lat as i64 - 65;
    let square_lon: i64 = chars[2] as i64 - 48;
    let square_lat: i64 = chars[3] as i64 - 48;
    let lon: i64 = field_lon * 20_000_000 + square_lon * 2_000_000 + 1_000_000 - 180_000_000;
    let lat: i64 = field_lat * 10_000_000 + square_lat * 1_000_000 + 500_000 - 90_000_000;
    Some((lat, lon))
}

/// Whether a text is a locator, with or without white space around it.
pub fn is_valid_locator(text: &str) -> (yes: bool)
    ensures
        yes == (center_of(text@) is Some),
{
    to_latlon_center(text).is_some()
}

// ---------------------------------------------------------------------
// Laws
// ---------------------------------------------------------------------

/// The center of a locator's square lies in that square: converting there and
/// back gives the locator in upper case, without the white space around it.
pub proof fn a_center_lies_in_its_square(locator: Seq<char>)
    ensures
        center_of(locator) matches Some((lat, lon)) ==> locator_of(lat, lon) == trimmed(
            locator,
        ).map_values(|c: char| ascii_upper(c)),
{
    if let Some((lat, lon)) = center_of(locator) {
        let inner = trimmed(locator);
        let upper = inner.map_values(|c: char| ascii_upper(c));
        let made = locator_of(lat, lon);
        assert(made[0] == upper[0]);
        assert(made[1] == upper[1]);
        assert(made[2] == upper[2]);
        assert(made[3] == upper[3]);
        assert(made == upper);
    }
}

/// Every position has a valid locator, and no position is farther from the
/// center of its square than half the square's size.
pub proof fn every_position_is_near_its_center(lat: int, lon: int)
    ensures
        center_of(locator_of(lat, lon)) matches Some((center_lat, center_lon)) && {
            &&& -500_000 <= center_lat - between(lat, -90_000_000, 90_000_000) <= 500_000
            &&& -1_000_000 <= center_lon - between(lon, -180_000_000, 180_000_000) <= 1_000_000
        },
{
    let text = locator_of(lat, lon);
    assert(text[0] as int == 65 + east_of_date_line(lon) / 20_000_000);
    assert(text[1] as int == 65 + north_of_pole(lat) / 10_000_000);
    assert(text[2] as int == 48 + east_of_date_line(lon) % 20_000_000 / 2_000_000);
    assert(text[3] as int == 48 + north_of_pole(lat) % 10_000_000 / 1_000_000);
    crate::text::trimming_keeps_a_tight_text(text);
}

/// The case of a locator's letters does not matter.
pub proof fn case_does_not_matter(a: Seq<char>, b: Seq<char>)
    requires
        same_but_for_case(a, b),
    ensures
        center_of(a) == center_of(b),
{
    front_keeps_sameness(a, b);
    back_keeps_sameness(trimmed_front(a), trimmed_front(b));
    let x = trimmed(a);
    let y = trimmed(b);
    if x.len() == 4 {
        assert(ascii_lower(x[0]) == ascii_lower(y[0]));
        assert(ascii_lower(x[1]) == ascii_lower(y[1]));
        assert(ascii_lower(x[2]) == ascii_lower(y[2]));
        assert(ascii_lower(x[3]) == ascii_lower(y[3]));
    }
}

proof fn front_keeps_sameness(a: Seq<char>, b: Seq<char>)
    requires
        same_but_for_case(a, b),
    ensures
        same_but_for_case(trimmed_front(a), trimmed_front(b)),
    decreases a.len(),
{
    if a.len() > 0 {
        assert(ascii_lower(a[0]) == ascii_lower(b[0]));
        assert(white_space(a[0]) == white_space(b[0]));
        assert forall|i: int| 0 <= i < a.len() - 1 implies ascii_lower(
            #[trigger] a.drop_first()[i],
        ) == ascii_lower(b.drop_first()[i]) by {
            assert(ascii_lower(a[i + 1]) == ascii_lower(b[i + 1]));
        }
        if white_space(a[0]) {
            front_keeps_sameness(a.drop_first(), b.drop_first());
        }
    }
}

proof fn back_keeps_sameness(a: Seq<char>, b: Seq<char>)
    requires
        same_but_for_case(a, b),
    ensures
        same_but_for_case(trimmed_back(a), trimmed_back(b)),
    decreases a.len(),
{
    if a.len() > 0 {
        assert(ascii_lower(a.last()) == ascii_lower(b.last()));
        assert(white_space(a.last()) == white_space(b.last()));
        assert forall|i: int| 0 <= i < a.len() - 1 implies ascii_lower(
            #[trigger] a.drop_last()[i],
        ) == ascii_lower(b.drop_last()[i]) by {
            assert(ascii_lower(a[i]) == ascii_lower(b[i]));
        }
        if white_space(a.last()) {
            back_keeps_sameness(a.drop_last(), b.drop_last());
        }
    }
}

/// The grid starts at the south pole on the date line with AA00, and the first
/// letter goes one further for every twenty degrees east.
pub proof fn fields_are_counted_eastward(lat: int, lon: int)
    requires
        -90_000_000 <= lat < 90_000_000,
        -180_000_000 <= lon < 180_000_000,
    ensures
        lat < -89_000_000 && lon < -178_000_000 ==> locator_of(lat, lon) == seq![
            'A',
            'A',
            '0',
            '0',
        ],
        lon + 20_000_000 < 180_000_000 ==> {
            let (here, there) = (locator_of(lat, lon), locator_of(lat, lon + 20_000_000));
            &&& there[0] as int == here[0] as int + 1
            &&& there[1] == here[1]
            &&& there[2] == here[2]
            &&& there[3] == here[3]
        },
{
    let east = lon + 180_000_000;
    assert(east_of_date_line(lon) == east);
    if lat < -89_000_000 && lon < -178_000_000 {
        assert(locator_of(lat, lon) == seq!['A', 'A', '0', '0']);
    }
    if lon + 20_000_000 < 180_000_000 {
        assert(east_of_date_line(lon + 20_000_000) == east + 20_000_000);
        assert((east + 20_000_000) / 20_000_000 == east / 20_000_000 + 1);
        assert((east + 20_000_000) % 20_000_000 == east % 20_000_000);
    }
}

/// The second letter goes one further for every ten degrees north.
pub proof fn fields_are_counted_northward(lat: int, lon: int)
    requires
        -90_000_000 <= lat,
        lat + 10_000_000 < 90_000_000,
    ensures
        ({
            let (here, there) = (locator_of(lat, lon), locator_of(lat + 10_000_000, lon));
            &&& there[1] as int == here[1] as int + 1
            &&& there[0] == here[0]
            &&& there[2] == here[2]
            &&& there[3] == here[3]
        }),
{
    let north = lat + 90_000_000;
    assert(north_of_pole(lat) == north);
    assert(north_of_pole(lat + 10_000_000) == north + 10_000_000);
    assert((north + 10_000_000) / 10_000_000 == north / 10_000_000 + 1);
    assert((north + 10_000_000) % 10_000_000 == north % 10_000_000);
}

/// Within a field the first digit goes one further for every two degrees east.
pub proof fn squares_are_counted_eastward(lat: int, lon: int)
    requires
        -180_000_000 <= lon,
        lon + 2_000_000 < 180_000_000,
        (lon + 180_000_000) % 20_000_000 < 18_000_000,
    ensures
        ({
            let (here, there) = (locator_of(lat, lon), locator_of(lat, lon + 2_000_000));
            &&& there[2] as int == here[2] as int + 1
            &&& there[0] == here[0]
            &&& there[1] == here[1]
            &&& there[3] == here[3]
        }),
{
    let east = lon + 180_000_000;
    assert(east_of_date_line(lon) == east);
    assert(east_of_date_line(lon + 2_000_000) == east + 2_000_000);
    assert((east + 2_000_000) / 20_000_000 == east / 20_000_000);
    assert((east + 2_000_000) % 20_000_000 == east % 20_000_000 + 2_000_000);
}

/// Within a field the second digit goes one further for every degree north.
pub proof fn squares_are_counted_northward(lat: int, lon: int)
    requires
        -90_000_000 <= lat,
        lat + 1_000_000 < 90_000_000,
        (lat + 90_000_000) % 10_000_000 < 9_000_000,
    ensures
        ({
            let (here, there) = (locator_of(lat, lon), locator_of(lat + 1_000_000, lon));
            &&& there[3] as int == here[3] as int + 1
            &&& there[0] == here[0]
            &&& there[1] == here[1]
            &&& there[2] == here[2]
        }),
{
    let north = lat + 90_000_000;
    assert(north_of_pole(lat) == north);
    assert(north_of_pole(lat + 1_000_000) == north + 1_000_000);
    assert((north + 1_000_000) / 10_000_000 == north / 10_000_000);
    assert((north + 1_000_000) % 10_000_000 == north % 10_000_000 + 1_000_000);
}

/// What lies beyond an edge of the globe counts as lying on that edge, and the
/// northern and the eastern edge belong to the last squares before them.
pub proof fn beyond_the_globe_is_its_edge(lat: int, lon: int)
    ensures
        lat < -90_000_000 ==> locator_of(lat, lon) == locator_of(-90_000_000, lon),
        lat >= 90_000_000 ==> locator_of(lat, lon) == locator_of(89_999_999, lon),
        lon < -180_000_000 ==> locator_of(lat, lon) == locator_of(lat, -180_000_000),
        lon >= 180_000_000 ==> locator_of(lat, lon) == locator_of(lat, 179_999_999),
{
}

/// The center of a square is half a square north and east of its south-west
/// corner.
pub proof fn centers_lie_half_a_square_in(east: int, north: int)
    requires
        0 <= east < 180,
        0 <= north < 180,
    ensures
        center_of(
            locator_of(north * 1_000_000 - 90_000_000, east * 2_000_000 - 180_000_000),
        ) == Some(
            (
                north * 1_000_000 - 90_000_000 + 500_000,
                east * 2_000_000 - 180_000_000 + 1_000_000,
            ),
        ),
{
    let (lat, lon) = (north * 1_000_000 - 90_000_000, east * 2_000_000 - 180_000_000);
    let text = locator_of(lat, lon);
    assert(text[0] as int == 65 + east_of_date_line(lon) / 20_000_000);
    assert(text[1] as int == 65 + north_of_pole(lat) / 10_000_000);
    assert(text[2] as int == 48 + east_of_date_line(lon) % 20_000_000 / 2_000_000);
    assert(text[3] as int == 48 + north_of_pole(lat) % 10_000_000 / 1_000_000);
    crate::text::trimming_keeps_a_tight_text(text);
}

/// A text is valid exactly where, trimmed and in upper case, it is the locator
/// of some square of the globe.
pub proof fn valid_texts_are_those_of_squares(text: Seq<char>)
    ensures
        center_of(text) is Some <==> exists|lat: int, lon: int| #[trigger]
            locator_of(lat, lon) == trimmed(text).map_values(|c: char| ascii_upper(c)),
{
    let inner = trimmed(text);
    let upper = inner.map_values(|c: char| ascii_upper(c));
    if let Some((lat, lon)) = center_of(text) {
        a_center_lies_in_its_square(text);
        assert(locator_of(lat, lon) == upper);
    }
    if exists|lat: int, lon: int| #[trigger] locator_of(lat, lon) == upper {
        let (lat, lon) = choose|lat: int, lon: int| #[trigger] locator_of(lat, lon) == upper;
        let made = locator_of(lat, lon);
        assert(made[0] as int == 65 + east_of_date_line(lon) / 20_000_000);
        assert(made[1] as int == 65 + north_of_pole(lat) / 10_000_000);
        assert(made[2] as int == 48 + east_of_date_line(lon) % 20_000_000 / 2_000_000);
        assert(made[3] as int == 48 + north_of_pole(lat) % 10_000_000 / 1_000_000);
        assert(upper.len() == inner.len());
        assert(upper[0] == ascii_upper(inner[0]) && upper[1] == ascii_upper(inner[1]));
        assert(upper[2] == ascii_upper(inner[2]) && upper[3] == ascii_upper(inner[3]));
        assert(is_locator(inner));
    }
}

} // verus!
