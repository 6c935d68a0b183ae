//! The Maidenhead grid map: everyone heard from, the lines of the grid, and
//! the coastlines under it. One map, two uses: picking a home locator, and
//! showing the contacts.

use vstd::prelude::*;
use crate::bytes::{push_u32, read_u32, u32_at, u32_bytes, u32_round_trip};
use crate::maidenhead::{center_of, locator_of, to_latlon_center, to_locator};
use crate::text::{chars_of, said, string_of, together, together3};

verus! {

/// The mode that a contact was heard through.
#[derive(Clone, Copy, Debug, PartialEq, Eq, Structural)]
pub enum ContactVia {
    Mail,
    Social,
}

/// Someone heard from.
pub struct Contact {
    pub locator: String,
    pub label: String,
    /// Seconds since the epoch.
    pub last_heard: u64,
    pub via: ContactVia,
}

/// What the map is used for.
pub enum MapMode<'a> {
    /// Click anywhere to select a locator; `selected` is also the square that
    /// is highlighted.
    Pick { selected: &'a mut Option<String> },
    View { home: Option<&'a str>, contacts: &'a [Contact] },
}

/// Selects the square that was clicked, at a position in millionths of a
/// degree.
pub fn pick(selected: &mut Option<String>, lat: i64, lon: i64)
    ensures
        said(*final(selected)) == Some(locator_of(lat as int, lon as int)),
{
    *selected = Some(to_locator(lat, lon));
}

/// The label of a contact's dot.
pub fn contact_label(contact: &Contact) -> (text: String)
    ensures
        text@ == contact.label@ + " ("@ + contact.locator@ + ")"@,
{
    let front = together3(&contact.label, " (", &contact.locator);
    together(&front, ")")
}

/// A contact's place on the map.
#[derive(Clone, Copy, Debug, PartialEq, Eq, Structural)]
pub struct Spot {
    /// Which of the contacts it is.
    pub contact: usize,
    pub lat: i64,
    pub lon: i64,
}

/// Where the first `n` contacts are drawn: those with a valid locator, at the
/// center of their square.
pub open spec fn spots_of(contacts: Seq<Contact>, n: nat) -> Seq<(int, int, int)>
    decreases n,
{
    if n == 0 {
        Seq::empty()
    } else {
        match center_of(contacts[n - 1].locator@) {
            Some((lat, lon)) => spots_of(contacts, (n - 1) as nat).push((n - 1, lat, lon)),
            None => spots_of(contacts, (n - 1) as nat),
        }
    }
}

pub open spec fn spot_values(spots: Seq<Spot>) -> Seq<(int, int, int)> {
    spots.map_values(|s: Spot| (s.contact as int, s.lat as int, s.lon as int))
}

/// Where the contacts are drawn.
pub fn contact_spots(contacts: &[Contact]) -> (spots: Vec<Spot>)
    ensures
        spot_values(spots@) == spots_of(contacts@, contacts@.len()),
{
    let mut spots: Vec<Spot> = Vec::new();
    assert(spot_values(spots@) == Seq::<(int, int, int)>::empty());
    for i in 0..contacts.len()
        invariant
            spot_values(spots@) == spots_of(contacts@, i as nat),
    {
        let ghost before = spot_values(spots@);
        if let Some((lat, lon)) = to_latlon_center(&contacts[i].locator) {
            spots.push(Spot { contact: i, lat, lon });
            assert(spot_values(spots@) == before.push((i as int, lat as int, lon as int)));
        }
    }
    spots
}

/// The corners of a locator's square: the square spans two degrees of
/// longitude and one of latitude around its center.
pub struct SquareCorners {
    pub north: i64,
    pub west: i64,
    pub south: i64,
    pub east: i64,
}

/// The square to highlight for a locator, if it is one.
pub fn square_of(locator: &str) -> (corners: Option<SquareCorners>)
    ensures
        match corners {
            Some(c) => center_of(locator@) matches Some((lat, lon)) && {
                &&& c.north == lat + 500_000
                &&& c.south == lat - 500_000
                &&& c.west == lon - 1_000_000
                &&& c.east == lon + 1_000_000
            },
            None => center_of(locator@) is None,
        },
{
    match to_latlon_center(locator) {
        Some((lat, lon)) => {
            assert(-90_000_000 <= lat <= 90_000_000 && -180_000_000 <= lon <= 180_000_000);
            Some(
                SquareCorners {
                    north: lat + 500_000,
                    west: lon - 1_000_000,
                    south: lat - 500_000,
                    east: lon + 1_000_000,
                },
            )
        },
        None => None,
    }
}

// ---------------------------------------------------------------------
// Grid lines, in whole degrees
// ---------------------------------------------------------------------

/// How many lines there are from `first`, one every `step`, up to and with
/// `last`.
pub open spec fn line_count(first: int, last: int, step: int) -> nat {
    if first > last || step <= 0 {
        0
    } else {
        ((last - first) / step + 1) as nat
    }
}

/// The lines of a grid: one every `step`, from cell `first_cell` on, up to and
/// with `last`.
pub fn grid_lines(first_cell: i32, last: i32, step: i32) -> (lines: Vec<i64>)
    requires
        step > 0,
    ensures
        lines@.len() == line_count(first_cell * step, last as int, step as int),
        forall|i: int|
            0 <= i < lines@.len() ==> #[trigger] lines@[i] == first_cell * step + i * step,
{
    let mut lines: Vec<i64> = Vec::new();
    assert(-0x8000_0000 * 0x7FFF_FFFF <= first_cell * step <= 0x7FFF_FFFF * 0x7FFF_FFFF)
        by (nonlinear_arith)
        requires
            0 < step <= 0x7FFF_FFFF,
            -0x8000_0000 <= first_cell <= 0x7FFF_FFFF,
    ;
    let first: i64 = (first_cell as i64) * (step as i64);
    let mut at: i64 = first;
    assert(lines@.len() * step == 0) by (nonlinear_arith)
        requires
            lines@.len() == 0,
    ;
    while at <= last as i64
        invariant
            step > 0,
            first == first_cell * step,
            -0x8000_0000 * 0x7FFF_FFFF <= first <= 0x7FFF_FFFF * 0x7FFF_FFFF,
            at == first + lines@.len() * step,
            lines@.len() > 0 ==> at - step <= last,
            forall|i: int|
                0 <= i < lines@.len() ==> #[trigger] lines@[i] == first_cell * step + i * step,
        decreases last + step - at,
    {
        assert((lines@.len() + 1) * step == lines@.len() * step + step) by (nonlinear_arith);
        lines.push(at);
        at = at + step as i64;
    }
    proof {
        let n = lines@.len() as int;
        let s = step as int;
        if n == 0 {
            assert(n * s == 0) by (nonlinear_arith)
                requires
                    n == 0,
            ;
        } else {
            assert((n - 1) * s == n * s - s) by (nonlinear_arith);
            assert((n - 1) * s >= 0) by (nonlinear_arith)
                requires
                    n >= 1,
                    s > 0,
            ;
            assert((last - first) / s == n - 1) by (nonlinear_arith)
                requires
                    s > 0,
                    (n - 1) * s <= last - first < n * s,
            ;
        }
    }
    lines
}

/// A field's label, at the center of the field.
pub struct FieldLabel {
    pub lat: i64,
    pub lon: i64,
    pub text: String,
}

/// The label of the field whose south-west corner is at whole degrees: the two
/// letters of the locator at its center.
pub fn field_label(lat: i32, lon: i32) -> (label: FieldLabel)
    ensures
        label.lat == lat + 5,
        label.lon == lon + 10,
        label.text@ == locator_of((lat + 5) * 1_000_000, (lon + 10) * 1_000_000).take(2),
{
    let locator = to_locator((lat as i64 + 5) * 1_000_000, (lon as i64 + 10) * 1_000_000);
    let chars = chars_of(&locator);
    let text = string_of(&chars[0..2]);
    assert(text@ == locator@.take(2));
    FieldLabel { lat: lat as i64 + 5, lon: lon as i64 + 10, text }
}

/// The label of a field on the globe names that field: the letters are those
/// of every square in it.
pub proof fn a_field_label_names_its_squares(field_lat: int, field_lon: int, lat: int, lon: int)
    requires
        0 <= field_lat < 18,
        0 <= field_lon < 18,
        (field_lat * 10 - 90) * 1_000_000 <= lat < (field_lat * 10 - 80) * 1_000_000,
        (field_lon * 20 - 180) * 1_000_000 <= lon < (field_lon * 20 - 160) * 1_000_000,
    ensures
        locator_of(lat, lon).take(2) == locator_of(
            (field_lat * 10 - 90 + 5) * 1_000_000,
            (field_lon * 20 - 180 + 10) * 1_000_000,
        ).take(2),
{
    let a = locator_of(lat, lon);
    let b = locator_of(
        (field_lat * 10 - 90 + 5) * 1_000_000,
        (field_lon * 20 - 180 + 10) * 1_000_000,
    );
    assert(a[0] == b[0]);
    assert(a[1] == b[1]);
    assert(a.take(2) == b.take(2));
}

// ---------------------------------------------------------------------
// Coastlines. A flat binary: the number of rings, then for each ring the
// number of its points and the points, every number four bytes, little end
// first. A coordinate is the bit pattern of a single-precision number.
// ---------------------------------------------------------------------

/// A point of a coastline, as bit patterns: latitude, longitude.
#[derive(Clone, Copy, Debug, PartialEq, Eq, Structural)]
pub struct LandPoint {
    pub lat: u32,
    pub lon: u32,
}

pub open spec fn point_bytes(p: LandPoint) -> Seq<u8> {
    u32_bytes(p.lat) + u32_bytes(p.lon)
}

pub open spec fn points_bytes(ring: Seq<LandPoint>) -> Seq<u8>
    decreases ring.len(),
{
    if ring.len() == 0 {
        Seq::empty()
    } else {
        points_bytes(ring.drop_last()) + point_bytes(ring.last())
    }
}

/// A count as it is written, in 32 bits.
#[verifier::opaque]
pub open spec fn count_bytes(n: nat) -> Seq<u8> {
    u32_bytes((n % 0x1_0000_0000) as u32)
}

pub open spec fn ring_bytes(ring: Seq<LandPoint>) -> Seq<u8> {
    count_bytes(ring.len()) + points_bytes(ring)
}

pub open spec fn rings_bytes(rings: Seq<Seq<LandPoint>>) -> Seq<u8>
    decreases rings.len(),
{
    if rings.len() == 0 {
        Seq::empty()
    } else {
        rings_bytes(rings.drop_last()) + ring_bytes(rings.last())
    }
}

/// The file that holds these rings.
pub open spec fn outline_bytes(rings: Seq<Seq<LandPoint>>) -> Seq<u8> {
    count_bytes(rings.len()) + rings_bytes(rings)
}

/// The points of the rings, ring by ring.
pub open spec fn ring_values(rings: Seq<Vec<LandPoint>>) -> Seq<Seq<LandPoint>> {
    rings.map_values(|r: Vec<LandPoint>| r@)
}

/// The points at `pos`, so many of them, if the file is long enough.
pub open spec fn points_in(file: Seq<u8>, pos: nat, count: nat) -> Option<Seq<LandPoint>>
    decreases count,
{
    if count == 0 {
        Some(Seq::empty())
    } else {
        match points_in(file, pos, (count - 1) as nat) {
            Some(points) => {
                let at = pos + 8 * (count - 1);
                if at + 8 <= file.len() {
                    Some(points.push(LandPoint { lat: u32_at(file, at), lon: u32_at(file, at + 4) }))
                } else {
                    None
                }
            },
            None => None,
        }
    }
}

/// The rings at `pos`, so many of them, and where they end, if the file is
/// long enough.
pub open spec fn rings_in(file: Seq<u8>, pos: nat, count: nat) -> Option<
    (Seq<Seq<LandPoint>>, nat),
>
    decreases count,
{
    if count == 0 {
        Some((Seq::empty(), pos))
    } else {
        match rings_in(file, pos, (count - 1) as nat) {
            Some((rings, at)) => if at + 4 <= file.len() {
                let n = u32_at(file, at as int) as nat;
                match points_in(file, at + 4, n) {
                    Some(points) => Some((rings.push(points), at + 4 + 8 * n)),
                    None => None,
                }
            } else {
                None
            },
            None => None,
        }
    }
}

/// The rings that a file holds, if it is long enough for them.
pub open spec fn outlines_in(file: Seq<u8>) -> Option<Seq<Seq<LandPoint>>> {
    if file.len() < 4 {
        None
    } else {
        match rings_in(file, 4, u32_at(file, 0) as nat) {
            Some((rings, _)) => Some(rings),
            None => None,
        }
    }
}

fn push_count(out: &mut Vec<u8>, n: usize)
    ensures
        final(out)@ == old(out)@ + count_bytes(n as nat),
{
    reveal(count_bytes);
    push_u32(out, (n as u64 % 0x1_0000_0000) as u32);
}

proof fn counts_are_read_back(front: Seq<u8>, n: nat, back: Seq<u8>)
    requires
        n <= u32::MAX,
    ensures
        count_bytes(n).len() == 4,
        u32_at(front + count_bytes(n) + back, front.len() as int) == n,
{
    reveal(count_bytes);
    u32_round_trip(front, n as u32, back);
}

fn push_points(out: &mut Vec<u8>, ring: &Vec<LandPoint>)
    ensures
        final(out)@ == old(out)@ + points_bytes(ring@),
{
    let ghost before = out@;
    assert(ring@.take(0) == Seq::<LandPoint>::empty());
    assert(before + points_bytes(ring@.take(0)) == before);
    for i in 0..ring.len()
        invariant
            out@ == before + points_bytes(ring@.take(i as int)),
    {
        assert(ring@.take(i + 1).drop_last() == ring@.take(i as int));
        let ghost front = points_bytes(ring@.take(i as int));
        push_u32(out, ring[i].lat);
        push_u32(out, ring[i].lon);
        assert(out@ == before + (front + point_bytes(ring@[i as int])));
    }
    assert(ring@.take(ring@.len() as int) == ring@);
}

/// Writes the rings of the coastlines.
pub fn encode_outlines(rings: &Vec<Vec<LandPoint>>) -> (out: Vec<u8>)
    ensures
        out@ == outline_bytes(ring_values(rings@)),
{
    let ghost values = ring_values(rings@);
    let mut out: Vec<u8> = Vec::new();
    push_count(&mut out, rings.len());
    let ghost head = out@;
    assert(head == count_bytes(values.len()));
    assert(values.take(0) == Seq::<Seq<LandPoint>>::empty());
    assert(head + rings_bytes(values.take(0)) == head);
    for i in 0..rings.len()
        invariant
            values == ring_values(rings@),
            out@ == head + rings_bytes(values.take(i as int)),
    {
        assert(values.take(i + 1).drop_last() == values.take(i as int));
        assert(values.take(i + 1).last() == rings@[i as int]@);
        let ghost front = rings_bytes(values.take(i as int));
        push_count(&mut out, rings[i].len());
        push_points(&mut out, &rings[i]);
        assert(out@ == head + (front + ring_bytes(rings@[i as int]@)));
    }
    assert(values.take(values.len() as int) == values);
    out
}

proof fn points_need_their_first(file: Seq<u8>, pos: nat, fewer: nat, count: nat)
    requires
        fewer <= count,
        points_in(file, pos, fewer) is None,
    ensures
        points_in(file, pos, count) is None,
    decreases count,
{
    if fewer < count {
        points_need_their_first(file, pos, fewer, (count - 1) as nat);
    }
}

proof fn rings_need_their_first(file: Seq<u8>, pos: nat, fewer: nat, count: nat)
    requires
        fewer <= count,
        rings_in(file, pos, fewer) is None,
    ensures
        rings_in(file, pos, count) is None,
    decreases count,
{
    if fewer < count {
        rings_need_their_first(file, pos, fewer, (count - 1) as nat);
    }
}

fn read_points(file: &[u8], pos: usize, count: u32) -> (ring: Option<Vec<LandPoint>>)
    requires
        pos <= file@.len(),
    ensures
        match ring {
            Some(points) => {
                &&& points_in(file@, pos as nat, count as nat) == Some(points@)
                &&& pos + 8 * count <= file@.len()
            },
            None => points_in(file@, pos as nat, count as nat) is None,
        },
{
    let n: usize = file.len();
    let mut points: Vec<LandPoint> = Vec::new();
    let mut at: usize = pos;
    let mut k: u32 = 0;
    assert(points@ == Seq::<LandPoint>::empty());
    while k < count
        invariant
            n == file@.len(),
            k <= count,
            at == pos + 8 * k,
            at <= n,
            points_in(file@, pos as nat, k as nat) == Some(points@),
        decreases count - k,
    {
        if n - at < 8 {
            proof {
                assert(points_in(file@, pos as nat, (k + 1) as nat) is None);
                points_need_their_first(file@, pos as nat, (k + 1) as nat, count as nat);
            }
            return None;
        }
        let lat: u32 = read_u32(file, at);
        let lon: u32 = read_u32(file, at + 4);
        points.push(LandPoint { lat, lon });
        at = at + 8;
        k = k + 1;
    }
    Some(points)
}

/// Reads the rings of the coastlines, or nothing where the file is too short
/// for what it announces.
pub fn decode_outlines(file: &[u8]) -> (outlines: Option<Vec<Vec<LandPoint>>>)
    ensures
        match outlines {
            Some(rings) => outlines_in(file@) == Some(ring_values(rings@)),
            None => outlines_in(file@) is None,
        },
{
    let n: usize = file.len();
    if n < 4 {
        return None;
    }
    let count: u32 = read_u32(file, 0);
    let mut rings: Vec<Vec<LandPoint>> = Vec::new();
    let mut at: usize = 4;
    let mut k: u32 = 0;
    assert(ring_values(rings@) == Seq::<Seq<LandPoint>>::empty());
    while k < count
        invariant
            n == file@.len(),
            n >= 4,
            count == u32_at(file@, 0),
            k <= count,
            at <= n,
            rings_in(file@, 4, k as nat) == Some((ring_values(rings@), at as nat)),
        decreases count - k,
    {
        if n - at < 4 {
            proof {
                assert(rings_in(file@, 4, (k + 1) as nat) is None);
                rings_need_their_first(file@, 4, (k + 1) as nat, count as nat);
            }
            return None;
        }
        let size: u32 = read_u32(file, at);
        match read_points(file, at + 4, size) {
            Some(points) => {
                let ghost before = ring_values(rings@);
                rings.push(points);
                assert(ring_values(rings@) == before.push(points@));
                at = at + 4 + 8 * (size as usize);
            },
            None => {
                proof {
                    assert(rings_in(file@, 4, (k + 1) as nat) is None);
                    rings_need_their_first(file@, 4, (k + 1) as nat, count as nat);
                }
                return None;
            },
        }
        k = k + 1;
    }
    Some(rings)
}

// ---------------------------------------------------------------------
// The coastlines that were written are read back
// ---------------------------------------------------------------------

/// Whether every count fits the 32 bits that it is written in.
pub open spec fn counts_fit(rings: Seq<Seq<LandPoint>>) -> bool {
    &&& rings.len() <= u32::MAX
    &&& forall|i: int| 0 <= i < rings.len() ==> (#[trigger] rings[i]).len() <= u32::MAX
}

proof fn point_stands_at(ring: Seq<LandPoint>, i: int)
    requires
        0 <= i <= ring.len(),
    ensures
        points_bytes(ring).len() == 8 * ring.len(),
        i < ring.len() ==> points_bytes(ring).subrange(8 * i, 8 * i + 8) == point_bytes(ring[i]),
    decreases ring.len(),
{
    if ring.len() > 0 {
        let rest = ring.drop_last();
        let last = point_bytes(ring.last());
        if i < ring.len() - 1 {
            point_stands_at(rest, i);
            assert(points_bytes(ring).subrange(8 * i, 8 * i + 8) == points_bytes(rest).subrange(
                8 * i,
                8 * i + 8,
            ));
        } else {
            point_stands_at(rest, rest.len() as int);
            if i < ring.len() {
                assert(points_bytes(ring).subrange(8 * i, 8 * i + 8) == last);
            }
        }
    }
}

proof fn points_are_read_back(file: Seq<u8>, pos: nat, ring: Seq<LandPoint>, k: nat)
    requires
        k <= ring.len(),
        pos + 8 * ring.len() <= file.len(),
        file.subrange(pos as int, (pos + 8 * ring.len()) as int) == points_bytes(ring),
    ensures
        points_in(file, pos, k) == Some(ring.take(k as int)),
    decreases k,
{
    if k == 0 {
        assert(ring.take(0) == Seq::<LandPoint>::empty());
    } else {
        let i = k - 1;
        points_are_read_back(file, pos, ring, i as nat);
        point_stands_at(ring, i);
        let at = pos + 8 * i;
        let p = ring[i];
        let here = file.subrange(at as int, at + 8);
        assert(here == points_bytes(ring).subrange(8 * i, 8 * i + 8));
        assert(here == point_bytes(p));
        let front = file.take(at as int);
        assert(file == front + u32_bytes(p.lat) + (u32_bytes(p.lon) + file.skip(at + 8))) by {
            assert(file == front + here + file.skip(at + 8));
        }
        u32_round_trip(front, p.lat, u32_bytes(p.lon) + file.skip(at + 8));
        let front2 = file.take(at + 4);
        assert(file == front2 + u32_bytes(p.lon) + file.skip(at + 8)) by {
            assert(file == front + here + file.skip(at + 8));
            assert(front2 == front + u32_bytes(p.lat));
        }
        u32_round_trip(front2, p.lon, file.skip(at + 8));
        assert(ring.take(k as int) == ring.take(i).push(p));
    }
}

proof fn earlier_rings_come_first(rings: Seq<Seq<LandPoint>>, n: int)
    requires
        0 <= n <= rings.len(),
    ensures
        rings_bytes(rings.take(n)).len() <= rings_bytes(rings).len(),
        rings_bytes(rings).take(rings_bytes(rings.take(n)).len() as int) == rings_bytes(
            rings.take(n),
        ),
    decreases rings.len(),
{
    if n < rings.len() {
        let rest = rings.drop_last();
        earlier_rings_come_first(rest, n);
        assert(rest.take(n) == rings.take(n));
        let part = rings_bytes(rings.take(n));
        assert(rings_bytes(rings).take(part.len() as int) == rings_bytes(rest).take(
            part.len() as int,
        ));
    } else {
        assert(rings.take(n) == rings);
        assert(rings_bytes(rings).take(rings_bytes(rings).len() as int) == rings_bytes(rings));
    }
}

proof fn a_ring_between(
    front: Seq<u8>,
    before: Seq<u8>,
    word: Seq<u8>,
    points: Seq<u8>,
    rest: Seq<u8>,
)
    ensures
        front + (before + (word + points) + rest) == (front + before) + word + (points + rest),
        (front + (before + (word + points) + rest)).subrange(
            (front.len() + before.len() + word.len()) as int,
            (front.len() + before.len() + word.len() + points.len()) as int,
        ) == points,
{
    let file = front + (before + (word + points) + rest);
    assert(file == (front + before) + word + (points + rest));
    let at = (front.len() + before.len() + word.len()) as int;
    assert(file.subrange(at, at + points.len()) == points);
}

proof fn a_ring_stands_at(front: Seq<u8>, rings: Seq<Seq<LandPoint>>, i: int)
    requires
        0 <= i < rings.len(),
        rings[i].len() <= u32::MAX,
    ensures
        ({
            let file = front + rings_bytes(rings);
            let at = front.len() + rings_bytes(rings.take(i)).len();
            let n = rings[i].len();
            &&& at + 4 + 8 * n <= file.len()
            &&& u32_at(file, at as int) == n
            &&& file.subrange((at + 4) as int, (at + 4 + 8 * n) as int) == points_bytes(rings[i])
            &&& front.len() + rings_bytes(rings.take(i + 1)).len() == at + 4 + 8 * n
        }),
{
    let ring = rings[i];
    let before = rings_bytes(rings.take(i));
    let word = count_bytes(ring.len());
    let points = points_bytes(ring);
    let until = before + (word + points);
    assert(rings_bytes(rings.take(i + 1)) == until) by {
        assert(rings.take(i + 1).drop_last() == rings.take(i));
    }
    earlier_rings_come_first(rings, i + 1);
    let rest = rings_bytes(rings).skip(until.len() as int);
    assert(rings_bytes(rings) == until + rest);
    point_stands_at(ring, 0);
    a_ring_between(front, before, word, points, rest);
    counts_are_read_back(front + before, ring.len(), points + rest);
}

proof fn rings_are_read_back(front: Seq<u8>, rings: Seq<Seq<LandPoint>>, n: nat)
    requires
        counts_fit(rings),
        n <= rings.len(),
    ensures
        rings_in(front + rings_bytes(rings), front.len(), n) == Some(
            (rings.take(n as int), front.len() + rings_bytes(rings.take(n as int)).len()),
        ),
    decreases n,
{
    if n == 0 {
        assert(rings.take(0) == Seq::<Seq<LandPoint>>::empty());
    } else {
        let file = front + rings_bytes(rings);
        let i = n - 1;
        let ring = rings[i];
        let at = front.len() + rings_bytes(rings.take(i)).len();
        rings_are_read_back(front, rings, i as nat);
        a_ring_stands_at(front, rings, i);
        points_are_read_back(file, at + 4, ring, ring.len());
        assert(ring.take(ring.len() as int) == ring);
        assert(rings.take(n as int) == rings.take(i).push(ring));
    }
}

/// The coastlines that were written are read back, point for point.
pub proof fn written_outlines_are_read_back(rings: Seq<Seq<LandPoint>>)
    requires
        counts_fit(rings),
    ensures
        outlines_in(outline_bytes(rings)) == Some(rings),
{
    let word = count_bytes(rings.len());
    let file = outline_bytes(rings);
    assert(file == Seq::<u8>::empty() + word + rings_bytes(rings));
    counts_are_read_back(Seq::empty(), rings.len(), rings_bytes(rings));
    rings_are_read_back(word, rings, rings.len());
    assert(rings.take(rings.len() as int) == rings);
}

// ---------------------------------------------------------------------
// Laws
// ---------------------------------------------------------------------

proof fn spots_so_far(contacts: Seq<Contact>, n: nat)
    requires
        n <= contacts.len(),
    ensures
        forall|i: int, lat: int, lon: int|
            0 <= i < n && center_of((#[trigger] contacts[i]).locator@) == Some((lat, lon))
                ==> #[trigger] spots_of(contacts, n).contains((i, lat, lon)),
        forall|k: int|
            0 <= k < spots_of(contacts, n).len() ==> {
                let spot = #[trigger] spots_of(contacts, n)[k];
                &&& 0 <= spot.0 < n
                &&& center_of(contacts[spot.0].locator@) == Some((spot.1, spot.2))
            },
        forall|j: int, k: int|
            0 <= j < k < spots_of(contacts, n).len() ==> (#[trigger] spots_of(contacts, n)[j]).0
                < (#[trigger] spots_of(contacts, n)[k]).0,
    decreases n,
{
    if n > 0 {
        let before = spots_of(contacts, (n - 1) as nat);
        let all = spots_of(contacts, n);
        spots_so_far(contacts, (n - 1) as nat);
        assert forall|i: int, lat: int, lon: int|
            0 <= i < n && center_of((#[trigger] contacts[i]).locator@) == Some(
                (lat, lon),
            ) implies #[trigger] all.contains((i, lat, lon)) by {
            if i < n - 1 {
                assert(before.contains((i, lat, lon)));
                let k = choose|k: int| 0 <= k < before.len() && before[k] == (i, lat, lon);
                assert(all[k] == (i, lat, lon));
            } else {
                assert(all[all.len() - 1] == (i, lat, lon));
            }
        }
    }
}

/// Every contact with a valid locator is drawn exactly once, at the center of
/// its square, whatever mode it was heard through, and nobody else is drawn.
/// The spots come in the order of the contacts.
pub proof fn every_contact_on_the_globe_is_drawn_once(contacts: Seq<Contact>, spots: Seq<Spot>)
    requires
        spot_values(spots) == spots_of(contacts, contacts.len()),
    ensures
        forall|i: int|
            0 <= i < contacts.len() ==> (center_of(#[trigger] contacts[i].locator@) matches Some(
                (lat, lon),
            ) ==> exists|k: int|
                0 <= k < spots.len() && (#[trigger] spots[k]).contact == i && spots[k].lat == lat
                    && spots[k].lon == lon),
        forall|k: int|
            0 <= k < spots.len() ==> {
                &&& (#[trigger] spots[k]).contact < contacts.len()
                &&& center_of(contacts[spots[k].contact as int].locator@) == Some(
                    (spots[k].lat as int, spots[k].lon as int),
                )
            },
        forall|j: int, k: int|
            0 <= j < k < spots.len() ==> (#[trigger] spots[j]).contact < (#[trigger]
            spots[k]).contact,
{
    let values = spots_of(contacts, contacts.len());
    spots_so_far(contacts, contacts.len());
    assert(spots.len() == values.len());
    assert forall|k: int| 0 <= k < spots.len() implies values[k] == (
        (#[trigger] spots[k]).contact as int,
        spots[k].lat as int,
        spots[k].lon as int,
    ) by {
        assert(spot_values(spots)[k] == (
            spots[k].contact as int,
            spots[k].lat as int,
            spots[k].lon as int,
        ));
    }
    assert forall|i: int| 0 <= i < contacts.len() implies (center_of(
        #[trigger] contacts[i].locator@,
    ) matches Some((lat, lon)) ==> exists|k: int|
        0 <= k < spots.len() && (#[trigger] spots[k]).contact == i && spots[k].lat == lat
            && spots[k].lon == lon) by {
        if let Some((lat, lon)) = center_of(contacts[i].locator@) {
            assert(values.contains((i, lat, lon)));
            let k = choose|k: int| 0 <= k < values.len() && values[k] == (i, lat, lon);
            assert(spots[k].contact == i);
        }
    }
}

/// Where contacts are drawn depends on their locators alone.
pub proof fn spots_depend_on_locators_alone(contacts: Seq<Contact>, others: Seq<Contact>, n: nat)
    requires
        n <= contacts.len(),
        n <= others.len(),
        forall|i: int|
            0 <= i < n ==> (#[trigger] contacts[i]).locator@ == (#[trigger] others[i]).locator@,
    ensures
        spots_of(contacts, n) == spots_of(others, n),
    decreases n,
{
    if n > 0 {
        spots_depend_on_locators_alone(contacts, others, (n - 1) as nat);
        assert(contacts[n - 1].locator@ == others[n - 1].locator@);
    }
}

/// The lines of a grid are those of all cells from the first one on that start
/// no later than the end: none is left out and none is added.
pub proof fn grid_lines_reach_the_end(first_cell: int, last: int, step: int, cell: int)
    requires
        step > 0,
        cell >= first_cell,
    ensures
        cell - first_cell < line_count(first_cell * step, last, step) <==> cell * step <= last,
{
    let first = first_cell * step;
    let k = cell - first_cell;
    assert(cell * step == first + k * step) by (nonlinear_arith)
        requires
            first == first_cell * step,
            k == cell - first_cell,
    ;
    assert(k * step >= 0) by (nonlinear_arith)
        requires
            k >= 0,
            step > 0,
    ;
    if first <= last {
        let q = (last - first) / step;
        assert(q * step <= last - first < q * step + step) by (nonlinear_arith)
            requires
                q == (last - first) / step,
                step > 0,
        ;
        if k <= q {
            assert(k * step <= q * step) by (nonlinear_arith)
                requires
                    k <= q,
                    step > 0,
            ;
        } else {
            assert(k * step >= q * step + step) by (nonlinear_arith)
                requires
                    k >= q + 1,
                    step > 0,
            ;
        }
    }
}

/// Where the numbers of a file stand: how many rings there are, how many points
/// the first ring has, and the latitude and the longitude of each of its
/// points, one after the other.
pub proof fn outlines_stand_in_order(rings: Seq<Seq<LandPoint>>, i: int)
    requires
        counts_fit(rings),
        rings.len() > 0,
        0 <= i < rings[0].len(),
    ensures
        ({
            let file = outline_bytes(rings);
            &&& u32_at(file, 0) == rings.len()
            &&& u32_at(file, 4) == rings[0].len()
            &&& u32_at(file, 8 + 8 * i) == rings[0][i].lat
            &&& u32_at(file, 12 + 8 * i) == rings[0][i].lon
        }),
{
    let word = count_bytes(rings.len());
    let file = outline_bytes(rings);
    let ring = rings[0];
    assert(file == Seq::<u8>::empty() + word + rings_bytes(rings));
    counts_are_read_back(Seq::empty(), rings.len(), rings_bytes(rings));
    a_ring_stands_at(word, rings, 0);
    assert(rings.take(0) == Seq::<Seq<LandPoint>>::empty());
    points_are_read_back(file, 8, ring, ring.len());
    points_are_read_back(file, 8, ring, (i + 1) as nat);
    points_are_read_back(file, 8, ring, i as nat);
    assert(ring.take(i + 1).last() == ring[i]);
}

/// The rings are taken point for point.
pub proof fn rings_are_taken_point_for_point(rings: Seq<Vec<LandPoint>>, i: int)
    requires
        0 <= i < rings.len(),
    ensures
        ring_values(rings).len() == rings.len(),
        ring_values(rings)[i] == rings[i]@,
{
}

} // verus!
