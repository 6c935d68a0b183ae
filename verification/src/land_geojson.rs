//! Finding the land outlines in a GeoJSON text. The `coordinates` values of
//! GeoJSON are nothing but nested arrays of numbers, so this is a small
//! recursive parser for that shape, not a general JSON parser.
//!
//! A number is kept as the stretch of the text that spells it. Nothing is
//! returned for a text that breaks off in the middle of a value or holds
//! something that is not a number where one is due.

use vstd::prelude::*;
use crate::text::{decimal, decimal_text, together3};

verus! {

/// A stretch of the text.
#[derive(Clone, Copy, Debug, PartialEq, Eq, Structural)]
pub struct Span {
    pub start: usize,
    pub end: usize,
}

/// A parsed value: a number or an array of values.
pub enum Node {
    Number(Span),
    Array(Vec<Node>),
}

/// A value with its arrays as sequences.
pub ghost enum Tree {
    Number(Span),
    Array(Seq<Tree>),
}

/// What a node holds.
pub open spec fn tree_of(node: Node) -> Tree
    decreases node,
{
    match node {
        Node::Number(span) => Tree::Number(span),
        Node::Array(items) => Tree::Array(trees_of(items@)),
    }
}

/// What a row of nodes holds.
pub open spec fn trees_of(nodes: Seq<Node>) -> Seq<Tree>
    decreases nodes,
{
    if nodes.len() == 0 {
        Seq::empty()
    } else {
        trees_of(nodes.drop_last()).push(tree_of(nodes.last()))
    }
}

// ---------------------------------------------------------------------
// White space and searching
// ---------------------------------------------------------------------

/// The bytes that are white space as characters.
pub open spec fn is_space(b: u8) -> bool {
    9 <= b <= 13 || b == 32 || b == 0x85 || b == 0xA0
}

/// The first position from `i` on that is not white space.
pub open spec fn space_end(s: Seq<u8>, i: int) -> int
    decreases s.len() - i,
{
    if 0 <= i < s.len() && is_space(s[i]) {
        space_end(s, i + 1)
    } else {
        i
    }
}

/// Skipping white space never goes back, nor beyond the end.
pub proof fn space_end_bounds(s: Seq<u8>, i: int)
    ensures
        i <= space_end(s, i),
        i <= s.len() ==> space_end(s, i) <= s.len(),
    decreases s.len() - i,
{
    if 0 <= i < s.len() && is_space(s[i]) {
        space_end_bounds(s, i + 1);
    }
}

/// Skips white space.
pub fn skip_ws(s: &[u8], i: usize) -> (j: usize)
    ensures
        j == space_end(s@, i as int),
        j >= i,
        i <= s@.len() ==> j <= s@.len(),
{
    let mut j: usize = i;
    while j < s.len() && ((9 <= s[j] && s[j] <= 13) || s[j] == 32 || s[j] == 0x85 || s[j] == 0xA0)
        invariant
            i <= j,
            i <= s@.len() ==> j <= s@.len(),
            space_end(s@, i as int) == space_end(s@, j as int),
        decreases s@.len() - j,
    {
        j = j + 1;
    }
    j
}

/// The first position from `from` on at which `needle` stands.
pub open spec fn first_at(haystack: Seq<u8>, needle: Seq<u8>, from: int) -> Option<int>
    decreases haystack.len() - from,
{
    if from < 0 || from >= haystack.len() {
        None
    } else if from + needle.len() <= haystack.len() && haystack.subrange(from, from + needle.len())
        == needle {
        Some(from)
    } else {
        first_at(haystack, needle, from + 1)
    }
}

fn stands_here(haystack: &[u8], needle: &[u8], at: usize) -> (yes: bool)
    requires
        at <= haystack@.len(),
    ensures
        yes == (at + needle@.len() <= haystack@.len() && haystack@.subrange(
            at as int,
            at + needle@.len(),
        ) == needle@),
{
    let n: usize = haystack.len();
    if needle.len() > n - at {
        return false;
    }
    for k in 0..needle.len()
        invariant
            n == haystack@.len(),
            at + needle@.len() <= n,
            forall|j: int| 0 <= j < k ==> haystack@[at + j] == needle@[j],
    {
        if haystack[at + k] != needle[k] {
            assert(haystack@.subrange(at as int, at + needle@.len())[k as int] != needle@[k as int]);
            return false;
        }
    }
    assert(haystack@.subrange(at as int, at + needle@.len()) == needle@);
    true
}

/// Finds the first occurrence of `needle` from `from` on.
pub fn find(haystack: &[u8], needle: &[u8], from: usize) -> (found: Option<usize>)
    requires
        needle@.len() > 0,
    ensures
        match found {
            Some(at) => first_at(haystack@, needle@, from as int) == Some(at as int) && at + needle@.len()
                <= haystack@.len() && from <= at,
            None => first_at(haystack@, needle@, from as int) is None,
        },
{
    let mut at: usize = from;
    while at < haystack.len()
        invariant
            from <= at,
            first_at(haystack@, needle@, from as int) == first_at(haystack@, needle@, at as int),
        decreases haystack@.len() - at,
    {
        if stands_here(haystack, needle, at) {
            return Some(at);
        }
        at = at + 1;
    }
    None
}

// ---------------------------------------------------------------------
// Numbers
// ---------------------------------------------------------------------

pub open spec fn is_digit_byte(b: u8) -> bool {
    48 <= b <= 57
}

/// The bytes that a number may be made of: digits, signs, a point and the
/// letter of an exponent.
pub open spec fn is_number_byte(b: u8) -> bool {
    is_digit_byte(b) || b == 45 || b == 43 || b == 46 || b == 101 || b == 69
}

/// The first position from `i` on that cannot belong to a number.
pub open spec fn number_end(s: Seq<u8>, i: int) -> int
    decreases s.len() - i,
{
    if 0 <= i < s.len() && is_number_byte(s[i]) {
        number_end(s, i + 1)
    } else {
        i
    }
}

proof fn number_end_bounds(s: Seq<u8>, i: int)
    requires
        i <= s.len(),
    ensures
        i <= number_end(s, i) <= s.len(),
    decreases s.len() - i,
{
    if 0 <= i < s.len() && is_number_byte(s[i]) {
        number_end_bounds(s, i + 1);
    }
}

/// The first position from `i` on that is not a digit.
pub open spec fn digits_end(t: Seq<u8>, i: int) -> int
    decreases t.len() - i,
{
    if 0 <= i < t.len() && is_digit_byte(t[i]) {
        digits_end(t, i + 1)
    } else {
        i
    }
}

/// The position behind a sign, if one stands at `i`.
pub open spec fn sign_end(t: Seq<u8>, i: int) -> int {
    if 0 <= i < t.len() && (t[i] == 43 || t[i] == 45) {
        i + 1
    } else {
        i
    }
}

/// Whether the text from `i` on is nothing or an exponent: its letter, perhaps
/// a sign, and digits.
pub open spec fn is_exponent(t: Seq<u8>, i: int) -> bool {
    i == t.len() || (i < t.len() && (t[i] == 101 || t[i] == 69) && {
        let d = sign_end(t, i + 1);
        digits_end(t, d) > d && digits_end(t, d) == t.len()
    })
}

/// Whether a text spells a decimal number: perhaps a sign, digits with or
/// without a point among or around them, and perhaps an exponent.
pub open spec fn is_number(t: Seq<u8>) -> bool {
    let a = sign_end(t, 0);
    let b = digits_end(t, a);
    if b < t.len() && t[b] == 46 {
        let c = digits_end(t, b + 1);
        (b > a || c > b + 1) && is_exponent(t, c)
    } else {
        b > a && is_exponent(t, b)
    }
}

fn skip_digits(t: &[u8], i: usize) -> (j: usize)
    requires
        i <= t@.len(),
    ensures
        j == digits_end(t@, i as int),
        i <= j <= t@.len(),
{
    let mut j: usize = i;
    while j < t.len() && 48 <= t[j] && t[j] <= 57
        invariant
            i <= j <= t@.len(),
            digits_end(t@, i as int) == digits_end(t@, j as int),
        decreases t@.len() - j,
    {
        j = j + 1;
    }
    j
}

fn skip_sign(t: &[u8], i: usize) -> (j: usize)
    requires
        i <= t@.len(),
    ensures
        j == sign_end(t@, i as int),
        i <= j <= t@.len(),
{
    if i < t.len() && (t[i] == 43 || t[i] == 45) {
        i + 1
    } else {
        i
    }
}

fn ends_or_exponent(t: &[u8], i: usize) -> (yes: bool)
    requires
        i <= t@.len(),
    ensures
        yes == is_exponent(t@, i as int),
{
    if i == t.len() {
        return true;
    }
    if t[i] == 101 || t[i] == 69 {
        let d: usize = skip_sign(t, i + 1);
        let e: usize = skip_digits(t, d);
        e > d && e == t.len()
    } else {
        false
    }
}

/// Whether a text spells a decimal number.
pub fn spells_number(t: &[u8]) -> (yes: bool)
    ensures
        yes == is_number(t@),
{
    let a: usize = skip_sign(t, 0);
    let b: usize = skip_digits(t, a);
    if b < t.len() && t[b] == 46 {
        let c: usize = skip_digits(t, b + 1);
        (b > a || c > b + 1) && ends_or_exponent(t, c)
    } else {
        b > a && ends_or_exponent(t, b)
    }
}

// ---------------------------------------------------------------------
// Values
// ---------------------------------------------------------------------

/// The value that stands at `i`, behind white space, and the position behind
/// it.
pub open spec fn value_at(s: Seq<u8>, i: int) -> Option<(Tree, int)>
    decreases s.len() - i, 0int,
{
    let j = space_end(s, i);
    if i < 0 || j >= s.len() {
        None
    } else if s[j] == 91 {
        proof {
            space_end_bounds(s, i);
        }
        match items_at(s, j + 1) {
            Some((items, end)) => Some((Tree::Array(items), end)),
            None => None,
        }
    } else {
        let e = number_end(s, j);
        if is_number(s.subrange(j, e)) {
            Some((Tree::Number(Span { start: j as usize, end: e as usize }), e))
        } else {
            None
        }
    }
}

/// The items of an array from `i` on, and the position behind the bracket that
/// closes it. A comma between items may be missing, and one may stand before
/// the bracket.
pub open spec fn items_at(s: Seq<u8>, i: int) -> Option<(Seq<Tree>, int)>
    decreases s.len() - i, 1int,
{
    let j = space_end(s, i);
    if i < 0 || j >= s.len() {
        None
    } else if s[j] == 93 {
        Some((Seq::empty(), j + 1))
    } else {
        proof {
            space_end_bounds(s, i);
        }
        match value_at(s, j) {
            Some((item, next)) => {
                let k = space_end(s, next);
                if next <= j || k >= s.len() {
                    None
                } else {
                    proof {
                        space_end_bounds(s, next);
                    }
                    let on = if s[k] == 44 {
                        k + 1
                    } else {
                        k
                    };
                    match items_at(s, on) {
                        Some((rest, end)) => Some((seq![item] + rest, end)),
                        None => None,
                    }
                }
            },
            None => None,
        }
    }
}

/// A value takes up at least one byte and ends within the text.
pub proof fn values_take_up_room(s: Seq<u8>, i: int)
    ensures
        value_at(s, i) matches Some((_, next)) ==> i < next <= s.len(),
    decreases s.len() - i, 0int,
{
    let j = space_end(s, i);
    space_end_bounds(s, i);
    if i < 0 || j >= s.len() {
    } else if s[j] == 91 {
        items_take_up_room(s, j + 1);
    } else {
        number_end_bounds(s, j);
        let e = number_end(s, j);
        if e == j {
            let t = s.subrange(j, e);
            assert(t.len() == 0);
            assert(!is_number(t));
        }
    }
}

proof fn items_take_up_room(s: Seq<u8>, i: int)
    ensures
        items_at(s, i) matches Some((_, end)) ==> i < end <= s.len(),
    decreases s.len() - i, 1int,
{
    let j = space_end(s, i);
    space_end_bounds(s, i);
    if i < 0 || j >= s.len() {
    } else if s[j] == 93 {
    } else {
        values_take_up_room(s, j);
        match value_at(s, j) {
            Some((item, next)) => {
                let k = space_end(s, next);
                space_end_bounds(s, next);
                if next > j && k < s.len() {
                    let on = if s[k] == 44 {
                        k + 1
                    } else {
                        k
                    };
                    items_take_up_room(s, on);
                }
            },
            None => {},
        }
    }
}

/// What is known of an array's items: those read, and those still to come.
spec fn read_so_far(s: Seq<u8>, from: int, done: Seq<Tree>, i: int) -> bool {
    items_at(s, from) == (match items_at(s, i) {
        Some((rest, end)) => Some((done + rest, end)),
        None => None,
    })
}

proof fn one_more_item(s: Seq<u8>, from: int, done: Seq<Tree>, i: int, item: Tree, on: int)
    requires
        read_so_far(s, from, done, i),
        items_at(s, i) == (match items_at(s, on) {
            Some((rest, end)) => Some((seq![item] + rest, end)),
            None => None,
        }),
    ensures
        read_so_far(s, from, done.push(item), on),
{
    if let Some((rest, end)) = items_at(s, on) {
        assert(done + (seq![item] + rest) == done.push(item) + rest);
    }
}

/// Parses one value, a number or an array of values, starting at `i`, and says
/// where it ends.
pub fn parse_node(s: &[u8], i: usize) -> (parsed: Option<(Node, usize)>)
    ensures
        match parsed {
            Some((node, next)) => value_at(s@, i as int) == Some((tree_of(node), next as int)),
            None => value_at(s@, i as int) is None,
        },
    decreases s@.len() - i,
{
    let n: usize = s.len();
    let j: usize = skip_ws(s, i);
    if j >= n {
        return None;
    }
    if s[j] == 91 {
        let mut items: Vec<Node> = Vec::new();
        let from: usize = j + 1;
        let mut at: usize = from;
        assert(read_so_far(s@, from as int, trees_of(items@), at as int)) by {
            if let Some((rest, end)) = items_at(s@, at as int) {
                assert(trees_of(items@) + rest == rest);
            }
        }
        loop
            invariant
                n == s@.len(),
                j < n,
                i <= j,
                j == space_end(s@, i as int),
                s@[j as int] == 91,
                from == j + 1,
                from <= at <= n,
                read_so_far(s@, from as int, trees_of(items@), at as int),
            decreases n - at,
        {
            let here: usize = skip_ws(s, at);
            if here >= n {
                return None;
            }
            if s[here] == 93 {
                assert(trees_of(items@) + Seq::<Tree>::empty() == trees_of(items@));
                return Some((Node::Array(items), here + 1));
            }
            proof {
                values_take_up_room(s@, here as int);
            }
            match parse_node(s, here) {
                None => {
                    return None;
                },
                Some((node, next)) => {
                    let behind: usize = skip_ws(s, next);
                    if behind >= n {
                        return None;
                    }
                    let on: usize = if s[behind] == 44 {
                        behind + 1
                    } else {
                        behind
                    };
                    let ghost done = trees_of(items@);
                    let ghost item = tree_of(node);
                    proof {
                        one_more_item(s@, from as int, done, at as int, item, on as int);
                    }
                    let ghost before = items@;
                    items.push(node);
                    assert(items@.drop_last() == before);
                    assert(trees_of(items@) == done.push(item));
                    at = on;
                },
            }
        }
    } else {
        let mut e: usize = j;
        while e < n && ((48 <= s[e] && s[e] <= 57) || s[e] == 45 || s[e] == 43 || s[e] == 46
            || s[e] == 101 || s[e] == 69)
            invariant
                n == s@.len(),
                j <= e <= n,
                number_end(s@, j as int) == number_end(s@, e as int),
            decreases n - e,
        {
            e = e + 1;
        }
        if spells_number(&s[j..e]) {
            Some((Node::Number(Span { start: j, end: e }), e))
        } else {
            None
        }
    }
}

// ---------------------------------------------------------------------
// Rings
// ---------------------------------------------------------------------

/// A point of a ring: the texts of its latitude and longitude.
#[derive(Clone, Copy, Debug, PartialEq, Eq, Structural)]
pub struct RingPoint {
    pub lat: Span,
    pub lon: Span,
}

/// Whether a value is a position: a longitude and a latitude.
pub open spec fn is_position(t: Tree) -> bool {
    t matches Tree::Array(pair) && pair.len() == 2 && pair[0] is Number && pair[1] is Number
}

/// Whether the items of an array make a ring: positions, at least one.
pub open spec fn is_ring(items: Seq<Tree>) -> bool {
    items.len() > 0 && forall|i: int| 0 <= i < items.len() ==> is_position(#[trigger] items[i])
}

/// The point of a position, which gives the longitude first.
pub open spec fn point_of(t: Tree) -> RingPoint {
    let pair = t->Array_0;
    RingPoint { lat: pair[1]->Number_0, lon: pair[0]->Number_0 }
}

/// The rings in a value, however deep they are nested.
pub open spec fn rings_of(t: Tree) -> Seq<Seq<RingPoint>>
    decreases t,
{
    match t {
        Tree::Number(_) => Seq::empty(),
        Tree::Array(items) => if is_ring(items) {
            seq![items.map_values(|p: Tree| point_of(p))]
        } else {
            rings_in_all(items)
        },
    }
}

/// The rings in a row of values.
pub open spec fn rings_in_all(items: Seq<Tree>) -> Seq<Seq<RingPoint>>
    decreases items,
{
    if items.len() == 0 {
        Seq::empty()
    } else {
        rings_in_all(items.drop_last()) + rings_of(items.last())
    }
}

/// The points of the rings, ring by ring.
pub open spec fn ring_points(rings: Seq<Vec<RingPoint>>) -> Seq<Seq<RingPoint>> {
    rings.map_values(|r: Vec<RingPoint>| r@)
}

proof fn trees_stand_in_order(nodes: Seq<Node>)
    ensures
        trees_of(nodes).len() == nodes.len(),
        forall|i: int| 0 <= i < nodes.len() ==> #[trigger] trees_of(nodes)[i] == tree_of(nodes[i]),
    decreases nodes.len(),
{
    if nodes.len() > 0 {
        let rest = nodes.drop_last();
        trees_stand_in_order(rest);
        assert forall|i: int| 0 <= i < nodes.len() implies #[trigger] trees_of(nodes)[i] == tree_of(
            nodes[i],
        ) by {
            if i < rest.len() {
                assert(trees_of(nodes)[i] == trees_of(rest)[i]);
                assert(rest[i] == nodes[i]);
            }
        }
    }
}

/// The point of a node that is a position.
fn position_of(node: &Node) -> (point: Option<RingPoint>)
    ensures
        match point {
            Some(p) => is_position(tree_of(*node)) && p == point_of(tree_of(*node)),
            None => !is_position(tree_of(*node)),
        },
{
    match node {
        Node::Array(pair) => {
            proof {
                trees_stand_in_order(pair@);
            }
            if pair.len() != 2 {
                return None;
            }
            assert(trees_of(pair@)[0] == tree_of(pair@[0]));
            assert(trees_of(pair@)[1] == tree_of(pair@[1]));
            match (&pair[0], &pair[1]) {
                (Node::Number(lon), Node::Number(lat)) => Some(RingPoint { lat: *lat, lon: *lon }),
                _ => None,
            }
        },
        Node::Number(_) => None,
    }
}

/// The ring that the items of an array make, if they do.
fn ring_from(items: &Vec<Node>) -> (ring: Option<Vec<RingPoint>>)
    ensures
        match ring {
            Some(points) => is_ring(trees_of(items@)) && points@ == trees_of(items@).map_values(
                |p: Tree| point_of(p),
            ),
            None => !is_ring(trees_of(items@)),
        },
{
    let ghost trees = trees_of(items@);
    proof {
        trees_stand_in_order(items@);
    }
    if items.len() == 0 {
        return None;
    }
    let mut points: Vec<RingPoint> = Vec::new();
    for i in 0..items.len()
        invariant
            trees == trees_of(items@),
            trees.len() == items@.len(),
            forall|k: int| 0 <= k < items@.len() ==> #[trigger] trees[k] == tree_of(items@[k]),
            points@.len() == i,
            forall|k: int| 0 <= k < i ==> is_position(#[trigger] trees[k]),
            forall|k: int| 0 <= k < i ==> #[trigger] points@[k] == point_of(trees[k]),
    {
        assert(trees[i as int] == tree_of(items@[i as int]));
        match position_of(&items[i]) {
            Some(p) => {
                points.push(p);
            },
            None => {
                return None;
            },
        }
    }
    assert(points@ == trees.map_values(|p: Tree| point_of(p)));
    Some(points)
}

/// Collects every ring in a value, an array whose items are all positions,
/// however deep it is nested.
pub fn collect_rings(node: &Node, out: &mut Vec<Vec<RingPoint>>)
    ensures
        ring_points(final(out)@) == ring_points(old(out)@) + rings_of(tree_of(*node)),
    decreases node,
{
    let ghost before = ring_points(out@);
    match node {
        Node::Number(_) => {
            assert(before + rings_of(tree_of(*node)) == before);
        },
        Node::Array(items) => {
            match ring_from(items) {
                Some(ring) => {
                    out.push(ring);
                    assert(ring_points(out@) == before + seq![ring@]);
                },
                None => {
                    assert(items@.take(0) == Seq::<Node>::empty());
                    assert(before + rings_in_all(trees_of(items@.take(0))) == before);
                    for i in 0..items.len()
                        invariant
                            node == Node::Array(*items),
                            ring_points(out@) == before + rings_in_all(
                                trees_of(items@.take(i as int)),
                            ),
                    {
                        let ghost front = items@.take(i as int);
                        let ghost so_far = ring_points(out@);
                        assert(items@.take(i + 1).drop_last() == front);
                        assert(decreases_to!(*node => node->Array_0));
                        assert(decreases_to!(node->Array_0 => node->Array_0@));
                        assert(decreases_to!(node->Array_0@ => node->Array_0@[i as int]));
                        collect_rings(&items[i], out);
                        proof {
                            let item = tree_of(items@[i as int]);
                            let longer = trees_of(items@.take(i + 1));
                            assert(longer == trees_of(front).push(item));
                            assert(longer.drop_last() == trees_of(front));
                            assert(before + (rings_in_all(trees_of(front)) + rings_of(item))
                                == so_far + rings_of(item));
                        }
                    }
                    assert(items@.take(items@.len() as int) == items@);
                },
            }
        },
    }
}

// ---------------------------------------------------------------------
// The whole text
// ---------------------------------------------------------------------

/// The name in front of each geometry's coordinates.
pub open spec fn coordinates_name() -> Seq<u8> {
    seq![34u8, 99, 111, 111, 114, 100, 105, 110, 97, 116, 101, 115, 34, 58]
}

/// The rings of every geometry from `pos` on.
pub open spec fn land_rings(s: Seq<u8>, pos: int) -> Option<Seq<Seq<RingPoint>>>
    decreases s.len() - pos,
{
    match first_at(s, coordinates_name(), pos) {
        None => Some(Seq::empty()),
        Some(found) => match value_at(s, found + 14) {
            Some((value, next)) => if next <= pos || next > s.len() {
                None
            } else {
                match land_rings(s, next) {
                    Some(rest) => Some(rings_of(value) + rest),
                    None => None,
                }
            },
            None => None,
        },
    }
}

/// The rings of every geometry in a GeoJSON text, in order.
pub fn extract_rings(s: &[u8]) -> (rings: Option<Vec<Vec<RingPoint>>>)
    ensures
        match rings {
            Some(all) => land_rings(s@, 0) == Some(ring_points(all@)),
            None => land_rings(s@, 0) is None,
        },
{
    let name: Vec<u8> = vec![34, 99, 111, 111, 114, 100, 105, 110, 97, 116, 101, 115, 34, 58];
    assert(name@ == coordinates_name());
    let mut all: Vec<Vec<RingPoint>> = Vec::new();
    let mut pos: usize = 0;
    let n: usize = s.len();
    assert(ring_points(all@) == Seq::<Seq<RingPoint>>::empty());
    assert(land_rings(s@, 0) == (match land_rings(s@, 0) {
        Some(rest) => Some(ring_points(all@) + rest),
        None => None,
    })) by {
        if let Some(rest) = land_rings(s@, 0) {
            assert(Seq::<Seq<RingPoint>>::empty() + rest == rest);
        }
    }
    loop
        invariant
            name@ == coordinates_name(),
            name@.len() == 14,
            n == s@.len(),
            pos <= n,
            land_rings(s@, 0) == (match land_rings(s@, pos as int) {
                Some(rest) => Some(ring_points(all@) + rest),
                None => None,
            }),
        decreases s@.len() - pos,
    {
        match find(s, &name, pos) {
            None => {
                assert(ring_points(all@) + Seq::<Seq<RingPoint>>::empty() == ring_points(all@));
                return Some(all);
            },
            Some(found) => {
                proof {
                    values_take_up_room(s@, found + 14);
                }
                match parse_node(s, found + 14) {
                    None => {
                        return None;
                    },
                    Some((node, next)) => {
                        let ghost before = ring_points(all@);
                        collect_rings(&node, &mut all);
                        proof {
                            if let Some(rest) = land_rings(s@, next as int) {
                                let more = rings_of(tree_of(node));
                                assert(before + (more + rest) == (before + more) + rest);
                            }
                        }
                        pos = next;
                    },
                }
            },
        }
    }
}

/// How many points the rings have.
pub open spec fn count_points(rings: Seq<Seq<RingPoint>>) -> nat
    decreases rings.len(),
{
    if rings.len() == 0 {
        0
    } else {
        count_points(rings.drop_last()) + rings.last().len()
    }
}

/// How many points the rings have.
pub fn total_points(rings: &Vec<Vec<RingPoint>>) -> (n: u128)
    ensures
        n == count_points(ring_points(rings@)),
{
    let ghost all = ring_points(rings@);
    let mut n: u128 = 0;
    assert(all.take(0) == Seq::<Seq<RingPoint>>::empty());
    for i in 0..rings.len()
        invariant
            all == ring_points(rings@),
            n == count_points(all.take(i as int)),
            n <= i * 0x1_0000_0000_0000_0000,
    {
        assert(all.take(i + 1).drop_last() == all.take(i as int));
        assert(all.take(i + 1).last() == rings@[i as int]@);
        n = n + rings[i].len() as u128;
    }
    assert(all.take(all.len() as int) == all);
    n
}

/// What was converted, in words.
pub fn summary_text(rings: usize, points: u128, bytes: usize, path: &str) -> (text: String)
    ensures
        text@ == decimal(rings as nat) + " rings, "@ + decimal(points as nat) + " points, "@
            + decimal(bytes as nat) + " bytes -> "@ + path@,
{
    let a = decimal_text(rings as u128);
    let b = decimal_text(points);
    let c = decimal_text(bytes as u128);
    let front = together3(&a, " rings, ", &b);
    let middle = together3(&front, " points, ", &c);
    together3(&middle, " bytes -> ", path)
}

// ---------------------------------------------------------------------
// Laws
// ---------------------------------------------------------------------

/// What is found stands there, and nothing before it does.
pub proof fn what_is_found_is_first(haystack: Seq<u8>, needle: Seq<u8>, from: int, at: int)
    requires
        0 <= from,
    ensures
        first_at(haystack, needle, from) matches Some(found) ==> {
            &&& from <= found
            &&& found + needle.len() <= haystack.len()
            &&& haystack.subrange(found, found + needle.len()) == needle
        },
        from <= at && at + needle.len() <= haystack.len() && at < haystack.len()
            && haystack.subrange(at, at + needle.len()) == needle ==> {
            first_at(haystack, needle, from) matches Some(found) && found <= at
        },
    decreases haystack.len() - from,
{
    if from < haystack.len() {
        what_is_found_is_first(haystack, needle, from + 1, at);
    }
}

/// Every ring has at least one point.
pub proof fn rings_are_never_empty(t: Tree)
    ensures
        forall|i: int| 0 <= i < rings_of(t).len() ==> (#[trigger] rings_of(t)[i]).len() > 0,
    decreases t,
{
    if let Tree::Array(items) = t {
        if is_ring(items) {
            let ring = items.map_values(|p: Tree| point_of(p));
            assert(rings_of(t) == seq![ring]);
            assert(ring.len() == items.len());
        } else {
            no_ring_among_them_is_empty(items);
            assert(rings_of(t) == rings_in_all(items));
        }
    }
}

proof fn no_ring_among_them_is_empty(items: Seq<Tree>)
    ensures
        forall|i: int|
            0 <= i < rings_in_all(items).len() ==> (#[trigger] rings_in_all(items)[i]).len() > 0,
    decreases items,
{
    if items.len() > 0 {
        let front = rings_in_all(items.drop_last());
        let last = rings_of(items.last());
        no_ring_among_them_is_empty(items.drop_last());
        rings_are_never_empty(items.last());
        assert forall|i: int| 0 <= i < rings_in_all(items).len() implies (
        #[trigger] rings_in_all(items)[i]).len() > 0 by {
            if i < front.len() {
                assert(rings_in_all(items)[i] == front[i]);
            } else {
                assert(rings_in_all(items)[i] == last[i - front.len()]);
            }
        }
    }
}

/// White space is skipped as far as it goes, and nothing else is.
pub proof fn white_space_is_skipped_whole(s: Seq<u8>, i: int, b: u8)
    requires
        0 <= i <= s.len(),
    ensures
        i <= space_end(s, i) <= s.len(),
        forall|k: int| i <= k < space_end(s, i) ==> is_space(#[trigger] s[k]),
        space_end(s, i) < s.len() ==> !is_space(s[space_end(s, i)]),
        is_space(b) <==> b == 9 || b == 10 || b == 11 || b == 12 || b == 13 || b == 32 || b == 133
            || b == 160,
    decreases s.len() - i,
{
    if i < s.len() && is_space(s[i]) {
        white_space_is_skipped_whole(s, i + 1, b);
    }
}

/// White space in front of a value, or of what follows in an array, makes no
/// difference.
pub proof fn white_space_makes_no_difference(s: Seq<u8>, i: int)
    requires
        0 <= i < s.len(),
        is_space(s[i]),
    ensures
        value_at(s, i) == value_at(s, i + 1),
        items_at(s, i) == items_at(s, i + 1),
{
    assert(space_end(s, i) == space_end(s, i + 1));
}

/// A value as it is written: the text of a number, or an array of values.
pub ghost enum Value {
    Number(Seq<u8>),
    Array(Seq<Value>),
}

/// The text of a value: an array in square brackets, with commas between its
/// items.
pub open spec fn text_of(v: Value) -> Seq<u8>
    decreases v,
{
    match v {
        Value::Number(text) => text,
        Value::Array(items) => seq![91u8] + list_text(items) + seq![93u8],
    }
}

/// The texts of a row of values, with commas between them.
pub open spec fn list_text(items: Seq<Value>) -> Seq<u8>
    decreases items,
{
    if items.len() == 0 {
        Seq::empty()
    } else if items.len() == 1 {
        text_of(items[0])
    } else {
        text_of(items[0]) + seq![44u8] + list_text(items.drop_first())
    }
}

/// Whether every number in a value is spelled like one.
pub open spec fn is_spelled(v: Value) -> bool
    decreases v,
{
    match v {
        Value::Number(text) => is_number(text) && forall|i: int|
            0 <= i < text.len() ==> is_number_byte(#[trigger] text[i]),
        Value::Array(items) => all_spelled(items),
    }
}

/// Whether every number in a row of values is spelled like one.
pub open spec fn all_spelled(items: Seq<Value>) -> bool
    decreases items,
{
    items.len() > 0 ==> is_spelled(items[0]) && all_spelled(items.drop_first())
}

/// Whether a parsed value is what a value says: the same arrays, and numbers
/// whose stretches of the text spell them.
pub open spec fn says(t: Tree, s: Seq<u8>, v: Value) -> bool
    decreases v,
{
    match v {
        Value::Number(text) => t matches Tree::Number(span) && span.start <= span.end <= s.len()
            && s.subrange(span.start as int, span.end as int) == text,
        Value::Array(items) => t matches Tree::Array(parsed) && all_say(parsed, s, items),
    }
}

/// Whether parsed values are what a row of values says, one for one.
pub open spec fn all_say(parsed: Seq<Tree>, s: Seq<u8>, items: Seq<Value>) -> bool
    decreases items,
{
    &&& parsed.len() == items.len()
    &&& items.len() > 0 ==> says(parsed[0], s, items[0]) && all_say(
        parsed.drop_first(),
        s,
        items.drop_first(),
    )
}

proof fn a_number_ends_where_its_text_does(s: Seq<u8>, i: int, end: int)
    requires
        0 <= i <= end <= s.len(),
        forall|k: int| i <= k < end ==> is_number_byte(#[trigger] s[k]),
        end < s.len() ==> !is_number_byte(s[end]),
    ensures
        number_end(s, i) == end,
    decreases end - i,
{
    if i < end {
        a_number_ends_where_its_text_does(s, i + 1, end);
    }
}

proof fn a_text_starts_with_its_value(v: Value)
    requires
        is_spelled(v),
    ensures
        text_of(v).len() > 0,
        text_of(v)[0] == 91 || is_number_byte(text_of(v)[0]),
{
}

/// A value that was written is parsed as what was written, wherever it stands,
/// up to its end and no further.
pub proof fn written_values_are_parsed_back(front: Seq<u8>, v: Value, back: Seq<u8>)
    requires
        is_spelled(v),
        front.len() + text_of(v).len() + back.len() <= usize::MAX,
        back.len() > 0 ==> !is_number_byte(back[0]),
    ensures
        value_at(front + text_of(v) + back, front.len() as int) matches Some((t, end)) && end
            == front.len() + text_of(v).len() && says(t, front + text_of(v) + back, v),
    decreases v, 1int,
{
    let text = text_of(v);
    let s = front + text + back;
    let i = front.len() as int;
    a_text_starts_with_its_value(v);
    assert(s[i] == text[0]);
    assert(!is_space(s[i]));
    assert(space_end(s, i) == i);
    match v {
        Value::Number(_) => {
            let end = i + text.len();
            assert forall|k: int| i <= k < end implies is_number_byte(#[trigger] s[k]) by {
                assert(s[k] == text[k - i]);
            }
            if end < s.len() {
                assert(s[end] == back[0]);
            }
            a_number_ends_where_its_text_does(s, i, end);
            assert(s.subrange(i, end) == text);
        },
        Value::Array(items) => {
            let inner = list_text(items);
            let open = front + seq![91u8];
            assert(s == open + inner + seq![93u8] + back);
            written_items_are_parsed_back(open, items, back);
        },
    }
}

proof fn written_items_are_parsed_back(front: Seq<u8>, items: Seq<Value>, back: Seq<u8>)
    requires
        all_spelled(items),
        front.len() + list_text(items).len() + 1 + back.len() <= usize::MAX,
    ensures
        items_at(
            front + list_text(items) + seq![93u8] + back,
            front.len() as int,
        ) matches Some((parsed, end)) && end == front.len() + list_text(items).len() + 1
            && all_say(parsed, front + list_text(items) + seq![93u8] + back, items),
    decreases items, 0int,
{
    let s = front + list_text(items) + seq![93u8] + back;
    let i = front.len() as int;
    if items.len() == 0 {
        assert(s[i] == 93);
        assert(space_end(s, i) == i);
        assert(items_at(s, i) == Some((Seq::<Tree>::empty(), i + 1)));
        assert(all_say(Seq::empty(), s, items));
    } else {
        let (first, rest) = (items[0], items.drop_first());
        let text = text_of(first);
        let behind = if items.len() == 1 {
            seq![93u8] + back
        } else {
            seq![44u8] + list_text(rest) + seq![93u8] + back
        };
        assert(s == front + text + behind);
        assert(behind[0] == 93 || behind[0] == 44);
        a_text_starts_with_its_value(first);
        assert(s[i] == text[0]);
        assert(space_end(s, i) == i);
        written_values_are_parsed_back(front, first, behind);
        let next = i + text.len();
        assert(s[next] == behind[0]);
        assert(space_end(s, next) == next);
        let (item, _) = value_at(s, i)->0;
        if items.len() == 1 {
            assert(rest.len() == 0);
            assert(space_end(s, next) == next && s[next] == 93);
            assert(items_at(s, next) == Some((Seq::<Tree>::empty(), next + 1)));
            let parsed = seq![item] + Seq::<Tree>::empty();
            assert(items_at(s, i) == Some((parsed, next + 1)));
            assert(parsed.drop_first() == Seq::<Tree>::empty());
            assert(all_say(Seq::empty(), s, rest));
            assert(parsed[0] == item);
            assert(all_say(parsed, s, items));
        } else {
            let on = front + text + seq![44u8];
            assert(s == on + list_text(rest) + seq![93u8] + back);
            written_items_are_parsed_back(on, rest, back);
            let (others, end) = items_at(s, next + 1)->0;
            let parsed = seq![item] + others;
            assert(items_at(s, i) == Some((parsed, end)));
            assert(parsed.drop_first() == others);
            assert(parsed[0] == item);
            assert(all_say(parsed, s, items));
        }
    }
}

proof fn digits_go_as_far_as_they_stand(t: Seq<u8>, i: int, end: int)
    requires
        0 <= i <= end <= t.len(),
        forall|k: int| i <= k < end ==> is_digit_byte(#[trigger] t[k]),
        end < t.len() ==> !is_digit_byte(t[end]),
    ensures
        digits_end(t, i) == end,
    decreases end - i,
{
    if i < end {
        digits_go_as_far_as_they_stand(t, i + 1, end);
    }
}

/// Whether a row of bytes is a sign, or nothing.
pub open spec fn is_sign(t: Seq<u8>) -> bool {
    t.len() == 0 || t == seq![43u8] || t == seq![45u8]
}

/// Whether a row of bytes is made of digits alone.
pub open spec fn are_digits(t: Seq<u8>) -> bool {
    forall|i: int| 0 <= i < t.len() ==> 48 <= #[trigger] t[i] <= 57
}

/// A whole number is spelled by an optional sign and digits, at least one; with
/// an exponent, of which the same holds, behind it if there is one.
#[verifier::spinoff_prover]
pub proof fn whole_numbers_are_spelled(
    sign: Seq<u8>,
    digits: Seq<u8>,
    e: u8,
    power_sign: Seq<u8>,
    power: Seq<u8>,
)
    requires
        is_sign(sign),
        are_digits(digits),
        e == 101 || e == 69,
        is_sign(power_sign),
        are_digits(power),
    ensures
        is_number(sign + digits) <==> digits.len() > 0,
        is_number(sign + digits + seq![e] + power_sign + power) <==> digits.len() > 0 && power.len()
            > 0,
{
    let t = sign + digits;
    let a = sign.len() as int;
    let b = a + digits.len();
    a_sign_is_read(t, 0, sign, digits);
    assert forall|k: int| a <= k < b implies is_digit_byte(#[trigger] t[k]) by {
        assert(t[k] == digits[k - a]);
    }
    digits_go_as_far_as_they_stand(t, a, b);
    let u = sign + digits + seq![e] + power_sign + power;
    assert(u == sign + (digits + seq![e] + power_sign + power));
    a_sign_is_read(u, 0, sign, digits + seq![e] + power_sign + power);
    assert forall|k: int| a <= k < b implies is_digit_byte(#[trigger] u[k]) by {
        assert(u[k] == digits[k - a]);
    }
    assert(u[b] == e);
    digits_go_as_far_as_they_stand(u, a, b);
    an_exponent_is_read(sign + digits, e, power_sign, power);
}

/// With a point there are digits on either side of it, or on one.
#[verifier::spinoff_prover]
pub proof fn broken_numbers_are_spelled(
    sign: Seq<u8>,
    whole: Seq<u8>,
    part: Seq<u8>,
    e: u8,
    power_sign: Seq<u8>,
    power: Seq<u8>,
)
    requires
        is_sign(sign),
        are_digits(whole),
        are_digits(part),
        e == 101 || e == 69,
        is_sign(power_sign),
        are_digits(power),
    ensures
        is_number(sign + whole + seq![46u8] + part) <==> whole.len() + part.len() > 0,
        is_number(sign + whole + seq![46u8] + part + seq![e] + power_sign + power) <==> whole.len()
            + part.len() > 0 && power.len() > 0,
{
    let front = sign + whole + seq![46u8] + part;
    let a = sign.len() as int;
    let b = a + whole.len();
    let c = b + 1 + part.len();
    assert(front == sign + (whole + seq![46u8] + part));
    a_sign_is_read(front, 0, sign, whole + seq![46u8] + part);
    assert forall|k: int| a <= k < b implies is_digit_byte(#[trigger] front[k]) by {
        assert(front[k] == whole[k - a]);
    }
    assert(front[b] == 46);
    digits_go_as_far_as_they_stand(front, a, b);
    assert forall|k: int| b + 1 <= k < c implies is_digit_byte(#[trigger] front[k]) by {
        assert(front[k] == part[k - b - 1]);
    }
    digits_go_as_far_as_they_stand(front, b + 1, c);
    let u = front + seq![e] + power_sign + power;
    assert(u == sign + (whole + seq![46u8] + part + seq![e] + power_sign + power));
    a_sign_is_read(u, 0, sign, whole + seq![46u8] + part + seq![e] + power_sign + power);
    assert forall|k: int| a <= k < b implies is_digit_byte(#[trigger] u[k]) by {
        assert(u[k] == front[k]);
    }
    assert(u[b] == 46);
    digits_go_as_far_as_they_stand(u, a, b);
    assert forall|k: int| b + 1 <= k < c implies is_digit_byte(#[trigger] u[k]) by {
        assert(u[k] == front[k]);
    }
    assert(u[c] == e);
    digits_go_as_far_as_they_stand(u, b + 1, c);
    an_exponent_is_read(front, e, power_sign, power);
}

proof fn a_sign_is_read(t: Seq<u8>, i: int, sign: Seq<u8>, rest: Seq<u8>)
    requires
        i == 0,
        t == sign + rest,
        is_sign(sign),
        rest.len() > 0 ==> rest[0] != 43 && rest[0] != 45,
    ensures
        sign_end(t, i) == sign.len(),
{
    if sign.len() == 0 {
        assert(t == rest);
    } else {
        assert(t[0] == sign[0]);
    }
}

proof fn an_exponent_is_read(front: Seq<u8>, e: u8, sign: Seq<u8>, power: Seq<u8>)
    requires
        e == 101 || e == 69,
        is_sign(sign),
        are_digits(power),
    ensures
        is_exponent(front + seq![e] + sign + power, front.len() as int) <==> power.len() > 0,
        is_exponent(front, front.len() as int),
{
    let u = front + seq![e] + sign + power;
    let at = front.len() as int;
    assert(u[at] == e);
    let d = at + 1 + sign.len();
    if sign.len() > 0 {
        assert(u[at + 1] == sign[0]);
    } else if power.len() > 0 {
        assert(u[at + 1] == power[0]);
    }
    assert(sign_end(u, at + 1) == d);
    assert forall|k: int| d <= k < u.len() implies is_digit_byte(#[trigger] u[k]) by {
        assert(u[k] == power[k - d]);
    }
    digits_go_as_far_as_they_stand(u, d, u.len() as int);
}

/// Whatever spells a number is made of digits, signs, points and the letters of
/// exponents alone.
pub proof fn numbers_are_made_of_their_bytes(t: Seq<u8>)
    requires
        is_number(t),
    ensures
        t.len() > 0,
        forall|i: int| 0 <= i < t.len() ==> is_number_byte(#[trigger] t[i]),
{
    let a = sign_end(t, 0);
    let b = digits_end(t, a);
    digits_stand_between(t, a);
    if b < t.len() && t[b] == 46 {
        let c = digits_end(t, b + 1);
        digits_stand_between(t, b + 1);
        if c < t.len() {
            digits_stand_between(t, sign_end(t, c + 1));
        }
    } else if b < t.len() {
        digits_stand_between(t, sign_end(t, b + 1));
    }
}

proof fn digits_stand_between(t: Seq<u8>, i: int)
    requires
        0 <= i <= t.len(),
    ensures
        i <= digits_end(t, i) <= t.len(),
        forall|k: int| i <= k < digits_end(t, i) ==> is_digit_byte(#[trigger] t[k]),
    decreases t.len() - i,
{
    if i < t.len() && is_digit_byte(t[i]) {
        digits_stand_between(t, i + 1);
    }
}

/// A position is a longitude and then a latitude; an array of positions, at
/// least one, is one ring with a point for each; any other array holds the
/// rings of its items, one after the other; a number holds none.
pub proof fn rings_are_arrays_of_positions(
    lons: Seq<Span>,
    lats: Seq<Span>,
    items: Seq<Tree>,
    more: Seq<Tree>,
    span: Span,
)
    requires
        lons.len() == lats.len(),
        lons.len() > 0,
    ensures
        rings_of(
            Tree::Array(
                Seq::new(
                    lons.len(),
                    |i: int| Tree::Array(seq![Tree::Number(lons[i]), Tree::Number(lats[i])]),
                ),
            ),
        ) == seq![Seq::new(lons.len(), |i: int| RingPoint { lat: lats[i], lon: lons[i] })],
        !is_ring(items) ==> rings_of(Tree::Array(items)) == rings_in_all(items),
        rings_in_all(items + more) == rings_in_all(items) + rings_in_all(more),
        rings_in_all(seq![Tree::Array(items)]) == rings_of(Tree::Array(items)),
        rings_of(Tree::Number(span)) == Seq::<Seq<RingPoint>>::empty(),
        rings_in_all(seq![Tree::Number(span)]) == Seq::<Seq<RingPoint>>::empty(),
{
    let positions = Seq::new(
        lons.len(),
        |i: int| Tree::Array(seq![Tree::Number(lons[i]), Tree::Number(lats[i])]),
    );
    assert forall|i: int| 0 <= i < positions.len() implies is_position(#[trigger] positions[i])
        && point_of(positions[i]) == (RingPoint { lat: lats[i], lon: lons[i] }) by {
        let pair = seq![Tree::Number(lons[i]), Tree::Number(lats[i])];
        assert(positions[i] == Tree::Array(pair));
        assert(pair[0] == Tree::Number(lons[i]) && pair[1] == Tree::Number(lats[i]));
    }
    let ring = positions.map_values(|p: Tree| point_of(p));
    assert(ring == Seq::new(lons.len(), |i: int| RingPoint { lat: lats[i], lon: lons[i] }));
    assert(rings_of(Tree::Array(positions)) == seq![ring]);
    rings_of_two_rows(items, more);
    rings_of_one(Tree::Array(items));
    rings_of_one(Tree::Number(span));
}

proof fn rings_of_one(t: Tree)
    ensures
        rings_in_all(seq![t]) == rings_of(t),
{
    let row = seq![t];
    assert(row.drop_last() == Seq::<Tree>::empty());
    assert(rings_in_all(row.drop_last()) == Seq::<Seq<RingPoint>>::empty());
    assert(rings_in_all(row) == Seq::<Seq<RingPoint>>::empty() + rings_of(t));
    assert(Seq::<Seq<RingPoint>>::empty() + rings_of(t) == rings_of(t));
}

proof fn rings_of_two_rows(items: Seq<Tree>, more: Seq<Tree>)
    ensures
        rings_in_all(items + more) == rings_in_all(items) + rings_in_all(more),
    decreases more.len(),
{
    if more.len() == 0 {
        assert(items + more == items);
        assert(rings_in_all(items) + rings_in_all(more) == rings_in_all(items));
    } else {
        rings_of_two_rows(items, more.drop_last());
        assert((items + more).drop_last() == items + more.drop_last());
        assert((items + more).last() == more.last());
        assert(rings_in_all(items + more) == rings_in_all(items) + rings_in_all(more));
    }
}

/// A text holds the rings of every value behind a name `"coordinates":`, from
/// the first one on, and goes on behind that value; without another name there
/// are no more; and where no value can be read there is nothing to return.
pub proof fn every_geometry_is_read(s: Seq<u8>, pos: int, at: int)
    requires
        0 <= pos <= at,
        forall|k: int|
            pos <= k < at && k + 14 <= s.len() ==> #[trigger] s.subrange(k, k + 14) != seq![
                34u8,
                99,
                111,
                111,
                114,
                100,
                105,
                110,
                97,
                116,
                101,
                115,
                34,
                58,
            ],
    ensures
        at + 14 > s.len() ==> land_rings(s, pos) == Some(Seq::<Seq<RingPoint>>::empty()),
        at + 14 <= s.len() && s.subrange(at, at + 14) == seq![
            34u8,
            99,
            111,
            111,
            114,
            100,
            105,
            110,
            97,
            116,
            101,
            115,
            34,
            58,
        ] ==> {
            &&& value_at(s, at + 14) is None ==> land_rings(s, pos) is None
            &&& value_at(s, at + 14) matches Some((value, next)) ==> match land_rings(s, next) {
                Some(rest) => land_rings(s, pos) == Some(rings_of(value) + rest),
                None => land_rings(s, pos) is None,
            }
        },
{
    let name = coordinates_name();
    assert(name.len() == 14);
    values_take_up_room(s, at + 14);
    if at + 14 > s.len() {
        if let Some(found) = first_at(s, name, pos) {
            what_is_found_is_first(s, name, pos, 0);
            assert(s.subrange(found, found + 14) == name);
            assert(false);
        }
    } else if s.subrange(at, at + 14) == name {
        what_is_found_is_first(s, name, pos, at);
        let found = first_at(s, name, pos)->0;
        if found < at {
            assert(s.subrange(found, found + 14) == name);
            assert(false);
        }
    }
}

/// The points of all rings are counted, ring by ring.
pub proof fn all_points_are_counted(
    rings: Seq<Seq<RingPoint>>,
    more: Seq<Seq<RingPoint>>,
    ring: Seq<RingPoint>,
)
    ensures
        count_points(rings + more) == count_points(rings) + count_points(more),
        count_points(seq![ring]) == ring.len(),
    decreases more.len(),
{
    reveal_with_fuel(count_points, 2);
    assert(seq![ring].drop_last() == Seq::<Seq<RingPoint>>::empty());
    if more.len() == 0 {
        assert(rings + more == rings);
    } else {
        all_points_are_counted(rings, more.drop_last(), ring);
        assert((rings + more).drop_last() == rings + more.drop_last());
        assert((rings + more).last() == more.last());
    }
}

/// What a parsed node holds is what its parts hold, in their order.
pub proof fn nodes_hold_their_parts(nodes: Vec<Node>, span: Span, i: int)
    requires
        0 <= i < nodes@.len(),
    ensures
        tree_of(Node::Number(span)) == Tree::Number(span),
        tree_of(Node::Array(nodes)) matches Tree::Array(trees) && trees.len() == nodes@.len()
            && trees[i] == tree_of(nodes@[i]),
{
    trees_stand_in_order(nodes@);
}

/// The rings are taken point for point.
pub proof fn rings_are_taken_point_for_point(rings: Seq<Vec<RingPoint>>, i: int)
    requires
        0 <= i < rings.len(),
    ensures
        ring_points(rings).len() == rings.len(),
        ring_points(rings)[i] == rings[i]@,
{
}

} // verus!
