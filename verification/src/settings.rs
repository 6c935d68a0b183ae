//! The shared identity: display name or callsign and home Maidenhead locator,
//! set once and reused everywhere a message needs them, and the optional
//! serial PTT port, off unless explicitly picked.
//!
//! It is the only state that survives a restart, kept as a plain text file of
//! four lines.

use vstd::prelude::*;
use vstd::string::*;
use crate::ptt::DEFAULT_BAUD;
use crate::text::{
    blank, copy_of, decimal, decimal_text, first_line_of, is_blank, lines, lines_hold_no_line_feed,
    lines_of, number_of, parse_number, said, tight, trim, trimmed, trimming_adds_nothing,
    trimming_keeps_a_tight_text, trimming_leaves_a_tight_text, without_return,
    written_numbers_are_read_back,
};

verus! {

pub struct Identity {
    pub display_name: String,
    pub home_grid: Option<String>,
    pub ptt_port: Option<String>,
    pub ptt_baud: u32,
}

/// What an identity says.
pub struct IdentityData {
    pub display_name: Seq<char>,
    pub home_grid: Option<Seq<char>>,
    pub ptt_port: Option<Seq<char>>,
    pub ptt_baud: u32,
}

impl View for Identity {
    type V = IdentityData;

    open spec fn view(&self) -> IdentityData {
        IdentityData {
            display_name: self.display_name@,
            home_grid: said(self.home_grid),
            ptt_port: said(self.ptt_port),
            ptt_baud: self.ptt_baud,
        }
    }
}

/// An identity that nobody has set.
pub open spec fn unset() -> IdentityData {
    IdentityData {
        display_name: Seq::empty(),
        home_grid: None,
        ptt_port: None,
        ptt_baud: DEFAULT_BAUD,
    }
}

impl Default for Identity {
    fn default() -> (identity: Self)
        ensures
            identity@ == unset(),
    {
        let identity = Identity {
            display_name: String::new(),
            home_grid: None,
            ptt_port: None,
            ptt_baud: DEFAULT_BAUD,
        };
        assert(identity.display_name@ == Seq::<char>::empty());
        identity
    }
}

/// The value that a read-only field shows, if it says anything; else it is not
/// set.
pub fn shown_value(value: Option<&str>) -> (shown: Option<&str>)
    ensures
        shown == (match value {
            Some(v) => if blank(v@) {
                None
            } else {
                Some(v)
            },
            None => None,
        }),
{
    match value {
        Some(v) => if is_blank(v) {
            None
        } else {
            Some(v)
        },
        None => None,
    }
}

// ---------------------------------------------------------------------
// Reading
// ---------------------------------------------------------------------

/// What a line says once trimmed, if it says anything.
pub open spec fn value_on(lines: Seq<Seq<char>>, i: int) -> Option<Seq<char>> {
    if i < lines.len() && !blank(lines[i]) {
        Some(trimmed(lines[i]))
    } else {
        None
    }
}

/// The identity that a file's text holds. A missing line means nothing was
/// set, as an empty or unreadable one does.
pub open spec fn identity_in(contents: Seq<char>) -> IdentityData {
    let lines = lines_of(contents);
    IdentityData {
        display_name: if lines.len() > 0 {
            lines[0]
        } else {
            Seq::empty()
        },
        home_grid: value_on(lines, 1),
        ptt_port: value_on(lines, 2),
        ptt_baud: if lines.len() > 3 {
            match number_of(trimmed(lines[3])) {
                Some(n) => n,
                None => DEFAULT_BAUD,
            }
        } else {
            DEFAULT_BAUD
        },
    }
}

fn value_of(rows: &Vec<String>, i: usize) -> (value: Option<String>)
    ensures
        said(value) == value_on(rows@.map_values(|s: String| s@), i as int),
{
    if i < rows.len() && !is_blank(&rows[i]) {
        Some(trim(&rows[i]))
    } else {
        None
    }
}

/// The identity from the text of the saved file, or the default one where
/// there is no file.
pub fn load(contents: Option<&str>) -> (identity: Identity)
    ensures
        identity@ == (match contents {
            Some(text) => identity_in(text@),
            None => unset(),
        }),
{
    let text = match contents {
        Some(text) => text,
        None => {
            return Identity::default();
        },
    };
    let rows = lines(text);
    let ghost said_rows = rows@.map_values(|s: String| s@);
    assert(said_rows == lines_of(text@));
    let display_name = if rows.len() > 0 {
        copy_of(&rows[0])
    } else {
        String::new()
    };
    assert(said_rows.len() == 0 ==> display_name@ == Seq::<char>::empty());
    let ptt_baud: u32 = if rows.len() > 3 {
        let inner = trim(&rows[3]);
        match parse_number(&inner) {
            Some(n) => n,
            None => DEFAULT_BAUD,
        }
    } else {
        DEFAULT_BAUD
    };
    let identity = Identity {
        display_name,
        home_grid: value_of(&rows, 1),
        ptt_port: value_of(&rows, 2),
        ptt_baud,
    };
    assert(identity@.display_name == identity_in(text@).display_name);
    identity
}

// ---------------------------------------------------------------------
// Writing
// ---------------------------------------------------------------------

/// An optional text, empty where there is none.
pub open spec fn or_empty(text: Option<Seq<char>>) -> Seq<char> {
    match text {
        Some(t) => t,
        None => Seq::empty(),
    }
}

/// A line in front of more text.
pub open spec fn line_then(line: Seq<char>, rest: Seq<char>) -> Seq<char> {
    line + seq!['\n'] + rest
}

/// The text of the file for an identity.
pub open spec fn file_text(identity: IdentityData) -> Seq<char> {
    line_then(
        identity.display_name,
        line_then(
            or_empty(identity.home_grid),
            line_then(
                or_empty(identity.ptt_port),
                line_then(decimal(identity.ptt_baud as nat), Seq::empty()),
            ),
        ),
    )
}

fn put_line(text: &mut String, line: &str)
    ensures
        final(text)@ == line_then(old(text)@ + line@, Seq::empty()),
{
    text.append(line);
    text.push('\n');
    assert(text@ == line_then(old(text)@ + line@, Seq::empty()));
}

/// The text to save for an identity.
pub fn save(identity: &Identity) -> (contents: String)
    ensures
        contents@ == file_text(identity@),
{
    let mut text = String::new();
    put_line(&mut text, &identity.display_name);
    let ghost one = text@;
    match &identity.home_grid {
        Some(grid) => put_line(&mut text, grid),
        None => put_line(&mut text, ""),
    }
    let ghost two = text@;
    match &identity.ptt_port {
        Some(port) => put_line(&mut text, port),
        None => put_line(&mut text, ""),
    }
    let ghost three = text@;
    let baud = decimal_text(identity.ptt_baud as u128);
    put_line(&mut text, &baud);
    proof {
        reveal_strlit("");
        let name = identity@.display_name;
        let grid = or_empty(identity@.home_grid);
        let port = or_empty(identity@.ptt_port);
        assert(one == name + seq!['\n']);
        assert(two == one + grid + seq!['\n']);
        assert(three == two + port + seq!['\n']);
        four_lines(name, grid, port, baud@);
        assert(text@ == three + baud@ + seq!['\n']);
    }
    text
}

proof fn four_lines(a: Seq<char>, b: Seq<char>, c: Seq<char>, d: Seq<char>)
    ensures
        a + seq!['\n'] + b + seq!['\n'] + c + seq!['\n'] + d + seq!['\n'] == line_then(
            a,
            line_then(b, line_then(c, line_then(d, Seq::empty()))),
        ),
{
    let left = a + seq!['\n'] + b + seq!['\n'] + c + seq!['\n'] + d + seq!['\n'];
    let inner = line_then(c, line_then(d, Seq::empty()));
    assert(inner == c + seq!['\n'] + d + seq!['\n']);
    assert(line_then(b, inner) == b + seq!['\n'] + c + seq!['\n'] + d + seq!['\n']);
    assert(left == line_then(a, line_then(b, inner)));
}

// ---------------------------------------------------------------------
// Laws
// ---------------------------------------------------------------------

/// Whether a value survives being a line of the file: it is not empty, has no
/// white space around it and is a single line.
pub open spec fn keeps(value: Option<Seq<char>>) -> bool {
    value matches Some(v) ==> v.len() > 0 && tight(v) && !v.contains('\n')
}

/// What was saved is loaded again: the name where it is a single line that
/// does not end in a carriage return, and the grid and the port where they
/// are a line without white space around it.
pub proof fn a_saved_identity_is_loaded(identity: IdentityData)
    requires
        !identity.display_name.contains('\n'),
        identity.display_name.len() > 0 ==> identity.display_name.last() != '\r',
        keeps(identity.home_grid),
        keeps(identity.ptt_port),
    ensures
        identity_in(file_text(identity)) == identity,
{
    let name = identity.display_name;
    let grid = or_empty(identity.home_grid);
    let port = or_empty(identity.ptt_port);
    let baud = decimal(identity.ptt_baud as nat);
    let text4 = line_then(baud, Seq::empty());
    let text3 = line_then(port, text4);
    let text2 = line_then(grid, text3);
    let text = line_then(name, text2);
    written_numbers_are_read_back(identity.ptt_baud);
    first_line_of(baud, Seq::empty());
    first_line_of(port, text4);
    first_line_of(grid, text3);
    first_line_of(name, text2);
    let rows = lines_of(text);
    assert(lines_of(Seq::<char>::empty()) == Seq::<Seq<char>>::empty());
    assert(rows[0] == without_return(name));
    assert(rows[1] == without_return(grid));
    assert(rows[2] == without_return(port));
    assert(rows[3] == without_return(baud));
    tight_line(grid);
    tight_line(port);
    tight_line(baud);
}

proof fn tight_line(line: Seq<char>)
    requires
        tight(line),
    ensures
        without_return(line) == line,
        trimmed(line) == line,
        blank(line) <==> line.len() == 0,
{
    trimming_keeps_a_tight_text(line);
    trimming_leaves_a_tight_text(line);
}

/// Loading any file, saving what was loaded and loading it again changes
/// nothing, unless the name ends in a carriage return.
pub proof fn a_loaded_identity_is_kept(contents: Seq<char>)
    requires
        identity_in(contents).display_name.len() > 0 ==> identity_in(contents).display_name.last()
            != '\r',
    ensures
        identity_in(file_text(identity_in(contents))) == identity_in(contents),
{
    let rows = lines_of(contents);
    if rows.len() > 0 {
        lines_hold_no_line_feed(contents, 0);
    }
    loaded_values_keep(contents, 1);
    loaded_values_keep(contents, 2);
    a_saved_identity_is_loaded(identity_in(contents));
}

proof fn loaded_values_keep(contents: Seq<char>, i: int)
    requires
        i >= 0,
    ensures
        keeps(value_on(lines_of(contents), i)),
{
    if i < lines_of(contents).len() {
        let row = lines_of(contents)[i];
        lines_hold_no_line_feed(contents, i);
        trimming_leaves_a_tight_text(row);
        if trimmed(row).contains('\n') {
            trimming_adds_nothing(row, '\n');
        }
    }
}

/// What an identity says is what its fields say.
pub proof fn an_identity_says_its_fields(identity: Identity)
    ensures
        identity@.display_name == identity.display_name@,
        identity@.home_grid == said(identity.home_grid),
        identity@.ptt_port == said(identity.ptt_port),
        identity@.ptt_baud == identity.ptt_baud,
{
}

/// Whether an optional value is what a line says: the line without the white
/// space around it, or nothing where the line is blank.
pub open spec fn is_value_of(value: Option<Seq<char>>, line: Seq<char>) -> bool {
    &&& blank(line) ==> value is None
    &&& !blank(line) ==> value == Some(trimmed(line))
}

proof fn the_next_lines(line: Seq<char>, rest: Seq<char>)
    requires
        !line.contains('\n'),
    ensures
        lines_of(line_then(line, rest)).len() == 1 + lines_of(rest).len(),
        lines_of(line_then(line, rest))[0] == without_return(line),
        forall|i: int|
            0 <= i < lines_of(rest).len() ==> lines_of(line_then(line, rest))[i + 1]
                == #[trigger] lines_of(rest)[i],
{
    first_line_of(line, rest);
}

/// The file is read line by line: the name, as it is but for a carriage return
/// at its end; the grid and the port, each trimmed, or none where the line is
/// blank; and the baud rate, or the usual one where the line is no number. More
/// lines are not looked at.
pub proof fn the_file_is_read_line_by_line(
    name: Seq<char>,
    grid: Seq<char>,
    port: Seq<char>,
    baud: Seq<char>,
    more: Seq<char>,
)
    requires
        !name.contains('\n'),
        !grid.contains('\n'),
        !port.contains('\n'),
        !baud.contains('\n'),
    ensures
        ({
            let identity = identity_in(
                line_then(name, line_then(grid, line_then(port, line_then(baud, more)))),
            );
            &&& identity.display_name == without_return(name)
            &&& is_value_of(identity.home_grid, without_return(grid))
            &&& is_value_of(identity.ptt_port, without_return(port))
            &&& number_of(trimmed(without_return(baud))) matches Some(n) ==> identity.ptt_baud == n
            &&& number_of(trimmed(without_return(baud))) is None ==> identity.ptt_baud == 4800
        }),
{
    let text4 = line_then(baud, more);
    let text3 = line_then(port, text4);
    let text2 = line_then(grid, text3);
    the_next_lines(baud, more);
    the_next_lines(port, text4);
    the_next_lines(grid, text3);
    the_next_lines(name, text2);
    let rows = lines_of(line_then(name, text2));
    assert(rows[1] == lines_of(text2)[0]);
    assert(rows[2] == lines_of(text2)[1]);
    assert(rows[3] == lines_of(text2)[2]);
    assert(lines_of(text2)[1] == lines_of(text3)[0]);
    assert(lines_of(text2)[2] == lines_of(text3)[1]);
    assert(lines_of(text3)[1] == lines_of(text4)[0]);
}

/// What a file leaves out is not set: a file that ends behind the name has no
/// grid, no port and the usual baud rate, one that ends behind the grid has no
/// port, and so on. An empty file has no name either.
pub proof fn what_the_file_leaves_out_is_not_set(
    name: Seq<char>,
    grid: Seq<char>,
    port: Seq<char>,
)
    requires
        !name.contains('\n'),
        !grid.contains('\n'),
        !port.contains('\n'),
    ensures
        identity_in(Seq::empty()) == (IdentityData {
            display_name: Seq::empty(),
            home_grid: None,
            ptt_port: None,
            ptt_baud: 4800,
        }),
        identity_in(line_then(name, Seq::empty())) == (IdentityData {
            display_name: without_return(name),
            home_grid: None,
            ptt_port: None,
            ptt_baud: 4800,
        }),
        ({
            let two = identity_in(line_then(name, line_then(grid, Seq::empty())));
            &&& is_value_of(two.home_grid, without_return(grid))
            &&& two.ptt_port is None
            &&& two.ptt_baud == 4800
        }),
        ({
            let three = identity_in(
                line_then(name, line_then(grid, line_then(port, Seq::empty()))),
            );
            &&& is_value_of(three.ptt_port, without_return(port))
            &&& three.ptt_baud == 4800
        }),
{
    let end = Seq::<char>::empty();
    assert(lines_of(end) == Seq::<Seq<char>>::empty());
    the_next_lines(name, end);
    the_next_lines(grid, end);
    the_next_lines(port, end);
    the_next_lines(name, line_then(grid, end));
    the_next_lines(grid, line_then(port, end));
    the_next_lines(name, line_then(grid, line_then(port, end)));
    assert(lines_of(line_then(name, line_then(grid, end)))[1] == lines_of(
        line_then(grid, end),
    )[0]);
    let three = line_then(name, line_then(grid, line_then(port, end)));
    assert(lines_of(three)[2] == lines_of(line_then(grid, line_then(port, end)))[1]);
    assert(lines_of(line_then(grid, line_then(port, end)))[1] == lines_of(
        line_then(port, end),
    )[0]);
}

/// The file has four lines: the name, the grid, the port and the baud rate, the
/// second and the third empty where there is none.
pub proof fn the_file_has_four_lines(identity: IdentityData)
    ensures
        ({
            let grid = match identity.home_grid {
                Some(grid) => grid,
                None => Seq::empty(),
            };
            let port = match identity.ptt_port {
                Some(port) => port,
                None => Seq::empty(),
            };
            file_text(identity) == identity.display_name + seq!['\n'] + grid + seq!['\n'] + port
                + seq!['\n'] + decimal(identity.ptt_baud as nat) + seq!['\n']
        }),
{
    four_lines(
        identity.display_name,
        or_empty(identity.home_grid),
        or_empty(identity.ptt_port),
        decimal(identity.ptt_baud as nat),
    );
}

/// An identity that nobody has set has neither a name nor a grid nor a port, and
/// the usual baud rate.
pub proof fn nothing_is_set_at_first()
    ensures
        unset().display_name.len() == 0,
        unset().home_grid is None,
        unset().ptt_port is None,
        unset().ptt_baud == 4800,
{
}

} // verus!
