//! `ls`: the permission string of a file mode, which entries of a directory
//! are listed, and the table of the long listing.

use crate::decimal::{decimal_digits, push_decimal};
use crate::text::chars_of;
use tabular::{Row, Table};
use vstd::prelude::*;
use vstd::string::*;

verus! {

/// Whose permissions a triple of mode bits describes.
#[derive(Debug, Clone, Copy, PartialEq, Eq, Structural)]
pub enum Owner {
    User,
    Group,
    Other,
}

impl Owner {
    /// The mode bits for reading, writing and executing, in this order.
    pub open spec fn masks_spec(&self) -> (u32, u32, u32) {
        match self {
            Owner::User => (0o400u32, 0o200u32, 0o100u32),
            Owner::Group => (0o040u32, 0o020u32, 0o010u32),
            Owner::Other => (0o004u32, 0o002u32, 0o001u32),
        }
    }

    /// The mode bits for reading, writing and executing, in this order.
    pub fn masks(&self) -> (masks: [u32; 3])
        ensures
            masks[0] == self.masks_spec().0,
            masks[1] == self.masks_spec().1,
            masks[2] == self.masks_spec().2,
    {
        match self {
            Owner::User => [0o400, 0o200, 0o100],
            Owner::Group => [0o040, 0o020, 0o010],
            Owner::Other => [0o004, 0o002, 0o001],
        }
    }
}

/// The letter for a permission in `mode`: `letter` where the bit of `mask`
/// is set, a dash where it is not.
pub open spec fn flag(mode: u32, mask: u32, letter: char) -> char {
    if mode & mask == 0 {
        '-'
    } else {
        letter
    }
}

/// The three letters for one owner, like `r-x`.
pub open spec fn triple_spec(mode: u32, owner: Owner) -> Seq<char> {
    seq![
        flag(mode, owner.masks_spec().0, 'r'),
        flag(mode, owner.masks_spec().1, 'w'),
        flag(mode, owner.masks_spec().2, 'x'),
    ]
}

/// The nine letters for user, group and others, like `rwxr-x--x`.
pub open spec fn mode_spec(mode: u32) -> Seq<char> {
    triple_spec(mode, Owner::User) + triple_spec(mode, Owner::Group) + triple_spec(
        mode,
        Owner::Other,
    )
}

/// Given a mode like `0o500` and an owner, the string like `r-x`.
pub fn mk_triple(mode: u32, owner: Owner) -> (out: String)
    ensures
        out@ == triple_spec(mode, owner),
{
    let masks = owner.masks();
    let mut out = String::new();
    out.push(if mode & masks[0] == 0 { '-' } else { 'r' });
    out.push(if mode & masks[1] == 0 { '-' } else { 'w' });
    out.push(if mode & masks[2] == 0 { '-' } else { 'x' });
    proof {
        assert(out@ =~= triple_spec(mode, owner));
    }
    out
}

/// Given a file mode like `0o751`, the string like `rwxr-x--x`.
pub fn format_mode(mode: u32) -> (out: String)
    ensures
        out@ == mode_spec(mode),
        out@.len() == 9,
{
    let mut out = mk_triple(mode, Owner::User);
    let group = mk_triple(mode, Owner::Group);
    let other = mk_triple(mode, Owner::Other);
    out.append(group.as_str());
    out.append(other.as_str());
    out
}

/// A name is hidden: it begins with a dot.
pub open spec fn hidden(file_name: Seq<char>) -> bool {
    file_name.len() > 0 && file_name[0] == '.'
}

/// An entry of a directory is listed: it is not hidden, or hidden entries
/// are shown. An entry without a name is not hidden.
pub open spec fn listed(file_name: Option<Seq<char>>, show_hidden: bool) -> bool {
    show_hidden || match file_name {
        Some(name) => !hidden(name),
        None => true,
    }
}

/// Whether an entry of a directory with this name is listed.
pub fn is_listed(file_name: Option<&str>, show_hidden: bool) -> (yes: bool)
    ensures
        yes == listed(
            match file_name {
                Some(name) => Some(name@),
                None => None,
            },
            show_hidden,
        ),
{
    let is_hidden = match file_name {
        Some(name) => {
            let chars = chars_of(name);
            chars.len() > 0 && chars[0] == '.'
        },
        None => false,
    };
    !is_hidden || show_hidden
}

/// The name to show for an owner: the name on record, or the number where
/// there is none.
pub fn name_or_id(name: Option<String>, id: u32) -> (shown: String)
    ensures
        shown@ == match name {
            Some(n) => n@,
            None => decimal_digits(id as nat),
        },
{
    match name {
        Some(n) => n,
        None => {
            let mut shown = String::new();
            push_decimal(&mut shown, id as u64);
            proof {
                assert(shown@ =~= decimal_digits(id as nat));
            }
            shown
        },
    }
}

/// What the long listing shows of a file.
#[derive(Debug)]
pub struct LongEntry {
    pub is_dir: bool,
    pub mode: u32,
    pub nlink: u64,
    pub user: String,
    pub group: String,
    pub size: u64,
    /// The time of the last change, as it is to be shown.
    pub modified: String,
    pub path: String,
}

/// The eight cells of an entry: `d` or a dash for its type, its permissions,
/// the number of its links, user, group, size, time of change and path.
pub open spec fn entry_cells(entry: LongEntry) -> Seq<Seq<char>> {
    seq![
        if entry.is_dir {
            "d"@
        } else {
            "-"@
        },
        mode_spec(entry.mode),
        decimal_digits(entry.nlink as nat),
        entry.user@,
        entry.group@,
        decimal_digits(entry.size as nat),
        entry.modified@,
        entry.path@,
    ]
}

/// The cells of an entry.
pub fn cells(entry: &LongEntry) -> (out: Vec<String>)
    ensures
        out.deep_view() == entry_cells(*entry),
        out.len() == 8,
{
    let mut links = String::new();
    push_decimal(&mut links, entry.nlink);
    let mut size = String::new();
    push_decimal(&mut size, entry.size);
    let mut out: Vec<String> = Vec::new();
    out.push(String::from_str(if entry.is_dir { "d" } else { "-" }));
    out.push(format_mode(entry.mode));
    out.push(links);
    out.push(entry.user.clone());
    out.push(entry.group.clone());
    out.push(size);
    out.push(entry.modified.clone());
    out.push(entry.path.clone());
    proof {
        assert(links@ =~= decimal_digits(entry.nlink as nat));
        assert(size@ =~= decimal_digits(entry.size as nat));
        assert(out.deep_view() =~= entry_cells(*entry));
    }
    out
}

/// A table of `tabular`, carried as it is; its rows are named by
/// `table_rows`, the row specification it was made with by `table_format`.
#[verifier::external_type_specification]
#[verifier::external_body]
pub struct ExTable(tabular::Table);

/// The rows of cells that a table holds, in order.
pub uninterp spec fn table_rows(table: Table) -> Seq<Seq<Seq<char>>>;

/// The row specification that a table was made with.
pub uninterp spec fn table_format(table: Table) -> Seq<char>;

/// The number of columns that `tabular` reads from a row specification;
/// `None` for a text that is no row specification.
pub uninterp spec fn format_columns(row_spec: Seq<char>) -> Option<nat>;

/// The text that `tabular` writes for rows of cells under a row
/// specification.
pub uninterp spec fn table_text(row_spec: Seq<char>, rows: Seq<Seq<Seq<char>>>) -> Seq<char>;

/// `Table::new_safe` makes an empty table for a row specification, or
/// returns an error where the text is no row specification.
#[verifier::external_body]
fn new_table(row_spec: &str) -> (table: Option<Table>)
    ensures
        table is Some <==> format_columns(row_spec@) is Some,
        table is Some ==> table_format(table->0) == row_spec@,
        table is Some ==> table_rows(table->0).len() == 0,
{
    Table::new_safe(row_spec).ok()
}

/// `Table::column_count` returns the number of columns of the table, which
/// its row specification decides.
pub assume_specification[ Table::column_count ](table: &Table) -> (count: usize)
    ensures
        Some(count as nat) == format_columns(table_format(*table)),
;

/// `Table::add_row` adds a row of cells behind the rows of the table; it
/// panics unless the row has as many cells as the table has columns.
/// `Row::from_cells` makes the row of the texts.
#[verifier::external_body]
fn add_row(table: &mut Table, row: &Vec<String>)
    requires
        format_columns(table_format(*old(table))) == Some(row@.len()),
    ensures
        table_format(*final(table)) == table_format(*old(table)),
        table_rows(*final(table)) == table_rows(*old(table)).push(row.deep_view()),
{
    table.add_row(Row::from_cells(row.iter()));
}

/// The `Display` of a table writes its rows, each cell filled up to the
/// width of its column, as the row specification tells.
#[verifier::external_body]
fn table_to_string(table: &Table) -> (text: String)
    ensures
        text@ == table_text(table_format(*table), table_rows(*table)),
{
    table.to_string()
}

/// The row specification of the long listing: type and permissions in one
/// piece, then the six other columns, with numbers at the right.
pub open spec fn long_format() -> Seq<char> {
    "{:<}{:<} {:>} {:<} {:<} {:>} {:<} {:<}"@
}

/// The rows of the long listing.
pub open spec fn long_rows(entries: Seq<LongEntry>) -> Seq<Seq<Seq<char>>> {
    Seq::new(entries.len(), |i: int| entry_cells(entries[i]))
}

/// The long listing of the entries: a table with one row for each, under
/// `long_format`. There is none where `tabular` does not read eight columns
/// from that specification.
pub fn format_output(entries: &Vec<LongEntry>) -> (out: Option<String>)
    ensures
        out is Some <==> format_columns(long_format()) == Some(8nat),
        out is Some ==> out->0@ == table_text(long_format(), long_rows(entries@)),
{
    let mut table = match new_table("{:<}{:<} {:>} {:<} {:<} {:>} {:<} {:<}") {
        Some(t) => t,
        None => {
            return None;
        },
    };
    if table.column_count() != 8 {
        return None;
    }
    let ghost want = long_rows(entries@);
    let mut i: usize = 0;
    proof {
        assert(table_rows(table) =~= want.take(0));
    }
    while i < entries.len()
        invariant
            i <= entries.len(),
            want == long_rows(entries@),
            table_format(table) == long_format(),
            format_columns(long_format()) == Some(8nat),
            table_rows(table) == want.take(i as int),
        decreases entries.len() - i,
    {
        let row = cells(&entries[i]);
        add_row(&mut table, &row);
        proof {
            assert(want.take(i + 1) =~= want.take(i as int).push(want[i as int]));
        }
        i = i + 1;
    }
    proof {
        assert(want.take(i as int) =~= want);
    }
    Some(table_to_string(&table))
}

} // verus!
