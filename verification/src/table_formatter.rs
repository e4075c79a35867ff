//! Renders result sets as a bordered table.  Every column is a fixed
//! fifteen characters wide; values are padded or truncated to fit.

use vstd::prelude::*;
use crate::strutil::{push_char, push_repeat, spec_repeat, lemma_seq_deep_push, lemma_deep_view_is_seq_deep, spec_join, join_cells};

verus! {

/// Field metadata taken from a RowDescription message.
#[derive(Clone, Debug)]
pub struct FieldInfo {
    pub name: String,
    pub data_type: String,
}

/// The fixed width of every rendered column, in characters.
pub const FIXED_COL_WIDTH: usize = 15;

/// A cell padded or truncated to exactly `width` characters: short values
/// are right-padded with spaces; long ones are cut, with a three-dot
/// ellipsis where at least three characters of room exist.
pub open spec fn spec_pad_or_truncate(s: Seq<char>, width: nat) -> Seq<char> {
    if s.len() <= width {
        s + spec_repeat(' ', (width - s.len()) as nat)
    } else if width >= 3 {
        s.subrange(0, width - 3) + seq!['.', '.', '.']
    } else {
        s.subrange(0, width as int)
    }
}

/// The rendered cell always has exactly `width` characters.
pub proof fn lemma_pad_or_truncate_width(s: Seq<char>, width: nat)
    ensures
        spec_pad_or_truncate(s, width).len() == width,
{
}

/// Pads or truncates `s` to exactly `width` characters.
pub fn pad_or_truncate(s: &str, width: usize) -> (r: String)
    ensures
        r@ == spec_pad_or_truncate(s@, width as nat),
        r@.len() == width,
{
    let n = s.unicode_len();
    if n <= width {
        let mut out = s.to_owned();
        push_repeat(&mut out, ' ', width - n);
        out
    } else if width >= 3 {
        let mut out = s.substring_char(0, width - 3).to_owned();
        push_char(&mut out, '.');
        push_char(&mut out, '.');
        push_char(&mut out, '.');
        proof {
            assert(out@ =~= s@.subrange(0, width - 3) + seq!['.', '.', '.']);
        }
        out
    } else {
        s.substring_char(0, width).to_owned()
    }
}

/// The number of characters a string occupies on screen.
pub fn unicode_display_width(s: &str) -> (r: usize)
    ensures
        r == s@.len(),
{
    s.unicode_len()
}

/// The width of column `i`: the fixed width where one is recorded, ten
/// otherwise.
pub open spec fn spec_width_at(widths: Seq<usize>, i: int) -> usize {
    if 0 <= i < widths.len() {
        widths[i]
    } else {
        10
    }
}

/// The cells of one rendered row, before joining.
pub open spec fn spec_row_cells(values: Seq<Seq<char>>, widths: Seq<usize>) -> Seq<Seq<char>> {
    Seq::new(values.len(), |i: int| spec_pad_or_truncate(values[i], spec_width_at(widths, i) as nat))
}

/// One rendered data row: padded cells joined by a vertical bar.
pub open spec fn spec_row_data(values: Seq<Seq<char>>, widths: Seq<usize>) -> Seq<char> {
    spec_join(spec_row_cells(values, widths), "│"@)
}

/// A horizontal rule: one dash-run per column, joined by `joiner`.
pub open spec fn spec_separator(widths: Seq<usize>, joiner: Seq<char>) -> Seq<char> {
    spec_join(Seq::new(widths.len(), |i: int| spec_repeat('─', widths[i] as nat)), joiner)
}

/// The two rendered pieces of a table row: the cell line and a rule of the
/// same widths.
pub struct FormattedParts {
    pub data: String,
    pub separator: String,
}

/// The observable state of a formatter: the column names, the column
/// widths, and whether the header has been rendered.
pub struct FmtView {
    pub names: Seq<Seq<char>>,
    pub widths: Seq<usize>,
    pub header_printed: bool,
}

/// The observable per-connection table state.
pub struct TableView {
    pub mode: bool,
    pub formatter: Option<FmtView>,
}

/// The names of a field list.
pub open spec fn spec_fi_names(fields: Seq<FieldInfo>) -> Seq<Seq<char>> {
    Seq::new(fields.len(), |i: int| fields[i].name@)
}

/// Table-rendering state for one result set.  Column widths are fixed at
/// fifteen characters and never change.
pub struct TableFormatter {
    pub fields: Vec<FieldInfo>,
    pub column_widths: Vec<usize>,
    pub header_printed: bool,
}

impl View for TableFormatter {
    type V = FmtView;

    open spec fn view(&self) -> FmtView {
        FmtView {
            names: spec_fi_names(self.fields@),
            widths: self.column_widths@,
            header_printed: self.header_printed,
        }
    }
}

impl TableFormatter {
    /// Every column width equals the fixed width, one per field.
    pub open spec fn wf(self) -> bool {
        &&& self.column_widths@.len() == self.fields@.len()
        &&& self.column_widths@ == Seq::new(self.fields@.len(), |i: int| FIXED_COL_WIDTH)
    }

    /// The names of the fields, for the header row.
    pub open spec fn spec_field_names(self) -> Seq<Seq<char>> {
        spec_fi_names(self.fields@)
    }

    /// Creates a formatter with one fixed-width column per field.
    pub fn new(fields: Vec<FieldInfo>) -> (r: TableFormatter)
        ensures
            r.wf(),
            r.fields == fields,
            !r.header_printed,
    {
        let n = fields.len();
        let mut column_widths: Vec<usize> = Vec::new();
        let mut i: usize = 0;
        while i < n
            invariant
                i <= n,
                column_widths@ =~= Seq::new(i as nat, |k: int| FIXED_COL_WIDTH),
            decreases n - i,
        {
            column_widths.push(FIXED_COL_WIDTH);
            proof {
                assert(column_widths@ =~~= Seq::new((i + 1) as nat, |k: int| FIXED_COL_WIDTH));
            }
            i = i + 1;
        }
        let r = TableFormatter { fields, column_widths, header_printed: false };
        assert(r.wf());
        r
    }

    /// Renders one row against the given widths.
    pub fn format_row(&self, values: &Vec<String>, widths: &Vec<usize>) -> (r: FormattedParts)
        ensures
            r.data@ == spec_row_data(values.deep_view(), widths@),
            r.separator@ == spec_separator(widths@, "┬"@),
    {
        let n = values.len();
        let mut cells: Vec<String> = Vec::new();
        let mut i: usize = 0;
        while i < n
            invariant
                n == values@.len(),
                i <= n,
                cells.deep_view() =~~= spec_row_cells(values.deep_view(), widths@).subrange(
                    0,
                    i as int,
                ),
            decreases n - i,
        {
            let width = if i < widths.len() {
                widths[i]
            } else {
                10
            };
            let cell = pad_or_truncate(values[i].as_str(), width);
            proof {
                lemma_deep_view_is_seq_deep(&cells);
            }
            let ghost pv = cells@;
            cells.push(cell);
            proof {
                lemma_seq_deep_push(pv, cell);
                lemma_deep_view_is_seq_deep(&cells);
                assert(cells.deep_view() =~~= spec_row_cells(values.deep_view(), widths@).subrange(
                    0,
                    (i + 1) as int,
                ));
            }
            i = i + 1;
        }
        proof {
            assert(spec_row_cells(values.deep_view(), widths@).subrange(0, n as int)
                =~~= spec_row_cells(values.deep_view(), widths@));
        }
        let data = join_cells(cells, "│");
        let separator = render_separator(widths, "┬");
        FormattedParts { data, separator }
    }

    /// Renders the top border, the header row of field names, and the rule
    /// under it, unless the header has already been printed.
    pub fn print_header(&mut self, client_addr: &str) -> (lines: Vec<String>)
        requires
            old(self).wf(),
        ensures
            final(self).wf(),
            final(self).fields == old(self).fields,
            final(self).column_widths == old(self).column_widths,
            final(self).header_printed,
            lines.deep_view() == if old(self).header_printed {
                Seq::<Seq<char>>::empty()
            } else {
                spec_header_lines(old(self)@, client_addr@)
            },
    {
        let mut lines: Vec<String> = Vec::new();
        if self.header_printed {
            assert(lines.deep_view() =~~= Seq::<Seq<char>>::empty());
            return lines;
        }
        let n = self.fields.len();
        let mut names: Vec<String> = Vec::new();
        let mut i: usize = 0;
        while i < n
            invariant
                n == self.fields@.len(),
                i <= n,
                names.deep_view() =~~= self.spec_field_names().subrange(0, i as int),
                *self == *old(self),
            decreases n - i,
        {
            let field_name = self.fields[i].name.clone();
            proof {
                lemma_deep_view_is_seq_deep(&names);
            }
            let ghost pv = names@;
            names.push(field_name);
            proof {
                lemma_seq_deep_push(pv, field_name);
                lemma_deep_view_is_seq_deep(&names);
                assert(names.deep_view() =~~= self.spec_field_names().subrange(0, (i + 1) as int));
            }
            i = i + 1;
        }
        proof {
            assert(self.spec_field_names().subrange(0, n as int) =~~= self.spec_field_names());
        }
        let parts = self.format_row(&names, &self.column_widths);

        let mut top = new_prefix(client_addr);
        push_char(&mut top, '┌');
        top.append(parts.separator.as_str());
        push_char(&mut top, '┐');

        let mut mid = new_prefix(client_addr);
        push_char(&mut mid, '│');
        mid.append(parts.data.as_str());
        push_char(&mut mid, '│');

        let mut bot = new_prefix(client_addr);
        push_char(&mut bot, '├');
        bot.append(parts.separator.as_str());
        push_char(&mut bot, '┤');

        lines.push(top);
        lines.push(mid);
        lines.push(bot);
        self.header_printed = true;
        proof {
            assert(lines.deep_view() =~~= spec_header_lines(old(self)@, client_addr@));
        }
        lines
    }

    /// Renders one data row, preceded by the header if it has not yet been
    /// printed.  Column widths never change.
    pub fn print_row(&mut self, values: &Vec<String>, client_addr: &str) -> (lines: Vec<String>)
        requires
            old(self).wf(),
        ensures
            final(self).wf(),
            final(self).fields == old(self).fields,
            final(self).column_widths == old(self).column_widths,
            final(self).header_printed,
            lines.deep_view() == if old(self).header_printed {
                seq![spec_data_line(old(self)@, values.deep_view(), client_addr@)]
            } else {
                spec_header_lines(old(self)@, client_addr@) + seq![
                    spec_data_line(old(self)@, values.deep_view(), client_addr@),
                ]
            },
    {
        let mut lines = self.print_header(client_addr);
        let parts = self.format_row(values, &self.column_widths);
        let mut row = new_prefix(client_addr);
        push_char(&mut row, '│');
        row.append(parts.data.as_str());
        push_char(&mut row, '│');
        lines.push(row);
        proof {
            if old(self).header_printed {
                assert(lines.deep_view() =~~= seq![
                    spec_data_line(old(self)@, values.deep_view(), client_addr@),
                ]);
            } else {
                assert(lines.deep_view() =~~= spec_header_lines(old(self)@, client_addr@) + seq![
                    spec_data_line(old(self)@, values.deep_view(), client_addr@),
                ]);
            }
        }
        lines
    }

    /// Renders the bottom border, where a header was printed.
    pub fn print_footer(&self, client_addr: &str) -> (lines: Vec<String>)
        ensures
            lines.deep_view() == if self.header_printed {
                seq![spec_footer_line(self@, client_addr@)]
            } else {
                Seq::<Seq<char>>::empty()
            },
    {
        let mut lines: Vec<String> = Vec::new();
        if !self.header_printed {
            assert(lines.deep_view() =~~= Seq::<Seq<char>>::empty());
            return lines;
        }
        let separator = render_separator(&self.column_widths, "┴");
        let mut bot = new_prefix(client_addr);
        push_char(&mut bot, '└');
        bot.append(separator.as_str());
        push_char(&mut bot, '┘');
        lines.push(bot);
        proof {
            assert(lines.deep_view() =~~= seq![spec_footer_line(self@, client_addr@)]);
        }
        lines
    }
}

/// The `"[addr] "` prefix every table line carries.
pub open spec fn spec_line_prefix(addr: Seq<char>) -> Seq<char> {
    "["@ + addr + "] "@
}

fn new_prefix(client_addr: &str) -> (r: String)
    ensures
        r@ == spec_line_prefix(client_addr@),
{
    let mut s = String::new();
    s.append("[");
    s.append(client_addr);
    s.append("] ");
    proof {
        assert(s@ =~= spec_line_prefix(client_addr@));
    }
    s
}

/// The three header lines: top border, field names, and the rule below.
pub open spec fn spec_header_lines(f: FmtView, addr: Seq<char>) -> Seq<Seq<char>> {
    let sep = spec_separator(f.widths, "┬"@);
    let data = spec_row_data(f.names, f.widths);
    seq![
        spec_line_prefix(addr) + seq!['┌'] + sep + seq!['┐'],
        spec_line_prefix(addr) + seq!['│'] + data + seq!['│'],
        spec_line_prefix(addr) + seq!['├'] + sep + seq!['┤'],
    ]
}

/// One rendered data line.
pub open spec fn spec_data_line(f: FmtView, values: Seq<Seq<char>>, addr: Seq<char>) -> Seq<
    char,
> {
    spec_line_prefix(addr) + seq!['│'] + spec_row_data(values, f.widths) + seq!['│']
}

/// The rendered bottom border.
pub open spec fn spec_footer_line(f: FmtView, addr: Seq<char>) -> Seq<char> {
    spec_line_prefix(addr) + seq!['└'] + spec_separator(f.widths, "┴"@) + seq!['┘']
}

fn render_separator(widths: &Vec<usize>, joiner: &str) -> (r: String)
    ensures
        r@ == spec_separator(widths@, joiner@),
{
    let n = widths.len();
    let mut cells: Vec<String> = Vec::new();
    let mut i: usize = 0;
    while i < n
        invariant
            n == widths@.len(),
            i <= n,
            cells.deep_view() =~~= Seq::new(i as nat, |k: int| spec_repeat('─', widths@[k] as nat)),
        decreases n - i,
    {
        let mut run = String::new();
        push_repeat(&mut run, '─', widths[i]);
        proof {
            lemma_deep_view_is_seq_deep(&cells);
        }
        let ghost pv = cells@;
        cells.push(run);
        proof {
            lemma_seq_deep_push(pv, run);
            lemma_deep_view_is_seq_deep(&cells);
            assert(cells.deep_view() =~~= Seq::new(
                (i + 1) as nat,
                |k: int| spec_repeat('─', widths@[k] as nat),
            ));
        }
        i = i + 1;
    }
    join_cells(cells, joiner)
}

/// Per-connection table state: whether table mode is on, and the formatter
/// of the result set now in progress, if one is.
pub struct TableState {
    pub table_mode: bool,
    pub current_formatter: Option<TableFormatter>,
}

impl View for TableState {
    type V = TableView;

    open spec fn view(&self) -> TableView {
        TableView {
            mode: self.table_mode,
            formatter: match self.current_formatter {
                Some(f) => Some(f@),
                None => None,
            },
        }
    }
}

/// How a RowDescription changes the table state: in table mode, a fresh
/// fixed-width formatter for the named columns; inert otherwise.
pub open spec fn spec_table_set_rd(tv: TableView, names: Seq<Seq<char>>) -> TableView {
    if tv.mode {
        TableView {
            mode: tv.mode,
            formatter: Some(
                FmtView {
                    names,
                    widths: Seq::new(names.len(), |i: int| FIXED_COL_WIDTH),
                    header_printed: false,
                },
            ),
        }
    } else {
        tv
    }
}

/// What rendering one data row yields: the lines, preceded by the header
/// where it has not yet been rendered, and the state after; inert when
/// table mode is off or no result set is in progress.
pub open spec fn spec_table_print_row(tv: TableView, values: Seq<Seq<char>>, addr: Seq<char>) -> (
    Seq<Seq<char>>,
    TableView,
) {
    if !tv.mode {
        (Seq::empty(), tv)
    } else {
        match tv.formatter {
            None => (Seq::empty(), tv),
            Some(f) => (
                if f.header_printed {
                    seq![spec_data_line(f, values, addr)]
                } else {
                    spec_header_lines(f, addr) + seq![spec_data_line(f, values, addr)]
                },
                TableView { mode: tv.mode, formatter: Some(FmtView { header_printed: true, ..f }) },
            ),
        }
    }
}

/// What ending the result set yields: the footer where a header was
/// rendered, and the formatter dropped; inert when table mode is off.
pub open spec fn spec_table_finish(tv: TableView, addr: Seq<char>) -> (Seq<Seq<char>>, TableView) {
    if !tv.mode {
        (Seq::empty(), tv)
    } else {
        (
            match tv.formatter {
                Some(f) => if f.header_printed {
                    seq![spec_footer_line(f, addr)]
                } else {
                    Seq::<Seq<char>>::empty()
                },
                None => Seq::<Seq<char>>::empty(),
            },
            TableView { mode: tv.mode, formatter: None },
        )
    }
}

impl TableState {
    /// The formatter, where present, has its fixed widths.
    pub open spec fn wf(self) -> bool {
        self.current_formatter matches Some(f) ==> f.wf()
    }

    /// Creates the state with no result set in progress.
    pub fn new(table_mode: bool) -> (r: TableState)
        ensures
            r.wf(),
            r.table_mode == table_mode,
            r.current_formatter is None,
    {
        TableState { table_mode, current_formatter: None }
    }

    /// Whether table mode is on.
    pub fn is_table_mode(&self) -> (r: bool)
        ensures
            r == self.table_mode,
    {
        self.table_mode
    }

    /// Starts a fresh formatter for the given fields; a previous result
    /// set's formatter is discarded without a footer.  Inert when table
    /// mode is off.
    pub fn set_row_description(&mut self, fields: Vec<FieldInfo>)
        requires
            old(self).wf(),
        ensures
            final(self).wf(),
            final(self).table_mode == old(self).table_mode,
            old(self).table_mode ==> {
                &&& final(self).current_formatter matches Some(f)
                &&& f.fields == fields
                &&& !f.header_printed
                &&& f.wf()
            },
            !old(self).table_mode ==> *final(self) == *old(self),
            final(self)@ == spec_table_set_rd(old(self)@, spec_fi_names(fields@)),
    {
        if self.table_mode {
            self.current_formatter = Some(TableFormatter::new(fields));
            proof {
                let f = self.current_formatter.unwrap()@;
                let g = spec_table_set_rd(old(self)@, spec_fi_names(fields@)).formatter.unwrap();
                assert(f.widths =~= g.widths);
                assert(self@ == spec_table_set_rd(old(self)@, spec_fi_names(fields@)));
            }
        }
    }

    /// Renders one data row through the current formatter.  Inert when
    /// table mode is off or no result set is in progress.
    pub fn print_data_row(&mut self, values: &Vec<String>, client_addr: &str) -> (lines: Vec<
        String,
    >)
        requires
            old(self).wf(),
        ensures
            final(self).wf(),
            final(self).table_mode == old(self).table_mode,
            !old(self).table_mode ==> *final(self) == *old(self) && lines.deep_view() == Seq::<
                Seq<char>,
            >::empty(),
            old(self).table_mode && old(self).current_formatter is None ==> *final(self) == *old(
                self,
            ) && lines.deep_view() == Seq::<Seq<char>>::empty(),
            old(self).table_mode ==> match old(self).current_formatter {
                None => *final(self) == *old(self) && lines.deep_view() == Seq::<Seq<char>>::empty(),
                Some(f) => final(self).current_formatter matches Some(g) && g.fields == f.fields
                    && g.column_widths == f.column_widths && g.header_printed
                    && lines.deep_view() == if f.header_printed {
                    seq![spec_data_line(f@, values.deep_view(), client_addr@)]
                } else {
                    spec_header_lines(f@, client_addr@) + seq![
                        spec_data_line(f@, values.deep_view(), client_addr@),
                    ]
                },
            },
            lines.deep_view() == spec_table_print_row(
                old(self)@,
                values.deep_view(),
                client_addr@,
            ).0,
            final(self)@ == spec_table_print_row(
                old(self)@,
                values.deep_view(),
                client_addr@,
            ).1,
    {
        let mut lines: Vec<String> = Vec::new();
        if !self.table_mode {
            assert(lines.deep_view() =~~= Seq::<Seq<char>>::empty());
            return lines;
        }
        match &mut self.current_formatter {
            Some(f) => {
                let out = f.print_row(values, client_addr);
                proof {
                    let g = spec_table_print_row(
                        old(self)@,
                        values.deep_view(),
                        client_addr@,
                    ).1.formatter.unwrap();
                    assert(f@.names =~~= g.names);
                    assert(f@.widths =~= g.widths);
                    assert(self@ == spec_table_print_row(
                        old(self)@,
                        values.deep_view(),
                        client_addr@,
                    ).1);
                }
                out
            },
            None => {
                assert(lines.deep_view() =~~= Seq::<Seq<char>>::empty());
                lines
            },
        }
    }

    /// Ends the result set: renders the footer where a header was printed
    /// and drops the formatter.  Inert when table mode is off.
    pub fn finish_result_set(&mut self, client_addr: &str) -> (lines: Vec<String>)
        requires
            old(self).wf(),
        ensures
            final(self).wf(),
            final(self).table_mode == old(self).table_mode,
            !old(self).table_mode ==> *final(self) == *old(self) && lines.deep_view() == Seq::<
                Seq<char>,
            >::empty(),
            old(self).table_mode ==> {
                &&& final(self).current_formatter is None
                &&& lines.deep_view() == match old(self).current_formatter {
                    Some(f) => if f.header_printed {
                        seq![spec_footer_line(f@, client_addr@)]
                    } else {
                        Seq::<Seq<char>>::empty()
                    },
                    None => Seq::<Seq<char>>::empty(),
                }
            },
            lines.deep_view() == spec_table_finish(old(self)@, client_addr@).0,
            final(self)@ == spec_table_finish(old(self)@, client_addr@).1,
    {
        let mut lines: Vec<String> = Vec::new();
        if !self.table_mode {
            assert(lines.deep_view() =~~= Seq::<Seq<char>>::empty());
            return lines;
        }
        match &self.current_formatter {
            Some(f) => {
                let out = f.print_footer(client_addr);
                self.current_formatter = None;
                out
            },
            None => {
                self.current_formatter = None;
                assert(lines.deep_view() =~~= Seq::<Seq<char>>::empty());
                lines
            },
        }
    }
}

} // verus!
