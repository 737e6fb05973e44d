//! Buffering and rendering of output rows.
//!
//! Two styles. The simple style joins each row's fields with single spaces.
//! The table style pads every field (but the last of a row) on the right to
//! the widest field observed in its column, so columns line up.

use vstd::prelude::*;

verus! {

/// How output rows are rendered.
#[derive(Clone, Copy, PartialEq, Eq, Structural)]
pub enum PrinterStyle {
    /// Fields joined by single spaces.
    Simple,
    /// Fields padded to shared column widths.
    Table,
}

impl PrinterStyle {
    /// The style a command line asks for: plain joining when pretty tables
    /// are switched off.
    pub fn from_cli(no_pretty: bool) -> (r: Self)
        ensures
            r == if no_pretty {
                PrinterStyle::Simple
            } else {
                PrinterStyle::Table
            },
    {
        if no_pretty {
            PrinterStyle::Simple
        } else {
            PrinterStyle::Table
        }
    }
}

/// A run of `n` spaces.
pub open spec fn spaces(n: nat) -> Seq<char> {
    Seq::new(n, |i: int| ' ')
}

/// A field padded on the right to width `w`; a field already that wide stays
/// as it is.
pub open spec fn pad_field(s: Seq<char>, w: int) -> Seq<char> {
    if s.len() >= w {
        s
    } else {
        s + spaces((w - s.len()) as nat)
    }
}

/// The width of column `c`: the length of the widest field observed there
/// over all buffered rows.
pub open spec fn col_width(rows: Seq<Seq<Seq<char>>>, c: int) -> int
    decreases rows.len(),
{
    if rows.len() == 0 {
        0
    } else {
        let rest = col_width(rows.drop_last(), c);
        let last = if 0 <= c < rows.last().len() {
            rows.last()[c].len() as int
        } else {
            0
        };
        if last > rest {
            last
        } else {
            rest
        }
    }
}

/// A row's fields from `c` on, joined by single spaces.
pub open spec fn join_row(r: Seq<Seq<char>>, c: int) -> Seq<char>
    decreases r.len() - c,
{
    if c < 0 || c >= r.len() {
        Seq::empty()
    } else if c == r.len() - 1 {
        r[c]
    } else {
        r[c] + seq![' '] + join_row(r, c + 1)
    }
}

/// A row's fields from `c` on, each but the last padded to its column width
/// over `rows` and followed by a single space.
pub open spec fn table_row(r: Seq<Seq<char>>, rows: Seq<Seq<Seq<char>>>, c: int) -> Seq<char>
    decreases r.len() - c,
{
    if c < 0 || c >= r.len() {
        Seq::empty()
    } else if c == r.len() - 1 {
        r[c]
    } else {
        pad_field(r[c], col_width(rows, c)) + seq![' '] + table_row(r, rows, c + 1)
    }
}

/// The rendered output lines for a buffer of rows.
pub open spec fn spec_render(style: PrinterStyle, rows: Seq<Seq<Seq<char>>>) -> Seq<Seq<char>> {
    match style {
        PrinterStyle::Simple => Seq::new(rows.len(), |k: int| join_row(rows[k], 0)),
        PrinterStyle::Table => Seq::new(rows.len(), |k: int| table_row(rows[k], rows, 0)),
    }
}

/// Buffers output rows — the header first, when one is to be printed — and
/// renders them once the input is exhausted.
pub struct Printer {
    pub data: Vec<Vec<String>>,
    pub column_count: Option<usize>,
    pub style: PrinterStyle,
    pub has_header: bool,
    pub print_header: bool,
}

impl Printer {
    /// Every buffered row has the shared column count.
    pub open spec fn wf(&self) -> bool {
        &&& match self.column_count {
            None => self.data@.len() == 0,
            Some(cc) => forall|k: int|
                0 <= k < self.data@.len() ==> (#[trigger] self.data.deep_view()[k]).len() == cc,
        }
        &&& self.data@.len() <= usize::MAX
    }

    /// A printer with nothing buffered yet.
    pub fn new(style: PrinterStyle, has_header: bool, print_header: bool) -> (r: Self)
        ensures
            r.wf(),
            r.data@.len() == 0,
            r.column_count is None,
            r.style == style,
            r.has_header == has_header,
            r.print_header == print_header,
    {
        Printer { data: Vec::new(), column_count: None, style, has_header, print_header }
    }

    /// Push the header row, which must come first: it fixes the column count,
    /// and it is buffered only when it is to be printed.
    pub fn push_header(&mut self, row: Vec<String>)
        requires
            old(self).wf(),
            old(self).column_count is None,
            old(self).has_header,
        ensures
            final(self).wf(),
            final(self).column_count == Some(row@.len() as usize),
            final(self).data.deep_view() == if old(self).print_header {
                old(self).data.deep_view().push(row.deep_view())
            } else {
                old(self).data.deep_view()
            },
            final(self).style == old(self).style,
            final(self).has_header == old(self).has_header,
            final(self).print_header == old(self).print_header,
    {
        self.push_row_header(row, true)
    }

    /// Push one data row; its width must agree with the column count, which
    /// the first row fixes.
    pub fn push_row(&mut self, row: Vec<String>)
        requires
            old(self).wf(),
            old(self).data@.len() < usize::MAX,
            match old(self).column_count {
                None => !old(self).has_header,
                Some(cc) => row@.len() == cc,
            },
        ensures
            final(self).wf(),
            final(self).column_count == Some(row@.len() as usize),
            final(self).data.deep_view() == old(self).data.deep_view().push(row.deep_view()),
            final(self).style == old(self).style,
            final(self).has_header == old(self).has_header,
            final(self).print_header == old(self).print_header,
    {
        self.push_row_header(row, false)
    }

    fn push_row_header(&mut self, row: Vec<String>, is_header: bool)
        requires
            old(self).wf(),
            old(self).data@.len() < usize::MAX,
            match old(self).column_count {
                None => is_header == old(self).has_header,
                Some(cc) => row@.len() == cc && !is_header,
            },
        ensures
            final(self).wf(),
            final(self).column_count == Some(row@.len() as usize),
            final(self).data.deep_view() == if is_header && !old(self).print_header {
                old(self).data.deep_view()
            } else {
                old(self).data.deep_view().push(row.deep_view())
            },
            final(self).style == old(self).style,
            final(self).has_header == old(self).has_header,
            final(self).print_header == old(self).print_header,
    {
        let ghost prev = self.data.deep_view();
        let width = row.len();
        self.column_count = Some(width);
        if is_header && !self.print_header {
            proof {
                assert(self.data.deep_view() =~= prev);
            }
            return ;
        }
        self.data.push(row);
        proof {
            assert(self.data.deep_view() =~= prev.push(
                self.data@[self.data@.len() - 1].deep_view(),
            ));
        }
    }

    /// Render everything buffered, one output line per row, in push order.
    pub fn finish(&self) -> (lines: Vec<String>)
        requires
            self.wf(),
        ensures
            lines.deep_view() == spec_render(self.style, self.data.deep_view()),
    {
        let ghost rowsd = self.data.deep_view();
        match self.style {
            PrinterStyle::Simple => {
                let mut lines: Vec<String> = Vec::new();
                let mut k: usize = 0;
                while k < self.data.len()
                    invariant
                        k <= self.data@.len(),
                        rowsd == self.data.deep_view(),
                        rowsd.len() == self.data@.len(),
                        lines.deep_view().len() == k,
                        forall|m: int|
                            0 <= m < k ==> lines.deep_view()[m] == join_row(rowsd[m], 0),
                    decreases self.data@.len() - k,
                {
                    let ghost prev = lines.deep_view();
                    let line = Self::join_fields(&self.data[k]);
                    lines.push(line);
                    proof {
                        assert(lines.deep_view() =~= prev.push(join_row(rowsd[k as int], 0)));
                    }
                    k = k + 1;
                }
                proof {
                    assert(lines.deep_view() =~= spec_render(self.style, rowsd));
                }
                lines
            },
            PrinterStyle::Table => {
                let widths = self.column_widths();
                let mut lines: Vec<String> = Vec::new();
                let mut k: usize = 0;
                while k < self.data.len()
                    invariant
                        k <= self.data@.len(),
                        self.wf(),
                        rowsd == self.data.deep_view(),
                        rowsd.len() == self.data@.len(),
                        widths@.len() as int == match self.column_count {
                            Some(cc) => cc as int,
                            None => 0,
                        },
                        forall|c: int|
                            0 <= c < widths@.len() ==> widths@[c] as int == col_width(rowsd, c),
                        lines.deep_view().len() == k,
                        forall|m: int|
                            0 <= m < k ==> lines.deep_view()[m] == table_row(rowsd[m], rowsd, 0),
                    decreases self.data@.len() - k,
                {
                    let ghost prev = lines.deep_view();
                    proof {
                        let ghost ki = k as int;
                        assert(self.data@[ki].deep_view() == self.data.deep_view()[ki]);
                        assert(self.data.deep_view()[ki].len() <= widths@.len());
                    }
                    let line = Self::pad_fields(&self.data[k], &widths, Ghost(rowsd));
                    lines.push(line);
                    proof {
                        assert(lines.deep_view() =~= prev.push(
                            table_row(rowsd[k as int], rowsd, 0),
                        ));
                    }
                    k = k + 1;
                }
                proof {
                    assert(lines.deep_view() =~= spec_render(self.style, rowsd));
                }
                lines
            },
        }
    }

    /// One row's fields joined by single spaces.
    fn join_fields(row: &Vec<String>) -> (line: String)
        ensures
            line@ == join_row(row.deep_view(), 0),
    {
        let ghost rd = row.deep_view();
        let mut line = String::new();
        let mut c: usize = 0;
        proof {
            reveal_strlit(" ");
            assert(rd.len() == row@.len());
        }
        while c < row.len()
            invariant
                c <= row@.len(),
                rd == row.deep_view(),
                rd.len() == row@.len(),
                join_row(rd, 0) == line@ + join_row(rd, c as int),
            decreases row@.len() - c,
        {
            line.append(row[c].as_str());
            if c + 1 != row.len() {
                line.append(" ");
                proof {
                    reveal_strlit(" ");
                    assert(" "@ =~= seq![' ']);
                    assert(line@ + join_row(rd, c as int + 1) =~= join_row(rd, 0));
                }
            } else {
                proof {
                    assert(line@ + join_row(rd, c as int + 1) =~= join_row(rd, 0));
                }
            }
            c = c + 1;
        }
        proof {
            assert(line@ =~= join_row(rd, 0));
        }
        line
    }

    /// One row's fields, each but the last padded to its column width and
    /// followed by a single space.
    fn pad_fields(
        row: &Vec<String>,
        widths: &Vec<usize>,
        rows: Ghost<Seq<Seq<Seq<char>>>>,
    ) -> (line: String)
        requires
            row.deep_view().len() <= widths@.len(),
            forall|c: int| 0 <= c < widths@.len() ==> widths@[c] as int == col_width(rows@, c),
        ensures
            line@ == table_row(row.deep_view(), rows@, 0),
    {
        let ghost rd = row.deep_view();
        let mut line = String::new();
        let mut c: usize = 0;
        proof {
            assert(rd.len() == row@.len());
        }
        while c < row.len()
            invariant
                c <= row@.len(),
                rd == row.deep_view(),
                rd.len() == row@.len(),
                rd.len() <= widths@.len(),
                forall|m: int| 0 <= m < widths@.len() ==> widths@[m] as int == col_width(rows@, m),
                table_row(rd, rows@, 0) == line@ + table_row(rd, rows@, c as int),
            decreases row@.len() - c,
        {
            line.append(row[c].as_str());
            if c + 1 != row.len() {
                let flen = row[c].as_str().unicode_len();
                let w = widths[c];
                let need: usize = if w > flen {
                    w - flen
                } else {
                    0
                };
                let mut p: usize = 0;
                let ghost base = line@;
                while p < need
                    invariant
                        p <= need,
                        line@ == base + spaces(p as nat),
                    decreases need - p,
                {
                    line.append(" ");
                    proof {
                        reveal_strlit(" ");
                        assert(" "@ =~= seq![' ']);
                        assert(base + spaces(p as nat) + " "@ =~= base + spaces(p as nat + 1));
                    }
                    p = p + 1;
                }
                proof {
                    assert(line@ =~= base.subrange(0, base.len() - rd[c as int].len() as int)
                        + pad_field(rd[c as int], col_width(rows@, c as int)));
                }
                line.append(" ");
                proof {
                    reveal_strlit(" ");
                    assert(" "@ =~= seq![' ']);
                    assert(line@ + table_row(rd, rows@, c as int + 1) =~= table_row(
                        rd,
                        rows@,
                        0,
                    ));
                }
            } else {
                proof {
                    assert(line@ + table_row(rd, rows@, c as int + 1) =~= table_row(rd, rows@, 0));
                }
            }
            c = c + 1;
        }
        proof {
            assert(line@ =~= table_row(rd, rows@, 0));
        }
        line
    }

    /// The width of every column: the widest field observed in it over all
    /// buffered rows.
    fn column_widths(&self) -> (widths: Vec<usize>)
        requires
            self.wf(),
        ensures
            widths@.len() as int == match self.column_count {
                Some(cc) => cc as int,
                None => 0,
            },
            forall|c: int|
                0 <= c < widths@.len() ==> widths@[c] as int == col_width(self.data.deep_view(), c),
    {
        let ghost rowsd = self.data.deep_view();
        let cc = match self.column_count {
            Some(cc) => cc,
            None => 0,
        };
        let mut widths: Vec<usize> = Vec::new();
        while widths.len() < cc
            invariant
                widths@.len() <= cc,
                forall|c: int| 0 <= c < widths@.len() ==> widths@[c] == 0,
            decreases cc - widths@.len(),
        {
            widths.push(0);
        }
        let mut k: usize = 0;
        proof {
            assert(rowsd.take(0) =~= Seq::<Seq<Seq<char>>>::empty());
        }
        while k < self.data.len()
            invariant
                k <= self.data@.len(),
                self.wf(),
                rowsd == self.data.deep_view(),
                rowsd.len() == self.data@.len(),
                widths@.len() == cc,
                match self.column_count {
                    Some(c) => cc == c,
                    None => cc == 0,
                },
                forall|c: int|
                    0 <= c < widths@.len() ==> widths@[c] as int == col_width(
                        rowsd.take(k as int),
                        c,
                    ),
            decreases self.data@.len() - k,
        {
            let row = &self.data[k];
            let ghost rd = rowsd[k as int];
            proof {
                assert(self.data@[k as int].deep_view() == self.data.deep_view()[k as int]);
                assert(rd.len() == row@.len());
                assert(self.data.deep_view()[k as int].len() <= widths@.len());
            }
            let mut c: usize = 0;
            while c < row.len()
                invariant
                    c <= row@.len(),
                    k < self.data@.len(),
                    rowsd == self.data.deep_view(),
                    rd == rowsd[k as int],
                    rd.len() == row@.len(),
                    rd == row.deep_view(),
                    row@.len() <= widths@.len(),
                    widths@.len() == cc,
                    forall|m: int|
                        0 <= m < widths@.len() ==> widths@[m] as int == (if m < c && rd[m].len()
                            as int > col_width(rowsd.take(k as int), m) {
                            rd[m].len() as int
                        } else {
                            col_width(rowsd.take(k as int), m)
                        }),
                decreases row@.len() - c,
            {
                let flen = row[c].as_str().unicode_len();
                if flen > widths[c] {
                    widths.set(c, flen);
                }
                c = c + 1;
            }
            proof {
                assert(rowsd.take(k as int + 1).drop_last() =~= rowsd.take(k as int));
                assert(rowsd.take(k as int + 1).last() == rd);
            }
            k = k + 1;
        }
        proof {
            assert(rowsd.take(rowsd.len() as int) =~= rowsd);
        }
        widths
    }
}

} // verus!
