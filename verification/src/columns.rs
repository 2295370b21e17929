//! Columnating lists: flowing short lines into an 80-column grid, and lining
//! a table's fields up under shared column widths.
use vstd::prelude::*;
use vstd::string::StrSliceExecFns;
use vstd::string::StringExecFns;

use crate::joinfields::{spec_split_blanks, spec_split_keep};
use crate::strutil::{chars_of, spec_repeat_char};

verus! {

/// Text padded on the right with blanks up to `width`.
pub open spec fn spec_pad_right(s: Seq<char>, width: int) -> Seq<char> {
    if s.len() >= width {
        s
    } else {
        s + spec_repeat_char(' ', (width - s.len()) as nat)
    }
}

fn pad_right(s: &str, width: usize) -> (r: String)
    ensures
        r@ == spec_pad_right(s@, width as int),
{
    let n = s.unicode_len();
    let mut out = s.to_owned();
    let mut i: usize = n;
    proof {
        assert(out@ =~= s@ + spec_repeat_char(' ', 0nat));
    }
    while i < width
        invariant
            n == s@.len(),
            n <= i,
            i <= width || i == n,
            out@ == s@ + spec_repeat_char(' ', (i - n) as nat),
        decreases width - i,
    {
        out.push(' ');
        i += 1;
        proof {
            assert(out@ =~= s@ + spec_repeat_char(' ', (i - n) as nat));
        }
    }
    proof {
        assert(s@ + spec_repeat_char(' ', 0nat) =~= s@);
    }
    out
}

pub open spec fn spec_max_line_len(lines: Seq<Seq<char>>) -> int
    decreases lines.len(),
{
    if lines.len() == 0 {
        0
    } else {
        let rest = spec_max_line_len(lines.drop_first());
        if lines[0].len() > rest {
            lines[0].len() as int
        } else {
            rest
        }
    }
}

/// One grid row: up to `num_cols` consecutive lines, all but the row's last
/// padded to the column width.
pub open spec fn spec_grid_row(
    lines: Seq<Seq<char>>,
    start: int,
    c: int,
    num_cols: int,
    col_width: int,
) -> Seq<char>
    decreases num_cols - c,
{
    if c >= num_cols || start + c >= lines.len() {
        Seq::empty()
    } else {
        let cell = lines[start + c];
        let last = c == num_cols - 1 || start + c + 1 >= lines.len();
        (if last {
            cell
        } else {
            spec_pad_right(cell, col_width)
        }) + spec_grid_row(lines, start, c + 1, num_cols, col_width)
    }
}

pub open spec fn spec_grid_rows(
    lines: Seq<Seq<char>>,
    i: int,
    num_cols: int,
    col_width: int,
) -> Seq<Seq<char>>
    decreases lines.len() + num_cols - i,
{
    if i >= lines.len() || num_cols < 1 {
        Seq::empty()
    } else {
        seq![spec_grid_row(lines, i, 0, num_cols, col_width)] + spec_grid_rows(
            lines,
            i + num_cols,
            num_cols,
            col_width,
        )
    }
}

/// The grid that the lines flow into: the longest line plus two blanks gives
/// the column width, as many columns as fit in eighty positions (at least
/// one), and only empty input stays as it is.
pub open spec fn spec_format_columns(lines: Seq<Seq<char>>) -> Seq<Seq<char>> {
    let max_len = spec_max_line_len(lines);
    if max_len == 0 {
        lines
    } else {
        let col_width = max_len + 2;
        let num_cols = if 80int / col_width >= 1 {
            80int / col_width
        } else {
            1int
        };
        spec_grid_rows(lines, 0, num_cols, col_width)
    }
}

/// Flows the lines into an eighty-column grid.
pub fn format_columns(lines: &[String]) -> (r: Vec<String>)
    requires
        lines@.len() + 80 <= usize::MAX,
        spec_max_line_len(lines.deep_view()) + 2 <= usize::MAX,
    ensures
        r.deep_view() == spec_format_columns(lines.deep_view()),
{
    let ghost lv = lines.deep_view();
    let mut max_len: usize = 0;
    let mut k: usize = lines.len();
    proof {
        assert(lv.subrange(lines@.len() as int, lines@.len() as int) =~= Seq::<Seq<char>>::empty());
    }
    while k > 0
        invariant
            0 <= k <= lines@.len(),
            lv == lines.deep_view(),
            max_len as int == spec_max_line_len(lv.subrange(k as int, lv.len() as int)),
        decreases k,
    {
        proof {
            assert(lv.subrange(k - 1, lv.len() as int).drop_first() =~= lv.subrange(
                k as int,
                lv.len() as int,
            ));
            assert(lv.subrange(k - 1, lv.len() as int)[0] == lv[k - 1]);
            assert(lv[k - 1] == lines@[k - 1]@);
        }
        let len = lines[k - 1].as_str().unicode_len();
        if len > max_len {
            max_len = len;
        }
        k -= 1;
    }
    proof {
        assert(lv.subrange(0, lv.len() as int) =~= lv);
    }
    if max_len == 0 {
        let mut out: Vec<String> = Vec::new();
        let mut j: usize = 0;
        proof {
            assert(out.deep_view() =~= lv.subrange(0, 0));
        }
        while j < lines.len()
            invariant
                0 <= j <= lines@.len(),
                lv == lines.deep_view(),
                out.deep_view() == lv.subrange(0, j as int),
            decreases lines@.len() - j,
        {
            let ghost prev = out.deep_view();
            out.push(lines[j].clone());
            j += 1;
            proof {
                assert(out.deep_view() =~= prev.push(lines@[j - 1]@));
                assert(lv[j - 1] == lines@[j - 1]@);
                assert(out.deep_view() =~= lv.subrange(0, j as int));
            }
        }
        proof {
            assert(out.deep_view() =~= lv);
        }
        return out;
    }
    let col_width: usize = max_len + 2;
    let num_cols: usize = if 80 / col_width >= 1 {
        80 / col_width
    } else {
        1
    };
    let mut out: Vec<String> = Vec::new();
    let mut i: usize = 0;
    proof {
        assert(out.deep_view() =~= Seq::<Seq<char>>::empty());
    }
    while i < lines.len()
        invariant
            0 <= i <= lines@.len() + 80,
            lv == lines.deep_view(),
            lines@.len() + 80 <= usize::MAX,
            1 <= num_cols <= 80,
            col_width == max_len + 2,
            out.deep_view() + spec_grid_rows(lv, i as int, num_cols as int, col_width as int)
                == spec_grid_rows(lv, 0, num_cols as int, col_width as int),
        decreases lines@.len() + 80 - i,
    {
        let mut row = String::new();
        let mut c: usize = 0;
        while c < num_cols && i + c < lines.len()
            invariant
                0 <= c <= num_cols,
                num_cols <= 80,
                col_width == max_len + 2,
                0 <= i < lines@.len(),
                lv == lines.deep_view(),
                lines@.len() + 80 <= usize::MAX,
                row@ + spec_grid_row(lv, i as int, c as int, num_cols as int, col_width as int)
                    == spec_grid_row(lv, i as int, 0, num_cols as int, col_width as int),
            decreases num_cols - c,
        {
            proof {
                assert(lv[i + c] == lines@[i + c]@);
            }
            let idx = i + c;
            if c == num_cols - 1 || idx + 1 >= lines.len() {
                row.append(lines[idx].as_str());
            } else {
                row.append(pad_right(lines[idx].as_str(), col_width).as_str());
            }
            c += 1;
            proof {
                assert(row@ + spec_grid_row(
                    lv,
                    i as int,
                    c as int,
                    num_cols as int,
                    col_width as int,
                ) =~= spec_grid_row(lv, i as int, 0, num_cols as int, col_width as int));
            }
        }
        proof {
            assert(spec_grid_row(lv, i as int, c as int, num_cols as int, col_width as int)
                == Seq::<char>::empty());
            assert(row@ + Seq::<char>::empty() =~= row@);
        }
        let ghost prev = out.deep_view();
        out.push(row);
        proof {
            assert(out.deep_view() =~= prev.push(
                spec_grid_row(lv, i as int, 0, num_cols as int, col_width as int),
            ));
            assert(spec_grid_rows(lv, i as int, num_cols as int, col_width as int) == seq![
                spec_grid_row(lv, i as int, 0, num_cols as int, col_width as int),
            ] + spec_grid_rows(lv, i + num_cols, num_cols as int, col_width as int));
            assert(out.deep_view() + spec_grid_rows(
                lv,
                i + num_cols,
                num_cols as int,
                col_width as int,
            ) =~= spec_grid_rows(lv, 0, num_cols as int, col_width as int));
        }
        i += num_cols;
    }
    proof {
        assert(spec_grid_rows(lv, i as int, num_cols as int, col_width as int) == Seq::<
            Seq<char>,
        >::empty());
        assert(out.deep_view() + Seq::<Seq<char>>::empty() =~= out.deep_view());
    }
    out
}

/// The fields of one table line: whitespace-separated when no separator is
/// given, split at every separator character otherwise.
pub open spec fn spec_table_fields(line: Seq<char>, sep: Seq<char>) -> Seq<Seq<char>> {
    if sep.len() == 0 {
        spec_split_blanks(line, Seq::empty(), Seq::empty())
    } else {
        spec_split_keep(line, sep[0], Seq::empty(), Seq::empty())
    }
}

pub open spec fn spec_table_rows(lines: Seq<Seq<char>>, sep: Seq<char>) -> Seq<Seq<Seq<char>>> {
    lines.map_values(
        |line: Seq<char>|
            if line.len() == 0 {
                Seq::<Seq<char>>::empty()
            } else {
                spec_table_fields(line, sep)
            },
    )
}

/// The width of table column `i`: the longest field standing in it.
pub open spec fn spec_table_col_width(rows: Seq<Seq<Seq<char>>>, i: int) -> int
    decreases rows.len(),
{
    if rows.len() == 0 {
        0
    } else {
        let rest = spec_table_col_width(rows.drop_first(), i);
        let here: int = if 0 <= i < rows[0].len() {
            rows[0][i].len() as int
        } else {
            0
        };
        if here > rest {
            here
        } else {
            rest
        }
    }
}

/// One rendered table row: every field but the row's last padded to its
/// column's width, joined by the output separator.
pub open spec fn spec_table_row(
    fields: Seq<Seq<char>>,
    rows: Seq<Seq<Seq<char>>>,
    i: int,
    out_sep: Seq<char>,
) -> Seq<char>
    decreases fields.len() - i,
{
    if i < 0 || i >= fields.len() {
        Seq::empty()
    } else {
        let cell = if i == fields.len() - 1 {
            fields[i]
        } else {
            spec_pad_right(fields[i], spec_table_col_width(rows, i))
        };
        if i == fields.len() - 1 {
            cell
        } else {
            cell + out_sep + spec_table_row(fields, rows, i + 1, out_sep)
        }
    }
}

pub open spec fn spec_format_table(
    lines: Seq<Seq<char>>,
    sep: Seq<char>,
    out_sep: Seq<char>,
) -> Seq<Seq<char>> {
    let rows = spec_table_rows(lines, sep);
    rows.map_values(|fields: Seq<Seq<char>>| spec_table_row(fields, rows, 0, out_sep))
}

/// Splits each line into fields and lines the fields up: each column is as
/// wide as its widest field, the last field of each row is not padded, and an
/// empty line gives an empty row. A multi-character separator splits at its
/// first character.
pub fn format_table(lines: &[String], separator: &str, output_sep: &str) -> (r: Vec<String>)
    ensures
        r.deep_view() == spec_format_table(lines.deep_view(), separator@, output_sep@),
{
    let ghost lv = lines.deep_view();
    let sep_chars = chars_of(separator);
    let field_sep: Option<char> = if sep_chars.len() == 0 {
        None
    } else {
        Some(sep_chars[0])
    };
    // split every line into its fields
    let mut rows: Vec<Vec<String>> = Vec::new();
    let ghost spec_rows = spec_table_rows(lv, separator@);
    let mut li: usize = 0;
    while li < lines.len()
        invariant
            0 <= li <= lines@.len(),
            lv == lines.deep_view(),
            spec_rows == spec_table_rows(lv, separator@),
            sep_chars@ == separator@,
            field_sep == (if separator@.len() == 0 {
                None::<char>
            } else {
                Some(separator@[0])
            }),
            rows@.len() == li,
            forall|j: int| 0 <= j < li ==> (#[trigger] rows@[j]).deep_view() == spec_rows[j],
        decreases lines@.len() - li,
    {
        let line = &lines[li];
        let fields: Vec<String> = if line.as_str().unicode_len() == 0 {
            Vec::new()
        } else {
            crate::joinfields::split_line(line.as_str(), &field_sep)
        };
        proof {
            assert(lv[li as int] == lines@[li as int]@);
            assert(fields.deep_view() == spec_rows[li as int]);
        }
        rows.push(fields);
        li += 1;
    }
    // render each row against the column widths
    let mut out: Vec<String> = Vec::new();
    let mut ri: usize = 0;
    while ri < rows.len()
        invariant
            0 <= ri <= rows@.len(),
            rows@.len() == lv.len(),
            spec_rows == spec_table_rows(lv, separator@),
            forall|j: int| 0 <= j < rows@.len() ==> (#[trigger] rows@[j]).deep_view() == spec_rows[j],
            lv == lines.deep_view(),
            out.deep_view().len() == ri,
            forall|j: int|
                0 <= j < ri ==> #[trigger] out.deep_view()[j] == spec_table_row(
                    spec_rows[j],
                    spec_rows,
                    0,
                    output_sep@,
                ),
        decreases rows@.len() - ri,
    {
        let fields = &rows[ri];
        let mut row = String::new();
        let mut fi: usize = 0;
        while fi < fields.len()
            invariant
                0 <= fi <= fields@.len(),
                fields == &rows@[ri as int],
                0 <= ri < rows@.len(),
                rows@.len() == lv.len(),
                spec_rows == spec_table_rows(lv, separator@),
                forall|j: int|
                    0 <= j < rows@.len() ==> (#[trigger] rows@[j]).deep_view() == spec_rows[j],
                lv == lines.deep_view(),
                row@ + spec_table_row(spec_rows[ri as int], spec_rows, fi as int, output_sep@)
                    == spec_table_row(spec_rows[ri as int], spec_rows, 0, output_sep@),
            decreases fields@.len() - fi,
        {
            proof {
                assert(fields.deep_view()[fi as int] == fields@[fi as int]@);
            }
            if fi == fields.len() - 1 {
                row.append(fields[fi].as_str());
            } else {
                let w = table_col_width(&rows, fi, Ghost(spec_rows));
                row.append(pad_right(fields[fi].as_str(), w).as_str());
                row.append(output_sep);
            }
            fi += 1;
            proof {
                assert(row@ + spec_table_row(
                    spec_rows[ri as int],
                    spec_rows,
                    fi as int,
                    output_sep@,
                ) =~= spec_table_row(spec_rows[ri as int], spec_rows, 0, output_sep@));
            }
        }
        proof {
            assert(spec_table_row(spec_rows[ri as int], spec_rows, fi as int, output_sep@)
                == Seq::<char>::empty());
            assert(row@ + Seq::<char>::empty() =~= row@);
        }
        let ghost prev = out.deep_view();
        out.push(row);
        ri += 1;
        proof {
            assert(out.deep_view() =~= prev.push(
                spec_table_row(spec_rows[ri - 1], spec_rows, 0, output_sep@),
            ));
        }
    }
    proof {
        assert forall|j: int| 0 <= j < out.deep_view().len() implies out.deep_view()[j]
            == spec_format_table(lv, separator@, output_sep@)[j] by {}
        assert(out.deep_view() =~= spec_format_table(lv, separator@, output_sep@));
    }
    out
}

/// The widest field standing in column `i` across the rows.
fn table_col_width(rows: &Vec<Vec<String>>, i: usize, target: Ghost<Seq<Seq<Seq<char>>>>) -> (r:
    usize)
    requires
        forall|j: int| 0 <= j < rows@.len() ==> (#[trigger] rows@[j]).deep_view() == target@[j],
        rows@.len() == target@.len(),
    ensures
        r as int == spec_table_col_width(target@, i as int),
{
    let mut w: usize = 0;
    let mut k: usize = rows.len();
    proof {
        assert(target@.subrange(rows@.len() as int, rows@.len() as int) =~= Seq::<
            Seq<Seq<char>>,
        >::empty());
    }
    while k > 0
        invariant
            0 <= k <= rows@.len(),
            rows@.len() == target@.len(),
            forall|j: int| 0 <= j < rows@.len() ==> (#[trigger] rows@[j]).deep_view() == target@[j],
            w as int == spec_table_col_width(target@.subrange(k as int, target@.len() as int), i as int),
        decreases k,
    {
        proof {
            assert(target@.subrange(k - 1, target@.len() as int).drop_first() =~= target@.subrange(
                k as int,
                target@.len() as int,
            ));
            assert(target@.subrange(k - 1, target@.len() as int)[0] == target@[k - 1]);
        }
        let fields = &rows[k - 1];
        if i < fields.len() {
            proof {
                assert(fields.deep_view()[i as int] == fields@[i as int]@);
            }
            let len = fields[i].as_str().unicode_len();
            if len > w {
                w = len;
            }
        }
        k -= 1;
    }
    proof {
        assert(target@.subrange(0, target@.len() as int) =~= target@);
    }
    w
}

} // verus!
