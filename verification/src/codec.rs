//! A plain-text table codec: rows as lines, cells separated by commas, the
//! first line naming the columns. Splitting and joining are each other's
//! inverses as long as no cell or name holds a separator, so a table this
//! codec writes reads back as the same table.

use vstd::prelude::*;
use vstd::string::StrSliceExecFns;
use vstd::string::StringExecFns;

use crate::DataError;
use crate::table::Column;
use crate::table::ColumnModel;
use crate::table::Table;
use crate::table::Value;
use crate::table::ValueModel;
use crate::table::spec_height;
use crate::table::table_wf;

verus! {

/// The position of the first `sep` in `s`, or `s.len()` when none occurs.
pub open spec fn spec_find(s: Seq<char>, sep: char) -> nat
    decreases s.len(),
{
    if s.len() == 0 {
        0
    } else if s[0] == sep {
        0
    } else {
        (1 + spec_find(s.drop_first(), sep)) as nat
    }
}

/// `s` cut at every `sep`: the pieces between separators, in order. A text
/// with `k` separators yields `k + 1` pieces, so the empty text yields one
/// empty piece.
pub open spec fn spec_split(s: Seq<char>, sep: char) -> Seq<Seq<char>>
    decreases s.len(),
{
    let j = spec_find(s, sep);
    if j >= s.len() {
        seq![s]
    } else {
        seq![s.subrange(0, j as int)] + spec_split(s.subrange(j as int + 1, s.len() as int), sep)
    }
}

/// The pieces glued back together with `sep` between neighbours.
pub open spec fn spec_join(parts: Seq<Seq<char>>, sep: char) -> Seq<char>
    decreases parts.len(),
{
    if parts.len() == 0 {
        Seq::empty()
    } else if parts.len() == 1 {
        parts[0]
    } else {
        parts[0] + seq![sep] + spec_join(parts.drop_first(), sep)
    }
}

/// The first separator is exactly where the first run of other characters
/// ends.
proof fn lemma_find_at(s: Seq<char>, sep: char, m: int)
    requires
        0 <= m <= s.len(),
        forall|k: int| 0 <= k < m ==> s[k] != sep,
        m == s.len() || s[m] == sep,
    ensures
        spec_find(s, sep) == m,
    decreases m,
{
    if m == 0 {
    } else {
        assert(s[0] != sep);
        let d = s.drop_first();
        assert forall|k: int| 0 <= k < m - 1 implies d[k] != sep by {
            assert(d[k] == s[k + 1]);
        }
        if m < s.len() {
            assert(d[m - 1] == s[m]);
        }
        lemma_find_at(d, sep, m - 1);
    }
}

/// Appending a piece extends the join by one separator and the piece —
/// except from no pieces at all, where it is the piece alone.
proof fn lemma_join_push(parts: Seq<Seq<char>>, p: Seq<char>, sep: char)
    ensures
        parts.len() == 0 ==> spec_join(parts.push(p), sep) == p,
        parts.len() > 0 ==> spec_join(parts.push(p), sep) == spec_join(parts, sep) + seq![sep] + p,
    decreases parts.len(),
{
    if parts.len() == 0 {
        assert(parts.push(p)[0] == p);
    } else if parts.len() == 1 {
        assert(parts.push(p).drop_first() =~= parts.drop_first().push(p));
        assert(spec_join(parts.push(p), sep) == parts[0] + seq![sep] + spec_join(
            parts.drop_first().push(p),
            sep,
        ));
        lemma_join_push(parts.drop_first(), p, sep);
    } else {
        assert(parts.push(p).drop_first() =~= parts.drop_first().push(p));
        lemma_join_push(parts.drop_first(), p, sep);
        assert(spec_join(parts, sep) + seq![sep] + p == parts[0] + seq![sep] + (spec_join(
            parts.drop_first(),
            sep,
        ) + seq![sep] + p));
    }
}

/// Joining undoes splitting: gluing the pieces of `s` back together with
/// the separator restores `s` exactly.
pub proof fn lemma_join_split(s: Seq<char>, sep: char)
    ensures
        spec_join(spec_split(s, sep), sep) == s,
    decreases s.len(),
{
    let j = spec_find(s, sep);
    lemma_find_in_range(s, sep);
    if j >= s.len() {
    } else {
        let rest = s.subrange(j as int + 1, s.len() as int);
        lemma_join_split(rest, sep);
        let parts = spec_split(s, sep);
        assert(parts.drop_first() =~= spec_split(rest, sep));
        assert(spec_split(rest, sep).len() > 0) by {
            lemma_split_nonempty(rest, sep);
        }
        assert(spec_join(parts, sep) == s.subrange(0, j as int) + seq![sep] + rest);
        assert(s.subrange(0, j as int) + seq![sep] + rest =~= s) by {
            assert(s[j as int] == sep) by {
                lemma_find_hits(s, sep);
            }
        }
    }
}

/// A split always yields at least one piece.
proof fn lemma_split_nonempty(s: Seq<char>, sep: char)
    ensures
        spec_split(s, sep).len() >= 1,
{
}

/// The first-separator position never passes the end.
proof fn lemma_find_in_range(s: Seq<char>, sep: char)
    ensures
        spec_find(s, sep) <= s.len(),
    decreases s.len(),
{
    if s.len() > 0 && s[0] != sep {
        lemma_find_in_range(s.drop_first(), sep);
    }
}

/// When the first-separator position lies inside `s`, a separator stands
/// there, and none before it.
proof fn lemma_find_hits(s: Seq<char>, sep: char)
    ensures
        spec_find(s, sep) < s.len() ==> s[spec_find(s, sep) as int] == sep,
        forall|k: int| 0 <= k < spec_find(s, sep) ==> s[k] != sep,
    decreases s.len(),
{
    lemma_find_in_range(s, sep);
    if s.len() > 0 && s[0] != sep {
        lemma_find_hits(s.drop_first(), sep);
        let d = s.drop_first();
        assert forall|k: int| 0 <= k < spec_find(s, sep) implies s[k] != sep by {
            if k > 0 {
                assert(d[k - 1] == s[k]);
            }
        }
        if spec_find(s, sep) < s.len() {
            assert(d[spec_find(d, sep) as int] == s[spec_find(s, sep) as int]);
        }
    }
}

/// The text of a text cell; other cells have none.
pub open spec fn str_of(v: ValueModel) -> Seq<char> {
    match v {
        ValueModel::Str(s) => s,
        _ => Seq::empty(),
    }
}

/// Whether this codec can write the column: a clean name and only text
/// cells, none holding a comma or a line break (this codec does not quote).
pub open spec fn spec_col_encodable(c: ColumnModel) -> bool {
    &&& !c.name.contains(',')
    &&& !c.name.contains('\n')
    &&& forall|r: int|
        0 <= r < c.values.len() ==> {
            let v = #[trigger] c.values[r];
            v is Str && !str_of(v).contains(',') && !str_of(v).contains('\n')
        }
}

/// Whether this codec can write the table: every column is encodable.
pub open spec fn spec_encodable(t: Seq<ColumnModel>) -> bool {
    forall|j: int| 0 <= j < t.len() ==> spec_col_encodable(#[trigger] t[j])
}

/// Row `r` of the table as text fields, one per column.
pub open spec fn spec_row_texts(t: Seq<ColumnModel>, r: int) -> Seq<Seq<char>> {
    t.map_values(|c: ColumnModel| str_of(c.values[r]))
}

/// The lines of the written file: the header naming the columns first,
/// then one line per row.
pub open spec fn spec_csv_lines_of(t: Seq<ColumnModel>) -> Seq<Seq<char>> {
    seq![spec_join(t.map_values(|c: ColumnModel| c.name), ',')] + Seq::new(
        spec_height(t),
        |r: int| spec_join(spec_row_texts(t, r), ','),
    )
}

/// The whole file: the lines joined by line breaks, without a trailing one.
pub open spec fn spec_csv_text(t: Seq<ColumnModel>) -> Seq<char> {
    spec_join(spec_csv_lines_of(t), '\n')
}

/// Whether `c` occurs in `s`.
pub fn contains_char(s: &str, c: char) -> (r: bool)
    ensures
        r == s@.contains(c),
{
    let n = s.unicode_len();
    let mut i: usize = 0;
    while i < n
        invariant
            i <= n,
            n == s@.len(),
            forall|k: int| 0 <= k < i ==> s@[k] != c,
        decreases n - i,
    {
        if s.get_char(i) == c {
            proof {
                assert(s@[i as int] == c);
            }
            return true;
        }
        i += 1;
    }
    false
}

/// Whether this codec can write the table, cell by cell.
fn check_encodable(t: &Table) -> (b: bool)
    ensures
        b == spec_encodable(t@),
{
    let mut j: usize = 0;
    while j < t.cols.len()
        invariant
            j <= t.cols.len(),
            forall|a: int| 0 <= a < j ==> spec_col_encodable(#[trigger] t@[a]),
        decreases t.cols.len() - j,
    {
        if contains_char(t.cols[j].name.as_str(), ',') {
            return false;
        }
        if contains_char(t.cols[j].name.as_str(), '\n') {
            return false;
        }
        let mut r: usize = 0;
        while r < t.cols[j].values.len()
            invariant
                j < t.cols@.len(),
                r <= t.cols[j as int].values.len(),
                forall|a: int| 0 <= a < j ==> spec_col_encodable(#[trigger] t@[a]),
                !t@[j as int].name.contains(','),
                !t@[j as int].name.contains('\n'),
                forall|b: int|
                    0 <= b < r ==> {
                        let v = #[trigger] t@[j as int].values[b];
                        v is Str && !str_of(v).contains(',') && !str_of(v).contains('\n')
                    },
            decreases t.cols[j as int].values.len() - r,
        {
            proof {
                assert(t@[j as int].values[r as int] == t.cols@[j as int].values@[r as int]@);
            }
            match &t.cols[j].values[r] {
                Value::Str(s) => {
                    if contains_char(s.as_str(), ',') {
                        proof {
                            assert(str_of(t@[j as int].values[r as int]) == s@);
                            assert(!spec_col_encodable(t@[j as int]));
                        }
                        return false;
                    }
                    if contains_char(s.as_str(), '\n') {
                        proof {
                            assert(str_of(t@[j as int].values[r as int]) == s@);
                            assert(!spec_col_encodable(t@[j as int]));
                        }
                        return false;
                    }
                },
                _ => {
                    proof {
                        assert(!(t@[j as int].values[r as int] is Str));
                        assert(!spec_col_encodable(t@[j as int]));
                    }
                    return false;
                },
            }
            r += 1;
        }
        proof {
            assert(spec_col_encodable(t@[j as int]));
        }
        j += 1;
    }
    true
}

/// Writes the table as comma-separated text: a header line naming the
/// columns, then one line per row, no trailing line break. Fails with
/// `EncodeError` exactly when some cell is not text, or some cell or name
/// holds a comma or a line break.
pub fn encode_csv(t: &Table) -> (r: Result<String, DataError>)
    requires
        t.wf(),
    ensures
        match r {
            Ok(s) => spec_encodable(t@) && s@ == spec_csv_text(t@),
            Err(e) => e == DataError::EncodeError && !spec_encodable(t@),
        },
{
    if !check_encodable(t) {
        return Err(DataError::EncodeError);
    }
    proof {
        reveal_strlit(",");
        reveal_strlit("\n");
    }
    let ghost names = t@.map_values(|c: ColumnModel| c.name);
    let ghost lines = spec_csv_lines_of(t@);
    let mut out: String = String::new();
    let w = t.width();
    let mut j: usize = 0;
    while j < w
        invariant
            j <= w,
            w == t@.len(),
            t.wf(),
            names == t@.map_values(|c: ColumnModel| c.name),
            out@ == spec_join(names.subrange(0, j as int), ','),
        decreases w - j,
    {
        let ghost pre = out@;
        if j > 0 {
            out.append(",");
        }
        out.append(t.cols[j].name.as_str());
        proof {
            reveal_strlit(",");
            let head = names.subrange(0, j as int);
            lemma_join_push(head, names[j as int], ',');
            assert(head.push(names[j as int]) =~= names.subrange(0, j as int + 1));
            assert(names[j as int] == t.cols@[j as int].name@);
            if j == 0 {
                assert(head =~= Seq::<Seq<char>>::empty());
                assert(out@ =~= names[0]);
                assert(out@ =~= spec_join(names.subrange(0, 1), ','));
            } else {
                assert(","@ =~= seq![',']);
                assert(out@ =~= spec_join(head, ',') + seq![','] + names[j as int]);
                assert(out@ =~= spec_join(names.subrange(0, j as int + 1), ','));
            }
        }
        j += 1;
    }
    proof {
        assert(names.subrange(0, w as int) =~= names);
        assert(lines[0] == spec_join(names, ','));
        assert(lines.len() == spec_height(t@) + 1);
        assert(lines.subrange(0, 1) =~= seq![lines[0]]);
        assert(spec_join(lines.subrange(0, 1), '\n') == lines[0]);
    }
    let h = t.height();
    let mut r: usize = 0;
    while r < h
        invariant
            r <= h,
            h == spec_height(t@),
            w == t@.len(),
            t.wf(),
            spec_encodable(t@),
            lines == spec_csv_lines_of(t@),
            lines.len() == h + 1,
            out@ == spec_join(lines.subrange(0, r as int + 1), '\n'),
        decreases h - r,
    {
        let ghost line_pre = out@;
        out.append("\n");
        let ghost row = spec_row_texts(t@, r as int);
        proof {
            reveal_strlit("\n");
            assert("\n"@ =~= seq!['\n']);
            assert(out@ =~= line_pre + seq!['\n'] + spec_join(row.subrange(0, 0), ','));
        }
        let mut j2: usize = 0;
        while j2 < w
            invariant
                j2 <= w,
                r < h,
                h == spec_height(t@),
                w == t@.len(),
                t.wf(),
                spec_encodable(t@),
                row == spec_row_texts(t@, r as int),
                lines == spec_csv_lines_of(t@),
                lines.len() == h + 1,
                line_pre == spec_join(lines.subrange(0, r as int + 1), '\n'),
                out@ == line_pre + seq!['\n'] + spec_join(row.subrange(0, j2 as int), ','),
            decreases w - j2,
        {
            if j2 > 0 {
                out.append(",");
            }
            proof {
                assert(t@[j2 as int].values.len() == spec_height(t@));
                assert(spec_col_encodable(t@[j2 as int]));
                assert(t@[j2 as int].values[r as int] is Str);
            }
            proof {
                assert(t@[j2 as int].values[r as int] == t.cols@[j2 as int].values@[r as int]@);
            }
            match &t.cols[j2].values[r] {
                Value::Str(s) => {
                    out.append(s.as_str());
                    proof {
                        reveal_strlit(",");
                        assert(","@ =~= seq![',']);
                        let head = row.subrange(0, j2 as int);
                        lemma_join_push(head, row[j2 as int], ',');
                        assert(head.push(row[j2 as int]) =~= row.subrange(0, j2 as int + 1));
                        assert(row[j2 as int] == str_of(t@[j2 as int].values[r as int]));
                        assert(row[j2 as int] == s@);
                        if j2 == 0 {
                            assert(head =~= Seq::<Seq<char>>::empty());
                            assert(spec_join(row.subrange(0, 1), ',') == row[0]);
                            assert(out@ =~= line_pre + seq!['\n'] + spec_join(
                                row.subrange(0, 1),
                                ',',
                            ));
                        } else {
                            assert(spec_join(row.subrange(0, j2 as int + 1), ',') == spec_join(
                                head,
                                ',',
                            ) + seq![','] + row[j2 as int]);
                            assert(out@ =~= line_pre + seq!['\n'] + spec_join(
                                row.subrange(0, j2 as int + 1),
                                ',',
                            ));
                        }
                    }
                },
                _ => {
                    proof {
                        assert(false);
                    }
                    return Err(DataError::EncodeError);
                },
            }
            j2 += 1;
        }
        proof {
            assert(row.subrange(0, w as int) =~= row);
            assert(lines[r as int + 1] == spec_join(row, ','));
            let head = lines.subrange(0, r as int + 1);
            lemma_join_push(head, lines[r as int + 1], '\n');
            assert(head.push(lines[r as int + 1]) =~= lines.subrange(0, r as int + 2));
            assert(out@ =~= spec_join(head, '\n') + seq!['\n'] + lines[r as int + 1]);
            assert(out@ == spec_join(lines.subrange(0, r as int + 2), '\n'));
        }
        r += 1;
    }
    proof {
        assert(lines.subrange(0, h as int + 1) =~= lines);
    }
    Ok(out)
}

/// Cuts `s` at every `sep`, as `spec_split` describes.
pub fn split_str(s: &str, sep: char) -> (r: Vec<String>)
    ensures
        r@.map_values(|x: String| x@) == spec_split(s@, sep),
{
    let n = s.unicode_len();
    let mut parts: Vec<String> = Vec::new();
    let mut start: usize = 0;
    let mut i: usize = 0;
    proof {
        assert(s@.subrange(0, n as int) =~= s@);
    }
    while i < n
        invariant
            start <= i <= n,
            n == s@.len(),
            spec_split(s@, sep) == parts@.map_values(|x: String| x@) + spec_split(
                s@.subrange(start as int, n as int),
                sep,
            ),
            forall|k: int| start <= k < i ==> s@[k] != sep,
        decreases n - i,
    {
        let c = s.get_char(i);
        if c == sep {
            let field = s.substring_char(start, i).to_owned();
            let ghost pre = parts@.map_values(|x: String| x@);
            parts.push(field);
            proof {
                let suffix = s@.subrange(start as int, n as int);
                let m = i - start;
                assert forall|k: int| 0 <= k < m implies suffix[k] != sep by {
                    assert(suffix[k] == s@[start + k]);
                }
                assert(suffix[m as int] == s@[i as int]);
                lemma_find_at(suffix, sep, m as int);
                assert(spec_split(suffix, sep) == seq![suffix.subrange(0, m as int)] + spec_split(
                    suffix.subrange(m as int + 1, suffix.len() as int),
                    sep,
                ));
                assert(suffix.subrange(0, m as int) =~= s@.subrange(start as int, i as int));
                assert(suffix.subrange(m as int + 1, suffix.len() as int) =~= s@.subrange(
                    i as int + 1,
                    n as int,
                ));
                assert(field@ == s@.subrange(start as int, i as int));
                assert(parts@.map_values(|x: String| x@) =~= pre.push(field@));
                assert(pre.push(field@) =~= pre + seq![field@]);
                assert(parts@.map_values(|x: String| x@) + spec_split(
                    s@.subrange(i as int + 1, n as int),
                    sep,
                ) =~= spec_split(s@, sep));
            }
            start = i + 1;
        }
        i += 1;
    }
    let field = s.substring_char(start, n).to_owned();
    let ghost pre = parts@.map_values(|x: String| x@);
    parts.push(field);
    proof {
        let suffix = s@.subrange(start as int, n as int);
        assert forall|k: int| 0 <= k < suffix.len() implies suffix[k] != sep by {
            assert(suffix[k] == s@[start + k]);
        }
        lemma_find_at(suffix, sep, suffix.len() as int);
        assert(spec_split(suffix, sep) == seq![suffix]);
        assert(field@ == suffix);
        assert(parts@.map_values(|x: String| x@) =~= pre.push(field@));
        assert(pre.push(field@) =~= pre + seq![suffix]);
        assert(parts@.map_values(|x: String| x@) =~= spec_split(s@, sep));
    }
    parts
}

/// The lines of a file, with a single trailing empty line — the effect of a
/// trailing line break — ignored.
pub open spec fn spec_csv_lines(text: Seq<char>) -> Seq<Seq<char>> {
    let raw = spec_split(text, '\n');
    if raw.len() > 1 && raw.last().len() == 0 {
        raw.drop_last()
    } else {
        raw
    }
}

/// The header: the first line's fields, naming the columns.
pub open spec fn spec_csv_names(text: Seq<char>) -> Seq<Seq<char>> {
    spec_split(spec_csv_lines(text)[0], ',')
}

/// The data rows: each later line's fields.
pub open spec fn spec_csv_rows(text: Seq<char>) -> Seq<Seq<Seq<char>>> {
    spec_csv_lines(text).drop_first().map_values(|l: Seq<char>| spec_split(l, ','))
}

/// Whether the text is a well-formed table: every row exactly as wide as
/// the header, and no two header names alike.
pub open spec fn spec_csv_ok(text: Seq<char>) -> bool {
    &&& forall|r: int|
        0 <= r < spec_csv_rows(text).len() ==> (#[trigger] spec_csv_rows(text)[r]).len()
            == spec_csv_names(text).len()
    &&& forall|i: int, j: int|
        0 <= i < j < spec_csv_names(text).len() ==> spec_csv_names(text)[i]
            != spec_csv_names(text)[j]
}

/// Column `j` of the table the text denotes: the `j`-th header name over
/// the `j`-th field of every row, as text cells.
pub open spec fn spec_csv_col(text: Seq<char>, j: int) -> ColumnModel {
    ColumnModel {
        name: spec_csv_names(text)[j],
        values: Seq::new(
            spec_csv_rows(text).len(),
            |r: int| ValueModel::Str(spec_csv_rows(text)[r][j]),
        ),
    }
}

/// The table the text denotes: one text column per header name, holding
/// that field of every row in order.
pub open spec fn spec_csv_table(text: Seq<char>) -> Seq<ColumnModel> {
    Seq::new(spec_csv_names(text).len(), |j: int| spec_csv_col(text, j))
}

/// Reads comma-separated text as a table: the first line names the columns,
/// every later line is one row, and a single trailing line break is
/// tolerated. Fails with `DecodeError` exactly when some row is not as wide
/// as the header or two header names coincide; all cells come back as text.
#[verifier::loop_isolation(false)]
pub fn decode_csv(text: &str) -> (r: Result<Table, DataError>)
    ensures
        match r {
            Ok(t) => {
                &&& spec_csv_ok(text@)
                &&& t@ == spec_csv_table(text@)
                &&& t.wf()
            },
            Err(e) => e == DataError::DecodeError && !spec_csv_ok(text@),
        },
{
    let mut lines: Vec<String> = split_str(text, '\n');
    proof {
        lemma_split_nonempty(text@, '\n');
    }
    if lines.len() > 1 && lines[lines.len() - 1].as_str().unicode_len() == 0 {
        let ghost raw = lines@.map_values(|x: String| x@);
        lines.pop();
        proof {
            assert(lines@.map_values(|x: String| x@) =~= raw.drop_last());
            assert(raw.last().len() == 0);
            assert(lines@.map_values(|x: String| x@) == spec_csv_lines(text@));
        }
    } else {
        proof {
            assert(lines@.map_values(|x: String| x@) == spec_csv_lines(text@));
        }
    }
    let ghost lviews = lines@.map_values(|x: String| x@);
    let ghost names = spec_csv_names(text@);
    let ghost srows = spec_csv_rows(text@);
    proof {
        assert(lviews.len() >= 1);
        assert(srows.len() == lviews.len() - 1);
    }
    let header: Vec<String> = split_str(lines[0].as_str(), ',');
    proof {
        assert(lines@[0]@ == lviews[0]);
        assert(header@.map_values(|x: String| x@) == names);
    }
    let w = header.len();
    let mut i: usize = 0;
    while i < w
        invariant
            i <= w,
            w == names.len(),
            header@.map_values(|x: String| x@) == names,
            forall|a: int, b: int|
                #![trigger names[a], names[b]]
                0 <= a < b < w && a < i ==> names[a] != names[b],
        decreases w - i,
    {
        let mut j: usize = i + 1;
        while j < w
            invariant
                i < j <= w,
                w == names.len(),
                header@.map_values(|x: String| x@) == names,
                forall|a: int, b: int|
                    #![trigger names[a], names[b]]
                    0 <= a < b < w && a < i ==> names[a] != names[b],
                forall|b: int| i < b < j ==> names[i as int] != (#[trigger] names[b]),
            decreases w - j,
        {
            if header[i] == header[j] {
                proof {
                    assert(names[i as int] == names[j as int]);
                    assert(!spec_csv_ok(text@));
                }
                return Err(DataError::DecodeError);
            }
            j += 1;
        }
        i += 1;
    }
    let mut rows: Vec<Vec<String>> = Vec::new();
    let mut k: usize = 1;
    while k < lines.len()
        invariant
            1 <= k <= lines@.len(),
            lviews == lines@.map_values(|x: String| x@),
            srows.len() == lviews.len() - 1,
            srows == spec_csv_rows(text@),
            rows@.len() == k - 1,
            forall|a: int|
                0 <= a < k - 1 ==> (#[trigger] rows@[a])@.map_values(|x: String| x@) == srows[a],
            forall|a: int| 0 <= a < k - 1 ==> (#[trigger] rows@[a])@.len() == w,
            w == names.len(),
        decreases lines@.len() - k,
    {
        let f = split_str(lines[k].as_str(), ',');
        proof {
            assert(lines@[k as int]@ == lviews[k as int]);
            assert(spec_csv_lines(text@).drop_first()[k - 1] == lviews[k as int]);
            assert(f@.map_values(|x: String| x@) == srows[k - 1]);
        }
        if f.len() != w {
            proof {
                assert(srows[k - 1].len() != names.len());
                assert(!spec_csv_ok(text@));
            }
            return Err(DataError::DecodeError);
        }
        rows.push(f);
        k += 1;
    }
    proof {
        assert(rows@.len() == srows.len());
    }
    let mut cols: Vec<Column> = Vec::new();
    let mut j: usize = 0;
    while j < w
        invariant
            j <= w,
            w == names.len(),
            header@.map_values(|x: String| x@) == names,
            rows@.len() == srows.len(),
            srows == spec_csv_rows(text@),
            forall|a: int|
                0 <= a < rows@.len() ==> (#[trigger] rows@[a])@.map_values(|x: String| x@)
                    == srows[a],
            forall|a: int| 0 <= a < rows@.len() ==> (#[trigger] rows@[a])@.len() == w,
            cols@.len() == j,
            forall|a: int| 0 <= a < j ==> (#[trigger] cols@[a])@ == spec_csv_table(text@)[a],
        decreases w - j,
    {
        let mut vals: Vec<Value> = Vec::new();
        let mut rr: usize = 0;
        while rr < rows.len()
            invariant
                rr <= rows@.len(),
                j < w,
                w == names.len(),
                rows@.len() == srows.len(),
                srows == spec_csv_rows(text@),
                forall|a: int|
                    0 <= a < rows@.len() ==> (#[trigger] rows@[a])@.map_values(|x: String| x@)
                        == srows[a],
                forall|a: int| 0 <= a < rows@.len() ==> (#[trigger] rows@[a])@.len() == w,
                vals@.len() == rr,
                forall|b: int|
                    0 <= b < rr ==> (#[trigger] vals@[b])@ == ValueModel::Str(srows[b][j as int]),
            decreases rows@.len() - rr,
        {
            vals.push(Value::Str(rows[rr][j].clone()));
            proof {
                assert(rows@[rr as int]@[j as int]@ == srows[rr as int][j as int]);
            }
            rr += 1;
        }
        cols.push(Column { name: header[j].clone(), values: vals });
        proof {
            assert(spec_csv_table(text@)[j as int] == spec_csv_col(text@, j as int));
            let target = spec_csv_col(text@, j as int);
            assert(target.name == names[j as int]);
            assert(header@[j as int]@ == names[j as int]);
            let c = cols@[j as int];
            assert(c.name@ == names[j as int]);
            assert forall|b: int| 0 <= b < vals@.len() implies c@.values[b] == target.values[b] by {
                assert(c@.values[b] == vals@[b]@);
            }
            assert(c@.values =~= target.values);
            assert(c@ == target);
        }
        j += 1;
    }
    let t = Table { cols };
    proof {
        let target = spec_csv_table(text@);
        assert(t@.len() == target.len());
        assert forall|a: int| 0 <= a < t@.len() implies t@[a] == target[a] by {
            assert(t@[a] == cols@[a]@);
        }
        assert(t@ =~= target);
        assert forall|a: int| 0 <= a < t@.len() implies (#[trigger] t@[a]).values.len()
            == spec_height(t@) by {
            assert(t@[a] == spec_csv_col(text@, a));
            assert(t@[0] == spec_csv_col(text@, 0));
            assert(t@[a].values.len() == srows.len());
            assert(t@[0].values.len() == srows.len());
        }
        assert forall|a: int, b: int|
            #![trigger t@[a], t@[b]]
            0 <= a < b < t@.len() implies t@[a].name != t@[b].name by {
            assert(names[a] != names[b]);
            assert(t@[a] == spec_csv_col(text@, a));
            assert(t@[b] == spec_csv_col(text@, b));
        }
        assert forall|rr2: int| 0 <= rr2 < srows.len() implies (#[trigger] srows[rr2]).len()
            == names.len() by {
            assert(rows@[rr2]@.map_values(|x: String| x@) == srows[rr2]);
            assert(rows@[rr2]@.len() == w);
        }
        assert(spec_csv_ok(text@));
    }
    Ok(t)
}


/// A join holds no stray character: gluing pieces free of `c` with a
/// separator other than `c` yields text free of `c`.
proof fn lemma_join_free(parts: Seq<Seq<char>>, sep: char, c: char)
    requires
        c != sep,
        forall|i: int| 0 <= i < parts.len() ==> !(#[trigger] parts[i]).contains(c),
    ensures
        !spec_join(parts, sep).contains(c),
    decreases parts.len(),
{
    let full = spec_join(parts, sep);
    if parts.len() == 0 {
        assert(!full.contains(c)) by {
            if full.contains(c) {
                let k = choose|k: int| 0 <= k < full.len() && full[k] == c;
            }
        }
    } else if parts.len() == 1 {
        assert(!parts[0].contains(c));
    } else {
        let rest = parts.drop_first();
        assert forall|i: int| 0 <= i < rest.len() implies !(#[trigger] rest[i]).contains(c) by {
            assert(rest[i] == parts[i + 1]);
        }
        lemma_join_free(rest, sep, c);
        let rj = spec_join(rest, sep);
        assert forall|k: int| 0 <= k < full.len() implies full[k] != c by {
            let p0 = parts[0];
            if k < p0.len() {
                assert(full[k] == p0[k]);
                if p0[k] == c {
                    assert(p0.contains(c));
                }
            } else if k == p0.len() {
                assert(full[k] == sep);
            } else {
                assert(full[k] == rj[k - p0.len() - 1]);
                if rj[k - p0.len() - 1] == c {
                    assert(rj.contains(c));
                }
            }
        }
        if full.contains(c) {
            let k = choose|k: int| 0 <= k < full.len() && full[k] == c;
        }
    }
}

/// Splitting undoes joining: pieces free of the separator, glued and cut
/// again, come back exactly.
pub proof fn lemma_split_join(parts: Seq<Seq<char>>, sep: char)
    requires
        parts.len() >= 1,
        forall|i: int| 0 <= i < parts.len() ==> !(#[trigger] parts[i]).contains(sep),
    ensures
        spec_split(spec_join(parts, sep), sep) == parts,
    decreases parts.len(),
{
    let s = spec_join(parts, sep);
    if parts.len() == 1 {
        assert(s == parts[0]);
        assert forall|k: int| 0 <= k < s.len() implies s[k] != sep by {
            if s[k] == sep {
                assert(parts[0].contains(sep));
            }
        }
        lemma_find_at(s, sep, s.len() as int);
        assert(spec_split(s, sep) =~= parts);
    } else {
        let p0 = parts[0];
        let rest = parts.drop_first();
        assert forall|i: int| 0 <= i < rest.len() implies !(#[trigger] rest[i]).contains(sep) by {
            assert(rest[i] == parts[i + 1]);
        }
        let rj = spec_join(rest, sep);
        assert(s == p0 + seq![sep] + rj);
        assert forall|k: int| 0 <= k < p0.len() implies s[k] != sep by {
            assert(s[k] == p0[k]);
            if p0[k] == sep {
                assert(p0.contains(sep));
            }
        }
        assert(s[p0.len() as int] == sep);
        lemma_find_at(s, sep, p0.len() as int);
        assert(spec_split(s, sep) == seq![s.subrange(0, p0.len() as int)] + spec_split(
            s.subrange(p0.len() as int + 1, s.len() as int),
            sep,
        ));
        assert(s.subrange(0, p0.len() as int) =~= p0);
        assert(s.subrange(p0.len() as int + 1, s.len() as int) =~= rj);
        lemma_split_join(rest, sep);
        assert(spec_split(s, sep) =~= parts);
    }
}

/// The codec round-trips: a well-formed, encodable table, written and read
/// back, is the same table — names, cells and order. The one boundary case
/// left out: a one-column table whose last cell is empty would end the file
/// in an empty line, which reading tolerates as a trailing line break and
/// drops.
pub proof fn lemma_csv_round_trip(t: Seq<ColumnModel>)
    requires
        table_wf(t),
        spec_encodable(t),
        t.len() >= 1,
        (t.len() == 1 && spec_height(t) > 0) ==> str_of(
            t[0].values[spec_height(t) as int - 1],
        ).len() > 0,
    ensures
        spec_csv_ok(spec_csv_text(t)),
        spec_csv_table(spec_csv_text(t)) == t,
{
    let lines = spec_csv_lines_of(t);
    let text = spec_csv_text(t);
    let names0 = t.map_values(|c: ColumnModel| c.name);
    let h = spec_height(t) as int;
    let w = t.len() as int;
    assert(lines.len() == h + 1);
    assert(names0.len() == w);
    assert forall|k: int| 0 <= k < w implies !(#[trigger] names0[k]).contains(',')
        && !names0[k].contains('\n') by {
        assert(spec_col_encodable(t[k]));
    }
    assert forall|r: int, k: int|
        #![trigger spec_row_texts(t, r)[k]]
        0 <= r < h && 0 <= k < w implies !spec_row_texts(t, r)[k].contains(',')
        && !spec_row_texts(t, r)[k].contains('\n') && t[k].values[r] is Str by {
        assert(spec_col_encodable(t[k]));
        assert(t[k].values.len() == spec_height(t));
        assert(spec_row_texts(t, r)[k] == str_of(t[k].values[r]));
    }
    assert forall|i: int| 0 <= i < lines.len() implies !(#[trigger] lines[i]).contains('\n') by {
        if i == 0 {
            assert(lines[0] == spec_join(names0, ','));
            lemma_join_free(names0, ',', '\n');
        } else {
            let row = spec_row_texts(t, i - 1);
            assert(lines[i] == spec_join(row, ','));
            lemma_join_free(row, ',', '\n');
        }
    }
    lemma_split_join(lines, '\n');
    let raw = spec_split(text, '\n');
    assert(raw == lines);
    if raw.len() > 1 {
        assert(h > 0);
        let last = lines[h];
        assert(last == spec_join(spec_row_texts(t, h - 1), ','));
        if w >= 2 {
            assert(last.len() > 0);
        } else {
            assert(spec_row_texts(t, h - 1) =~= seq![str_of(t[0].values[h - 1])]);
            assert(last == str_of(t[0].values[h - 1]));
            assert(last.len() > 0);
        }
        assert(raw.last() == last);
    }
    assert(spec_csv_lines(text) == lines);
    assert(spec_csv_lines(text)[0] == spec_join(names0, ','));
    lemma_split_join(names0, ',');
    assert(spec_csv_names(text) == names0);
    let srows = spec_csv_rows(text);
    assert(srows.len() == h);
    assert forall|r: int| 0 <= r < h implies (#[trigger] srows[r]) == spec_row_texts(t, r) by {
        assert(lines.drop_first()[r] == lines[r + 1]);
        assert(lines[r + 1] == spec_join(spec_row_texts(t, r), ','));
        lemma_split_join(spec_row_texts(t, r), ',');
    }
    assert forall|r: int| 0 <= r < srows.len() implies (#[trigger] srows[r]).len()
        == spec_csv_names(text).len() by {}
    assert forall|i: int, j: int|
        #![trigger spec_csv_names(text)[i], spec_csv_names(text)[j]]
        0 <= i < j < spec_csv_names(text).len() implies spec_csv_names(text)[i]
        != spec_csv_names(text)[j] by {
        assert(names0[i] == t[i].name && names0[j] == t[j].name);
    }
    assert(spec_csv_ok(text));
    assert forall|j: int| 0 <= j < w implies spec_csv_table(text)[j] == t[j] by {
        assert(spec_csv_table(text)[j] == spec_csv_col(text, j));
        let c = spec_csv_col(text, j);
        assert(c.name == t[j].name);
        assert(t[j].values.len() == spec_height(t));
        assert forall|r: int| 0 <= r < h implies c.values[r] == t[j].values[r] by {
            assert(srows[r][j] == spec_row_texts(t, r)[j]);
            assert(srows[r][j] == str_of(t[j].values[r]));
            assert(t[j].values[r] is Str);
        }
        assert(c.values =~= t[j].values);
    }
    assert(spec_csv_table(text) =~= t);
}


} // verus!
