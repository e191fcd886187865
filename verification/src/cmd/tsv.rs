//! Tab-separated output: a header line of column names, then one line per
//! row. Embedded tabs and newlines in names and cells are written as the two
//! characters `\t` and `\n`, so that every row stays on one line and every
//! cell in one field.

use vstd::prelude::*;
use crate::text::{join, lacks, push_char, split, text_eq, views, lemma_join_lacks, lemma_split_join};

verus! {

/// How one character is written in a cell.
pub open spec fn escape_char(c: char) -> Seq<char> {
    if c == '\t' {
        seq!['\\', 't']
    } else if c == '\n' {
        seq!['\\', 'n']
    } else {
        seq![c]
    }
}

/// How a cell (or column name) is written: tabs as `\t`, newlines as `\n`.
pub open spec fn escaped(s: Seq<char>) -> Seq<char>
    decreases s.len(),
{
    if s.len() == 0 {
        seq![]
    } else {
        escaped(s.drop_last()) + escape_char(s.last())
    }
}

/// Every cell of a line, escaped.
pub open spec fn escape_all(cells: Seq<Seq<char>>) -> Seq<Seq<char>> {
    cells.map_values(|c: Seq<char>| escaped(c))
}

/// One line of output, without its line ending: the escaped cells joined by
/// tabs.
pub open spec fn tsv_line(cells: Seq<Seq<char>>) -> Seq<char> {
    join(escape_all(cells), '\t')
}

/// The lines of all rows, each ended by a newline.
pub open spec fn tsv_body(rows: Seq<Seq<Seq<char>>>) -> Seq<char>
    decreases rows.len(),
{
    if rows.len() == 0 {
        seq![]
    } else {
        tsv_body(rows.drop_last()) + tsv_line(rows.last()).push('\n')
    }
}

/// The views of the rows of a table of strings.
pub open spec fn table_views(rows: Seq<Vec<String>>) -> Seq<Seq<Seq<char>>> {
    rows.map_values(|r: Vec<String>| views(r@))
}

/// The views of a sequence of string slices.
pub open spec fn str_views(v: Seq<&str>) -> Seq<Seq<char>> {
    v.map_values(|s: &str| s@)
}

/// Format column headers as a tab-separated line.
/// Embedded tabs in column names are escaped as `\t`.
pub fn tsv_header(columns: &[&str]) -> (res: String)
    ensures
        res@ == tsv_line(str_views(columns@)),
{
    let ghost cols = str_views(columns@);
    let mut res = String::new();
    let mut i: usize = 0;
    while i < columns.len()
        invariant
            0 <= i <= columns.len(),
            cols == str_views(columns@),
            res@ == join(escape_all(cols.take(i as int)), '\t'),
        decreases columns.len() - i,
    {
        let e = escape_cell(columns[i]);
        proof {
            assert(escape_all(cols.take(i + 1)) =~= escape_all(cols.take(i as int)).push(
                escaped(cols[i as int]),
            ));
        }
        if i > 0 {
            push_char(&mut res, '\t');
        } else {
            assert(escape_all(cols.take(0)) =~= seq![]);
        }
        let ghost before = res@;
        res.append(e.as_str());
        proof {
            let p = escape_all(cols.take(i as int));
            let q = escape_all(cols.take(i + 1));
            assert(q.drop_last() =~= p);
            assert(q.last() == e@);
            if i == 0 {
                assert(before =~= Seq::<char>::empty());
                assert(res@ =~= e@);
            }
        }
        i = i + 1;
    }
    assert(cols.take(columns.len() as int) =~= cols);
    res
}

/// Borrowed views of the strings of `v`, in order.
pub fn str_refs(v: &Vec<String>) -> (res: Vec<&str>)
    ensures
        str_views(res@) == views(v@),
{
    let mut res: Vec<&str> = Vec::new();
    let mut i: usize = 0;
    while i < v.len()
        invariant
            0 <= i <= v.len(),
            str_views(res@) == views(v@).take(i as int),
        decreases v.len() - i,
    {
        let ghost old_res = res@;
        res.push(v[i].as_str());
        proof {
            assert(str_views(res@) =~= str_views(old_res).push(v@[i as int]@));
            assert(str_views(res@) =~= views(v@).take(i + 1));
        }
        i = i + 1;
    }
    assert(views(v@).take(v.len() as int) =~= views(v@));
    res
}

/// One row as a line without its line ending.
fn row_line(row: &Vec<String>) -> (res: String)
    ensures
        res@ == tsv_line(views(row@)),
{
    let cells = str_refs(row);
    tsv_header(cells.as_slice())
}

/// Format rows as tab-separated lines, one row per line.
/// Embedded tabs and newlines in cell values are escaped.
pub fn rows_to_tsv(rows: &[Vec<String>]) -> (res: String)
    ensures
        res@ == tsv_body(table_views(rows@)),
{
    let ghost t = table_views(rows@);
    let mut out = String::new();
    let mut i: usize = 0;
    while i < rows.len()
        invariant
            0 <= i <= rows.len(),
            t == table_views(rows@),
            out@ == tsv_body(t.take(i as int)),
        decreases rows.len() - i,
    {
        let line = row_line(&rows[i]);
        proof {
            assert(t.take(i + 1).drop_last() =~= t.take(i as int));
        }
        out.append(line.as_str());
        push_char(&mut out, '\n');
        i = i + 1;
    }
    assert(t.take(rows.len() as int) =~= t);
    out
}

/// A cell as written: tabs as `\t`, newlines as `\n`.
pub fn escape_cell(s: &str) -> (res: String)
    ensures
        res@ == escaped(s@),
{
    let mut res = String::new();
    for c in it: s.chars()
        invariant
            it.seq() == s@,
            res@ == escaped(it.seq().take(it.index() as int)),
    {
        proof {
            let k = it.index() as int;
            assert(it.seq().take(k + 1).drop_last() =~= it.seq().take(k));
        }
        if c == '\t' {
            push_char(&mut res, '\\');
            push_char(&mut res, 't');
        } else if c == '\n' {
            push_char(&mut res, '\\');
            push_char(&mut res, 'n');
        } else {
            push_char(&mut res, c);
        }
    }
    proof {
        assert(s@.take(s@.len() as int) =~= s@);
    }
    res
}

// ---------------------------------------------------------------------------
// Laws of the format
// ---------------------------------------------------------------------------

/// An escaped cell holds neither a tab nor a newline.
pub proof fn law_escaped_has_no_separators(s: Seq<char>)
    ensures
        lacks(escaped(s), '\t'),
        lacks(escaped(s), '\n'),
    decreases s.len(),
{
    if s.len() > 0 {
        law_escaped_has_no_separators(s.drop_last());
        let a = escaped(s.drop_last());
        let b = escape_char(s.last());
        assert(escaped(s) == a + b);
        assert forall|i: int| 0 <= i < (a + b).len() implies (a + b)[i] != '\t' && (a + b)[i]
            != '\n' by {
            if i < a.len() {
                assert((a + b)[i] == a[i]);
            } else {
                assert((a + b)[i] == b[i - a.len()]);
            }
        }
    }
}

/// A line of output holds no newline, and, when it has at least one cell,
/// splitting it at its tabs gives back exactly the escaped cells, in order:
/// no padding, no alignment, no lost or merged field.
pub proof fn law_line_fields(cells: Seq<Seq<char>>)
    ensures
        lacks(tsv_line(cells), '\n'),
        cells.len() >= 1 ==> split(tsv_line(cells), '\t') == escape_all(cells),
{
    let e = escape_all(cells);
    assert forall|i: int| 0 <= i < e.len() implies lacks(#[trigger] e[i], '\t') && lacks(
        e[i],
        '\n',
    ) by {
        law_escaped_has_no_separators(cells[i]);
    }
    lemma_join_lacks(e, '\t', '\n');
    if cells.len() >= 1 {
        lemma_split_join(e, '\t');
    }
}

/// The rows are written one per line: splitting the output at its newlines
/// gives, in order, the line of each row, then the empty text after the last
/// newline.
pub proof fn law_one_line_per_row(rows: Seq<Seq<Seq<char>>>)
    ensures
        split(tsv_body(rows), '\n') == rows.map_values(|r: Seq<Seq<char>>| tsv_line(r)).push(
            seq![],
        ),
    decreases rows.len(),
{
    let lines = rows.map_values(|r: Seq<Seq<char>>| tsv_line(r));
    if rows.len() == 0 {
        assert(split(Seq::<char>::empty(), '\n') =~= seq![seq![]]);
        assert(lines.push(seq![]) =~= seq![seq![]]);
    } else {
        let init = rows.drop_last();
        law_one_line_per_row(init);
        let x = tsv_body(init);
        let l = tsv_line(rows.last());
        law_line_fields(rows.last());
        crate::text::lemma_split_append_field(x, l, '\n');
        let y = x + l;
        let z = y.push('\n');
        assert(tsv_body(rows) =~= z);
        assert(z.drop_last() =~= y);
        let prev = init.map_values(|r: Seq<Seq<char>>| tsv_line(r));
        assert(split(x, '\n') == prev.push(seq![]));
        assert(seq![] + l =~= l);
        assert(split(y, '\n') =~= prev.push(l));
        assert(lines =~= prev.push(l));
        assert(split(z, '\n') =~= lines.push(seq![]));
    }
}


// ---------------------------------------------------------------------------
// Query result bodies
// ---------------------------------------------------------------------------

/// The value under a column name in a row-object of a query result.
pub enum Cell {
    /// A JSON string: its text.
    Text(String),
    /// JSON `null`.
    Null,
    /// Any other JSON value (number, boolean, array, object): its JSON text.
    Other(String),
}

/// One element of `result.content` in a query result body.
pub enum ContentItem {
    /// A JSON object: its fields, in the object's key order.
    Object(Vec<(String, Cell)>),
    /// Any element that is not a JSON object.
    NotObject,
}

/// What the query logic reads of an Atelier `/action/query` result body:
/// `result.content` when it is an array, `None` otherwise.
pub struct QueryBody {
    pub content: Option<Vec<ContentItem>>,
}

/// The text a cell is written as: strings as they are, `null` as nothing,
/// other values as their JSON text.
pub open spec fn cell_text(c: Cell) -> Seq<char> {
    match c {
        Cell::Text(s) => s@,
        Cell::Null => seq![],
        Cell::Other(s) => s@,
    }
}

/// The key names of an object, in order.
pub open spec fn keys(fields: Seq<(String, Cell)>) -> Seq<Seq<char>> {
    fields.map_values(|f: (String, Cell)| f.0@)
}

/// A JSON object's keys are distinct.
pub open spec fn distinct_keys(fields: Seq<(String, Cell)>) -> bool {
    keys(fields).no_duplicates()
}

/// Well-formedness of a query result's content: every object in it has
/// distinct keys, as JSON objects do.
pub open spec fn content_well_formed(content: Option<Seq<ContentItem>>) -> bool {
    match content {
        Some(items) => forall|i: int|
            0 <= i < items.len() ==> (#[trigger] items[i] matches ContentItem::Object(f)
                ==> distinct_keys(f@)),
        None => true,
    }
}

/// The text under `key` in an object (the first field of that name), or
/// nothing when the object has no such field.
pub open spec fn field_text(fields: Seq<(String, Cell)>, key: Seq<char>) -> Seq<char>
    decreases fields.len(),
{
    if fields.len() == 0 {
        seq![]
    } else if fields[0].0@ == key {
        cell_text(fields[0].1)
    } else {
        field_text(fields.drop_first(), key)
    }
}

/// The column names of a query result: the keys of its first row when that
/// row is an object, none otherwise.
pub open spec fn columns_of(content: Option<Seq<ContentItem>>) -> Seq<Seq<char>> {
    match content {
        Some(items) => if items.len() > 0 {
            match items[0] {
                ContentItem::Object(fields) => keys(fields@),
                ContentItem::NotObject => seq![],
            }
        } else {
            seq![]
        },
        None => seq![],
    }
}

/// The data row of an object: its text under each column, in column order.
pub open spec fn row_of(fields: Seq<(String, Cell)>, cols: Seq<Seq<char>>) -> Seq<Seq<char>> {
    cols.map_values(|c: Seq<char>| field_text(fields, c))
}

/// The data rows of the objects among `items`, in order; other items are
/// skipped.
pub open spec fn rows_of(items: Seq<ContentItem>, cols: Seq<Seq<char>>) -> Seq<Seq<Seq<char>>>
    decreases items.len(),
{
    if items.len() == 0 {
        seq![]
    } else {
        let prev = rows_of(items.drop_last(), cols);
        match items.last() {
            ContentItem::Object(fields) => prev.push(row_of(fields@, cols)),
            ContentItem::NotObject => prev,
        }
    }
}

/// The data rows of a query result.
pub open spec fn result_rows(content: Option<Seq<ContentItem>>) -> Seq<Seq<Seq<char>>> {
    match content {
        Some(items) => rows_of(items, columns_of(content)),
        None => seq![],
    }
}

/// The view of a query result body's content.
pub open spec fn content_view(body: &QueryBody) -> Option<Seq<ContentItem>> {
    match body.content {
        Some(v) => Some(v@),
        None => None,
    }
}

fn cell_string(c: &Cell) -> (res: String)
    ensures
        res@ == cell_text(*c),
{
    match c {
        Cell::Text(s) => s.clone(),
        Cell::Null => String::new(),
        Cell::Other(s) => s.clone(),
    }
}

/// The key names of an object.
fn object_keys(fields: &Vec<(String, Cell)>) -> (res: Vec<String>)
    ensures
        views(res@) == keys(fields@),
{
    let mut res: Vec<String> = Vec::new();
    let mut i: usize = 0;
    while i < fields.len()
        invariant
            0 <= i <= fields.len(),
            views(res@) == keys(fields@).take(i as int),
        decreases fields.len() - i,
    {
        let ghost old_res = res@;
        let k = fields[i].0.clone();
        res.push(k);
        proof {
            assert(views(res@) =~= views(old_res).push(k@));
            assert(views(res@) =~= keys(fields@).take(i + 1));
        }
        i = i + 1;
    }
    assert(keys(fields@).take(fields.len() as int) =~= keys(fields@));
    res
}

/// The text under `key` in an object.
fn lookup(fields: &Vec<(String, Cell)>, key: &String) -> (res: String)
    ensures
        res@ == field_text(fields@, key@),
{
    let mut i: usize = 0;
    assert(fields@.skip(0) =~= fields@);
    while i < fields.len()
        invariant
            0 <= i <= fields.len(),
            field_text(fields@, key@) == field_text(fields@.skip(i as int), key@),
        decreases fields.len() - i,
    {
        proof {
            assert(fields@.skip(i as int).drop_first() =~= fields@.skip(i + 1));
            assert(fields@.skip(i as int)[0] == fields@[i as int]);
        }
        if text_eq(fields[i].0.as_str(), key.as_str()) {
            return cell_string(&fields[i].1);
        }
        i = i + 1;
    }
    String::new()
}

/// Extract column names from an Atelier query result body.
/// Atelier `/action/query` returns `result.content` as an array of
/// row-objects (each row is a JSON object with column names as keys). Column
/// order is taken from the first row's key order.
pub fn extract_columns(body: &QueryBody) -> (res: Vec<String>)
    ensures
        views(res@) == columns_of(content_view(body)),
        content_well_formed(content_view(body)) ==> views(res@).no_duplicates(),
{
    proof {
        if let Some(items) = content_view(body) {
            if items.len() > 0 && content_well_formed(content_view(body)) {
                assert(items[0] matches ContentItem::Object(f) ==> distinct_keys(f@));
            }
        }
    }
    match &body.content {
        Some(items) => {
            if items.len() > 0 {
                match &items[0] {
                    ContentItem::Object(fields) => object_keys(fields),
                    ContentItem::NotObject => Vec::new(),
                }
            } else {
                Vec::new()
            }
        },
        None => Vec::new(),
    }
}

/// The data row of one object, in column order.
fn object_row(fields: &Vec<(String, Cell)>, cols: &Vec<String>) -> (res: Vec<String>)
    ensures
        views(res@) == row_of(fields@, views(cols@)),
{
    let ghost c = views(cols@);
    let mut res: Vec<String> = Vec::new();
    let mut i: usize = 0;
    while i < cols.len()
        invariant
            0 <= i <= cols.len(),
            c == views(cols@),
            views(res@) == row_of(fields@, c).take(i as int),
        decreases cols.len() - i,
    {
        let v = lookup(fields, &cols[i]);
        let ghost old_res = res@;
        res.push(v);
        proof {
            assert(views(res@) =~= views(old_res).push(v@));
            assert(views(res@) =~= row_of(fields@, c).take(i + 1));
        }
        i = i + 1;
    }
    assert(row_of(fields@, c).take(cols.len() as int) =~= row_of(fields@, c));
    res
}

/// Extract data rows from an Atelier query result body.
/// Rows are in `result.content`, each being a JSON object with column-name
/// keys. Column order follows `extract_columns` (key order of the first row);
/// elements that are not objects are skipped.
pub fn extract_rows(body: &QueryBody) -> (res: Vec<Vec<String>>)
    ensures
        table_views(res@) == result_rows(content_view(body)),
{
    let items = match &body.content {
        Some(c) => {
            if c.len() == 0 {
                return Vec::new();
            }
            c
        },
        None => {
            return Vec::new();
        },
    };
    let cols = extract_columns(body);
    let ghost cv = views(cols@);
    let mut res: Vec<Vec<String>> = Vec::new();
    let mut i: usize = 0;
    while i < items.len()
        invariant
            0 <= i <= items.len(),
            cv == views(cols@),
            table_views(res@) == rows_of(items@.take(i as int), cv),
        decreases items.len() - i,
    {
        proof {
            assert(items@.take(i + 1).drop_last() =~= items@.take(i as int));
            assert(items@.take(i + 1).last() == items@[i as int]);
        }
        match &items[i] {
            ContentItem::Object(fields) => {
                let row = object_row(fields, &cols);
                res.push(row);
                proof {
                    assert(table_views(res@) =~= rows_of(items@.take(i as int), cv).push(
                        row_of(fields@, cv),
                    ));
                }
            },
            ContentItem::NotObject => {},
        }
        i = i + 1;
    }
    assert(items@.take(items.len() as int) =~= items@);
    res
}

/// An element of `result.content` that is a JSON object.
pub open spec fn is_object(x: ContentItem) -> bool {
    x is Object
}

/// The fields of an object element (none for other elements).
pub open spec fn fields_of(x: ContentItem) -> Seq<(String, Cell)> {
    match x {
        ContentItem::Object(f) => f@,
        ContentItem::NotObject => seq![],
    }
}

/// There is exactly one data row per object of the result, in order, even
/// when all of its cells are empty: the k-th row has one cell per column, and
/// its i-th cell is the text under the i-th column name in the k-th object.
pub proof fn law_one_row_per_object(items: Seq<ContentItem>)
    ensures
        ({
            let objs = items.filter(|x: ContentItem| is_object(x));
            let cols = columns_of(Some(items));
            let rows = result_rows(Some(items));
            &&& rows.len() == objs.len()
            &&& forall|k: int| 0 <= k < objs.len() ==> (#[trigger] rows[k]).len() == cols.len()
            &&& forall|k: int, i: int|
                0 <= k < objs.len() && 0 <= i < cols.len() ==> #[trigger] rows[k][i] == field_text(
                    fields_of(objs[k]),
                    cols[i],
                )
        }),
{
    lemma_rows_are_object_rows(items, columns_of(Some(items)));
}

proof fn lemma_rows_are_object_rows(items: Seq<ContentItem>, cols: Seq<Seq<char>>)
    ensures
        ({
            let objs = items.filter(|x: ContentItem| is_object(x));
            let rows = rows_of(items, cols);
            &&& rows.len() == objs.len()
            &&& forall|k: int| 0 <= k < objs.len() ==> #[trigger] rows[k] == row_of(fields_of(objs[k]), cols)
        }),
    decreases items.len(),
{
    reveal(Seq::filter);
    if items.len() > 0 {
        let init = items.drop_last();
        lemma_rows_are_object_rows(init, cols);
        let objs = items.filter(|x: ContentItem| is_object(x));
        let prev_objs = init.filter(|x: ContentItem| is_object(x));
        assert(objs == if is_object(items.last()) {
            prev_objs.push(items.last())
        } else {
            prev_objs
        });
        let rows = rows_of(items, cols);
        let prev = rows_of(init, cols);
        if is_object(items.last()) {
            match items.last() {
                ContentItem::Object(f) => {
                    assert(rows == prev.push(row_of(f@, cols)));
                    assert(fields_of(items.last()) == f@);
                },
                ContentItem::NotObject => {},
            }
            assert forall|k: int| 0 <= k < objs.len() implies #[trigger] rows[k] == row_of(
                fields_of(objs[k]),
                cols,
            ) by {
                if k < prev_objs.len() {
                    assert(objs[k] == prev_objs[k]);
                    assert(rows[k] == prev[k]);
                }
            }
        } else {
            assert(rows == prev);
        }
    }
}

/// Every extracted row has one cell per column, and each cell is the text
/// under that column's name in one object of the result, so headers and
/// values always line up.
pub proof fn law_rows_follow_columns(content: Option<Seq<ContentItem>>)
    ensures
        forall|k: int|
            0 <= k < result_rows(content).len() ==> {
                &&& (#[trigger] result_rows(content)[k]).len() == columns_of(content).len()
                &&& exists|j: int|
                    0 <= j < content.unwrap().len() && (#[trigger] content.unwrap()[j] matches ContentItem::Object(f)
                        && result_rows(content)[k] == row_of(f@, columns_of(content)))
            },
{
    if let Some(items) = content {
        lemma_rows_from_objects(items, columns_of(content));
    }
}

proof fn lemma_rows_from_objects(items: Seq<ContentItem>, cols: Seq<Seq<char>>)
    ensures
        forall|k: int|
            0 <= k < rows_of(items, cols).len() ==> {
                &&& (#[trigger] rows_of(items, cols)[k]).len() == cols.len()
                &&& exists|j: int|
                    0 <= j < items.len() && (#[trigger] items[j] matches ContentItem::Object(f)
                        && rows_of(items, cols)[k] == row_of(f@, cols))
            },
    decreases items.len(),
{
    if items.len() > 0 {
        let init = items.drop_last();
        lemma_rows_from_objects(init, cols);
        let prev = rows_of(init, cols);
        let cur = rows_of(items, cols);
        assert forall|k: int| 0 <= k < cur.len() implies {
            &&& (#[trigger] cur[k]).len() == cols.len()
            &&& exists|j: int|
                0 <= j < items.len() && (#[trigger] items[j] matches ContentItem::Object(f)
                    && cur[k] == row_of(f@, cols))
        } by {
            if k < prev.len() {
                assert(cur[k] == prev[k]);
                let j = choose|j: int|
                    0 <= j < init.len() && (#[trigger] init[j] matches ContentItem::Object(f)
                        && prev[k] == row_of(f@, cols));
                assert(items[j] == init[j]);
            } else {
                let j = items.len() - 1;
                assert(items[j] == items.last());
            }
        }
    }
}

} // verus!
