//! `query`: run SQL and print the result as tab-separated text, a header
//! line first, then one line per row.

use vstd::prelude::*;
use super::connection_args::ConnectionArgs;
use super::tsv::{
    columns_of, content_view, extract_columns, extract_rows, result_rows, rows_to_tsv, str_refs,
    tsv_body, tsv_header, tsv_line, QueryBody,
};
use crate::text::push_char;

verus! {

/// The `query` subcommand's arguments.
pub struct QueryCommand {
    /// SQL statement to execute
    pub sql: String,
    pub conn: ConnectionArgs,
}

/// What `query` prints for a result: nothing when the result has no
/// columns; otherwise the header line, then one line per row.
pub open spec fn query_text(content: Option<Seq<super::tsv::ContentItem>>) -> Seq<char> {
    if columns_of(content).len() == 0 {
        seq![]
    } else {
        tsv_line(columns_of(content)).push('\n') + tsv_body(result_rows(content))
    }
}

/// The text `query` prints for a result body.
pub fn query_output(body: &QueryBody) -> (res: String)
    ensures
        res@ == query_text(content_view(body)),
{
    let cols = extract_columns(body);
    if cols.len() == 0 {
        return String::new();
    }
    let col_refs = str_refs(&cols);
    let mut out = tsv_header(col_refs.as_slice());
    push_char(&mut out, '\n');
    let rows = extract_rows(body);
    let data = rows_to_tsv(rows.as_slice());
    out.append(data.as_str());
    out
}


/// What `query` prints is the header line first, then one line per row:
/// when the result has columns, splitting the output at its newlines gives
/// the header line, the line of each row in order, and the empty text after
/// the last newline.
pub proof fn law_header_then_one_line_per_row(content: Option<Seq<super::tsv::ContentItem>>)
    requires
        columns_of(content).len() > 0,
    ensures
        crate::text::split(query_text(content), '\n') == seq![tsv_line(columns_of(content))]
            + result_rows(content).map_values(|r: Seq<Seq<char>>| tsv_line(r)).push(seq![]),
{
    let h = tsv_line(columns_of(content));
    super::tsv::law_line_fields(columns_of(content));
    super::tsv::law_one_line_per_row(result_rows(content));
    crate::text::lemma_split_concat(h, tsv_body(result_rows(content)), '\n');
    crate::text::lemma_split_append_field(seq![], h, '\n');
    assert(seq![] + h =~= h);
    assert(crate::text::split(Seq::<char>::empty(), '\n') =~= seq![seq![]]);
    assert(crate::text::split(h, '\n') =~= seq![h]);
}

} // verus!
