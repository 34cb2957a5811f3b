//! The presentation of a page: one table row for each word and, where a
//! cursor follows the page, a last row that fetches the next page once it
//! comes into view.

use crate::decimal::{decimal, push_decimal};
use crate::store::{
    clamped_limit, cursor_view, list_words_page, page_cursor, page_rows, requested_limit, Row, Word,
    WordTable,
};
use vstd::prelude::*;

verus! {

/// The path under which pages are served.
pub const WORDS_PATH: &'static str = "/api/words";

/// The document that holds the list: a table whose body fetches the first
/// page as soon as it is loaded.
pub const INDEX_DOCUMENT: &'static str = "<!doctype html>
<html lang=\"en\">
  <head>
    <meta charset=\"utf-8\" />
    <meta name=\"viewport\" content=\"width=device-width, initial-scale=1\" />
    <title>ccdemo — Words</title>
    <style>
      body { font-family: system-ui, -apple-system, Segoe UI, Roboto, sans-serif; margin: 2rem; }
      h1 { margin-bottom: .5rem; }
      .muted { color: #666; }
      code { background: #f4f4f4; padding: 2px 4px; border-radius: 3px; }
      .bar { display:flex; gap:1rem; align-items:center; margin-bottom:1rem; flex-direction:column; }
      #list { max-width: 48rem; margin: 0 auto; }
      table { width: 100%; border-collapse: collapse; }
      thead th { text-align: left; font-weight: 600; border-bottom: 2px solid #ddd; padding: .5rem .6rem; position: sticky; top: 0; background: #fff; }
      tbody td { border-bottom: 1px solid #eee; padding: .45rem .6rem; }
      td.id { width: 6rem; color: #555; }
      tr.loading td { text-align: center; color: #666; }
      button { padding:.4rem .7rem; }
    </style>
    <script src=\"https://unpkg.com/htmx.org@1.9.12\"></script>
  </head>
  <body>
    <div class=\"bar\">
      <h1>Words</h1>
    </div>
    <div id=\"list\">
      <table>
        <thead>
          <tr>
            <th>ID</th>
            <th>Word</th>
          </tr>
        </thead>
        <tbody id=\"rows\" hx-get=\"/api/words\" hx-trigger=\"load\" hx-swap=\"innerHTML\"></tbody>
      </table>
    </div>
  </body>
</html>";

/// The document that holds the list.
pub fn index_html() -> (html: String)
    ensures
        html@ == INDEX_DOCUMENT@,
{
    INDEX_DOCUMENT.to_owned()
}

/// The table row that shows `row`.
pub open spec fn row_fragment(row: Row) -> Seq<char> {
    "<tr><td class='id'>"@ + decimal(row.id) + "</td><td class='word'>"@ + row.word
        + "</td></tr>"@
}

/// The table rows that show `rows`, in their order.
pub open spec fn rows_fragment(rows: Seq<Row>) -> Seq<char>
    decreases rows.len(),
{
    if rows.len() == 0 {
        Seq::empty()
    } else {
        rows_fragment(rows.drop_last()) + row_fragment(rows.last())
    }
}

/// The address of the page behind `cursor`, read with `limit`.
pub open spec fn next_page_url(cursor: int, limit: int) -> Seq<char> {
    WORDS_PATH@ + "?cursor="@ + decimal(cursor) + "&limit="@ + decimal(limit)
}

/// The row that fetches the page behind `cursor` when it comes into view,
/// and is replaced by it.
pub open spec fn loader_fragment(cursor: int, limit: int) -> Seq<char> {
    "<tr class='loading' hx-get='"@ + next_page_url(cursor, limit)
        + "' hx-trigger='revealed' hx-swap='outerHTML'><td colspan='2'>Loading...</td></tr>"@
}

/// What is shown for a page of `rows`: its rows, and behind them the row
/// that fetches the next page where a cursor follows. Without one nothing
/// follows the rows, and the list ends there.
pub open spec fn page_fragment(rows: Seq<Row>, next_cursor: Option<int>, limit: int) -> Seq<char> {
    rows_fragment(rows) + match next_cursor {
        Some(cursor) => loader_fragment(cursor, limit),
        None => Seq::empty(),
    }
}

/// Appends the table row for `word` to `out`.
fn push_row(out: &mut String, word: &Word)
    ensures
        final(out)@ == old(out)@ + row_fragment(word@),
{
    let ghost start = out@;
    out.append("<tr><td class='id'>");
    push_decimal(out, word.id as i64);
    out.append("</td><td class='word'>");
    out.append(word.word.as_str());
    out.append("</td></tr>");
    assert(out@ == start + row_fragment(word@));
}

/// The address of the page behind `cursor`, read with `limit`.
pub fn next_url(cursor: i32, limit: i64) -> (url: String)
    ensures
        url@ == next_page_url(cursor as int, limit as int),
{
    let mut url = WORDS_PATH.to_owned();
    url.append("?cursor=");
    push_decimal(&mut url, cursor as i64);
    url.append("&limit=");
    push_decimal(&mut url, limit);
    url
}

/// Renders a page: a row for each of `items`, and the row that fetches the
/// next page with the same `limit` where `next_cursor` is present.
pub fn render_page(items: &Vec<Word>, next_cursor: Option<i32>, limit: i64) -> (html: String)
    ensures
        html@ == page_fragment(items.deep_view(), cursor_view(next_cursor), limit as int),
{
    let mut html = String::new();
    let ghost rows = items.deep_view();
    let mut i: usize = 0;
    while i < items.len()
        invariant
            0 <= i <= items.len(),
            rows == items.deep_view(),
            html@ == rows_fragment(rows.take(i as int)),
        decreases items.len() - i,
    {
        assert(rows.take(i + 1).drop_last() == rows.take(i as int));
        assert(rows.take(i + 1).last() == items[i as int]@);
        push_row(&mut html, &items[i]);
        i = i + 1;
    }
    assert(rows.take(i as int) == rows);
    match next_cursor {
        Some(cursor) => {
            let ghost shown = html@;
            let url = next_url(cursor, limit);
            html.append("<tr class='loading' hx-get='");
            html.append(url.as_str());
            html.append(
                "' hx-trigger='revealed' hx-swap='outerHTML'><td colspan='2'>Loading...</td></tr>",
            );
            assert(html@ == shown + loader_fragment(cursor as int, limit as int));
        },
        None => {
            assert(html@ + Seq::<char>::empty() == html@);
        },
    }
    html
}

/// Answers a request for a page of `table`: the page behind `cursor`, read
/// with the requested limit or with one row where none is requested, and
/// rendered; the next page is fetched with the limit that this one was
/// served with.
pub fn api_words(table: &WordTable, cursor: Option<i32>, limit: Option<i64>) -> (html: String)
    ensures
        ({
            let served = clamped_limit(
                match limit {
                    Some(l) => l as int,
                    None => 1,
                },
            );
            let rows = page_rows(table@, cursor_view(cursor), served);
            html@ == page_fragment(rows, page_cursor(rows, served), served)
        }),
{
    let served = requested_limit(limit);
    let (items, next_cursor) = list_words_page(table, cursor, served);
    render_page(&items, next_cursor, served)
}

} // verus!
