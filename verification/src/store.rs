//! The word table and its cursor-based pages.
//!
//! A table is modelled by the sequence of its rows in insertion order, which
//! is also the order of their ids. A page is read from it by an exclusive
//! lower bound on the id and a limit on the number of rows.

use vstd::prelude::*;

verus! {

/// Smallest page size that a request is served with.
pub const MIN_PAGE_LIMIT: i64 = 1;

/// Largest page size that a request is served with.
pub const MAX_PAGE_LIMIT: i64 = 200;

/// A stored word with the id that the table gave it.
#[derive(Debug, Clone)]
pub struct Word {
    pub id: i32,
    pub word: String,
}

/// What a `Word` stands for: its id and its text.
pub ghost struct Row {
    pub id: int,
    pub word: Seq<char>,
}

impl View for Word {
    type V = Row;

    open spec fn view(&self) -> Row {
        Row { id: self.id as int, word: self.word@ }
    }
}

impl DeepView for Word {
    type V = Row;

    open spec fn deep_view(&self) -> Row {
        self@
    }
}

/// Why the table did not take a word.
#[derive(Debug, Clone, Copy, PartialEq, Eq, Structural)]
pub enum StoreError {
    /// Every id that the table can give has been given.
    IdsExhausted,
}

/// Whether the ids of `rows` rise strictly from each row to the next.
pub open spec fn ascending(rows: Seq<Row>) -> bool {
    forall|i: int, j: int| 0 <= i < j < rows.len() ==> rows[i].id < rows[j].id
}

/// The page size that a requested `limit` is served with: `limit` itself
/// where it lies between the two bounds, else the nearer bound.
pub open spec fn clamped_limit(limit: int) -> int {
    if limit < MIN_PAGE_LIMIT {
        MIN_PAGE_LIMIT as int
    } else if limit > MAX_PAGE_LIMIT {
        MAX_PAGE_LIMIT as int
    } else {
        limit
    }
}

/// A cursor as the mathematical id that it bounds from below.
pub open spec fn cursor_view(cursor: Option<i32>) -> Option<int> {
    match cursor {
        Some(c) => Some(c as int),
        None => None,
    }
}

/// The rows of `rows` that lie behind `cursor`: all of them without a
/// cursor, else those with a greater id, in their order.
pub open spec fn rows_after(rows: Seq<Row>, cursor: Option<int>) -> Seq<Row> {
    match cursor {
        None => rows,
        Some(c) => rows.filter(|r: Row| r.id > c),
    }
}

/// The first `n` of `rows`, or all of them where there are fewer.
pub open spec fn first_rows(rows: Seq<Row>, n: int) -> Seq<Row> {
    if 0 <= n < rows.len() {
        rows.take(n)
    } else {
        rows
    }
}

/// The rows of the page that `cursor` and `limit` ask for.
pub open spec fn page_rows(rows: Seq<Row>, cursor: Option<int>, limit: int) -> Seq<Row> {
    first_rows(rows_after(rows, cursor), clamped_limit(limit))
}

/// The cursor that follows a page of rows `page` read with `limit`: none
/// where the page is short of the served limit, else the id of its last row.
pub open spec fn page_cursor(page: Seq<Row>, limit: int) -> Option<int> {
    if page.len() < clamped_limit(limit) {
        None
    } else {
        Some(page.last().id)
    }
}

/// Brings a requested page size into the served range.
pub fn clamp_limit(limit: i64) -> (r: i64)
    ensures
        r == clamped_limit(limit as int),
        MIN_PAGE_LIMIT <= r <= MAX_PAGE_LIMIT,
{
    if limit < MIN_PAGE_LIMIT {
        MIN_PAGE_LIMIT
    } else if limit > MAX_PAGE_LIMIT {
        MAX_PAGE_LIMIT
    } else {
        limit
    }
}

/// The page size of a request that may name none: one row by default.
pub fn requested_limit(limit: Option<i64>) -> (r: i64)
    ensures
        r == clamped_limit(
            match limit {
                Some(l) => l as int,
                None => 1,
            },
        ),
{
    match limit {
        Some(l) => clamp_limit(l),
        None => clamp_limit(1),
    }
}

/// In an ascending table the rows behind a cursor are a suffix: where the
/// first `k` rows have ids up to `c` and all later ones have greater ids,
/// the rows with an id above `c` are the rows from position `k` on.
pub proof fn lemma_rows_after_is_suffix(rows: Seq<Row>, c: int, k: int)
    requires
        0 <= k <= rows.len(),
        forall|i: int| 0 <= i < k ==> rows[i].id <= c,
        forall|i: int| k <= i < rows.len() ==> rows[i].id > c,
    ensures
        rows_after(rows, Some(c)) == rows.skip(k),
    decreases rows.len(),
{
    reveal(Seq::filter);
    let pred = |r: Row| r.id > c;
    if rows.len() > 0 {
        let init = rows.drop_last();
        if k == rows.len() {
            lemma_rows_after_is_suffix(init, c, k - 1);
            assert(init.skip(k - 1) == rows.skip(k));
        } else {
            lemma_rows_after_is_suffix(init, c, k);
            assert(init.skip(k).push(rows.last()) == rows.skip(k));
        }
    } else {
        assert(rows.filter(pred) == rows.skip(k));
    }
}

/// The rows of a table after `words` have been inserted into it one after
/// the other, each getting the id after the last one given; `rows` and
/// `last_id` are the table's rows and last id before the first insert.
pub open spec fn rows_inserted(rows: Seq<Row>, last_id: int, words: Seq<Seq<char>>) -> Seq<Row>
    decreases words.len(),
{
    if words.len() == 0 {
        rows
    } else {
        rows_inserted(
            rows.push(Row { id: last_id + 1, word: words[0] }),
            last_id + 1,
            words.skip(1),
        )
    }
}

/// Successive inserts give strictly increasing ids: the rows that they add
/// stand behind the old ones in insertion order, the `k`-th with the id `k +
/// 1` above the last one given before, and the whole table stays ascending.
pub proof fn lemma_inserted_ids_increase(rows: Seq<Row>, last_id: int, words: Seq<Seq<char>>)
    requires
        ascending(rows),
        forall|i: int| 0 <= i < rows.len() ==> rows[i].id <= last_id,
    ensures
        rows_inserted(rows, last_id, words) == rows + Seq::new(
            words.len(),
            |k: int| Row { id: last_id + 1 + k, word: words[k] },
        ),
        ascending(rows_inserted(rows, last_id, words)),
        forall|i: int, j: int|
            #![trigger rows_inserted(rows, last_id, words)[i], rows_inserted(rows, last_id, words)[j]]
            rows.len() <= i < j < rows.len() + words.len() ==> rows_inserted(
                rows,
                last_id,
                words,
            )[i].id < rows_inserted(rows, last_id, words)[j].id,
    decreases words.len(),
{
    let added = Seq::new(words.len(), |k: int| Row { id: last_id + 1 + k, word: words[k] });
    if words.len() == 0 {
        assert(rows + added == rows);
    } else {
        let first = Row { id: last_id + 1, word: words[0] };
        let rest = words.skip(1);
        lemma_inserted_ids_increase(rows.push(first), last_id + 1, rest);
        let added_rest = Seq::new(rest.len(), |k: int| Row { id: last_id + 2 + k, word: rest[k] });
        assert(rows.push(first) + added_rest == rows + added);
    }
}

/// The cursor that the `i`-th page of a walk is read with: none for the
/// first page, else the one that followed the page before.
pub open spec fn walk_cursor(pages: Seq<Seq<Row>>, limit: int, i: int) -> Option<int> {
    if i <= 0 {
        None
    } else {
        page_cursor(pages[i - 1], limit)
    }
}

/// Whether `pages` is a walk through `rows` with `limit`: the pages read one
/// after the other from the start, each with the cursor that followed the
/// page before, up to and including the first page that no cursor follows.
pub open spec fn is_walk(rows: Seq<Row>, limit: int, pages: Seq<Seq<Row>>) -> bool {
    &&& pages.len() > 0
    &&& forall|i: int|
        0 <= i < pages.len() ==> #[trigger] pages[i] == page_rows(
            rows,
            walk_cursor(pages, limit, i),
            limit,
        )
    &&& forall|i: int|
        0 <= i < pages.len() - 1 ==> page_cursor(#[trigger] pages[i], limit) is Some
    &&& page_cursor(pages.last(), limit) is None
}

/// The rows of `pages` in one sequence, page after page.
pub open spec fn concat_pages(pages: Seq<Seq<Row>>) -> Seq<Row>
    decreases pages.len(),
{
    if pages.len() == 0 {
        Seq::empty()
    } else {
        concat_pages(pages.drop_last()) + pages.last()
    }
}

/// The pages of a walk before the `i`-th hold the first rows of the table,
/// and the `i`-th page is read from the row after them.
proof fn lemma_walk_prefix(rows: Seq<Row>, limit: int, pages: Seq<Seq<Row>>, i: int)
    requires
        ascending(rows),
        is_walk(rows, limit, pages),
        0 <= i < pages.len(),
    ensures
        concat_pages(pages.take(i)).len() <= rows.len(),
        concat_pages(pages.take(i)) == rows.take(concat_pages(pages.take(i)).len() as int),
        rows_after(rows, walk_cursor(pages, limit, i)) == rows.skip(
            concat_pages(pages.take(i)).len() as int,
        ),
    decreases i,
{
    if i == 0 {
        assert(pages.take(0).len() == 0);
        assert(concat_pages(pages.take(0)) == Seq::<Row>::empty());
        assert(rows.take(0) == Seq::<Row>::empty());
        assert(rows.skip(0) == rows);
    } else {
        lemma_walk_prefix(rows, limit, pages, i - 1);
        let served = clamped_limit(limit);
        let done = concat_pages(pages.take(i - 1));
        let d = done.len() as int;
        let page = pages[i - 1];
        let behind = rows.skip(d);
        assert(pages.take(i).drop_last() == pages.take(i - 1));
        assert(pages.take(i).last() == page);
        assert(concat_pages(pages.take(i)) == done + page);
        assert(page == page_rows(rows, walk_cursor(pages, limit, i - 1), limit));
        assert(page == first_rows(behind, served));
        assert(page_cursor(page, limit) is Some);
        assert(page.len() == served);
        assert(page == behind.take(served));
        assert(d + served <= rows.len());
        assert(done + page == rows.take(d + served)) by {
            assert(done == rows.take(d));
            assert(rows.take(d) + rows.skip(d).take(served) =~= rows.take(d + served));
        }
        let c = page.last().id;
        assert(page.last() == rows[d + served - 1]);
        assert(walk_cursor(pages, limit, i) == Some(c));
        lemma_suffix_behind(rows, d + served);
        lemma_rows_after_is_suffix(rows, c, d + served);
    }
}

/// In an ascending table the rows from position `k` on have ids above that
/// of the row before them, and the rows before have ids up to it.
proof fn lemma_suffix_behind(rows: Seq<Row>, k: int)
    requires
        ascending(rows),
        0 < k <= rows.len(),
    ensures
        forall|i: int| 0 <= i < k ==> (#[trigger] rows[i]).id <= rows[k - 1].id,
        forall|i: int| k <= i < rows.len() ==> (#[trigger] rows[i]).id > rows[k - 1].id,
{
}

/// Walking the pages reads every row once: the pages of a walk through an
/// ascending table, one after the other, are the table's rows in their
/// order, none left out and none twice.
pub proof fn lemma_walk_reads_every_row_once(rows: Seq<Row>, limit: int, pages: Seq<Seq<Row>>)
    requires
        ascending(rows),
        is_walk(rows, limit, pages),
    ensures
        concat_pages(pages) == rows,
{
    let n = pages.len() as int;
    lemma_walk_prefix(rows, limit, pages, n - 1);
    let done = concat_pages(pages.take(n - 1));
    let d = done.len() as int;
    assert(pages.drop_last() == pages.take(n - 1));
    assert(pages.last() == pages[n - 1]);
    assert(pages.last() == rows.skip(d));
    assert(rows.take(d) + rows.skip(d) == rows);
}

/// The pages that a walk through `rows` with `limit` reads: as many full
/// pages as the rows fill, and behind them the page that is short of the
/// limit, which is empty where the rows fill their pages to the last.
pub open spec fn walk_pages(rows: Seq<Row>, limit: int) -> Seq<Seq<Row>> {
    let served = clamped_limit(limit);
    Seq::new(
        (rows.len() as int / served + 1) as nat,
        |i: int| first_rows(rows.skip(i * served), served),
    )
}

/// The `i`-th page of `walk_pages` is read from row `i * served` on, with
/// the cursor that followed the page before, and is full unless it is the
/// last.
proof fn lemma_walk_page(rows: Seq<Row>, limit: int, i: int)
    requires
        ascending(rows),
        0 <= i <= rows.len() as int / clamped_limit(limit),
    ensures
        ({
            let served = clamped_limit(limit);
            let pages = walk_pages(rows, limit);
            &&& 0 <= i * served <= rows.len()
            &&& pages[i] == first_rows(rows.skip(i * served), served)
            &&& rows_after(rows, walk_cursor(pages, limit, i)) == rows.skip(i * served)
            &&& i < rows.len() as int / served ==> pages[i].len() == served && pages[i].last() == rows[i
                * served + served - 1]
            &&& i == rows.len() as int / served ==> pages[i].len() < served
        }),
    decreases i,
{
    let served = clamped_limit(limit);
    let n = rows.len() as int;
    let q = n / served;
    let pages = walk_pages(rows, limit);
    assert(q * served <= n < (q + 1) * served) by (nonlinear_arith)
        requires
            q == n / served,
            served > 0,
            n >= 0,
    ;
    assert(0 <= i * served <= q * served) by (nonlinear_arith)
        requires
            0 <= i <= q,
            served > 0,
    ;
    assert((i + 1) * served == i * served + served) by (nonlinear_arith);
    if i < q {
        assert((i + 1) * served <= q * served) by (nonlinear_arith)
            requires
                i + 1 <= q,
                served > 0,
        ;
    }
    if i == 0 {
        assert(rows.skip(0) == rows);
    } else {
        lemma_walk_page(rows, limit, i - 1);
        assert((i - 1) * served + served - 1 == i * served - 1) by (nonlinear_arith);
        let c = rows[i * served - 1].id;
        assert(walk_cursor(pages, limit, i) == Some(c));
        lemma_suffix_behind(rows, i * served);
        lemma_rows_after_is_suffix(rows, c, i * served);
    }
}

/// Every walk comes to an end: through an ascending table there is a walk
/// with any limit, the one that `walk_pages` gives, and by
/// `lemma_walk_reads_every_row_once` it reads the whole table.
pub proof fn lemma_walk_exists(rows: Seq<Row>, limit: int)
    requires
        ascending(rows),
    ensures
        is_walk(rows, limit, walk_pages(rows, limit)),
        concat_pages(walk_pages(rows, limit)) == rows,
{
    let served = clamped_limit(limit);
    let pages = walk_pages(rows, limit);
    let q = rows.len() as int / served;
    assert(q >= 0) by (nonlinear_arith)
        requires
            q == rows.len() as int / served,
            served > 0,
    ;
    assert forall|i: int| 0 <= i < pages.len() implies #[trigger] pages[i] == page_rows(
        rows,
        walk_cursor(pages, limit, i),
        limit,
    ) by {
        lemma_walk_page(rows, limit, i);
    }
    assert forall|i: int| 0 <= i < pages.len() - 1 implies page_cursor(
        #[trigger] pages[i],
        limit,
    ) is Some by {
        lemma_walk_page(rows, limit, i);
    }
    lemma_walk_page(rows, limit, q);
    assert(pages.last() == pages[q]);
    lemma_walk_reads_every_row_once(rows, limit, pages);
}

/// A copy of `w`.
fn copy_word(w: &Word) -> (r: Word)
    ensures
        r@ == w@,
{
    Word { id: w.id, word: w.word.clone() }
}

/// Completes the rows that a page query returned into a page: the rows as
/// they are, and the cursor for the page after them.
pub fn page_from_rows(rows: Vec<Word>, limit: i64) -> (page: (Vec<Word>, Option<i32>))
    ensures
        page.0 == rows,
        cursor_view(page.1) == page_cursor(rows.deep_view(), limit as int),
        rows.len() < clamped_limit(limit as int) <==> page.1 is None,
{
    let served: i64 = clamp_limit(limit);
    let n: usize = rows.len();
    if n < served as usize {
        (rows, None)
    } else {
        let last: i32 = rows[n - 1].id;
        (rows, Some(last))
    }
}

/// A word table held in memory: the rows in insertion order, and the id that
/// was given last.
pub struct WordTable {
    rows: Vec<Word>,
    last_id: i32,
}

impl View for WordTable {
    type V = Seq<Row>;

    closed spec fn view(&self) -> Seq<Row> {
        self.rows.deep_view()
    }
}

impl WordTable {
    /// The id that the table gave last, 0 before the first.
    pub closed spec fn last_id(&self) -> int {
        self.last_id as int
    }

    /// Ids start at 1, rise from row to row and never pass the last one given.
    #[verifier::type_invariant]
    closed spec fn well_formed(&self) -> bool {
        &&& 0 <= self.last_id
        &&& ascending(self.rows.deep_view())
        &&& forall|i: int|
            0 <= i < self.rows.len() ==> 1 <= (#[trigger] self.rows[i]).id <= self.last_id
    }

    /// What holds of every table, stated over its view: ids start at 1, rise
    /// from row to row and never pass the last one given. The functions that
    /// take a table state it of that table.
    pub open spec fn consistent(&self) -> bool {
        &&& 0 <= self.last_id()
        &&& ascending(self@)
        &&& forall|i: int| 0 <= i < self@.len() ==> 1 <= (#[trigger] self@[i]).id <= self.last_id()
    }

    /// A table without rows, in which no id has been given.
    pub fn new() -> (table: WordTable)
        ensures
            table@ == Seq::<Row>::empty(),
            table.last_id() == 0,
            table.consistent(),
    {
        let table = WordTable { rows: Vec::new(), last_id: 0 };
        assert(table.rows.deep_view() == Seq::<Row>::empty());
        table
    }

    /// The number of rows.
    pub fn len(&self) -> (n: usize)
        ensures
            n == self@.len(),
            self.consistent(),
    {
        proof {
            use_type_invariant(self);
            self.lemma_consistent();
        }
        self.rows.len()
    }

    proof fn lemma_consistent(&self)
        requires
            self.well_formed(),
        ensures
            self.consistent(),
    {
        assert forall|i: int| 0 <= i < self@.len() implies 1 <= (#[trigger] self@[i]).id
            <= self.last_id() by {
            assert(self@[i].id == self.rows[i].id);
        }
    }
}

/// Stores `word` as a new row behind all others and returns the id it got,
/// the one after the last given. Where no id is left the table is unchanged.
pub fn insert_word(table: &mut WordTable, word: &str) -> (r: Result<i32, StoreError>)
    ensures
        old(table).last_id() < i32::MAX ==> r == Ok::<i32, StoreError>(
            (old(table).last_id() + 1) as i32,
        ),
        old(table).last_id() == i32::MAX ==> r == Err::<i32, StoreError>(StoreError::IdsExhausted),
        match r {
            Ok(id) => {
                &&& final(table)@ == old(table)@.push(Row { id: id as int, word: word@ })
                &&& final(table)@ == rows_inserted(
                    old(table)@,
                    old(table).last_id(),
                    seq![word@],
                )
                &&& final(table).last_id() == id
                &&& forall|i: int| 0 <= i < old(table)@.len() ==> old(table)@[i].id < id
            },
            Err(_) => *final(table) == *old(table),
        },
        old(table).consistent(),
        final(table).consistent(),
{
    proof {
        use_type_invariant(&*table);
        table.lemma_consistent();
    }
    if table.last_id == i32::MAX {
        return Err(StoreError::IdsExhausted);
    }
    let id: i32 = table.last_id + 1;
    let ghost before = table.rows.deep_view();
    assert forall|i: int| 0 <= i < before.len() implies before[i].id < id by {
        assert(before[i].id == table.rows[i].id);
    }
    let mut taken = WordTable { rows: Vec::new(), last_id: 0 };
    core::mem::swap(table, &mut taken);
    let mut rows: Vec<Word> = taken.rows;
    rows.push(Word { id, word: word.to_owned() });
    assert(rows.deep_view() == before.push(Row { id: id as int, word: word@ }));
    assert(rows.deep_view() == rows_inserted(before, id - 1, seq![word@])) by {
        let one = seq![word@];
        assert(one.skip(1).len() == 0);
        assert(rows_inserted(before.push(Row { id: id as int, word: one[0] }), id as int, one.skip(1))
            == before.push(Row { id: id as int, word: one[0] }));
    }
    *table = WordTable { rows, last_id: id };
    proof {
        table.lemma_consistent();
    }
    Ok(id)
}

/// Reads one page: the rows behind `cursor` in ascending id order, as many
/// as the served limit allows, and the cursor for the page after them, which
/// is absent where the page is short of that limit.
pub fn list_words_page(table: &WordTable, cursor: Option<i32>, limit: i64) -> (page: (
    Vec<Word>,
    Option<i32>,
))
    ensures
        page.0.deep_view() == page_rows(table@, cursor_view(cursor), limit as int),
        cursor_view(page.1) == page_cursor(page.0.deep_view(), limit as int),
        page.1 is None <==> rows_after(table@, cursor_view(cursor)).len() < clamped_limit(
            limit as int,
        ),
        table@.len() == 0 ==> page.0@.len() == 0 && page.1 is None,
        ascending(page.0.deep_view()),
        table.consistent(),
{
    proof {
        use_type_invariant(table);
        table.lemma_consistent();
    }
    let served: usize = clamp_limit(limit) as usize;
    let n: usize = table.rows.len();
    let ghost all = table.rows.deep_view();
    let mut start: usize = 0;
    if let Some(c) = cursor {
        while start < n && table.rows[start].id <= c
            invariant
                n == table.rows.len(),
                all == table.rows.deep_view(),
                0 <= start <= n,
                forall|i: int| 0 <= i < start ==> all[i].id <= c,
            decreases n - start,
        {
            start = start + 1;
        }
        proof {
            assert forall|i: int| start <= i < all.len() implies all[i].id > c by {
                assert(all[start as int].id == table.rows[start as int].id);
            }
            lemma_rows_after_is_suffix(all, c as int, start as int);
        }
    } else {
        assert(all.skip(0) == all);
    }
    let ghost behind = all.skip(start as int);
    assert(behind == rows_after(all, cursor_view(cursor)));
    let mut items: Vec<Word> = Vec::new();
    let mut i: usize = start;
    while i < n && items.len() < served
        invariant
            n == table.rows.len(),
            all == table.rows.deep_view(),
            start <= i <= n,
            items.len() == i - start,
            items.len() <= served,
            items.deep_view() == all.subrange(start as int, i as int),
        decreases n - i,
    {
        let ghost so_far = items.deep_view();
        items.push(copy_word(&table.rows[i]));
        assert(items.deep_view() == so_far.push(all[i as int]));
        i = i + 1;
    }
    assert(items.deep_view() == first_rows(behind, served as int)) by {
        if served < behind.len() {
            assert(behind.take(served as int) == all.subrange(start as int, i as int));
        } else {
            assert(behind == all.subrange(start as int, i as int));
        }
    }
    assert(ascending(items.deep_view()));
    page_from_rows(items, limit)
}

} // verus!
