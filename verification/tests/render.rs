use ccdemo::render::{api_words, index_html, next_url, render_page, INDEX_DOCUMENT, WORDS_PATH};
use ccdemo::store::{insert_word, Word, WordTable};

fn word(id: i32, text: &str) -> Word {
    Word { id, word: text.to_string() }
}

const LOADER_HEAD: &str = "<tr class='loading' hx-get='";
const LOADER_TAIL: &str =
    "' hx-trigger='revealed' hx-swap='outerHTML'><td colspan='2'>Loading...</td></tr>";

#[test]
fn each_word_is_one_table_row() {
    let html = render_page(&vec![word(1, "a"), word(2, "b")], None, 2);
    assert_eq!(
        html,
        "<tr><td class='id'>1</td><td class='word'>a</td></tr>\
         <tr><td class='id'>2</td><td class='word'>b</td></tr>"
    );
}

#[test]
fn a_cursor_adds_the_row_that_fetches_the_next_page() {
    let html = render_page(&vec![word(7, "give")], Some(7), 1);
    assert_eq!(
        html,
        format!(
            "<tr><td class='id'>7</td><td class='word'>give</td></tr>{}/api/words?cursor=7&limit=1{}",
            LOADER_HEAD, LOADER_TAIL
        )
    );
}

#[test]
fn without_a_cursor_the_list_ends() {
    assert_eq!(render_page(&Vec::new(), None, 10), "");
    let html = render_page(&vec![word(3, "c")], None, 2);
    assert!(!html.contains("hx-get"));
}

#[test]
fn the_next_address_names_cursor_and_limit() {
    assert_eq!(next_url(2, 2), "/api/words?cursor=2&limit=2");
    assert_eq!(next_url(-4, 200), "/api/words?cursor=-4&limit=200");
    assert_eq!(next_url(i32::MAX, i64::MAX), "/api/words?cursor=2147483647&limit=9223372036854775807");
    assert_eq!(WORDS_PATH, "/api/words");
}

#[test]
fn words_are_shown_as_they_are_stored() {
    let html = render_page(&vec![word(-1, "<b>&'\u{fc}")], None, 1);
    assert_eq!(html, "<tr><td class='id'>-1</td><td class='word'><b>&'\u{fc}</td></tr>");
}

#[test]
fn a_request_is_answered_with_the_rendered_page() {
    let mut table = WordTable::new();
    for w in ["a", "b", "c"] {
        insert_word(&mut table, w).unwrap();
    }
    assert_eq!(
        api_words(&table, None, Some(2)),
        format!(
            "<tr><td class='id'>1</td><td class='word'>a</td></tr>\
             <tr><td class='id'>2</td><td class='word'>b</td></tr>{}/api/words?cursor=2&limit=2{}",
            LOADER_HEAD, LOADER_TAIL
        )
    );
    assert_eq!(api_words(&table, Some(2), Some(2)), "<tr><td class='id'>3</td><td class='word'>c</td></tr>");
    assert_eq!(
        api_words(&table, None, None),
        format!(
            "<tr><td class='id'>1</td><td class='word'>a</td></tr>{}/api/words?cursor=1&limit=1{}",
            LOADER_HEAD, LOADER_TAIL
        )
    );
    assert_eq!(
        api_words(&table, Some(2), Some(-7)),
        format!(
            "<tr><td class='id'>3</td><td class='word'>c</td></tr>{}/api/words?cursor=3&limit=1{}",
            LOADER_HEAD, LOADER_TAIL
        )
    );
    assert_eq!(api_words(&WordTable::new(), None, Some(5000)), "");
}

#[test]
fn the_index_document_fetches_the_first_page() {
    let html = index_html();
    assert_eq!(html, INDEX_DOCUMENT);
    assert!(html.starts_with("<!doctype html>"));
    assert!(html.ends_with("</html>"));
    assert!(html.contains(
        "<tbody id=\"rows\" hx-get=\"/api/words\" hx-trigger=\"load\" hx-swap=\"innerHTML\"></tbody>"
    ));
}
