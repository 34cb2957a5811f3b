//! Characters, whitespace and the splitting of a text into words.

use vstd::prelude::*;
use vstd::std_specs::iter::IteratorSpec;

verus! {

/// Whether `c` is one of the code points that Unicode marks as white space.
pub open spec fn is_space(c: char) -> bool {
    let u = c as u32;
    ||| 0x09 <= u <= 0x0D
    ||| u == 0x20
    ||| u == 0x85
    ||| u == 0xA0
    ||| u == 0x1680
    ||| 0x2000 <= u <= 0x200A
    ||| u == 0x2028
    ||| u == 0x2029
    ||| u == 0x202F
    ||| u == 0x205F
    ||| u == 0x3000
}

/// Whether no character of `s` is white space.
pub open spec fn space_free(s: Seq<char>) -> bool {
    forall|i: int| 0 <= i < s.len() ==> !is_space(#[trigger] s[i])
}

/// Whether every character of `s` is white space.
pub open spec fn all_space(s: Seq<char>) -> bool {
    forall|i: int| 0 <= i < s.len() ==> is_space(#[trigger] s[i])
}

/// The words of `s`: its maximal runs of characters that are not white space,
/// in the order in which they stand in `s`.
///
/// Read from the left: a white-space character changes nothing, any other
/// character extends the word that the text before it ended in, or starts a
/// new word where that text ended in white space (or is empty).
pub open spec fn words_of(s: Seq<char>) -> Seq<Seq<char>>
    decreases s.len(),
{
    if s.len() == 0 {
        Seq::empty()
    } else {
        let before = words_of(s.drop_last());
        if is_space(s.last()) {
            before
        } else if ends_in_word(s.drop_last()) && before.len() > 0 {
            before.drop_last().push(before.last().push(s.last()))
        } else {
            before.push(seq![s.last()])
        }
    }
}

/// Whether `s` ends with a character that is not white space.
pub open spec fn ends_in_word(s: Seq<char>) -> bool {
    s.len() > 0 && !is_space(s.last())
}

/// The words `ws` written out with one blank between neighbours.
pub open spec fn join_with_blank(ws: Seq<Seq<char>>) -> Seq<char>
    decreases ws.len(),
{
    if ws.len() == 0 {
        Seq::empty()
    } else if ws.len() == 1 {
        ws[0]
    } else {
        join_with_blank(ws.drop_last()) + seq![' '] + ws.last()
    }
}

/// Whether each member of `ws` could be a word: not empty, no white space.
pub open spec fn all_words(ws: Seq<Seq<char>>) -> bool {
    forall|i: int| 0 <= i < ws.len() ==> (#[trigger] ws[i]).len() > 0 && space_free(ws[i])
}

/// Every word of a text is non-empty and free of white space, and a text
/// that ends in a word has at least one.
pub proof fn lemma_words_well_formed(s: Seq<char>)
    ensures
        all_words(words_of(s)),
        ends_in_word(s) ==> words_of(s).len() > 0 && words_of(s).last().last() == s.last(),
    decreases s.len(),
{
    if s.len() > 0 {
        lemma_words_well_formed(s.drop_last());
    }
}

/// A text of white space alone has no words, and only such a text has none.
pub proof fn lemma_no_words_iff_blank(s: Seq<char>)
    ensures
        words_of(s).len() == 0 <==> all_space(s),
    decreases s.len(),
{
    if s.len() > 0 {
        let init = s.drop_last();
        lemma_no_words_iff_blank(init);
        if all_space(s) {
            assert forall|i: int| 0 <= i < init.len() implies is_space(#[trigger] init[i]) by {
                assert(init[i] == s[i]);
            }
            assert(is_space(s[s.len() - 1]));
        }
        if words_of(s).len() == 0 {
            assert forall|i: int| 0 <= i < s.len() implies is_space(#[trigger] s[i]) by {
                if i < s.len() - 1 {
                    assert(s[i] == init[i]);
                }
            }
        }
    }
}

/// Splitting distributes over a cut that does not fall inside a word: where
/// `a` ends in white space or `b` begins with it (or one of them is empty),
/// the words of `a + b` are those of `a` followed by those of `b`.
pub proof fn lemma_words_of_concat(a: Seq<char>, b: Seq<char>)
    requires
        a.len() == 0 || b.len() == 0 || is_space(a.last()) || is_space(b[0]),
    ensures
        words_of(a + b) == words_of(a) + words_of(b),
    decreases b.len(),
{
    if b.len() == 0 {
        assert(a + b == a);
        assert(words_of(a) + words_of(b) == words_of(a));
    } else {
        let bi = b.drop_last();
        let c = b.last();
        assert((a + b).drop_last() == a + bi);
        assert((a + b).last() == c);
        if bi.len() > 0 {
            assert(bi[0] == b[0]);
        }
        lemma_words_of_concat(a, bi);
        lemma_words_well_formed(bi);
        let wa = words_of(a);
        let wb = words_of(bi);
        if is_space(c) {
        } else if bi.len() == 0 {
            assert(a + bi == a);
            assert(wa.push(seq![c]) == wa + seq![seq![c]]);
            assert(wb.push(seq![c]) == seq![seq![c]]);
        } else {
            assert((a + bi).last() == bi.last());
            if ends_in_word(bi) {
                assert((wa + wb).drop_last() == wa + wb.drop_last());
                assert((wa + wb).last() == wb.last());
                assert((wa + wb.drop_last()).push(wb.last().push(c)) == wa + wb.drop_last().push(
                    wb.last().push(c),
                ));
            } else {
                assert((wa + wb).push(seq![c]) == wa + wb.push(seq![c]));
            }
        }
    }
}

/// A non-empty text without white space is its own single word.
pub proof fn lemma_single_word(w: Seq<char>)
    requires
        w.len() > 0,
        space_free(w),
    ensures
        words_of(w) == seq![w],
    decreases w.len(),
{
    let init = w.drop_last();
    assert(!is_space(w[w.len() - 1]));
    if init.len() == 0 {
        assert(seq![w.last()] == w);
        assert(words_of(init).push(w) == seq![w]);
    } else {
        assert forall|i: int| 0 <= i < init.len() implies !is_space(#[trigger] init[i]) by {
            assert(init[i] == w[i]);
        }
        lemma_single_word(init);
        assert(!is_space(init[init.len() - 1]));
        assert(init.push(w.last()) == w);
        assert(seq![init].drop_last().push(w) == seq![w]);
    }
}

/// Words written out with single blanks split back into the same words.
pub proof fn lemma_split_of_join(ws: Seq<Seq<char>>)
    requires
        all_words(ws),
    ensures
        words_of(join_with_blank(ws)) == ws,
    decreases ws.len(),
{
    if ws.len() == 0 {
    } else if ws.len() == 1 {
        lemma_single_word(ws[0]);
        assert(seq![ws[0]] == ws);
    } else {
        let init = ws.drop_last();
        let head = join_with_blank(init);
        assert(all_words(init)) by {
            assert forall|i: int| 0 <= i < init.len() implies (#[trigger] init[i]).len() > 0
                && space_free(init[i]) by {
                assert(init[i] == ws[i]);
            }
        }
        lemma_split_of_join(init);
        lemma_single_word(ws.last());
        let a = head + seq![' '];
        assert(a.last() == ' ');
        assert(a.drop_last() == head);
        assert(is_space(' '));
        assert(words_of(a) == init);
        lemma_words_of_concat(a, ws.last());
        assert(init + seq![ws.last()] == ws);
    }
}

/// Splitting is idempotent: the words of a text, written out with single
/// blanks and split again, are the same words in the same order.
pub proof fn lemma_split_idempotent(s: Seq<char>)
    ensures
        words_of(join_with_blank(words_of(s))) == words_of(s),
{
    lemma_words_well_formed(s);
    lemma_split_of_join(words_of(s));
}

/// Tells white space from other characters.
pub fn is_whitespace(c: char) -> (r: bool)
    ensures
        r == is_space(c),
{
    let u: u32 = c as u32;
    (0x09 <= u && u <= 0x0D) || u == 0x20 || u == 0x85 || u == 0xA0 || u == 0x1680 || (0x2000 <= u
        && u <= 0x200A) || u == 0x2028 || u == 0x2029 || u == 0x202F || u == 0x205F || u == 0x3000
}

/// Whether `text` is empty or white space from end to end, so that nothing
/// is left of it when the white space at its ends is taken off.
pub fn is_blank(text: &str) -> (r: bool)
    ensures
        r == all_space(text@),
{
    let mut it = text.chars();
    let ghost mut seen: int = 0;
    loop
        invariant
            0 <= seen <= text@.len(),
            it.remaining() == text@.skip(seen),
            all_space(text@.take(seen)),
        ensures
            seen == text@.len(),
        decreases text@.len() - seen,
    {
        match it.next() {
            None => {
                assert(text@.skip(seen).len() == 0);
                break ;
            },
            Some(c) => {
                assert(c == text@[seen]);
                if !is_whitespace(c) {
                    return false;
                }
                proof {
                    assert forall|i: int| 0 <= i < seen + 1 implies is_space(
                        #[trigger] text@.take(seen + 1)[i],
                    ) by {
                        if i < seen {
                            assert(text@.take(seen)[i] == text@[i]);
                        }
                    }
                    seen = seen + 1;
                }
            },
        }
    }
    assert(text@.take(seen) == text@);
    true
}

/// `String::push`: the character is appended and nothing else changes.
#[verifier::external_body]
pub(crate) fn push_char(s: &mut String, c: char)
    ensures
        final(s)@ == old(s)@.push(c),
{
    s.push(c)
}

/// Splits `text` at white space into its words, in order.
pub fn split_words(text: &str) -> (words: Vec<String>)
    ensures
        words.deep_view() == words_of(text@),
        all_words(words.deep_view()),
        words@.len() == 0 <==> all_space(text@),
{
    let mut words: Vec<String> = Vec::new();
    let mut cur = String::new();
    let mut it = text.chars();
    let ghost mut seen: int = 0;
    loop
        invariant
            0 <= seen <= text@.len(),
            it.remaining() == text@.skip(seen),
            space_free(cur@),
            cur@.len() > 0 <==> ends_in_word(text@.take(seen)),
            words_of(text@.take(seen)) == if cur@.len() > 0 {
                words.deep_view().push(cur@)
            } else {
                words.deep_view()
            },
        ensures
            seen == text@.len(),
        decreases text@.len() - seen,
    {
        let ghost before = words_of(text@.take(seen));
        let ghost old_words = words.deep_view();
        let ghost old_cur = cur@;
        match it.next() {
            None => {
                assert(text@.skip(seen).len() == 0);
                break ;
            },
            Some(c) => {
                let ghost upto = text@.take(seen + 1);
                assert(upto.last() == c);
                assert(upto.drop_last() == text@.take(seen));
                if is_whitespace(c) {
                    if !cur.as_str().is_empty() {
                        words.push(cur);
                        cur = String::new();
                        assert(words.deep_view() == old_words.push(old_cur));
                    }
                } else {
                    push_char(&mut cur, c);
                    proof {
                        if old_cur.len() > 0 {
                            assert(before.drop_last() == old_words);
                            assert(before.last() == old_cur);
                        } else {
                            assert(cur@ == seq![c]);
                        }
                    }
                }
                proof {
                    seen = seen + 1;
                }
            },
        }
    }
    assert(text@.take(seen) == text@);
    proof {
        lemma_words_well_formed(text@);
        lemma_no_words_iff_blank(text@);
    }
    if !cur.as_str().is_empty() {
        let ghost finished = words.deep_view();
        let ghost last = cur@;
        words.push(cur);
        assert(words.deep_view() == finished.push(last));
    }
    words
}

} // verus!
