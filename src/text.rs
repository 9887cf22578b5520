//! Whitespace normalisation of cell text.

use crate::strings::{join_with, joined, push_char, texts};
use vstd::prelude::*;

verus! {

/// Whether `char::is_whitespace` holds of `c` (Unicode's White_Space).
pub uninterp spec fn white(c: char) -> bool;

/// Relies on `char::is_whitespace`, which depends on the character alone.
#[verifier::external_body]
fn is_white(c: char) -> (r: bool)
    ensures
        r == white(c),
{
    c.is_whitespace()
}

/// The words of `t`: its maximal runs of non-whitespace characters, in order.
pub open spec fn words(t: Seq<char>) -> Seq<Seq<char>>
    decreases t.len(),
{
    if t.len() == 0 {
        Seq::empty()
    } else if white(t.last()) {
        words(t.drop_last())
    } else if t.len() >= 2 && !white(t[t.len() - 2]) {
        let w = words(t.drop_last());
        w.drop_last().push(w.last().push(t.last()))
    } else {
        words(t.drop_last()).push(seq![t.last()])
    }
}

/// `t` with leading and trailing whitespace removed and each inner run of
/// whitespace replaced by one space.
pub open spec fn collapsed(t: Seq<char>) -> Seq<char> {
    joined(words(t), seq![' '])
}

/// Every whitespace character of `r` is a single space with a
/// non-whitespace character on each side.
pub open spec fn single_spaced(r: Seq<char>) -> bool {
    forall|i: int|
        0 <= i < r.len() && white(#[trigger] r[i]) ==> r[i] == ' ' && 0 < i < r.len() - 1
            && !white(r[i - 1]) && !white(r[i + 1])
}

/// Normalises whitespace: the words of `t` joined by single spaces.
pub fn collapse_whitespace(t: &str) -> (r: String)
    ensures
        r@ == collapsed(t@),
{
    let n = t.unicode_len();
    let mut done: Vec<String> = Vec::new();
    let mut cur = String::new();
    let mut in_word = false;
    let mut i: usize = 0;
    while i < n
        invariant
            n == t@.len(),
            i <= n,
            in_word == (i > 0 && !white(t@[i - 1])),
            in_word == (cur@.len() > 0),
            words(t@.take(i as int)) == if in_word {
                texts(done@).push(cur@)
            } else {
                texts(done@)
            },
        decreases n - i,
    {
        let c = t.get_char(i);
        let ghost prev = t@.take(i as int);
        assert(t@.take(i + 1).drop_last() =~= prev);
        assert(t@.take(i + 1).last() == c);
        if is_white(c) {
            if in_word {
                done.push(cur);
                cur = String::new();
                in_word = false;
                assert(texts(done@) =~= words(prev));
            }
        } else {
            push_char(&mut cur, c);
            if in_word {
                assert(words(t@.take(i + 1)) =~= texts(done@).push(cur@));
            } else {
                assert(cur@ =~= seq![c]);
            }
            in_word = true;
        }
        i = i + 1;
    }
    if in_word {
        done.push(cur);
    }
    assert(t@.take(n as int) =~= t@);
    assert(texts(done@) =~= words(t@));
    let r = join_with(&done, " ");
    proof {
        reveal_strlit(" ");
        assert(" "@ =~= seq![' ']);
    }
    r
}

/// Each word is non-empty and holds no whitespace.
proof fn lemma_words_solid(t: Seq<char>)
    ensures
        forall|k: int| 0 <= k < words(t).len() ==> #[trigger] words(t)[k].len() > 0,
        forall|k: int, j: int|
            0 <= k < words(t).len() && 0 <= j < words(t)[k].len() ==> !white(
                #[trigger] words(t)[k][j],
            ),
    decreases t.len(),
{
    if t.len() > 0 {
        lemma_words_solid(t.drop_last());
        if !white(t.last()) && t.len() >= 2 && !white(t[t.len() - 2]) {
            lemma_last_word_exists(t.drop_last());
        }
    }
}

/// A text that ends in a non-whitespace character has a word.
proof fn lemma_last_word_exists(t: Seq<char>)
    requires
        t.len() > 0,
        !white(t.last()),
    ensures
        words(t).len() > 0,
    decreases t.len(),
{
    if t.len() >= 2 && !white(t[t.len() - 2]) {
        lemma_last_word_exists(t.drop_last());
    }
}

/// Joining solid words by single spaces is single spaced, and empty only
/// when there are no words.
proof fn lemma_join_single_spaced(items: Seq<Seq<char>>)
    requires
        forall|k: int| 0 <= k < items.len() ==> #[trigger] items[k].len() > 0,
        forall|k: int, j: int|
            0 <= k < items.len() && 0 <= j < items[k].len() ==> !white(#[trigger] items[k][j]),
    ensures
        single_spaced(joined(items, seq![' '])),
        items.len() > 0 ==> joined(items, seq![' ']).len() > 0,
        items.len() > 0 ==> !white(joined(items, seq![' ']).last()),
        items.len() > 0 ==> !white(joined(items, seq![' '])[0]),
    decreases items.len(),
{
    if items.len() == 1 {
        assert(items[0][0] == items[0][0]);
        assert(items[0].last() == items[0][items[0].len() - 1]);
    } else if items.len() > 1 {
        let front = items.drop_last();
        let last = items.last();
        lemma_join_single_spaced(front);
        let p = joined(front, seq![' ']);
        let r = joined(items, seq![' ']);
        assert(r == p + seq![' '] + last);
        assert(last[0] == items[items.len() - 1][0]);
        assert(last.last() == items[items.len() - 1][last.len() - 1]);
        assert forall|i: int|
            0 <= i < r.len() && white(#[trigger] r[i]) implies r[i] == ' ' && 0 < i < r.len() - 1
            && !white(r[i - 1]) && !white(r[i + 1]) by {
            if i < p.len() {
                assert(r[i] == p[i]);
                if i == p.len() - 1 {
                    assert(p[i] == p.last());
                } else {
                    assert(r[i - 1] == p[i - 1]);
                    assert(r[i + 1] == p[i + 1]);
                }
            } else if i == p.len() {
                assert(r[i - 1] == p.last());
                assert(r[i + 1] == last[0]);
            } else {
                assert(r[i] == last[i - p.len() - 1]);
                assert(items[items.len() - 1][i - p.len() - 1] == r[i]);
            }
        }
        assert(r[0] == p[0]);
        assert(r.last() == last.last());
    }
}

/// Normalised text never starts or ends with whitespace, and each run of
/// whitespace inside it is one space between two words.
pub proof fn lemma_collapsed_single_spaced(t: Seq<char>)
    ensures
        single_spaced(collapsed(t)),
{
    lemma_words_solid(t);
    lemma_join_single_spaced(words(t));
}

} // verus!
