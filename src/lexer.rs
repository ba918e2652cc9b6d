//! Splitting source text into tokens.
use vstd::prelude::*;

verus! {

/// A parenthesis, which always stands as a token of its own.
pub open spec fn is_paren(c: char) -> bool {
    c == '(' || c == ')'
}

/// Unicode's White_Space property, which separates tokens.
pub open spec fn is_space(c: char) -> bool {
    ('\u{9}' <= c && c <= '\u{d}') || c == ' ' || c == '\u{85}' || c == '\u{a0}' || c == '\u{1680}'
        || ('\u{2000}' <= c && c <= '\u{200a}') || c == '\u{2028}' || c == '\u{2029}' || c
        == '\u{202f}' || c == '\u{205f}' || c == '\u{3000}'
}

/// The word being gathered, as a token if it is not empty.
pub open spec fn flush(word: Seq<char>) -> Seq<Seq<char>> {
    if word.len() == 0 {
        Seq::empty()
    } else {
        seq![word]
    }
}

/// The tokens of `rest`, when `word` has been gathered just before it.
pub open spec fn lex(rest: Seq<char>, word: Seq<char>) -> Seq<Seq<char>>
    decreases rest.len(),
{
    if rest.len() == 0 {
        flush(word)
    } else if is_paren(rest[0]) {
        flush(word) + seq![seq![rest[0]]] + lex(rest.drop_first(), Seq::empty())
    } else if is_space(rest[0]) {
        flush(word) + lex(rest.drop_first(), Seq::empty())
    } else {
        lex(rest.drop_first(), word.push(rest[0]))
    }
}

/// The tokens of a text: each parenthesis, and each maximal run of other
/// characters that holds no white space.
pub open spec fn tokens_of(text: Seq<char>) -> Seq<Seq<char>> {
    lex(text, Seq::empty())
}

/// The views of a sequence of strings.
pub open spec fn views(v: Seq<String>) -> Seq<Seq<char>> {
    v.map_values(|t: String| t@)
}

proof fn lemma_views_push(v: Seq<String>, t: String)
    ensures
        views(v.push(t)) == views(v).push(t@),
{
    assert(views(v.push(t)) =~= views(v).push(t@));
}

/// Whether a character is white space, as `char::is_whitespace` decides it.
pub fn is_space_char(c: char) -> (r: bool)
    ensures
        r == is_space(c),
{
    ('\u{9}' <= c && c <= '\u{d}') || c == ' ' || c == '\u{85}' || c == '\u{a0}' || c == '\u{1680}'
        || ('\u{2000}' <= c && c <= '\u{200a}') || c == '\u{2028}' || c == '\u{2029}' || c
        == '\u{202f}' || c == '\u{205f}' || c == '\u{3000}'
}

/// Appends the word `text[start..end]` to `toks` if it is not empty.
fn push_word(toks: &mut Vec<String>, text: &str, start: usize, end: usize)
    requires
        start <= end <= text@.len(),
    ensures
        views(final(toks)@) == views(old(toks)@) + flush(text@.subrange(start as int, end as int)),
{
    let ghost w = text@.subrange(start as int, end as int);
    if start < end {
        let word = text.substring_char(start, end);
        let ghost before = toks@;
        toks.push(String::from_str(word));
        proof {
            lemma_views_push(before, toks@.last());
        }
        assert(views(final(toks)@) =~= views(old(toks)@) + flush(w));
    } else {
        assert(views(final(toks)@) =~= views(old(toks)@) + flush(w));
    }
}

/// Splits text into tokens: a space is put around each parenthesis, and the
/// result is split at runs of white space.
pub fn tokenize(text: &str) -> (r: Vec<String>)
    ensures
        views(r@) == tokens_of(text@),
{
    let n = text.unicode_len();
    let mut toks: Vec<String> = Vec::new();
    let mut start: usize = 0;
    let mut i: usize = 0;
    assert(text@.skip(0) == text@);
    assert(text@.subrange(0, 0) =~= Seq::<char>::empty());
    assert(views(toks@) =~= Seq::<Seq<char>>::empty());
    assert(views(toks@) + lex(text@, text@.subrange(0, 0)) =~= tokens_of(text@));
    while i < n
        invariant
            n == text@.len(),
            start <= i <= n,
            views(toks@) + lex(text@.skip(i as int), text@.subrange(start as int, i as int))
                == tokens_of(text@),
        decreases n - i,
    {
        let c = text.get_char(i);
        let ghost rest = text@.skip(i as int);
        let ghost word = text@.subrange(start as int, i as int);
        assert(rest[0] == c);
        assert(rest.drop_first() == text@.skip(i + 1));
        if c == '(' || c == ')' {
            let ghost before = views(toks@);
            push_word(&mut toks, text, start, i);
            let paren = text.substring_char(i, i + 1);
            assert(paren@ =~= seq![c]);
            let ghost mid = toks@;
            toks.push(String::from_str(paren));
            proof {
                lemma_views_push(mid, toks@.last());
                assert(views(toks@) =~= before + flush(word) + seq![seq![c]]);
                assert(views(toks@) + lex(rest.drop_first(), Seq::empty()) =~= before + lex(
                    rest,
                    word,
                ));
                assert(text@.subrange(i + 1, i + 1) =~= Seq::<char>::empty());
            }
            start = i + 1;
        } else if is_space_char(c) {
            let ghost before = views(toks@);
            push_word(&mut toks, text, start, i);
            proof {
                assert(views(toks@) + lex(rest.drop_first(), Seq::empty()) =~= before + lex(
                    rest,
                    word,
                ));
                assert(text@.subrange(i + 1, i + 1) =~= Seq::<char>::empty());
            }
            start = i + 1;
        } else {
            assert(word.push(c) == text@.subrange(start as int, i + 1));
        }
        i = i + 1;
    }
    let ghost before = views(toks@);
    push_word(&mut toks, text, start, i);
    assert(text@.skip(i as int) =~= Seq::<char>::empty());
    assert(views(toks@) =~= before + lex(text@.skip(i as int), text@.subrange(start as int, i as int)));
    toks
}

} // verus!
