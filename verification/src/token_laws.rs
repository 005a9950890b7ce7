use vstd::prelude::*;

use crate::chars::{alphanumeric, documented_class, whitespace};
use crate::token::{
    close_keyword, delimiter, ends_with_whitespace, flush, keyword, scan, scan_char, spec_tokenize,
    word_char, ScanState, SpecToken,
};

verus! {

/// No two whitespace tokens follow each other.
pub open spec fn no_adjacent_whitespace(ts: Seq<SpecToken>) -> bool {
    forall|i: int| 0 <= i < ts.len() - 1 ==> !(#[trigger] ts[i] is Whitespace && ts[i + 1] is Whitespace)
}

/// Every word token is non-empty and made of word characters.
pub open spec fn words_well_formed(ts: Seq<SpecToken>) -> bool {
    forall|i: int|
        0 <= i < ts.len() && #[trigger] ts[i] is Word ==> {
            &&& ts[i]->Word_0.len() > 0
            &&& forall|j: int| 0 <= j < ts[i]->Word_0.len() ==> word_char(#[trigger] ts[i]->Word_0[j])
        }
}

/// How many tokens of `ts` are `t`.
pub open spec fn count_token(ts: Seq<SpecToken>, t: SpecToken) -> nat
    decreases ts.len(),
{
    if ts.len() == 0 {
        0
    } else {
        count_token(ts.drop_last(), t) + if ts.last() == t {
            1nat
        } else {
            0nat
        }
    }
}

/// How many characters of `s` are `c`.
pub open spec fn count_char(s: Seq<char>, c: char) -> nat
    decreases s.len(),
{
    if s.len() == 0 {
        0
    } else {
        (if s[0] == c {
            1nat
        } else {
            0nat
        }) + count_char(s.drop_first(), c)
    }
}

proof fn lemma_count_push(ts: Seq<SpecToken>, x: SpecToken, t: SpecToken)
    ensures
        count_token(ts.push(x), t) == count_token(ts, t) + if x == t {
            1nat
        } else {
            0nat
        },
{
    assert(ts.push(x).drop_last() =~= ts);
}

proof fn lemma_count_flush(ts: Seq<SpecToken>, w: Seq<char>, t: SpecToken)
    requires
        !(t is Word),
    ensures
        count_token(flush(ts, w), t) == count_token(ts, t),
{
    if w.len() > 0 {
        lemma_count_push(ts, SpecToken::Word(w), t);
    }
}

proof fn lemma_scan_char_no_adjacent_whitespace(s: ScanState, c: char)
    requires
        no_adjacent_whitespace(s.tokens),
    ensures
        no_adjacent_whitespace(scan_char(s, c).tokens),
{
    let k = close_keyword(s, c);
    assert(no_adjacent_whitespace(k.tokens));
    assert forall|w: Seq<char>, x: SpecToken|
        no_adjacent_whitespace(k.tokens) && !(x is Whitespace) implies
        #[trigger] no_adjacent_whitespace(flush(k.tokens, w).push(x)) && no_adjacent_whitespace(
            flush(k.tokens, w),
        ) by {
        let f = flush(k.tokens, w);
        assert(no_adjacent_whitespace(f));
        assert forall|i: int| 0 <= i < f.push(x).len() - 1 implies !(#[trigger] f.push(x)[i] is Whitespace
            && f.push(x)[i + 1] is Whitespace) by {
            if i < f.len() - 1 {
                assert(f.push(x)[i] == f[i]);
                assert(f.push(x)[i + 1] == f[i + 1]);
            }
        }
    }
    if whitespace(c) && delimiter(c) is None && c != '>' {
        let f = flush(k.tokens, k.word);
        if !ends_with_whitespace(k.tokens) {
            assert(!ends_with_whitespace(f));
            assert forall|i: int| 0 <= i < f.push(SpecToken::Whitespace).len() - 1 implies !(
            #[trigger] f.push(SpecToken::Whitespace)[i] is Whitespace && f.push(
                SpecToken::Whitespace,
            )[i + 1] is Whitespace) by {
                if i < f.len() - 1 {
                    assert(f.push(SpecToken::Whitespace)[i] == f[i]);
                }
            }
        }
    }
    if c == '>' && k.word.len() > 0 && k.word.last() != '-' {
        let f = k.tokens.push(SpecToken::Word(k.word));
        assert(no_adjacent_whitespace(flush(k.tokens, k.word).push(SpecToken::GenericClose)));
        assert(flush(k.tokens, k.word) == f);
    }
}

proof fn lemma_scan_no_adjacent_whitespace(s: ScanState, input: Seq<char>)
    requires
        no_adjacent_whitespace(s.tokens),
    ensures
        no_adjacent_whitespace(scan(s, input).tokens),
    decreases input.len(),
{
    if input.len() > 0 {
        lemma_scan_char_no_adjacent_whitespace(s, input[0]);
        lemma_scan_no_adjacent_whitespace(scan_char(s, input[0]), input.drop_first());
    }
}

/// The tokenizer never emits two whitespace tokens in a row: a run of
/// whitespace characters gives at most one whitespace token.
pub proof fn law_no_adjacent_whitespace(input: Seq<char>)
    ensures
        no_adjacent_whitespace(spec_tokenize(input)),
{
    lemma_scan_no_adjacent_whitespace(ScanState { tokens: seq![], word: seq![] }, input);
}

/// The state invariant behind the word law: the emitted words are well
/// formed and the word being collected holds only word characters.
spec fn words_inv(s: ScanState) -> bool {
    &&& words_well_formed(s.tokens)
    &&& forall|j: int| 0 <= j < s.word.len() ==> word_char(#[trigger] s.word[j])
}

proof fn lemma_push_well_formed(ts: Seq<SpecToken>, x: SpecToken)
    requires
        words_well_formed(ts),
        x is Word ==> x->Word_0.len() > 0 && forall|j: int|
            0 <= j < x->Word_0.len() ==> word_char(#[trigger] x->Word_0[j]),
    ensures
        words_well_formed(ts.push(x)),
{
    assert forall|i: int| 0 <= i < ts.push(x).len() && #[trigger] ts.push(x)[i] is Word implies {
        &&& ts.push(x)[i]->Word_0.len() > 0
        &&& forall|j: int|
            0 <= j < ts.push(x)[i]->Word_0.len() ==> word_char(#[trigger] ts.push(x)[i]->Word_0[j])
    } by {
        if i < ts.len() {
            assert(ts.push(x)[i] == ts[i]);
        }
    }
}

proof fn lemma_flush_well_formed(ts: Seq<SpecToken>, w: Seq<char>)
    requires
        words_well_formed(ts),
        forall|j: int| 0 <= j < w.len() ==> word_char(#[trigger] w[j]),
    ensures
        words_well_formed(flush(ts, w)),
{
    if w.len() > 0 {
        lemma_push_well_formed(ts, SpecToken::Word(w));
    }
}

proof fn lemma_scan_char_words(s: ScanState, c: char)
    requires
        words_inv(s),
    ensures
        words_inv(scan_char(s, c)),
{
    let k = close_keyword(s, c);
    if k != s {
        lemma_push_well_formed(s.tokens, keyword(s.word)->0);
    }
    assert(words_inv(k));
    lemma_flush_well_formed(k.tokens, k.word);
    let f = flush(k.tokens, k.word);
    if delimiter(c) is Some {
        lemma_push_well_formed(f, delimiter(c)->0);
    } else if c == '>' {
        if k.word.len() > 0 {
            if k.word.last() == '-' {
                let d = k.word.drop_last();
                assert forall|j: int| 0 <= j < d.len() implies word_char(#[trigger] d[j]) by {
                    assert(d[j] == k.word[j]);
                }
                lemma_flush_well_formed(k.tokens, d);
                lemma_push_well_formed(flush(k.tokens, d), SpecToken::Arrow);
            } else {
                lemma_push_well_formed(k.tokens, SpecToken::Word(k.word));
                lemma_push_well_formed(k.tokens.push(SpecToken::Word(k.word)), SpecToken::GenericClose);
            }
        }
    } else {
        if whitespace(c) && !ends_with_whitespace(k.tokens) {
            lemma_push_well_formed(f, SpecToken::Whitespace);
        }
        let t = scan_char(s, c);
        assert forall|j: int| 0 <= j < t.word.len() implies word_char(#[trigger] t.word[j]) by {
            if j < t.word.len() - 1 || !word_char(c) {
            }
        }
    }
}

proof fn lemma_scan_words(s: ScanState, input: Seq<char>)
    requires
        words_inv(s),
    ensures
        words_inv(scan(s, input)),
    decreases input.len(),
{
    if input.len() > 0 {
        lemma_scan_char_words(s, input[0]);
        lemma_scan_words(scan_char(s, input[0]), input.drop_first());
    }
}

/// Every word token the tokenizer emits is non-empty and consists of
/// alphanumeric characters, `-` and `_`.
pub proof fn law_words_well_formed(input: Seq<char>)
    ensures
        words_well_formed(spec_tokenize(input)),
{
    lemma_scan_words(ScanState { tokens: seq![], word: seq![] }, input);
}

proof fn lemma_scan_char_count(s: ScanState, x: char, c: char)
    requires
        delimiter(c) is Some,
    ensures
        count_token(scan_char(s, x).tokens, delimiter(c)->0) == count_token(s.tokens, delimiter(c)->0)
            + if x == c {
            1nat
        } else {
            0nat
        },
{
    let d = delimiter(c)->0;
    let k = close_keyword(s, x);
    if k != s {
        lemma_count_push(s.tokens, keyword(s.word)->0, d);
    }
    assert(count_token(k.tokens, d) == count_token(s.tokens, d));
    lemma_count_flush(k.tokens, k.word, d);
    let f = flush(k.tokens, k.word);
    if delimiter(x) is Some {
        lemma_count_push(f, delimiter(x)->0, d);
    } else if x == '>' {
        if k.word.len() > 0 {
            if k.word.last() == '-' {
                lemma_count_flush(k.tokens, k.word.drop_last(), d);
                lemma_count_push(flush(k.tokens, k.word.drop_last()), SpecToken::Arrow, d);
            } else {
                lemma_count_push(k.tokens, SpecToken::Word(k.word), d);
                lemma_count_push(
                    k.tokens.push(SpecToken::Word(k.word)),
                    SpecToken::GenericClose,
                    d,
                );
            }
        }
    } else {
        if whitespace(x) && !ends_with_whitespace(k.tokens) {
            lemma_count_push(f, SpecToken::Whitespace, d);
        }
    }
}

proof fn lemma_scan_count(s: ScanState, input: Seq<char>, c: char)
    requires
        delimiter(c) is Some,
    ensures
        count_token(scan(s, input).tokens, delimiter(c)->0) == count_token(s.tokens, delimiter(c)->0)
            + count_char(input, c),
    decreases input.len(),
{
    if input.len() > 0 {
        lemma_scan_char_count(s, input[0], c);
        lemma_scan_count(scan_char(s, input[0]), input.drop_first(), c);
    }
}

/// Each of the delimiters `( = / . : ) { } ; , <` gives exactly one token of
/// its kind: the tokens of that kind are as many as the delimiter's
/// occurrences in the input.
pub proof fn law_delimiter_count(input: Seq<char>, c: char)
    requires
        delimiter(c) is Some,
    ensures
        count_token(spec_tokenize(input), delimiter(c)->0) == count_char(input, c),
{
    lemma_scan_count(ScanState { tokens: seq![], word: seq![] }, input, c);
}

/// Whether `t` is the token of one of the single-character delimiters
/// `( = / . : ) { } ; , <`.
pub open spec fn is_delimiter_token(t: SpecToken) -> bool {
    ||| t is ParenOpen
    ||| t is EqSign
    ||| t is Slash
    ||| t is Dot
    ||| t is Colon
    ||| t is ParenClose
    ||| t is CurlyOpen
    ||| t is CurlyClose
    ||| t is Semicolon
    ||| t is Comma
    ||| t is GenericOpen
}

/// The delimiter tokens of `ts`, in order.
pub open spec fn delimiter_tokens(ts: Seq<SpecToken>) -> Seq<SpecToken>
    decreases ts.len(),
{
    if ts.len() == 0 {
        seq![]
    } else if is_delimiter_token(ts.last()) {
        delimiter_tokens(ts.drop_last()).push(ts.last())
    } else {
        delimiter_tokens(ts.drop_last())
    }
}

/// The tokens of the delimiter characters of `s`, in order.
pub open spec fn delimiters_of(s: Seq<char>) -> Seq<SpecToken>
    decreases s.len(),
{
    if s.len() == 0 {
        seq![]
    } else if delimiter(s[0]) is Some {
        seq![delimiter(s[0])->0] + delimiters_of(s.drop_first())
    } else {
        delimiters_of(s.drop_first())
    }
}

proof fn lemma_delimiter_tokens_push(ts: Seq<SpecToken>, x: SpecToken)
    ensures
        delimiter_tokens(ts.push(x)) == if is_delimiter_token(x) {
            delimiter_tokens(ts).push(x)
        } else {
            delimiter_tokens(ts)
        },
{
    assert(ts.push(x).drop_last() =~= ts);
}

proof fn lemma_delimiter_tokens_flush(ts: Seq<SpecToken>, w: Seq<char>)
    ensures
        delimiter_tokens(flush(ts, w)) == delimiter_tokens(ts),
{
    if w.len() > 0 {
        lemma_delimiter_tokens_push(ts, SpecToken::Word(w));
    }
}

/// The delimiter token that one character adds, as a sequence.
spec fn delimiter_seq(c: char) -> Seq<SpecToken> {
    if delimiter(c) is Some {
        seq![delimiter(c)->0]
    } else {
        seq![]
    }
}

proof fn lemma_scan_char_delimiters(s: ScanState, c: char)
    ensures
        delimiter_tokens(scan_char(s, c).tokens) == delimiter_tokens(s.tokens) + delimiter_seq(c),
{
    let k = close_keyword(s, c);
    if k != s {
        lemma_delimiter_tokens_push(s.tokens, keyword(s.word)->0);
    }
    assert(delimiter_tokens(k.tokens) == delimiter_tokens(s.tokens));
    lemma_delimiter_tokens_flush(k.tokens, k.word);
    let f = flush(k.tokens, k.word);
    if delimiter(c) is Some {
        lemma_delimiter_tokens_push(f, delimiter(c)->0);
        assert(delimiter_tokens(scan_char(s, c).tokens) =~= delimiter_tokens(s.tokens) + delimiter_seq(c));
    } else if c == '>' {
        if k.word.len() > 0 {
            if k.word.last() == '-' {
                lemma_delimiter_tokens_flush(k.tokens, k.word.drop_last());
                lemma_delimiter_tokens_push(flush(k.tokens, k.word.drop_last()), SpecToken::Arrow);
            } else {
                lemma_delimiter_tokens_push(k.tokens, SpecToken::Word(k.word));
                lemma_delimiter_tokens_push(
                    k.tokens.push(SpecToken::Word(k.word)),
                    SpecToken::GenericClose,
                );
            }
        }
        assert(delimiter_tokens(scan_char(s, c).tokens) =~= delimiter_tokens(s.tokens) + delimiter_seq(c));
    } else {
        if whitespace(c) && !ends_with_whitespace(k.tokens) {
            lemma_delimiter_tokens_push(f, SpecToken::Whitespace);
        }
        assert(delimiter_tokens(scan_char(s, c).tokens) =~= delimiter_tokens(s.tokens) + delimiter_seq(c));
    }
}

proof fn lemma_scan_delimiters(s: ScanState, input: Seq<char>)
    ensures
        delimiter_tokens(scan(s, input).tokens) == delimiter_tokens(s.tokens) + delimiters_of(input),
    decreases input.len(),
{
    if input.len() == 0 {
        assert(delimiter_tokens(s.tokens) + delimiters_of(input) =~= delimiter_tokens(s.tokens));
    } else {
        let c = input[0];
        lemma_scan_char_delimiters(s, c);
        lemma_scan_delimiters(scan_char(s, c), input.drop_first());
        assert(delimiters_of(input) =~= delimiter_seq(c) + delimiters_of(input.drop_first()));
        assert(delimiter_tokens(s.tokens) + delimiter_seq(c) + delimiters_of(input.drop_first())
            =~= delimiter_tokens(s.tokens) + delimiters_of(input));
    }
}

/// The delimiters `( = / . : ) { } ; , <` of the input give their tokens in
/// the same order: the delimiter tokens of the output are exactly the
/// tokens of the input's delimiter characters, one for each, in order.
pub proof fn law_delimiters_in_order(input: Seq<char>)
    ensures
        delimiter_tokens(spec_tokenize(input)) == delimiters_of(input),
{
    let init = ScanState { tokens: seq![], word: seq![] };
    lemma_scan_delimiters(init, input);
    assert(delimiter_tokens(init.tokens) =~= seq![]);
    assert(seq![] + delimiters_of(input) =~= delimiters_of(input));
}

/// How many arrow and `>` tokens `ts` holds.
pub open spec fn count_closing(ts: Seq<SpecToken>) -> nat {
    count_token(ts, SpecToken::Arrow) + count_token(ts, SpecToken::GenericClose)
}

proof fn lemma_count_closing_push(ts: Seq<SpecToken>, x: SpecToken)
    ensures
        count_closing(ts.push(x)) == count_closing(ts) + if x is Arrow || x is GenericClose {
            1nat
        } else {
            0nat
        },
{
    lemma_count_push(ts, x, SpecToken::Arrow);
    lemma_count_push(ts, x, SpecToken::GenericClose);
}

proof fn lemma_count_closing_flush(ts: Seq<SpecToken>, w: Seq<char>)
    ensures
        count_closing(flush(ts, w)) == count_closing(ts),
{
    lemma_count_flush(ts, w, SpecToken::Arrow);
    lemma_count_flush(ts, w, SpecToken::GenericClose);
}

proof fn lemma_scan_char_closing(s: ScanState, c: char)
    ensures
        count_closing(scan_char(s, c).tokens) <= count_closing(s.tokens) + if c == '>' {
            1nat
        } else {
            0nat
        },
{
    let k = close_keyword(s, c);
    if k != s {
        lemma_count_closing_push(s.tokens, keyword(s.word)->0);
    }
    lemma_count_closing_flush(k.tokens, k.word);
    let f = flush(k.tokens, k.word);
    if delimiter(c) is Some {
        lemma_count_closing_push(f, delimiter(c)->0);
    } else if c == '>' {
        if k.word.len() > 0 {
            if k.word.last() == '-' {
                lemma_count_closing_flush(k.tokens, k.word.drop_last());
                lemma_count_closing_push(flush(k.tokens, k.word.drop_last()), SpecToken::Arrow);
            } else {
                lemma_count_closing_push(k.tokens, SpecToken::Word(k.word));
                lemma_count_closing_push(
                    k.tokens.push(SpecToken::Word(k.word)),
                    SpecToken::GenericClose,
                );
            }
        }
    } else {
        if whitespace(c) && !ends_with_whitespace(k.tokens) {
            lemma_count_closing_push(f, SpecToken::Whitespace);
        }
    }
}

proof fn lemma_scan_closing(s: ScanState, input: Seq<char>)
    ensures
        count_closing(scan(s, input).tokens) <= count_closing(s.tokens) + count_char(input, '>'),
    decreases input.len(),
{
    if input.len() > 0 {
        lemma_scan_char_closing(s, input[0]);
        lemma_scan_closing(scan_char(s, input[0]), input.drop_first());
    }
}

/// Each `>` of the input gives at most one token, an arrow or a `>` token,
/// and no other character gives either: there are no more arrow and `>`
/// tokens together than `>` characters.
pub proof fn law_closing_tokens_bounded(input: Seq<char>)
    ensures
        count_closing(spec_tokenize(input)) <= count_char(input, '>'),
{
    lemma_scan_closing(ScanState { tokens: seq![], word: seq![] }, input);
}

/// No word token spells a keyword (`class`, `message`, `async`, `enum`).
pub open spec fn words_not_keywords(ts: Seq<SpecToken>) -> bool {
    forall|i: int| 0 <= i < ts.len() && #[trigger] ts[i] is Word ==> keyword(ts[i]->Word_0) is None
}

/// The state invariant behind the keyword law: the emitted words are no
/// keywords, and a collected word that ends in a non-alphanumeric character
/// does not spell a keyword before it.
spec fn keyword_inv(s: ScanState) -> bool {
    &&& words_not_keywords(s.tokens)
    &&& s.word.len() > 0 && !alphanumeric(s.word.last()) ==> keyword(s.word.drop_last()) is None
    &&& s.word.len() > 0 ==> documented_class(s.word.last())
}

proof fn lemma_push_not_keyword(ts: Seq<SpecToken>, x: SpecToken)
    requires
        words_not_keywords(ts),
        x is Word ==> keyword(x->Word_0) is None,
    ensures
        words_not_keywords(ts.push(x)),
{
    assert forall|i: int| 0 <= i < ts.push(x).len() && #[trigger] ts.push(x)[i] is Word implies keyword(
        ts.push(x)[i]->Word_0,
    ) is None by {
        if i < ts.len() {
            assert(ts.push(x)[i] == ts[i]);
        }
    }
}

proof fn lemma_flush_not_keyword(ts: Seq<SpecToken>, w: Seq<char>)
    requires
        words_not_keywords(ts),
        keyword(w) is None,
    ensures
        words_not_keywords(flush(ts, w)),
{
    if w.len() > 0 {
        lemma_push_not_keyword(ts, SpecToken::Word(w));
    }
}

proof fn lemma_keyword_empty()
    ensures
        keyword(Seq::<char>::empty()) is None,
{
    let e = Seq::<char>::empty();
    assert(seq!['c', 'l', 'a', 's', 's'].len() == 5 && e != seq!['c', 'l', 'a', 's', 's']);
    assert(seq!['m', 'e', 's', 's', 'a', 'g', 'e'].len() == 7 && e != seq![
        'm',
        'e',
        's',
        's',
        'a',
        'g',
        'e',
    ]);
    assert(seq!['a', 's', 'y', 'n', 'c'].len() == 5 && e != seq!['a', 's', 'y', 'n', 'c']);
    assert(seq!['e', 'n', 'u', 'm'].len() == 4 && e != seq!['e', 'n', 'u', 'm']);
}

proof fn lemma_scan_char_keyword_inv(s: ScanState, c: char)
    requires
        keyword_inv(s),
        documented_class(c),
    ensures
        keyword_inv(scan_char(s, c)),
{
    let k = close_keyword(s, c);
    lemma_keyword_empty();
    if k != s {
        lemma_push_not_keyword(s.tokens, keyword(s.word)->0);
        assert(k.word =~= Seq::<char>::empty());
    }
    assert(keyword_inv(k));
    assert(!alphanumeric(c) ==> keyword(k.word) is None);
    if delimiter(c) is Some {
        assert(!alphanumeric(c));
        lemma_flush_not_keyword(k.tokens, k.word);
        lemma_push_not_keyword(flush(k.tokens, k.word), delimiter(c)->0);
    } else if c == '>' {
        assert(!alphanumeric(c));
        if k.word.len() > 0 {
            if k.word.last() == '-' {
                assert(!alphanumeric(k.word.last()));
                let d = k.word.drop_last();
                assert(keyword(d) is None);
                lemma_flush_not_keyword(k.tokens, d);
                lemma_push_not_keyword(flush(k.tokens, d), SpecToken::Arrow);
            } else {
                lemma_push_not_keyword(k.tokens, SpecToken::Word(k.word));
                lemma_push_not_keyword(k.tokens.push(SpecToken::Word(k.word)), SpecToken::GenericClose);
            }
        }
    } else {
        let f = flush(k.tokens, k.word);
        if whitespace(c) {
            lemma_flush_not_keyword(k.tokens, k.word);
            if !ends_with_whitespace(k.tokens) {
                lemma_push_not_keyword(f, SpecToken::Whitespace);
            }
        } else if word_char(c) {
            let w = k.word.push(c);
            assert(w.drop_last() =~= k.word);
        }
    }
}

proof fn lemma_scan_keyword_inv(s: ScanState, input: Seq<char>)
    requires
        keyword_inv(s),
        forall|i: int| 0 <= i < input.len() ==> documented_class(#[trigger] input[i]),
    ensures
        keyword_inv(scan(s, input)),
    decreases input.len(),
{
    if input.len() > 0 {
        lemma_scan_char_keyword_inv(s, input[0]);
        let rest = input.drop_first();
        assert forall|i: int| 0 <= i < rest.len() implies documented_class(#[trigger] rest[i]) by {
            assert(rest[i] == input[i + 1]);
        }
        lemma_scan_keyword_inv(scan_char(s, input[0]), rest);
    }
}

/// No word token spells a keyword: a keyword is always closed by the
/// non-alphanumeric character that ends it. It holds for every input on whose
/// characters `char::is_alphanumeric` answers as std documents, which
/// [`crate::token::tokenize`] states of every input it reads.
pub proof fn law_words_not_keywords(input: Seq<char>)
    requires
        forall|i: int| 0 <= i < input.len() ==> documented_class(#[trigger] input[i]),
    ensures
        words_not_keywords(spec_tokenize(input)),
{
    lemma_scan_keyword_inv(ScanState { tokens: seq![], word: seq![] }, input);
}

} // verus!
