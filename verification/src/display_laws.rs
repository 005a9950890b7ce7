use vstd::prelude::*;

use crate::chars::{alphanumeric, documented_class, whitespace};
use crate::token::{
    close_keyword, delimiter, keyword, scan, scan_char, spec_display, spec_tokenize, ScanState,
    SpecToken,
};

verus! {

/// The tokens whose text, followed by a space, reads back as the token
/// itself and one whitespace token: every token but `>` and whitespace, and
/// a word only when it is non-empty, is no keyword, and its characters are
/// alphanumeric.
pub open spec fn reads_back(t: SpecToken) -> bool {
    &&& !(t is GenericClose)
    &&& !(t is Whitespace)
    &&& t is Word ==> {
        let w = t->Word_0;
        &&& w.len() > 0
        &&& keyword(w) is None
        &&& forall|j: int| 0 <= j < w.len() ==> alphanumeric(#[trigger] w[j])
    }
}

proof fn lemma_scan_append(s: ScanState, a: Seq<char>, b: Seq<char>)
    ensures
        scan(s, a + b) == scan(scan(s, a), b),
    decreases a.len(),
{
    if a.len() == 0 {
        assert(a + b =~= b);
    } else {
        assert((a + b)[0] == a[0]);
        assert((a + b).drop_first() =~= a.drop_first() + b);
        lemma_scan_append(scan_char(s, a[0]), a.drop_first(), b);
    }
}

proof fn lemma_scan_single(s: ScanState, c: char)
    ensures
        scan(s, seq![c]) == scan_char(s, c),
{
    assert(seq![c].drop_first() =~= Seq::<char>::empty());
    assert(scan(scan_char(s, c), Seq::<char>::empty()) == scan_char(s, c));
}

/// Characters that only ever extend the word being collected.
spec fn plain_word_char(c: char) -> bool {
    &&& alphanumeric(c)
    &&& !whitespace(c)
    &&& delimiter(c) is None
    &&& c != '>'
}

proof fn lemma_scan_word_run(s: ScanState, w: Seq<char>)
    requires
        forall|j: int| 0 <= j < w.len() ==> plain_word_char(#[trigger] w[j]),
    ensures
        scan(s, w) == (ScanState { tokens: s.tokens, word: s.word + w }),
    decreases w.len(),
{
    if w.len() == 0 {
        assert(s.word + w =~= s.word);
    } else {
        let c = w[0];
        assert(plain_word_char(w[0]));
        let n = scan_char(s, c);
        assert(close_keyword(s, c) == s);
        assert(n == ScanState { tokens: s.tokens, word: s.word.push(c) });
        let rest = w.drop_first();
        assert forall|j: int| 0 <= j < rest.len() implies plain_word_char(#[trigger] rest[j]) by {
            assert(rest[j] == w[j + 1]);
        }
        lemma_scan_word_run(n, rest);
        assert(s.word.push(c) + rest =~= s.word + w);
    }
}

/// What a space does after a run of word characters that spells `w`.
proof fn lemma_space_after(w: Seq<char>)
    requires
        whitespace(' '),
        !alphanumeric(' '),
    ensures
        scan_char(ScanState { tokens: seq![], word: w }, ' ').tokens == (if keyword(w) is Some {
            seq![keyword(w)->0, SpecToken::Whitespace]
        } else if w.len() > 0 {
            seq![SpecToken::Word(w), SpecToken::Whitespace]
        } else {
            seq![SpecToken::Whitespace]
        }),
{
    let s = ScanState { tokens: seq![], word: w };
    let k = close_keyword(s, ' ');
    if keyword(w) is Some {
        assert(k.tokens =~= seq![keyword(w)->0]);
        assert(k.word =~= Seq::<char>::empty());
    }
    assert(scan_char(s, ' ').tokens =~= (if keyword(w) is Some {
        seq![keyword(w)->0, SpecToken::Whitespace]
    } else if w.len() > 0 {
        seq![SpecToken::Word(w), SpecToken::Whitespace]
    } else {
        seq![SpecToken::Whitespace]
    }));
}

proof fn lemma_keyword_reads_back(d: Seq<char>, t: SpecToken)
    requires
        forall|j: int| 0 <= j < d.len() ==> documented_class(#[trigger] d[j]),
        forall|j: int| 0 <= j < d.len() ==> 'a' <= #[trigger] d[j] <= 'z',
        keyword(d) == Some(t),
        whitespace(' '),
        !alphanumeric(' '),
    ensures
        spec_tokenize(d + " "@) == seq![t, SpecToken::Whitespace],
{
    let init = ScanState { tokens: seq![], word: seq![] };
    assert forall|j: int| 0 <= j < d.len() implies plain_word_char(#[trigger] d[j]) by {
        assert(documented_class(d[j]));
    }
    lemma_scan_word_run(init, d);
    assert(init.word + d =~= d);
    lemma_scan_append(init, d, " "@);
    reveal_strlit(" ");
    assert(" "@ =~= seq![' ']);
    lemma_scan_single(ScanState { tokens: seq![], word: d }, ' ');
    lemma_space_after(d);
}

/// What the text of a one-character delimiter and a space read back as.
proof fn lemma_delimiter_reads_back(c: char, t: SpecToken)
    requires
        delimiter(c) == Some(t),
        whitespace(' '),
        !alphanumeric(' '),
    ensures
        spec_tokenize(seq![c] + " "@) == seq![t, SpecToken::Whitespace],
{
    let init = ScanState { tokens: seq![], word: seq![] };
    reveal_strlit(" ");
    assert(seq![c] + " "@ =~= seq![c, ' ']);
    assert(seq![c, ' '].drop_first() =~= seq![' ']);
    let s1 = scan_char(init, c);
    assert(keyword(init.word) is None);
    assert(s1.tokens =~= seq![t]);
    assert(s1.word =~= Seq::<char>::empty());
    lemma_scan_single(s1, ' ');
    assert(scan_char(s1, ' ').tokens =~= seq![t, SpecToken::Whitespace]);
}

/// `tokenize` reads back what `Token::to_string` writes: the text of a token
/// (other than `>` and whitespace, and a word only when it is no keyword and
/// its characters are alphanumeric), followed by a space, gives that token
/// and one whitespace token. It holds whenever `char::is_alphanumeric`
/// answers on the characters of the text as std documents, which
/// [`crate::token::tokenize`] states of every text it reads.
pub proof fn law_display_reads_back(t: SpecToken)
    requires
        reads_back(t),
        forall|j: int|
            0 <= j < (spec_display(t) + " "@).len() ==> documented_class(
                #[trigger] (spec_display(t) + " "@)[j],
            ),
    ensures
        spec_tokenize(spec_display(t) + " "@) == seq![t, SpecToken::Whitespace],
{
    let d = spec_display(t);
    let text = d + " "@;
    reveal_strlit(" ");
    assert(text[d.len() as int] == ' ');
    assert(documented_class(text[d.len() as int]));
    assert(whitespace(' ') && !alphanumeric(' '));
    let init = ScanState { tokens: seq![], word: seq![] };
    assert forall|j: int| 0 <= j < d.len() implies documented_class(#[trigger] d[j]) by {
        assert(text[j] == d[j]);
    }
    match t {
        SpecToken::Word(w) => {
            assert forall|j: int| 0 <= j < w.len() implies plain_word_char(#[trigger] w[j]) by {
                assert(documented_class(d[j]));
            }
            lemma_scan_word_run(init, w);
            assert(init.word + w =~= w);
            lemma_scan_append(init, w, " "@);
            assert(" "@ =~= seq![' ']);
            lemma_scan_single(ScanState { tokens: seq![], word: w }, ' ');
            lemma_space_after(w);
        },
        SpecToken::Class => {
            reveal_strlit("class");
            assert(d =~= seq!['c', 'l', 'a', 's', 's']);
            lemma_keyword_reads_back(d, t);
        },
        SpecToken::Message => {
            reveal_strlit("message");
            assert(d =~= seq!['m', 'e', 's', 's', 'a', 'g', 'e']);
            lemma_keyword_reads_back(d, t);
        },
        SpecToken::Async => {
            reveal_strlit("async");
            assert(d =~= seq!['a', 's', 'y', 'n', 'c']);
            lemma_keyword_reads_back(d, t);
        },
        SpecToken::Enum => {
            reveal_strlit("enum");
            assert(d =~= seq!['e', 'n', 'u', 'm']);
            lemma_keyword_reads_back(d, t);
        },
        SpecToken::CurlyOpen => {
            reveal_strlit("{");
            assert(d =~= seq!['{']);
            lemma_delimiter_reads_back('{', t);
        },
        SpecToken::CurlyClose => {
            reveal_strlit("}");
            assert(d =~= seq!['}']);
            lemma_delimiter_reads_back('}', t);
        },
        SpecToken::Comma => {
            reveal_strlit(",");
            assert(d =~= seq![',']);
            lemma_delimiter_reads_back(',', t);
        },
        SpecToken::Dot => {
            reveal_strlit(".");
            assert(d =~= seq!['.']);
            lemma_delimiter_reads_back('.', t);
        },
        SpecToken::Slash => {
            reveal_strlit("/");
            assert(d =~= seq!['/']);
            lemma_delimiter_reads_back('/', t);
        },
        SpecToken::ParenOpen => {
            reveal_strlit("(");
            assert(d =~= seq!['(']);
            lemma_delimiter_reads_back('(', t);
        },
        SpecToken::GenericOpen => {
            reveal_strlit("<");
            assert(d =~= seq!['<']);
            lemma_delimiter_reads_back('<', t);
        },
        SpecToken::ParenClose => {
            reveal_strlit(")");
            assert(d =~= seq![')']);
            lemma_delimiter_reads_back(')', t);
        },
        SpecToken::Colon => {
            reveal_strlit(":");
            assert(d =~= seq![':']);
            lemma_delimiter_reads_back(':', t);
        },
        SpecToken::EqSign => {
            reveal_strlit("=");
            assert(d =~= seq!['=']);
            lemma_delimiter_reads_back('=', t);
        },
        SpecToken::Semicolon => {
            reveal_strlit(";\n");
            assert(d =~= seq![';', '\n']);
            assert(documented_class(d[1]));
            let s1 = scan_char(init, ';');
            assert(keyword(init.word) is None);
            assert(s1.tokens =~= seq![SpecToken::Semicolon]);
            assert(s1.word =~= Seq::<char>::empty());
            let s2 = scan_char(s1, '\n');
            assert(s2.tokens =~= seq![SpecToken::Semicolon, SpecToken::Whitespace]);
            assert(s2.word =~= Seq::<char>::empty());
            let s3 = scan_char(s2, ' ');
            assert(s3.tokens =~= seq![SpecToken::Semicolon, SpecToken::Whitespace]);
            assert(text =~= seq![';', '\n', ' ']);
            reveal_with_fuel(scan, 4);
            assert(text.drop_first() =~= seq!['\n', ' ']);
            assert(text.drop_first().drop_first() =~= seq![' ']);
            assert(text.drop_first().drop_first().drop_first() =~= Seq::<char>::empty());
        },
        SpecToken::Arrow => {
            reveal_strlit("->");
            assert(d =~= seq!['-', '>']);
            assert(documented_class(d[0]));
            let s1 = scan_char(init, '-');
            assert(keyword(init.word) is None);
            assert(s1.tokens =~= Seq::<SpecToken>::empty());
            assert(s1.word =~= seq!['-']);
            let s2 = scan_char(s1, '>');
            assert(keyword(s1.word) is None);
            assert(s2.tokens =~= seq![SpecToken::Arrow]);
            assert(s2.word =~= Seq::<char>::empty());
            let s3 = scan_char(s2, ' ');
            assert(s3.tokens =~= seq![SpecToken::Arrow, SpecToken::Whitespace]);
            assert(text =~= seq!['-', '>', ' ']);
            reveal_with_fuel(scan, 4);
            assert(text.drop_first() =~= seq!['>', ' ']);
            assert(text.drop_first().drop_first() =~= seq![' ']);
            assert(text.drop_first().drop_first().drop_first() =~= Seq::<char>::empty());
        },
        SpecToken::GenericClose => {},
        SpecToken::Whitespace => {},
    }
}

/// Any whitespace character (tab, space, line break or another `White_Space`
/// character) ends the word before it and gives one whitespace token: two
/// words of alphanumeric characters that are no keywords, separated by a
/// whitespace character and followed by `;`, read as the first word, one
/// whitespace token, the second word and a semicolon. It holds whenever
/// `char::is_alphanumeric` answers on the characters of the text as std
/// documents, which [`crate::token::tokenize`] states of every text it reads.
pub proof fn law_whitespace_separates_words(x: Seq<char>, c: char, y: Seq<char>)
    requires
        x.len() > 0,
        y.len() > 0,
        keyword(x) is None,
        keyword(y) is None,
        forall|j: int| 0 <= j < x.len() ==> alphanumeric(#[trigger] x[j]),
        forall|j: int| 0 <= j < y.len() ==> alphanumeric(#[trigger] y[j]),
        whitespace(c),
        forall|j: int|
            0 <= j < (x + seq![c] + y + seq![';']).len() ==> documented_class(
                #[trigger] (x + seq![c] + y + seq![';'])[j],
            ),
    ensures
        spec_tokenize(x + seq![c] + y + seq![';']) == seq![
            SpecToken::Word(x),
            SpecToken::Whitespace,
            SpecToken::Word(y),
            SpecToken::Semicolon,
        ],
{
    let text = x + seq![c] + y + seq![';'];
    let init = ScanState { tokens: seq![], word: seq![] };
    assert forall|j: int| 0 <= j < x.len() implies plain_word_char(#[trigger] x[j]) by {
        assert(text[j] == x[j]);
        assert(documented_class(text[j]));
    }
    assert forall|j: int| 0 <= j < y.len() implies plain_word_char(#[trigger] y[j]) by {
        assert(text[x.len() + 1 + j] == y[j]);
        assert(documented_class(text[x.len() + 1 + j]));
    }
    assert(text[x.len() as int] == c);
    assert(documented_class(text[x.len() as int]));
    assert(text[(x.len() + 1 + y.len()) as int] == ';');
    assert(documented_class(text[(x.len() + 1 + y.len()) as int]));
    lemma_scan_word_run(init, x);
    assert(init.word + x =~= x);
    let s1 = ScanState { tokens: seq![], word: x };
    let s2 = scan_char(s1, c);
    assert(close_keyword(s1, c) == s1);
    assert(s2.tokens =~= seq![SpecToken::Word(x), SpecToken::Whitespace]);
    assert(s2.word =~= Seq::<char>::empty());
    lemma_scan_word_run(s2, y);
    assert(s2.word + y =~= y);
    let s3 = ScanState { tokens: s2.tokens, word: y };
    let s4 = scan_char(s3, ';');
    assert(close_keyword(s3, ';') == s3);
    assert(s4.tokens =~= seq![
        SpecToken::Word(x),
        SpecToken::Whitespace,
        SpecToken::Word(y),
        SpecToken::Semicolon,
    ]);
    lemma_scan_append(init, x + seq![c] + y, seq![';']);
    lemma_scan_append(init, x + seq![c], y);
    lemma_scan_append(init, x, seq![c]);
    lemma_scan_single(s1, c);
    lemma_scan_single(s3, ';');
}

} // verus!
