//! Properties that hold of every scan.
//!
//! Each proof function below states a law of the token stream over the
//! model in [`crate::model`]; the contract of [`crate::lexer::Lexer::parse`]
//! ties the executable scanner to that model, so the laws carry over to it.

use crate::model::char_is_alphabetic;
use crate::model::is_separator_char;
use crate::model::is_word_char;
use crate::model::lemma_arrow_membership;
use crate::model::lemma_word_end;
use crate::model::separator_token;
use crate::model::spec_arrows;
use crate::model::spec_classify;
use crate::model::spec_keywords;
use crate::model::spec_scan;
use crate::model::spec_tokens;
use crate::model::spec_types;
use crate::model::str_end;
use crate::model::word_end;
use vstd::prelude::*;

verus! {

/// A run of word characters reaching to the end of the input ends the word
/// scan exactly there.
proof fn lemma_word_end_full(s: Seq<char>, i: int)
    requires
        0 <= i <= s.len(),
        forall|k: int| i <= k < s.len() ==> is_word_char(s[k]),
    ensures
        word_end(s, i) == s.len(),
    decreases s.len() - i,
{
    if i < s.len() {
        lemma_word_end_full(s, i + 1);
    }
}

/// Scanning is deterministic: the token stream is a function of the input
/// characters alone, so any two token sequences obtained by scanning the
/// same input from fresh scanners are identical.
pub proof fn lemma_scan_deterministic(
    s: Seq<char>,
    first: Seq<(Seq<char>, Seq<char>)>,
    second: Seq<(Seq<char>, Seq<char>)>,
)
    requires
        first == spec_tokens(s),
        second == spec_tokens(s),
    ensures
        first == second,
{
}

/// An input consisting of one alphabetic run yields exactly one token:
/// the run itself, under its classification.
pub proof fn lemma_word_alone(w: Seq<char>)
    requires
        w.len() > 0,
        forall|k: int| 0 <= k < w.len() ==> char_is_alphabetic(w[k]),
    ensures
        spec_tokens(w) == seq![(w, spec_classify(w))],
{
    lemma_word_end_full(w, 0);
    lemma_word_end(w, 0);
    assert(w.subrange(0, w.len() as int) =~= w);
    assert(spec_scan(w, w.len() as int) == Seq::<(Seq<char>, Seq<char>)>::empty());
    assert(spec_tokens(w) =~= seq![(w, spec_classify(w))]);
}

/// Every keyword of the fixed set, scanned alone, yields exactly one token
/// whose value is the keyword and whose kind is `keyword`.
pub proof fn lemma_keyword_alone(w: Seq<char>)
    requires
        spec_keywords().contains(w),
    ensures
        spec_tokens(w) == seq![(w, "keyword"@)],
{
    reveal_strlit("var");
    reveal_strlit("val");
    reveal_strlit("out");
    reveal_strlit("in");
    reveal_strlit("use");
    let k = choose|k: int| 0 <= k < spec_keywords().len() && #[trigger] spec_keywords()[k] == w;
    assert(0 <= k < 5);
    assert(w.len() > 0);
    assert(forall|j: int| 0 <= j < w.len() ==> char_is_alphabetic(#[trigger] w[j]));
    lemma_word_alone(w);
}

/// Every type name of the fixed set, scanned alone, yields exactly one
/// token whose value is the type name and whose kind is `type`.
pub proof fn lemma_type_alone(w: Seq<char>)
    requires
        spec_types().contains(w),
    ensures
        spec_tokens(w) == seq![(w, "type"@)],
{
    reveal_strlit("any");
    reveal_strlit("int");
    reveal_strlit("bit");
    reveal_strlit("str");
    reveal_strlit("ray");
    reveal_strlit("map");
    let k = choose|k: int| 0 <= k < spec_types().len() && #[trigger] spec_types()[k] == w;
    assert(0 <= k < 6);
    assert(w.len() > 0);
    assert(forall|j: int| 0 <= j < w.len() ==> char_is_alphabetic(#[trigger] w[j]));
    if spec_keywords().contains(w) {
        reveal_strlit("var");
        reveal_strlit("val");
        reveal_strlit("out");
        reveal_strlit("in");
        reveal_strlit("use");
        let m = choose|m: int|
            0 <= m < spec_keywords().len() && #[trigger] spec_keywords()[m] == w;
        assert(0 <= m < 5);
        assert(w == "var"@ || w == "val"@ || w == "out"@ || w == "in"@ || w == "use"@);
        assert(w == "any"@ || w == "int"@ || w == "bit"@ || w == "str"@ || w == "ray"@
            || w == "map"@);
        // The only first character the two sets share is `i`; the words
        // that start with it differ in length.
        assert(w[0] == 'v' || w[0] == 'o' || w[0] == 'i' || w[0] == 'u');
        assert(w[0] == 'a' || w[0] == 'i' || w[0] == 'b' || w[0] == 's' || w[0] == 'r' || w[0]
            == 'm');
        assert(w == "in"@ && w == "int"@);
        assert(w.len() == 2 && w.len() == 3);
        assert(false);
    }
    lemma_word_alone(w);
}

/// An alphabetic run that is neither a keyword nor a type name, scanned
/// alone, yields exactly one token of kind `name`.
pub proof fn lemma_name_alone(w: Seq<char>)
    requires
        w.len() > 0,
        forall|k: int| 0 <= k < w.len() ==> char_is_alphabetic(w[k]),
        !spec_keywords().contains(w),
        !spec_types().contains(w),
    ensures
        spec_tokens(w) == seq![(w, "name"@)],
{
    lemma_word_alone(w);
}

/// Every arrow lexeme of the fixed set, scanned alone, yields exactly one
/// token whose value is the lexeme and whose kind is `arrow`.
pub proof fn lemma_arrow_alone(a: Seq<char>)
    requires
        spec_arrows().contains(a),
    ensures
        spec_tokens(a) == seq![(a, "arrow"@)],
{
    reveal_strlit("<-");
    reveal_strlit("->");
    let k = choose|k: int| 0 <= k < spec_arrows().len() && #[trigger] spec_arrows()[k] == a;
    assert(0 <= k < 2);
    assert(a.len() == 2);
    lemma_arrow_membership(a[0], a[1]);
    assert(seq![a[0], a[1]] =~= a);
    assert(a.subrange(0, 2) =~= a);
    assert(spec_scan(a, 2) == Seq::<(Seq<char>, Seq<char>)>::empty());
    assert(spec_tokens(a) =~= seq![(a, "arrow"@)]);
}

/// A run free of double quotes ends the string scan exactly at the first
/// double quote after it, or at the end of the input.
proof fn lemma_str_end_at(s: Seq<char>, i: int, j: int)
    requires
        0 <= i <= j <= s.len(),
        forall|k: int| i <= k < j ==> s[k] != '"',
        j == s.len() || s[j] == '"',
    ensures
        str_end(s, i) == j,
    decreases j - i,
{
    if i < j {
        lemma_str_end_at(s, i + 1, j);
    }
}

/// A quoted string, scanned alone, yields exactly one token of kind `str`
/// holding the characters between the quotes.
pub proof fn lemma_quoted_string_alone(body: Seq<char>)
    requires
        !body.contains('"'),
    ensures
        spec_tokens(seq!['"'] + body + seq!['"']) == seq![(body, "str"@)],
{
    let s = seq!['"'] + body + seq!['"'];
    let close = body.len() + 1;
    assert(forall|k: int| 1 <= k < close ==> s[k] != '"') by {
        assert(forall|k: int| 1 <= k < close ==> s[k] == body[k - 1]);
    }
    lemma_str_end_at(s, 1, close as int);
    assert(s.subrange(1, close as int) =~= body);
    assert(spec_scan(s, s.len() as int) == Seq::<(Seq<char>, Seq<char>)>::empty());
    assert(spec_tokens(s) =~= seq![(body, "str"@)]);
}

/// An unterminated string is not an error: an opening quote with no
/// closing quote before the end of the input yields exactly one token of
/// kind `str` holding everything after the quote.
pub proof fn lemma_unterminated_string_alone(body: Seq<char>)
    requires
        !body.contains('"'),
    ensures
        spec_tokens(seq!['"'] + body) == seq![(body, "str"@)],
{
    let s = seq!['"'] + body;
    assert(forall|k: int| 1 <= k < s.len() ==> s[k] != '"') by {
        assert(forall|k: int| 1 <= k < s.len() ==> s[k] == body[k - 1]);
    }
    lemma_str_end_at(s, 1, s.len() as int);
    assert(s.subrange(1, s.len() as int) =~= body);
    assert(spec_scan(s, s.len() as int) == Seq::<(Seq<char>, Seq<char>)>::empty());
    assert(spec_tokens(s) =~= seq![(body, "str"@)]);
}

/// A newline or semicolon yields an empty separator token and nothing
/// else: the scan resumes directly past it.
pub proof fn lemma_separator_alone(s: Seq<char>, i: int)
    requires
        0 <= i < s.len(),
        is_separator_char(s[i]),
    ensures
        spec_scan(s, i) == seq![separator_token()] + spec_scan(s, i + 1),
{
    assert(spec_scan(s, i) =~= seq![separator_token()] + spec_scan(s, i + 1));
}

} // verus!
