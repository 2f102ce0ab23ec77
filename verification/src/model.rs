//! Mathematical model of the scan.
//!
//! The function [`spec_scan`] maps an input sequence of characters and a
//! start position to the sequence of `(value, kind)` pairs that scanning
//! from that position produces. The executable scanner in [`crate::lexer`]
//! is proved to emit exactly these pairs.

use vstd::prelude::*;

verus! {

/// Whether a character has the Unicode `Alphabetic` property, as
/// `char::is_alphabetic` reports it. Within ASCII the property is exactly
/// the letters; beyond ASCII it is left as the named, unspecified
/// [`char_is_alphabetic_nonascii`].
pub open spec fn char_is_alphabetic(c: char) -> bool {
    if (c as u32) < 128 {
        ('a' <= c && c <= 'z') || ('A' <= c && c <= 'Z')
    } else {
        char_is_alphabetic_nonascii(c)
    }
}

/// The `Alphabetic` property of a character beyond ASCII. It depends on the
/// character alone; nothing more is assumed of it.
pub uninterp spec fn char_is_alphabetic_nonascii(c: char) -> bool;

/// Relies on `char::is_alphabetic`: whether a character has the Unicode
/// `Alphabetic` property. The property depends on the character alone;
/// within ASCII it holds exactly of the letters `a`-`z` and `A`-`Z`.
pub assume_specification[ char::is_alphabetic ](c: char) -> (r: bool)
    ensures
        r == char_is_alphabetic(c),
        (c as u32) >= 128 ==> r == char_is_alphabetic_nonascii(c),
;

/// A decimal digit.
pub open spec fn is_digit_char(c: char) -> bool {
    '0' <= c && c <= '9'
}

/// A character that may stand in a word: alphabetic or an underscore.
pub open spec fn is_word_char(c: char) -> bool {
    char_is_alphabetic(c) || c == '_'
}

/// A character that may stand in a number run: a digit, a minus sign or a
/// period. The run is deliberately permissive: minus signs and periods are
/// accepted anywhere in it.
pub open spec fn is_num_char(c: char) -> bool {
    is_digit_char(c) || c == '-' || c == '.'
}

/// A statement separator: a newline or a semicolon.
pub open spec fn is_separator_char(c: char) -> bool {
    c == '\n' || c == ';'
}

/// A single-character symbol from the fixed symbol alphabet `*+&^|`.
pub open spec fn is_symbol_char(c: char) -> bool {
    c == '*' || c == '+' || c == '&' || c == '^' || c == '|'
}

/// The two characters of an arrow lexeme: `<-` or `->`.
pub open spec fn is_arrow_pair(a: char, b: char) -> bool {
    (a == '<' && b == '-') || (a == '-' && b == '>')
}

/// The fixed keyword set.
pub open spec fn spec_keywords() -> Seq<Seq<char>> {
    seq!["var"@, "val"@, "out"@, "in"@, "use"@]
}

/// The fixed type-name set.
pub open spec fn spec_types() -> Seq<Seq<char>> {
    seq!["any"@, "int"@, "bit"@, "str"@, "ray"@, "map"@]
}

/// The fixed arrow lexemes.
pub open spec fn spec_arrows() -> Seq<Seq<char>> {
    seq!["<-"@, "->"@]
}

/// The kind assigned to a scanned word: `keyword` or `type` if the word is
/// a member of the corresponding fixed set, `name` otherwise.
pub open spec fn spec_classify(w: Seq<char>) -> Seq<char> {
    if spec_keywords().contains(w) {
        "keyword"@
    } else if spec_types().contains(w) {
        "type"@
    } else {
        "name"@
    }
}

/// The position just past the maximal run of word characters starting at `i`.
pub open spec fn word_end(s: Seq<char>, i: int) -> int
    recommends
        0 <= i <= s.len(),
    decreases s.len() - i,
{
    if i < s.len() && is_word_char(s[i]) {
        word_end(s, i + 1)
    } else {
        i
    }
}

/// The position just past the maximal run of number characters starting at `i`.
pub open spec fn num_end(s: Seq<char>, i: int) -> int
    recommends
        0 <= i <= s.len(),
    decreases s.len() - i,
{
    if i < s.len() && is_num_char(s[i]) {
        num_end(s, i + 1)
    } else {
        i
    }
}

/// The position of the first double quote at or after `i`, or the length of
/// the input if none follows.
pub open spec fn str_end(s: Seq<char>, i: int) -> int
    recommends
        0 <= i <= s.len(),
    decreases s.len() - i,
{
    if i < s.len() && s[i] != '"' {
        str_end(s, i + 1)
    } else {
        i
    }
}

/// The value of a number token scanned from the raw run `raw`: the run
/// itself, with a trailing `F` marker appended when the run contains a
/// period.
pub open spec fn num_value(raw: Seq<char>) -> Seq<char> {
    if raw.contains('.') {
        raw.push('F')
    } else {
        raw
    }
}

/// The kind of a number token scanned from the raw run `raw`: `num` when
/// the run contains a period, `int` otherwise.
pub open spec fn num_kind(raw: Seq<char>) -> Seq<char> {
    if raw.contains('.') {
        "num"@
    } else {
        "int"@
    }
}

/// The empty separator token.
pub open spec fn separator_token() -> (Seq<char>, Seq<char>) {
    (Seq::<char>::empty(), Seq::<char>::empty())
}

/// The separator tokens emitted for the character `c`: one empty token when
/// `c` is a newline or semicolon, none otherwise.
pub open spec fn separator_part(c: char) -> Seq<(Seq<char>, Seq<char>)> {
    if is_separator_char(c) {
        seq![separator_token()]
    } else {
        Seq::<(Seq<char>, Seq<char>)>::empty()
    }
}

/// All positions in `[i, word_end)` hold word characters, the end position
/// stays within the input, and the run stops either at the end of the input
/// or at the first non-word character.
pub proof fn lemma_word_end(s: Seq<char>, i: int)
    requires
        0 <= i <= s.len(),
    ensures
        i <= word_end(s, i) <= s.len(),
        forall|k: int| i <= k < word_end(s, i) ==> is_word_char(s[k]),
        word_end(s, i) < s.len() ==> !is_word_char(s[word_end(s, i)]),
    decreases s.len() - i,
{
    if i < s.len() && is_word_char(s[i]) {
        lemma_word_end(s, i + 1);
    }
}

/// All positions in `[i, num_end)` hold number characters, the end position
/// stays within the input, and the run stops either at the end of the input
/// or at the first non-number character.
pub proof fn lemma_num_end(s: Seq<char>, i: int)
    requires
        0 <= i <= s.len(),
    ensures
        i <= num_end(s, i) <= s.len(),
        forall|k: int| i <= k < num_end(s, i) ==> is_num_char(s[k]),
        num_end(s, i) < s.len() ==> !is_num_char(s[num_end(s, i)]),
    decreases s.len() - i,
{
    if i < s.len() && is_num_char(s[i]) {
        lemma_num_end(s, i + 1);
    }
}

/// All positions in `[i, str_end)` hold characters other than the double
/// quote, the end position stays within the input, and the run stops either
/// at the end of the input or at a double quote.
pub proof fn lemma_str_end(s: Seq<char>, i: int)
    requires
        0 <= i <= s.len(),
    ensures
        i <= str_end(s, i) <= s.len(),
        forall|k: int| i <= k < str_end(s, i) ==> s[k] != '"',
        str_end(s, i) < s.len() ==> s[str_end(s, i)] == '"',
    decreases s.len() - i,
{
    if i < s.len() && s[i] != '"' {
        lemma_str_end(s, i + 1);
    }
}

/// A two-character candidate is a member of the fixed arrow set exactly
/// when its characters form `<-` or `->`.
pub proof fn lemma_arrow_membership(a: char, b: char)
    ensures
        spec_arrows().contains(seq![a, b]) <==> is_arrow_pair(a, b),
{
    reveal_strlit("<-");
    reveal_strlit("->");
    if is_arrow_pair(a, b) {
        if a == '<' {
            assert(seq![a, b] =~= "<-"@);
        } else {
            assert(seq![a, b] =~= "->"@);
        }
    }
    if spec_arrows().contains(seq![a, b]) {
        let k = choose|k: int|
            0 <= k < spec_arrows().len() && #[trigger] spec_arrows()[k] == seq![a, b];
        assert(a == seq![a, b][0] && b == seq![a, b][1]);
    }
}

/// A character occurs in the fixed symbol string `*+&^|` exactly when it
/// is one of its five symbols.
pub proof fn lemma_symbol_membership(c: char)
    ensures
        "*+&^|"@.contains(c) <==> is_symbol_char(c),
{
    reveal_strlit("*+&^|");
    if is_symbol_char(c) {
        if c == '*' {
            assert("*+&^|"@[0] == c);
        } else if c == '+' {
            assert("*+&^|"@[1] == c);
        } else if c == '&' {
            assert("*+&^|"@[2] == c);
        } else if c == '^' {
            assert("*+&^|"@[3] == c);
        } else {
            assert("*+&^|"@[4] == c);
        }
    }
    if "*+&^|"@.contains(c) {
        let k = choose|k: int| 0 <= k < "*+&^|"@.len() && #[trigger] "*+&^|"@[k] == c;
        assert(0 <= k < 5);
    }
}

/// The token stream produced by scanning `s` from position `i` onward.
///
/// Each step first emits an empty separator token when the current
/// character is a newline or semicolon, and then, in this priority order:
/// scans a word and classifies it; recognizes a two-character arrow when a
/// next character exists; scans a permissive number run; scans a quoted
/// string up to the closing quote or the end of the input; emits a
/// single-character symbol token; or skips the character.
pub open spec fn spec_scan(s: Seq<char>, i: int) -> Seq<(Seq<char>, Seq<char>)>
    recommends
        0 <= i,
    decreases s.len() - i,
{
    if i < 0 || i >= s.len() {
        Seq::<(Seq<char>, Seq<char>)>::empty()
    } else {
        let c = s[i];
        let sep = separator_part(c);
        if char_is_alphabetic(c) {
            let j = word_end(s, i);
            let w = s.subrange(i, j);
            proof {
                lemma_word_end(s, i);
            }
            sep + seq![(w, spec_classify(w))] + spec_scan(s, j)
        } else if (c == '<' || c == '-') && i + 1 < s.len() && is_arrow_pair(c, s[i + 1]) {
            sep + seq![(s.subrange(i, i + 2), "arrow"@)] + spec_scan(s, i + 2)
        } else if is_digit_char(c) || c == '-' {
            let j = num_end(s, i);
            let raw = s.subrange(i, j);
            proof {
                lemma_num_end(s, i);
            }
            sep + seq![(num_value(raw), num_kind(raw))] + spec_scan(s, j)
        } else if c == '"' {
            let j = str_end(s, i + 1);
            // The closing quote, when present, is consumed by the generic
            // advance; at the end of the input the scan simply stops.
            let after = if j < s.len() {
                j + 1
            } else {
                j
            };
            proof {
                lemma_str_end(s, i + 1);
            }
            sep + seq![(s.subrange(i + 1, j), "str"@)] + spec_scan(s, after)
        } else if is_symbol_char(c) {
            sep + seq![(seq![c], "flat"@)] + spec_scan(s, i + 1)
        } else {
            sep + spec_scan(s, i + 1)
        }
    }
}

/// The full token stream of the input `s`: the scan started at its first
/// character.
pub open spec fn spec_tokens(s: Seq<char>) -> Seq<(Seq<char>, Seq<char>)> {
    spec_scan(s, 0)
}

} // verus!
