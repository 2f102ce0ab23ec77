//! The executable scanner.
//!
//! [`Lexer`] owns the input text, a character cursor, and the accumulated
//! token sequence. [`Lexer::parse`] drives the scan to the end of the input;
//! its contract states that the tokens produced are exactly
//! [`crate::model::spec_scan`] of the input.

use crate::model::is_digit_char;
use crate::model::is_num_char;
use crate::model::is_symbol_char;
use crate::model::lemma_arrow_membership;
use crate::model::lemma_num_end;
use crate::model::lemma_str_end;
use crate::model::lemma_symbol_membership;
use crate::model::lemma_word_end;
use crate::model::num_end;
use crate::model::num_kind;
use crate::model::num_value;
use crate::model::separator_part;
use crate::model::spec_arrows;
use crate::model::spec_classify;
use crate::model::spec_keywords;
use crate::model::spec_scan;
use crate::model::spec_types;
use crate::model::str_end;
use crate::model::word_end;
use vstd::prelude::*;

verus! {

/// An error raised when a scanner cannot be constructed.
#[derive(Clone, Copy, Debug, PartialEq, Eq, Structural)]
pub enum ScanError {
    /// The input was empty: a scanner needs at least one character to read.
    InvalidInput,
}

/// A classified lexeme: the recognized substring and its kind tag. For a
/// separator token both fields are empty.
#[derive(Clone, Debug)]
pub struct Token {
    /// The exact substring recognized (with a trailing `F` marker for
    /// decimal number literals; empty for separator tokens).
    pub value: String,
    /// The classification tag: `keyword`, `type`, `name`, `arrow`, `int`,
    /// `num`, `str`, `flat`, or empty for separator tokens.
    pub kind: String,
}

impl View for Token {
    type V = (Seq<char>, Seq<char>);

    open spec fn view(&self) -> (Seq<char>, Seq<char>) {
        (self.value@, self.kind@)
    }
}

impl Token {
    /// Packs a value and a kind tag into a token.
    pub fn new(value: String, kind: String) -> (t: Token)
        ensures
            t@ == (value@, kind@),
    {
        Token { value, kind }
    }
}

/// The `(value, kind)` pairs of a token sequence.
pub open spec fn tokens_view(ts: Seq<Token>) -> Seq<(Seq<char>, Seq<char>)> {
    ts.map_values(|t: Token| t@)
}

/// Whether `w` is a member of `v`, compared character for character.
fn contains_string(v: &Vec<String>, w: &String) -> (r: bool)
    ensures
        r == v@.map_values(|s: String| s@).contains(w@),
{
    let ghost views = v@.map_values(|s: String| s@);
    let mut i: usize = 0;
    while i < v.len()
        invariant
            i <= v@.len(),
            views == v@.map_values(|s: String| s@),
            forall|k: int| 0 <= k < i ==> views[k] != w@,
        decreases v@.len() - i,
    {
        if v[i].eq(w) {
            proof {
                assert(views[i as int] == w@);
            }
            return true;
        }
        i += 1;
    }
    false
}

/// Whether the character `c` occurs in `s`.
fn contains_char(s: &String, c: char) -> (r: bool)
    ensures
        r == s@.contains(c),
{
    let n = s.as_str().unicode_len();
    let mut i: usize = 0;
    while i < n
        invariant
            n == s@.len(),
            i <= n,
            forall|k: int| 0 <= k < i ==> s@[k] != c,
        decreases n - i,
    {
        if s.as_str().get_char(i) == c {
            proof {
                assert(s@[i as int] == c);
            }
            return true;
        }
        i += 1;
    }
    false
}

/// Whether `c` is a decimal digit.
fn is_digit(c: char) -> (r: bool)
    ensures
        r == is_digit_char(c),
{
    '0' <= c && c <= '9'
}

/// The scanner: the input text, a character cursor into it, the character
/// under the cursor, the accumulated tokens, and the fixed reference sets
/// used for classification.
pub struct Lexer {
    /// The full input text, unchanged for the scanner's lifetime.
    pub input: String,
    /// The number of characters in the input.
    pub length: usize,
    /// The cursor: a character index into the input. It only moves forward.
    pub index: usize,
    /// Whether the cursor has passed the last character.
    pub end: bool,
    /// The character under the cursor, or a null sentinel once `end` holds.
    pub ch: char,
    /// The tokens recognized so far, in input order.
    pub tokens: Vec<Token>,
    /// The fixed keyword set.
    pub keywords: Vec<String>,
    /// The fixed type-name set.
    pub types: Vec<String>,
    /// The fixed arrow lexemes.
    pub arrows: Vec<String>,
    /// The fixed single-character symbol alphabet.
    pub symbols: String,
}

impl Lexer {
    /// Well-formedness: the cursor stays within the input, `end` holds
    /// exactly when it has reached the input's length, the character under
    /// the cursor matches the input, and the fixed reference sets hold
    /// their intended members.
    pub open spec fn wf(&self) -> bool {
        &&& self.length == self.input@.len()
        &&& self.index <= self.length
        &&& (self.end <==> self.index == self.length)
        &&& (!self.end ==> self.ch == self.input@[self.index as int])
        &&& (self.end ==> self.ch == '\0')
        &&& self.keywords@.map_values(|s: String| s@) == spec_keywords()
        &&& self.types@.map_values(|s: String| s@) == spec_types()
        &&& self.arrows@.map_values(|s: String| s@) == spec_arrows()
        &&& self.symbols@ == "*+&^|"@
    }

    /// Builds a scanner over `input`, with the cursor on the first
    /// character. Fails exactly when the input is empty, since the initial
    /// read of the current character needs at least one character.
    pub fn new(input: String) -> (res: Result<Lexer, ScanError>)
        ensures
            res is Ok <==> input@.len() > 0,
            res is Err ==> res->Err_0 == ScanError::InvalidInput,
            res is Ok ==> {
                let l = res->Ok_0;
                &&& l.wf()
                &&& l.input@ == input@
                &&& l.index == 0
                &&& !l.end
                &&& l.tokens@.len() == 0
            },
    {
        let length = input.as_str().unicode_len();
        if length == 0 {
            return Err(ScanError::InvalidInput);
        }
        let ch = input.as_str().get_char(0);
        let mut keywords: Vec<String> = Vec::new();
        keywords.push("var".to_owned());
        keywords.push("val".to_owned());
        keywords.push("out".to_owned());
        keywords.push("in".to_owned());
        keywords.push("use".to_owned());
        let mut types: Vec<String> = Vec::new();
        types.push("any".to_owned());
        types.push("int".to_owned());
        types.push("bit".to_owned());
        types.push("str".to_owned());
        types.push("ray".to_owned());
        types.push("map".to_owned());
        let mut arrows: Vec<String> = Vec::new();
        arrows.push("<-".to_owned());
        arrows.push("->".to_owned());
        proof {
            assert(keywords@.map_values(|s: String| s@) =~= spec_keywords());
            assert(types@.map_values(|s: String| s@) =~= spec_types());
            assert(arrows@.map_values(|s: String| s@) =~= spec_arrows());
        }
        Ok(Lexer {
            input,
            length,
            index: 0,
            end: false,
            ch,
            tokens: Vec::new(),
            keywords,
            types,
            arrows,
            symbols: "*+&^|".to_owned(),
        })
    }

    /// The parts of the scanner that a scanning step leaves untouched: the
    /// input, its length, and the fixed reference sets.
    pub open spec fn same_fixture(&self, pre: &Lexer) -> bool {
        &&& self.input == pre.input
        &&& self.length == pre.length
        &&& self.keywords == pre.keywords
        &&& self.types == pre.types
        &&& self.arrows == pre.arrows
        &&& self.symbols == pre.symbols
    }

    /// Moves the cursor one character forward. If a new character exists it
    /// becomes the current one; otherwise the end-of-input flag is set and
    /// the current character becomes the null sentinel. Once the end is
    /// reached the cursor stays there.
    pub fn next(&mut self)
        requires
            old(self).wf(),
        ensures
            final(self).wf(),
            final(self).same_fixture(old(self)),
            final(self).tokens == old(self).tokens,
            !old(self).end ==> final(self).index == old(self).index + 1,
            old(self).end ==> final(self).index == old(self).index,
    {
        if self.index < self.length {
            self.index = self.index + 1;
            if self.index < self.length {
                self.ch = self.input.as_str().get_char(self.index);
            } else {
                self.end = true;
                self.ch = '\0';
            }
        } else {
            self.end = true;
            self.ch = '\0';
        }
    }

    /// Scans the maximal run of word characters (alphabetic or underscore)
    /// under the cursor and returns it; the cursor ends just past the run.
    /// Digits do not continue a word.
    pub fn get_word(&mut self) -> (word: String)
        requires
            old(self).wf(),
        ensures
            final(self).wf(),
            final(self).same_fixture(old(self)),
            final(self).tokens == old(self).tokens,
            final(self).index == word_end(old(self).input@, old(self).index as int),
            word@ == old(self).input@.subrange(old(self).index as int, final(self).index as int),
    {
        let ghost s = self.input@;
        let ghost i0 = self.index as int;
        let mut word = String::new();
        while !self.end && (self.ch.is_alphabetic() || self.ch == '_')
            invariant
                self.wf(),
                self.same_fixture(old(self)),
                self.tokens == old(self).tokens,
                s == self.input@,
                i0 == old(self).index as int,
                i0 <= self.index as int,
                word@ == s.subrange(i0, self.index as int),
                word_end(s, i0) == word_end(s, self.index as int),
            decreases self.length - self.index,
        {
            let ghost i = self.index as int;
            let piece = self.input.as_str().substring_char(self.index, self.index + 1);
            word.append(piece);
            self.next();
            proof {
                assert(word@ =~= s.subrange(i0, i + 1));
            }
        }
        word
    }

    /// Scans the maximal run of number characters (digits, minus signs and
    /// periods, anywhere in the run) under the cursor and returns it, with
    /// a trailing `F` marker appended when the run contained a period; the
    /// cursor ends just past the run.
    pub fn get_num(&mut self) -> (num: String)
        requires
            old(self).wf(),
        ensures
            final(self).wf(),
            final(self).same_fixture(old(self)),
            final(self).tokens == old(self).tokens,
            final(self).index == num_end(old(self).input@, old(self).index as int),
            num@ == num_value(
                old(self).input@.subrange(old(self).index as int, final(self).index as int),
            ),
    {
        let ghost s = self.input@;
        let ghost i0 = self.index as int;
        let mut dp = false;
        let mut num = String::new();
        while !self.end && (is_digit(self.ch) || self.ch == '-' || self.ch == '.')
            invariant
                self.wf(),
                self.same_fixture(old(self)),
                self.tokens == old(self).tokens,
                s == self.input@,
                i0 == old(self).index as int,
                i0 <= self.index as int,
                num@ == s.subrange(i0, self.index as int),
                dp == s.subrange(i0, self.index as int).contains('.'),
                num_end(s, i0) == num_end(s, self.index as int),
            decreases self.length - self.index,
        {
            let ghost i = self.index as int;
            if self.ch == '.' {
                dp = true;
            }
            let piece = self.input.as_str().substring_char(self.index, self.index + 1);
            num.append(piece);
            self.next();
            proof {
                assert(num@ =~= s.subrange(i0, i + 1));
                assert(s.subrange(i0, i + 1) =~= s.subrange(i0, i).push(s[i]));
                if s.subrange(i0, i).contains('.') {
                    let k = choose|k: int|
                        0 <= k < s.subrange(i0, i).len() && #[trigger] s.subrange(i0, i)[k] == '.';
                    assert(s.subrange(i0, i + 1)[k] == '.');
                }
                if s[i] == '.' {
                    assert(s.subrange(i0, i + 1)[i - i0] == '.');
                }
                if s.subrange(i0, i + 1).contains('.') {
                    let k = choose|k: int|
                        0 <= k < s.subrange(i0, i + 1).len() && #[trigger] s.subrange(
                            i0,
                            i + 1,
                        )[k] == '.';
                    assert(k < i - i0 ==> s.subrange(i0, i)[k] == '.');
                }
            }
        }
        let ghost raw = s.subrange(i0, self.index as int);
        if dp {
            num.append("F");
            proof {
                reveal_strlit("F");
                assert(num@ =~= raw.push('F'));
            }
        }
        num
    }

    /// Scans everything under the cursor up to, but not including, the next
    /// double quote, and returns it; the cursor ends on the quote, or at
    /// the end of the input when no quote follows. The opening quote must
    /// already have been consumed by the caller.
    pub fn get_string(&mut self) -> (string: String)
        requires
            old(self).wf(),
        ensures
            final(self).wf(),
            final(self).same_fixture(old(self)),
            final(self).tokens == old(self).tokens,
            final(self).index == str_end(old(self).input@, old(self).index as int),
            string@ == old(self).input@.subrange(old(self).index as int, final(self).index as int),
    {
        let ghost s = self.input@;
        let ghost i0 = self.index as int;
        let mut string = String::new();
        while !self.end && self.ch != '"'
            invariant
                self.wf(),
                self.same_fixture(old(self)),
                self.tokens == old(self).tokens,
                s == self.input@,
                i0 == old(self).index as int,
                i0 <= self.index as int,
                string@ == s.subrange(i0, self.index as int),
                str_end(s, i0) == str_end(s, self.index as int),
            decreases self.length - self.index,
        {
            let ghost i = self.index as int;
            let piece = self.input.as_str().substring_char(self.index, self.index + 1);
            string.append(piece);
            self.next();
            proof {
                assert(string@ =~= s.subrange(i0, i + 1));
            }
        }
        string
    }

    /// Classifies a scanned word: `keyword` or `type` if it is a member of
    /// the corresponding fixed set, `name` otherwise. Membership is exact,
    /// case-sensitive and whole-word.
    pub fn classify(&self, word: String) -> (kind: String)
        requires
            self.wf(),
        ensures
            kind@ == spec_classify(word@),
    {
        if contains_string(&self.keywords, &word) {
            return "keyword".to_owned();
        }
        if contains_string(&self.types, &word) {
            return "type".to_owned();
        }
        "name".to_owned()
    }

    /// Drives the scan to the end of the input and returns the accumulated
    /// token sequence, which is exactly the mathematical scan of the input
    /// from the cursor's starting position, appended to whatever tokens
    /// were already recorded.
    pub fn parse(&mut self) -> (r: &Vec<Token>)
        requires
            old(self).wf(),
        ensures
            final(self).wf(),
            final(self).same_fixture(old(self)),
            final(self).end,
            tokens_view(final(self).tokens@) == tokens_view(old(self).tokens@) + spec_scan(
                old(self).input@,
                old(self).index as int,
            ),
            r@ == final(self).tokens@,
    {
        let ghost s = self.input@;
        let ghost i0 = self.index as int;
        while !self.end
            invariant
                self.wf(),
                self.same_fixture(old(self)),
                s == self.input@,
                i0 == old(self).index as int,
                tokens_view(old(self).tokens@) + spec_scan(s, i0) == tokens_view(self.tokens@)
                    + spec_scan(s, self.index as int),
            decreases self.length - self.index,
        {
            let ghost i = self.index as int;
            let ghost pre = self.tokens@;
            let c = self.ch;
            if c == '\n' || c == ';' {
                self.tokens.push(Token::new(String::new(), String::new()));
            }
            proof {
                assert(tokens_view(self.tokens@) =~= tokens_view(pre) + separator_part(c));
            }
            if c.is_alphabetic() {
                let word = self.get_word();
                let kind = self.classify(word.clone());
                self.tokens.push(Token::new(word, kind));
                proof {
                    let j = word_end(s, i);
                    let w = s.subrange(i, j);
                    lemma_word_end(s, i);
                    assert(tokens_view(self.tokens@) =~= tokens_view(pre) + separator_part(c)
                        + seq![(w, spec_classify(w))]);
                    assert(spec_scan(s, i) == separator_part(c) + seq![(w, spec_classify(w))]
                        + spec_scan(s, j));
                    assert(tokens_view(pre) + spec_scan(s, i) =~= tokens_view(self.tokens@)
                        + spec_scan(s, self.index as int));
                }
            } else {
                let mut arrow_taken = false;
                if c == '<' || c == '-' {
                    if self.index + 1 < self.length {
                        let cand = self.input.as_str().substring_char(
                            self.index,
                            self.index + 2,
                        ).to_owned();
                        proof {
                            assert(cand@ =~= seq![s[i], s[i + 1]]);
                            lemma_arrow_membership(s[i], s[i + 1]);
                        }
                        if contains_string(&self.arrows, &cand) {
                            self.tokens.push(Token::new(cand, "arrow".to_owned()));
                            self.next();
                            self.next();
                            arrow_taken = true;
                            proof {
                                assert(self.index as int == i + 2);
                                assert(tokens_view(self.tokens@) =~= tokens_view(pre)
                                    + separator_part(c) + seq![(s.subrange(i, i + 2), "arrow"@)]);
                                assert(spec_scan(s, i) == separator_part(c)
                                    + seq![(s.subrange(i, i + 2), "arrow"@)] + spec_scan(
                                    s,
                                    i + 2,
                                ));
                                assert(tokens_view(pre) + spec_scan(s, i) =~= tokens_view(
                                    self.tokens@,
                                ) + spec_scan(s, self.index as int));
                            }
                        }
                    }
                }
                if !arrow_taken {
                    if is_digit(c) || c == '-' {
                        let num = self.get_num();
                        proof {
                            assert(is_num_char(s[i]));
                            assert(num_end(s, i) == num_end(s, i + 1));
                            lemma_num_end(s, i + 1);
                            lemma_num_end(s, i);
                        }
                        let n = num.as_str().unicode_len();
                        let last = num.as_str().get_char(n - 1);
                        let ghost raw = s.subrange(i, num_end(s, i));
                        proof {
                            if raw.contains('.') {
                                assert(num@ == raw.push('F'));
                                assert(last == 'F');
                            } else {
                                assert(num@ == raw);
                                assert(last == raw[raw.len() - 1]);
                                assert(is_num_char(s[num_end(s, i) - 1]));
                                assert(last != 'F');
                            }
                        }
                        let kind = if last == 'F' {
                            "num".to_owned()
                        } else {
                            "int".to_owned()
                        };
                        self.tokens.push(Token::new(num, kind));
                        proof {
                            assert(tokens_view(self.tokens@) =~= tokens_view(pre)
                                + separator_part(c) + seq![(num_value(raw), num_kind(raw))]);
                            assert(spec_scan(s, i) == separator_part(c)
                                + seq![(num_value(raw), num_kind(raw))] + spec_scan(
                                s,
                                num_end(s, i),
                            ));
                            assert(tokens_view(pre) + spec_scan(s, i) =~= tokens_view(
                                self.tokens@,
                            ) + spec_scan(s, self.index as int));
                        }
                    } else {
                        if c == '"' {
                            self.next();
                            let string = self.get_string();
                            self.tokens.push(Token::new(string, "str".to_owned()));
                        }
                        if contains_char(&self.symbols, self.ch) {
                            proof {
                                lemma_symbol_membership(self.ch);
                                if c == '"' {
                                    // After a string scan the cursor rests on the
                                    // closing quote or past the end, and neither
                                    // the quote nor the sentinel is a symbol.
                                    lemma_str_end(s, i + 1);
                                    assert(false);
                                }
                                assert(self.ch == c && !self.end && self.index as int == i);
                            }
                            let sym = self.input.as_str().substring_char(
                                self.index,
                                self.index + 1,
                            ).to_owned();
                            self.tokens.push(Token::new(sym, "flat".to_owned()));
                            proof {
                                assert(sym@ =~= seq![c]);
                            }
                        }
                        self.next();
                        proof {
                            lemma_symbol_membership(c);
                            if c == '"' {
                                let j = str_end(s, i + 1);
                                lemma_str_end(s, i + 1);
                                assert(tokens_view(self.tokens@) =~= tokens_view(pre)
                                    + separator_part(c) + seq![(s.subrange(i + 1, j), "str"@)]);
                                assert(spec_scan(s, i) == separator_part(c)
                                    + seq![(s.subrange(i + 1, j), "str"@)] + spec_scan(
                                    s,
                                    self.index as int,
                                ));
                            } else if is_symbol_char(c) {
                                assert(tokens_view(self.tokens@) =~= tokens_view(pre)
                                    + separator_part(c) + seq![(seq![c], "flat"@)]);
                                assert(spec_scan(s, i) == separator_part(c)
                                    + seq![(seq![c], "flat"@)] + spec_scan(s, i + 1));
                            } else {
                                assert(tokens_view(self.tokens@) =~= tokens_view(pre)
                                    + separator_part(c));
                                assert(spec_scan(s, i) == separator_part(c) + spec_scan(s, i + 1));
                            }
                            assert(tokens_view(pre) + spec_scan(s, i) =~= tokens_view(
                                self.tokens@,
                            ) + spec_scan(s, self.index as int));
                        }
                    }
                }
            }
        }
        proof {
            assert(spec_scan(s, self.index as int) =~= Seq::<(Seq<char>, Seq<char>)>::empty());
            assert(tokens_view(old(self).tokens@) + spec_scan(s, i0) =~= tokens_view(
                self.tokens@,
            ));
        }
        &self.tokens
    }
}

} // verus!
