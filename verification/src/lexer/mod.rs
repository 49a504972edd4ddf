pub mod token;

use self::token::{SpecToken, Token, tokens_view};
use vstd::prelude::*;

verus! {

pub open spec fn is_letter(c: char) -> bool {
    ('a' <= c && c <= 'z') || ('A' <= c && c <= 'Z') || c == '_'
}

pub open spec fn is_digit(c: char) -> bool {
    '0' <= c && c <= '9'
}

pub open spec fn is_whitespace(c: char) -> bool {
    c == ' ' || c == '\t' || c == '\n' || c == '\r'
}

/// The token that a word of letters stands for: a keyword, else an identifier.
pub open spec fn keyword_or_identifier(word: Seq<char>) -> SpecToken {
    if word == seq!['f', 'n'] {
        SpecToken::Function
    } else if word == seq!['l', 'e', 't'] {
        SpecToken::Let
    } else if word == seq!['t', 'r', 'u', 'e'] {
        SpecToken::True
    } else if word == seq!['f', 'a', 'l', 's', 'e'] {
        SpecToken::False
    } else if word == seq!['i', 'f'] {
        SpecToken::If
    } else if word == seq!['e', 'l', 's', 'e'] {
        SpecToken::Else
    } else if word == seq!['r', 'e', 't', 'u', 'r', 'n'] {
        SpecToken::Return
    } else {
        SpecToken::Identifier(word)
    }
}

/// The token of a character that stands alone, other than `=` and `!`,
/// which may begin a two-character operator.
pub open spec fn single_char_token(c: char) -> SpecToken {
    if c == '+' {
        SpecToken::Plus
    } else if c == '-' {
        SpecToken::Minus
    } else if c == '*' {
        SpecToken::Asterisk
    } else if c == '/' {
        SpecToken::Slash
    } else if c == '<' {
        SpecToken::Lt
    } else if c == '>' {
        SpecToken::Gt
    } else if c == ',' {
        SpecToken::Comma
    } else if c == ';' {
        SpecToken::Semicolon
    } else if c == '(' {
        SpecToken::Lparen
    } else if c == ')' {
        SpecToken::Rparen
    } else if c == '{' {
        SpecToken::Lbrace
    } else if c == '}' {
        SpecToken::Rbrace
    } else {
        SpecToken::Illegal
    }
}

/// The tokens of `cs` from position `i` on.
pub open spec fn lex_from(cs: Seq<char>, i: int) -> Seq<SpecToken>
    decreases cs.len() - i, 0int,
{
    if i < 0 || i >= cs.len() {
        seq![]
    } else {
        let c = cs[i];
        if is_whitespace(c) {
            lex_from(cs, i + 1)
        } else if c == '=' {
            if i + 1 < cs.len() && cs[i + 1] == '=' {
                seq![SpecToken::Eq] + lex_from(cs, i + 2)
            } else {
                seq![SpecToken::Assign] + lex_from(cs, i + 1)
            }
        } else if c == '!' {
            if i + 1 < cs.len() && cs[i + 1] == '=' {
                seq![SpecToken::Noteq] + lex_from(cs, i + 2)
            } else {
                seq![SpecToken::Bang] + lex_from(cs, i + 1)
            }
        } else if is_letter(c) {
            lex_word(cs, i, i + 1)
        } else if is_digit(c) {
            lex_number(cs, i, i + 1)
        } else {
            seq![single_char_token(c)] + lex_from(cs, i + 1)
        }
    }
}

/// The tokens of `cs` from `start` on, where `start..j` are letters.
pub open spec fn lex_word(cs: Seq<char>, start: int, j: int) -> Seq<SpecToken>
    decreases cs.len() - j, 1int,
{
    if 0 <= j < cs.len() && is_letter(cs[j]) {
        lex_word(cs, start, j + 1)
    } else {
        seq![keyword_or_identifier(cs.subrange(start, j))] + lex_from(cs, j)
    }
}

/// The tokens of `cs` from `start` on, where `start..j` are digits.
pub open spec fn lex_number(cs: Seq<char>, start: int, j: int) -> Seq<SpecToken>
    decreases cs.len() - j, 1int,
{
    if 0 <= j < cs.len() && is_digit(cs[j]) {
        lex_number(cs, start, j + 1)
    } else {
        seq![SpecToken::Int(cs.subrange(start, j))] + lex_from(cs, j)
    }
}

/// The tokens of a program's text.
pub open spec fn lex(program: Seq<char>) -> Seq<SpecToken> {
    lex_from(program, 0)
}

/// `String::push`: appends the character to the end of the string.
#[verifier::external_body]
fn push_char(s: &mut String, c: char)
    ensures
        final(s)@ == old(s)@.push(c),
{
    s.push(c)
}

fn chars_of(program: &str) -> (cs: Vec<char>)
    ensures
        cs@ == program@,
{
    let mut cs: Vec<char> = Vec::new();
    for c in it: program.chars()
        invariant
            cs@ == it.seq().take(it.index() as int),
            it.seq() == program@,
    {
        cs.push(c);
    }
    cs
}

fn is_letter_exec(c: char) -> (r: bool)
    ensures
        r == is_letter(c),
{
    ('a' <= c && c <= 'z') || ('A' <= c && c <= 'Z') || c == '_'
}

fn is_digit_exec(c: char) -> (r: bool)
    ensures
        r == is_digit(c),
{
    '0' <= c && c <= '9'
}

fn single_char_token_exec(c: char) -> (t: Token)
    ensures
        t@ == single_char_token(c),
{
    if c == '+' {
        Token::Plus
    } else if c == '-' {
        Token::Minus
    } else if c == '*' {
        Token::Asterisk
    } else if c == '/' {
        Token::Slash
    } else if c == '<' {
        Token::Lt
    } else if c == '>' {
        Token::Gt
    } else if c == ',' {
        Token::Comma
    } else if c == ';' {
        Token::Semicolon
    } else if c == '(' {
        Token::Lparen
    } else if c == ')' {
        Token::Rparen
    } else if c == '{' {
        Token::Lbrace
    } else if c == '}' {
        Token::Rbrace
    } else {
        Token::Illegal
    }
}

fn same_chars(cs: &Vec<char>, start: usize, end: usize, word: &[char]) -> (r: bool)
    requires
        start <= end <= cs@.len(),
    ensures
        r == (cs@.subrange(start as int, end as int) == word@),
{
    if end - start != word.len() {
        return false;
    }
    let mut k: usize = 0;
    while k < word.len()
        invariant
            end - start == word@.len(),
            start <= end <= cs@.len(),
            k <= word@.len(),
            forall|m: int| 0 <= m < k ==> cs@[start + m] == word@[m],
        decreases word@.len() - k,
    {
        if cs[start + k] != word[k] {
            assert(cs@.subrange(start as int, end as int)[k as int] != word@[k as int]);
            return false;
        }
        k = k + 1;
    }
    assert(cs@.subrange(start as int, end as int) =~= word@);
    true
}

fn keyword_or_identifier_exec(cs: &Vec<char>, start: usize, end: usize, word: String) -> (t: Token)
    requires
        start <= end <= cs@.len(),
        word@ == cs@.subrange(start as int, end as int),
    ensures
        t@ == keyword_or_identifier(word@),
{
    if same_chars(cs, start, end, &['f', 'n']) {
        Token::Function
    } else if same_chars(cs, start, end, &['l', 'e', 't']) {
        Token::Let
    } else if same_chars(cs, start, end, &['t', 'r', 'u', 'e']) {
        Token::True
    } else if same_chars(cs, start, end, &['f', 'a', 'l', 's', 'e']) {
        Token::False
    } else if same_chars(cs, start, end, &['i', 'f']) {
        Token::If
    } else if same_chars(cs, start, end, &['e', 'l', 's', 'e']) {
        Token::Else
    } else if same_chars(cs, start, end, &['r', 'e', 't', 'u', 'r', 'n']) {
        Token::Return
    } else {
        Token::Identifier(word)
    }
}

/// Splits a program's text into its tokens.
pub fn tokenize(program: &str) -> (tokens: Vec<Token>)
    ensures
        tokens_view(tokens@) == lex(program@),
{
    let cs = chars_of(program);
    let n = cs.len();
    let mut tokens: Vec<Token> = Vec::new();
    let mut i: usize = 0;
    while i < n
        invariant
            n == cs@.len(),
            i <= n,
            tokens_view(tokens@) + lex_from(cs@, i as int) == lex_from(cs@, 0),
        decreases n - i,
    {
        let ghost before = tokens@;
        let c = cs[i];
        if c == ' ' || c == '\t' || c == '\n' || c == '\r' {
            i = i + 1;
        } else if c == '=' || c == '!' {
            let double = i + 1 < n && cs[i + 1] == '=';
            let t = if c == '=' {
                if double { Token::Eq } else { Token::Assign }
            } else {
                if double { Token::Noteq } else { Token::Bang }
            };
            tokens.push(t);
            i = if double { i + 2 } else { i + 1 };
            assert(tokens_view(tokens@) =~= tokens_view(before).push(t@));
        } else if is_letter_exec(c) {
            let start = i;
            let mut word = String::new();
            push_char(&mut word, c);
            i = i + 1;
            while i < n && is_letter_exec(cs[i])
                invariant
                    n == cs@.len(),
                    start < i <= n,
                    word@ == cs@.subrange(start as int, i as int),
                    lex_word(cs@, start as int, i as int) == lex_from(cs@, start as int),
                decreases n - i,
            {
                push_char(&mut word, cs[i]);
                assert(word@ =~= cs@.subrange(start as int, i + 1));
                i = i + 1;
            }
            let t = keyword_or_identifier_exec(&cs, start, i, word);
            tokens.push(t);
            assert(tokens_view(tokens@) =~= tokens_view(before).push(t@));
        } else if is_digit_exec(c) {
            let start = i;
            let mut digits = String::new();
            push_char(&mut digits, c);
            i = i + 1;
            while i < n && is_digit_exec(cs[i])
                invariant
                    n == cs@.len(),
                    start < i <= n,
                    digits@ == cs@.subrange(start as int, i as int),
                    lex_number(cs@, start as int, i as int) == lex_from(cs@, start as int),
                decreases n - i,
            {
                push_char(&mut digits, cs[i]);
                assert(digits@ =~= cs@.subrange(start as int, i + 1));
                i = i + 1;
            }
            let t = Token::Int(digits);
            tokens.push(t);
            assert(tokens_view(tokens@) =~= tokens_view(before).push(t@));
        } else {
            let t = single_char_token_exec(c);
            tokens.push(t);
            i = i + 1;
            assert(tokens_view(tokens@) =~= tokens_view(before).push(t@));
        }
    }
    tokens
}

} // verus!

verus! {

/// The tokens of `prefix + cs` from `prefix.len() + k` on are those of `cs`
/// from `k` on: lexing never looks back.
pub proof fn lemma_lex_from_shift(prefix: Seq<char>, cs: Seq<char>, k: int)
    requires
        0 <= k,
    ensures
        lex_from(prefix + cs, prefix.len() + k) == lex_from(cs, k),
    decreases cs.len() - k, 0int,
{
    let c = prefix + cs;
    let i = prefix.len() + k;
    if k < cs.len() {
        assert(c[i] == cs[k]);
        if k + 1 < cs.len() {
            assert(c[i + 1] == cs[k + 1]);
        }
        let x = cs[k];
        if is_whitespace(x) {
            lemma_lex_from_shift(prefix, cs, k + 1);
        } else if x == '=' || x == '!' {
            lemma_lex_from_shift(prefix, cs, k + 1);
            if k + 1 < cs.len() {
                lemma_lex_from_shift(prefix, cs, k + 2);
            }
        } else if is_letter(x) {
            lemma_lex_word_shift(prefix, cs, k, k + 1);
        } else if is_digit(x) {
            lemma_lex_number_shift(prefix, cs, k, k + 1);
        } else {
            lemma_lex_from_shift(prefix, cs, k + 1);
        }
    }
}

proof fn lemma_lex_word_shift(prefix: Seq<char>, cs: Seq<char>, start: int, j: int)
    requires
        0 <= start < j <= cs.len(),
    ensures
        lex_word(prefix + cs, prefix.len() + start, prefix.len() + j) == lex_word(cs, start, j),
    decreases cs.len() - j, 1int,
{
    let c = prefix + cs;
    if j < cs.len() {
        assert(c[prefix.len() + j] == cs[j]);
    }
    if j < cs.len() && is_letter(cs[j]) {
        lemma_lex_word_shift(prefix, cs, start, j + 1);
    } else {
        assert(c.subrange(prefix.len() + start, prefix.len() + j) =~= cs.subrange(start, j));
        lemma_lex_from_shift(prefix, cs, j);
    }
}

proof fn lemma_lex_number_shift(prefix: Seq<char>, cs: Seq<char>, start: int, j: int)
    requires
        0 <= start < j <= cs.len(),
    ensures
        lex_number(prefix + cs, prefix.len() + start, prefix.len() + j) == lex_number(cs, start, j),
    decreases cs.len() - j, 1int,
{
    let c = prefix + cs;
    if j < cs.len() {
        assert(c[prefix.len() + j] == cs[j]);
    }
    if j < cs.len() && is_digit(cs[j]) {
        lemma_lex_number_shift(prefix, cs, start, j + 1);
    } else {
        assert(c.subrange(prefix.len() + start, prefix.len() + j) =~= cs.subrange(start, j));
        lemma_lex_from_shift(prefix, cs, j);
    }
}

/// The tokens of `a`, the whitespace `w` and `b` from position `i` of `a` on are the
/// tokens of `a` from `i` on followed by those of `b`.
proof fn lemma_lex_from_split(a: Seq<char>, b: Seq<char>, w: char, i: int)
    requires
        is_whitespace(w),
        0 <= i <= a.len(),
    ensures
        lex_from(a + seq![w] + b, i) == lex_from(a, i) + lex(b),
    decreases a.len() - i, 0int,
{
    let c = a + seq![w] + b;
    if i == a.len() {
        assert(c[i] == w);
        lemma_lex_from_shift(a + seq![w], b, 0);
        assert(lex_from(a, i) + lex(b) =~= lex(b));
    } else {
        assert(c[i] == a[i]);
        if i + 1 < a.len() {
            assert(c[i + 1] == a[i + 1]);
        } else {
            assert(c[i + 1] == w);
        }
        let x = a[i];
        if is_whitespace(x) {
            lemma_lex_from_split(a, b, w, i + 1);
        } else if x == '=' || x == '!' {
            lemma_lex_from_split(a, b, w, i + 1);
            if i + 1 < a.len() {
                lemma_lex_from_split(a, b, w, i + 2);
            }
            assert(seq![SpecToken::Eq] + (lex_from(a, i + 2) + lex(b)) =~= (seq![SpecToken::Eq] + lex_from(a, i + 2)) + lex(b));
            assert(seq![SpecToken::Noteq] + (lex_from(a, i + 2) + lex(b)) =~= (seq![SpecToken::Noteq] + lex_from(a, i + 2)) + lex(b));
            assert(seq![SpecToken::Assign] + (lex_from(a, i + 1) + lex(b)) =~= (seq![SpecToken::Assign] + lex_from(a, i + 1)) + lex(b));
            assert(seq![SpecToken::Bang] + (lex_from(a, i + 1) + lex(b)) =~= (seq![SpecToken::Bang] + lex_from(a, i + 1)) + lex(b));
        } else if is_letter(x) {
            lemma_lex_word_split(a, b, w, i, i + 1);
        } else if is_digit(x) {
            lemma_lex_number_split(a, b, w, i, i + 1);
        } else {
            lemma_lex_from_split(a, b, w, i + 1);
            assert(seq![single_char_token(x)] + (lex_from(a, i + 1) + lex(b)) =~= (seq![single_char_token(x)] + lex_from(a, i + 1)) + lex(b));
        }
    }
}

proof fn lemma_lex_word_split(a: Seq<char>, b: Seq<char>, w: char, start: int, j: int)
    requires
        is_whitespace(w),
        0 <= start < j <= a.len(),
    ensures
        lex_word(a + seq![w] + b, start, j) == lex_word(a, start, j) + lex(b),
    decreases a.len() - j, 1int,
{
    let c = a + seq![w] + b;
    if j < a.len() {
        assert(c[j] == a[j]);
    } else {
        assert(c[j] == w);
    }
    if j < a.len() && is_letter(a[j]) {
        lemma_lex_word_split(a, b, w, start, j + 1);
    } else {
        assert(c.subrange(start, j) =~= a.subrange(start, j));
        lemma_lex_from_split(a, b, w, j);
        let t = keyword_or_identifier(a.subrange(start, j));
        assert(seq![t] + (lex_from(a, j) + lex(b)) =~= (seq![t] + lex_from(a, j)) + lex(b));
    }
}

proof fn lemma_lex_number_split(a: Seq<char>, b: Seq<char>, w: char, start: int, j: int)
    requires
        is_whitespace(w),
        0 <= start < j <= a.len(),
    ensures
        lex_number(a + seq![w] + b, start, j) == lex_number(a, start, j) + lex(b),
    decreases a.len() - j, 1int,
{
    let c = a + seq![w] + b;
    if j < a.len() {
        assert(c[j] == a[j]);
    } else {
        assert(c[j] == w);
    }
    if j < a.len() && is_digit(a[j]) {
        lemma_lex_number_split(a, b, w, start, j + 1);
    } else {
        assert(c.subrange(start, j) =~= a.subrange(start, j));
        lemma_lex_from_split(a, b, w, j);
        let t = SpecToken::Int(a.subrange(start, j));
        assert(seq![t] + (lex_from(a, j) + lex(b)) =~= (seq![t] + lex_from(a, j)) + lex(b));
    }
}

/// Whitespace only separates tokens: the tokens of two texts joined by a
/// whitespace character are the tokens of the first followed by those of the
/// second, and whitespace in front of a text changes nothing.
pub proof fn lemma_whitespace_separates_tokens(a: Seq<char>, b: Seq<char>, w: char)
    requires
        is_whitespace(w),
    ensures
        lex(a + seq![w] + b) == lex(a) + lex(b),
        lex(seq![w] + b) == lex(b),
{
    lemma_lex_from_split(a, b, w, 0);
    let empty = Seq::<char>::empty();
    lemma_lex_from_split(empty, b, w, 0);
    assert(empty + seq![w] + b =~= seq![w] + b);
    assert(lex(empty) + lex(b) =~= lex(b));
}

} // verus!
