use vstd::prelude::*;
use crate::error::CompileError;
use crate::strutil::{chars_of, chars_to_string, str_eq};
use crate::tokens::{KeyWord, Tok, Token, TokenType, type_of_tok};

verus! {

// ---------------------------------------------------------------------------
// Character classes
// ---------------------------------------------------------------------------
pub open spec fn is_space(c: char) -> bool {
    c == ' ' || c == '\t' || c == '\n' || c == '\r'
}

pub open spec fn is_digit(c: char) -> bool {
    48 <= c as u32 <= 57
}

pub open spec fn is_word_start(c: char) -> bool {
    (65 <= c as u32 <= 90) || (97 <= c as u32 <= 122) || c == '_'
}

pub open spec fn is_word_char(c: char) -> bool {
    is_word_start(c) || is_digit(c)
}

pub open spec fn is_sym_char(c: char) -> bool {
    ||| c == '{'
    ||| c == '}'
    ||| c == '('
    ||| c == ')'
    ||| c == '['
    ||| c == ']'
    ||| c == '.'
    ||| c == ','
    ||| c == ';'
    ||| c == '+'
    ||| c == '-'
    ||| c == '*'
    ||| c == '/'
    ||| c == '&'
    ||| c == '|'
    ||| c == '<'
    ||| c == '>'
    ||| c == '='
    ||| c == '~'
}

fn is_space_x(c: char) -> (r: bool)
    ensures
        r == is_space(c),
{
    c == ' ' || c == '\t' || c == '\n' || c == '\r'
}

fn is_digit_x(c: char) -> (r: bool)
    ensures
        r == is_digit(c),
{
    let u = c as u32;
    48 <= u && u <= 57
}

fn is_word_start_x(c: char) -> (r: bool)
    ensures
        r == is_word_start(c),
{
    let u = c as u32;
    (65 <= u && u <= 90) || (97 <= u && u <= 122) || c == '_'
}

fn is_word_char_x(c: char) -> (r: bool)
    ensures
        r == is_word_char(c),
{
    is_word_start_x(c) || is_digit_x(c)
}

fn is_sym_char_x(c: char) -> (r: bool)
    ensures
        r == is_sym_char(c),
{
    c == '{' || c == '}' || c == '(' || c == ')' || c == '[' || c == ']' || c == '.' || c == ','
        || c == ';' || c == '+' || c == '-' || c == '*' || c == '/' || c == '&' || c == '|' || c
        == '<' || c == '>' || c == '=' || c == '~'
}

// ---------------------------------------------------------------------------
// Keywords
// ---------------------------------------------------------------------------
/// The keyword spelt by the word, if any.
pub open spec fn keyword_of(w: Seq<char>) -> Option<KeyWord> {
    if w == "class"@ {
        Some(KeyWord::CLASS)
    } else if w == "method"@ {
        Some(KeyWord::METHOD)
    } else if w == "function"@ {
        Some(KeyWord::FUNCTION)
    } else if w == "constructor"@ {
        Some(KeyWord::CONSTRUCTOR)
    } else if w == "int"@ {
        Some(KeyWord::INT)
    } else if w == "boolean"@ {
        Some(KeyWord::BOOLEAN)
    } else if w == "char"@ {
        Some(KeyWord::CHAR)
    } else if w == "void"@ {
        Some(KeyWord::VOID)
    } else if w == "var"@ {
        Some(KeyWord::VAR)
    } else if w == "static"@ {
        Some(KeyWord::STATIC)
    } else if w == "field"@ {
        Some(KeyWord::FIELD)
    } else if w == "let"@ {
        Some(KeyWord::LET)
    } else if w == "do"@ {
        Some(KeyWord::DO)
    } else if w == "if"@ {
        Some(KeyWord::IF)
    } else if w == "else"@ {
        Some(KeyWord::ELSE)
    } else if w == "while"@ {
        Some(KeyWord::WHILE)
    } else if w == "return"@ {
        Some(KeyWord::RETURN)
    } else if w == "true"@ {
        Some(KeyWord::TRUE)
    } else if w == "false"@ {
        Some(KeyWord::FALSE)
    } else if w == "null"@ {
        Some(KeyWord::NULL)
    } else if w == "this"@ {
        Some(KeyWord::THIS)
    } else {
        None
    }
}

fn keyword_lookup(w: &String) -> (r: Option<KeyWord>)
    ensures
        r == keyword_of(w@),
{
    let s = w.as_str();
    if str_eq(s, "class") {
        Some(KeyWord::CLASS)
    } else if str_eq(s, "method") {
        Some(KeyWord::METHOD)
    } else if str_eq(s, "function") {
        Some(KeyWord::FUNCTION)
    } else if str_eq(s, "constructor") {
        Some(KeyWord::CONSTRUCTOR)
    } else if str_eq(s, "int") {
        Some(KeyWord::INT)
    } else if str_eq(s, "boolean") {
        Some(KeyWord::BOOLEAN)
    } else if str_eq(s, "char") {
        Some(KeyWord::CHAR)
    } else if str_eq(s, "void") {
        Some(KeyWord::VOID)
    } else if str_eq(s, "var") {
        Some(KeyWord::VAR)
    } else if str_eq(s, "static") {
        Some(KeyWord::STATIC)
    } else if str_eq(s, "field") {
        Some(KeyWord::FIELD)
    } else if str_eq(s, "let") {
        Some(KeyWord::LET)
    } else if str_eq(s, "do") {
        Some(KeyWord::DO)
    } else if str_eq(s, "if") {
        Some(KeyWord::IF)
    } else if str_eq(s, "else") {
        Some(KeyWord::ELSE)
    } else if str_eq(s, "while") {
        Some(KeyWord::WHILE)
    } else if str_eq(s, "return") {
        Some(KeyWord::RETURN)
    } else if str_eq(s, "true") {
        Some(KeyWord::TRUE)
    } else if str_eq(s, "false") {
        Some(KeyWord::FALSE)
    } else if str_eq(s, "null") {
        Some(KeyWord::NULL)
    } else if str_eq(s, "this") {
        Some(KeyWord::THIS)
    } else {
        None
    }
}

// ---------------------------------------------------------------------------
// Runs and delimiters
// ---------------------------------------------------------------------------
/// The first position at or after `i` that is not a word character.
pub open spec fn word_end(s: Seq<char>, i: int) -> int
    decreases s.len() - i,
    when 0 <= i <= s.len()
{
    if i == s.len() || !is_word_char(s[i]) {
        i
    } else {
        word_end(s, i + 1)
    }
}

/// The first position at or after `i` that is not a digit.
pub open spec fn digit_end(s: Seq<char>, i: int) -> int
    decreases s.len() - i,
    when 0 <= i <= s.len()
{
    if i == s.len() || !is_digit(s[i]) {
        i
    } else {
        digit_end(s, i + 1)
    }
}

/// The first newline at or after `i`, or the end of the text.
pub open spec fn line_end(s: Seq<char>, i: int) -> int
    decreases s.len() - i,
    when 0 <= i <= s.len()
{
    if i == s.len() || s[i] == '\n' {
        i
    } else {
        line_end(s, i + 1)
    }
}

/// The first closing quote or newline at or after `i`, or the end.
pub open spec fn string_end(s: Seq<char>, i: int) -> int
    decreases s.len() - i,
    when 0 <= i <= s.len()
{
    if i == s.len() || s[i] == '"' || s[i] == '\n' {
        i
    } else {
        string_end(s, i + 1)
    }
}

/// The position of the first comment-closing pair at or after `i`, or the
/// length of the text when there is none.
pub open spec fn block_end(s: Seq<char>, i: int) -> int
    decreases s.len() - i,
    when 0 <= i <= s.len()
{
    if i + 1 >= s.len() {
        s.len() as int
    } else if s[i] == '*' && s[i + 1] == '/' {
        i
    } else {
        block_end(s, i + 1)
    }
}

proof fn lemma_word_end(s: Seq<char>, i: int)
    requires
        0 <= i <= s.len(),
    ensures
        i <= word_end(s, i) <= s.len(),
    decreases s.len() - i,
{
    if !(i == s.len() || !is_word_char(s[i])) {
        lemma_word_end(s, i + 1);
    }
}

proof fn lemma_digit_end(s: Seq<char>, i: int)
    requires
        0 <= i <= s.len(),
    ensures
        i <= digit_end(s, i) <= s.len(),
    decreases s.len() - i,
{
    if !(i == s.len() || !is_digit(s[i])) {
        lemma_digit_end(s, i + 1);
    }
}

proof fn lemma_line_end(s: Seq<char>, i: int)
    requires
        0 <= i <= s.len(),
    ensures
        i <= line_end(s, i) <= s.len(),
    decreases s.len() - i,
{
    if !(i == s.len() || s[i] == '\n') {
        lemma_line_end(s, i + 1);
    }
}

proof fn lemma_string_end(s: Seq<char>, i: int)
    requires
        0 <= i <= s.len(),
    ensures
        i <= string_end(s, i) <= s.len(),
        string_end(s, i) < s.len() ==> (s[string_end(s, i)] == '"' || s[string_end(s, i)]
            == '\n'),
    decreases s.len() - i,
{
    if !(i == s.len() || s[i] == '"' || s[i] == '\n') {
        lemma_string_end(s, i + 1);
    }
}

proof fn lemma_block_end(s: Seq<char>, i: int)
    requires
        0 <= i <= s.len(),
    ensures
        i <= block_end(s, i) <= s.len(),
        block_end(s, i) < s.len() ==> block_end(s, i) + 2 <= s.len(),
    decreases s.len() - i,
{
    if !(i + 1 >= s.len()) && !(s[i] == '*' && s[i + 1] == '/') {
        lemma_block_end(s, i + 1);
    }
}

// ---------------------------------------------------------------------------
// Integer values
// ---------------------------------------------------------------------------
pub open spec fn digit_val(c: char) -> int {
    c as u32 - 48
}

/// The value of a run of decimal digits.
pub open spec fn dec_value(s: Seq<char>) -> int
    decreases s.len(),
{
    if s.len() == 0 {
        0
    } else {
        dec_value(s.drop_last()) * 10 + digit_val(s.last())
    }
}

proof fn lemma_dec_value_nonneg(s: Seq<char>)
    requires
        forall|k: int| 0 <= k < s.len() ==> is_digit(#[trigger] s[k]),
    ensures
        dec_value(s) >= 0,
    decreases s.len(),
{
    if s.len() > 0 {
        lemma_dec_value_nonneg(s.drop_last());
    }
}

pub proof fn lemma_dec_value_prefix(s: Seq<char>, m: int)
    requires
        forall|k: int| 0 <= k < s.len() ==> is_digit(#[trigger] s[k]),
        0 <= m <= s.len(),
    ensures
        dec_value(s.subrange(0, m)) <= dec_value(s),
    decreases s.len(),
{
    if m == s.len() {
        assert(s.subrange(0, m) =~= s);
    } else {
        assert(s.subrange(0, m) =~= s.drop_last().subrange(0, m));
        lemma_dec_value_prefix(s.drop_last(), m);
        lemma_dec_value_nonneg(s.drop_last());
        assert(dec_value(s.drop_last()) * 10 >= dec_value(s.drop_last()));
        assert(digit_val(s.last()) >= 0);
    }
}

// ---------------------------------------------------------------------------
// The tokenizing function
// ---------------------------------------------------------------------------
pub open spec fn cons_tok(t: Tok, rest: Result<Seq<Tok>, CompileError>) -> Result<
    Seq<Tok>,
    CompileError,
> {
    match rest {
        Ok(r) => Ok(seq![t] + r),
        Err(e) => Err(e),
    }
}

/// The tokens of the text from position `i` on: comments and whitespace are
/// skipped; a symbol character is one token; a digit starts a run that must
/// fit in 16 bits; a quote starts a string that must close on its line; a
/// letter or underscore starts a word, a keyword when it is spelt as one;
/// anything else is a lexical error.
pub open spec fn toks_from(s: Seq<char>, i: int) -> Result<Seq<Tok>, CompileError>
    decreases s.len() - i,
    when 0 <= i <= s.len()
    via toks_from_dec
{
    if i >= s.len() {
        Ok(Seq::empty())
    } else {
        let c = s[i];
        if is_space(c) {
            toks_from(s, i + 1)
        } else if c == '/' && i + 1 < s.len() && s[i + 1] == '/' {
            toks_from(s, line_end(s, i + 2))
        } else if c == '/' && i + 1 < s.len() && s[i + 1] == '*' {
            if block_end(s, i + 2) == s.len() {
                Err(CompileError::UnterminatedComment)
            } else {
                toks_from(s, block_end(s, i + 2) + 2)
            }
        } else if is_sym_char(c) {
            cons_tok(Tok::Symbol(c), toks_from(s, i + 1))
        } else if is_digit(c) {
            let e = digit_end(s, i);
            if dec_value(s.subrange(i, e)) > 65535 {
                Err(CompileError::IntegerTooLarge)
            } else {
                cons_tok(Tok::IntConst(dec_value(s.subrange(i, e)) as u16), toks_from(s, e))
            }
        } else if c == '"' {
            let e = string_end(s, i + 1);
            if e == s.len() || s[e] != '"' {
                Err(CompileError::UnterminatedString)
            } else {
                cons_tok(Tok::StringConst(s.subrange(i + 1, e)), toks_from(s, e + 1))
            }
        } else if is_word_start(c) {
            let e = word_end(s, i);
            let w = s.subrange(i, e);
            let t = match keyword_of(w) {
                Some(k) => Tok::Keyword(k),
                None => Tok::Identifier(w),
            };
            cons_tok(t, toks_from(s, e))
        } else {
            Err(CompileError::IllegalCharacter)
        }
    }
}

#[via_fn]
proof fn toks_from_dec(s: Seq<char>, i: int) {
    if 0 <= i < s.len() {
        let c = s[i];
        if is_space(c) {
        } else if c == '/' && i + 1 < s.len() && s[i + 1] == '/' {
            lemma_line_end(s, i + 2);
        } else if c == '/' && i + 1 < s.len() && s[i + 1] == '*' {
            lemma_block_end(s, i + 2);
        } else if is_sym_char(c) {
        } else if is_digit(c) {
            lemma_digit_end(s, i + 1);
            assert(digit_end(s, i) == digit_end(s, i + 1));
        } else if c == '"' {
            lemma_string_end(s, i + 1);
        } else if is_word_start(c) {
            lemma_word_end(s, i + 1);
            assert(word_end(s, i) == word_end(s, i + 1));
        }
    }
}

/// The tokens of a whole text.
pub open spec fn spec_tokens(s: Seq<char>) -> Result<Seq<Tok>, CompileError> {
    toks_from(s, 0)
}

pub open spec fn token_views(ts: Seq<Token>) -> Seq<Tok> {
    Seq::new(ts.len(), |k: int| ts[k]@)
}

spec fn append_result(a: Seq<Tok>, rest: Result<Seq<Tok>, CompileError>) -> Result<
    Seq<Tok>,
    CompileError,
> {
    match rest {
        Ok(r) => Ok(a + r),
        Err(e) => Err(e),
    }
}

proof fn lemma_append_cons(a: Seq<Tok>, t: Tok, rest: Result<Seq<Tok>, CompileError>)
    ensures
        append_result(a, cons_tok(t, rest)) == append_result(a.push(t), rest),
{
    match rest {
        Ok(r) => {
            assert(a + (seq![t] + r) =~= a.push(t) + r);
        },
        Err(_) => {},
    }
}

#[verifier::loop_isolation(false)]
fn scan_tokens(v: &Vec<char>) -> (r: Result<Vec<Token>, CompileError>)
    ensures
        (r matches Ok(ts) ==> spec_tokens(v@) == Ok::<Seq<Tok>, CompileError>(token_views(ts@))),
        (r matches Err(e) ==> spec_tokens(v@) == Err::<Seq<Tok>, CompileError>(e)),
{
    let ghost s = v@;
    let mut acc: Vec<Token> = Vec::new();
    let mut i: usize = 0;
    while i < v.len()
        invariant
            i <= v.len(),
            s == v@,
            toks_from(s, 0) == append_result(token_views(acc@), toks_from(s, i as int)),
        decreases v.len() - i,
    {
        let ghost acc0 = token_views(acc@);
        let ghost i0 = i as int;
        let c = v[i];
        if is_space_x(c) {
            i = i + 1;
        } else if c == '/' && i + 1 < v.len() && (v[i + 1] == '/' || v[i + 1] == '*') {
            if v[i + 1] == '/' {
                // a line comment runs to the next newline
                let mut j = i + 2;
                while j < v.len() && v[j] != '\n'
                    invariant
                        i0 + 2 <= j <= v.len(),
                        s == v@,
                        line_end(s, i0 + 2) == line_end(s, j as int),
                    decreases v.len() - j,
                {
                    j = j + 1;
                }
                proof {
                    assert(line_end(s, j as int) == j);
                    assert(toks_from(s, i0) == toks_from(s, j as int));
                }
                i = j;
            } else {
                // a block comment runs to the closing pair
                let mut j = i + 2;
                while v.len() - 1 > j && !(v[j] == '*' && v[j + 1] == '/')
                    invariant
                        i0 + 2 <= j <= v.len(),
                        s == v@,
                        block_end(s, i0 + 2) == block_end(s, j as int),
                    decreases v.len() - j,
                {
                    j = j + 1;
                }
                if v.len() - 1 <= j {
                    proof {
                        assert(block_end(s, j as int) == s.len());
                        assert(toks_from(s, i0) == Err::<Seq<Tok>, CompileError>(
                            CompileError::UnterminatedComment,
                        ));
                    }
                    return Err(CompileError::UnterminatedComment);
                }
                proof {
                    assert(block_end(s, j as int) == j);
                    assert(toks_from(s, i0) == toks_from(s, j + 2));
                }
                i = j + 2;
            }
        } else if is_sym_char_x(c) {
            proof {
                assert(toks_from(s, i0) == cons_tok(Tok::Symbol(c), toks_from(s, i0 + 1)));
                lemma_append_cons(acc0, Tok::Symbol(c), toks_from(s, i0 + 1));
            }
            acc.push(Token::Symbol(c));
            proof {
                assert(token_views(acc@) =~= acc0.push(Tok::Symbol(c)));
            }
            i = i + 1;
        } else if is_digit_x(c) {
            let mut j = i;
            while j < v.len() && is_digit_x(v[j])
                invariant
                    i0 <= j <= v.len(),
                    s == v@,
                    forall|k: int| i0 <= k < j ==> is_digit(#[trigger] s[k]),
                    digit_end(s, i0) == digit_end(s, j as int),
                decreases v.len() - j,
            {
                j = j + 1;
            }
            proof {
                assert(digit_end(s, j as int) == j);
            }
            let ghost run = s.subrange(i0, j as int);
            let mut val: u32 = 0;
            let mut k = i;
            proof {
                assert(s.subrange(i0, i0) =~= Seq::<char>::empty());
            }
            while k < j
                invariant
                    i0 <= k <= j <= v.len(),
                    s == v@,
                    forall|x: int| i0 <= x < j ==> is_digit(#[trigger] s[x]),
                    run == s.subrange(i0, j as int),
                    val == dec_value(s.subrange(i0, k as int)),
                    val <= 65535,
                decreases j - k,
            {
                let d = (v[k] as u32) - 48;
                proof {
                    assert(s.subrange(i0, k + 1).drop_last() =~= s.subrange(i0, k as int));
                    assert(s.subrange(i0, k + 1).last() == s[k as int]);
                }
                let next = val * 10 + d;
                if next > 65535 {
                    proof {
                        assert(forall|x: int| 0 <= x < run.len() ==> is_digit(#[trigger] run[x]));
                        assert(run.subrange(0, k + 1 - i0) =~= s.subrange(i0, k + 1));
                        lemma_dec_value_prefix(run, k + 1 - i0);
                        assert(dec_value(run) > 65535);
                        assert(toks_from(s, i0) == Err::<Seq<Tok>, CompileError>(
                            CompileError::IntegerTooLarge,
                        ));
                    }
                    return Err(CompileError::IntegerTooLarge);
                }
                val = next;
                k = k + 1;
            }
            proof {
                assert(run == s.subrange(i0, k as int));
                assert(dec_value(run) == val);
                let t = Tok::IntConst(dec_value(run) as u16);
                assert(toks_from(s, i0) == cons_tok(t, toks_from(s, j as int)));
                lemma_append_cons(acc0, t, toks_from(s, j as int));
            }
            acc.push(Token::IntConst(val as u16));
            proof {
                assert(token_views(acc@) =~= acc0.push(Tok::IntConst(dec_value(run) as u16)));
            }
            i = j;
        } else if c == '"' {
            let mut j = i + 1;
            let mut cs: Vec<char> = Vec::new();
            proof {
                assert(cs@ =~= s.subrange(i0 + 1, i0 + 1));
            }
            while j < v.len() && v[j] != '"' && v[j] != '\n'
                invariant
                    i0 + 1 <= j <= v.len(),
                    s == v@,
                    cs@ == s.subrange(i0 + 1, j as int),
                    string_end(s, i0 + 1) == string_end(s, j as int),
                decreases v.len() - j,
            {
                cs.push(v[j]);
                j = j + 1;
                proof {
                    assert(cs@ =~= s.subrange(i0 + 1, j as int));
                }
            }
            proof {
                assert(string_end(s, j as int) == j);
            }
            if j == v.len() || v[j] != '"' {
                proof {
                    assert(toks_from(s, i0) == Err::<Seq<Tok>, CompileError>(
                        CompileError::UnterminatedString,
                    ));
                }
                return Err(CompileError::UnterminatedString);
            }
            let text = chars_to_string(&cs);
            proof {
                let t = Tok::StringConst(s.subrange(i0 + 1, j as int));
                assert(toks_from(s, i0) == cons_tok(t, toks_from(s, j + 1)));
                lemma_append_cons(acc0, t, toks_from(s, j + 1));
            }
            acc.push(Token::StringConst(text));
            proof {
                assert(token_views(acc@) =~= acc0.push(
                    Tok::StringConst(s.subrange(i0 + 1, j as int)),
                ));
            }
            i = j + 1;
        } else if is_word_start_x(c) {
            let mut j = i;
            let mut cs: Vec<char> = Vec::new();
            proof {
                assert(cs@ =~= s.subrange(i0, i0));
            }
            while j < v.len() && is_word_char_x(v[j])
                invariant
                    i0 <= j <= v.len(),
                    s == v@,
                    cs@ == s.subrange(i0, j as int),
                    word_end(s, i0) == word_end(s, j as int),
                decreases v.len() - j,
            {
                cs.push(v[j]);
                j = j + 1;
                proof {
                    assert(cs@ =~= s.subrange(i0, j as int));
                }
            }
            proof {
                assert(word_end(s, j as int) == j);
            }
            let word = chars_to_string(&cs);
            let ghost w = s.subrange(i0, j as int);
            let tok = match keyword_lookup(&word) {
                Some(k) => Token::Keyword(k),
                None => Token::Identifier(word),
            };
            proof {
                let t = match keyword_of(w) {
                    Some(k) => Tok::Keyword(k),
                    None => Tok::Identifier(w),
                };
                assert(tok@ == t);
                assert(toks_from(s, i0) == cons_tok(t, toks_from(s, j as int)));
                lemma_append_cons(acc0, t, toks_from(s, j as int));
            }
            let ghost tv = tok@;
            acc.push(tok);
            proof {
                assert(token_views(acc@) =~= acc0.push(tv));
            }
            i = j;
        } else {
            proof {
                assert(toks_from(s, i0) == Err::<Seq<Tok>, CompileError>(
                    CompileError::IllegalCharacter,
                ));
            }
            return Err(CompileError::IllegalCharacter);
        }
    }
    proof {
        assert(toks_from(s, i as int) == Ok::<Seq<Tok>, CompileError>(Seq::empty()));
        assert(token_views(acc@) + Seq::<Tok>::empty() =~= token_views(acc@));
    }
    Ok(acc)
}

// ---------------------------------------------------------------------------
// The tokenizer
// ---------------------------------------------------------------------------
/// The token cursor over a fully tokenized text. The tokens are produced once
/// and never change; the cursor index is the only mutable state.
pub struct JackTokenizer {
    tokens: Vec<Token>,
    index: usize,
}

impl JackTokenizer {
    /// The token sequence.
    pub closed spec fn toks(self) -> Seq<Tok> {
        token_views(self.tokens@)
    }

    /// The cursor position.
    pub closed spec fn at(self) -> int {
        self.index as int
    }

    pub open spec fn wf(self) -> bool {
        0 <= self.at() <= self.toks().len()
    }

    /// The current token; meaningful while the cursor is in range.
    pub open spec fn cur(self) -> Tok {
        self.toks()[self.at()]
    }

    /// Tokenizes a whole text. Succeeds exactly when the text is lexically
    /// well formed, and then holds its token sequence with the cursor on the
    /// first token.
    pub fn new(buffer: String) -> (r: Result<JackTokenizer, CompileError>)
        ensures
            (r matches Ok(t) ==> spec_tokens(buffer@) == Ok::<Seq<Tok>, CompileError>(t.toks())
                && t.at() == 0 && t.wf()),
            (r matches Err(e) ==> spec_tokens(buffer@) == Err::<Seq<Tok>, CompileError>(e)),
    {
        let v = chars_of(buffer.as_str());
        match scan_tokens(&v) {
            Ok(ts) => Ok(JackTokenizer { tokens: ts, index: 0 }),
            Err(e) => Err(e),
        }
    }

    /// Whether the cursor still stands on a token.
    pub fn has_current(&self) -> (r: bool)
        ensures
            r == (self.at() < self.toks().len()),
    {
        self.index < self.tokens.len()
    }

    /// Whether the cursor has not yet reached the last token.
    pub fn has_more_tokens(&self) -> (r: bool)
        ensures
            r == (self.at() + 1 < self.toks().len()),
    {
        let n = self.tokens.len();
        self.index < n && n - self.index > 1
    }

    /// Moves the cursor forward one token.
    pub fn advance(&mut self)
        requires
            old(self).wf(),
            old(self).at() < old(self).toks().len(),
        ensures
            final(self).wf(),
            final(self).toks() == old(self).toks(),
            final(self).at() == old(self).at() + 1,
    {
        let n = self.tokens.len();
        if self.index < n {
            self.index = self.index + 1;
        }
    }

    /// Moves the cursor back to the first token.
    pub fn rewind(&mut self)
        ensures
            final(self).wf(),
            final(self).toks() == old(self).toks(),
            final(self).at() == 0,
    {
        self.index = 0;
    }

    /// The classification of the current token.
    pub fn token_type(&self) -> (r: TokenType)
        requires
            self.wf(),
            self.at() < self.toks().len(),
        ensures
            r == type_of_tok(self.cur()),
    {
        match &self.tokens[self.index] {
            Token::Keyword(_) => TokenType::KEYWORD,
            Token::Symbol(_) => TokenType::SYMBOL,
            Token::IntConst(_) => TokenType::INT_CONST,
            Token::StringConst(_) => TokenType::STRING_CONST,
            Token::Identifier(_) => TokenType::IDENTIFIER,
        }
    }

    /// The keyword identity of the current keyword token.
    pub fn key_word(&self) -> (r: KeyWord)
        requires
            self.wf(),
            self.at() < self.toks().len(),
            self.cur() is Keyword,
        ensures
            self.cur() == Tok::Keyword(r),
    {
        match &self.tokens[self.index] {
            Token::Keyword(k) => *k,
            _ => KeyWord::CLASS,  // unreachable under the precondition
        }
    }

    /// The character of the current symbol token.
    pub fn symbol(&self) -> (r: char)
        requires
            self.wf(),
            self.at() < self.toks().len(),
            self.cur() is Symbol,
        ensures
            self.cur() == Tok::Symbol(r),
    {
        match &self.tokens[self.index] {
            Token::Symbol(c) => *c,
            _ => ' ',  // unreachable under the precondition
        }
    }

    /// The text of the current identifier token.
    pub fn identifier(&self) -> (r: String)
        requires
            self.wf(),
            self.at() < self.toks().len(),
            self.cur() is Identifier,
        ensures
            self.cur() == Tok::Identifier(r@),
    {
        match &self.tokens[self.index] {
            Token::Identifier(s) => s.clone(),
            _ => String::new(),  // unreachable under the precondition
        }
    }

    /// The value of the current integer token.
    pub fn int_val(&self) -> (r: u16)
        requires
            self.wf(),
            self.at() < self.toks().len(),
            self.cur() is IntConst,
        ensures
            self.cur() == Tok::IntConst(r),
    {
        match &self.tokens[self.index] {
            Token::IntConst(x) => *x,
            _ => 0,  // unreachable under the precondition
        }
    }

    /// The content of the current string token, quotes stripped.
    pub fn string_val(&self) -> (r: String)
        requires
            self.wf(),
            self.at() < self.toks().len(),
            self.cur() is StringConst,
        ensures
            self.cur() == Tok::StringConst(r@),
    {
        match &self.tokens[self.index] {
            Token::StringConst(s) => s.clone(),
            _ => String::new(),  // unreachable under the precondition
        }
    }
}

} // verus!
