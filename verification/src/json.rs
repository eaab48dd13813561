//! The tokens of a JSON text, as far as a schema is told by them.
use vstd::prelude::*;

use crate::text;

verus! {

/// A token of a JSON text: a string literal as it is written, a word (a number, `true`, `false`
/// or `null`), or a punctuation mark.
#[derive(Debug)]
pub enum Token {
    Literal(Vec<char>),
    Word(Vec<char>),
    Mark(char),
}

#[verifier::ext_equal]
pub ghost enum TokenView {
    Literal(Seq<char>),
    Word(Seq<char>),
    Mark(char),
}

impl View for Token {
    type V = TokenView;

    open spec fn view(&self) -> TokenView {
        match self {
            Token::Literal(s) => TokenView::Literal(s@),
            Token::Word(s) => TokenView::Word(s@),
            Token::Mark(c) => TokenView::Mark(*c),
        }
    }
}

/// What the reader of a text is inside of.
#[verifier::ext_equal]
pub ghost enum Inside {
    Nothing,
    Literal(Seq<char>),
    /// In a literal, behind a backslash.
    Escape(Seq<char>),
    Word(Seq<char>),
}

/// The tokens so far, and the one that has begun.
#[verifier::ext_equal]
pub ghost struct Lexed {
    pub tokens: Seq<TokenView>,
    pub inside: Inside,
}

pub open spec fn is_space(c: char) -> bool {
    c == ' ' || c == '\t' || c == '\n' || c == '\r'
}

pub open spec fn is_mark(c: char) -> bool {
    c == '{' || c == '}' || c == '[' || c == ']' || c == ':' || c == ','
}

/// The reader of a text behind one more character.
pub open spec fn lex_step(l: Lexed, c: char) -> Lexed {
    match l.inside {
        Inside::Literal(s) => if c == '"' {
            Lexed { tokens: l.tokens.push(TokenView::Literal(s)), inside: Inside::Nothing }
        } else if c == '\\' {
            Lexed { inside: Inside::Escape(s.push(c)), ..l }
        } else {
            Lexed { inside: Inside::Literal(s.push(c)), ..l }
        },
        Inside::Escape(s) => Lexed { inside: Inside::Literal(s.push(c)), ..l },
        _ => {
            let tokens = match l.inside {
                Inside::Word(w) => if c == '"' || is_space(c) || is_mark(c) {
                    l.tokens.push(TokenView::Word(w))
                } else {
                    l.tokens
                },
                _ => l.tokens,
            };
            if c == '"' {
                Lexed { tokens, inside: Inside::Literal(Seq::empty()) }
            } else if is_space(c) {
                Lexed { tokens, inside: Inside::Nothing }
            } else if is_mark(c) {
                Lexed { tokens: tokens.push(TokenView::Mark(c)), inside: Inside::Nothing }
            } else {
                match l.inside {
                    Inside::Word(w) => Lexed { tokens, inside: Inside::Word(w.push(c)) },
                    _ => Lexed { tokens, inside: Inside::Word(seq![c]) },
                }
            }
        },
    }
}

/// The reader of a text behind all of it.
pub open spec fn lexed(text: Seq<char>) -> Lexed
    decreases text.len(),
{
    if text.len() == 0 {
        Lexed { tokens: Seq::empty(), inside: Inside::Nothing }
    } else {
        lex_step(lexed(text.drop_last()), text.last())
    }
}

/// The tokens of a text; a token that the text ends in counts where it is a word.
pub open spec fn tokens(text: Seq<char>) -> Seq<TokenView> {
    let l = lexed(text);
    match l.inside {
        Inside::Word(w) => l.tokens.push(TokenView::Word(w)),
        _ => l.tokens,
    }
}

/// A copy of some characters.
pub fn copy_chars(s: &Vec<char>) -> (r: Vec<char>)
    ensures
        r@ == s@,
{
    let r: Vec<char> = chars_from(s, 0);
    proof {
        assert(s@.skip(0) =~= s@);
    }
    r
}

/// A copy of the characters from `from` on.
pub fn chars_from(s: &Vec<char>, from: usize) -> (r: Vec<char>)
    requires
        from <= s@.len(),
    ensures
        r@ == s@.skip(from as int),
{
    let mut r: Vec<char> = Vec::new();
    let mut i: usize = from;
    while i < s.len()
        invariant
            from <= i <= s@.len(),
            r@ == s@.subrange(from as int, i as int),
        decreases s@.len() - i,
    {
        r.push(s[i]);
        i = i + 1;
        proof {
            assert(r@ =~= s@.subrange(from as int, i as int));
        }
    }
    proof {
        assert(r@ =~= s@.skip(from as int));
    }
    r
}

/// A copy of the first `n` characters.
pub fn first_chars(s: &Vec<char>, n: usize) -> (r: Vec<char>)
    requires
        n <= s@.len(),
    ensures
        r@ == s@.take(n as int),
{
    let mut r: Vec<char> = Vec::new();
    let mut i: usize = 0;
    while i < n
        invariant
            i <= n <= s@.len(),
            r@ == s@.take(i as int),
        decreases n - i,
    {
        r.push(s[i]);
        i = i + 1;
        proof {
            assert(s@.take(i as int) =~= s@.take(i - 1).push(s@[i - 1]));
        }
    }
    r
}

/// The views of a list of tokens.
pub open spec fn token_views(v: Seq<Token>) -> Seq<TokenView> {
    v.map_values(|t: Token| t@)
}

proof fn lemma_token_push(v: Seq<Token>, t: Token)
    ensures
        token_views(v.push(t)) == token_views(v).push(t@),
{
    assert(token_views(v.push(t)) =~= token_views(v).push(t@));
}

/// What a reader is inside of, as a number: nothing, a literal, an escape, a word.
spec fn inside_of(phase: u8, cur: Seq<char>) -> Inside {
    if phase == 1 {
        Inside::Literal(cur)
    } else if phase == 2 {
        Inside::Escape(cur)
    } else if phase == 3 {
        Inside::Word(cur)
    } else {
        Inside::Nothing
    }
}

/// Splits a text into its tokens.
pub fn tokenize(text: &Vec<char>) -> (r: Vec<Token>)
    ensures
        token_views(r@) == tokens(text@),
{
    let mut out: Vec<Token> = Vec::new();
    let mut cur: Vec<char> = Vec::new();
    let mut phase: u8 = 0;
    let mut i: usize = 0;
    proof {
        assert(token_views(out@) =~= Seq::<TokenView>::empty());
        assert(text@.take(0) =~= Seq::<char>::empty());
    }
    while i < text.len()
        invariant
            i <= text@.len(),
            phase <= 3,
            phase == 0 ==> cur@.len() == 0,
            lexed(text@.take(i as int)) == (Lexed {
                tokens: token_views(out@),
                inside: inside_of(phase, cur@),
            }),
        decreases text@.len() - i,
    {
        let c: char = text[i];
        proof {
            assert(text@.take(i + 1).drop_last() =~= text@.take(i as int));
            assert(text@.take(i + 1).last() == c);
        }
        let ghost out0 = out@;
        let ghost cur0 = cur@;
        if phase == 1 {
            if c == '"' {
                let done: Vec<char> = copy_chars(&cur);
                let t: Token = Token::Literal(done);
                proof {
                    lemma_token_push(out@, t);
                }
                out.push(t);
                cur = Vec::new();
                phase = 0;
            } else {
                cur.push(c);
                if c == '\\' {
                    phase = 2;
                }
            }
        } else if phase == 2 {
            cur.push(c);
            phase = 1;
        } else {
            let space: bool = c == ' ' || c == '\t' || c == '\n' || c == '\r';
            let mark: bool = c == '{' || c == '}' || c == '[' || c == ']' || c == ':' || c == ',';
            if phase == 3 && (c == '"' || space || mark) {
                let done: Vec<char> = copy_chars(&cur);
                let t: Token = Token::Word(done);
                proof {
                    lemma_token_push(out@, t);
                }
                out.push(t);
                cur = Vec::new();
                phase = 0;
            }
            if c == '"' {
                phase = 1;
            } else if mark {
                let t: Token = Token::Mark(c);
                proof {
                    lemma_token_push(out@, t);
                }
                out.push(t);
            } else if !space {
                cur.push(c);
                phase = 3;
                proof {
                    if cur0.len() == 0 {
                        assert(cur@ =~= seq![c]);
                    }
                }
            }
        }
        proof {
            if phase == 0 || cur@.len() == 0 {
                assert(cur@ =~= Seq::<char>::empty());
            }
        }
        i = i + 1;
    }
    proof {
        assert(text@.take(i as int) =~= text@);
    }
    if phase == 3 {
        let t: Token = Token::Word(cur);
        proof {
            lemma_token_push(out@, t);
        }
        out.push(t);
    }
    out
}

/// The text that a token was read from.
pub open spec fn token_text(t: TokenView) -> Seq<char> {
    match t {
        TokenView::Literal(s) => seq!['"'] + s + seq!['"'],
        TokenView::Word(s) => s,
        TokenView::Mark(c) => seq![c],
    }
}

/// Some tokens as a text, each with a space behind it.
pub open spec fn spaced(t: Seq<TokenView>) -> Seq<char>
    decreases t.len(),
{
    if t.len() == 0 {
        Seq::empty()
    } else {
        spaced(t.drop_last()) + token_text(t.last()) + seq![' ']
    }
}

/// The text does not end within a literal, so that its tokens are all of it.
pub open spec fn closed_text(text: Seq<char>) -> bool {
    lexed(text).inside is Nothing || lexed(text).inside is Word
}

/// A token of the text, if any, has ended in front of `at`, or ends there.
pub open spec fn between_tokens(text: Seq<char>, at: int) -> bool {
    0 <= at <= text.len() && match lexed(text.take(at)).inside {
        Inside::Nothing => true,
        Inside::Word(_) => at == text.len() || text[at] == '"' || is_space(text[at]) || is_mark(
            text[at],
        ),
        _ => false,
    }
}

proof fn lemma_lexed_on(a: Seq<char>, b: Seq<char>, s: Seq<char>)
    requires
        lexed(a) == lexed(b),
    ensures
        lexed(a + s) == lexed(b + s),
    decreases s.len(),
{
    if s.len() == 0 {
        assert(a + s =~= a);
        assert(b + s =~= b);
    } else {
        lemma_lexed_on(a, b, s.drop_last());
        assert((a + s).drop_last() =~= a + s.drop_last());
        assert((b + s).drop_last() =~= b + s.drop_last());
    }
}

/// A space more between two tokens of a text changes neither them nor whether the text ends
/// within a literal.
pub proof fn law_space_between_tokens(text: Seq<char>, at: int, space: char)
    requires
        between_tokens(text, at),
        is_space(space),
    ensures
        tokens(text.take(at).push(space) + text.skip(at)) == tokens(text),
        closed_text(text.take(at).push(space) + text.skip(at)) == closed_text(text),
{
    let front = text.take(at);
    let more = front.push(space);
    assert(more.drop_last() =~= front);
    assert(text =~= front + text.skip(at));
    match lexed(front).inside {
        Inside::Word(_) => {
            if at == text.len() {
                assert(more + text.skip(at) =~= more);
                assert(front =~= text);
            } else {
                let c = text[at];
                assert(front.push(c).drop_last() =~= front);
                assert(more.push(c).drop_last() =~= more);
                assert(lexed(front.push(c)) == lexed(more.push(c)));
                lemma_lexed_on(front.push(c), more.push(c), text.skip(at + 1));
                assert(front.push(c) + text.skip(at + 1) =~= text);
                assert(more.push(c) + text.skip(at + 1) =~= more + text.skip(at));
            }
        },
        _ => {
            assert(lexed(more) == lexed(front));
            lemma_lexed_on(more, front, text.skip(at));
        },
    }
}

// ---- what a literal stands for -------------------------------------------------------------

/// The value of a hexadecimal digit, sixteen for any other character.
pub open spec fn hex_value(c: char) -> nat {
    if '0' <= c <= '9' {
        (c as u32 - '0' as u32) as nat
    } else if 'a' <= c <= 'f' {
        (c as u32 - 'a' as u32 + 10) as nat
    } else if 'A' <= c <= 'F' {
        (c as u32 - 'A' as u32 + 10) as nat
    } else {
        16
    }
}

fn read_hex(c: char) -> (r: u32)
    ensures
        r as nat == hex_value(c),
        r <= 16,
{
    if '0' <= c && c <= '9' {
        c as u32 - '0' as u32
    } else if 'a' <= c && c <= 'f' {
        c as u32 - 'a' as u32 + 10
    } else if 'A' <= c && c <= 'F' {
        c as u32 - 'A' as u32 + 10
    } else {
        16
    }
}

/// What stands for every character beyond ASCII that is written as an escape.
pub const BEYOND_ASCII: char = '\u{fffd}';

/// The character of four hexadecimal digits.
pub open spec fn hex_char(a: char, b: char, c: char, d: char) -> char {
    if hex_value(a) == 0 && hex_value(b) == 0 && hex_value(c) < 8 && hex_value(d) < 16 {
        ((hex_value(c) * 16 + hex_value(d)) as u8) as char
    } else {
        BEYOND_ASCII
    }
}

/// The character that a backslash and a character stand for.
pub open spec fn escape_char(c: char) -> char {
    if c == 'b' {
        '\u{8}'
    } else if c == 'f' {
        '\u{c}'
    } else if c == 'n' {
        '\n'
    } else if c == 'r' {
        '\r'
    } else if c == 't' {
        '\t'
    } else {
        c
    }
}

/// What a literal stands for, every escaped character beyond ASCII as the same one.
pub open spec fn unescaped(s: Seq<char>) -> Seq<char>
    decreases s.len(),
{
    if s.len() == 0 {
        Seq::empty()
    } else if s[0] != '\\' || s.len() == 1 {
        seq![s[0]] + unescaped(s.skip(1))
    } else if s[1] == 'u' && s.len() >= 6 {
        seq![hex_char(s[2], s[3], s[4], s[5])] + unescaped(s.skip(6))
    } else {
        seq![escape_char(s[1])] + unescaped(s.skip(2))
    }
}

fn unescape(s: &Vec<char>) -> (r: Vec<char>)
    ensures
        r@ == unescaped(s@),
{
    let mut r: Vec<char> = Vec::new();
    let mut i: usize = 0;
    proof {
        assert(s@.skip(0) =~= s@);
    }
    while i < s.len()
        invariant
            i <= s@.len(),
            unescaped(s@) == r@ + unescaped(s@.skip(i as int)),
        decreases s@.len() - i,
    {
        let ghost rest = s@.skip(i as int);
        let ghost r0 = r@;
        let left: usize = s.len() - i;
        let mut step: usize = 1;
        let c: char = if s[i] != '\\' || left == 1 {
            s[i]
        } else if s[i + 1] == 'u' && left >= 6 {
            step = 6;
            let (a, b, c, d): (u32, u32, u32, u32) = (
                read_hex(s[i + 2]),
                read_hex(s[i + 3]),
                read_hex(s[i + 4]),
                read_hex(s[i + 5]),
            );
            if a == 0 && b == 0 && c < 8 && d < 16 {
                let v: u8 = (c * 16 + d) as u8;
                v as char
            } else {
                BEYOND_ASCII
            }
        } else {
            step = 2;
            match s[i + 1] {
                'b' => '\u{8}',
                'f' => '\u{c}',
                'n' => '\n',
                'r' => '\r',
                't' => '\t',
                other => other,
            }
        };
        r.push(c);
        i = i + step;
        proof {
            assert(rest.skip(step as int) =~= s@.skip(i as int));
            assert(unescaped(rest) == seq![c] + unescaped(s@.skip(i as int)));
            assert(r@ + unescaped(s@.skip(i as int)) =~= r0 + (seq![c] + unescaped(
                s@.skip(i as int),
            )));
        }
    }
    proof {
        assert(s@.skip(i as int) =~= Seq::<char>::empty());
        assert(r@ + unescaped(s@.skip(i as int)) =~= r@);
    }
    r
}

/// A token with its literal as what it stands for.
pub open spec fn plain_token(t: TokenView) -> TokenView {
    match t {
        TokenView::Literal(s) => TokenView::Literal(unescaped(s)),
        _ => t,
    }
}

/// The tokens of a text, literals as what they stand for.
pub open spec fn plain_tokens(text: Seq<char>) -> Seq<TokenView> {
    tokens(text).map_values(|t: TokenView| plain_token(t))
}

/// Splits a text into its tokens, literals as what they stand for.
pub fn outline(text: &Vec<char>) -> (r: Vec<Token>)
    ensures
        token_views(r@) == plain_tokens(text@),
{
    let raw: Vec<Token> = tokenize(text);
    let mut r: Vec<Token> = Vec::new();
    let mut i: usize = 0;
    while i < raw.len()
        invariant
            i <= raw@.len(),
            r@.len() == i,
            forall|j: int| 0 <= j < i ==> (#[trigger] r@[j])@ == plain_token(raw@[j]@),
        decreases raw@.len() - i,
    {
        let t: Token = match &raw[i] {
            Token::Literal(s) => Token::Literal(unescape(s)),
            Token::Word(s) => Token::Word(copy_chars(s)),
            Token::Mark(c) => Token::Mark(*c),
        };
        assert(t@ == plain_token(raw@[i as int]@));
        r.push(t);
        i = i + 1;
    }
    proof {
        assert(token_views(r@) =~= plain_tokens(text@)) by {
            assert forall|j: int| 0 <= j < r@.len() implies #[trigger] token_views(r@)[j]
                == plain_tokens(text@)[j] by {
                assert(r@[j]@ == plain_token(raw@[j]@));
                assert(token_views(raw@)[j] == raw@[j]@);
            }
        }
    }
    r
}

// ---- numbers -------------------------------------------------------------------------------

pub open spec fn is_digits(w: Seq<char>) -> bool {
    w.len() > 0 && forall|i: int| 0 <= i < w.len() ==> '0' <= #[trigger] w[i] <= '9'
}

/// The number that some digits stand for.
pub open spec fn digits_value(w: Seq<char>) -> nat
    decreases w.len(),
{
    if w.len() == 0 {
        0
    } else {
        digits_value(w.drop_last()) * 10 + (w.last() as u32 - '0' as u32) as nat
    }
}

proof fn lemma_digits_grow(w: Seq<char>, i: int)
    requires
        0 <= i <= w.len(),
    ensures
        digits_value(w.take(i)) <= digits_value(w),
    decreases w.len(),
{
    if i < w.len() {
        lemma_digits_grow(w.drop_last(), i);
        assert(w.drop_last().take(i) =~= w.take(i));
    } else {
        assert(w.take(i) =~= w);
    }
}

/// The number that the characters from `from` on stand for, if they are digits and it fits.
fn read_digits(w: &Vec<char>, from: usize) -> (r: Option<u64>)
    requires
        from <= w@.len(),
    ensures
        match r {
            Some(v) => is_digits(w@.skip(from as int)) && v as nat == digits_value(
                w@.skip(from as int),
            ),
            None => is_digits(w@.skip(from as int)) ==> digits_value(w@.skip(from as int))
                > u64::MAX,
        },
{
    let ghost ds = w@.skip(from as int);
    if from == w.len() {
        return None;
    }
    let mut v: u64 = 0;
    let mut i: usize = from;
    proof {
        assert(ds.take(0) =~= Seq::<char>::empty());
    }
    while i < w.len()
        invariant
            from <= i <= w@.len(),
            ds == w@.skip(from as int),
            forall|j: int| 0 <= j < i - from ==> '0' <= #[trigger] ds[j] <= '9',
            v as nat == digits_value(ds.take(i - from)),
        decreases w@.len() - i,
    {
        let c: char = w[i];
        assert(c == ds[i - from]);
        if c < '0' || c > '9' {
            return None;
        }
        let d: u64 = (c as u32 - '0' as u32) as u64;
        proof {
            assert(ds.take(i - from + 1).drop_last() =~= ds.take(i - from));
            assert(ds.take(i - from + 1).last() == c);
            lemma_digits_grow(ds, i - from + 1);
        }
        if v > (0xffff_ffff_ffff_ffff - d) / 10 {
            return None;
        }
        v = v * 10 + d;
        i = i + 1;
    }
    proof {
        assert(ds.take(i - from) =~= ds);
    }
    Some(v)
}

/// The least number beyond 64 bits with a sign.
pub const BEYOND_I64: u64 = 0x8000_0000_0000_0000;

/// A word that is a whole number in the range of 64 bits with a sign. Minus zero is none.
pub open spec fn whole_word(w: Seq<char>) -> bool {
    if w.len() > 0 && w[0] == '-' {
        is_digits(w.skip(1)) && 0 < digits_value(w.skip(1)) <= BEYOND_I64
    } else {
        is_digits(w) && digits_value(w) < BEYOND_I64
    }
}

pub fn is_whole_word(w: &Vec<char>) -> (r: bool)
    ensures
        r == whole_word(w@),
{
    let negative: bool = w.len() > 0 && w[0] == '-';
    proof {
        assert(w@.skip(0) =~= w@);
    }
    match read_digits(w, if negative { 1 } else { 0 }) {
        Some(v) => if negative {
            0 < v && v <= BEYOND_I64
        } else {
            v < BEYOND_I64
        },
        None => false,
    }
}

/// A literal that is a whole number in the range of 64 bits with a sign.
pub open spec fn whole_literal(w: Seq<char>) -> bool {
    if w.len() > 0 && w[0] == '-' {
        is_digits(w.skip(1)) && digits_value(w.skip(1)) <= BEYOND_I64
    } else if w.len() > 0 && w[0] == '+' {
        is_digits(w.skip(1)) && digits_value(w.skip(1)) < BEYOND_I64
    } else {
        is_digits(w) && digits_value(w) < BEYOND_I64
    }
}

pub fn is_whole_literal(w: &Vec<char>) -> (r: bool)
    ensures
        r == whole_literal(w@),
{
    let negative: bool = w.len() > 0 && w[0] == '-';
    let signed: bool = w.len() > 0 && (w[0] == '-' || w[0] == '+');
    proof {
        assert(w@.skip(0) =~= w@);
    }
    match read_digits(w, if signed { 1 } else { 0 }) {
        Some(v) => if negative {
            v <= BEYOND_I64
        } else {
            v < BEYOND_I64
        },
        None => false,
    }
}

/// Whether a word is a whole number from `low` to `high`.
pub fn is_between(w: &Vec<char>, low: u64, high: u64) -> (r: bool)
    ensures
        r == (is_digits(w@) && low <= digits_value(w@) <= high),
{
    proof {
        assert(w@.skip(0) =~= w@);
    }
    match read_digits(w, 0) {
        Some(v) => low <= v && v <= high,
        None => false,
    }
}

/// A word that is a number of 64 bits without a sign, and too large for one with a sign.
pub open spec fn large_word(w: Seq<char>) -> bool {
    is_digits(w) && BEYOND_I64 <= digits_value(w) <= u64::MAX
}

pub fn is_large_word(w: &Vec<char>) -> (r: bool)
    ensures
        r == large_word(w@),
{
    is_between(w, BEYOND_I64, 0xffff_ffff_ffff_ffff)
}

// ---- laws ----------------------------------------------------------------------------------

/// A token that can stand in a text: a mark, a word without space, marks and quotes in it, or a
/// literal without quotes and backslashes.
pub open spec fn is_token(t: TokenView) -> bool {
    match t {
        TokenView::Mark(c) => c == '{' || c == '}' || c == '[' || c == ']' || c == ':' || c == ',',
        TokenView::Word(w) => w.len() > 0 && forall|i: int|
            0 <= i < w.len() ==> {
                let c = #[trigger] w[i];
                &&& c != ' ' && c != '\t' && c != '\n' && c != '\r' && c != '"'
                &&& c != '{' && c != '}' && c != '[' && c != ']' && c != ':' && c != ','
            },
        TokenView::Literal(s) => !s.contains('"') && !s.contains('\\'),
    }
}

proof fn lemma_lex_word(text: Seq<char>, w: Seq<char>)
    requires
        w.len() > 0,
        is_token(TokenView::Word(w)),
        lexed(text).inside is Nothing,
    ensures
        lexed(text + w) == (Lexed { tokens: lexed(text).tokens, inside: Inside::Word(w) }),
    decreases w.len(),
{
    let front = w.drop_last();
    assert((text + w).drop_last() =~= text + front);
    assert((text + w).last() == w.last());
    assert(w[w.len() - 1] == w.last());
    if front.len() == 0 {
        assert(text + front =~= text);
        assert(w =~= seq![w.last()]);
    } else {
        assert forall|i: int| 0 <= i < front.len() implies (#[trigger] front[i]) == w[i] by {}
        lemma_lex_word(text, front);
        assert(front.push(w.last()) =~= w);
    }
}

proof fn lemma_lex_literal(text: Seq<char>, s: Seq<char>)
    requires
        is_token(TokenView::Literal(s)),
        lexed(text).inside is Nothing,
    ensures
        lexed(text + seq!['"'] + s) == (Lexed {
            tokens: lexed(text).tokens,
            inside: Inside::Literal(s),
        }),
    decreases s.len(),
{
    let all = text + seq!['"'] + s;
    if s.len() == 0 {
        assert(all.drop_last() =~= text);
        assert(all.last() == '"');
        assert(s =~= Seq::<char>::empty());
    } else {
        let front = s.drop_last();
        assert(all.drop_last() =~= text + seq!['"'] + front);
        assert(all.last() == s.last());
        assert(s[s.len() - 1] == s.last());
        assert(s.contains(s.last()));
        assert forall|c: char| front.contains(c) implies #[trigger] s.contains(c) by {
            let i = choose|i: int| 0 <= i < front.len() && front[i] == c;
            assert(s[i] == c);
        }
        lemma_lex_literal(text, front);
        assert(front.push(s.last()) =~= s);
    }
}

proof fn lemma_lex_spaced(t: Seq<TokenView>)
    requires
        forall|i: int| 0 <= i < t.len() ==> is_token(#[trigger] t[i]),
    ensures
        lexed(spaced(t)) == (Lexed { tokens: t, inside: Inside::Nothing }),
    decreases t.len(),
{
    if t.len() == 0 {
        assert(t =~= Seq::<TokenView>::empty());
    } else {
        let front = t.drop_last();
        assert forall|i: int| 0 <= i < front.len() implies (#[trigger] front[i]) == t[i] by {}
        lemma_lex_spaced(front);
        let text = spaced(front);
        let last = t.last();
        assert(t[t.len() - 1] == last);
        let all = text + token_text(last) + seq![' '];
        let most = text + token_text(last);
        assert(all.drop_last() =~= most);
        assert(all.last() == ' ');
        assert(front.push(last) =~= t);
        match last {
            TokenView::Word(w) => {
                lemma_lex_word(text, w);
                assert(lexed(most) == (Lexed { tokens: front, inside: Inside::Word(w) }));
                assert(lexed(all) == lex_step(lexed(most), ' '));
            },
            TokenView::Mark(c) => {
                assert(most.drop_last() =~= text);
                assert(most.last() == c);
                assert(lexed(most) == lex_step(lexed(text), c));
                assert(is_mark(c));
                assert(lexed(most) == (Lexed { tokens: t, inside: Inside::Nothing }));
            },
            TokenView::Literal(s) => {
                lemma_lex_literal(text, s);
                assert(most.drop_last() =~= text + seq!['"'] + s);
                assert(most.last() == '"');
                assert(lexed(most) == lex_step(lexed(text + seq!['"'] + s), '"'));
                assert(lexed(most) == (Lexed { tokens: t, inside: Inside::Nothing }));
            },
        }
    }
}

/// Tokens that are written one behind the other, with a space behind each, are read as they were.
pub proof fn law_written_tokens_are_read(t: Seq<TokenView>, text: &Vec<char>, r: Vec<Token>)
    requires
        forall|i: int| 0 <= i < t.len() ==> is_token(#[trigger] t[i]),
        text@ == spaced(t),
        call_ensures(tokenize, (text,), r),
    ensures
        token_views(r@) == t,
        closed_text(text@),
{
    lemma_lex_spaced(t);
}

proof fn lemma_unescaped_plain(s: Seq<char>)
    requires
        forall|i: int| 0 <= i < s.len() ==> (#[trigger] s[i]) != '\\',
    ensures
        unescaped(s) == s,
    decreases s.len(),
{
    if s.len() > 0 {
        let rest = s.skip(1);
        assert forall|i: int| 0 <= i < rest.len() implies (#[trigger] rest[i]) != '\\' by {
            assert(rest[i] == s[i + 1]);
        }
        lemma_unescaped_plain(rest);
        assert(seq![s[0]] + rest =~= s);
    } else {
        assert(s =~= Seq::<char>::empty());
    }
}

/// A literal stands for its own characters, but for those behind a backslash: the usual letters
/// for what cannot be typed, four hexadecimal digits behind a `u`, and any other for itself.
pub proof fn law_literals_stand_for(s: Seq<char>, c: char, rest: Seq<char>)
    ensures
        (forall|i: int| 0 <= i < s.len() ==> (#[trigger] s[i]) != '\\') ==> unescaped(s) == s,
        c != '\\' ==> unescaped(seq![c] + rest) == seq![c] + unescaped(rest),
        unescaped(seq!['\\', 'n'] + rest) == seq!['\n'] + unescaped(rest),
        unescaped(seq!['\\', 'r'] + rest) == seq!['\r'] + unescaped(rest),
        unescaped(seq!['\\', 't'] + rest) == seq!['\t'] + unescaped(rest),
        unescaped(seq!['\\', 'b'] + rest) == seq!['\u{8}'] + unescaped(rest),
        unescaped(seq!['\\', 'f'] + rest) == seq!['\u{c}'] + unescaped(rest),
        unescaped(seq!['\\', '"'] + rest) == seq!['"'] + unescaped(rest),
        unescaped(seq!['\\', '/'] + rest) == seq!['/'] + unescaped(rest),
        unescaped(seq!['\\', '\\'] + rest) == seq!['\\'] + unescaped(rest),
{
    if forall|i: int| 0 <= i < s.len() ==> (#[trigger] s[i]) != '\\' {
        lemma_unescaped_plain(s);
    }
    let one = seq![c] + rest;
    assert(one[0] == c);
    assert(one.skip(1) =~= rest);
    lemma_escape('n', rest);
    lemma_escape('r', rest);
    lemma_escape('t', rest);
    lemma_escape('b', rest);
    lemma_escape('f', rest);
    lemma_escape('"', rest);
    lemma_escape('/', rest);
    lemma_escape('\\', rest);
}

proof fn lemma_escape(c: char, rest: Seq<char>)
    requires
        c != 'u',
    ensures
        unescaped(seq!['\\', c] + rest) == seq![escape_char(c)] + unescaped(rest),
{
    let s = seq!['\\', c] + rest;
    assert(s[0] == '\\' && s[1] == c);
    assert(s.skip(2) =~= rest);
}

proof fn lemma_value_of_decimal(x: nat)
    ensures
        is_digits(text::decimal(x)),
        digits_value(text::decimal(x)) == x,
    decreases x,
{
    let w = text::decimal(x);
    if x < 10 {
        assert(w.drop_last() =~= Seq::<char>::empty());
        assert(w.last() == text::digit_char(x));
        assert(digits_value(w.drop_last()) == 0);
    } else {
        lemma_value_of_decimal(x / 10);
        let front = text::decimal(x / 10);
        assert(w == front.push(text::digit_char(x % 10)));
        assert(w.drop_last() =~= front);
        assert forall|i: int| 0 <= i < w.len() implies '0' <= #[trigger] w[i] <= '9' by {
            if i < front.len() {
                assert(w[i] == front[i]);
            }
        }
    }
}

/// A number that is written in decimal is a whole number exactly where it is less than 2 to the
/// 63rd, a large one where it is not, but less than 2 to the 64th, and between two bounds exactly
/// where it is.
pub proof fn law_written_number_is_read(
    x: nat,
    w: &Vec<char>,
    whole: bool,
    whole_quoted: bool,
    large: bool,
    low: u64,
    high: u64,
    between: bool,
)
    requires
        w@ == text::decimal(x),
        call_ensures(is_whole_word, (w,), whole),
        call_ensures(is_whole_literal, (w,), whole_quoted),
        call_ensures(is_large_word, (w,), large),
        call_ensures(is_between, (w, low, high), between),
    ensures
        whole <==> x <= i64::MAX,
        whole_quoted <==> x <= i64::MAX,
        large <==> i64::MAX < x <= u64::MAX,
        between <==> low <= x <= high,
{
    lemma_value_of_decimal(x);
    assert('0' <= w@[0] <= '9');
}

/// A number with a minus in front is a whole one down to minus 2 to the 63rd; minus nought is one
/// in quotes only.
pub proof fn law_negative_number_is_read(x: nat, w: &Vec<char>, whole: bool, whole_quoted: bool)
    requires
        w@ == seq!['-'] + text::decimal(x),
        call_ensures(is_whole_word, (w,), whole),
        call_ensures(is_whole_literal, (w,), whole_quoted),
    ensures
        whole <==> 0 < x && -x >= i64::MIN,
        whole_quoted <==> -x >= i64::MIN,
{
    lemma_value_of_decimal(x);
    assert(w@[0] == '-');
    assert(w@.skip(1) =~= text::decimal(x));
}

/// What separates tokens: space, tabs and line ends; and what is a token by itself.
pub proof fn law_space_and_marks(c: char)
    ensures
        is_space(c) <==> c as u32 == 0x20 || c as u32 == 0x9 || c as u32 == 0xa || c as u32 == 0xd,
        is_mark(c) <==> c as u32 == 0x7b || c as u32 == 0x7d || c as u32 == 0x5b || c as u32 == 0x5d
            || c as u32 == 0x3a || c as u32 == 0x2c,
{
}

} // verus!
