//! Splitting one source line into tokens.

use vstd::prelude::*;
use crate::error::SyntaxError;

verus! {

/// Whether `c` separates tokens: the code points with the Unicode property
/// `White_Space`.
pub open spec fn is_space(c: char) -> bool {
    let n = c as int;
    ||| 0x09 <= n <= 0x0D
    ||| n == 0x20
    ||| n == 0x85
    ||| n == 0xA0
    ||| n == 0x1680
    ||| 0x2000 <= n <= 0x200A
    ||| n == 0x2028
    ||| n == 0x2029
    ||| n == 0x202F
    ||| n == 0x205F
    ||| n == 0x3000
}

pub fn is_whitespace(c: char) -> (b: bool)
    ensures
        b == is_space(c),
{
    let n: u32 = c as u32;
    (0x09 <= n && n <= 0x0D) || n == 0x20 || n == 0x85 || n == 0xA0 || n == 0x1680 || (0x2000 <= n
        && n <= 0x200A) || n == 0x2028 || n == 0x2029 || n == 0x202F || n == 0x205F || n == 0x3000
}

/// The characters of `s`, in order.
pub fn chars_of(s: &str) -> (v: Vec<char>)
    ensures
        v@ == s@,
{
    let mut v: Vec<char> = Vec::new();
    for c in it: s.chars()
        invariant
            v@ == it.seq().take(it.index() as int),
    {
        v.push(c);
    }
    v
}

/// `String::push` of std appends one character to the end of the string.
pub assume_specification[ String::push ](s: &mut String, ch: char)
    ensures
        final(s)@ == old(s)@.push(ch),
;

/// The character that `\` followed by `c` stands for, if any.
pub open spec fn unescape(c: char) -> Option<char> {
    if c == 'n' {
        Some('\n')
    } else if c == 'r' {
        Some('\r')
    } else if c == 't' {
        Some('\t')
    } else if c == '"' {
        Some('"')
    } else if c == '\\' {
        Some('\\')
    } else if c == '0' {
        Some('\0')
    } else {
        None
    }
}

/// The character an escape sequence stands for: `to_escape` is what follows
/// the `\`, `None` where the line ends there.
pub fn escaped(to_escape: Option<char>) -> (r: Option<char>)
    ensures
        r == match to_escape {
            Some(c) => unescape(c),
            None => None,
        },
{
    match to_escape {
        None => None,
        Some(c) => {
            if c == 'n' {
                Some('\n')
            } else if c == 'r' {
                Some('\r')
            } else if c == 't' {
                Some('\t')
            } else if c == '"' {
                Some('"')
            } else if c == '\\' {
                Some('\\')
            } else if c == '0' {
                Some('\0')
            } else {
                None
            }
        },
    }
}

/// The first position at or after `pos` that holds no whitespace.
pub open spec fn skip_spaces(s: Seq<char>, pos: int) -> int
    decreases s.len() - pos,
{
    if 0 <= pos < s.len() && is_space(s[pos]) {
        skip_spaces(s, pos + 1)
    } else {
        pos
    }
}

/// Reads the rest of a token of `s` from `pos`, with `acc` read so far: the
/// token's text and the position behind it.
///
/// `\` and the character after it stand for one character, in quoted and
/// unquoted tokens alike. A quoted token ends behind its closing `"`; an
/// unquoted one ends before whitespace, before `#`, or with the line.
pub open spec fn scan_token(s: Seq<char>, pos: int, quoted: bool, acc: Seq<char>) -> Result<
    (Seq<char>, int),
    SyntaxError,
>
    decreases s.len() - pos,
{
    if pos < 0 || pos >= s.len() {
        if quoted {
            Err(SyntaxError::UnterminatedQuote)
        } else {
            Ok((acc, pos))
        }
    } else if s[pos] == '\\' {
        if pos + 1 < s.len() && unescape(s[pos + 1]) is Some {
            scan_token(s, pos + 2, quoted, acc.push(unescape(s[pos + 1])->0))
        } else {
            Err(SyntaxError::InvalidEscapeSequence)
        }
    } else if quoted {
        if s[pos] == '"' {
            Ok((acc, pos + 1))
        } else {
            scan_token(s, pos + 1, quoted, acc.push(s[pos]))
        }
    } else {
        if is_space(s[pos]) || s[pos] == '#' {
            Ok((acc, pos))
        } else {
            scan_token(s, pos + 1, quoted, acc.push(s[pos]))
        }
    }
}

/// The token that starts at `start`, where `s[start]` is neither whitespace
/// nor `#`: its text and the position behind it.
pub open spec fn token_at(s: Seq<char>, start: int) -> Result<(Seq<char>, int), SyntaxError> {
    if s[start] == '"' {
        scan_token(s, start + 1, true, Seq::empty())
    } else {
        scan_token(s, start, false, Seq::empty())
    }
}

/// The tokens of `s` from `pos` on. A `#` where a token would start opens a
/// comment that runs to the end of the line.
pub open spec fn tokens_from(s: Seq<char>, pos: int) -> Result<Seq<Seq<char>>, SyntaxError>
    decreases s.len() - pos,
    via tokens_from_decreases
{
    let start = skip_spaces(s, pos);
    if pos < 0 || start >= s.len() || s[start] == '#' {
        Ok(Seq::empty())
    } else {
        match token_at(s, start) {
            Err(e) => Err(e),
            Ok((token, next)) => match tokens_from(s, next) {
                Err(e) => Err(e),
                Ok(rest) => Ok(seq![token] + rest),
            },
        }
    }
}

#[via_fn]
proof fn tokens_from_decreases(s: Seq<char>, pos: int) {
    let start = skip_spaces(s, pos);
    if !(pos < 0 || start >= s.len() || s[start] == '#') {
        lemma_skip_spaces(s, pos);
        if s[start] == '"' {
            lemma_scan_advances(s, start + 1, true, Seq::empty());
        } else {
            lemma_scan_advances(s, start, false, Seq::empty());
            lemma_unquoted_moves(s, start);
        }
    }
}

/// The tokens of the line `s`.
pub open spec fn tokenize(s: Seq<char>) -> Result<Seq<Seq<char>>, SyntaxError> {
    tokens_from(s, 0)
}

/// Reads the token of `line` that starts at `start`: its text, with escape
/// sequences resolved, and the position behind it.
fn consume_str(line: &Vec<char>, start: usize) -> (r: Result<(String, usize), SyntaxError>)
    requires
        start < line.len(),
    ensures
        match token_at(line@, start as int) {
            Ok((text, next)) => r matches Ok((token, end)) && token@ == text && end == next,
            Err(e) => r == Err::<(String, usize), SyntaxError>(e),
        },
{
    let quoted = line[start] == '"';
    let mut pos: usize = if quoted {
        start + 1
    } else {
        start
    };
    let mut text = String::new();
    loop
        invariant
            pos <= line.len(),
            scan_token(line@, pos as int, quoted, text@) == token_at(line@, start as int),
        decreases line.len() - pos,
    {
        if pos >= line.len() {
            if quoted {
                return Err(SyntaxError::UnterminatedQuote);
            }
            return Ok((text, pos));
        }
        let c = line[pos];
        if c == '\\' {
            let follow = if pos + 1 < line.len() {
                Some(line[pos + 1])
            } else {
                None
            };
            match escaped(follow) {
                None => {
                    return Err(SyntaxError::InvalidEscapeSequence);
                },
                Some(e) => {
                    text.push(e);
                    pos = pos + 2;
                },
            }
        } else if quoted {
            if c == '"' {
                return Ok((text, pos + 1));
            }
            text.push(c);
            pos = pos + 1;
        } else {
            if is_whitespace(c) || c == '#' {
                return Ok((text, pos));
            }
            text.push(c);
            pos = pos + 1;
        }
    }
}

/// Splits one source line, without its line terminator, into tokens.
///
/// Whitespace separates tokens and is dropped. A token that opens with `"`
/// runs to the next unescaped `"` and may hold whitespace and `#`; any other
/// token runs until whitespace, `#` or the end of the line. `#` where a token
/// would start, or right behind an unquoted token, opens a comment. A blank or
/// all-comment line has no tokens.
pub fn parse(line: &str) -> (r: Result<Vec<String>, SyntaxError>)
    ensures
        match tokenize(line@) {
            Ok(tokens) => r matches Ok(v) && v.deep_view() == tokens,
            Err(e) => r == Err::<Vec<String>, SyntaxError>(e),
        },
{
    let chars = chars_of(line);
    let mut tokens: Vec<String> = Vec::new();
    let mut pos: usize = 0;
    assert(tokens.deep_view() =~= Seq::<Seq<char>>::empty());
    loop
        invariant
            pos <= chars.len(),
            chars@ == line@,
            tokenize(line@) == match tokens_from(chars@, pos as int) {
                Ok(rest) => Ok(tokens.deep_view() + rest),
                Err(e) => Err(e),
            },
        decreases chars.len() - pos,
    {
        let ghost from = pos;
        while pos < chars.len() && is_whitespace(chars[pos])
            invariant
                from <= pos <= chars.len(),
                skip_spaces(chars@, pos as int) == skip_spaces(chars@, from as int),
            decreases chars.len() - pos,
        {
            pos = pos + 1;
        }
        if pos >= chars.len() || chars[pos] == '#' {
            assert(tokens.deep_view() + Seq::<Seq<char>>::empty() =~= tokens.deep_view());
            return Ok(tokens);
        }
        proof {
            lemma_skip_spaces(chars@, pos as int);
            lemma_scan_advances(chars@, pos + 1, true, Seq::empty());
            lemma_scan_advances(chars@, pos as int, false, Seq::empty());
            lemma_unquoted_moves(chars@, pos as int);
        }
        match consume_str(&chars, pos) {
            Err(e) => {
                return Err(e);
            },
            Ok((token, next)) => {
                let ghost before = tokens.deep_view();
                let ghost text = token@;
                tokens.push(token);
                proof {
                    assert(tokens.deep_view() =~= before.push(text));
                    match tokens_from(chars@, next as int) {
                        Ok(rest) => {
                            assert(before + (seq![text] + rest) =~= before.push(text) + rest);
                        },
                        Err(_) => {},
                    }
                }
                pos = next;
            },
        }
    }
}

/// `skip_spaces` moves forward, over whitespace only, and stops at the end of
/// the line or at a character that is not whitespace.
pub proof fn lemma_skip_spaces(s: Seq<char>, pos: int)
    requires
        0 <= pos,
    ensures
        pos <= skip_spaces(s, pos),
        pos <= s.len() ==> skip_spaces(s, pos) <= s.len(),
        skip_spaces(s, pos) < s.len() ==> !is_space(s[skip_spaces(s, pos)]),
        forall|i: int| pos <= i < skip_spaces(s, pos) ==> is_space(#[trigger] s[i]),
    decreases s.len() - pos,
{
    if pos < s.len() && is_space(s[pos]) {
        lemma_skip_spaces(s, pos + 1);
    }
}

/// A token never ends before the position its scan started from, nor behind
/// the end of the line.
pub proof fn lemma_scan_advances(s: Seq<char>, pos: int, quoted: bool, acc: Seq<char>)
    requires
        0 <= pos <= s.len(),
    ensures
        scan_token(s, pos, quoted, acc) matches Ok((_, next)) ==> pos <= next <= s.len(),
        scan_token(s, pos, quoted, acc) matches Ok((_, next)) ==> quoted ==> pos < next,
    decreases s.len() - pos,
{
    if pos < s.len() {
        if s[pos] == '\\' {
            if pos + 1 < s.len() && unescape(s[pos + 1]) is Some {
                lemma_scan_advances(s, pos + 2, quoted, acc.push(unescape(s[pos + 1])->0));
            }
        } else if quoted {
            if s[pos] != '"' {
                lemma_scan_advances(s, pos + 1, quoted, acc.push(s[pos]));
            }
        } else {
            if !(is_space(s[pos]) || s[pos] == '#') {
                lemma_scan_advances(s, pos + 1, quoted, acc.push(s[pos]));
            }
        }
    }
}

/// An unquoted token that starts at a character which can start one takes at
/// least that character.
proof fn lemma_unquoted_moves(s: Seq<char>, start: int)
    requires
        0 <= start < s.len(),
        !is_space(s[start]),
        s[start] != '#',
    ensures
        scan_token(s, start, false, Seq::empty()) matches Ok((_, next)) ==> start < next,
{
    let acc = Seq::<char>::empty();
    if s[start] == '\\' {
        if start + 1 < s.len() && unescape(s[start + 1]) is Some {
            lemma_scan_advances(s, start + 2, false, acc.push(unescape(s[start + 1])->0));
        }
    } else {
        lemma_scan_advances(s, start + 1, false, acc.push(s[start]));
    }
}

/// Whether the line holds none of the characters that mean more than
/// themselves: no quote, no backslash, no `#`.
pub open spec fn is_plain(s: Seq<char>) -> bool {
    forall|i: int|
        #![trigger s[i]]
        0 <= i < s.len() ==> s[i] != '"' && s[i] != '\\' && s[i] != '#'
}

/// The first position at or after `pos` that holds whitespace, or the end of
/// the line where none does.
pub open spec fn word_end(s: Seq<char>, pos: int) -> int
    decreases s.len() - pos,
{
    if 0 <= pos < s.len() && !is_space(s[pos]) {
        word_end(s, pos + 1)
    } else {
        pos
    }
}

/// The words of `s` from `pos` on: each a longest run of characters that are
/// not whitespace, in the order of the line.
pub open spec fn words_from(s: Seq<char>, pos: int) -> Seq<Seq<char>>
    decreases s.len() - pos,
    via words_from_decreases
{
    let start = skip_spaces(s, pos);
    if pos < 0 || start >= s.len() {
        Seq::empty()
    } else {
        seq![s.subrange(start, word_end(s, start))] + words_from(s, word_end(s, start))
    }
}

#[via_fn]
proof fn words_from_decreases(s: Seq<char>, pos: int) {
    let start = skip_spaces(s, pos);
    if !(pos < 0 || start >= s.len()) {
        lemma_skip_spaces(s, pos);
        lemma_word_end(s, start);
    }
}

/// `word_end` moves forward, over characters that are not whitespace only,
/// and stops at the end of the line or at whitespace.
pub proof fn lemma_word_end(s: Seq<char>, pos: int)
    requires
        0 <= pos <= s.len(),
    ensures
        pos <= word_end(s, pos) <= s.len(),
        pos < s.len() && !is_space(s[pos]) ==> pos < word_end(s, pos),
        word_end(s, pos) < s.len() ==> is_space(s[word_end(s, pos)]),
        forall|i: int| pos <= i < word_end(s, pos) ==> !is_space(#[trigger] s[i]),
    decreases s.len() - pos,
{
    if pos < s.len() && !is_space(s[pos]) {
        lemma_word_end(s, pos + 1);
    }
}

/// In a plain line an unquoted token is the word it starts: the characters
/// up to the next whitespace, as they stand.
pub proof fn lemma_plain_token(s: Seq<char>, pos: int, acc: Seq<char>)
    requires
        is_plain(s),
        0 <= pos <= s.len(),
    ensures
        scan_token(s, pos, false, acc) == Ok::<(Seq<char>, int), SyntaxError>(
            (acc + s.subrange(pos, word_end(s, pos)), word_end(s, pos)),
        ),
    decreases s.len() - pos,
{
    lemma_word_end(s, pos);
    let end = word_end(s, pos);
    if pos < s.len() && !is_space(s[pos]) {
        lemma_plain_token(s, pos + 1, acc.push(s[pos]));
        assert(acc.push(s[pos]) + s.subrange(pos + 1, end) =~= acc + s.subrange(pos, end));
    } else {
        assert(acc + s.subrange(pos, end) =~= acc);
    }
}

/// The tokens of a plain line are its words: the line is split at
/// whitespace and at nothing else, and no token is refused.
pub proof fn lemma_plain_line(s: Seq<char>, pos: int)
    requires
        is_plain(s),
    ensures
        tokens_from(s, pos) == Ok::<Seq<Seq<char>>, SyntaxError>(words_from(s, pos)),
    decreases s.len() - pos,
{
    let start = skip_spaces(s, pos);
    if !(pos < 0 || start >= s.len()) {
        lemma_skip_spaces(s, pos);
        lemma_word_end(s, start);
        lemma_plain_token(s, start, Seq::empty());
        assert(Seq::<char>::empty() + s.subrange(start, word_end(s, start)) =~= s.subrange(
            start,
            word_end(s, start),
        ));
        lemma_plain_line(s, word_end(s, start));
    }
}

} // verus!
