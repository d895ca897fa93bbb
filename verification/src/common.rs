//! The shared command-line tokenizer: every service frame is tokenized
//! shell-style before dispatch. Unquoted runs of non-whitespace are tokens;
//! double quotes delimit a token that may hold whitespace; inside quotes a
//! backslash escapes a literal quote and any other backslash pair is kept
//! verbatim.

use vstd::prelude::*;

verus! {

/// The tokenizer's state between two characters.
pub enum ParseState {
    /// At a token boundary: whitespace passes, a quote opens a quoted
    /// token, anything else opens an unquoted one.
    Start,
    /// Inside an unquoted token.
    Arg,
    /// Inside a quoted token.
    Str,
    /// Right after a backslash inside a quoted token.
    Escape,
}

/// What `char::is_whitespace` returns for a character; the result depends
/// on the character alone.
pub uninterp spec fn is_ws(c: char) -> bool;

/// Relies on `char::is_whitespace`: the Unicode white-space test.
#[verifier::external_body]
fn char_is_whitespace(c: char) -> (r: bool)
    ensures
        r == is_ws(c),
{
    c.is_whitespace()
}

/// One tokenizer step: the tokens closed so far, the pending token, and
/// the state, advanced over one character.
pub open spec fn tok_step(
    acc: (Seq<Seq<char>>, Seq<char>, ParseState),
    c: char,
) -> (Seq<Seq<char>>, Seq<char>, ParseState) {
    let (args, arg, st) = acc;
    match st {
        ParseState::Start => {
            if is_ws(c) {
                acc
            } else if c == '"' {
                (args, arg, ParseState::Str)
            } else {
                (args, arg.push(c), ParseState::Arg)
            }
        },
        ParseState::Arg => {
            if is_ws(c) {
                (args.push(arg), Seq::<char>::empty(), ParseState::Start)
            } else if c == '"' {
                (args, arg, ParseState::Str)
            } else {
                (args, arg.push(c), ParseState::Arg)
            }
        },
        ParseState::Str => {
            if c == '\\' {
                (args, arg, ParseState::Escape)
            } else if c == '"' {
                (args, arg, ParseState::Arg)
            } else {
                (args, arg.push(c), ParseState::Str)
            }
        },
        ParseState::Escape => {
            if c == '"' {
                (args, arg.push('"'), ParseState::Str)
            } else {
                (args, arg.push('\\').push(c), ParseState::Str)
            }
        },
    }
}

/// The tokenizer folded over the first `n` characters of `s`.
pub open spec fn tok_fold(s: Seq<char>, n: int) -> (Seq<Seq<char>>, Seq<char>, ParseState)
    decreases n,
{
    if n <= 0 {
        (Seq::<Seq<char>>::empty(), Seq::<char>::empty(), ParseState::Start)
    } else {
        tok_step(tok_fold(s, n - 1), s[n - 1])
    }
}

/// The token list of a whole command line: the fold over all characters,
/// with a non-empty pending token closed at the end.
pub open spec fn tokens_of(s: Seq<char>) -> Seq<Seq<char>> {
    let (args, arg, _st) = tok_fold(s, s.len() as int);
    if arg.len() != 0 {
        args.push(arg)
    } else {
        args
    }
}

/// Tokenizes one command line.
pub fn parse_command(command: &String) -> (args: Vec<String>)
    ensures
        args.deep_view() == tokens_of(command@),
{
    let s = command.as_str();
    let n = s.unicode_len();
    let mut args: Vec<String> = Vec::new();
    let mut arg: Vec<char> = Vec::new();
    let mut state = ParseState::Start;
    let mut i: usize = 0;
    while i < n
        invariant
            n == s@.len(),
            s@ == command@,
            i <= n,
            (args.deep_view(), arg@, state) == tok_fold(command@, i as int),
        decreases n - i,
    {
        let c = s.get_char(i);
        match state {
            ParseState::Start => {
                if !char_is_whitespace(c) {
                    if c == '"' {
                        state = ParseState::Str;
                    } else {
                        state = ParseState::Arg;
                        arg.push(c);
                    }
                }
            },
            ParseState::Arg => {
                if char_is_whitespace(c) {
                    let done = crate::strutil::chars_to_string(&arg);
                    args.push(done);
                    arg = Vec::new();
                    state = ParseState::Start;
                } else if c == '"' {
                    state = ParseState::Str;
                } else {
                    arg.push(c);
                }
            },
            ParseState::Str => {
                if c == '\\' {
                    state = ParseState::Escape;
                } else if c == '"' {
                    state = ParseState::Arg;
                } else {
                    arg.push(c);
                }
            },
            ParseState::Escape => {
                if c == '"' {
                    arg.push('"');
                } else {
                    arg.push('\\');
                    arg.push(c);
                }
                state = ParseState::Str;
            },
        }
        i = i + 1;
    }
    if arg.len() != 0 {
        let done = crate::strutil::chars_to_string(&arg);
        args.push(done);
    }
    args
}

} // verus!
