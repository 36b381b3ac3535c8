use vstd::prelude::*;

use crate::arg_parser::{is_space, split_tokens, trim_end, words_from, SplitArgs, Token};
use crate::shell_command::{CommandView, ShellCommand, ShellCommandType};

verus! {

pub open spec fn is_digit(c: char) -> bool {
    48 <= c as u32 && c as u32 <= 57
}

/// The value of a string of decimal digits.
pub open spec fn digits_value(d: Seq<char>) -> int
    decreases d.len(),
{
    if d.len() == 0 {
        0
    } else {
        digits_value(d.drop_last()) * 10 + (d.last() as u32 - 48)
    }
}

/// The digits after an optional sign.
pub open spec fn unsigned_part(s: Seq<char>) -> Seq<char> {
    if s.len() > 0 && (s[0] == '-' || s[0] == '+') {
        s.drop_first()
    } else {
        s
    }
}

/// A signed decimal integer as `i32`'s `FromStr` reads it: an optional `+` or
/// `-`, one or more digits, and a value that fits in an `i32`.
pub open spec fn parse_i32(s: Seq<char>) -> Option<int> {
    let d = unsigned_part(s);
    let v = if s.len() > 0 && s[0] == '-' {
        -digits_value(d)
    } else {
        digits_value(d)
    };
    if d.len() > 0 && (forall|k: int| 0 <= k < d.len() ==> is_digit(#[trigger] d[k])) && -2147483648
        <= v <= 2147483647 {
        Some(v)
    } else {
        None
    }
}

pub proof fn lemma_digits_grow(d: Seq<char>, k: int)
    requires
        0 <= k <= d.len(),
        forall|m: int| 0 <= m < d.len() ==> is_digit(#[trigger] d[m]),
    ensures
        0 <= digits_value(d.subrange(0, k)) <= digits_value(d),
    decreases d.len() - k,
{
    if k < d.len() {
        lemma_digits_grow(d, k + 1);
        assert(d.subrange(0, k + 1).drop_last() =~= d.subrange(0, k));
    } else {
        assert(d.subrange(0, k) =~= d);
        lemma_digits_nonneg(d);
    }
}

pub proof fn lemma_digits_nonneg(d: Seq<char>)
    requires
        forall|m: int| 0 <= m < d.len() ==> is_digit(#[trigger] d[m]),
    ensures
        0 <= digits_value(d),
    decreases d.len(),
{
    if d.len() > 0 {
        lemma_digits_nonneg(d.drop_last());
    }
}

/// Reads a signed decimal `i32`.
pub fn parse_i32_exec(s: &String) -> (r: Option<i32>)
    ensures
        match r {
            Some(n) => parse_i32(s@) == Some(n as int),
            None => parse_i32(s@) is None,
        },
{
    let t = s.as_str();
    let n = t.unicode_len();
    let neg = n > 0 && t.get_char(0) == '-';
    let start: usize = if n > 0 && (t.get_char(0) == '-' || t.get_char(0) == '+') {
        1
    } else {
        0
    };
    let ghost d = unsigned_part(s@);
    assert(d =~= s@.subrange(start as int, n as int));
    if start == n {
        return None;
    }
    let mut v: i64 = 0;
    let mut k: usize = start;
    while k < n
        invariant
            start <= k <= n == s@.len(),
            t@ == s@,
            neg == (n > 0 && s@[0] == '-'),
            start == 1 <==> (n > 0 && (s@[0] == '-' || s@[0] == '+')),
            start <= 1,
            d == s@.subrange(start as int, n as int),
            forall|m: int| 0 <= m < k - start ==> is_digit(#[trigger] d[m]),
            v == digits_value(d.subrange(0, k - start)),
            0 <= v <= 2147483648,
        decreases n - k,
    {
        let c = t.get_char(k);
        if !(48 <= c as u32 && c as u32 <= 57) {
            assert(d[k - start] == c);
            return None;
        }
        let nv = v * 10 + (c as u32 - 48) as i64;
        assert(d.subrange(0, k + 1 - start).drop_last() =~= d.subrange(0, k - start));
        assert(d[k - start] == c);
        assert(nv == digits_value(d.subrange(0, k + 1 - start)));
        if nv > 2147483648 {
            proof {
                if forall|m: int| 0 <= m < d.len() ==> is_digit(#[trigger] d[m]) {
                    lemma_digits_grow(d, k + 1 - start);
                    assert(unsigned_part(s@) == d);
                    assert(d.len() > 0);
                }
            }
            return None;
        }
        v = nv;
        k += 1;
    }
    assert(d.subrange(0, n - start) =~= d);
    if neg {
        Some((-v) as i32)
    } else if v > 2147483647 {
        None
    } else {
        Some(v as i32)
    }
}

/// Where a line's output goes: the file named after its first redirection
/// operator (none if there is no operator or nothing follows it), whether the
/// operator names the error stream, and whether it appends.
pub struct Redirection {
    pub file: Option<Seq<char>>,
    pub to_stderr: bool,
    pub append: bool,
}

/// Whether an operator ends in `>>`.
pub open spec fn is_append_operator(op: Seq<char>) -> bool {
    op.len() >= 2 && op[op.len() - 2] == '>'
}

/// The redirection that the first operator token among `w` sets up.
pub open spec fn redirection_of(w: Seq<Token>) -> Redirection
    decreases w.len(),
{
    if w.len() == 0 {
        Redirection { file: None, to_stderr: false, append: false }
    } else if w[0].is_operator {
        Redirection {
            file: if w.len() > 1 {
                Some(w[1].text)
            } else {
                None
            },
            to_stderr: w[0].text.len() > 0 && w[0].text[0] == '2',
            append: is_append_operator(w[0].text),
        }
    } else {
        redirection_of(w.drop_first())
    }
}

/// The command that a line's tokens make: the first token's text picks a
/// builtin by exact name, or else names an external program.
pub open spec fn classify(w: Seq<Token>) -> Option<CommandView> {
    if w.len() == 0 {
        None
    } else if w[0].text == "exit"@ {
        Some(
            CommandView::Exit(
                if w.len() > 1 {
                    parse_i32(w[1].text)
                } else {
                    None
                },
            ),
        )
    } else if w[0].text == "pwd"@ {
        Some(CommandView::Pwd)
    } else if w[0].text == "type"@ {
        Some(CommandView::Type(w.drop_first()))
    } else if w[0].text == "cd"@ {
        Some(CommandView::Cd(w.drop_first()))
    } else if w[0].text == "echo"@ {
        Some(CommandView::Echo(w.drop_first()))
    } else {
        Some(CommandView::External(w[0].text, w.drop_first()))
    }
}

pub open spec fn opt_view(o: Option<String>) -> Option<Seq<char>> {
    match o {
        Some(s) => Some(s@),
        None => None,
    }
}

/// Whether a word is the given text.
pub fn word_is(w: &String, lit: &str) -> (r: bool)
    ensures
        r == (w@ == lit@),
{
    *w == String::from_str(lit)
}

/// A line made only of whitespace has no tokens, so a reader over it
/// (`SplitArgs::new`) yields nothing, and it makes no command: both
/// `parse_type` and `parse_command` return `None` on it.
pub proof fn lemma_blank_line_has_no_command(line: Seq<char>)
    requires
        forall|k: int| 0 <= k < line.len() ==> is_space(#[trigger] line[k]),
    ensures
        split_tokens(line) == Seq::<Token>::empty(),
        classify(split_tokens(line)) is None,
{
    lemma_trim_end_of_blank(line);
    assert(words_from(Seq::<char>::empty(), 0) =~= Seq::<Token>::empty());
}

/// Classifying a line is a function of the line alone, and the command-kind
/// pass and the redirection pass agree: a line has a command exactly when it
/// has tokens, so `parse_type` and `parse_command` return `Some` on the same
/// lines, and on those both carry `classify(split_tokens(line))`.
pub proof fn lemma_passes_agree(line: Seq<char>)
    ensures
        classify(split_tokens(line)) is None <==> split_tokens(line).len() == 0,
        classify(split_tokens(line)) is Some ==> split_tokens(line).len() > 0,
{
}

proof fn lemma_trim_end_of_blank(s: Seq<char>)
    requires
        forall|k: int| 0 <= k < s.len() ==> is_space(#[trigger] s[k]),
    ensures
        trim_end(s) == Seq::<char>::empty(),
    decreases s.len(),
{
    if s.len() > 0 {
        assert(is_space(s[s.len() - 1]));
        lemma_trim_end_of_blank(s.drop_last());
    } else {
        assert(s =~= Seq::<char>::empty());
    }
}

/// Classifies lines of input.
pub struct CommandParser;

impl CommandParser {
    /// The command of a line, or `None` for a line without tokens.
    pub fn parse_type(input: &str) -> (r: Option<ShellCommandType>)
        ensures
            r is None <==> split_tokens(input@).len() == 0,
            r is Some ==> r->0.wf() && classify(split_tokens(input@)) == Some(r->0@),
    {
        let mut parts = SplitArgs::new(input);
        let first = match parts.next() {
            None => return None,
            Some(f) => f,
        };
        if word_is(&first, "exit") {
            let code = match parts.next() {
                Some(a) => parse_i32_exec(&a),
                None => None,
            };
            Some(ShellCommandType::Exit(code))
        } else if word_is(&first, "pwd") {
            Some(ShellCommandType::Pwd)
        } else if word_is(&first, "type") {
            Some(ShellCommandType::Type(parts))
        } else if word_is(&first, "cd") {
            Some(ShellCommandType::Cd(parts))
        } else if word_is(&first, "echo") {
            Some(ShellCommandType::Echo(parts))
        } else {
            Some(ShellCommandType::External(first, parts))
        }
    }

    /// The command of a line together with its redirection, or `None` for a
    /// line without tokens.
    pub fn parse_command(input: &str) -> (r: Option<ShellCommand>)
        ensures
            r is None <==> split_tokens(input@).len() == 0,
            r is Some ==> ({
                let c = r->0;
                &&& c.command.wf()
                &&& classify(split_tokens(input@)) == Some(c.command@)
                &&& redirection_of(split_tokens(input@)) == (Redirection {
                    file: opt_view(c.redirect_file),
                    to_stderr: c.redirect_stderr,
                    append: c.append,
                })
            }),
    {
        let command = match CommandParser::parse_type(input) {
            None => return None,
            Some(c) => c,
        };
        let mut parts = SplitArgs::new(input);
        loop
            invariant
                parts.wf(),
                redirection_of(parts@) == redirection_of(split_tokens(input@)),
                split_tokens(input@).len() > 0,
                command.wf(),
                classify(split_tokens(input@)) == Some(command@),
            decreases parts@.len(),
        {
            let ghost before = parts@;
            match parts.next_token() {
                None => {
                    return Some(ShellCommand::new(command, None, false, false));
                },
                Some((arg, is_op)) => {
                    if is_op {
                        let t = arg.as_str();
                        let n = t.unicode_len();
                        let to_stderr = n > 0 && t.get_char(0) == '2';
                        let append = n >= 2 && t.get_char(n - 2) == '>';
                        let file = parts.next();
                        return Some(ShellCommand::new(command, file, to_stderr, append));
                    }
                    assert(before.drop_first() == parts@);
                },
            }
        }
    }
}

} // verus!
