use vstd::prelude::*;

verus! {

/// Which quote, if any, is open while a word is being read.
#[derive(PartialEq, Eq, Structural, Clone, Copy)]
pub enum QuoteMode {
    Unquoted,
    Single,
    Double,
}

/// Unicode `White_Space`, the set that `char::is_whitespace` and `str::trim` use.
pub open spec fn is_space(c: char) -> bool {
    let v = c as u32;
    v == 32 || (9 <= v && v <= 13) || v == 0x85 || v == 0xa0 || v == 0x1680 || (0x2000 <= v
        && v <= 0x200a) || v == 0x2028 || v == 0x2029 || v == 0x202f || v == 0x205f || v == 0x3000
}

/// The character at `k`, or NUL past either end (NUL starts no operator).
pub open spec fn char_at(s: Seq<char>, k: int) -> char {
    if 0 <= k < s.len() {
        s[k]
    } else {
        '\0'
    }
}

/// Length of the longest redirection operator (`2>>`, `1>>`, `>>`, `2>`, `1>`, `>`)
/// that starts at `i`, or 0 where none does.
pub open spec fn operator_len_at(s: Seq<char>, i: int) -> int {
    let c0 = char_at(s, i);
    let c1 = char_at(s, i + 1);
    let c2 = char_at(s, i + 2);
    if (c0 == '1' || c0 == '2') && c1 == '>' && c2 == '>' {
        3
    } else if c0 == '>' && c1 == '>' {
        2
    } else if (c0 == '1' || c0 == '2') && c1 == '>' {
        2
    } else if c0 == '>' {
        1
    } else {
        0
    }
}

/// One token of a line: its text, and whether it is a redirection operator
/// (read outside quotes and unescaped) rather than a word.
pub struct Token {
    pub text: Seq<char>,
    pub is_operator: bool,
}

pub open spec fn quote_of(c: char) -> QuoteMode {
    if c == '"' {
        QuoteMode::Double
    } else {
        QuoteMode::Single
    }
}

/// Reads one token of `s` from position `i`, with `acc` already read and quote
/// state `q`. Returns the token's text, the position just after what it
/// consumed, and whether the token is a redirection operator.
pub open spec fn scan(s: Seq<char>, i: int, acc: Seq<char>, q: QuoteMode) -> (
    Seq<char>,
    int,
    bool,
)
    decreases s.len() - i,
{
    if i < 0 || i >= s.len() {
        (acc, i, false)
    } else if s[i] == '\\' {
        match q {
            QuoteMode::Unquoted => if i + 1 < s.len() {
                scan(s, i + 2, acc.push(s[i + 1]), q)
            } else {
                (acc, i + 1, false)
            },
            QuoteMode::Double => if i + 1 < s.len() {
                if s[i + 1] == '"' || s[i + 1] == '\\' {
                    scan(s, i + 2, acc.push(s[i + 1]), q)
                } else {
                    scan(s, i + 2, acc.push('\\').push(s[i + 1]), q)
                }
            } else {
                (acc, i + 1, false)
            },
            QuoteMode::Single => scan(s, i + 1, acc.push('\\'), q),
        }
    } else if s[i] == '"' || s[i] == '\'' {
        if q == quote_of(s[i]) {
            scan(s, i + 1, acc, QuoteMode::Unquoted)
        } else if q == QuoteMode::Unquoted {
            scan(s, i + 1, acc, quote_of(s[i]))
        } else {
            scan(s, i + 1, acc.push(s[i]), q)
        }
    } else if q == QuoteMode::Unquoted && is_space(s[i]) {
        (acc, i, false)
    } else if q == QuoteMode::Unquoted && operator_len_at(s, i) > 0 {
        if acc.len() > 0 {
            (acc, i, false)
        } else {
            (s.subrange(i, i + operator_len_at(s, i)), i + operator_len_at(s, i), true)
        }
    } else {
        scan(s, i + 1, acc.push(s[i]), q)
    }
}

/// First position at or after `i` that does not hold whitespace.
pub open spec fn skip_space(s: Seq<char>, i: int) -> int
    decreases s.len() - i,
{
    if 0 <= i < s.len() && is_space(s[i]) {
        skip_space(s, i + 1)
    } else {
        i
    }
}

/// The non-empty tokens of `s` from position `i` on.
pub open spec fn words_from(s: Seq<char>, i: int) -> Seq<Token>
    decreases s.len() - i,
    via words_from_decreases
{
    let j = skip_space(s, i);
    if i < 0 || j >= s.len() {
        seq![]
    } else {
        let (w, end, op) = scan(s, j, seq![], QuoteMode::Unquoted);
        if w.len() == 0 {
            words_from(s, end)
        } else {
            seq![Token { text: w, is_operator: op }] + words_from(s, end)
        }
    }
}

#[via_fn]
proof fn words_from_decreases(s: Seq<char>, i: int) {
    let j = skip_space(s, i);
    if 0 <= i && j < s.len() {
        lemma_skip_space(s, i);
        lemma_scan_progress(s, j);
    }
}

/// `s` without its trailing whitespace.
pub open spec fn trim_end(s: Seq<char>) -> Seq<char>
    decreases s.len(),
{
    if s.len() > 0 && is_space(s.last()) {
        trim_end(s.drop_last())
    } else {
        s
    }
}

/// The tokens of a raw line, in order.
pub open spec fn split_tokens(line: Seq<char>) -> Seq<Token> {
    words_from(trim_end(line), 0)
}

/// The texts of some tokens.
pub open spec fn texts(t: Seq<Token>) -> Seq<Seq<char>> {
    t.map_values(|x: Token| x.text)
}

pub open spec fn strings_view(v: Seq<String>) -> Seq<Seq<char>> {
    v.map_values(|x: String| x@)
}

pub proof fn lemma_skip_space(s: Seq<char>, i: int)
    requires
        0 <= i,
    ensures
        i <= skip_space(s, i),
        skip_space(s, i) < s.len() ==> !is_space(s[skip_space(s, i)]),
        forall|k: int| i <= k < skip_space(s, i) && k < s.len() ==> is_space(#[trigger] s[k]),
        i <= s.len() ==> skip_space(s, i) <= s.len(),
    decreases s.len() - i,
{
    if 0 <= i < s.len() && is_space(s[i]) {
        lemma_skip_space(s, i + 1);
    }
}

pub proof fn lemma_scan_bounds(s: Seq<char>, i: int, acc: Seq<char>, q: QuoteMode)
    requires
        0 <= i <= s.len(),
    ensures
        i <= scan(s, i, acc, q).1 <= s.len(),
    decreases s.len() - i,
{
    if i < s.len() {
        if s[i] == '\\' {
            match q {
                QuoteMode::Unquoted => if i + 1 < s.len() {
                    lemma_scan_bounds(s, i + 2, acc.push(s[i + 1]), q);
                },
                QuoteMode::Double => if i + 1 < s.len() {
                    lemma_scan_bounds(s, i + 2, acc.push(s[i + 1]), q);
                    lemma_scan_bounds(s, i + 2, acc.push('\\').push(s[i + 1]), q);
                },
                QuoteMode::Single => lemma_scan_bounds(s, i + 1, acc.push('\\'), q),
            }
        } else if s[i] == '"' || s[i] == '\'' {
            lemma_scan_bounds(s, i + 1, acc, QuoteMode::Unquoted);
            lemma_scan_bounds(s, i + 1, acc, quote_of(s[i]));
            lemma_scan_bounds(s, i + 1, acc.push(s[i]), q);
        } else {
            lemma_scan_bounds(s, i + 1, acc.push(s[i]), q);
        }
    }
}

/// A token read from a non-whitespace position consumes at least one character.
pub proof fn lemma_scan_progress(s: Seq<char>, j: int)
    requires
        0 <= j < s.len(),
        !is_space(s[j]),
    ensures
        j < scan(s, j, seq![], QuoteMode::Unquoted).1 <= s.len(),
{
    let q = QuoteMode::Unquoted;
    let e = Seq::<char>::empty();
    if s[j] == '\\' {
        if j + 1 < s.len() {
            lemma_scan_bounds(s, j + 2, e.push(s[j + 1]), q);
        }
    } else if s[j] == '"' || s[j] == '\'' {
        lemma_scan_bounds(s, j + 1, e, quote_of(s[j]));
    } else {
        lemma_scan_bounds(s, j + 1, e.push(s[j]), q);
    }
}

/// Whitespace test on one character, as `char::is_whitespace` decides it.
pub fn is_space_char(c: char) -> (r: bool)
    ensures
        r == is_space(c),
{
    let v = c as u32;
    v == 32 || (9 <= v && v <= 13) || v == 0x85 || v == 0xa0 || v == 0x1680 || (0x2000 <= v
        && v <= 0x200a) || v == 0x2028 || v == 0x2029 || v == 0x202f || v == 0x205f || v == 0x3000
}

fn char_at_exec(s: &Vec<char>, k: usize) -> (r: char)
    ensures
        r == char_at(s@, k as int),
{
    if k < s.len() {
        s[k]
    } else {
        '\0'
    }
}

fn operator_len(s: &Vec<char>, i: usize) -> (r: usize)
    requires
        i < s.len(),
    ensures
        r == operator_len_at(s@, i as int),
{
    let c0 = s[i];
    let c1 = char_at_exec(s, i + 1);
    let c2 = if s.len() - i > 2 {
        s[i + 2]
    } else {
        '\0'
    };
    if (c0 == '1' || c0 == '2') && c1 == '>' && c2 == '>' {
        3
    } else if c0 == '>' && c1 == '>' {
        2
    } else if (c0 == '1' || c0 == '2') && c1 == '>' {
        2
    } else if c0 == '>' {
        1
    } else {
        0
    }
}

/// Relies on `String::push`, which appends one character at the end.
#[verifier::external_body]
fn push_char(s: &mut String, c: char)
    ensures
        final(s)@ == old(s)@.push(c),
{
    s.push(c)
}

/// The text made of the given characters, in order.
pub fn string_from_chars(v: &Vec<char>) -> (r: String)
    ensures
        r@ == v@,
{
    let mut r = String::new();
    let mut k: usize = 0;
    while k < v.len()
        invariant
            k <= v.len(),
            r@ == v@.subrange(0, k as int),
        decreases v.len() - k,
    {
        push_char(&mut r, v[k]);
        k += 1;
        assert(r@ =~= v@.subrange(0, k as int));
    }
    assert(r@ =~= v@);
    r
}

/// Reads the token that starts at `start`: the executable form of `scan`.
fn scan_word(s: &Vec<char>, start: usize) -> (r: (Vec<char>, usize, bool))
    requires
        start < s.len(),
    ensures
        (r.0@, r.1 as int, r.2) == scan(s@, start as int, seq![], QuoteMode::Unquoted),
{
    let mut acc: Vec<char> = Vec::new();
    let mut q = QuoteMode::Unquoted;
    let mut i: usize = start;
    while i < s.len()
        invariant
            start <= i <= s.len(),
            scan(s@, i as int, acc@, q) == scan(s@, start as int, seq![], QuoteMode::Unquoted),
        decreases s.len() - i,
    {
        let c = s[i];
        if c == '\\' {
            match q {
                QuoteMode::Unquoted => {
                    if i + 1 < s.len() {
                        acc.push(s[i + 1]);
                        i += 2;
                    } else {
                        return (acc, i + 1, false);
                    }
                },
                QuoteMode::Double => {
                    if i + 1 < s.len() {
                        let n = s[i + 1];
                        if n == '"' || n == '\\' {
                            acc.push(n);
                        } else {
                            acc.push('\\');
                            acc.push(n);
                        }
                        i += 2;
                    } else {
                        return (acc, i + 1, false);
                    }
                },
                QuoteMode::Single => {
                    acc.push('\\');
                    i += 1;
                },
            }
        } else if c == '"' || c == '\'' {
            let m = if c == '"' {
                QuoteMode::Double
            } else {
                QuoteMode::Single
            };
            if q == m {
                q = QuoteMode::Unquoted;
            } else if q == QuoteMode::Unquoted {
                q = m;
            } else {
                acc.push(c);
            }
            i += 1;
        } else if q == QuoteMode::Unquoted && is_space_char(c) {
            return (acc, i, false);
        } else {
            let n = if q == QuoteMode::Unquoted {
                operator_len(s, i)
            } else {
                0
            };
            if n > 0 {
                if acc.len() > 0 {
                    return (acc, i, false);
                }
                let mut op: Vec<char> = Vec::new();
                let mut k: usize = i;
                while k < i + n
                    invariant
                        i <= k <= i + n,
                        i + n <= s.len(),
                        op@ == s@.subrange(i as int, k as int),
                    decreases i + n - k,
                {
                    op.push(s[k]);
                    k += 1;
                    assert(op@ =~= s@.subrange(i as int, k as int));
                }
                return (op, i + n, true);
            }
            acc.push(c);
            i += 1;
        }
    }
    (acc, i, false)
}

/// First position at or after `i` that does not hold whitespace.
fn skip_spaces(s: &Vec<char>, i: usize) -> (r: usize)
    requires
        i <= s.len(),
    ensures
        r as int == skip_space(s@, i as int),
        i <= r <= s.len(),
{
    let mut j = i;
    while j < s.len() && is_space_char(s[j])
        invariant
            i <= j <= s.len(),
            skip_space(s@, j as int) == skip_space(s@, i as int),
        decreases s.len() - j,
    {
        j += 1;
    }
    j
}

/// A forward-only reader of the tokens of one line.
pub struct SplitArgs {
    chars: Vec<char>,
    pos: usize,
}

impl View for SplitArgs {
    type V = Seq<Token>;

    /// The tokens that are still to come.
    closed spec fn view(&self) -> Seq<Token> {
        words_from(self.chars@, self.pos as int)
    }
}

impl SplitArgs {
    pub closed spec fn wf(&self) -> bool {
        self.pos <= self.chars.len()
    }

    /// A reader over `input`, which leading and trailing whitespace do not affect.
    pub fn new(input: &str) -> (r: Self)
        ensures
            r.wf(),
            r@ == split_tokens(input@),
    {
        let n = input.unicode_len();
        let mut e: usize = n;
        assert(input@.subrange(0, n as int) =~= input@);
        while e > 0 && is_space_char(input.get_char(e - 1))
            invariant
                e <= n == input@.len(),
                trim_end(input@.subrange(0, e as int)) == trim_end(input@),
            decreases e,
        {
            assert(input@.subrange(0, e as int).drop_last() =~= input@.subrange(0, e - 1));
            e -= 1;
        }
        let mut chars: Vec<char> = Vec::new();
        let mut k: usize = 0;
        while k < e
            invariant
                k <= e <= n == input@.len(),
                chars@ == input@.subrange(0, k as int),
            decreases e - k,
        {
            chars.push(input.get_char(k));
            k += 1;
            assert(chars@ =~= input@.subrange(0, k as int));
        }
        assert(trim_end(chars@) == chars@);
        SplitArgs { chars, pos: 0 }
    }

    /// The next token with whether it is a redirection operator, or `None`
    /// once the line is used up.
    pub fn next_token(&mut self) -> (r: Option<(String, bool)>)
        requires
            old(self).wf(),
        ensures
            final(self).wf(),
            match r {
                None => old(self)@.len() == 0 && final(self)@ == old(self)@,
                Some(t) => old(self)@.len() > 0 && t.0@ == old(self)@[0].text && t.1 == old(
                    self,
                )@[0].is_operator && final(self)@ == old(self)@.drop_first(),
            },
    {
        loop
            invariant
                self.wf(),
                self@ == old(self)@,
            decreases self.chars.len() - self.pos,
        {
            let s = Ghost(self.chars@);
            let p = self.pos;
            let j = skip_spaces(&self.chars, p);
            if j == self.chars.len() {
                return None;
            }
            proof {
                lemma_skip_space(s@, p as int);
                lemma_scan_progress(s@, j as int);
            }
            let (w, end, op) = scan_word(&self.chars, j);
            self.pos = end;
            if w.len() > 0 {
                let t = string_from_chars(&w);
                let ghost tok = Token { text: w@, is_operator: op };
                assert((seq![tok] + words_from(s@, end as int)).drop_first() =~= words_from(
                    s@,
                    end as int,
                ));
                return Some((t, op));
            }
        }
    }

    /// The text of the next token, or `None` once the line is used up.
    pub fn next(&mut self) -> (r: Option<String>)
        requires
            old(self).wf(),
        ensures
            final(self).wf(),
            match r {
                None => old(self)@.len() == 0 && final(self)@ == old(self)@,
                Some(w) => old(self)@.len() > 0 && w@ == old(self)@[0].text && final(self)@
                    == old(self)@.drop_first(),
            },
    {
        match self.next_token() {
            None => None,
            Some((w, _)) => Some(w),
        }
    }

    /// The texts of all the tokens that are still to come, in order.
    pub fn collect(self) -> (r: Vec<String>)
        requires
            self.wf(),
        ensures
            strings_view(r@) == texts(self@),
    {
        let mut it = self;
        let mut r: Vec<String> = Vec::new();
        loop
            invariant
                it.wf(),
                strings_view(r@) + texts(it@) == texts(self@),
            decreases it@.len(),
        {
            let ghost rest = it@;
            match it.next() {
                None => {
                    assert(strings_view(r@) + texts(it@) =~= strings_view(r@));
                    return r;
                },
                Some(w) => {
                    let ghost before = strings_view(r@);
                    r.push(w);
                    assert(strings_view(r@) =~= before.push(w@));
                    assert(before + texts(rest) =~= strings_view(r@) + texts(it@));
                },
            }
        }
    }
}

} // verus!
