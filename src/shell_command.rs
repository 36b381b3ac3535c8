use vstd::prelude::*;

use crate::arg_parser::{
    is_space, is_space_char, string_from_chars, strings_view, texts, trim_end, SplitArgs, Token,
};
use crate::command_parser::{classify, opt_view, word_is};

verus! {

/// What a command is, with the tokens it has not consumed yet.
pub enum ShellCommandType {
    Exit(Option<i32>),
    Echo(SplitArgs),
    Type(SplitArgs),
    Pwd,
    Cd(SplitArgs),
    External(String, SplitArgs),
}

/// The mathematical model of a `ShellCommandType`.
pub enum CommandView {
    Exit(Option<int>),
    Echo(Seq<Token>),
    Type(Seq<Token>),
    Pwd,
    Cd(Seq<Token>),
    External(Seq<char>, Seq<Token>),
}

impl ShellCommandType {
    pub open spec fn wf(&self) -> bool {
        match self {
            ShellCommandType::Echo(p) => p.wf(),
            ShellCommandType::Type(p) => p.wf(),
            ShellCommandType::Cd(p) => p.wf(),
            ShellCommandType::External(_, p) => p.wf(),
            _ => true,
        }
    }
}

impl View for ShellCommandType {
    type V = CommandView;

    open spec fn view(&self) -> CommandView {
        match self {
            ShellCommandType::Exit(c) => CommandView::Exit(
                match c {
                    Some(n) => Some(*n as int),
                    None => None,
                },
            ),
            ShellCommandType::Echo(p) => CommandView::Echo(p@),
            ShellCommandType::Type(p) => CommandView::Type(p@),
            ShellCommandType::Pwd => CommandView::Pwd,
            ShellCommandType::Cd(p) => CommandView::Cd(p@),
            ShellCommandType::External(name, p) => CommandView::External(name@, p@),
        }
    }
}

/// One input line, classified, with where its output goes.
pub struct ShellCommand {
    pub command: ShellCommandType,
    pub redirect_file: Option<String>,
    pub redirect_stderr: bool,
    pub append: bool,
}

impl ShellCommand {
    pub fn new(
        command: ShellCommandType,
        redirect_file: Option<String>,
        redirect_stderr: bool,
        append: bool,
    ) -> (r: Self)
        ensures
            r.command == command,
            r.redirect_file == redirect_file,
            r.redirect_stderr == redirect_stderr,
            r.append == append,
    {
        ShellCommand { command, redirect_file, redirect_stderr, append }
    }
}

/// Where the output of one command goes: the text for the redirection file,
/// for the real standard output and for the real standard error.
pub struct OutputRoute {
    pub to_file: Option<String>,
    pub to_stdout: Option<String>,
    pub to_stderr: Option<String>,
}

impl ShellCommand {
    /// Sends the stream that the redirection names to the file, if there is a
    /// file, and every other output to its own real stream.
    pub fn route(&self, stdout: Option<String>, stderr: Option<String>) -> (r: OutputRoute)
        ensures
            self.redirect_file is None ==> r.to_file is None && r.to_stdout == stdout
                && r.to_stderr == stderr,
            self.redirect_file is Some && self.redirect_stderr ==> r.to_file == stderr
                && r.to_stdout == stdout && r.to_stderr is None,
            self.redirect_file is Some && !self.redirect_stderr ==> r.to_file == stdout
                && r.to_stdout is None && r.to_stderr == stderr,
    {
        if self.redirect_file.is_none() {
            OutputRoute { to_file: None, to_stdout: stdout, to_stderr: stderr }
        } else if self.redirect_stderr {
            OutputRoute { to_file: stderr, to_stdout: stdout, to_stderr: None }
        } else {
            OutputRoute { to_file: stdout, to_stdout: None, to_stderr: stderr }
        }
    }
}

/// The texts of the tokens before the first operator token.
pub open spec fn args_before_operator(w: Seq<Token>) -> Seq<Seq<char>>
    decreases w.len(),
{
    if w.len() == 0 || w[0].is_operator {
        seq![]
    } else {
        seq![w[0].text] + args_before_operator(w.drop_first())
    }
}

/// The tokens after the first operator token (none if there is none).
pub open spec fn after_operator(w: Seq<Token>) -> Seq<Token>
    decreases w.len(),
{
    if w.len() == 0 {
        w
    } else if w[0].is_operator {
        w.drop_first()
    } else {
        after_operator(w.drop_first())
    }
}

/// Words joined by single spaces.
pub open spec fn join_words(w: Seq<Seq<char>>) -> Seq<char>
    decreases w.len(),
{
    if w.len() == 0 {
        seq![]
    } else if w.len() == 1 {
        w[0]
    } else {
        join_words(w.drop_last()) + " "@ + w.last()
    }
}

pub open spec fn is_builtin_name(n: Seq<char>) -> bool {
    n == "exit"@ || n == "pwd"@ || n == "type"@ || n == "cd"@ || n == "echo"@
}

/// The classification of a line and the builtin test that `type` applies to a
/// word reach the same builtin-or-external decision on the line's first word,
/// and that decision depends on nothing else.
pub proof fn lemma_builtin_decision_agrees(w: Seq<Token>, v: Seq<Token>)
    requires
        w.len() > 0,
        v.len() > 0,
        w[0].text == v[0].text,
    ensures
        (classify(w)->0 is External) <==> !is_builtin_name(w[0].text),
        (classify(w)->0 is External) <==> (classify(v)->0 is External),
{
}

/// What `echo` prints for its arguments.
pub open spec fn echo_text(args: Seq<Seq<char>>) -> Seq<char> {
    join_words(args) + "\n"@
}

/// What `type` reports of one name, given where a search of `PATH` found it.
pub open spec fn type_text(name: Seq<char>, found: Option<Seq<char>>) -> Seq<char> {
    if is_builtin_name(name) {
        name + " is a shell builtin\n"@
    } else {
        match found {
            Some(p) => name + " is "@ + p + "\n"@,
            None => name + ": not found\n"@,
        }
    }
}

/// What `type` reports of several names, one line each, where `found[k]` is
/// where a search of `PATH` found `names[k]`.
pub open spec fn type_report_text(names: Seq<Seq<char>>, found: Seq<Option<Seq<char>>>) -> Seq<
    char,
>
    decreases names.len(),
{
    if names.len() == 0 || found.len() != names.len() {
        seq![]
    } else {
        type_report_text(names.drop_last(), found.drop_last()) + type_text(
            names.last(),
            found.last(),
        )
    }
}

pub open spec fn found_view(found: Seq<Option<String>>) -> Seq<Option<Seq<char>>> {
    found.map_values(|o: Option<String>| opt_view(o))
}

pub open spec fn home_or_dot(home: Option<Seq<char>>) -> Seq<char> {
    match home {
        Some(h) => h,
        None => "."@,
    }
}

/// The directory that `cd` goes to: home for no argument or for `~`, else the
/// first argument followed at once by the texts of all the other tokens joined
/// with spaces.
pub open spec fn cd_path(args: Seq<Token>, home: Option<Seq<char>>) -> Seq<char> {
    if args.len() == 0 || args[0].text == "~"@ {
        home_or_dot(home)
    } else {
        args[0].text + join_words(texts(args.drop_first()))
    }
}

pub open spec fn cd_failure_text(path: Seq<char>) -> Seq<char> {
    "cd: "@ + path + ": No such file or directory\n"@
}

pub open spec fn not_found_text(cmd: Seq<char>) -> Seq<char> {
    cmd + ": command not found\n"@
}

/// The file that a search of directory `dir` looks for.
pub open spec fn candidate_path(dir: Seq<char>, cmd: Seq<char>) -> Seq<char> {
    dir + "/"@ + cmd
}

/// Takes the arguments of a command: the texts of the tokens up to the first
/// operator token, which is consumed too. A quoted or escaped `>` is an
/// argument like any other.
pub fn take_arguments(parts: &mut SplitArgs) -> (r: Vec<String>)
    requires
        old(parts).wf(),
    ensures
        final(parts).wf(),
        strings_view(r@) == args_before_operator(old(parts)@),
        final(parts)@ == after_operator(old(parts)@),
{
    let mut r: Vec<String> = Vec::new();
    loop
        invariant
            parts.wf(),
            strings_view(r@) + args_before_operator(parts@) == args_before_operator(old(parts)@),
            after_operator(parts@) == after_operator(old(parts)@),
        decreases parts@.len(),
    {
        let ghost before = parts@;
        match parts.next_token() {
            None => {
                assert(strings_view(r@) + args_before_operator(parts@) =~= strings_view(r@));
                return r;
            },
            Some((w, is_op)) => {
                if is_op {
                    assert(strings_view(r@) + args_before_operator(before) =~= strings_view(r@));
                    return r;
                }
                let ghost old_r = strings_view(r@);
                r.push(w);
                assert(strings_view(r@) =~= old_r.push(w@));
                assert(old_r + args_before_operator(before) =~= strings_view(r@)
                    + args_before_operator(parts@));
            },
        }
    }
}

/// Words joined by single spaces.
pub fn join_args(args: &Vec<String>) -> (r: String)
    ensures
        r@ == join_words(strings_view(args@)),
{
    let ghost w = strings_view(args@);
    let mut r = String::new();
    let mut k: usize = 0;
    while k < args.len()
        invariant
            k <= args.len(),
            w == strings_view(args@),
            r@ == join_words(w.subrange(0, k as int)),
        decreases args.len() - k,
    {
        if k > 0 {
            r.append(" ");
        }
        r.append(args[k].as_str());
        k += 1;
        assert(w.subrange(0, k as int).drop_last() =~= w.subrange(0, k - 1));
    }
    assert(w.subrange(0, k as int) =~= w);
    r
}

/// What `echo` prints for its arguments.
pub fn echo_output(args: &Vec<String>) -> (r: String)
    ensures
        r@ == echo_text(strings_view(args@)),
{
    let mut r = join_args(args);
    r.append("\n");
    r
}

/// Whether a name is one of the builtin commands.
pub fn is_builtin(name: &String) -> (r: bool)
    ensures
        r == is_builtin_name(name@),
{
    word_is(name, "exit") || word_is(name, "pwd") || word_is(name, "type") || word_is(name, "cd")
        || word_is(name, "echo")
}

/// What `type` reports of one name; `found` is where a search of `PATH` found
/// it, which matters only for a name that is not a builtin.
pub fn type_line(name: &String, found: Option<String>) -> (r: String)
    ensures
        r@ == type_text(name@, opt_view(found)),
{
    let mut r = name.clone();
    if is_builtin(name) {
        r.append(" is a shell builtin\n");
    } else {
        match found {
            Some(p) => {
                r.append(" is ");
                r.append(p.as_str());
                r.append("\n");
            },
            None => {
                r.append(": not found\n");
            },
        }
    }
    r
}

/// What `type` prints for its names, given where a search of `PATH` found each
/// of them (`found` is read only for names that are not builtins).
pub fn type_output(names: &Vec<String>, found: &Vec<Option<String>>) -> (r: String)
    requires
        found.len() == names.len(),
    ensures
        r@ == type_report_text(strings_view(names@), found_view(found@)),
{
    let ghost n = strings_view(names@);
    let ghost f = found_view(found@);
    let mut r = String::new();
    let mut k: usize = 0;
    while k < names.len()
        invariant
            k <= names.len() == found.len(),
            n == strings_view(names@),
            f == found_view(found@),
            r@ == type_report_text(n.subrange(0, k as int), f.subrange(0, k as int)),
        decreases names.len() - k,
    {
        let line = type_line(&names[k], found[k].clone());
        r.append(line.as_str());
        k += 1;
        assert(n.subrange(0, k as int).drop_last() =~= n.subrange(0, k - 1));
        assert(f.subrange(0, k as int).drop_last() =~= f.subrange(0, k - 1));
    }
    assert(n.subrange(0, k as int) =~= n);
    assert(f.subrange(0, k as int) =~= f);
    r
}

/// The home directory, or the current one where none is known.
pub fn home_or_current(home: Option<String>) -> (r: String)
    ensures
        r@ == home_or_dot(opt_view(home)),
{
    match home {
        Some(h) => h,
        None => String::from_str("."),
    }
}

/// The directory that `cd` goes to; takes all the tokens that are left.
pub fn cd_target(parts: &mut SplitArgs, home: Option<String>) -> (r: String)
    requires
        old(parts).wf(),
    ensures
        final(parts).wf(),
        final(parts)@.len() == 0,
        r@ == cd_path(old(parts)@, opt_view(home)),
{
    let first = match parts.next() {
        None => return home_or_current(home),
        Some(f) => f,
    };
    if word_is(&first, "~") {
        loop
            invariant
                parts.wf(),
                old(parts)@.len() > 0,
                old(parts)@[0].text == "~"@,
            decreases parts@.len(),
        {
            if parts.next().is_none() {
                return home_or_current(home);
            }
        }
    }
    let ghost args = old(parts)@;
    let mut r = first.clone();
    let mut taken: Vec<String> = Vec::new();
    loop
        invariant
            parts.wf(),
            args == old(parts)@,
            args.len() > 0,
            args[0].text == first@,
            args[0].text != "~"@,
            strings_view(taken@) + texts(parts@) == texts(args.drop_first()),
            r@ == first@ + join_words(strings_view(taken@)),
        decreases parts@.len(),
    {
        let ghost before = parts@;
        match parts.next() {
            None => {
                assert(strings_view(taken@) =~= texts(args.drop_first()));
                return r;
            },
            Some(w) => {
                let ghost t = strings_view(taken@);
                if taken.len() > 0 {
                    r.append(" ");
                }
                r.append(w.as_str());
                taken.push(w);
                assert(strings_view(taken@) =~= t.push(w@));
                assert(strings_view(taken@).drop_last() =~= t);
                assert(t + texts(before) =~= strings_view(taken@) + texts(parts@));
            },
        }
    }
}

/// The message of a failed `cd`.
pub fn cd_failure_message(path: &String) -> (r: String)
    ensures
        r@ == cd_failure_text(path@),
{
    let mut r = String::from_str("cd: ");
    r.append(path.as_str());
    r.append(": No such file or directory\n");
    r
}

/// The message for a program that could not be started.
pub fn not_found_message(cmd: &String) -> (r: String)
    ensures
        r@ == not_found_text(cmd@),
{
    let mut r = cmd.clone();
    r.append(": command not found\n");
    r
}

/// The first candidate whose flag is set, where `present[k]` says whether
/// `candidates[k]` exists.
pub fn first_present(candidates: Vec<String>, present: &Vec<bool>) -> (r: Option<String>)
    requires
        present.len() == candidates.len(),
    ensures
        match r {
            None => forall|k: int| 0 <= k < present@.len() ==> !present@[k],
            Some(p) => exists|k: int|
                0 <= k < present@.len() && present@[k] && p == candidates@[k] && (forall|m: int|
                    0 <= m < k ==> !present@[m]),
        },
{
    let mut k: usize = 0;
    while k < candidates.len()
        invariant
            k <= candidates.len() == present.len(),
            forall|m: int| 0 <= m < k ==> !present@[m],
        decreases candidates.len() - k,
    {
        if present[k] {
            return Some(candidates[k].clone());
        }
        k += 1;
    }
    None
}

/// The files that a search for `cmd` looks at, one for each directory, in order.
pub fn path_candidates(cmd: &String, dirs: &Vec<String>) -> (r: Vec<String>)
    ensures
        r@.len() == dirs@.len(),
        forall|k: int| 0 <= k < dirs@.len() ==> #[trigger] r@[k]@ == candidate_path(dirs@[k]@, cmd@),
{
    let mut r: Vec<String> = Vec::new();
    let mut k: usize = 0;
    while k < dirs.len()
        invariant
            k <= dirs.len(),
            r@.len() == k,
            forall|m: int| 0 <= m < k ==> #[trigger] r@[m]@ == candidate_path(dirs@[m]@, cmd@),
        decreases dirs.len() - k,
    {
        let mut p = dirs[k].clone();
        p.append("/");
        p.append(cmd.as_str());
        r.push(p);
        k += 1;
    }
    r
}

/// `s` without its leading whitespace.
pub open spec fn trim_start(s: Seq<char>) -> Seq<char>
    decreases s.len(),
{
    if s.len() > 0 && is_space(s[0]) {
        trim_start(s.drop_first())
    } else {
        s
    }
}

/// `s` without leading or trailing whitespace.
pub open spec fn trim(s: Seq<char>) -> Seq<char> {
    trim_start(trim_end(s))
}

/// The pieces of `s` between its colons; there is one more piece than colons.
pub open spec fn split_colons(s: Seq<char>) -> Seq<Seq<char>>
    decreases s.len(),
{
    if s.len() == 0 {
        seq![seq![]]
    } else {
        let p = split_colons(s.drop_last());
        if s.last() == ':' {
            p.push(seq![])
        } else {
            p.update(p.len() - 1, p.last().push(s.last()))
        }
    }
}

/// The directories of a `PATH` value: its colon-separated pieces, trimmed.
pub open spec fn path_list(s: Seq<char>) -> Seq<Seq<char>> {
    split_colons(s).map_values(|p: Seq<char>| trim(p))
}

/// A piece of text without leading or trailing whitespace.
pub fn trim_chars(v: &Vec<char>) -> (r: String)
    ensures
        r@ == trim(v@),
{
    let mut b: usize = v.len();
    assert(v@.subrange(0, b as int) =~= v@);
    while b > 0 && is_space_char(v[b - 1])
        invariant
            b <= v.len(),
            trim_end(v@.subrange(0, b as int)) == trim_end(v@),
        decreases b,
    {
        assert(v@.subrange(0, b as int).drop_last() =~= v@.subrange(0, b - 1));
        b -= 1;
    }
    let ghost e = v@.subrange(0, b as int);
    assert(trim_end(e) == e);
    let mut a: usize = 0;
    assert(v@.subrange(0, b as int) =~= e);
    while a < b && is_space_char(v[a])
        invariant
            a <= b <= v.len(),
            e == v@.subrange(0, b as int),
            trim_start(v@.subrange(a as int, b as int)) == trim_start(e),
        decreases b - a,
    {
        assert(v@.subrange(a as int, b as int).drop_first() =~= v@.subrange(a + 1, b as int));
        a += 1;
    }
    let ghost t = v@.subrange(a as int, b as int);
    assert(trim_start(t) == t);
    let mut piece: Vec<char> = Vec::new();
    let mut k: usize = a;
    while k < b
        invariant
            a <= k <= b <= v.len(),
            piece@ == v@.subrange(a as int, k as int),
        decreases b - k,
    {
        piece.push(v[k]);
        k += 1;
        assert(piece@ =~= v@.subrange(a as int, k as int));
    }
    string_from_chars(&piece)
}

/// The directories of a `PATH` value, in order.
pub fn path_dirs(value: &str) -> (r: Vec<String>)
    ensures
        strings_view(r@) == path_list(value@),
{
    let n = value.unicode_len();
    let mut r: Vec<String> = Vec::new();
    let mut cur: Vec<char> = Vec::new();
    let ghost mut raw: Seq<Seq<char>> = seq![];
    let mut k: usize = 0;
    assert(value@.subrange(0, 0) =~= Seq::<char>::empty());
    while k < n
        invariant
            k <= n == value@.len(),
            split_colons(value@.subrange(0, k as int)) == raw.push(cur@),
            strings_view(r@) == raw.map_values(|p: Seq<char>| trim(p)),
        decreases n - k,
    {
        let c = value.get_char(k);
        let ghost before = value@.subrange(0, k as int);
        assert(value@.subrange(0, k + 1).drop_last() =~= before);
        if c == ':' {
            let t = trim_chars(&cur);
            let ghost old_r = strings_view(r@);
            r.push(t);
            proof {
                raw = raw.push(cur@);
            }
            cur = Vec::new();
            assert(strings_view(r@) =~= old_r.push(t@));
            assert(strings_view(r@) =~= raw.map_values(|p: Seq<char>| trim(p)));
            assert(split_colons(value@.subrange(0, k + 1)) =~= raw.push(cur@));
        } else {
            cur.push(c);
            assert(split_colons(value@.subrange(0, k + 1)) =~= raw.push(cur@));
        }
        k += 1;
    }
    let t = trim_chars(&cur);
    let ghost old_r = strings_view(r@);
    r.push(t);
    assert(value@.subrange(0, n as int) =~= value@);
    assert(strings_view(r@) =~= old_r.push(t@));
    assert(strings_view(r@) =~= raw.push(cur@).map_values(|p: Seq<char>| trim(p)));
    r
}

} // verus!
