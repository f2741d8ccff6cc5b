//! Launcher scripts: a shell script that puts the bundle's own libraries on
//! the dynamic linker's search path and starts a program of the bundle.
use vstd::prelude::*;

use crate::generate::BuildError;
use crate::ldcache::texts;

verus! {

/// The words of a command line by POSIX shell rules; `None` where the text
/// cannot be split (an unclosed quote).
pub uninterp spec fn shell_split_of(s: Seq<char>) -> Option<Seq<Seq<char>>>;

/// Relies on `shell_words::split`: the words of the text by POSIX shell
/// rules, or an error on an unclosed quote.
#[verifier::external_body]
fn split_words(s: &str) -> (r: Option<Vec<String>>)
    ensures
        match r {
            Some(v) => shell_split_of(s@) == Some(texts(v@)),
            None => shell_split_of(s@).is_none(),
        },
{
    shell_words::split(s).ok()
}

/// The lines before the command: the script's directory is found, and its
/// `lib` directory is added to the library search path.
pub const SCRIPT_HEAD: &'static str = "#!/bin/sh\n\nset -x\n\nP=$(dirname \"$(busybox realpath \"$0\")\")\n\nexport LD_LIBRARY_PATH=\"${LD_LIBRARY_PATH}:${P}/lib\"\n\n\"${P}/";

/// What follows the program's path.
pub const SCRIPT_AFTER_PROGRAM: &'static str = "\" ";

/// What ends the script: the script's own arguments are passed on.
pub const SCRIPT_TAIL: &'static str = " \"$@\"\n\n";

/// Text to put between single quotes: each `'` closes the quotes, gives a
/// quote escaped by a backslash, and opens them again (`'\''`).
pub open spec fn single_quoted_body(s: Seq<char>) -> Seq<char>
    decreases s.len(),
{
    if s.len() == 0 {
        Seq::empty()
    } else {
        single_quoted_body(s.drop_last()) + if s.last() == '\'' {
            seq!['\'', '\\', '\'', '\'']
        } else {
            seq![s.last()]
        }
    }
}

/// The characters that keep a meaning between double quotes.
pub open spec fn special_in_double_quotes(c: char) -> bool {
    c == '"' || c == '$' || c == '`' || c == '\\'
}

/// Text to put between double quotes: each character that keeps a meaning
/// there is escaped by a backslash.
pub open spec fn double_quoted_body(s: Seq<char>) -> Seq<char>
    decreases s.len(),
{
    if s.len() == 0 {
        Seq::empty()
    } else {
        double_quoted_body(s.drop_last()) + if special_in_double_quotes(s.last()) {
            seq!['\\', s.last()]
        } else {
            seq![s.last()]
        }
    }
}

fn escape_single(s: &str) -> (r: String)
    ensures
        r@ == single_quoted_body(s@),
{
    let n = s.unicode_len();
    let mut r = String::new();
    let mut i: usize = 0;
    while i < n
        invariant
            i <= n == s@.len(),
            r@ == single_quoted_body(s@.subrange(0, i as int)),
        decreases n - i,
    {
        assert(s@.subrange(0, i + 1).drop_last() =~= s@.subrange(0, i as int));
        let c = s.get_char(i);
        if c == '\'' {
            proof {
                reveal_strlit("'\\''");
            }
            assert("'\\''"@ =~= seq!['\'', '\\', '\'', '\'']);
            r.append("'\\''");
        } else {
            let one = s.substring_char(i, i + 1);
            assert(one@ =~= seq![c]);
            r.append(one);
        }
        i = i + 1;
    }
    assert(s@.subrange(0, n as int) =~= s@);
    r
}

fn escape_double(s: &str) -> (r: String)
    ensures
        r@ == double_quoted_body(s@),
{
    let n = s.unicode_len();
    let mut r = String::new();
    let mut i: usize = 0;
    while i < n
        invariant
            i <= n == s@.len(),
            r@ == double_quoted_body(s@.subrange(0, i as int)),
        decreases n - i,
    {
        assert(s@.subrange(0, i + 1).drop_last() =~= s@.subrange(0, i as int));
        let c = s.get_char(i);
        let ghost r0 = r@;
        if c == '"' || c == '$' || c == '`' || c == '\\' {
            proof {
                reveal_strlit("\\");
            }
            assert("\\"@ =~= seq!['\\']);
            r.append("\\");
        }
        let one = s.substring_char(i, i + 1);
        assert(one@ =~= seq![c]);
        r.append(one);
        assert(r@ =~= r0 + if special_in_double_quotes(c) {
            seq!['\\', c]
        } else {
            seq![c]
        });
        i = i + 1;
    }
    assert(s@.subrange(0, n as int) =~= s@);
    r
}

/// The arguments, each in single quotes, separated by spaces.
pub open spec fn quoted_args(args: Seq<Seq<char>>) -> Seq<char>
    decreases args.len(),
{
    if args.len() == 0 {
        Seq::empty()
    } else {
        let rest = quoted_args(args.drop_last());
        let sep = if args.len() > 1 {
            seq![' ']
        } else {
            Seq::empty()
        };
        rest + sep + seq!['\''] + single_quoted_body(args.last()) + seq!['\'']
    }
}

/// The script that runs `program` of the bundle with `args` and then the
/// script's own arguments. The program stands between double quotes and
/// each argument between single quotes, escaped so that the shell reads
/// them back as they are.
pub open spec fn script_text(program: Seq<char>, args: Seq<Seq<char>>) -> Seq<char> {
    SCRIPT_HEAD@ + double_quoted_body(program) + SCRIPT_AFTER_PROGRAM@ + quoted_args(args) + SCRIPT_TAIL@
}

/// The launcher script for `command`, given its words: the first word is the
/// program and the others its arguments; where the command could not be
/// split, the whole text is the program, with no arguments.
pub open spec fn launcher_for(command: Seq<char>, words: Option<Seq<Seq<char>>>) -> Option<Seq<char>> {
    match words {
        None => Some(script_text(command, Seq::empty())),
        Some(w) => if w.len() == 0 {
            None
        } else {
            Some(script_text(w[0], w.drop_first()))
        },
    }
}

fn quote_args(args: &Vec<String>, from: usize) -> (r: String)
    requires
        from <= args@.len(),
    ensures
        r@ == quoted_args(texts(args@).skip(from as int)),
{
    let mut r = String::new();
    let mut i: usize = from;
    assert(texts(args@).skip(from as int).subrange(0, 0) =~= Seq::<Seq<char>>::empty());
    while i < args.len()
        invariant
            from <= i <= args@.len(),
            r@ == quoted_args(texts(args@).skip(from as int).subrange(0, i - from)),
        decreases args@.len() - i,
    {
        let ghost w = texts(args@).skip(from as int);
        assert(w.subrange(0, i + 1 - from).drop_last() =~= w.subrange(0, i - from));
        assert(w.subrange(0, i + 1 - from).last() == args@[i as int]@);
        let ghost r0 = r@;
        let ghost sep = if i > from {
            seq![' ']
        } else {
            Seq::<char>::empty()
        };
        if i > from {
            r.append(" ");
            proof {
                reveal_strlit(" ");
            }
            assert(" "@ =~= seq![' ']);
        }
        assert(r@ =~= r0 + sep);
        proof {
            reveal_strlit("'");
        }
        assert("'"@ =~= seq!['\'']);
        let body = escape_single(args[i].as_str());
        r.append("'");
        r.append(body.as_str());
        r.append("'");
        assert(r@ =~= r0 + sep + seq!['\''] + single_quoted_body(args@[i as int]@) + seq!['\'']);
        assert(quoted_args(w.subrange(0, i + 1 - from)) == quoted_args(w.subrange(0, i - from)) + sep + seq!['\''] + single_quoted_body(args@[i as int]@) + seq!['\'']);
        i = i + 1;
    }
    assert(texts(args@).skip(from as int).subrange(0, args@.len() - from) =~= texts(args@).skip(from as int));
    r
}

fn script(program: &str, args: &Vec<String>, from: usize) -> (r: String)
    requires
        from <= args@.len(),
    ensures
        r@ == script_text(program@, texts(args@).skip(from as int)),
{
    let q = quote_args(args, from);
    let p = escape_double(program);
    let r = String::from_str(SCRIPT_HEAD).concat(p.as_str()).concat(SCRIPT_AFTER_PROGRAM).concat(q.as_str()).concat(SCRIPT_TAIL);
    r
}

/// The launcher script for `command` given its words, as split by shell
/// rules; a command of no word is refused.
pub fn launcher_script(command: &str, words: Option<Vec<String>>) -> (r: Result<String, BuildError>)
    ensures
        match launcher_for(command@, match words {
            Some(v) => Some(texts(v@)),
            None => None,
        }) {
            Some(t) => r matches Ok(s) && s@ == t,
            None => r matches Err(BuildError::BadCommand(c)) && c@ == command@,
        },
{
    match words {
        None => {
            let empty: Vec<String> = Vec::new();
            assert(texts(empty@).skip(0) =~= Seq::<Seq<char>>::empty());
            Ok(script(command, &empty, 0))
        },
        Some(w) => {
            if w.len() == 0 {
                Err(BuildError::BadCommand(String::from_str(command)))
            } else {
                assert(texts(w@).skip(1) =~= texts(w@).drop_first());
                Ok(script(w[0].as_str(), &w, 1))
            }
        },
    }
}

/// The launcher script for `command`: its words by shell rules, the first
/// the program of the bundle to run.
pub fn make_launcher_sh(command: &str) -> (r: Result<String, BuildError>)
    ensures
        match launcher_for(command@, shell_split_of(command@)) {
            Some(t) => r matches Ok(s) && s@ == t,
            None => r matches Err(BuildError::BadCommand(c)) && c@ == command@,
        },
{
    let words = split_words(command);
    launcher_script(command, words)
}

} // verus!
