//! The compiler adapter's decisions: the argument list handed to the
//! external compiler, and the classification of what the compiler wrote to
//! its error stream. Spawning the process itself is left to the caller.

use vstd::prelude::*;

use crate::templates::{fmt_int, Config, ConfigV};
use crate::text;

verus! {

/// How a finished compiler run is reported.
#[derive(Clone, Copy, Debug, PartialEq, Eq, Structural)]
pub enum CompileStatus {
    /// Nothing on the error stream.
    Succeeded,
    /// Something on the error stream, but no mention of an error.
    Warned,
    /// The error stream mentions "Error" or "error".
    Failed,
}

/// The classification of a compiler's error stream: empty is success, a
/// mention of "Error" or "error" is fatal, anything else is a warning.
pub open spec fn stderr_class_chars(s: Seq<char>) -> CompileStatus {
    if s.len() == 0 {
        CompileStatus::Succeeded
    } else if text::contains_chars(s, "Error"@) || text::contains_chars(s, "error"@) {
        CompileStatus::Failed
    } else {
        CompileStatus::Warned
    }
}

/// Classify what the compiler wrote to its error stream.
pub fn stderr_class(stderr: &str) -> (r: CompileStatus)
    ensures
        r == stderr_class_chars(stderr@),
{
    let v = text::str_to_chars(stderr);
    if v.len() == 0 {
        return CompileStatus::Succeeded;
    }
    let upper = text::str_to_chars("Error");
    let lower = text::str_to_chars("error");
    if text::contains_at(&v, &upper) || text::contains_at(&v, &lower) {
        CompileStatus::Failed
    } else {
        CompileStatus::Warned
    }
}

/// The characters after the last line break of `s`.
pub open spec fn after_newline(s: Seq<char>) -> Seq<char>
    decreases s.len(),
{
    if s.len() == 0 || s.last() == '\n' {
        Seq::empty()
    } else {
        after_newline(s.drop_last()).push(s.last())
    }
}

/// The last line of a piece of text, as `str::lines` cuts it: a trailing
/// line break ends no further line, and a carriage return before the break
/// is no part of the line. Empty text has no lines at all.
pub open spec fn last_line_chars(s: Seq<char>) -> Option<Seq<char>> {
    if s.len() == 0 {
        None
    } else {
        let t = if s.last() == '\n' {
            s.drop_last()
        } else {
            s
        };
        let tail = after_newline(t);
        if tail.len() > 0 && tail.last() == '\r' {
            Some(tail.drop_last())
        } else {
            Some(tail)
        }
    }
}

/// The last line of a piece of text, used to cut a version string out of
/// what the compiler printed.
pub fn last_line(s: &str) -> (r: Option<String>)
    ensures
        match r {
            Some(t) => last_line_chars(s@) == Some(t@),
            None => last_line_chars(s@) is None,
        },
{
    let v = text::str_to_chars(s);
    let n = v.len();
    if n == 0 {
        return None;
    }
    let end0 = if v[n - 1] == '\n' {
        n - 1
    } else {
        n
    };
    let ghost t = v@.subrange(0, end0 as int);
    proof {
        if v@.last() == '\n' {
            assert(t =~= v@.drop_last());
        } else {
            assert(t =~= v@);
        }
    }
    let mut start = end0;
    proof {
        assert(v@.subrange(end0 as int, end0 as int) =~= Seq::<char>::empty());
        assert(after_newline(t) + Seq::<char>::empty() =~= after_newline(t));
    }
    while start > 0 && v[start - 1] != '\n'
        invariant
            start <= end0 <= v@.len(),
            t == v@.subrange(0, end0 as int),
            after_newline(t) == after_newline(v@.subrange(0, start as int)) + v@.subrange(
                start as int,
                end0 as int,
            ),
        decreases start,
    {
        proof {
            let pre = v@.subrange(0, start as int);
            assert(pre.last() == v@[start - 1]);
            assert(pre.drop_last() =~= v@.subrange(0, start - 1));
            assert(after_newline(pre) == after_newline(v@.subrange(0, start - 1)).push(
                v@[start - 1],
            ));
            assert(after_newline(v@.subrange(0, start - 1)).push(v@[start - 1]) + v@.subrange(
                start as int,
                end0 as int,
            ) =~= after_newline(v@.subrange(0, start - 1)) + v@.subrange(start - 1, end0 as int));
        }
        start = start - 1;
    }
    proof {
        let pre = v@.subrange(0, start as int);
        if start > 0 {
            assert(pre.last() == v@[start - 1]);
        }
        assert(after_newline(pre) =~= Seq::<char>::empty());
        assert(after_newline(t) =~= v@.subrange(start as int, end0 as int));
    }
    let end = if end0 > start && v[end0 - 1] == '\r' {
        end0 - 1
    } else {
        end0
    };
    proof {
        let tail = after_newline(t);
        if end0 > start && v@[end0 - 1] == '\r' {
            assert(tail.last() == v@[end0 - 1]);
            assert(tail.drop_last() =~= v@.subrange(start as int, end as int));
        }
    }
    let mut out: Vec<char> = Vec::new();
    let mut i = start;
    while i < end
        invariant
            start <= i <= end <= v@.len(),
            out@ == v@.subrange(start as int, i as int),
        decreases end - i,
    {
        out.push(v[i]);
        i = i + 1;
        proof {
            assert(out@ =~= v@.subrange(start as int, i as int));
        }
    }
    Some(text::chars_to_string(&out))
}

/// The argument list for one compiler invocation: binary and ABI output
/// under `out`, the project's include paths, the optimizer flags when the
/// configuration asks for them, and the source file last.
pub open spec fn solc_args_chars(file: Seq<char>, out: Seq<char>, c: ConfigV) -> Seq<Seq<char>> {
    let base = seq![
        "--bin"@,
        "--abi"@,
        "--base-path"@,
        "./contracts"@,
        "--include-path"@,
        "./libs"@,
        "--include-path"@,
        "./node_modules"@,
        "--output-dir"@,
        out,
    ];
    let opt = if c.optimize {
        seq!["--optimize"@, "--optimize-runs"@, fmt_int(c.runs)]
    } else {
        Seq::<Seq<char>>::empty()
    };
    base + opt + seq![file]
}

/// Build the argument list for compiling `file` into `out`.
pub fn solc_args(file: &String, out: &String, config: &Config) -> (r: Vec<String>)
    ensures
        r@.map_values(|s: String| s@) == solc_args_chars(file@, out@, config@),
{
    let mut r: Vec<String> = Vec::new();
    r.push(String::from_str("--bin"));
    r.push(String::from_str("--abi"));
    r.push(String::from_str("--base-path"));
    r.push(String::from_str("./contracts"));
    r.push(String::from_str("--include-path"));
    r.push(String::from_str("./libs"));
    r.push(String::from_str("--include-path"));
    r.push(String::from_str("./node_modules"));
    r.push(String::from_str("--output-dir"));
    r.push(out.clone());
    if config.compiler.optimize {
        r.push(String::from_str("--optimize"));
        r.push(String::from_str("--optimize-runs"));
        r.push(crate::templates::int_text(config.compiler.runs));
    }
    r.push(file.clone());
    proof {
        assert(r@.map_values(|s: String| s@) =~= solc_args_chars(file@, out@, config@));
    }
    r
}

} // verus!
