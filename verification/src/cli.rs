//! The arguments of the command that runs another lint first and the
//! scanner behind it: which of them are the scanner's own.

use vstd::prelude::*;
use crate::linter::Diagnostic;
use crate::model::DiagnosticView;
use crate::rules::texts;
use crate::text::chars_of;
use crate::text::decimal_of;
use crate::text::push_decimal;
use crate::text::push_str;
use crate::text::eq_str;
use crate::text::string_of;
use crate::text::strip_prefix;
use crate::text::strip_prefix_of;

verus! {

/// The flag that names the path to scan; its value is the next argument.
pub const TARGET_FLAG: &'static str = "--perfcheck-target";

/// The same flag with its value behind `=`.
pub const TARGET_PREFIX: &'static str = "--perfcheck-target=";

/// The flag of the other lint that names a manifest.
pub const MANIFEST_FLAG: &'static str = "--manifest-path";

/// The same flag with its value behind `=`.
pub const MANIFEST_PREFIX: &'static str = "--manifest-path=";

/// The arguments from index `i` on, split: those for the other lint, added
/// to `passed`, and the path to scan, `target` where none is named. The
/// target flag and its value are taken out; of several the last counts; a
/// target flag at the end, without a value, is dropped.
pub open spec fn split_from(
    args: Seq<Seq<char>>,
    i: int,
    passed: Seq<Seq<char>>,
    target: Option<Seq<char>>,
) -> (Seq<Seq<char>>, Option<Seq<char>>)
    decreases args.len() - i,
{
    if i < 0 || i >= args.len() {
        (passed, target)
    } else if args[i] == TARGET_FLAG@ {
        if i + 1 < args.len() {
            split_from(args, i + 2, passed, Some(args[i + 1]))
        } else {
            (passed, target)
        }
    } else {
        match strip_prefix_of(args[i], TARGET_PREFIX@) {
            Some(value) => split_from(args, i + 1, passed, Some(value)),
            None => split_from(args, i + 1, passed.push(args[i]), target),
        }
    }
}

/// The arguments split into those for the other lint and the path to scan.
pub open spec fn split_args_of(args: Seq<Seq<char>>) -> (Seq<Seq<char>>, Option<Seq<char>>) {
    split_from(args, 0, Seq::empty(), None)
}

/// The manifest that the arguments from index `i` on name: the value of
/// the first manifest flag; none where that flag ends the arguments.
pub open spec fn manifest_from(args: Seq<Seq<char>>, i: int) -> Option<Seq<char>>
    decreases args.len() - i,
{
    if i < 0 || i >= args.len() {
        None
    } else if args[i] == MANIFEST_FLAG@ {
        if i + 1 < args.len() {
            Some(args[i + 1])
        } else {
            None
        }
    } else {
        match strip_prefix_of(args[i], MANIFEST_PREFIX@) {
            Some(value) => Some(value),
            None => manifest_from(args, i + 1),
        }
    }
}

/// The model of an optional string.
pub open spec fn text_of(s: Option<String>) -> Option<Seq<char>> {
    match s {
        Some(s) => Some(s@),
        None => None,
    }
}

/// Splits the arguments into those for the other lint and the path to
/// scan.
pub fn split_args(args: Vec<String>) -> (r: (Vec<String>, Option<String>))
    ensures
        (texts(r.0@), text_of(r.1)) == split_args_of(texts(args@)),
{
    let n = args.len();
    let mut passed: Vec<String> = Vec::with_capacity(n);
    let mut target: Option<String> = None;
    let mut i: usize = 0;
    proof {
        assert(texts(passed@) =~= Seq::empty());
    }
    while i < n
        invariant
            0 <= i <= n,
            n == args@.len(),
            split_from(texts(args@), i as int, texts(passed@), text_of(target)) == split_args_of(
                texts(args@),
            ),
        decreases n - i,
    {
        let arg = chars_of(args[i].as_str());
        proof {
            assert(texts(args@)[i as int] == arg@);
        }
        if eq_str(arg.as_slice(), TARGET_FLAG) {
            if n - i > 1 {
                proof {
                    assert(texts(args@)[i + 1] == args@[i + 1]@);
                }
                target = Some(args[i + 1].clone());
                i += 2;
            } else {
                i = n;
                proof {
                    reveal_with_fuel(split_from, 2);
                }
            }
        } else {
            match strip_prefix(arg.as_slice(), TARGET_PREFIX) {
                Some(value) => {
                    target = Some(string_of(value));
                },
                None => {
                    let ghost before = texts(passed@);
                    passed.push(args[i].clone());
                    proof {
                        assert(texts(passed@) =~= before.push(arg@));
                    }
                },
            }
            i += 1;
        }
    }
    (passed, target)
}

/// The manifest that the arguments name.
pub fn manifest_path(args: &[String]) -> (r: Option<String>)
    ensures
        text_of(r) == manifest_from(texts(args@), 0),
{
    let n = args.len();
    let mut i: usize = 0;
    while i < n
        invariant
            0 <= i <= n,
            n == args@.len(),
            manifest_from(texts(args@), i as int) == manifest_from(texts(args@), 0),
        decreases n - i,
    {
        let arg = chars_of(args[i].as_str());
        proof {
            assert(texts(args@)[i as int] == arg@);
        }
        if eq_str(arg.as_slice(), MANIFEST_FLAG) {
            if n - i > 1 {
                proof {
                    assert(texts(args@)[i + 1] == args@[i + 1]@);
                }
                return Some(args[i + 1].clone());
            }
            return None;
        }
        match strip_prefix(arg.as_slice(), MANIFEST_PREFIX) {
            Some(value) => {
                return Some(string_of(value));
            },
            None => {},
        }
        i += 1;
    }
    None
}

/// The path that is scanned where the arguments name none.
pub const DEFAULT_TARGET: &'static str = ".";

/// The path to scan: the one that the target flag names; without that flag
/// the directory of the manifest; without a manifest the default.
pub fn scan_target(flag: Option<String>, manifest_dir: Option<String>) -> (r: String)
    ensures
        r@ == match text_of(flag) {
            Some(path) => path,
            None => match text_of(manifest_dir) {
                Some(dir) => dir,
                None => DEFAULT_TARGET@,
            },
        },
{
    match flag {
        Some(path) => path,
        None => match manifest_dir {
            Some(dir) => dir,
            None => DEFAULT_TARGET.to_owned(),
        },
    }
}

/// The line that is printed for a diagnostic: path, line and column with
/// colons between them, the rule in square brackets, the message.
pub open spec fn report_line_of(d: DiagnosticView) -> Seq<char> {
    d.path + ":"@ + decimal_of(d.line) + ":"@ + decimal_of(d.column) + " ["@ + d.rule_id + "] "@
        + d.message
}

/// The line that is printed for a diagnostic.
pub fn report_line(d: &Diagnostic) -> (r: String)
    ensures
        r@ == report_line_of(d@),
{
    let mut out: Vec<char> = Vec::new();
    push_str(&mut out, d.path.as_str());
    push_str(&mut out, ":");
    push_decimal(&mut out, d.line);
    push_str(&mut out, ":");
    push_decimal(&mut out, d.column);
    push_str(&mut out, " [");
    push_str(&mut out, d.rule_id.as_str());
    push_str(&mut out, "] ");
    push_str(&mut out, d.message.as_str());
    proof {
        assert(out@ =~= report_line_of(d@));
    }
    string_of(out.as_slice())
}

/// The exit code of a scan that went through: 0 without diagnostics, 1
/// with any.
pub fn exit_code(diagnostics: &Vec<Diagnostic>) -> (code: i32)
    ensures
        code == if diagnostics@.len() == 0 {
            0i32
        } else {
            1i32
        },
{
    if diagnostics.len() == 0 {
        0
    } else {
        1
    }
}

} // verus!
