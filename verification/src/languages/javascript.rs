//! JavaScript and TypeScript, checked with the TypeScript compiler and with
//! eslint or biome.
use vstd::prelude::*;
use vstd::string::*;

use super::{has_succeeded, run_in_root, stderr_text, stdout_text};
use super::{ActionModel, CheckAction, CheckEvent, CheckReport, LanguageSupport, ReportModel, Tool};
use crate::languages;
use crate::utils;

verus! {

/// The support of JavaScript and TypeScript.
pub struct JavaScriptSupport;

/// There is a `tsconfig.json`.
pub open spec fn is_typed(seen: Seq<CheckEvent>) -> bool {
    seen[0] == CheckEvent::Exists(true)
}

/// How many actions come before eslint is looked for: a look for a
/// `tsconfig.json` and, where there is one, the TypeScript compiler.
pub open spec fn typing_actions(seen: Seq<CheckEvent>) -> int {
    if is_typed(seen) {
        2
    } else {
        1
    }
}

/// There is an eslint.
pub open spec fn has_eslint(seen: Seq<CheckEvent>) -> bool {
    languages::succeeded(seen[typing_actions(seen)])
}

/// There is no eslint, but a biome.
pub open spec fn has_biome(seen: Seq<CheckEvent>) -> bool {
    !has_eslint(seen) && languages::succeeded(seen[typing_actions(seen) + 1])
}

/// A program did not end badly: it ended well, or did not end at all.
pub open spec fn not_failed(e: CheckEvent) -> bool {
    e matches CheckEvent::Exited { success, .. } ==> success
}

/// The report of a check whose actions have all been done.
pub open spec fn js_report(seen: Seq<CheckEvent>) -> ReportModel {
    let typed = is_typed(seen);
    let linted = has_eslint(seen) || has_biome(seen);
    let tsc = seen[1];
    let lint = seen[typing_actions(seen) + 2];
    let none = Seq::<char>::empty();
    ReportModel {
        tool: Tool::JsTs,
        success: (typed ==> not_failed(tsc)) && (linted ==> not_failed(lint)),
        fix_ok: has_eslint(seen) && languages::succeeded(seen[typing_actions(seen) + 1]),
        output: (if typed {
            languages::stdout_of(tsc)
        } else {
            none
        }) + (if linted {
            languages::stdout_of(lint)
        } else {
            none
        }) + (if typed {
            languages::stderr_of(tsc)
        } else {
            none
        }) + (if linted {
            languages::stderr_of(lint)
        } else {
            none
        }),
    }
}

fn has_not_failed(e: &CheckEvent) -> (r: bool)
    ensures
        r == not_failed(*e),
{
    match e {
        CheckEvent::Exited { success, .. } => *success,
        _ => true,
    }
}

impl LanguageSupport for JavaScriptSupport {
    open spec fn markers(&self) -> Seq<Seq<char>> {
        seq!["package.json"@, "tsconfig.json"@, ".git"@]
    }

    open spec fn file_extensions(&self) -> Seq<Seq<char>> {
        seq!["js"@, "ts"@, "jsx"@, "tsx"@]
    }

    /// Where there is a `tsconfig.json`, the TypeScript compiler; then, where
    /// there is an eslint, its fixes and its diagnostics, and else those of a
    /// biome, where there is one.
    open spec fn next_action(&self, file: Option<Seq<char>>, seen: Seq<CheckEvent>) -> ActionModel {
        if seen.len() == 0 {
            ActionModel::Probe("tsconfig.json"@)
        } else {
            let done = seen.len() - typing_actions(seen);
            if done < 0 {
                languages::in_root("npx"@, seq!["tsc"@, "--noEmit"@], true)
            } else if done == 0 {
                languages::in_root("npx"@, seq!["eslint"@, "--version"@], false)
            } else if has_eslint(seen) && done == 1 {
                languages::in_root("npx"@, seq!["eslint"@, "--fix"@, "."@], false)
            } else if has_eslint(seen) && done == 2 {
                languages::in_root("npx"@, seq!["eslint"@, "."@], true)
            } else if !has_eslint(seen) && done == 1 {
                languages::in_root("npx"@, seq!["biome"@, "--version"@], false)
            } else if has_biome(seen) && done == 2 {
                languages::in_root("npx"@, seq!["biome"@, "check"@, "."@], true)
            } else {
                ActionModel::Report(js_report(seen))
            }
        }
    }

    fn root_markers(&self) -> (r: &'static [&'static str]) {
        let r: &'static [&'static str] = &["package.json", "tsconfig.json", ".git"];
        assert(utils::slice_texts(r@) =~= self.markers());
        r
    }

    fn extensions(&self) -> (r: &'static [&'static str]) {
        let r: &'static [&'static str] = &["js", "ts", "jsx", "tsx"];
        assert(utils::slice_texts(r@) =~= self.file_extensions());
        r
    }

    fn run_check(&self, file_path: Option<&str>, seen: &[CheckEvent]) -> (a: CheckAction) {
        let ghost want = self.next_action(languages::opt_slice(file_path), seen@);
        if seen.len() == 0 {
            return CheckAction::Probe("tsconfig.json".to_owned());
        }
        let typed = match &seen[0] {
            CheckEvent::Exists(b) => *b,
            _ => false,
        };
        let start: usize = if typed {
            2
        } else {
            1
        };
        if seen.len() < start {
            let a = run_in_root("npx", &["tsc", "--noEmit"], true);
            assert(a@ =~~= want);
            return a;
        }
        if seen.len() == start {
            let a = run_in_root("npx", &["eslint", "--version"], false);
            assert(a@ =~~= want);
            return a;
        }
        let eslint = has_succeeded(&seen[start]);
        if seen.len() == start + 1 {
            if eslint {
                let a = run_in_root("npx", &["eslint", "--fix", "."], false);
                assert(a@ =~~= want);
                return a;
            }
            let a = run_in_root("npx", &["biome", "--version"], false);
            assert(a@ =~~= want);
            return a;
        }
        let second = has_succeeded(&seen[start + 1]);
        if seen.len() == start + 2 {
            if eslint {
                let a = run_in_root("npx", &["eslint", "."], true);
                assert(a@ =~~= want);
                return a;
            }
            if second {
                let a = run_in_root("npx", &["biome", "check", "."], true);
                assert(a@ =~~= want);
                return a;
            }
        }
        let mut success = true;
        let mut output = String::new();
        let mut stderr = String::new();
        if typed {
            success = has_not_failed(&seen[1]);
            output = stdout_text(&seen[1]);
            stderr = stderr_text(&seen[1]);
        }
        if eslint || second {
            success = success && has_not_failed(&seen[start + 2]);
            output.append(stdout_text(&seen[start + 2]).as_str());
            stderr.append(stderr_text(&seen[start + 2]).as_str());
        }
        output.append(stderr.as_str());
        let a = CheckAction::Report(
            CheckReport { tool: Tool::JsTs, success, fix_ok: eslint && second, output },
        );
        assert(output@ =~= js_report(seen@).output);
        a
    }
}

} // verus!
