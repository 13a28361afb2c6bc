//! Python, checked with ruff or, without it, with pyflakes.
use vstd::prelude::*;
use vstd::string::*;

use super::{has_succeeded, owned_args, run_in_root, stderr_or_reason_text, stdout_text};
use super::{
    ActionModel, CheckAction, CheckEvent, CheckReport, Invocation, InvocationModel,
    LanguageSupport, ReportModel, Tool,
};
use crate::languages;
use crate::utils;

verus! {

/// The support of Python.
pub struct PythonSupport;

impl LanguageSupport for PythonSupport {
    open spec fn markers(&self) -> Seq<Seq<char>> {
        seq!["pyproject.toml"@, "requirements.txt"@, "setup.py"@, ".git"@]
    }

    open spec fn file_extensions(&self) -> Seq<Seq<char>> {
        seq!["py"@]
    }

    /// Where there is a ruff, its fixes and then its diagnostics; else those of
    /// pyflakes on the file, where a single one is given.
    open spec fn next_action(&self, file: Option<Seq<char>>, seen: Seq<CheckEvent>) -> ActionModel {
        if seen.len() == 0 {
            ActionModel::Run(
                InvocationModel {
                    program: "ruff"@,
                    args: seq!["--version"@],
                    in_root: false,
                    cargo_path: false,
                    capture: false,
                },
            )
        } else if languages::succeeded(seen[0]) {
            if seen.len() == 1 {
                languages::in_root("ruff"@, seq!["check"@, "--fix"@, "."@], false)
            } else if seen.len() == 2 {
                languages::in_root("ruff"@, seq!["check"@, "."@], true)
            } else {
                ActionModel::Report(
                    ReportModel {
                        tool: Tool::Ruff,
                        success: languages::succeeded(seen[2]),
                        fix_ok: languages::succeeded(seen[1]),
                        output: languages::stdout_of(seen[2]) + languages::stderr_or_reason(
                            seen[2],
                        ),
                    },
                )
            }
        } else {
            match file {
                None => ActionModel::Report(
                    ReportModel {
                        tool: Tool::NoPython,
                        success: true,
                        fix_ok: false,
                        output: seq![],
                    },
                ),
                Some(path) => if seen.len() == 1 {
                    languages::in_root("pyflakes"@, seq![path], true)
                } else {
                    ActionModel::Report(
                        ReportModel {
                            tool: Tool::Pyflakes,
                            success: languages::succeeded(seen[1]),
                            fix_ok: false,
                            output: languages::stdout_of(seen[1]) + languages::stderr_or_reason(
                                seen[1],
                            ),
                        },
                    )
                },
            }
        }
    }

    fn root_markers(&self) -> (r: &'static [&'static str]) {
        let r: &'static [&'static str] = &["pyproject.toml", "requirements.txt", "setup.py", ".git"];
        assert(utils::slice_texts(r@) =~= self.markers());
        r
    }

    fn extensions(&self) -> (r: &'static [&'static str]) {
        let r: &'static [&'static str] = &["py"];
        assert(utils::slice_texts(r@) =~= self.file_extensions());
        r
    }

    fn run_check(&self, file_path: Option<&str>, seen: &[CheckEvent]) -> (a: CheckAction) {
        let ghost want = self.next_action(languages::opt_slice(file_path), seen@);
        if seen.len() == 0 {
            let a = CheckAction::Run(
                Invocation {
                    program: "ruff".to_owned(),
                    args: owned_args(&["--version"]),
                    in_root: false,
                    cargo_path: false,
                    capture: false,
                },
            );
            assert(a@ =~~= want);
            a
        } else if has_succeeded(&seen[0]) {
            if seen.len() == 1 {
                let a = run_in_root("ruff", &["check", "--fix", "."], false);
                assert(a@ =~~= want);
                a
            } else if seen.len() == 2 {
                let a = run_in_root("ruff", &["check", "."], true);
                assert(a@ =~~= want);
                a
            } else {
                let mut output = stdout_text(&seen[2]);
                output.append(stderr_or_reason_text(&seen[2]).as_str());
                CheckAction::Report(
                    CheckReport {
                        tool: Tool::Ruff,
                        success: has_succeeded(&seen[2]),
                        fix_ok: has_succeeded(&seen[1]),
                        output,
                    },
                )
            }
        } else {
            match file_path {
                None => CheckAction::Report(
                    CheckReport {
                        tool: Tool::NoPython,
                        success: true,
                        fix_ok: false,
                        output: String::new(),
                    },
                ),
                Some(path) => if seen.len() == 1 {
                    let a = run_in_root("pyflakes", &[path], true);
                    assert(a@ =~~= want);
                    a
                } else {
                    let mut output = stdout_text(&seen[1]);
                    output.append(stderr_or_reason_text(&seen[1]).as_str());
                    CheckAction::Report(
                        CheckReport {
                            tool: Tool::Pyflakes,
                            success: has_succeeded(&seen[1]),
                            fix_ok: false,
                            output,
                        },
                    )
                },
            }
        }
    }
}

} // verus!
