//! Rust, checked with clippy.
use vstd::prelude::*;

use super::{has_succeeded, owned_args, stderr_or_reason_text};
use super::{
    ActionModel, CheckAction, CheckEvent, CheckReport, Invocation, InvocationModel,
    LanguageSupport, ReportModel, Tool,
};
use crate::languages;
use crate::utils;

verus! {

/// The support of Rust.
pub struct RustSupport;

/// A run of cargo in the root directory.
pub open spec fn cargo(args: Seq<Seq<char>>) -> ActionModel {
    ActionModel::Run(
        InvocationModel {
            program: "cargo"@,
            args,
            in_root: true,
            cargo_path: true,
            capture: true,
        },
    )
}

fn run_cargo(args: &[&str]) -> (a: CheckAction)
    ensures
        a@ == cargo(utils::slice_texts(args@)),
{
    CheckAction::Run(
        Invocation {
            program: "cargo".to_owned(),
            args: owned_args(args),
            in_root: true,
            cargo_path: true,
            capture: true,
        },
    )
}

impl LanguageSupport for RustSupport {
    open spec fn markers(&self) -> Seq<Seq<char>> {
        seq!["Cargo.toml"@]
    }

    open spec fn file_extensions(&self) -> Seq<Seq<char>> {
        seq!["rs"@]
    }

    /// Clippy with its fixes, then clippy for its diagnostics.
    open spec fn next_action(&self, file: Option<Seq<char>>, seen: Seq<CheckEvent>) -> ActionModel {
        if seen.len() == 0 {
            cargo(seq!["clippy"@, "--fix"@, "--allow-dirty"@])
        } else if seen.len() == 1 {
            cargo(seq!["clippy"@, "--message-format=human"@])
        } else {
            ActionModel::Report(
                ReportModel {
                    tool: Tool::Clippy,
                    success: languages::succeeded(seen[1]),
                    fix_ok: languages::succeeded(seen[0]),
                    output: languages::stderr_or_reason(seen[1]),
                },
            )
        }
    }

    fn root_markers(&self) -> (r: &'static [&'static str]) {
        let r: &'static [&'static str] = &["Cargo.toml"];
        assert(utils::slice_texts(r@) =~= self.markers());
        r
    }

    fn extensions(&self) -> (r: &'static [&'static str]) {
        let r: &'static [&'static str] = &["rs"];
        assert(utils::slice_texts(r@) =~= self.file_extensions());
        r
    }

    fn run_check(&self, file_path: Option<&str>, seen: &[CheckEvent]) -> (a: CheckAction) {
        if seen.len() == 0 {
            let a = run_cargo(&["clippy", "--fix", "--allow-dirty"]);
            assert(a@ =~~= self.next_action(languages::opt_slice(file_path), seen@));
            a
        } else if seen.len() == 1 {
            let a = run_cargo(&["clippy", "--message-format=human"]);
            assert(a@ =~~= self.next_action(languages::opt_slice(file_path), seen@));
            a
        } else {
            CheckAction::Report(
                CheckReport {
                    tool: Tool::Clippy,
                    success: has_succeeded(&seen[1]),
                    fix_ok: has_succeeded(&seen[0]),
                    output: stderr_or_reason_text(&seen[1]),
                },
            )
        }
    }
}

} // verus!
