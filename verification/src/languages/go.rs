//! Go, checked with `go vet`.
use vstd::prelude::*;

use super::{has_succeeded, run_in_root, stderr_or_reason_text};
use super::{ActionModel, CheckAction, CheckEvent, CheckReport, LanguageSupport, ReportModel, Tool};
use crate::languages;
use crate::utils;

verus! {

/// The support of Go.
pub struct GoSupport;

impl LanguageSupport for GoSupport {
    open spec fn markers(&self) -> Seq<Seq<char>> {
        seq!["go.mod"@]
    }

    open spec fn file_extensions(&self) -> Seq<Seq<char>> {
        seq!["go"@]
    }

    /// `go fmt` on the file, or on everything; then `go vet` on everything.
    open spec fn next_action(&self, file: Option<Seq<char>>, seen: Seq<CheckEvent>) -> ActionModel {
        if seen.len() == 0 {
            let target = match file {
                Some(path) => path,
                None => "./..."@,
            };
            languages::in_root("go"@, seq!["fmt"@, target], false)
        } else if seen.len() == 1 {
            languages::in_root("go"@, seq!["vet"@, "./..."@], true)
        } else {
            ActionModel::Report(
                ReportModel {
                    tool: Tool::GoVet,
                    success: languages::succeeded(seen[1]),
                    fix_ok: languages::succeeded(seen[0]),
                    output: languages::stderr_or_reason(seen[1]),
                },
            )
        }
    }

    fn root_markers(&self) -> (r: &'static [&'static str]) {
        let r: &'static [&'static str] = &["go.mod"];
        assert(utils::slice_texts(r@) =~= self.markers());
        r
    }

    fn extensions(&self) -> (r: &'static [&'static str]) {
        let r: &'static [&'static str] = &["go"];
        assert(utils::slice_texts(r@) =~= self.file_extensions());
        r
    }

    fn run_check(&self, file_path: Option<&str>, seen: &[CheckEvent]) -> (a: CheckAction) {
        if seen.len() == 0 {
            let target = match file_path {
                Some(path) => path,
                None => "./...",
            };
            let a = run_in_root("go", &["fmt", target], false);
            assert(a@ =~~= self.next_action(languages::opt_slice(file_path), seen@));
            a
        } else if seen.len() == 1 {
            let a = run_in_root("go", &["vet", "./..."], true);
            assert(a@ =~~= self.next_action(languages::opt_slice(file_path), seen@));
            a
        } else {
            CheckAction::Report(
                CheckReport {
                    tool: Tool::GoVet,
                    success: has_succeeded(&seen[1]),
                    fix_ok: has_succeeded(&seen[0]),
                    output: stderr_or_reason_text(&seen[1]),
                },
            )
        }
    }
}

} // verus!
