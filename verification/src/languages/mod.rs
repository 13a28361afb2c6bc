//! The languages whose projects are checked.
use vstd::prelude::*;
use vstd::string::*;

use crate::diagnostics::{self, Diagnostic, DiagnosticModel, Level};
use crate::number::{self, to_decimal};
use crate::paths::{self, path_extension, path_file_name, Platform};
use crate::text::{self, same_text};
use crate::utils::{self, find_root};

use go::GoSupport;
use javascript::JavaScriptSupport;
use python::PythonSupport;
use rust::RustSupport;

pub mod go;
pub mod javascript;
pub mod python;
pub mod rust;

verus! {

/// A language whose projects are checked.
#[derive(Debug, Clone, Copy, PartialEq, Eq, Hash, Structural)]
pub enum Language {
    Rust,
    Go,
    Python,
    JavaScript,
}

// ── detection ───────────────────────────────────────────────────────────────

/// The language of files with the given extension.
pub open spec fn language_of_extension(ext: Seq<char>) -> Option<Language> {
    if ext == "rs"@ {
        Some(Language::Rust)
    } else if ext == "go"@ {
        Some(Language::Go)
    } else if ext == "py"@ {
        Some(Language::Python)
    } else if ext == "js"@ || ext == "ts"@ || ext == "jsx"@ || ext == "tsx"@ {
        Some(Language::JavaScript)
    } else {
        None
    }
}

/// The language of the project that a file of the given name describes.
pub open spec fn language_of_manifest(name: Seq<char>) -> Option<Language> {
    if name == "Cargo.toml"@ {
        Some(Language::Rust)
    } else if name == "go.mod"@ {
        Some(Language::Go)
    } else if name == "package.json"@ {
        Some(Language::JavaScript)
    } else {
        None
    }
}

/// The language of the file at a path: by its extension, or else by its name.
pub open spec fn language_of(path: Seq<char>, platform: Platform) -> Option<Language> {
    match (paths::extension(path, platform), paths::file_name(path, platform)) {
        (Some(ext), Some(name)) => match language_of_extension(ext) {
            Some(lang) => Some(lang),
            None => language_of_manifest(name),
        },
        _ => None,
    }
}

/// The language of the file at a path, if it is one whose projects are checked.
pub fn detect_language(path: &str, platform: Platform) -> (r: Option<Language>)
    ensures
        r == language_of(path@, platform),
{
    let ext = match path_extension(path, platform) {
        Some(ext) => ext,
        None => {
            return None;
        },
    };
    let e = ext.as_str();
    if same_text(e, "rs") {
        Some(Language::Rust)
    } else if same_text(e, "go") {
        Some(Language::Go)
    } else if same_text(e, "py") {
        Some(Language::Python)
    } else if same_text(e, "js") || same_text(e, "ts") || same_text(e, "jsx") || same_text(
        e,
        "tsx",
    ) {
        Some(Language::JavaScript)
    } else {
        match path_file_name(path, platform) {
            None => None,
            Some(name) => {
                let n = name.as_str();
                if same_text(n, "Cargo.toml") {
                    Some(Language::Rust)
                } else if same_text(n, "go.mod") {
                    Some(Language::Go)
                } else if same_text(n, "package.json") {
                    Some(Language::JavaScript)
                } else {
                    None
                }
            },
        }
    }
}

// ── what a check does ───────────────────────────────────────────────────────

/// A program to be run.
#[derive(Debug)]
pub struct Invocation {
    pub program: String,
    pub args: Vec<String>,
    /// It runs in the root directory of the project.
    pub in_root: bool,
    /// It finds cargo's programs too.
    pub cargo_path: bool,
    /// What it writes is kept.
    pub capture: bool,
}

/// A program to be run, with its texts as sequences of characters.
#[verifier::ext_equal]
pub struct InvocationModel {
    pub program: Seq<char>,
    pub args: Seq<Seq<char>>,
    pub in_root: bool,
    pub cargo_path: bool,
    pub capture: bool,
}

impl View for Invocation {
    type V = InvocationModel;

    open spec fn view(&self) -> InvocationModel {
        InvocationModel {
            program: self.program@,
            args: text::texts(self.args@),
            in_root: self.in_root,
            cargo_path: self.cargo_path,
            capture: self.capture,
        }
    }
}

/// What came of an action of a check.
#[derive(Debug)]
pub enum CheckEvent {
    /// The program ended, and wrote what is given where that was kept.
    Exited { success: bool, stdout: Vec<u8>, stderr: Vec<u8> },
    /// The program was not started, for the given reason.
    SpawnFailed(String),
    /// There is such a file, or there is not.
    Exists(bool),
}

/// The tool that a check ended with.
#[derive(Debug, Clone, Copy, PartialEq, Eq, Structural)]
pub enum Tool {
    Clippy,
    GoVet,
    Ruff,
    Pyflakes,
    /// There was no ruff, and no single file for pyflakes.
    NoPython,
    JsTs,
}

/// The end of a check, before its output is read.
#[derive(Debug)]
pub struct CheckReport {
    pub tool: Tool,
    pub success: bool,
    pub fix_ok: bool,
    pub output: String,
}

/// The end of a check, with its text as a sequence of characters.
#[verifier::ext_equal]
pub struct ReportModel {
    pub tool: Tool,
    pub success: bool,
    pub fix_ok: bool,
    pub output: Seq<char>,
}

impl View for CheckReport {
    type V = ReportModel;

    open spec fn view(&self) -> ReportModel {
        ReportModel {
            tool: self.tool,
            success: self.success,
            fix_ok: self.fix_ok,
            output: self.output@,
        }
    }
}

/// What a check does next.
#[derive(Debug)]
pub enum CheckAction {
    /// Run a program.
    Run(Invocation),
    /// See whether the root directory holds a file of the given name.
    Probe(String),
    /// Stop.
    Report(CheckReport),
}

/// What a check does next, with its texts as sequences of characters.
#[verifier::ext_equal]
pub enum ActionModel {
    Run(InvocationModel),
    Probe(Seq<char>),
    Report(ReportModel),
}

impl View for CheckAction {
    type V = ActionModel;

    open spec fn view(&self) -> ActionModel {
        match self {
            CheckAction::Run(inv) => ActionModel::Run(inv@),
            CheckAction::Probe(name) => ActionModel::Probe(name@),
            CheckAction::Report(report) => ActionModel::Report(report@),
        }
    }
}

/// A program ended well.
pub open spec fn succeeded(e: CheckEvent) -> bool {
    e matches CheckEvent::Exited { success, .. } && success
}

/// What a program wrote to its standard output.
pub open spec fn stdout_of(e: CheckEvent) -> Seq<char> {
    match e {
        CheckEvent::Exited { stdout, .. } => utils::text_of_bytes(stdout@),
        _ => seq![],
    }
}

/// What a program wrote to its standard error.
pub open spec fn stderr_of(e: CheckEvent) -> Seq<char> {
    match e {
        CheckEvent::Exited { stderr, .. } => utils::text_of_bytes(stderr@),
        _ => seq![],
    }
}

/// What a program wrote to its standard error, or why it was not started.
pub open spec fn stderr_or_reason(e: CheckEvent) -> Seq<char> {
    match e {
        CheckEvent::SpawnFailed(reason) => "spawn failed: "@ + reason@,
        _ => stderr_of(e),
    }
}

pub(crate) fn has_succeeded(e: &CheckEvent) -> (r: bool)
    ensures
        r == succeeded(*e),
{
    match e {
        CheckEvent::Exited { success, .. } => *success,
        _ => false,
    }
}

pub(crate) fn stdout_text(e: &CheckEvent) -> (s: String)
    ensures
        s@ == stdout_of(*e),
{
    match e {
        CheckEvent::Exited { stdout, .. } => utils::decode_lossy(stdout),
        _ => String::new(),
    }
}

pub(crate) fn stderr_text(e: &CheckEvent) -> (s: String)
    ensures
        s@ == stderr_of(*e),
{
    match e {
        CheckEvent::Exited { stderr, .. } => utils::decode_lossy(stderr),
        _ => String::new(),
    }
}

pub(crate) fn stderr_or_reason_text(e: &CheckEvent) -> (s: String)
    ensures
        s@ == stderr_or_reason(*e),
{
    match e {
        CheckEvent::SpawnFailed(reason) => {
            let mut s = "spawn failed: ".to_owned();
            s.append(reason.as_str());
            s
        },
        _ => stderr_text(e),
    }
}

/// A program that runs in the root directory.
pub open spec fn in_root(program: Seq<char>, args: Seq<Seq<char>>, capture: bool) -> ActionModel {
    ActionModel::Run(
        InvocationModel { program, args, in_root: true, cargo_path: false, capture },
    )
}

pub(crate) fn run_in_root(program: &str, args: &[&str], capture: bool) -> (a: CheckAction)
    ensures
        a@ == in_root(program@, utils::slice_texts(args@), capture),
{
    let owned = owned_args(args);
    CheckAction::Run(
        Invocation {
            program: program.to_owned(),
            args: owned,
            in_root: true,
            cargo_path: false,
            capture,
        },
    )
}

pub(crate) fn owned_args(args: &[&str]) -> (v: Vec<String>)
    ensures
        text::texts(v@) == utils::slice_texts(args@),
{
    let mut v: Vec<String> = Vec::new();
    let mut i: usize = 0;
    while i < args.len()
        invariant
            i <= args@.len(),
            text::texts(v@) == utils::slice_texts(args@).take(i as int),
        decreases args@.len() - i,
    {
        let ghost before = v@;
        v.push(args[i].to_owned());
        i += 1;
        assert(text::texts(v@) =~= text::texts(before).push(args@[i - 1]@));
        assert(utils::slice_texts(args@).take(i as int) =~= utils::slice_texts(args@).take(
            i - 1,
        ).push(args@[i - 1]@));
    }
    assert(utils::slice_texts(args@).take(i as int) =~= utils::slice_texts(args@));
    v
}

/// The contents of an optional string slice.
pub open spec fn opt_slice(s: Option<&str>) -> Option<Seq<char>> {
    match s {
        Some(t) => Some(t@),
        None => None,
    }
}

/// What the check of a language consists of.
pub trait LanguageSupport: Send + Sync {
    /// The names of the files that mark the root of a project.
    spec fn markers(&self) -> Seq<Seq<char>>;

    /// The extensions of the language's files.
    spec fn file_extensions(&self) -> Seq<Seq<char>>;

    /// What the check does when `seen` is what came of its actions so far.
    /// `file` is the file that was written, where it is a single one.
    spec fn next_action(&self, file: Option<Seq<char>>, seen: Seq<CheckEvent>) -> ActionModel;

    /// The names of the files that mark the root of a project.
    fn root_markers(&self) -> (r: &'static [&'static str])
        ensures
            utils::slice_texts(r@) == self.markers(),
    ;

    /// The extensions of the language's files.
    fn extensions(&self) -> (r: &'static [&'static str])
        ensures
            utils::slice_texts(r@) == self.file_extensions(),
    ;

    /// What the check does when `seen` is what came of its actions so far.
    fn run_check(&self, file_path: Option<&str>, seen: &[CheckEvent]) -> (a: CheckAction)
        ensures
            a@ == self.next_action(opt_slice(file_path), seen@),
    ;
}

/// The support of any language.
pub enum Support {
    Rust(RustSupport),
    Go(GoSupport),
    Python(PythonSupport),
    JavaScript(JavaScriptSupport),
}

impl LanguageSupport for Support {
    open spec fn markers(&self) -> Seq<Seq<char>> {
        match self {
            Support::Rust(s) => s.markers(),
            Support::Go(s) => s.markers(),
            Support::Python(s) => s.markers(),
            Support::JavaScript(s) => s.markers(),
        }
    }

    open spec fn file_extensions(&self) -> Seq<Seq<char>> {
        match self {
            Support::Rust(s) => s.file_extensions(),
            Support::Go(s) => s.file_extensions(),
            Support::Python(s) => s.file_extensions(),
            Support::JavaScript(s) => s.file_extensions(),
        }
    }

    open spec fn next_action(&self, file: Option<Seq<char>>, seen: Seq<CheckEvent>) -> ActionModel {
        match self {
            Support::Rust(s) => s.next_action(file, seen),
            Support::Go(s) => s.next_action(file, seen),
            Support::Python(s) => s.next_action(file, seen),
            Support::JavaScript(s) => s.next_action(file, seen),
        }
    }

    fn root_markers(&self) -> (r: &'static [&'static str]) {
        match self {
            Support::Rust(s) => s.root_markers(),
            Support::Go(s) => s.root_markers(),
            Support::Python(s) => s.root_markers(),
            Support::JavaScript(s) => s.root_markers(),
        }
    }

    fn extensions(&self) -> (r: &'static [&'static str]) {
        match self {
            Support::Rust(s) => s.extensions(),
            Support::Go(s) => s.extensions(),
            Support::Python(s) => s.extensions(),
            Support::JavaScript(s) => s.extensions(),
        }
    }

    fn run_check(&self, file_path: Option<&str>, seen: &[CheckEvent]) -> (a: CheckAction) {
        match self {
            Support::Rust(s) => s.run_check(file_path, seen),
            Support::Go(s) => s.run_check(file_path, seen),
            Support::Python(s) => s.run_check(file_path, seen),
            Support::JavaScript(s) => s.run_check(file_path, seen),
        }
    }
}

/// The support of a language.
pub open spec fn support_of(lang: Language) -> Support {
    match lang {
        Language::Rust => Support::Rust(RustSupport),
        Language::Go => Support::Go(GoSupport),
        Language::Python => Support::Python(PythonSupport),
        Language::JavaScript => Support::JavaScript(JavaScriptSupport),
    }
}

/// The support of a language.
pub fn get_support(lang: Language) -> (s: Support)
    ensures
        s == support_of(lang),
{
    match lang {
        Language::Rust => Support::Rust(RustSupport),
        Language::Go => Support::Go(GoSupport),
        Language::Python => Support::Python(PythonSupport),
        Language::JavaScript => Support::JavaScript(JavaScriptSupport),
    }
}

// ── what comes of a check ───────────────────────────────────────────────────

/// The outcome of a check.
#[derive(Debug)]
pub struct CheckResult {
    pub success: bool,
    pub fix_ok: bool,
    pub summary: String,
    pub errors: Vec<Diagnostic>,
    pub warnings: Vec<Diagnostic>,
}

/// The output of a tool is in the format of rustc.
pub open spec fn writes_as_rustc(tool: Tool) -> bool {
    tool is Clippy
}

/// Whether the output of a tool is in the format of rustc.
pub fn is_rust_output(tool: Tool) -> (r: bool)
    ensures
        r == writes_as_rustc(tool),
{
    tool == Tool::Clippy
}

/// The diagnostics of one level, in their order.
pub open spec fn of_level(list: Seq<DiagnosticModel>, level: Level) -> Seq<DiagnosticModel>
    decreases list.len(),
{
    if list.len() == 0 {
        seq![]
    } else {
        let init = of_level(list.drop_last(), level);
        if list.last().level == level {
            init.push(list.last())
        } else {
            init
        }
    }
}

/// The name of a tool in a summary.
pub open spec fn tool_name(tool: Tool) -> Seq<char> {
    match tool {
        Tool::Clippy => "cargo clippy (include check)"@,
        Tool::GoVet => "go vet"@,
        Tool::Ruff => "ruff check"@,
        Tool::Pyflakes => "pyflakes"@,
        Tool::NoPython => "skipped python check (no file provided and ruff not found)"@,
        Tool::JsTs => "JS/TS check"@,
    }
}

/// The sign before the name of a tool.
pub open spec fn verdict_sign(tool: Tool, success: bool) -> Seq<char> {
    if !success {
        "❌ "@
    } else if tool is JsTs {
        "✓ "@
    } else {
        "✅ "@
    }
}

/// What a check came to, in one sentence, when it found so many errors and
/// warnings. Errors are counted in a check that failed, and in every one of
/// JavaScript.
pub open spec fn summary_of(tool: Tool, success: bool, errors: nat, warnings: nat) -> Seq<char> {
    let verdict = verdict_sign(tool, success) + tool_name(tool);
    if tool is NoPython {
        verdict
    } else if success && !(tool is JsTs) {
        verdict + " passed ("@ + number::decimal(warnings) + " warning(s))"@
    } else {
        verdict + (if success {
            " passed: "@
        } else {
            " failed: "@
        }) + number::decimal(errors) + " error(s), "@ + number::decimal(warnings) + " warning(s)"@
    }
}

/// `r` is the outcome of a check that ended with `report`, when
/// `list` is what its output was found to say.
pub open spec fn is_outcome(r: CheckResult, report: ReportModel, list: Seq<DiagnosticModel>) -> bool {
    &&& r.success == report.success
    &&& r.fix_ok == report.fix_ok
    &&& diagnostics::models(r.errors@) == of_level(list, Level::Error)
    &&& diagnostics::models(r.warnings@) == of_level(list, Level::Warning)
    &&& r.summary@ == summary_of(
        report.tool,
        report.success,
        r.errors@.len(),
        r.warnings@.len(),
    )
}

fn tool_text(tool: Tool) -> (s: &'static str)
    ensures
        s@ == tool_name(tool),
{
    match tool {
        Tool::Clippy => "cargo clippy (include check)",
        Tool::GoVet => "go vet",
        Tool::Ruff => "ruff check",
        Tool::Pyflakes => "pyflakes",
        Tool::NoPython => "skipped python check (no file provided and ruff not found)",
        Tool::JsTs => "JS/TS check",
    }
}

fn summarize(tool: Tool, success: bool, errors: usize, warnings: usize) -> (s: String)
    ensures
        s@ == summary_of(tool, success, errors as nat, warnings as nat),
{
    let mut s = if !success {
        "❌ ".to_owned()
    } else if tool == Tool::JsTs {
        "✓ ".to_owned()
    } else {
        "✅ ".to_owned()
    };
    s.append(tool_text(tool));
    if tool == Tool::NoPython {
        return s;
    }
    if success && tool != Tool::JsTs {
        s.append(" passed (");
        s.append(to_decimal(warnings as u64).as_str());
        s.append(" warning(s))");
        return s;
    }
    if success {
        s.append(" passed: ");
    } else {
        s.append(" failed: ");
    }
    s.append(to_decimal(errors as u64).as_str());
    s.append(" error(s), ");
    s.append(to_decimal(warnings as u64).as_str());
    s.append(" warning(s)");
    s
}

/// The outcome of a check that ended with `report`, when `list` is what
/// its output was found to say.
pub fn conclude(report: &CheckReport, list: Vec<Diagnostic>) -> (r: CheckResult)
    ensures
        is_outcome(r, report@, diagnostics::models(list@)),
{
    let ghost all = diagnostics::models(list@);
    let mut errors: Vec<Diagnostic> = Vec::new();
    let mut warnings: Vec<Diagnostic> = Vec::new();
    for d in it: list
        invariant
            it.seq() == list@,
            all == diagnostics::models(list@),
            diagnostics::models(errors@) == of_level(all.take(it.index()), Level::Error),
            diagnostics::models(warnings@) == of_level(all.take(it.index()), Level::Warning),
    {
        let ghost e = errors@;
        let ghost w = warnings@;
        proof {
            let now = all.take(it.index() + 1);
            assert(now.drop_last() =~= all.take(it.index()));
            assert(now.last() == d@);
        }
        if d.level == Level::Error {
            errors.push(d);
            assert(diagnostics::models(errors@) =~= diagnostics::models(e).push(d@));
        } else {
            warnings.push(d);
            assert(diagnostics::models(warnings@) =~= diagnostics::models(w).push(d@));
        }
    }
    assert(all.take(all.len() as int) =~= all);
    let summary = summarize(report.tool, report.success, errors.len(), warnings.len());
    CheckResult { success: report.success, fix_ok: report.fix_ok, summary, errors, warnings }
}

// ── what a written file leads to ────────────────────────────────────────────

/// `target` is the project to be checked after the file at `path` was written:
/// the nearest root of a project of the file's language.
pub open spec fn is_check_target<F: Fn(&str) -> bool>(
    target: Option<(Seq<char>, Language)>,
    path: Seq<char>,
    is_file: bool,
    platform: Platform,
    present: F,
) -> bool {
    match language_of(path, platform) {
        None => target is None,
        Some(lang) => {
            &&& target matches Some((_, l)) ==> l == lang
            &&& utils::is_nearest_root(
                match target {
                    Some((root, _)) => Some(root),
                    None => None,
                },
                utils::search_dirs(path, is_file, platform),
                support_of(lang).markers(),
                platform,
                present,
            )
        },
    }
}

/// The project to be checked after the file at `path` was written, if there is
/// one: its root and its language. `present` answers whether something stands
/// at a path.
pub fn check_target<F: Fn(&str) -> bool>(
    path: &str,
    is_file: bool,
    platform: Platform,
    present: F,
) -> (r: Option<(String, Language)>)
    requires
        forall|p: &str| call_requires(present, (p,)),
    ensures
        is_check_target(
            match r {
                Some((root, lang)) => Some((root@, lang)),
                None => None,
            },
            path@,
            is_file,
            platform,
            present,
        ),
{
    match detect_language(path, platform) {
        None => None,
        Some(lang) => {
            let support = get_support(lang);
            match find_root(path, is_file, support.root_markers(), platform, present) {
                Some(root) => Some((root, lang)),
                None => None,
            }
        },
    }
}

// ── laws ────────────────────────────────────────────────────────────────────

/// A language is found by exactly the extensions that its support names.
pub proof fn extensions_agree_with_detection(lang: Language, ext: Seq<char>)
    ensures
        support_of(lang).file_extensions().contains(ext) <==> language_of_extension(ext) == Some(
            lang,
        ),
{
    reveal_strlit("rs");
    reveal_strlit("go");
    reveal_strlit("py");
    reveal_strlit("js");
    reveal_strlit("ts");
    reveal_strlit("jsx");
    reveal_strlit("tsx");
    let exts = support_of(lang).file_extensions();
    assert(exts.len() > 0 && exts.contains(exts[0]));
    if lang == Language::JavaScript {
        assert(exts.contains(exts[1]) && exts.contains(exts[2]) && exts.contains(exts[3]));
    }
    assert("rs"@[0] == 'r' && "go"@[0] == 'g' && "py"@[0] == 'p');
    assert("js"@[0] == 'j' && "ts"@[0] == 't' && "jsx"@[0] == 'j' && "tsx"@[0] == 't');
}

/// A file leads to a check exactly where its extension is one of a language, or
/// its name is one that describes a project; and such a name says which
/// language it is.
pub proof fn checked_files(path: Seq<char>, platform: Platform)
    ensures
        language_of(path, platform) is Some <==> {
            ||| paths::extension(path, platform) matches Some(ext) && language_of_extension(
                ext,
            ) is Some
            ||| paths::file_name(path, platform) matches Some(name) && language_of_manifest(
                name,
            ) is Some
        },
        paths::file_name(path, platform) matches Some(name) ==> language_of_manifest(name) is Some
            ==> language_of(path, platform) == language_of_manifest(name),
{
    reveal_strlit("rs");
    reveal_strlit("go");
    reveal_strlit("py");
    reveal_strlit("js");
    reveal_strlit("ts");
    reveal_strlit("jsx");
    reveal_strlit("tsx");
    reveal_strlit("Cargo.toml");
    reveal_strlit("go.mod");
    reveal_strlit("package.json");
    reveal_with_fuel(text::last_char, 6);
    if let Some(name) = paths::file_name(path, platform) {
        if language_of_manifest(name) is Some {
            let d = text::last_char(name, '.', name.len() as int);
            assert(name == "Cargo.toml"@ ==> d == 5);
            assert(name == "go.mod"@ ==> d == 2);
            assert(name == "package.json"@ ==> d == 7);
            let ext = name.skip(d + 1);
            assert(paths::extension(path, platform) == Some(ext));
            assert(name != "go.mod"@ ==> ext.len() == 4);
            assert(name == "go.mod"@ ==> ext.len() == 3 && ext[0] == 'm');
            assert("rs"@.len() == 2 && "go"@.len() == 2 && "py"@.len() == 2);
            assert("js"@.len() == 2 && "ts"@.len() == 2);
            assert("jsx"@.len() == 3 && "jsx"@[0] == 'j');
            assert("tsx"@.len() == 3 && "tsx"@[0] == 't');
            assert(language_of_extension(ext) is None);
        }
    }
}

/// Every check comes to its end after five actions at most.
pub proof fn checks_come_to_an_end(lang: Language, file: Option<Seq<char>>, seen: Seq<CheckEvent>)
    requires
        seen.len() >= 5,
    ensures
        support_of(lang).next_action(file, seen) is Report,
{
}

/// Every diagnostic is an error or a warning, and is counted once.
pub proof fn levels_part_diagnostics(list: Seq<DiagnosticModel>)
    ensures
        of_level(list, Level::Error).len() + of_level(list, Level::Warning).len() == list.len(),
    decreases list.len(),
{
    if list.len() > 0 {
        levels_part_diagnostics(list.drop_last());
    }
}

/// The diagnostics of a level are those, and only those, that have it.
pub proof fn of_level_keeps_the_level(list: Seq<DiagnosticModel>, level: Level, d: DiagnosticModel)
    ensures
        of_level(list, level).contains(d) <==> list.contains(d) && d.level == level,
    decreases list.len(),
{
    if list.len() > 0 {
        let init = list.drop_last();
        of_level_keeps_the_level(init, level, d);
        let kept = of_level(init, level);
        assert(list =~= init.push(list.last()));
        assert(list.contains(d) <==> init.contains(d) || d == list.last()) by {
            if init.contains(d) {
                let i = choose|i: int| 0 <= i < init.len() && init[i] == d;
                assert(list[i] == d);
            }
            if d == list.last() {
                assert(list[list.len() - 1] == d);
            }
            if list.contains(d) && d != list.last() {
                let i = choose|i: int| 0 <= i < list.len() && list[i] == d;
                assert(init[i] == d);
            }
        }
        if list.last().level == level {
            assert(of_level(list, level) == kept.push(list.last()));
            assert(of_level(list, level).contains(d) <==> kept.contains(d) || d == list.last()) by {
                if kept.contains(d) {
                    let i = choose|i: int| 0 <= i < kept.len() && kept[i] == d;
                    assert(kept.push(list.last())[i] == d);
                }
                if d == list.last() {
                    assert(kept.push(list.last())[kept.len() as int] == d);
                }
                if of_level(list, level).contains(d) && d != list.last() {
                    let i = choose|i: int|
                        0 <= i < kept.push(list.last()).len() && kept.push(list.last())[i] == d;
                    assert(kept[i] == d);
                }
            }
        }
    }
}

} // verus!
