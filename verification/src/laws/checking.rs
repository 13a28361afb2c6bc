//! Checks: which files lead to one, what is run, and what is made of it.
use vstd::prelude::*;

use crate::diagnostics;
use crate::diagnostics::{DiagnosticModel, Level};
use crate::languages;
use crate::languages::{
    ActionModel, CheckAction, CheckEvent, CheckReport, CheckResult, Invocation, InvocationModel,
    Language, LanguageSupport, ReportModel, Tool,
};
use crate::laws;
use crate::laws::pathing;
use crate::number;
use crate::paths;
use crate::paths::Platform;
use crate::utils;

verus! {

// ── detection ───────────────────────────────────────────────────────────────

/// The extensions by which each language is found, and no others.
pub proof fn languages_by_extension(ext: Seq<char>)
    ensures
        languages::language_of_extension(ext) == Some(Language::Rust) <==> ext == "rs"@,
        languages::language_of_extension(ext) == Some(Language::Go) <==> ext == "go"@,
        languages::language_of_extension(ext) == Some(Language::Python) <==> ext == "py"@,
        languages::language_of_extension(ext) == Some(Language::JavaScript) <==> ext == "js"@
            || ext == "ts"@ || ext == "jsx"@ || ext == "tsx"@,
{
    reveal_strlit("rs");
    reveal_strlit("go");
    reveal_strlit("py");
    reveal_strlit("js");
    reveal_strlit("ts");
    reveal_strlit("jsx");
    reveal_strlit("tsx");
    assert("rs"@[0] == 'r' && "go"@[0] == 'g' && "py"@[0] == 'p');
    assert("js"@[0] == 'j' && "ts"@[0] == 't' && "jsx"@[0] == 'j' && "tsx"@[0] == 't');
}

/// The names by which the project of each language is found, and no others.
pub proof fn languages_by_name(name: Seq<char>)
    ensures
        languages::language_of_manifest(name) == Some(Language::Rust) <==> name == "Cargo.toml"@,
        languages::language_of_manifest(name) == Some(Language::Go) <==> name == "go.mod"@,
        languages::language_of_manifest(name) == Some(Language::JavaScript) <==> name
            == "package.json"@,
        languages::language_of_manifest(name) != Some(Language::Python),
{
    reveal_strlit("Cargo.toml");
    reveal_strlit("go.mod");
    reveal_strlit("package.json");
    assert("Cargo.toml"@.len() == 10 && "go.mod"@.len() == 6 && "package.json"@.len() == 12);
}

/// A file with an extension of a language is of that language, whatever its
/// name; and any other file is of the language of its name, if that is one.
pub proof fn extension_comes_before_name(path: Seq<char>, platform: Platform)
    ensures
        paths::extension(path, platform) matches Some(ext) ==> paths::file_name(
            path,
            platform,
        ) matches Some(name) ==> languages::language_of(path, platform) == (
        if languages::language_of_extension(ext) is Some {
            languages::language_of_extension(ext)
        } else {
            languages::language_of_manifest(name)
        }),
        paths::extension(path, platform) is None ==> languages::language_of(path, platform) is None,
{
}

/// A file whose name ends with a dot and an extension of a language is of that
/// language, in whatever directory it is.
pub proof fn files_are_known_by_their_ending(
    d: Seq<char>,
    s: char,
    stem: Seq<char>,
    ext: Seq<char>,
    platform: Platform,
)
    requires
        paths::is_separator(s, platform),
        stem.len() > 0,
        pathing::is_whole(stem, platform),
        pathing::is_whole(ext, platform),
        laws::lacks(ext, '.'),
        languages::language_of_extension(ext) is Some,
        paths::prefix(d + seq![s] + (stem + seq!['.'] + ext), platform) is Absent,
    ensures
        languages::language_of(d + seq![s] + (stem + seq!['.'] + ext), platform)
            == languages::language_of_extension(ext),
{
    let n = stem + seq!['.'] + ext;
    let p = d + seq![s] + n;
    languages_by_extension(ext);
    assert forall|i: int| 0 <= i < n.len() implies !paths::is_separator(
        #[trigger] n[i],
        platform,
    ) by {
        if i < stem.len() {
            assert(n[i] == stem[i]);
        } else if i > stem.len() {
            assert(n[i] == ext[i - stem.len() - 1]);
        }
    }
    reveal_strlit("rs");
    reveal_strlit("go");
    reveal_strlit("py");
    reveal_strlit("js");
    reveal_strlit("ts");
    reveal_strlit("jsx");
    reveal_strlit("tsx");
    assert(ext.len() >= 2);
    assert(n.len() > 2);
    pathing::the_name_follows_the_last_separator(d, s, n, platform);
    pathing::the_extension_follows_the_last_dot(stem, ext, p, platform);
}

/// The files that mark the root of a project of each language.
pub proof fn roots_are_marked()
    ensures
        languages::support_of(Language::Rust).markers() == seq!["Cargo.toml"@],
        languages::support_of(Language::Go).markers() == seq!["go.mod"@],
        languages::support_of(Language::Python).markers() == seq![
            "pyproject.toml"@,
            "requirements.txt"@,
            "setup.py"@,
            ".git"@,
        ],
        languages::support_of(Language::JavaScript).markers() == seq![
            "package.json"@,
            "tsconfig.json"@,
            ".git"@,
        ],
{
}

/// A written file leads to the check of a project exactly where it has a
/// language and a root of a project of that language is found above it; the
/// check is that of its language.
pub proof fn the_nearest_project_is_checked<F: Fn(&str) -> bool>(
    target: Option<(Seq<char>, Language)>,
    path: Seq<char>,
    is_file: bool,
    platform: Platform,
    present: F,
)
    requires
        languages::is_check_target(target, path, is_file, platform, present),
    ensures
        target matches Some((root, lang)) ==> languages::language_of(path, platform) == Some(lang)
            && utils::is_nearest_root(
            Some(root),
            utils::search_dirs(path, is_file, platform),
            languages::support_of(lang).markers(),
            platform,
            present,
        ),
        target is None ==> (languages::language_of(path, platform) matches Some(lang)
            ==> utils::is_nearest_root(
            None,
            utils::search_dirs(path, is_file, platform),
            languages::support_of(lang).markers(),
            platform,
            present,
        )),
{
}

// ── what is run ─────────────────────────────────────────────────────────────

/// The program ended, and ended well.
pub open spec fn ended_well(e: CheckEvent) -> bool {
    e is Exited && e->success
}

/// The program ended, and ended badly.
pub open spec fn ended_badly(e: CheckEvent) -> bool {
    e is Exited && !e->success
}

/// A program that is run in the root directory, and whose output is kept.
pub open spec fn heard(program: Seq<char>, args: Seq<Seq<char>>) -> ActionModel {
    ActionModel::Run(
        InvocationModel { program, args, in_root: true, cargo_path: false, capture: true },
    )
}

/// A program that is run in the root directory, and whose output is not kept.
pub open spec fn unheard(program: Seq<char>, args: Seq<Seq<char>>) -> ActionModel {
    ActionModel::Run(
        InvocationModel { program, args, in_root: true, cargo_path: false, capture: false },
    )
}

/// Cargo, run in the root directory so that it finds its own programs.
pub open spec fn by_cargo(args: Seq<Seq<char>>) -> ActionModel {
    ActionModel::Run(
        InvocationModel {
            program: "cargo"@,
            args,
            in_root: true,
            cargo_path: true,
            capture: true,
        },
    )
}

/// All that the check of a Rust project does.
pub open spec fn rust_plan() -> Seq<ActionModel> {
    seq![
        by_cargo(seq!["clippy"@, "--fix"@, "--allow-dirty"@]),
        by_cargo(seq!["clippy"@, "--message-format=human"@]),
    ]
}

/// All that the check of a Go project does.
pub open spec fn go_plan(file: Option<Seq<char>>) -> Seq<ActionModel> {
    seq![
        unheard(
            "go"@,
            seq![
                "fmt"@,
                if file is Some {
                    file.unwrap()
                } else {
                    "./..."@
                },
            ],
        ),
        heard("go"@, seq!["vet"@, "./..."@]),
    ]
}

/// All that the check of a Python project does, with a ruff or without.
pub open spec fn python_plan(file: Option<Seq<char>>, ruff: bool) -> Seq<ActionModel> {
    seq![
        ActionModel::Run(
            InvocationModel {
                program: "ruff"@,
                args: seq!["--version"@],
                in_root: false,
                cargo_path: false,
                capture: false,
            },
        ),
    ] + if ruff {
        seq![
            unheard("ruff"@, seq!["check"@, "--fix"@, "."@]),
            heard("ruff"@, seq!["check"@, "."@]),
        ]
    } else if file is Some {
        seq![heard("pyflakes"@, seq![file.unwrap()])]
    } else {
        seq![]
    }
}

/// All that the check of a JavaScript project does, with a `tsconfig.json`, an
/// eslint and a biome, or without.
pub open spec fn js_plan(typed: bool, eslint: bool, biome: bool) -> Seq<ActionModel> {
    seq![ActionModel::Probe("tsconfig.json"@)] + (if typed {
        seq![heard("npx"@, seq!["tsc"@, "--noEmit"@])]
    } else {
        seq![]
    }) + seq![unheard("npx"@, seq!["eslint"@, "--version"@])] + (if eslint {
        seq![
            unheard("npx"@, seq!["eslint"@, "--fix"@, "."@]),
            heard("npx"@, seq!["eslint"@, "."@]),
        ]
    } else {
        seq![unheard("npx"@, seq!["biome"@, "--version"@])] + if biome {
            seq![heard("npx"@, seq!["biome"@, "check"@, "."@])]
        } else {
            seq![]
        }
    })
}

/// There is a file, as far as it was looked for.
pub open spec fn was_found(seen: Seq<CheckEvent>, i: int) -> bool {
    0 <= i < seen.len() && seen[i] == CheckEvent::Exists(true)
}

/// There is a program, as far as it was tried.
pub open spec fn was_there(seen: Seq<CheckEvent>, i: int) -> bool {
    0 <= i < seen.len() && ended_well(seen[i])
}

/// All that the check of a JavaScript project does, as far as what was seen
/// decides it.
pub open spec fn js_plan_seen(seen: Seq<CheckEvent>) -> Seq<ActionModel> {
    let typed = was_found(seen, 0);
    let at: int = if typed {
        2
    } else {
        1
    };
    js_plan(typed, was_there(seen, at), was_there(seen, at + 1))
}

/// The checks do what their plans say, one action after the other, and then
/// stop.
pub proof fn checks_follow_their_plans(file: Option<Seq<char>>, seen: Seq<CheckEvent>)
    ensures
        seen.len() < 2 ==> languages::support_of(Language::Rust).next_action(file, seen)
            == rust_plan()[seen.len() as int],
        seen.len() >= 2 ==> languages::support_of(Language::Rust).next_action(
            file,
            seen,
        ) is Report,
        seen.len() < 2 ==> languages::support_of(Language::Go).next_action(file, seen) == go_plan(
            file,
        )[seen.len() as int],
        seen.len() >= 2 ==> languages::support_of(Language::Go).next_action(file, seen) is Report,
        ({
            let plan = python_plan(file, was_there(seen, 0));
            let next = languages::support_of(Language::Python).next_action(file, seen);
            &&& seen.len() < plan.len() ==> next == plan[seen.len() as int]
            &&& seen.len() >= plan.len() ==> next is Report
        }),
        ({
            let plan = js_plan_seen(seen);
            let next = languages::support_of(Language::JavaScript).next_action(file, seen);
            &&& seen.len() < plan.len() ==> next == plan[seen.len() as int]
            &&& seen.len() >= plan.len() ==> next is Report
        }),
{
}

// ── what is made of it ──────────────────────────────────────────────────────

/// The action is the run of a program whose output is kept.
pub open spec fn is_heard(a: ActionModel) -> bool {
    a matches ActionModel::Run(inv) && inv.capture
}

/// A check of JavaScript succeeds exactly where none of the programs that were
/// run for what they say ended badly: neither the TypeScript compiler nor the
/// linter, whichever of them was run.
pub proof fn no_bad_end_is_passed_over(file: Option<Seq<char>>, seen: Seq<CheckEvent>)
    requires
        seen.len() >= js_plan_seen(seen).len(),
    ensures
        ({
            let plan = js_plan_seen(seen);
            let next = languages::support_of(Language::JavaScript).next_action(file, seen);
            &&& next matches ActionModel::Report(report)
            &&& report.tool == Tool::JsTs
            &&& report.success <==> forall|k: int|
                0 <= k < plan.len() && is_heard(#[trigger] plan[k]) ==> !ended_badly(seen[k])
        }),
{
    let plan = js_plan_seen(seen);
    let typed = was_found(seen, 0);
    let at: int = if typed {
        2
    } else {
        1
    };
    let (eslint, biome) = (was_there(seen, at), was_there(seen, at + 1));
    assert(!is_heard(plan[0]));
    assert(typed ==> is_heard(plan[1]));
    assert(!is_heard(plan[at]));
    assert(!is_heard(plan[at + 1]));
    assert(eslint || biome ==> plan.len() == at + 3 && is_heard(plan[at + 2]));
    assert(!eslint && !biome ==> plan.len() == at + 2);
}

/// A linter that ended badly makes a check of JavaScript fail, with or without
/// the TypeScript compiler before it; and so does the TypeScript compiler.
pub proof fn linter_and_compiler_each_count(
    file: Option<Seq<char>>,
    version: CheckEvent,
    fix: CheckEvent,
    lint: CheckEvent,
    tsc: CheckEvent,
)
    requires
        ended_well(version),
    ensures
        ({
            let support = languages::support_of(Language::JavaScript);
            let (yes, no) = (CheckEvent::Exists(true), CheckEvent::Exists(false));
            let typed = support.next_action(file, seq![yes, tsc, version, fix, lint]);
            let untyped = support.next_action(file, seq![no, version, fix, lint]);
            &&& typed matches ActionModel::Report(r)
            &&& (r.success <==> !ended_badly(tsc) && !ended_badly(lint))
            &&& (r.fix_ok <==> ended_well(fix))
            &&& untyped matches ActionModel::Report(r)
            &&& (r.success <==> !ended_badly(lint))
            &&& (r.fix_ok <==> ended_well(fix))
        }),
{
}

/// What a program wrote to its standard output, if it ended.
pub open spec fn said(e: CheckEvent) -> Seq<char> {
    if e is Exited {
        utils::text_of_bytes(e->stdout@)
    } else {
        Seq::empty()
    }
}

/// What a program wrote to its standard error, if it ended.
pub open spec fn complained(e: CheckEvent) -> Seq<char> {
    if e is Exited {
        utils::text_of_bytes(e->stderr@)
    } else {
        Seq::empty()
    }
}

/// The output of a check of JavaScript is what the compiler and the linter said
/// and then what they complained of, the compiler first, as far as they were
/// run; and fixes were made exactly where eslint's run for them ended well.
pub proof fn javascript_output_is_kept_in_order(
    file: Option<Seq<char>>,
    tsc: CheckEvent,
    version: CheckEvent,
    second: CheckEvent,
    lint: CheckEvent,
)
    ensures
        ({
            let support = languages::support_of(Language::JavaScript);
            let (yes, no) = (CheckEvent::Exists(true), CheckEvent::Exists(false));
            let linted = ended_well(version) || ended_well(second);
            let fixed = ended_well(version) && ended_well(second);
            let typed = support.next_action(file, seq![yes, tsc, version, second, lint]);
            let untyped = support.next_action(file, seq![no, version, second, lint]);
            let bare = support.next_action(file, seq![no, version, second]);
            &&& typed matches ActionModel::Report(r)
            &&& (linted ==> r.output == said(tsc) + said(lint) + complained(tsc) + complained(lint))
            &&& (!linted ==> r.output == said(tsc) + complained(tsc))
            &&& (!linted ==> (r.success <==> !ended_badly(tsc)))
            &&& (r.fix_ok <==> fixed)
            &&& untyped matches ActionModel::Report(u)
            &&& (linted ==> u.output == said(lint) + complained(lint))
            &&& (u.fix_ok <==> fixed)
            &&& (!linted ==> (bare matches ActionModel::Report(b) && b.success && !b.fix_ok
                && b.output.len() == 0))
        }),
{
    let support = languages::support_of(Language::JavaScript);
    let (yes, no) = (CheckEvent::Exists(true), CheckEvent::Exists(false));
    let typed = support.next_action(file, seq![yes, tsc, version, second, lint]);
    let linted = ended_well(version) || ended_well(second);
    let out = typed->Report_0.output;
    if linted {
        assert(out =~= said(tsc) + said(lint) + complained(tsc) + complained(lint));
    } else {
        assert(out =~= said(tsc) + complained(tsc));
    }
    let untyped = support.next_action(file, seq![no, version, second, lint]);
    assert(linted ==> untyped->Report_0.output =~= said(lint) + complained(lint));
}

/// What a program complained of, or why it was not started.
pub open spec fn complaint(e: CheckEvent) -> Seq<char> {
    match e {
        CheckEvent::Exited { stderr, .. } => utils::text_of_bytes(stderr@),
        CheckEvent::SpawnFailed(reason) => "spawn failed: "@ + reason@,
        CheckEvent::Exists(_) => Seq::empty(),
    }
}

/// In the other checks the last program decides: the check succeeds exactly
/// where it ended well, and what it wrote is the output. Fixes were made exactly
/// where the run for them ended well.
pub proof fn the_last_run_decides(file: Option<Seq<char>>, seen: Seq<CheckEvent>)
    ensures
        seen.len() >= 2 ==> {
            let rust = languages::support_of(Language::Rust).next_action(file, seen);
            let go = languages::support_of(Language::Go).next_action(file, seen);
            &&& rust == ActionModel::Report(
                ReportModel {
                    tool: Tool::Clippy,
                    success: ended_well(seen[1]),
                    fix_ok: ended_well(seen[0]),
                    output: complaint(seen[1]),
                },
            )
            &&& go == ActionModel::Report(
                ReportModel {
                    tool: Tool::GoVet,
                    success: ended_well(seen[1]),
                    fix_ok: ended_well(seen[0]),
                    output: complaint(seen[1]),
                },
            )
        },
        seen.len() >= 3 && ended_well(seen[0]) ==> languages::support_of(
            Language::Python,
        ).next_action(file, seen) == ActionModel::Report(
            ReportModel {
                tool: Tool::Ruff,
                success: ended_well(seen[2]),
                fix_ok: ended_well(seen[1]),
                output: said(seen[2]) + complaint(seen[2]),
            },
        ),
        seen.len() >= 2 && !ended_well(seen[0]) && file is Some ==> languages::support_of(
            Language::Python,
        ).next_action(file, seen) == ActionModel::Report(
            ReportModel {
                tool: Tool::Pyflakes,
                success: ended_well(seen[1]),
                fix_ok: false,
                output: said(seen[1]) + complaint(seen[1]),
            },
        ),
        seen.len() >= 1 && !ended_well(seen[0]) && file is None ==> languages::support_of(
            Language::Python,
        ).next_action(file, seen) == ActionModel::Report(
            ReportModel { tool: Tool::NoPython, success: true, fix_ok: false, output: seq![] },
        ),
{
}

// ── outcomes ────────────────────────────────────────────────────────────────

/// An outcome says what the report says, holds every diagnostic once and in its
/// order, the errors apart from the warnings, and counts them.
pub proof fn outcomes_hold_all_diagnostics(
    r: CheckResult,
    report: ReportModel,
    list: Seq<DiagnosticModel>,
)
    requires
        languages::is_outcome(r, report, list),
    ensures
        r.success == report.success,
        r.fix_ok == report.fix_ok,
        diagnostics::models(r.errors@) == languages::of_level(list, Level::Error),
        diagnostics::models(r.warnings@) == languages::of_level(list, Level::Warning),
        r.errors@.len() + r.warnings@.len() == list.len(),
        r.summary@ == languages::summary_of(
            report.tool,
            report.success,
            r.errors@.len(),
            r.warnings@.len(),
        ),
{
    languages::levels_part_diagnostics(list);
}

/// The diagnostics of a level in two lists, one after the other, are those in
/// the first and then those in the second; a list of one diagnostic has it
/// exactly where it is of the level.
pub proof fn levels_of_two_lists(
    a: Seq<DiagnosticModel>,
    b: Seq<DiagnosticModel>,
    d: DiagnosticModel,
    level: Level,
)
    ensures
        languages::of_level(a + b, level) == languages::of_level(a, level) + languages::of_level(
            b,
            level,
        ),
        languages::of_level(seq![d], level) == (if d.level == level {
            seq![d]
        } else {
            seq![]
        }),
    decreases b.len(),
{
    let one = seq![d];
    assert(one.drop_last() =~= seq![]);
    assert(languages::of_level(one.drop_last(), level) =~= seq![]);
    assert(one.last() == d);
    if b.len() == 0 {
        assert(a + b =~= a);
        assert(languages::of_level(a, level) + languages::of_level(b, level)
            =~= languages::of_level(a, level));
    } else {
        assert((a + b).drop_last() =~= a + b.drop_last());
        assert((a + b).last() == b.last());
        levels_of_two_lists(a, b.drop_last(), d, level);
        assert(languages::of_level(a + b, level) =~= languages::of_level(a, level)
            + languages::of_level(b, level));
    }
}

/// The sentence that sums up a check: a sign, the tool, whether it passed, and
/// the numbers of errors and of warnings, in this order.
pub proof fn checks_are_summed_up(errors: nat, warnings: nat)
    ensures
        ({
            let (e, w) = (number::decimal(errors), number::decimal(warnings));
            let passed = " passed ("@ + w + " warning(s))"@;
            let failed = " failed: "@ + e + " error(s), "@ + w + " warning(s)"@;
            let (clippy, vet, ruff, pyflakes, js) = (
                "cargo clippy (include check)"@,
                "go vet"@,
                "ruff check"@,
                "pyflakes"@,
                "JS/TS check"@,
            );
            &&& languages::summary_of(Tool::Clippy, true, errors, warnings) == "✅ "@ + clippy
                + passed
            &&& languages::summary_of(Tool::Clippy, false, errors, warnings) == "❌ "@ + clippy
                + failed
            &&& languages::summary_of(Tool::GoVet, true, errors, warnings) == "✅ "@ + vet + passed
            &&& languages::summary_of(Tool::GoVet, false, errors, warnings) == "❌ "@ + vet + failed
            &&& languages::summary_of(Tool::Ruff, true, errors, warnings) == "✅ "@ + ruff + passed
            &&& languages::summary_of(Tool::Ruff, false, errors, warnings) == "❌ "@ + ruff + failed
            &&& languages::summary_of(Tool::Pyflakes, true, errors, warnings) == "✅ "@ + pyflakes
                + passed
            &&& languages::summary_of(Tool::Pyflakes, false, errors, warnings) == "❌ "@ + pyflakes
                + failed
            &&& languages::summary_of(Tool::JsTs, true, errors, warnings) == "✓ "@ + js
                + " passed: "@ + e + " error(s), "@ + w + " warning(s)"@
            &&& languages::summary_of(Tool::JsTs, false, errors, warnings) == "❌ "@ + js + failed
            &&& languages::summary_of(Tool::NoPython, true, errors, warnings) == "✅ "@
                + "skipped python check (no file provided and ruff not found)"@
            &&& languages::summary_of(Tool::NoPython, false, errors, warnings) == "❌ "@
                + "skipped python check (no file provided and ruff not found)"@
        }),
{
    let (e, w) = (number::decimal(errors), number::decimal(warnings));
    let passed = " passed ("@ + w + " warning(s))"@;
    let failed = " failed: "@ + e + " error(s), "@ + w + " warning(s)"@;
    lemma_failed("❌ "@ + "cargo clippy (include check)"@, e, w);
    lemma_failed("❌ "@ + "go vet"@, e, w);
    lemma_failed("❌ "@ + "ruff check"@, e, w);
    lemma_failed("❌ "@ + "pyflakes"@, e, w);
    lemma_failed("❌ "@ + "JS/TS check"@, e, w);
    lemma_passed("✅ "@ + "cargo clippy (include check)"@, w);
    lemma_passed("✅ "@ + "go vet"@, w);
    lemma_passed("✅ "@ + "ruff check"@, w);
    lemma_passed("✅ "@ + "pyflakes"@, w);
}

proof fn lemma_failed(head: Seq<char>, e: Seq<char>, w: Seq<char>)
    ensures
        head + " failed: "@ + e + " error(s), "@ + w + " warning(s)"@ == head + (" failed: "@ + e
            + " error(s), "@ + w + " warning(s)"@),
{
    assert(head + " failed: "@ + e + " error(s), "@ + w + " warning(s)"@ =~= head + (" failed: "@
        + e + " error(s), "@ + w + " warning(s)"@));
}

proof fn lemma_passed(head: Seq<char>, w: Seq<char>)
    ensures
        head + " passed ("@ + w + " warning(s))"@ == head + (" passed ("@ + w + " warning(s))"@),
{
    assert(head + " passed ("@ + w + " warning(s))"@ =~= head + (" passed ("@ + w
        + " warning(s))"@));
}

/// Of all tools only clippy writes as rustc does.
pub proof fn only_clippy_writes_as_rustc(tool: Tool)
    ensures
        languages::writes_as_rustc(tool) <==> tool == Tool::Clippy,
{
}

/// Actions and reports are seen by what their fields hold.
pub proof fn actions_are_seen_as_they_are(
    inv: Invocation,
    name: String,
    report: CheckReport,
    i: int,
)
    ensures
        inv@.program == inv.program@ && inv@.in_root == inv.in_root && inv@.cargo_path
            == inv.cargo_path && inv@.capture == inv.capture,
        inv@.args.len() == inv.args@.len(),
        0 <= i < inv.args@.len() ==> inv@.args[i] == inv.args@[i]@,
        report@.tool == report.tool && report@.success == report.success && report@.fix_ok
            == report.fix_ok && report@.output == report.output@,
        CheckAction::Run(inv)@ == ActionModel::Run(inv@),
        CheckAction::Probe(name)@ == ActionModel::Probe(name@),
        CheckAction::Report(report)@ == ActionModel::Report(report@),
{
}

} // verus!
