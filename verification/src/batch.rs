//! Several reads or writes in one request. After the writes, each project is
//! checked once.
use vstd::prelude::*;

use crate::languages::Language;
use crate::read::{ReadReply, ReadRequest};
use crate::text::{self, same_text};
use crate::write::WriteRequest;

verus! {

/// What the writes of a request came to: the paths that failed, and the
/// projects that were changed, each once.
#[derive(Debug)]
pub struct Batch {
    pub failed_paths: Vec<String>,
    pub affected: Vec<(String, Language)>,
}

/// A batch, with its texts as sequences of characters.
#[verifier::ext_equal]
pub struct BatchModel {
    pub failed: Seq<Seq<char>>,
    pub affected: Seq<(Seq<char>, Language)>,
}

impl View for Batch {
    type V = BatchModel;

    open spec fn view(&self) -> BatchModel {
        BatchModel {
            failed: text::texts(self.failed_paths@),
            affected: projects(self.affected@),
        }
    }
}

/// Projects, with their roots as sequences of characters.
pub open spec fn projects(list: Seq<(String, Language)>) -> Seq<(Seq<char>, Language)> {
    Seq::new(list.len(), |i: int| (list[i].0@, list[i].1))
}

impl BatchModel {
    /// A batch in which another path failed.
    pub open spec fn with_failure(self, path: Seq<char>) -> BatchModel {
        BatchModel { failed: self.failed.push(path), affected: self.affected }
    }

    /// A batch in which another file of the given project was written.
    pub open spec fn with_project(self, project: (Seq<char>, Language)) -> BatchModel {
        if self.affected.contains(project) {
            self
        } else {
            BatchModel { failed: self.failed, affected: self.affected.push(project) }
        }
    }
}

/// What a write came to: its path failed, or it changed a project, if it has
/// one.
#[verifier::ext_equal]
pub enum Outcome {
    Failed(Seq<char>),
    Written(Option<(Seq<char>, Language)>),
}

impl BatchModel {
    /// A batch after another write.
    pub open spec fn after(self, outcome: Outcome) -> BatchModel {
        match outcome {
            Outcome::Failed(path) => self.with_failure(path),
            Outcome::Written(Some(project)) => self.with_project(project),
            Outcome::Written(None) => self,
        }
    }
}

/// A batch after several writes.
pub open spec fn after_all(outcomes: Seq<Outcome>) -> BatchModel
    decreases outcomes.len(),
{
    if outcomes.len() == 0 {
        BatchModel { failed: seq![], affected: seq![] }
    } else {
        after_all(outcomes.drop_last()).after(outcomes.last())
    }
}

/// What an item that makes no request is called: by its path, if it has one.
pub open spec fn refused_name(path: Option<&str>) -> Seq<char> {
    match path {
        Some(p) => p@,
        None => "<unknown>"@,
    }
}

impl Batch {
    /// No project is listed twice.
    pub open spec fn wf(self) -> bool {
        self@.affected.no_duplicates()
    }

    /// A batch without writes.
    pub fn new() -> (b: Batch)
        ensures
            b.wf(),
            b@.failed.len() == 0,
            b@.affected.len() == 0,
    {
        Batch { failed_paths: Vec::new(), affected: Vec::new() }
    }

    /// Takes note of an item that makes no request.
    pub fn note_refused(&mut self, path: Option<&str>)
        requires
            old(self).wf(),
        ensures
            final(self).wf(),
            final(self)@ == old(self)@.with_failure(refused_name(path)),
    {
        self.note_failure(
            match path {
                Some(p) => p,
                None => "<unknown>",
            },
        );
    }

    /// Takes note of a path that could not be written.
    pub fn note_failure(&mut self, path: &str)
        requires
            old(self).wf(),
        ensures
            final(self).wf(),
            final(self)@ == old(self)@.with_failure(path@),
    {
        self.failed_paths.push(path.to_owned());
        assert(self@.failed =~= old(self)@.failed.push(path@));
    }

    /// Takes note of the project of a file that was written, if it has one.
    pub fn note_written(&mut self, project: Option<(String, Language)>)
        requires
            old(self).wf(),
        ensures
            final(self).wf(),
            final(self)@ == (match project {
                Some((root, lang)) => old(self)@.with_project((root@, lang)),
                None => old(self)@,
            }),
    {
        match project {
            None => {},
            Some((root, lang)) => {
                if !self.lists(root.as_str(), lang) {
                    self.affected.push((root, lang));
                    assert(self@.affected =~= old(self)@.affected.push((root@, lang)));
                }
            },
        }
    }

    /// Whether a project is listed already.
    fn lists(&self, root: &str, lang: Language) -> (r: bool)
        ensures
            r == self@.affected.contains((root@, lang)),
    {
        let ghost p = (root@, lang);
        let mut i: usize = 0;
        while i < self.affected.len()
            invariant
                i <= self.affected@.len(),
                p == (root@, lang),
                forall|j: int| 0 <= j < i ==> #[trigger] self@.affected[j] != p,
            decreases self.affected@.len() - i,
        {
            let listed = &self.affected[i];
            assert(self@.affected[i as int] == (listed.0@, listed.1));
            if listed.1 == lang && same_text(listed.0.as_str(), root) {
                return true;
            }
            i += 1;
        }
        false
    }
}

// ── items ───────────────────────────────────────────────────────────────────

/// One of several reads. Its fields are those of a request, as far as they are
/// given.
#[derive(Debug)]
pub struct ReadItem {
    pub path: Option<String>,
    pub start_line: Option<usize>,
    pub end_line: Option<usize>,
    pub search_regex: Option<String>,
    pub context_lines: Option<usize>,
    pub outline_only: Option<bool>,
    pub extract_symbol: Option<String>,
    pub max_depth: Option<usize>,
}

/// One of several writes. Its fields are those of a request, as far as they are
/// given.
#[derive(Debug)]
pub struct WriteItem {
    pub path: Option<String>,
    pub new_string: Option<String>,
    pub old_string: Option<String>,
    pub count: Option<usize>,
    pub append: Option<bool>,
    pub shebang: Option<String>,
}

/// The request that an item makes, if it names a path.
pub open spec fn read_request_of(item: ReadItem) -> Option<ReadRequest> {
    match item.path {
        None => None,
        Some(path) => Some(
            ReadRequest {
                path,
                start_line: item.start_line,
                end_line: item.end_line,
                search_regex: item.search_regex,
                context_lines: item.context_lines,
                outline_only: item.outline_only,
                extract_symbol: item.extract_symbol,
                max_depth: item.max_depth,
            },
        ),
    }
}

/// The request that an item makes. An item without a path makes none, and is
/// answered with an error.
pub fn read_request(item: ReadItem) -> (r: Result<ReadRequest, String>)
    ensures
        match read_request_of(item) {
            Some(req) => r == Ok::<ReadRequest, String>(req),
            None => r matches Err(message) && message@ == "missing path"@,
        },
{
    match item.path {
        None => Err("missing path".to_owned()),
        Some(path) => Ok(
            ReadRequest {
                path,
                start_line: item.start_line,
                end_line: item.end_line,
                search_regex: item.search_regex,
                context_lines: item.context_lines,
                outline_only: item.outline_only,
                extract_symbol: item.extract_symbol,
                max_depth: item.max_depth,
            },
        ),
    }
}

/// `r` is the request that an item makes, or why it makes none.
pub open spec fn is_write_request(r: Result<WriteRequest, String>, item: WriteItem) -> bool {
    match (item.path, item.new_string) {
        (None, _) => r matches Err(message) && message@ == "missing path"@,
        (Some(_), None) => r matches Err(message) && message@ == "missing new_string"@,
        (Some(path), Some(new_string)) => r == Ok::<WriteRequest, String>(
            WriteRequest {
                path,
                new_string,
                old_string: item.old_string,
                count: item.count,
                append: item.append,
                shebang: item.shebang,
            },
        ),
    }
}

/// The request that an item makes. An item without a path or without a new
/// text makes none, and is answered with an error.
pub fn write_request(item: WriteItem) -> (r: Result<WriteRequest, String>)
    ensures
        is_write_request(r, item),
{
    let path = match item.path {
        Some(path) => path,
        None => {
            return Err("missing path".to_owned());
        },
    };
    let new_string = match item.new_string {
        Some(new_string) => new_string,
        None => {
            return Err("missing new_string".to_owned());
        },
    };
    Ok(
        WriteRequest {
            path,
            new_string,
            old_string: item.old_string,
            count: item.count,
            append: item.append,
            shebang: item.shebang,
        },
    )
}

// ── reads ───────────────────────────────────────────────────────────────────

/// The answer to one of several reads.
#[derive(Debug)]
pub enum ReadAnswer {
    /// It makes no request, for the given reason.
    Refused(String),
    /// What the request is, and how it is answered.
    Answered { request: ReadRequest, reply: ReadReply },
}

/// `a` is the answer to `item`, when `read` answers a single request.
pub open spec fn is_answer<F: Fn(&ReadRequest) -> ReadReply>(
    a: ReadAnswer,
    item: ReadItem,
    read: F,
) -> bool {
    match read_request_of(item) {
        None => a matches ReadAnswer::Refused(message) && message@ == "missing path"@,
        Some(req) => a matches ReadAnswer::Answered { request, reply } && request == req
            && call_ensures(read, (&req,), reply),
    }
}

/// The answers to several reads: one for each, in their order, and each as it
/// is answered by itself. `read` answers a single request.
pub fn answer_reads<F: Fn(&ReadRequest) -> ReadReply>(items: Vec<ReadItem>, read: F) -> (out: Vec<
    ReadAnswer,
>)
    requires
        forall|req: &ReadRequest| call_requires(read, (req,)),
    ensures
        out@.len() == items@.len(),
        forall|i: int| 0 <= i < items@.len() ==> is_answer(#[trigger] out@[i], items@[i], read),
{
    let mut out: Vec<ReadAnswer> = Vec::new();
    for item in it: items
        invariant
            it.seq() == items@,
            out@.len() == it.index(),
            forall|req: &ReadRequest| call_requires(read, (req,)),
            forall|i: int| 0 <= i < out@.len() ==> is_answer(#[trigger] out@[i], items@[i], read),
    {
        let answer = match read_request(item) {
            Err(message) => ReadAnswer::Refused(message),
            Ok(request) => {
                let reply = read(&request);
                ReadAnswer::Answered { request, reply }
            },
        };
        assert(is_answer(answer, item, read));
        out.push(answer);
    }
    out
}

// ── laws ────────────────────────────────────────────────────────────────────

/// A project of which a file was written is checked, and one check is enough
/// for all of its files; a path that failed leads to no check.
pub proof fn projects_are_checked_once(b: BatchModel, project: (Seq<char>, Language), path: Seq<char>)
    requires
        b.affected.no_duplicates(),
    ensures
        b.with_project(project).affected.contains(project),
        b.with_project(project).affected.no_duplicates(),
        b.with_project(project).with_project(project) == b.with_project(project),
        b.with_failure(path).affected == b.affected,
{
    let c = b.with_project(project);
    if !b.affected.contains(project) {
        assert(c.affected[b.affected.len() as int] == project);
    }
}

/// After several writes, the projects to be checked are exactly those of which
/// a file was written, each once, and the failed paths are exactly those that
/// failed.
pub proof fn batch_lists_what_happened(
    outcomes: Seq<Outcome>,
    project: (Seq<char>, Language),
    path: Seq<char>,
)
    ensures
        after_all(outcomes).affected.no_duplicates(),
        after_all(outcomes).affected.contains(project) <==> outcomes.contains(
            Outcome::Written(Some(project)),
        ),
        after_all(outcomes).failed.contains(path) <==> outcomes.contains(Outcome::Failed(path)),
    decreases outcomes.len(),
{
    broadcast use vstd::seq_lib::group_seq_properties;

    if outcomes.len() > 0 {
        let init = outcomes.drop_last();
        let last = outcomes.last();
        let before = after_all(init);
        batch_lists_what_happened(init, project, path);
        assert(outcomes =~= init.push(last));
        if let Outcome::Written(Some(p)) = last {
            projects_are_checked_once(before, p, path);
        }
    }
}

} // verus!
