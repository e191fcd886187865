//! `compile`: with no files, compile everything the workspace names
//! (`$SYSTEM.OBJ.CompileAll`); with files, upload and compile each file,
//! reporting `OK: <class>` or `ERROR: <class>: <message>` per class.

use vstd::prelude::*;
use super::connection_args::ConnectionArgs;
use super::doc::{reply_error, WriteReply};
use crate::text::{
    chars_of, char_views, ends_with, lines, line_strings, range_ends_with, range_starts_with,
    starts_with, string_of, string_of_range, text_eq, tokens, tokens_of, trim, trim_start,
    trim_start_index, trim_text, views,
};

verus! {

/// The `compile` subcommand's arguments.
pub struct CompileCommand {
    /// .cls file(s) to compile directly, bypassing iris-dev.toml.
    /// With no files: reads iris-dev.toml.
    pub files: Vec<String>,
    pub conn: ConnectionArgs,
    /// Compile flags (default `cuk`).
    pub flags: String,
    pub force_writable: bool,
    /// Output format: `text` (default) or `json`.
    pub format: String,
}

/// The outcome of a workspace-wide compile, as reported.
pub struct CompileSummary {
    pub success: bool,
    /// What was compiled: `.` for the workspace.
    pub target: String,
    /// Set on success.
    pub namespace: Option<String>,
    /// Set on failure.
    pub error_code: Option<String>,
    /// Set on failure: the server's output.
    pub error: Option<String>,
}

/// Where a report goes.
pub enum Report {
    /// The summary as a JSON object on stdout.
    Json,
    /// One line on stdout.
    Stdout(String),
    /// One line on stderr.
    Stderr(String),
}

// ---------------------------------------------------------------------------
// Specifications
// ---------------------------------------------------------------------------

/// A line that declares the class: after leading whitespace it begins with
/// `Class `.
pub open spec fn is_class_line(l: Seq<char>) -> bool {
    starts_with(trim_start(l), "Class "@)
}

/// The first class-declaring line among `ls`.
pub open spec fn first_class_line(ls: Seq<Seq<char>>) -> Option<Seq<char>>
    decreases ls.len(),
{
    if ls.len() == 0 {
        None
    } else if is_class_line(ls[0]) {
        Some(ls[0])
    } else {
        first_class_line(ls.drop_first())
    }
}

/// The class name that a source text declares: the second whitespace token
/// of its first class-declaring line, if that line has one.
pub open spec fn declared_class(text: Seq<char>) -> Option<Seq<char>> {
    match first_class_line(lines(text)) {
        Some(l) => if tokens(l).len() >= 2 {
            Some(tokens(l)[1])
        } else {
            None
        },
        None => None,
    }
}

/// `s` with every trailing `.cls` removed, repeatedly.
pub open spec fn strip_cls_suffixes(s: Seq<char>) -> Seq<char>
    decreases s.len(),
{
    if ends_with(s, ".cls"@) && s.len() >= 4 {
        strip_cls_suffixes(s.take(s.len() - 4))
    } else {
        s
    }
}

/// Path separators (`/` and `\`) turned into dots.
pub open spec fn separators_to_dots(s: Seq<char>) -> Seq<char> {
    s.map_values(|c: char| if c == '/' || c == '\\' { '.' } else { c })
}

/// `s` without its leading dots.
pub open spec fn strip_leading_dots(s: Seq<char>) -> Seq<char>
    decreases s.len(),
{
    if s.len() > 0 && s[0] == '.' {
        strip_leading_dots(s.drop_first())
    } else {
        s
    }
}

/// The class name a file path stands for: `.cls` suffixes dropped, path
/// separators made dots, leading dots dropped.
pub open spec fn class_from_path(target: Seq<char>) -> Seq<char> {
    strip_leading_dots(separators_to_dots(strip_cls_suffixes(target)))
}

/// The class a file compiles: the one its source declares, else the one its
/// path stands for.
pub open spec fn class_of_file(text: Seq<char>, target: Seq<char>) -> Seq<char> {
    match declared_class(text) {
        Some(n) => n,
        None => class_from_path(target),
    }
}

/// The ObjectScript that compiles the whole workspace with `flags` and
/// writes `OK` or the error text.
pub open spec fn compile_all_code_text(flags: Seq<char>) -> Seq<char> {
    "Set sc=$SYSTEM.OBJ.CompileAll(\""@ + flags
        + "\") If $System.Status.IsOK(sc) {Write \"OK\"} Else {Write $System.Status.GetErrorText(sc)}"@
}

/// The server output of a workspace compile means success: trimmed, it ends
/// with `OK`.
pub open spec fn compile_all_ok(out: Seq<char>) -> bool {
    ends_with(trim(out), "OK"@)
}

/// The line printed for a successful workspace compile.
pub open spec fn compiled_line(target: Seq<char>) -> Seq<char> {
    "\u{2713} Compiled: "@ + target
}

/// The line printed for a failed workspace compile.
pub open spec fn failed_line(code: Seq<char>, error: Seq<char>) -> Seq<char> {
    "error: ["@ + code + "]: "@ + error
}

/// The text of an optional field, or nothing.
pub open spec fn text_or_empty(v: Option<String>) -> Seq<char> {
    match v {
        Some(s) => s@,
        None => seq![],
    }
}

/// The lines printed for one compiled file in text format.
pub open spec fn file_report_lines(success: bool, errors: Seq<Seq<char>>, class: Seq<char>) -> Seq<
    Seq<char>,
> {
    if success {
        seq!["OK: "@ + class]
    } else {
        errors.map_values(|e: Seq<char>| "ERROR: "@ + class + ": "@ + e)
    }
}

// ---------------------------------------------------------------------------
// Workspace compile
// ---------------------------------------------------------------------------

/// The ObjectScript that compiles the whole workspace.
pub fn compile_all_code(flags: &str) -> (res: String)
    ensures
        res@ == compile_all_code_text(flags@),
{
    let mut code = "Set sc=$SYSTEM.OBJ.CompileAll(\"".to_string();
    code.append(flags);
    code.append(
        "\") If $System.Status.IsOK(sc) {Write \"OK\"} Else {Write $System.Status.GetErrorText(sc)}",
    );
    code
}

/// The summary of a workspace compile from the server's output: success when
/// the trimmed output ends with `OK`; the failure carries the trimmed output
/// under the code `IRIS_COMPILE_FAILED`.
pub fn summarize_compile_all(out: &str, namespace: &str) -> (res: CompileSummary)
    ensures
        res.success == compile_all_ok(out@),
        res.target@ == "."@,
        res.success ==> (res.namespace matches Some(n) && n@ == namespace@),
        res.success ==> res.error_code is None && res.error is None,
        !res.success ==> res.namespace is None,
        !res.success ==> (res.error_code matches Some(c) && c@ == "IRIS_COMPILE_FAILED"@),
        !res.success ==> (res.error matches Some(e) && e@ == trim(out@)),
{
    let trimmed = trim_text(out);
    let v = chars_of(trimmed.as_str());
    let ok = range_ends_with(&v, v.len(), &chars_of("OK"));
    assert(v@.take(v.len() as int) =~= v@);
    if ok {
        CompileSummary {
            success: true,
            target: ".".to_string(),
            namespace: Some(namespace.to_string()),
            error_code: None,
            error: None,
        }
    } else {
        CompileSummary {
            success: false,
            target: ".".to_string(),
            namespace: None,
            error_code: Some("IRIS_COMPILE_FAILED".to_string()),
            error: Some(trimmed),
        }
    }
}

/// Where and how a workspace-compile summary is reported: JSON format
/// prints the summary object; otherwise success prints `✓ Compiled:
/// <target>` on stdout and failure `error: [<code>]: <error>` on stderr.
pub fn output_result(result: &CompileSummary, format: &str) -> (res: Report)
    ensures
        format@ == "json"@ ==> res == Report::Json,
        format@ != "json"@ && result.success ==> (res matches Report::Stdout(l) && l@
            == compiled_line(result.target@)),
        format@ != "json"@ && !result.success ==> (res matches Report::Stderr(l) && l@
            == failed_line(text_or_empty(result.error_code), text_or_empty(result.error))),
{
    if text_eq(format, "json") {
        Report::Json
    } else if result.success {
        let mut l = "\u{2713} Compiled: ".to_string();
        l.append(result.target.as_str());
        Report::Stdout(l)
    } else {
        let mut l = "error: [".to_string();
        match &result.error_code {
            Some(c) => l.append(c.as_str()),
            None => {},
        }
        l.append("]: ");
        match &result.error {
            Some(e) => l.append(e.as_str()),
            None => {},
        }
        proof {
            assert(l@ =~= failed_line(text_or_empty(result.error_code), text_or_empty(result.error)));
        }
        Report::Stderr(l)
    }
}

// ---------------------------------------------------------------------------
// Per-file compile
// ---------------------------------------------------------------------------

/// The first class-declaring line, as characters.
fn find_class_line(ls: &Vec<String>) -> (res: Option<Vec<char>>)
    ensures
        match first_class_line(views(ls@)) {
            Some(l) => res matches Some(r) && r@ == l,
            None => res is None,
        },
{
    let ghost all = views(ls@);
    let prefix = chars_of("Class ");
    let mut i: usize = 0;
    assert(all.skip(0) =~= all);
    while i < ls.len()
        invariant
            0 <= i <= ls.len(),
            all == views(ls@),
            prefix@ == "Class "@,
            first_class_line(all) == first_class_line(all.skip(i as int)),
        decreases ls.len() - i,
    {
        let l = chars_of(ls[i].as_str());
        let s = trim_start_index(&l);
        proof {
            assert(all.skip(i as int)[0] == l@);
            assert(all.skip(i as int).drop_first() =~= all.skip(i + 1));
        }
        if range_starts_with(&l, s, &prefix) {
            return Some(l);
        }
        i = i + 1;
    }
    assert(all.skip(i as int) =~= Seq::<Seq<char>>::empty());
    None
}

/// The class name a file path stands for (see `class_from_path`).
pub fn class_name_from_path(target: &str) -> (res: String)
    ensures
        res@ == class_from_path(target@),
{
    let v = chars_of(target);
    let suffix = chars_of(".cls");
    proof {
        reveal_strlit(".cls");
    }
    let mut end = v.len();
    assert(v@.take(v.len() as int) =~= v@);
    while range_ends_with(&v, end, &suffix)
        invariant
            end <= v.len(),
            suffix@ == ".cls"@,
            suffix@.len() == 4,
            strip_cls_suffixes(v@) == strip_cls_suffixes(v@.take(end as int)),
        decreases end,
    {
        assert(v@.take(end as int).take(end - 4) =~= v@.take(end - 4));
        end = end - 4;
    }
    let ghost stripped = v@.take(end as int);
    let mut w: Vec<char> = Vec::new();
    let mut i: usize = 0;
    while i < end
        invariant
            0 <= i <= end <= v.len(),
            stripped == v@.take(end as int),
            w@ == separators_to_dots(stripped).take(i as int),
        decreases end - i,
    {
        let c = v[i];
        if c == '/' || c == '\\' {
            w.push('.');
        } else {
            w.push(c);
        }
        assert(w@ =~= separators_to_dots(stripped).take(i + 1));
        i = i + 1;
    }
    let ghost mapped = separators_to_dots(stripped);
    assert(w@ =~= mapped);
    let mut j: usize = 0;
    assert(w@.skip(0) =~= w@);
    while j < w.len() && w[j] == '.'
        invariant
            0 <= j <= w.len(),
            w@ == mapped,
            strip_leading_dots(mapped) == strip_leading_dots(w@.skip(j as int)),
        decreases w.len() - j,
    {
        assert(w@.skip(j as int).drop_first() =~= w@.skip(j + 1));
        assert(w@.skip(j as int)[0] == w@[j as int]);
        j = j + 1;
    }
    if j < w.len() {
        assert(w@.skip(j as int)[0] == w@[j as int]);
    }
    assert(w@.subrange(j as int, w.len() as int) =~= w@.skip(j as int));
    string_of_range(&w, j, w.len())
}

/// The class a file compiles: the name its source declares on its first
/// `Class ` line, else the name its path stands for.
pub fn class_name_for(cls_text: &str, target: &str) -> (res: String)
    ensures
        res@ == class_of_file(cls_text@, target@),
{
    let text = chars_of(cls_text);
    let ls = line_strings(&text);
    match find_class_line(&ls) {
        Some(l) => {
            let toks = tokens_of(&l);
            if toks.len() >= 2 {
                proof {
                    assert(char_views(toks@)[1] == toks@[1]@);
                }
                return string_of(&toks[1]);
            }
        },
        None => {},
    }
    class_name_from_path(target)
}

/// A routine (`.mac`) file: not a class file.
pub open spec fn is_routine_file(target: Seq<char>) -> bool {
    ends_with(target, ".mac"@)
}

/// The document a file is uploaded and compiled as: a routine file keeps
/// the name its path stands for, extension included; any other file is the
/// class document `<class>.cls`.
pub open spec fn document_of_file(class: Seq<char>, target: Seq<char>) -> Seq<char> {
    if is_routine_file(target) {
        class_from_path(target)
    } else {
        class + ".cls"@
    }
}

/// The document a file is uploaded and compiled as (see
/// `document_of_file`); `cls_name` is the class the file compiles.
pub fn document_name(cls_name: &str, target: &str) -> (res: String)
    ensures
        res@ == document_of_file(cls_name@, target@),
{
    let v = chars_of(target);
    let n = v.len();
    let routine = range_ends_with(&v, n, &chars_of(".mac"));
    assert(v@.take(n as int) =~= v@);
    if routine {
        class_name_from_path(target)
    } else {
        let mut s = cls_name.to_string();
        s.append(".cls");
        s
    }
}

/// The lines printed in text format for one compiled file: `OK: <class>`
/// on success, else `ERROR: <class>: <message>` for each error.
pub fn file_report(success: bool, errors: &Vec<String>, cls_name: &str) -> (res: Vec<String>)
    ensures
        views(res@) == file_report_lines(success, views(errors@), cls_name@),
{
    let mut res: Vec<String> = Vec::new();
    if success {
        let mut l = "OK: ".to_string();
        l.append(cls_name);
        res.push(l);
        assert(views(res@) =~= seq![l@]);
        return res;
    }
    let ghost es = views(errors@);
    let mut i: usize = 0;
    while i < errors.len()
        invariant
            0 <= i <= errors.len(),
            es == views(errors@),
            !success,
            views(res@) == file_report_lines(false, es, cls_name@).take(i as int),
        decreases errors.len() - i,
    {
        let mut l = "ERROR: ".to_string();
        l.append(cls_name);
        l.append(": ");
        l.append(errors[i].as_str());
        let ghost old_res = res@;
        res.push(l);
        proof {
            assert(views(res@) =~= views(old_res).push(l@));
            assert(views(res@) =~= file_report_lines(false, es, cls_name@).take(i + 1));
        }
        i = i + 1;
    }
    assert(file_report_lines(false, es, cls_name@).take(errors.len() as int) =~= file_report_lines(
        false,
        es,
        cls_name@,
    ));
    res
}


/// What uploading and compiling one file came to.
pub enum FileOutcome {
    /// The upload was answered with a non-success HTTP status (its text).
    UploadRejected(String),
    /// The upload reply reported an error (its message).
    UploadFailed(String),
    /// The document was compiled; `errors` are the compiler's messages.
    Compiled { success: bool, errors: Vec<String> },
}

/// The text of a report.
pub enum ReportView {
    Json,
    Stdout(Seq<char>),
    Stderr(Seq<char>),
}

/// The view of a report.
pub open spec fn report_view(r: Report) -> ReportView {
    match r {
        Report::Json => ReportView::Json,
        Report::Stdout(l) => ReportView::Stdout(l@),
        Report::Stderr(l) => ReportView::Stderr(l@),
    }
}

/// The views of a sequence of reports.
pub open spec fn report_views(rs: Seq<Report>) -> Seq<ReportView> {
    rs.map_values(|r: Report| report_view(r))
}

/// A file was compiled without errors.
pub open spec fn outcome_ok(o: FileOutcome) -> bool {
    o matches FileOutcome::Compiled { success, .. } && success
}

/// The reports for one file, in order: upload problems on stderr; a
/// compiled file as JSON, or as its text lines on stdout.
pub open spec fn outcome_reports(o: FileOutcome, target: Seq<char>, class: Seq<char>, json: bool) -> Seq<
    ReportView,
> {
    match o {
        FileOutcome::UploadRejected(status) => seq![
            ReportView::Stderr("error: upload failed for "@ + target + ": HTTP "@ + status@),
        ],
        FileOutcome::UploadFailed(m) => seq![ReportView::Stderr("error: "@ + m@)],
        FileOutcome::Compiled { success, errors } => if json {
            seq![ReportView::Json]
        } else {
            file_report_lines(success, views(errors@), class).map_values(
                |l: Seq<char>| ReportView::Stdout(l),
            )
        },
    }
}

/// What one file's outcome prints (see `outcome_reports`); `json` is
/// whether the output format is JSON.
pub fn outcome_report(outcome: &FileOutcome, target: &str, cls_name: &str, json: bool) -> (res: Vec<
    Report,
>)
    ensures
        report_views(res@) == outcome_reports(*outcome, target@, cls_name@, json),
{
    let mut res: Vec<Report> = Vec::new();
    match outcome {
        FileOutcome::UploadRejected(status) => {
            let mut l = "error: upload failed for ".to_string();
            l.append(target);
            l.append(": HTTP ");
            l.append(status.as_str());
            res.push(Report::Stderr(l));
            assert(report_views(res@) =~= seq![report_view(Report::Stderr(l))]);
        },
        FileOutcome::UploadFailed(m) => {
            let mut l = "error: ".to_string();
            l.append(m.as_str());
            res.push(Report::Stderr(l));
            assert(report_views(res@) =~= seq![report_view(Report::Stderr(l))]);
        },
        FileOutcome::Compiled { success, errors } => {
            if json {
                res.push(Report::Json);
                assert(report_views(res@) =~= seq![ReportView::Json]);
            } else {
                let lines = file_report(*success, errors, cls_name);
                let ghost want = file_report_lines(*success, views(errors@), cls_name@).map_values(
                    |l: Seq<char>| ReportView::Stdout(l),
                );
                let mut i: usize = 0;
                while i < lines.len()
                    invariant
                        0 <= i <= lines.len(),
                        views(lines@) == file_report_lines(*success, views(errors@), cls_name@),
                        want == views(lines@).map_values(|l: Seq<char>| ReportView::Stdout(l)),
                        report_views(res@) == want.take(i as int),
                    decreases lines.len() - i,
                {
                    let l = lines[i].clone();
                    let ghost old_res = res@;
                    res.push(Report::Stdout(l));
                    proof {
                        assert(report_views(res@) =~= report_views(old_res).push(
                            ReportView::Stdout(l@),
                        ));
                        assert(want[i as int] == ReportView::Stdout(views(lines@)[i as int]));
                        assert(report_views(res@) =~= want.take(i + 1));
                    }
                    i = i + 1;
                }
                assert(want.take(lines.len() as int) =~= want);
            }
        },
    }
    res
}

/// What an upload came to: `Some` failure when the upload status was not a
/// success (`status_text` describes it) or the reply reports an error;
/// `None` when the document was stored and is to be compiled. `reply` is
/// read only when the status was a success.
pub fn upload_outcome(status_ok: bool, status_text: &str, reply: &WriteReply) -> (res: Option<
    FileOutcome,
>)
    ensures
        !status_ok ==> (res matches Some(FileOutcome::UploadRejected(s)) && s@ == status_text@),
        status_ok ==> match reply.errors {
            Some(v) if v@.len() > 0 => (res matches Some(FileOutcome::UploadFailed(m)) && m@
                == match v@[0] {
                Some(e) => e@,
                None => "Upload failed"@,
            }),
            _ => res is None,
        },
{
    if !status_ok {
        return Some(FileOutcome::UploadRejected(status_text.to_string()));
    }
    match reply_error(reply, "Upload failed") {
        Some(m) => Some(FileOutcome::UploadFailed(m)),
        None => None,
    }
}

/// The exit status of a run over files: 0 exactly when every file was
/// compiled without errors, else 1.
pub fn files_exit_code(outcomes: &Vec<FileOutcome>) -> (code: i32)
    ensures
        code == 0 || code == 1,
        code == 0 <==> forall|i: int| 0 <= i < outcomes@.len() ==> outcome_ok(#[trigger] outcomes@[i]),
{
    let mut i: usize = 0;
    while i < outcomes.len()
        invariant
            0 <= i <= outcomes.len(),
            forall|k: int| 0 <= k < i ==> outcome_ok(#[trigger] outcomes@[k]),
        decreases outcomes.len() - i,
    {
        let ok = match &outcomes[i] {
            FileOutcome::Compiled { success, .. } => *success,
            _ => false,
        };
        if !ok {
            return 1;
        }
        i = i + 1;
    }
    0
}

/// The class line is searched through the whole source: when the line at
/// `m` is a class line and none before it is (blank or not), that line is
/// the one found.
pub proof fn law_first_class_line_is_found(ls: Seq<Seq<char>>, m: int)
    requires
        0 <= m < ls.len(),
        is_class_line(ls[m]),
        forall|j: int| 0 <= j < m ==> !is_class_line(#[trigger] ls[j]),
    ensures
        first_class_line(ls) == Some(ls[m]),
    decreases m,
{
    if m > 0 {
        let rest = ls.drop_first();
        assert forall|j: int| 0 <= j < m - 1 implies !is_class_line(#[trigger] rest[j]) by {
            assert(rest[j] == ls[j + 1]);
        }
        assert(!is_class_line(ls[0]));
        law_first_class_line_is_found(rest, m - 1);
        assert(rest[m - 1] == ls[m]);
    }
}

/// Without any class line, none is found.
pub proof fn law_no_class_line(ls: Seq<Seq<char>>)
    requires
        forall|j: int| 0 <= j < ls.len() ==> !is_class_line(#[trigger] ls[j]),
    ensures
        first_class_line(ls) is None,
    decreases ls.len(),
{
    if ls.len() > 0 {
        let rest = ls.drop_first();
        assert forall|j: int| 0 <= j < rest.len() implies !is_class_line(#[trigger] rest[j]) by {
            assert(rest[j] == ls[j + 1]);
        }
        assert(!is_class_line(ls[0]));
        law_no_class_line(rest);
    }
}

/// A file compiles the class named by the second token of its first class
/// line, wherever that line stands among the source's lines; a source with
/// no class line compiles the class its path stands for.
pub proof fn law_class_of_file(text: Seq<char>, target: Seq<char>, m: int)
    requires
        0 <= m < lines(text).len(),
        is_class_line(lines(text)[m]),
        forall|j: int| 0 <= j < m ==> !is_class_line(#[trigger] lines(text)[j]),
        tokens(lines(text)[m]).len() >= 2,
    ensures
        class_of_file(text, target) == tokens(lines(text)[m])[1],
{
    law_first_class_line_is_found(lines(text), m);
}

/// A source with no class line compiles the class its path stands for.
pub proof fn law_class_of_file_without_class_line(text: Seq<char>, target: Seq<char>)
    requires
        forall|j: int| 0 <= j < lines(text).len() ==> !is_class_line(#[trigger] lines(text)[j]),
    ensures
        class_of_file(text, target) == class_from_path(target),
{
    law_no_class_line(lines(text));
}

/// The CompileAll code carries the flags verbatim, right after
/// `Set sc=$SYSTEM.OBJ.CompileAll("`, and different flags give different
/// code.
pub proof fn law_compile_all_code_carries_flags(f: Seq<char>, g: Seq<char>)
    ensures
        compile_all_code_text(f).subrange(31, 31 + f.len() as int) == f,
        compile_all_code_text(f) == compile_all_code_text(g) ==> f == g,
{
    reveal_strlit("Set sc=$SYSTEM.OBJ.CompileAll(\"");
    reveal_strlit(
        "\") If $System.Status.IsOK(sc) {Write \"OK\"} Else {Write $System.Status.GetErrorText(sc)}",
    );
    let p = "Set sc=$SYSTEM.OBJ.CompileAll(\""@;
    let q = "\") If $System.Status.IsOK(sc) {Write \"OK\"} Else {Write $System.Status.GetErrorText(sc)}"@;
    assert(p.len() == 31);
    assert(compile_all_code_text(f) == p + f + q);
    assert((p + f + q).subrange(31, 31 + f.len() as int) =~= f);
    if compile_all_code_text(f) == compile_all_code_text(g) {
        assert((p + g + q).subrange(31, 31 + g.len() as int) =~= g);
        assert(f.len() == g.len());
    }
}

} // verus!
