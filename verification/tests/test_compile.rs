use iris_agentic_dev::cmd::compile::{
    class_name_for, class_name_from_path, compile_all_code, document_name, file_report,
    files_exit_code, outcome_report, output_result, summarize_compile_all, upload_outcome,
    FileOutcome, Report,
};
use iris_agentic_dev::cmd::doc::WriteReply;
use iris_agentic_dev::text::content_lines;

#[test]
fn class_name_from_declaration() {
    let text = "/// doc\n  Class MyApp.Thing Extends %Persistent\n{\n}\n";
    assert_eq!(class_name_for(text, "src/Other.cls"), "MyApp.Thing");
    let text = "\tClass   A.B\t[ Final ]";
    assert_eq!(class_name_for(text, "x.cls"), "A.B");
}

#[test]
fn class_name_from_crlf_source() {
    assert_eq!(class_name_for("Include X\r\nClass P.Q\r\n{\r\n}\r\n", "f.cls"), "P.Q");
}

#[test]
fn class_name_falls_back_to_path() {
    assert_eq!(class_name_for("no class here", "src/MyApp/Thing.cls"), "src.MyApp.Thing");
    assert_eq!(class_name_for("", "/abs/A.B.cls"), "abs.A.B");
    assert_eq!(class_name_for("Classy X", "a\\b.cls.cls"), "a.b");
    // the first class line has no name: no further line is tried
    assert_eq!(class_name_for("Class \nClass Later.One", "./Dir/C.cls"), "Dir.C");
    assert_eq!(class_name_for("", "plain"), "plain");
}

#[test]
fn class_name_from_path_cases() {
    assert_eq!(class_name_from_path("MyApp.MyClass.cls"), "MyApp.MyClass");
    assert_eq!(class_name_from_path("../x/Y.cls"), "x.Y");
    assert_eq!(class_name_from_path(".cls"), "");
    assert_eq!(class_name_from_path("A.CLS"), "A.CLS");
}

#[test]
fn class_files_compile_as_cls_documents() {
    assert_eq!(document_name("MyApp.Thing", "src/MyApp/Thing.cls"), "MyApp.Thing.cls");
    assert_eq!(document_name("Plain", "Plain"), "Plain.cls");
}

#[test]
fn routine_files_keep_their_name_and_extension() {
    let cls_name = class_name_for("ROUTINE Routine\n write 1\n", "Routine.mac");
    assert_eq!(cls_name, "Routine.mac");
    assert_eq!(document_name(&cls_name, "Routine.mac"), "Routine.mac");
    // include files are not routines: like any non-routine file they become `<class>.cls`
    assert_eq!(document_name("lib.Macros.inc", "lib/Macros.inc"), "lib.Macros.inc.cls");
    let report = outcome_report(
        &FileOutcome::Compiled { success: true, errors: vec![] },
        "Routine.mac",
        &cls_name,
        false,
    );
    assert!(matches!(&report[..], [Report::Stdout(l)] if l == "OK: Routine.mac"));
}

#[test]
fn upload_outcomes() {
    let none = WriteReply { errors: None };
    assert!(matches!(upload_outcome(false, "500 Internal Server Error", &none),
        Some(FileOutcome::UploadRejected(s)) if s == "500 Internal Server Error"));
    assert!(upload_outcome(true, "200 OK", &none).is_none());
    assert!(upload_outcome(true, "200 OK", &WriteReply { errors: Some(vec![]) }).is_none());
    let bad = WriteReply { errors: Some(vec![Some("locked".to_string())]) };
    assert!(matches!(upload_outcome(true, "200 OK", &bad), Some(FileOutcome::UploadFailed(m)) if m == "locked"));
    let odd = WriteReply { errors: Some(vec![None]) };
    assert!(matches!(upload_outcome(true, "200 OK", &odd), Some(FileOutcome::UploadFailed(m)) if m == "Upload failed"));
}

#[test]
fn outcome_reports_and_exit_code() {
    let rejected = FileOutcome::UploadRejected("403 Forbidden".to_string());
    assert!(matches!(&outcome_report(&rejected, "a/B.cls", "a.B", false)[..],
        [Report::Stderr(l)] if l == "error: upload failed for a/B.cls: HTTP 403 Forbidden"));
    let failed = FileOutcome::UploadFailed("locked".to_string());
    assert!(matches!(&outcome_report(&failed, "B.cls", "B", true)[..], [Report::Stderr(l)] if l == "error: locked"));
    let compiled = FileOutcome::Compiled { success: false, errors: vec!["e1".to_string()] };
    assert!(matches!(&outcome_report(&compiled, "B.cls", "B", true)[..], [Report::Json]));
    assert!(matches!(&outcome_report(&compiled, "B.cls", "B", false)[..], [Report::Stdout(l)] if l == "ERROR: B: e1"));
    let ok = || FileOutcome::Compiled { success: true, errors: vec![] };
    assert_eq!(files_exit_code(&vec![]), 0);
    assert_eq!(files_exit_code(&vec![ok(), ok()]), 0);
    assert_eq!(files_exit_code(&vec![ok(), compiled]), 1);
    assert_eq!(files_exit_code(&vec![rejected, ok()]), 1);
    assert_eq!(files_exit_code(&vec![failed]), 1);
}

#[test]
fn compile_all_code_text() {
    assert_eq!(
        compile_all_code("cuk"),
        "Set sc=$SYSTEM.OBJ.CompileAll(\"cuk\") If $System.Status.IsOK(sc) {Write \"OK\"} Else {Write $System.Status.GetErrorText(sc)}"
    );
}

#[test]
fn compile_all_summary_success_and_failure() {
    let ok = summarize_compile_all("  compiled 3 classes\nOK \n", "USER");
    assert!(ok.success);
    assert_eq!(ok.target, ".");
    assert_eq!(ok.namespace.as_deref(), Some("USER"));
    assert!(ok.error.is_none() && ok.error_code.is_none());

    let bad = summarize_compile_all("\n ERROR #5001: broken \n", "USER");
    assert!(!bad.success);
    assert_eq!(bad.error_code.as_deref(), Some("IRIS_COMPILE_FAILED"));
    assert_eq!(bad.error.as_deref(), Some("ERROR #5001: broken"));
    assert!(bad.namespace.is_none());

    assert!(summarize_compile_all("OK", "X").success);
    assert!(!summarize_compile_all("OKAY", "X").success);
    assert!(!summarize_compile_all("", "X").success);
}

#[test]
fn output_result_reports() {
    let ok = summarize_compile_all("OK", "USER");
    assert!(matches!(output_result(&ok, "json"), Report::Json));
    assert!(matches!(output_result(&ok, "text"), Report::Stdout(l) if l == "✓ Compiled: ."));
    let bad = summarize_compile_all("boom", "USER");
    assert!(matches!(output_result(&bad, "text"), Report::Stderr(l) if l == "error: [IRIS_COMPILE_FAILED]: boom"));
    assert!(matches!(output_result(&bad, "json"), Report::Json));
}

#[test]
fn file_report_lines() {
    assert_eq!(file_report(true, &vec!["ignored".to_string()], "A.B"), vec!["OK: A.B"]);
    assert_eq!(
        file_report(false, &vec!["Syntax error at line 5".to_string(), "e2".to_string()], "A.B"),
        vec!["ERROR: A.B: Syntax error at line 5", "ERROR: A.B: e2"]
    );
    assert!(file_report(false, &vec![], "A.B").is_empty());
}

#[test]
fn content_lines_like_str_lines() {
    for text in ["", "a", "a\n", "a\nb", "a\r\nb\r\n", "\n\n", "a\rb\n", "x\r", "\r\n", "a\n\nb"] {
        let expected: Vec<String> = text.lines().map(|l| l.to_string()).collect();
        assert_eq!(content_lines(text), expected, "{:?}", text);
    }
}
