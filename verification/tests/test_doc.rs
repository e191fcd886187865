use iris_agentic_dev::cmd::doc::{
    classify_get_status, doc_content_to_string, doc_path, doc_put_path, ensure_cls_extension,
    printed_content, put_source, reply_error, DocBody, GetStatus, PutSource, WriteReply,
};

#[test]
fn ensure_cls_extension_cases() {
    assert_eq!(ensure_cls_extension("MyApp.MyClass"), "MyApp.MyClass.cls");
    assert_eq!(ensure_cls_extension("Config.MapMirrors"), "Config.MapMirrors.cls");
    assert_eq!(ensure_cls_extension("MyApp.MyClass.cls"), "MyApp.MyClass.cls");
    assert_eq!(ensure_cls_extension("MyApp.MyClass.CLS"), "MyApp.MyClass.CLS");
    assert_eq!(ensure_cls_extension("Routine.mac"), "Routine.mac");
    assert_eq!(ensure_cls_extension("Macros.inc"), "Macros.inc");
    assert_eq!(ensure_cls_extension("NoDot"), "NoDot");
    assert_eq!(ensure_cls_extension("-"), "-");
    assert_eq!(ensure_cls_extension("Odd.Cls"), "Odd.Cls.cls");
    assert_eq!(ensure_cls_extension(""), "");
}

#[test]
fn ensure_cls_extension_is_idempotent() {
    for name in ["A.B", "A.B.cls", "AB", "%Dictionary.ClassDefinition", ".", "x.mac.y"] {
        let once = ensure_cls_extension(name);
        assert_eq!(ensure_cls_extension(&once), once);
    }
}

#[test]
fn doc_content_joins_string_lines() {
    let body = DocBody {
        content: Some(vec![
            Some("Class A.B".to_string()),
            None,
            Some("{".to_string()),
            Some("}".to_string()),
        ]),
    };
    assert_eq!(doc_content_to_string(&body), "Class A.B\n{\n}");
    assert_eq!(doc_content_to_string(&DocBody { content: None }), "");
    assert_eq!(doc_content_to_string(&DocBody { content: Some(vec![]) }), "");
    assert_eq!(doc_content_to_string(&DocBody { content: Some(vec![None, Some("x".to_string())]) }), "x");
}

#[test]
fn printed_content_ends_with_one_newline() {
    assert_eq!(printed_content("abc"), "abc\n");
    assert_eq!(printed_content("abc\n"), "abc\n");
    assert_eq!(printed_content(""), "\n");
}

#[test]
fn put_source_cases() {
    assert!(matches!(put_source("-", &None), Some(PutSource::Stdin)));
    assert!(matches!(put_source("-", &Some("/f.cls".to_string())), Some(PutSource::Stdin)));
    assert!(
        matches!(put_source("X.cls", &Some("/path/to/X.cls".to_string())), Some(PutSource::File(p)) if p == "/path/to/X.cls")
    );
    assert!(put_source("X.cls", &None).is_none());
}

#[test]
fn doc_paths_are_percent_encoded() {
    assert_eq!(doc_path("MyApp.MyClass.cls"), "/doc/MyApp.MyClass.cls");
    assert_eq!(doc_path("%Dictionary.ClassDefinition.cls"), "/doc/%25Dictionary.ClassDefinition.cls");
    assert_eq!(doc_path("a b/c?d"), "/doc/a%20b%2Fc%3Fd");
    assert_eq!(doc_path("é~_-"), "/doc/%C3%A9~_-");
    assert_eq!(doc_put_path("My App.cls"), "/doc/My%20App.cls?ignoreConflict=1");
}

#[test]
fn encoded_names_are_one_segment() {
    for name in ["a/b", "x?y#z&w", "/", "??"] {
        let p = doc_path(name);
        let seg = &p["/doc/".len()..];
        assert!(!seg.contains('/') && !seg.contains('?') && !seg.contains('#') && !seg.contains('&'));
    }
}

#[test]
fn reply_error_cases() {
    let none = WriteReply { errors: None };
    assert_eq!(reply_error(&none, "write failed"), None);
    let empty = WriteReply { errors: Some(vec![]) };
    assert_eq!(reply_error(&empty, "write failed"), None);
    let one = WriteReply { errors: Some(vec![Some("bad".to_string()), Some("worse".to_string())]) };
    assert_eq!(reply_error(&one, "write failed"), Some("bad".to_string()));
    let not_text = WriteReply { errors: Some(vec![None]) };
    assert_eq!(reply_error(&not_text, "Upload failed"), Some("Upload failed".to_string()));
}

#[test]
fn get_status_cases() {
    assert!(matches!(classify_get_status(404), GetStatus::NotFound));
    assert!(matches!(classify_get_status(200), GetStatus::Found));
    assert!(matches!(classify_get_status(299), GetStatus::Found));
    assert!(matches!(classify_get_status(300), GetStatus::Failed));
    assert!(matches!(classify_get_status(500), GetStatus::Failed));
    assert!(matches!(classify_get_status(199), GetStatus::Failed));
}
