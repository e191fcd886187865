use iris_agentic_dev::cmd::compile::class_name_for;
use iris_agentic_dev::text::{chars_of, content_lines, is_whitespace, tokens_of, trim_text};

#[test]
fn whitespace_table_matches_char_is_whitespace() {
    for c in (0u32..=0x10FFFF).filter_map(char::from_u32) {
        assert_eq!(is_whitespace(c), c.is_whitespace(), "{:?}", c);
    }
}

const SAMPLES: &[&str] = &[
    "",
    " ",
    "a",
    "  a b  ",
    "\t\na\u{3000}b\u{a0}\r\n",
    "\u{2028}x\u{2029}",
    "αβ γ\u{85}δ",
    "one\ntwo\r\nthree\r",
    "\n\n\n",
    "x\r\n\r\ny\n",
];

#[test]
fn trim_matches_str_trim() {
    for s in SAMPLES {
        assert_eq!(trim_text(s), s.trim(), "{:?}", s);
    }
}

#[test]
fn tokens_match_split_whitespace() {
    for s in SAMPLES {
        let toks: Vec<String> = tokens_of(&chars_of(s)).into_iter().map(|t| t.into_iter().collect()).collect();
        let expected: Vec<String> = s.split_whitespace().map(|t| t.to_string()).collect();
        assert_eq!(toks, expected, "{:?}", s);
    }
}

#[test]
fn lines_match_str_lines() {
    for s in SAMPLES {
        let expected: Vec<String> = s.lines().map(|l| l.to_string()).collect();
        assert_eq!(content_lines(s), expected, "{:?}", s);
    }
}

/// The class-name rule as the compile command states it with std's string
/// methods.
fn expected_class_name(cls_text: &str, target: &str) -> String {
    cls_text
        .lines()
        .find(|l| l.trim_start().starts_with("Class "))
        .and_then(|l| l.split_whitespace().nth(1))
        .map(|s| s.to_string())
        .unwrap_or_else(|| {
            target
                .trim_end_matches(".cls")
                .replace(['/', '\\'], ".")
                .trim_start_matches('.')
                .to_string()
        })
}

#[test]
fn class_name_agrees_with_std_rule() {
    let texts = [
        "",
        "Class A.B",
        "  Class A.B Extends C",
        "\u{3000}Class X.Y",
        "Class\u{a0}X.Y",
        "Class \nClass Later.One",
        "Classy X\nClass Real.Name",
        "/// Class Doc.Name\nClass Real.Name",
        "Include Foo\r\n\tClass  Tabbed.Name\t[Abstract]\r\n",
    ];
    let targets = ["A.cls", "dir/sub\\B.cls", "./x.cls.cls", "..cls", "noext", "/abs/path/C.cls", ".cls.cls"];
    for t in texts {
        for p in targets {
            assert_eq!(class_name_for(t, p), expected_class_name(t, p), "{:?} {:?}", t, p);
        }
    }
}
