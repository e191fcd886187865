//! `doc get` / `doc put`: read or write a class document.

use vstd::prelude::*;
use super::connection_args::ConnectionArgs;
use crate::text::{chars_of, ends_with, join, push_char, range_ends_with, text_eq};
use crate::url::{url_encode, url_encoded};

verus! {

/// The two `doc` actions.
pub enum DocAction {
    /// Fetch a class document and print it.
    Get {
        /// Class name (e.g. Config.MapMirrors or %Dictionary.ClassDefinition)
        name: String,
    },
    /// Write a class document from a file or stdin; `-` as the name reads the
    /// content from stdin.
    Put {
        /// Class name (e.g. MyApp.MyClass), or `-` to read class content from stdin
        name: String,
        /// Read content from this file
        file: Option<String>,
    },
}

/// The `doc` subcommand's arguments.
pub struct DocCommand {
    pub action: DocAction,
    pub conn: ConnectionArgs,
}

/// Where `doc put` takes the document's content from.
pub enum PutSource {
    Stdin,
    File(String),
}

/// What the logic reads of a `GET /doc/<name>` reply body: `result.content`
/// when it is an array, each element's text when that element is a string.
pub struct DocBody {
    pub content: Option<Vec<Option<String>>>,
}

/// What the logic reads of a `PUT /doc/<name>` reply body:
/// `status.errors` when it is an array, each element's `error` text when that
/// is a string.
pub struct WriteReply {
    pub errors: Option<Vec<Option<String>>>,
}

/// How the HTTP status of a `GET /doc` reply is taken.
pub enum GetStatus {
    /// 2xx: the document is in the body.
    Found,
    /// 404: no such document.
    NotFound,
    /// Any other status.
    Failed,
}

/// Document types that keep their name as given.
pub open spec fn has_known_extension(s: Seq<char>) -> bool {
    ||| ends_with(s, ".cls"@)
    ||| ends_with(s, ".CLS"@)
    ||| ends_with(s, ".mac"@)
    ||| ends_with(s, ".inc"@)
}

/// The document name for a class name: names with a known extension, and
/// names without any dot, stay as they are; other dotted names get `.cls`.
pub open spec fn with_cls_extension(s: Seq<char>) -> Seq<char> {
    if s.contains('.') && has_known_extension(s) {
        s
    } else if !s.contains('.') {
        s
    } else {
        s + ".cls"@
    }
}

/// The strings among `items`, in order.
pub open spec fn string_items(items: Seq<Option<String>>) -> Seq<Seq<char>>
    decreases items.len(),
{
    if items.len() == 0 {
        seq![]
    } else {
        let prev = string_items(items.drop_last());
        match items.last() {
            Some(s) => prev.push(s@),
            None => prev,
        }
    }
}

/// A document's source: the string lines of `result.content` joined by
/// newlines; nothing when there is no such array.
pub open spec fn doc_text(content: Option<Seq<Option<String>>>) -> Seq<char> {
    match content {
        Some(items) => join(string_items(items), '\n'),
        None => seq![],
    }
}

/// The view of a document reply's content.
pub open spec fn doc_content_view(body: &DocBody) -> Option<Seq<Option<String>>> {
    match body.content {
        Some(v) => Some(v@),
        None => None,
    }
}

/// The Atelier path of a document, relative to the namespace URL.
pub open spec fn doc_path_text(doc_name: Seq<char>) -> Seq<char> {
    "/doc/"@ + url_encoded(doc_name)
}

/// The Atelier path that writes a document, overwriting any conflict.
pub open spec fn doc_put_path_text(doc_name: Seq<char>) -> Seq<char> {
    "/doc/"@ + url_encoded(doc_name) + "?ignoreConflict=1"@
}

/// What `doc get` prints: the source, ended by a newline.
pub open spec fn printed_text(content: Seq<char>) -> Seq<char> {
    if content.len() > 0 && content.last() == '\n' {
        content
    } else {
        content.push('\n')
    }
}

/// Whether `v` holds `c`.
fn has_char(v: &Vec<char>, c: char) -> (res: bool)
    ensures
        res == v@.contains(c),
{
    let mut i: usize = 0;
    while i < v.len()
        invariant
            0 <= i <= v.len(),
            forall|k: int| 0 <= k < i ==> v@[k] != c,
        decreases v.len() - i,
    {
        if v[i] == c {
            return true;
        }
        i = i + 1;
    }
    false
}

/// The document name for a class name (see `with_cls_extension`).
pub fn ensure_cls_extension(name: &str) -> (res: String)
    ensures
        res@ == with_cls_extension(name@),
{
    let v = chars_of(name);
    let n = v.len();
    let known = range_ends_with(&v, n, &chars_of(".cls")) || range_ends_with(
        &v,
        n,
        &chars_of(".CLS"),
    ) || range_ends_with(&v, n, &chars_of(".mac")) || range_ends_with(&v, n, &chars_of(".inc"));
    assert(v@.take(n as int) =~= v@);
    let dotted = has_char(&v, '.');
    if dotted && known {
        name.to_string()
    } else if !dotted {
        name.to_string()
    } else {
        let mut s = name.to_string();
        s.append(".cls");
        s
    }
}

/// The source text of a document reply: its string lines joined by newlines.
pub fn doc_content_to_string(body: &DocBody) -> (res: String)
    ensures
        res@ == doc_text(doc_content_view(body)),
{
    match &body.content {
        None => String::new(),
        Some(items) => {
            let mut res = String::new();
            let mut any = false;
            let mut i: usize = 0;
            while i < items.len()
                invariant
                    0 <= i <= items.len(),
                    any == (string_items(items@.take(i as int)).len() > 0),
                    res@ == join(string_items(items@.take(i as int)), '\n'),
                decreases items.len() - i,
            {
                proof {
                    assert(items@.take(i + 1).drop_last() =~= items@.take(i as int));
                    assert(items@.take(i + 1).last() == items@[i as int]);
                }
                if let Some(s) = &items[i] {
                    let ghost before = res@;
                    let ghost prev = string_items(items@.take(i as int));
                    if any {
                        push_char(&mut res, '\n');
                    }
                    res.append(s.as_str());
                    proof {
                        let now = string_items(items@.take(i + 1));
                        assert(now == prev.push(s@));
                        assert(now.drop_last() =~= prev);
                        if !any {
                            assert(prev.len() == 0);
                            assert(before =~= Seq::<char>::empty());
                            assert(res@ =~= s@);
                        }
                    }
                    any = true;
                }
                i = i + 1;
            }
            assert(items@.take(items.len() as int) =~= items@);
            res
        },
    }
}

/// Where `doc put` reads the content from: `-` as the name means stdin,
/// otherwise `--file`; neither is an error (`None`).
pub fn put_source(name: &str, file: &Option<String>) -> (res: Option<PutSource>)
    ensures
        name@ == "-"@ ==> res == Some(PutSource::Stdin),
        name@ != "-"@ ==> match file {
            Some(p) => res == Some(PutSource::File(*p)),
            None => res is None,
        },
{
    if text_eq(name, "-") {
        Some(PutSource::Stdin)
    } else {
        match file {
            Some(p) => Some(PutSource::File(p.clone())),
            None => None,
        }
    }
}

/// The path of `GET /doc/<name>`.
pub fn doc_path(doc_name: &str) -> (res: String)
    ensures
        res@ == doc_path_text(doc_name@),
{
    let mut res = "/doc/".to_string();
    let enc = url_encode(doc_name);
    res.append(enc.as_str());
    res
}

/// The path of `PUT /doc/<name>?ignoreConflict=1`.
pub fn doc_put_path(doc_name: &str) -> (res: String)
    ensures
        res@ == doc_put_path_text(doc_name@),
{
    let mut res = doc_path(doc_name);
    res.append("?ignoreConflict=1");
    res
}

/// The error a write reply reports: the first entry of `status.errors`
/// (its `error` text, or `fallback` when that is not a string); `None` when
/// there are no errors.
pub fn reply_error(reply: &WriteReply, fallback: &str) -> (res: Option<String>)
    ensures
        match reply.errors {
            Some(v) if v@.len() > 0 => res matches Some(m) && m@ == match v@[0] {
                Some(e) => e@,
                None => fallback@,
            },
            _ => res is None,
        },
{
    match &reply.errors {
        Some(v) => {
            if v.len() > 0 {
                match &v[0] {
                    Some(e) => Some(e.clone()),
                    None => Some(fallback.to_string()),
                }
            } else {
                None
            }
        },
        None => None,
    }
}

/// How a `GET /doc` status code is taken: 404 is a missing document, 2xx
/// success, anything else a failure.
pub fn classify_get_status(code: u16) -> (res: GetStatus)
    ensures
        code == 404 ==> res == GetStatus::NotFound,
        code != 404 && 200 <= code <= 299 ==> res == GetStatus::Found,
        code != 404 && !(200 <= code <= 299) ==> res == GetStatus::Failed,
{
    if code == 404 {
        GetStatus::NotFound
    } else if 200 <= code && code <= 299 {
        GetStatus::Found
    } else {
        GetStatus::Failed
    }
}

/// What `doc get` prints for a document's source: raw, no framing, ended by
/// a newline.
pub fn printed_content(content: &str) -> (res: String)
    ensures
        res@ == printed_text(content@),
{
    let v = chars_of(content);
    let mut s = content.to_string();
    if !(v.len() > 0 && v[v.len() - 1] == '\n') {
        push_char(&mut s, '\n');
    }
    s
}

/// Adding the extension is idempotent: a document name maps to itself.
pub proof fn law_ensure_extension_idempotent(s: Seq<char>)
    ensures
        with_cls_extension(with_cls_extension(s)) == with_cls_extension(s),
{
    reveal_strlit(".cls");
    let t = with_cls_extension(s);
    if t != s {
        assert(t == s + ".cls"@);
        assert(t.skip(t.len() - 4) =~= ".cls"@);
        assert(t[s.len() as int] == '.');
        assert(t.contains('.'));
    }
}

/// The text of an element of `result.content` that is a string.
pub open spec fn item_text(x: Option<String>) -> Seq<char> {
    match x {
        Some(s) => s@,
        None => seq![],
    }
}

/// A document's source keeps every string line of `result.content`, empty
/// ones included, in order, joined by newlines; when no line holds a newline,
/// splitting the source at its newlines gives those lines back.
pub proof fn law_doc_text_keeps_every_line(items: Seq<Option<String>>)
    ensures
        ({
            let strs = items.filter(|x: Option<String>| x is Some).map_values(
                |x: Option<String>| item_text(x),
            );
            &&& doc_text(Some(items)) == join(strs, '\n')
            &&& strs.len() >= 1 && (forall|i: int| 0 <= i < strs.len() ==> crate::text::lacks(
                #[trigger] strs[i],
                '\n',
            )) ==> crate::text::split(doc_text(Some(items)), '\n') == strs
        }),
{
    lemma_string_items_are_strings(items);
    let strs = items.filter(|x: Option<String>| x is Some).map_values(
        |x: Option<String>| item_text(x),
    );
    if strs.len() >= 1 && (forall|i: int| 0 <= i < strs.len() ==> crate::text::lacks(
        #[trigger] strs[i],
        '\n',
    )) {
        crate::text::lemma_split_join(strs, '\n');
    }
}

proof fn lemma_string_items_are_strings(items: Seq<Option<String>>)
    ensures
        string_items(items) == items.filter(|x: Option<String>| x is Some).map_values(
            |x: Option<String>| item_text(x),
        ),
    decreases items.len(),
{
    reveal(Seq::filter);
    if items.len() > 0 {
        let init = items.drop_last();
        lemma_string_items_are_strings(init);
        let f = items.filter(|x: Option<String>| x is Some);
        let fi = init.filter(|x: Option<String>| x is Some);
        assert(f == if items.last() is Some {
            fi.push(items.last())
        } else {
            fi
        });
        if items.last() is Some {
            assert(f.map_values(|x: Option<String>| item_text(x)) =~= fi.map_values(
                |x: Option<String>| item_text(x),
            ).push(item_text(items.last())));
        }
    }
}

/// A document name is the class name itself or the class name with `.cls`
/// appended; `.cls` is appended exactly to dotted names without a known
/// extension (`.cls`, `.CLS`, `.mac`, `.inc`).
pub proof fn law_cls_extension_added_exactly_when_needed(s: Seq<char>)
    ensures
        with_cls_extension(s) == s || with_cls_extension(s) == s + ".cls"@,
        (with_cls_extension(s) == s + ".cls"@) <==> (s.contains('.') && !has_known_extension(s)),
{
    reveal_strlit(".cls");
    assert(s + ".cls"@ != s) by {
        assert((s + ".cls"@).len() == s.len() + 4);
    }
}

} // verus!
