//! Reference files that the author attaches for the assistant to read.
//!
//! They stand beside the game's files, in the editor's directory. The caller
//! reads and writes files; what may be kept, under which name, and which part of
//! it is read is decided here.
use vstd::prelude::*;

use crate::agents::router;
use crate::order;
use crate::paths;
use crate::text;

verus! {

broadcast use vstd::string::group_string_axioms;

/// The largest file that is kept, in bytes.
pub const MAX_UPLOAD_BYTES: u64 = 2_097_152;

/// The largest number of files that are kept.
pub const MAX_UPLOAD_COUNT: usize = 50;

pub const SUMMARY_CHARS: usize = 200;

pub const DEFAULT_READ_LINES: usize = 200;

pub const MAX_READ_LINES: usize = 800;

pub const MAX_READ_CHARS: usize = 12_000;

pub const MAX_STORED_STEM_CHARS: usize = 60;

/// The extensions of files that can be read as text, as messages list them.
pub const SUPPORTED_LIST: &'static str =
    "txt, md, markdown, json, csv, tsv, yaml, yml, xml, html, htm, log, srt, ini, toml";

/// One file that is kept.
#[derive(Debug, PartialEq, Eq)]
pub struct AiUpload {
    pub id: String,
    /// The name that the author's file had.
    pub name: String,
    /// The name of the file that is kept.
    pub stored_name: String,
    pub extension: String,
    pub size: u64,
    pub char_count: usize,
    pub line_count: usize,
    /// A preview on one line.
    pub summary: String,
    /// The time of the import, in milliseconds.
    pub imported_at: String,
}

/// A part of a file.
#[derive(Debug, PartialEq, Eq)]
pub struct AiUploadContent {
    pub id: String,
    pub name: String,
    pub text: String,
    pub from_line: usize,
    pub to_line: usize,
    pub total_lines: usize,
    pub truncated: bool,
}

#[verifier::ext_equal]
pub struct UploadView {
    pub id: Seq<char>,
    pub name: Seq<char>,
    pub stored_name: Seq<char>,
    pub extension: Seq<char>,
    pub size: u64,
    pub char_count: nat,
    pub line_count: nat,
    pub summary: Seq<char>,
    pub imported_at: Seq<char>,
}

impl View for AiUpload {
    type V = UploadView;

    open spec fn view(&self) -> UploadView {
        UploadView {
            id: self.id@,
            name: self.name@,
            stored_name: self.stored_name@,
            extension: self.extension@,
            size: self.size,
            char_count: self.char_count as nat,
            line_count: self.line_count as nat,
            summary: self.summary@,
            imported_at: self.imported_at@,
        }
    }
}

impl Clone for AiUpload {
    fn clone(&self) -> (r: AiUpload)
        ensures
            r == *self,
    {
        AiUpload {
            id: self.id.clone(),
            name: self.name.clone(),
            stored_name: self.stored_name.clone(),
            extension: self.extension.clone(),
            size: self.size,
            char_count: self.char_count,
            line_count: self.line_count,
            summary: self.summary.clone(),
            imported_at: self.imported_at.clone(),
        }
    }
}

#[verifier::ext_equal]
pub struct ContentView {
    pub id: Seq<char>,
    pub name: Seq<char>,
    pub text: Seq<char>,
    pub from_line: nat,
    pub to_line: nat,
    pub total_lines: nat,
    pub truncated: bool,
}

impl View for AiUploadContent {
    type V = ContentView;

    open spec fn view(&self) -> ContentView {
        ContentView {
            id: self.id@,
            name: self.name@,
            text: self.text@,
            from_line: self.from_line as nat,
            to_line: self.to_line as nat,
            total_lines: self.total_lines as nat,
            truncated: self.truncated,
        }
    }
}

// ---------------------------------------------------------------------------
// Names
// ---------------------------------------------------------------------------

/// Whether a file of this extension can be read as text.
pub open spec fn supported(ext: Seq<char>) -> bool {
    ext == "txt"@ || ext == "md"@ || ext == "markdown"@ || ext == "json"@ || ext == "csv"@ || ext
        == "tsv"@ || ext == "yaml"@ || ext == "yml"@ || ext == "xml"@ || ext == "html"@ || ext
        == "htm"@ || ext == "log"@ || ext == "srt"@ || ext == "ini"@ || ext == "toml"@
}

fn is_supported(ext: &str) -> (r: bool)
    ensures
        r == supported(ext@),
{
    text::same(ext, "txt") || text::same(ext, "md") || text::same(ext, "markdown") || text::same(
        ext,
        "json",
    ) || text::same(ext, "csv") || text::same(ext, "tsv") || text::same(ext, "yaml") || text::same(
        ext,
        "yml",
    ) || text::same(ext, "xml") || text::same(ext, "html") || text::same(ext, "htm") || text::same(
        ext,
        "log",
    ) || text::same(ext, "srt") || text::same(ext, "ini") || text::same(ext, "toml")
}

/// The extension of a name as it is written.
pub open spec fn raw_extension(name: Seq<char>) -> Seq<char> {
    match paths::extension_of(name) {
        Some(e) => e,
        None => ""@,
    }
}

/// The extension of a name, in lower case.
pub fn extension_of(name: &str) -> (r: String)
    ensures
        r@ == text::lowercase(raw_extension(name@)),
{
    match paths::extension(name) {
        Some(e) => text::to_lowercase(e.as_str()),
        None => text::to_lowercase(""),
    }
}

/// Why a file of this extension cannot be kept, if it cannot.
pub open spec fn extension_fault(name: Seq<char>, ext: Seq<char>) -> Option<Seq<char>> {
    if ext.len() == 0 {
        Some(
            "「"@ + name + "」没有扩展名，无法判断类型。支持的参考文件类型："@
                + SUPPORTED_LIST@ + "。"@,
        )
    } else if !supported(ext) {
        Some(
            "不支持的参考文件类型 ."@ + ext
                + "。目前只支持文本类文件："@ + SUPPORTED_LIST@
                + "。图片/音频请通过素材库导入。"@,
        )
    } else {
        None
    }
}

/// Refuses what cannot be read back as text, by its extension in lower case.
pub fn check_extension(name: &str, ext: String) -> (r: Result<String, String>)
    ensures
        match extension_fault(name@, ext@) {
            Some(m) => r matches Err(e) && e@ == m,
            None => r matches Ok(e) && e@ == ext@,
        },
{
    if ext.as_str().is_empty() {
        let mut m = text::copy("「");
        m.append(name);
        m.append("」没有扩展名，无法判断类型。支持的参考文件类型：");
        m.append(SUPPORTED_LIST);
        m.append("。");
        return Err(m);
    }
    if !is_supported(ext.as_str()) {
        let mut m = text::copy("不支持的参考文件类型 .");
        m.append(ext.as_str());
        m.append("。目前只支持文本类文件：");
        m.append(SUPPORTED_LIST);
        m.append("。图片/音频请通过素材库导入。");
        return Err(m);
    }
    Ok(ext)
}

/// Refuses what cannot be read back as text.
pub fn validate_extension(name: &str) -> (r: Result<String, String>)
    ensures
        ({
            let ext = text::lowercase(raw_extension(name@));
            match extension_fault(name@, ext) {
                Some(m) => r matches Err(e) && e@ == m,
                None => r matches Ok(e) && e@ == ext,
            }
        }),
{
    let ext = extension_of(name);
    check_extension(name, ext)
}

/// A character of a stored name: letters, digits, `-` and `_` stay.
pub open spec fn stored_char(c: char) -> char {
    if text::alphanumeric(c) || c == '-' || c == '_' {
        c
    } else {
        '_'
    }
}

/// A text without the `_` that it begins and ends with.
pub open spec fn stripped(s: Seq<char>) -> Seq<char>
    decreases s.len(),
{
    if s.len() > 0 && s[0] == '_' {
        stripped(s.drop_first())
    } else if s.len() > 0 && s.last() == '_' {
        stripped(s.drop_last())
    } else {
        s
    }
}

/// The stem that a file is stored under.
pub open spec fn stored_stem(name: Seq<char>) -> Seq<char> {
    let stem = match paths::stem_of(name) {
        Some(s) => s,
        None => "reference"@,
    };
    let cleaned = stripped(
        text::first_chars(stem, MAX_STORED_STEM_CHARS as int).map_values(|c: char| stored_char(c)),
    );
    if cleaned.len() == 0 {
        "reference"@
    } else {
        cleaned
    }
}

/// The name that a file is stored under, by its extension in lower case.
pub open spec fn stored_name_of(id: Seq<char>, name: Seq<char>, ext: Seq<char>) -> Seq<char> {
    if ext.len() == 0 {
        id + "-"@ + stored_stem(name)
    } else {
        id + "-"@ + stored_stem(name) + "."@ + ext
    }
}

proof fn lemma_stripped(s: Seq<char>, a: int, b: int)
    requires
        0 <= a <= b <= s.len(),
        forall|j: int| 0 <= j < a ==> s[j] == '_',
        forall|j: int| b <= j < s.len() ==> s[j] == '_',
        a < b ==> s[a] != '_' && s[b - 1] != '_',
    ensures
        stripped(s) == s.subrange(a, b),
    decreases s.len(),
{
    if s.len() == 0 {
        assert(s.subrange(a, b) =~= s);
    } else if s[0] == '_' {
        let t = s.drop_first();
        if a > 0 {
            lemma_stripped(t, a - 1, b - 1);
            assert(t.subrange(a - 1, b - 1) =~= s.subrange(a, b));
        } else {
            lemma_stripped(t, 0, 0);
            assert(t.subrange(0, 0) =~= s.subrange(a, b));
        }
    } else if s.last() == '_' {
        let t = s.drop_last();
        lemma_stripped(t, a, b);
        assert(t.subrange(a, b) =~= s.subrange(a, b));
    } else {
        assert(s.subrange(a, b) =~= s);
    }
}

/// Whether a text holds neither `/` nor `\\`.
pub open spec fn plain(s: Seq<char>) -> bool {
    forall|i: int| 0 <= i < s.len() ==> #[trigger] s[i] != '/' && s[i] != '\\'
}

/// A supported extension is plain.
proof fn lemma_supported_plain(ext: Seq<char>)
    requires
        supported(ext),
    ensures
        plain(ext),
{
    reveal_strlit("txt");
    reveal_strlit("md");
    reveal_strlit("markdown");
    reveal_strlit("json");
    reveal_strlit("csv");
    reveal_strlit("tsv");
    reveal_strlit("yaml");
    reveal_strlit("yml");
    reveal_strlit("xml");
    reveal_strlit("html");
    reveal_strlit("htm");
    reveal_strlit("log");
    reveal_strlit("srt");
    reveal_strlit("ini");
    reveal_strlit("toml");
}

proof fn lemma_kept_inside(s: Seq<char>)
    requires
        plain(s),
        s.len() > 1,
    ensures
        name_kept_inside(s),
{
    reveal_strlit(".");
    assert(!s.contains('/'));
    assert(!s.contains('\\'));
    paths::lemma_single_part(s);
    assert(s.len() != "."@.len());
}

proof fn lemma_decimal_plain(n: nat)
    ensures
        plain(text::decimal(n)),
        text::decimal(n).len() > 0,
    decreases n,
{
    if n >= 10 {
        lemma_decimal_plain(n / 10);
    }
}

proof fn lemma_candidate_plain(base: nat, k: nat)
    ensures
        plain(candidate_id(base, k)),
{
    reveal_strlit("ref-");
    reveal_strlit("-");
    lemma_decimal_plain(base);
    lemma_decimal_plain(k);
}

fn clean_stem(stem: &str) -> (r: String)
    ensures
        r@ == stripped(
            text::first_chars(stem@, MAX_STORED_STEM_CHARS as int).map_values(
                |c: char| stored_char(c),
            ),
        ),
        plain(r@),
{
    let head = text::take_chars(stem, MAX_STORED_STEM_CHARS);
    let chars = text::chars_of(head.as_str());
    let ghost mapped = head@.map_values(|c: char| stored_char(c));
    let mut cleaned: Vec<char> = Vec::new();
    let mut i: usize = 0;
    while i < chars.len()
        invariant
            i <= chars.len(),
            chars@ == head@,
            mapped == head@.map_values(|c: char| stored_char(c)),
            cleaned@ =~= mapped.take(i as int),
            plain(cleaned@),
        decreases chars.len() - i,
    {
        let c = chars[i];
        if text::is_alphanumeric(c) || c == '-' || c == '_' {
            cleaned.push(c);
        } else {
            cleaned.push('_');
        }
        i += 1;
    }
    assert(cleaned@ =~= mapped);
    let ghost whole = cleaned@;
    let mut a: usize = 0;
    while a < cleaned.len() && cleaned[a] == '_'
        invariant
            a <= cleaned.len(),
            forall|j: int| 0 <= j < a ==> cleaned@[j] == '_',
        decreases cleaned.len() - a,
    {
        a += 1;
    }
    let mut b: usize = cleaned.len();
    while b > a && cleaned[b - 1] == '_'
        invariant
            a <= b <= cleaned.len(),
            forall|j: int| b <= j < cleaned.len() ==> cleaned@[j] == '_',
        decreases b,
    {
        b -= 1;
    }
    proof {
        lemma_stripped(cleaned@, a as int, b as int);
    }
    text::string_of_range(&cleaned, a, b)
}

/// The name that a file is stored under, by its extension in lower case.
pub fn stored_name(id: &str, original: &str, ext: &str) -> (r: String)
    ensures
        r@ == stored_name_of(id@, original@, ext@),
        plain(id@) && plain(ext@) ==> name_kept_inside(r@),
{
    proof {
        reveal_strlit("-");
        reveal_strlit(".");
        reveal_strlit("reference");
    }
    let stem = match paths::file_stem(original) {
        Some(s) => s,
        None => text::copy("reference"),
    };
    let cleaned = clean_stem(stem.as_str());
    let kept = if cleaned.as_str().is_empty() {
        text::copy("reference")
    } else {
        cleaned
    };
    let mut s = text::copy(id);
    s.append("-");
    s.append(kept.as_str());
    if !ext.is_empty() {
        s.append(".");
        s.append(ext);
    }
    proof {
        if plain(id@) && plain(ext@) {
            lemma_kept_inside(s@);
        }
    }
    s
}

/// The name that a file is stored under.
pub fn sanitize_stored_name(id: &str, original: &str) -> (r: String)
    ensures
        r@ == stored_name_of(
            id@,
            original@,
            text::lowercase(raw_extension(original@)),
        ),
{
    let ext = extension_of(original);
    stored_name(id, original, ext.as_str())
}

/// The directory of the files that are kept.
pub open spec fn uploads_dir_of(project: Seq<char>) -> Seq<char> {
    paths::joined(paths::joined(project, ".webgal-editor"@), "ai-uploads"@)
}

pub fn uploads_dir(project_path: &str) -> (r: String)
    ensures
        r@ == uploads_dir_of(project_path@),
{
    let editor = paths::join(project_path, ".webgal-editor");
    paths::join(editor.as_str(), "ai-uploads")
}

/// Where the list of the files stands.
pub fn index_path(project_path: &str) -> (r: String)
    ensures
        r@ == paths::joined(uploads_dir_of(project_path@), "index.json"@),
{
    let dir = uploads_dir(project_path);
    paths::join(dir.as_str(), "index.json")
}

/// Whether a stored name is one file in the directory.
pub open spec fn name_kept_inside(stored_name: Seq<char>) -> bool {
    stored_name.len() > 0 && paths::component_count(stored_name) == 1 && !stored_name.contains(
        '\\',
    ) && !stored_name.contains('/')
}

/// Where a file is kept.
pub fn stored_path(project_path: &str, upload: &AiUpload) -> (r: Result<String, String>)
    ensures
        if name_kept_inside(upload.stored_name@) {
            r matches Ok(path) && path@ == paths::joined(
                uploads_dir_of(project_path@),
                upload.stored_name@,
            )
        } else {
            r matches Err(m) && m@ == "无效的参考文件名: "@ + upload.stored_name@
        },
{
    let name = upload.stored_name.as_str();
    if name.is_empty() || !paths::is_single_component(name) || text::contains_char(name, '\\')
        || text::contains_char(name, '/') {
        return Err(router::joined("无效的参考文件名: ", name));
    }
    let dir = uploads_dir(project_path);
    Ok(paths::join(dir.as_str(), name))
}

// ---------------------------------------------------------------------------
// Texts
// ---------------------------------------------------------------------------

/// A text without the byte order marks that it begins with.
pub open spec fn unmarked(s: Seq<char>) -> Seq<char>
    decreases s.len(),
{
    if s.len() > 0 && s[0] == '\u{feff}' {
        unmarked(s.drop_first())
    } else {
        s
    }
}

/// A text whose `\r\n` are `\n`.
pub open spec fn unix_lines(s: Seq<char>) -> Seq<char>
    decreases s.len(),
{
    if s.len() == 0 {
        s
    } else if s.len() > 1 && s[0] == '\r' && s[1] == '\n' {
        seq!['\n'] + unix_lines(s.skip(2))
    } else {
        seq![s[0]] + unix_lines(s.drop_first())
    }
}

/// The text of a file.
pub open spec fn text_of(bytes: Seq<u8>) -> Seq<char> {
    unix_lines(unmarked(vstd::utf8::decode_utf8(bytes)))
}

/// The message for a file that is no text.
pub open spec fn not_text(name: Seq<char>) -> Seq<char> {
    "「"@ + name
        + "」不是 UTF-8 文本（可能是二进制文件或其它编码）。请另存为 UTF-8 后重新上传。"@
}

fn normalize(s: &str) -> (r: String)
    ensures
        r@ == unix_lines(unmarked(s@)),
{
    let v = text::chars_of(s);
    let mut i: usize = 0;
    assert(s@.skip(0) =~= s@);
    while i < v.len() && v[i] == '\u{feff}'
        invariant
            i <= v.len(),
            v@ == s@,
            unmarked(s@) == unmarked(s@.skip(i as int)),
        decreases v.len() - i,
    {
        assert(s@.skip(i as int).drop_first() =~= s@.skip(i + 1));
        i += 1;
    }
    let ghost all = unix_lines(s@.skip(i as int));
    let mut out = String::new();
    assert(out@ =~= Seq::<char>::empty());
    assert(out@ + all =~= all);
    while i < v.len()
        invariant
            i <= v.len(),
            v@ == s@,
            all == out@ + unix_lines(s@.skip(i as int)),
        decreases v.len() - i,
    {
        let ghost rest = s@.skip(i as int);
        let ghost before = out@;
        if v[i] == '\r' && i + 1 < v.len() && v[i + 1] == '\n' {
            assert(rest[1] == v@[i + 1]);
            out.push('\n');
            assert(rest.skip(2) =~= s@.skip(i + 2));
            assert(before + (seq!['\n'] + unix_lines(s@.skip(i + 2))) =~= before.push('\n')
                + unix_lines(s@.skip(i + 2)));
            i += 2;
        } else {
            let c = v[i];
            out.push(c);
            assert(rest.drop_first() =~= s@.skip(i + 1));
            assert(rest.len() > 1 ==> rest[1] == v@[i + 1]);
            assert(before + (seq![c] + unix_lines(s@.skip(i + 1))) =~= before.push(c) + unix_lines(
                s@.skip(i + 1),
            ));
            i += 1;
        }
    }
    assert(s@.skip(i as int) =~= Seq::<char>::empty());
    assert(unix_lines(s@.skip(i as int)) =~= Seq::<char>::empty());
    assert(out@ + Seq::<char>::empty() =~= out@);
    out
}

/// The text of a file, or why it has none.
pub fn decode_text(bytes: &Vec<u8>, name: &str) -> (r: Result<String, String>)
    ensures
        match r {
            Ok(s) => vstd::utf8::valid_utf8(bytes@) && s@ == text_of(bytes@),
            Err(m) => !vstd::utf8::valid_utf8(bytes@) && m@ == not_text(name@),
        },
{
    match text::from_utf8(bytes) {
        Some(s) => Ok(normalize(s.as_str())),
        None => {
            let mut m = text::copy("「");
            m.append(name);
            m.append(
                "」不是 UTF-8 文本（可能是二进制文件或其它编码）。请另存为 UTF-8 后重新上传。",
            );
            Err(m)
        },
    }
}

proof fn lemma_unix_lines_keep(s: Seq<char>)
    requires
        forall|i: int| 0 <= i < s.len() - 1 ==> !(#[trigger] s[i] == '\r' && s[i + 1] == '\n'),
    ensures
        unix_lines(s) == s,
    decreases s.len(),
{
    if s.len() > 0 {
        let t = s.drop_first();
        assert forall|i: int| 0 <= i < t.len() - 1 implies !(#[trigger] t[i] == '\r' && t[i + 1]
            == '\n') by {
            assert(t[i] == s[i + 1]);
            assert(t[i + 1] == s[i + 2]);
        }
        lemma_unix_lines_keep(t);
        if s.len() > 1 {
            assert(s[0] == '\r' ==> s[1] != '\n');
        }
        assert(seq![s[0]] + t =~= s);
    }
}

/// What is kept of a file is read back as it was kept, where it neither begins
/// with a byte order mark nor holds a `\r\n`.
pub proof fn kept_texts_are_read_back(s: Seq<char>)
    requires
        s.len() > 0 ==> s[0] != '\u{feff}',
        forall|i: int| 0 <= i < s.len() - 1 ==> !(#[trigger] s[i] == '\r' && s[i + 1] == '\n'),
    ensures
        vstd::utf8::valid_utf8(vstd::utf8::encode_utf8(s)),
        text_of(vstd::utf8::encode_utf8(s)) == s,
{
    broadcast use {
        vstd::utf8::encode_utf8_valid_utf8,
        vstd::utf8::encode_utf8_decode_utf8,
    };

    lemma_unix_lines_keep(s);
}

/// A preview: the words on one line, the first so many characters of them.
pub open spec fn summary_of(s: Seq<char>) -> Seq<char> {
    let collapsed = text::join_with(text::words_of(s), " "@);
    if collapsed.len() <= SUMMARY_CHARS {
        collapsed
    } else {
        text::first_chars(collapsed, SUMMARY_CHARS as int) + "…"@
    }
}

pub fn summarize(s: &str) -> (r: String)
    ensures
        r@ == summary_of(s@),
{
    let words = text::words(s);
    let collapsed = text::join(&words, " ");
    let chars = text::chars_of(collapsed.as_str());
    if chars.len() <= SUMMARY_CHARS {
        return collapsed;
    }
    let mut head = text::take_chars(collapsed.as_str(), SUMMARY_CHARS);
    head.append("…");
    head
}

// ---------------------------------------------------------------------------
// Ids
// ---------------------------------------------------------------------------

/// The id that is tried at the `k`th attempt.
pub open spec fn candidate_id(base: nat, k: nat) -> Seq<char> {
    if k == 0 {
        "ref-"@ + text::decimal(base)
    } else {
        "ref-"@ + text::decimal(base) + "-"@ + text::decimal(k)
    }
}

/// Whether a file has this id.
pub open spec fn id_taken(uploads: Seq<AiUpload>, id: Seq<char>) -> bool {
    exists|i: int| 0 <= i < uploads.len() && (#[trigger] uploads[i]).id@ == id
}

/// The ids of the files.
pub open spec fn ids_of(uploads: Seq<AiUpload>) -> Seq<Seq<char>> {
    uploads.map_values(|u: AiUpload| u.id@)
}

/// Different attempts try different ids.
proof fn lemma_candidates_differ(base: nat, a: nat, b: nat)
    requires
        candidate_id(base, a) == candidate_id(base, b),
    ensures
        a == b,
{
    reveal_strlit("-");
    let head = "ref-"@ + text::decimal(base);
    if a > 0 && b > 0 {
        let n = head.len() + 1;
        assert(candidate_id(base, a).skip(n as int) =~= text::decimal(a));
        assert(candidate_id(base, b).skip(n as int) =~= text::decimal(b));
        text::decimals_can_be_read(a);
        text::decimals_can_be_read(b);
    } else if a > 0 {
        assert(candidate_id(base, a).len() > head.len());
    } else if b > 0 {
        assert(candidate_id(base, b).len() > head.len());
    }
}

/// Among more attempts than there are files, one tries an id that is free.
proof fn lemma_free_id(uploads: Seq<AiUpload>, base: nat)
    ensures
        exists|k: nat|
            k <= uploads.len() && !id_taken(uploads, #[trigger] candidate_id(base, k)),
{
    let n = (uploads.len() + 1) as nat;
    let tried = Seq::new(n, |k: int| candidate_id(base, k as nat));
    let ids = ids_of(uploads);
    assert(tried.no_duplicates()) by {
        assert forall|a: int, b: int|
            0 <= a < tried.len() && 0 <= b < tried.len() && a != b implies tried[a] != tried[b] by {
            if tried[a] == tried[b] {
                lemma_candidates_differ(base, a as nat, b as nat);
            }
        }
    }
    tried.unique_seq_to_set();
    vstd::seq_lib::seq_to_set_is_finite(tried);
    vstd::seq_lib::seq_to_set_is_finite(ids);
    ids.lemma_cardinality_of_set();
    if tried.to_set().subset_of(ids.to_set()) {
        vstd::set_lib::lemma_len_subset(tried.to_set(), ids.to_set());
    } else {
        let x = choose|x: Seq<char>| tried.to_set().contains(x) && !ids.to_set().contains(x);
        let k = choose|k: int| 0 <= k < tried.len() && tried[k] == x;
        if id_taken(uploads, x) {
            let i = choose|i: int| 0 <= i < uploads.len() && (#[trigger] uploads[i]).id@ == x;
            assert(ids[i] == x);
        }
        assert(!id_taken(uploads, candidate_id(base, k as nat)));
    }
}

fn is_taken(uploads: &Vec<AiUpload>, id: &str) -> (r: bool)
    ensures
        r == id_taken(uploads@, id@),
{
    let mut i: usize = 0;
    while i < uploads.len()
        invariant
            i <= uploads.len(),
            forall|j: int| 0 <= j < i ==> (#[trigger] uploads@[j]).id@ != id@,
        decreases uploads.len() - i,
    {
        if text::same(uploads[i].id.as_str(), id) {
            return true;
        }
        i += 1;
    }
    false
}

/// Whether an id is the first that is free.
pub open spec fn first_free(uploads: Seq<AiUpload>, base: nat, id: Seq<char>) -> bool {
    exists|k: nat|
        id == #[trigger] candidate_id(base, k) && !id_taken(uploads, id) && forall|j: nat|
            j < k ==> id_taken(uploads, #[trigger] candidate_id(base, j))
}

/// An id that no file has, made from the time.
pub fn unique_id(uploads: &Vec<AiUpload>, base: u128) -> (r: String)
    requires
        uploads@.len() < u32::MAX,
    ensures
        first_free(uploads@, base as nat, r@),
{
    let mut suffix: u32 = 0;
    let number = text::decimal_of(base);
    while suffix as usize <= uploads.len()
        invariant
            number@ == text::decimal(base as nat),
            suffix <= uploads@.len() + 1,
            uploads@.len() < u32::MAX,
            forall|j: nat| j < suffix ==> id_taken(uploads@, #[trigger] candidate_id(base as nat, j)),
        decreases uploads@.len() + 1 - suffix,
    {
        let mut id = text::copy("ref-");
        id.append(number.as_str());
        if suffix > 0 {
            let tail = text::decimal_of(suffix as u128);
            id.append("-");
            id.append(tail.as_str());
        }
        assert(id@ == candidate_id(base as nat, suffix as nat));
        if !is_taken(uploads, id.as_str()) {
            return id;
        }
        suffix += 1;
    }
    proof {
        lemma_free_id(uploads@, base as nat);
    }
    String::new()
}

// ---------------------------------------------------------------------------
// Listing
// ---------------------------------------------------------------------------

/// The files whose stored file is there.
pub open spec fn present_uploads(uploads: Seq<AiUpload>, present: Seq<bool>) -> Seq<AiUpload>
    decreases uploads.len(),
{
    if uploads.len() == 0 {
        Seq::empty()
    } else {
        let before = present_uploads(uploads.drop_last(), present);
        if present[uploads.len() - 1] && name_kept_inside(uploads.last().stored_name@) {
            before.push(uploads.last())
        } else {
            before
        }
    }
}

fn keeps_inside(name: &str) -> (r: bool)
    ensures
        r == name_kept_inside(name@),
{
    !name.is_empty() && paths::is_single_component(name) && !text::contains_char(name, '\\')
        && !text::contains_char(name, '/')
}

/// Drops the entries whose stored file is gone; whether there were any.
pub fn prune_missing(uploads: Vec<AiUpload>, present: &Vec<bool>) -> (r: (Vec<AiUpload>, bool))
    requires
        present@.len() == uploads@.len(),
    ensures
        r.0@ == present_uploads(uploads@, present@),
        r.1 == (r.0@.len() != uploads@.len()),
{
    let n = uploads.len();
    let mut kept: Vec<AiUpload> = Vec::new();
    let mut i: usize = 0;
    while i < n
        invariant
            i <= n,
            n == uploads@.len(),
            present@.len() == n,
            kept@ == present_uploads(uploads@.take(i as int), present@),
        decreases n - i,
    {
        proof {
            assert(uploads@.take(i + 1).drop_last() =~= uploads@.take(i as int));
            assert(uploads@.take(i + 1).last() == uploads@[i as int]);
        }
        if present[i] && keeps_inside(uploads[i].stored_name.as_str()) {
            kept.push(uploads[i].clone());
        }
        i += 1;
    }
    assert(uploads@.take(n as int) =~= uploads@);
    let changed = kept.len() != n;
    (kept, changed)
}

/// Whether the time of every file is a number of milliseconds.
pub open spec fn all_timed(uploads: Seq<AiUpload>) -> bool {
    forall|i: int| 0 <= i < uploads.len() ==> text::numeral((#[trigger] uploads[i]).imported_at@)
}

fn is_all_timed(uploads: &Vec<AiUpload>) -> (r: bool)
    ensures
        r == all_timed(uploads@),
{
    let mut i: usize = 0;
    while i < uploads.len()
        invariant
            i <= uploads.len(),
            forall|j: int| 0 <= j < i ==> text::numeral((#[trigger] uploads@[j]).imported_at@),
        decreases uploads.len() - i,
    {
        if !text::is_numeral(uploads[i].imported_at.as_str()) {
            return false;
        }
        i += 1;
    }
    true
}

/// Whether a time is earlier than another. Times that are numbers are compared by
/// their value first; others, and those of one value, are in the order of texts.
pub open spec fn earlier(timed: bool, a: Seq<char>, b: Seq<char>) -> bool {
    if timed && text::number_of(a) != text::number_of(b) {
        text::number_of(a) < text::number_of(b)
    } else {
        order::before(a, b)
    }
}

fn is_earlier(timed: bool, a: &str, b: &str) -> (r: bool)
    requires
        timed ==> text::numeral(a@) && text::numeral(b@),
    ensures
        r == earlier(timed, a@, b@),
{
    if timed {
        if text::is_smaller_number(a, b) {
            return true;
        }
        if text::is_smaller_number(b, a) {
            return false;
        }
    }
    order::is_before(a, b)
}

/// What is earlier than something that is earlier than a third is earlier than
/// that, and nothing is earlier than itself.
proof fn lemma_earlier_transitive(timed: bool, a: Seq<char>, b: Seq<char>, c: Seq<char>)
    ensures
        earlier(timed, a, b) && earlier(timed, b, c) ==> earlier(timed, a, c),
        !earlier(timed, a, a),
{
    if order::before(a, b) && order::before(b, c) {
        order::before_is_transitive(a, b, c);
    }
    order::before_is_irreflexive(a);
}

/// Where a file goes in a list of newer files before older ones: behind those
/// that are not older.
pub open spec fn place_of(timed: bool, listed: Seq<AiUpload>, u: AiUpload) -> int
    decreases listed.len(),
{
    if listed.len() == 0 {
        0
    } else if earlier(timed, listed[0].imported_at@, u.imported_at@) {
        0
    } else {
        1 + place_of(timed, listed.drop_first(), u)
    }
}

/// The files, the latest first; of the same time, in the order of the list.
pub open spec fn latest_first(timed: bool, uploads: Seq<AiUpload>) -> Seq<AiUpload>
    decreases uploads.len(),
{
    if uploads.len() == 0 {
        Seq::empty()
    } else {
        let before = latest_first(timed, uploads.drop_last());
        before.insert(place_of(timed, before, uploads.last()), uploads.last())
    }
}

/// The files, the newest first. Where every file has a number of milliseconds, the
/// greater one is the newer; a list with any other time is in the order of texts.
pub open spec fn newest_first(uploads: Seq<AiUpload>) -> Seq<AiUpload> {
    latest_first(all_timed(uploads), uploads)
}

proof fn lemma_place(timed: bool, listed: Seq<AiUpload>, u: AiUpload, k: int)
    requires
        0 <= k <= listed.len(),
        forall|j: int|
            0 <= j < k ==> !earlier(timed, (#[trigger] listed[j]).imported_at@, u.imported_at@),
        k < listed.len() ==> earlier(timed, listed[k].imported_at@, u.imported_at@),
    ensures
        place_of(timed, listed, u) == k,
    decreases listed.len(),
{
    if listed.len() > 0 && k > 0 {
        assert(!earlier(timed, listed[0].imported_at@, u.imported_at@));
        let t = listed.drop_first();
        assert forall|j: int| 0 <= j < k - 1 implies !earlier(
            timed,
            (#[trigger] t[j]).imported_at@,
            u.imported_at@,
        ) by {
            assert(t[j] == listed[j + 1]);
        }
        lemma_place(timed, t, u, k - 1);
    }
}

/// The files, the newest first.
pub fn list_ai_uploads(uploads: Vec<AiUpload>) -> (r: Vec<AiUpload>)
    ensures
        r@ == newest_first(uploads@),
{
    let timed = is_all_timed(&uploads);
    let n = uploads.len();
    let mut out: Vec<AiUpload> = Vec::new();
    let mut i: usize = 0;
    while i < n
        invariant
            i <= n,
            n == uploads@.len(),
            timed == all_timed(uploads@),
            timed ==> all_timed(out@),
            out@ == latest_first(timed, uploads@.take(i as int)),
        decreases n - i,
    {
        let u = uploads[i].clone();
        let mut k: usize = 0;
        while k < out.len() && !is_earlier(
            timed,
            out[k].imported_at.as_str(),
            u.imported_at.as_str(),
        )
            invariant
                k <= out.len(),
                timed ==> all_timed(out@) && text::numeral(u.imported_at@),
                forall|j: int|
                    0 <= j < k ==> !earlier(
                        timed,
                        (#[trigger] out@[j]).imported_at@,
                        u.imported_at@,
                    ),
            decreases out.len() - k,
        {
            k += 1;
        }
        proof {
            lemma_place(timed, out@, u, k as int);
            assert(uploads@.take(i + 1).drop_last() =~= uploads@.take(i as int));
            assert(uploads@.take(i + 1).last() == uploads@[i as int]);
        }
        out.insert(k, u);
        i += 1;
    }
    assert(uploads@.take(n as int) =~= uploads@);
    out
}

proof fn lemma_place_range(timed: bool, listed: Seq<AiUpload>, u: AiUpload)
    ensures
        0 <= place_of(timed, listed, u) <= listed.len(),
        forall|j: int|
            0 <= j < place_of(timed, listed, u) ==> !earlier(
                timed,
                (#[trigger] listed[j]).imported_at@,
                u.imported_at@,
            ),
        place_of(timed, listed, u) < listed.len() ==> earlier(
            timed,
            listed[place_of(timed, listed, u)].imported_at@,
            u.imported_at@,
        ),
    decreases listed.len(),
{
    if listed.len() > 0 && !earlier(timed, listed[0].imported_at@, u.imported_at@) {
        let t = listed.drop_first();
        lemma_place_range(timed, t, u);
        assert forall|j: int| 0 <= j < place_of(timed, listed, u) implies !earlier(
            timed,
            (#[trigger] listed[j]).imported_at@,
            u.imported_at@,
        ) by {
            if j > 0 {
                assert(listed[j] == t[j - 1]);
            }
        }
    }
}

/// The listing holds every file once. Where every time is a number, none comes before
/// one with a greater number; else none comes before one with a later text.
pub proof fn listing_is_newest_first(uploads: Seq<AiUpload>)
    ensures
        newest_first(uploads).to_multiset() == uploads.to_multiset(),
        forall|i: int, j: int|
            0 <= i < j < newest_first(uploads).len() ==> if all_timed(uploads) {
                text::number_of((#[trigger] newest_first(uploads)[i]).imported_at@)
                    >= text::number_of((#[trigger] newest_first(uploads)[j]).imported_at@)
            } else {
                !order::before(
                    newest_first(uploads)[i].imported_at@,
                    newest_first(uploads)[j].imported_at@,
                )
            },
{
    lemma_latest_first(all_timed(uploads), uploads);
    let all = newest_first(uploads);
    assert forall|i: int, j: int| 0 <= i < j < all.len() implies !earlier(
        all_timed(uploads),
        (#[trigger] all[i]).imported_at@,
        (#[trigger] all[j]).imported_at@,
    ) by {}
}

proof fn lemma_latest_first(timed: bool, uploads: Seq<AiUpload>)
    ensures
        latest_first(timed, uploads).to_multiset() == uploads.to_multiset(),
        forall|i: int, j: int|
            0 <= i < j < latest_first(timed, uploads).len() ==> !earlier(
                timed,
                (#[trigger] latest_first(timed, uploads)[i]).imported_at@,
                (#[trigger] latest_first(timed, uploads)[j]).imported_at@,
            ),
    decreases uploads.len(),
{
    if uploads.len() == 0 {
        assert(latest_first(timed, uploads) =~= uploads);
    } else {
        broadcast use vstd::seq_lib::group_to_multiset_ensures;

        let d = uploads.drop_last();
        let u = uploads.last();
        lemma_latest_first(timed, d);
        let before = latest_first(timed, d);
        lemma_place_range(timed, before, u);
        let k = place_of(timed, before, u);
        let all = latest_first(timed, uploads);
        assert(d.push(u) =~= uploads);
        vstd::seq_lib::to_multiset_insert(before, k, u);
        assert forall|i: int, j: int| 0 <= i < j < all.len() implies !earlier(
            timed,
            (#[trigger] all[i]).imported_at@,
            (#[trigger] all[j]).imported_at@,
        ) by {
            let a = if i < k {
                i
            } else {
                i - 1
            };
            let b = if j < k {
                j
            } else {
                j - 1
            };
            if i != k && j != k {
                assert(all[i] == before[a]);
                assert(all[j] == before[b]);
            } else if j == k {
                assert(all[i] == before[i]);
            } else {
                assert(all[j] == before[j - 1]);
                if earlier(timed, u.imported_at@, before[b].imported_at@) {
                    if b > k {
                        assert(!earlier(
                            timed,
                            before[k].imported_at@,
                            before[b].imported_at@,
                        ));
                        lemma_earlier_transitive(
                            timed,
                            before[k].imported_at@,
                            u.imported_at@,
                            before[b].imported_at@,
                        );
                    } else {
                        lemma_earlier_transitive(
                            timed,
                            before[k].imported_at@,
                            u.imported_at@,
                            before[k].imported_at@,
                        );
                    }
                }
            }
        }
    }
}

// ---------------------------------------------------------------------------
// Importing
// ---------------------------------------------------------------------------

/// What stands at the path of the author's file.
#[derive(Debug, PartialEq, Eq)]
pub enum SourceState {
    /// No file.
    Missing,
    /// A file of which nothing could be found out, and why.
    Unreadable(String),
    /// A file of so many bytes.
    Present(u64),
}

/// Why a file cannot be imported, if it cannot, before it is read. The sizes are
/// given as the texts that messages show.
pub open spec fn source_fault(
    project: Seq<char>,
    project_valid: bool,
    source_path: Seq<char>,
    source: SourceState,
    ext: Seq<char>,
    size_text: Seq<char>,
    limit_text: Seq<char>,
) -> Option<Seq<char>> {
    if !project_valid {
        Some("无效的项目目录："@ + project)
    } else {
        match paths::file_name_of(source_path) {
            None => Some("无法解析文件名："@ + source_path),
            Some(name) => if source is Missing {
                Some("找不到文件："@ + source_path)
            } else {
                match extension_fault(name, ext) {
                    Some(m) => Some(m),
                    None => match source {
                        SourceState::Present(size) => if size > MAX_UPLOAD_BYTES {
                            Some(
                                "「"@ + name + "」过大（"@ + size_text
                                    + "），单个参考文件上限 "@ + limit_text
                                    + "。请裁剪内容或拆分为多个文件后再上传。"@,
                            )
                        } else if size == 0 {
                            Some(
                                "「"@ + name + "」是空文件，没有可参考的内容。"@,
                            )
                        } else {
                            None
                        },
                        SourceState::Unreadable(e) => Some(
                            "读取文件信息失败 "@ + source_path + ": "@ + e@,
                        ),
                        SourceState::Missing => None,
                    },
                }
            },
        }
    }
}

/// The extension in lower case of the file at a path.
pub open spec fn source_extension(source_path: Seq<char>) -> Seq<char> {
    match paths::file_name_of(source_path) {
        Some(name) => text::lowercase(raw_extension(name)),
        None => Seq::empty(),
    }
}

/// Checks a file before it is read; its name and its extension.
pub fn check_import(
    project_path: &str,
    project_valid: bool,
    source_path: &str,
    source: &SourceState,
    size_text: &str,
    limit_text: &str,
) -> (r: Result<(String, String), String>)
    ensures
        match source_fault(
            project_path@,
            project_valid,
            source_path@,
            *source,
            source_extension(source_path@),
            size_text@,
            limit_text@,
        ) {
            Some(m) => r matches Err(e) && e@ == m,
            None => r matches Ok(found) && paths::file_name_of(source_path@) == Some(found.0@)
                && found.1@ == source_extension(source_path@) && supported(found.1@),
        },
{
    if !project_valid {
        return Err(router::joined("无效的项目目录：", project_path));
    }
    let name = match paths::file_name(source_path) {
        Some(name) => name,
        None => {
            return Err(router::joined("无法解析文件名：", source_path));
        },
    };
    match source {
        SourceState::Missing => {
            return Err(router::joined("找不到文件：", source_path));
        },
        _ => {},
    }
    let extension = match validate_extension(name.as_str()) {
        Ok(e) => e,
        Err(m) => {
            return Err(m);
        },
    };
    match source {
        SourceState::Unreadable(e) => {
            let mut m = text::copy("读取文件信息失败 ");
            m.append(source_path);
            m.append(": ");
            m.append(e.as_str());
            Err(m)
        },
        SourceState::Present(size) => {
            if *size > MAX_UPLOAD_BYTES {
                let mut m = text::copy("「");
                m.append(name.as_str());
                m.append("」过大（");
                m.append(size_text);
                m.append("），单个参考文件上限 ");
                m.append(limit_text);
                m.append("。请裁剪内容或拆分为多个文件后再上传。");
                return Err(m);
            }
            if *size == 0 {
                let mut m = text::copy("「");
                m.append(name.as_str());
                m.append("」是空文件，没有可参考的内容。");
                return Err(m);
            }
            Ok((name, extension))
        },
        SourceState::Missing => Ok((name, extension)),
    }
}

/// The message when there is no room for another file.
pub open spec fn no_room() -> Seq<char> {
    "参考文件数量已达上限（50 个）。请先删除不再需要的参考文件。"@
}

/// Checks, before a file is read, that there is room for another.
pub fn check_room(uploads: &Vec<AiUpload>) -> (r: Result<(), String>)
    ensures
        r is Ok <==> uploads@.len() < MAX_UPLOAD_COUNT,
        r matches Err(m) ==> m@ == no_room(),
{
    if uploads.len() >= MAX_UPLOAD_COUNT {
        Err(
            text::copy(
                "参考文件数量已达上限（50 个）。请先删除不再需要的参考文件。",
            ),
        )
    } else {
        Ok(())
    }
}

/// The entry of a file with this id.
pub open spec fn upload_of(
    id: Seq<char>,
    name: Seq<char>,
    extension: Seq<char>,
    size: u64,
    content: Seq<char>,
    now: nat,
) -> UploadView {
    UploadView {
        id,
        name,
        stored_name: stored_name_of(id, name, extension),
        extension,
        size,
        char_count: content.len(),
        line_count: if text::lines_of(content).len() > 0 {
            text::lines_of(content).len()
        } else {
            1
        },
        summary: summary_of(content),
        imported_at: text::decimal(now),
    }
}

/// Imports a file that was checked: its entry, and the text that is kept. `base`
/// is the time that its id is made from, `now` that of the import. Whatever the
/// author's file is called, it is kept as one file of the directory.
pub fn import_ai_upload(
    uploads: &Vec<AiUpload>,
    name: &str,
    extension: &str,
    size: u64,
    bytes: &Vec<u8>,
    base: u128,
    now: u128,
) -> (r: Result<(AiUpload, String), String>)
    ensures
        if uploads@.len() >= MAX_UPLOAD_COUNT {
            r matches Err(m) && m@ == no_room()
        } else if !vstd::utf8::valid_utf8(bytes@) {
            r matches Err(m) && m@ == not_text(name@)
        } else {
            r matches Ok(made) && made.1@ == text_of(bytes@) && first_free(
                uploads@,
                base as nat,
                made.0.id@,
            ) && made.0@ == upload_of(
                made.0.id@,
                name@,
                extension@,
                size,
                text_of(bytes@),
                now as nat,
            ) && (supported(extension@) ==> name_kept_inside(made.0.stored_name@))
        },
{
    match check_room(uploads) {
        Ok(_) => {},
        Err(m) => {
            return Err(m);
        },
    }
    let content = match decode_text(bytes, name) {
        Ok(content) => content,
        Err(m) => {
            return Err(m);
        },
    };
    let id = unique_id(uploads, base);
    proof {
        let k = choose|k: nat| id@ == #[trigger] candidate_id(base as nat, k);
        lemma_candidate_plain(base as nat, k);
        if supported(extension@) {
            lemma_supported_plain(extension@);
        }
    }
    let chars = text::chars_of(content.as_str());
    let lines = text::lines(content.as_str());
    assert(text::texts(lines@).len() == lines@.len());
    let line_count: usize = if lines.len() > 0 {
        lines.len()
    } else {
        1
    };
    let upload = AiUpload {
        stored_name: stored_name(id.as_str(), name, extension),
        id,
        name: text::copy(name),
        extension: text::copy(extension),
        size,
        char_count: chars.len(),
        line_count,
        summary: summarize(content.as_str()),
        imported_at: text::decimal_of(now),
    };
    Ok((upload, content))
}

// ---------------------------------------------------------------------------
// Reading
// ---------------------------------------------------------------------------

/// Whether a file goes by this id or name.
pub open spec fn goes_by(u: AiUpload, id: Seq<char>) -> bool {
    u.id@ == id || u.name@ == id
}

/// The first file that goes by an id or a name.
pub fn find_upload(uploads: &Vec<AiUpload>, id: &str) -> (r: Result<usize, String>)
    ensures
        match r {
            Ok(i) => i < uploads@.len() && goes_by(uploads@[i as int], id@) && forall|j: int|
                0 <= j < i ==> !goes_by(#[trigger] uploads@[j], id@),
            Err(m) => m@ == "找不到参考文件："@ + id@
                + "。请先在 AI 面板上传，或用列表中的 id。"@ && forall|j: int|
                0 <= j < uploads@.len() ==> !goes_by(#[trigger] uploads@[j], id@),
        },
{
    let mut i: usize = 0;
    while i < uploads.len()
        invariant
            i <= uploads.len(),
            forall|j: int| 0 <= j < i ==> !goes_by(#[trigger] uploads@[j], id@),
        decreases uploads.len() - i,
    {
        if text::same(uploads[i].id.as_str(), id) || text::same(uploads[i].name.as_str(), id) {
            return Ok(i);
        }
        i += 1;
    }
    let mut m = text::copy("找不到参考文件：");
    m.append(id);
    m.append("。请先在 AI 面板上传，或用列表中的 id。");
    Err(m)
}

/// The first line that is read.
pub open spec fn start_line(from_line: Option<usize>) -> int {
    match from_line {
        Some(n) => if n >= 1 {
            n as int
        } else {
            1
        },
        None => 1,
    }
}

/// The most lines that are read.
pub open spec fn line_limit(max_lines: Option<usize>) -> int {
    match max_lines {
        Some(n) => if n < 1 {
            1
        } else if n > MAX_READ_LINES {
            MAX_READ_LINES as int
        } else {
            n as int
        },
        None => DEFAULT_READ_LINES as int,
    }
}

/// How many lines go on a page, where the first `k` do: as many as there is room
/// for, up to the first that does not fit.
pub open spec fn page_len(lines: Seq<Seq<char>>, k: int) -> int
    decreases lines.len() - k,
{
    if k >= lines.len() {
        k
    } else if text::join_with(lines.take(k), "\n"@).len() + lines[k].len() > MAX_READ_CHARS {
        k
    } else {
        page_len(lines, k + 1)
    }
}

/// A page of a file.
pub open spec fn page_of(
    id: Seq<char>,
    name: Seq<char>,
    lines: Seq<Seq<char>>,
    start: int,
    limit: int,
) -> ContentView {
    let total = lines.len() as int;
    if start > total {
        ContentView {
            id,
            name,
            text: Seq::empty(),
            from_line: start as nat,
            to_line: total as nat,
            total_lines: total as nat,
            truncated: false,
        }
    } else {
        let end = if start + limit - 1 < total {
            start + limit - 1
        } else {
            total
        };
        let chosen = lines.subrange(start - 1, end);
        let taken = page_len(chosen, 0);
        ContentView {
            id,
            name,
            text: text::join_with(chosen.take(taken), "\n"@),
            from_line: start as nat,
            to_line: if taken > 0 {
                (start + taken - 1) as nat
            } else {
                start as nat
            },
            total_lines: total as nat,
            truncated: taken < chosen.len() || end < total || start > 1,
        }
    }
}

fn read_page(
    upload: &AiUpload,
    content: &str,
    from_line: Option<usize>,
    max_lines: Option<usize>,
) -> (r: AiUploadContent)
    ensures
        r@ == page_of(
            upload.id@,
            upload.name@,
            text::lines_of(content@),
            start_line(from_line),
            line_limit(max_lines),
        ),
{
    let lines = text::lines(content);
    let ghost all = text::lines_of(content@);
    assert(text::texts(lines@) == all);
    assert(all.len() == lines@.len());
    let total = lines.len();
    let start: usize = match from_line {
        Some(n) => if n >= 1 {
            n
        } else {
            1
        },
        None => 1,
    };
    let limit: usize = match max_lines {
        Some(n) => if n < 1 {
            1
        } else if n > MAX_READ_LINES {
            MAX_READ_LINES
        } else {
            n
        },
        None => DEFAULT_READ_LINES,
    };
    if start > total {
        let r = AiUploadContent {
            id: upload.id.clone(),
            name: upload.name.clone(),
            text: String::new(),
            from_line: start,
            to_line: total,
            total_lines: total,
            truncated: false,
        };
        assert(r.text@ =~= Seq::<char>::empty());
        return r;
    }
    let end: usize = if total - start < limit {
        total
    } else {
        start + (limit - 1)
    };
    let ghost chosen = all.subrange(start - 1, end as int);
    let mut body = String::new();
    let mut taken: usize = 0;
    let mut count: usize = 0;
    let mut full = false;
    assert(chosen.take(0) =~= Seq::<Seq<char>>::empty());
    assert(body@ =~= Seq::<char>::empty());
    while !full && taken < end - (start - 1)
        invariant
            1 <= start <= end <= total,
            total == lines@.len(),
            all == text::texts(lines@),
            chosen == all.subrange(start - 1, end as int),
            taken <= chosen.len(),
            body@ == text::join_with(chosen.take(taken as int), "\n"@),
            count == body@.len(),
            count <= MAX_READ_CHARS + 1,
            page_len(chosen, 0) == page_len(chosen, taken as int),
            full ==> page_len(chosen, taken as int) == taken && taken < chosen.len(),
        decreases
            chosen.len() - taken,
            if full {
                0int
            } else {
                1int
            },
    {
        let line = lines[start - 1 + taken].as_str();
        let chars = text::chars_of(line);
        assert(chosen[taken as int] == line@);
        if chars.len() > MAX_READ_CHARS || count + chars.len() > MAX_READ_CHARS {
            full = true;
        } else {
            let ghost before = body@;
            proof {
                reveal_strlit("\n");
                assert(chosen.take(taken + 1).drop_last() =~= chosen.take(taken as int));
                assert(chosen.take(taken + 1).last() == line@);
            }
            if taken > 0 {
                body.append("\n");
                count += 1;
            }
            body.append(line);
            count += chars.len();
            proof {
                if taken == 0 {
                    assert(chosen.take(1)[0] == line@);
                    assert(body@ =~= line@);
                }
            }
            taken += 1;
        }
    }
    proof {
        assert(taken == page_len(chosen, 0));
    }
    let to_line: usize = if taken > 0 {
        start + (taken - 1)
    } else {
        start
    };
    AiUploadContent {
        id: upload.id.clone(),
        name: upload.name.clone(),
        text: body,
        from_line: start,
        to_line,
        total_lines: total,
        truncated: full || end < total || start > 1,
    }
}

/// Reads a page of a file.
pub fn read_ai_upload(
    upload: &AiUpload,
    bytes: &Vec<u8>,
    from_line: Option<usize>,
    max_lines: Option<usize>,
) -> (r: Result<AiUploadContent, String>)
    ensures
        match r {
            Ok(page) => vstd::utf8::valid_utf8(bytes@) && page@ == page_of(
                upload.id@,
                upload.name@,
                text::lines_of(text_of(bytes@)),
                start_line(from_line),
                line_limit(max_lines),
            ),
            Err(m) => !vstd::utf8::valid_utf8(bytes@) && m@ == not_text(upload.name@),
        },
{
    match decode_text(bytes, upload.name.as_str()) {
        Ok(content) => Ok(read_page(upload, content.as_str(), from_line, max_lines)),
        Err(m) => Err(m),
    }
}

proof fn lemma_page(lines: Seq<Seq<char>>, k: int)
    requires
        0 <= k <= lines.len(),
        text::join_with(lines.take(k), "\n"@).len() <= MAX_READ_CHARS + 1,
    ensures
        k <= page_len(lines, k) <= lines.len(),
        text::join_with(lines.take(page_len(lines, k)), "\n"@).len() <= MAX_READ_CHARS + 1,
    decreases lines.len() - k,
{
    reveal_strlit("\n");
    if k < lines.len() && text::join_with(lines.take(k), "\n"@).len() + lines[k].len()
        <= MAX_READ_CHARS {
        assert(lines.take(k + 1).drop_last() =~= lines.take(k));
        lemma_page(lines, k + 1);
    }
}

/// A read never gives more than a page: no more lines and, but for a line end,
/// no more characters than are allowed, however long the file is.
pub proof fn pages_are_bounded(
    id: Seq<char>,
    name: Seq<char>,
    lines: Seq<Seq<char>>,
    from_line: Option<usize>,
    max_lines: Option<usize>,
)
    ensures
        ({
            let page = page_of(id, name, lines, start_line(from_line), line_limit(max_lines));
            &&& page.text.len() <= MAX_READ_CHARS + 1
            &&& page.to_line < page.from_line + MAX_READ_LINES
            &&& page.total_lines == lines.len()
        }),
{
    let start = start_line(from_line);
    let limit = line_limit(max_lines);
    if start <= lines.len() {
        let end = if start + limit - 1 < lines.len() {
            start + limit - 1
        } else {
            lines.len() as int
        };
        let chosen = lines.subrange(start - 1, end);
        assert(chosen.take(0) =~= Seq::<Seq<char>>::empty());
        lemma_page(chosen, 0);
    }
}

proof fn lemma_whole_page(lines: Seq<Seq<char>>, k: int)
    requires
        0 <= k <= lines.len(),
        text::join_with(lines, "\n"@).len() <= MAX_READ_CHARS,
    ensures
        page_len(lines, k) == lines.len(),
    decreases lines.len() - k,
{
    if k < lines.len() {
        lemma_join_grows(lines, k);
        lemma_whole_page(lines, k + 1);
    }
}

proof fn lemma_join_grows(lines: Seq<Seq<char>>, k: int)
    requires
        0 <= k < lines.len(),
    ensures
        text::join_with(lines.take(k), "\n"@).len() + lines[k].len() <= text::join_with(
            lines,
            "\n"@,
        ).len(),
    decreases lines.len(),
{
    let d = lines.drop_last();
    if k == lines.len() - 1 {
        assert(lines.take(k) =~= d);
        if lines.len() == 1 {
            assert(text::join_with(d, "\n"@).len() == 0);
        }
    } else {
        lemma_join_grows(d, k);
        assert(d.take(k) =~= lines.take(k));
    }
}

/// A file that fits on a page is read whole, and the page says so.
pub proof fn short_files_are_read_whole(
    id: Seq<char>,
    name: Seq<char>,
    lines: Seq<Seq<char>>,
    limit: int,
)
    requires
        1 <= lines.len() <= limit,
        text::join_with(lines, "\n"@).len() <= MAX_READ_CHARS,
    ensures
        ({
            let page = page_of(id, name, lines, 1, limit);
            &&& page.text == text::join_with(lines, "\n"@)
            &&& page.to_line == lines.len()
            &&& !page.truncated
        }),
{
    assert(lines.subrange(0, lines.len() as int) =~= lines);
    lemma_whole_page(lines, 0);
    assert(lines.take(lines.len() as int) =~= lines);
}

// ---------------------------------------------------------------------------
// Deleting
// ---------------------------------------------------------------------------

/// The first file of an id, and the files without it.
pub fn delete_ai_upload(uploads: Vec<AiUpload>, id: &str) -> (r: Result<
    (AiUpload, Vec<AiUpload>),
    String,
>)
    ensures
        match r {
            Ok(parted) => exists|i: int|
                0 <= i < uploads@.len() && #[trigger] uploads@[i] == parted.0 && parted.0.id@ == id@
                    && parted.1@ == uploads@.remove(i) && forall|j: int|
                    0 <= j < i ==> (#[trigger] uploads@[j]).id@ != id@,
            Err(m) => m@ == "找不到参考文件："@ + id@ && !id_taken(uploads@, id@),
        },
{
    let ghost all = uploads@;
    let mut i: usize = 0;
    while i < uploads.len()
        invariant
            i <= uploads.len(),
            uploads@ == all,
            forall|j: int| 0 <= j < i ==> (#[trigger] uploads@[j]).id@ != id@,
        decreases uploads.len() - i,
    {
        if text::same(uploads[i].id.as_str(), id) {
            let mut rest = uploads;
            let upload = rest.remove(i);
            assert(all[i as int] == upload);
            return Ok((upload, rest));
        }
        i += 1;
    }
    Err(router::joined("找不到参考文件：", id))
}

// ---------------------------------------------------------------------------
// What a page holds
// ---------------------------------------------------------------------------

proof fn lemma_page_len(lines: Seq<Seq<char>>, k: int)
    requires
        0 <= k <= lines.len(),
    ensures
        k <= page_len(lines, k) <= lines.len(),
        page_len(lines, k) < lines.len() ==> text::join_with(
            lines.take(page_len(lines, k)),
            "\n"@,
        ).len() + lines[page_len(lines, k)].len() > 12_000,
    decreases lines.len() - k,
{
    if k < lines.len() && text::join_with(lines.take(k), "\n"@).len() + lines[k].len()
        <= MAX_READ_CHARS {
        lemma_page_len(lines, k + 1);
    }
}

/// A page holds the lines that were asked for: from the given line on, or the first,
/// as many as asked for, two hundred where nothing is said and eight hundred at most,
/// or all that are left where there are fewer. They stand there one below another. Only
/// where they are too long does the page end earlier, and then before a line that it has
/// no room for. It says that something is missing exactly where it is not the whole file.
pub proof fn pages_hold_the_lines_asked_for(
    id: Seq<char>,
    name: Seq<char>,
    lines: Seq<Seq<char>>,
    from_line: Option<usize>,
    max_lines: Option<usize>,
) -> (count: int)
    ensures
        ({
            let page = page_of(id, name, lines, start_line(from_line), line_limit(max_lines));
            let total = lines.len() as int;
            let from = if from_line is Some && from_line->0 > 1 {
                from_line->0 as int
            } else {
                1
            };
            let most = if max_lines is None {
                200
            } else if max_lines->0 < 1 {
                1
            } else if max_lines->0 > 800 {
                800
            } else {
                max_lines->0 as int
            };
            let wanted = if total - from + 1 < most {
                total - from + 1
            } else {
                most
            };
            &&& page.id == id && page.name == name
            &&& page.from_line == from
            &&& page.total_lines == total
            &&& from > total ==> page.text.len() == 0 && page.to_line == total && !page.truncated
            &&& from <= total ==> {
                &&& 0 <= count <= wanted
                &&& page.text == text::join_with(
                    lines.subrange(from - 1, from - 1 + count),
                    "\n"@,
                )
                &&& count > 0 ==> page.to_line == from + count - 1
                &&& count == 0 ==> page.to_line == from
                &&& count < wanted ==> page.text.len() + lines[from - 1 + count].len() > 12_000
                &&& text::join_with(lines.subrange(from - 1, from - 1 + wanted), "\n"@).len()
                    <= 12_000 ==> count == wanted
                &&& page.truncated <==> !(from == 1 && count == total)
            }
        }),
{
    let start = start_line(from_line);
    let limit = line_limit(max_lines);
    let total = lines.len() as int;
    if start <= total {
        let left = total - start + 1;
        let chosen = lines.subrange(
            start - 1,
            start - 1 + (if left < limit { left } else { limit }),
        );
        let count = page_len(chosen, 0);
        lemma_page_len(chosen, 0);
        assert(chosen.take(count) =~= lines.subrange(start - 1, start - 1 + count));
        if count < chosen.len() {
            assert(chosen[count] == lines[start - 1 + count]);
        }
        if text::join_with(chosen, "\n"@).len() <= MAX_READ_CHARS {
            lemma_whole_page(chosen, 0);
        }
        count
    } else {
        0
    }
}

/// A stored name is the id, a dash, a stem of at most sixty safe characters, and the
/// extension where there is one; it cannot lead out of the directory.
#[verifier::rlimit(60)]
#[verifier::spinoff_prover]
pub proof fn stored_names_keep_id_and_extension(id: Seq<char>, name: Seq<char>, ext: Seq<char>)
    ensures
        text::begins(stored_name_of(id, name, ext), id + "-"@),
        ext.len() > 0 ==> text::ends(stored_name_of(id, name, ext), "."@ + ext),
        stored_name_of(id, name, ext).len() <= id.len() + 62 + ext.len(),
        0 < stored_stem(name).len() <= 60,
        forall|i: int|
            0 <= i < stored_stem(name).len() ==> text::alphanumeric(#[trigger] stored_stem(name)[i])
                || stored_stem(name)[i] == '-' || stored_stem(name)[i] == '_',
{
    reveal_strlit("-");
    reveal_strlit(".");
    reveal_strlit("reference");
    let stem = match paths::stem_of(name) {
        Some(s) => s,
        None => "reference"@,
    };
    let cleaned = text::first_chars(stem, MAX_STORED_STEM_CHARS as int).map_values(
        |c: char| stored_char(c),
    );
    let safe = |s: Seq<char>| forall|i: int|
        0 <= i < s.len() ==> text::alphanumeric(#[trigger] s[i]) || s[i] == '-' || s[i] == '_';
    assert forall|i: int| 0 <= i < cleaned.len() implies text::alphanumeric(#[trigger] cleaned[i])
        || cleaned[i] == '-' || cleaned[i] == '_' by {
        assert(cleaned[i] == stored_char(text::first_chars(stem, MAX_STORED_STEM_CHARS as int)[i]));
    }
    lemma_stripped_part(cleaned);
    assert(text::ascii_char('r') && text::ascii_char('e') && text::ascii_char('f')
        && text::ascii_char('n') && text::ascii_char('c'));
    let stored = stored_stem(name);
    let head = id + "-"@;
    let full = stored_name_of(id, name, ext);
    if ext.len() == 0 {
        text::parts_of_a_text_are_found(Seq::empty(), head, stored, full);
    } else {
        assert(full =~= head + (stored + "."@ + ext));
        text::parts_of_a_text_are_found(Seq::empty(), head, stored + "."@ + ext, full);
        assert(full =~= head + stored + ("."@ + ext));
        text::parts_of_a_text_are_found(head + stored, "."@ + ext, Seq::empty(), full);
    }
}

proof fn lemma_stripped_part(s: Seq<char>)
    ensures
        stripped(s).len() <= s.len(),
        forall|i: int| 0 <= i < stripped(s).len() ==> s.contains(#[trigger] stripped(s)[i]),
        forall|i: int|
            0 <= i < stripped(s).len() ==> exists|j: int|
                0 <= j < s.len() && s[j] == #[trigger] stripped(s)[i],
    decreases s.len(),
{
    if s.len() > 0 && s[0] == '_' {
        let t = s.drop_first();
        lemma_stripped_part(t);
        assert forall|i: int| 0 <= i < stripped(s).len() implies s.contains(
            #[trigger] stripped(s)[i],
        ) by {
            let j = choose|j: int| 0 <= j < t.len() && t[j] == stripped(t)[i];
            assert(s[j + 1] == t[j]);
        }
    } else if s.len() > 0 && s.last() == '_' {
        let t = s.drop_last();
        lemma_stripped_part(t);
        assert forall|i: int| 0 <= i < stripped(s).len() implies s.contains(
            #[trigger] stripped(s)[i],
        ) by {
            let j = choose|j: int| 0 <= j < t.len() && t[j] == stripped(t)[i];
            assert(s[j] == t[j]);
        }
    } else {
        assert forall|i: int| 0 <= i < stripped(s).len() implies s.contains(
            #[trigger] stripped(s)[i],
        ) by {
            assert(s[i] == stripped(s)[i]);
        }
    }
}

/// What stays listed are the uploads whose files are there, in their order, and no
/// other.
pub proof fn missing_uploads_are_dropped(uploads: Seq<AiUpload>, present: Seq<bool>) -> (at: Seq<
    int,
>)
    requires
        present.len() >= uploads.len(),
    ensures
        present_uploads(uploads, present).len() == at.len(),
        forall|k: int|
            0 <= k < at.len() ==> 0 <= #[trigger] at[k] < uploads.len() && present_uploads(
                uploads,
                present,
            )[k] == uploads[at[k]],
        forall|k: int, l: int| 0 <= k < l < at.len() ==> #[trigger] at[k] < #[trigger] at[l],
        forall|i: int|
            0 <= i < uploads.len() ==> (at.contains(i) <==> present[i] && name_kept_inside(
                (#[trigger] uploads[i]).stored_name@,
            )),
    decreases uploads.len(),
{
    if uploads.len() == 0 {
        Seq::empty()
    } else {
        let d = uploads.drop_last();
        let before = missing_uploads_are_dropped(d, present);
        let last = uploads.len() - 1;
        let keeps = present[last] && name_kept_inside(uploads[last].stored_name@);
        let at = if keeps {
            before.push(last)
        } else {
            before
        };
        assert forall|i: int| 0 <= i < uploads.len() implies (at.contains(i) <==> present[i]
            && name_kept_inside((#[trigger] uploads[i]).stored_name@)) by {
            if i < last {
                assert(d[i] == uploads[i]);
                if before.contains(i) {
                    let k = choose|k: int| 0 <= k < before.len() && before[k] == i;
                    assert(at[k] == i);
                }
                if at.contains(i) {
                    let k = choose|k: int| 0 <= k < at.len() && at[k] == i;
                    assert(k < before.len());
                    assert(before[k] == i);
                }
            } else {
                if keeps {
                    assert(at[before.len() as int] == last);
                }
                if at.contains(last) && !keeps {
                    let k = choose|k: int| 0 <= k < at.len() && at[k] == last;
                    assert(before[k] < d.len());
                }
            }
        }
        at
    }
}

/// Line ends of the other kind become line breaks, wherever they stand, and the marks at
/// the start of a file are dropped.
pub proof fn line_ends_become_line_breaks(a: Seq<char>, b: Seq<char>)
    ensures
        unix_lines(a + seq!['\r', '\n'] + b) == unix_lines(a) + seq!['\n'] + unix_lines(b),
        unmarked(seq!['\u{feff}'] + a) == unmarked(a),
        a.len() > 0 && a[0] != '\u{feff}' ==> unmarked(a) == a,
    decreases a.len(),
{
    let s = a + seq!['\r', '\n'] + b;
    assert((seq!['\u{feff}'] + a).drop_first() =~= a);
    if a.len() == 0 {
        assert(s.skip(2) =~= b);
        assert(unix_lines(s) =~= unix_lines(a) + seq!['\n'] + unix_lines(b));
    } else if a.len() > 1 && a[0] == '\r' && a[1] == '\n' {
        line_ends_become_line_breaks(a.skip(2), b);
        assert(s.skip(2) =~= a.skip(2) + seq!['\r', '\n'] + b);
        assert(unix_lines(s) =~= unix_lines(a) + seq!['\n'] + unix_lines(b));
    } else {
        line_ends_become_line_breaks(a.drop_first(), b);
        assert(s.drop_first() =~= a.drop_first() + seq!['\r', '\n'] + b);
        assert(s[0] == a[0]);
        if a.len() == 1 {
            assert(s[1] == '\r');
        } else {
            assert(s[1] == a[1]);
        }
        assert(unix_lines(s) =~= unix_lines(a) + seq!['\n'] + unix_lines(b));
    }
}

/// A summary is the words of a text with single spaces between, cut after two hundred
/// characters, where that is shown.
pub proof fn summaries_are_the_first_words(s: Seq<char>)
    ensures
        ({
            let whole = text::join_with(text::words_of(s), seq![' ']);
            &&& whole.len() <= 200 ==> summary_of(s) == whole
            &&& whole.len() > 200 ==> summary_of(s) == whole.take(200).push('…')
        }),
{
    reveal_strlit(" ");
    reveal_strlit("…");
    assert(" "@ =~= seq![' ']);
    let whole = text::join_with(text::words_of(s), " "@);
    if whole.len() > 200 {
        assert(whole.take(200) + "…"@ =~= whole.take(200).push('…'));
    }
}

/// Text files of these kinds can be referred to, and no others: the check of a name
/// accepts exactly their extensions.
pub proof fn text_files_are_supported(name: Seq<char>, ext: Seq<char>)
    ensures
        extension_fault(name, ext) is None <==> ext.len() > 0 && seq![
            "txt"@,
            "md"@,
            "markdown"@,
            "json"@,
            "csv"@,
            "tsv"@,
            "yaml"@,
            "yml"@,
            "xml"@,
            "html"@,
            "htm"@,
            "log"@,
            "srt"@,
            "ini"@,
            "toml"@,
        ].contains(ext),
{
    let all = seq![
        "txt"@,
        "md"@,
        "markdown"@,
        "json"@,
        "csv"@,
        "tsv"@,
        "yaml"@,
        "yml"@,
        "xml"@,
        "html"@,
        "htm"@,
        "log"@,
        "srt"@,
        "ini"@,
        "toml"@,
    ];
    if all.contains(ext) {
        let i = choose|i: int| 0 <= i < all.len() && all[i] == ext;
    }
    assert(all[0] == "txt"@ && all[1] == "md"@ && all[2] == "markdown"@ && all[3] == "json"@
        && all[4] == "csv"@);
    assert(all[5] == "tsv"@ && all[6] == "yaml"@ && all[7] == "yml"@ && all[8] == "xml"@ && all[9]
        == "html"@);
    assert(all[10] == "htm"@ && all[11] == "log"@ && all[12] == "srt"@ && all[13] == "ini"@
        && all[14] == "toml"@);
}

/// A file is imported exactly where its project is one, its name can be told, it is
/// there and can be looked at, it is a text file, it is not empty, and it is no larger
/// than two mebibytes.
pub proof fn files_are_imported_within_their_limits(
    project: Seq<char>,
    project_valid: bool,
    source_path: Seq<char>,
    source: SourceState,
    ext: Seq<char>,
    size_text: Seq<char>,
    limit_text: Seq<char>,
)
    ensures
        source_fault(
            project,
            project_valid,
            source_path,
            source,
            ext,
            size_text,
            limit_text,
        ) is None <==> {
            &&& project_valid
            &&& paths::file_name_of(source_path) is Some
            &&& ext.len() > 0 && supported(ext)
            &&& source matches SourceState::Present(size) && 0 < size <= 2 * 1024 * 1024
        },
{
}

/// What is recorded of an upload is what was imported: its own name, kind and size, how
/// many characters and lines it has, and when it came.
pub proof fn uploads_are_recorded_as_they_are(
    id: Seq<char>,
    name: Seq<char>,
    extension: Seq<char>,
    size: u64,
    content: Seq<char>,
    now: nat,
)
    ensures
        ({
            let u = upload_of(id, name, extension, size, content, now);
            &&& u.id == id && u.name == name && u.extension == extension && u.size == size
            &&& u.char_count == content.len()
            &&& text::lines_of(content).len() > 0 ==> u.line_count == text::lines_of(content).len()
            &&& text::lines_of(content).len() == 0 ==> u.line_count == 1
            &&& text::number_of(u.imported_at) == now
            &&& text::begins(u.stored_name, id + "-"@)
        }),
{
    text::decimals_can_be_read(now);
    stored_names_keep_id_and_extension(id, name, extension);
}

/// A new upload gets an id that no other has, made from the time that it came at; and it
/// is found by its id or by its name.
pub proof fn new_ids_are_free(uploads: Seq<AiUpload>, base: nat, id: Seq<char>, u: AiUpload)
    requires
        first_free(uploads, base, id),
    ensures
        forall|i: int| 0 <= i < uploads.len() ==> (#[trigger] uploads[i]).id@ != id,
        text::begins(id, "ref-"@ + text::decimal(base)),
        goes_by(u, u.id@) && goes_by(u, u.name@),
        forall|other: Seq<char>|
            other != u.id@ && other != u.name@ ==> !#[trigger] goes_by(u, other),
{
    let k = choose|k: nat|
        id == #[trigger] candidate_id(base, k) && !id_taken(uploads, id) && forall|j: nat|
            j < k ==> id_taken(uploads, #[trigger] candidate_id(base, j));
    let head = "ref-"@ + text::decimal(base);
    if k == 0 {
        text::parts_of_a_text_are_found(Seq::empty(), head, Seq::empty(), id);
        assert(head + Seq::<char>::empty() =~= head);
    } else {
        assert(id =~= head + ("-"@ + text::decimal(k)));
        text::parts_of_a_text_are_found(Seq::empty(), head, "-"@ + text::decimal(k), id);
    }
}

/// Uploads stand under `.webgal-editor/ai-uploads` of the project; a name without an extension has
/// the empty one, and a source without a name too.
pub proof fn uploads_stand_under_their_directory(project: Seq<char>, name: Seq<char>)
    ensures
        uploads_dir_of(project) == paths::joined(
            paths::joined(project, ".webgal-editor"@),
            "ai-uploads"@,
        ),
        paths::extension_of(name) is Some ==> raw_extension(name) == paths::extension_of(name)->0,
        paths::extension_of(name) is None ==> raw_extension(name) == Seq::<char>::empty(),
        paths::file_name_of(name) is Some ==> source_extension(name) == text::lowercase(
            raw_extension(paths::file_name_of(name)->0),
        ),
        paths::file_name_of(name) is None ==> source_extension(name) == Seq::<char>::empty(),
        plain(name) <==> !name.contains('/') && !name.contains('\\'),
{
    reveal_strlit("");
    assert(""@ =~= Seq::<char>::empty());
    if plain(name) {
        if name.contains('/') {
            let i = choose|i: int| 0 <= i < name.len() && name[i] == '/';
            assert(name[i] != '/');
        }
        if name.contains('\\') {
            let i = choose|i: int| 0 <= i < name.len() && name[i] == '\\';
            assert(name[i] != '\\');
        }
    }
    if !name.contains('/') && !name.contains('\\') {
        assert forall|i: int| 0 <= i < name.len() implies #[trigger] name[i] != '/' && name[i]
            != '\\' by {
            assert(name.contains(name[i]));
        }
    }
}

/// What cannot be taken is refused by name, and a full list says how many it holds.
pub proof fn refused_uploads_say_why(name: Seq<char>)
    ensures
        not_text(name) == "「"@ + name
            + "」不是 UTF-8 文本（可能是二进制文件或其它编码）。请另存为 UTF-8 后重新上传。"@,
        no_room() == "参考文件数量已达上限（50 个）。请先删除不再需要的参考文件。"@,
        MAX_UPLOAD_COUNT == 50,
{
}

/// A stored name is kept inside of the directory where it is not empty and holds no separator of
/// either kind.
pub proof fn stored_names_hold_no_separator(name: Seq<char>)
    ensures
        name_kept_inside(name) <==> name != Seq::<char>::empty() && !name.contains('/')
            && !name.contains('\\'),
{
    if name.len() == 0 {
        assert(name =~= Seq::<char>::empty());
    }
    if !name.contains('/') {
        paths::paths_are_read_by_their_names(name, name, name);
    }
}

} // verus!
