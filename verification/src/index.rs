//! Codebase index for context selection.
//!
//! The index holds the symbols of a project (functions, types, modules and so on) with the file
//! and the line of each, and can be searched by name.

use crate::decimal;
use crate::paths;
use crate::paths::Platform;
use crate::text;
use vstd::prelude::*;

verus! {

broadcast use vstd::string::group_string_axioms;

// ----------------------------------------------------------------------------
// Types
// ----------------------------------------------------------------------------

/// Kind of symbol found in source code.
#[derive(Debug, Clone, Copy, PartialEq, Eq, Hash, Structural)]
pub enum SymbolKind {
    /// A free function.
    Function,
    /// A method.
    Method,
    /// A struct.
    Struct,
    /// An enum.
    Enum,
    /// A trait.
    Trait,
    /// An interface.
    Interface,
    /// A class.
    Class,
    /// A type alias.
    Type,
    /// A constant.
    Constant,
    /// An import.
    Import,
    /// A module.
    Module,
}

/// The name of a kind of symbol.
pub open spec fn kind_name(kind: SymbolKind) -> Seq<char> {
    match kind {
        SymbolKind::Function => "function"@,
        SymbolKind::Method => "method"@,
        SymbolKind::Struct => "struct"@,
        SymbolKind::Enum => "enum"@,
        SymbolKind::Trait => "trait"@,
        SymbolKind::Interface => "interface"@,
        SymbolKind::Class => "class"@,
        SymbolKind::Type => "type"@,
        SymbolKind::Constant => "constant"@,
        SymbolKind::Import => "import"@,
        SymbolKind::Module => "module"@,
    }
}

impl SymbolKind {
    /// The name of the kind.
    pub fn as_str(self) -> (r: &'static str)
        ensures
            r@ == kind_name(self),
    {
        match self {
            SymbolKind::Function => "function",
            SymbolKind::Method => "method",
            SymbolKind::Struct => "struct",
            SymbolKind::Enum => "enum",
            SymbolKind::Trait => "trait",
            SymbolKind::Interface => "interface",
            SymbolKind::Class => "class",
            SymbolKind::Type => "type",
            SymbolKind::Constant => "constant",
            SymbolKind::Import => "import",
            SymbolKind::Module => "module",
        }
    }
}

/// A symbol extracted from source code.
#[derive(Debug, Clone)]
pub struct Symbol {
    /// What it is.
    pub kind: SymbolKind,
    /// Its name.
    pub name: String,
    /// The file that declares it.
    pub file: String,
    /// The line that declares it, counted from 1.
    pub line: usize,
    /// Optional signature or contextual snippet (e.g. `fn foo(x: i32) -> bool`).
    pub signature: Option<String>,
}

/// Summary of a single indexed file.
#[derive(Debug, Clone)]
pub struct FileSummary {
    /// The file.
    pub path: String,
    /// The language it is written in, if known.
    pub language: Option<String>,
    /// How many lines it has.
    pub line_count: usize,
    /// How many symbols it declares.
    pub symbol_count: usize,
}

/// The codebase index: a collection of symbols and file summaries.
#[derive(Debug, Clone)]
pub struct CodebaseIndex {
    /// The directory that was indexed.
    pub root: String,
    /// The files.
    pub files: Vec<FileSummary>,
    /// The symbols.
    pub symbols: Vec<Symbol>,
}

/// What a symbol says.
#[verifier::ext_equal]
pub struct SymbolModel {
    /// What it is.
    pub kind: SymbolKind,
    /// Its name.
    pub name: Seq<char>,
    /// The file that declares it.
    pub file: Seq<char>,
    /// The line that declares it.
    pub line: int,
    /// Its signature.
    pub signature: Option<Seq<char>>,
}

/// What a file summary says.
#[verifier::ext_equal]
pub struct SummaryModel {
    /// The file.
    pub path: Seq<char>,
    /// The language it is written in.
    pub language: Option<Seq<char>>,
    /// How many lines it has.
    pub line_count: int,
    /// How many symbols it declares.
    pub symbol_count: int,
}

/// What a codebase index says.
#[verifier::ext_equal]
pub struct CodebaseModel {
    /// The directory that was indexed.
    pub root: Seq<char>,
    /// The files.
    pub files: Seq<SummaryModel>,
    /// The symbols.
    pub symbols: Seq<SymbolModel>,
}

impl View for Symbol {
    type V = SymbolModel;

    open spec fn view(&self) -> SymbolModel {
        SymbolModel {
            kind: self.kind,
            name: self.name@,
            file: self.file@,
            line: self.line as int,
            signature: text::opt_text(self.signature),
        }
    }
}

impl View for FileSummary {
    type V = SummaryModel;

    open spec fn view(&self) -> SummaryModel {
        SummaryModel {
            path: self.path@,
            language: text::opt_text(self.language),
            line_count: self.line_count as int,
            symbol_count: self.symbol_count as int,
        }
    }
}

/// What each symbol of a sequence says.
pub open spec fn symbol_views(v: Seq<Symbol>) -> Seq<SymbolModel> {
    Seq::new(v.len(), |i: int| v[i]@)
}

/// What each symbol of a sequence of references says.
pub open spec fn symbol_refs(v: Seq<&Symbol>) -> Seq<SymbolModel> {
    Seq::new(v.len(), |i: int| v[i]@)
}

/// What each summary of a sequence says.
pub open spec fn summary_views(v: Seq<FileSummary>) -> Seq<SummaryModel> {
    Seq::new(v.len(), |i: int| v[i]@)
}

impl View for CodebaseIndex {
    type V = CodebaseModel;

    open spec fn view(&self) -> CodebaseModel {
        CodebaseModel {
            root: self.root@,
            files: summary_views(self.files@),
            symbols: symbol_views(self.symbols@),
        }
    }
}

// ----------------------------------------------------------------------------
// Language detection
// ----------------------------------------------------------------------------

/// The language of files with an extension in lower case.
pub open spec fn language_of(ext: Seq<char>) -> Option<Seq<char>> {
    if ext == "rs"@ {
        Some("rust"@)
    } else if ext == "py"@ || ext == "pyi"@ {
        Some("python"@)
    } else if ext == "js"@ || ext == "jsx"@ || ext == "mjs"@ || ext == "cjs"@ {
        Some("javascript"@)
    } else if ext == "ts"@ || ext == "tsx"@ || ext == "mts"@ || ext == "cts"@ {
        Some("typescript"@)
    } else if ext == "go"@ {
        Some("go"@)
    } else if ext == "rb"@ {
        Some("ruby"@)
    } else if ext == "java"@ {
        Some("java"@)
    } else if ext == "c"@ || ext == "h"@ {
        Some("c"@)
    } else if ext == "cpp"@ || ext == "cc"@ || ext == "cxx"@ || ext == "hpp"@ || ext == "hxx"@
        || ext == "hh"@ {
        Some("cpp"@)
    } else if ext == "cs"@ {
        Some("csharp"@)
    } else if ext == "swift"@ {
        Some("swift"@)
    } else if ext == "kt"@ || ext == "kts"@ {
        Some("kotlin"@)
    } else if ext == "sh"@ || ext == "bash"@ || ext == "zsh"@ {
        Some("bash"@)
    } else if ext == "lua"@ {
        Some("lua"@)
    } else if ext == "zig"@ {
        Some("zig"@)
    } else if ext == "toml"@ {
        Some("toml"@)
    } else if ext == "yaml"@ || ext == "yml"@ {
        Some("yaml"@)
    } else if ext == "json"@ {
        Some("json"@)
    } else if ext == "md"@ || ext == "markdown"@ {
        Some("markdown"@)
    } else {
        None
    }
}

/// The language of a file, which its extension tells.
pub open spec fn language(path: Seq<char>, platform: Platform) -> Option<Seq<char>> {
    match paths::extension(path, platform) {
        Some(ext) => language_of(text::lowercase(ext)),
        None => None,
    }
}

/// The language of files with an extension in lower case.
pub fn language_for(ext: &str) -> (r: Option<&'static str>)
    ensures
        text::opt_str(r) == language_of(ext@),
{
    if text::same_str(ext, "rs") {
        Some("rust")
    } else if text::same_str(ext, "py") || text::same_str(ext, "pyi") {
        Some("python")
    } else if text::same_str(ext, "js") || text::same_str(ext, "jsx") || text::same_str(ext, "mjs")
        || text::same_str(ext, "cjs") {
        Some("javascript")
    } else if text::same_str(ext, "ts") || text::same_str(ext, "tsx") || text::same_str(ext, "mts")
        || text::same_str(ext, "cts") {
        Some("typescript")
    } else if text::same_str(ext, "go") {
        Some("go")
    } else if text::same_str(ext, "rb") {
        Some("ruby")
    } else if text::same_str(ext, "java") {
        Some("java")
    } else if text::same_str(ext, "c") || text::same_str(ext, "h") {
        Some("c")
    } else if text::same_str(ext, "cpp") || text::same_str(ext, "cc") || text::same_str(ext, "cxx")
        || text::same_str(ext, "hpp") || text::same_str(ext, "hxx") || text::same_str(ext, "hh") {
        Some("cpp")
    } else if text::same_str(ext, "cs") {
        Some("csharp")
    } else if text::same_str(ext, "swift") {
        Some("swift")
    } else if text::same_str(ext, "kt") || text::same_str(ext, "kts") {
        Some("kotlin")
    } else if text::same_str(ext, "sh") || text::same_str(ext, "bash") || text::same_str(
        ext,
        "zsh",
    ) {
        Some("bash")
    } else if text::same_str(ext, "lua") {
        Some("lua")
    } else if text::same_str(ext, "zig") {
        Some("zig")
    } else if text::same_str(ext, "toml") {
        Some("toml")
    } else if text::same_str(ext, "yaml") || text::same_str(ext, "yml") {
        Some("yaml")
    } else if text::same_str(ext, "json") {
        Some("json")
    } else if text::same_str(ext, "md") || text::same_str(ext, "markdown") {
        Some("markdown")
    } else {
        None
    }
}

/// The language of a file, which its extension tells.
pub fn detect_language(path: &str, platform: Platform) -> (r: Option<String>)
    ensures
        text::opt_text(r) == language(path@, platform),
{
    match paths::extension_of(path, platform) {
        Some(ext) => {
            let lower = text::to_lowercase(ext.as_str());
            match language_for(lower.as_str()) {
                Some(lang) => Some(lang.to_owned()),
                None => None,
            }
        },
        None => None,
    }
}

// ----------------------------------------------------------------------------
// Which files are indexed
// ----------------------------------------------------------------------------

/// Maximum file size to index (256 KB). Larger files are skipped.
pub const MAX_FILE_SIZE: u64 = 256 * 1024;

/// File extensions that are never indexed.
pub open spec fn skip_extensions() -> Seq<Seq<char>> {
    seq![
        "lock"@, "min.js"@, "min.css"@, "map"@, "wasm"@, "png"@, "jpg"@, "jpeg"@, "gif"@, "svg"@,
        "ico"@, "webp"@, "mp3"@, "mp4"@, "zip"@, "tar"@, "gz"@, "bin"@, "exe"@, "dll"@, "so"@,
        "dylib"@, "o"@, "a"@, "pdf"@, "ttf"@, "woff"@, "woff2"@, "eot"@,
    ]
}

/// Whether a file name has an extension, without regard to case: whether it ends in a dot and the
/// extension, with something before them. The extension may itself hold a dot.
pub open spec fn has_extension(name: Seq<char>, ext: Seq<char>) -> bool {
    &&& name.len() > ext.len() + 1
    &&& name[name.len() - ext.len() - 1] == '.'
    &&& text::same_ignoring_case(name.skip(name.len() - ext.len()), ext)
}

/// Whether the extension of a file tells that it is never indexed.
pub open spec fn skipped(path: Seq<char>, platform: Platform) -> bool {
    match paths::file_name(path, platform) {
        Some(name) => exists|i: int|
            0 <= i < skip_extensions().len() && has_extension(
                name,
                #[trigger] skip_extensions()[i],
            ),
        None => false,
    }
}

/// Whether a file that the walk found is to be read: it is a regular file, its extension does not
/// tell that it is never indexed, and it is not known to be too large.
pub open spec fn wanted(
    path: Seq<char>,
    is_file: bool,
    size: Option<u64>,
    platform: Platform,
) -> bool {
    &&& is_file
    &&& !skipped(path, platform)
    &&& match size {
        Some(n) => n <= MAX_FILE_SIZE,
        None => true,
    }
}

fn skip_list() -> (r: Vec<&'static str>)
    ensures
        r@.len() == skip_extensions().len(),
        forall|i: int| 0 <= i < r@.len() ==> (#[trigger] r@[i])@ == skip_extensions()[i],
{
    vec![
        "lock", "min.js", "min.css", "map", "wasm", "png", "jpg", "jpeg", "gif", "svg", "ico",
        "webp", "mp3", "mp4", "zip", "tar", "gz", "bin", "exe", "dll", "so", "dylib", "o", "a",
        "pdf", "ttf", "woff", "woff2", "eot",
    ]
}

fn ends_in(name: &[char], ext: &str) -> (r: bool)
    ensures
        r == has_extension(name@, ext@),
{
    let wanted = text::chars_of(ext);
    let n = name.len();
    let k = wanted.len();
    if n <= k || n - k == 1 || name[n - k - 1] != '.' {
        return false;
    }
    let tail = vstd::slice::slice_subrange(name, n - k, n);
    let low = text::lowered(tail);
    let low_wanted = text::lowered(wanted.as_slice());
    text::same_chars(low.as_slice(), low_wanted.as_slice())
}

/// Whether the extension of a file tells that it is never indexed.
pub fn is_skipped(path: &str, platform: Platform) -> (r: bool)
    ensures
        r == skipped(path@, platform),
{
    let name = match paths::name_of(path, platform) {
        Some(name) => name,
        None => {
            return false;
        },
    };
    let list = skip_list();
    let mut i: usize = 0;
    while i < list.len()
        invariant
            i <= list.len(),
            paths::file_name(path@, platform) == Some(name@),
            list@.len() == skip_extensions().len(),
            forall|j: int| 0 <= j < list@.len() ==> (#[trigger] list@[j])@ == skip_extensions()[j],
            forall|j: int| 0 <= j < i ==> !has_extension(name@, #[trigger] skip_extensions()[j]),
        decreases list.len() - i,
    {
        if ends_in(name.as_slice(), list[i]) {
            return true;
        }
        i = i + 1;
    }
    false
}

/// Whether a file that the walk found is to be read.
pub fn is_wanted(path: &str, is_file: bool, size: Option<u64>, platform: Platform) -> (r: bool)
    ensures
        r == wanted(path@, is_file, size, platform),
{
    if !is_file || is_skipped(path, platform) {
        return false;
    }
    match size {
        Some(n) => n <= MAX_FILE_SIZE,
        None => true,
    }
}

// ----------------------------------------------------------------------------
// Symbol extraction
// ----------------------------------------------------------------------------

/// `regex::Regex`, a compiled regular expression.
#[verifier::external_type_specification]
#[verifier::external_body]
pub struct ExRegex(regex::Regex);

/// What the first capture group of a compiled regular expression matches in a line, if the
/// expression matches the line and the group takes part in the match.
pub uninterp spec fn first_group(re: regex::Regex, line: Seq<char>) -> Option<Seq<char>>;

/// What the first capture group of a pattern matches in a line, if the pattern is a regular
/// expression that matches the line and the group takes part in the match.
pub uninterp spec fn pattern_group(pattern: Seq<char>, line: Seq<char>) -> Option<Seq<char>>;

/// `regex::Regex::new`, which compiles a regular expression.
///
/// What the compiled expression matches depends on the pattern alone. There is none where the
/// pattern is not a regular expression.
#[verifier::external_body]
fn compile(pattern: &str) -> (r: Option<regex::Regex>)
    ensures
        match r {
            Some(re) => forall|line: Seq<char>|
                #[trigger] first_group(re, line) == pattern_group(pattern@, line),
            None => forall|line: Seq<char>| #[trigger] pattern_group(pattern@, line) is None,
        },
{
    regex::Regex::new(pattern).ok()
}

/// `regex::Regex::captures`, and `regex::Captures::get` for the first group.
///
/// The result depends on the expression and the line alone. It is a part of the line.
#[verifier::external_body]
fn capture(re: &regex::Regex, line: &str) -> (r: Option<String>)
    ensures
        text::opt_text(r) == first_group(*re, line@),
        r matches Some(group) ==> text::contains(line@, group@),
{
    re.captures(line).and_then(|caps| caps.get(1)).map(|group| group.as_str().to_string())
}

/// A pattern whose first group tells the name of a symbol, and the kind of the symbol.
pub struct Pattern {
    re: Option<regex::Regex>,
    source: String,
    kind: SymbolKind,
}

impl View for Pattern {
    type V = (Seq<char>, SymbolKind);

    closed spec fn view(&self) -> (Seq<char>, SymbolKind) {
        (self.source@, self.kind)
    }
}

/// What each pattern of a sequence says.
pub open spec fn pattern_views(v: Seq<Pattern>) -> Seq<(Seq<char>, SymbolKind)> {
    Seq::new(v.len(), |i: int| v[i]@)
}

impl Pattern {
    #[verifier::type_invariant]
    closed spec fn is_compiled(self) -> bool {
        match self.re {
            Some(re) => forall|line: Seq<char>|
                #[trigger] first_group(re, line) == pattern_group(self.source@, line),
            None => forall|line: Seq<char>| #[trigger] pattern_group(self.source@, line) is None,
        }
    }

    /// A pattern for symbols of one kind.
    pub fn new(pattern: &str, kind: SymbolKind) -> (r: Pattern)
        ensures
            r@ == (pattern@, kind),
    {
        Pattern { re: compile(pattern), source: pattern.to_owned(), kind }
    }

    /// The kind of the symbols.
    pub fn kind(&self) -> (r: SymbolKind)
        ensures
            r == self@.1,
    {
        self.kind
    }

    /// What the first group of the pattern matches in a line.
    pub fn group(&self, line: &str) -> (r: Option<String>)
        ensures
            text::opt_text(r) == pattern_group(self@.0, line@),
            r matches Some(group) ==> text::contains(line@, group@),
    {
        proof {
            use_type_invariant(self);
        }
        match &self.re {
            Some(re) => capture(re, line),
            None => None,
        }
    }
}

/// What patterns found in a line: for each its kind, and the name that it tells, if it tells one.
pub open spec fn line_groups(
    patterns: Seq<(Seq<char>, SymbolKind)>,
    line: Seq<char>,
) -> Seq<(SymbolKind, Option<Seq<char>>)> {
    Seq::new(patterns.len(), |i: int| (patterns[i].1, pattern_group(patterns[i].0, line)))
}

/// The first of the patterns that tells a name: its kind, and the name.
pub open spec fn first_match(
    groups: Seq<(SymbolKind, Option<Seq<char>>)>,
) -> Option<(SymbolKind, Seq<char>)>
    decreases groups.len(),
{
    if groups.len() == 0 {
        None
    } else {
        match groups[0].1 {
            Some(name) => Some((groups[0].0, name)),
            None => first_match(groups.drop_first()),
        }
    }
}

/// Whether a trimmed line is taken to be a comment.
pub open spec fn comment(trimmed: Seq<char>) -> bool {
    ||| text::starts_with(trimmed, "//"@)
    ||| text::starts_with(trimmed, "#"@)
    ||| text::starts_with(trimmed, "/*"@)
    ||| text::starts_with(trimmed, "*"@)
}

/// How many bytes of a line its signature keeps.
pub const MAX_SIGNATURE: usize = 200;

/// The signature that is kept of a trimmed line: the line, or as much of its beginning as fits
/// into `MAX_SIGNATURE` bytes, with an ellipsis.
pub open spec fn signature(trimmed: Seq<char>) -> Seq<char> {
    let k = text::fitting(trimmed, MAX_SIGNATURE as int);
    if k < trimmed.len() {
        trimmed.take(k) + "…"@
    } else {
        trimmed
    }
}

/// The symbol that a line declares, given what the patterns found in the line: what the first of
/// them tells. A comment declares none.
pub open spec fn symbol_at(
    path: Seq<char>,
    number: int,
    line: Seq<char>,
    groups: Seq<(SymbolKind, Option<Seq<char>>)>,
) -> Option<SymbolModel> {
    if comment(text::trim(line)) {
        None
    } else {
        match first_match(groups) {
            Some((kind, name)) => Some(
                SymbolModel {
                    kind,
                    name,
                    file: path,
                    line: number,
                    signature: Some(signature(text::trim(line))),
                },
            ),
            None => None,
        }
    }
}

/// The symbols that lines declare, with the lines counted from 1.
pub open spec fn line_symbols(
    path: Seq<char>,
    lines: Seq<Seq<char>>,
    patterns: Seq<(Seq<char>, SymbolKind)>,
) -> Seq<SymbolModel>
    decreases lines.len(),
{
    if lines.len() == 0 {
        Seq::empty()
    } else {
        let before = line_symbols(path, lines.drop_last(), patterns);
        let line = lines.last();
        match symbol_at(path, lines.len() as int, line, line_groups(patterns, line)) {
            Some(symbol) => before.push(symbol),
            None => before,
        }
    }
}

/// The symbols that a file declares.
pub open spec fn extracted(
    path: Seq<char>,
    content: Seq<char>,
    patterns: Seq<(Seq<char>, SymbolKind)>,
) -> Seq<SymbolModel> {
    line_symbols(path, text::lines(content), patterns)
}

/// What patterns found in a line.
pub open spec fn group_views(
    v: Seq<(SymbolKind, Option<String>)>,
) -> Seq<(SymbolKind, Option<Seq<char>>)> {
    Seq::new(v.len(), |i: int| (v[i].0, text::opt_text(v[i].1)))
}

fn groups_on_line(patterns: &Vec<Pattern>, line: &str) -> (r: Vec<(SymbolKind, Option<String>)>)
    ensures
        group_views(r@) == line_groups(pattern_views(patterns@), line@),
{
    let mut out: Vec<(SymbolKind, Option<String>)> = Vec::new();
    let mut i: usize = 0;
    while i < patterns.len()
        invariant
            i <= patterns.len(),
            out@.len() == i,
            forall|j: int|
                0 <= j < i ==> {
                    &&& (#[trigger] out@[j]).0 == patterns@[j]@.1
                    &&& text::opt_text(out@[j].1) == pattern_group(patterns@[j]@.0, line@)
                },
        decreases patterns.len() - i,
    {
        let pattern = &patterns[i];
        out.push((pattern.kind(), pattern.group(line)));
        i = i + 1;
    }
    out
}

/// The index of the first of the patterns that tells a name.
fn index_of_match(groups: &Vec<(SymbolKind, Option<String>)>) -> (r: Option<usize>)
    ensures
        match r {
            Some(i) => {
                &&& i < groups@.len()
                &&& groups@[i as int].1 is Some
                &&& first_match(group_views(groups@)) == Some(
                    (groups@[i as int].0, groups@[i as int].1->0@),
                )
            },
            None => first_match(group_views(groups@)) is None,
        },
{
    let ghost all = group_views(groups@);
    let mut i: usize = 0;
    assert(all.skip(0) =~= all);
    while i < groups.len()
        invariant
            i <= groups.len(),
            all == group_views(groups@),
            first_match(all) == first_match(all.skip(i as int)),
        decreases groups.len() - i,
    {
        assert(all.skip(i as int).drop_first() =~= all.skip(i + 1));
        if groups[i].1.is_some() {
            return Some(i);
        }
        i = i + 1;
    }
    None
}

fn is_comment(trimmed: &[char]) -> (r: bool)
    ensures
        r == comment(trimmed@),
{
    text::starts_with_str(trimmed, "//") || text::starts_with_str(trimmed, "#")
        || text::starts_with_str(trimmed, "/*") || text::starts_with_str(trimmed, "*")
}

fn signature_of(trimmed: &[char]) -> (r: String)
    ensures
        r@ == signature(trimmed@),
{
    let k = text::fitting_chars(trimmed, MAX_SIGNATURE);
    if k < trimmed.len() {
        let kept = vstd::slice::slice_subrange(trimmed, 0, k);
        let mut out = text::string_of(kept);
        out.append("…");
        out
    } else {
        text::string_of(trimmed)
    }
}

/// The symbol that a line declares, given what the patterns found in the line.
///
/// It is what the first pattern that found something tells. A line that begins like a comment
/// declares none.
pub fn symbol_on_line(
    path: &str,
    number: usize,
    line: &[char],
    groups: &Vec<(SymbolKind, Option<String>)>,
) -> (r: Option<Symbol>)
    ensures
        match r {
            Some(symbol) => symbol_at(path@, number as int, line@, group_views(groups@)) == Some(
                symbol@,
            ),
            None => symbol_at(path@, number as int, line@, group_views(groups@)) is None,
        },
{
    let trimmed = text::trimmed(line);
    if is_comment(trimmed) {
        return None;
    }
    match index_of_match(groups) {
        Some(i) => match &groups[i].1 {
            Some(name) => Some(
                Symbol {
                    kind: groups[i].0,
                    name: name.clone(),
                    file: path.to_owned(),
                    line: number,
                    signature: Some(signature_of(trimmed)),
                },
            ),
            None => None,
        },
        None => None,
    }
}

/// The symbols that a file declares, given the patterns that tell them.
///
/// Each line is tried on its own, and declares one symbol at most.
pub fn extract_with_patterns(path: &str, content: &str, patterns: &Vec<Pattern>) -> (r: Vec<Symbol>)
    ensures
        symbol_views(r@) == extracted(path@, content@, pattern_views(patterns@)),
{
    let cs = text::chars_of(content);
    let lines = text::lines_of(cs.as_slice());
    let ghost ls = text::lines(content@);
    let ghost ps = pattern_views(patterns@);
    let mut symbols: Vec<Symbol> = Vec::new();
    let mut i: usize = 0;
    while i < lines.len()
        invariant
            i <= lines.len(),
            text::char_texts(lines@) == ls,
            ps == pattern_views(patterns@),
            symbol_views(symbols@) == line_symbols(path@, ls.take(i as int), ps),
        decreases lines.len() - i,
    {
        let line = lines[i].as_slice();
        assert(ls.take(i + 1).drop_last() =~= ls.take(i as int));
        if !is_comment(text::trimmed(line)) {
            let groups = groups_on_line(patterns, text::string_of(line).as_str());
            match symbol_on_line(path, i + 1, line, &groups) {
                Some(symbol) => {
                    symbols.push(symbol);
                },
                None => {},
            }
        }
        i = i + 1;
    }
    assert(ls.take(ls.len() as int) =~= ls);
    symbols
}

// ---- Rust ----

/// Tells a `fn` of Rust.
pub const RUST_FN: &'static str = r"^\s*(?:pub(?:\([^)]*\))?\s+)?(?:async\s+)?fn\s+(\w+)";

/// Tells a `struct` of Rust.
pub const RUST_STRUCT: &'static str = r"^\s*(?:pub(?:\([^)]*\))?\s+)?struct\s+(\w+)";

/// Tells a `enum` of Rust.
pub const RUST_ENUM: &'static str = r"^\s*(?:pub(?:\([^)]*\))?\s+)?enum\s+(\w+)";

/// Tells a `trait` of Rust.
pub const RUST_TRAIT: &'static str = r"^\s*(?:pub(?:\([^)]*\))?\s+)?trait\s+(\w+)";

/// Tells a `type` of Rust.
pub const RUST_TYPE: &'static str = r"^\s*(?:pub(?:\([^)]*\))?\s+)?type\s+(\w+)";

/// Tells a `const` of Rust.
pub const RUST_CONST: &'static str = r"^\s*(?:pub(?:\([^)]*\))?\s+)?const\s+(\w+)";

/// Tells a `mod` of Rust.
pub const RUST_MOD: &'static str = r"^\s*(?:pub(?:\([^)]*\))?\s+)?mod\s+(\w+)";

/// What tells the symbols of Rust, in the order in which it is tried.
pub open spec fn rust_patterns() -> Seq<(Seq<char>, SymbolKind)> {
    seq![
        (RUST_FN@, SymbolKind::Function),
        (RUST_STRUCT@, SymbolKind::Struct),
        (RUST_ENUM@, SymbolKind::Enum),
        (RUST_TRAIT@, SymbolKind::Trait),
        (RUST_TYPE@, SymbolKind::Type),
        (RUST_CONST@, SymbolKind::Constant),
        (RUST_MOD@, SymbolKind::Module),
    ]
}

/// The symbols of a Rust file.
pub fn extract_rust(path: &str, content: &str) -> (r: Vec<Symbol>)
    ensures
        symbol_views(r@) == extracted(path@, content@, rust_patterns()),
{
    let mut patterns: Vec<Pattern> = Vec::new();
    patterns.push(Pattern::new(RUST_FN, SymbolKind::Function));
    patterns.push(Pattern::new(RUST_STRUCT, SymbolKind::Struct));
    patterns.push(Pattern::new(RUST_ENUM, SymbolKind::Enum));
    patterns.push(Pattern::new(RUST_TRAIT, SymbolKind::Trait));
    patterns.push(Pattern::new(RUST_TYPE, SymbolKind::Type));
    patterns.push(Pattern::new(RUST_CONST, SymbolKind::Constant));
    patterns.push(Pattern::new(RUST_MOD, SymbolKind::Module));
    assert(pattern_views(patterns@) =~= rust_patterns());
    extract_with_patterns(path, content, &patterns)
}

// ---- Python ----

/// Tells a `def` of Python.
pub const PYTHON_DEF: &'static str = r"^\s*(?:async\s+)?def\s+(\w+)";

/// Tells a `class` of Python.
pub const PYTHON_CLASS: &'static str = r"^\s*class\s+(\w+)";

/// What tells the symbols of Python, in the order in which it is tried.
pub open spec fn python_patterns() -> Seq<(Seq<char>, SymbolKind)> {
    seq![
        (PYTHON_DEF@, SymbolKind::Function),
        (PYTHON_CLASS@, SymbolKind::Class),
    ]
}

/// The symbols of a Python file.
pub fn extract_python(path: &str, content: &str) -> (r: Vec<Symbol>)
    ensures
        symbol_views(r@) == extracted(path@, content@, python_patterns()),
{
    let mut patterns: Vec<Pattern> = Vec::new();
    patterns.push(Pattern::new(PYTHON_DEF, SymbolKind::Function));
    patterns.push(Pattern::new(PYTHON_CLASS, SymbolKind::Class));
    assert(pattern_views(patterns@) =~= python_patterns());
    extract_with_patterns(path, content, &patterns)
}

// ---- JavaScript and TypeScript ----

/// Tells a `function` of JavaScript or TypeScript.
pub const JS_TS_FUNCTION: &'static str = r"^\s*(?:export\s+)?(?:async\s+)?function\s+(\w+)";

/// Tells a `class` of JavaScript or TypeScript.
pub const JS_TS_CLASS: &'static str = r"^\s*(?:export\s+)?class\s+(\w+)";

/// Tells a `interface` of JavaScript or TypeScript.
pub const JS_TS_INTERFACE: &'static str = r"^\s*(?:export\s+)?interface\s+(\w+)";

/// Tells a `type` of JavaScript or TypeScript.
pub const JS_TS_TYPE: &'static str = r"^\s*(?:export\s+)?type\s+(\w+)\s*=";

/// Tells a `arrow` of JavaScript or TypeScript.
pub const JS_TS_ARROW: &'static str = r"^\s*(?:export\s+)?(?:const|let|var)\s+(\w+)\s*=\s*(?:async\s+)?(?:\([^)]*\)|[^=])\s*=>";

/// Tells a `enum` of JavaScript or TypeScript.
pub const JS_TS_ENUM: &'static str = r"^\s*(?:export\s+)?enum\s+(\w+)";

/// What tells the symbols of JavaScript and TypeScript, in the order in which it is tried.
pub open spec fn js_ts_patterns() -> Seq<(Seq<char>, SymbolKind)> {
    seq![
        (JS_TS_FUNCTION@, SymbolKind::Function),
        (JS_TS_CLASS@, SymbolKind::Class),
        (JS_TS_INTERFACE@, SymbolKind::Interface),
        (JS_TS_TYPE@, SymbolKind::Type),
        (JS_TS_ARROW@, SymbolKind::Function),
        (JS_TS_ENUM@, SymbolKind::Enum),
    ]
}

/// The symbols of a file in JavaScript or TypeScript.
pub fn extract_js_ts(path: &str, content: &str) -> (r: Vec<Symbol>)
    ensures
        symbol_views(r@) == extracted(path@, content@, js_ts_patterns()),
{
    let mut patterns: Vec<Pattern> = Vec::new();
    patterns.push(Pattern::new(JS_TS_FUNCTION, SymbolKind::Function));
    patterns.push(Pattern::new(JS_TS_CLASS, SymbolKind::Class));
    patterns.push(Pattern::new(JS_TS_INTERFACE, SymbolKind::Interface));
    patterns.push(Pattern::new(JS_TS_TYPE, SymbolKind::Type));
    patterns.push(Pattern::new(JS_TS_ARROW, SymbolKind::Function));
    patterns.push(Pattern::new(JS_TS_ENUM, SymbolKind::Enum));
    assert(pattern_views(patterns@) =~= js_ts_patterns());
    extract_with_patterns(path, content, &patterns)
}

// ---- Go ----

/// Tells a `func` of Go.
pub const GO_FUNC: &'static str = r"^func\s+(\w+)\s*\(";

/// Tells a `method` of Go.
pub const GO_METHOD: &'static str = r"^func\s+\([^)]+\)\s+(\w+)\s*\(";

/// Tells a `struct` of Go.
pub const GO_STRUCT: &'static str = r"^type\s+(\w+)\s+struct\b";

/// Tells a `interface` of Go.
pub const GO_INTERFACE: &'static str = r"^type\s+(\w+)\s+interface\b";

/// Tells a `type` of Go.
pub const GO_TYPE: &'static str = r"^type\s+(\w+)\s+";

/// What tells the symbols of Go, in the order in which it is tried.
pub open spec fn go_patterns() -> Seq<(Seq<char>, SymbolKind)> {
    seq![
        (GO_FUNC@, SymbolKind::Function),
        (GO_METHOD@, SymbolKind::Method),
        (GO_STRUCT@, SymbolKind::Struct),
        (GO_INTERFACE@, SymbolKind::Interface),
        (GO_TYPE@, SymbolKind::Type),
    ]
}

/// The symbols of a Go file.
pub fn extract_go(path: &str, content: &str) -> (r: Vec<Symbol>)
    ensures
        symbol_views(r@) == extracted(path@, content@, go_patterns()),
{
    let mut patterns: Vec<Pattern> = Vec::new();
    patterns.push(Pattern::new(GO_FUNC, SymbolKind::Function));
    patterns.push(Pattern::new(GO_METHOD, SymbolKind::Method));
    patterns.push(Pattern::new(GO_STRUCT, SymbolKind::Struct));
    patterns.push(Pattern::new(GO_INTERFACE, SymbolKind::Interface));
    patterns.push(Pattern::new(GO_TYPE, SymbolKind::Type));
    assert(pattern_views(patterns@) =~= go_patterns());
    extract_with_patterns(path, content, &patterns)
}

// ---- Ruby ----

/// Tells a `def` of Ruby.
pub const RUBY_DEF: &'static str = r"^\s*def\s+(\w+)";

/// Tells a `class` of Ruby.
pub const RUBY_CLASS: &'static str = r"^\s*class\s+(\w+)";

/// Tells a `module` of Ruby.
pub const RUBY_MODULE: &'static str = r"^\s*module\s+(\w+)";

/// What tells the symbols of Ruby, in the order in which it is tried.
pub open spec fn ruby_patterns() -> Seq<(Seq<char>, SymbolKind)> {
    seq![
        (RUBY_DEF@, SymbolKind::Function),
        (RUBY_CLASS@, SymbolKind::Class),
        (RUBY_MODULE@, SymbolKind::Module),
    ]
}

/// The symbols of a Ruby file.
pub fn extract_ruby(path: &str, content: &str) -> (r: Vec<Symbol>)
    ensures
        symbol_views(r@) == extracted(path@, content@, ruby_patterns()),
{
    let mut patterns: Vec<Pattern> = Vec::new();
    patterns.push(Pattern::new(RUBY_DEF, SymbolKind::Function));
    patterns.push(Pattern::new(RUBY_CLASS, SymbolKind::Class));
    patterns.push(Pattern::new(RUBY_MODULE, SymbolKind::Module));
    assert(pattern_views(patterns@) =~= ruby_patterns());
    extract_with_patterns(path, content, &patterns)
}

// ---- Java ----

/// Tells a `class` of Java.
pub const JAVA_CLASS: &'static str = r"^\s*(?:public|private|protected)?\s*(?:static\s+)?(?:final\s+)?class\s+(\w+)";

/// Tells a `interface` of Java.
pub const JAVA_INTERFACE: &'static str = r"^\s*(?:public|private|protected)?\s*(?:static\s+)?interface\s+(\w+)";

/// Tells a `enum` of Java.
pub const JAVA_ENUM: &'static str = r"^\s*(?:public|private|protected)?\s*(?:static\s+)?enum\s+(\w+)";

/// Tells a `method` of Java.
pub const JAVA_METHOD: &'static str = r"^\s*(?:public|private|protected)?\s*(?:static\s+)?(?:final\s+)?(?:synchronized\s+)?\w+(?:<[^>]+>)?\s+(\w+)\s*\(";

/// What tells the symbols of Java, in the order in which it is tried.
pub open spec fn java_patterns() -> Seq<(Seq<char>, SymbolKind)> {
    seq![
        (JAVA_CLASS@, SymbolKind::Class),
        (JAVA_INTERFACE@, SymbolKind::Interface),
        (JAVA_ENUM@, SymbolKind::Enum),
        (JAVA_METHOD@, SymbolKind::Method),
    ]
}

/// The symbols of a Java file.
pub fn extract_java(path: &str, content: &str) -> (r: Vec<Symbol>)
    ensures
        symbol_views(r@) == extracted(path@, content@, java_patterns()),
{
    let mut patterns: Vec<Pattern> = Vec::new();
    patterns.push(Pattern::new(JAVA_CLASS, SymbolKind::Class));
    patterns.push(Pattern::new(JAVA_INTERFACE, SymbolKind::Interface));
    patterns.push(Pattern::new(JAVA_ENUM, SymbolKind::Enum));
    patterns.push(Pattern::new(JAVA_METHOD, SymbolKind::Method));
    assert(pattern_views(patterns@) =~= java_patterns());
    extract_with_patterns(path, content, &patterns)
}

// ---- C and C++ ----

/// Tells a `function` of C or C++.
pub const C_CPP_FUNCTION: &'static str = r"^\s*(?:static\s+)?(?:inline\s+)?(?:const\s+)?\w+[\s*]+(\w+)\s*\([^;]*$";

/// Tells a `struct` of C or C++.
pub const C_CPP_STRUCT: &'static str = r"^\s*(?:typedef\s+)?struct\s+(\w+)";

/// Tells a `enum` of C or C++.
pub const C_CPP_ENUM: &'static str = r"^\s*(?:typedef\s+)?enum\s+(\w+)";

/// Tells a `class` of C or C++.
pub const C_CPP_CLASS: &'static str = r"^\s*class\s+(\w+)";

/// Tells a `namespace` of C or C++.
pub const C_CPP_NAMESPACE: &'static str = r"^\s*namespace\s+(\w+)";

/// What tells the symbols of C and C++, in the order in which it is tried.
pub open spec fn c_cpp_patterns() -> Seq<(Seq<char>, SymbolKind)> {
    seq![
        (C_CPP_FUNCTION@, SymbolKind::Function),
        (C_CPP_STRUCT@, SymbolKind::Struct),
        (C_CPP_ENUM@, SymbolKind::Enum),
        (C_CPP_CLASS@, SymbolKind::Class),
        (C_CPP_NAMESPACE@, SymbolKind::Module),
    ]
}

/// The symbols of a file in C or C++.
pub fn extract_c_cpp(path: &str, content: &str) -> (r: Vec<Symbol>)
    ensures
        symbol_views(r@) == extracted(path@, content@, c_cpp_patterns()),
{
    let mut patterns: Vec<Pattern> = Vec::new();
    patterns.push(Pattern::new(C_CPP_FUNCTION, SymbolKind::Function));
    patterns.push(Pattern::new(C_CPP_STRUCT, SymbolKind::Struct));
    patterns.push(Pattern::new(C_CPP_ENUM, SymbolKind::Enum));
    patterns.push(Pattern::new(C_CPP_CLASS, SymbolKind::Class));
    patterns.push(Pattern::new(C_CPP_NAMESPACE, SymbolKind::Module));
    assert(pattern_views(patterns@) =~= c_cpp_patterns());
    extract_with_patterns(path, content, &patterns)
}

/// The patterns for a language.
pub open spec fn patterns_for(lang: Option<Seq<char>>) -> Seq<(Seq<char>, SymbolKind)> {
    match lang {
        None => Seq::empty(),
        Some(l) => if l == "rust"@ {
            rust_patterns()
        } else if l == "python"@ {
            python_patterns()
        } else if l == "javascript"@ || l == "typescript"@ {
            js_ts_patterns()
        } else if l == "go"@ {
            go_patterns()
        } else if l == "ruby"@ {
            ruby_patterns()
        } else if l == "java"@ {
            java_patterns()
        } else if l == "c"@ || l == "cpp"@ {
            c_cpp_patterns()
        } else {
            Seq::empty()
        },
    }
}

proof fn lemma_no_patterns(path: Seq<char>, lines: Seq<Seq<char>>)
    ensures
        line_symbols(path, lines, Seq::empty()) == Seq::<SymbolModel>::empty(),
    decreases lines.len(),
{
    if lines.len() > 0 {
        lemma_no_patterns(path, lines.drop_last());
    }
}

/// The symbols that a file in a language declares. No symbols are told for languages without
/// patterns.
pub fn extract_symbols(path: &str, content: &str, lang: Option<&str>) -> (r: Vec<Symbol>)
    ensures
        symbol_views(r@) == extracted(path@, content@, patterns_for(text::opt_str(lang))),
{
    match lang {
        Some(l) => if text::same_str(l, "rust") {
            return extract_rust(path, content);
        } else if text::same_str(l, "python") {
            return extract_python(path, content);
        } else if text::same_str(l, "javascript") || text::same_str(l, "typescript") {
            return extract_js_ts(path, content);
        } else if text::same_str(l, "go") {
            return extract_go(path, content);
        } else if text::same_str(l, "ruby") {
            return extract_ruby(path, content);
        } else if text::same_str(l, "java") {
            return extract_java(path, content);
        } else if text::same_str(l, "c") || text::same_str(l, "cpp") {
            return extract_c_cpp(path, content);
        },
        None => {},
    }
    let none: Vec<Symbol> = Vec::new();
    proof {
        lemma_no_patterns(path@, text::lines(content@));
    }
    none
}

// ----------------------------------------------------------------------------
// Index building
// ----------------------------------------------------------------------------

/// Something that the walk through a directory found.
#[derive(Debug, Clone)]
pub struct WalkedFile {
    /// Where it is.
    pub path: String,
    /// Whether it is a regular file.
    pub is_file: bool,
    /// How many bytes it has, if that is known.
    pub size: Option<u64>,
    /// What it holds, if it was read and is text.
    pub content: Option<String>,
}

/// What the walk through a directory found.
#[verifier::ext_equal]
pub struct WalkedModel {
    /// Where it is.
    pub path: Seq<char>,
    /// Whether it is a regular file.
    pub is_file: bool,
    /// How many bytes it has.
    pub size: Option<u64>,
    /// What it holds.
    pub content: Option<Seq<char>>,
}

impl View for WalkedFile {
    type V = WalkedModel;

    open spec fn view(&self) -> WalkedModel {
        WalkedModel {
            path: self.path@,
            is_file: self.is_file,
            size: self.size,
            content: text::opt_text(self.content),
        }
    }
}

/// What each file of a sequence says.
pub open spec fn walked_views(v: Seq<WalkedFile>) -> Seq<WalkedModel> {
    Seq::new(v.len(), |i: int| v[i]@)
}

/// Whether a file is indexed: whether it is wanted, and could be read as text.
pub open spec fn indexed(file: WalkedModel, platform: Platform) -> bool {
    wanted(file.path, file.is_file, file.size, platform) && file.content is Some
}

/// The symbols that an indexed file declares.
pub open spec fn file_symbols(file: WalkedModel, platform: Platform) -> Seq<SymbolModel> {
    extracted(file.path, file.content->0, patterns_for(language(file.path, platform)))
}

/// The summary of an indexed file.
pub open spec fn summary(file: WalkedModel, platform: Platform) -> SummaryModel {
    SummaryModel {
        path: file.path,
        language: language(file.path, platform),
        line_count: text::lines(file.content->0).len() as int,
        symbol_count: file_symbols(file, platform).len() as int,
    }
}

/// The index of the files that a walk found, in the order of the walk.
pub open spec fn built(
    root: Seq<char>,
    walked: Seq<WalkedModel>,
    platform: Platform,
) -> CodebaseModel
    decreases walked.len(),
{
    if walked.len() == 0 {
        CodebaseModel { root, files: Seq::empty(), symbols: Seq::empty() }
    } else {
        let before = built(root, walked.drop_last(), platform);
        let file = walked.last();
        if indexed(file, platform) {
            CodebaseModel {
                root,
                files: before.files.push(summary(file, platform)),
                symbols: before.symbols + file_symbols(file, platform),
            }
        } else {
            before
        }
    }
}

fn append_symbols(symbols: &mut Vec<Symbol>, more: Vec<Symbol>)
    ensures
        symbol_views(final(symbols)@) == symbol_views(old(symbols)@) + symbol_views(more@),
{
    let mut more = more;
    symbols.append(&mut more);
}

/// The name of a symbol in lower case holds the query in lower case.
pub open spec fn name_holds(name: Seq<char>, query: Seq<char>) -> bool {
    text::contains(text::lowercase(name), text::lowercase(query))
}

/// The symbols whose names hold the query, without regard to case.
pub open spec fn named_like(symbols: Seq<SymbolModel>, query: Seq<char>) -> Seq<SymbolModel> {
    symbols.filter(|s: SymbolModel| name_holds(s.name, query))
}

/// The symbols of one kind whose names hold the query, without regard to case.
pub open spec fn kind_named_like(
    symbols: Seq<SymbolModel>,
    query: Seq<char>,
    kind: SymbolKind,
) -> Seq<SymbolModel> {
    symbols.filter(|s: SymbolModel| s.kind == kind && name_holds(s.name, query))
}

/// The symbols that a file declares.
pub open spec fn declared_in(
    symbols: Seq<SymbolModel>,
    path: Seq<char>,
    platform: Platform,
) -> Seq<SymbolModel> {
    symbols.filter(|s: SymbolModel| paths::same_path(s.file, path, platform))
}

/// A path as it is shown: relative to the root, where it lies under it.
pub open spec fn shown_path(file: Seq<char>, root: Seq<char>, platform: Platform) -> Seq<char> {
    match paths::strip_prefix(file, root, platform) {
        Some(rel) => rel,
        None => file,
    }
}

/// A signature as it is shown.
pub open spec fn shown_signature(signature: Option<Seq<char>>) -> Seq<char> {
    match signature {
        Some(s) => "  "@ + s,
        None => Seq::empty(),
    }
}

/// A symbol as it is shown.
pub open spec fn shown(symbol: SymbolModel, root: Seq<char>, platform: Platform) -> Seq<char> {
    kind_name(symbol.kind) + " "@ + symbol.name + " — "@ + shown_path(
        symbol.file,
        root,
        platform,
    ) + ":"@ + decimal::numeral(symbol.line as nat) + shown_signature(symbol.signature) + "\n"@
}

/// Symbols as they are shown, one after the other.
pub open spec fn shown_all(
    symbols: Seq<SymbolModel>,
    root: Seq<char>,
    platform: Platform,
) -> Seq<char>
    decreases symbols.len(),
{
    if symbols.len() == 0 {
        Seq::empty()
    } else {
        shown_all(symbols.drop_last(), root, platform) + shown(symbols.last(), root, platform)
    }
}

/// Search results as they are shown.
pub open spec fn formatted(
    symbols: Seq<SymbolModel>,
    root: Seq<char>,
    platform: Platform,
) -> Seq<char> {
    if symbols.len() == 0 {
        "No symbols found.\n"@
    } else {
        shown_all(symbols, root, platform)
    }
}

fn holds_name(name: &str, query_lower: &str) -> (r: bool)
    ensures
        r == text::contains(text::lowercase(name@), query_lower@),
{
    let lower = text::to_lowercase(name);
    let cs = text::chars_of(lower.as_str());
    text::contains_str(cs.as_slice(), query_lower)
}

impl CodebaseIndex {
    /// Builds an index of the files that a walk through `root` found.
    pub fn build(root: &str, walked: &Vec<WalkedFile>, platform: Platform) -> (r: CodebaseIndex)
        ensures
            r@ == built(root@, walked_views(walked@), platform),
    {
        let ghost all = walked_views(walked@);
        let mut files: Vec<FileSummary> = Vec::new();
        let mut symbols: Vec<Symbol> = Vec::new();
        let mut i: usize = 0;
        while i < walked.len()
            invariant
                i <= walked.len(),
                all == walked_views(walked@),
                summary_views(files@) == built(root@, all.take(i as int), platform).files,
                symbol_views(symbols@) == built(root@, all.take(i as int), platform).symbols,
            decreases walked.len() - i,
        {
            let file = &walked[i];
            assert(all.take(i + 1).drop_last() =~= all.take(i as int));
            if is_wanted(file.path.as_str(), file.is_file, file.size, platform) {
                match &file.content {
                    Some(content) => {
                        let path = file.path.as_str();
                        let lang = detect_language(path, platform);
                        let found = match &lang {
                            Some(l) => extract_symbols(path, content.as_str(), Some(l.as_str())),
                            None => extract_symbols(path, content.as_str(), None),
                        };
                        let cs = text::chars_of(content.as_str());
                        let lines = text::lines_of(cs.as_slice());
                        files.push(
                            FileSummary {
                                path: file.path.clone(),
                                language: lang,
                                line_count: lines.len(),
                                symbol_count: found.len(),
                            },
                        );
                        append_symbols(&mut symbols, found);
                    },
                    None => {},
                }
            }
            i = i + 1;
        }
        assert(all.take(all.len() as int) =~= all);
        proof {
            lemma_built_root(root@, all, platform);
        }
        CodebaseIndex { root: root.to_owned(), files, symbols }
    }

    /// Finds symbols by name (case-insensitive substring match).
    pub fn search(&self, query: &str) -> (r: Vec<&Symbol>)
        ensures
            symbol_refs(r@) == named_like(self@.symbols, query@),
    {
        let query_lower = text::to_lowercase(query);
        let ghost all = self@.symbols;
        let ghost keep = |s: SymbolModel| name_holds(s.name, query@);
        let mut out: Vec<&Symbol> = Vec::new();
        let mut i: usize = 0;
        while i < self.symbols.len()
            invariant
                i <= self.symbols.len(),
                all == self@.symbols,
                query_lower@ == text::lowercase(query@),
                keep == (|s: SymbolModel| name_holds(s.name, query@)),
                symbol_refs(out@) == all.take(i as int).filter(keep),
            decreases self.symbols.len() - i,
        {
            let symbol = &self.symbols[i];
            proof {
                reveal(Seq::filter);
                assert(all.take(i + 1).drop_last() =~= all.take(i as int));
            }
            if holds_name(symbol.name.as_str(), query_lower.as_str()) {
                out.push(symbol);
            }
            i = i + 1;
        }
        assert(all.take(all.len() as int) =~= all);
        out
    }

    /// Finds symbols by name and kind.
    pub fn search_by_kind(&self, query: &str, kind: SymbolKind) -> (r: Vec<&Symbol>)
        ensures
            symbol_refs(r@) == kind_named_like(self@.symbols, query@, kind),
    {
        let query_lower = text::to_lowercase(query);
        let ghost all = self@.symbols;
        let ghost keep = |s: SymbolModel| s.kind == kind && name_holds(s.name, query@);
        let mut out: Vec<&Symbol> = Vec::new();
        let mut i: usize = 0;
        while i < self.symbols.len()
            invariant
                i <= self.symbols.len(),
                all == self@.symbols,
                query_lower@ == text::lowercase(query@),
                keep == (|s: SymbolModel| s.kind == kind && name_holds(s.name, query@)),
                symbol_refs(out@) == all.take(i as int).filter(keep),
            decreases self.symbols.len() - i,
        {
            let symbol = &self.symbols[i];
            proof {
                reveal(Seq::filter);
                assert(all.take(i + 1).drop_last() =~= all.take(i as int));
            }
            if symbol.kind == kind && holds_name(symbol.name.as_str(), query_lower.as_str()) {
                out.push(symbol);
            }
            i = i + 1;
        }
        assert(all.take(all.len() as int) =~= all);
        out
    }

    /// All symbols in a specific file.
    pub fn symbols_in_file(&self, path: &str, platform: Platform) -> (r: Vec<&Symbol>)
        ensures
            symbol_refs(r@) == declared_in(self@.symbols, path@, platform),
    {
        let ghost all = self@.symbols;
        let ghost keep = |s: SymbolModel| paths::same_path(s.file, path@, platform);
        let mut out: Vec<&Symbol> = Vec::new();
        let mut i: usize = 0;
        while i < self.symbols.len()
            invariant
                i <= self.symbols.len(),
                all == self@.symbols,
                keep == (|s: SymbolModel| paths::same_path(s.file, path@, platform)),
                symbol_refs(out@) == all.take(i as int).filter(keep),
            decreases self.symbols.len() - i,
        {
            let symbol = &self.symbols[i];
            proof {
                reveal(Seq::filter);
                assert(all.take(i + 1).drop_last() =~= all.take(i as int));
            }
            if paths::paths_equal(symbol.file.as_str(), path, platform) {
                out.push(symbol);
            }
            i = i + 1;
        }
        assert(all.take(all.len() as int) =~= all);
        out
    }

    /// The first file summary for a path.
    pub fn file_summary(&self, path: &str, platform: Platform) -> (r: Option<&FileSummary>)
        ensures
            match r {
                Some(found) => exists|i: int|
                    {
                        &&& 0 <= i < self@.files.len()
                        &&& #[trigger] self@.files[i] == found@
                        &&& paths::same_path(self@.files[i].path, path@, platform)
                        &&& forall|j: int|
                            0 <= j < i ==> !paths::same_path(
                                (#[trigger] self@.files[j]).path,
                                path@,
                                platform,
                            )
                    },
                None => forall|j: int|
                    0 <= j < self@.files.len() ==> !paths::same_path(
                        (#[trigger] self@.files[j]).path,
                        path@,
                        platform,
                    ),
            },
    {
        let mut i: usize = 0;
        while i < self.files.len()
            invariant
                i <= self.files.len(),
                forall|j: int|
                    0 <= j < i ==> !paths::same_path(
                        (#[trigger] self@.files[j]).path,
                        path@,
                        platform,
                    ),
            decreases self.files.len() - i,
        {
            let file = &self.files[i];
            assert(self@.files[i as int] == file@);
            if paths::paths_equal(file.path.as_str(), path, platform) {
                return Some(file);
            }
            i = i + 1;
        }
        None
    }

    /// Formats search results as a human-readable string.
    pub fn format_results(&self, results: &[&Symbol], root: &str, platform: Platform) -> (r: String)
        ensures
            r@ == formatted(symbol_refs(results@), root@, platform),
    {
        let ghost all = symbol_refs(results@);
        if results.len() == 0 {
            return "No symbols found.\n".to_owned();
        }
        let mut out = String::new();
        let mut i: usize = 0;
        while i < results.len()
            invariant
                i <= results@.len(),
                all == symbol_refs(results@),
                out@ == shown_all(all.take(i as int), root@, platform),
            decreases results@.len() - i,
        {
            let symbol = results[i];
            assert(all.take(i + 1).drop_last() =~= all.take(i as int));
            out.append(format_symbol(symbol, root, platform).as_str());
            i = i + 1;
        }
        assert(all.take(all.len() as int) =~= all);
        out
    }

    /// Total number of indexed symbols.
    pub fn symbol_count(&self) -> (r: usize)
        ensures
            r == self@.symbols.len(),
    {
        self.symbols.len()
    }

    /// Total number of indexed files.
    pub fn file_count(&self) -> (r: usize)
        ensures
            r == self@.files.len(),
    {
        self.files.len()
    }
}

fn format_symbol(symbol: &Symbol, root: &str, platform: Platform) -> (r: String)
    ensures
        r@ == shown(symbol@, root@, platform),
{
    let mut out = text::concat3(symbol.kind.as_str(), " ", symbol.name.as_str());
    out.append(" — ");
    match paths::relative_to(symbol.file.as_str(), root, platform) {
        Some(rel) => out.append(rel.as_str()),
        None => out.append(symbol.file.as_str()),
    }
    out.append(":");
    decimal::push_decimal(&mut out, symbol.line as u64);
    match &symbol.signature {
        Some(s) => {
            out.append("  ");
            out.append(s.as_str());
        },
        None => {},
    }
    out.append("\n");
    out
}

proof fn lemma_built_root(root: Seq<char>, walked: Seq<WalkedModel>, platform: Platform)
    ensures
        built(root, walked, platform).root == root,
    decreases walked.len(),
{
    if walked.len() > 0 {
        lemma_built_root(root, walked.drop_last(), platform);
    }
}

// ----------------------------------------------------------------------------
// Laws
// ----------------------------------------------------------------------------

/// How many symbols file summaries count together.
pub open spec fn counted(files: Seq<SummaryModel>) -> int
    decreases files.len(),
{
    if files.len() == 0 {
        0
    } else {
        counted(files.drop_last()) + files.last().symbol_count
    }
}

/// The symbols that the file summaries of an index count are all the symbols of the index.
pub proof fn law_summaries_count_all_symbols(
    root: Seq<char>,
    walked: Seq<WalkedModel>,
    platform: Platform,
)
    ensures
        counted(built(root, walked, platform).files) == built(root, walked, platform).symbols.len(),
    decreases walked.len(),
{
    if walked.len() > 0 {
        let before = built(root, walked.drop_last(), platform);
        law_summaries_count_all_symbols(root, walked.drop_last(), platform);
        if indexed(walked.last(), platform) {
            assert(built(root, walked, platform).files.drop_last() =~= before.files);
        }
    }
}

/// Every symbol of an index lies in a file that the index has a summary of, on one of its lines.
pub proof fn law_symbols_have_summaries(
    root: Seq<char>,
    walked: Seq<WalkedModel>,
    i: int,
    platform: Platform,
)
    requires
        0 <= i < built(root, walked, platform).symbols.len(),
    ensures
        exists|k: int|
            0 <= k < built(root, walked, platform).files.len() && (#[trigger] built(
                root,
                walked,
                platform,
            ).files[k]).path == built(root, walked, platform).symbols[i].file && 1 <= built(
                root,
                walked,
                platform,
            ).symbols[i].line <= built(root, walked, platform).files[k].line_count,
    decreases walked.len(),
{
    let all = built(root, walked, platform);
    if walked.len() > 0 {
        let before = built(root, walked.drop_last(), platform);
        let file = walked.last();
        if i < before.symbols.len() {
            law_symbols_have_summaries(root, walked.drop_last(), i, platform);
            let k = choose|k: int|
                0 <= k < before.files.len() && (#[trigger] before.files[k]).path
                    == before.symbols[i].file && 1 <= before.symbols[i].line
                    <= before.files[k].line_count;
            assert(all.files[k] == before.files[k]);
        } else {
            law_symbols_lie_in_their_file(
                file.path,
                file.content->0,
                patterns_for(language(file.path, platform)),
                i - before.symbols.len(),
            );
            assert(all.files[before.files.len() as int] == summary(file, platform));
        }
    }
}

proof fn lemma_filter_of_both(
    a: Seq<SymbolModel>,
    b: Seq<SymbolModel>,
    path: Seq<char>,
    platform: Platform,
)
    ensures
        declared_in(a + b, path, platform) == declared_in(a, path, platform) + declared_in(
            b,
            path,
            platform,
        ),
    decreases b.len(),
{
    reveal(Seq::filter);
    if b.len() > 0 {
        lemma_filter_of_both(a, b.drop_last(), path, platform);
    }
}

proof fn lemma_declared_by_one_file(
    symbols: Seq<SymbolModel>,
    file: Seq<char>,
    path: Seq<char>,
    platform: Platform,
)
    requires
        forall|i: int| 0 <= i < symbols.len() ==> (#[trigger] symbols[i]).file == file,
    ensures
        declared_in(symbols, path, platform).len() == if paths::same_path(file, path, platform) {
            symbols.len()
        } else {
            0
        },
    decreases symbols.len(),
{
    reveal(Seq::filter);
    if symbols.len() > 0 {
        lemma_declared_by_one_file(symbols.drop_last(), file, path, platform);
    }
}

proof fn lemma_not_declared(
    root: Seq<char>,
    walked: Seq<WalkedModel>,
    path: Seq<char>,
    platform: Platform,
)
    requires
        forall|i: int|
            0 <= i < walked.len() ==> !paths::same_path(
                (#[trigger] walked[i]).path,
                path,
                platform,
            ),
    ensures
        declared_in(built(root, walked, platform).symbols, path, platform).len() == 0,
    decreases walked.len(),
{
    reveal(Seq::filter);
    if walked.len() > 0 {
        let front = walked.drop_last();
        let file = walked.last();
        lemma_not_declared(root, front, path, platform);
        if indexed(file, platform) {
            let found = file_symbols(file, platform);
            lemma_line_symbols(
                file.path,
                text::lines(file.content->0),
                patterns_for(language(file.path, platform)),
            );
            lemma_filter_of_both(built(root, front, platform).symbols, found, path, platform);
            lemma_declared_by_one_file(found, file.path, path, platform);
        }
    }
}

/// Whether the files that a walk found all have different paths.
pub open spec fn different_paths(walked: Seq<WalkedModel>, platform: Platform) -> bool {
    forall|i: int, j: int|
        0 <= i < walked.len() && 0 <= j < walked.len() && i != j ==> !paths::same_path(
            (#[trigger] walked[i]).path,
            (#[trigger] walked[j]).path,
            platform,
        )
}

/// Where the files that a walk found all have different paths, as many symbols are found in a file
/// as its summary counts.
pub proof fn law_files_declare_what_is_counted(
    root: Seq<char>,
    walked: Seq<WalkedModel>,
    k: int,
    platform: Platform,
)
    requires
        different_paths(walked, platform),
        0 <= k < built(root, walked, platform).files.len(),
    ensures
        declared_in(
            built(root, walked, platform).symbols,
            built(root, walked, platform).files[k].path,
            platform,
        ).len() == built(root, walked, platform).files[k].symbol_count,
    decreases walked.len(),
{
    if walked.len() > 0 {
        let front = walked.drop_last();
        let file = walked.last();
        let before = built(root, front, platform);
        let all = built(root, walked, platform);
        let path = all.files[k].path;
        if k < before.files.len() {
            law_files_declare_what_is_counted(root, front, k, platform);
            law_only_wanted_files_are_indexed(root, front, k, platform);
            let i = choose|i: int|
                0 <= i < front.len() && indexed(#[trigger] front[i], platform) && before.files[k]
                    == summary(front[i], platform);
        } else {
            lemma_not_declared(root, front, path, platform);
        }
        if indexed(file, platform) {
            let found = file_symbols(file, platform);
            lemma_line_symbols(
                file.path,
                text::lines(file.content->0),
                patterns_for(language(file.path, platform)),
            );
            lemma_filter_of_both(before.symbols, found, path, platform);
            lemma_declared_by_one_file(found, file.path, path, platform);
        }
    }
}

/// Every file that an index has a summary of was found by the walk, and is wanted.
pub proof fn law_only_wanted_files_are_indexed(
    root: Seq<char>,
    walked: Seq<WalkedModel>,
    k: int,
    platform: Platform,
)
    requires
        0 <= k < built(root, walked, platform).files.len(),
    ensures
        exists|i: int|
            0 <= i < walked.len() && indexed(#[trigger] walked[i], platform) && built(
                root,
                walked,
                platform,
            ).files[k] == summary(walked[i], platform),
    decreases walked.len(),
{
    if walked.len() > 0 {
        let front = walked.drop_last();
        let before = built(root, front, platform);
        if k < before.files.len() {
            law_only_wanted_files_are_indexed(root, front, k, platform);
        }
    }
}

/// The symbols of a file name the file, lie on lines of the file that are no comments, and carry
/// the signatures of those lines.
pub proof fn law_symbols_lie_in_their_file(
    path: Seq<char>,
    content: Seq<char>,
    patterns: Seq<(Seq<char>, SymbolKind)>,
    i: int,
)
    requires
        0 <= i < extracted(path, content, patterns).len(),
    ensures
        ({
            let s = extracted(path, content, patterns)[i];
            let lines = text::lines(content);
            &&& s.file == path
            &&& 1 <= s.line <= lines.len()
            &&& !comment(text::trim(lines[s.line - 1]))
            &&& s.signature == Some(signature(text::trim(lines[s.line - 1])))
            &&& first_match(line_groups(patterns, lines[s.line - 1])) == Some((s.kind, s.name))
        }),
{
    lemma_line_symbols(path, text::lines(content), patterns);
}

/// A line declares one symbol at most, and symbols stand in the order of their lines.
pub proof fn law_one_symbol_per_line(
    path: Seq<char>,
    content: Seq<char>,
    patterns: Seq<(Seq<char>, SymbolKind)>,
    i: int,
    j: int,
)
    requires
        0 <= i < j < extracted(path, content, patterns).len(),
    ensures
        extracted(path, content, patterns)[i].line < extracted(path, content, patterns)[j].line,
{
    lemma_line_symbols(path, text::lines(content), patterns);
}

proof fn lemma_line_symbols(
    path: Seq<char>,
    lines: Seq<Seq<char>>,
    patterns: Seq<(Seq<char>, SymbolKind)>,
)
    ensures
        forall|i: int|
            0 <= i < line_symbols(path, lines, patterns).len() ==> {
                let s = #[trigger] line_symbols(path, lines, patterns)[i];
                &&& s.file == path
                &&& 1 <= s.line <= lines.len()
                &&& !comment(text::trim(lines[s.line - 1]))
                &&& s.signature == Some(signature(text::trim(lines[s.line - 1])))
                &&& first_match(line_groups(patterns, lines[s.line - 1])) == Some((s.kind, s.name))
            },
        forall|i: int, j: int|
            0 <= i < j < line_symbols(path, lines, patterns).len() ==> (
            #[trigger] line_symbols(path, lines, patterns)[i]).line < (#[trigger] line_symbols(
                path,
                lines,
                patterns,
            )[j]).line,
    decreases lines.len(),
{
    if lines.len() > 0 {
        let front = lines.drop_last();
        let before = line_symbols(path, front, patterns);
        let all = line_symbols(path, lines, patterns);
        lemma_line_symbols(path, front, patterns);
        assert forall|i: int| 0 <= i < all.len() implies {
            let s = #[trigger] all[i];
            &&& s.file == path
            &&& 1 <= s.line <= lines.len()
            &&& !comment(text::trim(lines[s.line - 1]))
            &&& s.signature == Some(signature(text::trim(lines[s.line - 1])))
            &&& first_match(line_groups(patterns, lines[s.line - 1])) == Some((s.kind, s.name))
        } by {
            if i < before.len() {
                assert(all[i] == before[i]);
                assert(front[before[i].line - 1] == lines[before[i].line - 1]);
            }
        }
        assert forall|i: int, j: int| 0 <= i < j < all.len() implies (#[trigger] all[i]).line < (
        #[trigger] all[j]).line by {
            assert(all[i] == before[i]);
            if j < before.len() {
                assert(all[j] == before[j]);
            }
        }
    }
}

/// An empty query finds every symbol.
pub proof fn law_empty_query_finds_all(symbols: Seq<SymbolModel>)
    ensures
        named_like(symbols, Seq::empty()) == symbols,
    decreases symbols.len(),
{
    reveal(Seq::filter);
    let keep = |s: SymbolModel| name_holds(s.name, Seq::<char>::empty());
    if symbols.len() == 0 {
        assert(named_like(symbols, Seq::empty()) =~= symbols);
    } else {
        law_empty_query_finds_all(symbols.drop_last());
        let name = text::lowercase(symbols.last().name);
        assert(text::lowercase(Seq::<char>::empty()) =~= Seq::<char>::empty());
        assert(name.subrange(0, 0) =~= Seq::<char>::empty());
        assert(text::occurs_at(name, text::lowercase(Seq::<char>::empty()), 0));
        assert(keep(symbols.last()));
        assert(symbols.drop_last().push(symbols.last()) =~= symbols);
    }
}

/// A search by kind finds those symbols of the kind that a search finds, in the same order.
pub proof fn law_search_by_kind_refines_search(
    symbols: Seq<SymbolModel>,
    query: Seq<char>,
    kind: SymbolKind,
)
    ensures
        kind_named_like(symbols, query, kind) == named_like(symbols, query).filter(
            |s: SymbolModel| s.kind == kind,
        ),
    decreases symbols.len(),
{
    reveal(Seq::filter);
    if symbols.len() > 0 {
        let front = symbols.drop_last();
        let found = named_like(front, query);
        let last = symbols.last();
        law_search_by_kind_refines_search(front, query, kind);
        if name_holds(last.name, query) {
            assert(found.push(last).drop_last() =~= found);
        }
    }
}

/// A search finds exactly the symbols whose names hold the query.
pub proof fn law_search_finds_by_name(symbols: Seq<SymbolModel>, query: Seq<char>, s: SymbolModel)
    ensures
        named_like(symbols, query).contains(s) <==> symbols.contains(s) && name_holds(
            s.name,
            query,
        ),
    decreases symbols.len(),
{
    reveal(Seq::filter);
    if symbols.len() > 0 {
        let front = symbols.drop_last();
        let last = symbols.last();
        let found = named_like(symbols, query);
        let before = named_like(front, query);
        law_search_finds_by_name(front, query, s);
        if symbols.contains(s) && name_holds(s.name, query) {
            let i = choose|i: int| 0 <= i < symbols.len() && symbols[i] == s;
            if i < front.len() {
                assert(front[i] == s);
                let k = choose|k: int| 0 <= k < before.len() && before[k] == s;
                assert(found[k] == s);
            } else {
                assert(found[found.len() - 1] == s);
            }
        }
        if found.contains(s) {
            let k = choose|k: int| 0 <= k < found.len() && found[k] == s;
            if k < before.len() {
                assert(before[k] == s);
                let i = choose|i: int| 0 <= i < front.len() && front[i] == s;
                assert(symbols[i] == s);
            } else {
                assert(symbols[symbols.len() - 1] == s);
            }
        }
    }
}

/// A search for ASCII text does not depend on the case of the query.
pub proof fn law_search_ignores_case(symbols: Seq<SymbolModel>, a: Seq<char>, b: Seq<char>)
    requires
        vstd::utf8::is_ascii_chars(a),
        vstd::utf8::is_ascii_chars(b),
        text::same_ignoring_case(a, b),
    ensures
        named_like(symbols, a) == named_like(symbols, b),
    decreases symbols.len(),
{
    reveal(Seq::filter);
    if symbols.len() > 0 {
        law_search_ignores_case(symbols.drop_last(), a, b);
    }
}

/// Whether a list of symbols holds one of this kind and name on the line with this index.
pub open spec fn declares(
    symbols: Seq<SymbolModel>,
    path: Seq<char>,
    k: int,
    kind: SymbolKind,
    name: Seq<char>,
) -> bool {
    exists|i: int|
        0 <= i < symbols.len() && (#[trigger] symbols[i]).line == k + 1 && symbols[i].file == path
            && symbols[i].kind == kind && symbols[i].name == name
}

/// What a line declares: what the first pattern that captures a name tells, under the kind of that
/// pattern, and with the trimmed line as signature. A comment declares nothing, and neither does a
/// line in which no pattern captures a name.
pub proof fn law_first_pattern_names_the_symbol(
    path: Seq<char>,
    number: int,
    line: Seq<char>,
    groups: Seq<(SymbolKind, Option<Seq<char>>)>,
    i: int,
)
    ensures
        comment(text::trim(line)) ==> symbol_at(path, number, line, groups) is None,
        (forall|j: int| 0 <= j < groups.len() ==> (#[trigger] groups[j]).1 is None) ==> symbol_at(
            path,
            number,
            line,
            groups,
        ) is None,
        !comment(text::trim(line)) && 0 <= i < groups.len() && groups[i].1 is Some && (forall|j: int|
            0 <= j < i ==> (#[trigger] groups[j]).1 is None) ==> symbol_at(
            path,
            number,
            line,
            groups,
        ) == Some(
            SymbolModel {
                kind: groups[i].0,
                name: groups[i].1->0,
                file: path,
                line: number,
                signature: Some(signature(text::trim(line))),
            },
        ),
{
    if forall|j: int| 0 <= j < groups.len() ==> (#[trigger] groups[j]).1 is None {
        lemma_no_match(groups);
    }
    if 0 <= i < groups.len() && groups[i].1 is Some && (forall|j: int|
        0 <= j < i ==> (#[trigger] groups[j]).1 is None) {
        lemma_match_at(groups, i);
    }
}

proof fn lemma_no_match(groups: Seq<(SymbolKind, Option<Seq<char>>)>)
    requires
        forall|j: int| 0 <= j < groups.len() ==> (#[trigger] groups[j]).1 is None,
    ensures
        first_match(groups) is None,
    decreases groups.len(),
{
    if groups.len() > 0 {
        assert(groups[0].1 is None);
        lemma_no_match(groups.drop_first());
    }
}

proof fn lemma_match_at(groups: Seq<(SymbolKind, Option<Seq<char>>)>, i: int)
    requires
        0 <= i < groups.len(),
        groups[i].1 is Some,
        forall|j: int| 0 <= j < i ==> (#[trigger] groups[j]).1 is None,
    ensures
        first_match(groups) == Some((groups[i].0, groups[i].1->0)),
    decreases i,
{
    if i > 0 {
        assert(groups[0].1 is None);
        lemma_match_at(groups.drop_first(), i - 1);
    }
}

proof fn lemma_line_is_searched(
    path: Seq<char>,
    lines: Seq<Seq<char>>,
    patterns: Seq<(Seq<char>, SymbolKind)>,
    k: int,
)
    requires
        0 <= k < lines.len(),
        symbol_at(path, k + 1, lines[k], line_groups(patterns, lines[k])) is Some,
    ensures
        line_symbols(path, lines, patterns).contains(
            symbol_at(path, k + 1, lines[k], line_groups(patterns, lines[k]))->0,
        ),
    decreases lines.len(),
{
    let front = lines.drop_last();
    let all = line_symbols(path, lines, patterns);
    let before = line_symbols(path, front, patterns);
    let s = symbol_at(path, k + 1, lines[k], line_groups(patterns, lines[k]))->0;
    if k < front.len() {
        lemma_line_is_searched(path, front, patterns, k);
        let i = choose|i: int| 0 <= i < before.len() && before[i] == s;
        assert(all[i] == s);
    } else {
        assert(all[all.len() - 1] == s);
    }
}

/// Every line is searched: where a line of a file is no comment, and a pattern captures a name in
/// it that no earlier pattern does, the symbols of the file hold that name on that line, under the
/// kind of the pattern.
pub proof fn law_every_line_is_searched(
    path: Seq<char>,
    content: Seq<char>,
    patterns: Seq<(Seq<char>, SymbolKind)>,
    k: int,
    i: int,
)
    requires
        0 <= k < text::lines(content).len(),
        !comment(text::trim(text::lines(content)[k])),
        0 <= i < patterns.len(),
        pattern_group(patterns[i].0, text::lines(content)[k]) is Some,
        forall|j: int|
            0 <= j < i ==> pattern_group(
                (#[trigger] patterns[j]).0,
                text::lines(content)[k],
            ) is None,
    ensures
        extracted(path, content, patterns).contains(
            SymbolModel {
                kind: patterns[i].1,
                name: pattern_group(patterns[i].0, text::lines(content)[k])->0,
                file: path,
                line: k + 1,
                signature: Some(signature(text::trim(text::lines(content)[k]))),
            },
        ),
        declares(
            extracted(path, content, patterns),
            path,
            k,
            patterns[i].1,
            pattern_group(patterns[i].0, text::lines(content)[k])->0,
        ),
{
    let lines = text::lines(content);
    let line = lines[k];
    let groups = line_groups(patterns, line);
    assert forall|j: int| 0 <= j < i implies (#[trigger] groups[j]).1 is None by {
        assert(pattern_group(patterns[j].0, line) is None);
    }
    law_first_pattern_names_the_symbol(path, k + 1, line, groups, i);
    lemma_line_is_searched(path, lines, patterns, k);
    let all = extracted(path, content, patterns);
    let s = symbol_at(path, k + 1, line, groups)->0;
    let at = choose|at: int| 0 <= at < all.len() && all[at] == s;
    assert(all[at].line == k + 1);
}

/// A line in which no pattern captures a name, or that is a comment, declares nothing.
pub proof fn law_other_lines_declare_nothing(
    path: Seq<char>,
    content: Seq<char>,
    patterns: Seq<(Seq<char>, SymbolKind)>,
    k: int,
    kind: SymbolKind,
    name: Seq<char>,
)
    requires
        0 <= k < text::lines(content).len(),
        comment(text::trim(text::lines(content)[k])) || forall|j: int|
            0 <= j < patterns.len() ==> pattern_group(
                (#[trigger] patterns[j]).0,
                text::lines(content)[k],
            ) is None,
    ensures
        !declares(extracted(path, content, patterns), path, k, kind, name),
{
    let all = extracted(path, content, patterns);
    let line = text::lines(content)[k];
    let groups = line_groups(patterns, line);
    if declares(all, path, k, kind, name) {
        let i = choose|i: int|
            0 <= i < all.len() && (#[trigger] all[i]).line == k + 1 && all[i].file == path
                && all[i].kind == kind && all[i].name == name;
        law_symbols_lie_in_their_file(path, content, patterns, i);
        if !comment(text::trim(line)) {
            assert forall|j: int| 0 <= j < groups.len() implies (#[trigger] groups[j]).1 is None by {
                assert(pattern_group(patterns[j].0, line) is None);
            }
            lemma_no_match(groups);
        }
    }
}

/// Whether the expression at an index is the first of some expressions that captures a name in a
/// line, and captures this name.
pub open spec fn captures_first(
    expressions: Seq<Seq<char>>,
    i: int,
    line: Seq<char>,
    name: Seq<char>,
) -> bool {
    &&& pattern_group(expressions[i], line) == Some(name)
    &&& forall|j: int| 0 <= j < i ==> pattern_group(#[trigger] expressions[j], line) is None
}

/// What a line of a file in Rust declares, where it is no comment: these expressions are tried in
/// turn, and each tells its own kind of symbol.
pub proof fn law_rust_lines_declare(
    path: Seq<char>,
    content: Seq<char>,
    k: int,
    expressions: Seq<Seq<char>>,
    kind: SymbolKind,
    name: Seq<char>,
)
    requires
        0 <= k < text::lines(content).len(),
        !comment(text::trim(text::lines(content)[k])),
        expressions == seq![
            r"^\s*(?:pub(?:\([^)]*\))?\s+)?(?:async\s+)?fn\s+(\w+)"@,
            r"^\s*(?:pub(?:\([^)]*\))?\s+)?struct\s+(\w+)"@,
            r"^\s*(?:pub(?:\([^)]*\))?\s+)?enum\s+(\w+)"@,
            r"^\s*(?:pub(?:\([^)]*\))?\s+)?trait\s+(\w+)"@,
            r"^\s*(?:pub(?:\([^)]*\))?\s+)?type\s+(\w+)"@,
            r"^\s*(?:pub(?:\([^)]*\))?\s+)?const\s+(\w+)"@,
            r"^\s*(?:pub(?:\([^)]*\))?\s+)?mod\s+(\w+)"@,
        ],
    ensures
        captures_first(expressions, 0, text::lines(content)[k], name) ==> declares(
            extracted(path, content, rust_patterns()),
            path,
            k,
            SymbolKind::Function,
            name,
        ),
        captures_first(expressions, 1, text::lines(content)[k], name) ==> declares(
            extracted(path, content, rust_patterns()),
            path,
            k,
            SymbolKind::Struct,
            name,
        ),
        captures_first(expressions, 2, text::lines(content)[k], name) ==> declares(
            extracted(path, content, rust_patterns()),
            path,
            k,
            SymbolKind::Enum,
            name,
        ),
        captures_first(expressions, 3, text::lines(content)[k], name) ==> declares(
            extracted(path, content, rust_patterns()),
            path,
            k,
            SymbolKind::Trait,
            name,
        ),
        captures_first(expressions, 4, text::lines(content)[k], name) ==> declares(
            extracted(path, content, rust_patterns()),
            path,
            k,
            SymbolKind::Type,
            name,
        ),
        captures_first(expressions, 5, text::lines(content)[k], name) ==> declares(
            extracted(path, content, rust_patterns()),
            path,
            k,
            SymbolKind::Constant,
            name,
        ),
        captures_first(expressions, 6, text::lines(content)[k], name) ==> declares(
            extracted(path, content, rust_patterns()),
            path,
            k,
            SymbolKind::Module,
            name,
        ),
        (forall|j: int|
            0 <= j < expressions.len() ==> pattern_group(
                #[trigger] expressions[j],
                text::lines(content)[k],
            ) is None) ==> !declares(extracted(path, content, rust_patterns()), path, k, kind, name),
{
    let line = text::lines(content)[k];
    let ps = rust_patterns();
    assert(ps[0].0 == expressions[0]);
    assert(ps[1].0 == expressions[1]);
    assert(ps[2].0 == expressions[2]);
    assert(ps[3].0 == expressions[3]);
    assert(ps[4].0 == expressions[4]);
    assert(ps[5].0 == expressions[5]);
    assert(ps[6].0 == expressions[6]);
    if pattern_group(ps[0].0, line) is Some {
        law_every_line_is_searched(path, content, ps, k, 0);
    } else if pattern_group(ps[1].0, line) is Some {
        law_every_line_is_searched(path, content, ps, k, 1);
    } else if pattern_group(ps[2].0, line) is Some {
        law_every_line_is_searched(path, content, ps, k, 2);
    } else if pattern_group(ps[3].0, line) is Some {
        law_every_line_is_searched(path, content, ps, k, 3);
    } else if pattern_group(ps[4].0, line) is Some {
        law_every_line_is_searched(path, content, ps, k, 4);
    } else if pattern_group(ps[5].0, line) is Some {
        law_every_line_is_searched(path, content, ps, k, 5);
    } else if pattern_group(ps[6].0, line) is Some {
        law_every_line_is_searched(path, content, ps, k, 6);
    } else {
        law_other_lines_declare_nothing(path, content, ps, k, kind, name);
    }
}

/// What a line of a file in Python declares, where it is no comment: these expressions are tried in
/// turn, and each tells its own kind of symbol.
pub proof fn law_python_lines_declare(
    path: Seq<char>,
    content: Seq<char>,
    k: int,
    expressions: Seq<Seq<char>>,
    kind: SymbolKind,
    name: Seq<char>,
)
    requires
        0 <= k < text::lines(content).len(),
        !comment(text::trim(text::lines(content)[k])),
        expressions == seq![
            r"^\s*(?:async\s+)?def\s+(\w+)"@,
            r"^\s*class\s+(\w+)"@,
        ],
    ensures
        captures_first(expressions, 0, text::lines(content)[k], name) ==> declares(
            extracted(path, content, python_patterns()),
            path,
            k,
            SymbolKind::Function,
            name,
        ),
        captures_first(expressions, 1, text::lines(content)[k], name) ==> declares(
            extracted(path, content, python_patterns()),
            path,
            k,
            SymbolKind::Class,
            name,
        ),
        (forall|j: int|
            0 <= j < expressions.len() ==> pattern_group(
                #[trigger] expressions[j],
                text::lines(content)[k],
            ) is None) ==> !declares(extracted(path, content, python_patterns()), path, k, kind, name),
{
    let line = text::lines(content)[k];
    let ps = python_patterns();
    assert(ps[0].0 == expressions[0]);
    assert(ps[1].0 == expressions[1]);
    if pattern_group(ps[0].0, line) is Some {
        law_every_line_is_searched(path, content, ps, k, 0);
    } else if pattern_group(ps[1].0, line) is Some {
        law_every_line_is_searched(path, content, ps, k, 1);
    } else {
        law_other_lines_declare_nothing(path, content, ps, k, kind, name);
    }
}

/// What a line of a file in JavaScript or TypeScript declares, where it is no comment: these expressions are tried in
/// turn, and each tells its own kind of symbol.
pub proof fn law_js_ts_lines_declare(
    path: Seq<char>,
    content: Seq<char>,
    k: int,
    expressions: Seq<Seq<char>>,
    kind: SymbolKind,
    name: Seq<char>,
)
    requires
        0 <= k < text::lines(content).len(),
        !comment(text::trim(text::lines(content)[k])),
        expressions == seq![
            r"^\s*(?:export\s+)?(?:async\s+)?function\s+(\w+)"@,
            r"^\s*(?:export\s+)?class\s+(\w+)"@,
            r"^\s*(?:export\s+)?interface\s+(\w+)"@,
            r"^\s*(?:export\s+)?type\s+(\w+)\s*="@,
            r"^\s*(?:export\s+)?(?:const|let|var)\s+(\w+)\s*=\s*(?:async\s+)?(?:\([^)]*\)|[^=])\s*=>"@,
            r"^\s*(?:export\s+)?enum\s+(\w+)"@,
        ],
    ensures
        captures_first(expressions, 0, text::lines(content)[k], name) ==> declares(
            extracted(path, content, js_ts_patterns()),
            path,
            k,
            SymbolKind::Function,
            name,
        ),
        captures_first(expressions, 1, text::lines(content)[k], name) ==> declares(
            extracted(path, content, js_ts_patterns()),
            path,
            k,
            SymbolKind::Class,
            name,
        ),
        captures_first(expressions, 2, text::lines(content)[k], name) ==> declares(
            extracted(path, content, js_ts_patterns()),
            path,
            k,
            SymbolKind::Interface,
            name,
        ),
        captures_first(expressions, 3, text::lines(content)[k], name) ==> declares(
            extracted(path, content, js_ts_patterns()),
            path,
            k,
            SymbolKind::Type,
            name,
        ),
        captures_first(expressions, 4, text::lines(content)[k], name) ==> declares(
            extracted(path, content, js_ts_patterns()),
            path,
            k,
            SymbolKind::Function,
            name,
        ),
        captures_first(expressions, 5, text::lines(content)[k], name) ==> declares(
            extracted(path, content, js_ts_patterns()),
            path,
            k,
            SymbolKind::Enum,
            name,
        ),
        (forall|j: int|
            0 <= j < expressions.len() ==> pattern_group(
                #[trigger] expressions[j],
                text::lines(content)[k],
            ) is None) ==> !declares(extracted(path, content, js_ts_patterns()), path, k, kind, name),
{
    let line = text::lines(content)[k];
    let ps = js_ts_patterns();
    assert(ps[0].0 == expressions[0]);
    assert(ps[1].0 == expressions[1]);
    assert(ps[2].0 == expressions[2]);
    assert(ps[3].0 == expressions[3]);
    assert(ps[4].0 == expressions[4]);
    assert(ps[5].0 == expressions[5]);
    if pattern_group(ps[0].0, line) is Some {
        law_every_line_is_searched(path, content, ps, k, 0);
    } else if pattern_group(ps[1].0, line) is Some {
        law_every_line_is_searched(path, content, ps, k, 1);
    } else if pattern_group(ps[2].0, line) is Some {
        law_every_line_is_searched(path, content, ps, k, 2);
    } else if pattern_group(ps[3].0, line) is Some {
        law_every_line_is_searched(path, content, ps, k, 3);
    } else if pattern_group(ps[4].0, line) is Some {
        law_every_line_is_searched(path, content, ps, k, 4);
    } else if pattern_group(ps[5].0, line) is Some {
        law_every_line_is_searched(path, content, ps, k, 5);
    } else {
        law_other_lines_declare_nothing(path, content, ps, k, kind, name);
    }
}

/// What a line of a file in Go declares, where it is no comment: these expressions are tried in
/// turn, and each tells its own kind of symbol.
pub proof fn law_go_lines_declare(
    path: Seq<char>,
    content: Seq<char>,
    k: int,
    expressions: Seq<Seq<char>>,
    kind: SymbolKind,
    name: Seq<char>,
)
    requires
        0 <= k < text::lines(content).len(),
        !comment(text::trim(text::lines(content)[k])),
        expressions == seq![
            r"^func\s+(\w+)\s*\("@,
            r"^func\s+\([^)]+\)\s+(\w+)\s*\("@,
            r"^type\s+(\w+)\s+struct\b"@,
            r"^type\s+(\w+)\s+interface\b"@,
            r"^type\s+(\w+)\s+"@,
        ],
    ensures
        captures_first(expressions, 0, text::lines(content)[k], name) ==> declares(
            extracted(path, content, go_patterns()),
            path,
            k,
            SymbolKind::Function,
            name,
        ),
        captures_first(expressions, 1, text::lines(content)[k], name) ==> declares(
            extracted(path, content, go_patterns()),
            path,
            k,
            SymbolKind::Method,
            name,
        ),
        captures_first(expressions, 2, text::lines(content)[k], name) ==> declares(
            extracted(path, content, go_patterns()),
            path,
            k,
            SymbolKind::Struct,
            name,
        ),
        captures_first(expressions, 3, text::lines(content)[k], name) ==> declares(
            extracted(path, content, go_patterns()),
            path,
            k,
            SymbolKind::Interface,
            name,
        ),
        captures_first(expressions, 4, text::lines(content)[k], name) ==> declares(
            extracted(path, content, go_patterns()),
            path,
            k,
            SymbolKind::Type,
            name,
        ),
        (forall|j: int|
            0 <= j < expressions.len() ==> pattern_group(
                #[trigger] expressions[j],
                text::lines(content)[k],
            ) is None) ==> !declares(extracted(path, content, go_patterns()), path, k, kind, name),
{
    let line = text::lines(content)[k];
    let ps = go_patterns();
    assert(ps[0].0 == expressions[0]);
    assert(ps[1].0 == expressions[1]);
    assert(ps[2].0 == expressions[2]);
    assert(ps[3].0 == expressions[3]);
    assert(ps[4].0 == expressions[4]);
    if pattern_group(ps[0].0, line) is Some {
        law_every_line_is_searched(path, content, ps, k, 0);
    } else if pattern_group(ps[1].0, line) is Some {
        law_every_line_is_searched(path, content, ps, k, 1);
    } else if pattern_group(ps[2].0, line) is Some {
        law_every_line_is_searched(path, content, ps, k, 2);
    } else if pattern_group(ps[3].0, line) is Some {
        law_every_line_is_searched(path, content, ps, k, 3);
    } else if pattern_group(ps[4].0, line) is Some {
        law_every_line_is_searched(path, content, ps, k, 4);
    } else {
        law_other_lines_declare_nothing(path, content, ps, k, kind, name);
    }
}

/// What a line of a file in Ruby declares, where it is no comment: these expressions are tried in
/// turn, and each tells its own kind of symbol.
pub proof fn law_ruby_lines_declare(
    path: Seq<char>,
    content: Seq<char>,
    k: int,
    expressions: Seq<Seq<char>>,
    kind: SymbolKind,
    name: Seq<char>,
)
    requires
        0 <= k < text::lines(content).len(),
        !comment(text::trim(text::lines(content)[k])),
        expressions == seq![
            r"^\s*def\s+(\w+)"@,
            r"^\s*class\s+(\w+)"@,
            r"^\s*module\s+(\w+)"@,
        ],
    ensures
        captures_first(expressions, 0, text::lines(content)[k], name) ==> declares(
            extracted(path, content, ruby_patterns()),
            path,
            k,
            SymbolKind::Function,
            name,
        ),
        captures_first(expressions, 1, text::lines(content)[k], name) ==> declares(
            extracted(path, content, ruby_patterns()),
            path,
            k,
            SymbolKind::Class,
            name,
        ),
        captures_first(expressions, 2, text::lines(content)[k], name) ==> declares(
            extracted(path, content, ruby_patterns()),
            path,
            k,
            SymbolKind::Module,
            name,
        ),
        (forall|j: int|
            0 <= j < expressions.len() ==> pattern_group(
                #[trigger] expressions[j],
                text::lines(content)[k],
            ) is None) ==> !declares(extracted(path, content, ruby_patterns()), path, k, kind, name),
{
    let line = text::lines(content)[k];
    let ps = ruby_patterns();
    assert(ps[0].0 == expressions[0]);
    assert(ps[1].0 == expressions[1]);
    assert(ps[2].0 == expressions[2]);
    if pattern_group(ps[0].0, line) is Some {
        law_every_line_is_searched(path, content, ps, k, 0);
    } else if pattern_group(ps[1].0, line) is Some {
        law_every_line_is_searched(path, content, ps, k, 1);
    } else if pattern_group(ps[2].0, line) is Some {
        law_every_line_is_searched(path, content, ps, k, 2);
    } else {
        law_other_lines_declare_nothing(path, content, ps, k, kind, name);
    }
}

/// What a line of a file in Java declares, where it is no comment: these expressions are tried in
/// turn, and each tells its own kind of symbol.
pub proof fn law_java_lines_declare(
    path: Seq<char>,
    content: Seq<char>,
    k: int,
    expressions: Seq<Seq<char>>,
    kind: SymbolKind,
    name: Seq<char>,
)
    requires
        0 <= k < text::lines(content).len(),
        !comment(text::trim(text::lines(content)[k])),
        expressions == seq![
            r"^\s*(?:public|private|protected)?\s*(?:static\s+)?(?:final\s+)?class\s+(\w+)"@,
            r"^\s*(?:public|private|protected)?\s*(?:static\s+)?interface\s+(\w+)"@,
            r"^\s*(?:public|private|protected)?\s*(?:static\s+)?enum\s+(\w+)"@,
            r"^\s*(?:public|private|protected)?\s*(?:static\s+)?(?:final\s+)?(?:synchronized\s+)?\w+(?:<[^>]+>)?\s+(\w+)\s*\("@,
        ],
    ensures
        captures_first(expressions, 0, text::lines(content)[k], name) ==> declares(
            extracted(path, content, java_patterns()),
            path,
            k,
            SymbolKind::Class,
            name,
        ),
        captures_first(expressions, 1, text::lines(content)[k], name) ==> declares(
            extracted(path, content, java_patterns()),
            path,
            k,
            SymbolKind::Interface,
            name,
        ),
        captures_first(expressions, 2, text::lines(content)[k], name) ==> declares(
            extracted(path, content, java_patterns()),
            path,
            k,
            SymbolKind::Enum,
            name,
        ),
        captures_first(expressions, 3, text::lines(content)[k], name) ==> declares(
            extracted(path, content, java_patterns()),
            path,
            k,
            SymbolKind::Method,
            name,
        ),
        (forall|j: int|
            0 <= j < expressions.len() ==> pattern_group(
                #[trigger] expressions[j],
                text::lines(content)[k],
            ) is None) ==> !declares(extracted(path, content, java_patterns()), path, k, kind, name),
{
    let line = text::lines(content)[k];
    let ps = java_patterns();
    assert(ps[0].0 == expressions[0]);
    assert(ps[1].0 == expressions[1]);
    assert(ps[2].0 == expressions[2]);
    assert(ps[3].0 == expressions[3]);
    if pattern_group(ps[0].0, line) is Some {
        law_every_line_is_searched(path, content, ps, k, 0);
    } else if pattern_group(ps[1].0, line) is Some {
        law_every_line_is_searched(path, content, ps, k, 1);
    } else if pattern_group(ps[2].0, line) is Some {
        law_every_line_is_searched(path, content, ps, k, 2);
    } else if pattern_group(ps[3].0, line) is Some {
        law_every_line_is_searched(path, content, ps, k, 3);
    } else {
        law_other_lines_declare_nothing(path, content, ps, k, kind, name);
    }
}

/// What a line of a file in C or C++ declares, where it is no comment: these expressions are tried in
/// turn, and each tells its own kind of symbol.
pub proof fn law_c_cpp_lines_declare(
    path: Seq<char>,
    content: Seq<char>,
    k: int,
    expressions: Seq<Seq<char>>,
    kind: SymbolKind,
    name: Seq<char>,
)
    requires
        0 <= k < text::lines(content).len(),
        !comment(text::trim(text::lines(content)[k])),
        expressions == seq![
            r"^\s*(?:static\s+)?(?:inline\s+)?(?:const\s+)?\w+[\s*]+(\w+)\s*\([^;]*$"@,
            r"^\s*(?:typedef\s+)?struct\s+(\w+)"@,
            r"^\s*(?:typedef\s+)?enum\s+(\w+)"@,
            r"^\s*class\s+(\w+)"@,
            r"^\s*namespace\s+(\w+)"@,
        ],
    ensures
        captures_first(expressions, 0, text::lines(content)[k], name) ==> declares(
            extracted(path, content, c_cpp_patterns()),
            path,
            k,
            SymbolKind::Function,
            name,
        ),
        captures_first(expressions, 1, text::lines(content)[k], name) ==> declares(
            extracted(path, content, c_cpp_patterns()),
            path,
            k,
            SymbolKind::Struct,
            name,
        ),
        captures_first(expressions, 2, text::lines(content)[k], name) ==> declares(
            extracted(path, content, c_cpp_patterns()),
            path,
            k,
            SymbolKind::Enum,
            name,
        ),
        captures_first(expressions, 3, text::lines(content)[k], name) ==> declares(
            extracted(path, content, c_cpp_patterns()),
            path,
            k,
            SymbolKind::Class,
            name,
        ),
        captures_first(expressions, 4, text::lines(content)[k], name) ==> declares(
            extracted(path, content, c_cpp_patterns()),
            path,
            k,
            SymbolKind::Module,
            name,
        ),
        (forall|j: int|
            0 <= j < expressions.len() ==> pattern_group(
                #[trigger] expressions[j],
                text::lines(content)[k],
            ) is None) ==> !declares(extracted(path, content, c_cpp_patterns()), path, k, kind, name),
{
    let line = text::lines(content)[k];
    let ps = c_cpp_patterns();
    assert(ps[0].0 == expressions[0]);
    assert(ps[1].0 == expressions[1]);
    assert(ps[2].0 == expressions[2]);
    assert(ps[3].0 == expressions[3]);
    assert(ps[4].0 == expressions[4]);
    if pattern_group(ps[0].0, line) is Some {
        law_every_line_is_searched(path, content, ps, k, 0);
    } else if pattern_group(ps[1].0, line) is Some {
        law_every_line_is_searched(path, content, ps, k, 1);
    } else if pattern_group(ps[2].0, line) is Some {
        law_every_line_is_searched(path, content, ps, k, 2);
    } else if pattern_group(ps[3].0, line) is Some {
        law_every_line_is_searched(path, content, ps, k, 3);
    } else if pattern_group(ps[4].0, line) is Some {
        law_every_line_is_searched(path, content, ps, k, 4);
    } else {
        law_other_lines_declare_nothing(path, content, ps, k, kind, name);
    }
}

/// Which extensions belong to which language.
pub proof fn law_extensions_tell_the_language(ext: Seq<char>)
    ensures
        ext == "rs"@ ==> language_of(ext) == Some("rust"@),
        (ext == "py"@ || ext == "pyi"@)
            ==> language_of(ext) == Some("python"@),
        (ext == "js"@ || ext == "jsx"@ || ext == "mjs"@ || ext == "cjs"@)
            ==> language_of(ext) == Some("javascript"@),
        (ext == "ts"@ || ext == "tsx"@ || ext == "mts"@ || ext == "cts"@)
            ==> language_of(ext) == Some("typescript"@),
        ext == "go"@ ==> language_of(ext) == Some("go"@),
        ext == "rb"@ ==> language_of(ext) == Some("ruby"@),
        ext == "java"@ ==> language_of(ext) == Some("java"@),
        (ext == "c"@ || ext == "h"@)
            ==> language_of(ext) == Some("c"@),
        (ext == "cpp"@ || ext == "cc"@ || ext == "cxx"@
            || ext == "hpp"@ || ext == "hxx"@ || ext == "hh"@)
            ==> language_of(ext) == Some("cpp"@),
        ext == "cs"@ ==> language_of(ext) == Some("csharp"@),
        ext == "swift"@ ==> language_of(ext) == Some("swift"@),
        (ext == "kt"@ || ext == "kts"@)
            ==> language_of(ext) == Some("kotlin"@),
        (ext == "sh"@ || ext == "bash"@ || ext == "zsh"@)
            ==> language_of(ext) == Some("bash"@),
        ext == "lua"@ ==> language_of(ext) == Some("lua"@),
        ext == "zig"@ ==> language_of(ext) == Some("zig"@),
        ext == "toml"@ ==> language_of(ext) == Some("toml"@),
        (ext == "yaml"@ || ext == "yml"@)
            ==> language_of(ext) == Some("yaml"@),
        ext == "json"@ ==> language_of(ext) == Some("json"@),
        (ext == "md"@ || ext == "markdown"@)
            ==> language_of(ext) == Some("markdown"@),
        !seq![
            "rs"@, "py"@, "pyi"@, "js"@, "jsx"@, "mjs"@, "cjs"@, "ts"@, "tsx"@, "mts"@, "cts"@,
            "go"@, "rb"@, "java"@, "c"@, "h"@, "cpp"@, "cc"@, "cxx"@, "hpp"@, "hxx"@, "hh"@,
            "cs"@, "swift"@, "kt"@, "kts"@, "sh"@, "bash"@, "zsh"@, "lua"@, "zig"@, "toml"@,
            "yaml"@, "yml"@, "json"@, "md"@, "markdown"@,
        ].contains(ext) ==> language_of(ext) is None,
{
    reveal_strlit("rs");
    assert("rs"@.len() == 2 && "rs"@[0] == 'r' && "rs"@[1] == 's');
    reveal_strlit("py");
    assert("py"@.len() == 2 && "py"@[0] == 'p' && "py"@[1] == 'y');
    reveal_strlit("pyi");
    assert("pyi"@.len() == 3 && "pyi"@[0] == 'p' && "pyi"@[1] == 'y' && "pyi"@[2] == 'i');
    reveal_strlit("js");
    assert("js"@.len() == 2 && "js"@[0] == 'j' && "js"@[1] == 's');
    reveal_strlit("jsx");
    assert("jsx"@.len() == 3 && "jsx"@[0] == 'j' && "jsx"@[1] == 's' && "jsx"@[2] == 'x');
    reveal_strlit("mjs");
    assert("mjs"@.len() == 3 && "mjs"@[0] == 'm' && "mjs"@[1] == 'j' && "mjs"@[2] == 's');
    reveal_strlit("cjs");
    assert("cjs"@.len() == 3 && "cjs"@[0] == 'c' && "cjs"@[1] == 'j' && "cjs"@[2] == 's');
    reveal_strlit("ts");
    assert("ts"@.len() == 2 && "ts"@[0] == 't' && "ts"@[1] == 's');
    reveal_strlit("tsx");
    assert("tsx"@.len() == 3 && "tsx"@[0] == 't' && "tsx"@[1] == 's' && "tsx"@[2] == 'x');
    reveal_strlit("mts");
    assert("mts"@.len() == 3 && "mts"@[0] == 'm' && "mts"@[1] == 't' && "mts"@[2] == 's');
    reveal_strlit("cts");
    assert("cts"@.len() == 3 && "cts"@[0] == 'c' && "cts"@[1] == 't' && "cts"@[2] == 's');
    reveal_strlit("go");
    assert("go"@.len() == 2 && "go"@[0] == 'g' && "go"@[1] == 'o');
    reveal_strlit("rb");
    assert("rb"@.len() == 2 && "rb"@[0] == 'r' && "rb"@[1] == 'b');
    reveal_strlit("java");
    assert("java"@.len() == 4 && "java"@[0] == 'j' && "java"@[1] == 'a' && "java"@[2] == 'v'
        && "java"@[3] == 'a');
    reveal_strlit("c");
    assert("c"@.len() == 1 && "c"@[0] == 'c');
    reveal_strlit("h");
    assert("h"@.len() == 1 && "h"@[0] == 'h');
    reveal_strlit("cpp");
    assert("cpp"@.len() == 3 && "cpp"@[0] == 'c' && "cpp"@[1] == 'p' && "cpp"@[2] == 'p');
    reveal_strlit("cc");
    assert("cc"@.len() == 2 && "cc"@[0] == 'c' && "cc"@[1] == 'c');
    reveal_strlit("cxx");
    assert("cxx"@.len() == 3 && "cxx"@[0] == 'c' && "cxx"@[1] == 'x' && "cxx"@[2] == 'x');
    reveal_strlit("hpp");
    assert("hpp"@.len() == 3 && "hpp"@[0] == 'h' && "hpp"@[1] == 'p' && "hpp"@[2] == 'p');
    reveal_strlit("hxx");
    assert("hxx"@.len() == 3 && "hxx"@[0] == 'h' && "hxx"@[1] == 'x' && "hxx"@[2] == 'x');
    reveal_strlit("hh");
    assert("hh"@.len() == 2 && "hh"@[0] == 'h' && "hh"@[1] == 'h');
    reveal_strlit("cs");
    assert("cs"@.len() == 2 && "cs"@[0] == 'c' && "cs"@[1] == 's');
    reveal_strlit("swift");
    assert("swift"@.len() == 5 && "swift"@[0] == 's' && "swift"@[1] == 'w' && "swift"@[2] == 'i'
        && "swift"@[3] == 'f' && "swift"@[4] == 't');
    reveal_strlit("kt");
    assert("kt"@.len() == 2 && "kt"@[0] == 'k' && "kt"@[1] == 't');
    reveal_strlit("kts");
    assert("kts"@.len() == 3 && "kts"@[0] == 'k' && "kts"@[1] == 't' && "kts"@[2] == 's');
    reveal_strlit("sh");
    assert("sh"@.len() == 2 && "sh"@[0] == 's' && "sh"@[1] == 'h');
    reveal_strlit("bash");
    assert("bash"@.len() == 4 && "bash"@[0] == 'b' && "bash"@[1] == 'a' && "bash"@[2] == 's'
        && "bash"@[3] == 'h');
    reveal_strlit("zsh");
    assert("zsh"@.len() == 3 && "zsh"@[0] == 'z' && "zsh"@[1] == 's' && "zsh"@[2] == 'h');
    reveal_strlit("lua");
    assert("lua"@.len() == 3 && "lua"@[0] == 'l' && "lua"@[1] == 'u' && "lua"@[2] == 'a');
    reveal_strlit("zig");
    assert("zig"@.len() == 3 && "zig"@[0] == 'z' && "zig"@[1] == 'i' && "zig"@[2] == 'g');
    reveal_strlit("toml");
    assert("toml"@.len() == 4 && "toml"@[0] == 't' && "toml"@[1] == 'o' && "toml"@[2] == 'm'
        && "toml"@[3] == 'l');
    reveal_strlit("yaml");
    assert("yaml"@.len() == 4 && "yaml"@[0] == 'y' && "yaml"@[1] == 'a' && "yaml"@[2] == 'm'
        && "yaml"@[3] == 'l');
    reveal_strlit("yml");
    assert("yml"@.len() == 3 && "yml"@[0] == 'y' && "yml"@[1] == 'm' && "yml"@[2] == 'l');
    reveal_strlit("json");
    assert("json"@.len() == 4 && "json"@[0] == 'j' && "json"@[1] == 's' && "json"@[2] == 'o'
        && "json"@[3] == 'n');
    reveal_strlit("md");
    assert("md"@.len() == 2 && "md"@[0] == 'm' && "md"@[1] == 'd');
    reveal_strlit("markdown");
    assert("markdown"@.len() == 8 && "markdown"@[0] == 'm' && "markdown"@[1] == 'a'
        && "markdown"@[2] == 'r' && "markdown"@[3] == 'k' && "markdown"@[4] == 'd'
        && "markdown"@[5] == 'o' && "markdown"@[6] == 'w' && "markdown"@[7] == 'n');
    let all = seq![
        "rs"@, "py"@, "pyi"@, "js"@, "jsx"@, "mjs"@, "cjs"@, "ts"@, "tsx"@, "mts"@, "cts"@,
        "go"@, "rb"@, "java"@, "c"@, "h"@, "cpp"@, "cc"@, "cxx"@, "hpp"@, "hxx"@, "hh"@, "cs"@,
        "swift"@, "kt"@, "kts"@, "sh"@, "bash"@, "zsh"@, "lua"@, "zig"@, "toml"@, "yaml"@,
        "yml"@, "json"@, "md"@, "markdown"@,
    ];
    if language_of(ext) is Some && !all.contains(ext) {
        assert(all[0] == "rs"@);
        assert(all[1] == "py"@);
        assert(all[2] == "pyi"@);
        assert(all[3] == "js"@);
        assert(all[4] == "jsx"@);
        assert(all[5] == "mjs"@);
        assert(all[6] == "cjs"@);
        assert(all[7] == "ts"@);
        assert(all[8] == "tsx"@);
        assert(all[9] == "mts"@);
        assert(all[10] == "cts"@);
        assert(all[11] == "go"@);
        assert(all[12] == "rb"@);
        assert(all[13] == "java"@);
        assert(all[14] == "c"@);
        assert(all[15] == "h"@);
        assert(all[16] == "cpp"@);
        assert(all[17] == "cc"@);
        assert(all[18] == "cxx"@);
        assert(all[19] == "hpp"@);
        assert(all[20] == "hxx"@);
        assert(all[21] == "hh"@);
        assert(all[22] == "cs"@);
        assert(all[23] == "swift"@);
        assert(all[24] == "kt"@);
        assert(all[25] == "kts"@);
        assert(all[26] == "sh"@);
        assert(all[27] == "bash"@);
        assert(all[28] == "zsh"@);
        assert(all[29] == "lua"@);
        assert(all[30] == "zig"@);
        assert(all[31] == "toml"@);
        assert(all[32] == "yaml"@);
        assert(all[33] == "yml"@);
        assert(all[34] == "json"@);
        assert(all[35] == "md"@);
        assert(all[36] == "markdown"@);
    }
}

/// The language of a file goes by its extension in lower case, and a file without one has none.
pub proof fn law_language_goes_by_extension(path: Seq<char>, platform: Platform)
    ensures
        paths::extension(path, platform) is None ==> language(path, platform) is None,
        paths::extension(path, platform) matches Some(ext) ==> (vstd::utf8::is_ascii_chars(ext)
            ==> language(path, platform) == language_of(text::ascii_lower(ext))) && (
        !vstd::utf8::is_ascii_chars(ext) ==> language(path, platform) == language_of(
            text::unicode_lower(ext),
        )),
{
}

/// A trimmed line is held for a comment exactly where it begins with a number sign, an asterisk,
/// or a slash with a slash or an asterisk behind it.
pub proof fn law_comments_begin_like_comments(trimmed: Seq<char>)
    ensures
        comment(trimmed) <==> trimmed.len() > 0 && (trimmed[0] == '#' || trimmed[0] == '*'
            || trimmed[0] == '/' && trimmed.len() > 1 && (trimmed[1] == '/' || trimmed[1] == '*')),
{
    reveal_strlit("//");
    reveal_strlit("#");
    reveal_strlit("/*");
    reveal_strlit("*");
    if trimmed.len() > 0 {
        let one = trimmed.subrange(0, 1);
        assert(one[0] == trimmed[0]);
        assert(trimmed[0] == '#' ==> one =~= "#"@);
        assert(trimmed[0] == '*' ==> one =~= "*"@);
        if text::starts_with(trimmed, "#"@) {
            assert(one == "#"@);
        }
        if text::starts_with(trimmed, "*"@) {
            assert(one == "*"@);
        }
    }
    if trimmed.len() > 1 {
        let two = trimmed.subrange(0, 2);
        assert(two[0] == trimmed[0] && two[1] == trimmed[1]);
        assert(trimmed[0] == '/' && trimmed[1] == '/' ==> two =~= "//"@);
        assert(trimmed[0] == '/' && trimmed[1] == '*' ==> two =~= "/*"@);
        if text::starts_with(trimmed, "//"@) {
            assert(two == "//"@);
        }
        if text::starts_with(trimmed, "/*"@) {
            assert(two == "/*"@);
        }
    }
}

/// A line of at most 200 bytes is its own signature. Of a longer line, as many characters are kept
/// as fit into 200 bytes, with an ellipsis behind them.
pub proof fn law_long_signatures_are_cut(trimmed: Seq<char>)
    ensures
        vstd::utf8::encode_utf8(trimmed).len() <= 200 ==> signature(trimmed) == trimmed,
        vstd::utf8::encode_utf8(trimmed).len() > 200 ==> exists|k: int|
            0 <= k < trimmed.len() && signature(trimmed) == #[trigger] trimmed.take(k) + "…"@
                && vstd::utf8::encode_utf8(trimmed.take(k)).len() <= 200
                && vstd::utf8::encode_utf8(trimmed.take(k + 1)).len() > 200,
{
    let k = text::fitting(trimmed, 200);
    text::law_fitting_characters_are_the_most(trimmed, 200);
    if k < trimmed.len() {
        text::law_encoding_grows(trimmed, k + 1);
        assert(signature(trimmed) == trimmed.take(k) + "…"@);
    } else {
        assert(trimmed.take(k) =~= trimmed);
    }
}

/// A file is never indexed exactly where its name is something with a dot and one of these
/// extensions behind it, in any case.
pub proof fn law_skipped_names_end_in_an_extension(
    path: Seq<char>,
    platform: Platform,
    listed: Seq<Seq<char>>,
)
    requires
        listed == seq![
            "lock"@, "min.js"@, "min.css"@, "map"@, "wasm"@, "png"@, "jpg"@, "jpeg"@, "gif"@,
            "svg"@, "ico"@, "webp"@, "mp3"@, "mp4"@, "zip"@, "tar"@, "gz"@, "bin"@, "exe"@, "dll"@,
            "so"@, "dylib"@, "o"@, "a"@, "pdf"@, "ttf"@, "woff"@, "woff2"@, "eot"@,
        ],
    ensures
        paths::file_name(path, platform) is None ==> !skipped(path, platform),
        paths::file_name(path, platform) matches Some(name) ==> (skipped(path, platform)
            <==> exists|stem: Seq<char>, i: int|
            0 <= i < listed.len() && stem.len() > 0 && text::same_ignoring_case(
                name,
                #[trigger] (stem + "."@ + #[trigger] listed[i]),
            )),
{
    assert(skip_extensions() == listed);
    reveal_strlit(".");
    if paths::file_name(path, platform) is Some {
        let name = paths::file_name(path, platform)->0;
        if skipped(path, platform) {
            let i = choose|i: int|
                0 <= i < skip_extensions().len() && has_extension(
                    name,
                    #[trigger] skip_extensions()[i],
                );
            let ext = listed[i];
            let stem = name.take(name.len() - ext.len() - 1);
            let tail = name.skip(name.len() - ext.len());
            let told = stem + "."@ + listed[i];
            assert(name =~= stem + "."@ + tail);
            assert(text::ascii_lower(name) =~= text::ascii_lower(stem) + text::ascii_lower("."@)
                + text::ascii_lower(tail));
            assert(text::ascii_lower(told) =~= text::ascii_lower(stem) + text::ascii_lower("."@)
                + text::ascii_lower(ext));
            assert(text::same_ignoring_case(name, told));
        }
        if exists|stem: Seq<char>, i: int|
            0 <= i < listed.len() && stem.len() > 0 && text::same_ignoring_case(
                name,
                #[trigger] (stem + "."@ + #[trigger] listed[i]),
            ) {
            let (stem, i) = choose|stem: Seq<char>, i: int|
                0 <= i < listed.len() && stem.len() > 0 && text::same_ignoring_case(
                    name,
                    #[trigger] (stem + "."@ + #[trigger] listed[i]),
                );
            let ext = listed[i];
            let told = stem + "."@ + ext;
            let n = name.len() as int;
            let low = text::ascii_lower(name);
            assert(low == text::ascii_lower(told));
            assert(low.len() == told.len());
            let dot = n - ext.len() - 1;
            assert(told[dot] == '.');
            assert(low[dot] == text::ascii_lower(told)[dot]);
            assert(text::lower_char(name[dot]) == '.');
            assert(name[dot] == '.');
            assert(text::ascii_lower(name.skip(n - ext.len())) =~= low.skip(n - ext.len()));
            assert(text::ascii_lower(ext) =~= text::ascii_lower(told).skip(n - ext.len()));
            assert(has_extension(name, skip_extensions()[i]));
        }
    }
}

/// A regular file that is not skipped is read, unless it is known to have more than 256 kilobytes.
pub proof fn law_large_files_are_not_read(path: Seq<char>, size: u64, platform: Platform)
    ensures
        !wanted(path, false, Some(size), platform),
        !wanted(path, false, None, platform),
        size > 262_144 ==> !wanted(path, true, Some(size), platform),
        size <= 262_144 ==> wanted(path, true, Some(size), platform) == !skipped(path, platform),
        wanted(path, true, None, platform) == !skipped(path, platform),
{
}

/// The files of a walk are indexed one by one: each that is wanted and could be read as text adds
/// its summary and its symbols behind those before it, and any other adds nothing.
pub proof fn law_each_file_is_indexed_by_itself(
    root: Seq<char>,
    before: Seq<WalkedModel>,
    file: WalkedModel,
    platform: Platform,
)
    ensures
        built(root, Seq::empty(), platform).files.len() == 0,
        built(root, Seq::empty(), platform).symbols.len() == 0,
        built(root, before, platform).root == root,
        (file.content matches Some(content) && wanted(
            file.path,
            file.is_file,
            file.size,
            platform,
        )) ==> ({
            let content = file.content->0;
            let found = extracted(file.path, content, patterns_for(language(file.path, platform)));
            let after = built(root, before.push(file), platform);
            &&& after.symbols == built(root, before, platform).symbols + found
            &&& after.files == built(root, before, platform).files.push(
                SummaryModel {
                    path: file.path,
                    language: language(file.path, platform),
                    line_count: text::lines(content).len() as int,
                    symbol_count: found.len() as int,
                },
            )
        }),
        !(file.content is Some && wanted(file.path, file.is_file, file.size, platform)) ==> built(
            root,
            before.push(file),
            platform,
        ) == built(root, before, platform),
{
    assert(before.push(file).drop_last() =~= before);
    lemma_built_root(root, before, platform);
}

/// The patterns of a language are used for its files. The files of other languages, and those of no
/// known language, declare nothing.
pub proof fn law_languages_have_their_patterns(lang: Seq<char>)
    ensures
        patterns_for(None).len() == 0,
        lang == "rust"@ ==> patterns_for(Some(lang)) == rust_patterns(),
        lang == "python"@ ==> patterns_for(Some(lang)) == python_patterns(),
        lang == "javascript"@ || lang == "typescript"@ ==> patterns_for(Some(lang))
            == js_ts_patterns(),
        lang == "go"@ ==> patterns_for(Some(lang)) == go_patterns(),
        lang == "ruby"@ ==> patterns_for(Some(lang)) == ruby_patterns(),
        lang == "java"@ ==> patterns_for(Some(lang)) == java_patterns(),
        lang == "c"@ || lang == "cpp"@ ==> patterns_for(Some(lang)) == c_cpp_patterns(),
        lang != "rust"@ && lang != "python"@ && lang != "javascript"@ && lang != "typescript"@
            && lang != "go"@ && lang != "ruby"@ && lang != "java"@ && lang != "c"@ && lang
            != "cpp"@ ==> patterns_for(Some(lang)).len() == 0,
{
    reveal_strlit("rust");
    assert("rust"@.len() == 4 && "rust"@[0] == 'r' && "rust"@[1] == 'u' && "rust"@[2] == 's'
        && "rust"@[3] == 't');
    reveal_strlit("python");
    assert("python"@.len() == 6 && "python"@[0] == 'p' && "python"@[1] == 'y'
        && "python"@[2] == 't' && "python"@[3] == 'h' && "python"@[4] == 'o'
        && "python"@[5] == 'n');
    reveal_strlit("javascript");
    assert("javascript"@.len() == 10 && "javascript"@[0] == 'j' && "javascript"@[1] == 'a'
        && "javascript"@[2] == 'v' && "javascript"@[3] == 'a' && "javascript"@[4] == 's'
        && "javascript"@[5] == 'c' && "javascript"@[6] == 'r' && "javascript"@[7] == 'i'
        && "javascript"@[8] == 'p' && "javascript"@[9] == 't');
    reveal_strlit("typescript");
    assert("typescript"@.len() == 10 && "typescript"@[0] == 't' && "typescript"@[1] == 'y'
        && "typescript"@[2] == 'p' && "typescript"@[3] == 'e' && "typescript"@[4] == 's'
        && "typescript"@[5] == 'c' && "typescript"@[6] == 'r' && "typescript"@[7] == 'i'
        && "typescript"@[8] == 'p' && "typescript"@[9] == 't');
    reveal_strlit("go");
    assert("go"@.len() == 2 && "go"@[0] == 'g' && "go"@[1] == 'o');
    reveal_strlit("ruby");
    assert("ruby"@.len() == 4 && "ruby"@[0] == 'r' && "ruby"@[1] == 'u' && "ruby"@[2] == 'b'
        && "ruby"@[3] == 'y');
    reveal_strlit("java");
    assert("java"@.len() == 4 && "java"@[0] == 'j' && "java"@[1] == 'a' && "java"@[2] == 'v'
        && "java"@[3] == 'a');
    reveal_strlit("c");
    assert("c"@.len() == 1 && "c"@[0] == 'c');
    reveal_strlit("cpp");
    assert("cpp"@.len() == 3 && "cpp"@[0] == 'c' && "cpp"@[1] == 'p' && "cpp"@[2] == 'p');
}

/// A search looks at each symbol by itself, and keeps it where its name in lower case holds the
/// query in lower case. What is kept stays in order.
pub proof fn law_search_looks_at_each_symbol(
    before: Seq<SymbolModel>,
    s: SymbolModel,
    query: Seq<char>,
    kind: SymbolKind,
)
    ensures
        named_like(Seq::empty(), query).len() == 0,
        kind_named_like(Seq::empty(), query, kind).len() == 0,
        text::contains(text::lowercase(s.name), text::lowercase(query)) ==> named_like(
            before.push(s),
            query,
        ) == named_like(before, query).push(s),
        !text::contains(text::lowercase(s.name), text::lowercase(query)) ==> named_like(
            before.push(s),
            query,
        ) == named_like(before, query),
        s.kind == kind && text::contains(text::lowercase(s.name), text::lowercase(query))
            ==> kind_named_like(before.push(s), query, kind) == kind_named_like(
            before,
            query,
            kind,
        ).push(s),
        !(s.kind == kind && text::contains(text::lowercase(s.name), text::lowercase(query)))
            ==> kind_named_like(before.push(s), query, kind) == kind_named_like(
            before,
            query,
            kind,
        ),
{
    reveal(Seq::filter);
    assert(before.push(s).drop_last() =~= before);
}

/// The symbols of a file are those that name it, whatever else the index holds, in order.
pub proof fn law_symbols_of_a_file_name_it(
    before: Seq<SymbolModel>,
    s: SymbolModel,
    path: Seq<char>,
    platform: Platform,
)
    ensures
        declared_in(Seq::empty(), path, platform).len() == 0,
        paths::same_path(s.file, path, platform) ==> declared_in(before.push(s), path, platform)
            == declared_in(before, path, platform).push(s),
        !paths::same_path(s.file, path, platform) ==> declared_in(before.push(s), path, platform)
            == declared_in(before, path, platform),
{
    reveal(Seq::filter);
    assert(before.push(s).drop_last() =~= before);
}

/// Results are shown one per line, in order: the kind, the name, the file and the line, and the
/// signature where there is one.
pub proof fn law_results_are_shown_in_turn(
    before: Seq<SymbolModel>,
    s: SymbolModel,
    root: Seq<char>,
    platform: Platform,
)
    ensures
        formatted(Seq::empty(), root, platform) == "No symbols found.\n"@,
        before.len() > 0 ==> formatted(before.push(s), root, platform) == formatted(
            before,
            root,
            platform,
        ) + formatted(seq![s], root, platform),
        s.signature is None ==> formatted(seq![s], root, platform) == kind_name(s.kind) + " "@
            + s.name + " — "@ + shown_path(s.file, root, platform) + ":"@ + decimal::numeral(
            s.line as nat,
        ) + "\n"@,
        s.signature is Some ==> formatted(seq![s], root, platform) == kind_name(s.kind) + " "@
            + s.name + " — "@ + shown_path(s.file, root, platform) + ":"@ + decimal::numeral(
            s.line as nat,
        ) + "  "@ + s.signature->0 + "\n"@,
{
    assert(before.push(s).drop_last() =~= before);
    assert(seq![s].drop_last() =~= Seq::<SymbolModel>::empty());
    assert(seq![s].last() == s);
    let nothing = Seq::<char>::empty();
    assert(shown_all(Seq::empty(), root, platform) =~= nothing);
    assert(nothing + shown(s, root, platform) =~= shown(s, root, platform));
    assert(shown_all(seq![s], root, platform) == shown(s, root, platform));
    let head = kind_name(s.kind) + " "@ + s.name + " — "@ + shown_path(s.file, root, platform)
        + ":"@ + decimal::numeral(s.line as nat);
    assert(head + nothing =~= head);
    if s.signature is Some {
        assert(head + ("  "@ + s.signature->0) =~= head + "  "@ + s.signature->0);
    }
}

/// A file under the root is shown by what follows the root, and any other by its whole path.
pub proof fn law_files_are_shown_below_the_root(
    file: Seq<char>,
    root: Seq<char>,
    platform: Platform,
)
    ensures
        paths::strip_prefix(file, root, platform) is None ==> shown_path(file, root, platform)
            == file,
        paths::strip_prefix(file, root, platform) matches Some(rest) ==> shown_path(
            file,
            root,
            platform,
        ) == rest,
{
}

/// The name under which each kind of symbol is shown.
pub proof fn law_kinds_have_names(kind: SymbolKind)
    ensures
        kind is Function ==> kind_name(kind) == "function"@,
        kind is Method ==> kind_name(kind) == "method"@,
        kind is Struct ==> kind_name(kind) == "struct"@,
        kind is Enum ==> kind_name(kind) == "enum"@,
        kind is Trait ==> kind_name(kind) == "trait"@,
        kind is Interface ==> kind_name(kind) == "interface"@,
        kind is Class ==> kind_name(kind) == "class"@,
        kind is Type ==> kind_name(kind) == "type"@,
        kind is Constant ==> kind_name(kind) == "constant"@,
        kind is Import ==> kind_name(kind) == "import"@,
        kind is Module ==> kind_name(kind) == "module"@,
{
}

/// What an index says is what it holds, each field of each symbol and each summary.
pub proof fn law_index_says_what_it_holds(index: CodebaseIndex, i: int)
    ensures
        index@.root == index.root@,
        index@.symbols.len() == index.symbols@.len(),
        index@.files.len() == index.files@.len(),
        0 <= i < index.symbols@.len() ==> {
            let s = index.symbols@[i];
            &&& index@.symbols[i].kind == s.kind
            &&& index@.symbols[i].name == s.name@
            &&& index@.symbols[i].file == s.file@
            &&& index@.symbols[i].line == s.line
            &&& s.signature is Some ==> index@.symbols[i].signature == Some(s.signature->0@)
            &&& s.signature is None ==> index@.symbols[i].signature is None
        },
        0 <= i < index.files@.len() ==> {
            let f = index.files@[i];
            &&& index@.files[i].path == f.path@
            &&& f.language is Some ==> index@.files[i].language == Some(f.language->0@)
            &&& f.language is None ==> index@.files[i].language is None
            &&& index@.files[i].line_count == f.line_count
            &&& index@.files[i].symbol_count == f.symbol_count
        },
{
}

/// What is said of the files of a walk, and of symbols, is what they hold, one by one.
pub proof fn law_walk_says_what_it_found(walked: Seq<WalkedFile>, found: Seq<&Symbol>, i: int)
    ensures
        walked_views(walked).len() == walked.len(),
        symbol_refs(found).len() == found.len(),
        0 <= i < found.len() ==> symbol_refs(found)[i] == found[i]@,
        0 <= i < walked.len() ==> {
            let f = walked[i];
            &&& walked_views(walked)[i].path == f.path@
            &&& walked_views(walked)[i].is_file == f.is_file
            &&& walked_views(walked)[i].size == f.size
            &&& f.content is Some ==> walked_views(walked)[i].content == Some(f.content->0@)
            &&& f.content is None ==> walked_views(walked)[i].content is None
        },
{
}

/// What patterns, and what they found, say is what they hold, one by one.
pub proof fn law_patterns_say_what_they_hold(
    patterns: Seq<Pattern>,
    groups: Seq<(SymbolKind, Option<String>)>,
    i: int,
)
    ensures
        pattern_views(patterns).len() == patterns.len(),
        group_views(groups).len() == groups.len(),
        0 <= i < patterns.len() ==> pattern_views(patterns)[i] == patterns[i]@,
        0 <= i < groups.len() ==> group_views(groups)[i].0 == groups[i].0,
        0 <= i < groups.len() && groups[i].1 is Some ==> group_views(groups)[i].1 == Some(
            groups[i].1->0@,
        ),
        0 <= i < groups.len() && groups[i].1 is None ==> group_views(groups)[i].1 is None,
{
}

} // verus!
