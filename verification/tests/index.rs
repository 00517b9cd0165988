use pi_core::index::{
    detect_language, extract_c_cpp, extract_go, extract_java, extract_js_ts, extract_python,
    extract_ruby, extract_rust, extract_symbols, is_skipped, is_wanted, symbol_on_line,
    CodebaseIndex, FileSummary, Pattern, Symbol, SymbolKind, WalkedFile, MAX_FILE_SIZE,
};
use pi_core::paths::Platform;

fn names(symbols: &[Symbol]) -> Vec<&str> {
    symbols.iter().map(|s| s.name.as_str()).collect()
}

fn found(symbols: &[Symbol]) -> Vec<(SymbolKind, &str, usize)> {
    symbols.iter().map(|s| (s.kind, s.name.as_str(), s.line)).collect()
}

#[test]
fn test_rust_symbols() {
    let content = r#"
pub fn hello_world(x: i32) -> bool {
    true
}

struct Foo {
    bar: String,
}

pub enum Color {
    Red,
    Green,
    Blue,
}

trait Drawable {
    fn draw(&self);
}

pub(crate) async fn fetch_data() {}

pub const MAX_SIZE: usize = 100;

mod inner {
    pub fn nested() {}
}
"#;
    let symbols = extract_rust("test.rs", content);

    let names = names(&symbols);
    assert!(names.contains(&"hello_world"));
    assert!(names.contains(&"Foo"));
    assert!(names.contains(&"Color"));
    assert!(names.contains(&"Drawable"));
    assert!(names.contains(&"fetch_data"));
    assert!(names.contains(&"MAX_SIZE"));
    assert!(names.contains(&"inner"));
    assert!(names.contains(&"nested"));

    let hello = symbols.iter().find(|s| s.name == "hello_world").unwrap();
    assert_eq!(hello.kind, SymbolKind::Function);
    assert_eq!(hello.line, 2);
    assert_eq!(hello.file, "test.rs");
    assert_eq!(hello.signature.as_deref(), Some("pub fn hello_world(x: i32) -> bool {"));

    let foo = symbols.iter().find(|s| s.name == "Foo").unwrap();
    assert_eq!(foo.kind, SymbolKind::Struct);
}

#[test]
fn test_python_symbols() {
    let content = r#"
def greet(name):
    print(f"Hello {name}")

class MyClass:
    def method(self):
        pass

async def async_handler():
    pass
"#;
    let symbols = extract_python("test.py", content);

    let names = names(&symbols);
    assert!(names.contains(&"greet"));
    assert!(names.contains(&"MyClass"));
    assert!(names.contains(&"method"));
    assert!(names.contains(&"async_handler"));
}

#[test]
fn test_js_ts_symbols() {
    let content = r#"
export function fetchUser(id) {
    return fetch(`/api/users/${id}`);
}

class UserService {
    constructor() {}
}

export interface UserProps {
    name: string;
}

type UserId = string;

const handleClick = (e) => {
    console.log(e);
};

export enum Status {
    Active,
    Inactive,
}
"#;
    let symbols = extract_js_ts("test.ts", content);

    let names = names(&symbols);
    assert!(names.contains(&"fetchUser"));
    assert!(names.contains(&"UserService"));
    assert!(names.contains(&"UserProps"));
    assert!(names.contains(&"UserId"));
    assert!(names.contains(&"Status"));
    assert!(names.contains(&"handleClick"));
}

#[test]
fn test_go_symbols() {
    let content = r#"
func main() {
    fmt.Println("hello")
}

func (s *Server) Start() error {
    return nil
}

type Config struct {
    Port int
}

type Handler interface {
    Handle() error
}
"#;
    let symbols = extract_go("test.go", content);

    let names = names(&symbols);
    assert!(names.contains(&"main"));
    assert!(names.contains(&"Start"));
    assert!(names.contains(&"Config"));
    assert!(names.contains(&"Handler"));

    let start = symbols.iter().find(|s| s.name == "Start").unwrap();
    assert_eq!(start.kind, SymbolKind::Method);
}

#[test]
fn ruby_java_and_c_symbols() {
    let ruby = extract_ruby("a.rb", "module M\n  class K\n    def go\n");
    assert_eq!(
        found(&ruby),
        vec![
            (SymbolKind::Module, "M", 1),
            (SymbolKind::Class, "K", 2),
            (SymbolKind::Function, "go", 3)
        ]
    );
    let java = extract_java(
        "A.java",
        "public final class A {\n  private static int size(int n) {\n  enum E { X }\ninterface I {",
    );
    assert_eq!(
        found(&java),
        vec![
            (SymbolKind::Class, "A", 1),
            (SymbolKind::Method, "size", 2),
            (SymbolKind::Enum, "E", 3),
            (SymbolKind::Interface, "I", 4)
        ]
    );
    let cpp = extract_c_cpp(
        "a.cpp",
        "static inline int area(int w)\ntypedef struct P {\nenum Q {\nclass R {\nnamespace ns {\nint f(void);",
    );
    assert_eq!(
        found(&cpp),
        vec![
            (SymbolKind::Function, "area", 1),
            (SymbolKind::Struct, "P", 2),
            (SymbolKind::Enum, "Q", 3),
            (SymbolKind::Class, "R", 4),
            (SymbolKind::Module, "ns", 5)
        ]
    );
}

#[test]
fn first_pattern_that_matches_decides() {
    let go = extract_go("a.go", "type A struct {\ntype B interface {\ntype C int\n");
    assert_eq!(
        found(&go),
        vec![
            (SymbolKind::Struct, "A", 1),
            (SymbolKind::Interface, "B", 2),
            (SymbolKind::Type, "C", 3)
        ]
    );
}

#[test]
fn test_search() {
    let index = CodebaseIndex {
        root: "/project".to_string(),
        files: vec![],
        symbols: vec![
            Symbol {
                kind: SymbolKind::Function,
                name: "hello_world".to_string(),
                file: "/project/src/main.rs".to_string(),
                line: 10,
                signature: Some("pub fn hello_world()".to_string()),
            },
            Symbol {
                kind: SymbolKind::Struct,
                name: "HelloConfig".to_string(),
                file: "/project/src/config.rs".to_string(),
                line: 5,
                signature: Some("pub struct HelloConfig".to_string()),
            },
            Symbol {
                kind: SymbolKind::Function,
                name: "goodbye".to_string(),
                file: "/project/src/main.rs".to_string(),
                line: 20,
                signature: Some("fn goodbye()".to_string()),
            },
        ],
    };

    let results = index.search("hello");
    assert_eq!(results.len(), 2);

    let results = index.search_by_kind("hello", SymbolKind::Function);
    assert_eq!(results.len(), 1);
    assert_eq!(results[0].name, "hello_world");

    assert_eq!(index.search("HELLO").len(), 2);
    assert_eq!(index.search("").len(), 3);
    assert_eq!(index.search("absent").len(), 0);
    assert_eq!(index.symbol_count(), 3);
    assert_eq!(index.file_count(), 0);
}

#[test]
fn test_detect_language() {
    assert_eq!(detect_language("foo.rs", Platform::Unix).as_deref(), Some("rust"));
    assert_eq!(detect_language("bar.py", Platform::Unix).as_deref(), Some("python"));
    assert_eq!(detect_language("baz.tsx", Platform::Unix).as_deref(), Some("typescript"));
    assert_eq!(detect_language("qux.go", Platform::Unix).as_deref(), Some("go"));
    assert_eq!(detect_language("no_ext", Platform::Unix).as_deref(), None);
}

#[test]
fn languages_go_by_the_last_extension_in_any_case() {
    assert_eq!(detect_language("/a.py/B.HPP", Platform::Unix).as_deref(), Some("cpp"));
    assert_eq!(detect_language("a.tar.YML", Platform::Unix).as_deref(), Some("yaml"));
    assert_eq!(detect_language(".rs", Platform::Unix), None);
    assert_eq!(detect_language("x.\u{212A}t", Platform::Unix).as_deref(), Some("kotlin"));
    let table = [
        ("pyi", "python"), ("jsx", "javascript"), ("mjs", "javascript"), ("cjs", "javascript"),
        ("ts", "typescript"), ("mts", "typescript"), ("cts", "typescript"), ("rb", "ruby"),
        ("java", "java"), ("c", "c"), ("h", "c"), ("cc", "cpp"), ("cxx", "cpp"), ("hxx", "cpp"),
        ("hh", "cpp"), ("cs", "csharp"), ("swift", "swift"), ("kts", "kotlin"), ("sh", "bash"),
        ("zsh", "bash"), ("lua", "lua"), ("zig", "zig"), ("toml", "toml"), ("yaml", "yaml"),
        ("json", "json"), ("md", "markdown"), ("markdown", "markdown"),
    ];
    for (ext, lang) in table {
        let detected = detect_language(&format!("f.{ext}"), Platform::Unix);
        assert_eq!(detected.as_deref(), Some(lang), "{ext}");
    }
    assert_eq!(detect_language("f.txt", Platform::Unix), None);
}

#[test]
fn test_comments_skipped() {
    let content = r#"
// fn commented_out() {}
/// fn doc_commented() {}
pub fn real_function() {}
"#;
    let symbols = extract_rust("test.rs", content);

    let names = names(&symbols);
    assert!(!names.contains(&"commented_out"));
    assert!(!names.contains(&"doc_commented"));
    assert!(names.contains(&"real_function"));
}

#[test]
fn every_kind_of_comment_is_skipped() {
    let content = "# def a():\n  /* def b(): */\n * def c():\n// def d():\ndef e():";
    assert_eq!(found(&extract_python("a.py", content)), vec![(SymbolKind::Function, "e", 5)]);
}

#[test]
fn long_signatures_are_cut() {
    let exact = format!("fn a({})", "x".repeat(194));
    assert_eq!(exact.len(), 200);
    let symbols = extract_rust("a.rs", &exact);
    assert_eq!(symbols[0].signature.as_deref(), Some(exact.as_str()));
    let longer = format!("  {exact}y");
    let symbols = extract_rust("a.rs", &longer);
    assert_eq!(symbols[0].signature, Some(format!("{exact}\u{2026}")));
    let wide = format!("fn a({}\u{e4}\u{e4}", "x".repeat(194));
    let symbols = extract_rust("a.rs", &wide);
    assert_eq!(symbols[0].signature, Some(format!("fn a({}\u{2026}", "x".repeat(194))));
}

#[test]
fn a_line_declares_what_was_found_in_it() {
    let line: Vec<char> = "  fn a() {}  ".chars().collect();
    let groups = vec![
        (SymbolKind::Struct, None),
        (SymbolKind::Function, Some("a".to_string())),
        (SymbolKind::Type, Some("b".to_string())),
    ];
    let symbol = symbol_on_line("f.rs", 3, &line, &groups).unwrap();
    assert_eq!(symbol.kind, SymbolKind::Function);
    assert_eq!(symbol.name, "a");
    assert_eq!(symbol.file, "f.rs");
    assert_eq!(symbol.line, 3);
    assert_eq!(symbol.signature.as_deref(), Some("fn a() {}"));
    assert!(symbol_on_line("f.rs", 3, &line, &vec![(SymbolKind::Function, None)]).is_none());
    assert!(symbol_on_line("f.rs", 3, &line, &Vec::new()).is_none());
    let comment: Vec<char> = "// fn a() {}".chars().collect();
    assert!(symbol_on_line("f.rs", 3, &comment, &groups).is_none());
}

#[test]
fn patterns_give_their_first_group() {
    let pattern = Pattern::new(r"^let\s+(\w+)", SymbolKind::Constant);
    assert_eq!(pattern.group("let  x = 1").as_deref(), Some("x"));
    assert_eq!(pattern.group(" let x"), None);
    assert_eq!(pattern.kind(), SymbolKind::Constant);
    assert_eq!(Pattern::new("(", SymbolKind::Type).group("("), None);
    assert_eq!(Pattern::new("a(b)?", SymbolKind::Type).group("a"), None);
}

#[test]
fn languages_without_patterns_declare_nothing() {
    assert!(extract_symbols("a.md", "fn a() {}", Some("markdown")).is_empty());
    assert!(extract_symbols("a", "fn a() {}", None).is_empty());
    assert_eq!(names(&extract_symbols("a.c", "int main(void) {", Some("c"))), vec!["main"]);
    assert_eq!(names(&extract_symbols("a.js", "class A {", Some("javascript"))), vec!["A"]);
    assert_eq!(names(&extract_symbols("a.ts", "class A {", Some("typescript"))), vec!["A"]);
}

#[test]
fn binary_and_large_files_are_not_wanted() {
    assert!(is_skipped("/a/Cargo.lock", Platform::Unix));
    assert!(is_skipped("logo.PNG", Platform::Unix));
    assert!(is_skipped("dist/app.min.js", Platform::Unix));
    assert!(is_skipped("dist/app.Min.Css", Platform::Unix));
    assert!(!is_skipped("dist/app.js", Platform::Unix));
    assert!(!is_skipped("min.js", Platform::Unix));
    assert!(!is_skipped(".lock", Platform::Unix));
    assert!(!is_skipped("lock", Platform::Unix));
    assert!(!is_skipped("a.lock/b.rs", Platform::Unix));
    assert!(is_wanted("a.rs", true, Some(MAX_FILE_SIZE), Platform::Unix));
    assert!(!is_wanted("a.rs", true, Some(MAX_FILE_SIZE + 1), Platform::Unix));
    assert!(is_wanted("a.rs", true, None, Platform::Unix));
    assert!(!is_wanted("a.rs", false, Some(1), Platform::Unix));
    assert!(!is_wanted("a.gz", true, Some(1), Platform::Unix));
}

fn walked(path: &str, is_file: bool, size: Option<u64>, content: Option<&str>) -> WalkedFile {
    WalkedFile {
        path: path.to_string(),
        is_file,
        size,
        content: content.map(str::to_string),
    }
}

#[test]
fn build_indexes_what_the_walk_found() {
    let index = CodebaseIndex::build(
        "/p",
        &vec![
            walked("/p", false, None, None),
            walked("/p/a.rs", true, Some(30), Some("fn a() {}\r\n\nstruct B;\n")),
            walked("/p/c.lock", true, Some(3), Some("fn no() {}")),
            walked("/p/big.rs", true, Some(MAX_FILE_SIZE + 1), Some("fn no() {}")),
            walked("/p/bin.rs", true, Some(3), None),
            walked("/p/notes.txt", true, Some(3), Some("fn no() {}")),
            walked("/p/d.py", true, None, Some("def d():")),
        ],
        Platform::Unix,
    );
    assert_eq!(index.root, "/p");
    assert_eq!(index.file_count(), 3);
    assert_eq!(
        found(&index.symbols),
        vec![
            (SymbolKind::Function, "a", 1),
            (SymbolKind::Struct, "B", 3),
            (SymbolKind::Function, "d", 1)
        ]
    );
    let counts: Vec<(usize, usize)> =
        index.files.iter().map(|f| (f.line_count, f.symbol_count)).collect();
    assert_eq!(counts, vec![(3, 2), (1, 0), (1, 1)]);
    let counted: usize = index.files.iter().map(|f| f.symbol_count).sum();
    assert_eq!(counted, index.symbol_count());
    assert_eq!(index.files[1].language, None);
    assert_eq!(index.symbols_in_file("/p//a.rs", Platform::Unix).len(), 2);
    assert_eq!(index.symbols_in_file("/p/./d.py", Platform::Unix).len(), 1);
    assert_eq!(index.symbols_in_file("/p/b.rs", Platform::Unix).len(), 0);
    let summary = index.file_summary("/p/d.py/", Platform::Unix).unwrap();
    assert_eq!(summary.language.as_deref(), Some("python"));
    for file in &index.files {
        let declared = index.symbols_in_file(&file.path, Platform::Unix);
        assert_eq!(declared.len(), file.symbol_count);
        assert!(declared.iter().all(|s| 1 <= s.line && s.line <= file.line_count));
    }
    assert!(index.file_summary("d.py", Platform::Unix).is_none());
}

#[test]
fn file_summary_is_the_first_one() {
    let file = |lines: usize| FileSummary {
        path: "/p/a".to_string(),
        language: None,
        line_count: lines,
        symbol_count: 0,
    };
    let index = CodebaseIndex { root: "/p".to_string(), files: vec![file(1), file(2)], symbols: vec![] };
    assert_eq!(index.file_summary("/p/a", Platform::Unix).unwrap().line_count, 1);
}

#[test]
fn results_are_formatted() {
    let index = CodebaseIndex {
        root: "/p".to_string(),
        files: vec![],
        symbols: vec![
            Symbol {
                kind: SymbolKind::Function,
                name: "a".to_string(),
                file: "/p/src/a.rs".to_string(),
                line: 12,
                signature: Some("fn a()".to_string()),
            },
            Symbol {
                kind: SymbolKind::Module,
                name: "m".to_string(),
                file: "/q/m.rs".to_string(),
                line: 1,
                signature: None,
            },
        ],
    };
    let all = index.search("");
    assert_eq!(
        index.format_results(&all, "/p", Platform::Unix),
        "function a \u{2014} src/a.rs:12  fn a()\nmodule m \u{2014} /q/m.rs:1\n"
    );
    assert_eq!(index.format_results(&[], "/p", Platform::Unix), "No symbols found.\n");
}

#[test]
fn kinds_have_names() {
    let kinds = [
        (SymbolKind::Function, "function"),
        (SymbolKind::Method, "method"),
        (SymbolKind::Struct, "struct"),
        (SymbolKind::Enum, "enum"),
        (SymbolKind::Trait, "trait"),
        (SymbolKind::Interface, "interface"),
        (SymbolKind::Class, "class"),
        (SymbolKind::Type, "type"),
        (SymbolKind::Constant, "constant"),
        (SymbolKind::Import, "import"),
        (SymbolKind::Module, "module"),
    ];
    for (kind, name) in kinds {
        assert_eq!(kind.as_str(), name);
    }
}

#[test]
fn a_line_declares_one_symbol_at_most() {
    let symbols = extract_rust("a.rs", "struct A; fn b() {}\nfn c() {} struct D;\n");
    assert_eq!(
        found(&symbols),
        vec![(SymbolKind::Struct, "A", 1), (SymbolKind::Function, "c", 2)]
    );
}

#[test]
fn windows_paths_are_shown_and_found_by_their_components() {
    let index = CodebaseIndex::build(
        r"C:\p",
        &vec![
            walked(r"C:\p\src\a.rs", true, Some(9), Some("fn a() {}")),
            walked(r"C:\p\x.lock\.rs", true, Some(9), Some("fn no() {}")),
        ],
        Platform::Windows,
    );
    assert_eq!(index.file_count(), 2);
    assert_eq!(index.symbols_in_file("c:/p/src/a.rs", Platform::Windows).len(), 1);
    assert_eq!(index.files[1].language, None);
    let all = index.search("");
    assert_eq!(
        index.format_results(&all, "c:/p", Platform::Windows),
        "function a \u{2014} src\\a.rs:1  fn a() {}\n"
    );
}
