use orco::codebase::{missing_file_note, unresolved_symbol_note, Codebase, File, FileError, Symbol};
use orco::diagnostic::{fallback_report, ReportSeverity};
use std::path::{Path, PathBuf};

#[test]
fn utils_interner() {
    let mut codebase = Codebase::new();
    let foo1 = codebase.interned("foo1");
    let bar1 = codebase.interned("bar1");
    let baz1 = Symbol::try_from_usize(993).unwrap(); // An easteregg BTW.
    assert_eq!(codebase.resolve_symbol(foo1), "foo1");
    assert_eq!(codebase.resolve_symbol(bar1), "bar1");
    assert_eq!(codebase.resolve_symbol(baz1), "<error>");
    assert_eq!(codebase.lookup_symbol(baz1), None);
    assert_eq!(unresolved_symbol_note(baz1), "Symbol: 993");
    assert_eq!(
        fallback_report(
            ReportSeverity::Bug,
            None,
            "Failed to resolve symbol",
            &vec![],
            &vec![unresolved_symbol_note(baz1)],
        ),
        "Original Diagnostic:\nBUG: Failed to resolve symbol\n = Symbol: 993\n"
    );
}

#[test]
fn missing_file_is_named_in_its_note() {
    let mut codebase = Codebase::new();
    codebase.add_file(PathBuf::from("foo.rs"), "foo".to_string());
    assert!(codebase.get_file(42).is_err());
    assert_eq!(missing_file_note(42), "File: 42");
    assert_eq!(missing_file_note(0), "File: 0");
}

#[test]
fn utils_parse_path() {
    let mut codebase = Codebase::new();
    let path = codebase.parse_path("foo::bar::baz");
    assert_eq!(
        path,
        vec![
            codebase.interned("foo"),
            codebase.interned("bar"),
            codebase.interned("baz")
        ]
    );
}

#[test]
fn interner_interner() {
    let mut codebase = Codebase::new();
    let foo1 = codebase.interned("foo1");
    let bar1 = codebase.interned("bar1");
    assert_eq!(codebase.resolve_symbol(foo1), "foo1");
    assert_eq!(codebase.resolve_symbol(bar1), "bar1");
}

#[test]
fn interner_parse_path() {
    let mut codebase = Codebase::new();
    let path = codebase.parse_path("foo::bar::baz");
    assert_eq!(
        path,
        vec![
            codebase.interned("foo"),
            codebase.interned("bar"),
            codebase.interned("baz")
        ]
    );
}

#[test]
fn files() {
    let mut codebase = Codebase::new();
    let foo_id = codebase.add_file(PathBuf::from("foo.rs"), "foo".to_string());
    let bar_id = codebase.add_file(PathBuf::from("bar.rs"), "bar".to_string());
    assert_eq!(codebase.get_file(foo_id).map(|f| f.source()), Ok("foo"));
    assert_eq!(codebase.get_file(bar_id).map(|f| f.source()), Ok("bar"));
    assert_eq!(codebase.source(foo_id).unwrap(), "foo");
    assert_eq!(codebase.source(bar_id).unwrap(), "bar");
    assert_eq!(codebase.name(foo_id).unwrap().0, Path::new("foo.rs"));
    assert_eq!(codebase.name(bar_id).unwrap().0, Path::new("bar.rs"));
}

#[test]
fn non_existing() {
    let mut codebase = Codebase::new();
    codebase.add_file(PathBuf::from("foo.rs"), "foo".to_string());
    codebase.add_file(PathBuf::from("bar.rs"), "bar".to_string());
    let baz_id = 42;
    assert!(codebase.get_file(baz_id).is_err());
    assert!(codebase.source(baz_id).is_err());
    assert!(codebase.name(baz_id).is_err());
}

#[test]
fn interning_twice_gives_the_same_symbol() {
    let mut codebase = Codebase::new();
    let a = codebase.interned("a");
    let b = codebase.interned("b");
    let a2 = codebase.interned("a");
    assert_eq!(a, a2);
    assert_ne!(a, b);
    assert_eq!(a.to_usize(), 0);
    assert_eq!(b.to_usize(), 1);
}

#[test]
fn symbol_index_limits() {
    assert!(Symbol::try_from_usize(u32::MAX as usize).is_none());
    assert_eq!(Symbol::try_from_usize(5).unwrap().to_usize(), 5);
    assert_eq!(Symbol::try_from_usize(0).unwrap().to_usize(), 0);
}

#[test]
fn parse_path_edge_cases() {
    let mut codebase = Codebase::new();
    let single = codebase.parse_path("foo");
    assert_eq!(single, vec![codebase.interned("foo")]);
    let empty = codebase.parse_path("");
    assert_eq!(empty, vec![codebase.interned("")]);
    let colons = codebase.parse_path("a:::b");
    assert_eq!(colons, vec![codebase.interned("a"), codebase.interned(":b")]);
    let trailing = codebase.parse_path("a::");
    assert_eq!(trailing, vec![codebase.interned("a"), codebase.interned("")]);
    let unicode = codebase.parse_path("ä::ö");
    assert_eq!(unicode, vec![codebase.interned("ä"), codebase.interned("ö")]);
}

#[test]
fn parse_path_segments_join_back() {
    let mut codebase = Codebase::new();
    let path = "std::collections::HashMap";
    let symbols = codebase.parse_path(path);
    let joined: Vec<String> = symbols.iter().map(|s| codebase.resolve_symbol(*s)).collect();
    assert_eq!(joined.join("::"), path);
}

#[test]
fn line_starts_and_index() {
    let file = File::new(PathBuf::from("a.txt"), "ab\ncd\n\nxyz".to_string());
    assert_eq!(file.line_start(0), Ok(0));
    assert_eq!(file.line_start(1), Ok(3));
    assert_eq!(file.line_start(2), Ok(6));
    assert_eq!(file.line_start(3), Ok(7));
    assert_eq!(file.line_start(4), Ok(10));
    assert_eq!(file.line_start(5), Err(FileError::LineTooLarge { given: 5, max: 3 }));
    assert_eq!(file.line_index(0), 0);
    assert_eq!(file.line_index(2), 0);
    assert_eq!(file.line_index(3), 1);
    assert_eq!(file.line_index(6), 2);
    assert_eq!(file.line_index(8), 3);
    assert_eq!(file.line_index(100), 3);
}

#[test]
fn line_range_holds_each_byte() {
    let text = "ab\ncd\n\nxyz";
    let file = File::new(PathBuf::from("a.txt"), text.to_string());
    for b in 0..text.len() {
        let k = file.line_index(b);
        let range = file.line_range(k).unwrap();
        assert!(range.start <= b && b < range.end);
    }
    assert_eq!(file.line_range(0).unwrap(), 0..3);
    assert_eq!(file.line_range(3).unwrap(), 7..10);
    assert_eq!(file.line_range(4), Err(FileError::LineTooLarge { given: 5, max: 3 }));
    assert_eq!(file.line_range(usize::MAX), Err(FileError::LineTooLarge { given: usize::MAX, max: 3 }));
}

#[test]
fn codebase_line_lookups() {
    let mut codebase = Codebase::new();
    let id = codebase.add_file(PathBuf::from("m.rs"), "fn main() {\n}\n".to_string());
    assert_eq!(codebase.line_index(id, 12), Ok(1));
    assert_eq!(codebase.line_range(id, 1).unwrap(), 12..14);
    assert_eq!(codebase.line_index(id + 1, 0), Err(FileError::FileMissing));
    assert_eq!(codebase.line_range(id + 1, 0), Err(FileError::FileMissing));
}

#[test]
fn parse_path_interns_each_new_piece_once() {
    let mut codebase = Codebase::new();
    let a = codebase.interned("a");
    let path = codebase.parse_path("b::a::b::c");
    assert_eq!(codebase.interned_count(), 3);
    assert_eq!(path[1], a);
    assert_eq!(path[0], path[2]);
    assert_eq!(codebase.lookup_symbol(path[3]), Some("c".to_string()));
}

#[test]
fn fallback_report_text() {
    let text = fallback_report(
        ReportSeverity::Error,
        Some("E1"),
        "Example error",
        &vec!["Here!".to_string()],
        &vec!["Note...".to_string()],
    );
    assert_eq!(
        text,
        "Original Diagnostic:\nError [E1]: Example error\n   Here! at <Unknown>\n = Note...\n"
    );
    let text = fallback_report(ReportSeverity::Bug, None, "m", &vec![], &vec![]);
    assert_eq!(text, "Original Diagnostic:\nBUG: m\n");
}
