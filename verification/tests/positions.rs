use rls_vfs_ipc::actions::{
    adjust_racer_pos_for_vscode, adjust_vscode_pos_for_racer, Position, Provider, Title,
};
use rls_vfs_ipc::help;
use rls_vfs_ipc::types::{char_of_byte_index, src, Cache};

#[test]
fn src_builds_the_triple() {
    let s = src("test_data/hello/src/main.rs", 13, "world");
    assert_eq!(s.file_name, "test_data/hello/src/main.rs".to_string());
    assert_eq!(s.line, 13);
    assert_eq!(s.name, "world".to_string());
}

#[test]
fn cache_makes_ls_positions() {
    let mut cache = Cache::new("/base");
    let lines = vec!["fn main() {".to_string(), "    let world = 1;".to_string()];
    cache.insert_file("main.rs", &lines);
    let pos = cache.mk_ls_position(src("main.rs", 2, "world"));
    assert_eq!(pos, "{\"line\":\"1\",\"character\":\"8\"}".to_string());
    let pos = cache.mk_ls_position(src("main.rs", 1, "main"));
    assert_eq!(pos, "{\"line\":\"0\",\"character\":\"3\"}".to_string());
}

#[test]
fn abs_path_joins_lexically() {
    let cache = Cache::new("/base");
    assert_eq!(cache.abs_path("x/y.rs"), "/base/x/y.rs".to_string());
    assert_eq!(cache.abs_path("/already/abs.rs"), "/already/abs.rs".to_string());
    let slashed = Cache::new("/base/");
    assert_eq!(slashed.abs_path("f.rs"), "/base/f.rs".to_string());
}

#[test]
fn char_of_byte_index_counts_characters() {
    // "aßc": 'a' is one byte, 'ß' two, 'c' one.
    let s = "a\u{df}c";
    assert_eq!(char_of_byte_index(s, 0), 0);
    assert_eq!(char_of_byte_index(s, 1), 1);
    assert_eq!(char_of_byte_index(s, 3), 2);
    assert_eq!(char_of_byte_index("plain", 4), 4);
}

#[test]
fn racer_line_adjustments() {
    let p = Position { filepath: "f.rs".to_string(), line: 4, col: 2 };
    let up = adjust_vscode_pos_for_racer(p);
    assert_eq!(up.line, 5);
    assert_eq!(up.col, 2);
    let down = adjust_racer_pos_for_vscode(up);
    assert_eq!(down.line, 4);
    let zero = Position { filepath: "f.rs".to_string(), line: 0, col: 0 };
    assert_eq!(adjust_racer_pos_for_vscode(zero).line, 0);
}

#[test]
fn provider_and_title_hold_their_fields() {
    assert_ne!(Provider::Compiler, Provider::Racer);
    let t = Title {
        ty: "u32".to_string(),
        docs: "a number".to_string(),
        doc_url: "https://example.invalid/u32".to_string(),
    };
    assert_eq!(t.ty, "u32".to_string());
    assert_eq!(t.docs, "a number".to_string());
}

#[test]
fn help_names_the_modes() {
    let h = help();
    assert!(h.contains("--version"));
    assert!(h.contains("--cli"));
}
