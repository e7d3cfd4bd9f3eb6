#![allow(unused_imports)]
use nerve::discover::{DiscoveredFile, DiscoveryReport};
use nerve::discover::{
    parent_directory, relative_path, safe_tree_name, TreeNameRefusal, MAX_TREE_PATH_DEPTH,
};

#[test]
fn parent_directory_walks_up() {
    assert_eq!(parent_directory("a/b/c.ts"), Some("a/b".to_string()));
    assert_eq!(parent_directory("a"), None);
}

#[test]
fn relative_path_uses_forward_slashes() {
    let root = "/tmp/root";
    let child = "/tmp/root/src/math.ts";
    assert_eq!(relative_path(root, child).unwrap(), "src/math.ts");
}

#[test]
fn every_tree_name_refusal_has_a_distinct_non_empty_form() {
    let mut forms: Vec<&str> = TreeNameRefusal::ALL.iter().map(|r| r.form()).collect();
    assert_eq!(forms.len(), 5);
    forms.sort_unstable();
    forms.dedup();
    assert_eq!(forms.len(), 5, "two refusal forms collide");
    assert!(forms.iter().all(|form| !form.is_empty()));
}

#[test]
fn an_ordinary_tree_entry_name_is_accepted() {
    for name in [
        &b"README.md"[..],
        &b"main.rs"[..],
        &b".hidden"[..],
        &b"...three-dots"[..],
        &b"a b"[..],
        // Non-ASCII UTF-8 is a real file name and must not be refused for being unfamiliar.
        "café.txt".as_bytes(),
    ] {
        assert_eq!(
            safe_tree_name(name, 1).map(str::to_string),
            Ok(String::from_utf8_lossy(name).into_owned()),
            "{name:?} was refused"
        );
    }
}

/// Every refusal, by the byte that causes it. The whole C0 range, not only NUL.
#[test]
fn each_hostile_tree_entry_name_is_refused_by_its_own_form() {
    for byte in 0u8..0x20 {
        let name = [b'a', byte, b'b'];
        assert_eq!(
            safe_tree_name(&name, 1),
            Err(TreeNameRefusal::ControlCharacter),
            "0x{byte:02x} was not refused"
        );
    }
    assert_eq!(
        safe_tree_name(b"..\\..\\etc", 1),
        Err(TreeNameRefusal::Backslash)
    );
    assert_eq!(
        safe_tree_name(b"back\\slash.txt", 1),
        Err(TreeNameRefusal::Backslash)
    );
    assert_eq!(
        safe_tree_name(b"/absolute", 1),
        Err(TreeNameRefusal::LeadingSlash)
    );
    // Invalid UTF-8 is decided, not assumed: these bytes are a real tree entry name that
    // `parse_tree` carries verbatim.
    assert_eq!(
        safe_tree_name(&[0xff, 0xfe, 0x80], 1),
        Err(TreeNameRefusal::NotUtf8)
    );
    assert_eq!(
        safe_tree_name(b"name", MAX_TREE_PATH_DEPTH + 1),
        Err(TreeNameRefusal::TooDeep)
    );
    // Exactly at the bound is inside it, and depth 0 is not a path.
    assert!(safe_tree_name(b"name", MAX_TREE_PATH_DEPTH).is_ok());
    assert_eq!(safe_tree_name(b"name", 0), Err(TreeNameRefusal::TooDeep));
}

/// The names the format reader already refuses are **not** this guard's business, and it must
/// not grow a second opinion about them: a name reaching here has passed `parse_tree`.
#[test]
fn traversal_segments_are_the_format_readers_refusal_not_this_ones() {
    assert!(safe_tree_name(b"..", 1).is_ok());
    assert!(safe_tree_name(b".", 1).is_ok());
}

#[test]
fn directories_are_every_ancestor_of_a_file_once_and_sorted() {
    let files = vec![
        "src/a/b/c.ts".to_string(),
        "src/a/d.ts".to_string(),
        "docs/guide.md".to_string(),
        "README.md".to_string(),
    ];
    assert_eq!(
        nerve::discover::directories_of(&files),
        vec!["docs".to_string(), "src".to_string(), "src/a".to_string(), "src/a/b".to_string()]
    );
    assert_eq!(nerve::discover::directories_of(&[]), Vec::<String>::new());
    assert_eq!(nerve::discover::directories_of(&["top.ts".to_string()]), Vec::<String>::new());
}

#[test]
fn a_finished_walk_is_sorted_and_names_its_directories() {
    let file = |rel: &str| DiscoveredFile {
        rel_path: rel.to_string(),
        abs_path: format!("/repo/{rel}"),
        extension: rel.rsplit('.').next().unwrap().to_string(),
    };
    let report = DiscoveryReport::finish(
        vec![file("src/b.ts"), file("docs/a.md"), file("src/a.ts")],
        vec!["src/.env".to_string(), ".env".to_string()],
        2,
        1,
        3,
    );
    let paths: Vec<&str> = report.files.iter().map(|f| f.rel_path.as_str()).collect();
    assert_eq!(paths, vec!["docs/a.md", "src/a.ts", "src/b.ts"]);
    assert_eq!(report.files[1].abs_path, "/repo/src/a.ts");
    assert_eq!(report.files[0].extension, "md");
    assert_eq!(report.denied_secrets, vec![".env".to_string(), "src/.env".to_string()]);
    assert_eq!(report.directories, vec!["docs".to_string(), "src".to_string()]);
    assert_eq!((report.skipped_unsupported, report.skipped_symlinks, report.refused_paths), (2, 1, 3));
}
