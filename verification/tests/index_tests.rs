use sitegen::date::Date;
use sitegen::frontmatter::Frontmatter;
use sitegen::index::build_index;
use sitegen::tree::TreeNode;

fn fm(year: u16, month: u8, day: u8) -> Frontmatter {
    Frontmatter {
        title: "T".to_string(),
        description: "D".to_string(),
        tags: None,
        date: Date { year, month, day },
    }
}

fn file(path: &str, date: (u16, u8, u8)) -> TreeNode {
    TreeNode::File { path: path.to_string(), frontmatter: fm(date.0, date.1, date.2) }
}

#[test]
fn directories_first_then_documents_by_date_then_path() {
    let contents = vec![
        file("md/a.md", (2024, 1, 1)),
        TreeNode::Directory { path: "md/sub".to_string(), info: None, contents: vec![] },
        file("md/c.md", (2024, 3, 1)),
        file("md/b.md", (2024, 3, 1)),
    ];
    let entries = build_index(&contents);
    let files: Vec<&str> = entries.iter().map(|e| e.file.as_str()).collect();
    assert_eq!(files, vec!["sub", "b.md", "c.md", "a.md"]);
    assert!(entries[0].is_dir);
    assert!(!entries[1].is_dir);
    assert_eq!(entries[1].date_formatted, "01 March 2024");
    assert_eq!(entries[3].date_formatted, "01 January 2024");
}

#[test]
fn underscored_entries_are_left_out() {
    let contents = vec![
        file("md/_draft", (2024, 1, 1)),
        file("md/kept", (2024, 1, 1)),
        TreeNode::Directory { path: "md/_private".to_string(), info: None, contents: vec![] },
    ];
    let entries = build_index(&contents);
    assert_eq!(entries.len(), 1);
    assert_eq!(entries[0].file, "kept");
}

#[test]
fn directory_without_info_has_empty_date_column() {
    let contents = vec![
        TreeNode::Directory { path: "md/sub".to_string(), info: None, contents: vec![] },
        TreeNode::Directory {
            path: "md/dated".to_string(),
            info: Some(fm(2021, 7, 9)),
            contents: vec![],
        },
    ];
    let entries = build_index(&contents);
    assert_eq!(entries.len(), 2);
    assert_eq!(entries[0].file, "sub");
    assert_eq!(entries[0].date_formatted, "");
    assert_eq!(entries[1].file, "dated");
    assert_eq!(entries[1].date_formatted, "09 July 2021");
    assert!(entries[1].frontmatter.is_some());
}

#[test]
fn date_order_is_most_recent_first() {
    let contents = vec![
        file("md/old", (1999, 12, 31)),
        file("md/new", (2000, 1, 1)),
        file("md/mid", (1999, 12, 31)),
    ];
    let entries = build_index(&contents);
    let files: Vec<&str> = entries.iter().map(|e| e.file.as_str()).collect();
    assert_eq!(files, vec!["new", "mid", "old"]);
}
