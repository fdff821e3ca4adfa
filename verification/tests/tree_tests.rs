use sitegen::date::Date;
use sitegen::date::date_of_timestamp;
use sitegen::date::format_date;
use sitegen::frontmatter::Frontmatter;
use sitegen::tree::DirAggregator;
use sitegen::tree::EntryKind;
use sitegen::tree::TreeNode;
use sitegen::tree::classify_entry;
use sitegen::tree::document_stem;

fn fm(year: u16, month: u8, day: u8) -> Frontmatter {
    Frontmatter {
        title: "T".to_string(),
        description: "D".to_string(),
        tags: None,
        date: Date { year, month, day },
    }
}

#[test]
fn classification_of_entries() {
    assert_eq!(classify_entry("sub", true, false), EntryKind::Subdirectory);
    assert_eq!(classify_entry("index.toml", false, true), EntryKind::DirectoryInfo);
    assert_eq!(classify_entry("post.md", false, true), EntryKind::Document);
    assert_eq!(classify_entry("notes.txt", false, true), EntryKind::Ignored);
    assert_eq!(classify_entry("no-extension", false, true), EntryKind::Ignored);
    assert_eq!(classify_entry(".md", false, true), EntryKind::Ignored);
    assert_eq!(classify_entry("x.md", false, false), EntryKind::Ignored);
}

#[test]
fn hidden_documents_are_still_documents() {
    assert_eq!(classify_entry("_draft.md", false, true), EntryKind::Document);
}

#[test]
fn stems_drop_every_trailing_extension() {
    assert_eq!(document_stem("a.md"), "a");
    assert_eq!(document_stem("a.md.md"), "a");
    assert_eq!(document_stem("a.b.md"), "a.b");
}

#[test]
fn epoch_is_day_one() {
    assert_eq!(date_of_timestamp(0), Date { year: 1970, month: 1, day: 1 });
}

#[test]
fn timestamps_map_to_calendar_dates() {
    assert_eq!(date_of_timestamp(1_709_251_200), Date { year: 2024, month: 3, day: 1 });
    assert_eq!(date_of_timestamp(1_709_164_800), Date { year: 2024, month: 2, day: 29 });
    assert_eq!(date_of_timestamp(951_782_400), Date { year: 2000, month: 2, day: 29 });
    assert_eq!(date_of_timestamp(86_399), Date { year: 1970, month: 1, day: 1 });
    assert_eq!(date_of_timestamp(86_400), Date { year: 1970, month: 1, day: 2 });
}

#[test]
fn dates_format_with_padding_and_month_name() {
    assert_eq!(format_date(&Date { year: 2024, month: 3, day: 1 }), "01 March 2024");
    assert_eq!(format_date(&Date { year: 987, month: 12, day: 31 }), "31 December 0987");
}

#[test]
fn aggregator_backfills_the_info_date() {
    let mut agg = DirAggregator::new("md".to_string());
    agg.set_info(fm(1999, 1, 1));
    agg.record_document(&"post".to_string(), fm(2023, 5, 4), 1_709_251_200);
    agg.record_document(&"older".to_string(), fm(2020, 1, 1), 1_000_000_000);
    let node = agg.finish();
    match node {
        TreeNode::Directory { path, info, contents } => {
            assert_eq!(path, "md");
            assert_eq!(contents.len(), 2);
            match &contents[0] {
                TreeNode::File { path, frontmatter } => {
                    assert_eq!(path, "md/post");
                    assert_eq!(frontmatter.date, Date { year: 2023, month: 5, day: 4 });
                }
                _ => panic!("expected a document node"),
            }
            let info = info.expect("info was set");
            assert_eq!(info.date, Date { year: 2024, month: 3, day: 1 });
            assert_eq!(info.title, "T");
        }
        _ => panic!("expected a directory node"),
    }
}

#[test]
fn aggregator_without_info_stays_without() {
    let agg = DirAggregator::new("md".to_string());
    match agg.finish() {
        TreeNode::Directory { info, contents, .. } => {
            assert!(info.is_none());
            assert!(contents.is_empty());
        }
        _ => panic!("expected a directory node"),
    }
}
