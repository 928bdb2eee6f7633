use llmwiki::dedup::{DedupService, PageRow};

#[test]
fn test_normalize_name() {
    assert_eq!(DedupService::normalize_name("刘汶林"), "刘汶林");
    assert_eq!(DedupService::normalize_name(" 刘汶林 "), "刘汶林");
    assert_eq!(DedupService::normalize_name("liu wen lin"), "liu wen lin");
    assert_eq!(DedupService::normalize_name("liu-wen-lin"), "liu wen lin");
    assert_eq!(DedupService::normalize_name("LIU_WEN_LIN"), "liu wen lin");
    assert_eq!(DedupService::normalize_name("　刘汶林　"), "刘汶林");
    assert_eq!(DedupService::normalize_name("rPPG"), "rppg");
}

#[test]
fn test_strip_hash_suffix() {
    let base = DedupService::strip_hash_suffix("liu-wen-lin-63f45abc");
    assert_eq!(base, "liu wen lin");
    let base2 = DedupService::strip_hash_suffix("liu-wen-lin");
    assert_eq!(base2, "liu wen lin");
}

#[test]
fn normalize_folds_full_width() {
    assert_eq!(DedupService::normalize_name("ＡＢＣ１２３（x）"), "abc123(x)");
    assert_eq!(DedupService::normalize_name("a  _ b\t-c"), "a b c");
}

#[test]
fn slug_base_keeps_short_hex_tails() {
    assert_eq!(DedupService::slug_base_from_name("page-abc12"), "page abc12");
    assert_eq!(DedupService::slug_base_from_name("Page-ABCDEF"), "page");
}

#[test]
fn edit_distance_values() {
    assert_eq!(DedupService::edit_distance("kitten", "sitting"), 3);
    assert_eq!(DedupService::edit_distance("", "abc"), 3);
    assert_eq!(DedupService::edit_distance("刘汶林", "刘文林"), 1);
    assert_eq!(DedupService::edit_distance("same", "same"), 0);
}

fn page(id: &str, title: &str, canonical: &str, path: &str) -> PageRow {
    PageRow {
        id: id.to_string(),
        title: title.to_string(),
        canonical_name: canonical.to_string(),
        path: path.to_string(),
    }
}

#[test]
fn duplicate_pages_group_by_normalized_title() {
    let pages = vec![
        page("1", "Liu Wen Lin", "", "wiki/a.md"),
        page("2", "liu-wen-lin", "", "wiki/b.md"),
        page("3", "Other", "", "wiki/c.md"),
    ];
    let groups = DedupService::detect_duplicate_pages(&pages);
    assert_eq!(groups.len(), 1);
    assert_eq!(groups[0].page_ids, vec!["1".to_string(), "2".to_string()]);
    assert_eq!(groups[0].page_paths, vec!["wiki/a.md".to_string(), "wiki/b.md".to_string()]);
    assert_eq!(groups[0].match_type, "normalized");
    assert_eq!(groups[0].normalized_name, "liu wen lin");
}

#[test]
fn duplicate_pages_exact_title_and_canonical() {
    let pages = vec![
        page("1", "Topic", "topic", "a"),
        page("2", "Topic", "x", "b"),
        page("3", "Else", "topic", "c"),
        page("4", "Alone", "", "d"),
    ];
    let groups = DedupService::detect_duplicate_pages(&pages);
    assert_eq!(groups.len(), 1);
    assert_eq!(groups[0].match_type, "exact_title");
    assert_eq!(groups[0].page_ids, vec!["1".to_string(), "2".to_string(), "3".to_string()]);
    assert_eq!(groups[0].canonical_name, "topic");
}

#[test]
fn duplicate_pages_are_each_grouped_once() {
    let pages = vec![
        page("1", "A", "k", "a"),
        page("2", "B", "k", "b"),
        page("3", "B", "", "c"),
    ];
    let groups = DedupService::detect_duplicate_pages(&pages);
    assert_eq!(groups.len(), 1);
    assert_eq!(groups[0].page_ids, vec!["1".to_string(), "2".to_string()]);
    assert_eq!(groups[0].match_type, "canonical");
    assert!(DedupService::detect_duplicate_pages(&Vec::new()).is_empty());
}
