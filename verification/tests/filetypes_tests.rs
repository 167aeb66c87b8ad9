use picture_namer::filetypes::{FiletypeSet, DEFAULT_FILETYPES};

fn has(set: &FiletypeSet, ext: &str) -> bool {
    set.contains(&ext.to_string())
}

#[test]
fn parse_unions_both_case_renderings() {
    let set = FiletypeSet::parse_default(".jpg .PnG");
    assert!(has(&set, ".jpg"));
    assert!(has(&set, ".JPG"));
    assert!(has(&set, ".png"));
    assert!(has(&set, ".PNG"));
    assert!(!has(&set, ".PnG"));
    assert!(!has(&set, ".gif"));
}

#[test]
fn parse_keeps_only_dot_prefixed_tokens() {
    let set = FiletypeSet::parse_default("jpg .png mp4");
    assert!(!has(&set, "jpg"));
    assert!(!has(&set, "JPG"));
    assert!(has(&set, ".png"));
    assert!(!has(&set, "mp4"));
}

#[test]
fn parse_drops_tokens_with_hash() {
    let set = FiletypeSet::parse_default(".jpg .#png .png#");
    assert!(has(&set, ".jpg"));
    assert!(!has(&set, ".#png"));
    assert!(!has(&set, ".png#"));
}

#[test]
fn strict_parse_drops_double_slash_tokens() {
    let strict = FiletypeSet::parse_strict(".jpg .//png");
    assert!(has(&strict, ".jpg"));
    assert!(!has(&strict, ".//png"));
}

#[test]
fn default_parse_keeps_double_slash_tokens() {
    let lax = FiletypeSet::parse_default(".jpg .//png");
    assert!(has(&lax, ".jpg"));
    assert!(has(&lax, ".//png"));
}

#[test]
fn parse_of_empty_text_gives_empty_set() {
    let set = FiletypeSet::parse_strict("");
    assert_eq!(set.len(), 0);
    let set = FiletypeSet::parse_strict("   \t\n  ");
    assert_eq!(set.len(), 0);
}

#[test]
fn membership_is_exact_comparison() {
    let set = FiletypeSet::parse_default(".jpg");
    assert!(!has(&set, "jpg"));
    assert!(!has(&set, ".jpeg"));
    assert!(!has(&set, ".jp"));
}

#[test]
fn default_list_holds_common_media_types() {
    let set = FiletypeSet::parse_default(DEFAULT_FILETYPES);
    assert!(has(&set, ".jpg"));
    assert!(has(&set, ".JPG"));
    assert!(has(&set, ".mov"));
    assert!(has(&set, ".MOV"));
    assert!(has(&set, ".heic"));
    assert!(!has(&set, ".txt"));
    assert!(!has(&set, ".TXT"));
}
