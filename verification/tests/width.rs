use moosereader::width::{center, pad_left, pad_right, truncate, width};

#[test]
fn wide_characters_take_two_columns() {
    assert_eq!(width("地铁 Metro"), 10);
    assert_eq!(width("\x1b[1m地铁\x1b[22m"), 4);
    assert_eq!(truncate("地铁站的生活", 7), "地铁站…");
    assert_eq!(truncate("Metro", 5), "Metro");
    assert_eq!(pad_right("地铁", 6), "地铁  ");
    assert_eq!(pad_left("地铁", 6), "  地铁");
    assert_eq!(center("地铁", 7), " 地铁  ");
}

#[test]
fn truncating_to_nothing_leaves_nothing() {
    assert_eq!(truncate("Metro", 0), "");
    assert_eq!(truncate("Metro", 1), "…");
    assert_eq!(truncate("Metro", 4), "Met…");
    assert_eq!(pad_right("toolong", 3), "toolong");
}

#[test]
fn columns_add_up_without_escapes() {
    assert_eq!(width("…"), 1);
    assert_eq!(width("A"), 1);
    assert_eq!(width("地"), 2);
    let s = "ab地铁c";
    let by_char: usize = s.chars().map(|c| width(&c.to_string())).sum();
    assert_eq!(width(s), by_char);
    // The longest start that leaves a column for "…"
    assert_eq!(truncate("ab地铁c", 5), "ab地…");
    assert!(width(&truncate("ab地铁c", 4)) <= 4);
}
