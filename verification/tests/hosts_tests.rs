use zust_core::hosts::Hosts;

const START: &str = "### dns.malw.link: hosts file";
const END: &str = "### dns.malw.link: end hosts file";

#[test]
fn clean_without_block_trims_only() {
    assert_eq!(Hosts::clean("  127.0.0.1 localhost \n"), "127.0.0.1 localhost");
}

#[test]
fn clean_removes_single_block() {
    let doc = format!("keep1\n{}\n1.2.3.4 a.example\n{}\nkeep2", START, END);
    assert_eq!(Hosts::clean(&doc), "keep1\n\nkeep2");
}

#[test]
fn clean_removes_every_block() {
    let doc = format!("a\n{s}\nx\n{e}\nb\n{s}\ny\n{e}\nc", s = START, e = END);
    assert_eq!(Hosts::clean(&doc), "a\n\nb\n\nc");
}

#[test]
fn clean_leaves_unterminated_block_alone() {
    let doc = format!("a\n{}\nno end marker here", START);
    assert_eq!(Hosts::clean(&doc), doc.trim());
}

#[test]
fn render_puts_managed_block_first() {
    let current = format!("existing\n{}\nold\n{}\nrest", START, END);
    let out = Hosts::render("payload", &current);
    let expected = format!("{}\npayload\n{}\n\nexisting\n\nrest", START, END);
    assert_eq!(out, expected);
}

#[test]
fn render_trims_payload() {
    let out = Hosts::render("  1.2.3.4 a  \n", "");
    let expected = format!("{}\n1.2.3.4 a\n{}\n\n", START, END);
    assert_eq!(out, expected);
}

#[test]
fn render_twice_is_byte_identical() {
    let current = "10.0.0.1 pre.example\n# a comment";
    let once = Hosts::render("1.2.3.4 a.example", current);
    let twice = Hosts::render("1.2.3.4 a.example", &once);
    assert_eq!(once, twice);
}

#[test]
fn clean_after_render_returns_base() {
    let current = "10.0.0.1 pre.example\n# a comment";
    let once = Hosts::render("1.2.3.4 a.example", current);
    assert_eq!(Hosts::clean(&once), current);
}

#[test]
fn contains_block_detects_marker() {
    assert!(Hosts::contains_block(&format!("x\n{}\ny", START)));
    assert!(!Hosts::contains_block("x\ny"));
}

#[test]
fn update_date_found() {
    let doc = "# something\n# Последнее обновление: 01.02.2024\nentry";
    assert_eq!(Hosts::get_update_date(doc), "01.02.2024");
}

#[test]
fn update_date_missing() {
    assert_eq!(Hosts::get_update_date("# nothing here\nentry"), "Неизвестно");
}

#[test]
fn categories_default_bucket() {
    let doc = format!("{}\n1.2.3.4 early.example\n{}", START, END);
    let cats = Hosts::get_categories(&doc);
    assert_eq!(cats.len(), 1);
    assert_eq!(cats[0].name, "Базовая");
    assert_eq!(cats[0].entries, vec!["1.2.3.4 early.example".to_string()]);
}

#[test]
fn categories_group_under_headers() {
    let doc = format!(
        "{}\n1.1.1.1 a\n# Видео\n2.2.2.2 b\n3.3.3.3 c\n# Музыка\n4.4.4.4 d\n{}",
        START, END
    );
    let cats = Hosts::get_categories(&doc);
    assert_eq!(cats.len(), 3);
    assert_eq!(cats[0].name, "Базовая");
    assert_eq!(cats[0].entries, vec!["1.1.1.1 a".to_string()]);
    assert_eq!(cats[1].name, "Видео");
    assert_eq!(cats[1].entries, vec!["2.2.2.2 b".to_string(), "3.3.3.3 c".to_string()]);
    assert_eq!(cats[2].name, "Музыка");
    assert_eq!(cats[2].entries, vec!["4.4.4.4 d".to_string()]);
}

#[test]
fn categories_fold_default_prefix_case_insensitively() {
    let doc = format!("{}\n# БАЗОВЫЙ список\n1.1.1.1 a\n{}", START, END);
    let cats = Hosts::get_categories(&doc);
    assert_eq!(cats.len(), 1);
    assert_eq!(cats[0].name, "Базовая");
}

#[test]
fn categories_merge_repeated_header() {
    let doc = format!(
        "{}\n# Видео\n1.1.1.1 a\n# Другое\n2.2.2.2 b\n# Видео\n3.3.3.3 c\n{}",
        START, END
    );
    let cats = Hosts::get_categories(&doc);
    assert_eq!(cats.len(), 2);
    assert_eq!(cats[0].name, "Видео");
    assert_eq!(cats[0].entries, vec!["1.1.1.1 a".to_string(), "3.3.3.3 c".to_string()]);
    assert_eq!(cats[1].name, "Другое");
    assert_eq!(cats[1].entries, vec!["2.2.2.2 b".to_string()]);
}

#[test]
fn categories_skip_update_date_line_and_blank_comments() {
    let doc = format!(
        "{}\n# Последнее обновление: 01.02.2024\n#\n1.1.1.1 a\n{}",
        START, END
    );
    let cats = Hosts::get_categories(&doc);
    assert_eq!(cats.len(), 1);
    assert_eq!(cats[0].name, "Базовая");
    assert_eq!(cats[0].entries, vec!["1.1.1.1 a".to_string()]);
}

#[test]
fn categories_stop_at_end_marker() {
    let doc = format!("{}\n1.1.1.1 a\n{}\n2.2.2.2 after", START, END);
    let cats = Hosts::get_categories(&doc);
    assert_eq!(cats.len(), 1);
    assert_eq!(cats[0].entries, vec!["1.1.1.1 a".to_string()]);
}

#[test]
fn categories_ignore_lines_outside_block() {
    let doc = format!("0.0.0.0 outside\n{}\n1.1.1.1 a\n{}", START, END);
    let cats = Hosts::get_categories(&doc);
    assert_eq!(cats.len(), 1);
    assert_eq!(cats[0].entries, vec!["1.1.1.1 a".to_string()]);
}

#[test]
fn parse_returns_date_and_categories() {
    let doc = format!(
        "{}\n# Последнее обновление: 05.06.2024\n1.1.1.1 a\n{}",
        START, END
    );
    let data = Hosts::parse(&doc);
    assert_eq!(data.date, "05.06.2024");
    assert_eq!(data.categories.len(), 1);
    assert_eq!(data.categories[0].name, "Базовая");
}

#[test]
fn clean_of_empty_content_is_empty() {
    assert_eq!(Hosts::clean(""), "");
}

#[test]
fn categories_of_empty_content_are_empty() {
    assert!(Hosts::get_categories("").is_empty());
}

#[test]
fn render_over_empty_file_keeps_only_the_block() {
    let out = Hosts::render("1.2.3.4 a", "");
    assert_eq!(out, format!("{}\n1.2.3.4 a\n{}\n\n", START, END));
}
