use sb2md::converter::ToMd;
use sb2md::sbtype::{ScrapboxLine, ScrapboxPage};

fn convert_text(text: &str) -> String {
    ToMd::new_by_text(text.to_string()).convert()
}

#[test]
fn heading_caps_at_level_one() {
    assert_eq!("# Deep\n", convert_text("[****** Deep]"));
}

#[test]
fn heading_text_may_hold_brackets() {
    assert_eq!("#### a [b\n", convert_text("[* a [b]"));
}

#[test]
fn converted_markdown_lines_pass_through() {
    let md1 = convert_text("plain text\n#### Test\n- item");
    assert_eq!("plain text\n#### Test\n- item\n", &md1[..]);
    // Re-converting appends only the newline of the blank last line the
    // first pass's trailing newline created; every earlier line is kept.
    let md2 = convert_text(&md1);
    assert_eq!(format!("{}\n", md1), md2);
}

#[test]
fn empty_text_is_one_empty_line() {
    assert_eq!("\n", convert_text(""));
}

#[test]
fn all_blank_line_is_no_list() {
    assert_eq!("   \n", convert_text("   "));
}

#[test]
fn plain_unwrap_takes_last_bracket() {
    assert_eq!("x a]b y\n", convert_text("x [a]b] y"));
}

#[test]
fn guarded_unwrap_skips_line_end_bracket() {
    assert_eq!(
        "[t](https://e.com/) [tail]\n",
        convert_text("[https://e.com/ t] [tail]")
    );
}

#[test]
fn strong_accepts_many_stars_mid_line() {
    assert_eq!("x **b**\n", convert_text("x [*** b]"));
}

#[test]
fn code_fence_untagged_without_extension() {
    assert_eq!("```\n a\n", convert_text("code:x\n a"));
}

#[test]
fn code_fence_untagged_with_two_dots() {
    assert_eq!("```\n a\n", convert_text("code:a.b.c\n a"));
}

#[test]
fn code_block_close_drops_trigger_line() {
    assert_eq!("```\n a\n```\n\n", convert_text("code:x\n a\nb"));
}

#[test]
fn table_close_drops_trigger_line() {
    assert_eq!("| A |\n|:--|\n\n", convert_text("table:t\n A\nx"));
}

#[test]
fn list_depth_grows_two_spaces_per_blank() {
    assert_eq!("      - deep\n", convert_text("    deep"));
}

#[test]
fn url_first_link_with_empty_title() {
    assert_eq!("[](https://e.com/)\n", convert_text("[https://e.com/ ]"));
}

#[test]
fn image_link_rejects_inner_blank() {
    // A blank inside the bracket keeps it from being an image; the
    // URL-first link rule takes it instead.
    assert_eq!(
        "[x](https://gyazo.com/a)\n",
        convert_text("[https://gyazo.com/a x]")
    );
}

#[test]
fn conversion_accumulates_across_calls() {
    let mut c = ToMd::new_by_text("one".to_string());
    assert_eq!("one\n", c.convert());
    assert_eq!("one\none\n", c.convert());
}

#[test]
fn code_state_survives_between_calls() {
    let page = ScrapboxPage::new(vec![ScrapboxLine::new("code:x".to_string())]);
    let mut c = ToMd::new_by_sb_page(page);
    // The page ends while the code block is open: no closing fence yet.
    assert_eq!("```\n", c.convert());
}
