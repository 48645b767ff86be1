use izucat::block::{build_block, InputItem};
use izucat::classify::{classify, Classification};
use izucat::document::{assemble, render_document, PREAMBLE};
use izucat::escape::escape_typst;
use izucat::hex::to_hex_view;
use izucat::order::{name_le, sort_items};
use izucat::source::{command_item, join_spaced, stdin_item};

fn item(name: &str, payload: &[u8]) -> InputItem {
    InputItem { display_name: name.to_string(), payload: payload.to_vec() }
}

#[test]
fn classify_zero_byte_is_binary() {
    assert_eq!(classify(b"hello\0world"), Classification::Binary);
    assert_eq!(classify(&[0u8]), Classification::Binary);
}

#[test]
fn classify_allowed_bytes_is_text() {
    assert_eq!(classify(b"hello world\n"), Classification::Text);
    assert_eq!(classify(&[0x07, 0x08, 0x09, 0x0a, 0x0c, 0x0d, 0x1b, 0x20, 0xff]), Classification::Text);
}

#[test]
fn classify_disallowed_control_byte_is_binary() {
    assert_eq!(classify(&[b'a', 0x01, b'b']), Classification::Binary);
    assert_eq!(classify(&[0x1f]), Classification::Binary);
}

#[test]
fn classify_empty_is_binary() {
    assert_eq!(classify(&[]), Classification::Binary);
}

#[test]
fn classify_looks_only_at_prefix() {
    let mut payload = vec![b'a'; 1024];
    payload.push(0x00);
    payload.push(0x01);
    assert_eq!(classify(&payload), Classification::Text);

    let mut payload2 = vec![b'a'; 1023];
    payload2.push(0x00);
    assert_eq!(classify(&payload2), Classification::Binary);
}

#[test]
fn hex_view_single_byte() {
    let expected = format!(
        "Hex View  00 01 02 03 04 05 06 07 08 09 0A 0B 0C 0D 0E 0F\n00000000  {:<47}  A",
        "41"
    );
    assert_eq!(to_hex_view(&[0x41]), expected);
}

#[test]
fn hex_view_twenty_zero_bytes() {
    let line1_hex = "00 ".repeat(15) + "00";
    let line2_hex = "00 00 00 00";
    let expected = format!(
        "Hex View  00 01 02 03 04 05 06 07 08 09 0A 0B 0C 0D 0E 0F\n00000000  {:<47}  {}\n00000010  {:<47}  {}",
        line1_hex,
        ".".repeat(16),
        line2_hex,
        "....",
    );
    let out = to_hex_view(&[0u8; 20]);
    assert_eq!(out, expected);
    assert_eq!(out.lines().count(), 3);
    let last = out.lines().last().unwrap();
    assert!(last.starts_with("00000010  "));
    assert!(last.ends_with("  ...."));
}

#[test]
fn hex_view_line_count_is_ceiling() {
    for n in [0usize, 1, 15, 16, 17, 32, 33] {
        let data = vec![0xabu8; n];
        let out = to_hex_view(&data);
        let expected_lines = 1 + n.div_ceil(16);
        assert_eq!(out.lines().count(), expected_lines, "payload of {} bytes", n);
    }
}

#[test]
fn hex_view_offsets_increase_by_sixteen() {
    let data = vec![0x20u8; 40];
    let out = to_hex_view(&data);
    let offsets: Vec<&str> = out.lines().skip(1).map(|l| &l[..8]).collect();
    assert_eq!(offsets, vec!["00000000", "00000010", "00000020"]);
}

#[test]
fn hex_view_gutter_marks_printable_range() {
    let expected = format!(
        "Hex View  00 01 02 03 04 05 06 07 08 09 0A 0B 0C 0D 0E 0F\n00000000  {:<47}  ~. .",
        "7E 7F 20 1F"
    );
    assert_eq!(to_hex_view(&[0x7e, 0x7f, 0x20, 0x1f]), expected);
}

#[test]
fn escape_keeps_non_ascii_text() {
    assert_eq!(escape_typst("h\u{e9}llo`"), "h\u{e9}llo`\u{200d}");
}

#[test]
fn escape_inserts_joiner_after_backtick() {
    assert_eq!(escape_typst("a`b"), "a`\u{200d}b");
    assert_eq!(escape_typst("````"), "`\u{200d}`\u{200d}`\u{200d}`\u{200d}");
    assert_eq!(escape_typst(""), "");
    assert_eq!(escape_typst("plain"), "plain");
}

#[test]
fn text_block_body_holds_escaped_content() {
    let it = item("a.txt", b"hi\n");
    let b = build_block(&it, true);
    assert_eq!(b.title, "a.txt");
    assert_eq!(b.body, "a.txt\n----------------\nhi\n");
    assert!(b.numbered);

    let b2 = build_block(&it, false);
    assert!(!b2.numbered);
}

#[test]
fn binary_block_is_hex_and_never_numbered() {
    let it = item("blob.bin", &[0u8; 20]);
    let b = build_block(&it, true);
    assert_eq!(b.title, "blob.bin (binary)");
    assert!(!b.numbered);
    let expected_body =
        format!("blob.bin (binary)\n----------------\n{}", to_hex_view(&[0u8; 20]));
    assert_eq!(b.body, expected_body);
}

#[test]
fn invalid_utf8_block_falls_back_to_hex() {
    let payload = [b'a', 0xff, b'b'];
    assert_eq!(classify(&payload), Classification::Text);
    let it = item("odd.txt", &payload);
    let b = build_block(&it, true);
    assert_eq!(b.title, "odd.txt (non-UTF8)");
    assert!(!b.numbered);
    assert!(b.body.contains("Hex View"));
}

#[test]
fn empty_input_yields_only_preamble() {
    let out = assemble(&Vec::new());
    assert_eq!(out, PREAMBLE);
    assert!(!out.contains("#pagebreak()"));
    assert!(!out.contains("#codeblock"));
}

#[test]
fn single_block_has_no_page_break() {
    let items = vec![item("a.txt", b"hi\n")];
    let out = render_document(&items, true);
    assert_eq!(out.matches("#pagebreak()").count(), 0);
    assert_eq!(out.matches("#codeblock").count(), 1 + PREAMBLE.matches("#codeblock").count());
}

#[test]
fn two_blocks_one_page_break_between() {
    let items = vec![item("a.txt", b"hi\n"), item("b.txt", b"`fenced`")];
    let items = sort_items(items);
    assert_eq!(items[0].display_name, "a.txt");
    assert_eq!(items[1].display_name, "b.txt");
    let out = render_document(&items, true);
    assert_eq!(out.matches("#pagebreak()").count(), 1);

    let a_pos = out.find("a.txt\n----------------\nhi\n").unwrap();
    let b_pos = out.find("b.txt\n----------------\n").unwrap();
    let pb_pos = out.find("#pagebreak()").unwrap();
    assert!(a_pos < pb_pos && pb_pos < b_pos);

    // The backtick payload may not terminate its enclosing fence early: the
    // only backtick runs of fence length are the delimiters themselves.
    assert!(out.contains("`\u{200d}fenced`\u{200d}"));
    assert_eq!(out.matches("````").count(), 4);
}

#[test]
fn page_break_count_grows_with_blocks() {
    let items = vec![
        item("a", b"1"),
        item("b", b"2"),
        item("c", b"3"),
        item("d", b"4"),
    ];
    let out = render_document(&items, false);
    assert_eq!(out.matches("#pagebreak()").count(), 3);
}

#[test]
fn command_block_holds_captured_output() {
    let it = command_item("echo ok", "ok\n", "");
    assert_eq!(it.display_name, "$ echo ok");
    assert_eq!(it.payload, b"ok\n\n");
    let b = build_block(&it, false);
    assert_eq!(b.title, "$ echo ok");
    assert_eq!(b.body, "$ echo ok\n----------------\nok\n\n");
}

#[test]
fn join_spaced_builds_command_line() {
    let args = vec!["make".to_string(), "-C".to_string(), "src".to_string()];
    assert_eq!(join_spaced(&args), "make -C src");
    assert_eq!(join_spaced(&vec!["ls".to_string()]), "ls");
    assert_eq!(join_spaced(&Vec::new()), "");
}

#[test]
fn stdin_block_is_labelled() {
    let it = stdin_item("hello\n");
    assert_eq!(it.display_name, "stdin (piped)");
    assert_eq!(it.payload, b"hello\n");
    let b = build_block(&it, true);
    assert_eq!(b.body, "stdin (piped)\n----------------\nhello\n");
    assert!(b.numbered);
}

#[test]
fn sort_items_orders_by_full_name() {
    let items = vec![
        item("src/b.txt", b"1"),
        item("a.txt", b"2"),
        item("src/a.txt", b"3"),
    ];
    let sorted = sort_items(items);
    let names: Vec<&str> = sorted.iter().map(|i| i.display_name.as_str()).collect();
    assert_eq!(names, vec!["a.txt", "src/a.txt", "src/b.txt"]);
    assert_eq!(sorted[0].payload, b"2");
}

#[test]
fn sort_items_keeps_duplicates() {
    let items = vec![item("x", b"1"), item("x", b"2"), item("a", b"3")];
    let sorted = sort_items(items);
    assert_eq!(sorted.len(), 3);
    assert_eq!(sorted[0].display_name, "a");
    assert_eq!(sorted[1].display_name, "x");
    assert_eq!(sorted[2].display_name, "x");
}

#[test]
fn name_order_is_lexicographic_on_bytes() {
    assert!(name_le("a", "b"));
    assert!(!name_le("b", "a"));
    assert!(name_le("a", "a"));
    assert!(name_le("a", "ab"));
    assert!(!name_le("ab", "a"));
    assert!(name_le("A", "a"));
}

#[test]
fn numbering_flag_reaches_wrapper() {
    let items = vec![item("a.txt", b"hi\n")];
    let numbered = render_document(&items, true);
    let plain = render_document(&items, false);
    assert!(numbered.contains("````, true)"));
    assert!(plain.contains("````, false)"));
}
