use p2p_desktop::text_input::{
    boundary_after, boundary_before, marked_selection_to_utf8, mouse_index_for_layout, one_line,
    utf16_offset_from_utf8, utf8_offset_from_utf16, Caret, Pointer, TextField, TextRun,
};

#[test]
fn utf16_offsets_preserve_cjk_and_surrogate_pairs() {
    let content = "甲🙂乙";
    assert_eq!(utf16_offset_from_utf8(content, "甲".len()), 1);
    assert_eq!(utf16_offset_from_utf8(content, "甲🙂".len()), 3);
    assert_eq!(utf8_offset_from_utf16(content, 1), "甲".len());
    assert_eq!(utf8_offset_from_utf16(content, 3), "甲🙂".len());
}

#[test]
fn ime_selection_is_relative_to_new_text_after_multibyte_prefix() {
    let content = "前🙂";
    let new_text = "中🙂文";
    let insertion_offset = content.len();
    let selected = marked_selection_to_utf8(insertion_offset, new_text, &(1..3));
    let combined = format!("{content}{new_text}");

    assert_eq!(&combined[selected], "🙂");
}

#[test]
fn stale_ascii_layout_is_rejected_after_content_becomes_short_emoji() {
    assert_eq!(mouse_index_for_layout("🙂", "old ASCII content", 3), None);
}

#[test]
fn stale_long_layout_is_rejected_after_content_becomes_short_text() {
    assert_eq!(
        mouse_index_for_layout("短", "a much longer old value", 3),
        None
    );
}

#[test]
fn placeholder_layout_is_rejected_when_content_is_empty() {
    assert_eq!(
        mouse_index_for_layout("", "输入或粘贴对端 ID（仅壳层输入）", 3),
        None
    );
}

#[test]
fn current_layout_maps_internal_utf8_offset_to_a_boundary() {
    assert_eq!(mouse_index_for_layout("🙂", "🙂", 3), Some(0));
}

#[test]
fn pointer_past_the_end_meets_the_end() {
    assert_eq!(mouse_index_for_layout("甲乙", "甲乙", 99), Some(6));
    assert_eq!(mouse_index_for_layout("甲乙", "甲乙", 3), Some(3));
    assert_eq!(mouse_index_for_layout("甲乙", "甲乙", 5), Some(3));
}

#[test]
fn offset_inside_a_surrogate_pair_goes_behind_it() {
    assert_eq!(utf8_offset_from_utf16("🙂a", 1), 4);
    assert_eq!(utf16_offset_from_utf8("🙂a", 2), 2);
    assert_eq!(utf8_offset_from_utf16("ab", 9), 2);
}

#[test]
fn backspace_removes_a_whole_cluster() {
    let family = "👨\u{200d}👩\u{200d}👧";
    let mut field = TextField::new("hint");
    field.replace_text_in_range(None, &format!("a{family}"));
    assert_eq!(field.cursor_offset(), 1 + family.len());
    field.backspace();
    assert_eq!(field.content(), "a");
    assert_eq!(field.cursor_offset(), 1);
    field.backspace();
    field.backspace();
    assert_eq!(field.content(), "");
}

#[test]
fn delete_removes_the_cluster_behind_the_cursor() {
    let mut field = TextField::with_content("hint", "e\u{301}x".to_string());
    field.home();
    field.delete();
    assert_eq!(field.content(), "x");
}

#[test]
fn cursor_moves_by_clusters() {
    let mut field = TextField::with_content("hint", "e\u{301}甲".to_string());
    assert_eq!(field.next_boundary(0), 3);
    assert_eq!(field.previous_boundary(3), 0);
    field.right();
    assert_eq!(field.cursor_offset(), 3);
    field.right();
    assert_eq!(field.cursor_offset(), 6);
    field.right();
    assert_eq!(field.cursor_offset(), 6);
    field.left();
    assert_eq!(field.cursor_offset(), 3);
}

#[test]
fn selection_turns_round_when_its_ends_cross() {
    let mut field = TextField::with_content("hint", "abcd".to_string());
    field.move_to(2);
    field.select_left();
    assert_eq!(field.selected_range(), 1..2);
    assert_eq!(field.cursor_offset(), 1);
    field.select_right();
    field.select_right();
    assert_eq!(field.selected_range(), 2..3);
    assert_eq!(field.copy(), Some("c".to_string()));
    assert_eq!(field.caret(), Caret::Selection(2, 3));
}

#[test]
fn cut_and_paste_restore_the_content() {
    let mut field = TextField::with_content("hint", "ab甲cd".to_string());
    field.move_to(2);
    field.select_to(5);
    assert_eq!(field.cut(), Some("甲".to_string()));
    assert_eq!(field.content(), "abcd");
    field.paste("甲");
    assert_eq!(field.content(), "ab甲cd");
    assert_eq!(field.cut(), None);
    field.paste("x\ny");
    assert_eq!(field.content(), "ab甲x ycd");
    assert_eq!(one_line("a\n\nb"), "a  b");
}

#[test]
fn typing_over_everything_replaces_it() {
    let mut field = TextField::with_content("hint", "127.0.0.1".to_string());
    field.select_all();
    field.replace_text_in_range(None, "::1");
    assert_eq!(field.content(), "::1");
    assert_eq!(field.selected_range(), 3..3);
}

#[test]
fn composition_is_marked_underlined_and_replaced() {
    let mut field = TextField::with_content("hint", "前后".to_string());
    field.move_to(3);
    field.replace_and_mark_text_in_range(None, "zhong", Some(5..5));
    assert_eq!(field.content(), "前zhong后");
    assert_eq!(field.marked_text_range(), Some(1..6));
    let mut kept = TextField::with_content("hint", "前后".to_string());
    kept.replace_and_mark_text_in_range(None, "x", None);
    kept.unmark_text();
    assert_eq!(kept.marked_text_range(), None);
    assert_eq!(kept.content().chars().count(), 3);
    assert_eq!(
        field.text_runs(),
        vec![
            TextRun { len: 3, underlined: false },
            TextRun { len: 5, underlined: true },
            TextRun { len: 3, underlined: false },
        ]
    );
    field.replace_text_in_range(None, "中");
    assert_eq!(field.content(), "前中后");
    assert_eq!(field.marked_text_range(), None);
    assert_eq!(field.selected_text_range(), (2..2, false));
    assert_eq!(field.text_for_range(&(1..2)), ("中".to_string(), 1..2));
    field.replace_and_mark_text_in_range(Some(0..1), "", None);
    assert_eq!(field.content(), "中后");
    assert_eq!(field.marked_text_range(), None);
}

#[test]
fn placeholder_is_shown_while_empty() {
    let field = TextField::new("1–65535");
    assert_eq!(field.display_text(), ("1–65535", true));
    assert_eq!(field.text_runs(), vec![TextRun { len: 9, underlined: false }]);
    assert_eq!(field.caret(), Caret::Cursor(0));
    assert_eq!(field.index_for_mouse_position(None), Some(0));
}

#[test]
fn pointer_selects_while_pressed() {
    let mut field = TextField::with_content("hint", "abcd".to_string());
    assert_eq!(field.index_for_mouse_position(None), None);
    assert_eq!(field.index_for_mouse_position(Some(("abcd", Pointer::Above))), Some(0));
    assert_eq!(field.index_for_mouse_position(Some(("abcd", Pointer::Below))), Some(4));
    assert_eq!(field.index_for_mouse_position(Some(("abcd", Pointer::Within(2)))), Some(2));
    assert_eq!(field.index_for_mouse_position(Some(("abc", Pointer::Within(2)))), None);
    field.on_mouse_move(Some(3));
    assert_eq!(field.selected_range(), 0..0);
    field.on_mouse_down(Some(1), false);
    field.on_mouse_move(Some(3));
    assert!(field.is_selecting());
    assert_eq!(field.selected_range(), 1..3);
    field.on_mouse_up();
    field.on_mouse_move(Some(4));
    assert_eq!(field.selected_range(), 1..3);
    field.on_mouse_down(Some(4), true);
    assert_eq!(field.selected_range(), 1..4);
    assert_eq!(field.character_index("abcd", 2), Some(2));
    assert_eq!(field.character_index("old", 2), None);
}

#[test]
fn cluster_starts_bound_the_moves() {
    let starts = vec![0, 3, 6];
    assert_eq!(boundary_before(&starts, 6), 3);
    assert_eq!(boundary_before(&starts, 0), 0);
    assert_eq!(boundary_after(&starts, 3, 8), 6);
    assert_eq!(boundary_after(&starts, 6, 8), 8);
}
