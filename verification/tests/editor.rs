use stella_app::editor::{char_boundary, grapheme_boundary_after, grapheme_boundary_before, Editor};

#[test]
fn editing_never_splits_unicode_clusters_or_selected_ranges() {
    let mut editor = Editor::default();
    editor.replace("A中e\u{301}👩‍🚀");
    editor.erase(false);
    assert_eq!(editor.text(), "A中e\u{301}");
    editor.erase(false);
    assert_eq!(editor.text(), "A中");
    editor.move_horizontal(false, true);
    editor.replace("文");
    assert_eq!(editor.text(), "A文");
    editor.move_to(0, false);
    editor.erase(true);
    assert_eq!(editor.text(), "文");
}

#[test]
fn ime_commit_replaces_selection_once_and_clears_marked_text() {
    let mut editor = Editor::default();
    editor.replace("replace");
    editor.select_all();
    editor.set_preedit("拼音", Some((3, 6)));
    assert_eq!(editor.text(), "replace");
    assert_eq!(editor.display(false).0, "拼音");
    editor.replace("中文");
    assert_eq!(editor.text(), "中文");
    assert!(editor.preedit.is_empty());
    assert_eq!(editor.cursor(), 6);
}

#[test]
fn secure_paint_contains_no_plaintext_even_during_ime() {
    let mut editor = Editor::default();
    editor.replace("秘密");
    editor.set_preedit("password", Some((0, 8)));
    let (paint, cursor, marked) = editor.display(true);
    assert!(paint.chars().all(|ch| ch == '•'));
    assert_eq!(paint, "•".repeat(10));
    assert_eq!(cursor, paint.len());
    assert_eq!(marked, 6..30);
    editor.select_all();
    editor.replace("a\n\r\0b\t");
    assert_eq!(editor.text(), "ab");
}

#[test]
fn pointer_positions_inside_clusters_snap_before_whole_graphemes() {
    for cluster in ["e\u{301}", "👩‍🚀", "🇨🇳", "👍🏽", "\u{600}A"] {
        for inside in 1..cluster.len() {
            let mut editor = Editor::default();
            editor.replace(&format!("L{cluster}R"));
            editor.move_to(1 + inside, false);
            assert_eq!(editor.cursor(), 1, "{cluster:?} byte {inside}");
            assert_eq!(editor.selection(), 1..1);
            editor.erase(true);
            assert_eq!(editor.text(), "LR", "{cluster:?} byte {inside}");
        }
    }
}

#[test]
fn pointer_extended_selection_never_splits_cluster_in_either_direction() {
    let mut editor = Editor::default();
    editor.replace("Le\u{301}R");
    editor.move_to(0, false);
    editor.move_to(3, true);
    assert_eq!(editor.selection(), 0..1);
    editor.replace("Q");
    assert_eq!(editor.text(), "Qe\u{301}R");
    editor.move_to(usize::MAX, false);
    editor.move_to(3, true);
    assert_eq!(editor.selection(), 1..5);
    editor.replace("X");
    assert_eq!(editor.text(), "QX");
}

#[test]
fn insertions_that_merge_graphemes_keep_caret_after_complete_cluster() {
    for (initial, position, insertion, result) in [
        ("👩🚀", "👩".len(), "\u{200d}", "👩‍🚀"),
        ("🇳", 0, "🇨", "🇨🇳"),
        ("A", 0, "\u{600}", "\u{600}A"),
    ] {
        let mut editor = Editor::default();
        editor.replace(initial);
        editor.move_to(position, false);
        editor.replace(insertion);
        assert_eq!(editor.text(), result);
        assert_eq!(editor.cursor(), result.len());
        assert_eq!(editor.selection(), result.len()..result.len());
        editor.erase(false);
        assert_eq!(editor.text(), "");
    }
}

#[test]
fn deleting_between_clusters_recomputes_joined_cluster_boundary() {
    let mut editor = Editor::default();
    editor.replace("🇨X🇳");
    editor.move_to("🇨".len(), false);
    editor.erase(true);
    assert_eq!(editor.text(), "🇨🇳");
    assert_eq!(editor.cursor(), "🇨🇳".len());
    editor.erase(false);
    assert_eq!(editor.text(), "");
}

#[test]
fn ime_cursor_offsets_are_safe_but_do_not_rewrite_ime_character_selection() {
    let mut editor = Editor::default();
    editor.replace("A");
    editor.set_preedit("中e\u{301}", Some((1, usize::MAX)));
    assert_eq!(editor.preedit_cursor, Some((0, 6)));
    assert_eq!(editor.display(false), ("A中e\u{301}".to_owned(), 7, 1..7));
    // Unlike committed editing, an IME may intentionally select part of
    // its current marked grapheme while composing that grapheme.
    editor.set_preedit("e\u{301}", Some((1, 1)));
    assert_eq!(editor.preedit_cursor, Some((1, 1)));
    assert_eq!(editor.text(), "A");
    editor.replace("e\u{301}");
    assert_eq!(editor.text(), "Ae\u{301}");
    assert_eq!(editor.cursor(), 4);
    editor.erase(false);
    assert_eq!(editor.text(), "A");
}

#[test]
fn cluster_boundaries_snap_down_and_up() {
    let text = "Le\u{301}R";
    assert_eq!(grapheme_boundary_before(text, 2), 1);
    assert_eq!(grapheme_boundary_after(text, 2), 4);
    assert_eq!(grapheme_boundary_before(text, 4), 4);
    assert_eq!(grapheme_boundary_after(text, 99), text.len());
    assert_eq!(char_boundary("中", 2), 0);
    assert_eq!(char_boundary("中", 9), 3);
}

#[test]
fn caret_motion_keeps_text_and_ends_composition() {
    let mut editor = Editor::default();
    editor.replace("abc");
    editor.set_preedit("x", None);
    editor.move_horizontal(false, false);
    assert_eq!(editor.text(), "abc");
    assert!(editor.preedit.is_empty());
    assert_eq!(editor.cursor(), 2);
    editor.select_all();
    assert_eq!(editor.selection(), 0..3);
    assert_eq!(editor.text(), "abc");
}
