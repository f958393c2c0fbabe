use game_config_edit::i18n::{
    count_for, message_for, shortcut_keys, shortcuts, CloseAction, Count, Language, Message, ShortcutGroup, Text,
};

#[test]
fn locale_mapping_uses_chinese_only_for_zh_locales() {
    assert_eq!(Language::from_locale(Some("zh-CN")), Language::Zh);
    assert_eq!(Language::from_locale(Some("ZH_Hant_TW")), Language::Zh);
    assert_eq!(Language::from_locale(Some("en-US")), Language::En);
    assert_eq!(Language::from_locale(None), Language::En);
}

#[test]
fn key_texts_are_available_in_both_languages() {
    assert_eq!(Language::Zh.text(Text::AppTitle), "游戏配置编辑器");
    assert_eq!(Language::En.text(Text::Shortcuts), "Shortcuts");
    assert_eq!(Language::Zh.text(Text::Comma), "逗号");
    assert_eq!(Language::Zh.text(Text::TypeLabel), "类型");
    assert_eq!(Language::Zh.text(Text::JsonArray2d), "二维 JSON 数组");
    assert_eq!(Language::Zh.text(Text::ProblemUnescapedQuote), "普通字符串包含未转义的双引号");
    assert_eq!(Language::En.text(Text::ShortcutInsertLineBreak), "Insert a line break");
    assert_eq!(Language::En.text(Text::PositiveLineAfterColon), "Enter a positive line number after ':'");
}

#[test]
fn shortcut_labels_are_platform_specific_except_tab_switching() {
    assert_eq!(shortcut_keys("PRIMARY+S", false), "Ctrl+S");
    assert_eq!(shortcut_keys("PRIMARY+S", true), "Command+S");
    assert_eq!(shortcut_keys("Ctrl+Tab", true), "Ctrl+Tab");
    assert_eq!(shortcut_keys("REDO", true), "Command+Shift+Z");
}

#[test]
fn shortcut_catalog_covers_every_group() {
    let catalog = shortcuts();
    for group in [ShortcutGroup::Global, ShortcutGroup::FileSearch, ShortcutGroup::TableNavigation, ShortcutGroup::Editing] {
        assert!(catalog.iter().any(|entry| entry.group == group));
    }
    assert!(catalog.len() >= 26);
}

#[test]
fn dynamic_counts_are_localized() {
    assert_eq!(count_for(Language::Zh, Count::Files, 12), "12 个文件");
    assert_eq!(count_for(Language::En, Count::CsvErrors, 3), "3 CSV errors");
    assert_eq!(message_for(Language::Zh, Message::TablePosition { row: 2, column: 4 }), "第 2 行，第 4 列");
    assert_eq!(
        message_for(Language::En, Message::StructuralMismatch("json")),
        "Does not match the column's inferred json structure"
    );
    assert_eq!(
        message_for(Language::Zh, Message::FocusMode { column: 3, field: Some("name") }),
        "聚焦模式 · 第 3 列 · name"
    );
    assert_eq!(message_for(Language::En, Message::FocusMode { column: 2, field: None }), "Focus mode · Column 2");
    assert!(message_for(Language::Zh, Message::FocusModeTooltip { column: 1, field: Some("id") }).contains("按 T 或 Esc 退出"));
}

#[test]
fn locales_are_trimmed_before_matching() {
    assert_eq!(Language::from_locale(Some("  zh_TW ")), Language::Zh);
    assert_eq!(Language::from_locale(Some("z")), Language::En);
    assert_eq!(Language::from_locale(Some("")), Language::En);
}

#[test]
fn messages_fill_in_every_value() {
    assert_eq!(
        message_for(Language::En, Message::UnsavedFiles { count: 2, action: CloseAction::Workspace }),
        "2 open files have unsaved changes. Save all before switching workspaces?"
    );
    assert_eq!(
        message_for(Language::En, Message::Technical { prefix: Text::SaveError, detail: "disk full" }),
        format!("{}: disk full", Language::En.text(Text::SaveError))
    );
    assert_eq!(message_for(Language::En, Message::MatchPosition { current: 10, total: 205 }), "Match 10 of 205");
}

#[test]
fn shortcut_keys_replace_every_placeholder() {
    assert_eq!(shortcut_keys("PRIMARY+Shift+F / REDO / PRIMARY", false), "Ctrl+Shift+F / Ctrl+Y / Ctrl");
}
