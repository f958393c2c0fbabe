use vstd::prelude::*;

use crate::declared::{trim, trim_chars};
use crate::text::{chars_of, decimal, push_decimal, push_str, string_of};

verus! {

#[derive(Clone, Copy, Debug, PartialEq, Eq, Structural)]
pub enum Language {
    En,
    Zh,
}

/// Whether a locale names Chinese: trimmed and lower-cased (ASCII), it starts with `zh`.
pub open spec fn is_chinese_locale(locale: Seq<char>) -> bool {
    let t = trim(locale);
    t.len() >= 2 && (t[0] == 'z' || t[0] == 'Z') && (t[1] == 'h' || t[1] == 'H')
}

/// The language a locale selects: Chinese for Chinese locales, English for any other or none.
pub open spec fn language_of_locale(locale: Option<Seq<char>>) -> Language {
    match locale {
        Some(l) => if is_chinese_locale(l) { Language::Zh } else { Language::En },
        None => Language::En,
    }
}

/// The user's locale as `sys_locale::get_locale` reports it; it depends on the environment, so
/// nothing is claimed of it.
#[verifier::external_body]
fn system_locale() -> (r: Option<String>) {
    sys_locale::get_locale()
}

impl Language {
    /// The language a locale selects (see `language_of_locale`).
    pub fn from_locale(locale: Option<&str>) -> (r: Language)
        ensures
            r == language_of_locale(match locale {
                Some(l) => Some(l@),
                None => None,
            }),
    {
        match locale {
            Some(l) => {
                let c = chars_of(l);
                let t = trim_chars(&c);
                if t.len() >= 2 && (t[0] == 'z' || t[0] == 'Z') && (t[1] == 'h' || t[1] == 'H') {
                    Language::Zh
                } else {
                    Language::En
                }
            },
            None => Language::En,
        }
    }

    /// The language of the user's locale.
    pub fn detect() -> (r: Language)
        ensures
            exists|locale: Option<Seq<char>>| r == language_of_locale(locale),
    {
        let locale = system_locale();
        let r = match &locale {
            Some(l) => Language::from_locale(Some(l.as_str())),
            None => Language::from_locale(None),
        };
        proof {
            match locale {
                Some(l) => assert(r == language_of_locale(Some(l@))),
                None => assert(r == language_of_locale(None)),
            }
        }
        r
    }

    /// The text of a key in this language (see `translation`).
    pub fn text(self, key: Text) -> (r: &'static str)
        ensures
            r@ == translation(self, key),
    {
        let (zh, en) = key.translations();
        if self == Language::Zh {
            zh
        } else {
            en
        }
    }
}

/// The language of the interface: that of the user's locale, detected at each call.
pub fn language() -> (r: Language)
    ensures
        exists|locale: Option<Seq<char>>| r == language_of_locale(locale),
{
    Language::detect()
}

/// The text of a key in the interface language.
pub fn text(key: Text) -> (r: &'static str)
    ensures
        exists|l: Language| r@ == translation(l, key),
{
    language().text(key)
}

#[derive(Clone, Copy, Debug, PartialEq, Eq, Structural)]
pub enum Text {
    AppTitle,
    OpenFolder,
    OpenCsvFolder,
    Shortcuts,
    Close,
    NoWorkspace,
    SearchConfigurations,
    FileView,
    List,
    Tree,
    Scanning,
    ParseError,
    ResizeSidebar,
    CloseTab,
    ReloadFromDisk,
    KeepEditing,
    RetryReload,
    DelimiterDefaulted,
    Analyzing,
    CommandPalette,
    SearchFilesOrLine,
    SearchFiles,
    GoToLine,
    LineNumber,
    PositiveLineNumber,
    PositiveLineAfterColon,
    SearchCurrentFile,
    Find,
    Previous,
    Next,
    PreviousMatch,
    NextMatch,
    CloseSearch,
    MatchCase,
    SearchWorkspace,
    SearchWorkspaceContents,
    Stop,
    NoMatches,
    Loading,
    EmptyPreviewTitle,
    EmptyPreviewBody,
    LoadingPreview,
    PreviewFailed,
    RevealInFileManager,
    HeaderRows,
    EditorView,
    Delimiter,
    CsvDelimiter,
    Comma,
    Tab,
    Semicolon,
    Pipe,
    Table,
    Text,
    ReadOnlyPreview,
    EditableText,
    EditableTable,
    TypeLabel,
    Save,
    SaveFile,
    CsvTextEditor,
    InvalidHeaderTitle,
    InvalidHeaderBody,
    ResizeColumn,
    JsonCellEditor,
    JsonSyntaxError,
    JsonValueMustRemain,
    JsonObject,
    JsonArray,
    JsonArray2d,
    ProblemReasons,
    CellValue,
    ProblemRealLineBreak,
    ProblemDangerousInvisibleCharacter,
    ProblemUnescapedQuote,
    ProblemInvalidBackslashEscape,
    MixedTypeReason,
    UnsavedFiles,
    SaveAll,
    DontSave,
    ReturnToEditing,
    UnsavedChanges,
    Cancel,
    SaveAnyway,
    SaveProblemsTitle,
    FileChangedTitle,
    OverwriteDiskFile,
    ReloadDiskFile,
    DiscardLocalTitle,
    DiscardAndReload,
    ConvertEncodingTitle,
    ConvertToUtf8,
    ShortcutGlobal,
    ShortcutFileSearch,
    ShortcutTableNavigation,
    ShortcutEditing,
    ShortcutShowList,
    ShortcutToggleSidebar,
    ShortcutNextTab,
    ShortcutPreviousTab,
    ShortcutCloseOverlay,
    ShortcutFilePalette,
    ShortcutGoToLine,
    ShortcutCurrentSearch,
    ShortcutGlobalSearch,
    ShortcutSave,
    ShortcutCloseDocument,
    ShortcutMoveCell,
    ShortcutEditCell,
    ShortcutToggleFocus,
    ShortcutMoveFocus,
    ShortcutNextProblem,
    ShortcutPreviousProblem,
    ShortcutCopy,
    ShortcutPaste,
    ShortcutUndo,
    ShortcutRedo,
    ShortcutCommitDown,
    ShortcutCommitAcross,
    ShortcutInsertLineBreak,
    ShortcutIndentJson,
    ShortcutCancelEdit,
    TabLimit,
    OpenTabMissing,
    PreviewClosed,
    NoWorkspaceOpen,
    OutsideWorkspace,
    EditedCellMissing,
    SelectCellBeforePaste,
    PastedCell,
    ClipboardSame,
    CopiedCell,
    NothingSelectedCopy,
    RedidEdit,
    UndidEdit,
    NothingRedo,
    NothingUndo,
    AnalysisRunning,
    AnalysisRunningSave,
    NoProblems,
    NoSearchableFile,
    LineStartsAtOne,
    TableNoColumns,
    TextChangedParsing,
    DiscardDescription,
    SettingsError,
    ScanError,
    OpenError,
    SaveError,
    ReloadError,
    StartupError,
}

/// The Chinese text of a key.
pub open spec fn text_zh(key: Text) -> Seq<char> {
    match key {
        Text::AppTitle => "游戏配置编辑器"@,
        Text::OpenFolder => "打开文件夹"@,
        Text::OpenCsvFolder => "打开 CSV 配置文件夹"@,
        Text::Shortcuts => "快捷键"@,
        Text::Close => "关闭"@,
        Text::NoWorkspace => "未选择工作区"@,
        Text::SearchConfigurations => "搜索配置"@,
        Text::FileView => "文件视图"@,
        Text::List => "列表"@,
        Text::Tree => "树状"@,
        Text::Scanning => "正在扫描..."@,
        Text::ParseError => "解析错误"@,
        Text::ResizeSidebar => "调整侧栏宽度"@,
        Text::CloseTab => "关闭标签页"@,
        Text::ReloadFromDisk => "从磁盘重新加载"@,
        Text::KeepEditing => "保留本地编辑"@,
        Text::RetryReload => "重试加载"@,
        Text::DelimiterDefaulted => "未识别分隔符，已默认使用逗号"@,
        Text::Analyzing => "正在分析"@,
        Text::CommandPalette => "文件快速打开"@,
        Text::SearchFilesOrLine => "搜索文件或输入行号"@,
        Text::SearchFiles => "搜索文件"@,
        Text::GoToLine => "跳转到行"@,
        Text::LineNumber => "行号"@,
        Text::PositiveLineNumber => "请输入正整数行号"@,
        Text::PositiveLineAfterColon => "请在 ':' 后输入正整数行号"@,
        Text::SearchCurrentFile => "搜索当前文件"@,
        Text::Find => "查找"@,
        Text::Previous => "上一个"@,
        Text::Next => "下一个"@,
        Text::PreviousMatch => "上一个匹配项"@,
        Text::NextMatch => "下一个匹配项"@,
        Text::CloseSearch => "关闭搜索"@,
        Text::MatchCase => "区分大小写"@,
        Text::SearchWorkspace => "搜索工作区"@,
        Text::SearchWorkspaceContents => "搜索工作区内容"@,
        Text::Stop => "停止"@,
        Text::NoMatches => "无匹配项"@,
        Text::Loading => "正在加载"@,
        Text::EmptyPreviewTitle => "未选择文件"@,
        Text::EmptyPreviewBody => "从工作区选择文件以打开只读预览。"@,
        Text::LoadingPreview => "正在加载预览"@,
        Text::PreviewFailed => "预览失败"@,
        Text::RevealInFileManager => "在文件管理器中显示"@,
        Text::HeaderRows => "表头行数"@,
        Text::EditorView => "编辑器视图"@,
        Text::Delimiter => "分隔符"@,
        Text::CsvDelimiter => "CSV 分隔符"@,
        Text::Comma => "逗号"@,
        Text::Tab => "制表符"@,
        Text::Semicolon => "分号"@,
        Text::Pipe => "竖线"@,
        Text::Table => "表格"@,
        Text::Text => "文本"@,
        Text::ReadOnlyPreview => "只读预览"@,
        Text::EditableText => "可编辑文本"@,
        Text::EditableTable => "可编辑表格"@,
        Text::TypeLabel => "类型"@,
        Text::Save => "保存"@,
        Text::SaveFile => "保存文件"@,
        Text::CsvTextEditor => "CSV 文本编辑器"@,
        Text::InvalidHeaderTitle => "表头配置无效"@,
        Text::InvalidHeaderBody => "文件行数少于配置的表头行数。"@,
        Text::ResizeColumn => "调整列宽"@,
        Text::JsonCellEditor => "JSON 单元格编辑器"@,
        Text::JsonSyntaxError => "JSON 语法错误"@,
        Text::JsonValueMustRemain => "JSON 值必须保持为"@,
        Text::JsonObject => "JSON 对象"@,
        Text::JsonArray => "一维 JSON 数组"@,
        Text::JsonArray2d => "二维 JSON 数组"@,
        Text::ProblemReasons => "问题原因"@,
        Text::CellValue => "单元格值"@,
        Text::ProblemRealLineBreak => "包含真实换行控制字符（CR/LF）"@,
        Text::ProblemDangerousInvisibleCharacter => "包含危险的不可见字符"@,
        Text::ProblemUnescapedQuote => "普通字符串包含未转义的双引号"@,
        Text::ProblemInvalidBackslashEscape => "普通字符串包含非法反斜杠转义"@,
        Text::MixedTypeReason => "该列包含不兼容的基础类型，已判定为 mixed"@,
        Text::UnsavedFiles => "未保存的文件"@,
        Text::SaveAll => "全部保存"@,
        Text::DontSave => "不保存"@,
        Text::ReturnToEditing => "返回编辑"@,
        Text::UnsavedChanges => "未保存的更改"@,
        Text::Cancel => "取消"@,
        Text::SaveAnyway => "仍然保存"@,
        Text::SaveProblemsTitle => "保存存在问题的 CSV？"@,
        Text::FileChangedTitle => "文件已在磁盘上更改"@,
        Text::OverwriteDiskFile => "覆盖磁盘文件"@,
        Text::ReloadDiskFile => "重新加载磁盘文件"@,
        Text::DiscardLocalTitle => "放弃本地更改？"@,
        Text::DiscardAndReload => "放弃并重新加载"@,
        Text::ConvertEncodingTitle => "转换 CSV 编码？"@,
        Text::ConvertToUtf8 => "转换为 UTF-8"@,
        Text::ShortcutGlobal => "全局"@,
        Text::ShortcutFileSearch => "文件与搜索"@,
        Text::ShortcutTableNavigation => "表格导航"@,
        Text::ShortcutEditing => "编辑"@,
        Text::ShortcutShowList => "显示快捷键"@,
        Text::ShortcutToggleSidebar => "显示或隐藏侧栏"@,
        Text::ShortcutNextTab => "切换到下一个标签页"@,
        Text::ShortcutPreviousTab => "切换到上一个标签页"@,
        Text::ShortcutCloseOverlay => "关闭面板、取消编辑或退出聚焦"@,
        Text::ShortcutFilePalette => "快速打开文件"@,
        Text::ShortcutGoToLine => "跳转到行"@,
        Text::ShortcutCurrentSearch => "搜索当前文件"@,
        Text::ShortcutGlobalSearch => "搜索工作区"@,
        Text::ShortcutSave => "保存当前文件"@,
        Text::ShortcutCloseDocument => "关闭标签页或预览"@,
        Text::ShortcutMoveCell => "移动单元格选择"@,
        Text::ShortcutEditCell => "编辑选中单元格"@,
        Text::ShortcutToggleFocus => "进入或退出列聚焦"@,
        Text::ShortcutMoveFocus => "切换聚焦列"@,
        Text::ShortcutNextProblem => "下一个问题"@,
        Text::ShortcutPreviousProblem => "上一个问题"@,
        Text::ShortcutCopy => "复制单元格值"@,
        Text::ShortcutPaste => "粘贴单元格值"@,
        Text::ShortcutUndo => "撤销"@,
        Text::ShortcutRedo => "重做"@,
        Text::ShortcutCommitDown => "提交并移动到下一行"@,
        Text::ShortcutCommitAcross => "提交并横向移动"@,
        Text::ShortcutInsertLineBreak => "插入换行"@,
        Text::ShortcutIndentJson => "在 JSON 中缩进"@,
        Text::ShortcutCancelEdit => "取消编辑"@,
        Text::TabLimit => "已达到 20 个标签页的上限。请先关闭一个标签页再打开其他文件。"@,
        Text::OpenTabMissing => "打开的标签页已不存在"@,
        Text::PreviewClosed => "CSV 预览已关闭"@,
        Text::NoWorkspaceOpen => "当前没有打开工作区"@,
        Text::OutsideWorkspace => "CSV 文件不在当前工作区内"@,
        Text::EditedCellMissing => "编辑的单元格已不存在"@,
        Text::SelectCellBeforePaste => "请先选择表格单元格再粘贴"@,
        Text::PastedCell => "已粘贴单元格值"@,
        Text::ClipboardSame => "剪贴板内容与选中单元格相同"@,
        Text::CopiedCell => "已复制单元格值"@,
        Text::NothingSelectedCopy => "没有可复制的选中内容"@,
        Text::RedidEdit => "已重做上一次编辑"@,
        Text::UndidEdit => "已撤销上一次编辑"@,
        Text::NothingRedo => "没有可重做的操作"@,
        Text::NothingUndo => "没有可撤销的操作"@,
        Text::AnalysisRunning => "表格分析仍在进行"@,
        Text::AnalysisRunningSave => "表格分析仍在进行；请在完成后再次保存"@,
        Text::NoProblems => "没有单元格问题或混合类型列"@,
        Text::NoSearchableFile => "当前没有可搜索的文件"@,
        Text::LineStartsAtOne => "行号从 1 开始"@,
        Text::TableNoColumns => "此表格没有列"@,
        Text::TextChangedParsing => "解析过程中内容已更改；请再次切换到表格视图"@,
        Text::DiscardDescription => "重新加载将永久放弃此标签页中所有未保存的编辑。"@,
        Text::SettingsError => "设置错误"@,
        Text::ScanError => "扫描失败"@,
        Text::OpenError => "打开失败"@,
        Text::SaveError => "保存失败"@,
        Text::ReloadError => "重新加载失败"@,
        Text::StartupError => "启动失败"@,
    }
}

/// The English text of a key.
pub open spec fn text_en(key: Text) -> Seq<char> {
    match key {
        Text::AppTitle => "Game Config Editor"@,
        Text::OpenFolder => "Open folder"@,
        Text::OpenCsvFolder => "Open CSV configuration folder"@,
        Text::Shortcuts => "Shortcuts"@,
        Text::Close => "Close"@,
        Text::NoWorkspace => "No workspace selected"@,
        Text::SearchConfigurations => "Search configurations"@,
        Text::FileView => "File view"@,
        Text::List => "List"@,
        Text::Tree => "Tree"@,
        Text::Scanning => "Scanning..."@,
        Text::ParseError => "Parse error"@,
        Text::ResizeSidebar => "Resize sidebar"@,
        Text::CloseTab => "Close tab"@,
        Text::ReloadFromDisk => "Reload from disk"@,
        Text::KeepEditing => "Keep editing"@,
        Text::RetryReload => "Retry reload"@,
        Text::DelimiterDefaulted => "Delimiter defaulted to comma"@,
        Text::Analyzing => "Analyzing"@,
        Text::CommandPalette => "Command palette"@,
        Text::SearchFilesOrLine => "Search files or enter a line"@,
        Text::SearchFiles => "Search files"@,
        Text::GoToLine => "Go to line"@,
        Text::LineNumber => "Line number"@,
        Text::PositiveLineNumber => "Enter a positive line number"@,
        Text::PositiveLineAfterColon => "Enter a positive line number after ':'"@,
        Text::SearchCurrentFile => "Search current file"@,
        Text::Find => "Find"@,
        Text::Previous => "Previous"@,
        Text::Next => "Next"@,
        Text::PreviousMatch => "Previous match"@,
        Text::NextMatch => "Next match"@,
        Text::CloseSearch => "Close search"@,
        Text::MatchCase => "Match case"@,
        Text::SearchWorkspace => "Search workspace"@,
        Text::SearchWorkspaceContents => "Search workspace contents"@,
        Text::Stop => "Stop"@,
        Text::NoMatches => "No matches"@,
        Text::Loading => "Loading"@,
        Text::EmptyPreviewTitle => "No file selected"@,
        Text::EmptyPreviewBody => "Choose a file from the workspace to open a read-only preview."@,
        Text::LoadingPreview => "Loading preview"@,
        Text::PreviewFailed => "Preview failed"@,
        Text::RevealInFileManager => "Reveal in file manager"@,
        Text::HeaderRows => "Header rows"@,
        Text::EditorView => "Editor view"@,
        Text::Delimiter => "Delimiter"@,
        Text::CsvDelimiter => "CSV delimiter"@,
        Text::Comma => "Comma"@,
        Text::Tab => "Tab"@,
        Text::Semicolon => "Semicolon"@,
        Text::Pipe => "Pipe"@,
        Text::Table => "Table"@,
        Text::Text => "Text"@,
        Text::ReadOnlyPreview => "Read-only preview"@,
        Text::EditableText => "Editable text"@,
        Text::EditableTable => "Editable table"@,
        Text::TypeLabel => "Type"@,
        Text::Save => "Save"@,
        Text::SaveFile => "Save file"@,
        Text::CsvTextEditor => "CSV text editor"@,
        Text::InvalidHeaderTitle => "Invalid header configuration"@,
        Text::InvalidHeaderBody => "This file has fewer than the configured header records."@,
        Text::ResizeColumn => "Resize column"@,
        Text::JsonCellEditor => "JSON cell editor"@,
        Text::JsonSyntaxError => "JSON syntax error"@,
        Text::JsonValueMustRemain => "JSON value must remain a"@,
        Text::JsonObject => "JSON object"@,
        Text::JsonArray => "one-dimensional JSON array"@,
        Text::JsonArray2d => "two-dimensional JSON array"@,
        Text::ProblemReasons => "Problem reasons"@,
        Text::CellValue => "Cell value"@,
        Text::ProblemRealLineBreak => "Contains a real line-break control character (CR/LF)"@,
        Text::ProblemDangerousInvisibleCharacter => "Contains a dangerous invisible character"@,
        Text::ProblemUnescapedQuote => "Plain string contains an unescaped double quote"@,
        Text::ProblemInvalidBackslashEscape => "Plain string contains an invalid backslash escape"@,
        Text::MixedTypeReason => "This column contains incompatible primitive types and is classified as mixed"@,
        Text::UnsavedFiles => "Unsaved files"@,
        Text::SaveAll => "Save all"@,
        Text::DontSave => "Don't save"@,
        Text::ReturnToEditing => "Return to editing"@,
        Text::UnsavedChanges => "Unsaved changes"@,
        Text::Cancel => "Cancel"@,
        Text::SaveAnyway => "Save anyway"@,
        Text::SaveProblemsTitle => "Save CSV with problems?"@,
        Text::FileChangedTitle => "File changed on disk"@,
        Text::OverwriteDiskFile => "Overwrite disk file"@,
        Text::ReloadDiskFile => "Reload disk file"@,
        Text::DiscardLocalTitle => "Discard local changes?"@,
        Text::DiscardAndReload => "Discard and reload"@,
        Text::ConvertEncodingTitle => "Convert CSV encoding?"@,
        Text::ConvertToUtf8 => "Convert to UTF-8"@,
        Text::ShortcutGlobal => "Global"@,
        Text::ShortcutFileSearch => "Files and search"@,
        Text::ShortcutTableNavigation => "Table navigation"@,
        Text::ShortcutEditing => "Editing"@,
        Text::ShortcutShowList => "Show shortcuts"@,
        Text::ShortcutToggleSidebar => "Show or hide sidebar"@,
        Text::ShortcutNextTab => "Switch to next tab"@,
        Text::ShortcutPreviousTab => "Switch to previous tab"@,
        Text::ShortcutCloseOverlay => "Close panel, cancel edit, or exit focus"@,
        Text::ShortcutFilePalette => "Quick open file"@,
        Text::ShortcutGoToLine => "Go to line"@,
        Text::ShortcutCurrentSearch => "Search current file"@,
        Text::ShortcutGlobalSearch => "Search workspace"@,
        Text::ShortcutSave => "Save current file"@,
        Text::ShortcutCloseDocument => "Close tab or preview"@,
        Text::ShortcutMoveCell => "Move cell selection"@,
        Text::ShortcutEditCell => "Edit selected cell"@,
        Text::ShortcutToggleFocus => "Enter or exit column focus"@,
        Text::ShortcutMoveFocus => "Move focused column"@,
        Text::ShortcutNextProblem => "Next problem"@,
        Text::ShortcutPreviousProblem => "Previous problem"@,
        Text::ShortcutCopy => "Copy cell value"@,
        Text::ShortcutPaste => "Paste cell value"@,
        Text::ShortcutUndo => "Undo"@,
        Text::ShortcutRedo => "Redo"@,
        Text::ShortcutCommitDown => "Commit and move down"@,
        Text::ShortcutCommitAcross => "Commit and move across"@,
        Text::ShortcutInsertLineBreak => "Insert a line break"@,
        Text::ShortcutIndentJson => "Indent JSON"@,
        Text::ShortcutCancelEdit => "Cancel edit"@,
        Text::TabLimit => "The 20-tab limit has been reached. Close a tab before opening another file."@,
        Text::OpenTabMissing => "Open tab no longer exists"@,
        Text::PreviewClosed => "CSV preview is no longer open"@,
        Text::NoWorkspaceOpen => "No workspace is open"@,
        Text::OutsideWorkspace => "CSV file is outside the current workspace"@,
        Text::EditedCellMissing => "Edited cell no longer exists"@,
        Text::SelectCellBeforePaste => "Select a table cell before pasting"@,
        Text::PastedCell => "Pasted cell value"@,
        Text::ClipboardSame => "Clipboard value matches the selected cell"@,
        Text::CopiedCell => "Copied cell value"@,
        Text::NothingSelectedCopy => "Nothing selected to copy"@,
        Text::RedidEdit => "Redid the last edit"@,
        Text::UndidEdit => "Undid the last edit"@,
        Text::NothingRedo => "Nothing to redo"@,
        Text::NothingUndo => "Nothing to undo"@,
        Text::AnalysisRunning => "Table analysis is still running"@,
        Text::AnalysisRunningSave => "Table analysis is still running; save again when it finishes"@,
        Text::NoProblems => "No cell problems or mixed columns"@,
        Text::NoSearchableFile => "No searchable file is open"@,
        Text::LineStartsAtOne => "Line numbers start at 1"@,
        Text::TableNoColumns => "This table has no columns"@,
        Text::TextChangedParsing => "Text changed while parsing; switch to Table again"@,
        Text::DiscardDescription => "Reloading will permanently discard all unsaved edits in this tab."@,
        Text::SettingsError => "Settings error"@,
        Text::ScanError => "Scan failed"@,
        Text::OpenError => "Open failed"@,
        Text::SaveError => "Save failed"@,
        Text::ReloadError => "Reload failed"@,
        Text::StartupError => "Startup failed"@,
    }
}

/// The text of a key in a language.
pub open spec fn translation(language: Language, key: Text) -> Seq<char> {
    match language {
        Language::Zh => text_zh(key),
        Language::En => text_en(key),
    }
}

impl Text {
    /// The (Chinese, English) texts of the key.
    fn translations(self) -> (r: (&'static str, &'static str))
        ensures
            r.0@ == text_zh(self),
            r.1@ == text_en(self),
    {
        match self {
            Text::AppTitle => ("游戏配置编辑器", "Game Config Editor"),
            Text::OpenFolder => ("打开文件夹", "Open folder"),
            Text::OpenCsvFolder => ("打开 CSV 配置文件夹", "Open CSV configuration folder"),
            Text::Shortcuts => ("快捷键", "Shortcuts"),
            Text::Close => ("关闭", "Close"),
            Text::NoWorkspace => ("未选择工作区", "No workspace selected"),
            Text::SearchConfigurations => ("搜索配置", "Search configurations"),
            Text::FileView => ("文件视图", "File view"),
            Text::List => ("列表", "List"),
            Text::Tree => ("树状", "Tree"),
            Text::Scanning => ("正在扫描...", "Scanning..."),
            Text::ParseError => ("解析错误", "Parse error"),
            Text::ResizeSidebar => ("调整侧栏宽度", "Resize sidebar"),
            Text::CloseTab => ("关闭标签页", "Close tab"),
            Text::ReloadFromDisk => ("从磁盘重新加载", "Reload from disk"),
            Text::KeepEditing => ("保留本地编辑", "Keep editing"),
            Text::RetryReload => ("重试加载", "Retry reload"),
            Text::DelimiterDefaulted => ("未识别分隔符，已默认使用逗号", "Delimiter defaulted to comma"),
            Text::Analyzing => ("正在分析", "Analyzing"),
            Text::CommandPalette => ("文件快速打开", "Command palette"),
            Text::SearchFilesOrLine => ("搜索文件或输入行号", "Search files or enter a line"),
            Text::SearchFiles => ("搜索文件", "Search files"),
            Text::GoToLine => ("跳转到行", "Go to line"),
            Text::LineNumber => ("行号", "Line number"),
            Text::PositiveLineNumber => ("请输入正整数行号", "Enter a positive line number"),
            Text::PositiveLineAfterColon => ("请在 ':' 后输入正整数行号", "Enter a positive line number after ':'"),
            Text::SearchCurrentFile => ("搜索当前文件", "Search current file"),
            Text::Find => ("查找", "Find"),
            Text::Previous => ("上一个", "Previous"),
            Text::Next => ("下一个", "Next"),
            Text::PreviousMatch => ("上一个匹配项", "Previous match"),
            Text::NextMatch => ("下一个匹配项", "Next match"),
            Text::CloseSearch => ("关闭搜索", "Close search"),
            Text::MatchCase => ("区分大小写", "Match case"),
            Text::SearchWorkspace => ("搜索工作区", "Search workspace"),
            Text::SearchWorkspaceContents => ("搜索工作区内容", "Search workspace contents"),
            Text::Stop => ("停止", "Stop"),
            Text::NoMatches => ("无匹配项", "No matches"),
            Text::Loading => ("正在加载", "Loading"),
            Text::EmptyPreviewTitle => ("未选择文件", "No file selected"),
            Text::EmptyPreviewBody => ("从工作区选择文件以打开只读预览。", "Choose a file from the workspace to open a read-only preview."),
            Text::LoadingPreview => ("正在加载预览", "Loading preview"),
            Text::PreviewFailed => ("预览失败", "Preview failed"),
            Text::RevealInFileManager => ("在文件管理器中显示", "Reveal in file manager"),
            Text::HeaderRows => ("表头行数", "Header rows"),
            Text::EditorView => ("编辑器视图", "Editor view"),
            Text::Delimiter => ("分隔符", "Delimiter"),
            Text::CsvDelimiter => ("CSV 分隔符", "CSV delimiter"),
            Text::Comma => ("逗号", "Comma"),
            Text::Tab => ("制表符", "Tab"),
            Text::Semicolon => ("分号", "Semicolon"),
            Text::Pipe => ("竖线", "Pipe"),
            Text::Table => ("表格", "Table"),
            Text::Text => ("文本", "Text"),
            Text::ReadOnlyPreview => ("只读预览", "Read-only preview"),
            Text::EditableText => ("可编辑文本", "Editable text"),
            Text::EditableTable => ("可编辑表格", "Editable table"),
            Text::TypeLabel => ("类型", "Type"),
            Text::Save => ("保存", "Save"),
            Text::SaveFile => ("保存文件", "Save file"),
            Text::CsvTextEditor => ("CSV 文本编辑器", "CSV text editor"),
            Text::InvalidHeaderTitle => ("表头配置无效", "Invalid header configuration"),
            Text::InvalidHeaderBody => ("文件行数少于配置的表头行数。", "This file has fewer than the configured header records."),
            Text::ResizeColumn => ("调整列宽", "Resize column"),
            Text::JsonCellEditor => ("JSON 单元格编辑器", "JSON cell editor"),
            Text::JsonSyntaxError => ("JSON 语法错误", "JSON syntax error"),
            Text::JsonValueMustRemain => ("JSON 值必须保持为", "JSON value must remain a"),
            Text::JsonObject => ("JSON 对象", "JSON object"),
            Text::JsonArray => ("一维 JSON 数组", "one-dimensional JSON array"),
            Text::JsonArray2d => ("二维 JSON 数组", "two-dimensional JSON array"),
            Text::ProblemReasons => ("问题原因", "Problem reasons"),
            Text::CellValue => ("单元格值", "Cell value"),
            Text::ProblemRealLineBreak => ("包含真实换行控制字符（CR/LF）", "Contains a real line-break control character (CR/LF)"),
            Text::ProblemDangerousInvisibleCharacter => ("包含危险的不可见字符", "Contains a dangerous invisible character"),
            Text::ProblemUnescapedQuote => ("普通字符串包含未转义的双引号", "Plain string contains an unescaped double quote"),
            Text::ProblemInvalidBackslashEscape => ("普通字符串包含非法反斜杠转义", "Plain string contains an invalid backslash escape"),
            Text::MixedTypeReason => ("该列包含不兼容的基础类型，已判定为 mixed", "This column contains incompatible primitive types and is classified as mixed"),
            Text::UnsavedFiles => ("未保存的文件", "Unsaved files"),
            Text::SaveAll => ("全部保存", "Save all"),
            Text::DontSave => ("不保存", "Don't save"),
            Text::ReturnToEditing => ("返回编辑", "Return to editing"),
            Text::UnsavedChanges => ("未保存的更改", "Unsaved changes"),
            Text::Cancel => ("取消", "Cancel"),
            Text::SaveAnyway => ("仍然保存", "Save anyway"),
            Text::SaveProblemsTitle => ("保存存在问题的 CSV？", "Save CSV with problems?"),
            Text::FileChangedTitle => ("文件已在磁盘上更改", "File changed on disk"),
            Text::OverwriteDiskFile => ("覆盖磁盘文件", "Overwrite disk file"),
            Text::ReloadDiskFile => ("重新加载磁盘文件", "Reload disk file"),
            Text::DiscardLocalTitle => ("放弃本地更改？", "Discard local changes?"),
            Text::DiscardAndReload => ("放弃并重新加载", "Discard and reload"),
            Text::ConvertEncodingTitle => ("转换 CSV 编码？", "Convert CSV encoding?"),
            Text::ConvertToUtf8 => ("转换为 UTF-8", "Convert to UTF-8"),
            Text::ShortcutGlobal => ("全局", "Global"),
            Text::ShortcutFileSearch => ("文件与搜索", "Files and search"),
            Text::ShortcutTableNavigation => ("表格导航", "Table navigation"),
            Text::ShortcutEditing => ("编辑", "Editing"),
            Text::ShortcutShowList => ("显示快捷键", "Show shortcuts"),
            Text::ShortcutToggleSidebar => ("显示或隐藏侧栏", "Show or hide sidebar"),
            Text::ShortcutNextTab => ("切换到下一个标签页", "Switch to next tab"),
            Text::ShortcutPreviousTab => ("切换到上一个标签页", "Switch to previous tab"),
            Text::ShortcutCloseOverlay => ("关闭面板、取消编辑或退出聚焦", "Close panel, cancel edit, or exit focus"),
            Text::ShortcutFilePalette => ("快速打开文件", "Quick open file"),
            Text::ShortcutGoToLine => ("跳转到行", "Go to line"),
            Text::ShortcutCurrentSearch => ("搜索当前文件", "Search current file"),
            Text::ShortcutGlobalSearch => ("搜索工作区", "Search workspace"),
            Text::ShortcutSave => ("保存当前文件", "Save current file"),
            Text::ShortcutCloseDocument => ("关闭标签页或预览", "Close tab or preview"),
            Text::ShortcutMoveCell => ("移动单元格选择", "Move cell selection"),
            Text::ShortcutEditCell => ("编辑选中单元格", "Edit selected cell"),
            Text::ShortcutToggleFocus => ("进入或退出列聚焦", "Enter or exit column focus"),
            Text::ShortcutMoveFocus => ("切换聚焦列", "Move focused column"),
            Text::ShortcutNextProblem => ("下一个问题", "Next problem"),
            Text::ShortcutPreviousProblem => ("上一个问题", "Previous problem"),
            Text::ShortcutCopy => ("复制单元格值", "Copy cell value"),
            Text::ShortcutPaste => ("粘贴单元格值", "Paste cell value"),
            Text::ShortcutUndo => ("撤销", "Undo"),
            Text::ShortcutRedo => ("重做", "Redo"),
            Text::ShortcutCommitDown => ("提交并移动到下一行", "Commit and move down"),
            Text::ShortcutCommitAcross => ("提交并横向移动", "Commit and move across"),
            Text::ShortcutInsertLineBreak => ("插入换行", "Insert a line break"),
            Text::ShortcutIndentJson => ("在 JSON 中缩进", "Indent JSON"),
            Text::ShortcutCancelEdit => ("取消编辑", "Cancel edit"),
            Text::TabLimit => ("已达到 20 个标签页的上限。请先关闭一个标签页再打开其他文件。", "The 20-tab limit has been reached. Close a tab before opening another file."),
            Text::OpenTabMissing => ("打开的标签页已不存在", "Open tab no longer exists"),
            Text::PreviewClosed => ("CSV 预览已关闭", "CSV preview is no longer open"),
            Text::NoWorkspaceOpen => ("当前没有打开工作区", "No workspace is open"),
            Text::OutsideWorkspace => ("CSV 文件不在当前工作区内", "CSV file is outside the current workspace"),
            Text::EditedCellMissing => ("编辑的单元格已不存在", "Edited cell no longer exists"),
            Text::SelectCellBeforePaste => ("请先选择表格单元格再粘贴", "Select a table cell before pasting"),
            Text::PastedCell => ("已粘贴单元格值", "Pasted cell value"),
            Text::ClipboardSame => ("剪贴板内容与选中单元格相同", "Clipboard value matches the selected cell"),
            Text::CopiedCell => ("已复制单元格值", "Copied cell value"),
            Text::NothingSelectedCopy => ("没有可复制的选中内容", "Nothing selected to copy"),
            Text::RedidEdit => ("已重做上一次编辑", "Redid the last edit"),
            Text::UndidEdit => ("已撤销上一次编辑", "Undid the last edit"),
            Text::NothingRedo => ("没有可重做的操作", "Nothing to redo"),
            Text::NothingUndo => ("没有可撤销的操作", "Nothing to undo"),
            Text::AnalysisRunning => ("表格分析仍在进行", "Table analysis is still running"),
            Text::AnalysisRunningSave => ("表格分析仍在进行；请在完成后再次保存", "Table analysis is still running; save again when it finishes"),
            Text::NoProblems => ("没有单元格问题或混合类型列", "No cell problems or mixed columns"),
            Text::NoSearchableFile => ("当前没有可搜索的文件", "No searchable file is open"),
            Text::LineStartsAtOne => ("行号从 1 开始", "Line numbers start at 1"),
            Text::TableNoColumns => ("此表格没有列", "This table has no columns"),
            Text::TextChangedParsing => ("解析过程中内容已更改；请再次切换到表格视图", "Text changed while parsing; switch to Table again"),
            Text::DiscardDescription => ("重新加载将永久放弃此标签页中所有未保存的编辑。", "Reloading will permanently discard all unsaved edits in this tab."),
            Text::SettingsError => ("设置错误", "Settings error"),
            Text::ScanError => ("扫描失败", "Scan failed"),
            Text::OpenError => ("打开失败", "Open failed"),
            Text::SaveError => ("保存失败", "Save failed"),
            Text::ReloadError => ("重新加载失败", "Reload failed"),
            Text::StartupError => ("启动失败", "Startup failed"),
        }
    }
}

#[derive(Clone, Copy, Debug, PartialEq, Eq, Structural)]
pub enum CloseAction {
    Window,
    Workspace,
}

pub enum Message<'a> {
    Opening(&'a str),
    Parsing(&'a str),
    Saved(&'a str),
    Reloaded(&'a str),
    Overwrote(&'a str),
    KeptLocal(&'a str),
    ExternalConflict(&'a str),
    ExternalReloaded(&'a str),
    ReloadFailed {
        file: &'a str,
        detail: &'a str,
    },
    DiskParseFailed(&'a str),
    Revealed(&'a str),
    RevealFailed {
        file: &'a str,
        detail: &'a str,
    },
    TableAnalysisFailed {
        file: &'a str,
        detail: &'a str,
    },
    MatchPosition {
        current: usize,
        total: usize,
    },
    LineOutOfFile {
        line: usize,
        lines: usize,
    },
    RowOutOfTable {
        row: usize,
        rows: usize,
    },
    RowOutOfPreview {
        row: usize,
        rows: usize,
    },
    ProblemAt {
        row: usize,
        column: usize,
    },
    MixedColumn(usize),
    FocusMode {
        column: usize,
        field: Option<&'a str>,
    },
    FocusModeTooltip {
        column: usize,
        field: Option<&'a str>,
    },
    HeaderRange {
        minimum: usize,
        maximum: usize,
    },
    InvalidHeaderRecords(usize),
    RowsColumns {
        rows: usize,
        columns: usize,
    },
    RequiresHeaderRows(usize),
    TablePosition {
        row: usize,
        column: usize,
    },
    TextPosition {
        line: usize,
        column: usize,
    },
    UnsavedFiles {
        count: usize,
        action: CloseAction,
    },
    SaveChanges(&'a str),
    ReloadDiscard(&'a str),
    ConvertGb18030(&'a str),
    FileChanged(&'a str),
    SaveParseProblems {
        count: usize,
        detail: &'a str,
    },
    SaveCellProblems(usize),
    StructuralMismatch(&'a str),
    Technical {
        prefix: Text,
        detail: &'a str,
    },
}

/// The text of a message in a language.
pub open spec fn message_text(language: Language, value: Message) -> Seq<char> {
    let zh = language == Language::Zh;
    match value {
        Message::Opening(file) => {
            if zh {
                ("正在打开 "@ + file@ + "..."@)
            } else {
                ("Opening "@ + file@ + "..."@)
            }
        }
        Message::Parsing(file) => {
            if zh {
                ("正在解析 "@ + file@ + "..."@)
            } else {
                ("Parsing "@ + file@ + "..."@)
            }
        }
        Message::Saved(file) => {
            if zh {
                ("已保存 "@ + file@)
            } else {
                ("Saved "@ + file@)
            }
        }
        Message::Reloaded(file) => {
            if zh {
                ("已重新加载 "@ + file@)
            } else {
                ("Reloaded "@ + file@)
            }
        }
        Message::Overwrote(file) => {
            if zh {
                ("已覆盖 "@ + file@)
            } else {
                ("Overwrote "@ + file@)
            }
        }
        Message::KeptLocal(file) => {
            if zh {
                ("已保留 "@ + file@ + " 的本地编辑"@)
            } else {
                ("Kept local edits for "@ + file@)
            }
        }
        Message::ExternalConflict(file) => {
            if zh {
                (file@ + " 已在磁盘上更改，同时存在未保存的编辑"@)
            } else {
                (file@ + " changed on disk while it has unsaved edits"@)
            }
        }
        Message::ExternalReloaded(file) => {
            if zh {
                ("检测到外部更改，已重新加载 "@ + file@)
            } else {
                ("Reloaded "@ + file@ + " after an external change"@)
            }
        }
        Message::ReloadFailed { file, detail } => {
            if zh {
                ("无法重新加载 "@ + file@ + ": "@ + detail@)
            } else {
                ("Could not reload "@ + file@ + ": "@ + detail@)
            }
        }
        Message::DiskParseFailed(file) => {
            if zh {
                ("无法解析 "@ + file@ + " 的磁盘版本。"@)
            } else {
                ("Disk version of "@ + file@ + " could not be parsed."@)
            }
        }
        Message::Revealed(file) => {
            if zh {
                ("已在系统文件管理器中显示 "@ + file@)
            } else {
                ("Opened "@ + file@ + " in the system file manager"@)
            }
        }
        Message::RevealFailed { file, detail } => {
            if zh {
                ("无法在系统文件管理器中显示 "@ + file@ + ": "@ + detail@)
            } else {
                ("Could not show "@ + file@ + " in the system file manager: "@ + detail@)
            }
        }
        Message::TableAnalysisFailed { file, detail } => {
            if zh {
                (file@ + " 的表格分析失败: "@ + detail@)
            } else {
                ("Table analysis failed for "@ + file@ + ": "@ + detail@)
            }
        }
        Message::MatchPosition { current, total } => {
            if zh {
                ("第 "@ + decimal(current as nat) + " 个匹配项，共 "@ + decimal(total as nat) + " 个"@)
            } else {
                ("Match "@ + decimal(current as nat) + " of "@ + decimal(total as nat))
            }
        }
        Message::LineOutOfFile { line, lines } => {
            if zh {
                ("第 "@ + decimal(line as nat) + " 行超出文件范围（共 "@ + decimal(lines as nat) + " 个物理行）"@)
            } else {
                ("Line "@ + decimal(line as nat) + " is outside this file ("@ + decimal(lines as nat) + " physical lines)"@)
            }
        }
        Message::RowOutOfTable { row, rows } => {
            if zh {
                ("第 "@ + decimal(row as nat) + " 行超出表格范围（共 "@ + decimal(rows as nat) + " 个数据行）"@)
            } else {
                ("Row "@ + decimal(row as nat) + " is outside this table ("@ + decimal(rows as nat) + " data rows)"@)
            }
        }
        Message::RowOutOfPreview { row, rows } => {
            if zh {
                ("第 "@ + decimal(row as nat) + " 行超出预览范围（共 "@ + decimal(rows as nat) + " 个数据行）"@)
            } else {
                ("Row "@ + decimal(row as nat) + " is outside this preview ("@ + decimal(rows as nat) + " data rows)"@)
            }
        }
        Message::ProblemAt { row, column } => {
            if zh {
                ("问题位于第 "@ + decimal(row as nat) + " 行、第 "@ + decimal(column as nat) + " 列"@)
            } else {
                ("Problem at row "@ + decimal(row as nat) + ", column "@ + decimal(column as nat))
            }
        }
        Message::MixedColumn(column) => {
            if zh {
                ("第 "@ + decimal(column as nat) + " 列存在混合类型"@)
            } else {
                ("Mixed types in column "@ + decimal(column as nat))
            }
        }
        Message::FocusMode { column, field } => match (zh, field) {
            (true, Some(field)) => ("聚焦模式 · 第 "@ + decimal(column as nat) + " 列 · "@ + field@),
            (true, None) => ("聚焦模式 · 第 "@ + decimal(column as nat) + " 列"@),
            (false, Some(field)) => ("Focus mode · Column "@ + decimal(column as nat) + " · "@ + field@),
            (false, None) => ("Focus mode · Column "@ + decimal(column as nat)),
        },
        Message::FocusModeTooltip { column, field } => match (zh, field) {
            (true, Some(field)) => {
                ("聚焦模式已开启：第 "@ + decimal(column as nat) + " 列（字段："@ + field@ + "）。按 T 或 Esc 退出。"@)
            }
            (true, None) => ("聚焦模式已开启：第 "@ + decimal(column as nat) + " 列。按 T 或 Esc 退出。"@),
            (false, Some(field)) => ("Focus mode is active on column "@ + decimal(column as nat) + " (field: "@ + field@ + "). Press T or Esc to exit."@),
            (false, None) => {
                ("Focus mode is active on column "@ + decimal(column as nat) + ". Press T or Esc to exit."@)
            }
        },
        Message::HeaderRange { minimum, maximum } => {
            if zh {
                ("表头行数必须在 "@ + decimal(minimum as nat) + " 到 "@ + decimal(maximum as nat) + " 之间"@)
            } else {
                ("Header rows must be between "@ + decimal(minimum as nat) + " and "@ + decimal(maximum as nat))
            }
        }
        Message::InvalidHeaderRecords(rows) => {
            if zh {
                ("文件少于配置的 "@ + decimal(rows as nat) + " 个表头记录"@)
            } else {
                ("file has fewer than the configured "@ + decimal(rows as nat) + " header records"@)
            }
        }
        Message::RowsColumns { rows, columns } => {
            if zh {
                (decimal(rows as nat) + " 行 · "@ + decimal(columns as nat) + " 列"@)
            } else {
                (decimal(rows as nat) + " rows · "@ + decimal(columns as nat) + " columns"@)
            }
        }
        Message::RequiresHeaderRows(rows) => {
            if zh {
                ("需要 "@ + decimal(rows as nat) + " 个表头行"@)
            } else {
                ("requires "@ + decimal(rows as nat) + " header rows"@)
            }
        }
        Message::TablePosition { row, column } => {
            if zh {
                ("第 "@ + decimal(row as nat) + " 行，第 "@ + decimal(column as nat) + " 列"@)
            } else {
                ("Row "@ + decimal(row as nat) + ", Col "@ + decimal(column as nat))
            }
        }
        Message::TextPosition { line, column } => {
            if zh {
                ("第 "@ + decimal(line as nat) + " 行，第 "@ + decimal(column as nat) + " 列"@)
            } else {
                ("Ln "@ + decimal(line as nat) + ", Col "@ + decimal(column as nat))
            }
        }
        Message::UnsavedFiles { count, action } => match (zh, action) {
            (true, CloseAction::Window) => {
                (decimal(count as nat) + " 个打开的文件有未保存更改。关闭窗口前是否全部保存？"@)
            }
            (true, CloseAction::Workspace) => {
                (decimal(count as nat) + " 个打开的文件有未保存更改。切换工作区前是否全部保存？"@)
            }
            (false, CloseAction::Window) => (decimal(count as nat) + " open files have unsaved changes. Save all before closing the window?"@),
            (false, CloseAction::Workspace) => (decimal(count as nat) + " open files have unsaved changes. Save all before switching workspaces?"@),
        },
        Message::SaveChanges(file) => {
            if zh {
                ("关闭前是否保存对 "@ + file@ + " 的更改？"@)
            } else {
                ("Save changes to "@ + file@ + " before closing?"@)
            }
        }
        Message::ReloadDiscard(file) => {
            if zh {
                ("重新加载 "@ + file@ + " 将永久放弃此标签页中所有未保存的编辑。"@)
            } else {
                ("Reloading "@ + file@ + " will permanently discard all unsaved edits in this tab."@)
            }
        }
        Message::ConvertGb18030(file) => {
            if zh {
                (file@ + " 使用 GB18030 编码。编辑前需要在内存中转换为 UTF-8；文件会在保存时才写为无 BOM UTF-8。是否继续？"@)
            } else {
                (file@ + " uses GB18030. Editing requires an in-memory UTF-8 conversion; the file will only be written as UTF-8 without BOM when you save. Continue?"@)
            }
        }
        Message::FileChanged(file) => {
            if zh {
                (file@ + " 在打开后已被更改。要覆盖磁盘文件、重新加载还是取消？"@)
            } else {
                (file@ + " changed after it was opened. Overwrite the disk file, reload it, or cancel?"@)
            }
        }
        Message::SaveParseProblems { count, detail } => {
            if zh {
                ("文本包含 "@ + decimal(count as nat) + " 个 CSV 解析错误。第一个错误: "@ + detail@ + "\n\n仍然保存将保留无效的 CSV 文本。"@)
            } else {
                ("This text contains "@ + decimal(count as nat) + " CSV parse error(s). First error: "@ + detail@ + "\n\nSaving anyway will preserve the invalid CSV text."@)
            }
        }
        Message::SaveCellProblems(count) => {
            if zh {
                ("文件包含 "@ + decimal(count as nat) + " 个存在红色兼容性或结构问题的单元格。"@)
            } else {
                ("This file contains "@ + decimal(count as nat) + " cells with red compatibility or structure problems."@)
            }
        }
        Message::StructuralMismatch(expected) => {
            if zh {
                ("与该列推断出的 "@ + expected@ + " 结构不匹配"@)
            } else {
                ("Does not match the column's inferred "@ + expected@ + " structure"@)
            }
        }
        Message::Technical { prefix, detail } => translation(language, prefix) + ": "@ + detail@,
    }
}

/// The text of a message in a language (see `message_text`).
pub fn message_for(language: Language, value: Message<'_>) -> (r: String)
    ensures
        r@ == message_text(language, value),
{
    let zh = language == Language::Zh;
    let chars: Vec<char> = match value {
        Message::Opening(file) => {
            if zh {
                {
                let mut o: Vec<char> = Vec::new();
                push_str(&mut o, "正在打开 ");
                push_str(&mut o, file);
                push_str(&mut o, "...");
                proof {
                    assert(o@ =~= "正在打开 "@ + file@ + "..."@);
                }
                o
            }
            } else {
                {
                let mut o: Vec<char> = Vec::new();
                push_str(&mut o, "Opening ");
                push_str(&mut o, file);
                push_str(&mut o, "...");
                proof {
                    assert(o@ =~= "Opening "@ + file@ + "..."@);
                }
                o
            }
            }
        }
        Message::Parsing(file) => {
            if zh {
                {
                let mut o: Vec<char> = Vec::new();
                push_str(&mut o, "正在解析 ");
                push_str(&mut o, file);
                push_str(&mut o, "...");
                proof {
                    assert(o@ =~= "正在解析 "@ + file@ + "..."@);
                }
                o
            }
            } else {
                {
                let mut o: Vec<char> = Vec::new();
                push_str(&mut o, "Parsing ");
                push_str(&mut o, file);
                push_str(&mut o, "...");
                proof {
                    assert(o@ =~= "Parsing "@ + file@ + "..."@);
                }
                o
            }
            }
        }
        Message::Saved(file) => {
            if zh {
                {
                let mut o: Vec<char> = Vec::new();
                push_str(&mut o, "已保存 ");
                push_str(&mut o, file);
                proof {
                    assert(o@ =~= "已保存 "@ + file@);
                }
                o
            }
            } else {
                {
                let mut o: Vec<char> = Vec::new();
                push_str(&mut o, "Saved ");
                push_str(&mut o, file);
                proof {
                    assert(o@ =~= "Saved "@ + file@);
                }
                o
            }
            }
        }
        Message::Reloaded(file) => {
            if zh {
                {
                let mut o: Vec<char> = Vec::new();
                push_str(&mut o, "已重新加载 ");
                push_str(&mut o, file);
                proof {
                    assert(o@ =~= "已重新加载 "@ + file@);
                }
                o
            }
            } else {
                {
                let mut o: Vec<char> = Vec::new();
                push_str(&mut o, "Reloaded ");
                push_str(&mut o, file);
                proof {
                    assert(o@ =~= "Reloaded "@ + file@);
                }
                o
            }
            }
        }
        Message::Overwrote(file) => {
            if zh {
                {
                let mut o: Vec<char> = Vec::new();
                push_str(&mut o, "已覆盖 ");
                push_str(&mut o, file);
                proof {
                    assert(o@ =~= "已覆盖 "@ + file@);
                }
                o
            }
            } else {
                {
                let mut o: Vec<char> = Vec::new();
                push_str(&mut o, "Overwrote ");
                push_str(&mut o, file);
                proof {
                    assert(o@ =~= "Overwrote "@ + file@);
                }
                o
            }
            }
        }
        Message::KeptLocal(file) => {
            if zh {
                {
                let mut o: Vec<char> = Vec::new();
                push_str(&mut o, "已保留 ");
                push_str(&mut o, file);
                push_str(&mut o, " 的本地编辑");
                proof {
                    assert(o@ =~= "已保留 "@ + file@ + " 的本地编辑"@);
                }
                o
            }
            } else {
                {
                let mut o: Vec<char> = Vec::new();
                push_str(&mut o, "Kept local edits for ");
                push_str(&mut o, file);
                proof {
                    assert(o@ =~= "Kept local edits for "@ + file@);
                }
                o
            }
            }
        }
        Message::ExternalConflict(file) => {
            if zh {
                {
                let mut o: Vec<char> = Vec::new();
                push_str(&mut o, file);
                push_str(&mut o, " 已在磁盘上更改，同时存在未保存的编辑");
                proof {
                    assert(o@ =~= file@ + " 已在磁盘上更改，同时存在未保存的编辑"@);
                }
                o
            }
            } else {
                {
                let mut o: Vec<char> = Vec::new();
                push_str(&mut o, file);
                push_str(&mut o, " changed on disk while it has unsaved edits");
                proof {
                    assert(o@ =~= file@ + " changed on disk while it has unsaved edits"@);
                }
                o
            }
            }
        }
        Message::ExternalReloaded(file) => {
            if zh {
                {
                let mut o: Vec<char> = Vec::new();
                push_str(&mut o, "检测到外部更改，已重新加载 ");
                push_str(&mut o, file);
                proof {
                    assert(o@ =~= "检测到外部更改，已重新加载 "@ + file@);
                }
                o
            }
            } else {
                {
                let mut o: Vec<char> = Vec::new();
                push_str(&mut o, "Reloaded ");
                push_str(&mut o, file);
                push_str(&mut o, " after an external change");
                proof {
                    assert(o@ =~= "Reloaded "@ + file@ + " after an external change"@);
                }
                o
            }
            }
        }
        Message::ReloadFailed { file, detail } => {
            if zh {
                {
                let mut o: Vec<char> = Vec::new();
                push_str(&mut o, "无法重新加载 ");
                push_str(&mut o, file);
                push_str(&mut o, ": ");
                push_str(&mut o, detail);
                proof {
                    assert(o@ =~= "无法重新加载 "@ + file@ + ": "@ + detail@);
                }
                o
            }
            } else {
                {
                let mut o: Vec<char> = Vec::new();
                push_str(&mut o, "Could not reload ");
                push_str(&mut o, file);
                push_str(&mut o, ": ");
                push_str(&mut o, detail);
                proof {
                    assert(o@ =~= "Could not reload "@ + file@ + ": "@ + detail@);
                }
                o
            }
            }
        }
        Message::DiskParseFailed(file) => {
            if zh {
                {
                let mut o: Vec<char> = Vec::new();
                push_str(&mut o, "无法解析 ");
                push_str(&mut o, file);
                push_str(&mut o, " 的磁盘版本。");
                proof {
                    assert(o@ =~= "无法解析 "@ + file@ + " 的磁盘版本。"@);
                }
                o
            }
            } else {
                {
                let mut o: Vec<char> = Vec::new();
                push_str(&mut o, "Disk version of ");
                push_str(&mut o, file);
                push_str(&mut o, " could not be parsed.");
                proof {
                    assert(o@ =~= "Disk version of "@ + file@ + " could not be parsed."@);
                }
                o
            }
            }
        }
        Message::Revealed(file) => {
            if zh {
                {
                let mut o: Vec<char> = Vec::new();
                push_str(&mut o, "已在系统文件管理器中显示 ");
                push_str(&mut o, file);
                proof {
                    assert(o@ =~= "已在系统文件管理器中显示 "@ + file@);
                }
                o
            }
            } else {
                {
                let mut o: Vec<char> = Vec::new();
                push_str(&mut o, "Opened ");
                push_str(&mut o, file);
                push_str(&mut o, " in the system file manager");
                proof {
                    assert(o@ =~= "Opened "@ + file@ + " in the system file manager"@);
                }
                o
            }
            }
        }
        Message::RevealFailed { file, detail } => {
            if zh {
                {
                let mut o: Vec<char> = Vec::new();
                push_str(&mut o, "无法在系统文件管理器中显示 ");
                push_str(&mut o, file);
                push_str(&mut o, ": ");
                push_str(&mut o, detail);
                proof {
                    assert(o@ =~= "无法在系统文件管理器中显示 "@ + file@ + ": "@ + detail@);
                }
                o
            }
            } else {
                {
                let mut o: Vec<char> = Vec::new();
                push_str(&mut o, "Could not show ");
                push_str(&mut o, file);
                push_str(&mut o, " in the system file manager: ");
                push_str(&mut o, detail);
                proof {
                    assert(o@ =~= "Could not show "@ + file@ + " in the system file manager: "@ + detail@);
                }
                o
            }
            }
        }
        Message::TableAnalysisFailed { file, detail } => {
            if zh {
                {
                let mut o: Vec<char> = Vec::new();
                push_str(&mut o, file);
                push_str(&mut o, " 的表格分析失败: ");
                push_str(&mut o, detail);
                proof {
                    assert(o@ =~= file@ + " 的表格分析失败: "@ + detail@);
                }
                o
            }
            } else {
                {
                let mut o: Vec<char> = Vec::new();
                push_str(&mut o, "Table analysis failed for ");
                push_str(&mut o, file);
                push_str(&mut o, ": ");
                push_str(&mut o, detail);
                proof {
                    assert(o@ =~= "Table analysis failed for "@ + file@ + ": "@ + detail@);
                }
                o
            }
            }
        }
        Message::MatchPosition { current, total } => {
            if zh {
                {
                let mut o: Vec<char> = Vec::new();
                push_str(&mut o, "第 ");
                push_decimal(&mut o, current as u128);
                push_str(&mut o, " 个匹配项，共 ");
                push_decimal(&mut o, total as u128);
                push_str(&mut o, " 个");
                proof {
                    assert(o@ =~= "第 "@ + decimal(current as nat) + " 个匹配项，共 "@ + decimal(total as nat) + " 个"@);
                }
                o
            }
            } else {
                {
                let mut o: Vec<char> = Vec::new();
                push_str(&mut o, "Match ");
                push_decimal(&mut o, current as u128);
                push_str(&mut o, " of ");
                push_decimal(&mut o, total as u128);
                proof {
                    assert(o@ =~= "Match "@ + decimal(current as nat) + " of "@ + decimal(total as nat));
                }
                o
            }
            }
        }
        Message::LineOutOfFile { line, lines } => {
            if zh {
                {
                let mut o: Vec<char> = Vec::new();
                push_str(&mut o, "第 ");
                push_decimal(&mut o, line as u128);
                push_str(&mut o, " 行超出文件范围（共 ");
                push_decimal(&mut o, lines as u128);
                push_str(&mut o, " 个物理行）");
                proof {
                    assert(o@ =~= "第 "@ + decimal(line as nat) + " 行超出文件范围（共 "@ + decimal(lines as nat) + " 个物理行）"@);
                }
                o
            }
            } else {
                {
                let mut o: Vec<char> = Vec::new();
                push_str(&mut o, "Line ");
                push_decimal(&mut o, line as u128);
                push_str(&mut o, " is outside this file (");
                push_decimal(&mut o, lines as u128);
                push_str(&mut o, " physical lines)");
                proof {
                    assert(o@ =~= "Line "@ + decimal(line as nat) + " is outside this file ("@ + decimal(lines as nat) + " physical lines)"@);
                }
                o
            }
            }
        }
        Message::RowOutOfTable { row, rows } => {
            if zh {
                {
                let mut o: Vec<char> = Vec::new();
                push_str(&mut o, "第 ");
                push_decimal(&mut o, row as u128);
                push_str(&mut o, " 行超出表格范围（共 ");
                push_decimal(&mut o, rows as u128);
                push_str(&mut o, " 个数据行）");
                proof {
                    assert(o@ =~= "第 "@ + decimal(row as nat) + " 行超出表格范围（共 "@ + decimal(rows as nat) + " 个数据行）"@);
                }
                o
            }
            } else {
                {
                let mut o: Vec<char> = Vec::new();
                push_str(&mut o, "Row ");
                push_decimal(&mut o, row as u128);
                push_str(&mut o, " is outside this table (");
                push_decimal(&mut o, rows as u128);
                push_str(&mut o, " data rows)");
                proof {
                    assert(o@ =~= "Row "@ + decimal(row as nat) + " is outside this table ("@ + decimal(rows as nat) + " data rows)"@);
                }
                o
            }
            }
        }
        Message::RowOutOfPreview { row, rows } => {
            if zh {
                {
                let mut o: Vec<char> = Vec::new();
                push_str(&mut o, "第 ");
                push_decimal(&mut o, row as u128);
                push_str(&mut o, " 行超出预览范围（共 ");
                push_decimal(&mut o, rows as u128);
                push_str(&mut o, " 个数据行）");
                proof {
                    assert(o@ =~= "第 "@ + decimal(row as nat) + " 行超出预览范围（共 "@ + decimal(rows as nat) + " 个数据行）"@);
                }
                o
            }
            } else {
                {
                let mut o: Vec<char> = Vec::new();
                push_str(&mut o, "Row ");
                push_decimal(&mut o, row as u128);
                push_str(&mut o, " is outside this preview (");
                push_decimal(&mut o, rows as u128);
                push_str(&mut o, " data rows)");
                proof {
                    assert(o@ =~= "Row "@ + decimal(row as nat) + " is outside this preview ("@ + decimal(rows as nat) + " data rows)"@);
                }
                o
            }
            }
        }
        Message::ProblemAt { row, column } => {
            if zh {
                {
                let mut o: Vec<char> = Vec::new();
                push_str(&mut o, "问题位于第 ");
                push_decimal(&mut o, row as u128);
                push_str(&mut o, " 行、第 ");
                push_decimal(&mut o, column as u128);
                push_str(&mut o, " 列");
                proof {
                    assert(o@ =~= "问题位于第 "@ + decimal(row as nat) + " 行、第 "@ + decimal(column as nat) + " 列"@);
                }
                o
            }
            } else {
                {
                let mut o: Vec<char> = Vec::new();
                push_str(&mut o, "Problem at row ");
                push_decimal(&mut o, row as u128);
                push_str(&mut o, ", column ");
                push_decimal(&mut o, column as u128);
                proof {
                    assert(o@ =~= "Problem at row "@ + decimal(row as nat) + ", column "@ + decimal(column as nat));
                }
                o
            }
            }
        }
        Message::MixedColumn(column) => {
            if zh {
                {
                let mut o: Vec<char> = Vec::new();
                push_str(&mut o, "第 ");
                push_decimal(&mut o, column as u128);
                push_str(&mut o, " 列存在混合类型");
                proof {
                    assert(o@ =~= "第 "@ + decimal(column as nat) + " 列存在混合类型"@);
                }
                o
            }
            } else {
                {
                let mut o: Vec<char> = Vec::new();
                push_str(&mut o, "Mixed types in column ");
                push_decimal(&mut o, column as u128);
                proof {
                    assert(o@ =~= "Mixed types in column "@ + decimal(column as nat));
                }
                o
            }
            }
        }
        Message::FocusMode { column, field } => match (zh, field) {
            (true, Some(field)) => {
                let mut o: Vec<char> = Vec::new();
                push_str(&mut o, "聚焦模式 · 第 ");
                push_decimal(&mut o, column as u128);
                push_str(&mut o, " 列 · ");
                push_str(&mut o, field);
                proof {
                    assert(o@ =~= "聚焦模式 · 第 "@ + decimal(column as nat) + " 列 · "@ + field@);
                }
                o
            },
            (true, None) => {
                let mut o: Vec<char> = Vec::new();
                push_str(&mut o, "聚焦模式 · 第 ");
                push_decimal(&mut o, column as u128);
                push_str(&mut o, " 列");
                proof {
                    assert(o@ =~= "聚焦模式 · 第 "@ + decimal(column as nat) + " 列"@);
                }
                o
            },
            (false, Some(field)) => {
                let mut o: Vec<char> = Vec::new();
                push_str(&mut o, "Focus mode · Column ");
                push_decimal(&mut o, column as u128);
                push_str(&mut o, " · ");
                push_str(&mut o, field);
                proof {
                    assert(o@ =~= "Focus mode · Column "@ + decimal(column as nat) + " · "@ + field@);
                }
                o
            },
            (false, None) => {
                let mut o: Vec<char> = Vec::new();
                push_str(&mut o, "Focus mode · Column ");
                push_decimal(&mut o, column as u128);
                proof {
                    assert(o@ =~= "Focus mode · Column "@ + decimal(column as nat));
                }
                o
            },
        },
        Message::FocusModeTooltip { column, field } => match (zh, field) {
            (true, Some(field)) => {
                {
                let mut o: Vec<char> = Vec::new();
                push_str(&mut o, "聚焦模式已开启：第 ");
                push_decimal(&mut o, column as u128);
                push_str(&mut o, " 列（字段：");
                push_str(&mut o, field);
                push_str(&mut o, "）。按 T 或 Esc 退出。");
                proof {
                    assert(o@ =~= "聚焦模式已开启：第 "@ + decimal(column as nat) + " 列（字段："@ + field@ + "）。按 T 或 Esc 退出。"@);
                }
                o
            }
            }
            (true, None) => {
                let mut o: Vec<char> = Vec::new();
                push_str(&mut o, "聚焦模式已开启：第 ");
                push_decimal(&mut o, column as u128);
                push_str(&mut o, " 列。按 T 或 Esc 退出。");
                proof {
                    assert(o@ =~= "聚焦模式已开启：第 "@ + decimal(column as nat) + " 列。按 T 或 Esc 退出。"@);
                }
                o
            },
            (false, Some(field)) => {
                let mut o: Vec<char> = Vec::new();
                push_str(&mut o, "Focus mode is active on column ");
                push_decimal(&mut o, column as u128);
                push_str(&mut o, " (field: ");
                push_str(&mut o, field);
                push_str(&mut o, "). Press T or Esc to exit.");
                proof {
                    assert(o@ =~= "Focus mode is active on column "@ + decimal(column as nat) + " (field: "@ + field@ + "). Press T or Esc to exit."@);
                }
                o
            },
            (false, None) => {
                {
                let mut o: Vec<char> = Vec::new();
                push_str(&mut o, "Focus mode is active on column ");
                push_decimal(&mut o, column as u128);
                push_str(&mut o, ". Press T or Esc to exit.");
                proof {
                    assert(o@ =~= "Focus mode is active on column "@ + decimal(column as nat) + ". Press T or Esc to exit."@);
                }
                o
            }
            }
        },
        Message::HeaderRange { minimum, maximum } => {
            if zh {
                {
                let mut o: Vec<char> = Vec::new();
                push_str(&mut o, "表头行数必须在 ");
                push_decimal(&mut o, minimum as u128);
                push_str(&mut o, " 到 ");
                push_decimal(&mut o, maximum as u128);
                push_str(&mut o, " 之间");
                proof {
                    assert(o@ =~= "表头行数必须在 "@ + decimal(minimum as nat) + " 到 "@ + decimal(maximum as nat) + " 之间"@);
                }
                o
            }
            } else {
                {
                let mut o: Vec<char> = Vec::new();
                push_str(&mut o, "Header rows must be between ");
                push_decimal(&mut o, minimum as u128);
                push_str(&mut o, " and ");
                push_decimal(&mut o, maximum as u128);
                proof {
                    assert(o@ =~= "Header rows must be between "@ + decimal(minimum as nat) + " and "@ + decimal(maximum as nat));
                }
                o
            }
            }
        }
        Message::InvalidHeaderRecords(rows) => {
            if zh {
                {
                let mut o: Vec<char> = Vec::new();
                push_str(&mut o, "文件少于配置的 ");
                push_decimal(&mut o, rows as u128);
                push_str(&mut o, " 个表头记录");
                proof {
                    assert(o@ =~= "文件少于配置的 "@ + decimal(rows as nat) + " 个表头记录"@);
                }
                o
            }
            } else {
                {
                let mut o: Vec<char> = Vec::new();
                push_str(&mut o, "file has fewer than the configured ");
                push_decimal(&mut o, rows as u128);
                push_str(&mut o, " header records");
                proof {
                    assert(o@ =~= "file has fewer than the configured "@ + decimal(rows as nat) + " header records"@);
                }
                o
            }
            }
        }
        Message::RowsColumns { rows, columns } => {
            if zh {
                {
                let mut o: Vec<char> = Vec::new();
                push_decimal(&mut o, rows as u128);
                push_str(&mut o, " 行 · ");
                push_decimal(&mut o, columns as u128);
                push_str(&mut o, " 列");
                proof {
                    assert(o@ =~= decimal(rows as nat) + " 行 · "@ + decimal(columns as nat) + " 列"@);
                }
                o
            }
            } else {
                {
                let mut o: Vec<char> = Vec::new();
                push_decimal(&mut o, rows as u128);
                push_str(&mut o, " rows · ");
                push_decimal(&mut o, columns as u128);
                push_str(&mut o, " columns");
                proof {
                    assert(o@ =~= decimal(rows as nat) + " rows · "@ + decimal(columns as nat) + " columns"@);
                }
                o
            }
            }
        }
        Message::RequiresHeaderRows(rows) => {
            if zh {
                {
                let mut o: Vec<char> = Vec::new();
                push_str(&mut o, "需要 ");
                push_decimal(&mut o, rows as u128);
                push_str(&mut o, " 个表头行");
                proof {
                    assert(o@ =~= "需要 "@ + decimal(rows as nat) + " 个表头行"@);
                }
                o
            }
            } else {
                {
                let mut o: Vec<char> = Vec::new();
                push_str(&mut o, "requires ");
                push_decimal(&mut o, rows as u128);
                push_str(&mut o, " header rows");
                proof {
                    assert(o@ =~= "requires "@ + decimal(rows as nat) + " header rows"@);
                }
                o
            }
            }
        }
        Message::TablePosition { row, column } => {
            if zh {
                {
                let mut o: Vec<char> = Vec::new();
                push_str(&mut o, "第 ");
                push_decimal(&mut o, row as u128);
                push_str(&mut o, " 行，第 ");
                push_decimal(&mut o, column as u128);
                push_str(&mut o, " 列");
                proof {
                    assert(o@ =~= "第 "@ + decimal(row as nat) + " 行，第 "@ + decimal(column as nat) + " 列"@);
                }
                o
            }
            } else {
                {
                let mut o: Vec<char> = Vec::new();
                push_str(&mut o, "Row ");
                push_decimal(&mut o, row as u128);
                push_str(&mut o, ", Col ");
                push_decimal(&mut o, column as u128);
                proof {
                    assert(o@ =~= "Row "@ + decimal(row as nat) + ", Col "@ + decimal(column as nat));
                }
                o
            }
            }
        }
        Message::TextPosition { line, column } => {
            if zh {
                {
                let mut o: Vec<char> = Vec::new();
                push_str(&mut o, "第 ");
                push_decimal(&mut o, line as u128);
                push_str(&mut o, " 行，第 ");
                push_decimal(&mut o, column as u128);
                push_str(&mut o, " 列");
                proof {
                    assert(o@ =~= "第 "@ + decimal(line as nat) + " 行，第 "@ + decimal(column as nat) + " 列"@);
                }
                o
            }
            } else {
                {
                let mut o: Vec<char> = Vec::new();
                push_str(&mut o, "Ln ");
                push_decimal(&mut o, line as u128);
                push_str(&mut o, ", Col ");
                push_decimal(&mut o, column as u128);
                proof {
                    assert(o@ =~= "Ln "@ + decimal(line as nat) + ", Col "@ + decimal(column as nat));
                }
                o
            }
            }
        }
        Message::UnsavedFiles { count, action } => match (zh, action) {
            (true, CloseAction::Window) => {
                {
                let mut o: Vec<char> = Vec::new();
                push_decimal(&mut o, count as u128);
                push_str(&mut o, " 个打开的文件有未保存更改。关闭窗口前是否全部保存？");
                proof {
                    assert(o@ =~= decimal(count as nat) + " 个打开的文件有未保存更改。关闭窗口前是否全部保存？"@);
                }
                o
            }
            }
            (true, CloseAction::Workspace) => {
                {
                let mut o: Vec<char> = Vec::new();
                push_decimal(&mut o, count as u128);
                push_str(&mut o, " 个打开的文件有未保存更改。切换工作区前是否全部保存？");
                proof {
                    assert(o@ =~= decimal(count as nat) + " 个打开的文件有未保存更改。切换工作区前是否全部保存？"@);
                }
                o
            }
            }
            (false, CloseAction::Window) => {
                let mut o: Vec<char> = Vec::new();
                push_decimal(&mut o, count as u128);
                push_str(&mut o, " open files have unsaved changes. Save all before closing the window?");
                proof {
                    assert(o@ =~= decimal(count as nat) + " open files have unsaved changes. Save all before closing the window?"@);
                }
                o
            },
            (false, CloseAction::Workspace) => {
                let mut o: Vec<char> = Vec::new();
                push_decimal(&mut o, count as u128);
                push_str(&mut o, " open files have unsaved changes. Save all before switching workspaces?");
                proof {
                    assert(o@ =~= decimal(count as nat) + " open files have unsaved changes. Save all before switching workspaces?"@);
                }
                o
            },
        },
        Message::SaveChanges(file) => {
            if zh {
                {
                let mut o: Vec<char> = Vec::new();
                push_str(&mut o, "关闭前是否保存对 ");
                push_str(&mut o, file);
                push_str(&mut o, " 的更改？");
                proof {
                    assert(o@ =~= "关闭前是否保存对 "@ + file@ + " 的更改？"@);
                }
                o
            }
            } else {
                {
                let mut o: Vec<char> = Vec::new();
                push_str(&mut o, "Save changes to ");
                push_str(&mut o, file);
                push_str(&mut o, " before closing?");
                proof {
                    assert(o@ =~= "Save changes to "@ + file@ + " before closing?"@);
                }
                o
            }
            }
        }
        Message::ReloadDiscard(file) => {
            if zh {
                {
                let mut o: Vec<char> = Vec::new();
                push_str(&mut o, "重新加载 ");
                push_str(&mut o, file);
                push_str(&mut o, " 将永久放弃此标签页中所有未保存的编辑。");
                proof {
                    assert(o@ =~= "重新加载 "@ + file@ + " 将永久放弃此标签页中所有未保存的编辑。"@);
                }
                o
            }
            } else {
                {
                let mut o: Vec<char> = Vec::new();
                push_str(&mut o, "Reloading ");
                push_str(&mut o, file);
                push_str(&mut o, " will permanently discard all unsaved edits in this tab.");
                proof {
                    assert(o@ =~= "Reloading "@ + file@ + " will permanently discard all unsaved edits in this tab."@);
                }
                o
            }
            }
        }
        Message::ConvertGb18030(file) => {
            if zh {
                {
                let mut o: Vec<char> = Vec::new();
                push_str(&mut o, file);
                push_str(&mut o, " 使用 GB18030 编码。编辑前需要在内存中转换为 UTF-8；文件会在保存时才写为无 BOM UTF-8。是否继续？");
                proof {
                    assert(o@ =~= file@ + " 使用 GB18030 编码。编辑前需要在内存中转换为 UTF-8；文件会在保存时才写为无 BOM UTF-8。是否继续？"@);
                }
                o
            }
            } else {
                {
                let mut o: Vec<char> = Vec::new();
                push_str(&mut o, file);
                push_str(&mut o, " uses GB18030. Editing requires an in-memory UTF-8 conversion; the file will only be written as UTF-8 without BOM when you save. Continue?");
                proof {
                    assert(o@ =~= file@ + " uses GB18030. Editing requires an in-memory UTF-8 conversion; the file will only be written as UTF-8 without BOM when you save. Continue?"@);
                }
                o
            }
            }
        }
        Message::FileChanged(file) => {
            if zh {
                {
                let mut o: Vec<char> = Vec::new();
                push_str(&mut o, file);
                push_str(&mut o, " 在打开后已被更改。要覆盖磁盘文件、重新加载还是取消？");
                proof {
                    assert(o@ =~= file@ + " 在打开后已被更改。要覆盖磁盘文件、重新加载还是取消？"@);
                }
                o
            }
            } else {
                {
                let mut o: Vec<char> = Vec::new();
                push_str(&mut o, file);
                push_str(&mut o, " changed after it was opened. Overwrite the disk file, reload it, or cancel?");
                proof {
                    assert(o@ =~= file@ + " changed after it was opened. Overwrite the disk file, reload it, or cancel?"@);
                }
                o
            }
            }
        }
        Message::SaveParseProblems { count, detail } => {
            if zh {
                {
                let mut o: Vec<char> = Vec::new();
                push_str(&mut o, "文本包含 ");
                push_decimal(&mut o, count as u128);
                push_str(&mut o, " 个 CSV 解析错误。第一个错误: ");
                push_str(&mut o, detail);
                push_str(&mut o, "\n\n仍然保存将保留无效的 CSV 文本。");
                proof {
                    assert(o@ =~= "文本包含 "@ + decimal(count as nat) + " 个 CSV 解析错误。第一个错误: "@ + detail@ + "\n\n仍然保存将保留无效的 CSV 文本。"@);
                }
                o
            }
            } else {
                {
                let mut o: Vec<char> = Vec::new();
                push_str(&mut o, "This text contains ");
                push_decimal(&mut o, count as u128);
                push_str(&mut o, " CSV parse error(s). First error: ");
                push_str(&mut o, detail);
                push_str(&mut o, "\n\nSaving anyway will preserve the invalid CSV text.");
                proof {
                    assert(o@ =~= "This text contains "@ + decimal(count as nat) + " CSV parse error(s). First error: "@ + detail@ + "\n\nSaving anyway will preserve the invalid CSV text."@);
                }
                o
            }
            }
        }
        Message::SaveCellProblems(count) => {
            if zh {
                {
                let mut o: Vec<char> = Vec::new();
                push_str(&mut o, "文件包含 ");
                push_decimal(&mut o, count as u128);
                push_str(&mut o, " 个存在红色兼容性或结构问题的单元格。");
                proof {
                    assert(o@ =~= "文件包含 "@ + decimal(count as nat) + " 个存在红色兼容性或结构问题的单元格。"@);
                }
                o
            }
            } else {
                {
                let mut o: Vec<char> = Vec::new();
                push_str(&mut o, "This file contains ");
                push_decimal(&mut o, count as u128);
                push_str(&mut o, " cells with red compatibility or structure problems.");
                proof {
                    assert(o@ =~= "This file contains "@ + decimal(count as nat) + " cells with red compatibility or structure problems."@);
                }
                o
            }
            }
        }
        Message::StructuralMismatch(expected) => {
            if zh {
                {
                let mut o: Vec<char> = Vec::new();
                push_str(&mut o, "与该列推断出的 ");
                push_str(&mut o, expected);
                push_str(&mut o, " 结构不匹配");
                proof {
                    assert(o@ =~= "与该列推断出的 "@ + expected@ + " 结构不匹配"@);
                }
                o
            }
            } else {
                {
                let mut o: Vec<char> = Vec::new();
                push_str(&mut o, "Does not match the column's inferred ");
                push_str(&mut o, expected);
                push_str(&mut o, " structure");
                proof {
                    assert(o@ =~= "Does not match the column's inferred "@ + expected@ + " structure"@);
                }
                o
            }
            }
        }
        Message::Technical { prefix, detail } => {
                let mut o: Vec<char> = Vec::new();
                push_str(&mut o, language.text(prefix));
                push_str(&mut o, ": ");
                push_str(&mut o, detail);
                proof {
                    assert(o@ =~= translation(language, prefix) + ": "@ + detail@);
                }
                o
            },
    };
    string_of(&chars)
}

/// The text of a message in the interface language.
pub fn message(value: Message<'_>) -> (r: String)
    ensures
        exists|l: Language| r@ == message_text(l, value),
{
    message_for(language(), value)
}

#[derive(Clone, Copy, Debug, PartialEq, Eq, Structural)]
pub enum Count {
    Files,
    CsvFiles,
    ScanWarnings,
    CsvErrors,
    RedCells,
    YellowColumns,
    Matches,
}

/// A count with its label in a language.
pub open spec fn count_text(language: Language, label: Count, value: usize) -> Seq<char> {
    match (language, label) {
        (Language::Zh, Count::Files) => (decimal(value as nat) + " 个文件"@),
        (Language::Zh, Count::CsvFiles) => (decimal(value as nat) + " 个 CSV 文件"@),
        (Language::Zh, Count::ScanWarnings) => (decimal(value as nat) + " 个扫描警告"@),
        (Language::Zh, Count::CsvErrors) => (decimal(value as nat) + " 个 CSV 错误"@),
        (Language::Zh, Count::RedCells) => (decimal(value as nat) + " 个红色单元格"@),
        (Language::Zh, Count::YellowColumns) => (decimal(value as nat) + " 个黄色列"@),
        (Language::Zh, Count::Matches) => (decimal(value as nat) + " 个匹配项"@),
        (Language::En, Count::Files) => (decimal(value as nat) + " files"@),
        (Language::En, Count::CsvFiles) => (decimal(value as nat) + " CSV files"@),
        (Language::En, Count::ScanWarnings) => (decimal(value as nat) + " scan warnings"@),
        (Language::En, Count::CsvErrors) => (decimal(value as nat) + " CSV errors"@),
        (Language::En, Count::RedCells) => (decimal(value as nat) + " red cells"@),
        (Language::En, Count::YellowColumns) => (decimal(value as nat) + " yellow columns"@),
        (Language::En, Count::Matches) => (decimal(value as nat) + " matches"@),
    }
}

/// A count with its label in a language (see `count_text`).
pub fn count_for(language: Language, label: Count, value: usize) -> (r: String)
    ensures
        r@ == count_text(language, label, value),
{
    let chars: Vec<char> = match (language, label) {
        (Language::Zh, Count::Files) => {
                let mut o: Vec<char> = Vec::new();
                push_decimal(&mut o, value as u128);
                push_str(&mut o, " 个文件");
                proof {
                    assert(o@ =~= decimal(value as nat) + " 个文件"@);
                }
                o
            },
        (Language::Zh, Count::CsvFiles) => {
                let mut o: Vec<char> = Vec::new();
                push_decimal(&mut o, value as u128);
                push_str(&mut o, " 个 CSV 文件");
                proof {
                    assert(o@ =~= decimal(value as nat) + " 个 CSV 文件"@);
                }
                o
            },
        (Language::Zh, Count::ScanWarnings) => {
                let mut o: Vec<char> = Vec::new();
                push_decimal(&mut o, value as u128);
                push_str(&mut o, " 个扫描警告");
                proof {
                    assert(o@ =~= decimal(value as nat) + " 个扫描警告"@);
                }
                o
            },
        (Language::Zh, Count::CsvErrors) => {
                let mut o: Vec<char> = Vec::new();
                push_decimal(&mut o, value as u128);
                push_str(&mut o, " 个 CSV 错误");
                proof {
                    assert(o@ =~= decimal(value as nat) + " 个 CSV 错误"@);
                }
                o
            },
        (Language::Zh, Count::RedCells) => {
                let mut o: Vec<char> = Vec::new();
                push_decimal(&mut o, value as u128);
                push_str(&mut o, " 个红色单元格");
                proof {
                    assert(o@ =~= decimal(value as nat) + " 个红色单元格"@);
                }
                o
            },
        (Language::Zh, Count::YellowColumns) => {
                let mut o: Vec<char> = Vec::new();
                push_decimal(&mut o, value as u128);
                push_str(&mut o, " 个黄色列");
                proof {
                    assert(o@ =~= decimal(value as nat) + " 个黄色列"@);
                }
                o
            },
        (Language::Zh, Count::Matches) => {
                let mut o: Vec<char> = Vec::new();
                push_decimal(&mut o, value as u128);
                push_str(&mut o, " 个匹配项");
                proof {
                    assert(o@ =~= decimal(value as nat) + " 个匹配项"@);
                }
                o
            },
        (Language::En, Count::Files) => {
                let mut o: Vec<char> = Vec::new();
                push_decimal(&mut o, value as u128);
                push_str(&mut o, " files");
                proof {
                    assert(o@ =~= decimal(value as nat) + " files"@);
                }
                o
            },
        (Language::En, Count::CsvFiles) => {
                let mut o: Vec<char> = Vec::new();
                push_decimal(&mut o, value as u128);
                push_str(&mut o, " CSV files");
                proof {
                    assert(o@ =~= decimal(value as nat) + " CSV files"@);
                }
                o
            },
        (Language::En, Count::ScanWarnings) => {
                let mut o: Vec<char> = Vec::new();
                push_decimal(&mut o, value as u128);
                push_str(&mut o, " scan warnings");
                proof {
                    assert(o@ =~= decimal(value as nat) + " scan warnings"@);
                }
                o
            },
        (Language::En, Count::CsvErrors) => {
                let mut o: Vec<char> = Vec::new();
                push_decimal(&mut o, value as u128);
                push_str(&mut o, " CSV errors");
                proof {
                    assert(o@ =~= decimal(value as nat) + " CSV errors"@);
                }
                o
            },
        (Language::En, Count::RedCells) => {
                let mut o: Vec<char> = Vec::new();
                push_decimal(&mut o, value as u128);
                push_str(&mut o, " red cells");
                proof {
                    assert(o@ =~= decimal(value as nat) + " red cells"@);
                }
                o
            },
        (Language::En, Count::YellowColumns) => {
                let mut o: Vec<char> = Vec::new();
                push_decimal(&mut o, value as u128);
                push_str(&mut o, " yellow columns");
                proof {
                    assert(o@ =~= decimal(value as nat) + " yellow columns"@);
                }
                o
            },
        (Language::En, Count::Matches) => {
                let mut o: Vec<char> = Vec::new();
                push_decimal(&mut o, value as u128);
                push_str(&mut o, " matches");
                proof {
                    assert(o@ =~= decimal(value as nat) + " matches"@);
                }
                o
            },
    };
    string_of(&chars)
}

/// A count with its label in the interface language.
pub fn count(label: Count, value: usize) -> (r: String)
    ensures
        exists|l: Language| r@ == count_text(l, label, value),
{
    count_for(language(), label, value)
}

} // verus!

verus! {

#[derive(Clone, Copy, Debug, PartialEq, Eq, Structural)]
pub enum ShortcutGroup {
    Global,
    FileSearch,
    TableNavigation,
    Editing,
}

/// The key of a shortcut group's title.
pub open spec fn group_title_key(g: ShortcutGroup) -> Text {
    match g {
        ShortcutGroup::Global => Text::ShortcutGlobal,
        ShortcutGroup::FileSearch => Text::ShortcutFileSearch,
        ShortcutGroup::TableNavigation => Text::ShortcutTableNavigation,
        ShortcutGroup::Editing => Text::ShortcutEditing,
    }
}

impl ShortcutGroup {
    /// The group's title in the interface language.
    pub fn title(self) -> (r: &'static str)
        ensures
            exists|l: Language| r@ == translation(l, group_title_key(self)),
    {
        text(match self {
            ShortcutGroup::Global => Text::ShortcutGlobal,
            ShortcutGroup::FileSearch => Text::ShortcutFileSearch,
            ShortcutGroup::TableNavigation => Text::ShortcutTableNavigation,
            ShortcutGroup::Editing => Text::ShortcutEditing,
        })
    }
}

#[derive(Clone, Copy, Debug, PartialEq, Eq)]
pub struct ShortcutEntry {
    pub group: ShortcutGroup,
    pub keys: &'static str,
    pub description: Text,
}

/// The shortcut catalog: each entry's group, keys (`PRIMARY` and `REDO` stand for the platform's
/// keys) and description.
pub open spec fn shortcut_catalog() -> Seq<(ShortcutGroup, Seq<char>, Text)> {
    seq![
        (ShortcutGroup::Global, "F1"@, Text::ShortcutShowList),
        (ShortcutGroup::Global, "PRIMARY+B"@, Text::ShortcutToggleSidebar),
        (ShortcutGroup::Global, "Ctrl+Tab"@, Text::ShortcutNextTab),
        (ShortcutGroup::Global, "Ctrl+Shift+Tab"@, Text::ShortcutPreviousTab),
        (ShortcutGroup::Global, "Esc"@, Text::ShortcutCloseOverlay),
        (ShortcutGroup::FileSearch, "PRIMARY+P"@, Text::ShortcutFilePalette),
        (ShortcutGroup::FileSearch, "PRIMARY+G"@, Text::ShortcutGoToLine),
        (ShortcutGroup::FileSearch, "PRIMARY+F"@, Text::ShortcutCurrentSearch),
        (ShortcutGroup::FileSearch, "PRIMARY+Shift+F"@, Text::ShortcutGlobalSearch),
        (ShortcutGroup::FileSearch, "PRIMARY+S"@, Text::ShortcutSave),
        (ShortcutGroup::FileSearch, "PRIMARY+W"@, Text::ShortcutCloseDocument),
        (ShortcutGroup::TableNavigation, "Arrow keys"@, Text::ShortcutMoveCell),
        (ShortcutGroup::TableNavigation, "Enter / F2"@, Text::ShortcutEditCell),
        (ShortcutGroup::TableNavigation, "T"@, Text::ShortcutToggleFocus),
        (ShortcutGroup::TableNavigation, "A / D / Left / Right"@, Text::ShortcutMoveFocus),
        (ShortcutGroup::TableNavigation, "F8"@, Text::ShortcutNextProblem),
        (ShortcutGroup::TableNavigation, "Shift+F8"@, Text::ShortcutPreviousProblem),
        (ShortcutGroup::Editing, "PRIMARY+C"@, Text::ShortcutCopy),
        (ShortcutGroup::Editing, "PRIMARY+V"@, Text::ShortcutPaste),
        (ShortcutGroup::Editing, "PRIMARY+Z"@, Text::ShortcutUndo),
        (ShortcutGroup::Editing, "REDO"@, Text::ShortcutRedo),
        (ShortcutGroup::Editing, "Enter"@, Text::ShortcutCommitDown),
        (ShortcutGroup::Editing, "Tab / Shift+Tab"@, Text::ShortcutCommitAcross),
        (ShortcutGroup::Editing, "PRIMARY+Enter"@, Text::ShortcutInsertLineBreak),
        (ShortcutGroup::Editing, "Tab"@, Text::ShortcutIndentJson),
        (ShortcutGroup::Editing, "Esc"@, Text::ShortcutCancelEdit),
    ]
}

pub open spec fn entry_view(e: ShortcutEntry) -> (ShortcutGroup, Seq<char>, Text) {
    (e.group, e.keys@, e.description)
}

/// The shortcut catalog (see `shortcut_catalog`).
pub fn shortcuts() -> (r: Vec<ShortcutEntry>)
    ensures
        r@.len() == shortcut_catalog().len(),
        forall|i: int| 0 <= i < r@.len() ==> entry_view(#[trigger] r@[i]) == shortcut_catalog()[i],
{
    let r = vec![
        ShortcutEntry { group: ShortcutGroup::Global, keys: "F1", description: Text::ShortcutShowList },
        ShortcutEntry { group: ShortcutGroup::Global, keys: "PRIMARY+B", description: Text::ShortcutToggleSidebar },
        ShortcutEntry { group: ShortcutGroup::Global, keys: "Ctrl+Tab", description: Text::ShortcutNextTab },
        ShortcutEntry { group: ShortcutGroup::Global, keys: "Ctrl+Shift+Tab", description: Text::ShortcutPreviousTab },
        ShortcutEntry { group: ShortcutGroup::Global, keys: "Esc", description: Text::ShortcutCloseOverlay },
        ShortcutEntry { group: ShortcutGroup::FileSearch, keys: "PRIMARY+P", description: Text::ShortcutFilePalette },
        ShortcutEntry { group: ShortcutGroup::FileSearch, keys: "PRIMARY+G", description: Text::ShortcutGoToLine },
        ShortcutEntry { group: ShortcutGroup::FileSearch, keys: "PRIMARY+F", description: Text::ShortcutCurrentSearch },
        ShortcutEntry { group: ShortcutGroup::FileSearch, keys: "PRIMARY+Shift+F", description: Text::ShortcutGlobalSearch },
        ShortcutEntry { group: ShortcutGroup::FileSearch, keys: "PRIMARY+S", description: Text::ShortcutSave },
        ShortcutEntry { group: ShortcutGroup::FileSearch, keys: "PRIMARY+W", description: Text::ShortcutCloseDocument },
        ShortcutEntry { group: ShortcutGroup::TableNavigation, keys: "Arrow keys", description: Text::ShortcutMoveCell },
        ShortcutEntry { group: ShortcutGroup::TableNavigation, keys: "Enter / F2", description: Text::ShortcutEditCell },
        ShortcutEntry { group: ShortcutGroup::TableNavigation, keys: "T", description: Text::ShortcutToggleFocus },
        ShortcutEntry { group: ShortcutGroup::TableNavigation, keys: "A / D / Left / Right", description: Text::ShortcutMoveFocus },
        ShortcutEntry { group: ShortcutGroup::TableNavigation, keys: "F8", description: Text::ShortcutNextProblem },
        ShortcutEntry { group: ShortcutGroup::TableNavigation, keys: "Shift+F8", description: Text::ShortcutPreviousProblem },
        ShortcutEntry { group: ShortcutGroup::Editing, keys: "PRIMARY+C", description: Text::ShortcutCopy },
        ShortcutEntry { group: ShortcutGroup::Editing, keys: "PRIMARY+V", description: Text::ShortcutPaste },
        ShortcutEntry { group: ShortcutGroup::Editing, keys: "PRIMARY+Z", description: Text::ShortcutUndo },
        ShortcutEntry { group: ShortcutGroup::Editing, keys: "REDO", description: Text::ShortcutRedo },
        ShortcutEntry { group: ShortcutGroup::Editing, keys: "Enter", description: Text::ShortcutCommitDown },
        ShortcutEntry { group: ShortcutGroup::Editing, keys: "Tab / Shift+Tab", description: Text::ShortcutCommitAcross },
        ShortcutEntry { group: ShortcutGroup::Editing, keys: "PRIMARY+Enter", description: Text::ShortcutInsertLineBreak },
        ShortcutEntry { group: ShortcutGroup::Editing, keys: "Tab", description: Text::ShortcutIndentJson },
        ShortcutEntry { group: ShortcutGroup::Editing, keys: "Esc", description: Text::ShortcutCancelEdit },
    ];
    proof {
        assert(r@.len() == shortcut_catalog().len());
    }
    r
}

/// The text with every occurrence of `pattern` (scanning from the left, not overlapping)
/// replaced by `with`.
pub open spec fn replace_all(s: Seq<char>, pattern: Seq<char>, with: Seq<char>) -> Seq<char>
    decreases s.len(),
{
    if s.len() == 0 || pattern.len() == 0 {
        s
    } else if pattern.len() <= s.len() && s.take(pattern.len() as int) == pattern {
        with + replace_all(s.skip(pattern.len() as int), pattern, with)
    } else {
        seq![s[0]] + replace_all(s.drop_first(), pattern, with)
    }
}

fn starts_at(s: &Vec<char>, i: usize, pattern: &Vec<char>) -> (r: bool)
    requires
        i <= s@.len(),
    ensures
        r == (pattern@.len() <= s@.len() - i && s@.skip(i as int).take(pattern@.len() as int) == pattern@),
{
    if pattern.len() > s.len() - i {
        return false;
    }
    let mut k: usize = 0;
    while k < pattern.len()
        invariant
            i + pattern@.len() <= s@.len(),
            s@.len() <= usize::MAX,
            k <= pattern@.len(),
            forall|m: int| 0 <= m < k ==> s@[i + m] == pattern@[m],
        decreases pattern.len() - k,
    {
        if s[i + k] != pattern[k] {
            proof {
                assert(s@.skip(i as int).take(pattern@.len() as int)[k as int] != pattern@[k as int]);
            }
            return false;
        }
        k += 1;
    }
    proof {
        assert(s@.skip(i as int).take(pattern@.len() as int) =~= pattern@);
    }
    true
}

/// Replaces every occurrence of `pattern` (see `replace_all`; `str::replace`).
fn replace_chars(s: &Vec<char>, pattern: &Vec<char>, with: &Vec<char>) -> (r: Vec<char>)
    ensures
        r@ == replace_all(s@, pattern@, with@),
{
    let mut out: Vec<char> = Vec::new();
    if pattern.len() == 0 {
        crate::text::push_chars(&mut out, s);
        return out;
    }
    let mut i: usize = 0;
    proof {
        assert(s@.skip(0) =~= s@);
    }
    while i < s.len()
        invariant
            i <= s@.len(),
            pattern@.len() > 0,
            out@ + replace_all(s@.skip(i as int), pattern@, with@) == replace_all(s@, pattern@, with@),
        decreases s.len() - i,
    {
        let ghost rest = s@.skip(i as int);
        let ghost before = out@;
        if starts_at(s, i, pattern) {
            crate::text::push_chars(&mut out, with);
            proof {
                assert(rest.skip(pattern@.len() as int) =~= s@.skip(i + pattern@.len()));
            }
            i += pattern.len();
        } else {
            out.push(s[i]);
            proof {
                assert(rest[0] == s@[i as int]);
                assert(rest.drop_first() =~= s@.skip(i + 1));
            }
            i += 1;
        }
        proof {
            assert(out@ + replace_all(s@.skip(i as int), pattern@, with@) =~= before + replace_all(rest, pattern@, with@));
        }
    }
    proof {
        assert(s@.skip(i as int).len() == 0);
        assert(out@ =~= out@ + replace_all(s@.skip(i as int), pattern@, with@));
    }
    out
}

/// A shortcut's keys on a platform: `PRIMARY` is Command on macOS and Ctrl elsewhere, `REDO`
/// is Command+Shift+Z on macOS and Ctrl+Y elsewhere.
pub open spec fn shortcut_text(keys: Seq<char>, macos: bool) -> Seq<char> {
    let primary = if macos { "Command"@ } else { "Ctrl"@ };
    let redo = if macos { "Command+Shift+Z"@ } else { "Ctrl+Y"@ };
    replace_all(replace_all(keys, "PRIMARY"@, primary), "REDO"@, redo)
}

/// A shortcut's keys on a platform (see `shortcut_text`).
pub fn shortcut_keys(keys: &str, macos: bool) -> (r: String)
    ensures
        r@ == shortcut_text(keys@, macos),
{
    let primary = if macos { chars_of("Command") } else { chars_of("Ctrl") };
    let redo = if macos { chars_of("Command+Shift+Z") } else { chars_of("Ctrl+Y") };
    let first = replace_chars(&chars_of(keys), &chars_of("PRIMARY"), &primary);
    let second = replace_chars(&first, &chars_of("REDO"), &redo);
    string_of(&second)
}

/// A search's progress: still searching, or the number of matches (with `+` when the list was cut short).
pub open spec fn search_summary_text(language: Language, loading: bool, truncated: bool, value: usize) -> Seq<char> {
    match (language, loading, truncated) {
        (Language::Zh, true, _) => "正在搜索 · "@ + decimal(value as nat),
        (Language::Zh, false, true) => decimal(value as nat) + "+ 个匹配项"@,
        (Language::Zh, false, false) => decimal(value as nat) + " 个匹配项"@,
        (Language::En, true, _) => "Searching · "@ + decimal(value as nat),
        (Language::En, false, true) => decimal(value as nat) + "+ matches"@,
        (Language::En, false, false) => decimal(value as nat) + " matches"@,
    }
}

/// A search's progress: still searching, or the number of matches (with `+` when the list was cut short) in a language (see `search_summary_text`)
pub fn search_summary_for(language: Language, loading: bool, truncated: bool, value: usize) -> (r: String)
    ensures
        r@ == search_summary_text(language, loading, truncated, value),
{
    let chars: Vec<char> = match (language, loading, truncated) {
        (Language::Zh, true, _) => {
            let mut o: Vec<char> = Vec::new();
            push_str(&mut o, "正在搜索 · ");
            push_decimal(&mut o, value as u128);
            proof {
                assert(o@ =~= "正在搜索 · "@ + decimal(value as nat));
            }
            o
        },
        (Language::Zh, false, true) => {
            let mut o: Vec<char> = Vec::new();
            push_decimal(&mut o, value as u128);
            push_str(&mut o, "+ 个匹配项");
            proof {
                assert(o@ =~= decimal(value as nat) + "+ 个匹配项"@);
            }
            o
        },
        (Language::Zh, false, false) => {
            let mut o: Vec<char> = Vec::new();
            push_decimal(&mut o, value as u128);
            push_str(&mut o, " 个匹配项");
            proof {
                assert(o@ =~= decimal(value as nat) + " 个匹配项"@);
            }
            o
        },
        (Language::En, true, _) => {
            let mut o: Vec<char> = Vec::new();
            push_str(&mut o, "Searching · ");
            push_decimal(&mut o, value as u128);
            proof {
                assert(o@ =~= "Searching · "@ + decimal(value as nat));
            }
            o
        },
        (Language::En, false, true) => {
            let mut o: Vec<char> = Vec::new();
            push_decimal(&mut o, value as u128);
            push_str(&mut o, "+ matches");
            proof {
                assert(o@ =~= decimal(value as nat) + "+ matches"@);
            }
            o
        },
        (Language::En, false, false) => {
            let mut o: Vec<char> = Vec::new();
            push_decimal(&mut o, value as u128);
            push_str(&mut o, " matches");
            proof {
                assert(o@ =~= decimal(value as nat) + " matches"@);
            }
            o
        },
    };
    string_of(&chars)
}

/// A search's progress: still searching, or the number of matches (with `+` when the list was cut short) (in the interface language)
pub fn search_summary(loading: bool, truncated: bool, value: usize) -> (r: String)
    ensures
        exists|l: Language| r@ == search_summary_text(l, loading, truncated, value),
{
    search_summary_for(language(), loading, truncated, value)
}

/// A number of physical lines.
pub open spec fn physical_lines_text(language: Language, value: usize) -> Seq<char> {
    match language {
        Language::Zh => decimal(value as nat) + " 个物理行"@,
        Language::En => decimal(value as nat) + " physical lines"@,
    }
}

/// A number of physical lines in a language (see `physical_lines_text`)
pub fn physical_lines_for(language: Language, value: usize) -> (r: String)
    ensures
        r@ == physical_lines_text(language, value),
{
    let chars: Vec<char> = match language {
        Language::Zh => {
            let mut o: Vec<char> = Vec::new();
            push_decimal(&mut o, value as u128);
            push_str(&mut o, " 个物理行");
            proof {
                assert(o@ =~= decimal(value as nat) + " 个物理行"@);
            }
            o
        },
        Language::En => {
            let mut o: Vec<char> = Vec::new();
            push_decimal(&mut o, value as u128);
            push_str(&mut o, " physical lines");
            proof {
                assert(o@ =~= decimal(value as nat) + " physical lines"@);
            }
            o
        },
    };
    string_of(&chars)
}

/// A number of physical lines (in the interface language)
pub fn physical_lines(value: usize) -> (r: String)
    ensures
        exists|l: Language| r@ == physical_lines_text(l, value),
{
    physical_lines_for(language(), value)
}

/// A number of records and columns.
pub open spec fn records_columns_text(language: Language, records: usize, columns: usize) -> Seq<char> {
    match language {
        Language::Zh => decimal(records as nat) + " 条记录 · "@ + decimal(columns as nat) + " 列"@,
        Language::En => decimal(records as nat) + " records · "@ + decimal(columns as nat) + " columns"@,
    }
}

/// A number of records and columns in a language (see `records_columns_text`)
pub fn records_columns_for(language: Language, records: usize, columns: usize) -> (r: String)
    ensures
        r@ == records_columns_text(language, records, columns),
{
    let chars: Vec<char> = match language {
        Language::Zh => {
            let mut o: Vec<char> = Vec::new();
            push_decimal(&mut o, records as u128);
            push_str(&mut o, " 条记录 · ");
            push_decimal(&mut o, columns as u128);
            push_str(&mut o, " 列");
            proof {
                assert(o@ =~= decimal(records as nat) + " 条记录 · "@ + decimal(columns as nat) + " 列"@);
            }
            o
        },
        Language::En => {
            let mut o: Vec<char> = Vec::new();
            push_decimal(&mut o, records as u128);
            push_str(&mut o, " records · ");
            push_decimal(&mut o, columns as u128);
            push_str(&mut o, " columns");
            proof {
                assert(o@ =~= decimal(records as nat) + " records · "@ + decimal(columns as nat) + " columns"@);
            }
            o
        },
    };
    string_of(&chars)
}

/// A number of records and columns (in the interface language)
pub fn records_columns(records: usize, columns: usize) -> (r: String)
    ensures
        exists|l: Language| r@ == records_columns_text(l, records, columns),
{
    records_columns_for(language(), records, columns)
}

/// How many header records the configuration asks for.
pub open spec fn header_requirement_text(language: Language, header_rows: usize) -> Seq<char> {
    match language {
        Language::Zh => "表头配置需要 "@ + decimal(header_rows as nat) + " 行"@,
        Language::En => "Header configuration requires "@ + decimal(header_rows as nat) + " records"@,
    }
}

/// How many header records the configuration asks for in a language (see `header_requirement_text`)
pub fn header_requirement_for(language: Language, header_rows: usize) -> (r: String)
    ensures
        r@ == header_requirement_text(language, header_rows),
{
    let chars: Vec<char> = match language {
        Language::Zh => {
            let mut o: Vec<char> = Vec::new();
            push_str(&mut o, "表头配置需要 ");
            push_decimal(&mut o, header_rows as u128);
            push_str(&mut o, " 行");
            proof {
                assert(o@ =~= "表头配置需要 "@ + decimal(header_rows as nat) + " 行"@);
            }
            o
        },
        Language::En => {
            let mut o: Vec<char> = Vec::new();
            push_str(&mut o, "Header configuration requires ");
            push_decimal(&mut o, header_rows as u128);
            push_str(&mut o, " records");
            proof {
                assert(o@ =~= "Header configuration requires "@ + decimal(header_rows as nat) + " records"@);
            }
            o
        },
    };
    string_of(&chars)
}

/// How many header records the configuration asks for (in the interface language)
pub fn header_requirement(header_rows: usize) -> (r: String)
    ensures
        exists|l: Language| r@ == header_requirement_text(l, header_rows),
{
    header_requirement_for(language(), header_rows)
}

/// That CSV parsing failed, with the number of errors.
pub open spec fn csv_parse_failed_text(language: Language, error_count: usize) -> Seq<char> {
    match language {
        Language::Zh => "CSV 解析失败（"@ + decimal(error_count as nat) + " 个错误）"@,
        Language::En => "CSV parse failed ("@ + decimal(error_count as nat) + ")"@,
    }
}

/// That CSV parsing failed, with the number of errors in a language (see `csv_parse_failed_text`)
pub fn csv_parse_failed_for(language: Language, error_count: usize) -> (r: String)
    ensures
        r@ == csv_parse_failed_text(language, error_count),
{
    let chars: Vec<char> = match language {
        Language::Zh => {
            let mut o: Vec<char> = Vec::new();
            push_str(&mut o, "CSV 解析失败（");
            push_decimal(&mut o, error_count as u128);
            push_str(&mut o, " 个错误）");
            proof {
                assert(o@ =~= "CSV 解析失败（"@ + decimal(error_count as nat) + " 个错误）"@);
            }
            o
        },
        Language::En => {
            let mut o: Vec<char> = Vec::new();
            push_str(&mut o, "CSV parse failed (");
            push_decimal(&mut o, error_count as u128);
            push_str(&mut o, ")");
            proof {
                assert(o@ =~= "CSV parse failed ("@ + decimal(error_count as nat) + ")"@);
            }
            o
        },
    };
    string_of(&chars)
}

/// That CSV parsing failed, with the number of errors (in the interface language)
pub fn csv_parse_failed(error_count: usize) -> (r: String)
    ensures
        exists|l: Language| r@ == csv_parse_failed_text(l, error_count),
{
    csv_parse_failed_for(language(), error_count)
}

/// A number of files that could not be searched.
pub open spec fn unsearchable_files_text(language: Language, value: usize) -> Seq<char> {
    match language {
        Language::Zh => decimal(value as nat) + " 个文件无法搜索"@,
        Language::En => decimal(value as nat) + " files could not be searched"@,
    }
}

/// A number of files that could not be searched in a language (see `unsearchable_files_text`)
pub fn unsearchable_files_for(language: Language, value: usize) -> (r: String)
    ensures
        r@ == unsearchable_files_text(language, value),
{
    let chars: Vec<char> = match language {
        Language::Zh => {
            let mut o: Vec<char> = Vec::new();
            push_decimal(&mut o, value as u128);
            push_str(&mut o, " 个文件无法搜索");
            proof {
                assert(o@ =~= decimal(value as nat) + " 个文件无法搜索"@);
            }
            o
        },
        Language::En => {
            let mut o: Vec<char> = Vec::new();
            push_decimal(&mut o, value as u128);
            push_str(&mut o, " files could not be searched");
            proof {
                assert(o@ =~= decimal(value as nat) + " files could not be searched"@);
            }
            o
        },
    };
    string_of(&chars)
}

/// A number of files that could not be searched (in the interface language)
pub fn unsearchable_files(value: usize) -> (r: String)
    ensures
        exists|l: Language| r@ == unsearchable_files_text(l, value),
{
    unsearchable_files_for(language(), value)
}

} // verus!
