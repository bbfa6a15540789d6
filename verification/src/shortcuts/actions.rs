//! The actions that a key can be given, and what they start with.
//!
//! An action is its place: the ones of the text and the panes come first, the
//! ones of the menus behind them. A place is never used again, because the keys
//! that were saved name it.
use vstd::prelude::*;

verus! {

/// A boxed note in the text.
#[derive(Clone, Copy, Debug, PartialEq, Eq, Structural)]
pub enum CalloutType {
    Note,
    Tip,
    Important,
    Warning,
    Caution,
}

/// A form that is put round a word.
#[derive(Clone, Copy, Debug, PartialEq, Eq, Structural)]
pub enum InsertEdit {
    MarkdownLink,
    WikiLink,
    WikiLinkAlias,
    Ruby,
    SideNote,
    RubyWithSideNote,
    EmphasisDots,
    SesameDotsNote,
    RoundDotsNote,
    WhiteRoundDotsNote,
    DoubleRoundDotsNote,
    CrossDotsNote,
    LineNote,
    DoubleLineNote,
    WaveLineNote,
    ChainLineNote,
    DashLineNote,
    Upright,
    Warichu,
    SmallText,
    LargeText,
    MarkdownImage,
    WikiImage,
    Highlight,
    Comment,
    Footnote,
    Callout(CalloutType),
}

/// A form that is given to a line.
#[derive(Clone, Copy, Debug, PartialEq, Eq, Structural)]
pub enum LineNoteEdit {
    Heading(u8),
    NoHeading,
    Indent(u8),
    NoIndent,
    AlignToEnd(u8),
    NoAlignToEnd,
}

/// Anything of the insert menu.
#[derive(Clone, Copy, Debug, PartialEq, Eq, Structural)]
pub enum InsertShape {
    Edit(InsertEdit),
    Line(LineNoteEdit),
    PageBreak,
    Table,
}

/// An action of the menus.
#[derive(Clone, Copy, Debug, PartialEq, Eq, Structural)]
pub enum ShortcutAction {
    NewFile,
    NewTerminal,
    FolderTerminal,
    Insert(InsertShape),
    /// A list with the mark of this number.
    Bullets(u8),
    NumberedList,
    Renumber,
}

/// How many actions come before those of the menus.
pub const BODY_COUNT: usize = 46;

/// How many actions the file menu adds.
pub const FILE_COUNT: usize = 3;

/// How many actions the insert menu adds.
pub const INSERT_COUNT: usize = 56;

/// How many actions there are.
pub const ACTION_COUNT: usize = 105;

/// The place of the action that only a button has. It stays taken.
pub const RESERVED: usize = 18;

/// The action of the menus at a place.
pub open spec fn menu_action(id: usize) -> Option<ShortcutAction> {
    match id {
        46usize => Some(ShortcutAction::NewFile),
        47usize => Some(ShortcutAction::NewTerminal),
        48usize => Some(ShortcutAction::FolderTerminal),
        49usize => Some(ShortcutAction::Insert(InsertShape::Edit(InsertEdit::MarkdownLink))),
        50usize => Some(ShortcutAction::Insert(InsertShape::Edit(InsertEdit::WikiLink))),
        51usize => Some(ShortcutAction::Insert(InsertShape::Edit(InsertEdit::WikiLinkAlias))),
        52usize => Some(ShortcutAction::Insert(InsertShape::Edit(InsertEdit::Ruby))),
        53usize => Some(ShortcutAction::Insert(InsertShape::Edit(InsertEdit::SideNote))),
        54usize => Some(ShortcutAction::Insert(InsertShape::Edit(InsertEdit::RubyWithSideNote))),
        55usize => Some(ShortcutAction::Insert(InsertShape::Edit(InsertEdit::EmphasisDots))),
        56usize => Some(ShortcutAction::Insert(InsertShape::Edit(InsertEdit::SesameDotsNote))),
        57usize => Some(ShortcutAction::Insert(InsertShape::Edit(InsertEdit::RoundDotsNote))),
        58usize => Some(ShortcutAction::Insert(InsertShape::Edit(InsertEdit::WhiteRoundDotsNote))),
        59usize => Some(ShortcutAction::Insert(InsertShape::Edit(InsertEdit::DoubleRoundDotsNote))),
        60usize => Some(ShortcutAction::Insert(InsertShape::Edit(InsertEdit::CrossDotsNote))),
        61usize => Some(ShortcutAction::Insert(InsertShape::Edit(InsertEdit::LineNote))),
        62usize => Some(ShortcutAction::Insert(InsertShape::Edit(InsertEdit::DoubleLineNote))),
        63usize => Some(ShortcutAction::Insert(InsertShape::Edit(InsertEdit::WaveLineNote))),
        64usize => Some(ShortcutAction::Insert(InsertShape::Edit(InsertEdit::ChainLineNote))),
        65usize => Some(ShortcutAction::Insert(InsertShape::Edit(InsertEdit::DashLineNote))),
        66usize => Some(ShortcutAction::Insert(InsertShape::Edit(InsertEdit::Upright))),
        67usize => Some(ShortcutAction::Insert(InsertShape::Edit(InsertEdit::Warichu))),
        68usize => Some(ShortcutAction::Insert(InsertShape::Edit(InsertEdit::SmallText))),
        69usize => Some(ShortcutAction::Insert(InsertShape::Edit(InsertEdit::LargeText))),
        70usize => Some(ShortcutAction::Insert(InsertShape::Line(LineNoteEdit::Heading(1)))),
        71usize => Some(ShortcutAction::Insert(InsertShape::Line(LineNoteEdit::Heading(2)))),
        72usize => Some(ShortcutAction::Insert(InsertShape::Line(LineNoteEdit::Heading(3)))),
        73usize => Some(ShortcutAction::Insert(InsertShape::Line(LineNoteEdit::Heading(4)))),
        74usize => Some(ShortcutAction::Insert(InsertShape::Line(LineNoteEdit::Heading(5)))),
        75usize => Some(ShortcutAction::Insert(InsertShape::Line(LineNoteEdit::Heading(6)))),
        76usize => Some(ShortcutAction::Insert(InsertShape::Line(LineNoteEdit::NoHeading))),
        77usize => Some(ShortcutAction::Insert(InsertShape::Line(LineNoteEdit::Indent(1)))),
        78usize => Some(ShortcutAction::Insert(InsertShape::Line(LineNoteEdit::Indent(2)))),
        79usize => Some(ShortcutAction::Insert(InsertShape::Line(LineNoteEdit::Indent(3)))),
        80usize => Some(ShortcutAction::Insert(InsertShape::Line(LineNoteEdit::Indent(4)))),
        81usize => Some(ShortcutAction::Insert(InsertShape::Line(LineNoteEdit::NoIndent))),
        82usize => Some(ShortcutAction::Insert(InsertShape::Line(LineNoteEdit::AlignToEnd(0)))),
        83usize => Some(ShortcutAction::Insert(InsertShape::Line(LineNoteEdit::AlignToEnd(1)))),
        84usize => Some(ShortcutAction::Insert(InsertShape::Line(LineNoteEdit::AlignToEnd(2)))),
        85usize => Some(ShortcutAction::Insert(InsertShape::Line(LineNoteEdit::AlignToEnd(3)))),
        86usize => Some(ShortcutAction::Insert(InsertShape::Line(LineNoteEdit::AlignToEnd(4)))),
        87usize => Some(ShortcutAction::Insert(InsertShape::Line(LineNoteEdit::NoAlignToEnd))),
        88usize => Some(ShortcutAction::Insert(InsertShape::PageBreak)),
        89usize => Some(ShortcutAction::Bullets(0)),
        90usize => Some(ShortcutAction::Bullets(1)),
        91usize => Some(ShortcutAction::Bullets(2)),
        92usize => Some(ShortcutAction::NumberedList),
        93usize => Some(ShortcutAction::Renumber),
        94usize => Some(ShortcutAction::Insert(InsertShape::Edit(InsertEdit::MarkdownImage))),
        95usize => Some(ShortcutAction::Insert(InsertShape::Edit(InsertEdit::WikiImage))),
        96usize => Some(ShortcutAction::Insert(InsertShape::Edit(InsertEdit::Highlight))),
        97usize => Some(ShortcutAction::Insert(InsertShape::Edit(InsertEdit::Comment))),
        98usize => Some(ShortcutAction::Insert(InsertShape::Edit(InsertEdit::Footnote))),
        99usize => Some(ShortcutAction::Insert(InsertShape::Edit(InsertEdit::Callout(CalloutType::Note)))),
        100usize => Some(ShortcutAction::Insert(InsertShape::Edit(InsertEdit::Callout(CalloutType::Tip)))),
        101usize => Some(ShortcutAction::Insert(InsertShape::Edit(InsertEdit::Callout(CalloutType::Important)))),
        102usize => Some(ShortcutAction::Insert(InsertShape::Edit(InsertEdit::Callout(CalloutType::Warning)))),
        103usize => Some(ShortcutAction::Insert(InsertShape::Edit(InsertEdit::Callout(CalloutType::Caution)))),
        104usize => Some(ShortcutAction::Insert(InsertShape::Table)),
        _ => None,
    }
}

/// The action of the menus at a place; the ones before have none.
pub fn menu_at(id: usize) -> (out: Option<ShortcutAction>)
    ensures
        out == menu_action(id),
{
    match id {
        46usize => Some(ShortcutAction::NewFile),
        47usize => Some(ShortcutAction::NewTerminal),
        48usize => Some(ShortcutAction::FolderTerminal),
        49usize => Some(ShortcutAction::Insert(InsertShape::Edit(InsertEdit::MarkdownLink))),
        50usize => Some(ShortcutAction::Insert(InsertShape::Edit(InsertEdit::WikiLink))),
        51usize => Some(ShortcutAction::Insert(InsertShape::Edit(InsertEdit::WikiLinkAlias))),
        52usize => Some(ShortcutAction::Insert(InsertShape::Edit(InsertEdit::Ruby))),
        53usize => Some(ShortcutAction::Insert(InsertShape::Edit(InsertEdit::SideNote))),
        54usize => Some(ShortcutAction::Insert(InsertShape::Edit(InsertEdit::RubyWithSideNote))),
        55usize => Some(ShortcutAction::Insert(InsertShape::Edit(InsertEdit::EmphasisDots))),
        56usize => Some(ShortcutAction::Insert(InsertShape::Edit(InsertEdit::SesameDotsNote))),
        57usize => Some(ShortcutAction::Insert(InsertShape::Edit(InsertEdit::RoundDotsNote))),
        58usize => Some(ShortcutAction::Insert(InsertShape::Edit(InsertEdit::WhiteRoundDotsNote))),
        59usize => Some(ShortcutAction::Insert(InsertShape::Edit(InsertEdit::DoubleRoundDotsNote))),
        60usize => Some(ShortcutAction::Insert(InsertShape::Edit(InsertEdit::CrossDotsNote))),
        61usize => Some(ShortcutAction::Insert(InsertShape::Edit(InsertEdit::LineNote))),
        62usize => Some(ShortcutAction::Insert(InsertShape::Edit(InsertEdit::DoubleLineNote))),
        63usize => Some(ShortcutAction::Insert(InsertShape::Edit(InsertEdit::WaveLineNote))),
        64usize => Some(ShortcutAction::Insert(InsertShape::Edit(InsertEdit::ChainLineNote))),
        65usize => Some(ShortcutAction::Insert(InsertShape::Edit(InsertEdit::DashLineNote))),
        66usize => Some(ShortcutAction::Insert(InsertShape::Edit(InsertEdit::Upright))),
        67usize => Some(ShortcutAction::Insert(InsertShape::Edit(InsertEdit::Warichu))),
        68usize => Some(ShortcutAction::Insert(InsertShape::Edit(InsertEdit::SmallText))),
        69usize => Some(ShortcutAction::Insert(InsertShape::Edit(InsertEdit::LargeText))),
        70usize => Some(ShortcutAction::Insert(InsertShape::Line(LineNoteEdit::Heading(1)))),
        71usize => Some(ShortcutAction::Insert(InsertShape::Line(LineNoteEdit::Heading(2)))),
        72usize => Some(ShortcutAction::Insert(InsertShape::Line(LineNoteEdit::Heading(3)))),
        73usize => Some(ShortcutAction::Insert(InsertShape::Line(LineNoteEdit::Heading(4)))),
        74usize => Some(ShortcutAction::Insert(InsertShape::Line(LineNoteEdit::Heading(5)))),
        75usize => Some(ShortcutAction::Insert(InsertShape::Line(LineNoteEdit::Heading(6)))),
        76usize => Some(ShortcutAction::Insert(InsertShape::Line(LineNoteEdit::NoHeading))),
        77usize => Some(ShortcutAction::Insert(InsertShape::Line(LineNoteEdit::Indent(1)))),
        78usize => Some(ShortcutAction::Insert(InsertShape::Line(LineNoteEdit::Indent(2)))),
        79usize => Some(ShortcutAction::Insert(InsertShape::Line(LineNoteEdit::Indent(3)))),
        80usize => Some(ShortcutAction::Insert(InsertShape::Line(LineNoteEdit::Indent(4)))),
        81usize => Some(ShortcutAction::Insert(InsertShape::Line(LineNoteEdit::NoIndent))),
        82usize => Some(ShortcutAction::Insert(InsertShape::Line(LineNoteEdit::AlignToEnd(0)))),
        83usize => Some(ShortcutAction::Insert(InsertShape::Line(LineNoteEdit::AlignToEnd(1)))),
        84usize => Some(ShortcutAction::Insert(InsertShape::Line(LineNoteEdit::AlignToEnd(2)))),
        85usize => Some(ShortcutAction::Insert(InsertShape::Line(LineNoteEdit::AlignToEnd(3)))),
        86usize => Some(ShortcutAction::Insert(InsertShape::Line(LineNoteEdit::AlignToEnd(4)))),
        87usize => Some(ShortcutAction::Insert(InsertShape::Line(LineNoteEdit::NoAlignToEnd))),
        88usize => Some(ShortcutAction::Insert(InsertShape::PageBreak)),
        89usize => Some(ShortcutAction::Bullets(0)),
        90usize => Some(ShortcutAction::Bullets(1)),
        91usize => Some(ShortcutAction::Bullets(2)),
        92usize => Some(ShortcutAction::NumberedList),
        93usize => Some(ShortcutAction::Renumber),
        94usize => Some(ShortcutAction::Insert(InsertShape::Edit(InsertEdit::MarkdownImage))),
        95usize => Some(ShortcutAction::Insert(InsertShape::Edit(InsertEdit::WikiImage))),
        96usize => Some(ShortcutAction::Insert(InsertShape::Edit(InsertEdit::Highlight))),
        97usize => Some(ShortcutAction::Insert(InsertShape::Edit(InsertEdit::Comment))),
        98usize => Some(ShortcutAction::Insert(InsertShape::Edit(InsertEdit::Footnote))),
        99usize => Some(ShortcutAction::Insert(InsertShape::Edit(InsertEdit::Callout(CalloutType::Note)))),
        100usize => Some(ShortcutAction::Insert(InsertShape::Edit(InsertEdit::Callout(CalloutType::Tip)))),
        101usize => Some(ShortcutAction::Insert(InsertShape::Edit(InsertEdit::Callout(CalloutType::Important)))),
        102usize => Some(ShortcutAction::Insert(InsertShape::Edit(InsertEdit::Callout(CalloutType::Warning)))),
        103usize => Some(ShortcutAction::Insert(InsertShape::Edit(InsertEdit::Callout(CalloutType::Caution)))),
        104usize => Some(ShortcutAction::Insert(InsertShape::Table)),
        _ => None,
    }
}

/// The words for an action, in Japanese and in English; the forms of the insert
/// menu have theirs there.
pub open spec fn words_of(id: usize) -> Option<(&'static str, &'static str)> {
    match id {
        0usize => Some(("ファイルを開く", "Open File")),
        1usize => Some(("保存", "Save")),
        2usize => Some(("名前を付けて保存", "Save As")),
        3usize => Some(("TABを閉じる", "Close Tab")),
        4usize => Some(("本文を検索", "Find in Text")),
        5usize => Some(("本文を置換", "Replace in Text")),
        6usize => Some(("行へ移動", "Go to Line")),
        7usize => Some(("閉じたTABを開き直す", "Reopen Closed Tab")),
        8usize => Some(("元に戻す", "Undo")),
        9usize => Some(("やり直し", "Redo")),
        10usize => Some(("Quick Draftを開く（本文）", "Open Quick Draft (from Text)")),
        11usize => Some(("次のTAB", "Next Tab")),
        12usize => Some(("前のTAB", "Previous Tab")),
        13usize => Some(("左のPaneへ", "To Left Pane")),
        14usize => Some(("右のPaneへ", "To Right Pane")),
        15usize => Some(("上のPaneへ", "To Upper Pane")),
        16usize => Some(("下段または下のPaneへ", "To Strip Below or Lower Pane")),
        17usize => Some(("下段を表示・閉じる", "Show or Hide Strip Below")),
        18usize => Some(("新しいTAB", "New Tab")),
        19usize => Some(("戻る", "Back")),
        20usize => Some(("進む", "Forward")),
        21usize => Some(("次の1文字を削除", "Delete Next Character")),
        22usize => Some(("1単語後へ", "Forward One Word")),
        23usize => Some(("1単語前へ", "Back One Word")),
        24usize => Some(("行末まで切り取り", "Cut to End of Line")),
        25usize => Some(("選択を開始・解除", "Start or Cancel Selection")),
        26usize => Some(("矩形選択を開始・解除", "Start or Cancel Rectangle Selection")),
        27usize => Some(("Kill Ringへコピー", "Copy to Kill Ring")),
        28usize => Some(("Kill Ringへ切り取り", "Cut to Kill Ring")),
        29usize => Some(("最新のKillを貼り付け", "Paste Latest Kill")),
        30usize => Some(("前のKillへ置き換え", "Replace with Previous Kill")),
        31usize => Some(("1単語後まで選択", "Select Forward One Word")),
        32usize => Some(("1単語前まで選択", "Select Back One Word")),
        33usize => Some(("行を削除", "Delete Line")),
        34usize => Some(("行を上へ移動", "Move Line Up")),
        35usize => Some(("行を下へ移動", "Move Line Down")),
        36usize => Some(("行を上へ複製", "Duplicate Line Up")),
        37usize => Some(("行を下へ複製", "Duplicate Line Down")),
        38usize => Some(("全文をコピー（Quick Draft内）", "Copy All (in Quick Draft)")),
        39usize => Some(("コピーして閉じる（Quick Draft内）", "Copy and Close (in Quick Draft)")),
        40usize => Some(("クリア（Quick Draft内）", "Clear (in Quick Draft)")),
        41usize => Some(("TABへ貼り付け（Quick Draft内）", "Paste to Tab (in Quick Draft)")),
        42usize => Some(("縦書き・横書きを切り替え", "Toggle Vertical / Horizontal")),
        43usize => Some(("ソース・Previewを切り替え（Viewer終了）", "Toggle Source / Preview (Exits Viewer)")),
        44usize => Some(("Viewerを開始・終了", "Start or Exit Viewer")),
        45usize => Some(("印刷プレビューを開く", "Open Print Preview")),
        46usize => Some(("新規文書", "New File")),
        47usize => Some(("新しいTerminal", "New Terminal")),
        48usize => Some(("文書のフォルダでTerminal起動", "Terminal in Document Folder")),
        89usize => Some(("箇条書き -", "Bullet List -")),
        90usize => Some(("箇条書き *", "Bullet List *")),
        91usize => Some(("箇条書き +", "Bullet List +")),
        92usize => Some(("番号付きリスト", "Numbered List")),
        93usize => Some(("番号を振り直す", "Renumber")),
        _ => None,
    }
}

/// [`words_of`], in one language.
pub fn name_at(id: usize, english: bool) -> (out: Option<&'static str>)
    ensures
        match words_of(id) {
            Some(both) => out is Some && out->0@ == if english {
                both.1@
            } else {
                both.0@
            },
            None => out is None,
        },
{
    let both: (&'static str, &'static str) = match id {
        0usize => ("ファイルを開く", "Open File"),
        1usize => ("保存", "Save"),
        2usize => ("名前を付けて保存", "Save As"),
        3usize => ("TABを閉じる", "Close Tab"),
        4usize => ("本文を検索", "Find in Text"),
        5usize => ("本文を置換", "Replace in Text"),
        6usize => ("行へ移動", "Go to Line"),
        7usize => ("閉じたTABを開き直す", "Reopen Closed Tab"),
        8usize => ("元に戻す", "Undo"),
        9usize => ("やり直し", "Redo"),
        10usize => ("Quick Draftを開く（本文）", "Open Quick Draft (from Text)"),
        11usize => ("次のTAB", "Next Tab"),
        12usize => ("前のTAB", "Previous Tab"),
        13usize => ("左のPaneへ", "To Left Pane"),
        14usize => ("右のPaneへ", "To Right Pane"),
        15usize => ("上のPaneへ", "To Upper Pane"),
        16usize => ("下段または下のPaneへ", "To Strip Below or Lower Pane"),
        17usize => ("下段を表示・閉じる", "Show or Hide Strip Below"),
        18usize => ("新しいTAB", "New Tab"),
        19usize => ("戻る", "Back"),
        20usize => ("進む", "Forward"),
        21usize => ("次の1文字を削除", "Delete Next Character"),
        22usize => ("1単語後へ", "Forward One Word"),
        23usize => ("1単語前へ", "Back One Word"),
        24usize => ("行末まで切り取り", "Cut to End of Line"),
        25usize => ("選択を開始・解除", "Start or Cancel Selection"),
        26usize => ("矩形選択を開始・解除", "Start or Cancel Rectangle Selection"),
        27usize => ("Kill Ringへコピー", "Copy to Kill Ring"),
        28usize => ("Kill Ringへ切り取り", "Cut to Kill Ring"),
        29usize => ("最新のKillを貼り付け", "Paste Latest Kill"),
        30usize => ("前のKillへ置き換え", "Replace with Previous Kill"),
        31usize => ("1単語後まで選択", "Select Forward One Word"),
        32usize => ("1単語前まで選択", "Select Back One Word"),
        33usize => ("行を削除", "Delete Line"),
        34usize => ("行を上へ移動", "Move Line Up"),
        35usize => ("行を下へ移動", "Move Line Down"),
        36usize => ("行を上へ複製", "Duplicate Line Up"),
        37usize => ("行を下へ複製", "Duplicate Line Down"),
        38usize => ("全文をコピー（Quick Draft内）", "Copy All (in Quick Draft)"),
        39usize => ("コピーして閉じる（Quick Draft内）", "Copy and Close (in Quick Draft)"),
        40usize => ("クリア（Quick Draft内）", "Clear (in Quick Draft)"),
        41usize => ("TABへ貼り付け（Quick Draft内）", "Paste to Tab (in Quick Draft)"),
        42usize => ("縦書き・横書きを切り替え", "Toggle Vertical / Horizontal"),
        43usize => ("ソース・Previewを切り替え（Viewer終了）", "Toggle Source / Preview (Exits Viewer)"),
        44usize => ("Viewerを開始・終了", "Start or Exit Viewer"),
        45usize => ("印刷プレビューを開く", "Open Print Preview"),
        46usize => ("新規文書", "New File"),
        47usize => ("新しいTerminal", "New Terminal"),
        48usize => ("文書のフォルダでTerminal起動", "Terminal in Document Folder"),
        89usize => ("箇条書き -", "Bullet List -"),
        90usize => ("箇条書き *", "Bullet List *"),
        91usize => ("箇条書き +", "Bullet List +"),
        92usize => ("番号付きリスト", "Numbered List"),
        93usize => ("番号を振り直す", "Renumber"),
        _ => {
            return None;
        },
    };
    if english {
        Some(both.1)
    } else {
        Some(both.0)
    }
}

/// The key that an action starts with; empty for none.
pub open spec fn first_key(id: usize) -> &'static str {
    match id {
        0usize => "Ctrl+O",
        1usize => "Ctrl+S",
        2usize => "Ctrl+Shift+S",
        3usize => "Ctrl+W",
        4usize => "Ctrl+F",
        5usize => "Ctrl+H",
        6usize => "Ctrl+G",
        7usize => "Ctrl+Shift+T",
        8usize => "Ctrl+Z",
        9usize => "Ctrl+Y",
        11usize => "Ctrl+Tab",
        12usize => "Ctrl+Shift+Tab",
        13usize => "Ctrl+Alt+Left",
        14usize => "Ctrl+Alt+Right",
        15usize => "Ctrl+Alt+Up",
        16usize => "Ctrl+Alt+Down",
        17usize => "Ctrl+`",
        19usize => "Alt+Left",
        20usize => "Alt+Right",
        21usize => "Ctrl+D",
        22usize => "Alt+F",
        23usize => "Alt+B",
        24usize => "Ctrl+K",
        25usize => "Ctrl+Space",
        26usize => "Ctrl+Shift+Space",
        27usize => "Alt+W",
        28usize => "Alt+X",
        29usize => "Alt+Y",
        30usize => "Alt+Shift+Y",
        31usize => "Alt+Shift+F",
        32usize => "Alt+Shift+B",
        33usize => "Ctrl+Shift+K",
        34usize => "Alt+Up",
        35usize => "Alt+Down",
        36usize => "Alt+Shift+Up",
        37usize => "Alt+Shift+Down",
        38usize => "Ctrl+Shift+C",
        45usize => "Ctrl+P",
        46usize => "Ctrl+N",
        _ => "",
    }
}

/// [`first_key`].
pub fn default_at(id: usize) -> (out: &'static str)
    ensures
        out@ == first_key(id)@,
{
    match id {
        0usize => "Ctrl+O",
        1usize => "Ctrl+S",
        2usize => "Ctrl+Shift+S",
        3usize => "Ctrl+W",
        4usize => "Ctrl+F",
        5usize => "Ctrl+H",
        6usize => "Ctrl+G",
        7usize => "Ctrl+Shift+T",
        8usize => "Ctrl+Z",
        9usize => "Ctrl+Y",
        11usize => "Ctrl+Tab",
        12usize => "Ctrl+Shift+Tab",
        13usize => "Ctrl+Alt+Left",
        14usize => "Ctrl+Alt+Right",
        15usize => "Ctrl+Alt+Up",
        16usize => "Ctrl+Alt+Down",
        17usize => "Ctrl+`",
        19usize => "Alt+Left",
        20usize => "Alt+Right",
        21usize => "Ctrl+D",
        22usize => "Alt+F",
        23usize => "Alt+B",
        24usize => "Ctrl+K",
        25usize => "Ctrl+Space",
        26usize => "Ctrl+Shift+Space",
        27usize => "Alt+W",
        28usize => "Alt+X",
        29usize => "Alt+Y",
        30usize => "Alt+Shift+Y",
        31usize => "Alt+Shift+F",
        32usize => "Alt+Shift+B",
        33usize => "Ctrl+Shift+K",
        34usize => "Alt+Up",
        35usize => "Alt+Down",
        36usize => "Alt+Shift+Up",
        37usize => "Alt+Shift+Down",
        38usize => "Ctrl+Shift+C",
        45usize => "Ctrl+P",
        46usize => "Ctrl+N",
        _ => "",
    }
}

/// The group that an action is listed under.
pub open spec fn group_of(id: usize) -> i32 {
    if id <= 9 || (33 <= id && id <= 37) || id == 45 {
        0
    } else if id == 10 || (38 <= id && id <= 41) {
        6
    } else if id <= 20 || (42 <= id && id <= 44) {
        4
    } else if id <= 32 {
        5
    } else if id < BODY_COUNT + FILE_COUNT {
        7
    } else {
        8
    }
}

/// [`group_of`].
pub fn category_at(id: usize) -> (out: i32)
    ensures
        out == group_of(id),
{
    if id <= 9 || (33 <= id && id <= 37) || id == 45 {
        0
    } else if id == 10 || (38 <= id && id <= 41) {
        6
    } else if id <= 20 || (42 <= id && id <= 44) {
        4
    } else if id <= 32 {
        5
    } else if id < BODY_COUNT + FILE_COUNT {
        7
    } else {
        8
    }
}

/// Where an action's key is heard: in the text (0) or within the quick draft
/// (1).
pub open spec fn heard_in(id: usize) -> i32 {
    if 38 <= id && id <= 41 {
        1
    } else {
        0
    }
}

/// [`heard_in`].
pub fn scope_at(id: usize) -> (out: i32)
    ensures
        out == heard_in(id),
{
    if 38 <= id && id <= 41 {
        1
    } else {
        0
    }
}

/// An action that may run while the settings stand in front: going to, closing
/// and opening tabs and panes, and finding. Nothing that works on the text,
/// because there is none of the writer's there.
pub open spec fn runs_on_settings(id: usize) -> bool {
    ||| id == 0
    ||| id == 3
    ||| id == 4
    ||| id == 7
    ||| (10 <= id && id <= 16)
    ||| (18 <= id && id <= 20)
    ||| (BODY_COUNT <= id && id < BODY_COUNT + FILE_COUNT)
}

/// [`runs_on_settings`], of a command; a negative one is none.
pub fn passes_settings(command: i32) -> (out: bool)
    ensures
        out == (command >= 0 && runs_on_settings(command as usize)),
{
    if command < 0 {
        return false;
    }
    let id: usize = command as usize;
    id == 0 || id == 3 || id == 4 || id == 7 || (10 <= id && id <= 16) || (18 <= id && id <= 20)
        || (BODY_COUNT <= id && id < BODY_COUNT + FILE_COUNT)
}

/// The words for a group, in Japanese and in English.
pub open spec fn group_words(group: i32) -> (&'static str, &'static str) {
    match group {
        0i32 => ("本文の操作", "Text Actions"),
        1i32 => ("基本編集", "Basic Editing"),
        2i32 => ("Terminal", "Terminal"),
        3i32 => ("入力欄", "Input Fields"),
        4i32 => ("Pane・TAB", "Panes & Tabs"),
        5i32 => ("Emacs", "Emacs"),
        6i32 => ("Quick Draft", "Quick Draft"),
        7i32 => ("ファイル", "File"),
        _ => ("挿入", "Insert"),
    }
}

/// What is said of a group, in Japanese and in English.
pub open spec fn group_note(group: i32) -> (&'static str, &'static str) {
    match group {
        0i32 => (
            "本文にフォーカスがあり、IME変換中でないときに有効です。",
            "Active when the text has focus and no IME conversion is in progress.",
        ),
        1i32 => (
            "固定 · 本文の編集時に使います。Viewerでは編集できません。",
            "Fixed · Used while editing the text. Nothing can be edited in Viewer.",
        ),
        2i32 => (
            "固定 · Terminalにフォーカスがあるときに有効です。その他のキーは実行中のシェル・プログラムへ渡します。",
            "Fixed · Active when a Terminal has focus. Other keys go to the running shell or program.",
        ),
        3i32 => (
            "固定 · 検索欄などの文字入力欄にフォーカスがあるときに有効です。Enter・Escの動作は入力欄ごとの用途に従います。",
            "Fixed · Active when an input field such as Find has focus. Enter and Esc work as each field needs.",
        ),
        4i32 => (
            "本文からのPane・TAB操作です。Terminal内のキーは固定です。",
            "Pane and tab actions from the text. Keys inside a Terminal are fixed.",
        ),
        5i32 => (
            "本文で常時使えるEmacs風キーです。専用モードの切り替えはありません。",
            "Emacs-style keys always available in the text. There is no separate mode to switch to.",
        ),
        6i32 => (
            "本文から開く操作と、Quick Draft内の操作を区別します。",
            "Tells opening from the text apart from actions inside Quick Draft.",
        ),
        7i32 => (
            "メニューの「ファイル」と同じ操作です。既定では割り当てていません。",
            "The same actions as the File menu. Nothing is assigned to most of them by default.",
        ),
        _ => (
            "メニューの「挿入」と同じ操作です。選んだ字が要る形は、選んでいないときは何もしません。",
            "The same actions as the Insert menu. A form that needs a picked word does nothing when nothing is picked.",
        ),
    }
}

/// The words for a group and what is said of it.
pub fn group_at(group: i32, english: bool) -> (out: (&'static str, &'static str))
    ensures
        out.0@ == if english {
            group_words(group).1@
        } else {
            group_words(group).0@
        },
        out.1@ == if english {
            group_note(group).1@
        } else {
            group_note(group).0@
        },
{
    let words: (&'static str, &'static str) = match group {
        0i32 => ("本文の操作", "Text Actions"),
        1i32 => ("基本編集", "Basic Editing"),
        2i32 => ("Terminal", "Terminal"),
        3i32 => ("入力欄", "Input Fields"),
        4i32 => ("Pane・TAB", "Panes & Tabs"),
        5i32 => ("Emacs", "Emacs"),
        6i32 => ("Quick Draft", "Quick Draft"),
        7i32 => ("ファイル", "File"),
        _ => ("挿入", "Insert"),
    };
    let note: (&'static str, &'static str) = match group {
        0i32 => (
            "本文にフォーカスがあり、IME変換中でないときに有効です。",
            "Active when the text has focus and no IME conversion is in progress.",
        ),
        1i32 => (
            "固定 · 本文の編集時に使います。Viewerでは編集できません。",
            "Fixed · Used while editing the text. Nothing can be edited in Viewer.",
        ),
        2i32 => (
            "固定 · Terminalにフォーカスがあるときに有効です。その他のキーは実行中のシェル・プログラムへ渡します。",
            "Fixed · Active when a Terminal has focus. Other keys go to the running shell or program.",
        ),
        3i32 => (
            "固定 · 検索欄などの文字入力欄にフォーカスがあるときに有効です。Enter・Escの動作は入力欄ごとの用途に従います。",
            "Fixed · Active when an input field such as Find has focus. Enter and Esc work as each field needs.",
        ),
        4i32 => (
            "本文からのPane・TAB操作です。Terminal内のキーは固定です。",
            "Pane and tab actions from the text. Keys inside a Terminal are fixed.",
        ),
        5i32 => (
            "本文で常時使えるEmacs風キーです。専用モードの切り替えはありません。",
            "Emacs-style keys always available in the text. There is no separate mode to switch to.",
        ),
        6i32 => (
            "本文から開く操作と、Quick Draft内の操作を区別します。",
            "Tells opening from the text apart from actions inside Quick Draft.",
        ),
        7i32 => (
            "メニューの「ファイル」と同じ操作です。既定では割り当てていません。",
            "The same actions as the File menu. Nothing is assigned to most of them by default.",
        ),
        _ => (
            "メニューの「挿入」と同じ操作です。選んだ字が要る形は、選んでいないときは何もしません。",
            "The same actions as the Insert menu. A form that needs a picked word does nothing when nothing is picked.",
        ),
    };
    if english {
        (words.1, note.1)
    } else {
        (words.0, note.0)
    }
}

/// A key that cannot be changed: its group, its words and the key.
pub open spec fn fixed_key(at: usize) -> (i32, &'static str, &'static str, &'static str) {
    match at {
        0usize => (1, "コピー", "Copy", "Ctrl+C"),
        1usize => (1, "切り取り", "Cut", "Ctrl+X"),
        2usize => (1, "貼り付け", "Paste", "Ctrl+V"),
        3usize => (1, "全選択", "Select All", "Ctrl+A"),
        4usize => (2, "選択した文字をコピー", "Copy Selected Text", "Ctrl+Shift+C"),
        5usize => (2, "貼り付け", "Paste", "Ctrl+V"),
        6usize => (2, "下段を表示・閉じる", "Show or Hide Strip Below", "Ctrl+`"),
        7usize => (2, "下段から本文へ戻る", "Back to Text from Strip Below", "Ctrl+Alt+Up"),
        8usize => (3, "コピー", "Copy", "Ctrl+C"),
        9usize => (3, "切り取り", "Cut", "Ctrl+X"),
        10usize => (3, "貼り付け", "Paste", "Ctrl+V"),
        _ => (3, "全選択", "Select All", "Ctrl+A"),
    }
}

/// How many keys cannot be changed.
pub const FIXED_COUNT: usize = 12;

/// [`fixed_key`], in one language: the group, the words and the key.
pub fn fixed_at(at: usize, english: bool) -> (out: (i32, &'static str, &'static str))
    ensures
        out.0 == fixed_key(at).0,
        out.1@ == if english {
            fixed_key(at).2@
        } else {
            fixed_key(at).1@
        },
        out.2@ == fixed_key(at).3@,
{
    let all: (i32, &'static str, &'static str, &'static str) = match at {
        0usize => (1, "コピー", "Copy", "Ctrl+C"),
        1usize => (1, "切り取り", "Cut", "Ctrl+X"),
        2usize => (1, "貼り付け", "Paste", "Ctrl+V"),
        3usize => (1, "全選択", "Select All", "Ctrl+A"),
        4usize => (2, "選択した文字をコピー", "Copy Selected Text", "Ctrl+Shift+C"),
        5usize => (2, "貼り付け", "Paste", "Ctrl+V"),
        6usize => (2, "下段を表示・閉じる", "Show or Hide Strip Below", "Ctrl+`"),
        7usize => (2, "下段から本文へ戻る", "Back to Text from Strip Below", "Ctrl+Alt+Up"),
        8usize => (3, "コピー", "Copy", "Ctrl+C"),
        9usize => (3, "切り取り", "Cut", "Ctrl+X"),
        10usize => (3, "貼り付け", "Paste", "Ctrl+V"),
        _ => (3, "全選択", "Select All", "Ctrl+A"),
    };
    if english {
        (all.0, all.2, all.3)
    } else {
        (all.0, all.1, all.3)
    }
}

} // verus!
