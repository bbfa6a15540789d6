//! What is asked and told while settings are kept and carried elsewhere.
use crate::lines;
use crate::settings_transfer::export::{self, Export, Import};
use crate::text;
use vstd::prelude::*;

verus! {

/// What is told once a preset is kept under a name.
pub fn saved_told(name: &str, english: bool) -> (out: String)
    ensures
        out@ == if english {
            "Saved the preset \""@ + name@ + "\""@
        } else {
            "プリセット「"@ + name@ + "」を保存しました"@
        },
{
    if english {
        text::around("Saved the preset \"", name, "\"")
    } else {
        text::around("プリセット「", name, "」を保存しました")
    }
}

/// What is told where the presets could not be written. They stay as they are
/// held.
pub fn unwritten_told(error: &str, english: bool) -> (out: String)
    ensures
        out@ == if english {
            "Cannot write the presets: "@ + error@
        } else {
            "プリセットを書けません: "@ + error@
        },
{
    text::followed(
        if english {
            "Cannot write the presets: "
        } else {
            "プリセットを書けません: "
        },
        error,
    )
}

/// What is asked before a preset is kept.
pub fn name_question(english: bool) -> (out: &'static str)
    ensures
        out@ == if english {
            "Preset name\n\nSaves the current values under this name, replacing a preset of the same name."@
        } else {
            "プリセットの名前\n\nいまの値をこの名前で残します。同じ名前があれば上書きします。"@
        },
{
    if english {
        "Preset name\n\nSaves the current values under this name, replacing a preset of the same name."
    } else {
        "プリセットの名前\n\nいまの値をこの名前で残します。同じ名前があれば上書きします。"
    }
}

/// The name that is offered for an export.
pub fn export_name() -> (out: &'static str)
    ensures
        out@ == "RFN Edit Settings.rfnexport"@,
{
    "RFN Edit Settings.rfnexport"
}

/// What is told of an export: that it was written, or why not.
pub open spec fn exported(error: Option<Seq<char>>, english: bool) -> Seq<char> {
    match error {
        None => if english {
            "Exported the settings"@
        } else {
            "設定を書き出しました"@
        },
        Some(error) => if english {
            "Cannot export the settings: "@ + error
        } else {
            "設定を書き出せません: "@ + error
        },
    }
}

/// [`exported`].
pub fn exported_told(error: &Option<String>, english: bool) -> (out: String)
    ensures
        out@ == exported(lines::optional(*error), english),
{
    match error {
        None => text::string_of(
            &text::chars_of(
                if english {
                    "Exported the settings"
                } else {
                    "設定を書き出しました"
                },
            ),
        ),
        Some(error) => text::followed(
            if english {
                "Cannot export the settings: "
            } else {
                "設定を書き出せません: "
            },
            error.as_str(),
        ),
    }
}

/// The heading of the dialog in which a file to import is chosen.
pub fn import_heading(english: bool) -> (out: &'static str)
    ensures
        out@ == if english {
            "Choose a Settings File to Import"@
        } else {
            "取り込む設定のファイルを選ぶ"@
        },
{
    if english {
        "Choose a Settings File to Import"
    } else {
        "取り込む設定のファイルを選ぶ"
    }
}

/// What a file that was chosen for an import comes to.
pub enum ImportAsk {
    /// It is no export, and the writer is told so.
    Unreadable,
    /// It is asked whether everything is to be replaced by it.
    Ask(Export),
}

/// Whether a chosen file can be imported. `raw` is its text, where it could be
/// read at all.
pub fn ask_import(raw: &Option<String>, words_read: bool) -> (out: ImportAsk)
    ensures
        match out {
            ImportAsk::Ask(held) => *raw is Some && export::export_decoded(
                raw->0@,
                words_read,
            ) == Some(held@),
            ImportAsk::Unreadable => *raw is None || export::export_decoded(
                raw->0@,
                words_read,
            ) is None,
        },
{
    match raw {
        None => ImportAsk::Unreadable,
        Some(raw) => match export::decode_export(raw.as_str(), words_read) {
            None => ImportAsk::Unreadable,
            Some(held) => ImportAsk::Ask(held),
        },
    }
}

/// What is told of a file that is no export.
pub fn unreadable_told(english: bool) -> (out: &'static str)
    ensures
        out@ == if english {
            "Could not read it as an RFN Edit settings file"@
        } else {
            "RFN Editの設定のファイルとして読めませんでした"@
        },
{
    if english {
        "Could not read it as an RFN Edit settings file"
    } else {
        "RFN Editの設定のファイルとして読めませんでした"
    }
}

/// What is asked before everything is replaced.
pub fn import_question(english: bool) -> (out: &'static str)
    ensures
        out@ == if english {
            "Replace all settings?\n\nSettings, keys, presets and word sets are replaced with the file's contents. The current ones are kept in before-import.rfnexport."@
        } else {
            "設定をすべて置き換えますか？\n\n設定・キー・プリセット・単語帳が、選んだファイルの中身に置き換わります。いまの設定は before-import.rfnexport に控えます。"@
        },
{
    if english {
        "Replace all settings?\n\nSettings, keys, presets and word sets are replaced with the file's contents. The current ones are kept in before-import.rfnexport."
    } else {
        "設定をすべて置き換えますか？\n\n設定・キー・プリセット・単語帳が、選んだファイルの中身に置き換わります。いまの設定は before-import.rfnexport に控えます。"
    }
}

/// The answers to [`import_question`].
pub fn import_choices(english: bool) -> (out: [&'static str; 2])
    ensures
        out@[0]@ == if english { "Replace"@ } else { "置き換える"@ },
        out@[1]@ == if english { "Cancel"@ } else { "キャンセル"@ },
{
    if english {
        ["Replace", "Cancel"]
    } else {
        ["置き換える", "キャンセル"]
    }
}

/// What is told of an import: that it was done, or why the settings as they were
/// could not be kept.
pub open spec fn imported(error: Option<Seq<char>>, english: bool) -> Seq<char> {
    match error {
        None => if english {
            "Imported the settings"@
        } else {
            "設定を取り込みました"@
        },
        Some(error) => if english {
            "Did not import, because the current settings could not be kept: "@ + error
        } else {
            "いまの設定を控えられないので、取り込みませんでした: "@ + error
        },
    }
}

/// Imports an export that the writer agreed to, once the settings as they were
/// have been kept; `error` says why they could not be. The answer is what is to
/// be replaced, and what is told.
pub fn import_answered(export: Export, error: &Option<String>, english: bool) -> (out: (
    Import,
    String,
))
    ensures
        out.0 == if *error is None {
            Import::Replace(export)
        } else {
            Import::Refused
        },
        out.1@ == imported(lines::optional(*error), english),
{
    let told = match error {
        None => text::string_of(
            &text::chars_of(
                if english {
                    "Imported the settings"
                } else {
                    "設定を取り込みました"
                },
            ),
        ),
        Some(error) => text::followed(
            if english {
                "Did not import, because the current settings could not be kept: "
            } else {
                "いまの設定を控えられないので、取り込みませんでした: "
            },
            error.as_str(),
        ),
    };
    (export::import(export, error.is_none()), told)
}

} // verus!
