//! What the writer is told of saving.
use crate::saving::autosave::AutoSavePause;
use crate::saving::changes::{CheckAct, ReloadStep};
use crate::saving::copies::WriteTold;
use crate::saving::document;
use crate::text;
use vstd::prelude::*;

verus! {

/// What is told where a memo stays open because its work copy could not be
/// deleted.
pub fn memo_kept_told(english: bool) -> (out: &'static str)
    ensures
        out@ == if english {
            "Could not delete the work copy, so the memo was kept open"@
        } else {
            "作業コピーを削除できなかったため、メモを閉じずに残しました"@
        },
{
    if english {
        "Could not delete the work copy, so the memo was kept open"
    } else {
        "作業コピーを削除できなかったため、メモを閉じずに残しました"
    }
}

/// What is told where there is no folder for work copies.
pub fn no_place_told(english: bool) -> (out: &'static str)
    ensures
        out@ == if english {
            "The work copy location is unavailable"@
        } else {
            "作業コピーの保存先を利用できません"@
        },
{
    if english {
        "The work copy location is unavailable"
    } else {
        "作業コピーの保存先を利用できません"
    }
}

/// What is told where a save under a new name ended the mode that only reads.
pub fn released_told(english: bool) -> (out: &'static str)
    ensures
        out@ == if english {
            "Saved under a new name. ReadOnly mode is off"@
        } else {
            "別名で保存しました。ReadOnlyモードを解除しました"@
        },
{
    if english {
        "Saved under a new name. ReadOnly mode is off"
    } else {
        "別名で保存しました。ReadOnlyモードを解除しました"
    }
}

impl WriteTold {
    /// What a failed job is told as.
    pub open spec fn shown(self, english: bool) -> Seq<char> {
        match self {
            WriteTold::CouldNotClear => if english {
                "Could not clear the work copy"@
            } else {
                "作業コピーを片づけられませんでした"@
            },
            WriteTold::CouldNotBackUp => if english {
                "Could not back up to the work copy. Trying again shortly"@
            } else {
                "作業コピーを退避できませんでした。まもなく再試行します"@
            },
        }
    }

    /// [`WriteTold::shown`].
    pub fn words(self, english: bool) -> (out: &'static str)
        ensures
            out@ == self.shown(english),
    {
        match self {
            WriteTold::CouldNotClear => if english {
                "Could not clear the work copy"
            } else {
                "作業コピーを片づけられませんでした"
            },
            WriteTold::CouldNotBackUp => if english {
                "Could not back up to the work copy. Trying again shortly"
            } else {
                "作業コピーを退避できませんでした。まもなく再試行します"
            },
        }
    }
}

impl CheckAct {
    /// What is told of a look at a document: only of the one in front.
    pub open spec fn shown(self, front: bool, english: bool) -> Option<Seq<char>> {
        if !front {
            None
        } else {
            match self {
                CheckAct::TellMissing => Some(
                    if english {
                        "The file is missing, so it cannot be compared. The text is kept"@
                    } else {
                        "ファイルが見つからないため、外部版とは比較できません。本文は保持しています"@
                    },
                ),
                CheckAct::TellChanged => Some(
                    if english {
                        "Another app changed this file. Reload it from \"⚠ Changed outside\""@
                    } else {
                        "別のアプリがこのファイルを変更しました。「⚠ 外で変更」から読み直せます"@
                    },
                ),
                _ => None,
            }
        }
    }

    /// [`CheckAct::shown`].
    pub fn words(self, front: bool, english: bool) -> (out: Option<&'static str>)
        ensures
            (match out {
                Some(words) => Some(words@),
                None => None,
            }) == self.shown(front, english),
    {
        if !front {
            return None;
        }
        match self {
            CheckAct::TellMissing => Some(
                if english {
                    "The file is missing, so it cannot be compared. The text is kept"
                } else {
                    "ファイルが見つからないため、外部版とは比較できません。本文は保持しています"
                },
            ),
            CheckAct::TellChanged => Some(
                if english {
                    "Another app changed this file. Reload it from \"⚠ Changed outside\""
                } else {
                    "別のアプリがこのファイルを変更しました。「⚠ 外で変更」から読み直せます"
                },
            ),
            _ => None,
        }
    }
}

impl ReloadStep {
    /// What is told of reading a file again. `error` says why it failed.
    pub open spec fn shown(self, error: Seq<char>, english: bool) -> Option<Seq<char>> {
        match self {
            ReloadStep::Nothing => None,
            ReloadStep::TellFailed => Some(
                if english {
                    "Cannot reload: "@ + error
                } else {
                    "読み直せません: "@ + error
                },
            ),
            ReloadStep::Replace => Some(
                if english {
                    "Loaded the outside change"@
                } else {
                    "外部の変更を読み込みました"@
                },
            ),
        }
    }

    /// [`ReloadStep::shown`].
    pub fn words(self, error: &str, english: bool) -> (out: Option<String>)
        ensures
            document::optional_text(out) == self.shown(error@, english),
    {
        match self {
            ReloadStep::Nothing => None,
            ReloadStep::TellFailed => Some(
                text::followed(
                    if english {
                        "Cannot reload: "
                    } else {
                        "読み直せません: "
                    },
                    error,
                ),
            ),
            ReloadStep::Replace => {
                let words: &str = if english {
                    "Loaded the outside change"
                } else {
                    "外部の変更を読み込みました"
                };
                Some(text::string_of(&text::chars_of(words)))
            },
        }
    }
}

impl AutoSavePause {
    /// What is told where direct saving stops. A write that failed has been told
    /// of already.
    pub open spec fn shown(self, name: Seq<char>, english: bool) -> Option<Seq<char>> {
        match self {
            AutoSavePause::Conflict => Some(
                if english {
                    "\""@ + name
                        + "\" changed outside, so direct saving is paused. Save or reload to resume"@
                } else {
                    "「"@ + name
                        + "」は外部で変更されたため、直接の保存を止めています。保存または読み直しで再開します"@
                },
            ),
            AutoSavePause::ReadOnly => Some(
                if english {
                    "\""@ + name + "\" is read-only, so direct saving is paused"@
                } else {
                    "「"@ + name + "」は読み取り専用のため、直接の保存を止めています"@
                },
            ),
            AutoSavePause::WriteFailed => None,
        }
    }

    /// [`AutoSavePause::shown`]. `name` is the path of the document's file.
    pub fn words(self, name: &str, english: bool) -> (out: Option<String>)
        ensures
            document::optional_text(out) == self.shown(name@, english),
    {
        match self {
            AutoSavePause::Conflict => Some(
                if english {
                    text::around(
                        "\"",
                        name,
                        "\" changed outside, so direct saving is paused. Save or reload to resume",
                    )
                } else {
                    text::around(
                        "「",
                        name,
                        "」は外部で変更されたため、直接の保存を止めています。保存または読み直しで再開します",
                    )
                },
            ),
            AutoSavePause::ReadOnly => Some(
                if english {
                    text::around("\"", name, "\" is read-only, so direct saving is paused")
                } else {
                    text::around("「", name, "」は読み取り専用のため、直接の保存を止めています")
                },
            ),
            AutoSavePause::WriteFailed => None,
        }
    }
}

} // verus!
