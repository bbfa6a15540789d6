//! Tables: placing them, changing them, and the widths of their columns.
use rfn_edit::table_edit::{
    can_place_table, dragged_widths, insert_table, keep_specified, settle_counts, stated_widths,
    table_edit, table_edit_state, table_widths, widths_edit, Edit, TableEdit,
};
use rfn_edit::text_blocks::{LineKind, LineStyle};

/// How each line of a small text is read: enough of the notation for what is
/// tested here.
fn line_styles(source: &str) -> Vec<LineStyle> {
    let lines: Vec<&str> = source.split('\n').collect();
    let mut out = vec![LineStyle::default(); lines.len()];
    let rule = |line: &str| {
        line.starts_with('|')
            && line.contains("---")
            && line.chars().all(|c| c == '|' || c == '-' || c == ':' || c == ' ')
    };
    let mut fenced = false;
    for at in 0..lines.len() {
        let line = lines[at];
        if line.starts_with("```") {
            fenced = !fenced;
            out[at].kind = LineKind::Code;
        } else if fenced || line.starts_with("    ") {
            out[at].kind = LineKind::Code;
        } else if line.starts_with('>') {
            out[at].quote_depth = 1;
        } else if line.starts_with("- ") {
            out[at].kind = LineKind::List;
            out[at].list_indent = 1;
        } else if rule(line) && at > 0 && lines[at - 1].starts_with('|') {
            out[at - 1].kind = LineKind::TableRow;
            out[at].kind = LineKind::TableRule;
        } else if line.starts_with('|') && at > 0 && out[at - 1].kind.is_table() {
            out[at].kind = LineKind::TableRow;
        }
    }
    out
}
fn apply(source: &str, edit: Edit) -> (String, usize) {
    let (region, text, (caret, _)) = edit;
    let mut next = source.to_owned();
    next.replace_range(region, &text);
    (next, caret)
}

fn insert(source: &str, at: usize, rows: usize, columns: usize) -> Option<(String, usize)> {
    let styles = line_styles(source);
    insert_table(source, &styles, at, at, rows, columns).map(|edit| apply(source, edit))
}

fn edit(source: &str, at: usize, what: TableEdit) -> Option<(String, usize)> {
    let styles = line_styles(source);
    table_edit(source, &styles, at, what).map(|edit| apply(source, edit))
}

#[test]
fn a_table_goes_on_an_empty_line() {
    let (text, caret) = insert("", 0, 3, 2).unwrap();
    assert_eq!(text, "|  |  |\n| --- | --- |\n|  |  |\n|  |  |");
    assert_eq!(caret, 2);
    let styles = line_styles(&text);
    assert_eq!(styles[0].kind, LineKind::TableRow);
    assert_eq!(styles[1].kind, LineKind::TableRule);
    assert_eq!(styles[3].kind, LineKind::TableRow);
}

#[test]
fn a_table_after_prose_is_kept_apart_from_it() {
    let source = "前の段落\n次の段落";
    let (text, caret) = insert(source, 3, 1, 1).unwrap();
    assert_eq!(text, "前の段落\n\n|  |\n| --- |\n\n次の段落");
    assert_eq!(&text[caret - 2..caret], "| ");
}

#[test]
fn a_table_on_an_empty_line_between_paragraphs_is_kept_apart() {
    let source = "上\n\n下";
    let (text, _) = insert(source, 4, 1, 2).unwrap();
    assert_eq!(text, "上\n\n|  |  |\n| --- | --- |\n\n下");
    let source = "上\n\n\n下";
    let (text, _) = insert(source, 4, 1, 2).unwrap();
    assert_eq!(text, "上\n\n|  |  |\n| --- | --- |\n\n下");
}

#[test]
fn a_table_is_not_placed_where_it_would_not_be_one() {
    assert!(insert("> 引用", 3, 2, 2).is_none());
    assert!(insert("- 項目", 3, 2, 2).is_none());
    assert!(insert("```\nコード\n```", 5, 2, 2).is_none());
    assert!(insert("| a | b |\n| --- | --- |", 3, 2, 2).is_none());
    let styles = line_styles("本文");
    assert!(insert_table("本文", &styles, 0, 3, 2, 2).is_none());
    assert!(insert("本文", 0, 0, 2).is_none());
}

const TABLE: &str = "| 名前 | 役割 |\n| --- | :---: |\n| 主人公 | 語り手 |\n| 犬 | 相棒 |";

fn at(text: &str, needle: &str) -> usize {
    text.find(needle).unwrap()
}

#[test]
fn rows_are_added_before_and_after() {
    let (text, caret) = edit(TABLE, at(TABLE, "犬"), TableEdit::RowBefore).unwrap();
    assert_eq!(
        text,
        "| 名前 | 役割 |\n| --- | :---: |\n| 主人公 | 語り手 |\n|  |  |\n| 犬 | 相棒 |"
    );
    assert_eq!(caret, at(&text, "|  |  |\n| 犬") + 2);

    let (text, caret) = edit(TABLE, at(TABLE, "語り手"), TableEdit::RowAfter).unwrap();
    assert!(text.contains("| 主人公 | 語り手 |\n|  |  |\n| 犬"));
    assert_eq!(caret, at(&text, "|  |  |\n| 犬") + 5);

    let (text, _) = edit(TABLE, at(TABLE, "名前"), TableEdit::RowAfter).unwrap();
    assert!(text.starts_with("| 名前 | 役割 |\n| --- | :---: |\n|  |  |\n| 主人公"));
    assert!(edit(TABLE, at(TABLE, "名前"), TableEdit::RowBefore).is_none());
    assert!(edit(TABLE, at(TABLE, ":---:"), TableEdit::RowBefore).is_none());
}

#[test]
fn a_body_row_is_deleted_and_the_header_is_not() {
    let (text, caret) = edit(TABLE, at(TABLE, "主人公"), TableEdit::DeleteRow).unwrap();
    assert_eq!(text, "| 名前 | 役割 |\n| --- | :---: |\n| 犬 | 相棒 |");
    assert_eq!(caret, at(&text, "犬"));
    let (text, caret) = edit(TABLE, at(TABLE, "相棒"), TableEdit::DeleteRow).unwrap();
    assert_eq!(
        text,
        "| 名前 | 役割 |\n| --- | :---: |\n| 主人公 | 語り手 |"
    );
    assert_eq!(caret, at(&text, "語り手"));
    assert!(edit(TABLE, at(TABLE, "名前"), TableEdit::DeleteRow).is_none());
    let two = "| a | b |\n| --- | --- |\n| c | d |\n";
    let (text, caret) = edit(two, at(two, "c"), TableEdit::DeleteRow).unwrap();
    assert_eq!(text, "| a | b |\n| --- | --- |\n");
    assert_eq!(caret, at(&text, "a"));
}

#[test]
fn columns_are_added_before_and_after() {
    let (text, caret) = edit(TABLE, at(TABLE, "語り手"), TableEdit::ColumnBefore).unwrap();
    assert_eq!(
        text,
        "| 名前 |  | 役割 |\n| --- | --- | :---: |\n| 主人公 |  | 語り手 |\n| 犬 |  | 相棒 |"
    );
    assert_eq!(caret, at(&text, "|  | 語り手") + 2);

    let (text, _) = edit(TABLE, at(TABLE, "語り手"), TableEdit::ColumnAfter).unwrap();
    assert_eq!(
        text,
        "| 名前 | 役割 |  |\n| --- | :---: | --- |\n| 主人公 | 語り手 |  |\n| 犬 | 相棒 |  |"
    );
    let styles = line_styles(&text);
    assert!(styles.iter().all(|style| style.kind.is_table()));
}

#[test]
fn a_column_is_deleted_but_not_the_last_one() {
    let (text, caret) = edit(TABLE, at(TABLE, "名前"), TableEdit::DeleteColumn).unwrap();
    assert_eq!(text, "| 役割 |\n| :---: |\n| 語り手 |\n| 相棒 |");
    assert_eq!(caret, at(&text, "役割"));
    let (text, _) = edit(TABLE, at(TABLE, "相棒"), TableEdit::DeleteColumn).unwrap();
    assert_eq!(text, "| 名前 |\n| --- |\n| 主人公 |\n| 犬 |");
    assert!(edit(&text, 2, TableEdit::DeleteColumn).is_none());
}

#[test]
fn the_state_says_what_can_be_done() {
    let styles = line_styles(TABLE);
    let header = table_edit_state(TABLE, &styles, 2).unwrap();
    assert_eq!(header, [false, true, true, true, false, true, false]);
    let body = table_edit_state(TABLE, &styles, at(TABLE, "犬")).unwrap();
    assert_eq!(body, [true, true, true, true, true, true, false]);
    assert!(table_edit_state("本文", &line_styles("本文"), 0).is_none());
}

#[test]
fn widths_are_read_only_when_they_differ() {
    assert_eq!(table_widths("| --- | --- |"), None);
    assert_eq!(table_widths("|-----|-----|"), None);
    assert_eq!(table_widths("| --- |"), None);
    assert_eq!(
        table_widths("| ---------- | :--------------------: |"),
        Some(vec![10, 20])
    );
    assert_eq!(table_widths("| 見出し | x |"), None);
}

const WIDE: &str = "| a | b | c |\n| ---------- | :--------------------: | ------------------------------ |\n| 1 | 2 | 3 |";

#[test]
fn a_column_added_to_a_table_with_widths_takes_the_average() {
    let (text, _) = edit(WIDE, at(WIDE, "2"), TableEdit::ColumnAfter).unwrap();
    let rule = text.lines().nth(1).unwrap();
    let widths = table_widths(rule).unwrap();
    assert_eq!(widths, vec![7, 13, 20, 20]);
    assert!(rule.contains(":-"), "the alignment stays: {rule}");
}

#[test]
fn a_column_removed_from_a_table_with_widths_gives_its_room_away() {
    let (text, _) = edit(WIDE, at(WIDE, "1"), TableEdit::DeleteColumn).unwrap();
    let widths = table_widths(text.lines().nth(1).unwrap()).unwrap();
    assert_eq!(widths.iter().sum::<u32>(), 60);
    assert_eq!(widths, vec![24, 36]);
}

#[test]
fn widths_are_reset_to_even_dashes() {
    let (text, caret) = edit(WIDE, at(WIDE, "3"), TableEdit::ResetWidths).unwrap();
    assert_eq!(text, "| a | b | c |\n| --- | :---: | --- |\n| 1 | 2 | 3 |");
    assert_eq!(caret, at(&text, "3"));
    assert!(edit(TABLE, 2, TableEdit::ResetWidths).is_none());
}

#[test]
fn widths_are_written_into_the_rule() {
    let styles = line_styles(TABLE);
    let caret = at(TABLE, "犬");
    let edit = widths_edit(TABLE, &styles, 0, &[12, 30], caret).unwrap();
    let (text, moved) = apply(TABLE, edit);
    assert_eq!(
        text.lines().nth(1).unwrap(),
        format!("| {} | :{}: |", "-".repeat(12), "-".repeat(30))
    );
    assert_eq!(moved, at(&text, "犬"));
    assert_eq!(
        stated_widths(&text, &line_styles(&text), 0),
        Some(vec![12, 30])
    );
}

#[test]
fn a_place_for_a_table_is_an_empty_selection_in_prose() {
    let styles = line_styles("本文\n- 項目");
    assert!(can_place_table("本文\n- 項目", &styles, 0, 0));
    assert!(!can_place_table("本文\n- 項目", &styles, 0, 3));
    assert!(!can_place_table("本文\n- 項目", &styles, 8, 8));
    assert!(!can_place_table("本文", &styles, 1, 1));
}

#[test]
fn the_numbers_of_the_entries_are_their_own() {
    for number in 0..7 {
        let entry = TableEdit::from_number(number).unwrap();
        assert_eq!(entry.number(), number);
    }
    assert_eq!(TableEdit::from_number(7), None);
    assert_eq!(TableEdit::from_number(-1), None);
}

#[test]
fn settled_widths_share_the_room() {
    assert_eq!(settle_counts(&vec![10, 20, 30], 60), vec![10, 20, 30]);
    assert_eq!(settle_counts(&vec![1, 20], 60), vec![3, 20]);
    assert_eq!(settle_counts(&vec![10, 20, 30], 50).iter().sum::<u32>(), 50);
    let mut counts = vec![15, 15];
    keep_specified(&mut counts);
    assert_eq!(counts, vec![15, 16]);
}

#[test]
fn a_drag_starts_from_what_is_seen() {
    let widths = dragged_widths(None, &vec![100, 200], 300, 1000, 1, 0).unwrap();
    assert_eq!(widths, vec![10, 20]);
    let widths = dragged_widths(None, &vec![100, 200], 300, 1000, 1, 50).unwrap();
    assert_eq!(widths, vec![15, 16]);
    let widths = dragged_widths(None, &vec![100, 200], 300, 1000, 2, 100).unwrap();
    assert_eq!(widths, vec![10, 30]);
}

#[test]
fn a_drag_keeps_the_limits() {
    let stated = vec![10, 20];
    let widths = dragged_widths(Some(&stated), &vec![1, 1], 1, 1000, 1, -500).unwrap();
    assert_eq!(widths, vec![3, 27]);
    let widths = dragged_widths(Some(&stated), &vec![1, 1], 1, 1000, 2, 5000).unwrap();
    assert_eq!(widths, vec![10, 90]);
    let widths = dragged_widths(Some(&stated), &vec![1, 1], 1, 1000, 2, -5000).unwrap();
    assert_eq!(widths, vec![10, 3]);
    assert!(dragged_widths(None, &vec![100], 100, 1000, 1, 10).is_none());
}

#[test]
fn a_table_held_still_keeps_its_widths() {
    let stated = vec![10, 20, 40];
    for boundary in 1..=3 {
        assert_eq!(
            dragged_widths(Some(&stated), &vec![5, 5, 5], 15, 640, boundary, 0),
            Some(vec![10, 20, 40])
        );
    }
    assert_eq!(dragged_widths(Some(&stated), &vec![5, 5, 5], 15, 640, 0, 0), None);
    assert_eq!(dragged_widths(Some(&stated), &vec![5, 5, 5], 15, 640, 4, 0), None);
    assert_eq!(dragged_widths(Some(&stated), &vec![5, 5, 5], 15, 0, 1, 0), None);
    // A table that is longer than a line fills it; one without any width is
    // shared out evenly.
    assert_eq!(dragged_widths(None, &vec![300, 100], 800, 400, 1, 0), Some(vec![75, 25]));
    assert_eq!(dragged_widths(None, &vec![0, 0], 400, 400, 1, 0), Some(vec![50, 49]));
}

#[test]
fn a_table_is_placed_from_the_picker() {
    let text = "書き出しの段落。\n";
    let styles = line_styles(text);
    assert!(can_place_table(text, &styles, "書き出しの段落。".len(), "書き出しの段落。".len()));
    let (placed, caret) = insert(text, "書き出しの段落。".len(), 3, 2).unwrap();
    assert_eq!(
        placed,
        "書き出しの段落。\n\n|  |  |\n| --- | --- |\n|  |  |\n|  |  |\n"
    );
    assert_eq!(caret, "書き出しの段落。\n\n| ".len());
    let styles = line_styles(&placed);
    assert!(!can_place_table(&placed, &styles, caret, caret), "no table inside a table");
    assert_eq!(table_edit_state(&placed, &styles, caret).unwrap().len(), 7);
}

#[test]
fn the_edit_table_rows_change_the_table() {
    let text = "| 名前 | 役割 |\n| --- | --- |\n| 主人公 | 語り手 |\n| 犬 | 相棒 |\n";
    let styles = line_styles(text);
    assert_eq!(
        table_edit_state(text, &styles, at(text, "名前")),
        Some([false, true, true, true, false, true, false]),
        "the header row cannot be deleted or preceded"
    );
    assert_eq!(
        table_edit_state(text, &styles, at(text, "犬")),
        Some([true, true, true, true, true, true, false])
    );
    let titles = |vertical: bool| -> Vec<&'static str> {
        (0..4)
            .map(|number| TableEdit::from_number(number).unwrap().title(vertical).0)
            .collect()
    };
    assert_eq!(
        titles(false),
        ["上に行を追加", "下に行を追加", "左に列を追加", "右に列を追加"]
    );
    assert_eq!(
        titles(true),
        ["右に行を追加", "左に行を追加", "上に列を追加", "下に列を追加"]
    );

    let (added, caret) = edit(text, at(text, "犬"), TableEdit::RowAfter).unwrap();
    assert_eq!(
        added,
        "| 名前 | 役割 |\n| --- | --- |\n| 主人公 | 語り手 |\n| 犬 | 相棒 |\n|  |  |\n"
    );
    let (widened, _) = edit(&added, caret, TableEdit::ColumnBefore).unwrap();
    assert!(
        widened.starts_with("|  | 名前 | 役割 |\n| --- | --- | --- |\n"),
        "{}",
        widened
    );
    assert!(table_edit_state(text, &styles, text.len()).is_none());
}

#[test]
fn a_new_column_is_taken_back() {
    let text = format!("前\n\n{TABLE}\n\n後ろ");
    for place in ["名前", "役割", "---", ":---:", "主人公", "相棒"] {
        for what in [TableEdit::ColumnBefore, TableEdit::ColumnAfter] {
            let (wider, caret) = edit(&text, at(&text, place), what).unwrap();
            assert_ne!(wider, text);
            let (back, _) = edit(&wider, caret, TableEdit::DeleteColumn).unwrap();
            assert_eq!(back, text);
        }
    }
}

#[test]
fn on_the_rule_the_caret_counts_as_on_the_header() {
    let (text, caret) = edit(TABLE, at(TABLE, ":---:"), TableEdit::ColumnAfter).unwrap();
    assert_eq!(caret, at(&text, "|  |\n") + 2);
    let (text, caret) = edit(TABLE, at(TABLE, ":---:"), TableEdit::ColumnBefore).unwrap();
    assert_eq!(caret, at(&text, "|  | 役割") + 2);
    let (text, caret) = edit(TABLE, at(TABLE, ":---:"), TableEdit::DeleteColumn).unwrap();
    assert_eq!(caret, at(&text, "名前"));
}

#[test]
fn even_widths_are_no_widths() {
    let styles = line_styles(WIDE);
    let made = widths_edit(WIDE, &styles, 0, &[1, 3, 2], 0).unwrap();
    let (text, _) = apply(WIDE, made);
    assert_eq!(text, "| a | b | c |\n| --- | :---: | --- |\n| 1 | 2 | 3 |");
    assert_eq!(stated_widths(&text, &styles, at(&text, "2")), None);
    let made = widths_edit(&text, &styles, 0, &[1, 4, 2], 0).unwrap();
    let (text, _) = apply(&text, made);
    assert_eq!(stated_widths(&text, &styles, at(&text, "2")), Some(vec![3, 4, 3]));
    assert!(widths_edit(&text, &styles, 0, &[3, 4, 3], 0).is_none());
}

/// Dashes that settle as the widths of a table do.
fn settled_in_floats(widths: &[f32], total: u32) -> Vec<u32> {
    let counts: Vec<u32> = widths.iter().map(|width| width.round() as u32).collect();
    settle_counts(&counts, total)
}

fn rule_of(dashes: &[u32]) -> String {
    let row = format!("|{}", " x |".repeat(dashes.len()));
    let rule: String = dashes
        .iter()
        .map(|count| format!(" {} |", "-".repeat(*count as usize)))
        .collect();
    format!("{row}\n|{rule}\n{row}")
}

fn widths_after(dashes: &[u32], column: usize, what: TableEdit) -> Vec<u32> {
    let text = rule_of(dashes);
    let (after, _) = edit(&text, 2 + 4 * column, what).unwrap();
    let rule = after.lines().nth(1).unwrap();
    rule.split('|').filter(|part| !part.is_empty()).map(|part| part.trim().len() as u32).collect()
}

#[test]
fn ratios_are_those_of_single_precision() {
    assert_eq!(widths_after(&[30, 30, 3], 2, TableEdit::DeleteColumn), [31, 32]);
    assert_eq!(widths_after(&[3, 14, 14], 0, TableEdit::DeleteColumn), [15, 16]);
    let mut seed = 7_u32;
    let mut next = || {
        seed = seed.wrapping_mul(1_664_525).wrapping_add(1_013_904_223);
        3 + (seed >> 16) % 60
    };
    for round in 0..400 {
        let dashes: Vec<u32> = (0..2 + round % 4).map(|_| next()).collect();
        if dashes.iter().all(|count| *count == dashes[0]) {
            continue;
        }
        let total: u32 = dashes.iter().sum();
        let column = round % dashes.len();
        let new = total as f32 / dashes.len() as f32;
        let scale = (total as f32 - new) / total as f32;
        let mut wider: Vec<f32> = dashes.iter().map(|count| *count as f32 * scale).collect();
        wider.insert(column, new);
        assert_eq!(
            widths_after(&dashes, column, TableEdit::ColumnBefore),
            settled_in_floats(&wider, total)
        );
        let mut rest = dashes.clone();
        rest.remove(column);
        let left: u32 = rest.iter().sum();
        let scale = total as f32 / left.max(1) as f32;
        let fewer: Vec<f32> = rest.iter().map(|count| *count as f32 * scale).collect();
        assert_eq!(
            widths_after(&dashes, column, TableEdit::DeleteColumn),
            settled_in_floats(&fewer, total)
        );
    }
}

/// A drag, reckoned with in floats.
fn dragged_in_floats(
    visible: &[u32],
    reach: f32,
    line_box: f32,
    boundary: usize,
    delta: f32,
) -> Vec<u32> {
    let columns = visible.len();
    let whole = (reach / line_box * 100.0).min(100.0);
    let sum: f32 = visible.iter().map(|width| *width as f32).sum();
    let mut widths: Vec<f32> = visible
        .iter()
        .map(|width| {
            if sum > 0.0 {
                *width as f32 / sum * whole
            } else {
                whole / columns as f32
            }
        })
        .collect();
    let step = delta / line_box * 100.0;
    let rounded = |widths: &[f32]| -> Vec<u32> {
        widths.iter().map(|width| (width.round() as u32).max(3)).collect()
    };
    let mut counts;
    if boundary < columns {
        let pair = widths[boundary - 1] + widths[boundary];
        let before = (widths[boundary - 1] + step).clamp(3.0, (pair - 3.0).max(3.0));
        widths[boundary - 1] = before;
        widths[boundary] = pair - before;
        counts = rounded(&widths);
        let pair = (pair.round() as u32).max(6);
        counts[boundary - 1] = counts[boundary - 1].min(pair - 3);
        counts[boundary] = pair - counts[boundary - 1];
        if counts.iter().sum::<u32>() > 100 {
            return settle_counts(&counts, 100);
        }
    } else {
        counts = rounded(&widths);
        let others: u32 = counts[..columns - 1].iter().sum();
        let room = 100_u32.saturating_sub(others).max(3);
        let last = (widths[columns - 1] + step).round().clamp(3.0, room as f32);
        counts[columns - 1] = last as u32;
    }
    keep_specified(&mut counts);
    counts
}

#[test]
fn a_drag_is_reckoned_with_in_single_precision() {
    let mut seed = 11_u32;
    let mut next = |most: u32| {
        seed = seed.wrapping_mul(1_664_525).wrapping_add(1_013_904_223);
        (seed >> 8) % most
    };
    for round in 0..3_000_usize {
        let most = if round % 3 == 0 { 500 } else { 3_000_000 };
        let visible: Vec<u32> = (0..2 + round % 4).map(|_| next(most)).collect();
        let reach = next(4 * most);
        let line_box = 1 + next(5 * most);
        let boundary = 1 + round % visible.len();
        let delta = next(2 * most) as i32 - most as i32;
        assert_eq!(
            dragged_widths(None, &visible, reach, line_box, boundary, delta),
            Some(dragged_in_floats(
                &visible,
                reach as f32,
                line_box as f32,
                boundary,
                delta as f32
            )),
            "{visible:?} {reach} {line_box} {boundary} {delta}"
        );
    }
}
