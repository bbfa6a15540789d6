//! Tags: where they stand, what answers to them, and the tree they make.
use rfn_edit::tags::{
    all_parents, is_tag_char, key, names, query_key, rows, split_query, tag_at, tag_here, tags_in,
    tree, TagAt,
};
use rfn_edit::text_blocks::{LineKind, LineStyle};

/// How each line of a small text is read: enough of the notation for what is
/// tested here.
fn line_styles(source: &str) -> Vec<LineStyle> {
    let lines: Vec<&str> = source.split('\n').collect();
    let mut out = vec![LineStyle::default(); lines.len()];
    let rule = |line: &str| {
        line.starts_with('|')
            && line.contains("---")
            && line.chars().all(|c| c == '|' || c == '-' || c == ':' || c == ' ')
    };
    let mut fenced = false;
    for at in 0..lines.len() {
        let line = lines[at];
        if line.starts_with("```") {
            fenced = !fenced;
            out[at].kind = LineKind::Code;
        } else if fenced || line.starts_with("    ") {
            out[at].kind = LineKind::Code;
        } else if line.starts_with('>') {
            out[at].quote_depth = 1;
        } else if line.starts_with("- ") {
            out[at].kind = LineKind::List;
            out[at].list_indent = 1;
        } else if rule(line) && at > 0 && lines[at - 1].starts_with('|') {
            out[at - 1].kind = LineKind::TableRow;
            out[at].kind = LineKind::TableRule;
        } else if line.starts_with('|') && at > 0 && out[at - 1].kind.is_table() {
            out[at].kind = LineKind::TableRow;
        }
    }
    out
}

/// Where the text begins, behind what is listed before it.
fn front_end(source: &str) -> usize {
    if !source.starts_with("---\n") {
        return 0;
    }
    match source[4..].find("\n---\n") {
        Some(at) => 4 + at + 5,
        None => 0,
    }
}

fn tags(source: &str) -> Vec<TagAt> {
    tags_in(source, front_end(source), &line_styles(source))
}

fn tag_matches(name: &str, query: &str) -> bool {
    rfn_edit::tags::query::matches(name, query)
}

fn names_in(source: &str) -> Vec<String> {
    names(source, front_end(source), &line_styles(source))
}

fn tag_under(source: &str, byte: usize) -> Option<String> {
    tag_at(source, front_end(source), &line_styles(source), byte)
}

fn found(source: &str) -> Vec<String> {
    tags(source).into_iter().map(|tag| tag.name).collect()
}

#[test]
fn a_tag_starts_a_line_or_follows_a_space() {
    assert_eq!(found("#小説 と #メモ。"), ["小説", "メモ"]);
    assert_eq!(found("本文#中\n"), Vec::<String>::new());
    assert_eq!(found("　#全角空白の後"), ["全角空白の後"]);
}

#[test]
fn a_heading_a_number_and_a_full_width_hash_are_not_tags() {
    assert_eq!(found("# 見出し\n## 二つ目 #本当のタグ"), ["本当のタグ"]);
    assert_eq!(found("#123 #2026年"), ["2026年"]);
    assert_eq!(found("＃全角"), Vec::<String>::new());
}

#[test]
fn a_tag_ends_at_punctuation_and_keeps_its_levels() {
    let tags = tags("#小説/人物/主人公、それと #a-b_c.");
    assert_eq!(tags[0].name, "小説/人物/主人公");
    assert_eq!(tags[0].at, 0);
    assert_eq!(tags[0].len, "#小説/人物/主人公".len());
    assert_eq!(tags[1].name, "a-b_c");
    assert_eq!(found("#末尾/ 次"), ["末尾"]);
}

#[test]
fn code_links_and_urls_are_not_read() {
    let source =
        "`#コード` #外\n```\n#ブロック\n```\n[[注#見出し]] https://x.jp/#frag %%#注釈%%";
    assert_eq!(found(source), ["外"]);
    assert_eq!(found("    #字下げ\n- #箇条書き"), ["箇条書き"]);
}

#[test]
fn frontmatter_tags_come_in_every_shape() {
    let source = "---\ntitle: 題\ntags: [小説, \"#メモ\"]\n---\n本文 #本文";
    assert_eq!(found(source), ["小説", "メモ", "本文"]);
    let source = "---\ntags:\n  - 小説/人物\n  - '下書き'\naliases: x\n---\n";
    assert_eq!(found(source), ["小説/人物", "下書き"]);
    let source = "---\ntag: a, b c\n---\n";
    assert_eq!(found(source), ["a", "b", "c"]);
    let tags = tags("---\ntags: [小説]\n---\n");
    assert_eq!(
        &"---\ntags: [小説]\n---\n"[tags[0].at..tags[0].at + tags[0].len],
        "小説"
    );
    assert_eq!(found("---\ntags: [小説]\n"), Vec::<String>::new());
}

#[test]
fn names_are_unique_whatever_the_case() {
    assert_eq!(names_in("#Draft #draft #DRAFT/x"), ["Draft", "DRAFT/x"]);
}

#[test]
fn a_query_matches_the_tag_and_its_children() {
    let query = query_key("#小説");
    assert!(tag_matches("小説", &query));
    assert!(tag_matches("小説/人物", &query));
    assert!(!tag_matches("小説家", &query));
    assert!(tag_matches("Draft/One", &query_key("draft")));
}

#[test]
fn a_query_splits_its_tags_off() {
    assert_eq!(
        split_query("tag:#小説 主人公  の"),
        (vec!["小説".to_owned()], "主人公 の".to_owned())
    );
    assert_eq!(
        split_query("TAG:a tag:b/"),
        (vec!["a".into(), "b".into()], String::new())
    );
    assert_eq!(
        split_query(" 二つの  空白 "),
        (Vec::new(), " 二つの  空白 ".to_owned())
    );
}

#[test]
fn the_tree_counts_files_at_every_level() {
    let one = vec!["小説/人物".to_owned(), "メモ".to_owned()];
    let two = vec!["小説".to_owned()];
    let three = vec!["小説/人物/主人公".to_owned()];
    let tree = tree(&vec![one, two, three]);
    assert_eq!(tree.len(), 2);
    assert_eq!((tree[0].name.as_str(), tree[0].files), ("メモ", 1));
    let novel = &tree[1];
    assert_eq!((novel.name.as_str(), novel.files), ("小説", 3));
    assert_eq!(novel.children[0].path, "小説/人物");
    assert_eq!(novel.children[0].files, 2);
    assert_eq!(novel.children[0].children[0].name, "主人公");

    let shut = rows(&tree, &Vec::new(), "");
    assert_eq!(shut.len(), 2);
    assert!(shut[1].parent && !shut[1].open);
    let all = rows(&tree, &all_parents(&tree), "");
    assert_eq!(all.len(), 4);
    assert_eq!(all[3].depth, 2);
    let filtered = rows(&tree, &Vec::new(), "主人");
    let paths: Vec<_> = filtered.iter().map(|row| row.path.as_str()).collect();
    assert_eq!(paths, ["小説", "小説/人物", "小説/人物/主人公"]);
}

#[test]
fn tag_at_finds_the_tag_under_a_byte() {
    let source = "語 #小説/人物 語";
    assert_eq!(tag_under(source, 4).as_deref(), Some("小説/人物"));
    assert_eq!(tag_under(source, 0), None);
}

#[test]
fn a_tag_is_read_where_it_stands() {
    assert_eq!(
        tag_here("#小説、次", None),
        Some(("小説".to_owned(), "、次".to_owned()))
    );
    assert_eq!(tag_here("#小説", Some('字')), None);
    assert_eq!(tag_here("#1", Some(' ')), None);
    assert!(is_tag_char('語') && is_tag_char('/') && is_tag_char('-') && is_tag_char('_'));
    assert!(!is_tag_char('.') && !is_tag_char(' '));
    assert_eq!(key("Draft/ONE"), "draft/one");
}

#[test]
fn every_tag_is_spelled_where_it_stands() {
    let source = "---\ntags: [小説, \"#Draft/one\"]\n---\n本文 #人物/犬 と #x\n\n#次の行\n";
    let front = front_end(source);
    let all = tags(source);
    assert_eq!(found(source), ["小説", "Draft/one", "人物/犬", "x", "次の行"]);
    let mut end = 0;
    for tag in &all {
        let text = &source[tag.at..tag.at + tag.len];
        if tag.at < front {
            assert_eq!(text, tag.name);
        } else {
            assert_eq!(text, format!("#{}", tag.name));
        }
        assert!(end <= tag.at);
        end = tag.at + tag.len;
        assert_eq!(tag_under(source, tag.at).as_ref(), Some(&tag.name));
        assert_eq!(tag_under(source, end - 1).as_ref(), Some(&tag.name));
        assert_ne!(tag_under(source, end).as_ref(), Some(&tag.name));
    }
}

#[test]
fn every_open_tag_has_a_row() {
    let names = vec!["b".to_owned(), "A/x/1".to_owned(), "a/y".to_owned()];
    let tree = tree(&vec![names]);
    let parents = all_parents(&tree);
    let all = rows(&tree, &parents, "  ");
    let seen: Vec<(&str, usize)> = all.iter().map(|row| (row.path.as_str(), row.depth)).collect();
    assert_eq!(seen, [("A", 0), ("A/x", 1), ("A/x/1", 2), ("a/y", 1), ("b", 0)]);
    assert_eq!(parents, ["a", "a/x"]);
    for shut in 0..parents.len() {
        let mut fewer = parents.clone();
        fewer.remove(shut);
        assert!(rows(&tree, &fewer, "").len() < all.len());
    }
}
