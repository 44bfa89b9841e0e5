use miryam::reader::digest::{build_prompt, split, REMARKS_MAX};
use miryam::reader::export::Section;
use miryam::reader::store::Highlight;

fn hl(page: usize, quote: &str, memo: &str, tags: &[&str]) -> Highlight<[f64; 4], u64> {
    Highlight {
        id: "x".into(),
        page,
        color: "yellow".into(),
        rects: vec![[0.0, 0.0, 0.1, 0.1]],
        quote: quote.into(),
        memo: memo.into(),
        tags: tags.iter().map(|s| s.to_string()).collect(),
        llm: vec![],
        created_at: 0,
    }
}

fn sec(title: &str, page: usize) -> Section {
    Section { title: title.into(), page }
}

#[test]
fn build_prompt_carries_sections_and_highlights() {
    let sections = vec![sec("第2章 設計", 5)];
    let hs = vec![hl(5, "引用文です", "メモです", &["重要"])];
    let p = build_prompt(&sections, &hs);
    assert!(p.contains("第2章 設計"), "目次が入る: {p}");
    assert!(p.contains("引用文です"), "引用が入る: {p}");
    assert!(p.contains("メモです"), "メモが入る: {p}");
    assert!(p.contains("重要"), "タグが入る: {p}");
}

#[test]
fn build_prompt_without_outline_uses_pages_as_placeholders() {
    let hs = vec![hl(0, "引用", "", &[])];
    let p = build_prompt(&[], &hs);
    assert!(p.contains("p.1"), "目次が無いならページ番号で代用: {p}");
}

#[test]
fn build_prompt_asks_for_summary_and_remarks_format() {
    let p = build_prompt(&[], &[hl(0, "q", "", &[])]);
    assert!(p.contains("---"), "区切り記号を指定する: {p}");
    assert!(p.contains("感想"), "感想台詞を要求する: {p}");
}

#[test]
fn split_returns_body_and_remarks() {
    let (body, remarks) = split("本文一行目\n本文二行目\n---\n感想1\n感想2\n感想3").expect("分割できる");
    assert_eq!(body, "本文一行目\n本文二行目");
    assert_eq!(remarks, vec!["感想1", "感想2", "感想3"]);
}

#[test]
fn split_trims_and_drops_empty_remark_lines() {
    let (_, remarks) = split("本文\n --- \n\n  感想1  \n\n感想2\n").expect("分割できる");
    assert_eq!(remarks, vec!["感想1", "感想2"], "前後の空白を落とし空行を捨てる");
}

#[test]
fn split_caps_remarks_at_max() {
    let lines: Vec<String> = (0..=REMARKS_MAX).map(|i| format!("感想{i}")).collect();
    let (_, remarks) = split(&format!("本文\n---\n{}", lines.join("\n"))).expect("分割できる");
    assert_eq!(remarks.len(), REMARKS_MAX, "5 本まで (仕様 3〜5 本)");
}

#[test]
fn split_without_separator_is_none() {
    assert_eq!(split("本文だけ"), None);
}

#[test]
fn split_requires_a_standalone_separator_line() {
    assert_eq!(split("本文は x---y です"), None);
    assert_eq!(split("本文の一行目\nx---y は本文の続き"), None);
}

#[test]
fn split_of_blank_output_is_none() {
    assert_eq!(split(""), None);
    assert_eq!(split("   \n\n"), None);
    assert_eq!(split("---\n感想"), None);
}

#[test]
fn split_with_zero_remarks_keeps_the_body() {
    let (body, remarks) = split("本文\n---").expect("分割できる");
    assert_eq!(body, "本文");
    assert!(remarks.is_empty(), "感想 0 本でも本文があれば進める");
}

#[test]
fn build_prompt_sorts_highlights_by_page() {
    let hs = vec![hl(5, "後ろのページ", "", &[]), hl(0, "先頭のページ", "", &[])];
    let p = build_prompt(&[], &hs);
    assert!(p.find("先頭のページ").unwrap() < p.find("後ろのページ").unwrap(), "ページ順に並ぶ: {p}");
}

#[test]
fn build_prompt_omits_a_blank_memo_and_empty_tags() {
    let hs = vec![hl(0, "引用", "   ", &[])];
    let p = build_prompt(&[], &hs);
    assert!(!p.contains("メモ: "), "空白だけのメモは出さない: {p}");
    assert!(!p.contains("タグ: "), "タグが空なら出さない: {p}");
}

#[test]
fn remarks_cap_is_5() {
    assert_eq!(REMARKS_MAX, 5);
}

#[test]
fn split_keeps_exactly_remarks_max_remarks() {
    let at_cap: Vec<String> = (0..REMARKS_MAX).map(|i| format!("感想{i}")).collect();
    let (_, got) = split(&format!("本文\n---\n{}", at_cap.join("\n"))).expect("分割できる");
    assert_eq!(got, at_cap, "ちょうど上限は全部残る");
    let over: Vec<String> = (0..=REMARKS_MAX).map(|i| format!("感想{i}")).collect();
    let (_, got) = split(&format!("本文\n---\n{}", over.join("\n"))).expect("分割できる");
    assert_eq!(got, at_cap, "1 本多いと最後が落ちる");
}

#[test]
fn split_trims_the_body() {
    let (body, _) = split("\n 本文 \n\n---\n感想").expect("分割できる");
    assert_eq!(body, "本文");
}

#[test]
fn split_uses_the_first_separator_line() {
    let (body, remarks) = split("本文\n---\n中間\n---\n感想").expect("分割できる");
    assert_eq!(body, "本文");
    assert_eq!(remarks, vec!["中間", "---", "感想"], "最初の --- より後が全部感想側");
}

#[test]
fn a_stable_page_order_keeps_same_page_highlights_in_their_order() {
    let hs = vec![hl(3, "三の一", "", &[]), hl(1, "一", "", &[]), hl(3, "三の二", "", &[])];
    let p = build_prompt(&[], &hs);
    let a = p.find("一").unwrap();
    let b = p.find("三の一").unwrap();
    let c = p.find("三の二").unwrap();
    assert!(a < b && b < c, "{p}");
}
