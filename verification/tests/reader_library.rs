use miryam::clock::LocalTime;
use miryam::reader::library::{
    count_memos, entry_for, format_entry, is_pdf_name, is_walked_folder, order_entries,
    LibraryEntry, OpenedAt, SidecarRead,
};
use miryam::reader::store::{DigestData, Highlight, PdfMeta, Sidecar, SCHEMA_VERSION};

fn entry(name: &str, opened: Option<(i64, u32)>) -> LibraryEntry {
    LibraryEntry {
        path: format!("/x/{name}"),
        name: name.into(),
        highlight_count: 0,
        memo_count: 0,
        last_opened: opened.map(|(secs, nanos)| OpenedAt {
            secs,
            nanos,
            local: LocalTime { year: 2026, month: 8, day: 3, hour: 21, minute: 5, second: 0 },
        }),
        bookmark_page: 0,
        remarks: vec![],
        broken: false,
    }
}

fn names(es: &[LibraryEntry]) -> Vec<String> {
    es.iter().map(|e| e.name.clone()).collect()
}

#[test]
fn scan_lists_pdfs_and_ignores_others() {
    assert!(is_pdf_name("a.pdf"));
    assert!(is_pdf_name("B.PDF"));
    assert!(is_pdf_name("c.Pdf"));
    assert!(!is_pdf_name("notes.txt"));
    assert!(!is_pdf_name("pdf"));
    assert!(!is_pdf_name(".pdf"), "先頭の . だけでは拡張子にならない");
    assert!(!is_pdf_name("a.pdf.json"));
    assert!(is_pdf_name("..pdf"));
}

#[test]
fn scan_skips_the_dot_miryam_dir_itself() {
    assert!(!is_walked_folder(".miryam"));
    assert!(is_walked_folder("sub"));
    assert!(is_walked_folder(".miryam2"));
}

#[test]
fn entries_are_sorted_by_last_opened_then_name() {
    let es = vec![entry("new.pdf", Some((200, 0))), entry("old.pdf", Some((100, 0))), entry("zzz.pdf", None)];
    let shuffled = vec![entry("zzz.pdf", None), entry("old.pdf", Some((100, 0))), entry("new.pdf", Some((200, 0)))];
    assert_eq!(names(&order_entries(shuffled)), names(&es), "既読が新しい順、未読は名前順で末尾");
}

#[test]
fn unread_books_go_last_by_name_and_ties_keep_their_order() {
    let es = vec![
        entry("b.pdf", None),
        entry("a.pdf", None),
        entry("c.pdf", Some((5, 1))),
        entry("c.pdf", Some((5, 1))),
        entry("d.pdf", Some((5, 2))),
    ];
    let mut es = es;
    es[2].path = "/first/c.pdf".into();
    es[3].path = "/second/c.pdf".into();
    let got = order_entries(es);
    assert_eq!(names(&got), vec!["d.pdf", "c.pdf", "c.pdf", "a.pdf", "b.pdf"]);
    assert_eq!(got[1].path, "/first/c.pdf");
    assert_eq!(got[2].path, "/second/c.pdf");
}

#[test]
fn format_entry_shows_counts_bookmark_and_last_opened() {
    let mut e = entry("a.pdf", Some((1, 0)));
    e.highlight_count = 3;
    e.memo_count = 2;
    e.bookmark_page = 11;
    let s = format_entry(&e);
    assert!(s.contains("a.pdf"));
    assert!(s.contains("マーカー 3"), "マーカー件数が出る: {s}");
    assert!(s.contains("メモ 2"), "メモ件数が出る: {s}");
    assert!(s.contains("p.12"), "しおりは 1 始まりで出す: {s}");
    assert!(s.contains("08/03"), "最終閲覧が出る: {s}");
    assert_eq!(s, "a.pdf  マーカー 3 / メモ 2  p.12  08/03");
}

#[test]
fn format_entry_marks_unread_and_broken() {
    let base = entry("a.pdf", None);
    assert!(format_entry(&base).contains("未読"));
    let mut broken = entry("a.pdf", None);
    broken.broken = true;
    assert!(format_entry(&broken).contains("注釈が壊れています"));
}

fn hl(memo: &str) -> Highlight<[f64; 4], u64> {
    Highlight {
        id: "x".into(),
        page: 0,
        color: "yellow".into(),
        rects: vec![],
        quote: "q".into(),
        memo: memo.into(),
        tags: vec![],
        llm: vec![],
        created_at: 0,
    }
}

#[test]
fn entry_counts_come_from_the_sidecar() {
    assert_eq!(count_memos(&[hl(""), hl("  "), hl("メモ"), hl("\nx")]), 2);
}

fn mark(memo: &str) -> Highlight<[f64; 4], u64> {
    Highlight {
        id: "1".into(),
        page: 0,
        color: "yellow".into(),
        rects: vec![],
        quote: "q".into(),
        memo: memo.into(),
        tags: vec![],
        llm: vec![],
        created_at: 0,
    }
}

#[test]
fn entry_without_sidecar_is_zeroed() {
    let e = entry_for::<[f64; 4], u64>("/x/a.pdf".into(), SidecarRead::Absent);
    assert_eq!(e.path, "/x/a.pdf");
    assert_eq!(e.name, "a.pdf");
    assert_eq!(e.highlight_count, 0);
    assert_eq!(e.memo_count, 0);
    assert_eq!(e.bookmark_page, 0);
    assert!(e.last_opened.is_none());
    assert!(e.remarks.is_empty());
    assert!(!e.broken);
}

#[test]
fn broken_sidecar_is_flagged_not_fatal() {
    let e = entry_for::<[f64; 4], u64>("/x/a.pdf".into(), SidecarRead::Broken);
    assert_eq!(e.name, "a.pdf");
    assert!(e.broken);
    assert_eq!(e.highlight_count, 0);
    assert!(e.last_opened.is_none());
}

#[test]
fn a_sidecar_fills_the_entry() {
    let opened = OpenedAt {
        secs: 100,
        nanos: 0,
        local: LocalTime { year: 2026, month: 8, day: 3, hour: 21, minute: 5, second: 0 },
    };
    let sc: Sidecar<[f64; 4], u64> = Sidecar {
        schema: SCHEMA_VERSION,
        pdf: PdfMeta { name: "a.pdf".into(), size: 10 },
        bookmark_page: 4,
        opened_at: 100,
        highlights: vec![mark("メモ"), mark("  "), mark("")],
        digest: Some(DigestData {
            body: "b".into(),
            remarks: vec!["r1".into(), "r2".into()],
            made_at: 100,
            note_id: None,
        }),
    };
    let e = entry_for("/x/shelf/a.pdf".into(), SidecarRead::Found(sc, opened));
    assert_eq!(e.name, "a.pdf");
    assert_eq!(e.highlight_count, 3);
    assert_eq!(e.memo_count, 1);
    assert_eq!(e.bookmark_page, 4);
    assert_eq!(e.last_opened, Some(opened));
    assert_eq!(e.remarks, vec!["r1", "r2"]);
    assert!(!e.broken);
}

#[test]
fn an_entry_is_named_by_the_file_name_of_its_path() {
    assert_eq!(entry_for::<[f64; 4], u64>("b.pdf".into(), SidecarRead::Absent).name, "b.pdf");
    assert_eq!(entry_for::<[f64; 4], u64>("/".into(), SidecarRead::Absent).name, "");
}
