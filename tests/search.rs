use pdf_search::aggregate::{collect_results, sort_results};
use pdf_search::cache::{TextCache, CACHE_CAPACITY};
use pdf_search::document::{check_document_size, get_pdf_base64, viewer_page, DocumentError};
use pdf_search::locate::{estimate_page_number, find_exact_page_number, resolve_page};
use pdf_search::matcher::search_in_pdf_pages;
use pdf_search::progress::ProgressCounter;
use pdf_search::query::{parse_keywords, QueryError};
use pdf_search::search::{quick_search_in_pdf, search_in_pdf, SearchResult};

fn result(path: &str, page: Option<u32>) -> SearchResult {
    SearchResult {
        file_path: path.to_string(),
        matched_text: String::new(),
        file_size: 1,
        page_number: page,
    }
}

fn pages(texts: &[&str]) -> Vec<Option<String>> {
    texts.iter().map(|t| Some(t.to_string())).collect()
}

#[test]
fn keywords_are_split_and_trimmed() {
    let ks = parse_keywords("alpha, beta;gamma  delta").unwrap();
    assert_eq!(ks, vec!["alpha", "beta", "gamma", "delta"]);
}

#[test]
fn query_without_keyword_is_rejected() {
    assert_eq!(parse_keywords(" ,; ;").unwrap_err(), QueryError::NoKeyword);
    assert_eq!(parse_keywords("").unwrap_err(), QueryError::NoKeyword);
}

#[test]
fn single_keyword_context_spans_neighbour_lines() {
    let text = "first\nsecond Invoice\nthird\nfourth";
    let r = search_in_pdf("/d/a.pdf", 10, text, &Vec::new(), "invoice").unwrap();
    assert_eq!(r.file_path, "/d/a.pdf");
    assert_eq!(r.file_size, 10);
    assert_eq!(r.matched_text, "first\nsecond Invoice\nthird");
    assert_eq!(r.page_number, None);
}

#[test]
fn matching_ignores_case() {
    let text = "Total\nInvoice number 7\n";
    let lower = search_in_pdf("/d/a.pdf", 3, text, &Vec::new(), "invoice").unwrap();
    let upper = search_in_pdf("/d/a.pdf", 3, text, &Vec::new(), "INVOICE").unwrap();
    assert_eq!(lower.matched_text, upper.matched_text);
    assert_eq!(lower.page_number, upper.page_number);
    assert_eq!(lower.matched_text, "Total\nInvoice number 7");
}

#[test]
fn missing_keyword_gives_no_result() {
    assert!(search_in_pdf("/d/a.pdf", 3, "nothing here", &Vec::new(), "invoice").is_none());
}

#[test]
fn multi_keyword_query_with_one_present() {
    let ks = parse_keywords("alpha, beta").unwrap();
    let text = "one\ntwo\nthe beta line\nfour";
    let r = quick_search_in_pdf("/d/b.pdf", 5, text, &Vec::new(), &ks).unwrap();
    assert!(r.matched_text.contains("beta"));
    assert!(!r.matched_text.contains("alpha"));
    assert_eq!(r.matched_text, "one\ntwo\nthe beta line\nfour");
    let all = collect_results(vec![Some(r), None]);
    assert_eq!(all.len(), 1);
}

#[test]
fn multi_keyword_query_without_match() {
    let ks = parse_keywords("alpha beta").unwrap();
    assert!(quick_search_in_pdf("/d/c.pdf", 5, "gamma", &Vec::new(), &ks).is_none());
}

#[test]
fn long_context_is_capped_with_marker() {
    let line = "x".repeat(250);
    let text = format!("{}\nkeyword {}\n{}", line, line, line);
    let r = search_in_pdf("/d/a.pdf", 1, &text, &Vec::new(), "keyword").unwrap();
    assert!(r.matched_text.chars().count() <= 200);
    assert!(r.matched_text.ends_with("..."));
    assert_eq!(r.matched_text.chars().count(), 103);

    let ks = vec!["keyword".to_string()];
    let m = quick_search_in_pdf("/d/a.pdf", 1, &text, &Vec::new(), &ks).unwrap();
    assert!(m.matched_text.chars().count() <= 300);
    assert!(m.matched_text.ends_with("..."));
    assert_eq!(m.matched_text.chars().count(), 153);
}

#[test]
fn cap_counts_characters_not_bytes() {
    let text = "é".repeat(150) + " key";
    let r = search_in_pdf("/d/a.pdf", 1, &text, &Vec::new(), "key").unwrap();
    assert_eq!(r.matched_text, text);
}

#[test]
fn cache_stops_storing_when_full() {
    let mut c = TextCache::new();
    for i in 0..CACHE_CAPACITY {
        c.put(format!("/d/{}.pdf", i), format!("text {}", i));
    }
    assert_eq!(c.len(), 100);
    c.put("/d/extra.pdf".to_string(), "extra".to_string());
    assert_eq!(c.len(), 100);
    assert_eq!(c.get("/d/extra.pdf"), None);
    assert_eq!(c.get("/d/0.pdf"), Some("text 0".to_string()));
    assert_eq!(c.get("/d/99.pdf"), Some("text 99".to_string()));
}

#[test]
fn cache_replaces_text_while_room() {
    let mut c = TextCache::new();
    c.put("/d/a.pdf".to_string(), "one".to_string());
    c.put("/d/a.pdf".to_string(), "two".to_string());
    assert_eq!(c.len(), 1);
    assert_eq!(c.get("/d/a.pdf"), Some("two".to_string()));
}

#[test]
fn extra_document_is_still_searched() {
    let mut c = TextCache::new();
    for i in 0..CACHE_CAPACITY {
        c.put(format!("/d/{}.pdf", i), String::new());
    }
    let text = "some invoice";
    c.put("/d/late.pdf".to_string(), text.to_string());
    assert_eq!(c.get("/d/late.pdf"), None);
    let r = search_in_pdf("/d/late.pdf", 1, text, &Vec::new(), "invoice").unwrap();
    assert_eq!(r.matched_text, "some invoice");
}

#[test]
fn progress_counts_one_to_total() {
    let files = ["/d/a.pdf", "/d/b.pdf", "/d/c.pdf"];
    let mut p = ProgressCounter::new(files.len());
    let mut seen = Vec::new();
    for f in files.iter() {
        let e = p.advance(f).unwrap();
        assert_eq!(e.total, 3);
        assert_eq!(e.current_file, *f);
        seen.push(e.current);
    }
    assert_eq!(seen, vec![1, 2, 3]);
    assert!(p.advance("/d/d.pdf").is_none());
    assert_eq!(p.current(), 3);
}

#[test]
fn results_do_not_depend_on_completion_order() {
    let a = collect_results(vec![
        Some(result("/d/b.pdf", Some(2))),
        None,
        Some(result("/d/a.pdf", None)),
        Some(result("/d/c.pdf", Some(1))),
    ]);
    let b = collect_results(vec![
        Some(result("/d/c.pdf", Some(1))),
        Some(result("/d/a.pdf", None)),
        None,
        Some(result("/d/b.pdf", Some(2))),
    ]);
    let pa: Vec<&str> = a.iter().map(|r| r.file_path.as_str()).collect();
    let pb: Vec<&str> = b.iter().map(|r| r.file_path.as_str()).collect();
    assert_eq!(pa, vec!["/d/a.pdf", "/d/b.pdf", "/d/c.pdf"]);
    assert_eq!(pa, pb);
}

#[test]
fn unresolved_page_sorts_first() {
    let r = sort_results(vec![
        result("/d/a.pdf", Some(3)),
        result("/d/a.pdf", None),
        result("/d/a.pdf", Some(1)),
    ]);
    let pages: Vec<Option<u32>> = r.iter().map(|x| x.page_number).collect();
    assert_eq!(pages, vec![None, Some(1), Some(3)]);
}

#[test]
fn k_matching_documents_give_k_results() {
    let ks = vec!["target".to_string()];
    let texts = ["a target", "nothing", "TARGET b", "none", "x\ntarget"];
    let outcomes: Vec<Option<SearchResult>> = texts
        .iter()
        .enumerate()
        .map(|(i, t)| quick_search_in_pdf(&format!("/d/{}.pdf", i), 1, t, &Vec::new(), &ks))
        .collect();
    assert_eq!(collect_results(outcomes).len(), 3);
}

#[test]
fn exact_page_of_three_page_document() {
    let ps = pages(&["intro text", "the Keyword is here", "closing"]);
    assert_eq!(find_exact_page_number(&ps, "keyword"), Some(2));
    let r = search_in_pdf("/d/a.pdf", 1, "intro text\nthe Keyword is here\nclosing", &ps, "keyword")
        .unwrap();
    assert_eq!(r.page_number, Some(2));
}

#[test]
fn exact_page_skips_unreadable_pages() {
    let ps = vec![None, Some("keyword".to_string()), Some("keyword".to_string())];
    assert_eq!(find_exact_page_number(&ps, "KEYWORD"), Some(2));
    assert_eq!(find_exact_page_number(&pages(&["a", "b"]), "keyword"), None);
}

#[test]
fn estimate_falls_back_to_line_density() {
    let text = "intro text\nthe Keyword is here\nclosing";
    let p = estimate_page_number(text, "keyword is").unwrap();
    assert!(p >= 1 && p <= 3);
    assert_eq!(p, 1);
    let mut long = String::new();
    for i in 0..85 {
        long.push_str(&format!("line {}\n", i));
    }
    long.push_str("needle\n");
    assert_eq!(estimate_page_number(&long, "  NEEDLE "), Some(3));
    assert_eq!(estimate_page_number(&long, "absent"), None);
    assert_eq!(resolve_page(None, &long, "needle"), Some(3));
    assert_eq!(resolve_page(Some(7), &long, "needle"), Some(7));
}

#[test]
fn empty_folder_gives_empty_results() {
    assert!(collect_results(Vec::new()).is_empty());
}

#[test]
fn empty_page_is_skipped() {
    let ps = vec![String::new(), "a keyword".to_string()];
    let r = search_in_pdf_pages(&ps, "keyword");
    assert_eq!(r.len(), 1);
    assert_eq!(r[0].page_number, 2);
    assert_eq!(r[0].content, "a keyword");
    assert!(search_in_pdf_pages(&vec![String::new()], "").is_empty());
}

#[test]
fn page_window_is_thirty_characters_each_side() {
    let page = format!("{}KEY{}", "a".repeat(40), "b".repeat(40));
    let r = search_in_pdf_pages(&vec![page], "key");
    assert_eq!(r.len(), 1);
    assert_eq!(r[0].page_number, 1);
    assert_eq!(r[0].content, format!("{}KEY{}", "a".repeat(30), "b".repeat(30)));
}

#[test]
fn page_window_counts_characters() {
    let page = "ééé key ééé".to_string();
    let r = search_in_pdf_pages(&vec![page.clone(), page.clone()], "key");
    assert_eq!(r.len(), 2);
    assert_eq!(r[1].page_number, 2);
    assert_eq!(r[1].content, page);
}

#[test]
fn document_is_encoded_as_base64() {
    assert_eq!(get_pdf_base64(3, &b"abc".to_vec()).unwrap(), "YWJj");
    assert_eq!(get_pdf_base64(4, &b"abcd".to_vec()).unwrap(), "YWJjZA==");
    assert_eq!(get_pdf_base64(0, &Vec::new()).unwrap(), "");
}

#[test]
fn large_document_is_refused() {
    let cap: u64 = 50 * 1024 * 1024;
    assert_eq!(check_document_size(cap), Ok(()));
    assert_eq!(check_document_size(cap + 1), Err(DocumentError::TooLarge));
    assert_eq!(get_pdf_base64(cap + 1, &Vec::new()).unwrap_err(), DocumentError::TooLarge);
}

#[test]
fn viewer_page_is_clamped() {
    assert_eq!(viewer_page(None, 5), 1);
    assert_eq!(viewer_page(Some(9), 5), 5);
    assert_eq!(viewer_page(Some(0), 5), 1);
    assert_eq!(viewer_page(Some(3), 5), 3);
    assert_eq!(viewer_page(Some(3), 0), 1);
}

#[test]
fn empty_text_is_passed_over() {
    assert!(search_in_pdf("/d/e.pdf", 0, "", &Vec::new(), "keyword").is_none());
    let ks = vec!["alpha".to_string(), "beta".to_string()];
    assert!(quick_search_in_pdf("/d/e.pdf", 0, "", &Vec::new(), &ks).is_none());
    assert!(collect_results(vec![None]).is_empty());
}

#[test]
fn multi_keyword_context_stops_after_ten_lines() {
    let mut text = String::new();
    for i in 0..30 {
        text.push_str(&format!("k{}\n", i));
    }
    let ks = vec!["k".to_string()];
    let r = quick_search_in_pdf("/d/m.pdf", 1, &text, &Vec::new(), &ks).unwrap();
    let lines: Vec<&str> = r.matched_text.lines().collect();
    assert_eq!(lines.len(), 11);
    assert_eq!(lines[0], "k0");
    assert_eq!(lines[10], "k10");
}

#[test]
fn repeated_lines_appear_once() {
    let text = "same\nkey\nsame";
    let r = search_in_pdf("/d/r.pdf", 1, text, &Vec::new(), "key").unwrap();
    assert_eq!(r.matched_text, "same\nkey");
}
