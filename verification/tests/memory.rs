use agentcorp::memory::bm25::{is_cjk, matching_docs, term_stats, tokenize, tokenize_lowered};
use agentcorp::memory::markdown::{
    appended_content, is_markdown_file_name, is_valid_memory_filename, split_paragraphs,
    MarkdownMemory,
};
use agentcorp::error::AgentCorpError;

#[test]
fn tokenize_ascii() {
    let tokens = tokenize("Hello World foo-bar");
    assert_eq!(tokens, vec!["hello", "world", "foobar"]);
}

#[test]
fn tokenize_cjk_bigrams() {
    let tokens = tokenize("打开浏览器");
    assert_eq!(tokens, vec!["打开", "开浏", "浏览", "览器"]);
}

#[test]
fn tokenize_single_cjk() {
    let tokens = tokenize("是");
    assert_eq!(tokens, vec!["是"]);
}

#[test]
fn tokenize_mixed() {
    let tokens = tokenize("修了 plist 权限问题");
    assert_eq!(tokens, vec!["修了", "plist", "权限", "限问", "问题"]);
}

#[test]
fn tokenize_empty() {
    assert!(tokenize("").is_empty());
    assert!(tokenize("   ").is_empty());
}

#[test]
fn tokenize_splits_at_cjk_boundaries_and_drops_punctuation() {
    assert_eq!(tokenize("abc打开def"), vec!["abc", "打开", "def"]);
    assert_eq!(tokenize("--- !!"), Vec::<String>::new());
    assert_eq!(tokenize("Ünïcode\tTAB\nline"), vec!["ünïcode", "tab", "line"]);
}

#[test]
fn tokenize_lowered_keeps_case() {
    let chars: Vec<char> = "ABC d".chars().collect();
    assert_eq!(tokenize_lowered(&chars), vec!["ABC", "d"]);
}

#[test]
fn cjk_range() {
    assert!(is_cjk('\u{4e00}'));
    assert!(is_cjk('\u{9fff}'));
    assert!(!is_cjk('\u{3000}'));
    assert!(!is_cjk('a'));
}

#[test]
fn term_stats_counts() {
    let docs = vec![
        ("a.md".to_string(), "如何打开 Safari 浏览器".to_string()),
        ("b.md".to_string(), "Python 配置文件处理".to_string()),
        ("c.md".to_string(), "浏览器书签管理".to_string()),
    ];
    let stats = term_stats(&docs, "浏览器");
    assert_eq!(stats.query_tokens, vec!["浏览", "览器"]);
    assert_eq!(stats.doc_lengths, vec![6, 6, 6]);
    assert_eq!(stats.term_freq, vec![vec![1, 1], vec![0, 0], vec![1, 1]]);
    assert_eq!(stats.doc_freq, vec![2, 2]);
    assert_eq!(matching_docs(&stats), vec![0, 2]);
}

#[test]
fn term_stats_repeated_tokens() {
    let docs = vec![("x.md".to_string(), "a a b".to_string())];
    let stats = term_stats(&docs, "a a");
    assert_eq!(stats.term_freq, vec![vec![2, 2]]);
    assert_eq!(stats.doc_freq, vec![1, 1]);
}

#[test]
fn term_stats_empty_query_matches_nothing() {
    let docs = vec![("a.md".to_string(), "hello".to_string())];
    let stats = term_stats(&docs, "");
    assert!(stats.query_tokens.is_empty());
    assert!(matching_docs(&stats).is_empty());
}

#[test]
fn term_stats_no_match() {
    let docs = vec![("a.md".to_string(), "hello world".to_string())];
    let stats = term_stats(&docs, "你好");
    assert!(matching_docs(&stats).is_empty());
}

#[test]
fn valid_filenames() {
    assert!(is_valid_memory_filename("MEMORY.md"));
    assert!(is_valid_memory_filename("2024-03-15.md"));
    assert!(is_valid_memory_filename("2026-01-01.md"));
    assert!(!is_valid_memory_filename("readme.md"));
    assert!(!is_valid_memory_filename("2024-3-5.md"));
    assert!(!is_valid_memory_filename("../MEMORY.md"));
}

#[test]
fn valid_filenames_edge_cases() {
    assert!(!is_valid_memory_filename("memory.md"));
    assert!(!is_valid_memory_filename("2024-03-15.txt"));
    assert!(!is_valid_memory_filename("2024/03/15.md"));
    assert!(!is_valid_memory_filename("2024-03-1x.md"));
    assert!(!is_valid_memory_filename(""));
}

#[test]
fn paragraph_splitting() {
    let text = "First paragraph\n\nSecond paragraph\n\nThird paragraph";
    let paras = split_paragraphs(text);
    assert_eq!(paras.len(), 3);
    assert_eq!(paras[0], "First paragraph");
}

#[test]
fn paragraph_splitting_trims_and_drops_empty() {
    assert_eq!(split_paragraphs("  a \n\n\n\n b\n\n\n c  "), vec!["a", "b", "c"]);
    assert!(split_paragraphs("").is_empty());
    assert!(split_paragraphs("\n\n  \n\n").is_empty());
}

#[test]
fn appended_content_separators() {
    assert_eq!(appended_content("", "x"), "x\n");
    assert_eq!(appended_content("a\n\n", "x"), "a\n\nx\n");
    assert_eq!(appended_content("a\n", "x"), "a\n\nx\n");
    assert_eq!(appended_content("a", "x"), "a\n\nx\n");
}

#[test]
fn write_validates_filename() {
    let mem = MarkdownMemory::new("/tmp/memory".to_string());
    assert!(mem.written_content("MEMORY.md", "", "ok").is_ok());
    assert!(mem.written_content("2024-03-15.md", "", "ok").is_ok());
    assert!(mem.written_content("evil.md", "", "nope").is_err());
    assert!(mem.written_content("../escape.md", "", "nope").is_err());
}

#[test]
fn invalid_filename_error_names_file() {
    let mem = MarkdownMemory::new("/tmp/memory".to_string());
    match mem.check_file("evil.md") {
        Err(AgentCorpError::Agent { message }) => {
            assert_eq!(message, "invalid memory filename: evil.md")
        }
        _ => panic!("expected an agent error"),
    }
}

#[test]
fn write_appends() {
    let mem = MarkdownMemory::new("/tmp/memory".to_string());
    let first = mem.written_content("MEMORY.md", "", "First entry").unwrap();
    let content = mem.written_content("MEMORY.md", &first, "Second entry").unwrap();
    assert!(content.contains("First entry"));
    assert!(content.contains("Second entry"));
    assert_eq!(content, "First entry\n\nSecond entry\n");
}

#[test]
fn write_and_read() {
    let mem = MarkdownMemory::new("/tmp/memory".to_string());
    let content = mem
        .written_content("MEMORY.md", "", "# Important\nSafari crashes on retina")
        .unwrap();
    assert!(content.contains("Safari crashes"));
}

#[test]
fn collect_paragraphs_sorts_and_filters() {
    let mem = MarkdownMemory::new("/tmp/memory".to_string());
    let entries = vec![
        ("b.md".to_string(), "two\n\nthree".to_string()),
        ("notes.txt".to_string(), "skip".to_string()),
        ("a.md".to_string(), "one".to_string()),
        (".md".to_string(), "hidden".to_string()),
    ];
    let docs = mem.collect_paragraphs(entries);
    assert_eq!(
        docs,
        vec![
            ("a.md".to_string(), "one".to_string()),
            ("b.md".to_string(), "two".to_string()),
            ("b.md".to_string(), "three".to_string()),
        ]
    );
    assert_eq!(mem.dir(), "/tmp/memory");
}

#[test]
fn markdown_extension() {
    assert!(is_markdown_file_name("x.md"));
    assert!(is_markdown_file_name("..md"));
    assert!(!is_markdown_file_name(".md"));
    assert!(!is_markdown_file_name("x.mdx"));
}

#[test]
fn tokens_of_joined_texts_concatenate() {
    let a = "Hello, 世界 foo-bar";
    let b = "你好吗 x";
    let joined = format!("{a} {b}");
    let mut expected = tokenize(a);
    expected.extend(tokenize(b));
    assert_eq!(tokenize(&joined), expected);
}

#[test]
fn unicode_whitespace_separates() {
    assert!(tokenize("\u{3000}\u{a0}\t\u{2028}").is_empty());
    assert_eq!(tokenize("a\u{3000}b\u{85}c"), vec!["a", "b", "c"]);
}

#[test]
fn ascii_and_cjk_lowercasing_is_exact() {
    assert_eq!(tokenize("Hello World foo-bar"), vec!["hello", "world", "foobar"]);
    assert_eq!(tokenize("ABC 中文字"), vec!["abc", "中文", "文字"]);
}
