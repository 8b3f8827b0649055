use dirview::preview::{extension_of, load_preview, PreviewContent, StyledLine};
use syntect::highlighting::{Theme, ThemeSet};
use syntect::parsing::SyntaxSet;

fn line_text(l: &StyledLine) -> String {
    let mut s = String::new();
    for r in l.runs.iter() {
        s.push_str(&r.text);
    }
    s
}

fn with_engine<F: FnOnce(&SyntaxSet, Option<&Theme>) -> PreviewContent>(f: F) -> PreviewContent {
    let ps = SyntaxSet::load_defaults_newlines();
    let ts = ThemeSet::load_defaults();
    let theme = ts
        .themes
        .get("base16-eighties.dark")
        .or_else(|| ts.themes.values().next());
    f(&ps, theme)
}

#[test]
fn empty_file_gives_one_informational_line() {
    let p = with_engine(|ps, th| load_preview(Ok(Vec::new()), None, ps, th));
    assert!(!p.truncated);
    assert_eq!(p.lines.len(), 1);
    assert_eq!(line_text(&p.lines[0]), "(empty file)");
}

#[test]
fn read_error_gives_one_message_line() {
    let p = with_engine(|ps, th| load_preview(Err("boom".to_string()), None, ps, th));
    assert!(!p.truncated);
    assert_eq!(p.lines.len(), 1);
    assert_eq!(line_text(&p.lines[0]), "Error reading: boom");
}

#[test]
fn binary_content_gives_one_binary_line() {
    // ten bytes, four of them non-printable: 40% > 25%
    let bytes = vec![0u8, 0, 0, 0, b'a', b'b', b'c', b'd', b'e', b'f'];
    let p = with_engine(|ps, th| load_preview(Ok(bytes), None, ps, th));
    assert_eq!(p.lines.len(), 1);
    assert_eq!(line_text(&p.lines[0]), "(binary file)");
    assert!(p.lines[0].runs.len() == 1);
    assert!(p.lines[0].runs[0].fg.is_none());
}

#[test]
fn invalid_utf8_gives_one_line() {
    let mut bytes = b"abcdefghij".to_vec();
    bytes.push(0xff);
    bytes.push(0xfe);
    let p = with_engine(|ps, th| load_preview(Ok(bytes), None, ps, th));
    assert_eq!(p.lines.len(), 1);
    assert_eq!(line_text(&p.lines[0]), "(not valid UTF-8)");
}

#[test]
fn oversized_text_is_truncated_to_the_cap() {
    let bytes = vec![b'a'; 600 * 1024];
    let ext = "txt".to_string();
    let p = with_engine(|ps, th| load_preview(Ok(bytes), Some(&ext), ps, th));
    assert!(p.truncated);
    let total: usize = p.lines.iter().map(|l| line_text(l).len()).sum();
    assert_eq!(total, 512 * 1024);
}

#[test]
fn text_lines_keep_their_content_and_terminators() {
    let bytes = b"alpha\nbeta\ngamma".to_vec();
    let ext = "txt".to_string();
    let p = with_engine(|ps, th| load_preview(Ok(bytes), Some(&ext), ps, th));
    assert!(!p.truncated);
    assert_eq!(p.lines.len(), 3);
    assert_eq!(line_text(&p.lines[0]), "alpha\n");
    assert_eq!(line_text(&p.lines[1]), "beta\n");
    assert_eq!(line_text(&p.lines[2]), "gamma");
}

#[test]
fn rust_source_is_highlighted_into_styled_runs() {
    let bytes = b"fn main() { let x = 1; }\n".to_vec();
    let ext = "rs".to_string();
    let p = with_engine(|ps, th| load_preview(Ok(bytes), Some(&ext), ps, th));
    assert_eq!(p.lines.len(), 1);
    assert_eq!(line_text(&p.lines[0]), "fn main() { let x = 1; }\n");
    // real highlighting breaks the line into several runs and colors some
    assert!(p.lines[0].runs.len() > 1);
    assert!(p.lines[0].runs.iter().any(|r| r.fg.is_some()));
}

#[test]
fn unknown_extension_falls_back_to_plain_text() {
    let bytes = b"just words\n".to_vec();
    let ext = "nosuchextension".to_string();
    let p = with_engine(|ps, th| load_preview(Ok(bytes), Some(&ext), ps, th));
    assert_eq!(p.lines.len(), 1);
    assert_eq!(line_text(&p.lines[0]), "just words\n");
}

#[test]
fn extension_comes_after_the_last_dot() {
    assert_eq!(extension_of(&"a.tar.gz".to_string()), Some("gz".to_string()));
    assert_eq!(extension_of(&"main.rs".to_string()), Some("rs".to_string()));
    assert_eq!(extension_of(&".bashrc".to_string()), None);
    assert_eq!(extension_of(&"README".to_string()), None);
}
