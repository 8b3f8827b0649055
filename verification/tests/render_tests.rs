use dirview::listing::Entry;
use dirview::nav::{DirPath, NavState};
use dirview::preview::StyledLine;
use dirview::render::{clamp_scroll, project, Rect};

fn e(name: &str, is_dir: bool) -> Entry {
    Entry { name: name.to_string(), is_dir }
}

fn state() -> NavState {
    NavState::new(
        DirPath { parts: vec!["home".to_string(), "user".to_string()] },
        vec![e("docs", true), e("a.txt", false)],
    )
}

fn viewport() -> Rect {
    Rect { x: 0, y: 0, w: 80, h: 24 }
}

#[test]
fn scroll_is_clamped_into_content_range() {
    assert_eq!(clamp_scroll(100, 10, 4), 6);
    assert_eq!(clamp_scroll(3, 10, 4), 3);
    assert_eq!(clamp_scroll(0, 10, 4), 0);
    assert_eq!(clamp_scroll(5, 3, 10), 0); // fewer lines than the pane
    assert_eq!(clamp_scroll(7, 0, 10), 0);
}

#[test]
fn layout_splits_into_three_bands() {
    let plan = project(&state(), viewport());
    assert_eq!(plan.path_rect, Rect { x: 0, y: 0, w: 80, h: 3 });
    assert_eq!(plan.list_rect, Rect { x: 0, y: 3, w: 80, h: 18 });
    assert_eq!(plan.hints_rect, Rect { x: 0, y: 21, w: 80, h: 3 });
    assert!(plan.preview.is_none());
}

#[test]
fn open_preview_splits_the_middle_in_halves() {
    let mut s = state();
    s.open_preview("a.txt".to_string(), vec![StyledLine { runs: Vec::new() }], false);
    let plan = project(&s, viewport());
    assert_eq!(plan.list_rect, Rect { x: 0, y: 3, w: 40, h: 18 });
    let pp = plan.preview.as_ref().unwrap();
    assert_eq!(pp.rect, Rect { x: 40, y: 3, w: 40, h: 18 });
    assert_eq!(pp.title, " a.txt ");
    assert_eq!(pp.scroll, 0);
}

#[test]
fn truncated_preview_title_is_annotated() {
    let mut s = state();
    s.open_preview("big.log".to_string(), Vec::new(), true);
    let plan = project(&s, viewport());
    let pp = plan.preview.as_ref().unwrap();
    assert_eq!(pp.title, " big.log (first 512 KB) ");
}

#[test]
fn preview_scroll_is_clamped_at_render_time() {
    let mut s = state();
    let lines: Vec<StyledLine> = (0..100).map(|_| StyledLine { runs: Vec::new() }).collect();
    s.open_preview("a.txt".to_string(), lines, false);
    for _ in 0..500 {
        s.preview_scroll_down();
    }
    assert_eq!(s.preview.as_ref().unwrap().scroll, 500);
    let plan = project(&s, viewport());
    let pp = plan.preview.as_ref().unwrap();
    assert_eq!(pp.scroll, 100 - 18);
}

#[test]
fn path_bar_shows_full_path_and_hidden_indicator() {
    let plan = project(&state(), viewport());
    assert_eq!(plan.path_text, "/home/user");
    assert_eq!(plan.path_title, " Path ");
    let mut s = state();
    s.toggle_hidden(vec![e("docs", true)]);
    let plan = project(&s, viewport());
    assert_eq!(plan.path_title, " Path - hidden ");
    let root = NavState::new(DirPath { parts: Vec::new() }, Vec::new());
    let plan = project(&root, viewport());
    assert_eq!(plan.path_text, "/");
}

#[test]
fn selected_row_is_the_only_emphasized_one() {
    let mut s = state();
    s.selection_down();
    let plan = project(&s, viewport());
    assert_eq!(plan.rows.len(), s.listing.len());
    for (i, row) in plan.rows.iter().enumerate() {
        assert_eq!(row.emphasized, i == s.selected);
    }
    assert_eq!(plan.rows[0].text, "> ..");
    assert_eq!(plan.rows[1].text, "> docs");
    assert_eq!(plan.rows[2].text, "  a.txt");
}
