//! The render projector: a pure map from navigation state and viewport to
//! the regions, texts and styles one frame shows.

use vstd::prelude::*;
use vstd::string::StrSliceExecFns;
use vstd::string::StringExecFns;

use crate::nav::NavState;

verus! {

/// A rectangle of terminal cells.
#[derive(Clone, Copy, Debug, PartialEq, Eq, Structural)]
pub struct Rect {
    pub x: u16,
    pub y: u16,
    pub w: u16,
    pub h: u16,
}

/// One entry-list row: its rendered text and whether it is the selected,
/// visually emphasized row.
pub struct ListRow {
    pub text: String,
    pub emphasized: bool,
}

/// The preview pane of one frame: where it sits, its title, and the
/// effective (clamped) scroll offset its content starts at.
pub struct PreviewPanel {
    pub rect: Rect,
    pub title: String,
    pub scroll: usize,
}

/// Everything one frame shows, laid out: the path bar, the entry list, the
/// optional preview pane, and the key-hint bar.
pub struct RenderPlan {
    pub path_rect: Rect,
    pub path_title: String,
    pub path_text: String,
    pub list_rect: Rect,
    pub list_title: String,
    pub rows: Vec<ListRow>,
    pub preview: Option<PreviewPanel>,
    pub hints_rect: Rect,
    pub hints_text: String,
}

/// The scroll offset rendering actually uses: the stored offset clamped
/// into `[0, max(0, lines - pane_height)]`.
pub open spec fn effective_scroll(raw: int, lines: int, pane_h: int) -> int {
    let bound = if lines > pane_h {
        lines - pane_h
    } else {
        0
    };
    if raw < bound {
        raw
    } else {
        bound
    }
}

/// Clamps a stored scroll offset for a pane of the given height; whatever
/// the stored value, the result stays within the content.
pub fn clamp_scroll(raw: usize, lines: usize, pane_h: usize) -> (r: usize)
    ensures
        r as int == effective_scroll(raw as int, lines as int, pane_h as int),
        r as int <= (if lines > pane_h {
            lines - pane_h
        } else {
            0
        }),
        r <= raw,
{
    let bound = if lines > pane_h {
        lines - pane_h
    } else {
        0
    };
    if raw < bound {
        raw
    } else {
        bound
    }
}

/// The components of a path joined with a leading slash before each.
pub open spec fn joined(parts: Seq<Seq<char>>) -> Seq<char>
    decreases parts.len(),
{
    if parts.len() == 0 {
        Seq::empty()
    } else {
        joined(parts.drop_last()) + seq!['/'] + parts.last()
    }
}

/// The text the path bar shows: `/` for the root, else the joined parts.
pub open spec fn path_text_of(parts: Seq<Seq<char>>) -> Seq<char> {
    if parts.len() == 0 {
        "/"@
    } else {
        joined(parts)
    }
}

/// The icon-like prefix of a row: directories are distinguished.
pub open spec fn row_prefix(is_dir: bool) -> Seq<char> {
    if is_dir {
        "> "@
    } else {
        "  "@
    }
}

/// The preview pane's title: the file's base name, annotated when only a
/// prefix of the file is shown.
pub open spec fn preview_title_of(name: Seq<char>, truncated: bool) -> Seq<char> {
    if truncated {
        " "@ + name + " (first 512 KB) "@
    } else {
        " "@ + name + " "@
    }
}

/// Builds the path bar's text from the current directory.
fn render_path_text(parts: &Vec<String>) -> (r: String)
    ensures
        r@ == path_text_of(parts@.map_values(|s: String| s@)),
{
    let ghost pv = parts@.map_values(|s: String| s@);
    if parts.len() == 0 {
        return String::from_str("/");
    }
    let mut out = String::new();
    let mut i: usize = 0;
    proof {
        reveal_strlit("/");
        assert(pv.subrange(0, 0) =~= Seq::<Seq<char>>::empty());
        assert(out@ =~= joined(pv.subrange(0, 0)));
    }
    while i < parts.len()
        invariant
            i <= parts@.len(),
            pv == parts@.map_values(|s: String| s@),
            out@ == joined(pv.subrange(0, i as int)),
        decreases parts@.len() - i,
    {
        proof {
            reveal_strlit("/");
        }
        out.append("/");
        out.append(parts[i].as_str());
        proof {
            assert(pv.subrange(0, i + 1).drop_last() =~= pv.subrange(0, i as int));
            assert(pv.subrange(0, i + 1).last() == pv[i as int]);
            assert("/"@ =~= seq!['/']);
            assert(out@ =~= joined(pv.subrange(0, i + 1)));
        }
        i = i + 1;
    }
    proof {
        assert(pv.subrange(0, pv.len() as int) =~= pv);
    }
    out
}

/// Projects the state onto one frame: a three-row path bar on top, a
/// three-row key-hint bar at the bottom, and the middle split in halves when
/// a preview is open. The projection reads the state and computes; it never
/// touches the filesystem, so equal states give equal frames.
pub fn project(state: &NavState, viewport: Rect) -> (r: RenderPlan)
    requires
        state.wf(),
        viewport.h >= 11,
        viewport.x + viewport.w <= u16::MAX,
        viewport.y + viewport.h <= u16::MAX,
    ensures
        r.path_rect == (Rect { x: viewport.x, y: viewport.y, w: viewport.w, h: 3 }),
        r.path_title@ == (if state.show_hidden {
            " Path - hidden "@
        } else {
            " Path "@
        }),
        r.path_text@ == path_text_of(state.cwd@),
        r.list_title@ == " Entries "@,
        r.rows@.len() == state.listing@.len(),
        forall|i: int|
            0 <= i < state.listing@.len() ==> {
                let e = state.listing@[i]@;
                (#[trigger] r.rows@[i]).text@ == row_prefix(e.is_dir) + e.name && r.rows@[i].emphasized
                    == (i == state.selected as int)
            },
        ({
            let mid_y = (viewport.y + 3) as u16;
            let mid_h = (viewport.h - 6) as u16;
            let half = (viewport.w / 2) as u16;
            match state.preview {
                Some(p) => {
                    &&& r.list_rect == (Rect { x: viewport.x, y: mid_y, w: half, h: mid_h })
                    &&& r.preview matches Some(pp) && pp.rect == (Rect {
                        x: (viewport.x + half) as u16,
                        y: mid_y,
                        w: (viewport.w - half) as u16,
                        h: mid_h,
                    }) && pp.title@ == preview_title_of(p.file_name@, p.truncated)
                        && pp.scroll as int == effective_scroll(
                        p.scroll as int,
                        p.lines@.len() as int,
                        mid_h as int,
                    )
                },
                None => {
                    &&& r.list_rect == (Rect { x: viewport.x, y: mid_y, w: viewport.w, h: mid_h })
                    &&& r.preview is None
                },
            }
        }),
        r.hints_rect == (Rect {
            x: viewport.x,
            y: (viewport.y + viewport.h - 3) as u16,
            w: viewport.w,
            h: 3,
        }),
        r.hints_text@
            == " Up/Down or k/j move | Enter/l open | h up | H toggle hidden | Esc close preview / quit | j/k scroll in preview | q quit "@,
{
    let path_rect = Rect { x: viewport.x, y: viewport.y, w: viewport.w, h: 3 };
    let path_title = if state.show_hidden {
        String::from_str(" Path - hidden ")
    } else {
        String::from_str(" Path ")
    };
    let path_text = render_path_text(&state.cwd.parts);
    let mid_y = viewport.y + 3;
    let mid_h = viewport.h - 6;
    let mut rows: Vec<ListRow> = Vec::new();
    let mut i: usize = 0;
    while i < state.listing.len()
        invariant
            state.wf(),
            i <= state.listing@.len(),
            rows@.len() == i,
            forall|k: int|
                0 <= k < i ==> {
                    let e = state.listing@[k]@;
                    (#[trigger] rows@[k]).text@ == row_prefix(e.is_dir) + e.name
                        && rows@[k].emphasized == (k == state.selected as int)
                },
        decreases state.listing@.len() - i,
    {
        let e = &state.listing[i];
        let prefix = if e.is_dir {
            String::from_str("> ")
        } else {
            String::from_str("  ")
        };
        let text = prefix.concat(e.name.as_str());
        let row = ListRow { text, emphasized: i == state.selected };
        rows.push(row);
        i = i + 1;
    }
    let (list_rect, preview) = match &state.preview {
        Some(p) => {
            let half = viewport.w / 2;
            let list_rect = Rect { x: viewport.x, y: mid_y, w: half, h: mid_h };
            let prect = Rect {
                x: viewport.x + half,
                y: mid_y,
                w: viewport.w - half,
                h: mid_h,
            };
            let title = if p.truncated {
                String::from_str(" ").concat(p.file_name.as_str()).concat(" (first 512 KB) ")
            } else {
                String::from_str(" ").concat(p.file_name.as_str()).concat(" ")
            };
            let scroll = clamp_scroll(p.scroll, p.lines.len(), mid_h as usize);
            (list_rect, Some(PreviewPanel { rect: prect, title, scroll }))
        },
        None => {
            (Rect { x: viewport.x, y: mid_y, w: viewport.w, h: mid_h }, None)
        },
    };
    let hints_rect = Rect { x: viewport.x, y: viewport.y + viewport.h - 3, w: viewport.w, h: 3 };
    let hints_text = String::from_str(
        " Up/Down or k/j move | Enter/l open | h up | H toggle hidden | Esc close preview / quit | j/k scroll in preview | q quit ",
    );
    RenderPlan {
        path_rect,
        path_title,
        path_text,
        list_rect,
        list_title: String::from_str(" Entries "),
        rows,
        preview,
        hints_rect,
        hints_text,
    }
}

} // verus!
