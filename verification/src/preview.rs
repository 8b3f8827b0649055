//! File previews: styled lines, the text/binary/oversize policy, and the
//! construction of a preview from the bytes a file read yielded.

use vstd::prelude::*;
use vstd::string::StrSliceExecFns;
use vstd::string::StringExecFns;

use crate::hl;
use crate::hl::RawSegment;

verus! {

/// A preview shows at most this many bytes of a file.
pub const MAX_PREVIEW_BYTES: usize = 512 * 1024;

/// A 24-bit color.
#[derive(Clone, Copy, PartialEq, Eq, Structural)]
pub struct Rgb8 {
    pub r: u8,
    pub g: u8,
    pub b: u8,
}

/// A maximal stretch of one line that shares a single style.
pub struct StyledRun {
    pub text: String,
    pub fg: Option<Rgb8>,
    pub bold: bool,
    pub italic: bool,
    pub underline: bool,
}

/// One preview line, broken into styled runs; no runs means a blank line.
pub struct StyledLine {
    pub runs: Vec<StyledRun>,
}

/// The text of a line: its runs' texts, concatenated.
pub open spec fn line_text(l: StyledLine) -> Seq<char> {
    runs_text(l.runs@)
}

/// The concatenated text of a sequence of runs.
pub open spec fn runs_text(runs: Seq<StyledRun>) -> Seq<char>
    decreases runs.len(),
{
    if runs.len() == 0 {
        Seq::empty()
    } else {
        runs_text(runs.drop_last()) + runs.last().text@
    }
}

/// A single-run line with the given text and no styling at all.
pub open spec fn is_plain_line(l: StyledLine, text: Seq<char>) -> bool {
    &&& l.runs@.len() == 1
    &&& l.runs@[0].text@ == text
    &&& l.runs@[0].fg is None
    &&& !l.runs@[0].bold
    &&& !l.runs@[0].italic
    &&& !l.runs@[0].underline
}

/// A run carries the same text as the segment, the segment's foreground
/// unless it is fully transparent, and its font attributes, decoded from
/// syntect's bits.
pub open spec fn run_matches_segment(run: StyledRun, seg: RawSegment) -> bool {
    &&& run.text@ == seg.text@
    &&& (seg.alpha == 0 ==> run.fg is None)
    &&& (seg.alpha != 0 ==> run.fg == Some(Rgb8 { r: seg.red, g: seg.green, b: seg.blue }))
    &&& run.bold == (seg.font & 1 != 0)
    &&& run.underline == (seg.font & 2 != 0)
    &&& run.italic == (seg.font & 4 != 0)
}

/// Runs that match segments pairwise concatenate to the same text.
proof fn lemma_matching_text(runs: Seq<StyledRun>, segs: Seq<RawSegment>)
    requires
        runs.len() == segs.len(),
        forall|i: int| 0 <= i < segs.len() ==> (#[trigger] runs[i]).text@ == segs[i].text@,
    ensures
        runs_text(runs) == hl::segments_text(segs),
    decreases runs.len(),
{
    if runs.len() > 0 {
        lemma_matching_text(runs.drop_last(), segs.drop_last());
    }
}

/// Turns one highlighted line's segments into a styled line: color and font
/// attributes map independently; a fully transparent foreground means no
/// explicit color.
pub fn line_of_segments(mut segs: Vec<RawSegment>) -> (r: StyledLine)
    ensures
        r.runs@.len() == segs@.len(),
        forall|i: int| 0 <= i < segs@.len() ==> run_matches_segment(#[trigger] r.runs@[i], segs@[i]),
        line_text(r) == hl::segments_text(segs@),
{
    let ghost full = segs@;
    let mut runs: Vec<StyledRun> = Vec::new();
    let ghost mut done: int = 0;
    while segs.len() > 0
        invariant
            0 <= done <= full.len(),
            segs@ =~= full.subrange(done, full.len() as int),
            runs@.len() == done,
            forall|i: int| 0 <= i < done ==> run_matches_segment(#[trigger] runs@[i], full[i]),
        decreases full.len() - done,
    {
        let ghost before = segs@;
        let seg = segs.remove(0);
        proof {
            assert(before[0] == full[done]);
            assert(segs@ =~= full.subrange(done + 1, full.len() as int));
        }
        let fg = if seg.alpha != 0 {
            Some(Rgb8 { r: seg.red, g: seg.green, b: seg.blue })
        } else {
            None
        };
        let run = StyledRun {
            text: seg.text,
            fg,
            bold: seg.font & 1 != 0,
            italic: seg.font & 4 != 0,
            underline: seg.font & 2 != 0,
        };
        runs.push(run);
        proof {
            done = done + 1;
        }
    }
    let r = StyledLine { runs };
    proof {
        lemma_matching_text(r.runs@, full);
    }
    r
}

/// Bytes that read as text: printable ASCII, space, tab, carriage return or
/// line feed.
pub open spec fn is_printable(b: u8) -> bool {
    (0x21 <= b <= 0x7e) || b == 0x20 || b == 0x09 || b == 0x0a || b == 0x0d
}

/// How many bytes of `s` are not printable.
pub open spec fn non_printable_count(s: Seq<u8>) -> nat
    decreases s.len(),
{
    if s.len() == 0 {
        0
    } else {
        non_printable_count(s.drop_last()) + if is_printable(s.last()) {
            0nat
        } else {
            1nat
        }
    }
}

/// The binary heuristic: more than a quarter of the bytes are not printable.
pub open spec fn looks_binary(s: Seq<u8>) -> bool {
    non_printable_count(s) > s.len() / 4
}

/// Counts the bytes of `t` that are not printable.
fn count_non_printable(t: &Vec<u8>) -> (cnt: usize)
    ensures
        cnt == non_printable_count(t@),
{
    let mut cnt: usize = 0;
    let mut i: usize = 0;
    proof {
        assert(t@.take(0) =~= Seq::<u8>::empty());
    }
    while i < t.len()
        invariant
            i <= t@.len(),
            cnt <= i,
            cnt == non_printable_count(t@.take(i as int)),
        decreases t@.len() - i,
    {
        let b = t[i];
        proof {
            assert(t@.take(i + 1).drop_last() =~= t@.take(i as int));
            assert(t@.take(i + 1).last() == t@[i as int]);
        }
        if !((0x21 <= b && b <= 0x7e) || b == 0x20 || b == 0x09 || b == 0x0a || b == 0x0d) {
            cnt = cnt + 1;
        }
        i = i + 1;
    }
    proof {
        assert(t@.take(t@.len() as int) =~= t@);
    }
    cnt
}

/// What `String::from_utf8` decodes a byte sequence to: the character
/// sequence when the bytes are valid UTF-8, nothing otherwise.
pub uninterp spec fn utf8_decode_of(bytes: Seq<u8>) -> Option<Seq<char>>;

/// Relies on `String::from_utf8`: it succeeds exactly on valid UTF-8, and
/// the decoded text depends on the bytes alone.
#[verifier::external_body]
fn decode_utf8(bytes: Vec<u8>) -> (r: Option<String>)
    ensures
        r is Some <==> utf8_decode_of(bytes@) is Some,
        r matches Some(s) ==> utf8_decode_of(bytes@) matches Some(t) && s@ == t,
{
    String::from_utf8(bytes).ok()
}

/// The index of the first line feed in `s`, or `s.len()` when there is none.
pub open spec fn first_nl(s: Seq<char>) -> int
    decreases s.len(),
{
    if s.len() == 0 {
        0
    } else if s[0] == '\n' {
        0
    } else {
        1 + first_nl(s.drop_first())
    }
}

proof fn lemma_first_nl_unique(s: Seq<char>, m: int)
    requires
        0 <= m <= s.len(),
        m < s.len() ==> s[m] == '\n',
        forall|j: int| 0 <= j < m ==> s[j] != '\n',
    ensures
        first_nl(s) == m,
    decreases s.len(),
{
    if s.len() > 0 && s[0] != '\n' {
        lemma_first_nl_unique(s.drop_first(), m - 1);
    }
}

/// The lines of a text, keeping each terminating line feed; text after the
/// last line feed forms a final line, and an empty text has no lines.
pub open spec fn split_lines(s: Seq<char>) -> Seq<Seq<char>>
    decreases s.len(),
{
    if s.len() == 0 {
        Seq::empty()
    } else {
        let k = first_nl(s);
        if 0 <= k < s.len() {
            seq![s.subrange(0, k + 1)] + split_lines(s.skip(k + 1))
        } else {
            seq![s]
        }
    }
}

/// The views of a sequence of strings.
pub open spec fn string_views(s: Seq<String>) -> Seq<Seq<char>> {
    s.map_values(|x: String| x@)
}

/// Finds the first line feed at or after `pos`, or the text's length.
fn find_newline(text: &str, pos: usize, n: usize) -> (j: usize)
    requires
        n == text@.len(),
        pos <= n,
    ensures
        pos <= j <= n,
        j < n ==> text@[j as int] == '\n',
        forall|m: int| pos <= m < j ==> text@[m] != '\n',
{
    let mut j: usize = pos;
    loop
        invariant
            pos <= j <= n,
            n == text@.len(),
            forall|m: int| pos <= m < j ==> text@[m] != '\n',
        decreases n - j,
    {
        if j == n {
            return j;
        }
        if text.get_char(j) == '\n' {
            return j;
        }
        j = j + 1;
    }
}

/// Splits a text into its lines, keeping line terminators.
pub fn split_lines_exec(text: &str) -> (r: Vec<String>)
    ensures
        string_views(r@) == split_lines(text@),
{
    let n = text.unicode_len();
    let mut out: Vec<String> = Vec::new();
    let mut pos: usize = 0;
    proof {
        assert(text@.skip(0) =~= text@);
        assert(string_views(out@) =~= Seq::<Seq<char>>::empty());
        assert(Seq::<Seq<char>>::empty() + split_lines(text@) =~= split_lines(text@));
    }
    while pos < n
        invariant
            pos <= n,
            n == text@.len(),
            string_views(out@) + split_lines(text@.skip(pos as int)) =~= split_lines(text@),
        decreases n - pos,
    {
        let j = find_newline(text, pos, n);
        let end = if j < n {
            j + 1
        } else {
            n
        };
        let piece = text.substring_char(pos, end).to_owned();
        let ghost rest = text@.skip(pos as int);
        proof {
            lemma_first_nl_unique(rest, j - pos);
            assert(piece@ == text@.subrange(pos as int, end as int));
            if j < n {
                assert(rest.subrange(0, (j - pos) + 1) =~= text@.subrange(pos as int, j + 1));
                assert(rest.skip((j - pos) + 1) =~= text@.skip(end as int));
                assert(split_lines(rest) == seq![piece@] + split_lines(text@.skip(end as int)));
            } else {
                assert(rest =~= text@.subrange(pos as int, n as int));
                assert(rest.len() > 0);
                assert(first_nl(rest) == rest.len());
                assert(split_lines(rest) == seq![rest]);
                assert(text@.skip(end as int).len() == 0);
                assert(split_lines(text@.skip(end as int)) == Seq::<Seq<char>>::empty());
                assert(split_lines(rest) =~= seq![piece@] + split_lines(text@.skip(end as int)));
            }
        }
        let ghost out_before = out@;
        out.push(piece);
        proof {
            assert(string_views(out@) =~= string_views(out_before).push(piece@));
            assert(string_views(out_before).push(piece@) =~= string_views(out_before) + seq![
                piece@,
            ]);
            assert(string_views(out@) + split_lines(text@.skip(end as int)) =~= string_views(
                out_before,
            ) + (seq![piece@] + split_lines(text@.skip(end as int))));
        }
        pos = end;
    }
    proof {
        assert(text@.skip(pos as int).len() == 0);
        assert(split_lines(text@.skip(pos as int)) =~= Seq::<Seq<char>>::empty());
        assert(string_views(out@) =~= split_lines(text@));
    }
    out
}

/// The largest index of a dot that can begin an extension: the last `.` at
/// index one or later, `-1` when there is none.
pub open spec fn last_dot(s: Seq<char>) -> int
    decreases s.len(),
{
    if s.len() <= 1 {
        -1
    } else if s.last() == '.' {
        s.len() - 1
    } else {
        last_dot(s.drop_last())
    }
}

/// The extension of a file name: what follows the last dot, unless the only
/// dot leads the name (a bare hidden file has no extension).
pub open spec fn ext_of(name: Seq<char>) -> Option<Seq<char>> {
    if last_dot(name) >= 1 {
        Some(name.skip(last_dot(name) + 1))
    } else {
        None
    }
}

proof fn lemma_last_dot_unique(s: Seq<char>, m: int)
    requires
        1 <= m < s.len(),
        s[m] == '.',
        forall|j: int| m < j < s.len() ==> s[j] != '.',
    ensures
        last_dot(s) == m,
    decreases s.len(),
{
    if m < s.len() - 1 {
        lemma_last_dot_unique(s.drop_last(), m);
    }
}

proof fn lemma_last_dot_none(s: Seq<char>)
    requires
        forall|j: int| 1 <= j < s.len() ==> s[j] != '.',
    ensures
        last_dot(s) == -1,
    decreases s.len(),
{
    if s.len() > 1 {
        lemma_last_dot_none(s.drop_last());
    }
}

/// The extension of a file name, to pick a highlighting grammar by.
pub fn extension_of(name: &String) -> (r: Option<String>)
    ensures
        r is Some <==> ext_of(name@) is Some,
        r matches Some(e) ==> ext_of(name@) matches Some(v) && e@ == v,
{
    let s = name.as_str();
    let n = s.unicode_len();
    let mut i: usize = n;
    loop
        invariant
            i <= n,
            n == s@.len(),
            s@ == name@,
            forall|j: int| i <= j < n ==> s@[j] != '.',
        decreases i,
    {
        if i <= 1 {
            proof {
                lemma_last_dot_none(name@);
            }
            return None;
        }
        i = i - 1;
        if s.get_char(i) == '.' {
            proof {
                lemma_last_dot_unique(name@, i as int);
            }
            let piece = s.substring_char(i + 1, n).to_owned();
            proof {
                assert(piece@ =~= name@.skip(i + 1));
            }
            return Some(piece);
        }
    }
}

/// The clipped content a preview works on: everything up to the byte cap.
pub open spec fn clip(bytes: Seq<u8>) -> Seq<u8> {
    if bytes.len() > MAX_PREVIEW_BYTES {
        bytes.take(MAX_PREVIEW_BYTES as int)
    } else {
        bytes
    }
}

/// A finished preview body: its styled lines and whether they reflect only
/// the first [`MAX_PREVIEW_BYTES`] bytes of a larger file.
pub struct PreviewContent {
    pub lines: Vec<StyledLine>,
    pub truncated: bool,
}

/// What the preview of a read outcome must look like, line for line.
pub open spec fn preview_spec(read: Result<Seq<u8>, Seq<char>>, r: PreviewContent) -> bool {
    match read {
        Result::Err(msg) => {
            &&& !r.truncated
            &&& r.lines@.len() == 1
            &&& is_plain_line(r.lines@[0], "Error reading: "@ + msg)
        },
        Result::Ok(bytes) => {
            if bytes.len() == 0 {
                &&& !r.truncated
                &&& r.lines@.len() == 1
                &&& is_plain_line(r.lines@[0], "(empty file)"@)
            } else {
                let t = clip(bytes);
                &&& r.truncated == (bytes.len() > MAX_PREVIEW_BYTES)
                &&& if looks_binary(t) {
                    r.lines@.len() == 1 && is_plain_line(r.lines@[0], "(binary file)"@)
                } else if utf8_decode_of(t) is None {
                    r.lines@.len() == 1 && is_plain_line(r.lines@[0], "(not valid UTF-8)"@)
                } else {
                    let text = utf8_decode_of(t)->Some_0;
                    r.lines@.len() == split_lines(text).len() && (forall|i: int|
                        0 <= i < r.lines@.len() ==> line_text(#[trigger] r.lines@[i])
                            == split_lines(text)[i])
                }
            }
        },
    }
}

/// Builds the preview of one file from the outcome of reading it: a read
/// error, an empty file, binary-looking content and undecodable content each
/// give one explanatory line; text is clipped to the byte cap, split into
/// lines, and highlighted by the grammar picked for `ext`.
pub fn load_preview(
    read: Result<Vec<u8>, String>,
    ext: Option<&String>,
    ps: &syntect::parsing::SyntaxSet,
    theme: Option<&syntect::highlighting::Theme>,
) -> (r: PreviewContent)
    ensures
        preview_spec(
            match read {
                Result::Ok(b) => Result::Ok(b@),
                Result::Err(m) => Result::Err(m@),
            },
            r,
        ),
{
    let mut bytes: Vec<u8> = match read {
        Result::Err(msg) => {
            proof {
                reveal_strlit("Error reading: ");
            }
            let text = String::from_str("Error reading: ").concat(msg.as_str());
            let mut lines: Vec<StyledLine> = Vec::new();
            lines.push(plain_line(text));
            return PreviewContent { lines, truncated: false };
        },
        Result::Ok(b) => b,
    };
    if bytes.len() == 0 {
        let mut lines: Vec<StyledLine> = Vec::new();
        lines.push(plain_line(String::from_str("(empty file)")));
        return PreviewContent { lines, truncated: false };
    }
    let truncated = bytes.len() > MAX_PREVIEW_BYTES;
    let ghost orig = bytes@;
    if truncated {
        bytes.truncate(MAX_PREVIEW_BYTES);
    }
    proof {
        assert(bytes@ =~= clip(orig));
    }
    let non_print = count_non_printable(&bytes);
    if non_print > bytes.len() / 4 {
        let mut lines: Vec<StyledLine> = Vec::new();
        lines.push(plain_line(String::from_str("(binary file)")));
        return PreviewContent { lines, truncated };
    }
    let ghost t = bytes@;
    let text = match decode_utf8(bytes) {
        Option::None => {
            let mut lines: Vec<StyledLine> = Vec::new();
            lines.push(plain_line(String::from_str("(not valid UTF-8)")));
            return PreviewContent { lines, truncated };
        },
        Option::Some(s) => s,
    };
    let mut pieces = split_lines_exec(text.as_str());
    let ghost split = split_lines(text@);
    let syntax = match ext {
        Option::Some(e) => {
            match hl::syntax_for_token(ps, e.as_str()) {
                Option::Some(sy) => Option::Some(sy),
                Option::None => hl::plain_text_syntax(ps),
            }
        },
        Option::None => hl::plain_text_syntax(ps),
    };
    let mut lines: Vec<StyledLine> = Vec::new();
    let ghost mut done: int = 0;
    proof {
        assert(split.subrange(0, split.len() as int) =~= split);
    }
    match (syntax, theme) {
        (Option::Some(sy), Option::Some(th)) => {
            let mut highlighter = hl::new_highlighter(sy, th);
            while pieces.len() > 0
                invariant
                    0 <= done <= split.len(),
                    string_views(pieces@) =~= split.subrange(done, split.len() as int),
                    lines@.len() == done,
                    forall|i: int|
                        0 <= i < done ==> line_text(#[trigger] lines@[i]) == split[i],
                decreases split.len() - done,
            {
                let ghost before = pieces@;
                let piece = pieces.remove(0);
                proof {
                    assert(before.len() > 0);
                    assert(string_views(before).len() == before.len());
                    assert(done < split.len());
                    assert(string_views(before)[0] == piece@);
                    assert(piece@ == split[done]);
                    assert(string_views(pieces@) =~= string_views(before).drop_first());
                    assert(string_views(pieces@) =~= split.subrange(done + 1, split.len() as int));
                }
                let line = match hl::highlight_one_line(&mut highlighter, piece.as_str(), ps) {
                    Result::Ok(segs) => line_of_segments(segs),
                    Result::Err(_) => plain_line(piece),
                };
                lines.push(line);
                proof {
                    done = done + 1;
                }
            }
        },
        _ => {
            while pieces.len() > 0
                invariant
                    0 <= done <= split.len(),
                    string_views(pieces@) =~= split.subrange(done, split.len() as int),
                    lines@.len() == done,
                    forall|i: int|
                        0 <= i < done ==> line_text(#[trigger] lines@[i]) == split[i],
                decreases split.len() - done,
            {
                let ghost before = pieces@;
                let piece = pieces.remove(0);
                proof {
                    assert(before.len() > 0);
                    assert(string_views(before).len() == before.len());
                    assert(done < split.len());
                    assert(string_views(before)[0] == piece@);
                    assert(piece@ == split[done]);
                    assert(string_views(pieces@) =~= string_views(before).drop_first());
                    assert(string_views(pieces@) =~= split.subrange(done + 1, split.len() as int));
                }
                lines.push(plain_line(piece));
                proof {
                    done = done + 1;
                }
            }
        },
    }
    proof {
        assert(done == split.len());
    }
    PreviewContent { lines, truncated }
}

/// Builds a single-run unstyled line holding `text`.
pub fn plain_line(text: String) -> (r: StyledLine)
    ensures
        is_plain_line(r, text@),
        line_text(r) == text@,
{
    let run = StyledRun { text, fg: None, bold: false, italic: false, underline: false };
    let mut runs: Vec<StyledRun> = Vec::new();
    runs.push(run);
    let r = StyledLine { runs };
    proof {
        assert(r.runs@.drop_last() =~= Seq::<StyledRun>::empty());
        assert(runs_text(Seq::<StyledRun>::empty()) == Seq::<char>::empty());
        assert(runs_text(r.runs@) == runs_text(r.runs@.drop_last()) + r.runs@.last().text@);
        assert(line_text(r) =~= r.runs@[0].text@);
    }
    r
}

} // verus!
