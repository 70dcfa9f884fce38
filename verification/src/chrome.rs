//! The suite's shared terminal chrome: palette, status glyphs, brandmark,
//! spinner and the geometry of the tail-following log console.

use vstd::prelude::*;

verus! {

// --- palette ----------------------------------------------------------------

/// A colour of the suite's terminal palette.
#[derive(Clone, Copy, PartialEq, Eq, Debug, Structural)]
pub enum PaletteColor {
    Cyan,
    DarkGray,
    Green,
    Yellow,
    Red,
    Blue,
}

/// The suite accent (selections, keys, the brandmark).
pub const ACCENT: PaletteColor = PaletteColor::Cyan;

/// Secondary / label text.
pub const MUTED: PaletteColor = PaletteColor::DarkGray;

/// Good: passing, fresh.
pub const OK: PaletteColor = PaletteColor::Green;

/// Caution: warnings, stale.
pub const WARN: PaletteColor = PaletteColor::Yellow;

/// Bad: failure.
pub const BAD: PaletteColor = PaletteColor::Red;

/// Informational: not built yet, first-run.
pub const INFO: PaletteColor = PaletteColor::Blue;

// --- glyphs -----------------------------------------------------------------

/// Freshness: up to date.
pub const G_FRESH: &'static str = "[+]";

/// Freshness: stale.
pub const G_STALE: &'static str = "[*]";

/// Freshness: not built yet.
pub const G_NEW: &'static str = "[.]";

/// Status: passing.
pub const G_OK: &'static str = "✓";

/// Status: failing.
pub const G_BAD: &'static str = "✗";

/// Status: warning.
pub const G_WARN: &'static str = "⚠";

/// Status: not applicable.
pub const G_NA: &'static str = "—";

/// The brandmark; swap to `"#"` for strict-ASCII terminals.
pub const BRAND_MARK: &'static str = "⚓";

// --- spinner ------------------------------------------------------------------

/// The spinner frames, in the order they are shown.
pub open spec fn spinner_frames() -> Seq<char> {
    seq!['|', '/', '-', '\\']
}

/// The spinner frame for a tick counter: the frames cycle every four ticks.
pub fn spinner(tick: u64) -> (frame: char)
    ensures
        frame == spinner_frames()[(tick % 4) as int],
{
    let frames: [char; 4] = ['|', '/', '-', '\\'];
    let idx: usize = (tick % 4) as usize;
    frames[idx]
}

/// The spinner shows the same frame again after four ticks.
pub proof fn lemma_spinner_period(tick: u64)
    requires
        tick <= u64::MAX - 4,
    ensures
        spinner_frames()[(tick % 4) as int] == spinner_frames()[((tick + 4) % 4) as int],
{
}

// --- brand line ---------------------------------------------------------------

/// A run of text drawn in one colour, bold or not.
pub struct Segment {
    pub text: String,
    pub color: PaletteColor,
    pub bold: bool,
}

/// The segments of the `⚓ freight · <tool>` brand line for a header bar: the
/// brandmark and suite name in bold accent, then the tool's name in muted text.
pub fn brand_segments(tool: &str) -> (segments: Vec<Segment>)
    ensures
        segments@.len() == 2,
        segments@[0].text@ == "⚓ freight"@,
        segments@[0].color == ACCENT,
        segments@[0].bold,
        segments@[1].text@ == " · "@ + tool@,
        segments@[1].color == MUTED,
        !segments@[1].bold,
{
    let mut tool_text = String::from_str(" · ");
    tool_text.append(tool);
    let mut segments: Vec<Segment> = Vec::new();
    segments.push(Segment { text: String::from_str("⚓ freight"), color: ACCENT, bold: true });
    segments.push(Segment { text: tool_text, color: MUTED, bold: false });
    segments
}

// --- log console ----------------------------------------------------------------

/// The window `[start, end)` of `len` log lines that a console of `height` rows
/// (two of them taken by the border) shows when scrolled up `scroll` lines from
/// the bottom.
pub open spec fn log_window_of(len: int, scroll: int, height: int) -> (int, int) {
    let visible: int = if height >= 2 { height - 2 } else { 0 };
    let end: int = if len >= scroll { len - scroll } else { 0 };
    let start: int = if end >= visible { end - visible } else { 0 };
    (start, end)
}

/// The lines `[start, end)` that the log console shows: it follows the tail,
/// scrolled up by `scroll` lines, and shows at most `height - 2` of them.
pub fn log_window(len: usize, scroll: u16, height: u16) -> (window: (usize, usize))
    ensures
        window.0 == log_window_of(len as int, scroll as int, height as int).0,
        window.1 == log_window_of(len as int, scroll as int, height as int).1,
        window.0 <= window.1 <= len,
        window.1 - window.0 <= if height >= 2 { height - 2 } else { 0 },
        scroll == 0 ==> window.1 == len,
{
    let visible: usize = if height >= 2 { (height - 2) as usize } else { 0 };
    let scroll: usize = scroll as usize;
    let end: usize = if len >= scroll { len - scroll } else { 0 };
    let start: usize = if end >= visible { end - visible } else { 0 };
    (start, end)
}

/// The log lines the console shows, oldest first.
pub fn visible_log_lines(lines: &[String], scroll: u16, height: u16) -> (shown: Vec<String>)
    ensures
        shown@ == lines@.subrange(
            log_window_of(lines@.len() as int, scroll as int, height as int).0,
            log_window_of(lines@.len() as int, scroll as int, height as int).1,
        ),
{
    let window: (usize, usize) = log_window(lines.len(), scroll, height);
    let start: usize = window.0;
    let end: usize = window.1;
    let mut shown: Vec<String> = Vec::new();
    let mut i: usize = start;
    while i < end
        invariant
            start <= i <= end <= lines@.len(),
            shown@ == lines@.subrange(start as int, i as int),
        decreases end - i,
    {
        shown.push(lines[i].clone());
        i = i + 1;
        assert(shown@ =~= lines@.subrange(start as int, i as int));
    }
    shown
}

} // verus!
