use g2mirror::history::HistoryRecord;
use g2mirror::mirror::{Mirror, Transition, View, SIM_COLS, SIM_ROWS, STAGE_SCROLLBACK};

const SIM: View = View {
    rows: SIM_ROWS,
    cols: SIM_COLS,
    simulated: true,
};

/// A fake terminal: feed it what Mirror emits, inspect the result.
fn term(rows: u16, cols: u16) -> vt100::Parser {
    vt100::Parser::new(rows, cols, 0)
}

fn start_view(mirror: &mut Mirror, host: &mut vt100::Parser) -> Transition {
    let t = mirror.start_view(SIM);
    assert_eq!(t.child_size, Some((SIM_ROWS, SIM_COLS)));
    host.process(&t.host_output);
    t
}

#[test]
fn local_mode_passes_through() {
    let mut mirror = Mirror::new(24, 80);
    let out = mirror.process(b"hello \x1b[31mred");
    assert_eq!(out.host, b"hello \x1b[31mred");
    assert!(out.remote.is_none());
}

#[test]
fn host_resize_in_local_mode_forwards_size() {
    let mut mirror = Mirror::new(24, 80);
    let t = mirror.host_resized(50, 132);
    assert_eq!(t.child_size, Some((50, 132)));
    assert!(t.host_output.is_empty());
}

#[test]
fn view_content_reproduced_on_larger_host() {
    let mut mirror = Mirror::new(40, 120);
    let mut host = term(40, 120);
    start_view(&mut mirror, &mut host);
    let out = mirror.process(b"hello\r\nworld");
    host.process(&out.host);
    // The live region is anchored at the bottom of the host screen:
    // view row 0 lands at host row 40 - 24 = 16.
    assert_eq!(host.screen().contents_between(16, 0, 16, 5), "hello");
    assert_eq!(host.screen().contents_between(17, 0, 17, 5), "world");
    assert_eq!(host.screen().cursor_position(), (17, 5));
}

/// Regression test: a line that wraps in the view model must not spill
/// into host columns to the right of the view region. (vt100's
/// whole-screen diff reproduces wraps by relying on autowrap at the
/// model width, which doesn't fire on a wider host terminal.)
#[test]
fn wrapped_lines_stay_inside_view_region_on_wider_host() {
    let mut mirror = Mirror::new(40, 150);
    let mut host = term(40, 150);
    start_view(&mut mirror, &mut host);
    // 150 chars: wraps at col 96 in the model into two rows. Region
    // starts at host row 16 (40 - 24).
    let long: Vec<u8> = (0..150).map(|i| b'a' + (i % 26) as u8).collect();
    let out = mirror.process(&long);
    host.process(&out.host);
    let row0 = host.screen().contents_between(16, 0, 16, 150);
    assert_eq!(row0.len(), 96, "row must stop at the view width");
    // The wrapped remainder appears on the next row, not in cols 97-150.
    assert_eq!(
        host.screen().contents_between(17, 0, 17, 150),
        String::from_utf8_lossy(&long[96..])
    );
}

/// Stale host content inside the live region (including right of the
/// view width) is cleared when the view starts, while content in the
/// history zone above the region deliberately stays on screen.
#[test]
fn view_start_clears_region_but_preserves_zone() {
    let mut mirror = Mirror::new(40, 150);
    let mut host = term(40, 150);
    // Local mode: content in the future zone (row 5), and content in the
    // future region rows painted out to col 150.
    let wide = b"\x1b[5;1Hzone-note\x1b[30;120Hstale-right\x1b[40;1Hbottom";
    host.process(&mirror.process(wide).host);
    assert!(host.screen().contents().contains("stale-right"));

    // Region occupies host rows 16..40; the snapshot crop keeps model
    // rows 16..40, cropped to 96 cols — so "stale-right" (row 30, col
    // 120) must be wiped by the region redraw, while "zone-note" stays.
    start_view(&mut mirror, &mut host);
    // "bottom" (model row 39) is inside the crop and redrawn in place.
    assert_eq!(host.screen().contents_between(39, 0, 39, 6), "bottom");
    let out = mirror.process(b"\x1b[2J\x1b[Hfresh");
    host.process(&out.host);
    assert!(
        !host.screen().contents().contains("stale-right"),
        "region content right of the view width must be cleared"
    );
    assert!(host.screen().contents().contains("fresh"));
    assert!(
        host.screen().contents().contains("zone-note"),
        "pre-view content above the region stays visible"
    );
}

#[test]
fn snapshot_crops_bottom_left_and_primes_remote() {
    let mut mirror = Mirror::new(40, 120);
    // Paint a marker near the bottom (row 39) and one at the top.
    mirror.process(b"\x1b[1;1Htop-marker\x1b[39;5Hbottom-marker");
    let t = mirror.start_view(SIM);

    // The remote device terminal is exactly view-sized.
    let mut remote = term(SIM_ROWS, SIM_COLS);
    remote.process(&t.remote_output.unwrap());
    let contents = remote.screen().contents();
    // Bottom-anchored crop of a 40-row screen onto 24 rows: rows 16..40.
    // Row 39 -> view row 23; the top marker is above the crop.
    assert!(contents.contains("bottom-marker"));
    assert!(!contents.contains("top-marker"));
    assert_eq!(
        remote.screen().contents_between(38 - 16, 4, 38 - 16, 17),
        "bottom-marker"
    );

    // Subsequent output diffs apply cleanly to the primed remote.
    let out = mirror.process(b"\x1b[1;1Hafter");
    remote.process(&out.remote.unwrap());
    assert_eq!(remote.screen().contents_between(0, 0, 0, 5), "after");
    assert!(remote.screen().contents().contains("bottom-marker"));
}

#[test]
fn wide_line_truncated_on_narrow_host() {
    let mut mirror = Mirror::new(24, 80);
    let mut host = term(24, 80);
    start_view(&mut mirror, &mut host);
    let wide: Vec<u8> = std::iter::repeat_n(b'X', usize::from(SIM_COLS))
        .collect();
    host.process(&mirror.process(&wide).host);
    assert_eq!(host.screen().contents_between(0, 0, 0, 80), "X".repeat(80));
    // Nothing wrapped onto the next row.
    assert_eq!(host.screen().contents_between(1, 0, 1, 80).trim(), "");
}

#[test]
fn cursor_outside_truncated_region_is_hidden() {
    let mut mirror = Mirror::new(24, 80);
    let mut host = term(24, 80);
    start_view(&mut mirror, &mut host);
    // Move the child cursor to column 91 (past the host's 80 columns).
    host.process(&mirror.process(b"\x1b[1;91H").host);
    assert!(host.screen().hide_cursor());
    // Bring it back into view.
    host.process(&mirror.process(b"\x1b[1;10H").host);
    assert!(!host.screen().hide_cursor());
    assert_eq!(host.screen().cursor_position(), (0, 9));
}

/// A view taller than the host shows the model's *bottom* rows (where
/// the prompt and fresh output live); the hidden top rows are pushed
/// into the host's native scrollback, refreshed on demand (Ctrl+L).
#[test]
fn tall_view_shows_bottom_and_ctrl_l_pushes_hidden_top_to_scrollback() {
    let mut mirror = Mirror::new(10, 120);
    let mut host = vt100::Parser::new(10, 120, 100);
    // SIM view is 24 rows on a 10-row host: model rows 0..14 hidden.
    host.process(&mirror.start_view(SIM).host_output);
    let out = mirror.process(b"\x1b[15;1Hvisible-bottom\x1b[1;1Htop-hidden");
    host.process(&out.host);
    // Model row 14 (CSI row 15) is the first visible row -> host row 0.
    assert_eq!(host.screen().contents_between(0, 0, 0, 14), "visible-bottom");
    assert!(!host.screen().contents().contains("top-hidden"));
    // The cursor ended on a hidden row: not shown.
    assert!(host.screen().hide_cursor());

    // The hidden row was written after the view started, so the copy
    // pushed at view start is stale (blank); Ctrl+L heals it.
    host.process(&mirror.refresh_scrollback());
    let lines = host_lines(&mut host);
    assert_eq!(
        lines,
        vec!["top-hidden".to_string(), "visible-bottom".to_string()],
        "scrollback + screen show the whole model, in order"
    );
}

/// Scroll mirroring and the hidden-top push compose: after a Ctrl+L,
/// scrollback + screen reproduce every line of a scrolled session in
/// order, even though the middle rows were never visible on the host.
#[test]
fn crop_case_scrollback_is_complete_after_refresh() {
    let mut mirror = Mirror::new(5, 40);
    let mut host = vt100::Parser::new(5, 40, 100);
    let t = mirror.start_view(View {
        rows: 8,
        cols: 40,
        simulated: true,
    });
    host.process(&t.host_output);
    // 13 lines through an 8-row model: L1..L5 scroll into history (and
    // the host's scrollback); the model shows L6..end, of which only
    // the bottom 5 rows (L9..end) fit the host screen.
    let mut bytes = Vec::new();
    for i in 1..=12 {
        bytes.extend_from_slice(format!("L{i}\r\n").as_bytes());
    }
    bytes.extend_from_slice(b"end");
    host.process(&mirror.process(&bytes).host);
    let expect = |nums: &[u32]| {
        let mut v: Vec<String> = nums.iter().map(|i| format!("L{i}")).collect();
        v.push("end".into());
        v
    };
    assert_eq!(
        host_lines(&mut host),
        expect(&[1, 2, 3, 4, 5, 9, 10, 11, 12]),
        "scrolled lines reach scrollback; L6..L8 are hidden model rows"
    );
    // Ctrl+L pushes the hidden rows, completing the sequence in order.
    host.process(&mirror.refresh_scrollback());
    assert_eq!(
        host_lines(&mut host),
        expect(&[1, 2, 3, 4, 5, 6, 7, 8, 9, 10, 11, 12]),
        "after refresh, nothing is missing and order holds"
    );
}

#[test]
fn end_view_restores_host_size_and_resets_modes() {
    let mut mirror = Mirror::new(24, 80);
    let mut host = term(24, 80);
    start_view(&mut mirror, &mut host);
    host.process(&mirror.process(b"\x1b[?2004h").host); // bracketed paste on
    assert!(host.screen().bracketed_paste());
    let t = mirror.end_view();
    assert_eq!(t.child_size, Some((24, 80)));
    host.process(&t.host_output);
    assert!(!host.screen().bracketed_paste());
    assert!(mirror.view().is_none());
}

#[test]
fn bells_are_counted_in_both_modes() {
    let mut mirror = Mirror::new(24, 80);
    assert_eq!(mirror.process(b"quiet output").bells, 0);
    assert_eq!(mirror.process(b"ding\x07dong\x07").bells, 2);
    // BEL as an OSC string terminator is not a bell.
    assert_eq!(mirror.process(b"\x1b]0;window title\x07").bells, 0);
    // Counter resets between chunks.
    assert_eq!(mirror.process(b"still quiet").bells, 0);

    let mut host = term(24, 80);
    start_view(&mut mirror, &mut host);
    assert_eq!(mirror.process(b"viewing\x07").bells, 1);
}

#[test]
fn title_changes_are_reported_once_per_change() {
    let mut mirror = Mirror::new(24, 80);
    assert_eq!(mirror.process(b"no title yet").title, None);
    assert_eq!(mirror.title(), None);

    // OSC 2, BEL-terminated.
    let out = mirror.process(b"\x1b]2;first title\x07");
    assert_eq!(out.title.as_deref(), Some("first title"));
    assert_eq!(mirror.title(), Some("first title"));

    // Setting the same title again is not a change.
    assert_eq!(mirror.process(b"\x1b]2;first title\x07").title, None);

    // OSC 0 (icon + title), ST-terminated.
    let out = mirror.process(b"\x1b]0;second title\x1b\\");
    assert_eq!(out.title.as_deref(), Some("second title"));

    // OSC 1 sets only the icon name, not the title.
    assert_eq!(mirror.process(b"\x1b]1;icon only\x07").title, None);
    assert_eq!(mirror.title(), Some("second title"));
}

#[test]
fn title_survives_view_transitions_and_reaches_host_while_viewing() {
    let mut mirror = Mirror::new(24, 80);
    mirror.process(b"\x1b]2;steady title\x07");

    let mut host = term(24, 80);
    start_view(&mut mirror, &mut host);
    assert_eq!(mirror.title(), Some("steady title"));

    // While viewing, render paths don't carry OSC sequences, so a title
    // change must be re-emitted to the host explicitly.
    let out = mirror.process(b"\x1b]2;during view\x07");
    assert_eq!(out.title.as_deref(), Some("during view"));
    assert!(
        String::from_utf8_lossy(&out.host).contains("\x1b]2;during view\x07"),
        "host output must include the title sequence"
    );

    mirror.end_view();
    assert_eq!(mirror.title(), Some("during view"));
}

/// Render an archived record on a fresh single-row terminal.
fn render_record(record: &HistoryRecord) -> vt100::Parser {
    let mut p = vt100::Parser::new(1, record.width, 0);
    p.process(&record.bytes);
    p
}

fn history_texts(mirror: &Mirror) -> Vec<String> {
    let (next, oldest) = mirror.history_extent();
    let (_, records) = mirror.history().fetch(next, (next - oldest) as u32);
    records
        .iter()
        .map(|r| render_record(r).screen().contents().trim_end().to_string())
        .collect()
}

#[test]
fn scrolled_lines_are_archived_in_order_with_styles() {
    let mut mirror = Mirror::new(3, 40);
    mirror.process(b"plain\r\n\x1b[31mred line\x1b[0m\r\nthird\r\nfourth\r\nfifth");
    // 5 lines through a 3-row screen: the first two scrolled off.
    assert_eq!(history_texts(&mirror), vec!["plain", "red line"]);
    let (_, records) = mirror.history().fetch(2, 10);
    let rendered = render_record(records[1]);
    let cell = rendered.screen().cell(0, 0).unwrap();
    assert_eq!(cell.fgcolor(), vt100::Color::Idx(1), "styles preserved");
    assert_eq!(records[1].width, 40);
    assert!(!records[1].wrapped);
}

#[test]
fn soft_wrapped_lines_carry_wrap_flags() {
    let mut mirror = Mirror::new(3, 10);
    // 25 chars wrap into 3 rows; then enough lines to scroll them off.
    let long: Vec<u8> = (0..25).map(|i| b'a' + (i % 26) as u8).collect();
    mirror.process(&long);
    mirror.process(b"\r\nx\r\ny\r\nz\r\nw");
    let (next, _) = mirror.history_extent();
    let (_, records) = mirror.history().fetch(next, 10);
    let wrapped: Vec<bool> = records.iter().map(|r| r.wrapped).collect();
    // The two full rows of the long line wrap; its final row does not.
    assert_eq!(&wrapped[0..3], &[true, true, false]);
}

#[test]
fn flood_larger_than_staging_buffer_is_archived_completely() {
    let mut mirror = Mirror::new(4, 20);
    let mut bytes = Vec::new();
    let count = STAGE_SCROLLBACK + 1500;
    for i in 0..count {
        bytes.extend_from_slice(format!("L{i}\r\n").as_bytes());
    }
    mirror.process(&bytes);
    let (next, oldest) = mirror.history_extent();
    assert_eq!(next, (count - 3) as u64, "all scrolled lines captured");
    // Retention cap applies (default 10k > count here), continuity holds.
    let (_, records) = mirror.history().fetch(next, 3);
    let texts: Vec<String> = records
        .iter()
        .map(|r| render_record(r).screen().contents().trim_end().to_string())
        .collect();
    assert_eq!(
        texts,
        vec![
            format!("L{}", count - 6),
            format!("L{}", count - 5),
            format!("L{}", count - 4)
        ]
    );
    assert_eq!(oldest, 0);
}

#[test]
fn view_start_crop_flushes_rows_above_the_fold_to_history() {
    let mut mirror = Mirror::new(6, 40);
    let mut host = term(6, 40);
    mirror.process(b"top-line\r\nsecond\r\n\r\n\r\n\r\nprompt");
    // View is 3 rows tall: the bottom-anchored crop keeps rows 3..6;
    // rows 0..3 are flushed to history (trailing blanks skipped).
    let t = mirror.start_view(View {
        rows: 3,
        cols: 40,
        simulated: true,
    });
    host.process(&t.host_output);
    assert_eq!(history_texts(&mirror), vec!["top-line", "second"]);
    // The snapshot itself shows the bottom of the screen.
    let mut remote = term(3, 40);
    remote.process(&t.remote_output.unwrap());
    assert!(remote.screen().contents().contains("prompt"));
}

#[test]
fn alternate_screen_output_is_not_archived() {
    let mut mirror = Mirror::new(3, 40);
    mirror.process(b"before-alt\r\nsecond\r\nthird\r\nfourth");
    let before = mirror.history_extent().0;
    // Enter the alternate screen and scroll a lot inside it.
    let mut alt = b"\x1b[?1049h".to_vec();
    for i in 0..50 {
        alt.extend_from_slice(format!("alt{i}\r\n").as_bytes());
    }
    alt.extend_from_slice(b"\x1b[?1049l");
    mirror.process(&alt);
    assert_eq!(
        mirror.history_extent().0,
        before,
        "alt-screen scrolling must not create history"
    );
    // Scrolling on the primary screen still archives afterwards.
    mirror.process(b"\r\nafter1\r\nafter2\r\nafter3\r\nafter4");
    assert!(mirror.history_extent().0 > before);
}

#[test]
fn trailing_blanks_trim_but_colored_blanks_are_content() {
    let mut mirror = Mirror::new(2, 20);
    // Line 1: text plus trailing spaces. Line 2: a back-color-erased
    // region (colored blanks) after text. Scroll both off.
    mirror.process(b"hi      \r\nab\x1b[41m\x1b[K\x1b[0m\r\n1\r\n2");
    let (_, records) = mirror.history().fetch(2, 10);
    assert_eq!(records[0].bytes, b"hi");
    let rendered = render_record(records[1]);
    assert_eq!(rendered.screen().contents_between(0, 0, 0, 2), "ab");
    let blank = rendered.screen().cell(0, 5).unwrap();
    assert_eq!(
        blank.bgcolor(),
        vt100::Color::Idx(1),
        "BCE-colored blanks survive archiving"
    );
}

#[test]
fn history_width_tracks_the_layout_width_across_views() {
    let mut mirror = Mirror::new(3, 40);
    mirror.process(b"one\r\ntwo\r\nthree\r\nfour"); // "one" scrolls at 40
    // A 2-row view: the crop flushes "two" (still at width 40), and
    // lines scrolling during the view are laid out at 96.
    mirror.start_view(View {
        rows: 2,
        cols: 96,
        simulated: true,
    });
    mirror.process(b"\r\na\r\nb\r\nc"); // scrolls at 96
    let (next, _) = mirror.history_extent();
    let (_, records) = mirror.history().fetch(next, 10);
    assert_eq!(records.first().unwrap().width, 40);
    assert_eq!(records.last().unwrap().width, 96);
    let texts = history_texts(&mirror);
    assert!(texts.contains(&"two".to_string()), "crop flush at old width");
    assert!(texts.contains(&"three".to_string()), "scrolled during view");
}

/// All lines (scrollback plus screen) of a host emulator, oldest first,
/// trimmed, with blank lines dropped.
fn host_lines(host: &mut vt100::Parser) -> Vec<String> {
    host.screen_mut().set_scrollback(usize::MAX);
    let total = host.screen().scrollback();
    let mut lines = Vec::new();
    for i in 0..total {
        host.screen_mut().set_scrollback(total - i);
        lines.push(host.screen().rows(0, 200).next().unwrap_or_default());
    }
    host.screen_mut().set_scrollback(0);
    lines.extend(host.screen().rows(0, 200));
    lines
        .into_iter()
        .map(|l| l.trim_end().to_string())
        .filter(|l| !l.is_empty())
        .collect()
}

#[test]
fn viewing_scrolls_reach_the_host_terminals_native_scrollback() {
    let mut mirror = Mirror::new(6, 40);
    // Host emulator with real scrollback, like the user's terminal.
    let mut host = vt100::Parser::new(6, 40, 100);
    let t = mirror.start_view(View {
        rows: 3,
        cols: 40,
        simulated: true,
    });
    host.process(&t.host_output);
    // Ten lines through a 3-row view: 7 scroll off (more than the
    // region holds, exercising the flood path too).
    let mut bytes = Vec::new();
    for i in 1..=10 {
        bytes.extend_from_slice(format!("L{i}\r\n").as_bytes());
    }
    bytes.extend_from_slice(b"end");
    host.process(&mirror.process(&bytes).host);

    let lines = host_lines(&mut host);
    let expected: Vec<String> = (1..=10)
        .map(|i| format!("L{i}"))
        .chain(["end".to_string()])
        .collect();
    assert_eq!(
        lines, expected,
        "host scrollback + zone + region must show every line in order"
    );

    // Detaching pushes the zone into the host's scrollback before
    // clearing, so nothing that scrolled during the view is lost.
    let t = mirror.end_view();
    host.process(&t.host_output);
    let lines = host_lines(&mut host);
    // The model ended showing L9/L10/end, which never scrolled and stay
    // the app's to repaint; every line that DID scroll (L1..L8) must be
    // in the host's scrollback after the zone push + clear.
    let scrolled: Vec<String> = (1..=8).map(|i| format!("L{i}")).collect();
    assert_eq!(
        lines, scrolled,
        "after unview, every scrolled line is in scrollback"
    );
}

#[test]
fn host_resize_while_viewing_repaints_without_resizing_child() {
    let mut mirror = Mirror::new(40, 120);
    let mut host = term(40, 120);
    start_view(&mut mirror, &mut host);
    host.process(&mirror.process(b"steady\x1b[24;1Hbottom").host);
    // Host shrinks below the view's 24 rows; child must NOT be resized.
    // The view model's bottom stays visible; "steady" (model row 0) is
    // now above the fold and gets pushed into the host's scrollback.
    let t = mirror.host_resized(20, 60);
    assert_eq!(t.child_size, None);
    let mut small_host = vt100::Parser::new(20, 60, 100);
    small_host.process(&t.host_output);
    // Model row 23 -> host row 19 (crop of 4).
    assert_eq!(small_host.screen().contents_between(19, 0, 19, 6), "bottom");
    assert_eq!(
        host_lines(&mut small_host),
        vec!["steady".to_string(), "bottom".to_string()],
        "the hidden top row is preserved in scrollback"
    );
}

#[test]
fn lines_scrolled_just_before_the_alternate_screen_are_archived_after_it() {
    let mut mirror = Mirror::new(3, 40);
    mirror.process(b"a\r\nb\r\nc\r\nd");
    assert_eq!(history_texts(&mirror), vec!["a"]);
    // Two more lines scroll off in the chunk that enters the alternate screen.
    mirror.process(b"\r\ne\r\nf\x1b[?1049h");
    assert_eq!(history_texts(&mirror), vec!["a", "b", "c"]);
    mirror.process(b"in the alternate screen");
    mirror.process(b"\x1b[?1049l");
    assert_eq!(history_texts(&mirror), vec!["a", "b", "c"]);
    // So are those that scroll off within the sequence that enters it.
    mirror.process(b"\x1b[?\n1049h");
    assert_eq!(mirror.history_extent().0, 3, "deferred");
    mirror.process(b"\x1b[?1049l");
    assert_eq!(history_texts(&mirror), vec!["a", "b", "c", "d"]);
    mirror.process(b"\r\ng");
    assert_eq!(history_texts(&mirror), vec!["a", "b", "c", "d", "e"]);
}

#[test]
fn lines_scrolled_in_a_chunk_that_visits_the_alternate_screen_are_archived() {
    let mut mirror = Mirror::new(3, 40);
    mirror.process(b"a\r\nb\r\nc\r\nd");
    assert_eq!(history_texts(&mirror), vec!["a"]);
    mirror.process(b"\r\ne\r\nf\x1b[?1049hfull screen\x1b[?1049l");
    assert_eq!(history_texts(&mirror), vec!["a", "b", "c"]);
    mirror.process(b"\r\ng");
    assert_eq!(history_texts(&mirror), vec!["a", "b", "c", "d"]);

    // Nor do lines around a terminal reset get lost.
    let mut mirror = Mirror::new(3, 40);
    mirror.process(b"a\r\nb\r\nc\r\nd\r\ne");
    mirror.process(b"\r\nf\x1bc1\r\n2\r\n3\r\n4");
    assert_eq!(history_texts(&mirror), vec!["a", "b", "c", "1"]);

    // Nor does it matter whether the staging buffer is full.
    let mut mirror = Mirror::new(3, 40);
    mirror.set_history_limit(20_000);
    for i in 0..STAGE_SCROLLBACK + 10 {
        mirror.process(format!("{i}\r\n").as_bytes());
    }
    let (next, _) = mirror.history_extent();
    mirror.process(b"x\r\ny\x1b[?1049hfull screen\x1b[?1049l\r\nz\x1b[?1049h");
    assert_eq!(mirror.history_extent().0, next + 2);
}

/// What a device of the given size shows when it starts viewing.
fn snapshot_of(mirror: &mut Mirror, rows: u16, cols: u16) -> vt100::Parser {
    let mut device = term(rows, cols);
    let t = mirror.start_view(View { rows, cols, simulated: false });
    device.process(&t.remote_output.unwrap());
    device
}

#[test]
fn narrowing_past_a_wide_character_leaves_no_half_of_it() {
    let mut mirror = Mirror::new(24, 10);
    mirror.process("abcdefgh\u{4e16}".as_bytes());
    let t = mirror.host_resized(24, 9);
    assert_eq!(t.child_size, Some((24, 9)));
    mirror.process(b"\x1b[1;9Hx");
    mirror.process(b"\x1b[1;9H\x1b[X\x1b[P\x1b[2K\x1b[1;1Hdone");
    let device = snapshot_of(&mut mirror, 24, 9);
    assert_eq!(device.screen().contents_between(0, 0, 0, 9), "done");
}

#[test]
fn narrowing_keeps_the_style_and_the_cursor() {
    let mut mirror = Mirror::new(3, 10);
    mirror.process("abcdefgh\u{4e16}\x1b[1;32m".as_bytes());
    mirror.host_resized(3, 9);
    let device = snapshot_of(&mut mirror, 3, 9);
    // The character that does not fit is gone, and drawn nowhere else.
    assert_eq!(device.screen().contents(), "abcdefgh");
    assert!(!device.screen().hide_cursor());
    assert_eq!(device.screen().cursor_position(), (0, 8));
    mirror.end_view();

    mirror.process(b"\x1b[1;32mx\x1b[?25l\x1b[2;9H");
    mirror.host_resized(3, 6);
    mirror.process(b"y");
    let device = snapshot_of(&mut mirror, 3, 6);
    assert!(device.screen().hide_cursor());
    assert_eq!(device.screen().contents(), "x\n     y");
    let cell = device.screen().cell(1, 5).unwrap();
    assert_eq!((cell.fgcolor(), cell.bold()), (vt100::Color::Idx(2), true));
}

#[test]
fn narrowing_keeps_both_screens() {
    let mut mirror = Mirror::new(5, 40);
    // A wide character in columns 30 and 31 of the primary screen is cut.
    mirror.process("first\r\nsecond\r\n\x1b[31mthird\x1b[0m\r\n4\x1b[30G\u{4e16}\r\n5".as_bytes());
    // Two lines scroll off, one of them in the sequence that enters the
    // alternate screen.
    mirror.process(b"\r\n6\r\x1b[?\n1049h\x1b[2;3Hfull screen");
    assert_eq!(history_texts(&mirror), vec!["first"]);
    mirror.host_resized(5, 30);
    assert_eq!(history_texts(&mirror), vec!["first", "second"]);
    // Rows that scroll off the alternate screen are not archived.
    mirror.process(b"\x1b[5;1H\r\n\r\n");
    assert_eq!(history_texts(&mirror), vec!["first", "second"]);
    mirror.process(b"\x1b[?1049l");
    assert_eq!(history_texts(&mirror), vec!["first", "second"]);
    let device = snapshot_of(&mut mirror, 5, 30);
    assert_eq!(device.screen().contents(), "third\n4\n5\n6");
    assert_eq!(device.screen().cell(0, 0).unwrap().fgcolor(), vt100::Color::Idx(1));
    assert_eq!(device.screen().cursor_position(), (4, 0));
}

#[test]
fn narrowing_that_cuts_no_wide_character_keeps_everything() {
    let mut mirror = Mirror::new(5, 40);
    mirror.process("first\r\nsecond\r\nthird\r\n4 \u{4e16}\r\n5".as_bytes());
    // Margins, a saved cursor, and one line that scrolls off in the sequence
    // that enters the alternate screen.
    mirror.process(b"\x1b[?\n1049h\x1b[2;3r\x1b[4;4H\x1b7\x1b[1;1Htop");
    // Half a sequence.
    mirror.process(b"\x1b[3");
    mirror.host_resized(5, 30);
    assert_eq!(history_texts(&mirror), Vec::<String>::new());
    mirror.process(b"1mred\x1b[0m");
    // Half a character.
    mirror.process(b"\xe4\xb8");
    mirror.host_resized(5, 20);
    mirror.process(b"\x96\x1b8saved\x1b[2;1Hx\x1b[3;1Hy\r\nz");
    let device = snapshot_of(&mut mirror, 5, 20);
    assert_eq!(device.screen().contents(), "topred\u{4e16}\ny\nz\n   saved");
    assert_eq!(device.screen().cell(0, 3).unwrap().fgcolor(), vt100::Color::Idx(1));

    let mut mirror = Mirror::new(3, 40);
    mirror.process(b"a\r\nb\r\nc\x1b[?\n1049hfull screen");
    mirror.host_resized(3, 30);
    mirror.process(b"\x1b[?1049l");
    assert_eq!(history_texts(&mirror), vec!["a"]);
}

#[test]
fn a_cut_on_either_screen_is_found() {
    for (at, cuts) in [(28, false), (29, true), (30, false), (31, false)] {
        for hidden in [false, true] {
            let mut mirror = Mirror::new(3, 40);
            if hidden {
                // Drawn on the alternate screen, which is then left.
                mirror.process(format!("\x1b[?47h\x1b[{};1H", 2).as_bytes());
            }
            mirror.process(format!("\x1b[{}G\u{4e16}", at + 1).as_bytes());
            if hidden {
                mirror.process(b"\x1b[?47l");
            }
            // Only a model that is not rebuilt keeps half a sequence.
            mirror.process(b"\x1b[3");
            mirror.host_resized(3, 30);
            mirror.process(b"1m\x1b[3;1Hx");
            if hidden {
                mirror.process(b"\x1b[?47h");
            }
            mirror.process(b"\x1b[1;30Hx\x1b[X\x1b[2;30Hx\x1b[X\x1b[?47l");
            let device = snapshot_of(&mut mirror, 3, 30);
            let red = device.screen().cell(2, 0).unwrap().fgcolor() == vt100::Color::Idx(1);
            assert_eq!(red, !cuts, "{at} {hidden}");
        }
    }
}

#[test]
fn the_widest_character_fits_everywhere() {
    for (rows, cols) in [(24, 1), (24, 2), (24, 3), (1, 1), (24, 4)] {
        let text = "ab\u{17d8}c\u{17d8}".as_bytes();
        let mut mirror = Mirror::new(rows, cols);
        mirror.process(text);
        mirror.start_view(View { rows: cols, cols: rows, simulated: false });
        mirror.process(text);
        mirror.end_view();
        mirror.host_resized(rows, 2);
        mirror.process(text);
    }
}

#[test]
fn narrowing_and_shrinking_keeps_the_top_rows() {
    let mut mirror = Mirror::new(5, 40);
    mirror.process(b"a\r\nb\r\nc\r\nd");
    mirror.host_resized(3, 30);
    let device = snapshot_of(&mut mirror, 3, 30);
    assert_eq!(device.screen().contents(), "a\nb\nc");
}

#[test]
fn every_positive_size_is_mirrored() {
    let text = "one\r\ntwo \u{4e16}\u{754c}\t!\r\nthree".as_bytes();
    for (rows, cols) in [(1, 1), (1, 80), (24, 1), (2, 65535), (1, 65535)] {
        let mut mirror = Mirror::new(rows, cols);
        assert_eq!(mirror.process(text).host, text);
        let t = mirror.start_view(View { rows: 2, cols: 20, simulated: false });
        assert_eq!(t.child_size, Some((2, 20)));
        mirror.process(text);
        assert_eq!(mirror.end_view().child_size, Some((rows, cols)));

        let mut mirror = Mirror::new(10, 40);
        mirror.process(text);
        let t = mirror.start_view(View { rows, cols, simulated: false });
        assert_eq!(t.child_size, Some((rows, cols)));
        assert_eq!(mirror.view().map(|v| (v.rows, v.cols)), Some((rows, cols)));
        assert!(mirror.process(text).remote.is_some());
        let t = mirror.host_resized(1, 1);
        assert_eq!(t.child_size, None);
        assert_eq!(mirror.host_size(), (1, 1));
        mirror.process(text);
        mirror.end_view();
        let t = mirror.host_resized(rows, cols);
        assert_eq!(t.child_size, Some((rows, cols)));
        mirror.process(text);
    }
    // A device of one row shows the row it can address, and no other.
    let mut mirror = Mirror::new(10, 40);
    let mut host = term(10, 40);
    host.process(b"\x1b[9;1Habove");
    let t = mirror.start_view(View { rows: 1, cols: 40, simulated: false });
    host.process(&t.host_output);
    host.process(&mirror.process(b"\x1b[1;1Honly").host);
    assert_eq!(host.screen().contents_between(9, 0, 9, 40), "only");
    assert_eq!(host.screen().contents_between(8, 0, 8, 40), "above");
}

#[test]
fn stored_lines_are_capped_at_a_whole_cell() {
    let cols: u16 = 4000;
    let mut mirror = Mirror::new(2, cols);
    let mut line = Vec::new();
    for i in 0..cols {
        let n = 100 + i % 100;
        line.extend(format!("\x1b[38;2;{n};{n};{n};48;2;{n};{n};{n}mx").as_bytes());
    }
    mirror.process(&line);
    mirror.process(b"\x1b[0m\r\nb\r\nc");
    let (_, records) = mirror.history().fetch(1, 1);
    // Every cell takes this many bytes; as many are kept as fit.
    let cell = "\x1b[0;38;2;100;100;100;48;2;100;100;100mx".len();
    assert_eq!(records[0].bytes.len(), 65536 / cell * cell);
    assert_eq!(records[0].bytes.last(), Some(&b'x'));
    assert_eq!(records[0].width, cols);
}

#[test]
fn sessions_leave_the_terminal_usable() {
    let mut mirror = Mirror::new(10, 40);
    assert!(mirror.cleanup().is_empty(), "nothing to restore without a view");
    assert!(mirror.refresh_scrollback().is_empty());
    mirror.start_view(View { rows: 4, cols: 40, simulated: false });
    assert_eq!(
        mirror.cleanup(),
        b"\x1b[0m\x1b[?25h\x1b[?1l\x1b>\x1b[?2004l\x1b[?1000l\x1b[?1002l\x1b[?1003l\x1b[?1006l\x1b[10;1H\r\n"
            .to_vec()
    );
    assert_eq!(mirror.host_size(), (10, 40));
    mirror.set_title("seed".into());
    assert_eq!(mirror.title(), Some("seed"));
    assert_eq!(mirror.process(b"\x1b]2;seed\x07").title, None);
    mirror.set_history_limit(2);
    mirror.process(b"1\r\n2\r\n3\r\n4\r\n5\r\n6\r\n7\r\n8");
    let (next, oldest) = mirror.history_extent();
    assert_eq!(next - oldest, 2);
}

#[test]
fn archived_styles_are_written_in_full() {
    let mut mirror = Mirror::new(2, 30);
    mirror.process(b"\x1b[1;3;4;7;31;42mA\x1b[0m \x1b[38;5;200mB\x1b[2;97;48;2;1;2;3mC\x1b[m\xe4\xb8\xadD\r\nx\r\ny");
    let (_, records) = mirror.history().fetch(1, 1);
    assert_eq!(
        String::from_utf8_lossy(&records[0].bytes),
        "\x1b[0;1;3;4;7;31;42mA\x1b[0m \x1b[0;38;5;200mB\x1b[0;2;97;48;2;1;2;3mC\x1b[0m\u{4e2d}D"
    );
}
