//! How a stream comes to be shown in a terminal: the laws of the history
//! before it, of going live, and of the terminal that is attached to it.

use crate::attached::{detach_at, lines_shown, AttachedView, StepAct};
use crate::live::{
    after_chunks, chunks_bytes, history_bytes, print_bytes, refresh_bytes, stream_view, FeedView, FetchView, ScreenView, ShownView, StepView,
};
use crate::mirror::{new_mirror, MirrorView, View};
use crate::placement::pointed;
use crate::protocol::{base64_bytes, base64_text, ClientMsg, LineView, SessionMsg};
use crate::session_model::without_controls;
use crate::text::repeated;
use vstd::prelude::*;
use vstd::string::*;
use vstd::utf8::*;
use vstd::view::View as _;

verus! {

/// What the data of a line decodes to; nothing where there is none, or it
/// cannot be decoded.
pub open spec fn decoded(data: Option<Seq<char>>) -> Seq<u8> {
    match data {
        Some(text) => match base64_bytes(text) {
            Ok(bytes) => bytes,
            Err(_) => Seq::empty(),
        },
        None => Seq::empty(),
    }
}

/// History is printed as flowing text: its lines in order, each from the start
/// of a new row, unless the line before it wraps into it, and none in the style
/// of the one before.
pub proof fn history_flows(lines: Seq<ShownView>)
    ensures
        history_bytes(lines) == Seq::new(
            lines.len(),
            |i: int|
                (if i > 0 && lines[i - 1].wrapped {
                    Seq::empty()
                } else {
                    encode_utf8("\r\n"@)
                }) + decoded(lines[i].data) + encode_utf8("\x1b[0m"@),
        ).flatten(),
    decreases lines.len(),
{
    let pieces = Seq::new(
        lines.len(),
        |i: int|
            (if i > 0 && lines[i - 1].wrapped {
                Seq::empty()
            } else {
                encode_utf8("\r\n"@)
            }) + decoded(lines[i].data) + encode_utf8("\x1b[0m"@),
    );
    pieces.lemma_flatten_and_flatten_alt_are_equivalent();
    if lines.len() > 0 {
        let fore = lines.drop_last();
        history_flows(fore);
        let less = Seq::new(
            fore.len(),
            |i: int|
                (if i > 0 && fore[i - 1].wrapped {
                    Seq::empty()
                } else {
                    encode_utf8("\r\n"@)
                }) + decoded(fore[i].data) + encode_utf8("\x1b[0m"@),
        );
        less.lemma_flatten_and_flatten_alt_are_equivalent();
        assert(pieces.drop_last() =~= less);
        assert(history_bytes(lines) =~= less.flatten_alt() + pieces.last());
    }
}

/// The history is printed from the bottom row, with wrapping on, and then
/// scrolled clear of the rows that the stream will take.
pub proof fn history_is_scrolled_clear(rows: u16, stream_rows: u16, lines: Seq<ShownView>)
    requires
        rows > 0,
    ensures
        print_bytes(rows, stream_rows, lines) =~= encode_utf8("\x1b[0m"@) + encode_utf8(
            "\x1b[?7h"@,
        ) + pointed(rows - 1, 0) + history_bytes(lines) + pointed(rows - 1, 0) + repeated(
            encode_utf8("\r\n"@),
            if stream_rows < rows {
                stream_rows as nat
            } else {
                rows as nat
            },
        ),
{
}

/// A mirror after it was fed chunks of output in order.
pub open spec fn fed_all(m: MirrorView, chunks: Seq<Seq<u8>>) -> MirrorView
    decreases chunks.len(),
{
    if chunks.len() == 0 {
        m
    } else {
        fed_all(m.processed(chunks[0]), chunks.skip(1))
    }
}

/// What chunks of output, fed in order, write to the terminal.
pub open spec fn drawn_all(m: MirrorView, chunks: Seq<Seq<u8>>) -> Seq<u8>
    decreases chunks.len(),
{
    if chunks.len() == 0 {
        Seq::empty()
    } else {
        m.host_bytes(chunks[0]) + drawn_all(m.processed(chunks[0]), chunks.skip(1))
    }
}

proof fn fed_in_order(m: MirrorView, chunks: Seq<Seq<u8>>, last: Seq<u8>)
    ensures
        fed_all(m, chunks.push(last)) == fed_all(m, chunks).processed(last),
        drawn_all(m, chunks.push(last)) == drawn_all(m, chunks) + fed_all(m, chunks).host_bytes(last),
    decreases chunks.len(),
{
    let all = chunks.push(last);
    if chunks.len() == 0 {
        reveal_with_fuel(fed_all, 2);
        reveal_with_fuel(drawn_all, 2);
        assert(all.skip(1) =~= chunks);
        assert(drawn_all(m, all) =~= drawn_all(m, chunks) + fed_all(m, chunks).host_bytes(last));
    } else {
        assert(all.skip(1) =~= chunks.skip(1).push(last));
        fed_in_order(m.processed(chunks[0]), chunks.skip(1), last);
        assert(drawn_all(m, all) =~= drawn_all(m, chunks) + fed_all(m, chunks).host_bytes(last));
    }
}

proof fn chunks_are_fed(m: MirrorView, chunks: Seq<Seq<u8>>)
    ensures
        after_chunks(m, chunks) == fed_all(m, chunks),
        chunks_bytes(m, chunks) == drawn_all(m, chunks),
    decreases chunks.len(),
{
    if chunks.len() > 0 {
        chunks_are_fed(m, chunks.drop_last());
        fed_in_order(m, chunks.drop_last(), chunks.last());
        assert(chunks.drop_last().push(chunks.last()) =~= chunks);
    }
}

/// What a terminal shows of a stream that goes live on it: a mirror that views
/// it at its size, and was fed its snapshot and what came after.
pub open spec fn shown_stream(
    s: ScreenView,
    rows: u16,
    cols: u16,
    chunks: Seq<Seq<u8>>,
) -> MirrorView {
    fed_all(new_mirror(s.rows, s.cols).viewing(View { rows, cols, simulated: false }), chunks)
}

/// What going live writes: the lead, the history, the frame of the view, and
/// what the stream drew so far.
pub open spec fn live_output(
    s: ScreenView,
    rows: u16,
    cols: u16,
    chunks: Seq<Seq<u8>>,
    lines: Seq<ShownView>,
) -> Seq<u8> {
    let m = new_mirror(s.rows, s.cols).viewing(View { rows, cols, simulated: false });
    encode_utf8(s.lead) + print_bytes(s.rows, rows, lines) + (encode_utf8(
        "\x1b[r\x1b[?6l\x1b[?7h"@,
    ) + m.crop_bytes() + m.full_bytes()) + drawn_all(m, chunks)
}

/// A stream's first snapshot asks for the history before it, and shows nothing
/// until that has come; where there is none that could be fetched, the stream
/// goes live at once.
pub proof fn first_snapshot_asks_for_history(
    view: View,
    snapshot: Seq<u8>,
    history_next: u64,
    s: ScreenView,
)
    requires
        !view.simulated,
    ensures
        ({
            let after = FeedView::Waiting.after_snapshot(view, snapshot, history_next, s);
            let step = FeedView::Waiting.snapshot_step(view, snapshot, history_next, s);
            if history_next > s.history_oldest {
                &&& after == FeedView::Fetching(
                    FetchView {
                        stream_rows: view.rows,
                        stream_cols: view.cols,
                        snapshot,
                        pending: Seq::empty(),
                        skip_replies: 0,
                    },
                )
                &&& step == (StepView {
                    output: Seq::empty(),
                    request: Some(history_next),
                    went_live: false,
                })
            } else {
                &&& after == FeedView::Live(
                    shown_stream(s, view.rows, view.cols, seq![snapshot]),
                )
                &&& step.output == live_output(
                    s,
                    view.rows,
                    view.cols,
                    seq![snapshot],
                    Seq::empty(),
                )
                &&& step.request is None
                &&& step.went_live
            }
        }),
{
    let m = new_mirror(s.rows, s.cols).viewing(
        View { rows: view.rows, cols: view.cols, simulated: false },
    );
    let f = FeedView::Waiting.restarted(view, snapshot, history_next, s);
    assert(f.chunks() =~= seq![snapshot]);
    chunks_are_fed(m, seq![snapshot]);
}

/// The history that was asked for is printed, and the stream goes live below
/// it with everything that came since its snapshot. A reply to a request from
/// before a later snapshot is passed over, and so is one that nobody waits for.
pub proof fn history_reply_goes_live(f: FetchView, m: MirrorView, s: ScreenView, lines: Seq<ShownView>)
    ensures
        f.skip_replies == 0 ==> {
            let chunks = seq![f.snapshot] + f.pending;
            let step = FeedView::Fetching(f).history_step(s, lines);
            &&& FeedView::Fetching(f).after_history(s, lines) == FeedView::Live(
                shown_stream(s, f.stream_rows, f.stream_cols, chunks),
            )
            &&& step.output == live_output(s, f.stream_rows, f.stream_cols, chunks, lines)
            &&& step.request is None
            &&& step.went_live
        },
        f.skip_replies > 0 ==> {
            &&& FeedView::Fetching(f).after_history(s, lines) == FeedView::Fetching(
                FetchView { skip_replies: (f.skip_replies - 1) as nat, ..f },
            )
            &&& FeedView::Fetching(f).history_step(s, lines) == (StepView {
                output: Seq::empty(),
                request: None,
                went_live: false,
            })
        },
        FeedView::Waiting.after_history(s, lines) == FeedView::Waiting,
        FeedView::Live(m).after_history(s, lines) == FeedView::Live(m),
        FeedView::Live(m).history_step(s, lines).output.len() == 0,
        FeedView::Waiting.history_step(s, lines).output.len() == 0,
{
    let chunks = seq![f.snapshot] + f.pending;
    chunks_are_fed(
        new_mirror(s.rows, s.cols).viewing(
            View { rows: f.stream_rows, cols: f.stream_cols, simulated: false },
        ),
        chunks,
    );
}

/// A snapshot that comes while the history is awaited starts anew from it: what
/// came before is forgotten, and the reply on the way will be passed over if
/// the history is asked for again.
pub proof fn later_snapshots_start_anew(
    f: FetchView,
    view: View,
    snapshot: Seq<u8>,
    history_next: u64,
    s: ScreenView,
)
    requires
        !view.simulated,
        history_next > s.history_oldest,
    ensures
        FeedView::Fetching(f).after_snapshot(view, snapshot, history_next, s) == FeedView::Fetching(
            FetchView {
                stream_rows: view.rows,
                stream_cols: view.cols,
                snapshot,
                pending: Seq::empty(),
                skip_replies: f.skip_replies + 1,
            },
        ),
        FeedView::Fetching(f).snapshot_step(view, snapshot, history_next, s) == (StepView {
            output: Seq::empty(),
            request: Some(history_next),
            went_live: false,
        }),
{
}

/// Once live, output is drawn as the mirror draws it, with a bell where one
/// rang, and a snapshot restarts the view at its size. Output that comes before
/// is kept for later, behind what is kept already, but nothing is kept before
/// the first snapshot.
pub proof fn live_streams_are_mirrored(
    m: MirrorView,
    f: FetchView,
    bytes: Seq<u8>,
    view: View,
    snapshot: Seq<u8>,
    history_next: u64,
    s: ScreenView,
)
    ensures
        FeedView::Live(m).after_output(bytes) == FeedView::Live(m.processed(bytes)),
        FeedView::Live(m).output_step(bytes).request is None,
        m.after_slices(bytes).bells > 0 ==> FeedView::Live(m).output_step(bytes).output
            =~= m.host_bytes(bytes) + encode_utf8("\x07"@),
        m.after_slices(bytes).bells == 0 ==> FeedView::Live(m).output_step(bytes).output
            =~= m.host_bytes(bytes),
        FeedView::Fetching(f).after_output(bytes) == FeedView::Fetching(
            FetchView { pending: f.pending + seq![bytes], ..f },
        ),
        FeedView::Fetching(f).output_step(bytes).output.len() == 0,
        FeedView::Waiting.after_output(bytes) == FeedView::Waiting,
        FeedView::Waiting.output_step(bytes).output.len() == 0,
        FeedView::Live(m).after_snapshot(view, snapshot, history_next, s) == FeedView::Live(
            m.viewing(view).processed(snapshot),
        ),
        FeedView::Live(m).snapshot_step(view, snapshot, history_next, s).output =~= encode_utf8(
            "\x1b[r\x1b[?6l\x1b[?7h"@,
        ) + m.viewing(view).crop_bytes() + m.viewing(view).full_bytes() + m.viewing(
            view,
        ).host_bytes(snapshot),
        FeedView::Live(m).snapshot_step(view, snapshot, history_next, s).request is None,
{
    assert(f.pending.push(bytes) =~= f.pending + seq![bytes]);
}

/// A stream has the size that its snapshot states, or the terminal's own where
/// that has no cell.
pub proof fn streams_state_their_size(rows: u16, cols: u16, own_rows: u16, own_cols: u16)
    ensures
        ({
            let view = stream_view(rows, cols, own_rows, own_cols);
            &&& !view.simulated
            &&& rows > 0 && cols > 0 ==> view.rows == rows && view.cols == cols
            &&& rows == 0 || cols == 0 ==> view.rows == own_rows && view.cols == own_cols
        }),
{
}

/// Bytes to write to the terminal, if there are any.
pub open spec fn to_terminal(bytes: Seq<u8>) -> Seq<StepAct> {
    if bytes.len() > 0 {
        seq![StepAct::Write(bytes)]
    } else {
        Seq::empty()
    }
}

/// What a step of the stream asks of an attached terminal: the history is
/// requested from where the step says, without a limit, and what it draws is
/// written.
pub open spec fn step_done(step: StepView) -> Seq<StepAct> {
    (if step.request is Some {
        seq![
            StepAct::Send(
                ClientMsg::History { before: step.request->Some_0, limit: None },
            ),
        ]
    } else {
        Seq::empty()
    }) + to_terminal(step.output)
}

/// The messages of a session do to an attached terminal what its stream does:
/// snapshots, output and history are handed on as they are decoded, and what
/// cannot be decoded is passed over.
pub proof fn messages_drive_the_stream(
    a: AttachedView,
    data: Seq<char>,
    width: u16,
    height: u16,
    history_next: u64,
    start: u64,
    oldest: u64,
    next: u64,
    lines: Seq<LineView>,
)
    ensures
        ({
            let screen = ScreenView {
                rows: a.rows,
                cols: a.cols,
                lead: Seq::empty(),
                history_oldest: a.history_oldest,
            };
            let view = if width > 0 && height > 0 {
                View { rows: height, cols: width, simulated: false }
            } else {
                View { rows: a.rows, cols: a.cols, simulated: false }
            };
            let snapshot = SessionMsg::Snapshot { data, width, height, history_next };
            let output = SessionMsg::Output { data };
            let history = SessionMsg::HistoryLines { start, oldest, next, lines };
            let shown = Seq::new(
                lines.len(),
                |i: int| ShownView { data: Some(lines[i].data), wrapped: lines[i].wrapped },
            );
            &&& match base64_bytes(data) {
                Ok(bytes) => {
                    &&& a.after(snapshot) == (AttachedView {
                        feed: a.feed.after_snapshot(view, bytes, history_next, screen),
                        ..a
                    })
                    &&& a.message_acts(snapshot) =~= step_done(
                        a.feed.snapshot_step(view, bytes, history_next, screen),
                    )
                    &&& a.after(output) == (AttachedView { feed: a.feed.after_output(bytes), ..a })
                    &&& a.message_acts(output) =~= step_done(a.feed.output_step(bytes))
                },
                Err(_) => {
                    &&& a.after(snapshot) == a
                    &&& a.message_acts(snapshot) =~= Seq::<StepAct>::empty()
                    &&& a.after(output) == a
                    &&& a.message_acts(output) =~= Seq::<StepAct>::empty()
                },
            }
            &&& a.after(history) == (AttachedView { feed: a.feed.after_history(screen, shown), ..a })
            &&& a.message_acts(history) =~= step_done(a.feed.history_step(screen, shown))
        }),
{
    let shown = Seq::new(
        lines.len(),
        |i: int| ShownView { data: Some(lines[i].data), wrapped: lines[i].wrapped },
    );
    assert(lines_shown(lines) =~= shown);
}

/// An attached terminal notes how the session ended, with 1 for a signal. An
/// error before the stream is shown is fatal; after that it is noted, as the
/// likely reason for the connection's end. A title is set without its control
/// characters.
pub proof fn endings_are_noted(
    a: AttachedView,
    status: Option<i32>,
    message: Seq<char>,
    title: Seq<char>,
)
    ensures
        a.after(SessionMsg::Exit { status }) == (AttachedView {
            exit_status: if status is Some {
                status
            } else {
                Some(1i32)
            },
            ..a
        }),
        a.fatal(SessionMsg::Exit { status }) is None,
        a.feed is Live ==> {
            &&& a.fatal(SessionMsg::Error { message }) is None
            &&& a.after(SessionMsg::Error { message }) == (AttachedView {
                last_error: Some(message),
                ..a
            })
        },
        !(a.feed is Live) ==> {
            &&& a.fatal(SessionMsg::Error { message }) == Some(message)
            &&& a.after(SessionMsg::Error { message }) == a
        },
        a.after(SessionMsg::Title { title }) == a,
        a.message_acts(SessionMsg::Title { title }) =~= to_terminal(
            encode_utf8("\x1b]2;"@ + without_controls(title) + "\x07"@),
        ),
{
}

proof fn key_is_first(bytes: Seq<u8>, key: Option<u8>, from: int, at: int)
    requires
        0 <= from <= at <= bytes.len(),
        forall|k: int| from <= k < at ==> key != Some(#[trigger] bytes[k]),
        at < bytes.len() ==> key == Some(bytes[at]),
    ensures
        detach_at(bytes, key, from) == at,
    decreases at - from,
{
    if from < at {
        key_is_first(bytes, key, from + 1, at);
    }
}

/// What is typed at an attached terminal goes to the session in one message,
/// up to the key that detaches; that one ends the view, and what is behind it
/// is dropped. A form feed repaints the terminal on its way. Without a key to
/// detach with, everything is sent.
pub proof fn typing_goes_to_the_session(a: AttachedView, bytes: Seq<u8>, at: int)
    requires
        0 <= at <= bytes.len(),
        forall|k: int| 0 <= k < at ==> a.detach_key != Some(#[trigger] bytes[k]),
        at < bytes.len() ==> a.detach_key == Some(bytes[at]),
    ensures
        ({
            let input = bytes.take(at);
            let asked = exists|k: int| 0 <= k < at && #[trigger] bytes[k] == 12;
            a.key_acts(bytes) =~= (if asked {
                to_terminal(refresh_bytes(a.feed))
            } else {
                Seq::empty()
            }) + (if at > 0 {
                seq![
                    StepAct::Send(
                        ClientMsg::Input { data: base64_text(input), delays: Seq::empty() },
                    ),
                ]
            } else {
                Seq::empty()
            }) + (if at < bytes.len() {
                seq![StepAct::Send(ClientMsg::Unview)]
            } else {
                Seq::empty()
            })
        }),
{
    key_is_first(bytes, a.detach_key, 0, at);
    let input = bytes.take(at);
    if input.contains(12u8) {
        let k = choose|k: int| 0 <= k < input.len() && input[k] == 12u8;
        assert(bytes[k] == 12);
    } else {
        assert forall|k: int| 0 <= k < at implies #[trigger] bytes[k] != 12 by {
            assert(input[k] == bytes[k]);
            assert(input.contains(input[k]));
        }
    }
}

/// A repaint that is asked for shows a live view, hidden rows included.
pub proof fn repaints_show_the_view(m: MirrorView, f: FetchView)
    ensures
        m.view is Some ==> refresh_bytes(FeedView::Live(m)) =~= m.crop_bytes() + m.full_bytes(),
        m.view is None ==> refresh_bytes(FeedView::Live(m)).len() == 0,
        refresh_bytes(FeedView::Fetching(f)).len() == 0,
        refresh_bytes(FeedView::Waiting).len() == 0,
{
}

} // verus!
