//! Laws of the record assembler, stated and proved over the model's `run`.
//!
//! The central theorem, `lemma_line_stream_outputs`, characterises the records
//! a line stream produces: they are exactly the marker-delimited segments of
//! the input whose first line matches the content pattern, in order, each
//! containing precisely the lines that arrived between two flushes.

use vstd::prelude::*;
use crate::event::Event;
use crate::model::{ConfigModel, Model, flush_emit, init_state, run, step};
use crate::pattern::re_match;

verus! {

/// The event stream of a run without ticks: one `Line` event per input line,
/// closed by `Eof`.
pub open spec fn line_events(lines: Seq<Seq<char>>) -> Seq<Event> {
    lines.map_values(|l: Seq<char>| Event::Line(l)).push(Event::Eof)
}

/// The marker-delimited segments of a line stream, given a buffer `cur`
/// already in progress: a start-marker line closes the segment in progress and
/// opens a new one; every other line extends the segment in progress; the last
/// segment, if non-empty, is closed by the end of the stream.
pub open spec fn segments(
    start: Seq<char>,
    lines: Seq<Seq<char>>,
    cur: Seq<Seq<char>>,
) -> Seq<Seq<Seq<char>>>
    decreases lines.len(),
{
    if lines.len() == 0 {
        if cur.len() == 0 {
            Seq::empty()
        } else {
            seq![cur]
        }
    } else if re_match(start, lines[0]) {
        if cur.len() == 0 {
            segments(start, lines.drop_first(), seq![lines[0]])
        } else {
            seq![cur] + segments(start, lines.drop_first(), seq![lines[0]])
        }
    } else {
        segments(start, lines.drop_first(), cur.push(lines[0]))
    }
}

/// Of a sequence of segments, those the flush decision emits: the non-empty
/// ones whose first line matches the content pattern, in order.
pub open spec fn emitted(pattern: Seq<char>, segs: Seq<Seq<Seq<char>>>) -> Seq<Seq<Seq<char>>>
    decreases segs.len(),
{
    if segs.len() == 0 {
        Seq::empty()
    } else {
        let rest = emitted(pattern, segs.drop_first());
        if segs[0].len() > 0 && re_match(pattern, segs[0][0]) {
            seq![segs[0]] + rest
        } else {
            rest
        }
    }
}

proof fn lemma_emitted_cons(pattern: Seq<char>, s: Seq<Seq<char>>, rest: Seq<Seq<Seq<char>>>)
    ensures
        emitted(pattern, seq![s] + rest) == if s.len() > 0 && re_match(pattern, s[0]) {
            seq![s] + emitted(pattern, rest)
        } else {
            emitted(pattern, rest)
        },
{
    let whole = seq![s] + rest;
    assert(whole[0] == s);
    assert(whole.drop_first() =~= rest);
}

/// No tearing / record grouping, for lines arriving in rapid succession (no
/// tick between them): starting from a not-yet-terminated state, the records a
/// line stream produces are exactly the marker-delimited segments of its lines
/// (appended to the buffer already in progress) whose first line matches the
/// content pattern, in order; afterwards the assembler is terminated with an
/// empty buffer. No record is lost, duplicated, torn or reordered.
pub proof fn lemma_line_stream_outputs(cfg: ConfigModel, st: Model, lines: Seq<Seq<char>>)
    requires
        !st.done,
    ensures
        run(cfg, st, line_events(lines)).outputs == emitted(
            cfg.pattern,
            segments(cfg.start, lines, st.buf),
        ),
        run(cfg, st, line_events(lines)).state.done,
        run(cfg, st, line_events(lines)).state.buf.len() == 0,
    decreases lines.len(),
{
    let evs = line_events(lines);
    if lines.len() == 0 {
        assert(evs =~= seq![Event::Eof]);
        assert(evs[0] == Event::Eof);
        assert(evs.drop_first() =~= Seq::<Event>::empty());
        let first = step(cfg, st, Event::Eof);
        assert(run(cfg, first.state, evs.drop_first()).outputs == Seq::<Seq<Seq<char>>>::empty());
        let segs = segments(cfg.start, lines, st.buf);
        match flush_emit(cfg.pattern, st.buf) {
            Some(rec) => {
                assert(run(cfg, st, evs).outputs =~= seq![rec]);
                assert(segs == seq![st.buf]);
                assert(segs[0] == st.buf);
                assert(segs.drop_first() =~= Seq::<Seq<Seq<char>>>::empty());
                assert(emitted(cfg.pattern, Seq::<Seq<Seq<char>>>::empty())
                    == Seq::<Seq<Seq<char>>>::empty());
                assert(emitted(cfg.pattern, segs) =~= seq![rec]);
            },
            None => {
                assert(run(cfg, st, evs).outputs =~= Seq::<Seq<Seq<char>>>::empty());
                if st.buf.len() == 0 {
                    assert(segs =~= Seq::<Seq<Seq<char>>>::empty());
                } else {
                    assert(segs == seq![st.buf]);
                    assert(segs[0] == st.buf);
                    assert(segs.drop_first() =~= Seq::<Seq<Seq<char>>>::empty());
                    assert(emitted(cfg.pattern, Seq::<Seq<Seq<char>>>::empty())
                        == Seq::<Seq<Seq<char>>>::empty());
                    assert(emitted(cfg.pattern, segs) =~= Seq::<Seq<Seq<char>>>::empty());
                }
            },
        }
    } else {
        let l0 = lines[0];
        assert(evs[0] == Event::Line(l0));
        assert(evs.drop_first() =~= line_events(lines.drop_first()));
        let first = step(cfg, st, evs[0]);
        if re_match(cfg.start, l0) {
            let fresh = seq![l0];
            assert(first.state == Model { buf: fresh, idle: 0, done: false });
            lemma_line_stream_outputs(cfg, first.state, lines.drop_first());
            let rest_out = run(cfg, first.state, evs.drop_first()).outputs;
            let segs_rest = segments(cfg.start, lines.drop_first(), fresh);
            if st.buf.len() == 0 {
                assert(first.output is None);
                assert(segments(cfg.start, lines, st.buf) == segs_rest);
            } else {
                assert(segments(cfg.start, lines, st.buf) == seq![st.buf] + segs_rest);
                lemma_emitted_cons(cfg.pattern, st.buf, segs_rest);
                if re_match(cfg.pattern, st.buf[0]) {
                    assert(first.output == Some(st.buf));
                    assert(run(cfg, st, evs).outputs == seq![st.buf] + rest_out);
                } else {
                    assert(first.output is None);
                }
            }
        } else {
            assert(first.state == Model { buf: st.buf.push(l0), idle: 0, done: false });
            assert(first.output is None);
            lemma_line_stream_outputs(cfg, first.state, lines.drop_first());
            assert(segments(cfg.start, lines, st.buf) == segments(
                cfg.start,
                lines.drop_first(),
                st.buf.push(l0),
            ));
        }
    }
}

/// No line of the record beyond its first matches the start marker.
pub open spec fn no_inner_marker(start: Seq<char>, rec: Seq<Seq<char>>) -> bool {
    forall|i: int| 1 <= i < rec.len() ==> !re_match(start, #[trigger] rec[i])
}

/// A record is well-grouped when it is non-empty, its first line matches the
/// start marker, and none of its later lines does.
pub open spec fn grouped(start: Seq<char>, rec: Seq<Seq<char>>) -> bool {
    &&& rec.len() > 0
    &&& re_match(start, rec[0])
    &&& no_inner_marker(start, rec)
}

/// Markers only begin records: under any event stream whatsoever — ticks,
/// pre-marker prefixes and timeout-cut tails included — every emitted record
/// is free of start-marker lines beyond its first, and so is the buffer left
/// behind, provided the starting buffer was.
pub proof fn lemma_no_inner_marker(cfg: ConfigModel, st: Model, evs: Seq<Event>)
    ensures
        no_inner_marker(cfg.start, st.buf) ==> {
            &&& forall|k: int| 0 <= k < run(cfg, st, evs).outputs.len() ==> no_inner_marker(
                cfg.start,
                #[trigger] run(cfg, st, evs).outputs[k],
            )
            &&& no_inner_marker(cfg.start, run(cfg, st, evs).state.buf)
        },
    decreases evs.len(),
{
    if no_inner_marker(cfg.start, st.buf) && evs.len() > 0 {
        let first = step(cfg, st, evs[0]);
        match evs[0] {
            Event::Line(content) => {
                if !re_match(cfg.start, content) && !st.done {
                    let longer = st.buf.push(content);
                    assert forall|i: int| 1 <= i < longer.len() implies !re_match(
                        cfg.start,
                        #[trigger] longer[i],
                    ) by {
                        if i < st.buf.len() {
                            assert(longer[i] == st.buf[i]);
                        } else {
                            assert(longer[i] == content);
                        }
                    }
                }
            },
            Event::Ping => {},
            Event::Eof => {},
        }
        assert(no_inner_marker(cfg.start, first.state.buf));
        lemma_no_inner_marker(cfg, first.state, evs.drop_first());
        let rest = run(cfg, first.state, evs.drop_first()).outputs;
        let outs = run(cfg, st, evs).outputs;
        match first.output {
            Some(rec0) => {
                assert(rec0 == st.buf);
                assert(outs == seq![rec0] + rest);
                assert forall|k: int| 0 <= k < outs.len() implies no_inner_marker(
                    cfg.start,
                    #[trigger] outs[k],
                ) by {
                    if k == 0 {
                        assert(outs[0] == rec0);
                    } else {
                        assert(outs[k] == rest[k - 1]);
                    }
                }
            },
            None => {},
        }
    }
}

/// Every record of `recs` is well-grouped.
pub open spec fn all_grouped(start: Seq<char>, recs: Seq<Seq<Seq<char>>>) -> bool {
    forall|k: int| 0 <= k < recs.len() ==> grouped(start, #[trigger] recs[k])
}

proof fn lemma_segments_grouped(start: Seq<char>, lines: Seq<Seq<char>>, cur: Seq<Seq<char>>)
    requires
        cur.len() == 0 ==> (lines.len() > 0 ==> re_match(start, lines[0])),
        cur.len() > 0 ==> grouped(start, cur),
    ensures
        all_grouped(start, segments(start, lines, cur)),
    decreases lines.len(),
{
    let segs = segments(start, lines, cur);
    if lines.len() == 0 {
        if cur.len() > 0 {
            assert(segs == seq![cur]);
            assert(segs[0] == cur);
        }
    } else {
        let l0 = lines[0];
        if re_match(start, l0) {
            let fresh = seq![l0];
            assert(fresh[0] == l0);
            assert(grouped(start, fresh));
            lemma_segments_grouped(start, lines.drop_first(), fresh);
            if cur.len() > 0 {
                let rest = segments(start, lines.drop_first(), fresh);
                assert(segs == seq![cur] + rest);
                assert forall|k: int| 0 <= k < segs.len() implies grouped(
                    start,
                    #[trigger] segs[k],
                ) by {
                    if k == 0 {
                        assert(segs[0] == cur);
                    } else {
                        assert(segs[k] == rest[k - 1]);
                    }
                }
            }
        } else {
            let longer = cur.push(l0);
            assert(cur.len() > 0);
            assert(longer[0] == cur[0]);
            assert forall|i: int| 1 <= i < longer.len() implies !re_match(
                start,
                #[trigger] longer[i],
            ) by {
                if i < cur.len() {
                    assert(longer[i] == cur[i]);
                } else {
                    assert(longer[i] == l0);
                }
            }
            assert(grouped(start, longer));
            lemma_segments_grouped(start, lines.drop_first(), longer);
        }
    }
}

proof fn lemma_emitted_grouped(pattern: Seq<char>, segs: Seq<Seq<Seq<char>>>, start: Seq<char>)
    requires
        all_grouped(start, segs),
    ensures
        all_grouped(start, emitted(pattern, segs)),
    decreases segs.len(),
{
    if segs.len() > 0 {
        let rest = segs.drop_first();
        assert forall|k: int| 0 <= k < rest.len() implies grouped(start, #[trigger] rest[k]) by {
            assert(rest[k] == segs[k + 1]);
        }
        lemma_emitted_grouped(pattern, rest, start);
        let out = emitted(pattern, segs);
        if segs[0].len() > 0 && re_match(pattern, segs[0][0]) {
            assert(out == seq![segs[0]] + emitted(pattern, rest));
            assert forall|k: int| 0 <= k < out.len() implies grouped(start, #[trigger] out[k]) by {
                if k == 0 {
                    assert(out[0] == segs[0]);
                } else {
                    assert(out[k] == emitted(pattern, rest)[k - 1]);
                }
            }
        }
    }
}

/// Record grouping: when the very first input line matches the start marker,
/// every record a line stream produces begins with a marker-matching line, and
/// none of its later lines matches the marker — they are exactly the non-marker
/// lines that followed, up to the next marker or the end of input.
pub proof fn lemma_record_grouping(cfg: ConfigModel, lines: Seq<Seq<char>>)
    ensures
        (lines.len() > 0 ==> re_match(cfg.start, lines[0])) ==> all_grouped(
            cfg.start,
            run(cfg, init_state(), line_events(lines)).outputs,
        ),
{
    if lines.len() == 0 || re_match(cfg.start, lines[0]) {
        lemma_line_stream_outputs(cfg, init_state(), lines);
        lemma_segments_grouped(cfg.start, lines, Seq::empty());
        lemma_emitted_grouped(cfg.pattern, segments(cfg.start, lines, Seq::empty()), cfg.start);
    }
}

/// Filter correctness, one direction: under any event stream whatsoever, every
/// record the assembler emits is non-empty and its first line matches the
/// content pattern. (The converse — a flushed record whose first line matches
/// is always emitted — is the flush decision itself, `flush_emit`.)
pub proof fn lemma_filter_correctness(cfg: ConfigModel, st: Model, evs: Seq<Event>)
    ensures
        forall|k: int| 0 <= k < run(cfg, st, evs).outputs.len() ==> {
            &&& (#[trigger] run(cfg, st, evs).outputs[k]).len() > 0
            &&& re_match(cfg.pattern, run(cfg, st, evs).outputs[k][0])
        },
    decreases evs.len(),
{
    if evs.len() > 0 {
        let first = step(cfg, st, evs[0]);
        lemma_filter_correctness(cfg, first.state, evs.drop_first());
        let rest = run(cfg, first.state, evs.drop_first()).outputs;
        let outs = run(cfg, st, evs).outputs;
        match first.output {
            Some(rec0) => {
                assert(rec0.len() > 0 && re_match(cfg.pattern, rec0[0]));
                assert(outs == seq![rec0] + rest);
                assert forall|k: int| 0 <= k < outs.len() implies (#[trigger] outs[k]).len() > 0
                    && re_match(cfg.pattern, outs[k][0]) by {
                    if k == 0 {
                        assert(outs[0] == rec0);
                    } else {
                        assert(outs[k] == rest[k - 1]);
                    }
                }
            },
            None => {},
        }
    }
}

proof fn lemma_segments_no_marker(start: Seq<char>, lines: Seq<Seq<char>>, cur: Seq<Seq<char>>)
    requires
        forall|i: int| 0 <= i < lines.len() ==> !re_match(start, #[trigger] lines[i]),
    ensures
        segments(start, lines, cur) == if cur.len() + lines.len() == 0 {
            Seq::<Seq<Seq<char>>>::empty()
        } else {
            seq![cur + lines]
        },
    decreases lines.len(),
{
    if lines.len() == 0 {
        assert(cur + lines =~= cur);
    } else {
        let rest = lines.drop_first();
        assert forall|i: int| 0 <= i < rest.len() implies !re_match(start, #[trigger] rest[i]) by {
            assert(rest[i] == lines[i + 1]);
        }
        lemma_segments_no_marker(start, rest, cur.push(lines[0]));
        assert(cur.push(lines[0]) + rest =~= cur + lines);
    }
}

/// Pre-marker lines are not dropped: when no input line matches the start
/// marker, the whole stream is buffered as one record, flushed only at end of
/// input, and emitted exactly when its accumulated first line matches the
/// content pattern.
pub proof fn lemma_premarker_lines(cfg: ConfigModel, lines: Seq<Seq<char>>)
    ensures
        (forall|i: int| 0 <= i < lines.len() ==> !re_match(cfg.start, #[trigger] lines[i])) ==> run(
            cfg,
            init_state(),
            line_events(lines),
        ).outputs == (if lines.len() > 0 && re_match(cfg.pattern, lines[0]) {
            seq![lines]
        } else {
            Seq::<Seq<Seq<char>>>::empty()
        }),
{
    if forall|i: int| 0 <= i < lines.len() ==> !re_match(cfg.start, #[trigger] lines[i]) {
        lemma_line_stream_outputs(cfg, init_state(), lines);
        lemma_segments_no_marker(cfg.start, lines, Seq::empty());
        let segs = segments(cfg.start, lines, Seq::empty());
        if lines.len() > 0 {
            assert(Seq::<Seq<char>>::empty() + lines =~= lines);
            assert(segs == seq![lines]);
            assert(segs[0] == lines);
            assert(segs.drop_first() =~= Seq::<Seq<Seq<char>>>::empty());
            assert(emitted(cfg.pattern, Seq::<Seq<Seq<char>>>::empty())
                == Seq::<Seq<Seq<char>>>::empty());
            if re_match(cfg.pattern, lines[0]) {
                assert(emitted(cfg.pattern, segs) =~= seq![lines]);
            }
        }
    }
}

/// Timeout flush: from any live state, after exactly enough consecutive ticks
/// to pass the idle threshold — with no line in between — the buffered record
/// is flushed exactly once, under the usual flush decision, leaving an empty
/// buffer and a reset idle counter, without waiting for further input.
pub proof fn lemma_timeout_flush(cfg: ConfigModel, st: Model, n: int)
    requires
        !st.done,
        0 <= st.idle,
        st.idle <= cfg.threshold,
        n == cfg.threshold + 1 - st.idle,
    ensures
        ({
            let r = run(cfg, st, Seq::new(n as nat, |i: int| Event::Ping));
            &&& r.outputs == (match flush_emit(cfg.pattern, st.buf) {
                Some(rec) => seq![rec],
                None => Seq::<Seq<Seq<char>>>::empty(),
            })
            &&& r.state.buf.len() == 0
            &&& r.state.idle == 0
            &&& !r.state.done
        }),
    decreases n,
{
    let evs = Seq::new(n as nat, |i: int| Event::Ping);
    assert(evs[0] == Event::Ping);
    let first = step(cfg, st, Event::Ping);
    if st.idle + 1 > cfg.threshold {
        assert(n == 1);
        assert(evs.drop_first() =~= Seq::<Event>::empty());
        assert(run(cfg, first.state, Seq::<Event>::empty()).outputs
            == Seq::<Seq<Seq<char>>>::empty());
        assert(run(cfg, first.state, Seq::<Event>::empty()).state == first.state);
        match flush_emit(cfg.pattern, st.buf) {
            Some(rec) => {
                assert(run(cfg, st, evs).outputs =~= seq![rec]);
            },
            None => {},
        }
    } else {
        assert(evs.drop_first() =~= Seq::new((n - 1) as nat, |i: int| Event::Ping));
        assert(first.state == Model { buf: st.buf, idle: st.idle + 1, done: false });
        assert(first.output is None);
        lemma_timeout_flush(cfg, first.state, n - 1);
    }
}

/// A tick that does not pass the idle threshold leaves the record buffer
/// untouched and emits nothing: ticks interleaved with rapidly arriving lines
/// cannot tear a record.
pub proof fn lemma_tick_keeps_buffer(cfg: ConfigModel, st: Model)
    requires
        !st.done,
        st.idle + 1 <= cfg.threshold,
    ensures
        step(cfg, st, Event::Ping).state.buf == st.buf,
        step(cfg, st, Event::Ping).output is None,
{
}

/// Once the terminal `Eof` event has been processed, no further event produces
/// output or changes the state.
pub proof fn lemma_eof_terminal(cfg: ConfigModel, st: Model, evs: Seq<Event>)
    requires
        st.done,
    ensures
        run(cfg, st, evs).outputs == Seq::<Seq<Seq<char>>>::empty(),
        run(cfg, st, evs).state == st,
    decreases evs.len(),
{
    if evs.len() > 0 {
        lemma_eof_terminal(cfg, st, evs.drop_first());
    }
}

/// End-of-input flush: processing `Eof` flushes the buffered partial record
/// exactly once, under the usual flush decision, and whatever events follow
/// produce no further output.
pub proof fn lemma_eof_flush(cfg: ConfigModel, st: Model, evs: Seq<Event>)
    requires
        !st.done,
    ensures
        ({
            let r = run(cfg, st, seq![Event::Eof] + evs);
            &&& r.outputs == (match flush_emit(cfg.pattern, st.buf) {
                Some(rec) => seq![rec],
                None => Seq::<Seq<Seq<char>>>::empty(),
            })
            &&& r.state.done
            &&& r.state.buf.len() == 0
        }),
{
    let whole = seq![Event::Eof] + evs;
    assert(whole[0] == Event::Eof);
    assert(whole.drop_first() =~= evs);
    let first = step(cfg, st, Event::Eof);
    lemma_eof_terminal(cfg, first.state, evs);
    match flush_emit(cfg.pattern, st.buf) {
        Some(rec) => {
            assert(run(cfg, st, whole).outputs =~= seq![rec]);
        },
        None => {},
    }
}

} // verus!
