//! The mathematical model of the record assembler: its configuration, its
//! state, and the transition it takes on each event. The executable assembler
//! is proved to follow `step` exactly; the laws about whole event streams are
//! proved over `run`.

use vstd::prelude::*;
use crate::event::Event;
use crate::pattern::re_match;

verus! {

/// The assembler's immutable configuration: the start-marker pattern, the
/// content pattern, and the idle threshold (timeout divided by the tick
/// period) beyond which a record-in-progress is force-flushed.
pub struct ConfigModel {
    pub start: Seq<char>,
    pub pattern: Seq<char>,
    pub threshold: int,
}

/// The assembler's state: the lines of the record being assembled, the count
/// of ticks seen since the last line or flush, and whether end-of-input has
/// been processed.
pub struct Model {
    pub buf: Seq<Seq<char>>,
    pub idle: int,
    pub done: bool,
}

/// The outcome of one transition: the successor state and the record (a
/// sequence of lines) emitted by it, if any.
pub struct StepRes {
    pub state: Model,
    pub output: Option<Seq<Seq<char>>>,
}

/// The state the assembler starts in: empty buffer, no idle ticks seen.
pub open spec fn init_state() -> Model {
    Model { buf: Seq::empty(), idle: 0, done: false }
}

/// The flush decision: a non-empty buffer is emitted exactly when its first
/// line matches the content pattern; an empty buffer emits nothing.
pub open spec fn flush_emit(pattern: Seq<char>, buf: Seq<Seq<char>>) -> Option<Seq<Seq<char>>> {
    if buf.len() > 0 && re_match(pattern, buf[0]) {
        Some(buf)
    } else {
        None
    }
}

/// One transition of the assembler.
///
/// - A line matching the start marker flushes the current buffer and starts a
///   new record with that line; any line resets the idle count.
/// - A tick increments the idle count; past the threshold it flushes the
///   buffer and resets the count.
/// - End-of-input flushes the buffer and moves to the terminal state, after
///   which every event is ignored.
pub open spec fn step(cfg: ConfigModel, st: Model, ev: Event) -> StepRes {
    if st.done {
        StepRes { state: st, output: None }
    } else {
        match ev {
            Event::Line(content) => {
                if re_match(cfg.start, content) {
                    StepRes {
                        state: Model { buf: seq![content], idle: 0, done: false },
                        output: flush_emit(cfg.pattern, st.buf),
                    }
                } else {
                    StepRes {
                        state: Model { buf: st.buf.push(content), idle: 0, done: false },
                        output: None,
                    }
                }
            },
            Event::Ping => {
                if st.idle + 1 > cfg.threshold {
                    StepRes {
                        state: Model { buf: Seq::empty(), idle: 0, done: false },
                        output: flush_emit(cfg.pattern, st.buf),
                    }
                } else {
                    StepRes {
                        state: Model { buf: st.buf, idle: st.idle + 1, done: false },
                        output: None,
                    }
                }
            },
            Event::Eof => {
                StepRes {
                    state: Model { buf: Seq::empty(), idle: 0, done: true },
                    output: flush_emit(cfg.pattern, st.buf),
                }
            },
        }
    }
}

/// The assembler's final state and the records it emits, in order, when it
/// processes `evs` from state `st`.
pub struct RunRes {
    pub state: Model,
    pub outputs: Seq<Seq<Seq<char>>>,
}

/// Fold `step` over an event sequence, collecting the emitted records.
pub open spec fn run(cfg: ConfigModel, st: Model, evs: Seq<Event>) -> RunRes
    decreases evs.len(),
{
    if evs.len() == 0 {
        RunRes { state: st, outputs: Seq::empty() }
    } else {
        let first = step(cfg, st, evs[0]);
        let rest = run(cfg, first.state, evs.drop_first());
        RunRes {
            state: rest.state,
            outputs: match first.output {
                Some(rec) => seq![rec] + rest.outputs,
                None => rest.outputs,
            },
        }
    }
}

/// `run` over a stream extended by one event: the extension's effect is one
/// `step` from the stream's final state, its output appended to the stream's.
pub proof fn lemma_run_snoc(cfg: ConfigModel, st: Model, evs: Seq<Event>, ev: Event)
    ensures
        ({
            let prefix = run(cfg, st, evs);
            let last = step(cfg, prefix.state, ev);
            let whole = run(cfg, st, evs.push(ev));
            &&& whole.state == last.state
            &&& whole.outputs == prefix.outputs + (match last.output {
                Some(rec) => seq![rec],
                None => Seq::<Seq<Seq<char>>>::empty(),
            })
        }),
    decreases evs.len(),
{
    let snoc = evs.push(ev);
    if evs.len() == 0 {
        assert(snoc[0] == ev);
        assert(snoc.drop_first() =~= Seq::<Event>::empty());
        let last = step(cfg, st, ev);
        assert(run(cfg, last.state, Seq::<Event>::empty()).outputs
            == Seq::<Seq<Seq<char>>>::empty());
        assert(run(cfg, last.state, Seq::<Event>::empty()).state == last.state);
        match last.output {
            Some(rec) => {
                assert(run(cfg, st, snoc).outputs =~= seq![rec]);
                assert(Seq::<Seq<Seq<char>>>::empty() + seq![rec] =~= seq![rec]);
            },
            None => {
                assert(run(cfg, st, snoc).outputs =~= Seq::<Seq<Seq<char>>>::empty());
                assert(Seq::<Seq<Seq<char>>>::empty() + Seq::<Seq<Seq<char>>>::empty()
                    =~= Seq::<Seq<Seq<char>>>::empty());
            },
        }
    } else {
        assert(snoc[0] == evs[0]);
        assert(snoc.drop_first() =~= evs.drop_first().push(ev));
        let first = step(cfg, st, evs[0]);
        lemma_run_snoc(cfg, first.state, evs.drop_first(), ev);
        let tail_prefix = run(cfg, first.state, evs.drop_first());
        let last = step(cfg, run(cfg, st, evs).state, ev);
        let last_out: Seq<Seq<Seq<char>>> = match last.output {
            Some(rec) => seq![rec],
            None => Seq::empty(),
        };
        match first.output {
            Some(rec0) => {
                assert((seq![rec0] + tail_prefix.outputs) + last_out =~= seq![rec0] + (
                tail_prefix.outputs + last_out));
            },
            None => {},
        }
    }
}

/// The lines of a record joined with newline separators, as they are written
/// out: no separator around an empty sequence or a single line.
pub open spec fn spec_join(lines: Seq<Seq<char>>) -> Seq<char>
    decreases lines.len(),
{
    if lines.len() == 0 {
        Seq::empty()
    } else if lines.len() == 1 {
        lines[0]
    } else {
        lines[0] + seq!['\n'] + spec_join(lines.drop_first())
    }
}

/// The joined text of an emitted record, if one was emitted.
pub open spec fn joined(out: Option<Seq<Seq<char>>>) -> Option<Seq<char>> {
    match out {
        Some(rec) => Some(spec_join(rec)),
        None => None,
    }
}

/// The views of a sequence of owned lines.
pub open spec fn line_views(lines: Seq<String>) -> Seq<Seq<char>> {
    lines.map_values(|s: String| s@)
}

} // verus!
