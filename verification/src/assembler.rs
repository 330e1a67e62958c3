//! The record assembler: the single consumer of the merged event stream. It
//! owns the record buffer and the idle counter, applies the flush decision,
//! and is proved to follow the transition function `step` of the model.

use vstd::prelude::*;
use vstd::string::StringExecFns;
use crate::event::{Command, Event};
use crate::model::{ConfigModel, Model, flush_emit, init_state, joined, lemma_run_snoc, line_views, run, spec_join, step};
use crate::pattern::{Matcher, PatternError, re_match, re_valid};

verus! {

/// The period, in milliseconds, of the tick signal that drives idle detection.
pub const PING_FREQUENCY: u64 = 100;

/// Which of the two configured patterns failed to compile.
#[derive(Debug, PartialEq, Eq, Structural, Clone, Copy)]
pub enum ConfigError {
    /// The start-marker pattern is not valid regular-expression syntax.
    StartPattern,
    /// The content pattern is not valid regular-expression syntax.
    ContentPattern,
}

/// The record assembler: configuration fixed at construction, plus the record
/// buffer, the idle counter, and the terminal flag.
pub struct Assembler {
    start: Matcher,
    pattern: Matcher,
    threshold: i32,
    buf: Vec<String>,
    pings: i32,
    done: bool,
}

/// Join the lines of a record with newline separators, in order.
pub fn join_lines(lines: &Vec<String>) -> (r: String)
    ensures
        r@ == spec_join(line_views(lines@)),
{
    let mut r = String::new();
    let mut i: usize = 0;
    proof {
        assert(lines@.subrange(0, 0) =~= Seq::<String>::empty());
        assert(line_views(Seq::<String>::empty()) =~= Seq::<Seq<char>>::empty());
    }
    while i < lines.len()
        invariant
            i <= lines@.len(),
            r@ == spec_join(line_views(lines@.subrange(0, i as int))),
        decreases lines@.len() - i,
    {
        if i > 0 {
            r.append("\n");
        }
        r.append(lines[i].as_str());
        proof {
            reveal_strlit("\n");
            assert("\n"@ =~= seq!['\n']);
            let prev = line_views(lines@.subrange(0, i as int));
            let next = line_views(lines@.subrange(0, i as int + 1));
            assert(next =~= prev.push(lines@[i as int]@));
            lemma_spec_join_push(prev, lines@[i as int]@);
            assert(r@ =~= spec_join(next));
        }
        i += 1;
    }
    proof {
        assert(lines@.subrange(0, lines@.len() as int) =~= lines@);
    }
    r
}

/// Appending a line to a record extends its joined text by a newline and that
/// line (or is just that line, for a previously empty record).
proof fn lemma_spec_join_push(lines: Seq<Seq<char>>, last: Seq<char>)
    ensures
        spec_join(lines.push(last)) == if lines.len() == 0 {
            last
        } else {
            spec_join(lines) + seq!['\n'] + last
        },
    decreases lines.len(),
{
    let pushed = lines.push(last);
    if lines.len() == 0 {
        assert(pushed.len() == 1);
        assert(spec_join(pushed) == pushed[0]);
        assert(pushed[0] == last);
    } else if lines.len() == 1 {
        assert(pushed.len() == 2);
        assert(pushed.drop_first() =~= seq![last]);
        assert(spec_join(seq![last]) == last);
        assert(spec_join(pushed) == pushed[0] + seq!['\n'] + last);
        assert(spec_join(lines) == lines[0]);
        assert(pushed[0] == lines[0]);
    } else {
        assert(pushed.drop_first() =~= lines.drop_first().push(last));
        lemma_spec_join_push(lines.drop_first(), last);
        assert(spec_join(pushed) == pushed[0] + seq!['\n'] + (spec_join(lines.drop_first())
            + seq!['\n'] + last));
        assert(spec_join(lines) == lines[0] + seq!['\n'] + spec_join(lines.drop_first()));
        assert(pushed[0] == lines[0]);
        assert(lines[0] + seq!['\n'] + (spec_join(lines.drop_first()) + seq!['\n'] + last) =~= (
        lines[0] + seq!['\n'] + spec_join(lines.drop_first())) + seq!['\n'] + last);
    }
}

/// The events of a sequence of commands.
pub open spec fn command_views(cmds: Seq<Command>) -> Seq<Event> {
    cmds.map_values(|c: Command| c@)
}

/// The joined texts of a sequence of emitted records.
pub open spec fn joined_records(recs: Seq<Seq<Seq<char>>>) -> Seq<Seq<char>> {
    recs.map_values(|rec: Seq<Seq<char>>| spec_join(rec))
}

/// The flush decision: emit the buffer as one joined record when its first
/// line matches the content pattern, discard it otherwise; either way the
/// buffer is left empty.
pub fn flush(buf: &mut Vec<String>, pat: &Matcher) -> (out: Option<String>)
    ensures
        final(buf)@.len() == 0,
        (match out {
            Some(s) => Some(s@),
            None => None,
        }) == joined(flush_emit(pat.pattern(), line_views(old(buf)@))),
        out is Some <==> old(buf)@.len() > 0 && re_match(pat.pattern(), old(buf)@[0]@),
{
    if buf.len() == 0 {
        return None;
    }
    let out = if pat.is_match(buf[0].as_str()) {
        Some(join_lines(buf))
    } else {
        None
    };
    buf.clear();
    out
}

impl Assembler {
    /// The assembler's state as a value of the model.
    pub closed spec fn view(&self) -> Model {
        Model { buf: line_views(self.buf@), idle: self.pings as int, done: self.done }
    }

    /// The assembler's configuration as a value of the model.
    pub closed spec fn cfg(&self) -> ConfigModel {
        ConfigModel {
            start: self.start.pattern(),
            pattern: self.pattern.pattern(),
            threshold: self.threshold as int,
        }
    }

    /// Internal invariant: the idle counter stays between zero and the
    /// threshold, and the threshold is small enough that counting one past it
    /// cannot overflow.
    pub closed spec fn wf(&self) -> bool {
        &&& 0 <= self.threshold <= i32::MAX / 100
        &&& 0 <= self.pings <= self.threshold
    }

    /// Build an assembler from the two pattern strings and the idle timeout
    /// (in the same unit as the tick period). The start-marker pattern is
    /// anchored to the beginning of the line; the idle threshold is the
    /// timeout divided by the tick period. Construction succeeds exactly when
    /// both patterns compile, and the error names the pattern that did not.
    pub fn new(start: &str, pattern: &str, timeout: i32) -> (r: Result<Assembler, ConfigError>)
        requires
            0 <= timeout,
        ensures
            r is Ok <==> re_valid("^(?:"@ + start@ + ")"@) && re_valid(pattern@),
            r == Err::<Assembler, ConfigError>(ConfigError::StartPattern) <==> !re_valid(
                "^(?:"@ + start@ + ")"@,
            ),
            r == Err::<Assembler, ConfigError>(ConfigError::ContentPattern) <==> re_valid(
                "^(?:"@ + start@ + ")"@,
            ) && !re_valid(pattern@),
            r matches Ok(a) ==> {
                &&& a.wf()
                &&& a@ == init_state()
                &&& a.cfg() == (ConfigModel {
                    start: "^(?:"@ + start@ + ")"@,
                    pattern: pattern@,
                    threshold: timeout as int / PING_FREQUENCY as int,
                })
            },
    {
        let start_m = match Matcher::new_anchored(start) {
            Ok(m) => m,
            Err(PatternError::Invalid) => {
                return Err(ConfigError::StartPattern);
            },
        };
        let pattern_m = match Matcher::new(pattern) {
            Ok(m) => m,
            Err(PatternError::Invalid) => {
                return Err(ConfigError::ContentPattern);
            },
        };
        let a = Assembler {
            start: start_m,
            pattern: pattern_m,
            threshold: timeout / (PING_FREQUENCY as i32),
            buf: Vec::new(),
            pings: 0,
            done: false,
        };
        proof {
            assert(line_views(Seq::<String>::empty()) =~= Seq::<Seq<char>>::empty());
            assert(a@ == init_state());
        }
        Ok(a)
    }

    /// Whether the terminal `Eof` event has been processed.
    pub fn is_done(&self) -> (r: bool)
        ensures
            r == self@.done,
    {
        self.done
    }

    /// Process one event, returning the joined text of the record this
    /// transition emits, if any. The new state and the emitted record are
    /// exactly those of the model's transition function `step`.
    pub fn handle(&mut self, cmd: Command) -> (out: Option<String>)
        requires
            old(self).wf(),
        ensures
            final(self).wf(),
            final(self).cfg() == old(self).cfg(),
            final(self)@ == step(old(self).cfg(), old(self)@, cmd@).state,
            (match out {
                Some(s) => Some(s@),
                None => None,
            }) == joined(step(old(self).cfg(), old(self)@, cmd@).output),
    {
        if self.done {
            return None;
        }
        match cmd {
            Command::Line { content } => {
                let ghost old_buf = self.buf@;
                let is_marker = self.start.is_match(content.as_str());
                let out = if is_marker {
                    let o = flush(&mut self.buf, &self.pattern);
                    proof {
                        assert(self.buf@ =~= Seq::<String>::empty());
                    }
                    o
                } else {
                    None
                };
                self.buf.push(content);
                self.pings = 0;
                proof {
                    if is_marker {
                        assert(line_views(self.buf@) =~= seq![content@]);
                    } else {
                        assert(line_views(self.buf@) =~= line_views(old_buf).push(content@));
                    }
                }
                out
            },
            Command::Ping => {
                self.pings = self.pings + 1;
                if self.pings > self.threshold {
                    let out = flush(&mut self.buf, &self.pattern);
                    self.pings = 0;
                    proof {
                        assert(line_views(self.buf@) =~= Seq::<Seq<char>>::empty());
                    }
                    out
                } else {
                    None
                }
            },
            Command::Eof => {
                self.done = true;
                let out = flush(&mut self.buf, &self.pattern);
                self.pings = 0;
                proof {
                    assert(line_views(self.buf@) =~= Seq::<Seq<char>>::empty());
                }
                out
            },
        }
    }

    /// Process a whole sequence of events in order, collecting the joined
    /// texts of the emitted records: the executable counterpart of the
    /// model's `run`, and so covered by the laws proved about it.
    pub fn run_commands(&mut self, cmds: Vec<Command>) -> (outs: Vec<String>)
        requires
            old(self).wf(),
        ensures
            final(self).wf(),
            final(self).cfg() == old(self).cfg(),
            final(self)@ == run(old(self).cfg(), old(self)@, command_views(cmds@)).state,
            line_views(outs@) == joined_records(
                run(old(self).cfg(), old(self)@, command_views(cmds@)).outputs,
            ),
    {
        let ghost cfg0 = self.cfg();
        let ghost st0 = self@;
        let ghost all_evs = command_views(cmds@);
        let ghost seen: Seq<Event> = Seq::empty();
        let mut rest = cmds;
        let mut outs: Vec<String> = Vec::new();
        proof {
            assert(line_views(Seq::<String>::empty()) =~= Seq::<Seq<char>>::empty());
            assert(joined_records(Seq::<Seq<Seq<char>>>::empty()) =~= Seq::<Seq<char>>::empty());
            assert(seen + command_views(rest@) =~= all_evs);
        }
        while rest.len() > 0
            invariant
                self.wf(),
                self.cfg() == cfg0,
                seen + command_views(rest@) == all_evs,
                self@ == run(cfg0, st0, seen).state,
                line_views(outs@) == joined_records(run(cfg0, st0, seen).outputs),
            decreases rest@.len(),
        {
            let cmd = rest.remove(0);
            let ghost ev = cmd@;
            let out = self.handle(cmd);
            proof {
                lemma_run_snoc(cfg0, st0, seen, ev);
            }
            let ghost prev_outs = outs@;
            match out {
                Some(record) => {
                    outs.push(record);
                },
                None => {},
            }
            proof {
                let prev = run(cfg0, st0, seen);
                let last = step(cfg0, prev.state, ev);
                seen = seen.push(ev);
                match last.output {
                    Some(rec) => {
                        assert(prev.outputs + seq![rec] =~= prev.outputs.push(rec));
                        assert(joined_records(prev.outputs.push(rec)) =~= joined_records(
                            prev.outputs,
                        ).push(spec_join(rec)));
                        assert(line_views(outs@) =~= line_views(prev_outs).push(spec_join(rec)));
                    },
                    None => {
                        assert(prev.outputs + Seq::<Seq<Seq<char>>>::empty() =~= prev.outputs);
                    },
                }
                assert(seen + command_views(rest@) =~= all_evs);
            }
        }
        proof {
            assert(seen =~= all_evs);
        }
        outs
    }
}

} // verus!
