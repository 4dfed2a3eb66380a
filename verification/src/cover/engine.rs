//! The cover engine's decisions: when to start an activity module, when to ask
//! it for its next frame, and what each step does to the terminal.
use vstd::prelude::*;
use crate::cover::frame::CoverFrame;
use crate::cover::op::CoverOp;
use crate::cover::terminal::{
    CoverTerminal, TermState, apply_all_spec, new_line_spec, write_spec, term_state_ok, lemma_ops_keep_newest_lines,
    lemma_ops_keep_history_bounded,
};
use crate::highlight::analyzer::string_from_str;
use crate::cover::terminal::string_push_str;

verus! {

broadcast use vstd::string::group_string_axioms;

/// What the output width of the cover screen is.
#[derive(Debug, Clone, Copy, PartialEq, Eq)]
pub struct CoverContext {
    pub output_width: usize,
}

/// What a tick should do.
#[derive(Debug, Clone, Copy, PartialEq, Eq, Structural)]
pub enum TickAction {
    /// It is not time for the next step yet.
    Wait,
    /// No module runs: start a random one.
    StartModule,
    /// Ask the running module for its next frame.
    NextFrame,
}

pub struct CoverEngine {
    terminal: CoverTerminal,
    module_running: bool,
    next_step_at: u64,
}

/// The line announcing a module: `$ ` and its signature.
pub open spec fn prompt_line(signature: Seq<char>) -> Seq<char> {
    "$ "@ + signature
}

/// An engine in mathematical terms: its terminal, whether a module runs, and
/// when (in milliseconds) the next step is due.
pub struct EngineView {
    pub terminal: TermState,
    pub running: bool,
    pub next_step: nat,
}

/// What the activity modules answered a tick: the signature of the module the
/// registry started (`None`: there was none to start), or the running module's
/// next frame (`None`: it has finished).
pub enum ModuleReply {
    Started(Option<String>),
    Frame(Option<CoverFrame>),
}

/// Why a tick could not be carried out: the terminal has no line numbers left
/// for what was to be written, or the next due time would pass the largest time.
#[derive(Debug, Clone, Copy, PartialEq, Eq, Structural)]
pub enum TickFault {
    LinesExhausted,
    DueTimeOverflow,
}

/// What a due tick asks the modules: a frame while a module runs, else to start one.
pub open spec fn asked_action(running: bool) -> TickAction {
    if running { TickAction::NextFrame } else { TickAction::StartModule }
}

/// The module started, as `tick_effect` takes it.
pub open spec fn reply_started(r: ModuleReply) -> Option<Seq<char>> {
    match r {
        ModuleReply::Started(Some(s)) => Some(s@),
        _ => None,
    }
}

/// The frame given, as `tick_effect` takes it.
pub open spec fn reply_frame(r: ModuleReply) -> Option<CoverFrame> {
    match r {
        ModuleReply::Frame(f) => f,
        _ => None,
    }
}

/// The fault, if any, in carrying out `reply` at `now` with `room` line numbers
/// left.
pub open spec fn reply_fault(reply: ModuleReply, room: int, now: nat) -> Option<TickFault> {
    match reply {
        ModuleReply::Started(Some(_)) => if room > 1 { None } else { Some(TickFault::LinesExhausted) },
        ModuleReply::Frame(Some(f)) => if f.ops@.len() >= room {
            Some(TickFault::LinesExhausted)
        } else if now + f.delay_ms > u64::MAX {
            Some(TickFault::DueTimeOverflow)
        } else {
            None
        },
        _ => None,
    }
}

/// What one tick at `now` does: before the due time nothing; with no module
/// running, the module the registry started (its signature, or `None` when there
/// was none) is announced with a `$ ` line and runs from now on; with a module
/// running, its frame is applied in order and the next step is due after the
/// frame's delay, or, when it gave no frame, the module is dropped.
pub open spec fn tick_effect(e: EngineView, now: nat, started: Option<Seq<char>>, frame: Option<CoverFrame>) -> EngineView {
    if now < e.next_step {
        e
    } else if !e.running {
        match started {
            None => e,
            Some(sig) => EngineView {
                terminal: new_line_spec(write_spec(e.terminal, prompt_line(sig))),
                running: true,
                next_step: now,
            },
        }
    } else {
        match frame {
            None => EngineView { running: false, ..e },
            Some(f) => EngineView {
                terminal: apply_all_spec(e.terminal, f.ops@),
                next_step: (now + f.delay_ms) as nat,
                ..e
            },
        }
    }
}

/// Law: a tick keeps the terminal's history between one and its capacity of
/// lines, the cursor on a kept line, and it never leaves a running module due
/// before the tick's time.
pub proof fn lemma_tick_keeps_terminal_sound(
    e: EngineView,
    now: nat,
    started: Option<Seq<char>>,
    frame: Option<CoverFrame>,
)
    requires
        term_state_ok(e.terminal),
    ensures
        ({
            let after = tick_effect(e, now, started, frame);
            &&& term_state_ok(after.terminal)
            &&& after.terminal.max_lines == e.terminal.max_lines
            &&& now >= e.next_step && after.running ==> after.next_step >= now
        }),
{
    if now >= e.next_step {
        if !e.running {
            if let Some(sig) = started {
                let w = write_spec(e.terminal, prompt_line(sig));
                assert(term_state_ok(w));
                lemma_ops_keep_history_bounded(w, CoverOp::NewLine);
            }
        } else if let Some(f) = frame {
            lemma_ops_keep_newest_lines(e.terminal, f.ops@);
        }
    }
}

impl CoverEngine {
    pub closed spec fn terminal_state(&self) -> TermState {
        self.terminal.state()
    }

    /// The engine in mathematical terms.
    pub open spec fn engine_view(&self) -> EngineView {
        EngineView {
            terminal: self.terminal_state(),
            running: self.running_spec(),
            next_step: self.next_step_spec() as nat,
        }
    }

    pub closed spec fn running_spec(&self) -> bool {
        self.module_running
    }

    /// Time (in milliseconds) of the next step.
    pub closed spec fn next_step_spec(&self) -> u64 {
        self.next_step_at
    }

    pub closed spec fn wf(&self) -> bool {
        self.terminal.wf()
    }

    /// Room left for new lines before line numbers run out.
    pub closed spec fn line_room(&self) -> int {
        u64::MAX - (self.terminal.first_line_spec() + self.terminal.lines_spec().len())
    }

    /// An engine with an empty terminal keeping `max_lines` lines, due to start a
    /// module at `now_ms`.
    pub fn new(max_lines: usize, now_ms: u64) -> (e: CoverEngine)
        ensures
            e.wf(),
            !e.running_spec(),
            e.next_step_spec() == now_ms,
            e.terminal_state().lines == seq![Seq::<char>::empty()],
            e.terminal_state().first == 0,
            e.terminal_state().cursor == 0,
            e.terminal_state().view is None,
            e.terminal_state().max_lines == if max_lines >= 1 { max_lines as nat } else { 1 },
            e.line_room() == u64::MAX - 1,
    {
        CoverEngine { terminal: CoverTerminal::new(max_lines), module_running: false, next_step_at: now_ms }
    }

    /// What a tick at `now_ms` should do.
    pub fn next_action(&self, now_ms: u64) -> (a: TickAction)
        ensures
            a == if now_ms < self.next_step_spec() {
                TickAction::Wait
            } else if !self.running_spec() {
                TickAction::StartModule
            } else {
                TickAction::NextFrame
            },
    {
        if now_ms < self.next_step_at {
            TickAction::Wait
        } else if !self.module_running {
            TickAction::StartModule
        } else {
            TickAction::NextFrame
        }
    }

    /// One tick at `now_ms`. Before the due time nothing happens and `modules` is
    /// not asked. Otherwise `modules` is asked once: with no module running, to
    /// start one (`StartModule`); else for the running module's next frame
    /// (`NextFrame`). The engine then changes as `tick_effect` says, unless the
    /// answer cannot be carried out, which is reported and changes nothing.
    pub fn tick<F: FnOnce(TickAction) -> ModuleReply>(&mut self, now_ms: u64, modules: F) -> (r: Result<(), TickFault>)
        requires
            old(self).wf(),
            call_requires(modules, (TickAction::StartModule,)),
            call_requires(modules, (TickAction::NextFrame,)),
            forall|a: TickAction, reply: ModuleReply|
                #[trigger] call_ensures(modules, (a,), reply) ==> (a == TickAction::StartModule <==> reply is Started),
        ensures
            final(self).wf(),
            now_ms < old(self).next_step_spec() ==> r is Ok && final(self).engine_view() == old(self).engine_view(),
            now_ms >= old(self).next_step_spec() ==> exists|reply: ModuleReply|
                {
                    &&& #[trigger] call_ensures(
                        modules,
                        (asked_action(old(self).running_spec()),),
                        reply,
                    )
                    &&& match reply_fault(reply, old(self).line_room(), now_ms as nat) {
                        None => r is Ok && final(self).engine_view() == tick_effect(
                            old(self).engine_view(),
                            now_ms as nat,
                            reply_started(reply),
                            reply_frame(reply),
                        ),
                        Some(fault) => r == Err::<(), TickFault>(fault) && final(self).engine_view()
                            == old(self).engine_view(),
                    }
                },
    {
        let action = self.next_action(now_ms);
        match action {
            TickAction::Wait => Ok(()),
            TickAction::StartModule => {
                let reply = modules(TickAction::StartModule);
                let ghost g = reply;
                assert(call_ensures(modules, (TickAction::StartModule,), g));
                match reply {
                    ModuleReply::Started(Some(sig)) => {
                        if self.line_room_left() <= 1 {
                            return Err(TickFault::LinesExhausted);
                        }
                        self.start_module(Some(sig.as_str()), now_ms);
                        Ok(())
                    },
                    ModuleReply::Started(None) => {
                        self.start_module(None, now_ms);
                        Ok(())
                    },
                    ModuleReply::Frame(_) => Ok(()),
                }
            },
            TickAction::NextFrame => {
                let reply = modules(TickAction::NextFrame);
                let ghost g = reply;
                assert(call_ensures(modules, (TickAction::NextFrame,), g));
                match reply {
                    ModuleReply::Frame(frame) => {
                        match &frame {
                            Some(f) => {
                                let room = self.line_room_left();
                                if f.ops.len() as u64 >= room {
                                    return Err(TickFault::LinesExhausted);
                                }
                                if f.delay_ms > u64::MAX - now_ms {
                                    return Err(TickFault::DueTimeOverflow);
                                }
                            },
                            None => {},
                        }
                        self.finish_step(frame, now_ms);
                        Ok(())
                    },
                    ModuleReply::Started(_) => Ok(()),
                }
            },
        }
    }

    /// Starts the module with `signature`, announcing it with a `$ signature`
    /// line; with no module to start (`None`) nothing happens.
    pub fn start_module(&mut self, signature: Option<&str>, now_ms: u64)
        requires
            old(self).wf(),
            signature is Some ==> old(self).line_room() > 1,
        ensures
            final(self).wf(),
            match signature {
                None => *final(self) == *old(self),
                Some(sig) => {
                    &&& final(self).running_spec()
                    &&& final(self).next_step_spec() == now_ms
                    &&& final(self).terminal_state() == new_line_spec(
                        write_spec(old(self).terminal_state(), prompt_line(sig@)),
                    )
                    &&& final(self).line_room() >= old(self).line_room() - 1
                },
            },
            old(self).next_step_spec() <= now_ms && !old(self).running_spec() ==> final(self).engine_view()
                == tick_effect(
                old(self).engine_view(),
                now_ms as nat,
                match signature {
                    Some(sig) => Some(sig@),
                    None => None,
                },
                None,
            ),
    {
        match signature {
            None => {}
            Some(sig) => {
                let mut line = string_from_str("$ ");
                string_push_str(&mut line, sig);
                self.terminal.apply(CoverOp::Write(line));
                self.terminal.apply(CoverOp::NewLine);
                self.module_running = true;
                self.next_step_at = now_ms;
            }
        }
    }

    /// Runs the module's answer: a frame is executed and the next step is due
    /// after its delay; no frame means the module has finished.
    pub fn finish_step(&mut self, frame: Option<CoverFrame>, now_ms: u64)
        requires
            old(self).wf(),
            match frame {
                Some(f) => f.ops@.len() < old(self).line_room() && now_ms + f.delay_ms <= u64::MAX,
                None => true,
            },
        ensures
            final(self).wf(),
            match frame {
                None => {
                    &&& !final(self).running_spec()
                    &&& final(self).terminal_state() == old(self).terminal_state()
                    &&& final(self).next_step_spec() == old(self).next_step_spec()
                    &&& final(self).line_room() == old(self).line_room()
                },
                Some(f) => {
                    &&& final(self).running_spec() == old(self).running_spec()
                    &&& final(self).terminal_state() == apply_all_spec(old(self).terminal_state(), f.ops@)
                    &&& final(self).next_step_spec() == now_ms + f.delay_ms
                    &&& final(self).line_room() >= old(self).line_room() - f.ops@.len()
                },
            },
            old(self).next_step_spec() <= now_ms && old(self).running_spec() ==> final(self).engine_view()
                == tick_effect(old(self).engine_view(), now_ms as nat, None, frame),
    {
        match frame {
            None => {
                self.module_running = false;
            }
            Some(frame) => {
                self.execute_frame(frame, now_ms);
            }
        }
    }

    fn execute_frame(&mut self, frame: CoverFrame, now_ms: u64)
        requires
            old(self).wf(),
            frame.ops@.len() < old(self).line_room(),
            now_ms + frame.delay_ms <= u64::MAX,
        ensures
            final(self).wf(),
            final(self).running_spec() == old(self).running_spec(),
            final(self).terminal_state() == apply_all_spec(old(self).terminal_state(), frame.ops@),
            final(self).next_step_spec() == now_ms + frame.delay_ms,
            final(self).line_room() >= old(self).line_room() - frame.ops@.len(),
    {
        let ghost ops = frame.ops@;
        let ghost start = self.terminal.state();
        let ghost room0 = self.line_room();
        let mut i: usize = 0;
        let n: usize = frame.ops.len();
        let delay_ms: u64 = frame.delay_ms;
        assert(ops.skip(0) =~= ops);
        let mut remaining = frame.ops;
        while i < n
            invariant
                n == ops.len(),
                i <= n,
                self.terminal.wf(),
                self.module_running == old(self).module_running,
                self.terminal.state() == apply_all_spec(start, ops.take(i as int)),
                self.line_room() >= room0 - i,
                room0 > n,
                remaining@ == ops.skip(i as int),
            decreases n - i,
        {
            let op = remaining.remove(0);
            assert(op == ops[i as int]);
            assert(remaining@ =~= ops.skip(i + 1));
            self.terminal.apply(op);
            assert(ops.take(i + 1).drop_last() =~= ops.take(i as int));
            i = i + 1;
        }
        assert(ops.take(n as int) =~= ops);
        self.next_step_at = now_ms + delay_ms;
    }

    /// The terminal, for drawing.
    pub fn terminal(&self) -> (t: &CoverTerminal)
        ensures
            t.state() == self.terminal_state(),
            self.wf() ==> t.wf(),
    {
        &self.terminal
    }

    /// The terminal, for scrolling.
    pub fn terminal_mut(&mut self) -> (t: &mut CoverTerminal)
        ensures
            t.state() == old(self).terminal_state(),
            final(self).terminal_state() == final(t).state(),
            final(self).running_spec() == old(self).running_spec(),
            final(self).next_step_spec() == old(self).next_step_spec(),
            final(self).wf() == final(t).wf(),
            old(self).wf() ==> t.wf(),
    {
        &mut self.terminal
    }

    /// Room left for new lines, as `line_room` counts it.
    pub fn line_room_left(&self) -> (n: u64)
        requires
            self.wf(),
        ensures
            n == self.line_room(),
    {
        self.terminal.line_numbers_left()
    }

    /// Whether a module is running.
    pub fn has_module(&self) -> (b: bool)
        ensures
            b == self.running_spec(),
    {
        self.module_running
    }
}

} // verus!
