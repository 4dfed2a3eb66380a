use reading_cli::cover::engine::{CoverContext, CoverEngine, ModuleReply, TickAction, TickFault};
use reading_cli::cover::frame::CoverFrame;
use reading_cli::cover::module::CoverModule;
use reading_cli::cover::modules::cargo::{CargoModule, CargoStep, Package};
use reading_cli::cover::modules::download::{progress_frame, DownloadModule, DownloadStep};
use reading_cli::cover::modules::weblog::WeblogModule;
use reading_cli::cover::op::CoverOp;
use reading_cli::cover::registry::CoverRegistry;
use reading_cli::cover::terminal::{wrap_line_exec, CoverTerminal};

fn visible_lines(terminal: &CoverTerminal, height: usize) -> Vec<String> {
    terminal.visible_rows(100, height)
}

#[test]
fn terminal_executes_write_erase_and_cursor_operations() {
    let mut terminal = CoverTerminal::new(10);

    terminal.apply(CoverOp::Write("first".to_string()));
    terminal.apply(CoverOp::NewLine);
    terminal.apply(CoverOp::Write("second".to_string()));
    terminal.apply(CoverOp::CursorUp(1));
    terminal.apply(CoverOp::EraseLine);
    terminal.apply(CoverOp::Write("replaced".to_string()));

    assert_eq!(visible_lines(&terminal, 10), ["replaced", "second"]);
}

#[test]
fn terminal_trims_old_lines_at_its_history_limit() {
    let mut terminal = CoverTerminal::new(3);

    for (index, line) in ["one", "two", "three", "four"].into_iter().enumerate() {
        if index > 0 {
            terminal.apply(CoverOp::NewLine);
        }
        terminal.apply(CoverOp::Write(line.to_string()));
    }

    assert_eq!(visible_lines(&terminal, 10), ["two", "three", "four"]);
}

#[test]
fn terminal_scrolls_history_and_returns_to_follow_mode() {
    let mut terminal = CoverTerminal::new(10);

    for (index, line) in ["zero", "one", "two", "three", "four"].into_iter().enumerate() {
        if index > 0 {
            terminal.apply(CoverOp::NewLine);
        }
        terminal.apply(CoverOp::Write(line.to_string()));
    }

    assert_eq!(visible_lines(&terminal, 2), ["three", "four"]);

    terminal.scroll_up(1, 100, 2);
    assert_eq!(visible_lines(&terminal, 2), ["two", "three"]);

    terminal.scroll_down(1, 100, 2);
    assert_eq!(visible_lines(&terminal, 2), ["three", "four"]);
}

#[test]
fn terminal_wraps_long_lines_to_the_current_width() {
    let mut terminal = CoverTerminal::new(10);
    terminal.apply(CoverOp::Write("abcdefghij".to_string()));

    assert_eq!(terminal.visible_rows(4, 10), ["abcd", "efgh", "ij"]);
}

#[test]
fn terminal_wraps_wide_unicode_characters_by_display_width() {
    let mut terminal = CoverTerminal::new(10);
    terminal.apply(CoverOp::Write("一二三A".to_string()));

    assert_eq!(terminal.visible_rows(4, 10), ["一二", "三A"]);
}

#[test]
fn terminal_reflows_existing_lines_after_resize() {
    let mut terminal = CoverTerminal::new(10);
    terminal.apply(CoverOp::Write("abcdefghij".to_string()));

    assert_eq!(terminal.visible_rows(6, 10), ["abcdef", "ghij"]);
    assert_eq!(terminal.visible_rows(3, 10), ["abc", "def", "ghi", "j"]);
}

#[test]
fn terminal_scrolls_by_visual_rows() {
    let mut terminal = CoverTerminal::new(10);
    terminal.apply(CoverOp::Write("abcdefghijkl".to_string()));

    assert_eq!(terminal.visible_rows(4, 2), ["efgh", "ijkl"]);

    terminal.scroll_up(1, 4, 2);
    assert_eq!(terminal.visible_rows(4, 2), ["abcd", "efgh"]);

    terminal.scroll_down(1, 4, 2);
    assert_eq!(terminal.visible_rows(4, 2), ["efgh", "ijkl"]);
}

#[test]
fn frame_keeps_operations_and_delay_together() {
    let frame = CoverFrame::new(vec![CoverOp::Write("line".to_string()), CoverOp::NewLine], 250);

    assert_eq!(frame.ops.len(), 2);
    assert_eq!(frame.delay_ms, 250);
}

struct OneShotModule {
    emitted: bool,
}

impl CoverModule for OneShotModule {
    fn name(&self) -> &'static str {
        "one-shot"
    }

    fn signature(&self) -> String {
        "one-shot".to_string()
    }

    fn next_frame(&mut self, _context: &CoverContext) -> Option<CoverFrame> {
        if self.emitted {
            return None;
        }
        self.emitted = true;
        Some(CoverFrame::new(vec![CoverOp::Write("frame".to_string()), CoverOp::NewLine], 0))
    }
}

fn create_one_shot_module() -> OneShotModule {
    OneShotModule { emitted: false }
}

#[test]
fn registry_creates_registered_modules() {
    let mut registry: CoverRegistry<fn() -> OneShotModule> = CoverRegistry::new();
    registry.register("one-shot", create_one_shot_module);

    assert_eq!(registry.names(), ["one-shot"]);
    let picked = registry.pick_random().unwrap();
    assert_eq!((registry.factory_at(picked))().name(), "one-shot");
}

fn tick(
    engine: &mut CoverEngine,
    registry: &CoverRegistry<fn() -> OneShotModule>,
    module: &mut Option<OneShotModule>,
    now: u64,
) {
    let context = CoverContext { output_width: 80 };
    engine
        .tick(now, |asked| match asked {
            TickAction::StartModule => ModuleReply::Started(registry.pick_random().map(|index| {
                let started = (registry.factory_at(index))();
                let signature = started.signature();
                *module = Some(started);
                signature
            })),
            _ => {
                let frame = module.as_mut().and_then(|m| m.next_frame(&context));
                if frame.is_none() {
                    *module = None;
                }
                ModuleReply::Frame(frame)
            }
        })
        .unwrap();
}

#[test]
fn engine_runs_a_module_and_starts_another_after_it_finishes() {
    let mut registry: CoverRegistry<fn() -> OneShotModule> = CoverRegistry::new();
    registry.register("one-shot", create_one_shot_module);

    let now = 1_000;
    let mut engine = CoverEngine::new(20, now);
    let mut module = None;

    tick(&mut engine, &registry, &mut module, now);
    tick(&mut engine, &registry, &mut module, now);
    tick(&mut engine, &registry, &mut module, now);
    tick(&mut engine, &registry, &mut module, now);

    assert_eq!(visible_lines(engine.terminal(), 20), ["$ one-shot", "frame", "$ one-shot", ""]);
}

#[test]
fn engine_waits_for_the_frame_delay() {
    let mut engine = CoverEngine::new(20, 100);
    assert_eq!(engine.next_action(99), TickAction::Wait);
    assert_eq!(engine.next_action(100), TickAction::StartModule);
    engine.start_module(Some("demo"), 100);
    assert!(engine.has_module());
    assert_eq!(engine.next_action(100), TickAction::NextFrame);
    engine.finish_step(Some(CoverFrame::new(vec![CoverOp::Write("x".to_string())], 250)), 100);
    assert_eq!(engine.next_action(349), TickAction::Wait);
    assert_eq!(engine.next_action(350), TickAction::NextFrame);
    engine.finish_step(None, 350);
    assert!(!engine.has_module());
    assert_eq!(engine.next_action(350), TickAction::StartModule);
}

fn packages() -> Vec<Package> {
    vec![
        Package { name: "serde".to_string(), version: "1.0.3".to_string() },
        Package { name: "rand".to_string(), version: "0.9.1".to_string() },
        Package { name: "clap".to_string(), version: "4.5.0".to_string() },
    ]
}

#[test]
fn cargo_module_runs_all_stages_and_finishes() {
    let mut module = CargoModule::new(packages());
    let mut output = String::new();
    let mut frame_count = 0;

    while let Some(step) = module.next_frame() {
        frame_count += 1;
        assert!(frame_count <= 200);

        match step {
            CargoStep::Frame(frame) => {
                assert!((100..2000).contains(&frame.delay_ms));
                for op in frame.ops {
                    if let CoverOp::Write(text) = op {
                        output.push_str(&text);
                        output.push('\n');
                    }
                }
            }
            CargoStep::Finished => output.push_str("    Finished release\n"),
        }
    }

    assert!(output.contains("Downloading"));
    assert!(output.contains("Compiling"));
    assert!(output.contains("Finished"));
    assert_eq!(frame_count, 7);
}

#[test]
fn cargo_module_lines_follow_the_package_order() {
    let mut module = CargoModule::new(packages());
    let mut lines = Vec::new();
    while let Some(step) = module.next_frame() {
        match step {
            CargoStep::Frame(frame) => {
                if let CoverOp::Write(text) = &frame.ops[0] {
                    lines.push(text.clone());
                }
                assert_eq!(frame.ops[1], CoverOp::NewLine);
            }
            CargoStep::Finished => lines.push("finished".to_string()),
        }
    }
    assert_eq!(
        lines,
        [
            " Downloading serde v1.0.3",
            " Downloading rand v0.9.1",
            " Downloading clap v4.5.0",
            "   Compiling serde v1.0.3",
            "   Compiling rand v0.9.1",
            "   Compiling clap v4.5.0",
            "finished",
        ]
    );
    assert!(module.next_frame().is_none());
}

#[test]
fn cargo_module_without_packages_only_finishes() {
    let mut module = CargoModule::new(Vec::new());
    assert!(matches!(module.next_frame(), Some(CargoStep::Finished)));
    assert!(module.next_frame().is_none());
}

#[test]
fn weblog_module_generates_http_lines_and_finishes() {
    let mut module = WeblogModule::new();
    let mut frame_count = 0;

    while let Some(frame) = module.next_frame("127.0.0.1 - - \"GET /index.html HTTP/1.0\" 200 512".to_string()) {
        frame_count += 1;
        assert!(frame_count < 200);
        assert!(frame.ops.iter().any(|op| matches!(op, CoverOp::Write(text) if text.contains("HTTP/1.0"))));
        assert!(frame.delay_ms == 30 || (10..1000).contains(&frame.delay_ms));
    }

    assert!((50..200).contains(&frame_count));
    assert!(module.is_done());
}

#[test]
fn download_module_produces_an_in_place_progress_frame() {
    let mut module = DownloadModule::new("zip".to_string());
    let step = module.next_frame(100, "archive.zip".to_string()).expect("download frame");
    let progress = match step {
        DownloadStep::Progress(progress) => progress,
        DownloadStep::Notice(_) => panic!("a wide window shows progress"),
    };

    assert_eq!(progress.file_name, "archive.zip");
    assert_eq!(progress.file_name_width, 22);
    assert_eq!(progress.progress_width, 30);
    assert_eq!(progress.displayed_bytes, 0);
    assert!((30_000_000..300_000_000).contains(&progress.file_bytes));
    assert!(progress.actual_speed >= 5_000_000 && progress.actual_speed < 105_000_000);
    assert_eq!(progress.bytes_incoming, progress.actual_speed / 1000 * 50);
    assert_eq!(progress.eta_secs, progress.file_bytes / progress.actual_speed);
    assert!(!progress.completed);

    let line = format!("{} eta {}s", progress.file_name, progress.eta_secs);
    let frame = progress_frame(line, progress.completed);
    assert!(matches!(frame.ops.first(), Some(CoverOp::EraseLine)));
    assert!(frame.ops.iter().any(|op| matches!(op, CoverOp::Write(text) if text.contains("eta"))));
    assert_eq!(frame.delay_ms, 50);
}

#[test]
fn download_module_cuts_long_file_names_to_their_column() {
    let mut module = DownloadModule::new("txt".to_string());
    let name = "a_very_long_file_name_that_does_not_fit.txt";
    match module.next_frame(80, name.to_string()) {
        Some(DownloadStep::Progress(progress)) => {
            assert_eq!(progress.file_name_width, 16);
            assert_eq!(progress.file_name, "a_very_long_file");
            assert_eq!(progress.progress_width, 16);
        }
        _ => panic!("a wide window shows progress"),
    }
}

#[test]
fn download_module_finishes_every_file() {
    let mut module = DownloadModule::new("bin".to_string());
    let mut completed = 0;
    let mut steps = 0;
    while let Some(step) = module.next_frame(120, "data.bin".to_string()) {
        steps += 1;
        assert!(steps < 100_000);
        if let DownloadStep::Progress(progress) = step {
            if progress.completed {
                completed += 1;
                assert_eq!(progress.displayed_bytes, progress.file_bytes);
            }
        }
    }
    assert!((3..10).contains(&completed));
}

#[test]
fn download_module_skips_files_when_the_terminal_is_too_narrow() {
    let mut module = DownloadModule::new("zip".to_string());
    let mut frame_count = 0;

    while let Some(step) = module.next_frame(40, "archive.zip".to_string()) {
        frame_count += 1;
        assert!(frame_count < 10);
        match step {
            DownloadStep::Notice(frame) => {
                assert!(frame
                    .ops
                    .iter()
                    .any(|op| matches!(op, CoverOp::Write(text) if text.contains("Terminal too small"))));
                assert_eq!(frame.delay_ms, 100);
            }
            DownloadStep::Progress(_) => panic!("a narrow window shows no progress"),
        }
    }

    assert!((3..10).contains(&frame_count));
}

#[test]
fn wrapping_keeps_every_character_of_a_line() {
    let line = "一二三abc四";
    let rows = wrap_line_exec(line, 4);
    assert_eq!(rows, ["一二", "三ab", "c四"]);
    assert_eq!(rows.concat(), line);
}

#[test]
fn scrolling_to_the_bottom_follows_the_output_again() {
    let mut terminal = CoverTerminal::new(10);
    for (index, line) in ["a", "b", "c", "d"].into_iter().enumerate() {
        if index > 0 {
            terminal.apply(CoverOp::NewLine);
        }
        terminal.apply(CoverOp::Write(line.to_string()));
    }
    terminal.scroll_up(2, 10, 2);
    assert_eq!(terminal.visible_rows(10, 2), ["a", "b"]);
    terminal.apply(CoverOp::NewLine);
    terminal.apply(CoverOp::Write("e".to_string()));
    assert_eq!(terminal.visible_rows(10, 2), ["a", "b"]);
    terminal.scroll_to_bottom();
    assert_eq!(terminal.visible_rows(10, 2), ["d", "e"]);
}

#[test]
fn scrolling_up_then_down_by_the_same_rows_restores_the_view() {
    let mut terminal = CoverTerminal::new(20);
    for index in 0..8 {
        if index > 0 {
            terminal.apply(CoverOp::NewLine);
        }
        terminal.apply(CoverOp::Write(format!("line {index} with some words")));
    }
    let before = terminal.visible_rows(10, 3);
    terminal.scroll_up(4, 10, 3);
    assert_ne!(terminal.visible_rows(10, 3), before);
    terminal.scroll_down(4, 10, 3);
    assert_eq!(terminal.visible_rows(10, 3), before);
    terminal.apply(CoverOp::NewLine);
    terminal.apply(CoverOp::Write("newest".to_string()));
    assert_eq!(terminal.visible_rows(10, 3).last().unwrap(), "newest");
}

#[test]
fn a_terminal_keeps_only_its_newest_lines() {
    let mut terminal = CoverTerminal::new(0);
    for index in 0..5 {
        terminal.apply(CoverOp::NewLine);
        terminal.apply(CoverOp::Write(format!("{index}")));
    }
    assert_eq!(terminal.visible_rows(usize::MAX, usize::MAX), ["4"]);

    let mut terminal = CoverTerminal::new(3);
    for index in 0..7 {
        terminal.apply(CoverOp::Write(format!("{index}")));
        terminal.apply(CoverOp::NewLine);
    }
    assert_eq!(terminal.visible_rows(usize::MAX, usize::MAX), ["5", "6", ""]);
}

#[test]
fn a_new_engine_has_almost_every_line_number_left() {
    let engine = CoverEngine::new(10, 0);
    assert_eq!(engine.line_room_left(), u64::MAX - 1);
}

#[test]
fn a_tick_before_the_due_time_asks_nothing_and_changes_nothing() {
    let mut engine = CoverEngine::new(5, 100);
    let mut asked = false;
    assert_eq!(engine.tick(99, |_| { asked = true; ModuleReply::Started(Some("x".to_string())) }), Ok(()));
    assert!(!asked);
    assert!(!engine.has_module());
    assert_eq!(engine.tick(100, |a| { assert_eq!(a, TickAction::StartModule); ModuleReply::Started(Some("demo".to_string())) }), Ok(()));
    assert!(engine.has_module());
    assert_eq!(engine.terminal().visible_rows(20, 5), ["$ demo", ""]);
    let frame = CoverFrame::new(vec![CoverOp::Write("step".to_string())], 40);
    assert_eq!(engine.tick(100, |a| { assert_eq!(a, TickAction::NextFrame); ModuleReply::Frame(Some(frame)) }), Ok(()));
    assert_eq!(engine.next_action(139), TickAction::Wait);
    assert_eq!(engine.next_action(140), TickAction::NextFrame);
    assert_eq!(engine.tick(140, |_| ModuleReply::Frame(None)), Ok(()));
    assert!(!engine.has_module());
    assert_eq!(engine.terminal().visible_rows(20, 5), ["$ demo", "step"]);
}

#[test]
fn a_tick_whose_due_time_would_overflow_is_refused() {
    let mut engine = CoverEngine::new(5, 0);
    engine.tick(0, |_| ModuleReply::Started(Some("demo".to_string()))).unwrap();
    let frame = CoverFrame::new(vec![CoverOp::Write("late".to_string())], u64::MAX);
    assert_eq!(engine.tick(1, |_| ModuleReply::Frame(Some(frame))), Err(TickFault::DueTimeOverflow));
    assert!(engine.has_module());
    assert_eq!(engine.terminal().visible_rows(20, 5), ["$ demo", ""]);
}
