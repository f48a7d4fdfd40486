use guest_profiler::monitor::{Command, Field, ParseError};
use guest_profiler::sampler::{Action, ConfigError, Event, Failure, Phase, Sampler, Settings};
use guest_profiler::symbols::SymbolError;
use guest_profiler::table::format_lines;

fn names(list: &[&str]) -> Vec<String> {
    list.iter().map(|s| s.to_string()).collect()
}

fn reply(text: &str) -> Event {
    Event::Reply(text.as_bytes().to_vec())
}

fn registers(base_pointer: u64) -> Event {
    reply(&format!("RAX=0000000000000000 RBP={:016x} RSP=0000000000001000\r\nRIP={:016x} RFL=00000246\r\n", base_pointer, 0x55a11002000u64))
}

fn memory(at: u64, saved_base_pointer: u64, return_address: u64) -> Event {
    reply(&format!("{:016x}: 0x{:016x} 0x{:016x}\r\n", at, saved_base_pointer, return_address))
}

/// Carries one sample through, from the tick to the answer to `cont`.
fn sample(sampler: &mut Sampler, chain: &[(u64, u64, u64)], groups: Vec<Result<Vec<String>, SymbolError>>) -> Action {
    assert_eq!(sampler.step(Event::Tick), Action::Send(Command::Stop));
    assert_eq!(sampler.step(reply("")), Action::Send(Command::Registers));
    let first = chain.first().map(|f| f.0).unwrap_or(0);
    let mut action = sampler.step(registers(first));
    for (at, saved, ret) in chain {
        assert_eq!(action, Action::Send(Command::Examine(*at)));
        action = sampler.step(memory(*at, *saved, *ret));
    }
    let stack: Vec<u64> = chain.iter().map(|f| f.2).collect();
    assert_eq!(action, Action::Resolve(stack));
    assert_eq!(sampler.step(Event::Resolved(groups)), Action::Send(Command::Cont));
    sampler.step(reply(""))
}

#[test]
fn one_tick_from_registers_to_the_line() {
    let mut sampler = Sampler::new(64, Vec::new());
    assert_eq!(sampler.phase(), Phase::Idle);
    assert_eq!(sampler.step(Event::Tick), Action::Send(Command::Stop));
    assert_eq!(sampler.phase(), Phase::Pausing);
    assert_eq!(sampler.step(reply("")), Action::Send(Command::Registers));
    assert_eq!(
        sampler.step(reply("... RBP=7ffd1234 RIP=55a11002000 ...")),
        Action::Send(Command::Examine(0x7ffd1234))
    );
    assert_eq!(sampler.phase(), Phase::Walking);
    let action = sampler.step(reply("000000007ffd1234: 0x0000000000000000 0x0000055a11002000\r\n"));
    assert_eq!(action, Action::Resolve(vec![0x55a11002000]));
    assert_eq!(sampler.phase(), Phase::Resolving);
    assert_eq!(sampler.depth(), 1);
    let load_offset = 0x55a10000000u64;
    let groups: Vec<Result<Vec<String>, SymbolError>> = [0x55a11002000u64]
        .iter()
        .rev()
        .map(|address| match guest_profiler::symbols::to_file_relative(*address, load_offset) {
            Some(0x1002000) => Ok(names(&["main"])),
            _ => Err(SymbolError::NoFrames),
        })
        .collect();
    assert_eq!(sampler.step(Event::Resolved(groups)), Action::Send(Command::Cont));
    assert_eq!(sampler.phase(), Phase::Resuming);
    assert_eq!(sampler.step(reply("")), Action::AwaitTick);
    assert_eq!(sampler.phase(), Phase::Idle);
    assert_eq!(sampler.step(Event::Shutdown), Action::Finish);
    assert_eq!(sampler.phase(), Phase::Finished);
    let lines = format_lines(&sampler.into_table().drain());
    assert_eq!(lines, vec!["main 1".to_string()]);
}

#[test]
fn samples_of_the_same_stack_are_counted_together() {
    let patterns = vec![names(&["a", "b"])];
    let mut sampler = Sampler::new(64, patterns);
    let chain = [(0x100, 0x200, 0x11), (0x200, 0x300, 0x22), (0x300, 0, 0x33)];
    let deep = vec![Ok(names(&["main"])), Ok(names(&["a", "b", "a"])), Ok(names(&["b", "leaf"]))];
    let flat = vec![Ok(names(&["main"])), Ok(names(&["a", "b"])), Ok(names(&["leaf"]))];
    let other = vec![Ok(names(&["main"])), Err(SymbolError::LookupFailed), Ok(names(&["leaf"]))];
    assert_eq!(sample(&mut sampler, &chain, deep), Action::AwaitTick);
    assert_eq!(sample(&mut sampler, &chain, flat), Action::AwaitTick);
    assert_eq!(sample(&mut sampler, &chain, other), Action::AwaitTick);
    assert_eq!(sampler.depth(), 3);
    assert_eq!(sampler.table().count(&"main;a;b;leaf".to_string()), 2);
    assert_eq!(sampler.table().count(&"main;???;leaf".to_string()), 1);
    assert_eq!(sampler.table().total(), 3);
    assert_eq!(sampler.step(Event::Shutdown), Action::Finish);
    let mut lines = format_lines(&sampler.into_table().drain());
    lines.sort();
    assert_eq!(lines, vec!["main;???;leaf 1".to_string(), "main;a;b;leaf 2".to_string()]);
}

#[test]
fn a_zero_base_pointer_is_a_sample_of_the_empty_stack() {
    let mut sampler = Sampler::new(64, Vec::new());
    assert_eq!(sample(&mut sampler, &[], Vec::new()), Action::AwaitTick);
    assert_eq!(sampler.table().count(&String::new()), 1);
    assert_eq!(sampler.depth(), 0);
}

#[test]
fn shutdown_between_samples_ends_the_run_at_once() {
    let mut sampler = Sampler::new(8, Vec::new());
    assert_eq!(sampler.step(Event::Shutdown), Action::Finish);
    assert_eq!(sampler.phase(), Phase::Finished);
    assert_eq!(sampler.step(Event::Tick), Action::Finish);
    assert_eq!(sampler.step(reply("x")), Action::Finish);
    assert_eq!(sampler.step(Event::ChannelFailed), Action::Finish);
    assert!(sampler.into_table().drain().is_empty());
}

#[test]
fn shutdown_in_a_sample_lets_the_guest_go_first() {
    let chain = [(0x100u64, 0u64, 0x11u64)];
    for when in 0..5 {
        let mut sampler = Sampler::new(8, Vec::new());
        assert_eq!(sample(&mut sampler, &chain, vec![Ok(names(&["main"]))]), Action::AwaitTick);
        assert_eq!(sample(&mut sampler, &chain, vec![Ok(names(&["idle"]))]), Action::AwaitTick);
        let mut events = vec![
            Event::Tick,
            reply(""),
            registers(0x100),
            memory(0x100, 0, 0x11),
            Event::Resolved(vec![Ok(names(&["main"]))]),
        ];
        let expected = vec![
            Action::Send(Command::Stop),
            Action::Send(Command::Registers),
            Action::Send(Command::Examine(0x100)),
            Action::Resolve(vec![0x11]),
            Action::Send(Command::Cont),
        ];
        let mut actions = Vec::new();
        for (i, event) in events.drain(..).enumerate() {
            actions.push(sampler.step(event));
            if i == when {
                assert_eq!(sampler.step(Event::Shutdown), Action::Wait);
                assert_eq!(sampler.step(Event::Tick), Action::Wait);
            }
        }
        assert_eq!(actions, expected);
        assert_eq!(sampler.phase(), Phase::Resuming);
        assert_eq!(sampler.step(reply("")), Action::Finish);
        assert_eq!(sampler.phase(), Phase::Finished);
        let mut lines = format_lines(&sampler.into_table().drain());
        lines.sort();
        assert_eq!(lines, vec!["idle 1".to_string(), "main 2".to_string()]);
    }
}

#[test]
fn a_failure_keeps_what_was_counted() {
    let chain = [(0x100u64, 0u64, 0x11u64)];
    let mut sampler = Sampler::new(8, Vec::new());
    assert_eq!(sample(&mut sampler, &chain, vec![Ok(names(&["main"]))]), Action::AwaitTick);
    assert_eq!(sampler.step(Event::Tick), Action::Send(Command::Stop));
    assert_eq!(sampler.step(Event::ChannelFailed), Action::Abort(Failure::Channel));
    assert_eq!(sampler.phase(), Phase::Failed(Failure::Channel));
    assert_eq!(sampler.step(Event::Tick), Action::Abort(Failure::Channel));
    assert_eq!(sampler.step(Event::Shutdown), Action::Abort(Failure::Channel));
    assert_eq!(sampler.table().count(&"main".to_string()), 1);
}

#[test]
fn a_dump_that_cannot_be_read_ends_the_run() {
    let mut sampler = Sampler::new(8, Vec::new());
    sampler.step(Event::Tick);
    sampler.step(reply(""));
    assert_eq!(
        sampler.step(reply("RAX=0 RIP=10")),
        Action::Abort(Failure::Parse(ParseError::Missing(Field::BasePointer)))
    );
    let mut sampler = Sampler::new(8, Vec::new());
    sampler.step(Event::Tick);
    sampler.step(reply(""));
    sampler.step(registers(0x100));
    assert_eq!(sampler.step(reply("short")), Action::Abort(Failure::Parse(ParseError::Truncated)));
    assert_eq!(sampler.phase(), Phase::Failed(Failure::Parse(ParseError::Truncated)));
    let mut sampler = Sampler::new(8, Vec::new());
    sampler.step(Event::Tick);
    sampler.step(reply(""));
    sampler.step(registers(0x100));
    assert_eq!(
        sampler.step(reply("0000000000000100: 0x00000000000000zz 0x0000000000000011")),
        Action::Abort(Failure::Parse(ParseError::Malformed(Field::SavedBasePointer)))
    );
}

#[test]
fn a_chain_that_never_ends_is_given_up() {
    let mut sampler = Sampler::new(3, Vec::new());
    sampler.step(Event::Tick);
    sampler.step(reply(""));
    let mut action = sampler.step(registers(0x100));
    let mut reads = 0;
    while let Action::Send(Command::Examine(at)) = action {
        assert_eq!(at, 0x100);
        reads += 1;
        action = sampler.step(memory(0x100, 0x100, 0x11));
    }
    assert_eq!(reads, 3);
    assert_eq!(action, Action::Abort(Failure::TooDeep));
    assert_eq!(sampler.phase(), Phase::Failed(Failure::TooDeep));
    assert_eq!(sampler.depth(), 3);
    let mut sampler = Sampler::new(0, Vec::new());
    sampler.step(Event::Tick);
    sampler.step(reply(""));
    assert_eq!(sampler.step(registers(0x100)), Action::Abort(Failure::TooDeep));
}

#[test]
fn what_was_not_asked_for_ends_the_run() {
    let mut sampler = Sampler::new(8, Vec::new());
    assert_eq!(sampler.step(reply("")), Action::Abort(Failure::OutOfTurn));
    let mut sampler = Sampler::new(8, Vec::new());
    assert_eq!(sampler.step(Event::Resolved(Vec::new())), Action::Abort(Failure::OutOfTurn));
    let mut sampler = Sampler::new(8, Vec::new());
    sampler.step(Event::Tick);
    assert_eq!(sampler.step(Event::Resolved(Vec::new())), Action::Abort(Failure::OutOfTurn));
    let mut sampler = Sampler::new(8, Vec::new());
    sampler.step(Event::Tick);
    sampler.step(reply(""));
    sampler.step(registers(0));
    assert_eq!(sampler.phase(), Phase::Resolving);
    assert_eq!(sampler.step(reply("")), Action::Abort(Failure::OutOfTurn));
}

#[test]
fn a_tick_in_a_sample_is_passed_over() {
    let mut sampler = Sampler::new(8, Vec::new());
    assert_eq!(sampler.step(Event::Tick), Action::Send(Command::Stop));
    assert_eq!(sampler.step(Event::Tick), Action::Wait);
    assert_eq!(sampler.phase(), Phase::Pausing);
    assert_eq!(sampler.step(reply("")), Action::Send(Command::Registers));
}

#[test]
fn settings_are_checked_in_order() {
    let path = || Some("guest.elf".to_string());
    assert!(matches!(Settings::new(0, None, None, 8, Vec::new()), Err(ConfigError::ZeroFrequency)));
    assert!(matches!(Settings::new(0, path(), Some(1), 8, Vec::new()), Err(ConfigError::ZeroFrequency)));
    assert!(matches!(Settings::new(1, None, None, 8, Vec::new()), Err(ConfigError::MissingExecutable)));
    assert!(matches!(Settings::new(1, None, Some(1), 8, Vec::new()), Err(ConfigError::MissingExecutable)));
    assert!(matches!(Settings::new(1, path(), None, 8, Vec::new()), Err(ConfigError::MissingOffset)));
    let settings = Settings::new(100, path(), Some(0x55a10000000), 8, vec![names(&["a"])]);
    let settings = match settings {
        Ok(settings) => settings,
        Err(e) => panic!("refused: {:?}", e),
    };
    assert_eq!(settings.frequency(), 100);
    assert_eq!(settings.executable(), "guest.elf");
    assert_eq!(settings.load_offset(), 0x55a10000000);
    assert_eq!(settings.max_depth(), 8);
    assert_eq!(settings.patterns(), &vec![names(&["a"])]);
}

#[test]
fn the_period_is_the_inverse_of_the_frequency() {
    let period = |frequency: u64| match Settings::new(frequency, Some(String::new()), Some(0), 1, Vec::new()) {
        Ok(settings) => settings.period_nanos(),
        Err(e) => panic!("refused: {:?}", e),
    };
    assert_eq!(period(100), Ok(10_000_000));
    assert_eq!(period(1), Ok(1_000_000_000));
    assert_eq!(period(1000), Ok(1_000_000));
    assert_eq!(period(3), Ok(333_333_333));
    assert_eq!(period(999_999_999), Ok(1));
    assert_eq!(period(1_000_000_000), Ok(1));
}

#[test]
fn a_period_below_a_nanosecond_is_refused() {
    let period = |frequency: u64| match Settings::new(frequency, Some(String::new()), Some(0), 1, Vec::new()) {
        Ok(settings) => settings.period_nanos(),
        Err(e) => panic!("refused: {:?}", e),
    };
    assert_eq!(period(1_000_000_001), Err(ConfigError::FrequencyTooHigh));
    assert_eq!(period(2_000_000_000), Err(ConfigError::FrequencyTooHigh));
    assert_eq!(period(u64::MAX), Err(ConfigError::FrequencyTooHigh));
}

#[test]
fn the_table_is_owed_when_the_run_ends_as_asked() {
    let mut sampler = Sampler::new(8, Vec::new());
    assert!(!sampler.output_owed());
    sampler.step(Event::Tick);
    assert!(!sampler.output_owed());
    let mut sampler = Sampler::new(8, Vec::new());
    assert_eq!(sampler.step(Event::Shutdown), Action::Finish);
    assert!(sampler.output_owed());
}

#[test]
fn a_failure_alone_owes_no_table() {
    let mut sampler = Sampler::new(8, Vec::new());
    sampler.step(Event::Tick);
    assert_eq!(sampler.step(Event::ChannelFailed), Action::Abort(Failure::Channel));
    assert!(!sampler.output_owed());
    let mut sampler = Sampler::new(8, Vec::new());
    assert_eq!(sampler.step(reply("")), Action::Abort(Failure::OutOfTurn));
    assert!(!sampler.output_owed());
}

#[test]
fn a_failure_after_a_shutdown_still_owes_the_table() {
    let chain = [(0x100u64, 0u64, 0x11u64)];
    let failing: Vec<Event> = vec![Event::ChannelFailed, reply("RAX=0"), Event::Resolved(Vec::new())];
    for failing in failing {
        let mut sampler = Sampler::new(8, Vec::new());
        assert_eq!(sample(&mut sampler, &chain, vec![Ok(names(&["main"]))]), Action::AwaitTick);
        assert_eq!(sampler.step(Event::Tick), Action::Send(Command::Stop));
        assert_eq!(sampler.step(reply("")), Action::Send(Command::Registers));
        assert_eq!(sampler.step(Event::Shutdown), Action::Wait);
        assert!(!sampler.output_owed());
        assert!(matches!(sampler.step(failing), Action::Abort(_)));
        assert!(matches!(sampler.phase(), Phase::Failed(_)));
        assert!(sampler.output_owed());
        let lines = format_lines(&sampler.into_table().drain());
        assert_eq!(lines, vec!["main 1".to_string()]);
    }
}
