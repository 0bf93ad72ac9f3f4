use atom_kernel::shell::{shell_step, ShellAction, ShellEvent, ShellState};

const ERR: u64 = u64::MAX;

fn call(number: u64, arg0: u64, arg1: u64) -> ShellAction {
    ShellAction::Call { number, arg0, arg1 }
}

fn writes(s: &[u8]) -> Vec<ShellAction> {
    s.iter().map(|&b| call(5, b as u64, 0)).collect()
}

fn read() -> ShellAction {
    call(4, 0, 0)
}

fn prompt_read() -> Vec<ShellAction> {
    let mut v = writes(b"> ");
    v.push(read());
    v
}

fn cat(parts: Vec<Vec<ShellAction>>) -> Vec<ShellAction> {
    parts.into_iter().flatten().collect()
}

fn ret(st: &mut ShellState, v: u64) -> Vec<ShellAction> {
    shell_step(st, ShellEvent::Returned(v))
}

/// A shell that has run its start-up benchmark and waits for a key.
fn booted() -> ShellState {
    let mut st = ShellState::new();
    assert_eq!(shell_step(&mut st, ShellEvent::Start), vec![ShellAction::ReadClock]);
    ret(&mut st, 100);
    ret(&mut st, 350);
    st
}

/// Types `s` and returns what the last key asked for.
fn type_str(st: &mut ShellState, s: &[u8]) -> Vec<ShellAction> {
    let mut last = Vec::new();
    for &b in s {
        last = ret(st, b as u64);
    }
    last
}

#[test]
fn boot_runs_the_yield_benchmark_then_prompts() {
    let mut st = ShellState::new();
    assert_eq!(shell_step(&mut st, ShellEvent::Start), vec![ShellAction::ReadClock]);
    let a = ret(&mut st, 100);
    assert_eq!(a.len(), 10001);
    assert!(a[..10000].iter().all(|x| *x == call(1, 0, 0)));
    assert_eq!(a[10000], ShellAction::ReadClock);
    let a = ret(&mut st, 350);
    assert_eq!(a, cat(vec![writes(b"10,000 SYS_YIELDs took (CPU cycles): 250\n"), prompt_read()]));
    // Another start changes nothing.
    assert_eq!(shell_step(&mut st, ShellEvent::Start), vec![]);
}

#[test]
fn no_key_yields_and_asks_again() {
    let mut st = booted();
    assert_eq!(ret(&mut st, 0), vec![call(1, 0, 0), read()]);
    // A key whose low byte is zero is skipped.
    assert_eq!(ret(&mut st, 0x100), vec![read()]);
}

#[test]
fn typed_keys_are_echoed_and_ls_lists() {
    let mut st = booted();
    assert_eq!(ret(&mut st, b'l' as u64), vec![call(5, b'l' as u64, 0), read()]);
    assert_eq!(ret(&mut st, b's' as u64), vec![call(5, b's' as u64, 0), read()]);
    assert_eq!(ret(&mut st, b'\n' as u64), cat(vec![vec![call(5, 10, 0), call(10, 0, 0)], prompt_read()]));
}

#[test]
fn backspace_edits_the_line() {
    let mut st = booted();
    type_str(&mut st, b"lx");
    assert_eq!(ret(&mut st, 8), vec![call(5, 8, 0), read()]);
    type_str(&mut st, b"s");
    assert_eq!(ret(&mut st, b'\n' as u64)[1], call(10, 0, 0));
    // Backspace on an empty line does nothing but ask again.
    assert_eq!(ret(&mut st, 8), vec![read()]);
}

#[test]
fn clear_unknown_and_empty_lines() {
    let mut st = booted();
    assert_eq!(type_str(&mut st, b"clear\n"), cat(vec![vec![call(5, 10, 0), call(11, 0, 0)], prompt_read()]));
    assert_eq!(type_str(&mut st, b"foo\n"), cat(vec![vec![call(5, 10, 0)], writes(b"Unknown command\n"), prompt_read()]));
    assert_eq!(type_str(&mut st, b"\n"), cat(vec![vec![call(5, 10, 0)], prompt_read()]));
}

#[test]
fn edit_loads_edits_and_saves_a_file() {
    let mut st = booted();
    assert_eq!(type_str(&mut st, b"edit a\n"), vec![call(5, 10, 0), ShellAction::Open { name: b"a".to_vec() }]);
    assert_eq!(ret(&mut st, 0), vec![call(11, 0, 0), call(7, 0, 0)]);
    assert_eq!(ret(&mut st, b'h' as u64), vec![call(5, b'h' as u64, 0), call(7, 0, 0)]);
    assert_eq!(ret(&mut st, ERR), vec![read()]);
    assert_eq!(ret(&mut st, b'i' as u64), vec![call(5, b'i' as u64, 0), read()]);
    assert_eq!(ret(&mut st, 8), vec![call(5, 8, 0), read()]);
    // Enter is an ordinary key in the editor.
    assert_eq!(ret(&mut st, b'\n' as u64), vec![call(5, 10, 0), read()]);
    assert_eq!(
        ret(&mut st, 0x1B),
        cat(vec![
            vec![call(12, 0, 0), call(8, 0, b'h' as u64), call(8, 0, 10), call(9, 0, 0), call(11, 0, 0)],
            prompt_read(),
        ])
    );
    // Back in the prompt.
    assert_eq!(type_str(&mut st, b"ls\n")[1], call(10, 0, 0));
}

#[test]
fn edit_of_a_missing_file_reports_failure() {
    let mut st = booted();
    type_str(&mut st, b"edit zz\n");
    assert_eq!(ret(&mut st, ERR), cat(vec![writes(b"Failed to open file\n"), prompt_read()]));
}

#[test]
fn escape_saves_an_empty_file() {
    let mut st = booted();
    type_str(&mut st, b"edit q\n");
    ret(&mut st, 4);
    ret(&mut st, ERR);
    let a = ret(&mut st, 0x1B);
    assert_eq!(a, cat(vec![vec![call(12, 4, 0), call(9, 4, 0), call(11, 0, 0)], prompt_read()]));
    // A second escape, now in the prompt, is an ordinary key.
    assert_eq!(ret(&mut st, 0x1B), vec![call(5, 0x1B, 0), read()]);
}

#[test]
fn cat_prints_a_file() {
    let mut st = booted();
    assert_eq!(type_str(&mut st, b"cat notes\n"), vec![call(5, 10, 0), ShellAction::Open { name: b"notes".to_vec() }]);
    assert_eq!(ret(&mut st, 3), vec![call(7, 3, 0)]);
    assert_eq!(ret(&mut st, b'z' as u64), vec![call(5, b'z' as u64, 0), call(7, 3, 0)]);
    assert_eq!(ret(&mut st, ERR), cat(vec![vec![call(5, 10, 0), call(9, 3, 0)], prompt_read()]));
    type_str(&mut st, b"cat nope\n");
    assert_eq!(ret(&mut st, ERR), cat(vec![writes(b"File not found\n"), prompt_read()]));
}

#[test]
fn echo_writes_text_into_a_file() {
    let mut st = booted();
    assert_eq!(type_str(&mut st, b"echo hi > f\n"), vec![call(5, 10, 0), ShellAction::Open { name: b"f".to_vec() }]);
    assert_eq!(
        ret(&mut st, 1),
        cat(vec![vec![call(8, 1, b'h' as u64), call(8, 1, b'i' as u64), call(8, 1, 10), call(9, 1, 0)], prompt_read()])
    );
    // Without ` > ` nothing is opened.
    assert_eq!(type_str(&mut st, b"echo hi\n"), cat(vec![vec![call(5, 10, 0)], prompt_read()]));
    // A failed open writes nothing.
    type_str(&mut st, b"echo a > g\n");
    assert_eq!(ret(&mut st, ERR), prompt_read());
}

#[test]
fn msg_sends_to_the_daemon() {
    let mut st = booted();
    assert_eq!(type_str(&mut st, b"msg yo\n"), vec![call(5, 10, 0), ShellAction::Send { to: 2, text: b"yo".to_vec() }]);
    assert_eq!(ret(&mut st, 0), cat(vec![writes(b"Message sent to Daemon\n"), prompt_read()]));
    type_str(&mut st, b"msg yo\n");
    assert_eq!(ret(&mut st, ERR), cat(vec![writes(b"Failed to send message\n"), prompt_read()]));
}

#[test]
fn bench_command_reports_elapsed_cycles() {
    let mut st = booted();
    assert_eq!(type_str(&mut st, b"bench\n"), vec![call(5, 10, 0), ShellAction::ReadClock]);
    assert_eq!(ret(&mut st, 10).len(), 10001);
    // The counter difference is taken modulo 2^64.
    assert_eq!(
        ret(&mut st, 5),
        cat(vec![writes(b"10,000 SYS_YIELDs took (CPU cycles): 18446744073709551611\n"), prompt_read()])
    );
}

#[test]
fn arguments_are_cut_and_lines_are_bounded() {
    let mut st = booted();
    let mut line = b"cat ".to_vec();
    line.extend(std::iter::repeat(b'n').take(70));
    line.push(b'\n');
    assert_eq!(type_str(&mut st, &line)[1], ShellAction::Open { name: vec![b'n'; 63] });
    ret(&mut st, ERR);
    let long = vec![b'x'; 1024];
    type_str(&mut st, &long);
    // The line is full: a further key is not taken.
    assert_eq!(ret(&mut st, b'y' as u64), vec![read()]);
}
