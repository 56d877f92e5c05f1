use asmodeus::debug::machine_state::{machine_state_lines, MachineState};
use asmodeus::debug::program_banner::program_banner_lines;
use asmodeus::debug::program_output::program_output_lines;
use asmodeus::bugseer::reports::{breakpoint_lines, memory_dump_lines};

// The panels as the debugger prints them, written out with `format!`.

fn output_oracle(output_buffer: &[u16]) -> Vec<String> {
    let mut out = Vec::new();
    if output_buffer.is_empty() {
        return out;
    }
    out.push(String::new());
    let title = "OUTPUT";
    let multi = output_buffer.len() > 1;
    let mut content_lines = Vec::new();
    let mut max_len = title.len();
    for (i, &value) in output_buffer.iter().enumerate() {
        let line = if multi {
            format!("[{}] {} (0x{:04X})", i, value, value)
        } else {
            format!("{} (0x{:04X})", value, value)
        };
        max_len = max_len.max(line.len());
        content_lines.push(line);
    }
    let w = (max_len + 4).max(20);
    let border = |l: &str, m: &str, r: &str| format!("{}{}{}", l, m.repeat(w - 2), r);
    let center = |text: &str, color: &str| {
        let p = (w - 2 - text.len()) / 2;
        let rem = w - 2 - text.len() - p;
        format!("│{}{}{}{}\x1b[0m│", " ".repeat(p), color, text, " ".repeat(rem))
    };
    let row = |orig: &str, colored: &str| {
        let p = (w - 2 - orig.len()) / 2;
        let rem = w - 2 - orig.len() - p;
        format!("│{}{}{}\x1b[0m│", " ".repeat(p), colored, " ".repeat(rem))
    };
    out.push(border("┌", "─", "┐"));
    out.push(center(title, "\x1b[1m\x1b[38;5;249m"));
    out.push(border("├", "─", "┤"));
    for (i, line) in content_lines.iter().enumerate() {
        let v = output_buffer[i];
        let _ = v;
        let colored = format!("\x1b[1m\x1b[38;5;117m{}\x1b[0m", line);
        out.push(row(line, &colored));
    }
    out.push(border("└", "─", "┘"));
    out
}

#[test]
fn output_panel_single_value() {
    let got = program_output_lines(&[42]);
    assert_eq!(got, output_oracle(&[42]));
    assert_eq!(got.len(), 6);
    assert_eq!(got[1], format!("┌{}┐", "─".repeat(18)));
    assert_eq!(got[4], "│   \x1b[1m\x1b[38;5;117m42 (0x002A)\x1b[0m    \x1b[0m│");
    assert!(got[4].contains("42 (0x002A)"));
}

#[test]
fn output_panel_numbered_values() {
    let values = vec![1, 65535, 0, 300];
    assert_eq!(program_output_lines(&values), output_oracle(&values));
    let many: Vec<u16> = (0..120).map(|i| (i * 517) as u16).collect();
    assert_eq!(program_output_lines(&many), output_oracle(&many));
}

#[test]
fn output_panel_empty_is_nothing() {
    assert!(program_output_lines(&[]).is_empty());
}

fn banner_oracle(program_path: &str, word_count: usize) -> Vec<String> {
    let mut out = vec![String::new()];
    let left_title = "LOADED PROGRAM";
    let left_file = format!("File: {}", program_path);
    let left_size = format!("Size: {} words ({} bytes)", word_count, word_count * 2);
    let right = ["QUICK HELP", "Type 'h' or 'help' for command list", "Quick: s=step c=continue d=display q=quit"];
    let lw = [left_title.len(), left_file.len(), left_size.len()].iter().max().unwrap() + 4;
    let rw = right.iter().map(|s| s.len()).max().unwrap() + 4;
    let lw = lw.max(30);
    let rw = rw.max(30);
    let border = |w: usize, l: &str, m: &str, r: &str| format!("{}{}{}", l, m.repeat(w - 2), r);
    let center = |text: &str, w: usize, color: &str| {
        let p = (w - 2 - text.len()) / 2;
        let rem = w - 2 - text.len() - p;
        format!("│{}{}{}{}\x1b[0m│", " ".repeat(p), color, text, " ".repeat(rem))
    };
    let mixed = |text: &str, w: usize, pc: &str, sc: &str| {
        let parts: Vec<&str> = text.splitn(2, ':').collect();
        let f = format!("{}{}: {}{}", pc, parts[0], sc, parts[1].trim());
        let p = (w - 2 - text.len()) / 2;
        let rem = w - 2 - text.len() - p;
        format!("│{}{}{}\x1b[0m│", " ".repeat(p), f, " ".repeat(rem))
    };
    let quick = |text: &str, w: usize| {
        let f = format!("\x1b[1m\x1b[38;5;226mQuick: \x1b[1m\x1b[38;5;208ms\x1b[1m\x1b[37m=step \x1b[1m\x1b[38;5;208mc\x1b[1m\x1b[37m=continue \x1b[1m\x1b[38;5;208md\x1b[1m\x1b[37m=display \x1b[1m\x1b[38;5;208mq\x1b[1m\x1b[37m=quit");
        let p = (w - 2 - text.len()) / 2;
        let rem = w - 2 - text.len() - p;
        format!("│{}{}{}\x1b[0m│", " ".repeat(p), f, " ".repeat(rem))
    };
    out.push(format!("{}  {}", border(lw, "┌", "─", "┐"), border(rw, "┌", "─", "┐")));
    out.push(format!("{}  {}", center(left_title, lw, "\x1b[1m\x1b[38;5;69m"), center(right[0], rw, "\x1b[1m\x1b[38;5;227m")));
    out.push(format!("{}  {}", border(lw, "├", "─", "┤"), border(rw, "├", "─", "┤")));
    out.push(format!("{}  {}", mixed(&left_file, lw, "\x1b[1m\x1b[37m", "\x1b[1m\x1b[38;5;117m"), center(right[1], rw, "\x1b[1m\x1b[38;5;249m")));
    out.push(format!("{}  {}", mixed(&left_size, lw, "\x1b[1m\x1b[37m", "\x1b[1m\x1b[38;5;245m"), quick(right[2], rw)));
    out.push(format!("{}  {}", border(lw, "└", "─", "┘"), border(rw, "└", "─", "┘")));
    out
}

#[test]
fn banner_matches_for_short_and_long_paths() {
    for (path, words) in [
        ("hello.asmod", 3usize),
        ("examples/arithmetic/a_rather_long_program_name_here.asmod", 1234),
        ("dir/żółw.asmod", 0),
        ("  spaced.asmod ", 7),
        ("a:b:c.asmod", 65535),
    ] {
        assert_eq!(program_banner_lines(path, words), banner_oracle(path, words), "{}", path);
    }
}

#[test]
fn banner_box_widths() {
    let lines = program_banner_lines("hello.asmod", 3);
    assert_eq!(lines.len(), 7);
    assert_eq!(lines[1], format!("┌{}┐  ┌{}┐", "─".repeat(28), "─".repeat(43)));
}

#[derive(Clone, Copy)]
struct Regs {
    ak: u16,
    l: u16,
    ad: u16,
    kod: u16,
    ws: u16,
    ie: bool,
    mask: u16,
    run: bool,
}

fn state_oracle(s: Regs) -> Vec<String> {
    let mut out = vec![String::new()];
    let title = "MACHINE STATE";
    let ak = format!("AK: {:04X} ({})    L: {:04X} ({})    AD: {:04X} ({})", s.ak, s.ak, s.l, s.l, s.ad, s.ad);
    let kod = format!("KOD: {:02X} ({})      WS: {:04X} ({})", s.kod, s.kod, s.ws, s.ws);
    let int = format!("Interrupts: {}    Mask: {:04X}", s.ie, s.mask);
    let run = format!("Running: {}", s.run);
    let w = ([title.len(), ak.len(), kod.len(), int.len(), run.len()].iter().max().unwrap() + 4).max(50);
    let border = |l: &str, m: &str, r: &str| format!("{}{}{}", l, m.repeat(w - 2), r);
    let center = |text: &str, color: &str| {
        let p = (w - 2 - text.len()) / 2;
        let rem = w - 2 - text.len() - p;
        format!("│{}{}{}{}\x1b[0m│", " ".repeat(p), color, text, " ".repeat(rem))
    };
    let row = |orig: &str, colored: &str| {
        let used = 2 + orig.len();
        let rem = if used < w - 2 { w - 2 - used } else { 0 };
        format!("│{}{}{}\x1b[0m│", "  ", colored, " ".repeat(rem))
    };
    out.push(border("┌", "─", "┐"));
    out.push(center(title, "\x1b[1m\x1b[38;5;214m"));
    out.push(border("├", "─", "┤"));
    let reg = |t: String| format!("\x1b[1m\x1b[38;5;33m{}\x1b[0m", t);
    let akc = format!("{}    {}    {}", reg(format!("AK: {:04X} ({})", s.ak, s.ak)), reg(format!("L: {:04X} ({})", s.l, s.l)), reg(format!("AD: {:04X} ({})", s.ad, s.ad)));
    out.push(row(&ak, &akc));
    let kodc = format!("{}      {}", reg(format!("KOD: {:02X} ({})", s.kod, s.kod)), reg(format!("WS: {:04X} ({})", s.ws, s.ws)));
    out.push(row(&kod, &kodc));
    out.push(format!("│{}│", " ".repeat(w - 2)));
    let ic = if s.ie { "\x1b[1m\x1b[38;5;120m" } else { "\x1b[1m\x1b[38;5;210m" };
    let intc = format!("\x1b[1m\x1b[38;5;208mInterrupts:\x1b[0m {}{}{}    \x1b[1m\x1b[38;5;208mMask:\x1b[0m \x1b[1m\x1b[37m{:04X}\x1b[0m", ic, s.ie, "\x1b[0m", s.mask);
    out.push(row(&int, &intc));
    out.push(format!("│{}│", " ".repeat(w - 2)));
    let rc = if s.run { "\x1b[1m\x1b[38;5;28m" } else { "\x1b[1m\x1b[38;5;168m" };
    let runc = format!("\x1b[1m\x1b[38;5;218mRunning:\x1b[0m {}{}{}", rc, s.run, "\x1b[0m");
    out.push(row(&run, &runc));
    out.push(border("└", "─", "┘"));
    out
}

fn state_of(r: Regs) -> MachineState {
    MachineState {
        ak: r.ak,
        l: r.l,
        ad: r.ad,
        kod: r.kod,
        ws: r.ws,
        interrupts_enabled: r.ie,
        interrupt_mask: r.mask,
        is_running: r.run,
    }
}

#[test]
fn machine_state_panel_matches() {
    let cases = [
        Regs { ak: 0, l: 0, ad: 0, kod: 0, ws: 0, ie: false, mask: 0, run: false },
        Regs { ak: 0x1234, l: 0x10, ad: 5, kod: 7, ws: 2000, ie: true, mask: 0xF, run: true },
        Regs { ak: 65535, l: 2047, ad: 2047, kod: 31, ws: 65535, ie: true, mask: 65535, run: false },
    ];
    for c in cases {
        assert_eq!(machine_state_lines(&state_of(c)), state_oracle(c));
    }
}

#[test]
fn machine_state_panel_widens_for_long_rows() {
    let r = Regs { ak: 65535, l: 65535, ad: 65535, kod: 0, ws: 0, ie: false, mask: 0, run: false };
    let lines = machine_state_lines(&state_of(r));
    assert_eq!(lines[1], format!("┌{}┐", "─".repeat(57)));
    let small = machine_state_lines(&state_of(Regs { ak: 1, l: 1, ad: 1, kod: 1, ws: 1, ie: false, mask: 0, run: true }));
    assert_eq!(small[1], format!("┌{}┐", "─".repeat(48)));
    assert_eq!(small[6], format!("│{}│", " ".repeat(48)));
}

#[test]
fn breakpoint_listing() {
    assert_eq!(breakpoint_lines(&vec![]), vec!["No breakpoints set.".to_string()]);
    assert_eq!(
        breakpoint_lines(&vec![5, 2047]),
        vec!["Breakpoints:".to_string(), "  5".to_string(), "  2047".to_string()]
    );
}

#[test]
fn memory_dump_listing() {
    assert_eq!(
        memory_dump_lines(&vec![(0, 42), (15, 0xBEEF), (2047, 0)]),
        vec![
            "Memory dump:".to_string(),
            "  0000: 002A (42)".to_string(),
            "  0015: BEEF (48879)".to_string(),
            "  2047: 0000 (0)".to_string(),
        ]
    );
    assert_eq!(memory_dump_lines(&vec![]), vec!["Memory dump:".to_string()]);
    assert_eq!(memory_dump_lines(&vec![(12345, 1)])[1], "  12345: 0001 (1)");
}

#[test]
fn banner_shows_path_and_size() {
    let lines = program_banner_lines("  dir/prog.asmod ", 21);
    assert!(lines[4].contains("dir/prog.asmod"));
    assert!(lines[5].contains("21 words (42 bytes)"));
}

#[test]
fn panels_show_plain_register_and_value_texts() {
    let lines = machine_state_lines(&state_of(Regs { ak: 42, l: 3, ad: 7, kod: 7, ws: 2047, ie: false, mask: 0, run: false }));
    let text = lines.join("\n");
    assert!(text.contains("AK: 002A (42)"));
    assert!(text.contains("L: 0003 (3)"));
    assert!(text.contains("KOD: 07 (7)"));
    let out = program_output_lines(&[3, 2, 1, 0]).join("\n");
    for expected in ["[0] 3", "[1] 2", "[2] 1", "[3] 0"] {
        assert!(out.contains(expected), "{}", expected);
    }
}
