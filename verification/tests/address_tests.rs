use asmodeus::bugseer::address_parser::parse_address;
use asmodeus::bugseer::commands::{plan_command, stop_message, DebuggerAction};
use asmodeus::error::AsmodeusError;

#[test]
fn test_parse_decimal_address() {
    assert_eq!(parse_address("123").unwrap(), 123);
    assert_eq!(parse_address("0").unwrap(), 0);
    assert_eq!(parse_address("2047").unwrap(), 2047);
}

#[test]
fn test_parse_hex_address() {
    assert_eq!(parse_address("0x7B").unwrap(), 123);
    assert_eq!(parse_address("0X7B").unwrap(), 123);
    assert_eq!(parse_address("0x0").unwrap(), 0);
    assert_eq!(parse_address("0x7FF").unwrap(), 2047);
}

#[test]
fn test_invalid_addresses() {
    assert!(parse_address("abc").is_err());
    assert!(parse_address("0xGHI").is_err());
    assert!(parse_address("").is_err());
}

#[test]
fn address_limits_and_signs() {
    assert_eq!(parse_address("65535").unwrap(), 65535);
    assert!(parse_address("65536").is_err());
    assert_eq!(parse_address("0xFFFF").unwrap(), 65535);
    assert!(parse_address("0x10000").is_err());
    assert_eq!(parse_address("+12").unwrap(), 12);
    assert!(parse_address("+").is_err());
    assert!(parse_address("-1").is_err());
    assert!(parse_address("0x").is_err());
    assert_eq!(parse_address("0x+a").unwrap(), 10);
    assert_eq!(parse_address("000123").unwrap(), 123);
    assert_eq!(parse_address("0xabc").unwrap(), 0xabc);
}

#[test]
fn address_error_messages() {
    match parse_address("0xZZ") {
        Err(AsmodeusError::UsageError(m)) => assert_eq!(m, "Invalid hexadecimal address: 0xZZ"),
        other => panic!("unexpected {:?}", other),
    }
    match parse_address("12a") {
        Err(AsmodeusError::UsageError(m)) => assert_eq!(m, "Invalid decimal address: 12a"),
        other => panic!("unexpected {:?}", other),
    }
}

#[test]
fn debugger_commands_are_planned() {
    assert!(matches!(plan_command("   ").unwrap(), DebuggerAction::Nothing));
    assert!(matches!(plan_command("s").unwrap(), DebuggerAction::Step));
    assert!(matches!(plan_command("next").unwrap(), DebuggerAction::Step));
    assert!(matches!(plan_command(" c ").unwrap(), DebuggerAction::Continue));
    assert!(matches!(plan_command("d").unwrap(), DebuggerAction::Display));
    assert!(matches!(plan_command("quit").unwrap(), DebuggerAction::Quit));
    assert!(matches!(plan_command("help").unwrap(), DebuggerAction::Help));
    assert!(matches!(plan_command("lb").unwrap(), DebuggerAction::ListBreakpoints));
    assert!(matches!(plan_command("b 0x10").unwrap(), DebuggerAction::SetBreakpoint(16)));
    assert!(matches!(plan_command("rb   5").unwrap(), DebuggerAction::RemoveBreakpoint(5)));
    match plan_command("b").unwrap() {
        DebuggerAction::Usage(u) => assert_eq!(u, "Usage: b <address>"),
        other => panic!("unexpected {:?}", other),
    }
    match plan_command("rb 1 2").unwrap() {
        DebuggerAction::Usage(u) => assert_eq!(u, "Usage: rb <address>"),
        other => panic!("unexpected {:?}", other),
    }
    match plan_command("m").unwrap() {
        DebuggerAction::Usage(u) => assert_eq!(u, "Usage: m <start_addr> [end_addr]"),
        other => panic!("unexpected {:?}", other),
    }
    assert!(matches!(plan_command("m 10").unwrap(), DebuggerAction::DumpMemory(10, 25)));
    assert!(matches!(plan_command("m 2040").unwrap(), DebuggerAction::DumpMemory(2040, 2047)));
    assert!(matches!(plan_command("memory 3 7").unwrap(), DebuggerAction::DumpMemory(3, 7)));
    assert!(plan_command("b xyz").is_err());
    assert!(plan_command("m 1 zz").is_err());
    match plan_command("frobnicate 1").unwrap() {
        DebuggerAction::Unknown(w) => assert_eq!(w, "frobnicate"),
        other => panic!("unexpected {:?}", other),
    }
}

#[test]
fn stop_messages() {
    assert_eq!(stop_message(0b00111), "Program completed successfully.");
    assert_eq!(stop_message(3), "Program halted unexpectedly.");
}

#[test]
fn every_address_reads_back() {
    for n in 0..=u16::MAX {
        assert_eq!(parse_address(&n.to_string()).unwrap(), n);
        assert_eq!(parse_address(&format!("0x{:X}", n)).unwrap(), n);
        assert_eq!(parse_address(&format!("0X{:x}", n)).unwrap(), n);
    }
}

#[test]
fn memory_dump_from_any_start_is_clipped() {
    match plan_command("m 65535").unwrap() {
        DebuggerAction::DumpMemory(a, b) => assert_eq!((a, b), (65535, 2047)),
        other => panic!("{:?}", other),
    }
    match plan_command("memory 100").unwrap() {
        DebuggerAction::DumpMemory(a, b) => assert_eq!((a, b), (100, 115)),
        other => panic!("{:?}", other),
    }
    match plan_command("m 2040").unwrap() {
        DebuggerAction::DumpMemory(a, b) => assert_eq!((a, b), (2040, 2047)),
        other => panic!("{:?}", other),
    }
}
