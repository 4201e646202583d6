use std::collections::HashMap;

use dioptase::emulator::{run_until_breakpoint, Emulator, RunOutcome};
use dioptase::image::{load_program, ImageError};
use dioptase::scheduler::{SchedMode, Scheduler};

fn image(lines: &[&str]) -> HashMap<u32, u8> {
    let v: Vec<String> = lines.iter().map(|s| s.to_string()).collect();
    load_program(&v).unwrap().bytes
}

#[test]
fn runs_a_program_to_halt() {
    // @100 (0x400): addi r1, r0, 42 ; mode halt
    let prog = image(&["@100", "0840E02A", "F8002800"]);
    let mut emu = Emulator::new(prog, false);
    for _ in 0..10 {
        emu.tick_core(0);
    }
    assert!(emu.all_halted());
    assert_eq!(emu.result(), 42);
}

#[test]
fn image_lines() {
    let v: Vec<String> = ["; comment", "// more", "", "#label start 400", "@1", "11223344"]
        .iter()
        .map(|s| s.to_string())
        .collect();
    let img = load_program(&v).unwrap();
    assert_eq!(img.bytes.get(&4), Some(&0x44));
    assert_eq!(img.bytes.get(&7), Some(&0x11));
    assert_eq!(img.labels, vec![(b"start".to_vec(), 0x400)]);
    let bad: Vec<String> = vec!["@1".to_string(), "xyz".to_string()];
    assert_eq!(load_program(&bad).err(), Some(ImageError::BadLine(2)));
}

#[test]
fn uart_output_is_collected() {
    // lui r1, 0x1FF96 -> 0x07FE_5800; addi r2, r0, 65; stb r2, [r1 + 2]; halt
    let prog = image(&["@100", "1041FF96", "0880E041", "48820002", "F8002800"]);
    let mut emu = Emulator::new(prog, false);
    for _ in 0..10 {
        emu.tick_core(0);
    }
    assert_eq!(emu.take_output(), vec![65]);
}

#[test]
fn set_and_read_registers_by_name() {
    let mut emu = Emulator::new(HashMap::new(), false);
    assert!(emu.set_reg_value("r5", 99));
    assert_eq!(emu.read_reg_value("R5"), Some(99));
    assert!(emu.set_reg_value("pc", 0x800));
    assert_eq!(emu.read_reg_value("pc"), Some(0x800));
    assert!(!emu.set_reg_value("bogus", 1));
}

#[test]
fn breakpoint_stops_the_run() {
    let prog = image(&["@100", "0840E02A", "0840E02A", "F8002800"]);
    let mut emu = Emulator::new(prog, false);
    assert_eq!(run_until_breakpoint(&mut emu, &vec![0x408], 100), RunOutcome::Breakpoint(0x408));
    assert_eq!(run_until_breakpoint(&mut emu, &vec![], 100), RunOutcome::Halted);
}

#[test]
fn round_robin_gives_every_running_core_a_turn() {
    let mut s = Scheduler::new(SchedMode::RoundRobin, 4, 1);
    s.mark_halted(2);
    let mut seen = vec![];
    for _ in 0..3 {
        for c in 0..4 {
            if s.may_run(c) {
                seen.push(c);
            }
        }
        s.finish_turn();
    }
    seen.sort();
    assert_eq!(seen, vec![0, 1, 3]);
    s.mark_halted(0);
    s.mark_halted(1);
    assert!(!s.done());
    s.mark_halted(3);
    assert!(s.done());
}

#[test]
fn random_scheduler_picks_running_cores() {
    let mut s = Scheduler::new(SchedMode::Random, 3, 12345);
    s.mark_halted(1);
    for _ in 0..20 {
        s.finish_turn();
        assert!(!s.may_run(1));
        assert!(s.may_run(0) || s.may_run(2));
    }
}

#[test]
fn free_mode_lets_all_run() {
    let mut s = Scheduler::new(SchedMode::Free, 2, 0);
    assert!(s.may_run(0) && s.may_run(1));
    s.stop();
    assert!(!s.may_run(0));
}

#[test]
fn devices_tick_with_the_machine() {
    let mut emu = Emulator::new(HashMap::new(), false);
    emu.load_sd_image(0, vec![9, 8, 7, 6]);
    assert_eq!(emu.sd_image(0), &vec![9, 8, 7, 6]);
    assert!(emu.sd_image(1).is_empty());
    emu.display_frame(3, (1, 0, 0, 0), true);
    assert_eq!(emu.memory().get_vga_status_register(), 3);
    assert_eq!(emu.memory().get_vga_frame_register(), (1, 0, 0, 0));
    assert_eq!(emu.memory().get_pending_interrupt(), 1 << 4);
    // idle engines leave memory alone
    emu.tick_devices();
    assert_eq!(emu.read_phys8_debug(0x100), Ok(0));
    assert_eq!(emu.memory().get_pending_interrupt(), 1 << 4);
}
