use sekirotool::gamedata::{find_speed_fix_value, patterns, Game, IMAGE_BASE, PROCESS_NAME};

#[test]
fn speed_fix_for_common_frame_limits() {
    assert_eq!(find_speed_fix_value(60), 300000);
    assert_eq!(find_speed_fix_value(120), 600000);
    assert_eq!(find_speed_fix_value(144), 670000);
    assert_eq!(find_speed_fix_value(165), 840000);
    assert_eq!(find_speed_fix_value(240), 1200000);
}

#[test]
fn speed_fix_below_and_above_the_table() {
    assert_eq!(find_speed_fix_value(0), 150000);
    assert_eq!(find_speed_fix_value(1), 150000);
    assert_eq!(find_speed_fix_value(30), 150000);
    assert_eq!(find_speed_fix_value(1000), 1500000);
    assert_eq!(find_speed_fix_value(u32::MAX), 1500000);
}

#[test]
fn speed_fix_ties_go_to_the_larger_value() {
    // 15.5 lies halfway between 15.0 and 16.0.
    assert_eq!(find_speed_fix_value(31), 160000);
    // 37.5 lies 1.0 from 38.5 and 5.5 from 32.0.
    assert_eq!(find_speed_fix_value(75), 385000);
}

#[test]
fn speed_fix_between_uneven_entries() {
    assert_eq!(find_speed_fix_value(33), 166667);
    assert_eq!(find_speed_fix_value(37), 186875);
}

#[test]
fn speed_fix_never_decreases_with_the_frame_limit() {
    let mut last = find_speed_fix_value(0);
    for fps in 1..2000u32 {
        let value = find_speed_fix_value(fps);
        assert!(value >= last, "fps {}", fps);
        last = value;
    }
}

#[test]
fn speed_fix_in_ten_thousandths_matches_the_float_table() {
    let table: [f32; 35] = [
        15.0, 16.0, 16.6667, 18.0, 18.6875, 18.8516, 20.0, 24.0, 25.0, 27.5, 30.0, 32.0, 38.5, 40.0,
        48.0, 49.5, 50.0, 57.2958, 60.0, 64.0, 66.75, 67.0, 78.8438, 80.0, 84.0, 90.0, 93.8, 100.0,
        120.0, 127.0, 128.0, 130.0, 140.0, 144.0, 150.0,
    ];
    for fps in 0..1000u32 {
        let ideal = fps as f32 / 2.0;
        let mut closest: f32 = 30.0;
        for t in table {
            if f32::abs(ideal - t) <= f32::abs(ideal - closest) {
                closest = t;
            }
        }
        let value = find_speed_fix_value(fps) as f32 / 10000.0;
        assert_eq!(value.to_bits(), closest.to_bits(), "fps {}", fps);
    }
}

#[test]
fn game_keeps_its_process_and_has_no_size() {
    let game = Game::new(4242u32);
    assert_eq!(game.get_process(), 4242);
    assert_eq!(game.get_size(), 0);
    let copy = Game::new(game.get_process());
    assert_eq!(copy.get_size(), 0);
}

#[test]
fn game_constants() {
    assert_eq!(IMAGE_BASE, 0x140000000);
    assert_eq!(PROCESS_NAME, "sekiro.exe");
    assert_eq!(patterns::FRAMELOCK_FUZZY, "C7 43 ?? ?? ?? ?? ?? 4C 89 AB");
    assert_eq!(patterns::FRAMELOCK_OFFSET, 3);
    assert_eq!(patterns::FRAMELOCK_SPEED_FIX_OFFSET + 4, patterns::FRAMELOCK_SPEED_FIX_INSTR_OFFSET);
}
