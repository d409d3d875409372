use sekirotool::vm::{
    find_page_from_addr, get_pid, is_scan_page, kill_command, next_scan, ScanStep, parse_u32_range, pause_target,
    pgrep_command, pgrep_output_is_parsable, resume_target, signature_scan_pages, Page, Prot, Signal,
};

fn page(base: usize, size: usize, prot: Prot) -> Page {
    Page { base, end: base + size, size, prot }
}

#[test]
fn find_page_returns_the_first_page_holding_the_address() {
    let pages = vec![
        page(0x1000, 0x1000, Prot::R),
        page(0x2000, 0x1000, Prot::RW),
        page(0x3000, 0x1000, Prot::XR),
    ];
    assert_eq!(find_page_from_addr(&pages, 0x2800), Some(pages[1]));
    assert_eq!(find_page_from_addr(&pages, 0x1000), Some(pages[0]));
    // The end of a page counts as inside it, so the earlier page wins.
    assert_eq!(find_page_from_addr(&pages, 0x2000), Some(pages[0]));
    assert_eq!(find_page_from_addr(&pages, 0x4000), Some(pages[2]));
}

#[test]
fn find_page_finds_nothing_outside_the_pages() {
    let pages = vec![page(0x1000, 0x1000, Prot::R)];
    assert_eq!(find_page_from_addr(&pages, 0x0fff), None);
    assert_eq!(find_page_from_addr(&pages, 0x2001), None);
    assert_eq!(find_page_from_addr(&Vec::new(), 0x1000), None);
}

#[test]
fn scan_pages_are_executable_pages_above_the_image_base() {
    let base = 0x140000000usize;
    let pages = vec![
        page(0x1000, 0x1000, Prot::XR),
        page(base, 0x1000, Prot::R),
        page(base + 0x1000, 0x1000, Prot::XR),
        page(base + 0x2000, 0x1000, Prot::RW),
        page(base + 0x3000, 0x1000, Prot::X),
        page(base + 0x4000, 0x1000, Prot::XW),
        page(base + 0x5000, 0x1000, Prot::XRW),
        page(base + 0x6000, 0x1000, Prot::NoAccess),
        page(base + 0x7000, 0x1000, Prot::W),
    ];
    let scan = signature_scan_pages(&pages);
    assert_eq!(scan, vec![pages[2], pages[4], pages[5], pages[6]]);
    assert!(!is_scan_page(&pages[0]));
    assert!(is_scan_page(&pages[2]));
}

#[test]
fn pid_is_read_from_the_next_to_last_line() {
    assert_eq!(get_pid("1234\n5678\n"), Some(5678));
    assert_eq!(get_pid("11\n22\n33\n"), Some(33));
    assert_eq!(get_pid("+42\n7\n"), Some(7));
    assert_eq!(get_pid("9\n+42\n"), Some(42));
}

#[test]
fn pid_needs_more_than_two_lines() {
    assert_eq!(get_pid(""), None);
    assert_eq!(get_pid("1234"), None);
    assert_eq!(get_pid("1234\n"), None);
    assert_eq!(get_pid("1234\n5678"), None);
}

#[test]
fn pid_zero_is_no_pid() {
    assert_eq!(get_pid("12\n0\n"), None);
    assert_eq!(get_pid("12\n000\n"), None);
}

#[test]
fn pid_line_that_does_not_parse_is_refused() {
    assert!(pgrep_output_is_parsable("1\n2\n"));
    assert!(pgrep_output_is_parsable("garbage"));
    assert!(pgrep_output_is_parsable("garbage\n"));
    assert!(!pgrep_output_is_parsable("1\nabc\n"));
    assert!(!pgrep_output_is_parsable("1\n\n"));
    assert!(!pgrep_output_is_parsable("1\n 2\n"));
    assert!(!pgrep_output_is_parsable("1\n-2\n"));
    assert!(!pgrep_output_is_parsable("1\n+\n"));
    assert!(!pgrep_output_is_parsable("1\n4294967296\n"));
    assert!(pgrep_output_is_parsable("1\n4294967295\n"));
}

#[test]
fn u32_parsing_follows_str_parse() {
    let cases = ["0", "7", "+7", "007", "4294967295", "4294967296", "", "+", "-1", " 1", "1 ", "12a", "++1", "99999999999"];
    for case in cases {
        assert_eq!(parse_u32_range(case, 0, case.len()), case.parse::<u32>().ok(), "{:?}", case);
    }
    assert_eq!(parse_u32_range("ab123cd", 2, 5), Some(123));
}

#[test]
fn commands_are_built_from_the_name_and_the_pid() {
    assert_eq!(pgrep_command("sekiro.exe"), "pgrep -f sekiro.exe");
    assert_eq!(kill_command(Signal::Stop, 4321), "kill -SIGSTOP 4321");
    assert_eq!(kill_command(Signal::Continue, 0), "kill -SIGCONT 0");
    assert_eq!(kill_command(Signal::Stop, u32::MAX), "kill -SIGSTOP 4294967295");
    for pid in [1u32, 9, 10, 99, 100, 65535, 1000000007] {
        assert_eq!(kill_command(Signal::Continue, pid), format!("kill -SIGCONT {}", pid));
    }
}

#[test]
fn rendered_pid_parses_back() {
    for pid in [1u32, 10, 4321, u32::MAX] {
        let command = kill_command(Signal::Stop, pid);
        let rendered = &command["kill -SIGSTOP ".len()..];
        assert_eq!(parse_u32_range(rendered, 0, rendered.len()), Some(pid));
        let output = format!("1\n{}\n", rendered);
        assert_eq!(get_pid(&output), Some(pid));
    }
}

#[test]
fn pause_and_resume_need_a_pid() {
    assert_eq!(pause_target(Some(77)), Ok("kill -SIGSTOP 77".to_string()));
    assert_eq!(resume_target(Some(77)), Ok("kill -SIGCONT 77".to_string()));
    assert_eq!(pause_target(None), Err("failed to pause target."));
    assert_eq!(resume_target(None), Err("failed to pause target."));
}

#[test]
fn scan_steps_visit_candidates_in_order_and_stop_at_a_hit() {
    let base = 0x140000000usize;
    let pages = vec![
        page(0x1000, 0x1000, Prot::XR),
        page(base, 0x1000, Prot::XR),
        page(base + 0x1000, 0x1000, Prot::RW),
        page(base + 0x2000, 0x1000, Prot::X),
    ];
    assert_eq!(next_scan(&pages, 0, None), ScanStep::Scan(1));
    assert_eq!(next_scan(&pages, 2, None), ScanStep::Scan(3));
    assert_eq!(next_scan(&pages, 4, None), ScanStep::Exhausted);
    assert_eq!(next_scan(&pages, 2, Some(base + 5)), ScanStep::Found(base + 5));
    assert_eq!(next_scan(&Vec::new(), 0, None), ScanStep::Exhausted);

    // The pages scanned one after the other are the scan pages.
    let mut visited = Vec::new();
    let mut from = 0;
    while let ScanStep::Scan(i) = next_scan(&pages, from, None) {
        visited.push(pages[i]);
        from = i + 1;
    }
    assert_eq!(visited, signature_scan_pages(&pages));
}
