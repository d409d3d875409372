//! Decisions about the game's process: which pages a signature is searched
//! in, which page holds an address, how the game's pid is read from `pgrep`
//! and which shell commands stop and resume the game.

use vstd::prelude::*;

use crate::gamedata::IMAGE_BASE;

verus! {

/// Memory protection of a page: the combination of execute (X), read (R)
/// and write (W) access.
#[derive(Clone, Copy, Debug, PartialEq, Eq, Structural)]
pub enum Prot {
    NoAccess,
    X,
    R,
    W,
    XR,
    XW,
    RW,
    XRW,
}

/// A mapped page range of the game's address space, as the page enumeration
/// reports it: its first address, its end address, its size and its
/// protection.
#[derive(Clone, Copy, Debug, PartialEq, Eq, Structural)]
pub struct Page {
    pub base: usize,
    pub end: usize,
    pub size: usize,
    pub prot: Prot,
}

/// The page is taken to hold `address` when `base <= address <= end`; the
/// bound at `end` is inclusive.
pub open spec fn page_contains(page: Page, address: usize) -> bool {
    page.base <= address && address <= page.end
}

/// `page` is the first of `pages` that holds `address`.
pub open spec fn is_first_page_containing(pages: Seq<Page>, address: usize, page: Page) -> bool {
    exists|i: int|
        0 <= i < pages.len() && pages[i] == page && page_contains(page, address) && (forall|j: int|
            0 <= j < i ==> !page_contains(#[trigger] pages[j], address))
}

/// Finds the page that holds `address`: the first page of the enumeration
/// whose range covers it, or `None` when no page does (the caller then
/// enumerates the pages again).
pub fn find_page_from_addr(pages: &Vec<Page>, address: usize) -> (found: Option<Page>)
    ensures
        match found {
            Some(page) => is_first_page_containing(pages@, address, page),
            None => forall|i: int| 0 <= i < pages@.len() ==> !page_contains(#[trigger] pages@[i], address),
        },
{
    let mut i: usize = 0;
    while i < pages.len()
        invariant
            0 <= i <= pages@.len(),
            forall|j: int| 0 <= j < i ==> !page_contains(#[trigger] pages@[j], address),
        decreases pages@.len() - i,
    {
        let page = pages[i];
        if page.base <= address && page.end >= address {
            assert(pages@[i as int] == page);
            return Some(page);
        }
        i = i + 1;
    }
    None
}

/// An executable protection: one of X, XR, XW and XRW.
pub open spec fn is_executable(prot: Prot) -> bool {
    prot == Prot::X || prot == Prot::XR || prot == Prot::XW || prot == Prot::XRW
}

/// A page is searched for signatures when it lies at or above the image base
/// and is executable.
pub open spec fn is_scan_candidate(page: Page) -> bool {
    page.base as int >= IMAGE_BASE as int && is_executable(page.prot)
}

/// Tells whether a page is searched for signatures.
pub fn is_scan_page(page: &Page) -> (scan: bool)
    ensures
        scan == is_scan_candidate(*page),
{
    if (page.base as u64) < IMAGE_BASE {
        return false;
    }
    match page.prot {
        Prot::XR | Prot::X | Prot::XW | Prot::XRW => true,
        _ => false,
    }
}

/// The pages in which a signature is searched, in the order of the
/// enumeration: those at or above the image base that are executable.
pub fn signature_scan_pages(pages: &Vec<Page>) -> (scan: Vec<Page>)
    ensures
        scan@ == pages@.filter(|page: Page| is_scan_candidate(page)),
{
    let ghost keep = |page: Page| is_scan_candidate(page);
    let mut scan: Vec<Page> = Vec::new();
    let mut i: usize = 0;
    while i < pages.len()
        invariant
            0 <= i <= pages@.len(),
            keep == (|page: Page| is_scan_candidate(page)),
            scan@ == pages@.take(i as int).filter(keep),
        decreases pages@.len() - i,
    {
        let page = pages[i];
        proof {
            reveal_with_fuel(Seq::<_>::filter, 1);
            assert(pages@.take(i + 1).drop_last() =~= pages@.take(i as int));
        }
        if is_scan_page(&page) {
            scan.push(page);
        }
        i = i + 1;
    }
    assert(pages@.take(pages@.len() as int) =~= pages@);
    scan
}

/// What the signature search does next.
#[derive(Clone, Copy, Debug, PartialEq, Eq, Structural)]
pub enum ScanStep {
    /// Scan the page at this index of the enumeration.
    Scan(usize),
    /// The signature matched at this address.
    Found(usize),
    /// No page is left to scan in this enumeration.
    Exhausted,
}

/// One step of the signature search over the enumerated `pages`: `hit` is
/// what the last scan found, and `from` the index after the last page
/// scanned. A hit ends the search; otherwise the next page to scan is the
/// first candidate at or after `from`.
pub fn next_scan(pages: &Vec<Page>, from: usize, hit: Option<usize>) -> (step: ScanStep)
    requires
        from <= pages@.len(),
    ensures
        match step {
            ScanStep::Found(address) => hit == Some(address),
            ScanStep::Scan(i) => {
                &&& hit is None
                &&& from <= i < pages@.len()
                &&& is_scan_candidate(pages@[i as int])
                &&& forall|j: int| from <= j < i ==> !is_scan_candidate(#[trigger] pages@[j])
            },
            ScanStep::Exhausted => hit is None && forall|j: int|
                from <= j < pages@.len() ==> !is_scan_candidate(#[trigger] pages@[j]),
        },
{
    if let Some(address) = hit {
        return ScanStep::Found(address);
    }
    let mut i = from;
    while i < pages.len()
        invariant
            from <= i <= pages@.len(),
            hit is None,
            forall|j: int| from <= j < i ==> !is_scan_candidate(#[trigger] pages@[j]),
        decreases pages@.len() - i,
    {
        if is_scan_page(&pages[i]) {
            return ScanStep::Scan(i);
        }
        i = i + 1;
    }
    ScanStep::Exhausted
}

/// The positions of the line feeds in `s`, in increasing order.
pub open spec fn newline_positions(s: Seq<char>) -> Seq<int>
    decreases s.len(),
{
    if s.len() == 0 {
        seq![]
    } else {
        let before = newline_positions(s.drop_last());
        if s.last() == '\n' {
            before.push(s.len() - 1)
        } else {
            before
        }
    }
}

/// `s` split at every line feed, as `str::split("\n")` splits it: one more
/// piece than there are line feeds, the last one after the last line feed.
pub open spec fn split_lines(s: Seq<char>) -> Seq<Seq<char>> {
    let positions = newline_positions(s);
    let n = positions.len();
    Seq::new(
        n + 1,
        |k: int|
            s.subrange(
                if k == 0 { 0 } else { positions[k - 1] + 1 },
                if k == n { s.len() as int } else { positions[k] },
            ),
    )
}

pub open spec fn is_decimal_digit(c: char) -> bool {
    '0' as int <= c as int <= '9' as int
}

pub open spec fn digit_value(c: char) -> int {
    c as int - '0' as int
}

/// The number that a string of decimal digits spells.
pub open spec fn decimal_value(digits: Seq<char>) -> int
    decreases digits.len(),
{
    if digits.len() == 0 {
        0
    } else {
        decimal_value(digits.drop_last()) * 10 + digit_value(digits.last())
    }
}

/// `s` without its leading `+`, if it has one.
pub open spec fn unsigned_digits(s: Seq<char>) -> Seq<char> {
    if s.len() > 0 && s[0] == '+' {
        s.drop_first()
    } else {
        s
    }
}

pub open spec fn all_decimal_digits(digits: Seq<char>) -> bool {
    forall|i: int| 0 <= i < digits.len() ==> is_decimal_digit(#[trigger] digits[i])
}

/// What `str::parse::<u32>` makes of `s`: an optional `+` followed by at
/// least one decimal digit and nothing else, whose value fits in a `u32`.
pub open spec fn parse_u32(s: Seq<char>) -> Option<u32> {
    let digits = unsigned_digits(s);
    if digits.len() > 0 && all_decimal_digits(digits) && decimal_value(digits) <= u32::MAX {
        Some(decimal_value(digits) as u32)
    } else {
        None
    }
}

/// The line of `pgrep`'s output that holds the game's pid parses as a
/// number whenever it is looked at: there are at most two lines, or the
/// next to last one is a `u32`.
pub open spec fn pgrep_output_parses(output: Seq<char>) -> bool {
    let lines = split_lines(output);
    lines.len() <= 2 || parse_u32(lines[lines.len() - 2]) is Some
}

/// The game's pid as read from `pgrep`'s output: the number on the next to
/// last line, when there are more than two lines and that number is not 0.
pub open spec fn pgrep_pid(output: Seq<char>) -> Option<u32> {
    let lines = split_lines(output);
    if lines.len() <= 2 {
        None
    } else {
        let pid = parse_u32(lines[lines.len() - 2]).unwrap();
        if pid != 0 {
            Some(pid)
        } else {
            None
        }
    }
}

/// A string of digits is worth at least as much as any of its prefixes.
proof fn lemma_decimal_value_prefix(digits: Seq<char>, k: int)
    requires
        0 <= k <= digits.len(),
        forall|i: int| 0 <= i < digits.len() ==> is_decimal_digit(#[trigger] digits[i]),
    ensures
        0 <= decimal_value(digits.take(k)) <= decimal_value(digits),
    decreases digits.len(),
{
    if k < digits.len() {
        let shorter = digits.drop_last();
        assert(shorter.take(k) =~= digits.take(k));
        assert forall|i: int| 0 <= i < shorter.len() implies is_decimal_digit(#[trigger] shorter[i]) by {
            assert(shorter[i] == digits[i]);
        }
        lemma_decimal_value_prefix(shorter, k);
        assert(is_decimal_digit(digits[digits.len() - 1]));
    } else {
        assert(digits.take(k) =~= digits);
        lemma_decimal_value_nonnegative(digits);
    }
}

proof fn lemma_decimal_value_nonnegative(digits: Seq<char>)
    requires
        forall|i: int| 0 <= i < digits.len() ==> is_decimal_digit(#[trigger] digits[i]),
    ensures
        decimal_value(digits) >= 0,
    decreases digits.len(),
{
    if digits.len() > 0 {
        let shorter = digits.drop_last();
        assert forall|i: int| 0 <= i < shorter.len() implies is_decimal_digit(#[trigger] shorter[i]) by {
            assert(shorter[i] == digits[i]);
        }
        lemma_decimal_value_nonnegative(shorter);
        assert(is_decimal_digit(digits[digits.len() - 1]));
    }
}

/// Parses the characters `start..end` of `s` as `str::parse::<u32>` does.
pub fn parse_u32_range(s: &str, start: usize, end: usize) -> (parsed: Option<u32>)
    requires
        start <= end <= s@.len(),
    ensures
        parsed == parse_u32(s@.subrange(start as int, end as int)),
{
    let ghost field = s@.subrange(start as int, end as int);
    let mut i = start;
    if i < end && s.get_char(i) == '+' {
        i = i + 1;
    }
    let ghost digits = unsigned_digits(field);
    assert(digits =~= s@.subrange(i as int, end as int));
    if i == end {
        return None;
    }
    let first = i;
    let mut value: u64 = 0;
    while i < end
        invariant
            first <= i <= end <= s@.len(),
            first < end,
            start <= end,
            field == s@.subrange(start as int, end as int),
            digits == unsigned_digits(field),
            digits == s@.subrange(first as int, end as int),
            forall|j: int| 0 <= j < i - first ==> is_decimal_digit(#[trigger] digits[j]),
            value == decimal_value(digits.take(i - first)),
            value <= u32::MAX,
        decreases end - i,
    {
        let c = s.get_char(i);
        assert(c == digits[i - first]);
        if c < '0' || c > '9' {
            assert(!is_decimal_digit(digits[i - first]));
            assert(!all_decimal_digits(digits));
            assert(parse_u32(field) is None);
            return None;
        }
        let d: u64 = (c as u32 - '0' as u32) as u64;
        let ghost k = i - first;
        assert(digits.take(k + 1).drop_last() =~= digits.take(k));
        assert(digits.take(k + 1).last() == c);
        assert(decimal_value(digits.take(k + 1)) == decimal_value(digits.take(k)) * 10 + d);
        value = value * 10 + d;
        if value > u32::MAX as u64 {
            proof {
                if all_decimal_digits(digits) {
                    lemma_decimal_value_prefix(digits, k + 1);
                }
            }
            assert(parse_u32(field) is None);
            return None;
        }
        i = i + 1;
    }
    assert(digits.take(i - first) =~= digits);
    Some(value as u32)
}

/// Tells whether `get_pid` may be given this output of `pgrep`.
pub fn pgrep_output_is_parsable(output: &str) -> (ok: bool)
    ensures
        ok == pgrep_output_parses(output@),
{
    let positions = newlines(output);
    let n = positions.len();
    if n < 2 {
        return true;
    }
    parse_u32_range(output, positions[n - 2] + 1, positions[n - 1]).is_some()
}

/// The positions of the line feeds of `s`.
fn newlines(s: &str) -> (positions: Vec<usize>)
    ensures
        positions@.len() == newline_positions(s@).len(),
        forall|k: int| 0 <= k < positions@.len() ==> positions@[k] == newline_positions(s@)[k],
        forall|k: int| 0 <= k < positions@.len() ==> positions@[k] < s@.len(),
        forall|k: int, l: int| 0 <= k < l < positions@.len() ==> positions@[k] < positions@[l],
        s@.len() <= usize::MAX,
{
    let n = s.unicode_len();
    let mut positions: Vec<usize> = Vec::new();
    let mut i: usize = 0;
    while i < n
        invariant
            0 <= i <= n,
            n == s@.len(),
            positions@.len() == newline_positions(s@.take(i as int)).len(),
            forall|k: int| 0 <= k < positions@.len() ==> positions@[k] == newline_positions(s@.take(i as int))[k],
            forall|k: int| 0 <= k < positions@.len() ==> positions@[k] < i,
            forall|k: int, l: int| 0 <= k < l < positions@.len() ==> positions@[k] < positions@[l],
        decreases n - i,
    {
        let c = s.get_char(i);
        assert(s@.take(i + 1).drop_last() =~= s@.take(i as int));
        if c == '\n' {
            positions.push(i);
        }
        i = i + 1;
    }
    assert(s@.take(n as int) =~= s@);
    positions
}

/// Reads the game's pid from what `pgrep -f <name>` printed: the number on
/// the next to last line, when there are more than two lines and the number
/// is not 0.
pub fn get_pid(pgrep_output: &str) -> (pid: Option<u32>)
    requires
        pgrep_output_parses(pgrep_output@),
    ensures
        pid == pgrep_pid(pgrep_output@),
{
    let positions = newlines(pgrep_output);
    let n = positions.len();
    if n < 2 {
        return None;
    }
    match parse_u32_range(pgrep_output, positions[n - 2] + 1, positions[n - 1]) {
        Some(pid) => {
            if pid != 0 {
                Some(pid)
            } else {
                None
            }
        },
        None => {
            proof {
                let lines = split_lines(pgrep_output@);
                assert(lines[lines.len() - 2] == pgrep_output@.subrange(
                    positions@[n - 2] + 1,
                    positions@[n - 1] as int,
                ));
            }
            None
        },
    }
}

/// The character of a decimal digit.
pub open spec fn digit_char(d: int) -> char {
    ('0' as int + d) as char
}

/// The decimal rendering of `n` without leading zeros, as `to_string`
/// writes it.
pub open spec fn decimal(n: nat) -> Seq<char>
    decreases n,
{
    if n < 10 {
        seq![digit_char(n as int)]
    } else {
        decimal(n / 10).push(digit_char((n % 10) as int))
    }
}

fn digit_str(d: u32) -> (text: &'static str)
    requires
        d < 10,
    ensures
        text@ == seq![digit_char(d as int)],
{
    proof {
        reveal_strlit("0");
        reveal_strlit("1");
        reveal_strlit("2");
        reveal_strlit("3");
        reveal_strlit("4");
        reveal_strlit("5");
        reveal_strlit("6");
        reveal_strlit("7");
        reveal_strlit("8");
        reveal_strlit("9");
    }
    if d == 0 {
        "0"
    } else if d == 1 {
        "1"
    } else if d == 2 {
        "2"
    } else if d == 3 {
        "3"
    } else if d == 4 {
        "4"
    } else if d == 5 {
        "5"
    } else if d == 6 {
        "6"
    } else if d == 7 {
        "7"
    } else if d == 8 {
        "8"
    } else {
        "9"
    }
}

/// Appends the decimal rendering of `n` to `text`.
fn push_decimal(text: &mut String, n: u32)
    ensures
        final(text)@ == old(text)@ + decimal(n as nat),
    decreases n,
{
    if n >= 10 {
        push_decimal(text, n / 10);
    }
    text.append(digit_str(n % 10));
}

/// The command that lists the pids of the processes whose command line
/// holds `process_name`.
pub fn pgrep_command(process_name: &str) -> (command: String)
    ensures
        command@ == "pgrep -f "@ + process_name@,
{
    let mut command = String::from_str("pgrep -f ");
    command.append(process_name);
    command
}

/// A signal that stops or resumes a process.
#[derive(Clone, Copy, Debug, PartialEq, Eq, Structural)]
pub enum Signal {
    Stop,
    Continue,
}

/// The start of the shell command that sends `signal`.
pub open spec fn kill_prefix(signal: Signal) -> Seq<char> {
    match signal {
        Signal::Stop => "kill -SIGSTOP "@,
        Signal::Continue => "kill -SIGCONT "@,
    }
}

/// The shell command that sends `signal` to the process `pid`.
pub fn kill_command(signal: Signal, pid: u32) -> (command: String)
    ensures
        command@ == kill_prefix(signal) + decimal(pid as nat),
{
    let mut command = match signal {
        Signal::Stop => String::from_str("kill -SIGSTOP "),
        Signal::Continue => String::from_str("kill -SIGCONT "),
    };
    push_decimal(&mut command, pid);
    command
}

/// The error of both `pause_target` and `resume_target` when the game's pid
/// is unknown.
pub open spec fn signal_error() -> Seq<char> {
    "failed to pause target."@
}

/// What stops the game, given its pid as `get_pid` found it: the shell
/// command that sends it SIGSTOP, or an error when no pid was found.
pub fn pause_target(pid: Option<u32>) -> (command: Result<String, &'static str>)
    ensures
        match pid {
            Some(p) => command matches Ok(c) && c@ == kill_prefix(Signal::Stop) + decimal(p as nat),
            None => command matches Err(e) && e@ == signal_error(),
        },
{
    match pid {
        Some(p) => Ok(kill_command(Signal::Stop, p)),
        None => Err("failed to pause target."),
    }
}

/// What resumes the game, given its pid as `get_pid` found it: the shell
/// command that sends it SIGCONT, or an error when no pid was found. The
/// error reads as the one of `pause_target`.
pub fn resume_target(pid: Option<u32>) -> (command: Result<String, &'static str>)
    ensures
        match pid {
            Some(p) => command matches Ok(c) && c@ == kill_prefix(Signal::Continue) + decimal(p as nat),
            None => command matches Err(e) && e@ == signal_error(),
        },
{
    match pid {
        Some(p) => Ok(kill_command(Signal::Continue, p)),
        None => Err("failed to pause target."),
    }
}

proof fn lemma_decimal_digits(n: nat)
    ensures
        decimal(n).len() > 0,
        all_decimal_digits(decimal(n)),
        decimal_value(decimal(n)) == n,
        decimal(n)[0] != '+',
    decreases n,
{
    if n >= 10 {
        lemma_decimal_digits(n / 10);
        let d = decimal(n);
        let prefix = decimal(n / 10);
        assert(d.drop_last() =~= prefix);
        assert forall|i: int| 0 <= i < d.len() implies is_decimal_digit(#[trigger] d[i]) by {
            if i < prefix.len() {
                assert(d[i] == prefix[i]);
            }
        }
        assert(d[0] == prefix[0]);
        assert(digit_char((n % 10) as int) as int == '0' as int + n % 10);
        assert(decimal_value(d) == decimal_value(prefix) * 10 + (n % 10));
        assert(n == (n / 10) * 10 + n % 10);
    } else {
        let d = decimal(n);
        assert(d.drop_last() =~= Seq::<char>::empty());
        assert(decimal_value(Seq::<char>::empty()) == 0);
        assert(d.last() == digit_char(n as int));
        assert(digit_char(n as int) as int == '0' as int + n);
        assert(decimal_value(d) == n);
    }
}

/// A pid rendered by `kill_command` reads back as the same number when
/// parsed as `get_pid` parses a line of `pgrep`'s output.
pub proof fn lemma_pid_rendering_parses_back(pid: u32)
    ensures
        parse_u32(decimal(pid as nat)) == Some(pid),
{
    lemma_decimal_digits(pid as nat);
    assert(unsigned_digits(decimal(pid as nat)) == decimal(pid as nat));
}

/// Characters without a line feed add no line feed position.
proof fn lemma_newlines_of_line_feed_free_suffix(x: Seq<char>, y: Seq<char>)
    requires
        forall|i: int| 0 <= i < y.len() ==> #[trigger] y[i] != '\n',
    ensures
        newline_positions(x + y) == newline_positions(x),
    decreases y.len(),
{
    if y.len() == 0 {
        assert(x + y =~= x);
    } else {
        let shorter = y.drop_last();
        assert forall|i: int| 0 <= i < shorter.len() implies #[trigger] shorter[i] != '\n' by {
            assert(shorter[i] == y[i]);
        }
        lemma_newlines_of_line_feed_free_suffix(x, shorter);
        assert((x + y).drop_last() =~= x + shorter);
        assert((x + y).last() == y[y.len() - 1]);
    }
}

/// The pid is read from the line just before the final line feed, however
/// many lines come before it: after any output that ends a line, a line
/// holding the decimal rendering of `pid` followed by a line feed makes the
/// pid `pid`, or no pid when `pid` is 0.
pub proof fn lemma_pid_is_next_to_last_line(output: Seq<char>, pid: u32)
    requires
        output.len() > 0,
        output.last() == '\n',
    ensures
        pgrep_output_parses(output + decimal(pid as nat) + seq!['\n']),
        pgrep_pid(output + decimal(pid as nat) + seq!['\n']) == if pid != 0 {
            Some(pid)
        } else {
            None::<u32>
        },
{
    let digits = decimal(pid as nat);
    lemma_decimal_digits(pid as nat);
    lemma_pid_rendering_parses_back(pid);
    assert forall|i: int| 0 <= i < digits.len() implies #[trigger] digits[i] != '\n' by {
        assert(is_decimal_digit(digits[i]));
    }
    let body = output + digits;
    let whole = output + digits + seq!['\n'];
    assert(whole =~= body.push('\n'));
    lemma_newlines_of_line_feed_free_suffix(output, digits);
    assert(body.push('\n').drop_last() =~= body);
    let before = newline_positions(output.drop_last());
    assert(output.drop_last().push('\n') =~= output);
    assert(newline_positions(output) == before.push(output.len() - 1));
    let positions = newline_positions(whole);
    assert(positions == before.push(output.len() - 1).push(whole.len() - 1));
    let n = positions.len();
    assert(positions[n - 1] == whole.len() - 1);
    assert(positions[n - 2] == output.len() - 1);
    let lines = split_lines(whole);
    assert(lines[lines.len() - 2] == whole.subrange(output.len() as int, whole.len() - 1));
    assert(whole.subrange(output.len() as int, whole.len() - 1) =~= digits);
}

/// A page is searched for signatures exactly when it starts at or above
/// 0x1_4000_0000 and is executable (X, XR, XW or XRW), whatever else it is.
pub proof fn lemma_scan_pages_start_at_image_base(page: Page)
    ensures
        is_scan_candidate(page) <==> (page.base as int >= 0x1_4000_0000 && (page.prot == Prot::X || page.prot
            == Prot::XR || page.prot == Prot::XW || page.prot == Prot::XRW)),
{
}

/// Every recorded line feed position holds a line feed, and the positions
/// increase.
proof fn lemma_newline_positions_are_line_feeds(s: Seq<char>)
    ensures
        forall|k: int|
            0 <= k < newline_positions(s).len() ==> 0 <= #[trigger] newline_positions(s)[k] < s.len()
                && s[newline_positions(s)[k]] == '\n',
        forall|k: int, l: int|
            0 <= k < l < newline_positions(s).len() ==> newline_positions(s)[k] < newline_positions(s)[l],
    decreases s.len(),
{
    if s.len() > 0 {
        let shorter = s.drop_last();
        lemma_newline_positions_are_line_feeds(shorter);
        assert forall|k: int| 0 <= k < newline_positions(shorter).len() implies s[newline_positions(shorter)[k]]
            == shorter[newline_positions(shorter)[k]] by {}
    }
}

/// Output with at most one line feed gives no pid.
pub proof fn lemma_pid_needs_two_line_feeds(output: Seq<char>)
    requires
        forall|i: int, j: int| 0 <= i < j < output.len() && output[i] == '\n' ==> output[j] != '\n',
    ensures
        pgrep_output_parses(output),
        pgrep_pid(output) is None,
{
    lemma_newline_positions_are_line_feeds(output);
    let positions = newline_positions(output);
    if positions.len() >= 2 {
        assert(output[positions[0]] == '\n');
        assert(output[positions[1]] == '\n');
        assert(positions[0] < positions[1]);
    }
}

} // verus!
