//! The log of a board: the stream, the boots and their archives.
use sermcp::log_archive::{
    is_archive, kept_content, list_archives, live_read_target, no_content, read_target,
    read_target_content, surplus_archives, LogContent, LogFileInfo,
};
use sermcp::log_manager::{boot_count, boot_log_name, BootArchive, LogManager};
use sermcp::unclassified::{read_unclassified, unclassified_text};

/// What would stand on disk.
struct Disk {
    count: Option<String>,
    files: Vec<(String, Vec<u8>)>,
    ticks: u32,
}

impl Disk {
    fn new() -> Self {
        Disk { count: None, files: Vec::new(), ticks: 0 }
    }

    fn keep(&mut self, lm: &LogManager, a: BootArchive) {
        self.count = Some(a.number.to_string());
        let name = sermcp::path::file_name(&a.path).unwrap();
        self.files.push((name, a.data));
        for old in surplus_archives(&self.infos(), lm.max_logs) {
            self.files.retain(|(n, _)| *n != old);
        }
    }

    fn time(&mut self) -> String {
        self.ticks += 1;
        format!("20260101_{:06}", self.ticks)
    }

    fn rotate(&mut self, lm: &mut LogManager) {
        let t = self.time();
        let a = lm.rotate(&self.count, &t);
        self.keep(lm, a);
    }

    fn mark(&mut self, lm: &mut LogManager) {
        let t = self.time();
        if let Some(a) = lm.mark_boot_start(&self.count, &t) {
            self.keep(lm, a);
        }
    }

    fn infos(&self) -> Vec<LogFileInfo> {
        let mut v: Vec<LogFileInfo> = self
            .files
            .iter()
            .map(|(n, d)| LogFileInfo { name: n.clone(), size: d.len() as u64 })
            .collect();
        v.push(LogFileInfo { name: "current.serial.log".into(), size: 0 });
        v
    }

    fn read(&self, lm: &LogManager, index: usize, lines: usize, pattern: Option<&str>) -> LogContent {
        match read_target(&self.infos(), lm.log_dir(), index) {
            None => no_content(""),
            Some(t) => {
                let data = &self.files.iter().find(|(n, _)| *n == t.filename).unwrap().1;
                let text = String::from_utf8_lossy(data).to_string();
                let all: Vec<String> = text.lines().map(str::to_string).collect();
                read_target_content(&t.filename, &all, lines, pattern)
            }
        }
    }
}

fn manager(max_logs: usize) -> LogManager {
    LogManager::new("/project", max_logs, ".dut-serial")
}

fn contains_bytes(haystack: &[u8], needle: &[u8]) -> bool {
    haystack.windows(needle.len()).any(|window| window == needle)
}

#[test]
fn fresh_log_manager_serves_live_current_log() {
    let mut lm = manager(10);
    lm.write(b"hello live log\n");
    let target = live_read_target(lm.current_path());
    let lines = vec!["hello live log".to_string()];
    let content = read_target_content(&target.filename, &lines, 50, None);
    assert!(
        content.content.contains("hello live log"),
        "fresh live log must be readable, got: {:?}",
        content.content
    );
    assert_eq!(content.filename, "current.serial.log");
}

#[test]
fn test_boot_number_increments() {
    let mut disk = Disk::new();
    let mut lm = manager(10);
    disk.rotate(&mut lm);
    assert_eq!(lm.boot_number(), 1);
    disk.rotate(&mut lm);
    assert_eq!(lm.boot_number(), 2);
    disk.rotate(&mut lm);
    assert_eq!(lm.boot_number(), 3);
}

#[test]
fn test_write_preserves_raw_dut_bytes_in_current_full_and_ring() {
    let mut lm = manager(10);
    let raw = b"state \x1b[32mUP\x1b[0m\0\x01\r\n    inet \x1b[32m127.0.0.1\x1b[0m/8\n";
    lm.write(raw);
    assert!(contains_bytes(&lm.ring_buffer, raw));
}

#[test]
fn test_write_preserves_split_ip_color_sequences_without_inserting_m() {
    let mut lm = manager(10);
    let chunks: [&[u8]; 5] = [
        b"2: eth0: <BROADCAST> mtu 1500 state \x1b[32",
        b"mUP\x1b[0",
        b"m group default\n    inet \x1b[32",
        b"m127.0.0.1\x1b[0",
        b"m/8 scope host lo\n",
    ];
    for chunk in chunks {
        lm.write(chunk);
    }
    let expected = b"2: eth0: <BROADCAST> mtu 1500 state \x1b[32mUP\x1b[0m group default\n    inet \x1b[32m127.0.0.1\x1b[0m/8 scope host lo\n";
    assert!(contains_bytes(&lm.ring_buffer, expected));
    assert!(!contains_bytes(&lm.ring_buffer, b"state mUP"));
    assert!(!contains_bytes(&lm.ring_buffer, b"inet m127"));
}

#[test]
fn test_rotate_preserves_raw_dut_bytes_in_archive() {
    let mut disk = Disk::new();
    let mut lm = manager(10);
    let raw = b"awlink0: <NOARP,ECHO> state \x1b[31mDOWN\x1b[0m\0\n";
    lm.write(raw);
    disk.rotate(&mut lm);
    let archived = &disk
        .files
        .iter()
        .find(|(n, _)| n.starts_with("boot-") && n.ends_with(".log"))
        .expect("expected archived boot log")
        .1;
    assert!(contains_bytes(archived, raw));
}

#[test]
fn test_cleanup_old_logs() {
    let mut disk = Disk::new();
    let mut lm = manager(3);
    disk.rotate(&mut lm);
    lm.write(b"boot 0\n");
    for i in 1..5 {
        disk.rotate(&mut lm);
        lm.write(format!("boot {i}\n").as_bytes());
    }
    let archives = list_archives(&disk.infos());
    assert!(archives.len() <= 3, "Expected <= 3 logs, got {}", archives.len());
}

#[test]
fn test_list_archives_ordering() {
    let mut disk = Disk::new();
    let mut lm = manager(10);
    for i in 1..=3 {
        lm.write(format!("boot {i}\n").as_bytes());
        disk.rotate(&mut lm);
    }
    let archives = list_archives(&disk.infos());
    assert_eq!(archives.len(), 3);
    assert!(archives[0].filename > archives[1].filename);
    assert!(archives[1].filename > archives[2].filename);
    assert_eq!((archives[0].index, archives[2].index), (0, 2));
}

#[test]
fn test_read_log_basic() {
    let mut disk = Disk::new();
    let mut lm = manager(10);
    for i in 1..=10 {
        lm.write(format!("line {i}\n").as_bytes());
    }
    disk.rotate(&mut lm);
    let result = disk.read(&lm, 0, 5, None);
    assert!(result.total_lines >= 10);
    assert_eq!(result.filtered_lines, result.total_lines);
    let content_lines = result.content.lines().count();
    assert_eq!(content_lines, 5);
    assert!(result.content.contains("line 10"));
}

#[test]
fn test_read_log_with_pattern() {
    let mut disk = Disk::new();
    let mut lm = manager(10);
    lm.write(b"ERROR: something failed\n");
    lm.write(b"INFO: all good\n");
    lm.write(b"ERROR: another failure\n");
    lm.write(b"DEBUG: debugging\n");
    disk.rotate(&mut lm);
    let result = disk.read(&lm, 0, 100, Some("ERROR"));
    assert_eq!(result.filtered_lines, 2);
    assert!(result.content.contains("ERROR"));
    assert!(!result.content.contains("INFO"));
    assert!(!result.content.contains("DEBUG"));
}

#[test]
fn test_read_log_archive_index() {
    let mut disk = Disk::new();
    let mut lm = manager(10);
    lm.write(b"boot 1 data\n");
    disk.rotate(&mut lm);
    lm.write(b"boot 2 data\n");
    disk.rotate(&mut lm);
    let result = disk.read(&lm, 0, 100, None);
    assert!(result.content.contains("boot 2 data"));
    let result = disk.read(&lm, 1, 100, None);
    assert!(result.content.contains("boot 1 data"));
    let result = disk.read(&lm, 99, 100, None);
    assert_eq!(result.content, "");
}

#[test]
fn test_boot_count_file() {
    let mut disk = Disk::new();
    let mut lm = manager(10);
    disk.rotate(&mut lm);
    assert_eq!(disk.count.as_deref(), Some("1"));
    disk.rotate(&mut lm);
    assert_eq!(disk.count.as_deref(), Some("2"));
}

#[test]
fn test_mark_boot_start_creates_numbered_log() {
    let mut disk = Disk::new();
    let mut lm = manager(10);
    lm.write(b"SPL: U-Boot 2024\n");
    lm.write(b"kernel booting...\n");
    disk.mark(&mut lm);
    let numbered = disk.files.iter().filter(|(n, _)| is_archive(n)).count();
    assert_eq!(numbered, 1, "mark_boot_start should create exactly 1 boot log");
}

#[test]
fn test_mark_boot_start_preserves_archive_content() {
    let mut disk = Disk::new();
    let mut lm = manager(10);
    lm.write(b"boot 1 line A\n");
    lm.write(b"boot 1 line B\n");
    disk.mark(&mut lm);
    assert_eq!(disk.files.len(), 1);
    let archive_content = String::from_utf8_lossy(&disk.files[0].1).to_string();
    assert!(
        archive_content.contains("boot 1 line A"),
        "archived boot log must preserve its data, got: {archive_content:?}"
    );
    assert!(archive_content.contains("boot 1 line B"));
}

#[test]
fn test_mark_boot_start_resets_cycle() {
    let mut disk = Disk::new();
    let mut lm = manager(10);
    lm.write(b"boot 1 data\n");
    let boot1 = lm.boot_number();
    disk.mark(&mut lm);
    assert_eq!(lm.boot_number(), boot1 + 1);
    lm.write(b"boot 2 data\n");
    disk.mark(&mut lm);
    let second = String::from_utf8_lossy(&disk.files[1].1).to_string();
    assert!(second.contains("boot 2 data"));
    assert!(!second.contains("boot 1 data"));
}

#[test]
fn test_empty_log_returns_nothing() {
    let disk = Disk::new();
    let lm = manager(10);
    let result = disk.read(&lm, 0, 50, None);
    assert!(result.content.is_empty());
}

#[test]
fn test_archive_index_bounds() {
    let disk = Disk::new();
    let lm = manager(10);
    let result = disk.read(&lm, 999, 50, None);
    assert!(result.content.is_empty());
}

#[test]
fn test_double_mark_boot_start_no_empty_logs() {
    let mut disk = Disk::new();
    let mut lm = manager(10);
    lm.write(b"real boot data\n");
    disk.mark(&mut lm);
    disk.mark(&mut lm);
    assert_eq!(disk.files.len(), 1, "double mark with no data should NOT create empty logs");
}

#[test]
fn a_cursor_finds_what_came_in_after_it() {
    let mut lm = manager(10);
    lm.write(b"before");
    let cursor = lm.stream_cursor();
    assert!(!lm.stream_has_new(cursor));
    lm.write(b" after");
    assert!(lm.stream_has_new(cursor));
    assert_eq!(lm.stream_tail_since(cursor), (b" after".to_vec(), false));
    assert_eq!(lm.stream_tail_since(0), (b"before after".to_vec(), false));
}

#[test]
fn a_cursor_that_fell_behind_is_told_so() {
    let mut lm = manager(10);
    lm.max_buffer_size = 10;
    lm.write(b"0123456789abcdef");
    let (tail, lost) = lm.stream_tail_since(0);
    assert!(lost);
    assert_eq!(tail, b"bcdef".to_vec());
    assert_eq!(lm.stream_cursor(), 16);
}

#[test]
fn boots_are_counted_from_what_the_file_says() {
    let s = |t: &str| Some(t.to_string());
    assert_eq!(boot_count(&None), 0);
    assert_eq!(boot_count(&s(" 41\n")), 41);
    assert_eq!(boot_count(&s("many")), 0);
    assert_eq!(boot_log_name(7, "20260101_120000"), "boot-007_20260101_120000.log");
    assert_eq!(boot_log_name(1234, "t"), "boot-1234_t.log");
}

#[test]
fn every_log_but_the_two_live_ones_is_an_archive() {
    assert!(is_archive("x.log"));
    assert!(!is_archive("full.serial.log"));
    assert!(is_archive("boot-001_x.log"));
    assert!(!is_archive("current.serial.log"));
    assert!(!is_archive("boot-001_x.txt"));
}

#[test]
fn the_oldest_archives_are_the_surplus() {
    let files: Vec<LogFileInfo> = ["boot-002_b.log", "boot-001_a.log", "x.log", "boot-003_c.log"]
        .iter()
        .map(|n| LogFileInfo { name: n.to_string(), size: 1 })
        .collect();
    assert_eq!(surplus_archives(&files, 2), ["boot-001_a.log", "boot-002_b.log"]);
    assert!(surplus_archives(&files, 4).is_empty());
}

#[test]
fn a_later_boot_is_newer_though_its_number_is_longer() {
    let files: Vec<LogFileInfo> =
        ["boot-1000_a.log", "boot-998_c.log", "full.serial.log", "boot-999_b.log"]
            .iter()
            .map(|n| LogFileInfo { name: n.to_string(), size: 1 })
            .collect();
    assert_eq!(surplus_archives(&files, 1), ["boot-998_c.log", "boot-999_b.log"]);
    assert_eq!(surplus_archives(&files, 0).len(), 3);
    let listed = list_archives(&files);
    assert_eq!(listed[0].filename, "boot-1000_a.log");
}

#[test]
fn a_pattern_is_read_without_regard_to_case() {
    let lines: Vec<String> = vec!["Error one".into(), "fine".into(), "ERROR two".into()];
    let c = read_target_content("f", &lines, 10, Some("error"));
    assert_eq!((c.total_lines, c.filtered_lines), (3, 2));
    assert_eq!(c.content, "Error one\nERROR two");
}

#[test]
fn a_pattern_that_is_none_keeps_every_line() {
    let lines: Vec<String> = vec!["a".into(), "b".into()];
    let c = read_target_content("f", &lines, 10, Some("("));
    assert_eq!(c.filtered_lines, 2);
    let c = read_target_content("f", &lines, 1, None);
    assert_eq!(c.content, "b");
}

#[test]
fn lines_are_kept_as_told() {
    let lines: Vec<String> = vec!["a".into(), "b".into(), "c".into()];
    let c = kept_content("f", &lines, &vec![true, false, true], 5);
    assert_eq!((c.content.as_str(), c.total_lines, c.filtered_lines), ("a\nc", 3, 2));
}

#[test]
fn unclassified_lines_are_given_back() {
    let lines: Vec<String> = vec!["one".into(), "two words".into()];
    let text = unclassified_text(&lines);
    assert_eq!(text, "one\ntwo words\n");
    assert_eq!(read_unclassified(&text), lines);
    assert!(read_unclassified("").is_empty());
}
