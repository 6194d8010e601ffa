//! The log of a serial stream: what is kept in memory, how it is cut into one
//! archive for each boot, and how archives are listed and read.
use crate::number::{decimal, decimal_text, parse_unsigned, unsigned};
use crate::path::{join_path, joined_path};
use crate::text::{opt_text, owned, trim, trimmed};
use vstd::prelude::*;

verus! {

// ── The stream in memory ─────────────────────────────────────────────
/// How many bytes of the stream are kept in memory at most.
pub const MAX_BUFFER_SIZE: usize = 2_097_152;

/// The state of the log of one board.
#[derive(Debug)]
pub struct LogManager {
    /// Where the logs stand.
    pub log_dir: String,
    /// Where everything about the board stands.
    pub dut_dir: String,
    /// How many archives are kept.
    pub max_logs: usize,
    /// The file that the stream is written to.
    pub current_path: String,
    /// The number of the last archive.
    pub boot_number: u32,
    /// The end of the stream.
    pub ring_buffer: Vec<u8>,
    /// How long the stream is, since it began.
    pub stream_bytes_written: u64,
    /// Where the current boot begins in the buffer.
    pub boot_start_pos: usize,
    /// How many bytes the buffer holds at most.
    pub max_buffer_size: usize,
}

/// The meaning of a [`LogManager`].
#[verifier::ext_equal]
pub ghost struct LogView {
    pub log_dir: Seq<char>,
    pub dut_dir: Seq<char>,
    pub max_logs: nat,
    pub current_path: Seq<char>,
    pub boot_number: u32,
    pub ring: Seq<u8>,
    pub written: u64,
    pub boot_start: nat,
    pub max_buffer: nat,
}

impl View for LogManager {
    type V = LogView;

    open spec fn view(&self) -> LogView {
        LogView {
            log_dir: self.log_dir@,
            dut_dir: self.dut_dir@,
            max_logs: self.max_logs as nat,
            current_path: self.current_path@,
            boot_number: self.boot_number,
            ring: self.ring_buffer@,
            written: self.stream_bytes_written,
            boot_start: self.boot_start_pos as nat,
            max_buffer: self.max_buffer_size as nat,
        }
    }
}

/// The file that the stream of a board is written to.
pub open spec fn live_log(log_dir: Seq<char>) -> Seq<char> {
    joined_path(log_dir, "current.serial.log"@)
}

/// A log before anything came in.
pub open spec fn new_log(project_dir: Seq<char>, max_logs: nat, dut_dir: Seq<char>) -> LogView {
    let dut = joined_path(project_dir, dut_dir);
    let logs = joined_path(dut, "logs"@);
    LogView {
        log_dir: logs,
        dut_dir: dut,
        max_logs,
        current_path: live_log(logs),
        boot_number: 0,
        ring: Seq::empty(),
        written: 0,
        boot_start: 0,
        max_buffer: MAX_BUFFER_SIZE as nat,
    }
}

/// A length that is counted up, and stays at the largest number that can be
/// counted.
pub open spec fn counted(n: u64, more: nat) -> u64 {
    if n + more > u64::MAX {
        u64::MAX
    } else {
        (n + more) as u64
    }
}

/// The log after some bytes came in. Where the buffer would hold more than
/// its maximum, only the last half of that is kept.
pub open spec fn written(l: LogView, data: Seq<u8>) -> LogView {
    let all = l.ring + data;
    let drop = if all.len() > l.max_buffer {
        all.len() - l.max_buffer / 2
    } else {
        0
    };
    LogView {
        ring: all.skip(drop),
        written: counted(l.written, data.len()),
        boot_start: if l.boot_start >= drop {
            (l.boot_start - drop) as nat
        } else {
            0
        },
        ..l
    }
}

/// Where in the stream the buffer begins.
pub open spec fn buffer_base(l: LogView) -> int {
    if l.written >= l.ring.len() {
        l.written - l.ring.len()
    } else {
        0
    }
}

/// Where in the buffer the bytes behind a position of the stream begin.
pub open spec fn tail_start(l: LogView, cursor: u64) -> int {
    let base = buffer_base(l);
    let c = if cursor < base {
        base
    } else if cursor > l.written {
        l.written as int
    } else {
        cursor as int
    };
    c - base
}

/// The bytes behind a position of the stream, as far as they are kept.
pub open spec fn tail_since(l: LogView, cursor: u64) -> Seq<u8> {
    l.ring.skip(tail_start(l, cursor))
}

/// Whether bytes behind a position of the stream are no longer kept.
pub open spec fn tail_is_cut(l: LogView, cursor: u64) -> bool {
    cursor < buffer_base(l)
}

impl LogManager {
    /// The log of the board in `dut_dir` of a project.
    pub fn new(project_dir: &str, max_logs: usize, dut_dir: &str) -> (r: Self)
        ensures
            r@ == new_log(project_dir@, max_logs as nat, dut_dir@),
    {
        let dut = join_path(project_dir, dut_dir);
        let logs = join_path(dut.as_str(), "logs");
        let live = join_path(logs.as_str(), "current.serial.log");
        let r = LogManager {
            log_dir: logs,
            dut_dir: dut,
            max_logs,
            current_path: live,
            boot_number: 0,
            ring_buffer: Vec::new(),
            stream_bytes_written: 0,
            boot_start_pos: 0,
            max_buffer_size: MAX_BUFFER_SIZE,
        };
        assert(r@ =~= new_log(project_dir@, max_logs as nat, dut_dir@));
        r
    }

    /// The file that the stream is written to.
    pub fn current_path(&self) -> (r: &str)
        ensures
            r@ == self@.current_path,
    {
        self.current_path.as_str()
    }

    /// Where the logs stand.
    pub fn log_dir(&self) -> (r: &str)
        ensures
            r@ == self@.log_dir,
    {
        self.log_dir.as_str()
    }

    /// Where everything about the board stands.
    pub fn dut_dir(&self) -> (r: &str)
        ensures
            r@ == self@.dut_dir,
    {
        self.dut_dir.as_str()
    }

    /// The number of the last archive.
    pub fn boot_number(&self) -> (r: u32)
        ensures
            r == self@.boot_number,
    {
        self.boot_number
    }

    /// Takes in the next bytes of the stream.
    pub fn write(&mut self, data: &[u8])
        ensures
            final(self)@ == written(old(self)@, data@),
    {
        let ghost l = self@;
        let mut i: usize = 0;
        while i < data.len()
            invariant
                i <= data@.len(),
                self@ == (LogView { ring: l.ring + data@.take(i as int), ..l }),
            decreases data@.len() - i,
        {
            self.ring_buffer.push(data[i]);
            i += 1;
            assert(self@ =~= (LogView { ring: l.ring + data@.take(i as int), ..l }));
        }
        let ghost all = l.ring + data@;
        assert(self.ring_buffer@ =~= all);
        self.stream_bytes_written = self.stream_bytes_written.saturating_add(data.len() as u64);
        let len: usize = self.ring_buffer.len();
        if len > self.max_buffer_size {
            let drop: usize = len - self.max_buffer_size / 2;
            let mut kept: Vec<u8> = Vec::new();
            let mut k: usize = drop;
            while k < len
                invariant
                    drop <= k <= len,
                    len == self.ring_buffer@.len(),
                    kept@ == self.ring_buffer@.subrange(drop as int, k as int),
                decreases len - k,
            {
                kept.push(self.ring_buffer[k]);
                k += 1;
                assert(kept@ =~= self.ring_buffer@.subrange(drop as int, k as int));
            }
            assert(kept@ =~= all.skip(drop as int));
            self.ring_buffer = kept;
            self.boot_start_pos = if self.boot_start_pos >= drop {
                self.boot_start_pos - drop
            } else {
                0
            };
        } else {
            assert(all.skip(0) =~= all);
        }
        assert(self@ =~= written(l, data@));
    }

    /// The position of the end of the stream.
    pub fn stream_cursor(&self) -> (r: u64)
        ensures
            r == self@.written,
    {
        self.stream_bytes_written
    }

    /// Whether the end of the stream is elsewhere than at a position.
    pub fn stream_has_new(&self, cursor: u64) -> (r: bool)
        ensures
            r == (self@.written != cursor),
    {
        self.stream_bytes_written != cursor
    }

    /// The bytes behind a position of the stream, as far as they are kept,
    /// and whether some of them are not.
    pub fn stream_tail_since(&self, cursor: u64) -> (r: (Vec<u8>, bool))
        ensures
            r.0@ == tail_since(self@, cursor),
            r.1 == tail_is_cut(self@, cursor),
    {
        let len: usize = self.ring_buffer.len();
        let base: u64 = self.stream_bytes_written.saturating_sub(len as u64);
        let cut = cursor < base;
        let c: u64 = if cut {
            base
        } else if cursor > self.stream_bytes_written {
            self.stream_bytes_written
        } else {
            cursor
        };
        let start: usize = (c - base) as usize;
        let mut out: Vec<u8> = Vec::new();
        let mut k: usize = start;
        while k < len
            invariant
                start <= k <= len,
                len == self.ring_buffer@.len(),
                out@ == self.ring_buffer@.subrange(start as int, k as int),
            decreases len - k,
        {
            out.push(self.ring_buffer[k]);
            k += 1;
            assert(out@ =~= self.ring_buffer@.subrange(start as int, k as int));
        }
        assert(out@ =~= tail_since(self@, cursor));
        (out, cut)
    }
}

/// The log is sound: what is kept belongs to the stream, is no more than the
/// maximum, and the current boot begins within it.
pub open spec fn sound(l: LogView) -> bool {
    &&& l.ring.len() <= l.max_buffer
    &&& l.ring.len() <= l.written
    &&& l.boot_start <= l.ring.len()
}

/// A new log is sound, and stays so whatever comes in, as long as the stream
/// can be counted.
pub proof fn lemma_stays_sound(l: LogView, data: Seq<u8>)
    requires
        sound(l),
        l.written + data.len() <= u64::MAX,
    ensures
        sound(written(l, data)),
        written(l, data).written == l.written + data.len(),
{
}

/// A new log is sound.
pub proof fn lemma_new_is_sound(project_dir: Seq<char>, max_logs: nat, dut_dir: Seq<char>)
    ensures
        sound(new_log(project_dir, max_logs, dut_dir)),
{
}

/// A position of the stream keeps its meaning while bytes come in: what stands
/// behind it is what stood behind it before, and the new bytes behind that.
/// Where too much came in, the front of it is cut off, and that is told.
pub proof fn lemma_cursor_keeps_its_meaning(l: LogView, data: Seq<u8>, cursor: u64)
    requires
        sound(l),
        l.written + data.len() <= u64::MAX,
        cursor <= l.written,
    ensures
        ({
            let after = written(l, data);
            let expected = tail_since(l, cursor) + data;
            let got = tail_since(after, cursor);
            &&& got.len() <= expected.len()
            &&& got == expected.skip(expected.len() - got.len())
            &&& !tail_is_cut(after, cursor) ==> got == expected
            &&& tail_is_cut(after, cursor) ==> got == after.ring
        }),
{
    let after = written(l, data);
    let all = l.ring + data;
    let expected = tail_since(l, cursor) + data;
    let got = tail_since(after, cursor);
    let drop = all.len() - after.ring.len();
    let a = tail_start(l, cursor);
    let b = tail_start(after, cursor);
    assert(expected =~= all.skip(a));
    assert(got =~= all.skip(drop + b));
    assert(buffer_base(after) == buffer_base(l) + drop);
    assert(drop + b >= a);
    assert(expected.skip(expected.len() - got.len()) =~= got);
    if !tail_is_cut(after, cursor) {
        assert(drop + b == a);
    } else {
        assert(after.ring.skip(0) =~= after.ring);
    }
}

/// Nothing stands behind the end of the stream.
pub proof fn lemma_end_of_stream(l: LogView)
    requires
        sound(l),
    ensures
        tail_since(l, l.written) == Seq::<u8>::empty(),
        !tail_is_cut(l, l.written),
{
    assert(tail_since(l, l.written) =~= Seq::<u8>::empty());
}

// ── One archive for each boot ────────────────────────────────────────
/// How many boots were counted: what the counter file says, or none.
pub open spec fn boot_count_of(text: Option<Seq<char>>) -> nat {
    match text {
        Some(t) => match unsigned(trimmed(t), u32::MAX as nat) {
            Some(n) => n,
            None => 0,
        },
        None => 0,
    }
}

/// How many boots were counted.
pub fn boot_count(text: &Option<String>) -> (r: u32)
    ensures
        r as nat == boot_count_of(opt_text(*text)),
{
    match text {
        Some(t) => match parse_unsigned(trim(t.as_str()), u32::MAX as u64) {
            Some(n) => n as u32,
            None => 0,
        },
        None => 0,
    }
}

/// A number with at least three digits.
pub open spec fn three_digits(n: nat) -> Seq<char> {
    let d = decimal(n);
    if d.len() >= 3 {
        d
    } else if d.len() == 2 {
        "0"@ + d
    } else {
        "00"@ + d
    }
}

/// The name of the archive of a boot: its number, and when it was made.
pub open spec fn archive_name(n: nat, time: Seq<char>) -> Seq<char> {
    "boot-"@ + three_digits(n) + "_"@ + time + ".log"@
}

/// The name of the archive of a boot.
pub fn boot_log_name(n: u32, time: &str) -> (r: String)
    ensures
        r@ == archive_name(n as nat, time@),
{
    let d = decimal_text(n as u64);
    let len = d.as_str().unicode_len();
    let mut r = owned("boot-");
    if len == 2 {
        r.append("0");
    } else if len < 2 {
        r.append("00");
    }
    r.append(d.as_str());
    r.append("_");
    r.append(time);
    r.append(".log");
    assert(r@ =~= archive_name(n as nat, time@));
    r
}

/// An archive to be written: the number of its boot, its path and its bytes.
#[derive(Debug)]
pub struct BootArchive {
    pub number: u32,
    pub path: String,
    pub data: Vec<u8>,
}

/// What came in since the current boot began.
pub open spec fn boot_data(l: LogView) -> Seq<u8> {
    if l.boot_start >= l.ring.len() {
        Seq::empty()
    } else {
        l.ring.skip(l.boot_start as int)
    }
}

/// The archive of the current boot.
pub open spec fn is_archive_of(
    a: BootArchive,
    l: LogView,
    count: Option<Seq<char>>,
    time: Seq<char>,
) -> bool {
    &&& a.number == boot_count_of(count) + 1
    &&& a.path@ == joined_path(l.log_dir, archive_name(a.number as nat, time))
    &&& a.data@ == boot_data(l)
}

/// The log when the current boot is archived under a number.
pub open spec fn archived(l: LogView, number: nat) -> LogView {
    LogView { boot_number: number as u32, boot_start: l.ring.len(), ..l }
}

/// The log when a new boot begins.
pub open spec fn new_cycle(l: LogView) -> LogView {
    LogView { boot_start: l.ring.len(), current_path: live_log(l.log_dir), ..l }
}

impl LogManager {
    fn archive(&mut self, count: &Option<String>, time: &str) -> (r: BootArchive)
        requires
            boot_count_of(opt_text(*count)) < u32::MAX,
        ensures
            is_archive_of(r, old(self)@, opt_text(*count), time@),
            final(self)@ == archived(old(self)@, boot_count_of(opt_text(*count)) + 1),
    {
        let ghost l = self@;
        let number: u32 = boot_count(count) + 1;
        let len: usize = self.ring_buffer.len();
        let mut data: Vec<u8> = Vec::new();
        if self.boot_start_pos < len {
            let start: usize = self.boot_start_pos;
            let mut k: usize = start;
            while k < len
                invariant
                    start <= k <= len,
                    len == self.ring_buffer@.len(),
                    data@ == self.ring_buffer@.subrange(start as int, k as int),
                decreases len - k,
            {
                data.push(self.ring_buffer[k]);
                k += 1;
                assert(data@ =~= self.ring_buffer@.subrange(start as int, k as int));
            }
        }
        assert(data@ =~= boot_data(l));
        let name = boot_log_name(number, time);
        let path = join_path(self.log_dir.as_str(), name.as_str());
        self.boot_number = number;
        self.boot_start_pos = len;
        assert(self@ =~= archived(l, number as nat));
        BootArchive { number, path, data }
    }

    /// Archives the current boot, if anything came in since it began. `count`
    /// is what the counter file says, `time` the time for the name.
    pub fn flush_boot_log(&mut self, count: &Option<String>, time: &str) -> (r: Option<BootArchive>)
        requires
            boot_count_of(opt_text(*count)) < u32::MAX,
        ensures
            match r {
                Some(a) => old(self)@.boot_start < old(self)@.ring.len() && is_archive_of(
                    a,
                    old(self)@,
                    opt_text(*count),
                    time@,
                ) && final(self)@ == archived(old(self)@, boot_count_of(opt_text(*count)) + 1),
                None => old(self)@.boot_start >= old(self)@.ring.len() && final(self)@
                    == old(self)@,
            },
    {
        if self.boot_start_pos >= self.ring_buffer.len() {
            return None;
        }
        Some(self.archive(count, time))
    }

    fn start_new_cycle(&mut self)
        ensures
            final(self)@ == new_cycle(old(self)@),
    {
        let ghost l = self@;
        self.current_path = join_path(self.log_dir.as_str(), "current.serial.log");
        self.boot_start_pos = self.ring_buffer.len();
        assert(self@ =~= new_cycle(l));
    }

    /// Begins a new boot, and archives the one before if anything came in.
    pub fn mark_boot_start(&mut self, count: &Option<String>, time: &str) -> (r: Option<BootArchive>)
        requires
            boot_count_of(opt_text(*count)) < u32::MAX,
        ensures
            match r {
                Some(a) => old(self)@.boot_start < old(self)@.ring.len() && is_archive_of(
                    a,
                    old(self)@,
                    opt_text(*count),
                    time@,
                ) && final(self)@ == new_cycle(
                    archived(old(self)@, boot_count_of(opt_text(*count)) + 1),
                ),
                None => old(self)@.boot_start >= old(self)@.ring.len() && final(self)@ == new_cycle(
                    old(self)@,
                ),
            },
    {
        let r = self.flush_boot_log(count, time);
        self.start_new_cycle();
        r
    }

    /// Begins a new boot and archives the one before, even if nothing came in.
    pub fn rotate(&mut self, count: &Option<String>, time: &str) -> (r: BootArchive)
        requires
            boot_count_of(opt_text(*count)) < u32::MAX,
        ensures
            is_archive_of(r, old(self)@, opt_text(*count), time@),
            final(self)@ == new_cycle(archived(old(self)@, boot_count_of(opt_text(*count)) + 1)),
    {
        let r = self.archive(count, time);
        self.start_new_cycle();
        r
    }
}

/// What comes in belongs to the current boot, behind what came in before, as
/// long as the buffer can hold it.
pub proof fn lemma_boot_takes_all(l: LogView, data: Seq<u8>)
    requires
        sound(l),
        l.ring.len() + data.len() <= l.max_buffer,
    ensures
        boot_data(written(l, data)) == boot_data(l) + data,
{
    let after = written(l, data);
    assert(after.ring =~= l.ring + data);
    assert(boot_data(after) =~= boot_data(l) + data);
}

/// Where the buffer cannot hold it, the end of it is kept.
pub proof fn lemma_boot_keeps_the_end(l: LogView, data: Seq<u8>)
    requires
        sound(l),
    ensures
        ({
            let got = boot_data(written(l, data));
            let all = boot_data(l) + data;
            got.len() <= all.len() && got == all.skip(all.len() - got.len())
        }),
{
    let after = written(l, data);
    let both = l.ring + data;
    let all = boot_data(l) + data;
    let got = boot_data(after);
    let drop = both.len() - after.ring.len();
    assert(all =~= both.skip(l.boot_start as int));
    if after.boot_start >= after.ring.len() {
        assert(all.skip(all.len() as int) =~= Seq::<u8>::empty());
    } else {
        assert(got =~= both.skip(drop + after.boot_start));
    }
    assert(all.skip(all.len() - got.len()) =~= got);
}

/// When a boot begins nothing of it is there yet, so that beginning one twice
/// archives nothing more.
pub proof fn lemma_new_boot_is_empty(l: LogView)
    ensures
        boot_data(new_cycle(l)) == Seq::<u8>::empty(),
        new_cycle(l).boot_start >= new_cycle(l).ring.len(),
        sound(l) ==> sound(new_cycle(l)),
        tail_since(new_cycle(l), l.written) == tail_since(l, l.written),
{
}

} // verus!
