//! What is kept of a board's log, and under which names.
use crate::file_paths::{lemma_extension_is_behind, lemma_joined_name};
use crate::kept::lemma_unsigned_decimal;
use crate::log_archive::{
    archive_file, archive_list, lemma_archive_list, newest_first, surplus, FileFacts,
};
use crate::log_manager::{
    archive_name, archived, boot_count_of, boot_data, live_log, new_cycle, new_log, three_digits,
    written, LogView,
};
use crate::number::{all_digits, decimal, digits_value, lemma_decimal_round_trip};
use crate::path::{file_name_of, joined_path};
use crate::text::{begins_with, trimmed};
use vstd::prelude::*;

verus! {

/// The buffer takes in all that comes as long as it fits; when it does not, the
/// last half of what fits is kept, to the byte. The stream is counted on either
/// way.
pub proof fn lemma_buffer_keeps_the_end(l: LogView, data: Seq<u8>)
    requires
        l.written + data.len() <= u64::MAX,
    ensures
        ({
            let after = written(l, data);
            let all = l.ring + data;
            &&& all.len() <= l.max_buffer ==> after.ring == all && after.boot_start == l.boot_start
            &&& all.len() > l.max_buffer ==> after.ring.len() == l.max_buffer / 2 && after.ring
                == all.skip(all.len() - after.ring.len())
            &&& after.written == l.written + data.len()
            &&& after.max_buffer == l.max_buffer
            &&& after.boot_number == l.boot_number
        }),
{
    let all = l.ring + data;
    assert(all.skip(0) =~= all);
}

/// The counter file is read as the number that it holds, whatever white space
/// stands around it; no file counts no boots.
pub proof fn lemma_boots_are_counted(text: Seq<char>, n: nat)
    requires
        trimmed(text) == decimal(n),
        n <= u32::MAX,
    ensures
        boot_count_of(Some(text)) == n,
        boot_count_of(None) == 0,
{
    lemma_unsigned_decimal(n, u32::MAX as nat);
}

/// The number in the name of an archive has three digits at least, and is the
/// number.
pub proof fn lemma_three_digits(n: nat)
    ensures
        three_digits(n).len() >= 3,
        all_digits(three_digits(n)),
        digits_value(three_digits(n)) == n,
        n >= 100 ==> three_digits(n) == decimal(n),
{
    let d = decimal(n);
    lemma_decimal_round_trip(n);
    reveal_strlit("0");
    reveal_strlit("00");
    let t = three_digits(n);
    if d.len() == 2 {
        assert(t =~= seq!['0'] + d);
        lemma_zero_before(d);
    } else if d.len() < 2 {
        assert(t =~= seq!['0'] + (seq!['0'] + d));
        lemma_zero_before(d);
        lemma_zero_before(seq!['0'] + d);
    }
    if n >= 100 {
        lemma_three_long(n);
    }
}

proof fn lemma_three_long(n: nat)
    requires
        n >= 100,
    ensures
        decimal(n).len() >= 3,
{
    reveal_with_fuel(decimal, 3);
}

proof fn lemma_zero_before(d: Seq<char>)
    requires
        all_digits(d),
    ensures
        all_digits(seq!['0'] + d),
        digits_value(seq!['0'] + d) == digits_value(d),
    decreases d.len(),
{
    let t = seq!['0'] + d;
    assert forall|k: int| 0 <= k < t.len() implies crate::number::is_digit(#[trigger] t[k]) by {
        if k > 0 {
            assert(t[k] == d[k - 1]);
        }
    }
    if d.len() > 0 {
        let r = d.drop_last();
        assert forall|k: int| 0 <= k < r.len() implies crate::number::is_digit(#[trigger] r[k]) by {
            assert(r[k] == d[k]);
        }
        lemma_zero_before(r);
        assert(t.drop_last() =~= seq!['0'] + r);
        assert(t.last() == d.last());
    } else {
        assert(t =~= seq!['0']);
        assert(t.drop_last() =~= Seq::<char>::empty());
        assert(digits_value(t.drop_last()) == 0);
    }
}

/// Everything about a board stands below its directory: the logs in a directory
/// of their own, and the stream in a file that is no archive.
pub proof fn lemma_log_paths(project_dir: Seq<char>, max_logs: nat, dut_dir: Seq<char>)
    ensures
        ({
            let l = new_log(project_dir, max_logs, dut_dir);
            &&& l.dut_dir == joined_path(project_dir, dut_dir)
            &&& file_name_of(l.log_dir) == Some("logs"@)
            &&& begins_with(l.log_dir, l.dut_dir)
            &&& file_name_of(l.current_path) == Some("current.serial.log"@)
            &&& begins_with(l.current_path, l.log_dir)
            &&& l.max_logs == max_logs
            &&& l.ring.len() == 0
            &&& l.max_buffer == 2 * 1024 * 1024
        }),
        !archive_file("current.serial.log"@),
        !archive_file("full.serial.log"@),
{
    reveal_strlit("logs");
    reveal_strlit("current.serial.log");
    assert("logs"@.len() == 4);
    assert("current.serial.log"@.len() == 18);
    let dut = joined_path(project_dir, dut_dir);
    lemma_joined_name(dut, "logs"@);
    lemma_joined_name(joined_path(dut, "logs"@), "current.serial.log"@);
}

/// What is archived counts as an archive: the name of the archive of a boot is
/// that of a log, and is the last component of its path.
pub proof fn lemma_archive_is_archive(log_dir: Seq<char>, n: nat, time: Seq<char>)
    requires
        forall|k: int| 0 <= k < time.len() ==> time[k] != '/',
    ensures
        archive_file(archive_name(n, time)),
        file_name_of(joined_path(log_dir, archive_name(n, time))) == Some(archive_name(n, time)),
        begins_with(joined_path(log_dir, archive_name(n, time)), log_dir),
{
    let name = archive_name(n, time);
    reveal_strlit("boot-");
    reveal_strlit("_");
    reveal_strlit(".log");
    reveal_strlit("log");
    reveal_strlit("current.serial.log");
    reveal_strlit("full.serial.log");
    lemma_three_digits(n);
    let stem = "boot-"@ + three_digits(n) + "_"@ + time;
    assert(name =~= stem + seq!['.'] + "log"@);
    assert forall|k: int| 0 <= k < "log"@.len() implies "log"@[k] != '.' by {}
    lemma_extension_is_behind(stem, "log"@);
    assert(name[0] == 'b');
    assert("current.serial.log"@[0] == 'c');
    assert("full.serial.log"@[0] == 'f');
    let d = three_digits(n);
    assert forall|k: int| 0 <= k < name.len() implies name[k] != '/' by {
        if k >= 5 && k < 5 + d.len() {
            assert(name[k] == d[k - 5]);
            assert(crate::number::is_digit(d[k - 5]));
        } else if k > 5 + d.len() && k < 6 + d.len() + time.len() {
            assert(name[k] == time[k - 6 - d.len()]);
        }
    }
    assert(name.len() > 2);
    lemma_joined_name(log_dir, name);
}

/// When a boot is archived and the next begins, nothing is lost and nothing is
/// archived twice: what came in before belongs to the archive, what comes in
/// from then on to the next one.
pub proof fn lemma_boots_follow_each_other(l: LogView, number: nat, data: Seq<u8>)
    requires
        l.ring.len() + data.len() <= l.max_buffer,
        l.boot_start <= l.ring.len(),
    ensures
        ({
            let next = written(new_cycle(archived(l, number)), data);
            &&& boot_data(next) == data
            &&& l.ring == l.ring.take(l.boot_start as int) + boot_data(l)
            &&& next.ring == l.ring + data
            &&& next.log_dir == l.log_dir
            &&& next.current_path == live_log(l.log_dir)
        }),
{
    let next = written(new_cycle(archived(l, number)), data);
    assert((l.ring + data).skip(0) =~= l.ring + data);
    assert(boot_data(next) =~= data);
    assert(l.ring =~= l.ring.take(l.boot_start as int) + boot_data(l));
}

/// The archives that are too many and those that are kept are together all of
/// them: the newest are kept, as many as may be, and each of the others goes
/// once, the oldest first.
pub proof fn lemma_surplus_and_kept(files: Seq<FileFacts>, max: nat, i: int)
    ensures
        ({
            let list = archive_list(files);
            let gone = surplus(files, max);
            &&& newest_first(list)
            &&& list.len() <= max <==> gone.len() == 0
            &&& gone.len() + (if list.len() < max {
                list.len()
            } else {
                max
            }) == list.len()
            &&& 0 <= i < gone.len() ==> gone[i] == list[list.len() - 1 - i].0
        }),
{
    lemma_archive_list(files);
}

} // verus!
