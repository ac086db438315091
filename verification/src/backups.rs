//! The backup archives of a server.

use vstd::prelude::*;

use crate::paths;
use crate::payloads::BackupEntry;
use crate::text;

verus! {

/// An entry of a directory that backups are kept in.
#[derive(Debug, Clone)]
pub struct BackupFile {
    pub filename: String,
    pub is_file: bool,
    pub size_bytes: u64,
    /// When it was last written, in Unix seconds, if the file system tells.
    pub modified: Option<u64>,
}

/// Names the archive of a backup that is made at the given Unix time.
pub fn backup_filename(secs: u64) -> (out: String)
    ensures
        out@ == "backup-"@ + text::decimal(secs as nat) + ".tar.zst"@,
        out@ == backup_name(secs),
{
    let number: String = text::decimal_text(secs);
    text::concat3("backup-", number.as_str(), ".tar.zst")
}

/// Backups that are made at different times are kept under different names.
pub proof fn law_backup_names_differ(a: u64, b: u64)
    requires
        a != b,
    ensures
        "backup-"@ + text::decimal(a as nat) + ".tar.zst"@ != "backup-"@ + text::decimal(b as nat) + ".tar.zst"@,
{
    let before = "backup-"@;
    let after = ".tar.zst"@;
    let x = text::decimal(a as nat);
    let y = text::decimal(b as nat);
    let s = before + x + after;
    let t = before + y + after;
    if s == t {
        assert(s.len() == before.len() + x.len() + after.len());
        assert(t.len() == before.len() + y.len() + after.len());
        assert(s.subrange(before.len() as int, (before.len() + x.len()) as int) =~= x);
        assert(t.subrange(before.len() as int, (before.len() + x.len()) as int) =~= y);
        text::lemma_decimal_injective(a as nat, b as nat);
    }
}

/// What is told of an archive.
pub open spec fn entry_of(file: BackupFile) -> BackupEntry {
    BackupEntry {
        filename: file.filename,
        size_bytes: file.size_bytes,
        created_at: match file.modified {
            Some(secs) => secs,
            None => 0,
        },
    }
}

/// What is told of the files among directory entries.
pub open spec fn entries_of(files: Seq<BackupFile>) -> Seq<BackupEntry>
    decreases files.len(),
{
    if files.len() == 0 {
        seq![]
    } else if files.last().is_file {
        entries_of(files.drop_last()).push(entry_of(files.last()))
    } else {
        entries_of(files.drop_last())
    }
}

/// Tells of the files among directory entries.
fn describe_files(files: &Vec<BackupFile>) -> (out: Vec<BackupEntry>)
    ensures
        out@ == entries_of(files@),
{
    let mut out: Vec<BackupEntry> = Vec::new();
    let mut i: usize = 0;
    while i < files.len()
        invariant
            i <= files@.len(),
            out@ == entries_of(files@.take(i as int)),
        decreases files@.len() - i,
    {
        assert(files@.take(i + 1).drop_last() =~= files@.take(i as int));
        let file: &BackupFile = &files[i];
        if file.is_file {
            out.push(
                BackupEntry {
                    filename: file.filename.clone(),
                    size_bytes: file.size_bytes,
                    created_at: match file.modified {
                        Some(secs) => secs,
                        None => 0,
                    },
                },
            );
        }
        i = i + 1;
    }
    assert(files@.take(i as int) =~= files@);
    out
}

/// Whether entries stand in order, the newest first.
pub open spec fn newest_first(entries: Seq<BackupEntry>) -> bool {
    forall|i: int, j: int|
        #![trigger entries[i], entries[j]]
        0 <= i < j < entries.len() ==> entries[i].created_at >= entries[j].created_at
}

/// The entries of one time, in order.
pub open spec fn made_at(entries: Seq<BackupEntry>, time: u64) -> Seq<BackupEntry> {
    entries.filter(|e: BackupEntry| e.created_at == time)
}

/// Whether entries are the given ones with the newest first, those of one time
/// in the order that they had.
pub open spec fn sorted_from(out: Seq<BackupEntry>, entries: Seq<BackupEntry>) -> bool {
    &&& newest_first(out)
    &&& out.len() == entries.len()
    &&& forall|time: u64| #[trigger] made_at(out, time) == made_at(entries, time)
}

/// Entries of other times do not count among those of one.
proof fn lemma_none_made_at(entries: Seq<BackupEntry>, time: u64)
    requires
        forall|i: int| 0 <= i < entries.len() ==> (#[trigger] entries[i]).created_at != time,
    ensures
        made_at(entries, time) == Seq::<BackupEntry>::empty(),
    decreases entries.len(),
{
    reveal(Seq::filter);
    if entries.len() > 0 {
        assert forall|i: int| 0 <= i < entries.len() - 1 implies (#[trigger] entries.drop_last()[i]).created_at
            != time by {
            assert(entries.drop_last()[i] == entries[i]);
        }
        lemma_none_made_at(entries.drop_last(), time);
        assert(entries.last().created_at != time);
    }
}

/// Putting an entry before older ones and behind all others keeps the order of
/// each time.
proof fn lemma_insert_keeps_order(front: Seq<BackupEntry>, back: Seq<BackupEntry>, e: BackupEntry, time: u64)
    requires
        forall|i: int| 0 <= i < back.len() ==> (#[trigger] back[i]).created_at < e.created_at,
    ensures
        made_at(front + seq![e] + back, time) == made_at((front + back).push(e), time),
{
    let p = |x: BackupEntry| x.created_at == time;
    Seq::filter_distributes_over_add(front, seq![e], p);
    Seq::filter_distributes_over_add(front + seq![e], back, p);
    Seq::filter_distributes_over_add(front, back, p);
    Seq::filter_distributes_over_add(front + back, seq![e], p);
    assert((front + back).push(e) =~= front + back + seq![e]);
    if e.created_at == time {
        lemma_none_made_at(back, time);
        assert(back.filter(p) =~= Seq::<BackupEntry>::empty());
        assert(front.filter(p) + seq![e].filter(p) + back.filter(p) =~= front.filter(p) + back.filter(p) + seq![
            e,
        ].filter(p));
    } else {
        assert(seq![e][0] == e);
        lemma_none_made_at(seq![e], time);
        assert(seq![e].filter(p) =~= Seq::<BackupEntry>::empty());
        assert(front.filter(p) + seq![e].filter(p) + back.filter(p) =~= front.filter(p) + back.filter(p) + seq![
            e,
        ].filter(p));
    }
}

/// Sorts entries, the newest first. Entries of one time keep their order.
pub fn sort_newest_first(entries: Vec<BackupEntry>) -> (out: Vec<BackupEntry>)
    ensures
        sorted_from(out@, entries@),
{
    let mut out: Vec<BackupEntry> = Vec::new();
    let mut rest: Vec<BackupEntry> = entries;
    let ghost all = rest@;
    let n: usize = rest.len();
    let mut done: usize = 0;
    assert(all.skip(0) =~= all);
    while done < n
        invariant
            n == all.len(),
            done <= n,
            rest@ == all.skip(done as int),
            newest_first(out@),
            out@.len() == done,
            forall|time: u64| #[trigger] made_at(out@, time) == made_at(all.take(done as int), time),
        decreases n - done,
    {
        let entry: BackupEntry = rest.remove(0);
        assert(entry == all[done as int]);
        assert(rest@ =~= all.skip(done + 1));
        let ghost before = out@;
        let mut at: usize = out.len();
        while at > 0 && out[at - 1].created_at < entry.created_at
            invariant
                at <= out@.len(),
                out@ == before,
                newest_first(before),
                forall|j: int| at <= j < before.len() ==> (#[trigger] before[j]).created_at < entry.created_at,
            decreases at,
        {
            at = at - 1;
        }
        let ghost e = entry;
        out.insert(at, entry);
        proof {
            let front = before.take(at as int);
            let back = before.skip(at as int);
            assert(out@ =~= front + seq![e] + back);
            assert(front + back =~= before);
            assert(all.take(done + 1) =~= all.take(done as int).push(e));
            assert forall|time: u64| #[trigger] made_at(out@, time) == made_at(all.take(done + 1), time) by {
                let p = |x: BackupEntry| x.created_at == time;
                lemma_insert_keeps_order(front, back, e, time);
                Seq::filter_distributes_over_add(before, seq![e], p);
                Seq::filter_distributes_over_add(all.take(done as int), seq![e], p);
                assert(before.push(e) =~= before + seq![e]);
                assert(all.take(done as int).push(e) =~= all.take(done as int) + seq![e]);
                assert(made_at(before, time) == made_at(all.take(done as int), time));
            }
            assert forall|i: int, j: int|
                #![trigger out@[i], out@[j]]
                0 <= i < j < out@.len() implies out@[i].created_at >= out@[j].created_at by {
                let i0 = if i <= at {
                    i
                } else {
                    i - 1
                };
                let j0 = if j <= at {
                    j
                } else {
                    j - 1
                };
                if i == at {
                    assert(out@[j] == before[j - 1]);
                } else if j == at {
                    assert(out@[i] == before[i]);
                    assert(before[i].created_at >= before[at - 1].created_at);
                } else {
                    assert(out@[i] == before[i0]);
                    assert(out@[j] == before[j0]);
                }
            }
        }
        done = done + 1;
    }
    assert(all.take(done as int) =~= all);
    out
}

/// Lists the archives among directory entries, the newest first.
pub fn list_backups(files: &Vec<BackupFile>) -> (out: Vec<BackupEntry>)
    ensures
        sorted_from(out@, entries_of(files@)),
{
    sort_newest_first(describe_files(files))
}

/// The name of a backup that is made at the given Unix time.
pub open spec fn backup_name(secs: u64) -> Seq<char> {
    "backup-"@ + text::decimal(secs as nat) + ".tar.zst"@
}

/// The name of a backup is that of a file.
pub proof fn lemma_backup_name_is_file_name(secs: u64)
    ensures
        paths::is_file_name("backup-"@ + text::decimal(secs as nat) + ".tar.zst"@),
{
    reveal_strlit("backup-");
    reveal_strlit(".tar.zst");
    reveal_strlit(".");
    reveal_strlit("..");
    text::lemma_decimal_chars(secs as nat);
    let digits = text::decimal(secs as nat);
    let name = "backup-"@ + digits + ".tar.zst"@;
    assert forall|i: int| 0 <= i < name.len() implies name[i] != '/' by {
        if i < 7 {
            assert(name[i] == "backup-"@[i]);
        } else if i < 7 + digits.len() {
            assert(name[i] == digits[i - 7]);
        } else {
            assert(name[i] == ".tar.zst"@[i - 7 - digits.len()]);
        }
    }
    assert(name.len() > 2);
    assert("."@.len() == 1);
    assert(".."@.len() == 2);
}

/// A backup's name tells when it was made: between `backup-` and `.tar.zst` stands
/// a numeral of the time.
pub proof fn law_backup_name_tells_the_time(secs: u64)
    ensures
        backup_name(secs).len() > 15,
        backup_name(secs).take(7) == seq!['b', 'a', 'c', 'k', 'u', 'p', '-'],
        backup_name(secs).skip(backup_name(secs).len() - 8) == seq!['.', 't', 'a', 'r', '.', 'z', 's', 't'],
        text::numeral(backup_name(secs).subrange(7, backup_name(secs).len() - 8), 10) == Some(secs as int),
{
    reveal_strlit("backup-");
    reveal_strlit(".tar.zst");
    let digits = text::decimal(secs as nat);
    text::lemma_decimal_chars(secs as nat);
    text::law_numeral_reads_back(secs as nat, u64::MAX as int);
    let name = backup_name(secs);
    assert(name.take(7) =~= seq!['b', 'a', 'c', 'k', 'u', 'p', '-']);
    assert(name.skip(name.len() - 8) =~= seq!['.', 't', 'a', 'r', '.', 'z', 's', 't']);
    assert(name.subrange(7, name.len() - 8) =~= digits);
}

/// The archives that are listed are the files of the directory, each with its own
/// name, length and time, which is zero where the file system tells none.
pub proof fn law_listed_archives_are_the_files(files: Seq<BackupFile>)
    ensures
        entries_of(files) == files.filter_map(
            |f: BackupFile|
                if f.is_file {
                    Some(
                        BackupEntry {
                            filename: f.filename,
                            size_bytes: f.size_bytes,
                            created_at: if f.modified is Some {
                                f.modified->0
                            } else {
                                0
                            },
                        },
                    )
                } else {
                    None
                },
        ),
    decreases files.len(),
{
    if files.len() > 0 {
        law_listed_archives_are_the_files(files.drop_last());
        let told = |f: BackupFile|
            if f.is_file {
                Some(
                    BackupEntry {
                        filename: f.filename,
                        size_bytes: f.size_bytes,
                        created_at: if f.modified is Some {
                            f.modified->0
                        } else {
                            0
                        },
                    },
                )
            } else {
                None
            };
        assert(entries_of(files) =~= files.filter_map(told));
    }
}

/// A sorted list holds what it was sorted from, no more and no less, and each entry
/// is at least as new as those behind it.
pub proof fn law_sorted_list_holds_the_same(out: Seq<BackupEntry>, entries: Seq<BackupEntry>, i: int, j: int)
    requires
        sorted_from(out, entries),
    ensures
        out.len() == entries.len(),
        0 <= i < entries.len() ==> out.contains(entries[i]),
        0 <= i < out.len() ==> entries.contains(out[i]),
        0 <= i < j < out.len() ==> out[i].created_at >= out[j].created_at,
{
    if 0 <= i < entries.len() {
        lemma_made_at_moves(entries, out, i);
    }
    if 0 <= i < out.len() {
        assert(made_at(out, out[i].created_at) == made_at(entries, out[i].created_at));
        lemma_made_at_moves(out, entries, i);
    }
}

/// Where two lists agree on the entries of one time, an entry of that time stands
/// in the other if it stands in the one.
proof fn lemma_made_at_moves(from: Seq<BackupEntry>, to: Seq<BackupEntry>, i: int)
    requires
        0 <= i < from.len(),
        made_at(to, from[i].created_at) == made_at(from, from[i].created_at),
    ensures
        to.contains(from[i]),
{
    let time = from[i].created_at;
    let p = |e: BackupEntry| e.created_at == time;
    assert(made_at(from, time) == from.filter(p));
    assert(made_at(to, time) == to.filter(p));
    from.lemma_filter_contains(p, i);
    to.lemma_filter_contains_rev(p, from[i]);
}

/// Sorting keeps the order of entries that were made at one time.
pub proof fn law_entries_of_one_time_keep_their_order(out: Seq<BackupEntry>, entries: Seq<BackupEntry>, time: u64)
    requires
        sorted_from(out, entries),
    ensures
        out.filter(|e: BackupEntry| e.created_at == time) == entries.filter(|e: BackupEntry| e.created_at == time),
{
    assert(made_at(out, time) == made_at(entries, time));
}

} // verus!
