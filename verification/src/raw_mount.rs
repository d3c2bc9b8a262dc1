//! The mount table logic of the raw USB disk: parsing `/proc/mounts`, the
//! leftover mounts to undo, and the checks before a mount.
use vstd::prelude::*;
use crate::autorun::{is_whitespace, is_ws, split_lines};
use crate::error::FileAccessError;
use crate::strings::{chars_of, is_prefix, last_index_of, seq_starts_with, str_eq, string_of, trim_end_char, trim_end_chars};
use vstd::string::StringExecFns;

verus! {

broadcast use vstd::std_specs::vec::group_vec_axioms;

/// The base under which startup recovery looks for leftover raw mounts of
/// USB partitions. Storage sessions mount below `/mnt/usb-control/raw`
/// instead (`mount_path_for`, `session_mount_path`); recovery configured with
/// this base does not reach those.
pub const MOUNT_BASE: &'static str = "/mnt/usb_raw";

/// One record of the mount table.
#[derive(Debug, Clone, PartialEq, Eq)]
pub struct MountEntry {
    pub source: String,
    pub target: String,
    pub fs_type: String,
}

/// Why a mount may not go ahead.
#[derive(Debug, Clone, PartialEq, Eq)]
pub enum MountPreflightError {
    SourceAlreadyMounted { source: String, target: String },
    MountPointOccupied { source: String, target: String },
}

/// The mount operations of the system, for the service to call.
pub trait MountOperations: Send + Sync {
    /// Whether `dev_path` is mounted.
    fn is_mounted(&self, dev_path: &str) -> Result<bool, FileAccessError>;

    /// Mounts `dev_path` at `mount_point` as `fs_type`.
    fn mount(&self, dev_path: &str, mount_point: &str, fs_type: &str) -> Result<(), FileAccessError>;

    /// Unmounts `mount_point`.
    fn umount(&self, mount_point: &str) -> Result<(), FileAccessError>;

    /// The file system type on `dev_path`.
    fn detect_fs_type(&self, dev_path: &str) -> Result<String, FileAccessError>;
}

/// The words of `s` read so far and the word being read.
pub open spec fn words_acc(s: Seq<char>) -> (Seq<Seq<char>>, Seq<char>)
    decreases s.len(),
{
    if s.len() == 0 {
        (seq![], seq![])
    } else {
        let (done, cur) = words_acc(s.drop_last());
        if is_ws(s.last()) {
            if cur.len() > 0 {
                (done.push(cur), seq![])
            } else {
                (done, cur)
            }
        } else {
            (done, cur.push(s.last()))
        }
    }
}

/// The white-space separated words of `s`.
pub open spec fn words(s: Seq<char>) -> Seq<Seq<char>> {
    let (done, cur) = words_acc(s);
    if cur.len() > 0 {
        done.push(cur)
    } else {
        done
    }
}

/// The mount record of a line: its first three words.
pub open spec fn line_entry(line: Seq<char>) -> Option<(Seq<char>, Seq<char>, Seq<char>)> {
    let w = words(line);
    if w.len() >= 3 {
        Some((w[0], w[1], w[2]))
    } else {
        None
    }
}

/// The mount records of the lines, in order.
pub open spec fn entries_of(lines: Seq<Seq<char>>) -> Seq<(Seq<char>, Seq<char>, Seq<char>)>
    decreases lines.len(),
{
    if lines.len() == 0 {
        seq![]
    } else {
        match line_entry(lines.last()) {
            Some(e) => entries_of(lines.drop_last()).push(e),
            None => entries_of(lines.drop_last()),
        }
    }
}

/// The view of a mount record.
pub open spec fn entry_view(e: MountEntry) -> (Seq<char>, Seq<char>, Seq<char>) {
    (e.source@, e.target@, e.fs_type@)
}

/// The views of mount records.
pub open spec fn mount_entries_view(v: Seq<MountEntry>) -> Seq<(Seq<char>, Seq<char>, Seq<char>)> {
    v.map_values(|e: MountEntry| entry_view(e))
}

/// The white-space separated words of `s`.
pub fn words_of(s: &[char]) -> (r: Vec<Vec<char>>)
    ensures
        r@.map_values(|w: Vec<char>| w@) == words(s@),
{
    let mut done: Vec<Vec<char>> = Vec::new();
    let mut cur: Vec<char> = Vec::new();
    let mut i: usize = 0;
    assert(s@.take(0) =~= Seq::<char>::empty());
    assert(done@.map_values(|w: Vec<char>| w@) =~= Seq::<Seq<char>>::empty());
    while i < s.len()
        invariant
            i <= s@.len(),
            (done@.map_values(|w: Vec<char>| w@), cur@) == words_acc(s@.take(i as int)),
        decreases s@.len() - i,
    {
        assert(s@.take(i + 1).drop_last() =~= s@.take(i as int));
        assert(s@.take(i + 1).last() == s@[i as int]);
        if is_whitespace(s[i]) {
            if cur.len() > 0 {
                let ghost before = done@.map_values(|w: Vec<char>| w@);
                let ghost cv = cur@;
                done.push(cur);
                cur = Vec::new();
                assert(done@.map_values(|w: Vec<char>| w@) =~= before.push(cv));
                assert(cur@ =~= Seq::<char>::empty());
            }
        } else {
            cur.push(s[i]);
        }
        i = i + 1;
    }
    assert(s@.take(s@.len() as int) =~= s@);
    if cur.len() > 0 {
        let ghost before = done@.map_values(|w: Vec<char>| w@);
        let ghost cv = cur@;
        done.push(cur);
        assert(done@.map_values(|w: Vec<char>| w@) =~= before.push(cv));
    }
    done
}

/// Adds the record of `line`, if it has one.
fn push_line_entry(out: &mut Vec<MountEntry>, line: &[char])
    ensures
        mount_entries_view(final(out)@) == (match line_entry(line@) {
            Some(e) => mount_entries_view(old(out)@).push(e),
            None => mount_entries_view(old(out)@),
        }),
{
    let w = words_of(line);
    let ghost wv = w@.map_values(|x: Vec<char>| x@);
    if w.len() >= 3 {
        assert(wv[0] == w@[0]@ && wv[1] == w@[1]@ && wv[2] == w@[2]@);
        let e = MountEntry {
            source: string_of(w[0].as_slice()),
            target: string_of(w[1].as_slice()),
            fs_type: string_of(w[2].as_slice()),
        };
        let ghost before = mount_entries_view(out@);
        out.push(e);
        assert(mount_entries_view(out@) =~= before.push(entry_view(e)));
    }
}

/// The records of the mount table text `contents` (as in `/proc/mounts`):
/// source, target and type, the first three words of each line that has them.
pub fn mount_entries_from(contents: &str) -> (r: Vec<MountEntry>)
    ensures
        mount_entries_view(r@) == entries_of(split_lines(contents@)),
{
    let cs = chars_of(contents);
    let mut out: Vec<MountEntry> = Vec::new();
    let mut cur: Vec<char> = Vec::new();
    let mut i: usize = 0;
    assert(cs@.take(0) =~= Seq::<char>::empty());
    assert(split_lines(Seq::<char>::empty()).drop_last() =~= Seq::<Seq<char>>::empty());
    assert(mount_entries_view(out@) =~= Seq::<(Seq<char>, Seq<char>, Seq<char>)>::empty());
    while i < cs.len()
        invariant
            i <= cs@.len(),
            cs@ == contents@,
            split_lines(cs@.take(i as int)).len() >= 1,
            cur@ == split_lines(cs@.take(i as int)).last(),
            mount_entries_view(out@) == entries_of(split_lines(cs@.take(i as int)).drop_last()),
        decreases cs@.len() - i,
    {
        let ghost pre = split_lines(cs@.take(i as int));
        assert(cs@.take(i + 1).drop_last() =~= cs@.take(i as int));
        assert(cs@.take(i + 1).last() == cs@[i as int]);
        if cs[i] == '\n' {
            push_line_entry(&mut out, cur.as_slice());
            cur = Vec::new();
            assert(split_lines(cs@.take(i + 1)) == pre.push(seq![]));
            assert(pre.push(seq![]).drop_last() =~= pre);
            assert(pre.drop_last().push(pre.last()) =~= pre);
            assert(cur@ =~= Seq::<char>::empty());
        } else {
            let ghost nl = pre.update(pre.len() - 1, pre.last().push(cs@[i as int]));
            cur.push(cs[i]);
            assert(split_lines(cs@.take(i + 1)) == nl);
            assert(nl.drop_last() =~= pre.drop_last());
        }
        i = i + 1;
    }
    assert(cs@.take(cs@.len() as int) =~= cs@);
    let ghost lines = split_lines(cs@);
    push_line_entry(&mut out, cur.as_slice());
    assert(lines.drop_last().push(lines.last()) =~= lines);
    out
}

/// `target` is `base` (without trailing `/`) or lies below it.
pub open spec fn under_base(target: Seq<char>, base: Seq<char>) -> bool {
    let n = trim_end_char(base, '/');
    target == n || is_prefix(n.push('/'), target)
}

/// The targets of the records that lie under `base`, in order.
pub open spec fn unmounts_of(es: Seq<(Seq<char>, Seq<char>, Seq<char>)>, base: Seq<char>) -> Seq<Seq<char>>
    decreases es.len(),
{
    if es.len() == 0 {
        seq![]
    } else if under_base(es.last().1, base) {
        unmounts_of(es.drop_last(), base).push(es.last().1)
    } else {
        unmounts_of(es.drop_last(), base)
    }
}

/// The leftover mounts of this service under `mount_base` to undo.
pub fn planned_usb_raw_unmounts(entries: &[MountEntry], mount_base: &str) -> (r: Vec<String>)
    ensures
        r@.map_values(|s: String| s@) == unmounts_of(mount_entries_view(entries@), mount_base@),
{
    let bc = chars_of(mount_base);
    let normalized = trim_end_chars(bc.as_slice(), '/');
    let mut prefix = trim_end_chars(bc.as_slice(), '/');
    prefix.push('/');
    let ns = string_of(normalized.as_slice());
    let ghost ev = mount_entries_view(entries@);
    let mut out: Vec<String> = Vec::new();
    let mut i: usize = 0;
    assert(ev.take(0) =~= Seq::<(Seq<char>, Seq<char>, Seq<char>)>::empty());
    assert(out@.map_values(|s: String| s@) =~= Seq::<Seq<char>>::empty());
    while i < entries.len()
        invariant
            i <= entries@.len(),
            ev == mount_entries_view(entries@),
            ns@ == trim_end_char(mount_base@, '/'),
            prefix@ == trim_end_char(mount_base@, '/').push('/'),
            out@.map_values(|s: String| s@) == unmounts_of(ev.take(i as int), mount_base@),
        decreases entries@.len() - i,
    {
        assert(ev.take(i + 1).drop_last() =~= ev.take(i as int));
        assert(ev.take(i + 1).last() == ev[i as int]);
        let t = &entries[i].target;
        let tc = chars_of(t.as_str());
        if str_eq(t.as_str(), ns.as_str()) || seq_starts_with(tc.as_slice(), prefix.as_slice()) {
            let ghost before = out@.map_values(|s: String| s@);
            out.push(t.clone());
            assert(out@.map_values(|s: String| s@) =~= before.push(t@));
        }
        i = i + 1;
    }
    assert(ev.take(ev.len() as int) =~= ev);
    out
}

/// Whether some record mounts at `mount_point`.
pub fn mount_target_exists_from(entries: &[MountEntry], mount_point: &str) -> (r: bool)
    ensures
        r == exists|i: int| 0 <= i < entries@.len() && (#[trigger] entries@[i]).target@ == mount_point@,
{
    let mut i: usize = 0;
    while i < entries.len()
        invariant
            i <= entries@.len(),
            forall|k: int| 0 <= k < i ==> (#[trigger] entries@[k]).target@ != mount_point@,
        decreases entries@.len() - i,
    {
        if str_eq(entries[i].target.as_str(), mount_point) {
            return true;
        }
        i = i + 1;
    }
    false
}

/// The index of the first record whose source (or target) is `p`.
fn first_record(entries: &[MountEntry], p: &str, by_source: bool) -> (r: Option<usize>)
    ensures
        match r {
            Some(i) => i < entries@.len() && (if by_source { entries@[i as int].source@ } else { entries@[i as int].target@ })
                == p@ && forall|k: int|
                0 <= k < i ==> (if by_source { (#[trigger] entries@[k]).source@ } else { entries@[k].target@ }) != p@,
            None => forall|k: int|
                0 <= k < entries@.len() ==> (if by_source { (#[trigger] entries@[k]).source@ } else { entries@[k].target@ }) != p@,
        },
{
    let mut i: usize = 0;
    while i < entries.len()
        invariant
            i <= entries@.len(),
            forall|k: int|
                0 <= k < i ==> (if by_source { (#[trigger] entries@[k]).source@ } else { entries@[k].target@ }) != p@,
        decreases entries@.len() - i,
    {
        let hit = if by_source {
            str_eq(entries[i].source.as_str(), p)
        } else {
            str_eq(entries[i].target.as_str(), p)
        };
        if hit {
            return Some(i);
        }
        i = i + 1;
    }
    None
}

/// Checks that neither `dev_path` is mounted nor `mount_point` taken: the
/// first record with that source, else the first with that target, is
/// reported.
pub fn ensure_mount_available_from(entries: &[MountEntry], dev_path: &str, mount_point: &str) -> (r: Result<
    (),
    MountPreflightError,
>)
    ensures
        (exists|i: int| 0 <= i < entries@.len() && (#[trigger] entries@[i]).source@ == dev_path@) ==> (r matches Err(
            MountPreflightError::SourceAlreadyMounted { source, target },
        ) && exists|i: int|
            0 <= i < entries@.len() && source@ == (#[trigger] entries@[i]).source@ && target@ == entries@[i].target@
                && source@ == dev_path@ && forall|k: int| 0 <= k < i ==> (#[trigger] entries@[k]).source@ != dev_path@),
        !(exists|i: int| 0 <= i < entries@.len() && (#[trigger] entries@[i]).source@ == dev_path@) && (exists|i: int|
            0 <= i < entries@.len() && (#[trigger] entries@[i]).target@ == mount_point@) ==> (r matches Err(
            MountPreflightError::MountPointOccupied { source, target },
        ) && exists|i: int|
            0 <= i < entries@.len() && source@ == (#[trigger] entries@[i]).source@ && target@ == entries@[i].target@
                && target@ == mount_point@ && forall|k: int| 0 <= k < i ==> (#[trigger] entries@[k]).target@ != mount_point@),
        r is Ok <==> !(exists|i: int| 0 <= i < entries@.len() && (#[trigger] entries@[i]).source@ == dev_path@) && !(exists|
            i: int,
        | 0 <= i < entries@.len() && (#[trigger] entries@[i]).target@ == mount_point@),
{
    match first_record(entries, dev_path, true) {
        Some(i) => {
            return Err(
                MountPreflightError::SourceAlreadyMounted {
                    source: entries[i].source.clone(),
                    target: entries[i].target.clone(),
                },
            );
        },
        None => {},
    }
    match first_record(entries, mount_point, false) {
        Some(i) => Err(
            MountPreflightError::MountPointOccupied { source: entries[i].source.clone(), target: entries[i].target.clone() },
        ),
        None => Ok(()),
    }
}

/// The mount path for `dev_name` (a session id): below the session mount base
/// `/mnt/usb-control/raw`, or the name itself when it is absolute.
pub open spec fn mount_path_spec(dev_name: Seq<char>) -> Seq<char> {
    if dev_name.len() > 0 && dev_name[0] == '/' {
        dev_name
    } else {
        seq!['/', 'm', 'n', 't', '/', 'u', 's', 'b', '-', 'c', 'o', 'n', 't', 'r', 'o', 'l', '/', 'r', 'a', 'w', '/'] + dev_name
    }
}

/// The mount path of the device `dev_name`.
pub fn mount_path_for(dev_name: &str) -> (r: String)
    ensures
        r@ == mount_path_spec(dev_name@),
{
    let dc = chars_of(dev_name);
    if dc.len() > 0 && dc[0] == '/' {
        return String::from_str(dev_name);
    }
    let mut out: Vec<char> = vec!['/', 'm', 'n', 't', '/', 'u', 's', 'b', '-', 'c', 'o', 'n', 't', 'r', 'o', 'l', '/', 'r', 'a', 'w', '/'];
    let ghost base = out@;
    let mut i: usize = 0;
    while i < dc.len()
        invariant
            i <= dc@.len(),
            out@ == base + dc@.take(i as int),
        decreases dc@.len() - i,
    {
        out.push(dc[i]);
        i = i + 1;
        assert(out@ =~= base + dc@.take(i as int));
    }
    assert(dc@.take(dc@.len() as int) =~= dc@);
    assert(base =~= seq!['/', 'm', 'n', 't', '/', 'u', 's', 'b', '-', 'c', 'o', 'n', 't', 'r', 'o', 'l', '/', 'r', 'a', 'w', '/']);
    string_of(out.as_slice())
}

/// The device name of a block device path: what follows its last `/`.
pub open spec fn dev_name_spec(p: Seq<char>) -> Seq<char> {
    match last_index_of(p, '/', p.len() as int) {
        Some(i) => p.skip(i + 1),
        None => p,
    }
}

/// The device name of the block device path `dev_path`.
pub fn dev_name_from_path(dev_path: &str) -> (r: String)
    ensures
        r@ == dev_name_spec(dev_path@),
{
    let pc = chars_of(dev_path);
    match crate::strings::find_last(pc.as_slice(), '/', pc.len()) {
        Some(i) => {
            let mut out: Vec<char> = Vec::new();
            let mut k: usize = i + 1;
            while k < pc.len()
                invariant
                    i + 1 <= k <= pc@.len(),
                    out@ == pc@.subrange(i + 1, k as int),
                decreases pc@.len() - k,
            {
                out.push(pc[k]);
                k = k + 1;
                assert(out@ =~= pc@.subrange(i + 1, k as int));
            }
            assert(out@ =~= pc@.skip(i + 1));
            string_of(out.as_slice())
        },
        None => String::from_str(dev_path),
    }
}

} // verus!
