//! NBD sysfs state parsing: device names, the partition scan parameter and
//! readiness of a device.
use vstd::prelude::*;
use crate::autorun::trim_chars;
use crate::error::{io_error, ErrorKind, IoError};
use crate::strings::{chars_of, components, components_of, string_of};
use crate::vfs::committer::drop_dots;
use crate::autorun::trim;
use vstd::string::StringExecFns;

verus! {

broadcast use vstd::std_specs::vec::group_vec_axioms;

/// Whether the kernel scans NBD devices for partitions.
#[derive(Debug, Clone, Copy, PartialEq, Eq, Structural)]
pub enum NbdPartitionScanStatus {
    Disabled,
    Enabled(u32),
}

/// The sysfs tree of NBD block devices.
#[derive(Debug, Clone)]
pub struct NbdSysfs {
    root: String,
}

impl NbdSysfs {
    pub closed spec fn spec_root(&self) -> Seq<char> {
        self.root@
    }

    /// The sysfs tree below `root`.
    pub fn new(root: &str) -> (s: Self)
        ensures
            s.spec_root() == root@,
    {
        NbdSysfs { root: String::from_str(root) }
    }

    /// The root of the tree.
    pub fn root(&self) -> (r: &str)
        ensures
            r@ == self.spec_root(),
    {
        self.root.as_str()
    }
}

/// A `pid` file's content says the device is connected: something other than
/// `0` after trimming.
pub open spec fn pid_connected(value: Seq<char>) -> bool {
    let t = trim(value);
    t.len() > 0 && t != seq!['0']
}

/// Whether a `pid` file's content says the device is connected.
pub fn pid_value_connected(value: &str) -> (r: bool)
    ensures
        r == pid_connected(value@),
{
    let vc = chars_of(value);
    let t = trim_chars(vc.as_slice());
    let zero = t.len() == 1 && t[0] == '0';
    assert(zero == (t@ == seq!['0'])) by {
        if t@ == seq!['0'] {
            assert(t@.len() == 1 && t@[0] == '0');
        }
        if zero {
            assert(t@ =~= seq!['0']);
        }
    }
    t.len() > 0 && !zero
}

/// One poll of a device becoming ready: the count of consecutive ready polls,
/// and whether two in a row have been seen.
pub fn ready_step(pid_ready: bool, size_ready: bool, stable_matches: u32) -> (r: (u32, bool))
    requires
        stable_matches < 2,
    ensures
        pid_ready && size_ready ==> r == ((stable_matches + 1) as u32, stable_matches + 1 >= 2),
        !(pid_ready && size_ready) ==> r == (0u32, false),
{
    if pid_ready && size_ready {
        let n = stable_matches + 1;
        (n, n >= 2)
    } else {
        (0, false)
    }
}

/// The last name of a path, as `Path::file_name` gives it.
pub open spec fn file_name_spec(p: Seq<char>) -> Option<Seq<char>> {
    let cs = drop_dots(components(p, p.len() as int));
    if cs.len() == 0 || cs.last() == seq!['.', '.'] {
        None
    } else {
        Some(cs.last())
    }
}

/// All characters of `s` are ASCII digits.
pub open spec fn all_digits(s: Seq<char>) -> bool {
    forall|i: int| 0 <= i < s.len() ==> '0' <= #[trigger] s[i] && s[i] <= '9'
}

/// The NBD device name of `path`: its last name when that is `nbd` followed by
/// digits.
pub open spec fn nbd_name_spec(path: Seq<char>) -> Option<Seq<char>> {
    match file_name_spec(path) {
        None => None,
        Some(n) => if n.len() > 3 && n.take(3) == seq!['n', 'b', 'd'] && all_digits(n.skip(3)) {
            Some(n)
        } else {
            None
        },
    }
}

/// The NBD device name of `path`; `InvalidInput` unless its last name is `nbd`
/// followed by digits (no partition).
pub fn nbd_name_from_device_path(path: &str) -> (r: Result<String, IoError>)
    ensures
        match nbd_name_spec(path@) {
            Some(n) => r matches Ok(s) && s@ == n,
            None => r matches Err(e) && e.kind == ErrorKind::InvalidInput,
        },
{
    let pc = chars_of(path);
    let comps = components_of(pc.as_slice(), pc.len());
    let ghost cs = components(path@, path@.len() as int);
    let mut last: Option<usize> = None;
    let mut i: usize = 0;
    assert(cs.take(0) =~= Seq::<Seq<char>>::empty());
    while i < comps.len()
        invariant
            i <= comps@.len() == cs.len(),
            cs == components(path@, path@.len() as int),
            forall|k: int| 0 <= k < comps@.len() ==> (#[trigger] comps@[k])@ == cs[k],
            match last {
                Some(j) => j < i && drop_dots(cs.take(i as int)).len() > 0 && drop_dots(cs.take(i as int)).last() == comps@[j as int]@,
                None => drop_dots(cs.take(i as int)).len() == 0,
            },
        decreases comps@.len() - i,
    {
        assert(cs.take(i + 1).drop_last() =~= cs.take(i as int));
        assert(cs.take(i + 1).last() == comps@[i as int]@);
        let c = &comps[i];
        let is_dot = c.len() == 1 && c[0] == '.';
        if is_dot {
            assert(c@ =~= seq!['.']);
        } else {
            assert(c@ != seq!['.']) by {
                if c@ == seq!['.'] {
                    assert(c@.len() == 1 && c@[0] == '.');
                }
            }
            last = Some(i);
        }
        i = i + 1;
    }
    assert(cs.take(cs.len() as int) =~= cs);
    let j = match last {
        None => {
            return Err(io_error(ErrorKind::InvalidInput, "invalid NBD path"));
        },
        Some(j) => j,
    };
    let n = &comps[j];
    let is_dotdot = n.len() == 2 && n[0] == '.' && n[1] == '.';
    if is_dotdot {
        assert(n@ =~= seq!['.', '.']);
        return Err(io_error(ErrorKind::InvalidInput, "invalid NBD path"));
    }
    assert(n@ != seq!['.', '.']) by {
        if n@ == seq!['.', '.'] {
            assert(n@.len() == 2 && n@[0] == '.' && n@[1] == '.');
        }
    }
    if !(n.len() > 3 && n[0] == 'n' && n[1] == 'b' && n[2] == 'd') {
        assert(!(n@.len() > 3 && n@.take(3) == seq!['n', 'b', 'd'])) by {
            if n@.len() > 3 && n@.take(3) == seq!['n', 'b', 'd'] {
                assert(n@.take(3)[0] == 'n' && n@.take(3)[1] == 'b' && n@.take(3)[2] == 'd');
            }
        }
        return Err(io_error(ErrorKind::InvalidInput, "not an NBD device or an NBD partition"));
    }
    assert(n@.take(3) =~= seq!['n', 'b', 'd']);
    assert(file_name_spec(path@) == Some(n@));
    let mut k: usize = 3;
    while k < n.len()
        invariant
            3 <= k <= n@.len(),
            file_name_spec(path@) == Some(n@),
            n@.len() > 3 && n@.take(3) == seq!['n', 'b', 'd'],
            forall|q: int| 3 <= q < k ==> '0' <= #[trigger] n@[q] && n@[q] <= '9',
        decreases n@.len() - k,
    {
        if !('0' <= n[k] && n[k] <= '9') {
            assert(!all_digits(n@.skip(3))) by {
                assert(n@.skip(3)[k - 3] == n@[k as int]);
            }
            return Err(io_error(ErrorKind::InvalidInput, "NBD partition is not allowed"));
        }
        k = k + 1;
    }
    assert(all_digits(n@.skip(3))) by {
        assert forall|q: int| 0 <= q < n@.skip(3).len() implies '0' <= #[trigger] n@.skip(3)[q] && n@.skip(3)[q] <= '9' by {
            assert(n@.skip(3)[q] == n@[q + 3]);
        }
    }
    Ok(string_of(n.as_slice()))
}

/// The value of a decimal digit string (ASCII digits).
pub open spec fn digits_value(s: Seq<char>) -> int
    decreases s.len(),
{
    if s.len() == 0 {
        0
    } else {
        digits_value(s.drop_last()) * 10 + (s.last() as int - '0' as int)
    }
}

/// The `u32` a trimmed text parses to: an optional `+`, then one or more digits,
/// at most `u32::MAX`.
pub open spec fn parse_u32_spec(t: Seq<char>) -> Option<u32> {
    let d = if t.len() > 0 && t[0] == '+' { t.drop_first() } else { t };
    if d.len() > 0 && all_digits(d) && digits_value(d) <= u32::MAX {
        Some(digits_value(d) as u32)
    } else {
        None
    }
}

/// The partition scan status a `max_part` value stands for.
pub open spec fn max_part_spec(value: Seq<char>) -> Option<NbdPartitionScanStatus> {
    match parse_u32_spec(trim(value)) {
        None => None,
        Some(0) => Some(NbdPartitionScanStatus::Disabled),
        Some(n) => Some(NbdPartitionScanStatus::Enabled(n)),
    }
}

/// Parses the NBD module's `max_part` parameter; `InvalidData` unless it is a
/// `u32`.
pub fn parse_nbd_max_part(value: &str) -> (r: Result<NbdPartitionScanStatus, IoError>)
    ensures
        match max_part_spec(value@) {
            Some(s) => r == Ok::<NbdPartitionScanStatus, IoError>(s),
            None => r matches Err(e) && e.kind == ErrorKind::InvalidData,
        },
{
    let vc = chars_of(value);
    let t = trim_chars(vc.as_slice());
    let start: usize = if t.len() > 0 && t[0] == '+' { 1 } else { 0 };
    let ghost d = if t@.len() > 0 && t@[0] == '+' { t@.drop_first() } else { t@ };
    assert(d =~= t@.skip(start as int));
    if start >= t.len() {
        return Err(io_error(ErrorKind::InvalidData, "invalid nbd max_part value"));
    }
    let mut acc: u64 = 0;
    let mut k: usize = start;
    while k < t.len()
        invariant
            start <= k <= t@.len(),
            t@ == trim(value@),
            d == (if t@.len() > 0 && t@[0] == '+' { t@.drop_first() } else { t@ }),
            d == t@.skip(start as int),
            forall|q: int| start <= q < k ==> '0' <= #[trigger] t@[q] && t@[q] <= '9',
            acc == digits_value(t@.subrange(start as int, k as int)),
            acc <= u32::MAX,
        decreases t@.len() - k,
    {
        let c = t[k];
        if !('0' <= c && c <= '9') {
            assert(!all_digits(d)) by {
                assert(d[k - start] == t@[k as int]);
            }
            return Err(io_error(ErrorKind::InvalidData, "invalid nbd max_part value"));
        }
        assert(t@.subrange(start as int, k + 1).drop_last() =~= t@.subrange(start as int, k as int));
        let dv: u64 = (c as u32 - '0' as u32) as u64;
        let next: u64 = acc * 10 + dv;
        if next > 0xFFFF_FFFF {
            proof {
                assert(d.take(k + 1 - start) =~= t@.subrange(start as int, k + 1));
                if all_digits(d) {
                    lemma_digits_grow(d, k + 1 - start);
                    assert(digits_value(d) >= digits_value(d.take(k + 1 - start)));
                }
            }
            return Err(io_error(ErrorKind::InvalidData, "invalid nbd max_part value"));
        }
        acc = next;
        k = k + 1;
    }
    assert(t@.subrange(start as int, t@.len() as int) =~= d);
    assert(all_digits(d)) by {
        assert forall|q: int| 0 <= q < d.len() implies '0' <= #[trigger] d[q] && d[q] <= '9' by {
            assert(d[q] == t@[q + start]);
        }
    }
    let n = acc as u32;
    if n == 0 {
        Ok(NbdPartitionScanStatus::Disabled)
    } else {
        Ok(NbdPartitionScanStatus::Enabled(n))
    }
}

/// A digit string's value is at least that of each of its prefixes.
proof fn lemma_digits_grow(s: Seq<char>, k: int)
    requires
        0 <= k <= s.len(),
        all_digits(s),
    ensures
        digits_value(s) >= digits_value(s.take(k)),
    decreases s.len() - k,
{
    if k < s.len() {
        lemma_digits_grow(s, k + 1);
        assert(s.take(k + 1).drop_last() =~= s.take(k));
        assert(s.take(k + 1).last() == s[k]);
        assert(digits_value(s.take(k)) >= 0) by {
            lemma_digits_nonneg(s.take(k));
        }
    } else {
        assert(s.take(k) =~= s);
    }
}

/// A digit string's value is not negative.
proof fn lemma_digits_nonneg(s: Seq<char>)
    requires
        all_digits(s),
    ensures
        digits_value(s) >= 0,
    decreases s.len(),
{
    if s.len() > 0 {
        assert(all_digits(s.drop_last())) by {
            assert forall|q: int| 0 <= q < s.drop_last().len() implies '0' <= #[trigger] s.drop_last()[q] && s.drop_last()[q] <= '9' by {
                assert(s.drop_last()[q] == s[q]);
            }
        }
        lemma_digits_nonneg(s.drop_last());
        assert(s[s.len() - 1] == s.last());
    }
}

/// Checks that the `max_part` value read from the NBD module disables
/// partition scanning; `InvalidData` when it enables it or is not a number.
pub fn ensure_partition_scan_disabled(max_part_value: &str) -> (r: Result<(), IoError>)
    ensures
        r is Ok <==> max_part_spec(max_part_value@) == Some(NbdPartitionScanStatus::Disabled),
        r matches Err(e) ==> e.kind == ErrorKind::InvalidData,
{
    match parse_nbd_max_part(max_part_value) {
        Ok(NbdPartitionScanStatus::Disabled) => Ok(()),
        Ok(NbdPartitionScanStatus::Enabled(_)) => Err(
            io_error(ErrorKind::InvalidData, "NBD max_part is not 0; partition scanning must be disabled"),
        ),
        Err(e) => Err(e),
    }
}

} // verus!
