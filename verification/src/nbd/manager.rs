//! The NBD device pool: where its devices and sysfs entries are, and which of
//! them recovery must disconnect.
use vstd::prelude::*;
use crate::nbd::sysfs::{pid_connected, pid_value_connected, NbdSysfs};
use crate::strings::{decimal, decimal_string, push_component};
use vstd::string::StringExecFns;

verus! {

broadcast use vstd::std_specs::vec::group_vec_axioms;

/// The NBD device pool's paths.
#[derive(Debug, Clone)]
pub struct NbdDeviceManager {
    sysfs: NbdSysfs,
    dev_root: String,
    max_part_path: String,
}

/// The name of NBD device `idx`.
pub open spec fn nbd_name(idx: u32) -> Seq<char> {
    seq!['n', 'b', 'd'] + decimal(idx as nat)
}

/// The name of NBD device `idx`: `nbd` and the index.
pub fn nbd_device_name(idx: u32) -> (r: String)
    ensures
        r@ == nbd_name(idx),
{
    let mut s = String::new();
    crate::text::push_char(&mut s, 'n');
    crate::text::push_char(&mut s, 'b');
    crate::text::push_char(&mut s, 'd');
    let d = decimal_string(idx as u64);
    let dc = crate::strings::chars_of(d.as_str());
    let ghost base = s@;
    assert(base =~= seq!['n', 'b', 'd']);
    let mut i: usize = 0;
    while i < dc.len()
        invariant
            i <= dc@.len(),
            s@ == base + dc@.take(i as int),
        decreases dc@.len() - i,
    {
        crate::text::push_char(&mut s, dc[i]);
        i = i + 1;
        assert(s@ =~= base + dc@.take(i as int));
    }
    assert(dc@.take(dc@.len() as int) =~= dc@);
    s
}

/// The devices among the first `pid_values.len()` of the pool whose `pid`
/// file (`None` when it could not be read) says they are connected.
pub open spec fn connected_paths(dev_root: Seq<char>, pid_values: Seq<Option<Seq<char>>>) -> Seq<Seq<char>>
    decreases pid_values.len(),
{
    if pid_values.len() == 0 {
        seq![]
    } else {
        let rest = connected_paths(dev_root, pid_values.drop_last());
        match pid_values.last() {
            Some(v) => if pid_connected(v) {
                rest.push(push_component(dev_root, nbd_name((pid_values.len() - 1) as u32)))
            } else {
                rest
            },
            None => rest,
        }
    }
}

impl NbdDeviceManager {
    pub closed spec fn spec_sys_root(&self) -> Seq<char> {
        self.sysfs.spec_root()
    }

    pub closed spec fn spec_dev_root(&self) -> Seq<char> {
        self.dev_root@
    }

    pub closed spec fn spec_max_part_path(&self) -> Seq<char> {
        self.max_part_path@
    }

    /// A manager of the devices under `dev_root`, their sysfs entries under
    /// `sys_block_root` and the module's `max_part` parameter at `max_part_path`.
    pub fn new(sys_block_root: &str, dev_root: &str, max_part_path: &str) -> (m: Self)
        ensures
            m.spec_sys_root() == sys_block_root@,
            m.spec_dev_root() == dev_root@,
            m.spec_max_part_path() == max_part_path@,
    {
        NbdDeviceManager {
            sysfs: NbdSysfs::new(sys_block_root),
            dev_root: String::from_str(dev_root),
            max_part_path: String::from_str(max_part_path),
        }
    }

    /// The sysfs tree of the devices.
    pub fn sysfs(&self) -> (r: &NbdSysfs)
        ensures
            r.spec_root() == self.spec_sys_root(),
    {
        &self.sysfs
    }

    /// The path of the `max_part` parameter.
    pub fn max_part_path(&self) -> (r: &str)
        ensures
            r@ == self.spec_max_part_path(),
    {
        self.max_part_path.as_str()
    }

    /// The device node of NBD device `idx`.
    pub fn device_path(&self, idx: u32) -> (r: String)
        ensures
            r@ == push_component(self.spec_dev_root(), nbd_name(idx)),
    {
        let name = nbd_device_name(idx);
        crate::strings::join_path(self.dev_root.as_str(), name.as_str())
    }

    /// The connected devices of the pool, given the content of each device's
    /// `pid` file in index order (`None` where it could not be read).
    pub fn connected_devices_for_recovery(&self, pid_values: &[Option<String>]) -> (r: Vec<String>)
        requires
            pid_values@.len() <= u32::MAX + 1,
        ensures
            r@.map_values(|s: String| s@) == connected_paths(
                self.spec_dev_root(),
                pid_values@.map_values(|v: Option<String>| match v {
                    Some(s) => Some(s@),
                    None => None,
                }),
            ),
    {
        let ghost pv = pid_values@.map_values(|v: Option<String>| match v {
            Some(s) => Some(s@),
            None => None::<Seq<char>>,
        });
        let mut out: Vec<String> = Vec::new();
        let mut i: usize = 0;
        assert(pv.take(0) =~= Seq::<Option<Seq<char>>>::empty());
        assert(out@.map_values(|s: String| s@) =~= Seq::<Seq<char>>::empty());
        while i < pid_values.len()
            invariant
                i <= pid_values@.len() <= u32::MAX + 1,
                pv == pid_values@.map_values(|v: Option<String>| match v {
                    Some(s) => Some(s@),
                    None => None::<Seq<char>>,
                }),
                out@.map_values(|s: String| s@) == connected_paths(self.spec_dev_root(), pv.take(i as int)),
            decreases pid_values@.len() - i,
        {
            assert(pv.take(i + 1).drop_last() =~= pv.take(i as int));
            assert(pv.take(i + 1).last() == pv[i as int]);
            match &pid_values[i] {
                Some(v) => {
                    if pid_value_connected(v.as_str()) {
                        let p = self.device_path(i as u32);
                        let ghost before = out@.map_values(|s: String| s@);
                        out.push(p);
                        assert(out@.map_values(|s: String| s@) =~= before.push(p@));
                    }
                },
                None => {},
            }
            i = i + 1;
        }
        assert(pv.take(pv.len() as int) =~= pv);
        out
    }
}

} // verus!
