//! Where the virtual paths of the controlled tree lie on the real disk.
use vstd::prelude::*;
use crate::error::{io_error, ErrorKind, IoError};
use crate::strings::{chars_of, components, components_of, push_components, string_of};
use vstd::string::StringExecFns;

verus! {

broadcast use vstd::std_specs::vec::group_vec_axioms;

/// Applies file system mutations to the real disk mounted at `mount_root`.
#[derive(Debug, Clone)]
pub struct RealFsCommitter {
    mount_root: String,
}

/// The components without the `.` ones.
pub open spec fn drop_dots(cs: Seq<Seq<char>>) -> Seq<Seq<char>>
    decreases cs.len(),
{
    if cs.len() == 0 {
        seq![]
    } else if cs.last() == seq!['.'] {
        drop_dots(cs.drop_last())
    } else {
        drop_dots(cs.drop_last()).push(cs.last())
    }
}

/// The real path of the virtual path `v` under `root`: none unless `v` is
/// absolute and has no `..` component.
pub open spec fn resolve_spec(root: Seq<char>, v: Seq<char>) -> Option<Seq<char>> {
    if v.len() == 0 || v[0] != '/' {
        None
    } else if components(v, v.len() as int).contains(seq!['.', '.']) {
        None
    } else {
        Some(push_components(root, drop_dots(components(v, v.len() as int))))
    }
}

impl RealFsCommitter {
    pub closed spec fn spec_mount_root(&self) -> Seq<char> {
        self.mount_root@
    }

    /// A committer for the disk mounted at `mount_root`.
    pub fn new(mount_root: String) -> (c: Self)
        ensures
            c.spec_mount_root() == mount_root@,
    {
        RealFsCommitter { mount_root }
    }

    /// The mount root.
    pub fn mount_root(&self) -> (r: &str)
        ensures
            r@ == self.spec_mount_root(),
    {
        self.mount_root.as_str()
    }

    /// The real path of `virtual_path`; `PermissionDenied` unless it is
    /// absolute and stays below the mount root.
    pub fn resolve_virtual_path(&self, virtual_path: &str) -> (r: Result<String, IoError>)
        ensures
            match resolve_spec(self.spec_mount_root(), virtual_path@) {
                Some(p) => r matches Ok(x) && x@ == p,
                None => r matches Err(e) && e.kind == ErrorKind::PermissionDenied,
            },
    {
        let vc = chars_of(virtual_path);
        if vc.len() == 0 || vc[0] != '/' {
            return Err(io_error(ErrorKind::PermissionDenied, "virtual path must be absolute"));
        }
        let comps = components_of(vc.as_slice(), vc.len());
        let ghost cs = components(virtual_path@, virtual_path@.len() as int);
        let mut acc = chars_of(self.mount_root.as_str());
        let mut i: usize = 0;
        assert(cs.take(0) =~= Seq::<Seq<char>>::empty());
        while i < comps.len()
            invariant
                i <= comps@.len() == cs.len(),
                cs == components(virtual_path@, virtual_path@.len() as int),
                forall|k: int| 0 <= k < comps@.len() ==> (#[trigger] comps@[k])@ == cs[k],
                forall|k: int| 0 <= k < i ==> cs[k] != seq!['.', '.'],
                acc@ == push_components(self.spec_mount_root(), drop_dots(cs.take(i as int))),
            decreases comps@.len() - i,
        {
            assert(cs.take(i + 1).drop_last() =~= cs.take(i as int));
            assert(cs.take(i + 1).last() == comps@[i as int]@);
            let c = &comps[i];
            let is_dot = c.len() == 1 && c[0] == '.';
            let is_dotdot = c.len() == 2 && c[0] == '.' && c[1] == '.';
            if is_dotdot {
                assert(c@ =~= seq!['.', '.']);
                assert(cs[i as int] == seq!['.', '.']);
                assert(cs.contains(seq!['.', '.']));
                return Err(io_error(ErrorKind::PermissionDenied, "virtual path escapes mount root"));
            }
            assert(c@ != seq!['.', '.']) by {
                if c@ == seq!['.', '.'] {
                    assert(c@.len() == 2 && c@[0] == '.' && c@[1] == '.');
                }
            }
            let ghost dd = drop_dots(cs.take(i as int));
            if is_dot {
                assert(c@ =~= seq!['.']);
                assert(drop_dots(cs.take(i + 1)) == dd);
            } else {
                assert(drop_dots(cs.take(i + 1)) == dd.push(c@));
                assert(dd.push(c@).drop_last() =~= dd);
                assert(c@ != seq!['.']) by {
                    if c@ == seq!['.'] {
                        assert(c@.len() == 1 && c@[0] == '.');
                    }
                }
                let need_sep = acc.len() > 0 && acc[acc.len() - 1] != '/';
                if need_sep {
                    acc.push('/');
                }
                let ghost before = acc@;
                let mut k: usize = 0;
                while k < c.len()
                    invariant
                        k <= c@.len(),
                        acc@ == before + c@.take(k as int),
                    decreases c@.len() - k,
                {
                    acc.push(c[k]);
                    k = k + 1;
                    assert(acc@ =~= before + c@.take(k as int));
                }
                assert(c@.take(c@.len() as int) =~= c@);
            }
            i = i + 1;
        }
        assert(cs.take(cs.len() as int) =~= cs);
        assert(!cs.contains(seq!['.', '.']));
        Ok(string_of(acc.as_slice()))
    }
}

} // verus!
