//! The mass storage LUN of the board's USB gadget: which LUN to use, which UDC
//! to bind, and the gadget's known paths.
use vstd::prelude::*;
use crate::autorun::{trim, trim_chars};
use crate::error::IoError;
use crate::exfat::transaction_resolver::{seq_lt, str_lt};
use crate::strings::{chars_of, is_prefix, seq_starts_with};
use vstd::string::StringExecFns;

verus! {

broadcast use vstd::std_specs::vec::group_vec_axioms;

/// Where configfs gadgets live.
pub const CONFIGFS_ROOT: &'static str = "/sys/kernel/config/usb_gadget";

/// Where the USB device controllers are listed.
pub const UDC_CLASS_ROOT: &'static str = "/sys/class/udc";

/// Why the gadget cannot be used.
#[derive(Debug)]
pub enum GadgetError {
    ConfigfsMissing(String),
    LunNotFound,
    Io(IoError),
    BackingPathInvalid(String),
    UdcNotFound(String),
}

/// A mass storage LUN of a gadget.
#[derive(Debug, Clone)]
pub struct MassStorageLun {
    pub gadget_name: String,
    pub function_name: String,
    pub gadget_dir: String,
    pub lun_dir: String,
}

/// The gadget runtime: the chosen LUN and the UDC class root.
#[derive(Debug, Clone)]
pub struct GadgetRuntime {
    lun: MassStorageLun,
    udc_root: String,
}

/// A LUN found while walking configfs: whether its function is not linked
/// into the active configuration, and the LUN itself.
#[derive(Debug, Clone)]
pub struct LunCandidate {
    pub unlinked: bool,
    pub lun: MassStorageLun,
}

/// `a` sorts before `b`: linked first, then by gadget name, then by function name.
pub open spec fn candidate_lt(a: LunCandidate, b: LunCandidate) -> bool {
    (!a.unlinked && b.unlinked) || (a.unlinked == b.unlinked && (seq_lt(a.lun.gadget_name@, b.lun.gadget_name@) || (
    a.lun.gadget_name@ == b.lun.gadget_name@ && seq_lt(a.lun.function_name@, b.lun.function_name@))))
}

/// A function directory name that is a mass storage function.
pub open spec fn is_mass_storage_function(name: Seq<char>) -> bool {
    is_prefix(seq!['m', 'a', 's', 's', '_', 's', 't', 'o', 'r', 'a', 'g', 'e'], name)
}

/// Whether a function directory name is a mass storage function.
pub fn mass_storage_function(name: &str) -> (r: bool)
    ensures
        r == is_mass_storage_function(name@),
{
    let p: Vec<char> = vec!['m', 'a', 's', 's', '_', 's', 't', 'o', 'r', 'a', 'g', 'e'];
    assert(p@ =~= seq!['m', 'a', 's', 's', '_', 's', 't', 'o', 'r', 'a', 'g', 'e']);
    let nc = chars_of(name);
    seq_starts_with(nc.as_slice(), p.as_slice())
}

/// Whether candidate `a` sorts before candidate `b`.
fn candidate_before(a: &LunCandidate, b: &LunCandidate) -> (r: bool)
    ensures
        r == candidate_lt(*a, *b),
{
    if a.unlinked != b.unlinked {
        return !a.unlinked;
    }
    if str_lt(a.lun.gadget_name.as_str(), b.lun.gadget_name.as_str()) {
        return true;
    }
    if !crate::strings::str_eq(a.lun.gadget_name.as_str(), b.lun.gadget_name.as_str()) {
        return false;
    }
    str_lt(a.lun.function_name.as_str(), b.lun.function_name.as_str())
}

/// The candidates have the same sort key.
pub open spec fn same_key(a: LunCandidate, b: LunCandidate) -> bool {
    a.unlinked == b.unlinked && a.lun.gadget_name@ == b.lun.gadget_name@ && a.lun.function_name@ == b.lun.function_name@
}

/// `i` is where a stable sort puts the first candidate: it sorts before every
/// earlier one and no later one sorts before it.
pub open spec fn first_in_order(cs: Seq<LunCandidate>, i: int) -> bool {
    forall|k: int|
        0 <= k < cs.len() ==> k == i || (k < i && candidate_lt(cs[i], #[trigger] cs[k])) || (k > i && !candidate_lt(
            cs[k],
            cs[i],
        ))
}

/// The index of the candidate a stable sort puts first.
pub fn select_lun(candidates: &[LunCandidate]) -> (r: Option<usize>)
    ensures
        candidates@.len() == 0 <==> r is None,
        r matches Some(i) ==> i < candidates@.len() && first_in_order(candidates@, i as int),
{
    if candidates.len() == 0 {
        return None;
    }
    let mut best: usize = 0;
    let mut i: usize = 1;
    while i < candidates.len()
        invariant
            1 <= i <= candidates@.len(),
            best < i,
            forall|k: int|
                0 <= k < i ==> k == best || (k < best && candidate_lt(candidates@[best as int], #[trigger] candidates@[k]))
                    || (k > best && !candidate_lt(candidates@[k], candidates@[best as int])),
        decreases candidates@.len() - i,
    {
        if candidate_before(&candidates[i], &candidates[best]) {
            proof {
                lemma_new_best(candidates@, best as int, i as int);
            }
            best = i;
        }
        i = i + 1;
    }
    Some(best)
}

/// A candidate that sorts before the best one so far sorts before all earlier ones.
proof fn lemma_new_best(cs: Seq<LunCandidate>, best: int, i: int)
    requires
        0 <= best < i < cs.len(),
        candidate_lt(cs[i], cs[best]),
        forall|k: int|
            0 <= k < i ==> k == best || (k < best && candidate_lt(cs[best], #[trigger] cs[k])) || (k > best && !candidate_lt(
                cs[k],
                cs[best],
            )),
    ensures
        forall|k: int|
            0 <= k < i + 1 ==> k == i || (k < i && candidate_lt(cs[i], #[trigger] cs[k])) || (k > i && !candidate_lt(
                cs[k],
                cs[i],
            )),
{
    assert forall|k: int| 0 <= k < i implies candidate_lt(cs[i], #[trigger] cs[k]) by {
        if k == best {
        } else if k < best {
            lemma_candidate_lt_trans(cs[i], cs[best], cs[k]);
        } else {
            lemma_candidate_lt_total(cs[k], cs[best]);
            if candidate_lt(cs[best], cs[k]) {
                lemma_candidate_lt_trans(cs[i], cs[best], cs[k]);
            }
        }
    }
}

/// Two candidates sort one before the other unless their keys are equal.
proof fn lemma_candidate_lt_total(a: LunCandidate, b: LunCandidate)
    ensures
        candidate_lt(a, b) || candidate_lt(b, a) || same_key(a, b),
{
    lemma_seq_lt_total(a.lun.gadget_name@, b.lun.gadget_name@);
    lemma_seq_lt_total(a.lun.function_name@, b.lun.function_name@);
}

/// Two different character sequences sort one before the other.
pub proof fn lemma_seq_lt_total(a: Seq<char>, b: Seq<char>)
    ensures
        a == b || seq_lt(a, b) || seq_lt(b, a),
    decreases a.len(),
{
    if a.len() > 0 && b.len() > 0 && a[0] == b[0] {
        lemma_seq_lt_total(a.drop_first(), b.drop_first());
        if a.drop_first() == b.drop_first() {
            assert(a =~= seq![a[0]] + a.drop_first());
            assert(b =~= seq![b[0]] + b.drop_first());
        }
    } else if a.len() == 0 && b.len() == 0 {
        assert(a =~= b);
    } else if a.len() > 0 && b.len() > 0 {
        assert((a[0] as int) != (b[0] as int));
    }
}

/// The order of character sequences is transitive.
pub proof fn lemma_seq_lt_trans(a: Seq<char>, b: Seq<char>, c: Seq<char>)
    requires
        seq_lt(a, b),
        seq_lt(b, c),
    ensures
        seq_lt(a, c),
    decreases a.len(),
{
    if a.len() > 0 && b.len() > 0 && c.len() > 0 && a[0] == b[0] && b[0] == c[0] {
        lemma_seq_lt_trans(a.drop_first(), b.drop_first(), c.drop_first());
    }
}

/// No character sequence sorts before itself.
pub proof fn lemma_seq_lt_irrefl(a: Seq<char>)
    ensures
        !seq_lt(a, a),
    decreases a.len(),
{
    if a.len() > 0 {
        lemma_seq_lt_irrefl(a.drop_first());
    }
}

/// Two character sequences do not sort before each other.
pub proof fn lemma_seq_lt_asym(a: Seq<char>, b: Seq<char>)
    ensures
        !(seq_lt(a, b) && seq_lt(b, a)),
    decreases a.len(),
{
    if a.len() > 0 && b.len() > 0 && a[0] == b[0] {
        lemma_seq_lt_asym(a.drop_first(), b.drop_first());
    }
}




proof fn lemma_candidate_lt_trans(a: LunCandidate, b: LunCandidate, c: LunCandidate)
    requires
        candidate_lt(a, b),
        candidate_lt(b, c),
    ensures
        candidate_lt(a, c),
{
    let (ag, bg, cg) = (a.lun.gadget_name@, b.lun.gadget_name@, c.lun.gadget_name@);
    let (af, bf, cf) = (a.lun.function_name@, b.lun.function_name@, c.lun.function_name@);
    if a.unlinked == b.unlinked && b.unlinked == c.unlinked {
        if seq_lt(ag, bg) && seq_lt(bg, cg) {
            lemma_seq_lt_trans(ag, bg, cg);
        } else if seq_lt(af, bf) && seq_lt(bf, cf) {
            lemma_seq_lt_trans(af, bf, cf);
        }
    }
}

/// The first UDC name in sort order.
pub fn first_udc_name(names: &[String]) -> (r: Option<usize>)
    ensures
        (exists|i: int| 0 <= i < names@.len() && (#[trigger] names@[i])@.len() > 0) <==> r is Some,
        r matches Some(i) ==> i < names@.len() && names@[i as int]@.len() > 0 && forall|k: int|
            0 <= k < names@.len() && (#[trigger] names@[k])@.len() > 0 ==> !seq_lt(names@[k]@, names@[i as int]@),
{
    let mut best: Option<usize> = None;
    let mut i: usize = 0;
    while i < names.len()
        invariant
            i <= names@.len(),
            best is None <==> forall|k: int| 0 <= k < i ==> (#[trigger] names@[k])@.len() == 0,
            best matches Some(b) ==> b < i && names@[b as int]@.len() > 0 && forall|k: int|
                0 <= k < i && (#[trigger] names@[k])@.len() > 0 ==> !seq_lt(names@[k]@, names@[b as int]@),
        decreases names@.len() - i,
    {
        if chars_of(names[i].as_str()).len() > 0 {
            match best {
                None => {
                    proof {
                        lemma_seq_lt_irrefl(names@[i as int]@);
                    }
                    best = Some(i);
                },
                Some(b) => {
                    if str_lt(names[i].as_str(), names[b].as_str()) {
                        proof {
                            assert forall|k: int| 0 <= k < i + 1 && (#[trigger] names@[k])@.len() > 0 implies !seq_lt(
                                names@[k]@,
                                names@[i as int]@,
                            ) by {
                                if k < i && seq_lt(names@[k]@, names@[i as int]@) {
                                    lemma_seq_lt_trans(names@[k]@, names@[i as int]@, names@[b as int]@);
                                }
                                if k == i {
                                    lemma_seq_lt_irrefl(names@[i as int]@);
                                }
                            }
                        }
                        best = Some(i);
                    } else {
                    }
                },
            }
        }
        i = i + 1;
    }
    best
}

/// A UDC file content that names a bound controller.
pub open spec fn udc_bound(current: Seq<char>) -> bool {
    trim(current).len() > 0
}

/// Whether the gadget's UDC file already names a controller.
pub fn udc_is_bound(current: &str) -> (r: bool)
    ensures
        r == udc_bound(current@),
{
    let cc = chars_of(current);
    let t = trim_chars(cc.as_slice());
    t.len() > 0
}

impl GadgetRuntime {
    pub closed spec fn spec_lun(&self) -> MassStorageLun {
        self.lun
    }

    pub closed spec fn spec_udc_root(&self) -> Seq<char> {
        self.udc_root@
    }

    /// The runtime of the chosen LUN, with controllers listed under `udc_root`.
    pub fn new(lun: MassStorageLun, udc_root: &str) -> (g: Self)
        ensures
            g.spec_lun() == lun,
            g.spec_udc_root() == udc_root@,
    {
        GadgetRuntime { lun, udc_root: String::from_str(udc_root) }
    }

    /// The runtime of the best of the `candidates`; `LunNotFound` when there
    /// are none.
    pub fn from_candidates(candidates: &[LunCandidate], udc_root: &str) -> (r: Result<Self, GadgetError>)
        ensures
            candidates@.len() == 0 <==> r matches Err(GadgetError::LunNotFound),
            r matches Ok(g) ==> g.spec_udc_root() == udc_root@ && exists|i: int|
                0 <= i < candidates@.len() && g.spec_lun().gadget_name@ == (#[trigger] candidates@[i]).lun.gadget_name@
                    && g.spec_lun().function_name@ == candidates@[i].lun.function_name@ && g.spec_lun().lun_dir@
                    == candidates@[i].lun.lun_dir@ && g.spec_lun().gadget_dir@ == candidates@[i].lun.gadget_dir@
                    && first_in_order(candidates@, i),
    {
        match select_lun(candidates) {
            None => Err(GadgetError::LunNotFound),
            Some(i) => {
                let c = &candidates[i];
                let lun = MassStorageLun {
                    gadget_name: c.lun.gadget_name.clone(),
                    function_name: c.lun.function_name.clone(),
                    gadget_dir: c.lun.gadget_dir.clone(),
                    lun_dir: c.lun.lun_dir.clone(),
                };
                Ok(GadgetRuntime { lun, udc_root: String::from_str(udc_root) })
            },
        }
    }

    /// The gadget's name.
    pub fn gadget_name(&self) -> (r: &str)
        ensures
            r@ == self.spec_lun().gadget_name@,
    {
        self.lun.gadget_name.as_str()
    }

    /// The mass storage function's name.
    pub fn function_name(&self) -> (r: &str)
        ensures
            r@ == self.spec_lun().function_name@,
    {
        self.lun.function_name.as_str()
    }

    /// The LUN's directory.
    pub fn lun_dir(&self) -> (r: &str)
        ensures
            r@ == self.spec_lun().lun_dir@,
    {
        self.lun.lun_dir.as_str()
    }

    /// The gadget's directory.
    pub fn gadget_dir(&self) -> (r: &str)
        ensures
            r@ == self.spec_lun().gadget_dir@,
    {
        self.lun.gadget_dir.as_str()
    }

    /// The UDC class root.
    pub fn udc_root(&self) -> (r: &str)
        ensures
            r@ == self.spec_udc_root(),
    {
        self.udc_root.as_str()
    }
}

} // verus!
