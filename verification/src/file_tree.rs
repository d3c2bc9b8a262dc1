//! The controlled file tree: how each file of the real disk is shown (virus
//! marking, extension, autorun and shell script flags) and the order of a
//! directory's entries.
use vstd::prelude::*;
use crate::exfat::transaction_resolver::{seq_lt, str_lt};
use crate::gadget::{lemma_seq_lt_asym, lemma_seq_lt_trans};
use crate::strings::{ascii_lower, ascii_lower_seq, chars_of, is_suffix, last_index_of, seq_ends_with, string_of, to_ascii_lower};
use crate::types::{ControlledEntry, ExecFileType};
use vstd::string::StringExecFns;

verus! {

broadcast use vstd::std_specs::vec::group_vec_axioms;

/// The prefix of a virus file's shown name.
pub const VIRUS_PREFIX: &'static str = "[病毒禁止访问]";

/// `s` with each `\` turned into `/`.
pub open spec fn slashes(s: Seq<char>) -> Seq<char> {
    s.map_values(|c: char| if c == '\\' { '/' } else { c })
}

/// `s` without its leading `/` characters.
pub open spec fn trim_leading_slashes(s: Seq<char>) -> Seq<char>
    decreases s.len(),
{
    if s.len() > 0 && s[0] == '/' {
        trim_leading_slashes(s.drop_first())
    } else {
        s
    }
}

/// A relative path in the form the scanner's infected list is compared in:
/// forward slashes, no leading slash.
pub open spec fn normalized(p: Seq<char>) -> Seq<char> {
    trim_leading_slashes(slashes(p))
}

/// `s` with each `\` turned into `/`.
fn with_slashes(s: &[char]) -> (r: Vec<char>)
    ensures
        r@ == slashes(s@),
{
    let mut out: Vec<char> = Vec::new();
    let mut i: usize = 0;
    while i < s.len()
        invariant
            i <= s@.len(),
            out@ == slashes(s@.take(i as int)),
        decreases s@.len() - i,
    {
        out.push(if s[i] == '\\' { '/' } else { s[i] });
        assert(out@ =~= slashes(s@.take(i + 1)));
        i = i + 1;
    }
    assert(s@.take(s@.len() as int) =~= s@);
    out
}

/// The relative path `path` normalized for comparison with the infected list.
pub fn normalize_path(path: &str) -> (r: String)
    ensures
        r@ == normalized(path@),
{
    let pc = chars_of(path);
    let s = with_slashes(pc.as_slice());
    let mut i: usize = 0;
    assert(s@.skip(0) =~= s@);
    while i < s.len() && s[i] == '/'
        invariant
            i <= s@.len(),
            trim_leading_slashes(s@) == trim_leading_slashes(s@.skip(i as int)),
        decreases s@.len() - i,
    {
        assert(s@.skip(i as int).drop_first() =~= s@.skip(i + 1));
        i = i + 1;
    }
    let mut out: Vec<char> = Vec::new();
    let mut k: usize = i;
    while k < s.len()
        invariant
            i <= k <= s@.len(),
            out@ == s@.subrange(i as int, k as int),
        decreases s@.len() - k,
    {
        out.push(s[k]);
        k = k + 1;
        assert(out@ =~= s@.subrange(i as int, k as int));
    }
    assert(out@ =~= s@.skip(i as int));
    string_of(out.as_slice())
}

/// The extension of a file name: what follows its last `.` in ASCII lower
/// case, or nothing when it has no `.`.
pub open spec fn extension_of(name: Seq<char>) -> Seq<char> {
    match last_index_of(name, '.', name.len() as int) {
        Some(i) => ascii_lower_seq(name.skip(i + 1)),
        None => seq![],
    }
}

/// The extension of the file name `name`.
pub fn extract_extension(name: &str) -> (r: String)
    ensures
        r@ == extension_of(name@),
{
    let nc = chars_of(name);
    match crate::strings::find_last(nc.as_slice(), '.', nc.len()) {
        None => String::new(),
        Some(i) => {
            let mut tail: Vec<char> = Vec::new();
            let mut k: usize = i + 1;
            while k < nc.len()
                invariant
                    i + 1 <= k <= nc@.len(),
                    tail@ == nc@.subrange(i + 1, k as int),
                decreases nc@.len() - k,
            {
                tail.push(nc[k]);
                k = k + 1;
                assert(tail@ =~= nc@.subrange(i + 1, k as int));
            }
            assert(tail@ =~= nc@.skip(i + 1));
            let lower = to_ascii_lower(tail.as_slice());
            string_of(lower.as_slice())
        },
    }
}

/// A shell script name: it ends in `.sh` or `.bash`, in any case.
pub open spec fn shell_script_name(name: Seq<char>) -> bool {
    is_suffix(seq!['.', 's', 'h'], ascii_lower_seq(name)) || is_suffix(seq!['.', 'b', 'a', 's', 'h'], ascii_lower_seq(name))
}

/// Whether `name` is a shell script name.
pub fn is_shell_script(name: &str) -> (r: bool)
    ensures
        r == shell_script_name(name@),
{
    let nc = chars_of(name);
    let lower = to_ascii_lower(nc.as_slice());
    let sh: Vec<char> = vec!['.', 's', 'h'];
    let bash: Vec<char> = vec!['.', 'b', 'a', 's', 'h'];
    assert(sh@ =~= seq!['.', 's', 'h']);
    assert(bash@ =~= seq!['.', 'b', 'a', 's', 'h']);
    seq_ends_with(lower.as_slice(), sh.as_slice()) || seq_ends_with(lower.as_slice(), bash.as_slice())
}

/// The name `autorun.inf`, in any ASCII case.
pub open spec fn autorun_inf_name(name: Seq<char>) -> bool {
    ascii_lower_seq(name) == seq!['a', 'u', 't', 'o', 'r', 'u', 'n', '.', 'i', 'n', 'f']
}

/// Whether `name` is `autorun.inf` in any ASCII case.
pub fn is_autorun_inf_name(name: &str) -> (r: bool)
    ensures
        r == autorun_inf_name(name@),
{
    let nc = chars_of(name);
    let lower = to_ascii_lower(nc.as_slice());
    let t: Vec<char> = vec!['a', 'u', 't', 'o', 'r', 'u', 'n', '.', 'i', 'n', 'f'];
    assert(t@ =~= seq!['a', 'u', 't', 'o', 'r', 'u', 'n', '.', 'i', 'n', 'f']);
    crate::strings::seq_eq(lower.as_slice(), t.as_slice())
}

/// A relative path in the form autorun targets are compared in: forward
/// slashes, ASCII lower case.
pub open spec fn autorun_key_spec(p: Seq<char>) -> Seq<char> {
    ascii_lower_seq(slashes(p))
}

/// The comparison form of an autorun target or relative path.
pub fn autorun_key(p: &str) -> (r: String)
    ensures
        r@ == autorun_key_spec(p@),
{
    let pc = chars_of(p);
    let s = with_slashes(pc.as_slice());
    let lower = to_ascii_lower(s.as_slice());
    string_of(lower.as_slice())
}

/// Whether `v` holds `x`.
fn holds_str(v: &[String], x: &str) -> (r: bool)
    ensures
        r == exists|i: int| 0 <= i < v@.len() && (#[trigger] v@[i])@ == x@,
{
    let mut i: usize = 0;
    while i < v.len()
        invariant
            i <= v@.len(),
            forall|k: int| 0 <= k < i ==> (#[trigger] v@[k])@ != x@,
        decreases v@.len() - i,
    {
        if crate::strings::str_eq(v[i].as_str(), x) {
            return true;
        }
        i = i + 1;
    }
    false
}

/// What the directory walk found of one file or directory.
pub struct FoundEntry {
    pub file_name: String,
    pub real_path: String,
    pub relative: String,
    pub is_dir: bool,
    pub len: u64,
    pub exec_type: Option<ExecFileType>,
}

/// The controlled entry of a found file: a virus (its normalized relative path
/// is infected) is shown empty under the virus prefix; only files carry an
/// extension; `autorun.inf` and shell scripts are flagged in the root; files
/// whose relative path an autorun target names are flagged.
pub fn classify_entry(
    found: FoundEntry,
    is_root: bool,
    infected: &[String],
    autorun_targets: &[String],
    children: Vec<ControlledEntry>,
) -> (e: ControlledEntry)
    requires
        forall|i: int| 0 <= i < infected@.len() ==> (#[trigger] infected@[i])@ == normalized(infected@[i]@),
    ensures
        e.is_virus == exists|i: int| 0 <= i < infected@.len() && (#[trigger] infected@[i])@ == normalized(found.relative@),
        e.file_size == if e.is_virus { 0 } else { found.len },
        e.virtual_name@ == if e.is_virus { VIRUS_PREFIX@ + found.file_name@ } else { found.file_name@ },
        e.real_path@ == found.real_path@,
        e.is_dir == found.is_dir,
        e.exec_type == if !found.is_dir && !e.is_virus { found.exec_type } else { None },
        e.extension@ == if found.is_dir { seq![] } else { extension_of(found.file_name@) },
        e.is_autorun_inf == (is_root && autorun_inf_name(found.file_name@)),
        e.is_autorun_target == (!found.is_dir && exists|i: int|
            0 <= i < autorun_targets@.len() && (#[trigger] autorun_targets@[i])@ == autorun_key_spec(found.relative@)),
        e.is_root_shell_script == (is_root && shell_script_name(found.file_name@)),
        e.children@ == children@,
{
    let rel = normalize_path(found.relative.as_str());
    let is_virus = holds_str(infected, rel.as_str());
    let file_size = if is_virus { 0 } else { found.len };
    let virtual_name = if is_virus {
        crate::exfat::policy_rejection::concat_str(VIRUS_PREFIX, found.file_name.as_str())
    } else {
        found.file_name.clone()
    };
    let exec_type = if !found.is_dir && !is_virus { found.exec_type } else { None };
    let extension = if found.is_dir { String::new() } else { extract_extension(found.file_name.as_str()) };
    let is_autorun_inf = is_root && is_autorun_inf_name(found.file_name.as_str());
    let is_autorun_target = if !found.is_dir {
        let key = autorun_key(found.relative.as_str());
        holds_str(autorun_targets, key.as_str())
    } else {
        false
    };
    let is_root_shell_script = is_root && is_shell_script(found.file_name.as_str());
    ControlledEntry {
        real_path: found.real_path,
        virtual_name,
        file_size,
        is_dir: found.is_dir,
        is_virus,
        exec_type,
        extension,
        is_autorun_target,
        is_autorun_inf,
        is_root_shell_script,
        children,
    }
}

/// The entries are in order of their shown names.
pub open spec fn sorted_by_name(v: Seq<ControlledEntry>) -> bool {
    forall|i: int, j: int| 0 <= i < j < v.len() ==> !seq_lt(#[trigger] v[j].virtual_name@, #[trigger] v[i].virtual_name@)
}

/// Where `e` goes into the name-ordered `o`, searching from `k`: before the
/// first entry whose name is greater than its own.
pub open spec fn insert_pos(o: Seq<ControlledEntry>, e: ControlledEntry, k: int) -> int
    decreases o.len() - k,
{
    if k < 0 || k >= o.len() {
        o.len() as int
    } else if seq_lt(e.virtual_name@, o[k].virtual_name@) {
        k
    } else {
        insert_pos(o, e, k + 1)
    }
}

/// `s` in the stable order of names: each entry goes after every earlier one
/// whose name is not greater, so entries with equal names keep their order.
pub open spec fn stable_by_name(s: Seq<ControlledEntry>) -> Seq<ControlledEntry>
    decreases s.len(),
{
    if s.len() == 0 {
        seq![]
    } else {
        let o = stable_by_name(s.drop_last());
        o.insert(insert_pos(o, s.last(), 0), s.last())
    }
}

/// The entries ordered by their shown names (entries with equal names keep
/// their order).
pub fn sort_entries(entries: Vec<ControlledEntry>) -> (r: Vec<ControlledEntry>)
    ensures
        sorted_by_name(r@),
        r@.to_multiset() == entries@.to_multiset(),
        r@ == stable_by_name(entries@),
{
    let mut rest = entries;
    let ghost orig = rest@;
    let ghost mut n: int = 0;
    let mut out: Vec<ControlledEntry> = Vec::new();
    proof {
        broadcast use vstd::multiset::group_multiset_axioms;
        vstd::seq_lib::to_multiset_len(out@);
        vstd::multiset::lemma_multiset_empty_len(out@.to_multiset());
        assert(out@.to_multiset().add(rest@.to_multiset()) =~= orig.to_multiset());
        assert(orig.skip(0) =~= orig);
        assert(orig.take(0) =~= Seq::<ControlledEntry>::empty());
    }
    while rest.len() > 0
        invariant
            sorted_by_name(out@),
            out@.to_multiset().add(rest@.to_multiset()) == orig.to_multiset(),
            0 <= n <= orig.len(),
            rest@ == orig.skip(n),
            out@ == stable_by_name(orig.take(n)),
        decreases rest@.len(),
    {
        let ghost before_rest = rest@;
        let e = rest.remove(0);
        proof {
            vstd::seq_lib::to_multiset_remove(before_rest, 0);
        }
        let mut p: usize = 0;
        while p < out.len() && !str_lt(e.virtual_name.as_str(), out[p].virtual_name.as_str())
            invariant
                p <= out@.len(),
                forall|k: int| 0 <= k < p ==> !seq_lt(e.virtual_name@, #[trigger] out@[k].virtual_name@),
                insert_pos(out@, e, 0) == insert_pos(out@, e, p as int),
            decreases out@.len() - p,
        {
            p = p + 1;
        }
        proof {
            assert(orig.take(n + 1).drop_last() =~= orig.take(n));
            assert(orig.take(n + 1).last() == e);
            assert(insert_pos(out@, e, 0) == p);
            n = n + 1;
            assert(rest@ =~= orig.skip(n));
        }
        let ghost old_out = out@;
        let ghost ev = e;
        proof {
            assert forall|i: int, j: int| 0 <= i < j < old_out.insert(p as int, ev).len() implies !seq_lt(
                #[trigger] old_out.insert(p as int, ev)[j].virtual_name@,
                #[trigger] old_out.insert(p as int, ev)[i].virtual_name@,
            ) by {
                let s = old_out.insert(p as int, ev);
                if j == p {
                    assert(s[i] == old_out[i]);
                } else if i == p {
                    assert(s[j] == old_out[j - 1]);
                    assert(seq_lt(ev.virtual_name@, old_out[p as int].virtual_name@));
                    if seq_lt(old_out[j - 1].virtual_name@, ev.virtual_name@) {
                        lemma_seq_lt_trans(old_out[j - 1].virtual_name@, ev.virtual_name@, old_out[p as int].virtual_name@);
                        if j - 1 > p {
                            assert(!seq_lt(old_out[j - 1].virtual_name@, old_out[p as int].virtual_name@));
                        } else {
                            lemma_seq_lt_asym(old_out[p as int].virtual_name@, old_out[p as int].virtual_name@);
                        }
                    }
                } else if j < p {
                    assert(s[i] == old_out[i] && s[j] == old_out[j]);
                } else if i < p {
                    assert(s[i] == old_out[i] && s[j] == old_out[j - 1]);
                } else {
                    assert(s[i] == old_out[i - 1] && s[j] == old_out[j - 1]);
                }
            }
        }
        out.insert(p, e);
        proof {
            broadcast use vstd::multiset::group_multiset_axioms;
            vstd::seq_lib::to_multiset_insert(old_out, p as int, ev);
            assert(out@ == old_out.insert(p as int, ev));
            assert(rest@ == before_rest.remove(0));
            assert(before_rest[0] == ev);
            assert(before_rest.to_multiset().count(ev) > 0) by {
                vstd::seq_lib::to_multiset_contains(before_rest, ev);
                assert(before_rest.contains(ev));
            }
            assert(orig.to_multiset() =~= out@.to_multiset().add(rest@.to_multiset()));
        }
    }
    proof {
        broadcast use vstd::multiset::group_multiset_axioms;
        vstd::seq_lib::to_multiset_len(rest@);
        vstd::multiset::lemma_multiset_empty_len(rest@.to_multiset());
        assert(out@.to_multiset() =~= orig.to_multiset());
        assert(orig.take(n) =~= orig);
    }
    out
}

} // verus!
