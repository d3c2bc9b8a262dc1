//! A parsed directory image, looked up by entry name and by entry offset.
use vstd::prelude::*;
use crate::error::IoError;
use crate::exfat::directory_parser::{entries_view, parse_entry_sets, spec_parse_entry_sets, EntryView,
    ParsedDirectoryEntry};
use crate::strings::str_eq;

verus! {

broadcast use vstd::std_specs::vec::group_vec_axioms;

/// A directory's entries: by name (the last entry set of each name) and by offset.
#[derive(Debug)]
pub struct DirectorySnapshot {
    pub virtual_path: String,
    named: Vec<ParsedDirectoryEntry>,
    all: Vec<ParsedDirectoryEntry>,
}

/// Some entry of `s` is named `name`.
pub open spec fn has_name(s: Seq<EntryView>, name: Seq<char>) -> bool {
    exists|i: int| 0 <= i < s.len() && (#[trigger] s[i]).name == name
}

/// The entries of `s` that no later entry shares a name with, in order.
pub open spec fn keep_last(s: Seq<EntryView>) -> Seq<EntryView>
    decreases s.len(),
{
    if s.len() == 0 {
        seq![]
    } else if has_name(s.drop_first(), s[0].name) {
        keep_last(s.drop_first())
    } else {
        seq![s[0]] + keep_last(s.drop_first())
    }
}

/// The index of the first entry of `s` at or after `j` named `name`.
pub open spec fn find_name_from(s: Seq<EntryView>, name: Seq<char>, j: int) -> Option<int>
    decreases s.len() - j,
{
    if j < 0 || j >= s.len() {
        None
    } else if s[j].name == name {
        Some(j)
    } else {
        find_name_from(s, name, j + 1)
    }
}

/// The index of the last entry of `s` before `n` at offset `off`.
pub open spec fn last_with_offset(s: Seq<EntryView>, off: int, n: int) -> Option<int>
    decreases n,
{
    if n <= 0 || n > s.len() {
        None
    } else if s[n - 1].entry_offset == off {
        Some(n - 1)
    } else {
        last_with_offset(s, off, n - 1)
    }
}

/// A search from `j` finds the first match at or after `j`.
pub proof fn lemma_find_name_from(s: Seq<EntryView>, name: Seq<char>, j: int)
    requires
        0 <= j <= s.len(),
    ensures
        match find_name_from(s, name, j) {
            Some(i) => j <= i < s.len() && s[i].name == name && forall|k: int| j <= k < i ==> s[k].name != name,
            None => forall|k: int| j <= k < s.len() ==> s[k].name != name,
        },
    decreases s.len() - j,
{
    if j < s.len() && s[j].name != name {
        lemma_find_name_from(s, name, j + 1);
    }
}

/// The names kept by `keep_last` are exactly the names of `s`, each once.
pub proof fn lemma_keep_last(s: Seq<EntryView>)
    ensures
        forall|n: Seq<char>| has_name(keep_last(s), n) <==> has_name(s, n),
        forall|a: int, b: int|
            0 <= a < b < keep_last(s).len() ==> keep_last(s)[a].name != keep_last(s)[b].name,
        forall|i: int| 0 <= i < keep_last(s).len() ==> s.contains(#[trigger] keep_last(s)[i]),
    decreases s.len(),
{
    if s.len() > 0 {
        let t = s.drop_first();
        lemma_keep_last(t);
        let k = keep_last(t);
        assert forall|i: int| 0 <= i < t.len() implies s.contains(#[trigger] t[i]) by {
            assert(s[i + 1] == t[i]);
        }
        if !has_name(t, s[0].name) {
            let r = seq![s[0]] + k;
            assert forall|n: Seq<char>| has_name(r, n) <==> has_name(s, n) by {
                if has_name(s, n) {
                    let i = choose|i: int| 0 <= i < s.len() && (#[trigger] s[i]).name == n;
                    if i == 0 {
                        assert(r[0].name == n);
                    } else {
                        assert(t[i - 1].name == n);
                        assert(has_name(t, n));
                        assert(has_name(k, n));
                        let m = choose|m: int| 0 <= m < k.len() && (#[trigger] k[m]).name == n;
                        assert(r[m + 1].name == n);
                    }
                }
                if has_name(r, n) {
                    let i = choose|i: int| 0 <= i < r.len() && (#[trigger] r[i]).name == n;
                    if i == 0 {
                        assert(s[0].name == n);
                    } else {
                        assert(k[i - 1].name == n);
                        assert(has_name(t, n));
                        let m = choose|m: int| 0 <= m < t.len() && (#[trigger] t[m]).name == n;
                        assert(s[m + 1].name == n);
                    }
                }
            }
            assert forall|a: int, b: int| 0 <= a < b < r.len() implies r[a].name != r[b].name by {
                if a == 0 {
                    assert(r[b] == k[b - 1]);
                    if r[a].name == r[b].name {
                        assert(has_name(k, s[0].name));
                    }
                } else {
                    assert(r[a] == k[a - 1] && r[b] == k[b - 1]);
                }
            }
            assert forall|i: int| 0 <= i < r.len() implies s.contains(#[trigger] r[i]) by {
                if i == 0 {
                    assert(s[0] == r[0]);
                } else {
                    assert(r[i] == k[i - 1]);
                }
            }
        } else {
            assert forall|n: Seq<char>| has_name(k, n) <==> has_name(s, n) by {
                if has_name(s, n) {
                    let i = choose|i: int| 0 <= i < s.len() && (#[trigger] s[i]).name == n;
                    if i > 0 {
                        assert(t[i - 1].name == n);
                    }
                }
                if has_name(t, n) {
                    let m = choose|m: int| 0 <= m < t.len() && (#[trigger] t[m]).name == n;
                    assert(s[m + 1].name == n);
                }
            }
        }
    }
}

impl DirectorySnapshot {
    /// The path of the directory.
    pub closed spec fn spec_path(&self) -> Seq<char> {
        self.virtual_path@
    }

    /// The entries by name: one per name, in directory order.
    pub closed spec fn spec_entries(&self) -> Seq<EntryView> {
        entries_view(self.named@)
    }

    /// The path of the directory.
    pub fn path(&self) -> (r: &str)
        ensures
            r@ == self.spec_path(),
    {
        self.virtual_path.as_str()
    }

    /// Every parsed entry set, in directory order.
    pub closed spec fn spec_all(&self) -> Seq<EntryView> {
        entries_view(self.all@)
    }

    /// Parses the directory image `data` of the directory at `virtual_path`;
    /// `InvalidData` when the image does not parse.
    pub fn parse(virtual_path: String, data: &[u8]) -> (r: Result<Self, IoError>)
        ensures
            match spec_parse_entry_sets(data@) {
                Some(es) => r matches Ok(s) && s.spec_path() == virtual_path@ && s.spec_all() == es
                    && s.spec_entries() == keep_last(es),
                None => r is Err,
            },
    {
        let all = parse_entry_sets(data)?;
        let ghost es = entries_view(all@);
        let mut named: Vec<ParsedDirectoryEntry> = Vec::new();
        let n = all.len();
        let mut i: usize = 0;
        assert(es.skip(0) =~= es);
        assert(entries_view(named@) + keep_last(es.skip(0)) =~= keep_last(es));
        while i < n
            invariant
                i <= n == all@.len(),
                es == entries_view(all@),
                entries_view(named@) + keep_last(es.skip(i as int)) == keep_last(es),
            decreases n - i,
        {
            let mut later = false;
            let mut j: usize = i + 1;
            while j < n
                invariant
                    i < j <= n == all@.len(),
                    es == entries_view(all@),
                    later == exists|k: int| i < k < j && (#[trigger] es[k]).name == es[i as int].name,
                decreases n - j,
            {
                assert(es[j as int] == all@[j as int]@ && es[i as int] == all@[i as int]@);
                if str_eq(all[j].name.as_str(), all[i].name.as_str()) {
                    later = true;
                }
                j = j + 1;
            }
            let ghost tail = es.skip(i as int);
            assert(tail.drop_first() =~= es.skip(i + 1));
            assert(later == has_name(tail.drop_first(), tail[0].name)) by {
                if later {
                    let k = choose|k: int| i < k < n && (#[trigger] es[k]).name == es[i as int].name;
                    assert(tail.drop_first()[k - i - 1].name == tail[0].name);
                }
                if has_name(tail.drop_first(), tail[0].name) {
                    let m = choose|m: int| 0 <= m < tail.drop_first().len() && (#[trigger] tail.drop_first()[m]).name
                        == tail[0].name;
                    assert(es[i + 1 + m].name == es[i as int].name);
                }
            }
            if !later {
                let e = all[i].duplicate();
                named.push(e);
                assert(entries_view(named@) =~= entries_view(named@.drop_last()) + seq![e@]);
                assert(entries_view(named@) + keep_last(es.skip(i + 1)) =~= keep_last(es));
            }
            i = i + 1;
        }
        assert(es.skip(n as int) =~= Seq::<EntryView>::empty());
        assert(entries_view(named@) =~= keep_last(es));
        Ok(DirectorySnapshot { virtual_path, named, all })
    }

    /// The entry named `name`.
    pub fn get_by_name(&self, name: &str) -> (r: Option<&ParsedDirectoryEntry>)
        ensures
            match find_name_from(self.spec_entries(), name@, 0) {
                Some(i) => r matches Some(e) && e@ == self.spec_entries()[i],
                None => r is None,
            },
            r is Some <==> has_name(self.spec_entries(), name@),
    {
        proof {
            lemma_find_name_from(self.spec_entries(), name@, 0);
        }
        let mut i: usize = 0;
        while i < self.named.len()
            invariant
                i <= self.named@.len(),
                self.spec_entries() == entries_view(self.named@),
                find_name_from(self.spec_entries(), name@, 0) == find_name_from(self.spec_entries(), name@, i as int),
                forall|k: int| 0 <= k < i ==> (#[trigger] self.spec_entries()[k]).name != name@,
            decreases self.named@.len() - i,
        {
            if str_eq(self.named[i].name.as_str(), name) {
                return Some(&self.named[i]);
            }
            i = i + 1;
        }
        None
    }

    /// The entry set that starts at byte `offset` of the image.
    pub fn get_by_offset(&self, offset: usize) -> (r: Option<&ParsedDirectoryEntry>)
        ensures
            match last_with_offset(self.spec_all(), offset as int, self.spec_all().len() as int) {
                Some(i) => r matches Some(e) && e@ == self.spec_all()[i],
                None => r is None,
            },
    {
        let mut i: usize = self.all.len();
        while i > 0
            invariant
                i <= self.all@.len(),
                self.spec_all() == entries_view(self.all@),
                last_with_offset(self.spec_all(), offset as int, self.spec_all().len() as int)
                    == last_with_offset(self.spec_all(), offset as int, i as int),
            decreases i,
        {
            if self.all[i - 1].entry_offset == offset {
                return Some(&self.all[i - 1]);
            }
            i = i - 1;
        }
        None
    }

    /// The entries by name, in directory order.
    pub fn entries(&self) -> (r: &[ParsedDirectoryEntry])
        ensures
            entries_view(r@) == self.spec_entries(),
    {
        self.named.as_slice()
    }
}

} // verus!
