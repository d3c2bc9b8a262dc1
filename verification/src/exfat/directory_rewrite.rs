//! What a rewritten directory image means: the mutations that bring the file
//! tree in line with the entry sets the host wrote.
use vstd::prelude::*;
use crate::exfat::directory_parser::{entries_view, parse_entry_sets, spec_parse_entry_sets, EntryView, ParsedDirectoryEntry};
use crate::exfat::runtime_state::{children_of, node_at, ExfatRuntimeState};
use crate::exfat::transaction::{PendingTransaction, TransactionError, TransactionWrite};
use crate::exfat::transaction_resolver::{
    blocked_path, cached_blocked_rename, data_patches_spec, entry_chain_spec, entry_first_cluster, entry_first_cluster_spec,
    entry_kind_spec, err_view, free_cluster_data, collect_data_patches, resolve_entry_chain,
    free_cluster_data_spec, metadata_changed, rename_candidate, sectors_view, TxErrorView,
};
use crate::strings::{join_virtual_path, join_virtual_path_spec, str_eq};
use crate::vfs::mutation::{chain_view, mutations_view, ChainView, FsMutation, MutationView, NodeKind};
use vstd::string::StringExecFns;
use crate::vfs::node::NodeView;

verus! {

/// A child of a directory: its name, its path and its kind.
pub type Child = (Seq<char>, Seq<char>, NodeKind);

/// Why a sector write cannot be laid over a directory image.
#[derive(PartialEq, Eq, Debug)]
pub enum PatchFail {
    BeforeStart(u64),
    Waiting(u64),
    /// The write holds fewer bytes than its part of the image.
    Short(u64),
}

/// The image `data` (whose first sector is `fs`) with the sector writes of
/// `ss` from the `i`-th on copied in, in order; the first write before the
/// image, past its end, or too short for its part of the image stops it.
pub open spec fn patch_from(data: Seq<u8>, fs: u64, ss: Seq<(u64, Seq<u8>)>, i: int) -> Result<Seq<u8>, PatchFail>
    decreases ss.len() - i,
{
    if i < 0 || i >= ss.len() {
        Ok(data)
    } else {
        let s = ss[i].0;
        if s < fs {
            Err(PatchFail::BeforeStart(s))
        } else if (s - fs) * 512 >= data.len() {
            Err(PatchFail::Waiting(s))
        } else {
            let off = (s - fs) * 512;
            let end = if off + 512 < data.len() { off + 512 } else { data.len() as int };
            if ss[i].1.len() < end - off {
                Err(PatchFail::Short(s))
            } else {
                patch_from(data.take(off) + ss[i].1.take(end - off) + data.skip(end), fs, ss, i + 1)
            }
        }
    }
}

/// Some entry of `es` has the name `n`.
pub open spec fn has_name(es: Seq<EntryView>, n: Seq<char>) -> bool {
    exists|j: int| 0 <= j < es.len() && (#[trigger] es[j]).name == n
}

/// The children no entry names any more.
pub open spec fn missing_of(children: Seq<Child>, es: Seq<EntryView>) -> Seq<Child>
    decreases children.len(),
{
    if children.len() == 0 {
        seq![]
    } else {
        let rest = missing_of(children.drop_last(), es);
        if has_name(es, children.last().0) {
            rest
        } else {
            rest.push(children.last())
        }
    }
}

/// The entries of `parent` with no node yet.
pub open spec fn new_of(nodes: Seq<NodeView>, parent: Seq<char>, es: Seq<EntryView>) -> Seq<EntryView>
    decreases es.len(),
{
    if es.len() == 0 {
        seq![]
    } else {
        let rest = new_of(nodes, parent, es.drop_last());
        if node_at(nodes, join_virtual_path_spec(parent, es.last().name)) is None {
            rest.push(es.last())
        } else {
            rest
        }
    }
}

/// The index of the first new entry, from `j` on, that is the cached rename of
/// the blocked placeholder `m`.
pub open spec fn first_cached(nodes: Seq<NodeView>, m: Child, news: Seq<EntryView>, j: int) -> Option<int>
    decreases news.len() - j,
{
    if j < 0 || j >= news.len() {
        None
    } else if cached_blocked_rename(nodes, m, news[j]) {
        Some(j)
    } else {
        first_cached(nodes, m, news, j + 1)
    }
}

/// The blocked placeholders whose vanishing is only the host's cached rename,
/// and the names of the entries that stand for them.
pub open spec fn skipped_of(nodes: Seq<NodeView>, missing: Seq<Child>, news: Seq<EntryView>) -> (
    Seq<Seq<char>>,
    Seq<Seq<char>>,
)
    decreases missing.len(),
{
    if missing.len() == 0 {
        (seq![], seq![])
    } else {
        let rest = skipped_of(nodes, missing.drop_last(), news);
        let m = missing.last();
        if blocked_path(nodes, m.1) {
            match first_cached(nodes, m, news, 0) {
                Some(k) => (rest.0.push(m.1), rest.1.push(news[k].name)),
                None => rest,
            }
        } else {
            rest
        }
    }
}

/// The children whose paths are not in `paths`.
pub open spec fn without_paths(ms: Seq<Child>, paths: Seq<Seq<char>>) -> Seq<Child>
    decreases ms.len(),
{
    if ms.len() == 0 {
        seq![]
    } else {
        let rest = without_paths(ms.drop_last(), paths);
        if paths.contains(ms.last().1) {
            rest
        } else {
            rest.push(ms.last())
        }
    }
}

/// The entries whose names are not in `names`.
pub open spec fn without_names(es: Seq<EntryView>, names: Seq<Seq<char>>) -> Seq<EntryView>
    decreases es.len(),
{
    if es.len() == 0 {
        seq![]
    } else {
        let rest = without_names(es.drop_last(), names);
        if names.contains(es.last().name) {
            rest
        } else {
            rest.push(es.last())
        }
    }
}

/// Some existing entry differs from its node.
pub open spec fn any_changed(nodes: Seq<NodeView>, parent: Seq<char>, es: Seq<EntryView>) -> bool {
    exists|j: int| 0 <= j < es.len() && metadata_changed(nodes, parent, #[trigger] es[j])
}

/// The path of the first child that shows the blocked placeholder.
pub open spec fn first_blocked(nodes: Seq<NodeView>, ms: Seq<Child>) -> Option<Seq<char>>
    decreases ms.len(),
{
    if ms.len() == 0 {
        None
    } else {
        match first_blocked(nodes, ms.drop_last()) {
            Some(p) => Some(p),
            None => if blocked_path(nodes, ms.last().1) {
                Some(ms.last().1)
            } else {
                None
            },
        }
    }
}

/// The chain of an entry, read from the state's FAT.
pub open spec fn chain_of(state: ExfatRuntimeState, e: EntryView) -> Result<Option<ChainView>, TxErrorView> {
    entry_chain_spec(state.spec_metadata().spec_fat(), state.spec_metadata().spec_fat_count(), e.first_cluster, e.data_length)
}

/// The file `e` of `parent` created, with its data patches.
pub open spec fn create_file_view(ws: Seq<TransactionWrite>, parent: Seq<char>, e: EntryView, c: Option<ChainView>) -> MutationView {
    MutationView::CreateFile {
        parent,
        name: e.name,
        size: e.data_length,
        valid_data_len: e.valid_data_length,
        chain: c,
        data_patches: data_patches_spec(ws, join_virtual_path_spec(parent, e.name), e.first_cluster, e.data_length),
    }
}

/// The file at `vp` rewritten from the entry `e`.
pub open spec fn rewrite_view(ws: Seq<TransactionWrite>, vp: Seq<char>, e: EntryView, c: Option<ChainView>) -> MutationView {
    MutationView::RewriteFile {
        virtual_path: vp,
        size: e.data_length,
        valid_data_len: e.valid_data_length,
        chain: c,
        data_patches: data_patches_spec(ws, vp, e.first_cluster, e.data_length),
    }
}

/// The mutations for a directory created inside a new directory: one per entry
/// set of its data (`parse` failing, or the nesting exceeding `fuel`, makes the
/// rewrite unsupported).
pub open spec fn new_dir_dir(state: ExfatRuntimeState, ws: Seq<TransactionWrite>, parent: Seq<char>, data: Seq<u8>, fuel: nat) -> Result<
    Seq<MutationView>,
    TxErrorView,
>
    decreases fuel, 0nat,
{
    if fuel == 0 {
        Err(TxErrorView::UnsupportedDirectoryRewrite { parent })
    } else {
        match spec_parse_entry_sets(data) {
            None => Err(TxErrorView::UnsupportedDirectoryRewrite { parent }),
            Some(es) => new_dir_list(state, ws, parent, es, (fuel - 1) as nat),
        }
    }
}

/// The mutations for the entries `es` of a new directory `parent`.
pub open spec fn new_dir_list(state: ExfatRuntimeState, ws: Seq<TransactionWrite>, parent: Seq<char>, es: Seq<EntryView>, fuel: nat) -> Result<
    Seq<MutationView>,
    TxErrorView,
>
    decreases fuel, es.len() + 1,
{
    if es.len() == 0 {
        Ok(seq![])
    } else {
        match new_dir_list(state, ws, parent, es.drop_last(), fuel) {
            Err(x) => Err(x),
            Ok(ms) => {
                let e = es.last();
                match chain_of(state, e) {
                    Err(x) => Err(x),
                    Ok(c) => if e.is_dir {
                        let ms2 = ms.push(MutationView::CreateDir { parent, name: e.name, chain: c });
                        match free_cluster_data_spec(ws, e.first_cluster) {
                            None => Ok(ms2),
                            Some(d) => match new_dir_dir(state, ws, join_virtual_path_spec(parent, e.name), d, fuel) {
                                Err(x) => Err(x),
                                Ok(sub) => Ok(ms2 + sub),
                            },
                        }
                    } else {
                        Ok(ms.push(create_file_view(ws, parent, e, c)))
                    },
                }
            },
        }
    }
}

/// The mutations for one entry set of a rewritten directory `parent`.
pub open spec fn entry_step(state: ExfatRuntimeState, ws: Seq<TransactionWrite>, parent: Seq<char>, e: EntryView, fuel: nat) -> Result<
    Seq<MutationView>,
    TxErrorView,
> {
    let vp = join_virtual_path_spec(parent, e.name);
    match node_at(state.spec_nodes(), vp) {
        Some(n) => if e.is_dir {
            if entry_first_cluster_spec(e.first_cluster) != n.first_cluster {
                Err(TxErrorView::UnsupportedDirectoryRewrite { parent })
            } else {
                Ok(seq![])
            }
        } else if entry_first_cluster_spec(e.first_cluster) == n.first_cluster {
            if e.data_length != n.size {
                Ok(seq![MutationView::Truncate { virtual_path: vp, len: e.data_length }])
            } else {
                Ok(seq![])
            }
        } else {
            match chain_of(state, e) {
                Err(x) => Err(x),
                Ok(c) => Ok(seq![rewrite_view(ws, vp, e, c)]),
            }
        },
        None => match chain_of(state, e) {
            Err(x) => Err(x),
            Ok(c) => if e.is_dir {
                let cd = seq![MutationView::CreateDir { parent, name: e.name, chain: c }];
                match free_cluster_data_spec(ws, e.first_cluster) {
                    None => Ok(cd),
                    Some(d) => match new_dir_dir(state, ws, vp, d, fuel) {
                        Err(x) => Err(x),
                        Ok(sub) => Ok(cd + sub),
                    },
                }
            } else {
                Ok(seq![create_file_view(ws, parent, e, c)])
            },
        },
    }
}

/// The mutations for the entry sets `es` of a rewritten directory, in order.
pub open spec fn entries_fold(state: ExfatRuntimeState, ws: Seq<TransactionWrite>, parent: Seq<char>, es: Seq<EntryView>, fuel: nat) -> Result<
    Seq<MutationView>,
    TxErrorView,
>
    decreases es.len(),
{
    if es.len() == 0 {
        Ok(seq![])
    } else {
        match entries_fold(state, ws, parent, es.drop_last(), fuel) {
            Err(x) => Err(x),
            Ok(ms) => match entry_step(state, ws, parent, es.last(), fuel) {
                Err(x) => Err(x),
                Ok(ms2) => Ok(ms + ms2),
            },
        }
    }
}

/// A delete for each vanished child.
pub open spec fn deletes_of(ms: Seq<Child>) -> Seq<MutationView>
    decreases ms.len(),
{
    if ms.len() == 0 {
        seq![]
    } else {
        deletes_of(ms.drop_last()).push(MutationView::Delete { virtual_path: ms.last().1, kind: ms.last().2 })
    }
}

/// The mutations a rewritten directory `parent`, whose children were
/// `children` and whose entry sets are now `es`, stands for.
pub open spec fn plan_directory(
    state: ExfatRuntimeState,
    ws: Seq<TransactionWrite>,
    parent: Seq<char>,
    children: Seq<Child>,
    es: Seq<EntryView>,
    fuel: nat,
) -> Result<Seq<MutationView>, TxErrorView> {
    let nodes = state.spec_nodes();
    let missing = missing_of(children, es);
    let news = new_of(nodes, parent, es);
    let (paths, names) = skipped_of(nodes, missing, news);
    let eff_missing = without_paths(missing, paths);
    let eff_new = without_names(news, names);
    let eff_parsed = without_names(es, names);
    if eff_missing.len() == 1 && eff_new.len() == 1 && rename_candidate(nodes, eff_missing[0], eff_new[0]) {
        let e = eff_new[0];
        let to = join_virtual_path_spec(parent, e.name);
        let ren = MutationView::Rename { from: eff_missing[0].1, to, kind: eff_missing[0].2 };
        if e.is_dir {
            Ok(seq![ren])
        } else {
            match chain_of(state, e) {
                Err(x) => Err(x),
                Ok(c) => Ok(seq![ren, rewrite_view(ws, to, e, c)]),
            }
        }
    } else if paths.len() > 0 && eff_missing.len() == 0 && eff_new.len() == 0 && !any_changed(nodes, parent, eff_parsed) {
        Err(TxErrorView::BlockedPlaceholderRewrite { virtual_path: paths[0] })
    } else if eff_new.len() > 0 && first_blocked(nodes, eff_missing) is Some {
        Err(TxErrorView::BlockedPlaceholderRewrite { virtual_path: first_blocked(nodes, eff_missing)->0 })
    } else {
        match entries_fold(state, ws, parent, eff_parsed, fuel) {
            Err(x) => Err(x),
            Ok(ms) => Ok(deletes_of(eff_missing) + ms),
        }
    }
}

/// Lays the sector writes `ss` (in order) over the directory image `data`
/// whose first sector is `fs`.
pub fn patch_image(data: &mut Vec<u8>, fs: u64, ss: &Vec<(u64, Vec<u8>)>) -> (r: Result<(), PatchFail>)
    ensures
        match patch_from(old(data)@, fs, sectors_view(ss@), 0) {
            Ok(d) => r is Ok && final(data)@ == d,
            Err(f) => r == Err::<(), PatchFail>(f),
        },
{
    let ghost sv = sectors_view(ss@);
    let mut i: usize = 0;
    while i < ss.len()
        invariant
            i <= ss@.len(),
            sv == sectors_view(ss@),
            patch_from(old(data)@, fs, sv, 0) == patch_from(data@, fs, sv, i as int),
        decreases ss@.len() - i,
    {
        let s = ss[i].0;
        assert(sv[i as int].0 == s && sv[i as int].1 == ss@[i as int].1@);
        if s < fs {
            return Err(PatchFail::BeforeStart(s));
        }
        let rel: u64 = s - fs;
        let len = data.len();
        if rel > (len as u64) / 512 {
            return Err(PatchFail::Waiting(s));
        }
        let off: usize = (rel as usize) * 512;
        if off >= len {
            return Err(PatchFail::Waiting(s));
        }
        let end: usize = if len - off > 512 { off + 512 } else { len };
        let ghost d0 = data@;
        let sd = &ss[i].1;
        if sd.len() < end - off {
            return Err(PatchFail::Short(s));
        }
        let mut k: usize = off;
        assert(d0.take(off as int) + sd@.take(0) + d0.skip(off as int) =~= d0);
        while k < end
            invariant
                off <= k <= end <= len,
                len == d0.len(),
                end - off <= sd@.len(),
                data@ == d0.take(off as int) + sd@.take(k - off) + d0.skip(k as int),
            decreases end - k,
        {
            let b = sd[k - off];
            data.set(k, b);
            assert(data@ =~= d0.take(off as int) + sd@.take(k + 1 - off) + d0.skip(k + 1));
            k = k + 1;
        }
        i = i + 1;
    }
    Ok(())
}

/// The view of a list of children.
pub open spec fn children_view(v: Seq<(String, String, NodeKind)>) -> Seq<Child> {
    v.map_values(|c: (String, String, NodeKind)| (c.0@, c.1@, c.2))
}

/// A copy of a child.
fn copy_child(c: &(String, String, NodeKind)) -> (r: (String, String, NodeKind))
    ensures
        (r.0@, r.1@, r.2) == (c.0@, c.1@, c.2),
{
    (c.0.clone(), c.1.clone(), c.2)
}

/// Whether some entry of `es` has the name `n`.
fn has_name_exec(es: &Vec<ParsedDirectoryEntry>, n: &str) -> (r: bool)
    ensures
        r == has_name(entries_view(es@), n@),
{
    let ghost ev = entries_view(es@);
    let mut j: usize = 0;
    while j < es.len()
        invariant
            j <= es@.len(),
            ev == entries_view(es@),
            forall|k: int| 0 <= k < j ==> (#[trigger] ev[k]).name != n@,
        decreases es@.len() - j,
    {
        if str_eq(es[j].name.as_str(), n) {
            assert(ev[j as int].name == n@);
            return true;
        }
        j = j + 1;
    }
    false
}

/// The children no entry of `es` names any more.
pub fn missing_children(children: &Vec<(String, String, NodeKind)>, es: &Vec<ParsedDirectoryEntry>) -> (r: Vec<
    (String, String, NodeKind),
>)
    ensures
        children_view(r@) == missing_of(children_view(children@), entries_view(es@)),
{
    let ghost cv = children_view(children@);
    let mut out: Vec<(String, String, NodeKind)> = Vec::new();
    let mut i: usize = 0;
    assert(cv.take(0) =~= Seq::<Child>::empty());
    assert(children_view(out@) =~= Seq::<Child>::empty());
    while i < children.len()
        invariant
            i <= children@.len(),
            cv == children_view(children@),
            children_view(out@) == missing_of(cv.take(i as int), entries_view(es@)),
        decreases children@.len() - i,
    {
        assert(cv.take(i + 1).drop_last() =~= cv.take(i as int));
        assert(cv.take(i + 1).last() == cv[i as int]);
        if !has_name_exec(es, children[i].0.as_str()) {
            let c = copy_child(&children[i]);
            let ghost prev = children_view(out@);
            out.push(c);
            assert(children_view(out@) =~= prev.push(cv[i as int]));
        }
        i = i + 1;
    }
    assert(cv.take(cv.len() as int) =~= cv);
    out
}

/// The entries of `parent` with no node yet.
pub fn new_entries(state: &ExfatRuntimeState, parent: &str, es: &Vec<ParsedDirectoryEntry>) -> (r: Vec<
    ParsedDirectoryEntry,
>)
    ensures
        entries_view(r@) == new_of(state.spec_nodes(), parent@, entries_view(es@)),
{
    let ghost ev = entries_view(es@);
    let mut out: Vec<ParsedDirectoryEntry> = Vec::new();
    let mut i: usize = 0;
    assert(ev.take(0) =~= Seq::<EntryView>::empty());
    assert(entries_view(out@) =~= Seq::<EntryView>::empty());
    while i < es.len()
        invariant
            i <= es@.len(),
            ev == entries_view(es@),
            entries_view(out@) == new_of(state.spec_nodes(), parent@, ev.take(i as int)),
        decreases es@.len() - i,
    {
        assert(ev.take(i + 1).drop_last() =~= ev.take(i as int));
        assert(ev.take(i + 1).last() == ev[i as int]);
        let vp = join_virtual_path(parent, es[i].name.as_str());
        if state.lookup_path(vp.as_str()).is_none() {
            let e = es[i].duplicate();
            let ghost prev = entries_view(out@);
            out.push(e);
            assert(entries_view(out@) =~= prev.push(ev[i as int]));
        }
        i = i + 1;
    }
    assert(ev.take(ev.len() as int) =~= ev);
    out
}

/// Whether two optional clusters are equal.
fn same_cluster(a: Option<u32>, b: Option<u32>) -> (r: bool)
    ensures
        r == (a == b),
{
    match (a, b) {
        (Some(x), Some(y)) => x == y,
        (None, None) => true,
        _ => false,
    }
}

/// Whether the node at `path` shows the blocked placeholder.
pub fn is_blocked_placeholder_path(state: &ExfatRuntimeState, path: &str) -> (r: bool)
    ensures
        r == blocked_path(state.spec_nodes(), path@),
{
    match state.lookup_path(path) {
        Some(n) => n.is_blocked_placeholder(),
        None => false,
    }
}

/// The kind of node an entry describes.
fn entry_kind(e: &ParsedDirectoryEntry) -> (k: NodeKind)
    ensures
        k == entry_kind_spec(e@),
{
    if e.is_dir {
        NodeKind::Directory
    } else {
        NodeKind::File
    }
}

/// Whether the vanished child `m` may have been renamed to the entry `e`.
pub fn is_rename_candidate(state: &ExfatRuntimeState, m: &(String, String, NodeKind), e: &ParsedDirectoryEntry) -> (r: bool)
    ensures
        r == rename_candidate(state.spec_nodes(), (m.0@, m.1@, m.2), e@),
{
    if m.2 != entry_kind(e) {
        return false;
    }
    match state.lookup_path(m.1.as_str()) {
        Some(n) => same_cluster(n.first_cluster, entry_first_cluster(e.first_cluster)),
        None => false,
    }
}

/// Whether the entry `e` is the host's cached rename of the blocked
/// placeholder `m`.
pub fn is_cached_blocked_rename_entry(state: &ExfatRuntimeState, m: &(String, String, NodeKind), e: &ParsedDirectoryEntry) -> (r: bool)
    ensures
        r == cached_blocked_rename(state.spec_nodes(), (m.0@, m.1@, m.2), e@),
{
    if !is_rename_candidate(state, m, e) {
        return false;
    }
    match state.lookup_path(m.1.as_str()) {
        Some(n) => n.is_blocked_placeholder() && n.size == e.data_length,
        None => false,
    }
}

/// The blocked placeholders among `missing` whose vanishing is only the host's
/// cached rename, and the names of the entries of `news` that stand for them.
pub fn skipped_blocked(state: &ExfatRuntimeState, missing: &Vec<(String, String, NodeKind)>, news: &Vec<ParsedDirectoryEntry>) -> (r: (
    Vec<String>,
    Vec<String>,
))
    ensures
        (r.0@.map_values(|p: String| p@), r.1@.map_values(|p: String| p@)) == skipped_of(
            state.spec_nodes(),
            children_view(missing@),
            entries_view(news@),
        ),
{
    let ghost nodes = state.spec_nodes();
    let ghost mv = children_view(missing@);
    let ghost nv = entries_view(news@);
    let mut paths: Vec<String> = Vec::new();
    let mut names: Vec<String> = Vec::new();
    let mut i: usize = 0;
    assert(mv.take(0) =~= Seq::<Child>::empty());
    assert(paths@.map_values(|p: String| p@) =~= Seq::<Seq<char>>::empty());
    assert(names@.map_values(|p: String| p@) =~= Seq::<Seq<char>>::empty());
    while i < missing.len()
        invariant
            i <= missing@.len(),
            mv == children_view(missing@),
            nv == entries_view(news@),
            nodes == state.spec_nodes(),
            (paths@.map_values(|p: String| p@), names@.map_values(|p: String| p@)) == skipped_of(nodes, mv.take(i as int), nv),
        decreases missing@.len() - i,
    {
        assert(mv.take(i + 1).drop_last() =~= mv.take(i as int));
        assert(mv.take(i + 1).last() == mv[i as int]);
        let m = &missing[i];
        if is_blocked_placeholder_path(state, m.1.as_str()) {
            let mut j: usize = 0;
            while j < news.len()
                invariant
                    j <= news@.len(),
                    nv == entries_view(news@),
                    first_cached(nodes, mv[i as int], nv, 0) == first_cached(nodes, mv[i as int], nv, j as int),
                    nodes == state.spec_nodes(),
                    mv[i as int] == (m.0@, m.1@, m.2),
                ensures
                    j <= news@.len(),
                    j < news@.len() ==> first_cached(nodes, mv[i as int], nv, 0) == Some(j as int),
                    j == news@.len() ==> first_cached(nodes, mv[i as int], nv, 0) is None,
                decreases news@.len() - j,
            {
                if is_cached_blocked_rename_entry(state, m, &news[j]) {
                    break;
                }
                j = j + 1;
            }
            if j < news.len() {
                let ghost pv = paths@.map_values(|p: String| p@);
                let ghost qv = names@.map_values(|p: String| p@);
                paths.push(m.1.clone());
                names.push(news[j].name.clone());
                assert(paths@.map_values(|p: String| p@) =~= pv.push(mv[i as int].1));
                assert(names@.map_values(|p: String| p@) =~= qv.push(nv[j as int].name));
            }
        }
        i = i + 1;
    }
    assert(mv.take(mv.len() as int) =~= mv);
    (paths, names)
}

/// Whether `v` holds a string equal to `p`.
fn contains_str(v: &Vec<String>, p: &str) -> (r: bool)
    ensures
        r == v@.map_values(|q: String| q@).contains(p@),
{
    let ghost vv = v@.map_values(|q: String| q@);
    let mut j: usize = 0;
    while j < v.len()
        invariant
            j <= v@.len(),
            vv == v@.map_values(|q: String| q@),
            forall|k: int| 0 <= k < j ==> vv[k] != p@,
        decreases v@.len() - j,
    {
        if str_eq(v[j].as_str(), p) {
            assert(vv[j as int] == p@);
            return true;
        }
        j = j + 1;
    }
    false
}

/// The children whose paths are not in `paths`.
pub fn children_without_paths(ms: &Vec<(String, String, NodeKind)>, paths: &Vec<String>) -> (r: Vec<
    (String, String, NodeKind),
>)
    ensures
        children_view(r@) == without_paths(children_view(ms@), paths@.map_values(|p: String| p@)),
{
    let ghost cv = children_view(ms@);
    let ghost pv = paths@.map_values(|p: String| p@);
    let mut out: Vec<(String, String, NodeKind)> = Vec::new();
    let mut i: usize = 0;
    assert(cv.take(0) =~= Seq::<Child>::empty());
    assert(children_view(out@) =~= Seq::<Child>::empty());
    while i < ms.len()
        invariant
            i <= ms@.len(),
            cv == children_view(ms@),
            pv == paths@.map_values(|p: String| p@),
            children_view(out@) == without_paths(cv.take(i as int), pv),
        decreases ms@.len() - i,
    {
        assert(cv.take(i + 1).drop_last() =~= cv.take(i as int));
        assert(cv.take(i + 1).last() == cv[i as int]);
        if !contains_str(paths, ms[i].1.as_str()) {
            let c = copy_child(&ms[i]);
            let ghost prev = children_view(out@);
            out.push(c);
            assert(children_view(out@) =~= prev.push(cv[i as int]));
        }
        i = i + 1;
    }
    assert(cv.take(cv.len() as int) =~= cv);
    out
}

/// The entries whose names are not in `names`.
pub fn entries_without_names(es: &Vec<ParsedDirectoryEntry>, names: &Vec<String>) -> (r: Vec<ParsedDirectoryEntry>)
    ensures
        entries_view(r@) == without_names(entries_view(es@), names@.map_values(|p: String| p@)),
{
    let ghost ev = entries_view(es@);
    let ghost nv = names@.map_values(|p: String| p@);
    let mut out: Vec<ParsedDirectoryEntry> = Vec::new();
    let mut i: usize = 0;
    assert(ev.take(0) =~= Seq::<EntryView>::empty());
    assert(entries_view(out@) =~= Seq::<EntryView>::empty());
    while i < es.len()
        invariant
            i <= es@.len(),
            ev == entries_view(es@),
            nv == names@.map_values(|p: String| p@),
            entries_view(out@) == without_names(ev.take(i as int), nv),
        decreases es@.len() - i,
    {
        assert(ev.take(i + 1).drop_last() =~= ev.take(i as int));
        assert(ev.take(i + 1).last() == ev[i as int]);
        if !contains_str(names, es[i].name.as_str()) {
            let e = es[i].duplicate();
            let ghost prev = entries_view(out@);
            out.push(e);
            assert(entries_view(out@) =~= prev.push(ev[i as int]));
        }
        i = i + 1;
    }
    assert(ev.take(ev.len() as int) =~= ev);
    out
}

/// Whether the existing entry `e` of `parent` differs from its node.
pub fn existing_entry_has_metadata_change(state: &ExfatRuntimeState, parent: &str, e: &ParsedDirectoryEntry) -> (r: bool)
    ensures
        r == metadata_changed(state.spec_nodes(), parent@, e@),
{
    let vp = join_virtual_path(parent, e.name.as_str());
    match state.lookup_path(vp.as_str()) {
        None => false,
        Some(n) => {
            let efc = entry_first_cluster(e.first_cluster);
            if e.is_dir {
                !same_cluster(efc, n.first_cluster)
            } else {
                !same_cluster(efc, n.first_cluster) || e.data_length != n.size
            }
        },
    }
}

/// Whether some existing entry of `es` differs from its node.
pub fn any_entry_changed(state: &ExfatRuntimeState, parent: &str, es: &Vec<ParsedDirectoryEntry>) -> (r: bool)
    ensures
        r == any_changed(state.spec_nodes(), parent@, entries_view(es@)),
{
    let ghost ev = entries_view(es@);
    let mut j: usize = 0;
    while j < es.len()
        invariant
            j <= es@.len(),
            ev == entries_view(es@),
            forall|k: int| 0 <= k < j ==> !metadata_changed(state.spec_nodes(), parent@, #[trigger] ev[k]),
        decreases es@.len() - j,
    {
        if existing_entry_has_metadata_change(state, parent, &es[j]) {
            assert(metadata_changed(state.spec_nodes(), parent@, ev[j as int]));
            return true;
        }
        j = j + 1;
    }
    false
}

/// The path of the first child of `ms` that shows the blocked placeholder.
pub fn first_blocked_child(state: &ExfatRuntimeState, ms: &Vec<(String, String, NodeKind)>) -> (r: Option<String>)
    ensures
        match first_blocked(state.spec_nodes(), children_view(ms@)) {
            Some(p) => r matches Some(x) && x@ == p,
            None => r is None,
        },
{
    let ghost cv = children_view(ms@);
    let mut i: usize = 0;
    assert(cv.take(0) =~= Seq::<Child>::empty());
    while i < ms.len()
        invariant
            i <= ms@.len(),
            cv == children_view(ms@),
            first_blocked(state.spec_nodes(), cv.take(i as int)) is None,
        decreases ms@.len() - i,
    {
        assert(cv.take(i + 1).drop_last() =~= cv.take(i as int));
        assert(cv.take(i + 1).last() == cv[i as int]);
        if is_blocked_placeholder_path(state, ms[i].1.as_str()) {
            proof {
                lemma_first_blocked_extends(state.spec_nodes(), cv, i + 1);
            }
            return Some(ms[i].1.clone());
        }
        i = i + 1;
    }
    assert(cv.take(cv.len() as int) =~= cv);
    None
}

/// Once a prefix has a blocked child, the whole list has the same first one.
pub proof fn lemma_first_blocked_extends(nodes: Seq<NodeView>, ms: Seq<Child>, i: int)
    requires
        0 <= i <= ms.len(),
        first_blocked(nodes, ms.take(i)) is Some,
    ensures
        first_blocked(nodes, ms) == first_blocked(nodes, ms.take(i)),
    decreases ms.len() - i,
{
    if i < ms.len() {
        assert(ms.take(i + 1).drop_last() =~= ms.take(i));
        lemma_first_blocked_extends(nodes, ms, i + 1);
    } else {
        assert(ms.take(i) =~= ms);
    }
}

/// Once the mutations for a prefix of a new directory's entries fail, those for
/// all of them fail the same way.
pub proof fn lemma_new_dir_err_extends(
    state: ExfatRuntimeState,
    ws: Seq<TransactionWrite>,
    parent: Seq<char>,
    es: Seq<EntryView>,
    fuel: nat,
    i: int,
)
    requires
        0 <= i <= es.len(),
        new_dir_list(state, ws, parent, es.take(i), fuel) is Err,
    ensures
        new_dir_list(state, ws, parent, es, fuel) == new_dir_list(state, ws, parent, es.take(i), fuel),
    decreases es.len() - i,
{
    if i < es.len() {
        assert(es.take(i + 1).drop_last() =~= es.take(i));
        lemma_new_dir_err_extends(state, ws, parent, es, fuel, i + 1);
    } else {
        assert(es.take(i) =~= es);
    }
}

/// Once the mutations for a prefix of a rewritten directory's entries fail,
/// those for all of them fail the same way.
pub proof fn lemma_entries_err_extends(
    state: ExfatRuntimeState,
    ws: Seq<TransactionWrite>,
    parent: Seq<char>,
    es: Seq<EntryView>,
    fuel: nat,
    i: int,
)
    requires
        0 <= i <= es.len(),
        entries_fold(state, ws, parent, es.take(i), fuel) is Err,
    ensures
        entries_fold(state, ws, parent, es, fuel) == entries_fold(state, ws, parent, es.take(i), fuel),
    decreases es.len() - i,
{
    if i < es.len() {
        assert(es.take(i + 1).drop_last() =~= es.take(i));
        lemma_entries_err_extends(state, ws, parent, es, fuel, i + 1);
    } else {
        assert(es.take(i) =~= es);
    }
}

/// Appends the mutations for the directory `parent` created inside a new
/// directory, whose entry sets the transaction wrote as `data`.
pub fn resolve_new_directory_entries(
    state: &ExfatRuntimeState,
    parent: &str,
    data: &[u8],
    tx: &PendingTransaction,
    mutations: &mut Vec<FsMutation>,
    fuel: u64,
) -> (r: Result<(), TransactionError>)
    ensures
        match new_dir_dir(*state, tx@, parent@, data@, fuel as nat) {
            Ok(ms) => r is Ok && mutations_view(final(mutations)@) == mutations_view(old(mutations)@) + ms,
            Err(e) => r matches Err(x) && err_view(x) == e,
        },
    decreases fuel,
{
    if fuel == 0 {
        return Err(TransactionError::UnsupportedDirectoryRewrite { parent: String::from_str(parent) });
    }
    let es = match parse_entry_sets(data) {
        Ok(v) => v,
        Err(_) => {
            return Err(TransactionError::UnsupportedDirectoryRewrite { parent: String::from_str(parent) });
        },
    };
    let ghost ev = entries_view(es@);
    let ghost m0 = mutations_view(mutations@);
    let ghost f1 = (fuel - 1) as nat;
    let mut i: usize = 0;
    assert(ev.take(0) =~= Seq::<EntryView>::empty());
    assert(m0 + Seq::<MutationView>::empty() =~= m0);
    while i < es.len()
        invariant
            i <= es@.len(),
            ev == entries_view(es@),
            spec_parse_entry_sets(data@) == Some(ev),
            fuel > 0,
            f1 == fuel - 1,
            m0 == mutations_view(old(mutations)@),
            new_dir_list(*state, tx@, parent@, ev.take(i as int), f1) matches Ok(ms) && mutations_view(mutations@) == m0 + ms,
        decreases es@.len() - i,
    {
        assert(ev.take(i + 1).drop_last() =~= ev.take(i as int));
        assert(ev.take(i + 1).last() == ev[i as int]);
        let ghost ms = new_dir_list(*state, tx@, parent@, ev.take(i as int), f1)->Ok_0;
        let e = &es[i];
        let chain = match resolve_entry_chain(state, e.first_cluster, e.data_length) {
            Ok(c) => c,
            Err(x) => {
                proof {
                    lemma_new_dir_err_extends(*state, tx@, parent@, ev, f1, i + 1);
                }
                return Err(x);
            },
        };
        let vp = join_virtual_path(parent, e.name.as_str());
        if e.is_dir {
            let ghost before = mutations_view(mutations@);
            let m = FsMutation::CreateDir { parent: String::from_str(parent), name: e.name.clone(), chain };
            mutations.push(m);
            let ghost cd = MutationView::CreateDir { parent: parent@, name: e.name@, chain: chain_view(chain) };
            assert(mutations_view(mutations@) =~= before.push(cd));
            match free_cluster_data(tx, e.first_cluster) {
                Some(d) => {
                    let ghost mid = mutations@;
                    let sub = resolve_new_directory_entries(state, vp.as_str(), d.as_slice(), tx, mutations, fuel - 1);
                    match sub {
                        Ok(()) => {
                            let ghost subv = new_dir_dir(*state, tx@, vp@, d@, f1)->Ok_0;
                            assert(mutations_view(mutations@) =~= m0 + (ms.push(cd) + subv));
                        },
                        Err(x) => {
                            proof {
                                lemma_new_dir_err_extends(*state, tx@, parent@, ev, f1, i + 1);
                            }
                            return Err(x);
                        },
                    }
                },
                None => {
                    assert(mutations_view(mutations@) =~= m0 + ms.push(cd));
                },
            }
        } else {
            let patches = collect_data_patches(tx, vp.as_str(), e.first_cluster, e.data_length);
            let ghost before = mutations_view(mutations@);
            let m = FsMutation::CreateFile {
                parent: String::from_str(parent),
                name: e.name.clone(),
                size: e.data_length,
                valid_data_len: e.valid_data_length,
                chain,
                data_patches: patches,
            };
            mutations.push(m);
            let ghost cf = create_file_view(tx@, parent@, e@, chain_view(chain));
            assert(mutations_view(mutations@) =~= before.push(cf));
            assert(mutations_view(mutations@) =~= m0 + ms.push(cf));
        }
        i = i + 1;
    }
    assert(ev.take(ev.len() as int) =~= ev);
    Ok(())
}

/// Appends the mutations for one entry set `e` of the rewritten directory
/// `parent`.
pub fn apply_entry(
    state: &ExfatRuntimeState,
    tx: &PendingTransaction,
    parent: &str,
    e: &ParsedDirectoryEntry,
    fuel: u64,
    mutations: &mut Vec<FsMutation>,
) -> (r: Result<(), TransactionError>)
    ensures
        match entry_step(*state, tx@, parent@, e@, fuel as nat) {
            Ok(ms) => r is Ok && mutations_view(final(mutations)@) == mutations_view(old(mutations)@) + ms,
            Err(x) => r matches Err(y) && err_view(y) == x,
        },
{
    let ghost m0 = mutations_view(mutations@);
    let vp = join_virtual_path(parent, e.name.as_str());
    let efc = entry_first_cluster(e.first_cluster);
    match state.lookup_path(vp.as_str()) {
        Some(n) => {
            if e.is_dir {
                if !same_cluster(efc, n.first_cluster) {
                    return Err(TransactionError::UnsupportedDirectoryRewrite { parent: String::from_str(parent) });
                }
                assert(m0 + Seq::<MutationView>::empty() =~= m0);
                return Ok(());
            }
            if same_cluster(efc, n.first_cluster) {
                if e.data_length != n.size {
                    let len = e.data_length;
                    mutations.push(FsMutation::Truncate { virtual_path: vp, len });
                    assert(mutations_view(mutations@) =~= m0 + seq![MutationView::Truncate { virtual_path: vp@, len }]);
                } else {
                    assert(m0 + Seq::<MutationView>::empty() =~= m0);
                }
                return Ok(());
            }
            let chain = match resolve_entry_chain(state, e.first_cluster, e.data_length) {
                Ok(c) => c,
                Err(x) => {
                    return Err(x);
                },
            };
            let patches = collect_data_patches(tx, vp.as_str(), e.first_cluster, e.data_length);
            let ghost rw = rewrite_view(tx@, vp@, e@, chain_view(chain));
            mutations.push(
                FsMutation::RewriteFile {
                    virtual_path: vp,
                    size: e.data_length,
                    valid_data_len: e.valid_data_length,
                    chain,
                    data_patches: patches,
                },
            );
            assert(mutations_view(mutations@) =~= m0 + seq![rw]);
            Ok(())
        },
        None => {
            let chain = match resolve_entry_chain(state, e.first_cluster, e.data_length) {
                Ok(c) => c,
                Err(x) => {
                    return Err(x);
                },
            };
            if e.is_dir {
                let ghost cd = MutationView::CreateDir { parent: parent@, name: e.name@, chain: chain_view(chain) };
                mutations.push(FsMutation::CreateDir { parent: String::from_str(parent), name: e.name.clone(), chain });
                assert(mutations_view(mutations@) =~= m0 + seq![cd]);
                match free_cluster_data(tx, e.first_cluster) {
                    Some(d) => {
                        let sub = resolve_new_directory_entries(state, vp.as_str(), d.as_slice(), tx, mutations, fuel);
                        match sub {
                            Ok(()) => {
                                let ghost subv = new_dir_dir(*state, tx@, vp@, d@, fuel as nat)->Ok_0;
                                assert(mutations_view(mutations@) =~= m0 + (seq![cd] + subv));
                                Ok(())
                            },
                            Err(x) => Err(x),
                        }
                    },
                    None => Ok(()),
                }
            } else {
                let patches = collect_data_patches(tx, vp.as_str(), e.first_cluster, e.data_length);
                let ghost cf = create_file_view(tx@, parent@, e@, chain_view(chain));
                mutations.push(
                    FsMutation::CreateFile {
                        parent: String::from_str(parent),
                        name: e.name.clone(),
                        size: e.data_length,
                        valid_data_len: e.valid_data_length,
                        chain,
                        data_patches: patches,
                    },
                );
                assert(mutations_view(mutations@) =~= m0 + seq![cf]);
                Ok(())
            }
        },
    }
}

/// Appends the mutations for the entry sets `es` of the rewritten directory
/// `parent`, in order.
pub fn apply_entries(
    state: &ExfatRuntimeState,
    tx: &PendingTransaction,
    parent: &str,
    es: &Vec<ParsedDirectoryEntry>,
    fuel: u64,
    mutations: &mut Vec<FsMutation>,
) -> (r: Result<(), TransactionError>)
    ensures
        match entries_fold(*state, tx@, parent@, entries_view(es@), fuel as nat) {
            Ok(ms) => r is Ok && mutations_view(final(mutations)@) == mutations_view(old(mutations)@) + ms,
            Err(x) => r matches Err(y) && err_view(y) == x,
        },
{
    let ghost ev = entries_view(es@);
    let ghost m0 = mutations_view(mutations@);
    let mut i: usize = 0;
    assert(ev.take(0) =~= Seq::<EntryView>::empty());
    assert(m0 + Seq::<MutationView>::empty() =~= m0);
    while i < es.len()
        invariant
            i <= es@.len(),
            ev == entries_view(es@),
            m0 == mutations_view(old(mutations)@),
            entries_fold(*state, tx@, parent@, ev.take(i as int), fuel as nat) matches Ok(ms) && mutations_view(mutations@)
                == m0 + ms,
        decreases es@.len() - i,
    {
        assert(ev.take(i + 1).drop_last() =~= ev.take(i as int));
        assert(ev.take(i + 1).last() == ev[i as int]);
        let ghost ms = entries_fold(*state, tx@, parent@, ev.take(i as int), fuel as nat)->Ok_0;
        let ghost before = mutations@;
        match apply_entry(state, tx, parent, &es[i], fuel, mutations) {
            Ok(()) => {
                let ghost st = entry_step(*state, tx@, parent@, ev[i as int], fuel as nat)->Ok_0;
                assert(mutations_view(mutations@) =~= m0 + (ms + st));
            },
            Err(x) => {
                proof {
                    lemma_entries_err_extends(*state, tx@, parent@, ev, fuel as nat, i + 1);
                }
                return Err(x);
            },
        }
        i = i + 1;
    }
    assert(ev.take(ev.len() as int) =~= ev);
    Ok(())
}

/// The children of the directory at `parent`.
pub open spec fn children_spec(state: ExfatRuntimeState, parent: Seq<char>) -> Seq<Child> {
    match node_at(state.spec_nodes(), parent) {
        Some(p) => children_of(state.spec_nodes(), p.children),
        None => seq![],
    }
}

/// Appends a delete for each vanished child.
fn push_deletes(ms: &Vec<(String, String, NodeKind)>, mutations: &mut Vec<FsMutation>)
    ensures
        mutations_view(final(mutations)@) == mutations_view(old(mutations)@) + deletes_of(children_view(ms@)),
{
    let ghost cv = children_view(ms@);
    let ghost m0 = mutations_view(mutations@);
    let mut i: usize = 0;
    assert(cv.take(0) =~= Seq::<Child>::empty());
    assert(m0 + Seq::<MutationView>::empty() =~= m0);
    while i < ms.len()
        invariant
            i <= ms@.len(),
            cv == children_view(ms@),
            m0 == mutations_view(old(mutations)@),
            mutations_view(mutations@) == m0 + deletes_of(cv.take(i as int)),
        decreases ms@.len() - i,
    {
        assert(cv.take(i + 1).drop_last() =~= cv.take(i as int));
        assert(cv.take(i + 1).last() == cv[i as int]);
        let ghost before = mutations_view(mutations@);
        let kind = ms[i].2;
        mutations.push(FsMutation::Delete { virtual_path: ms[i].1.clone(), kind });
        assert(mutations_view(mutations@) =~= before.push(MutationView::Delete { virtual_path: cv[i as int].1, kind: cv[i as int].2 }));
        assert(mutations_view(mutations@) =~= m0 + deletes_of(cv.take(i + 1)));
        i = i + 1;
    }
    assert(cv.take(cv.len() as int) =~= cv);
}

/// Appends the mutations the rewritten directory `parent`, whose entry sets
/// are now `es`, stands for.
pub fn plan_directory_rewrite(
    state: &ExfatRuntimeState,
    tx: &PendingTransaction,
    parent: &str,
    es: &Vec<ParsedDirectoryEntry>,
    fuel: u64,
    mutations: &mut Vec<FsMutation>,
) -> (r: Result<(), TransactionError>)
    ensures
        match plan_directory(*state, tx@, parent@, children_spec(*state, parent@), entries_view(es@), fuel as nat) {
            Ok(ms) => r is Ok && mutations_view(final(mutations)@) == mutations_view(old(mutations)@) + ms,
            Err(x) => r matches Err(y) && err_view(y) == x,
        },
{
    let ghost m0 = mutations_view(mutations@);
    let children = state.immediate_children(parent);
    assert(children_view(children@) == children_spec(*state, parent@));
    let missing = missing_children(&children, es);
    let news = new_entries(state, parent, es);
    let (paths, names) = skipped_blocked(state, &missing, &news);
    let eff_missing = children_without_paths(&missing, &paths);
    let eff_new = entries_without_names(&news, &names);
    let eff_parsed = entries_without_names(es, &names);
    let ghost emv = children_view(eff_missing@);
    let ghost env = entries_view(eff_new@);
    if eff_missing.len() == 1 && eff_new.len() == 1 && is_rename_candidate(state, &eff_missing[0], &eff_new[0]) {
        assert(emv[0] == (eff_missing@[0].0@, eff_missing@[0].1@, eff_missing@[0].2));
        assert(env[0] == eff_new@[0]@);
        let e = &eff_new[0];
        let to = join_virtual_path(parent, e.name.as_str());
        let kind = eff_missing[0].2;
        let ghost ren = MutationView::Rename { from: emv[0].1, to: to@, kind };
        mutations.push(FsMutation::Rename { from: eff_missing[0].1.clone(), to: to.clone(), kind });
        assert(mutations_view(mutations@) =~= m0.push(ren));
        if e.is_dir {
            assert(mutations_view(mutations@) =~= m0 + seq![ren]);
            return Ok(());
        }
        let chain = match resolve_entry_chain(state, e.first_cluster, e.data_length) {
            Ok(c) => c,
            Err(x) => {
                return Err(x);
            },
        };
        let patches = collect_data_patches(tx, to.as_str(), e.first_cluster, e.data_length);
        let ghost rw = rewrite_view(tx@, to@, e@, chain_view(chain));
        mutations.push(
            FsMutation::RewriteFile {
                virtual_path: to,
                size: e.data_length,
                valid_data_len: e.valid_data_length,
                chain,
                data_patches: patches,
            },
        );
        assert(mutations_view(mutations@) =~= m0 + seq![ren, rw]);
        return Ok(());
    }
    if paths.len() > 0 && eff_missing.len() == 0 && eff_new.len() == 0 && !any_entry_changed(state, parent, &eff_parsed) {
        assert(paths@.map_values(|p: String| p@)[0] == paths@[0]@);
        return Err(TransactionError::BlockedPlaceholderRewrite { virtual_path: paths[0].clone() });
    }
    if eff_new.len() > 0 {
        match first_blocked_child(state, &eff_missing) {
            Some(p) => {
                return Err(TransactionError::BlockedPlaceholderRewrite { virtual_path: p });
            },
            None => {},
        }
    }
    push_deletes(&eff_missing, mutations);
    let ghost m1 = mutations_view(mutations@);
    let r = apply_entries(state, tx, parent, &eff_parsed, fuel, mutations);
    proof {
        match entries_fold(*state, tx@, parent@, entries_view(eff_parsed@), fuel as nat) {
            Ok(ms) => {
                assert(mutations_view(mutations@) =~= m0 + (deletes_of(emv) + ms));
            },
            Err(_) => {},
        }
    }
    r
}

/// A rewritten entry set of an existing file that keeps the file's first
/// cluster resolves to a truncation of the file to the entry's data length
/// exactly when that length differs from the node's size, larger or smaller,
/// and to nothing otherwise.
pub proof fn lemma_kept_cluster_resizes(
    state: ExfatRuntimeState,
    ws: Seq<TransactionWrite>,
    parent: Seq<char>,
    e: EntryView,
    fuel: nat,
    n: NodeView,
)
    requires
        node_at(state.spec_nodes(), join_virtual_path_spec(parent, e.name)) == Some(n),
        !e.is_dir,
        n.first_cluster == (if e.first_cluster == 0 { None::<u32> } else { Some(e.first_cluster) }),
    ensures
        entry_step(state, ws, parent, e, fuel) == if e.data_length != n.size {
            Ok::<Seq<MutationView>, TxErrorView>(
                seq![MutationView::Truncate { virtual_path: join_virtual_path_spec(parent, e.name), len: e.data_length }],
            )
        } else {
            Ok::<Seq<MutationView>, TxErrorView>(Seq::<MutationView>::empty())
        },
{
}

/// A rewritten entry set of an existing file that names another first
/// cluster resolves to one rewrite of the file, to the entry's size, valid
/// length and chain; an existing directory's entry set that keeps its first
/// cluster resolves to nothing, and one that changes it is refused as an
/// unsupported rewrite of `parent`.
pub proof fn lemma_existing_entry_changes(
    state: ExfatRuntimeState,
    ws: Seq<TransactionWrite>,
    parent: Seq<char>,
    e: EntryView,
    fuel: nat,
    n: NodeView,
)
    requires
        node_at(state.spec_nodes(), join_virtual_path_spec(parent, e.name)) == Some(n),
    ensures
        !e.is_dir && n.first_cluster != (if e.first_cluster == 0 { None::<u32> } else { Some(e.first_cluster) }) ==> match chain_of(
            state,
            e,
        ) {
            Err(x) => entry_step(state, ws, parent, e, fuel) == Err::<Seq<MutationView>, TxErrorView>(x),
            Ok(c) => (entry_step(state, ws, parent, e, fuel) matches Ok(ms) && ms.len() == 1 && (ms[0] matches MutationView::RewriteFile {
                virtual_path,
                size,
                valid_data_len,
                chain,
                ..
            } && virtual_path == join_virtual_path_spec(parent, e.name) && size == e.data_length && valid_data_len
                == e.valid_data_length && chain == c)),
        },
        e.is_dir && n.first_cluster == (if e.first_cluster == 0 { None::<u32> } else { Some(e.first_cluster) })
            ==> entry_step(state, ws, parent, e, fuel) == Ok::<Seq<MutationView>, TxErrorView>(Seq::<MutationView>::empty()),
        e.is_dir && n.first_cluster != (if e.first_cluster == 0 { None::<u32> } else { Some(e.first_cluster) })
            ==> entry_step(state, ws, parent, e, fuel) == Err::<Seq<MutationView>, TxErrorView>(
            TxErrorView::UnsupportedDirectoryRewrite { parent },
        ),
{
}

} // verus!
