//! Parser of `autorun.inf`: the executables it makes the host run.
use vstd::prelude::*;
use crate::strings::{ascii_lower_seq, chars_of, is_prefix, is_suffix, seq_ends_with, seq_starts_with, string_of, to_ascii_lower};

verus! {

broadcast use vstd::std_specs::vec::group_vec_axioms;

/// White space in the sense of Unicode's White_Space property.
pub open spec fn is_ws(c: char) -> bool {
    c == '\t' || c == '\n' || c == '\u{b}' || c == '\u{c}' || c == '\r' || c == ' ' || c == '\u{85}' || c == '\u{a0}'
        || c == '\u{1680}' || ('\u{2000}' <= c && c <= '\u{200a}') || c == '\u{2028}' || c == '\u{2029}' || c == '\u{202f}'
        || c == '\u{205f}' || c == '\u{3000}'
}

/// Whether `c` is white space.
pub fn is_whitespace(c: char) -> (r: bool)
    ensures
        r == is_ws(c),
{
    c == '\t' || c == '\n' || c == '\u{b}' || c == '\u{c}' || c == '\r' || c == ' ' || c == '\u{85}' || c == '\u{a0}'
        || c == '\u{1680}' || ('\u{2000}' <= c && c <= '\u{200a}') || c == '\u{2028}' || c == '\u{2029}' || c == '\u{202f}'
        || c == '\u{205f}' || c == '\u{3000}'
}

/// The number of leading white space characters of `s`.
pub open spec fn lead_ws(s: Seq<char>) -> int
    decreases s.len(),
{
    if s.len() > 0 && is_ws(s[0]) {
        1 + lead_ws(s.drop_first())
    } else {
        0
    }
}

/// The number of trailing white space characters of `s`.
pub open spec fn trail_ws(s: Seq<char>) -> int
    decreases s.len(),
{
    if s.len() > 0 && is_ws(s.last()) {
        1 + trail_ws(s.drop_last())
    } else {
        0
    }
}

/// `s` without leading and trailing white space.
pub open spec fn trim(s: Seq<char>) -> Seq<char> {
    let t = s.skip(lead_ws(s));
    t.take(t.len() - trail_ws(t))
}

/// The index of the first `c` in `s` from `j` on.
pub open spec fn first_index(s: Seq<char>, c: char, j: int) -> Option<int>
    decreases s.len() - j,
{
    if j < 0 || j >= s.len() {
        None
    } else if s[j] == c {
        Some(j)
    } else {
        first_index(s, c, j + 1)
    }
}

/// A found index lies in range and holds `c`.
proof fn lemma_first_index(s: Seq<char>, c: char, j: int)
    requires
        0 <= j,
    ensures
        first_index(s, c, j) matches Some(q) ==> j <= q < s.len() && s[q] == c,
    decreases s.len() - j,
{
    if j < s.len() && s[j] != c {
        lemma_first_index(s, c, j + 1);
    }
}

/// The lines of `s`, split at each `\n` (the last one may be empty).
pub open spec fn split_lines(s: Seq<char>) -> Seq<Seq<char>>
    decreases s.len(),
{
    if s.len() == 0 {
        seq![seq![]]
    } else {
        let r = split_lines(s.drop_last());
        if s.last() == '\n' {
            r.push(seq![])
        } else {
            r.update(r.len() - 1, r.last().push(s.last()))
        }
    }
}

/// A `shell\<verb>\command` key (with either separator).
pub open spec fn shell_command_key(k: Seq<char>) -> bool {
    (is_prefix(seq!['s', 'h', 'e', 'l', 'l', '\\'], k) || is_prefix(seq!['s', 'h', 'e', 'l', 'l', '/'], k)) && (is_suffix(
        seq!['\\', 'c', 'o', 'm', 'm', 'a', 'n', 'd'],
        k,
    ) || is_suffix(seq!['/', 'c', 'o', 'm', 'm', 'a', 'n', 'd'], k))
}

/// A key that names a program to run.
pub open spec fn target_key(k: Seq<char>) -> bool {
    k == seq!['o', 'p', 'e', 'n'] || k == seq!['s', 'h', 'e', 'l', 'l', 'e', 'x', 'e', 'c', 'u', 't', 'e'] || shell_command_key(k)
}

/// The program path of a value: the quoted part, or what precedes the first space.
pub open spec fn executable_of(value: Seq<char>) -> Seq<char> {
    let v = trim(value);
    if v.len() > 0 && v[0] == '"' {
        let rest = v.drop_first();
        match first_index(rest, '"', 0) {
            Some(e) => rest.take(e),
            None => rest,
        }
    } else {
        match first_index(v, ' ', 0) {
            Some(p) => v.take(p),
            None => v,
        }
    }
}

/// The program a line names, if it is a `key=value` line with a target key.
pub open spec fn line_target(line: Seq<char>) -> Option<Seq<char>> {
    let t = trim(line);
    if t.len() == 0 || t[0] == '[' || t[0] == ';' {
        None
    } else {
        match first_index(t, '=', 0) {
            None => None,
            Some(p) => {
                let key = ascii_lower_seq(trim(t.take(p)));
                let value = trim(t.skip(p + 1));
                if !target_key(key) || value.len() == 0 {
                    None
                } else {
                    Some(executable_of(value))
                }
            },
        }
    }
}

/// The non-empty programs the lines name, first occurrences only, in order.
pub open spec fn targets_of(lines: Seq<Seq<char>>) -> Seq<Seq<char>>
    decreases lines.len(),
{
    if lines.len() == 0 {
        seq![]
    } else {
        let t = targets_of(lines.drop_last());
        match line_target(lines.last()) {
            Some(x) => if x.len() > 0 && !t.contains(x) {
                t.push(x)
            } else {
                t
            },
            None => t,
        }
    }
}

/// `split_lines` always yields a line.
proof fn lemma_split_lines_nonempty(s: Seq<char>)
    ensures
        split_lines(s).len() >= 1,
    decreases s.len(),
{
    if s.len() > 0 {
        lemma_split_lines_nonempty(s.drop_last());
    }
}

/// `lead_ws` counts a white space prefix.
proof fn lemma_lead_ws(s: Seq<char>, i: int)
    requires
        0 <= i <= s.len(),
        forall|k: int| 0 <= k < i ==> is_ws(#[trigger] s[k]),
        i == s.len() || !is_ws(s[i]),
    ensures
        lead_ws(s) == i,
    decreases i,
{
    if i > 0 {
        assert forall|k: int| 0 <= k < i - 1 implies is_ws(#[trigger] s.drop_first()[k]) by {
            assert(s.drop_first()[k] == s[k + 1]);
        }
        lemma_lead_ws(s.drop_first(), i - 1);
    }
}

/// `trail_ws` counts a white space suffix.
proof fn lemma_trail_ws(s: Seq<char>, j: int)
    requires
        0 <= j <= s.len(),
        forall|k: int| j <= k < s.len() ==> is_ws(#[trigger] s[k]),
        j == 0 || !is_ws(s[j - 1]),
    ensures
        trail_ws(s) == s.len() - j,
    decreases s.len() - j,
{
    if j < s.len() {
        assert forall|k: int| j <= k < s.drop_last().len() implies is_ws(#[trigger] s.drop_last()[k]) by {
            assert(s.drop_last()[k] == s[k]);
        }
        lemma_trail_ws(s.drop_last(), j);
    }
}

/// `s` without leading and trailing white space.
pub fn trim_chars(s: &[char]) -> (r: Vec<char>)
    ensures
        r@ == trim(s@),
{
    let mut i: usize = 0;
    while i < s.len() && is_whitespace(s[i])
        invariant
            i <= s@.len(),
            forall|k: int| 0 <= k < i ==> is_ws(#[trigger] s@[k]),
        decreases s@.len() - i,
    {
        i = i + 1;
    }
    proof {
        lemma_lead_ws(s@, i as int);
    }
    let mut j: usize = s.len();
    while j > i && is_whitespace(s[j - 1])
        invariant
            i <= j <= s@.len(),
            forall|k: int| j <= k < s@.len() ==> is_ws(#[trigger] s@[k]),
        decreases j,
    {
        j = j - 1;
    }
    let ghost t = s@.skip(i as int);
    proof {
        assert forall|k: int| j - i <= k < t.len() implies is_ws(#[trigger] t[k]) by {
            assert(t[k] == s@[k + i]);
        }
        if j > i {
            assert(t[j - i - 1] == s@[j - 1]);
        }
        lemma_trail_ws(t, j - i);
    }
    let mut out: Vec<char> = Vec::new();
    let mut k: usize = i;
    while k < j
        invariant
            i <= k <= j <= s@.len(),
            out@ == s@.subrange(i as int, k as int),
        decreases j - k,
    {
        out.push(s[k]);
        k = k + 1;
        assert(out@ =~= s@.subrange(i as int, k as int));
    }
    assert(out@ =~= t.take(t.len() - trail_ws(t)));
    out
}

/// The index of the first `c` in `s`.
pub fn find_first(s: &[char], c: char) -> (r: Option<usize>)
    ensures
        match first_index(s@, c, 0) {
            Some(p) => r == Some(p as usize),
            None => r is None,
        },
        r matches Some(p) ==> p < s@.len() && s@[p as int] == c,
        first_index(s@, c, 0) matches Some(q) ==> 0 <= q < s@.len(),
{
    proof {
        lemma_first_index(s@, c, 0);
    }
    let mut i: usize = 0;
    while i < s.len()
        invariant
            i <= s@.len(),
            first_index(s@, c, 0) == first_index(s@, c, i as int),
        decreases s@.len() - i,
    {
        if s[i] == c {
            return Some(i);
        }
        i = i + 1;
    }
    None
}

/// The characters of `s` from `a` to `b`.
fn chars_between(s: &[char], a: usize, b: usize) -> (r: Vec<char>)
    requires
        a <= b <= s@.len(),
    ensures
        r@ == s@.subrange(a as int, b as int),
{
    let mut out: Vec<char> = Vec::new();
    let mut k: usize = a;
    while k < b
        invariant
            a <= k <= b <= s@.len(),
            out@ == s@.subrange(a as int, k as int),
        decreases b - k,
    {
        out.push(s[k]);
        k = k + 1;
        assert(out@ =~= s@.subrange(a as int, k as int));
    }
    out
}

/// The program path of a value.
pub fn extract_executable_path(value: &[char]) -> (r: Vec<char>)
    ensures
        r@ == executable_of(value@),
{
    let v = trim_chars(value);
    if v.len() > 0 && v[0] == '"' {
        let rest = chars_between(v.as_slice(), 1, v.len());
        assert(rest@ =~= v@.drop_first());
        match find_first(rest.as_slice(), '"') {
            Some(e) => {
                let r = chars_between(rest.as_slice(), 0, e);
                assert(r@ =~= rest@.take(e as int));
                r
            },
            None => rest,
        }
    } else {
        match find_first(v.as_slice(), ' ') {
            Some(p) => {
                let r = chars_between(v.as_slice(), 0, p);
                assert(r@ =~= v@.take(p as int));
                r
            },
            None => v,
        }
    }
}

/// Whether `k` is a `shell\<verb>\command` key.
fn is_shell_command_key(k: &[char]) -> (r: bool)
    ensures
        r == shell_command_key(k@),
{
    let p1: Vec<char> = vec!['s', 'h', 'e', 'l', 'l', '\\'];
    let p2: Vec<char> = vec!['s', 'h', 'e', 'l', 'l', '/'];
    let s1: Vec<char> = vec!['\\', 'c', 'o', 'm', 'm', 'a', 'n', 'd'];
    let s2: Vec<char> = vec!['/', 'c', 'o', 'm', 'm', 'a', 'n', 'd'];
    assert(p1@ =~= seq!['s', 'h', 'e', 'l', 'l', '\\']);
    assert(p2@ =~= seq!['s', 'h', 'e', 'l', 'l', '/']);
    assert(s1@ =~= seq!['\\', 'c', 'o', 'm', 'm', 'a', 'n', 'd']);
    assert(s2@ =~= seq!['/', 'c', 'o', 'm', 'm', 'a', 'n', 'd']);
    (seq_starts_with(k, p1.as_slice()) || seq_starts_with(k, p2.as_slice())) && (seq_ends_with(k, s1.as_slice())
        || seq_ends_with(k, s2.as_slice()))
}

/// Whether two character slices are equal.
fn same_chars(a: &[char], b: &[char]) -> (r: bool)
    ensures
        r == (a@ == b@),
{
    if a.len() != b.len() {
        return false;
    }
    let mut i: usize = 0;
    while i < a.len()
        invariant
            i <= a@.len() == b@.len(),
            forall|k: int| 0 <= k < i ==> a@[k] == b@[k],
        decreases a@.len() - i,
    {
        if a[i] != b[i] {
            return false;
        }
        i = i + 1;
    }
    assert(a@ =~= b@);
    true
}

/// The program a line names, if any.
pub fn target_of_line(line: &[char]) -> (r: Option<Vec<char>>)
    ensures
        match line_target(line@) {
            Some(x) => r matches Some(v) && v@ == x,
            None => r is None,
        },
{
    let t = trim_chars(line);
    if t.len() == 0 || t[0] == '[' || t[0] == ';' {
        return None;
    }
    let p = match find_first(t.as_slice(), '=') {
        None => {
            return None;
        },
        Some(p) => p,
    };
    let kraw = chars_between(t.as_slice(), 0, p);
    assert(kraw@ =~= t@.take(p as int));
    let kt = trim_chars(kraw.as_slice());
    let key = to_ascii_lower(kt.as_slice());
    let vraw = chars_between(t.as_slice(), p + 1, t.len());
    assert(vraw@ =~= t@.skip(p + 1));
    let value = trim_chars(vraw.as_slice());
    let open: Vec<char> = vec!['o', 'p', 'e', 'n'];
    let shellexecute: Vec<char> = vec!['s', 'h', 'e', 'l', 'l', 'e', 'x', 'e', 'c', 'u', 't', 'e'];
    assert(open@ =~= seq!['o', 'p', 'e', 'n']);
    assert(shellexecute@ =~= seq!['s', 'h', 'e', 'l', 'l', 'e', 'x', 'e', 'c', 'u', 't', 'e']);
    let is_target = same_chars(key.as_slice(), open.as_slice()) || same_chars(key.as_slice(), shellexecute.as_slice())
        || is_shell_command_key(key.as_slice());
    if !is_target || value.len() == 0 {
        return None;
    }
    Some(extract_executable_path(value.as_slice()))
}

/// Whether `v` holds `x`.
fn has_target(v: &Vec<Vec<char>>, x: &Vec<char>) -> (r: bool)
    ensures
        r == v@.map_values(|t: Vec<char>| t@).contains(x@),
{
    let ghost vv = v@.map_values(|t: Vec<char>| t@);
    let mut i: usize = 0;
    while i < v.len()
        invariant
            i <= v@.len(),
            vv == v@.map_values(|t: Vec<char>| t@),
            forall|k: int| 0 <= k < i ==> vv[k] != x@,
        decreases v@.len() - i,
    {
        if same_chars(v[i].as_slice(), x.as_slice()) {
            assert(vv[i as int] == x@);
            return true;
        }
        i = i + 1;
    }
    false
}

/// Adds the target of `line` to `out` unless it is empty or already there.
fn add_line_target(out: &mut Vec<Vec<char>>, line: &[char])
    ensures
        final(out)@.map_values(|t: Vec<char>| t@) == (match line_target(line@) {
            Some(x) => if x.len() > 0 && !old(out)@.map_values(|t: Vec<char>| t@).contains(x) {
                old(out)@.map_values(|t: Vec<char>| t@).push(x)
            } else {
                old(out)@.map_values(|t: Vec<char>| t@)
            },
            None => old(out)@.map_values(|t: Vec<char>| t@),
        }),
{
    match target_of_line(line) {
        Some(x) => {
            if x.len() > 0 && !has_target(out, &x) {
                let ghost before = out@.map_values(|t: Vec<char>| t@);
                let ghost xv = x@;
                out.push(x);
                assert(out@.map_values(|t: Vec<char>| t@) =~= before.push(xv));
            }
        },
        None => {},
    }
}

/// The executables `autorun.inf` text names under `open=`, `shellexecute=`
/// and `shell\<verb>\command=`: without arguments or quotes, each once, in
/// order of appearance. Keys are compared in ASCII lower case.
pub fn parse_autorun_targets(content: &str) -> (r: Vec<String>)
    ensures
        r@.map_values(|s: String| s@) == targets_of(split_lines(content@)),
{
    let cs = chars_of(content);
    let mut out: Vec<Vec<char>> = Vec::new();
    let mut cur: Vec<char> = Vec::new();
    let mut i: usize = 0;
    assert(cs@.take(0) =~= Seq::<char>::empty());
    assert(split_lines(Seq::<char>::empty()).drop_last() =~= Seq::<Seq<char>>::empty());
    while i < cs.len()
        invariant
            i <= cs@.len(),
            cs@ == content@,
            split_lines(cs@.take(i as int)).len() >= 1,
            cur@ == split_lines(cs@.take(i as int)).last(),
            out@.map_values(|t: Vec<char>| t@) == targets_of(split_lines(cs@.take(i as int)).drop_last()),
        decreases cs@.len() - i,
    {
        let ghost pre = split_lines(cs@.take(i as int));
        assert(cs@.take(i + 1).drop_last() =~= cs@.take(i as int));
        assert(cs@.take(i + 1).last() == cs@[i as int]);
        if cs[i] == '\n' {
            add_line_target(&mut out, cur.as_slice());
            cur = Vec::new();
            assert(split_lines(cs@.take(i + 1)) == pre.push(seq![]));
            assert(pre.push(seq![]).drop_last() =~= pre);
            assert(pre.drop_last().push(pre.last()) =~= pre);
            assert(cur@ =~= Seq::<char>::empty());
        } else {
            let ghost nl = pre.update(pre.len() - 1, pre.last().push(cs@[i as int]));
            cur.push(cs[i]);
            assert(split_lines(cs@.take(i + 1)) == nl);
            assert(nl.drop_last() =~= pre.drop_last());
        }
        i = i + 1;
    }
    assert(cs@.take(cs@.len() as int) =~= cs@);
    let ghost lines = split_lines(cs@);
    add_line_target(&mut out, cur.as_slice());
    assert(lines.drop_last().push(lines.last()) =~= lines);
    let mut res: Vec<String> = Vec::new();
    let mut k: usize = 0;
    while k < out.len()
        invariant
            k <= out@.len(),
            res@.map_values(|s: String| s@) == out@.map_values(|t: Vec<char>| t@).take(k as int),
        decreases out@.len() - k,
    {
        let ghost before = res@.map_values(|s: String| s@);
        let st = string_of(out[k].as_slice());
        assert(st@ == out@[k as int]@);
        res.push(st);
        assert(out@.map_values(|t: Vec<char>| t@).take(k + 1) =~= out@.map_values(|t: Vec<char>| t@).take(k as int).push(out@[k as int]@));
        assert(res@.map_values(|s: String| s@) =~= before.push(st@));
        k = k + 1;
    }
    assert(out@.map_values(|t: Vec<char>| t@).take(out@.len() as int) =~= out@.map_values(|t: Vec<char>| t@));
    res
}

} // verus!
