//! Character-level string operations with exact contracts.
use vstd::prelude::*;
use vstd::string::{StrSliceExecFns, StringExecFns};
use crate::text::push_char;

verus! {

/// `p` is a prefix of `s`.
pub open spec fn is_prefix(p: Seq<char>, s: Seq<char>) -> bool {
    p.len() <= s.len() && s.take(p.len() as int) == p
}

/// `p` is a suffix of `s`.
pub open spec fn is_suffix(p: Seq<char>, s: Seq<char>) -> bool {
    p.len() <= s.len() && s.skip(s.len() - p.len()) == p
}

/// `s` without the trailing copies of `c`.
pub open spec fn trim_end_char(s: Seq<char>, c: char) -> Seq<char>
    decreases s.len(),
{
    if s.len() > 0 && s.last() == c {
        trim_end_char(s.drop_last(), c)
    } else {
        s
    }
}

/// ASCII lower-casing of one character.
pub open spec fn ascii_lower(c: char) -> char {
    if 'A' <= c && c <= 'Z' {
        ((c as u32) + 32) as char
    } else {
        c
    }
}

/// ASCII lower-casing of a character sequence.
pub open spec fn ascii_lower_seq(s: Seq<char>) -> Seq<char> {
    s.map_values(|c: char| ascii_lower(c))
}

/// `path` is `parent` itself or lies below it.
pub open spec fn is_same_path_or_child_spec(path: Seq<char>, parent: Seq<char>) -> bool {
    path == parent || is_prefix(trim_end_char(parent, '/').push('/'), path)
}

/// `path` with the directory `from` renamed to `to`.
pub open spec fn remap_path_prefix_spec(path: Seq<char>, from: Seq<char>, to: Seq<char>) -> Seq<char> {
    let fp = trim_end_char(from, '/').push('/');
    if path == from {
        to
    } else if is_prefix(fp, path) {
        trim_end_char(to, '/').push('/') + path.skip(fp.len() as int)
    } else {
        path
    }
}

/// `parent` joined with `name`: `/name` below the root, `parent/name` elsewhere.
pub open spec fn join_virtual_path_spec(parent: Seq<char>, name: Seq<char>) -> Seq<char> {
    if parent == "/"@ {
        "/"@ + name
    } else {
        parent + "/"@ + name
    }
}

/// The characters of `s`.
pub fn chars_of(s: &str) -> (v: Vec<char>)
    ensures
        v@ == s@,
{
    broadcast use vstd::string::axiom_spec_iter;

    let mut v: Vec<char> = Vec::new();
    for c in it: s.chars()
        invariant
            it.seq() == s@,
            v@ == s@.take(it.index() as int),
    {
        v.push(c);
        assert(v@ =~= s@.take(it.index() + 1));
    }
    assert(s@.take(s@.len() as int) =~= s@);
    v
}

/// A string holding the characters `v[from..to]`.
pub fn string_of_range(v: &[char], from: usize, to: usize) -> (s: String)
    requires
        from <= to <= v@.len(),
    ensures
        s@ == v@.subrange(from as int, to as int),
{
    let mut s = String::new();
    let mut i: usize = from;
    while i < to
        invariant
            from <= i <= to <= v@.len(),
            s@ == v@.subrange(from as int, i as int),
        decreases to - i,
    {
        push_char(&mut s, v[i]);
        i = i + 1;
        assert(s@ =~= v@.subrange(from as int, i as int));
    }
    s
}

/// A string holding the characters `v`.
pub fn string_of(v: &[char]) -> (s: String)
    ensures
        s@ == v@,
{
    let s = string_of_range(v, 0, v.len());
    assert(v@.subrange(0, v@.len() as int) =~= v@);
    s
}

/// Whether `p` is a prefix of `s`.
pub fn seq_starts_with(s: &[char], p: &[char]) -> (r: bool)
    ensures
        r == is_prefix(p@, s@),
{
    if p.len() > s.len() {
        return false;
    }
    let mut i: usize = 0;
    while i < p.len()
        invariant
            i <= p@.len() <= s@.len(),
            forall|k: int| 0 <= k < i ==> s@[k] == p@[k],
        decreases p@.len() - i,
    {
        if s[i] != p[i] {
            assert(s@.take(p@.len() as int)[i as int] != p@[i as int]);
            return false;
        }
        i = i + 1;
    }
    assert(s@.take(p@.len() as int) =~= p@);
    true
}

/// Whether `p` is a suffix of `s`.
pub fn seq_ends_with(s: &[char], p: &[char]) -> (r: bool)
    ensures
        r == is_suffix(p@, s@),
{
    if p.len() > s.len() {
        return false;
    }
    let off = s.len() - p.len();
    let mut i: usize = 0;
    while i < p.len()
        invariant
            i <= p@.len() <= s@.len(),
            off == s@.len() - p@.len(),
            off + p@.len() == s@.len(),
            s@.len() == s.len(),
            forall|k: int| 0 <= k < i ==> s@[off + k] == p@[k],
        decreases p@.len() - i,
    {
        if s[off + i] != p[i] {
            assert(s@.skip(off as int)[i as int] != p@[i as int]);
            return false;
        }
        i = i + 1;
    }
    assert(s@.skip(off as int) =~= p@);
    true
}

/// Whether two character sequences are equal.
pub fn seq_eq(a: &[char], b: &[char]) -> (r: bool)
    ensures
        r == (a@ == b@),
{
    if a.len() != b.len() {
        return false;
    }
    let r = seq_starts_with(a, b);
    assert(a@.take(b@.len() as int) =~= a@);
    r
}

/// Whether two strings are equal, character by character.
pub fn str_eq(a: &str, b: &str) -> (r: bool)
    ensures
        r == (a@ == b@),
{
    let ac = chars_of(a);
    let bc = chars_of(b);
    seq_eq(ac.as_slice(), bc.as_slice())
}

/// `s` without its trailing copies of `c`.
pub fn trim_end_chars(s: &[char], c: char) -> (r: Vec<char>)
    ensures
        r@ == trim_end_char(s@, c),
{
    let mut n = s.len();
    assert(s@.take(n as int) =~= s@);
    while n > 0 && s[n - 1] == c
        invariant
            n <= s@.len(),
            trim_end_char(s@.take(n as int), c) == trim_end_char(s@, c),
        decreases n,
    {
        assert(s@.take(n as int).drop_last() =~= s@.take(n - 1));
        n = n - 1;
    }
    let mut r: Vec<char> = Vec::new();
    let mut i: usize = 0;
    while i < n
        invariant
            i <= n <= s@.len(),
            r@ == s@.take(i as int),
        decreases n - i,
    {
        r.push(s[i]);
        i = i + 1;
        assert(r@ =~= s@.take(i as int));
    }
    proof {
        assert(s@.take(s@.len() as int) =~= s@);
    }
    r
}

/// ASCII lower-casing of a character sequence.
pub fn to_ascii_lower(s: &[char]) -> (r: Vec<char>)
    ensures
        r@ == ascii_lower_seq(s@),
{
    let mut r: Vec<char> = Vec::new();
    let mut i: usize = 0;
    while i < s.len()
        invariant
            i <= s@.len(),
            r@ == ascii_lower_seq(s@.take(i as int)),
        decreases s@.len() - i,
    {
        let c = s[i];
        let l = if 'A' <= c && c <= 'Z' {
            let u = (c as u32) + 32;
            proof {
                vstd::utf8::char_is_scalar(c);
            }
            match crate::text::char_from_u32(u) {
                Some(x) => {
                    proof {
                        vstd::utf8::char_u32_cast(x, u);
                    }
                    x
                },
                None => c,
            }
        } else {
            c
        };
        r.push(l);
        i = i + 1;
        assert(r@ =~= ascii_lower_seq(s@.take(i as int)));
    }
    assert(s@.take(s@.len() as int) =~= s@);
    r
}

/// Whether `path` is `parent` or lies below it.
pub fn is_same_path_or_child(path: &str, parent: &str) -> (r: bool)
    ensures
        r == is_same_path_or_child_spec(path@, parent@),
{
    if str_eq(path, parent) {
        return true;
    }
    let pc = chars_of(parent);
    let mut prefix = trim_end_chars(pc.as_slice(), '/');
    prefix.push('/');
    let vc = chars_of(path);
    seq_starts_with(vc.as_slice(), prefix.as_slice())
}

/// `path` with the directory `from` renamed to `to`.
pub fn remap_path_prefix(path: &str, from: &str, to: &str) -> (r: String)
    ensures
        r@ == remap_path_prefix_spec(path@, from@, to@),
{
    if str_eq(path, from) {
        return String::from_str(to);
    }
    let fc = chars_of(from);
    let mut fp = trim_end_chars(fc.as_slice(), '/');
    fp.push('/');
    let pc = chars_of(path);
    if seq_starts_with(pc.as_slice(), fp.as_slice()) {
        let tc = chars_of(to);
        let mut out = trim_end_chars(tc.as_slice(), '/');
        out.push('/');
        let mut i: usize = fp.len();
        let ghost base = out@;
        while i < pc.len()
            invariant
                fp@.len() <= i <= pc@.len(),
                out@ == base + pc@.subrange(fp@.len() as int, i as int),
            decreases pc@.len() - i,
        {
            out.push(pc[i]);
            i = i + 1;
            assert(out@ =~= base + pc@.subrange(fp@.len() as int, i as int));
        }
        assert(pc@.subrange(fp@.len() as int, pc@.len() as int) =~= pc@.skip(fp@.len() as int));
        string_of(out.as_slice())
    } else {
        String::from_str(path)
    }
}

/// `parent` joined with `name`.
pub fn join_virtual_path(parent: &str, name: &str) -> (r: String)
    ensures
        r@ == join_virtual_path_spec(parent@, name@),
{
    let root = "/";
    proof {
        reveal_strlit("/");
    }
    if str_eq(parent, root) {
        let mut s = String::from_str("/");
        s.append(name);
        s
    } else {
        let mut s = String::from_str(parent);
        s.append("/");
        s.append(name);
        s
    }
}

/// The index of the last `c` among the first `n` characters of `s`.
pub open spec fn last_index_of(s: Seq<char>, c: char, n: int) -> Option<int>
    decreases n,
{
    if n <= 0 || n > s.len() {
        None
    } else if s[n - 1] == c {
        Some(n - 1)
    } else {
        last_index_of(s, c, n - 1)
    }
}

/// A last occurrence lies before the end of the searched prefix.
pub proof fn lemma_last_index_of(s: Seq<char>, c: char, n: int)
    ensures
        last_index_of(s, c, n) matches Some(i) ==> 0 <= i < n && i < s.len() && s[i] == c,
    decreases n,
{
    if 0 < n <= s.len() && s[n - 1] != c {
        lemma_last_index_of(s, c, n - 1);
    }
}

/// `p` occurs in `s` as a contiguous run.
pub open spec fn has_infix(s: Seq<char>, p: Seq<char>) -> bool {
    exists|i: int| 0 <= i && i + p.len() <= s.len() && #[trigger] s.subrange(i, i + p.len()) == p
}

/// The non-empty `/`-separated components of the first `n` characters of `v`.
pub open spec fn components(v: Seq<char>, n: int) -> Seq<Seq<char>>
    decreases n,
{
    if n <= 0 || n > v.len() {
        seq![]
    } else {
        match last_index_of(v, '/', n) {
            None => seq![v.take(n)],
            Some(i) => {
                proof {
                    lemma_last_index_of(v, '/', n);
                }
                let tail = v.subrange(i + 1, n);
                if tail.len() == 0 {
                    components(v, i)
                } else {
                    components(v, i).push(tail)
                }
            },
        }
    }
}

/// `real` with the component `c` appended, with a separator unless `real` is
/// empty or already ends with one.
pub open spec fn push_component(base: Seq<char>, c: Seq<char>) -> Seq<char> {
    if base.len() == 0 || base.last() == '/' {
        base + c
    } else {
        base + seq!['/'] + c
    }
}

/// `base` joined with the name `c`.
pub fn join_path(base: &str, c: &str) -> (r: String)
    ensures
        r@ == push_component(base@, c@),
{
    let bc = chars_of(base);
    let cc = chars_of(c);
    let mut out = chars_of(base);
    if bc.len() > 0 && bc[bc.len() - 1] != '/' {
        out.push('/');
    }
    let ghost before = out@;
    let mut i: usize = 0;
    while i < cc.len()
        invariant
            i <= cc@.len(),
            out@ == before + cc@.take(i as int),
        decreases cc@.len() - i,
    {
        out.push(cc[i]);
        i = i + 1;
        assert(out@ =~= before + cc@.take(i as int));
    }
    assert(cc@.take(cc@.len() as int) =~= cc@);
    string_of(out.as_slice())
}

/// `root` with the components `cs` appended in order.
pub open spec fn push_components(root: Seq<char>, cs: Seq<Seq<char>>) -> Seq<char>
    decreases cs.len(),
{
    if cs.len() == 0 {
        root
    } else {
        push_component(push_components(root, cs.drop_last()), cs.last())
    }
}

/// The real path under `root` of the virtual path `v`.
pub open spec fn real_path_spec(root: Seq<char>, v: Seq<char>) -> Seq<char> {
    push_components(root, components(v, v.len() as int))
}

/// The index of the last `c` among the first `n` characters of `s`.
pub fn find_last(s: &[char], c: char, n: usize) -> (r: Option<usize>)
    requires
        n <= s@.len(),
    ensures
        match last_index_of(s@, c, n as int) {
            Some(i) => r == Some(i as usize) && 0 <= i < n,
            None => r is None,
        },
{
    let mut k = n;
    while k > 0
        invariant
            k <= n <= s@.len(),
            last_index_of(s@, c, n as int) == last_index_of(s@, c, k as int),
        decreases k,
    {
        if s[k - 1] == c {
            return Some(k - 1);
        }
        k = k - 1;
    }
    None
}

/// Whether `p` occurs in `s`.
pub fn contains_infix(s: &[char], p: &[char]) -> (r: bool)
    ensures
        r == has_infix(s@, p@),
{
    if p.len() > s.len() {
        return false;
    }
    let sl = s.len();
    let lim = s.len() - p.len();
    let mut i: usize = 0;
    loop
        invariant
            sl == s@.len(),
            p@.len() <= s@.len(),
            lim == s@.len() - p@.len(),
            i <= lim,
            forall|k: int| 0 <= k < i ==> #[trigger] s@.subrange(k, k + p@.len()) != p@,
        decreases lim - i,
    {
        let mut j: usize = 0;
        let mut same = true;
        while j < p.len()
            invariant
                j <= p@.len(),
                sl == s@.len(),
                i <= lim,
                lim == s@.len() - p@.len(),
                i + p@.len() <= s@.len(),
                same == forall|m: int| 0 <= m < j ==> s@[i + m] == p@[m],
            decreases p@.len() - j,
        {
            if s[i + j] != p[j] {
                same = false;
            }
            j = j + 1;
        }
        if same {
            assert(s@.subrange(i as int, i + p@.len()) =~= p@);
            return true;
        } else {
            assert(s@.subrange(i as int, i + p@.len()) != p@) by {
                let m = choose|m: int| 0 <= m < p@.len() && s@[i + m] != p@[m];
                assert(s@.subrange(i as int, i + p@.len())[m] != p@[m]);
            }
        }
        if i == lim {
            proof {
                if has_infix(s@, p@) {
                    let k = choose|k: int| 0 <= k && k + p@.len() <= s@.len() && #[trigger] s@.subrange(k, k + p@.len()) == p@;
                    assert(k <= i);
                }
            }
            return false;
        }
        i = i + 1;
    }
}

/// The non-empty components of the first `n` characters of `v`.
pub fn components_of(v: &[char], n: usize) -> (r: Vec<Vec<char>>)
    requires
        n <= v@.len(),
    ensures
        r@.len() == components(v@, n as int).len(),
        forall|i: int| 0 <= i < r@.len() ==> (#[trigger] r@[i])@ == components(v@, n as int)[i],
    decreases n,
{
    if n == 0 {
        return Vec::new();
    }
    match find_last(v, '/', n) {
        None => {
            let mut out: Vec<Vec<char>> = Vec::new();
            let mut c: Vec<char> = Vec::new();
            let mut k: usize = 0;
            while k < n
                invariant
                    k <= n <= v@.len(),
                    c@ == v@.take(k as int),
                decreases n - k,
            {
                c.push(v[k]);
                k = k + 1;
                assert(c@ =~= v@.take(k as int));
            }
            out.push(c);
            out
        },
        Some(i) => {
            let mut out = components_of(v, i);
            let mut tail: Vec<char> = Vec::new();
            let mut k: usize = i + 1;
            while k < n
                invariant
                    i + 1 <= k <= n <= v@.len(),
                    tail@ == v@.subrange(i + 1, k as int),
                decreases n - k,
            {
                tail.push(v[k]);
                k = k + 1;
                assert(tail@ =~= v@.subrange(i + 1, k as int));
            }
            if tail.len() > 0 {
                out.push(tail);
            }
            out
        },
    }
}

/// The real path under `root` of the virtual path `v`.
pub fn real_path_for_virtual(root: &str, v: &str) -> (r: String)
    ensures
        r@ == real_path_spec(root@, v@),
{
    let vc = chars_of(v);
    let comps = components_of(vc.as_slice(), vc.len());
    let ghost cs = components(v@, v@.len() as int);
    let mut acc = chars_of(root);
    let mut i: usize = 0;
    assert(cs.take(0) =~= Seq::<Seq<char>>::empty());
    while i < comps.len()
        invariant
            i <= comps@.len() == cs.len(),
            forall|k: int| 0 <= k < comps@.len() ==> (#[trigger] comps@[k])@ == cs[k],
            acc@ == push_components(root@, cs.take(i as int)),
        decreases comps@.len() - i,
    {
        assert(cs.take(i + 1).drop_last() =~= cs.take(i as int));
        assert(cs.take(i + 1).last() == comps@[i as int]@);
        let need_sep = acc.len() > 0 && acc[acc.len() - 1] != '/';
        if need_sep {
            acc.push('/');
        }
        let c = &comps[i];
        let ghost before = acc@;
        let mut k: usize = 0;
        while k < c.len()
            invariant
                k <= c@.len(),
                acc@ == before + c@.take(k as int),
            decreases c@.len() - k,
        {
            acc.push(c[k]);
            k = k + 1;
            assert(acc@ =~= before + c@.take(k as int));
        }
        assert(c@.take(c@.len() as int) =~= c@);
        i = i + 1;
        assert(acc@ =~= push_components(root@, cs.take(i as int)));
    }
    assert(cs.take(cs.len() as int) =~= cs);
    string_of(acc.as_slice())
}

/// The decimal digit character of `d`.
pub open spec fn digit_char(d: nat) -> char {
    ((d % 10) + 48) as char
}

/// The decimal representation of `n`, without leading zeros (`0` for zero).
pub open spec fn decimal(n: nat) -> Seq<char>
    decreases n,
{
    if n < 10 {
        seq![digit_char(n)]
    } else {
        decimal(n / 10).push(digit_char(n % 10))
    }
}

/// The lower-case hexadecimal digit character of `d`.
pub open spec fn hex_char(d: nat) -> char {
    if d % 16 < 10 {
        ((d % 16) + 48) as char
    } else {
        ((d % 16) + 87) as char
    }
}

/// The last `w` lower-case hexadecimal digits of `n`, zero-padded.
pub open spec fn hex_fixed(n: nat, w: nat) -> Seq<char>
    decreases w,
{
    if w == 0 {
        seq![]
    } else {
        hex_fixed(n / 16, (w - 1) as nat).push(hex_char(n % 16))
    }
}

fn digit(d: u64) -> (c: char)
    requires
        d < 16,
    ensures
        c == hex_char(d as nat),
{
    let table = ['0', '1', '2', '3', '4', '5', '6', '7', '8', '9', 'a', 'b', 'c', 'd', 'e', 'f'];
    let c = table[d as usize];
    proof {
        if d < 10 {
            assert(c as u32 == d + 48) by {
                assert(table@[d as int] == c);
            }
        } else {
            assert(c as u32 == d + 87) by {
                assert(table@[d as int] == c);
            }
        }
        vstd::utf8::char_u32_cast(c, c as u32);
    }
    c
}

/// The decimal representation of `n`.
pub fn decimal_string(n: u64) -> (s: String)
    ensures
        s@ == decimal(n as nat),
    decreases n,
{
    if n < 10 {
        let mut s = String::new();
        let c = digit(n);
        assert(hex_char(n as nat) == digit_char(n as nat));
        push_char(&mut s, c);
        assert(s@ =~= seq![digit_char(n as nat)]);
        s
    } else {
        let mut s = decimal_string(n / 10);
        let c = digit(n % 10);
        assert(hex_char((n % 10) as nat) == digit_char((n % 10) as nat));
        push_char(&mut s, c);
        s
    }
}

/// The last `w` hexadecimal digits of `n`, zero-padded.
pub fn hex_string(n: u64, w: u64) -> (s: String)
    ensures
        s@ == hex_fixed(n as nat, w as nat),
    decreases w,
{
    if w == 0 {
        let s = String::new();
        assert(s@ =~= Seq::<char>::empty());
        s
    } else {
        let mut s = hex_string(n / 16, w - 1);
        let c = digit(n % 16);
        push_char(&mut s, c);
        s
    }
}

} // verus!
