//! Virtual path rules: absolute paths, node names, parent/name split, extensions.
use vstd::prelude::*;
use crate::error::{io_error, ErrorKind, IoError};
use crate::strings::{ascii_lower_seq, chars_of, contains_infix, find_last, has_infix, is_suffix,
    last_index_of, seq_ends_with, string_of, string_of_range, to_ascii_lower, trim_end_char,
    trim_end_chars};

verus! {

/// The error of a virtual path that is not absolute or escapes the root.
pub open spec fn abs_path_error(p: Seq<char>) -> Option<ErrorKind> {
    if p.len() == 0 || p[0] != '/' {
        Some(ErrorKind::InvalidInput)
    } else if has_infix(p, seq!['/', '.', '.', '/']) || is_suffix(seq!['/', '.', '.'], p) {
        Some(ErrorKind::PermissionDenied)
    } else {
        None
    }
}

/// Whether `name` is a valid node name: not empty, no `/`, not `.` or `..`.
pub open spec fn valid_name(name: Seq<char>) -> bool {
    name.len() > 0 && !name.contains('/') && name != seq!['.'] && name != seq!['.', '.']
}

/// The parent path and name of `p` (trailing `/` ignored; an empty parent is the root).
pub open spec fn split_parent_name_spec(p: Seq<char>) -> Result<(Seq<char>, Seq<char>), ErrorKind> {
    let t = trim_end_char(p, '/');
    match last_index_of(t, '/', t.len() as int) {
        None => Err(ErrorKind::InvalidInput),
        Some(i) => {
            let name = t.skip(i + 1);
            if !valid_name(name) {
                Err(ErrorKind::InvalidInput)
            } else if i == 0 {
                Ok((seq!['/'], name))
            } else {
                Ok((t.take(i), name))
            }
        },
    }
}

/// The lower-cased text after the last `.` of `name`, or nothing.
pub open spec fn extension_spec(name: Seq<char>) -> Seq<char> {
    match last_index_of(name, '.', name.len() as int) {
        Some(i) => ascii_lower_seq(name.skip(i + 1)),
        None => seq![],
    }
}

/// Checks that `path` is absolute and does not escape the root.
pub fn validate_absolute_path(path: &str) -> (r: Result<(), IoError>)
    ensures
        match abs_path_error(path@) {
            None => r is Ok,
            Some(k) => r matches Err(e) && e.kind == k,
        },
{
    let c = chars_of(path);
    if c.len() == 0 || c[0] != '/' {
        return Err(io_error(ErrorKind::InvalidInput, "virtual path must be absolute"));
    }
    let up = vec!['/', '.', '.', '/'];
    let tail = vec!['/', '.', '.'];
    assert(up@ =~= seq!['/', '.', '.', '/']);
    assert(tail@ =~= seq!['/', '.', '.']);
    if contains_infix(c.as_slice(), up.as_slice()) || seq_ends_with(c.as_slice(), tail.as_slice()) {
        return Err(io_error(ErrorKind::PermissionDenied, "virtual path escapes root"));
    }
    Ok(())
}

/// Whether `v` holds `ch`.
fn has_char(v: &[char], ch: char) -> (r: bool)
    ensures
        r == v@.contains(ch),
{
    let mut i: usize = 0;
    while i < v.len()
        invariant
            i <= v@.len(),
            forall|k: int| 0 <= k < i ==> v@[k] != ch,
        decreases v@.len() - i,
    {
        if v[i] == ch {
            return true;
        }
        i = i + 1;
    }
    false
}

/// Checks that `name` is a valid node name.
pub fn validate_name(name: &[char]) -> (r: Result<(), IoError>)
    ensures
        valid_name(name@) ==> r is Ok,
        !valid_name(name@) ==> (r matches Err(e) && e.kind == ErrorKind::InvalidInput),
{
    let n = name.len();
    let dot = n == 1 && name[0] == '.';
    let dotdot = n == 2 && name[0] == '.' && name[1] == '.';
    assert(dot == (name@ == seq!['.'])) by {
        if name@ == seq!['.'] {
            assert(name@[0] == '.');
        }
        if dot {
            assert(name@ =~= seq!['.']);
        }
    }
    assert(dotdot == (name@ == seq!['.', '.'])) by {
        if name@ == seq!['.', '.'] {
            assert(name@[0] == '.' && name@[1] == '.');
        }
        if dotdot {
            assert(name@ =~= seq!['.', '.']);
        }
    }
    if n == 0 || has_char(name, '/') || dot || dotdot {
        return Err(io_error(ErrorKind::InvalidInput, "invalid node name"));
    }
    Ok(())
}

/// The parent path and the name of `path`.
pub fn split_parent_name(path: &str) -> (r: Result<(String, String), IoError>)
    ensures
        match split_parent_name_spec(path@) {
            Ok((pp, nm)) => r matches Ok((a, b)) && a@ == pp && b@ == nm,
            Err(k) => r matches Err(e) && e.kind == k,
        },
{
    let c = chars_of(path);
    let t = trim_end_chars(c.as_slice(), '/');
    match find_last(t.as_slice(), '/', t.len()) {
        None => Err(io_error(ErrorKind::InvalidInput, "invalid virtual path")),
        Some(i) => {
            let name = string_of_range(t.as_slice(), i + 1, t.len());
            let nc = chars_of(name.as_str());
            assert(nc@ =~= t@.skip(i + 1));
            validate_name(nc.as_slice())?;
            if i == 0 {
                let mut root = String::new();
                crate::text::push_char(&mut root, '/');
                assert(root@ =~= seq!['/']);
                Ok((root, name))
            } else {
                let parent = string_of_range(t.as_slice(), 0, i);
                assert(parent@ =~= t@.take(i as int));
                Ok((parent, name))
            }
        },
    }
}

/// The lower-cased extension of `name`.
pub fn extension_for(name: &str) -> (r: String)
    ensures
        r@ == extension_spec(name@),
{
    let c = chars_of(name);
    match find_last(c.as_slice(), '.', c.len()) {
        Some(i) => {
            let rest = string_of_range(c.as_slice(), i + 1, c.len());
            let rc = chars_of(rest.as_str());
            assert(rc@ =~= name@.skip(i + 1));
            let low = to_ascii_lower(rc.as_slice());
            string_of(low.as_slice())
        },
        None => {
            let e = String::new();
            assert(e@ =~= Seq::<char>::empty());
            e
        },
    }
}

} // verus!
