//! Recoverable policy rejections: writes refused because they would modify a
//! file shown as the blocked placeholder.
use vstd::prelude::*;
use crate::error::{ErrorKind, IoError, RecoverablePolicyRejection};
use crate::strings::{chars_of, string_of};
use vstd::string::StringExecFns;

verus! {

broadcast use vstd::std_specs::vec::group_vec_axioms;

/// `a` followed by `b`.
pub fn concat_str(a: &str, b: &str) -> (r: String)
    ensures
        r@ == a@ + b@,
{
    let mut out = chars_of(a);
    let bc = chars_of(b);
    let ghost before = out@;
    let mut i: usize = 0;
    while i < bc.len()
        invariant
            i <= bc@.len(),
            out@ == before + bc@.take(i as int),
        decreases bc@.len() - i,
    {
        out.push(bc[i]);
        i = i + 1;
        assert(out@ =~= before + bc@.take(i as int));
    }
    assert(bc@.take(bc@.len() as int) =~= bc@);
    string_of(out.as_slice())
}

impl RecoverablePolicyRejection {
    /// The rejection of `operation` on the blocked placeholder at
    /// `virtual_path`, blocked for `reason`.
    pub fn blocked_placeholder(virtual_path: String, operation: &str, reason: String) -> (r: Self)
        ensures
            r.virtual_path@ == virtual_path@,
            r.operation@ == operation@,
            r.reason@ == reason@,
    {
        RecoverablePolicyRejection { virtual_path, operation: String::from_str(operation), reason }
    }

    /// The rejection an error carries, if any.
    pub fn from_io_error(err: &IoError) -> (r: Option<&Self>)
        ensures
            r == match &err.rejection {
                Some(x) => Some(x),
                None => None::<&Self>,
            },
    {
        match &err.rejection {
            Some(x) => Some(x),
            None => None,
        }
    }

    /// The reason reported to the block device for the absorbed write.
    pub fn to_outcome_reason(&self) -> (r: String)
        ensures
            r@ == "blocked placeholder "@ + self.virtual_path@ + " rejected for "@ + self.operation@ + ": "@
                + self.reason@,
    {
        let a = concat_str("blocked placeholder ", self.virtual_path.as_str());
        let b = concat_str(a.as_str(), " rejected for ");
        let c = concat_str(b.as_str(), self.operation.as_str());
        let d = concat_str(c.as_str(), ": ");
        concat_str(d.as_str(), self.reason.as_str())
    }

    /// The rejection as a `PermissionDenied` error that carries it.
    pub fn into_io_error(self) -> (e: IoError)
        ensures
            e.kind == ErrorKind::PermissionDenied,
            e.rejection == Some(self),
    {
        let a = concat_str("policy forbids modifying the file: path=", self.virtual_path.as_str());
        let b = concat_str(a.as_str(), " operation=");
        let c = concat_str(b.as_str(), self.operation.as_str());
        let d = concat_str(c.as_str(), " reason=");
        let message = concat_str(d.as_str(), self.reason.as_str());
        IoError { kind: ErrorKind::PermissionDenied, message, rejection: Some(self) }
    }
}

} // verus!
