//! Publishing the virtual disk: the NBD device path and the UDC states that
//! decide whether the host has enumerated the gadget.
use vstd::prelude::*;
use crate::gadget::{GadgetError, GadgetRuntime};
use crate::strings::{decimal, decimal_string};

verus! {

/// The NBD device node of index `nbd_index`.
pub open spec fn nbd_device_path_spec(nbd_index: u32) -> Seq<char> {
    seq!['/', 'd', 'e', 'v', '/', 'n', 'b', 'd'] + decimal(nbd_index as nat)
}

/// The NBD device node of index `nbd_index`: `/dev/nbd` and the index.
pub fn nbd_device_path(nbd_index: u32) -> (r: String)
    ensures
        r@ == nbd_device_path_spec(nbd_index),
{
    let mut s = String::new();
    crate::text::push_char(&mut s, '/');
    crate::text::push_char(&mut s, 'd');
    crate::text::push_char(&mut s, 'e');
    crate::text::push_char(&mut s, 'v');
    crate::text::push_char(&mut s, '/');
    crate::text::push_char(&mut s, 'n');
    crate::text::push_char(&mut s, 'b');
    crate::text::push_char(&mut s, 'd');
    let d = decimal_string(nbd_index as u64);
    let dc = crate::strings::chars_of(d.as_str());
    let ghost base = s@;
    assert(base =~= seq!['/', 'd', 'e', 'v', '/', 'n', 'b', 'd']);
    let mut i: usize = 0;
    while i < dc.len()
        invariant
            i <= dc@.len(),
            s@ == base + dc@.take(i as int),
        decreases dc@.len() - i,
    {
        crate::text::push_char(&mut s, dc[i]);
        i = i + 1;
        assert(s@ =~= base + dc@.take(i as int));
    }
    assert(dc@.take(dc@.len() as int) =~= dc@);
    s
}

/// A UDC state after which the controller is rebound once: unknown,
/// `not attached`, `powered` or `default`.
pub open spec fn needs_rebind(state: Option<Seq<char>>) -> bool {
    match state {
        None => true,
        Some(s) => s == seq!['n', 'o', 't', ' ', 'a', 't', 't', 'a', 'c', 'h', 'e', 'd'] || s == seq![
            'p',
            'o',
            'w',
            'e',
            'r',
            'e',
            'd',
        ] || s == seq!['d', 'e', 'f', 'a', 'u', 'l', 't'],
    }
}

/// Whether the UDC state calls for a rebind.
pub fn udc_state_needs_rebind(state: Option<&str>) -> (r: bool)
    ensures
        r == needs_rebind(match state {
            Some(s) => Some(s@),
            None => None,
        }),
{
    match state {
        None => true,
        Some(s) => {
            let a = "not attached";
            let b = "powered";
            let c = "default";
            proof {
                reveal_strlit("not attached");
                reveal_strlit("powered");
                reveal_strlit("default");
                assert(a@ =~= seq!['n', 'o', 't', ' ', 'a', 't', 't', 'a', 'c', 'h', 'e', 'd']);
                assert(b@ =~= seq!['p', 'o', 'w', 'e', 'r', 'e', 'd']);
                assert(c@ =~= seq!['d', 'e', 'f', 'a', 'u', 'l', 't']);
            }
            crate::strings::str_eq(s, a) || crate::strings::str_eq(s, b) || crate::strings::str_eq(s, c)
        },
    }
}

/// Whether the UDC state says the host has configured the gadget.
pub fn udc_state_is_configured(state: Option<&str>) -> (r: bool)
    ensures
        r == (state matches Some(s) && s@ == seq!['c', 'o', 'n', 'f', 'i', 'g', 'u', 'r', 'e', 'd']),
{
    match state {
        None => false,
        Some(s) => {
            let c = "configured";
            proof {
                reveal_strlit("configured");
                assert(c@ =~= seq!['c', 'o', 'n', 'f', 'i', 'g', 'u', 'r', 'e', 'd']);
            }
            crate::strings::str_eq(s, c)
        },
    }
}

/// Why publishing failed.
#[derive(Debug)]
pub enum PublishError {
    Nbd(String),
    Gadget(GadgetError),
}

/// Publishes virtual disks through the gadget.
#[derive(Debug, Clone)]
pub struct StoragePublisher {
    pub gadget: GadgetRuntime,
}

impl StoragePublisher {
    /// A publisher through `gadget`.
    pub fn new(gadget: GadgetRuntime) -> (p: Self)
        ensures
            p.gadget == gadget,
    {
        StoragePublisher { gadget }
    }
}

} // verus!
