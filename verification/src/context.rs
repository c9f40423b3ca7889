//! The provider that renders the process table as a synthesized file. The
//! snapshot of the current process index and the table's length is taken by
//! the caller under its interrupt-disabled scope and handed in as plain
//! values; this provider only renders it.

use vstd::prelude::*;
use crate::resource::{ResourceType, VecResource};
use crate::url::Url;

verus! {

/// The decimal digits of `n`, most significant first.
pub open spec fn dec_digits(n: int) -> Seq<u8>
    decreases n,
{
    if n < 10 {
        seq![(48 + if n >= 0 {
            n
        } else {
            0
        }) as u8]
    } else {
        dec_digits(n / 10).push((48 + n % 10) as u8)
    }
}

/// Render `n` in decimal.
pub fn fmt_dec(n: usize) -> (r: Vec<u8>)
    ensures
        r@ == dec_digits(n as int),
    decreases n,
{
    if n < 10 {
        let mut v: Vec<u8> = Vec::new();
        v.push(48 + n as u8);
        v
    } else {
        let mut v = fmt_dec(n / 10);
        v.push(48 + (n % 10) as u8);
        v
    }
}

/// The bytes `Current: `.
pub open spec fn spec_current_label() -> Seq<u8> {
    seq![67u8, 117u8, 114u8, 114u8, 101u8, 110u8, 116u8, 58u8, 32u8]
}

/// The bytes `Total: `.
pub open spec fn spec_total_label() -> Seq<u8> {
    seq![84u8, 111u8, 116u8, 97u8, 108u8, 58u8, 32u8]
}

/// The rendered snapshot: `Current: {index}`, a newline, `Total: {total}`.
pub open spec fn spec_context_content(index: int, total: int) -> Seq<u8> {
    spec_current_label() + dec_digits(index) + seq![10u8] + spec_total_label() + dec_digits(total)
}

/// The bytes `context`: the provider's name.
pub open spec fn spec_context_name() -> Seq<u8> {
    seq![99u8, 111u8, 110u8, 116u8, 101u8, 120u8, 116u8]
}

/// The provider serving the process snapshot under `context://`.
pub struct ContextScheme;

impl ContextScheme {
    /// The provider's name in the namespace.
    pub fn scheme(&self) -> (r: &'static str)
        ensures
            r@ == "context"@,
    {
        "context"
    }

    /// Open the synthesized snapshot file for the process `index` of
    /// `total`: a read-only byte resource holding the rendered text.
    pub fn open(&self, index: usize, total: usize) -> (r: VecResource)
        ensures
            r@.data == spec_context_content(index as int, total as int),
            r@.seek == 0,
            r@.resource_type == ResourceType::File,
            r@.url.scheme == spec_context_name(),
            r@.url.path == Seq::<u8>::empty(),
            r.wf(),
    {
        let mut data: Vec<u8> = Vec::new();
        data.push(67);
        data.push(117);
        data.push(114);
        data.push(114);
        data.push(101);
        data.push(110);
        data.push(116);
        data.push(58);
        data.push(32);
        proof {
            assert(data@ =~= spec_current_label());
        }
        let mut cur = fmt_dec(index);
        data.append(&mut cur);
        data.push(10);
        data.push(84);
        data.push(111);
        data.push(116);
        data.push(97);
        data.push(108);
        data.push(58);
        data.push(32);
        let mut tot = fmt_dec(total);
        data.append(&mut tot);
        proof {
            assert(data@ =~= spec_context_content(index as int, total as int));
        }
        let mut scheme_name: Vec<u8> = Vec::new();
        scheme_name.push(99);
        scheme_name.push(111);
        scheme_name.push(110);
        scheme_name.push(116);
        scheme_name.push(101);
        scheme_name.push(120);
        scheme_name.push(116);
        proof {
            assert(scheme_name@ =~= spec_context_name());
        }
        let url = Url { scheme: scheme_name, path: Vec::new() };
        VecResource::new(url, ResourceType::File, data)
    }
}

} // verus!
