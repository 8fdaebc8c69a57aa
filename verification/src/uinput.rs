//! Names of the virtual input devices created through `uinput`.

use vstd::prelude::*;
use vstd::string::StringSliceAdditionalSpecFns;

verus! {

/// Size of the name field of `struct uinput_setup`.
pub const UINPUT_NAME_SIZE: usize = 80;

/// The name field of `struct uinput_setup`: the name's UTF-8 bytes, cut
/// to leave room for the terminating zero, then zeros.
pub open spec fn name_field(name: Seq<u8>) -> Seq<u8> {
    let n = if name.len() < 79 {
        name.len()
    } else {
        79
    };
    name.take(n as int) + Seq::new((80 - n) as nat, |i: int| 0u8)
}

/// The name field for a virtual device called `name`.
pub fn uinput_name(name: &str) -> (r: Vec<u8>)
    ensures
        r@ == name_field(name.spec_bytes()),
        r@.len() == UINPUT_NAME_SIZE,
{
    let bytes = name.as_bytes();
    let n: usize = if bytes.len() < UINPUT_NAME_SIZE - 1 {
        bytes.len()
    } else {
        UINPUT_NAME_SIZE - 1
    };
    let mut out: Vec<u8> = Vec::new();
    let mut i: usize = 0;
    while i < n
        invariant
            i <= n,
            n <= bytes@.len(),
            n < 80,
            out@ == bytes@.take(i as int),
        decreases n - i,
    {
        out.push(bytes[i]);
        i = i + 1;
        assert(out@ =~= bytes@.take(i as int));
    }
    let mut k: usize = n;
    while k < UINPUT_NAME_SIZE
        invariant
            n <= k <= 80,
            n <= bytes@.len(),
            out@ == bytes@.take(n as int) + Seq::new((k - n) as nat, |j: int| 0u8),
        decreases 80 - k,
    {
        out.push(0);
        k = k + 1;
        assert(out@ =~= bytes@.take(n as int) + Seq::new((k - n) as nat, |j: int| 0u8));
    }
    assert(out@ =~= name_field(name.spec_bytes()));
    out
}

} // verus!
