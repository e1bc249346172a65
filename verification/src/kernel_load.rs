//! Gathering a Linux kernel's bytes from the mounted volumes.
//!
//! A BLS entry's paths may live on the ESP or on another mounted volume (an
//! XBOOTLDR partition, an ext4 `/boot`).  The caller asks each volume in
//! mount order (ESP first) whether it holds a path; the first that does is
//! read.  Every initrd component that was found is concatenated, in order,
//! into the one buffer the kernel unpacks (microcode images first).
use vstd::prelude::*;

verus! {

/// Index of the first volume whose lookup found the path, with the path as
/// that volume resolved it; `None` when no volume holds it.
pub open spec fn first_found(found: Seq<Option<Seq<char>>>, i: int) -> Option<(int, Seq<char>)>
    decreases found.len() - i,
{
    if i < 0 || i >= found.len() {
        None
    } else {
        match found[i] {
            Some(p) => Some((i, p)),
            None => first_found(found, i + 1),
        }
    }
}

/// The lookups as plain values.
pub open spec fn lookups_view(found: Seq<Option<String>>) -> Seq<Option<Seq<char>>> {
    found.map_values(|o: Option<String>| match o {
        Some(s) => Some(s@),
        None => None,
    })
}

/// Picks the volume to read a path from: `found[i]` is the `i`-th volume's
/// answer (the path as it resolved there, or `None`), volume 0 being the
/// ESP.  The first volume that holds the path wins.
pub fn locate_on_volumes(found: &[Option<String>]) -> (r: Option<(usize, String)>)
    ensures
        match r {
            Some((i, p)) => first_found(lookups_view(found@), 0) == Some((i as int, p@)),
            None => first_found(lookups_view(found@), 0) is None,
        },
{
    let ghost fv = lookups_view(found@);
    let mut i: usize = 0;
    while i < found.len()
        invariant
            i <= found@.len(),
            fv == lookups_view(found@),
            first_found(fv, 0) == first_found(fv, i as int),
        decreases found@.len() - i,
    {
        match &found[i] {
            Some(p) => {
                return Some((i, String::from_str(p.as_str())));
            },
            None => {},
        }
        i += 1;
    }
    None
}

/// The bytes of the components that were found, concatenated in order.
pub open spec fn combined(parts: Seq<Option<Vec<u8>>>) -> Seq<u8>
    decreases parts.len(),
{
    if parts.len() == 0 {
        seq![]
    } else {
        combined(parts.drop_last()) + match parts.last() {
            Some(b) => b@,
            None => Seq::<u8>::empty(),
        }
    }
}

/// Concatenates the initrd components that were found (`None` for one that
/// no volume holds, which is skipped) into the single initrd buffer.
pub fn combine_initrds(parts: &[Option<Vec<u8>>]) -> (r: Vec<u8>)
    ensures
        r@ == combined(parts@),
{
    let mut out: Vec<u8> = Vec::new();
    let mut k: usize = 0;
    while k < parts.len()
        invariant
            k <= parts@.len(),
            out@ == combined(parts@.subrange(0, k as int)),
        decreases parts@.len() - k,
    {
        assert(parts@.subrange(0, k + 1).drop_last() =~= parts@.subrange(0, k as int));
        assert(parts@.subrange(0, k + 1).last() == parts@[k as int]);
        match &parts[k] {
            Some(b) => {
                let ghost before = out@;
                let mut j: usize = 0;
                while j < b.len()
                    invariant
                        j <= b@.len(),
                        out@ == before + b@.subrange(0, j as int),
                    decreases b@.len() - j,
                {
                    out.push(b[j]);
                    assert(b@.subrange(0, j + 1) == b@.subrange(0, j as int).push(b@[j as int]));
                    j += 1;
                }
                assert(b@.subrange(0, b@.len() as int) == b@);
            },
            None => {
                assert(out@ =~= out@ + Seq::<u8>::empty());
            },
        }
        k += 1;
    }
    assert(parts@.subrange(0, parts@.len() as int) =~= parts@);
    out
}

} // verus!
