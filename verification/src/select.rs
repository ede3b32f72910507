//! Entry selection and the compression override.
//!
//! Entry paths are matched after platform normalization: backslashes
//! become slashes and, on case-insensitive targets, ASCII letters are
//! lowered. An exact match wins; failing that, a unique suffix match.

use vstd::prelude::*;

use crate::blob::{entries_view, DirectoryEntry, DirectoryEntryV};
use crate::error::BundleError;
use crate::flags::{COMP_LZ4, COMP_LZMA, COMP_MASK, COMP_NONE};

verus! {

/// The caller's choice of output compression.
#[derive(Clone, Copy, Debug, PartialEq, Eq, Structural)]
pub enum Packer {
    /// Store everything uncompressed.
    Store,
    /// LZ4 chunked compression.
    Lz4,
    /// LZMA single-block compression.
    Lzma,
    /// Inherit the source bundle's compression choices.
    Original,
}

/// The compression code a packer choice imposes, if any.
pub open spec fn spec_override_compression(p: Packer) -> Option<u32> {
    match p {
        Packer::Store => Some(COMP_NONE),
        Packer::Lz4 => Some(COMP_LZ4),
        Packer::Lzma => Some(COMP_LZMA),
        Packer::Original => None,
    }
}

impl Packer {
    /// The compression code this choice imposes, if any.
    pub fn override_compression(&self) -> (r: Option<u32>)
        ensures
            r == spec_override_compression(*self),
    {
        match self {
            Packer::Store => Some(COMP_NONE),
            Packer::Lz4 => Some(COMP_LZ4),
            Packer::Lzma => Some(COMP_LZMA),
            Packer::Original => None,
        }
    }
}

/// The flag words used when writing, after the packer choice: `Original`
/// keeps both words; any other choice replaces both compression codes
/// while preserving the remaining bits.
pub open spec fn spec_apply_packer(flags: u32, block_info_flags: u16, packer: Packer) -> (
    u32,
    u16,
) {
    match spec_override_compression(packer) {
        None => (flags, block_info_flags),
        Some(c) => (
            (flags & !COMP_MASK) | c,
            (block_info_flags & !(COMP_MASK as u16)) | (c as u16),
        ),
    }
}

/// Apply the packer choice to the source bundle's flag words.
pub fn apply_packer(flags: u32, block_info_flags: u16, packer: Packer) -> (r: (u32, u16))
    ensures
        r == spec_apply_packer(flags, block_info_flags, packer),
{
    match packer.override_compression() {
        None => (flags, block_info_flags),
        Some(c) => (
            (flags & !COMP_MASK) | c,
            (block_info_flags & !(COMP_MASK as u16)) | (c as u16),
        ),
    }
}

/// One path byte after normalization.
pub open spec fn spec_normalize_byte(c: u8, case_insensitive: bool) -> u8 {
    if c == 0x5C {
        0x2F
    } else if case_insensitive && 0x41 <= c <= 0x5A {
        (c + 32) as u8
    } else {
        c
    }
}

/// A path after normalization: backslashes to slashes, and ASCII
/// lowering when the target is case-insensitive.
pub open spec fn spec_normalize_path(p: Seq<u8>, case_insensitive: bool) -> Seq<u8> {
    p.map_values(|c: u8| spec_normalize_byte(c, case_insensitive))
}

/// Normalize a path for matching.
pub fn normalize_entry_path(p: &Vec<u8>, case_insensitive: bool) -> (r: Vec<u8>)
    ensures
        r@ == spec_normalize_path(p@, case_insensitive),
{
    let mut out: Vec<u8> = Vec::new();
    let mut i: usize = 0;
    while i < p.len()
        invariant
            i <= p@.len(),
            out@ == spec_normalize_path(p@, case_insensitive).take(i as int),
        decreases p@.len() - i,
    {
        let c = p[i];
        let n = if c == 0x5C {
            0x2F
        } else if case_insensitive && 0x41 <= c && c <= 0x5A {
            c + 32
        } else {
            c
        };
        out.push(n);
        proof {
            assert(out@ =~= spec_normalize_path(p@, case_insensitive).take(i + 1));
        }
        i = i + 1;
    }
    proof {
        assert(out@ =~= spec_normalize_path(p@, case_insensitive));
    }
    out
}

/// Compare two byte vectors.
fn vec_eq(a: &Vec<u8>, b: &Vec<u8>) -> (r: bool)
    ensures
        r == (a@ == b@),
{
    if a.len() != b.len() {
        return false;
    }
    let mut i: usize = 0;
    while i < a.len()
        invariant
            i <= a@.len(),
            a@.len() == b@.len(),
            forall|j: int| 0 <= j < i ==> a@[j] == b@[j],
        decreases a@.len() - i,
    {
        if a[i] != b[i] {
            return false;
        }
        i = i + 1;
    }
    proof {
        assert(a@ =~= b@);
    }
    true
}

/// Whether `v` ends with `t`.
fn ends_with(v: &Vec<u8>, t: &Vec<u8>) -> (r: bool)
    ensures
        r == (v@.len() >= t@.len() && v@.skip(v@.len() - t@.len() as int) == t@),
{
    if t.len() > v.len() {
        return false;
    }
    let start = v.len() - t.len();
    let ghost tail = v@.skip(v@.len() - t@.len() as int);
    let mut i: usize = 0;
    while i < t.len()
        invariant
            i <= t@.len(),
            t@.len() <= v@.len(),
            v@.len() <= usize::MAX,
            start == v@.len() - t@.len(),
            tail == v@.skip(v@.len() - t@.len() as int),
            forall|j: int| 0 <= j < i ==> tail[j] == t@[j],
        decreases t@.len() - i,
    {
        if v[start + i] != t[i] {
            proof {
                assert(tail[i as int] == v@[start + i]);
            }
            return false;
        }
        proof {
            assert(tail[i as int] == v@[start + i]);
        }
        i = i + 1;
    }
    proof {
        assert(tail =~= t@);
    }
    true
}

/// The entry at `i` matches the normalized selector exactly.
pub open spec fn spec_exact_match(
    es: Seq<DirectoryEntryV>,
    t: Seq<u8>,
    case_insensitive: bool,
    i: int,
) -> bool {
    spec_normalize_path(es[i].path, case_insensitive) == t
}

/// The entry at `i` matches the normalized selector by suffix.
pub open spec fn spec_suffix_match(
    es: Seq<DirectoryEntryV>,
    t: Seq<u8>,
    case_insensitive: bool,
    i: int,
) -> bool {
    let n = spec_normalize_path(es[i].path, case_insensitive);
    n.len() >= t.len() && n.skip(n.len() - t.len() as int) == t
}

/// Select the entry to patch. With a selector, an entry matching it
/// exactly is chosen if unique; failing any exact match, an entry
/// matching it as a path suffix is chosen if unique. Without a selector
/// the bundle must hold exactly one entry.
pub fn select_entry(
    entries: &Vec<DirectoryEntry>,
    selector: Option<&Vec<u8>>,
    case_insensitive: bool,
) -> (r: Result<usize, BundleError>)
    ensures
        ({
            let es = entries_view(entries@);
            match r {
                Ok(i) => 0 <= i < es.len() && match selector {
                    Some(s) => {
                        let t = spec_normalize_path(s@, case_insensitive);
                        ||| (spec_exact_match(es, t, case_insensitive, i as int) && forall|j: int|
                            0 <= j < es.len() && j != i ==> !spec_exact_match(
                                es,
                                t,
                                case_insensitive,
                                j,
                            ))
                        ||| ((forall|j: int|
                            0 <= j < es.len() ==> !spec_exact_match(es, t, case_insensitive, j))
                            && spec_suffix_match(es, t, case_insensitive, i as int) && forall|
                            j: int,
                        |
                            0 <= j < es.len() && j != i ==> !spec_suffix_match(
                                es,
                                t,
                                case_insensitive,
                                j,
                            ))
                    },
                    None => es.len() == 1 && i == 0,
                },
                Err(e) => match selector {
                    Some(s) => {
                        let t = spec_normalize_path(s@, case_insensitive);
                        ||| (e == BundleError::NoEntries && es.len() == 0)
                        ||| (e == BundleError::EntryAmbiguous && exists|i: int, j: int|
                            0 <= i < j < es.len() && ((spec_exact_match(es, t, case_insensitive, i)
                                && spec_exact_match(es, t, case_insensitive, j)) || (
                            spec_suffix_match(es, t, case_insensitive, i) && spec_suffix_match(
                                es,
                                t,
                                case_insensitive,
                                j,
                            ))))
                        ||| (e == BundleError::EntryNotFound && es.len() > 0 && (forall|j: int|
                            0 <= j < es.len() ==> !spec_exact_match(es, t, case_insensitive, j))
                            && (forall|j: int|
                            0 <= j < es.len() ==> !spec_suffix_match(es, t, case_insensitive, j)))
                    },
                    None => (e == BundleError::NoEntries && es.len() == 0) || (e
                        == BundleError::MultipleEntries && es.len() > 1),
                },
            }
        }),
{
    let ghost es = entries_view(entries@);
    if entries.len() == 0 {
        return Err(BundleError::NoEntries);
    }
    let sel = match selector {
        Some(s) => s,
        None => {
            if entries.len() == 1 {
                return Ok(0);
            }
            return Err(BundleError::MultipleEntries);
        },
    };
    let target = normalize_entry_path(sel, case_insensitive);
    let ghost t = spec_normalize_path(sel@, case_insensitive);
    let mut count: usize = 0;
    let mut first: usize = 0;
    let ghost mut w1: int = 0;
    let ghost mut w2: int = 0;
    let mut i: usize = 0;
    while i < entries.len()
        invariant
            i <= es.len(),
            es == entries_view(entries@),
            t == spec_normalize_path(sel@, case_insensitive),
            target@ == t,
            count <= i,
            count == 0 ==> forall|j: int| 0 <= j < i ==> !spec_exact_match(
                es,
                t,
                case_insensitive,
                j,
            ),
            count == 1 ==> 0 <= first < i && spec_exact_match(es, t, case_insensitive, first as int)
                && forall|j: int|
                0 <= j < i && j != first ==> !spec_exact_match(es, t, case_insensitive, j),
            count >= 2 ==> 0 <= w1 < w2 < i && spec_exact_match(es, t, case_insensitive, w1)
                && spec_exact_match(es, t, case_insensitive, w2),
        decreases es.len() - i,
    {
        let n = normalize_entry_path(&entries[i].path, case_insensitive);
        proof {
            assert(es[i as int].path == entries@[i as int].path@);
        }
        if vec_eq(&n, &target) {
            proof {
                assert(spec_exact_match(es, t, case_insensitive, i as int));
            }
            if count == 0 {
                first = i;
            } else if count == 1 {
                proof {
                    w1 = first as int;
                    w2 = i as int;
                }
            }
            count = count + 1;
        } else {
            proof {
                assert(!spec_exact_match(es, t, case_insensitive, i as int));
            }
        }
        i = i + 1;
    }
    if count == 1 {
        return Ok(first);
    }
    if count > 1 {
        return Err(BundleError::EntryAmbiguous);
    }
    // No exact match: try suffix matching.
    let mut scount: usize = 0;
    let mut sfirst: usize = 0;
    let ghost mut sw1: int = 0;
    let ghost mut sw2: int = 0;
    let mut k: usize = 0;
    while k < entries.len()
        invariant
            k <= es.len(),
            es == entries_view(entries@),
            t == spec_normalize_path(sel@, case_insensitive),
            target@ == t,
            scount <= k,
            scount == 0 ==> forall|j: int| 0 <= j < k ==> !spec_suffix_match(
                es,
                t,
                case_insensitive,
                j,
            ),
            scount == 1 ==> 0 <= sfirst < k && spec_suffix_match(
                es,
                t,
                case_insensitive,
                sfirst as int,
            ) && forall|j: int|
                0 <= j < k && j != sfirst ==> !spec_suffix_match(es, t, case_insensitive, j),
            scount >= 2 ==> 0 <= sw1 < sw2 < k && spec_suffix_match(es, t, case_insensitive, sw1)
                && spec_suffix_match(es, t, case_insensitive, sw2),
        decreases es.len() - k,
    {
        let n = normalize_entry_path(&entries[k].path, case_insensitive);
        proof {
            assert(es[k as int].path == entries@[k as int].path@);
        }
        if ends_with(&n, &target) {
            proof {
                assert(spec_suffix_match(es, t, case_insensitive, k as int));
            }
            if scount == 0 {
                sfirst = k;
            } else if scount == 1 {
                proof {
                    sw1 = sfirst as int;
                    sw2 = k as int;
                }
            }
            scount = scount + 1;
        } else {
            proof {
                assert(!spec_suffix_match(es, t, case_insensitive, k as int));
            }
        }
        k = k + 1;
    }
    if scount == 1 {
        return Ok(sfirst);
    }
    if scount > 1 {
        return Err(BundleError::EntryAmbiguous);
    }
    Err(BundleError::EntryNotFound)
}

} // verus!
