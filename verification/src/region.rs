//! Region files: which ones a tile owns, and what their names say.

use crate::text::{
    chars_of, decimal, i32_text, law_i32_round_trip, lemma_decimal_reads_back, parse_i32,
    signed_decimal,
};
use vstd::prelude::*;

verus! {

/// The side of a region, in blocks.
pub const REGION_SIZE_BLOCKS: i32 = 512;

/// The block coordinates of the two corners of a tile's core, `min` those of its south-west corner
/// and `max` those of its north-east corner.
#[derive(Clone, Copy, Debug, PartialEq, Eq, Structural)]
pub struct CoreCorners {
    pub min_x: i32,
    pub max_x: i32,
    pub min_z: i32,
    pub max_z: i32,
}

/// A rectangle of region coordinates, both ends included.
#[derive(Clone, Copy, Debug, PartialEq, Eq, Structural)]
pub struct RegionRange {
    pub min_rx: i32,
    pub max_rx: i32,
    pub min_rz: i32,
    pub max_rz: i32,
}

impl RegionRange {
    pub open spec fn contains(self, rx: int, rz: int) -> bool {
        self.min_rx <= rx <= self.max_rx && self.min_rz <= rz <= self.max_rz
    }
}

/// The region that the block coordinate `block` lies in.
pub open spec fn region_of(block: int) -> int {
    block / 512
}

/// The lesser of two numbers.
pub open spec fn least(a: int, b: int) -> int {
    if a <= b {
        a
    } else {
        b
    }
}

/// The greater of two numbers.
pub open spec fn greatest(a: int, b: int) -> int {
    if a <= b {
        b
    } else {
        a
    }
}

/// The regions from the one of the one corner to the one of the other, in whatever order the
/// corners come: blocks can count down where latitudes or longitudes go up.
pub open spec fn regions_of(corners: CoreCorners) -> RegionRange {
    let x1 = region_of(corners.min_x as int);
    let x2 = region_of(corners.max_x as int);
    let z1 = region_of(corners.min_z as int);
    let z2 = region_of(corners.max_z as int);
    RegionRange {
        min_rx: least(x1, x2) as i32,
        max_rx: greatest(x1, x2) as i32,
        min_rz: least(z1, z2) as i32,
        max_rz: greatest(z1, z2) as i32,
    }
}

fn to_region(block: i32) -> (r: i32)
    ensures
        r == region_of(block as int),
{
    block.checked_div_euclid(REGION_SIZE_BLOCKS).unwrap()
}

/// Two numbers, the lesser one first.
fn in_order(a: i32, b: i32) -> (r: (i32, i32))
    ensures
        r.0 == least(a as int, b as int),
        r.1 == greatest(a as int, b as int),
{
    if a <= b {
        (a, b)
    } else {
        (b, a)
    }
}

/// The regions that belong to a tile whose core has the given corners. Where the corners are not
/// known there is no range.
pub fn core_region_range(corners: Option<CoreCorners>) -> (r: Option<RegionRange>)
    ensures
        r == match corners {
            Some(c) => Some(regions_of(c)),
            None => None,
        },
{
    match corners {
        Some(c) => {
            let (min_rx, max_rx) = in_order(to_region(c.min_x), to_region(c.max_x));
            let (min_rz, max_rz) = in_order(to_region(c.min_z), to_region(c.max_z));
            Some(RegionRange { min_rx, max_rx, min_rz, max_rz })
        },
        None => None,
    }
}

/// A region holds the 512 block coordinates from 512 times its own on. Along each axis the range
/// of a tile is never empty, and holds exactly the regions that have a block between the two
/// corners of the core, corners included and in either order.
pub proof fn law_region_holds_its_blocks(block: i32, corners: CoreCorners, region: int)
    ensures
        512 * region_of(block as int) <= block < 512 * region_of(block as int) + 512,
        regions_of(corners).min_rx <= regions_of(corners).max_rx,
        regions_of(corners).min_rz <= regions_of(corners).max_rz,
        regions_of(corners).min_rx <= region <= regions_of(corners).max_rx <==> least(
            corners.min_x as int,
            corners.max_x as int,
        ) <= 512 * region + 511 && 512 * region <= greatest(
            corners.min_x as int,
            corners.max_x as int,
        ),
        regions_of(corners).min_rz <= region <= regions_of(corners).max_rz <==> least(
            corners.min_z as int,
            corners.max_z as int,
        ) <= 512 * region + 511 && 512 * region <= greatest(
            corners.min_z as int,
            corners.max_z as int,
        ),
{
}

/// Whether `s` starts with `p`.
pub open spec fn starts_with(s: Seq<char>, p: Seq<char>) -> bool {
    p.len() <= s.len() && s.take(p.len() as int) == p
}

/// Whether `s` ends with `p`.
pub open spec fn ends_with(s: Seq<char>, p: Seq<char>) -> bool {
    p.len() <= s.len() && s.skip(s.len() - p.len()) == p
}

/// What is left of `s` once `p` no longer stands at its start.
pub open spec fn trim_start(s: Seq<char>, p: Seq<char>) -> Seq<char>
    decreases s.len(),
{
    if p.len() > 0 && starts_with(s, p) {
        trim_start(s.skip(p.len() as int), p)
    } else {
        s
    }
}

/// What is left of `s` once `p` no longer stands at its end.
pub open spec fn trim_end(s: Seq<char>, p: Seq<char>) -> Seq<char>
    decreases s.len(),
{
    if p.len() > 0 && ends_with(s, p) {
        trim_end(s.take(s.len() - p.len()), p)
    } else {
        s
    }
}

/// The dot at `k` is the only one in `s`.
pub open spec fn only_dot(s: Seq<char>, k: int) -> bool {
    &&& 0 <= k < s.len()
    &&& s[k] == '.'
    &&& forall|j: int| 0 <= j < s.len() && j != k ==> #[trigger] s[j] != '.'
}

/// The parts of `s` on the two sides of its only dot.
pub open spec fn two_parts(s: Seq<char>) -> Option<(Seq<char>, Seq<char>)> {
    if exists|k: int| only_dot(s, k) {
        let k = choose|k: int| only_dot(s, k);
        Some((s.take(k), s.skip(k + 1)))
    } else {
        None
    }
}

/// What the name of a file says about the region in it.
#[derive(Clone, Copy, Debug, PartialEq, Eq, Structural)]
pub enum RegionName {
    /// Not a region file.
    Other,
    /// Named like a region file, but without two coordinates.
    Invalid,
    Region { rx: i32, rz: i32 },
}

/// The start of every region file name.
pub open spec fn name_prefix() -> Seq<char> {
    seq!['r', '.']
}

/// The end of every region file name.
pub open spec fn name_suffix() -> Seq<char> {
    seq!['.', 'm', 'c', 'a']
}

/// What is left of a region file name without its start and its end.
pub open spec fn name_core(name: Seq<char>) -> Seq<char> {
    trim_end(trim_start(name, name_prefix()), name_suffix())
}

/// What `name` says: `r.X.Z.mca` with two 32-bit numbers names a region. A start or an end that
/// stands there several times over is stripped as often.
pub open spec fn region_name(name: Seq<char>) -> RegionName {
    if !starts_with(name, name_prefix()) || !ends_with(name, name_suffix()) {
        RegionName::Other
    } else {
        match two_parts(name_core(name)) {
            None => RegionName::Other,
            Some((x, z)) => match (i32_text(x), i32_text(z)) {
                (Some(rx), Some(rz)) => RegionName::Region { rx, rz },
                _ => RegionName::Invalid,
            },
        }
    }
}

/// What to do with a file that a tile produced.
#[derive(Clone, Copy, Debug, PartialEq, Eq, Structural)]
pub enum MergeAction {
    Skip,
    Copy,
    Reject,
}

/// Region files of the core range are copied, other files are left alone, and a malformed region
/// name is an error.
pub open spec fn merge_decision(name: Seq<char>, range: RegionRange) -> MergeAction {
    match region_name(name) {
        RegionName::Other => MergeAction::Skip,
        RegionName::Invalid => MergeAction::Reject,
        RegionName::Region { rx, rz } => if range.contains(rx as int, rz as int) {
            MergeAction::Copy
        } else {
            MergeAction::Skip
        },
    }
}

/// Whether `p` stands in `s` at `at`.
fn stands_at(s: &[char], at: usize, p: &[char]) -> (r: bool)
    requires
        at <= s@.len(),
    ensures
        r == (at + p@.len() <= s@.len() && s@.subrange(at as int, at + p@.len()) == p@),
{
    if s.len() - at < p.len() {
        return false;
    }
    let mut i: usize = 0;
    while i < p.len()
        invariant
            i <= p.len(),
            at + p.len() <= s.len(),
            forall|j: int| 0 <= j < i ==> s@[at + j] == #[trigger] p@[j],
        decreases p.len() - i,
    {
        if s[at + i] != p[i] {
            proof {
                assert(s@.subrange(at as int, at + p@.len())[i as int] != p@[i as int]);
            }
            return false;
        }
        i += 1;
    }
    proof {
        assert(s@.subrange(at as int, at + p@.len()) =~= p@);
    }
    true
}

/// Where the text left by [`trim_start`] begins.
fn trimmed_start(s: &[char], p: &[char]) -> (r: usize)
    requires
        p@.len() > 0,
    ensures
        r <= s@.len(),
        s@.skip(r as int) == trim_start(s@, p@),
{
    let mut from: usize = 0;
    proof {
        assert(s@.skip(0) =~= s@);
    }
    while stands_at(s, from, p)
        invariant
            p@.len() > 0,
            from <= s@.len(),
            trim_start(s@.skip(from as int), p@) == trim_start(s@, p@),
        decreases s.len() - from,
    {
        proof {
            let rest = s@.skip(from as int);
            assert(rest.take(p@.len() as int) =~= s@.subrange(from as int, from + p@.len()));
            assert(rest.skip(p@.len() as int) =~= s@.skip(from + p@.len()));
        }
        from = from + p.len();
    }
    proof {
        let rest = s@.skip(from as int);
        if starts_with(rest, p@) {
            assert(rest.take(p@.len() as int) =~= s@.subrange(from as int, from + p@.len()));
        }
    }
    from
}

/// Where the text left by [`trim_end`] ends.
fn trimmed_end(s: &[char], p: &[char]) -> (r: usize)
    requires
        p@.len() > 0,
    ensures
        r <= s@.len(),
        s@.take(r as int) == trim_end(s@, p@),
{
    let mut to: usize = s.len();
    proof {
        assert(s@.take(to as int) =~= s@);
    }
    while to >= p.len() && stands_at(s, to - p.len(), p)
        invariant
            p@.len() > 0,
            to <= s@.len(),
            trim_end(s@.take(to as int), p@) == trim_end(s@, p@),
        decreases to,
    {
        proof {
            let front = s@.take(to as int);
            assert(front.skip(to - p@.len()) =~= s@.subrange(to - p@.len(), to as int));
            assert(front.take(to - p@.len()) =~= s@.take(to - p@.len()));
        }
        to = to - p.len();
    }
    proof {
        let front = s@.take(to as int);
        if ends_with(front, p@) {
            assert(front.skip(to - p@.len()) =~= s@.subrange(to - p@.len(), to as int));
        }
    }
    to
}

/// The place of the only dot in `s`, if there is exactly one.
fn find_only_dot(s: &[char]) -> (r: Option<usize>)
    ensures
        match r {
            Some(k) => only_dot(s@, k as int),
            None => forall|k: int| !only_dot(s@, k),
        },
{
    let mut found: Option<usize> = None;
    let mut i: usize = 0;
    while i < s.len()
        invariant
            i <= s.len(),
            match found {
                Some(k) => k < i && only_dot(s@.take(i as int), k as int),
                None => forall|j: int| 0 <= j < i ==> s@[j] != '.',
            },
        decreases s.len() - i,
    {
        if s[i] == '.' {
            if let Some(k) = found {
                proof {
                    assert(s@.take(i as int)[k as int] == '.');
                    assert forall|d: int| !only_dot(s@, d) by {
                        if only_dot(s@, d) {
                            assert(d == k || s@[k as int] != '.');
                            assert(d == i || s@[i as int] != '.');
                        }
                    }
                }
                return None;
            }
            found = Some(i);
            proof {
                let front = s@.take(i + 1);
                assert forall|j: int| 0 <= j < front.len() && j != i implies #[trigger] front[j]
                    != '.' by {
                    assert(front[j] == s@[j]);
                }
            }
        } else {
            proof {
                if let Some(k) = found {
                    let front = s@.take(i + 1);
                    assert forall|j: int| 0 <= j < front.len() && j != k implies #[trigger] front[j]
                        != '.' by {
                        if j < i {
                            assert(front[j] == s@.take(i as int)[j]);
                        }
                    }
                    assert(front[k as int] == s@.take(i as int)[k as int]);
                }
            }
        }
        i += 1;
    }
    proof {
        assert(s@.take(s@.len() as int) =~= s@);
    }
    found
}

/// Two different dots cannot both be the only one.
proof fn lemma_only_dot_unique(s: Seq<char>, a: int, b: int)
    requires
        only_dot(s, a),
        only_dot(s, b),
    ensures
        a == b,
{
    if a != b {
        assert(s[b] != '.');
    }
}

/// Reads the name of a region file.
pub fn parse_region_name(name: &str) -> (r: RegionName)
    ensures
        r == region_name(name@),
{
    let chars = chars_of(name);
    let s = chars.as_slice();
    let prefix: [char; 2] = ['r', '.'];
    let suffix: [char; 4] = ['.', 'm', 'c', 'a'];
    proof {
        assert(prefix@ =~= name_prefix());
        assert(suffix@ =~= name_suffix());
        assert(2 <= s@.len() ==> s@.subrange(0, 2) =~= s@.take(2));
        assert(4 <= s@.len() ==> s@.subrange(s@.len() - 4, s@.len() as int) =~= s@.skip(
            s@.len() - 4,
        ));
    }
    if !stands_at(s, 0, &prefix) || s.len() < 4 || !stands_at(s, s.len() - 4, &suffix) {
        return RegionName::Other;
    }
    let from: usize = trimmed_start(s, &prefix);
    let rest = &s[from..s.len()];
    proof {
        assert(rest@ =~= s@.skip(from as int));
    }
    let to: usize = trimmed_end(rest, &suffix);
    let core = &rest[0..to];
    proof {
        assert(core@ =~= name_core(s@));
    }
    match find_only_dot(core) {
        None => RegionName::Other,
        Some(k) => {
            proof {
                let d = choose|d: int| only_dot(core@, d);
                lemma_only_dot_unique(core@, d, k as int);
                assert(core@.subrange(0, k as int) =~= core@.take(k as int));
                assert(core@.subrange(k + 1, core@.len() as int) =~= core@.skip(k + 1));
            }
            match (parse_i32(&core[0..k]), parse_i32(&core[k + 1..core.len()])) {
                (Some(rx), Some(rz)) => RegionName::Region { rx, rz },
                _ => RegionName::Invalid,
            }
        },
    }
}

/// Decides what to do with a file that a tile left in its region directory.
pub fn merge_action(name: &str, range: &RegionRange) -> (r: MergeAction)
    ensures
        r == merge_decision(name@, *range),
{
    match parse_region_name(name) {
        RegionName::Other => MergeAction::Skip,
        RegionName::Invalid => MergeAction::Reject,
        RegionName::Region { rx, rz } => {
            if rx >= range.min_rx && rx <= range.max_rx && rz >= range.min_rz && rz
                <= range.max_rz {
                MergeAction::Copy
            } else {
                MergeAction::Skip
            }
        },
    }
}

/// The message for a malformed region file name.
pub fn invalid_name_message(name: &str) -> (r: String)
    ensures
        r@ == "invalid region filename: "@ + name@,
{
    let mut text = String::from_str("invalid region filename: ");
    text.append(name);
    text
}

/// The message for a region file that could not be copied.
pub fn copy_failed_message(name: &str, cause: &str) -> (r: String)
    ensures
        r@ == "copy "@ + name@ + ": "@ + cause@,
{
    let mut text = String::from_str("copy ");
    text.append(name);
    text.append(": ");
    text.append(cause);
    text
}

/// The file name of a region.
pub open spec fn file_name(rx: int, rz: int) -> Seq<char> {
    name_prefix() + signed_decimal(rx) + seq!['.'] + signed_decimal(rz) + name_suffix()
}

/// The notation of a number holds digits, but for a minus sign in front, and ends in a digit.
proof fn lemma_signed_decimal_shape(i: int)
    ensures
        signed_decimal(i).len() > 0,
        '0' <= signed_decimal(i).last() <= '9',
        forall|j: int|
            0 <= j < signed_decimal(i).len() ==> (#[trigger] signed_decimal(i)[j] == '-' || '0'
                <= signed_decimal(i)[j] <= '9'),
{
    let s = signed_decimal(i);
    let n = if i < 0 {
        (-i) as nat
    } else {
        i as nat
    };
    lemma_decimal_reads_back(n);
    let d = decimal(n);
    assert(d[d.len() - 1] == s.last());
    if i < 0 {
        assert forall|j: int| 0 <= j < s.len() implies (#[trigger] s[j] == '-' || '0' <= s[j]
            <= '9') by {
            if j > 0 {
                assert(s[j] == d[j - 1]);
            }
        }
    }
}

/// The name `r.X.Z.mca` of a region says its coordinates, whatever 32-bit numbers they are.
pub proof fn law_file_name_round_trip(rx: i32, rz: i32)
    ensures
        region_name(file_name(rx as int, rz as int)) == (RegionName::Region { rx, rz }),
{
    let x = signed_decimal(rx as int);
    let z = signed_decimal(rz as int);
    let name = file_name(rx as int, rz as int);
    let rest = x + seq!['.'] + z + name_suffix();
    let core = x + seq!['.'] + z;
    lemma_signed_decimal_shape(rx as int);
    lemma_signed_decimal_shape(rz as int);
    assert(name.take(2) =~= name_prefix());
    assert(name.skip(2) =~= rest);
    assert(name.skip(name.len() - 4) =~= name_suffix());
    assert(trim_start(rest, name_prefix()) == rest) by {
        assert(rest[0] == x[0]);
        assert(rest.take(2)[0] == rest[0]);
    }
    assert(trim_start(name, name_prefix()) == rest);
    assert(rest.skip(rest.len() - 4) =~= name_suffix());
    assert(rest.take(rest.len() - 4) =~= core);
    assert(trim_end(core, name_suffix()) == core) by {
        assert(core.last() == z.last());
        if core.len() >= 4 {
            assert(core.skip(core.len() - 4)[3] == core.last());
        }
    }
    assert(name_core(name) == core);
    let k = x.len() as int;
    assert(only_dot(core, k)) by {
        assert forall|j: int| 0 <= j < core.len() && j != k implies #[trigger] core[j] != '.' by {
            if j < k {
                assert(core[j] == x[j]);
            } else {
                assert(core[j] == z[j - k - 1]);
            }
        }
    }
    lemma_only_dot_unique(core, choose|d: int| only_dot(core, d), k);
    assert(core.take(k) =~= x);
    assert(core.skip(k + 1) =~= z);
    law_i32_round_trip(rx);
    law_i32_round_trip(rz);
}

} // verus!
