//! What holds of region files, letter by letter and block by block.

use crate::region::{
    ends_with, merge_decision, name_core, name_prefix, name_suffix, only_dot, region_name,
    regions_of, starts_with, trim_end, trim_start, two_parts, CoreCorners, MergeAction, RegionName,
    RegionRange,
};
use crate::text::{
    decimal, i32_text, law_i32_round_trip, lemma_decimal_reads_back, signed_decimal,
};
use vstd::prelude::*;

verus! {

/// Whether a text has no dot.
pub open spec fn dot_free(s: Seq<char>) -> bool {
    forall|i: int| 0 <= i < s.len() ==> #[trigger] s[i] != '.'
}

/// A start that was put in front is stripped again.
proof fn lemma_strip_start(s: Seq<char>, p: Seq<char>)
    requires
        p.len() > 0,
    ensures
        trim_start(p + s, p) == trim_start(s, p),
{
    assert((p + s).take(p.len() as int) =~= p);
    assert((p + s).skip(p.len() as int) =~= s);
}

/// An end that was put behind is stripped again.
proof fn lemma_strip_end(s: Seq<char>, p: Seq<char>)
    requires
        p.len() > 0,
    ensures
        trim_end(s + p, p) == trim_end(s, p),
{
    assert((s + p).skip(s.len() as int) =~= p);
    assert((s + p).take(s.len() as int) =~= s);
}

/// What stands in front of the first dot decides whether a name goes on with another start.
proof fn lemma_start_stays(x: Seq<char>, rest: Seq<char>)
    requires
        dot_free(x),
        x != seq!['r'],
    ensures
        trim_start(x + seq!['.'] + rest, name_prefix()) == x + seq!['.'] + rest,
{
    let s = x + seq!['.'] + rest;
    if starts_with(s, name_prefix()) {
        assert(s.take(2)[0] == 'r' && s.take(2)[1] == '.');
        assert(s[0] == 'r' && s[1] == '.');
        if x.len() == 0 {
            assert(s[0] == '.');
        } else if x.len() == 1 {
            assert(s[0] == x[0]);
            assert(x =~= seq!['r']);
        } else {
            assert(s[1] == x[1]);
        }
    }
}

/// What stands behind the last dot decides whether a name has another end.
proof fn lemma_end_stays(front: Seq<char>, z: Seq<char>)
    requires
        dot_free(z),
        z != seq!['m', 'c', 'a'],
    ensures
        trim_end(front + seq!['.'] + z, name_suffix()) == front + seq!['.'] + z,
{
    let s = front + seq!['.'] + z;
    if ends_with(s, name_suffix()) {
        let n = s.len();
        let tail = s.skip(n - 4);
        assert(tail[0] == '.' && tail[1] == 'm' && tail[2] == 'c' && tail[3] == 'a');
        assert(s[n - 4] == '.' && s[n - 3] == 'm' && s[n - 2] == 'c' && s[n - 1] == 'a');
        let d = front.len() as int;
        assert(s[d] == '.');
        if z.len() > 3 {
            assert(s[n - 4] == z[z.len() - 4]);
        } else {
            assert(d >= n - 4);
            assert(d == n - 4);
            assert(z =~= seq!['m', 'c', 'a']);
        }
    }
}

/// Two texts without dots are the two parts of what they form around a dot.
proof fn lemma_two_parts(x: Seq<char>, z: Seq<char>)
    requires
        dot_free(x),
        dot_free(z),
    ensures
        two_parts(x + seq!['.'] + z) == Some((x, z)),
{
    let s = x + seq!['.'] + z;
    let k = x.len() as int;
    assert(only_dot(s, k)) by {
        assert forall|j: int| 0 <= j < s.len() && j != k implies #[trigger] s[j] != '.' by {
            if j < k {
                assert(s[j] == x[j]);
            } else {
                assert(s[j] == z[j - k - 1]);
            }
        }
    }
    let d = choose|d: int| only_dot(s, d);
    if d != k {
        assert(s[k] != '.');
    }
    assert(s.take(k) =~= x);
    assert(s.skip(k + 1) =~= z);
}

/// A file whose name does not start with `r.` or does not end with `.mca` is no region file.
pub proof fn law_other_files(name: Seq<char>)
    requires
        name.len() < 2 || name[0] != 'r' || name[1] != '.' || name.len() < 4 || name[name.len() - 4]
            != '.' || name[name.len() - 3] != 'm' || name[name.len() - 2] != 'c' || name[name.len()
            - 1] != 'a',
    ensures
        region_name(name) == RegionName::Other,
{
    if starts_with(name, name_prefix()) && ends_with(name, name_suffix()) {
        let head = name.take(2);
        let tail = name.skip(name.len() - 4);
        assert(head[0] == 'r' && head[1] == '.');
        assert(tail[0] == '.' && tail[1] == 'm' && tail[2] == 'c' && tail[3] == 'a');
        assert(name[0] == head[0] && name[1] == head[1]);
    }
}

/// Between `r.` and `.mca` stand two parts with a dot between them: the coordinates of the region
/// where both are numbers, and an error where one of them is not.
pub proof fn law_region_name_by_parts(x: Seq<char>, z: Seq<char>)
    requires
        dot_free(x),
        dot_free(z),
        x != seq!['r'],
        z != seq!['m', 'c', 'a'],
    ensures
        ({
            let name = seq!['r', '.'] + x + seq!['.'] + z + seq!['.', 'm', 'c', 'a'];
            match (i32_text(x), i32_text(z)) {
                (Some(rx), Some(rz)) => region_name(name) == (RegionName::Region { rx, rz }),
                _ => region_name(name) == RegionName::Invalid,
            }
        }),
{
    let core = x + seq!['.'] + z;
    let rest = core + name_suffix();
    let name = seq!['r', '.'] + x + seq!['.'] + z + seq!['.', 'm', 'c', 'a'];
    assert(name =~= name_prefix() + rest);
    assert(name.take(2) =~= name_prefix());
    assert(name.skip(name.len() - 4) =~= name_suffix());
    lemma_strip_start(rest, name_prefix());
    assert(rest =~= x + seq!['.'] + (z + name_suffix()));
    lemma_start_stays(x, z + name_suffix());
    lemma_strip_end(core, name_suffix());
    lemma_end_stays(x, z);
    assert(name_core(name) == core);
    lemma_two_parts(x, z);
}

/// A name with one part, or with more than two, between `r.` and `.mca` is no region file.
pub proof fn law_other_numbers_of_parts(x: Seq<char>, middle: Seq<char>, z: Seq<char>)
    requires
        dot_free(x),
        dot_free(z),
    ensures
        region_name(seq!['r', '.'] + x + seq!['.', 'm', 'c', 'a']) == RegionName::Other,
        x != seq!['r'] && z != seq!['m', 'c', 'a'] ==> region_name(
            seq!['r', '.'] + x + seq!['.'] + middle + seq!['.'] + z + seq!['.', 'm', 'c', 'a'],
        ) == RegionName::Other,
{
    let one = seq!['r', '.'] + x + seq!['.', 'm', 'c', 'a'];
    let rest = x + name_suffix();
    assert(one =~= name_prefix() + rest);
    lemma_strip_start(rest, name_prefix());
    if x == seq!['r'] {
        assert(rest =~= name_prefix() + seq!['m', 'c', 'a']);
        lemma_strip_start(seq!['m', 'c', 'a'], name_prefix());
        let mca = seq!['m', 'c', 'a'];
        assert(trim_start(mca, name_prefix()) == mca) by {
            assert(mca.take(2)[0] == 'm');
        }
        assert(trim_end(mca, name_suffix()) == mca);
        assert forall|k: int| !only_dot(mca, k) by {}
    } else {
        assert(rest =~= x + seq!['.'] + seq!['m', 'c', 'a']);
        lemma_start_stays(x, seq!['m', 'c', 'a']);
        lemma_strip_end(x, name_suffix());
        assert(trim_end(x, name_suffix()) == x) by {
            if ends_with(x, name_suffix()) {
                assert(x.skip(x.len() - 4)[0] == '.');
                assert(x[x.len() - 4] == '.');
            }
        }
        assert forall|k: int| !only_dot(x, k) by {}
    }
    if x != seq!['r'] && z != seq!['m', 'c', 'a'] {
        let name = seq!['r', '.'] + x + seq!['.'] + middle + seq!['.'] + z + seq![
            '.',
            'm',
            'c',
            'a',
        ];
        let core = x + seq!['.'] + middle + seq!['.'] + z;
        let tail = core + name_suffix();
        assert(name =~= name_prefix() + tail);
        lemma_strip_start(tail, name_prefix());
        assert(tail =~= x + seq!['.'] + (middle + seq!['.'] + z + name_suffix()));
        lemma_start_stays(x, middle + seq!['.'] + z + name_suffix());
        lemma_strip_end(core, name_suffix());
        lemma_end_stays(x + seq!['.'] + middle, z);
        assert(name_core(name) == core);
        let a = x.len() as int;
        let b = a + 1 + middle.len();
        assert(core[a] == '.' && core[b] == '.');
        assert forall|k: int| !only_dot(core, k) by {
            if only_dot(core, k) {
                assert(k == a || core[a] != '.');
                assert(k == b || core[b] != '.');
            }
        }
    }
}

/// Another `r.` in front of a region file name, or another `.mca` behind it, changes nothing.
pub proof fn law_repeated_start_and_end(core: Seq<char>)
    ensures
        ({
            let name = seq!['r', '.'] + core + seq!['.', 'm', 'c', 'a'];
            &&& region_name(seq!['r', '.'] + name) == region_name(name)
            &&& region_name(name + seq!['.', 'm', 'c', 'a']) == region_name(name)
        }),
{
    let name = seq!['r', '.'] + core + seq!['.', 'm', 'c', 'a'];
    let longer = seq!['r', '.'] + name;
    assert(longer.take(2) =~= name_prefix());
    assert(name.take(2) =~= name_prefix());
    assert(name.skip(name.len() - 4) =~= name_suffix());
    assert(longer.skip(longer.len() - 4) =~= name_suffix());
    lemma_strip_start(name, name_prefix());
    let wider = name + seq!['.', 'm', 'c', 'a'];
    assert(wider.take(2) =~= name_prefix());
    assert(wider.skip(wider.len() - 4) =~= name_suffix());
    lemma_start_ignores_end(name);
    lemma_strip_end(trim_start(name, name_prefix()), name_suffix());
}

/// Stripping the start of a name that ends in `.mca` does not depend on another `.mca` behind it.
proof fn lemma_start_ignores_end(s: Seq<char>)
    requires
        ends_with(s, name_suffix()) || s.len() >= 3 && s.skip(s.len() - 3) == seq!['m', 'c', 'a'],
    ensures
        trim_start(s + name_suffix(), name_prefix()) == trim_start(s, name_prefix())
            + name_suffix(),
    decreases s.len(),
{
    let w = s + name_suffix();
    let mca = seq!['m', 'c', 'a'];
    assert(s.len() >= 3 && s[s.len() - 3] == 'm' && s[s.len() - 2] == 'c' && s[s.len() - 1] == 'a')
        by {
        if ends_with(s, name_suffix()) {
            let t = s.skip(s.len() - 4);
            assert(t[1] == 'm' && t[2] == 'c' && t[3] == 'a');
        } else {
            let t = s.skip(s.len() - 3);
            assert(t[0] == 'm' && t[1] == 'c' && t[2] == 'a');
        }
    }
    assert(w.take(2) =~= s.take(2));
    if starts_with(s, name_prefix()) {
        let t = s.skip(2);
        assert(s.take(2)[0] == 'r' && s.take(2)[1] == '.');
        assert(s[0] == 'r' && s[1] == '.');
        assert(s.len() >= 5) by {
            if s.len() == 3 {
                assert(s[0] == 'm');
            }
            if s.len() == 4 {
                assert(s[1] == 'm');
            }
        }
        assert(w.skip(2) =~= t + name_suffix());
        assert(t.skip(t.len() - 3) =~= mca);
        lemma_start_ignores_end(t);
    }
}

/// Of the region files of a tile exactly those of the core range are taken, both ends of the range
/// included along either axis.
pub proof fn law_merge_takes_exactly_the_core(rx: i32, rz: i32, range: RegionRange)
    ensures
        ({
            let name = seq!['r', '.'] + signed_decimal(rx as int) + seq!['.'] + signed_decimal(
                rz as int,
            ) + seq!['.', 'm', 'c', 'a'];
            let taken = range.min_rx <= rx && rx <= range.max_rx && range.min_rz <= rz && rz
                <= range.max_rz;
            &&& taken ==> merge_decision(name, range) == MergeAction::Copy
            &&& !taken ==> merge_decision(name, range) == MergeAction::Skip
        }),
{
    let x = signed_decimal(rx as int);
    let z = signed_decimal(rz as int);
    lemma_number_has_no_dot(rx as int);
    lemma_number_has_no_dot(rz as int);
    law_i32_round_trip(rx);
    law_i32_round_trip(rz);
    law_region_name_by_parts(x, z);
}

/// The notation of a number has no dot, and is neither `r` nor `mca`.
proof fn lemma_number_has_no_dot(i: int)
    ensures
        dot_free(signed_decimal(i)),
        signed_decimal(i) != seq!['r'],
        signed_decimal(i) != seq!['m', 'c', 'a'],
{
    let n = if i < 0 {
        (-i) as nat
    } else {
        i as nat
    };
    lemma_decimal_reads_back(n);
    let d = decimal(n);
    let s = signed_decimal(i);
    assert forall|j: int| 0 <= j < s.len() implies #[trigger] s[j] == '-' || '0' <= s[j] <= '9' by {
        if i < 0 {
            if j > 0 {
                assert(s[j] == d[j - 1]);
            }
        } else {
            assert(s[j] == d[j]);
        }
    }
    assert(s[0] == '-' || '0' <= s[0] <= '9');
}

/// A file that is not a region file is left alone, and a malformed name is an error, whatever the
/// range.
pub proof fn law_merge_of_other_names(name: Seq<char>, range: RegionRange)
    ensures
        region_name(name) == RegionName::Other ==> merge_decision(name, range) == MergeAction::Skip,
        region_name(name) == RegionName::Invalid <==> merge_decision(name, range)
            == MergeAction::Reject,
        merge_decision(name, range) == MergeAction::Copy ==> region_name(name) is Region,
{
}

/// The name of every taken file gives coordinates in the range, and every name that gives such
/// coordinates is taken.
pub proof fn law_merge_goes_by_the_coordinates(name: Seq<char>, range: RegionRange)
    ensures
        region_name(name) matches RegionName::Region { rx, rz } ==> (merge_decision(name, range)
            == MergeAction::Copy <==> range.min_rx <= rx && rx <= range.max_rx && range.min_rz <= rz
            && rz <= range.max_rz),
{
}

/// A region is in the range of a tile exactly where, along both axes, one of its 512 blocks lies
/// between the corners of the core, in whatever order the corners come.
pub proof fn law_range_by_blocks(corners: CoreCorners, rx: int, rz: int)
    ensures
        ({
            let range = regions_of(corners);
            let (x1, x2) = (corners.min_x as int, corners.max_x as int);
            let (z1, z2) = (corners.min_z as int, corners.max_z as int);
            &&& range.min_rx <= rx <= range.max_rx <==> if x1 <= x2 {
                x1 < 512 * rx + 512 && 512 * rx <= x2
            } else {
                x2 < 512 * rx + 512 && 512 * rx <= x1
            }
            &&& range.min_rz <= rz <= range.max_rz <==> if z1 <= z2 {
                z1 < 512 * rz + 512 && 512 * rz <= z2
            } else {
                z2 < 512 * rz + 512 && 512 * rz <= z1
            }
        }),
{
}

} // verus!
